use vstd::prelude::*;
use crate::text::{chars_of, push_str, split_on, split_pieces, string_from_range, views};

verus! {

/// `pat` occurs in `s` starting at position `i`.
pub open spec fn occurs_at(s: Seq<char>, pat: Seq<char>, i: int) -> bool {
    0 <= i && i + pat.len() <= s.len() && s.subrange(i, i + pat.len()) == pat
}

/// `i` is the first position at which `pat` occurs in `s`.
pub open spec fn is_first_at(s: Seq<char>, pat: Seq<char>, i: int) -> bool {
    occurs_at(s, pat, i) && forall|k: int| 0 <= k < i ==> !occurs_at(s, pat, k)
}

/// `j` is the last position at which `pat` occurs in `s`.
pub open spec fn is_last_at(s: Seq<char>, pat: Seq<char>, j: int) -> bool {
    occurs_at(s, pat, j) && forall|k: int| j < k ==> !occurs_at(s, pat, k)
}

/// The span that a marker pair encloses on one line: from the first opener
/// to the last closer, when that closer starts after the opener ends.
pub open spec fn marked_span(s: Seq<char>, open: Seq<char>, close: Seq<char>) -> Option<(int, int)> {
    if exists|i: int, j: int|
        is_first_at(s, open, i) && is_last_at(s, close, j) && j >= i + open.len() {
        Some(
            choose|i: int, j: int|
                is_first_at(s, open, i) && is_last_at(s, close, j) && j >= i + open.len(),
        )
    } else {
        None
    }
}

/// One line with the text between a marker pair wrapped in `before` and
/// `after` (the markers themselves dropped); lines without such a pair
/// stay as they are.
pub open spec fn apply_marker(
    s: Seq<char>,
    open: Seq<char>,
    close: Seq<char>,
    before: Seq<char>,
    after: Seq<char>,
) -> Seq<char> {
    match marked_span(s, open, close) {
        Some((i, j)) => s.take(i) + before + s.subrange(i + open.len(), j) + after + s.skip(
            j + close.len(),
        ),
        None => s,
    }
}

/// A paragraph of an article as HTML: `**bold**`, then `*italic*`, then
/// `_underlined_`, then `{{image}}` are turned into their tags.
pub open spec fn rendered_paragraph(p: Seq<char>) -> Seq<char> {
    let bold = apply_marker(p, "**"@, "**"@, "<strong>"@, "</strong>"@);
    let italic = apply_marker(bold, "*"@, "*"@, "<i>"@, "</i>"@);
    let underlined = apply_marker(italic, "_"@, "_"@, "<span class='underline'>"@, "</span>"@);
    apply_marker(underlined, "{{"@, "}}"@, "<img src='"@, "' />"@)
}

proof fn lemma_first_unique(s: Seq<char>, pat: Seq<char>, i: int, k: int)
    requires
        is_first_at(s, pat, i),
        is_first_at(s, pat, k),
    ensures
        i == k,
{
    if i < k {
        assert(!occurs_at(s, pat, i));
    } else if k < i {
        assert(!occurs_at(s, pat, k));
    }
}

proof fn lemma_last_unique(s: Seq<char>, pat: Seq<char>, j: int, k: int)
    requires
        is_last_at(s, pat, j),
        is_last_at(s, pat, k),
    ensures
        j == k,
{
    if j < k {
        assert(!occurs_at(s, pat, k));
    } else if k < j {
        assert(!occurs_at(s, pat, j));
    }
}

fn matches_at(s: &Vec<char>, pat: &Vec<char>, i: usize) -> (r: bool)
    requires
        i + pat@.len() <= s@.len(),
    ensures
        r == occurs_at(s@, pat@, i as int),
{
    let sl = s.len();
    let mut j: usize = 0;
    while j < pat.len()
        invariant
            sl == s@.len(),
            i + pat@.len() <= s@.len(),
            j <= pat@.len(),
            forall|m: int| 0 <= m < j ==> s@[i + m] == pat@[m],
        decreases pat@.len() - j,
    {
        if s[i + j] != pat[j] {
            assert(s@.subrange(i as int, i + pat@.len())[j as int] == s@[i + j]);
            return false;
        }
        j = j + 1;
    }
    assert(s@.subrange(i as int, i + pat@.len()) =~= pat@);
    true
}

/// The first position at which `pat` occurs in `s`, if any.
fn find_first(s: &Vec<char>, pat: &Vec<char>) -> (r: Option<usize>)
    ensures
        r matches Some(i) ==> is_first_at(s@, pat@, i as int),
        r is None ==> forall|k: int| !occurs_at(s@, pat@, k),
{
    if pat.len() > s.len() {
        return None;
    }
    let last = s.len() - pat.len();
    let mut i: usize = 0;
    loop
        invariant
            last == s@.len() - pat@.len(),
            i <= last,
            forall|k: int| 0 <= k < i ==> !occurs_at(s@, pat@, k),
        decreases last - i,
    {
        if matches_at(s, pat, i) {
            return Some(i);
        }
        if i == last {
            return None;
        }
        i = i + 1;
    }
}

/// The last position at which `pat` occurs in `s`, if any.
fn find_last(s: &Vec<char>, pat: &Vec<char>) -> (r: Option<usize>)
    ensures
        r matches Some(j) ==> is_last_at(s@, pat@, j as int),
        r is None ==> forall|k: int| !occurs_at(s@, pat@, k),
{
    if pat.len() > s.len() {
        return None;
    }
    let mut i: usize = s.len() - pat.len();
    loop
        invariant
            i + pat@.len() <= s@.len(),
            forall|k: int| i < k ==> !occurs_at(s@, pat@, k),
        decreases i,
    {
        if matches_at(s, pat, i) {
            return Some(i);
        }
        if i == 0 {
            return None;
        }
        i = i - 1;
    }
}

/// Wraps the text between a marker pair of one line, as `apply_marker`
/// says.
pub fn mark_up(line: &str, open: &str, close: &str, before: &str, after: &str) -> (r: String)
    ensures
        r@ == apply_marker(line@, open@, close@, before@, after@),
{
    let s = chars_of(line);
    let o = chars_of(open);
    let c = chars_of(close);
    let sl = s.len();
    let first = find_first(&s, &o);
    let last = find_last(&s, &c);
    match (first, last) {
        (Some(i), Some(j)) => {
            if j >= i && j - i >= o.len() {
                proof {
                    let ghost pair = choose|a: int, b: int|
                        is_first_at(s@, o@, a) && is_last_at(s@, c@, b) && b >= a + o@.len();
                    lemma_first_unique(s@, o@, i as int, pair.0);
                    lemma_last_unique(s@, c@, j as int, pair.1);
                }
                let mut r = string_from_range(&s, 0, i);
                push_str(&mut r, before);
                let inner = string_from_range(&s, i + o.len(), j);
                push_str(&mut r, inner.as_str());
                push_str(&mut r, after);
                let rest = string_from_range(&s, j + c.len(), s.len());
                push_str(&mut r, rest.as_str());
                proof {
                    assert(s@.subrange(0, i as int) =~= s@.take(i as int));
                    assert(s@.subrange(j + c@.len(), s@.len() as int) =~= s@.skip(j + c@.len()));
                }
                r
            } else {
                proof {
                    assert forall|a: int, b: int|
                        is_first_at(s@, o@, a) && is_last_at(s@, c@, b) implies !(b >= a + o@.len()) by {
                        lemma_first_unique(s@, o@, i as int, a);
                        lemma_last_unique(s@, c@, j as int, b);
                    }
                }
                string_from_range(&s, 0, s.len())
            }
        },
        _ => {
            proof {
                assert(s@.subrange(0, s@.len() as int) =~= s@);
            }
            string_from_range(&s, 0, s.len())
        },
    }
}

/// One paragraph of an article as HTML.
pub fn render_paragraph(p: &str) -> (r: String)
    ensures
        r@ == rendered_paragraph(p@),
{
    let bold = mark_up(p, "**", "**", "<strong>", "</strong>");
    let italic = mark_up(bold.as_str(), "*", "*", "<i>", "</i>");
    let underlined = mark_up(italic.as_str(), "_", "_", "<span class='underline'>", "</span>");
    mark_up(underlined.as_str(), "{{", "}}", "<img src='", "' />")
}

/// The body of an article as HTML paragraphs: the contents cut at line
/// breaks, each line rendered.
pub fn article_body(contents: &str) -> (body: Vec<String>)
    ensures
        body@.len() == split_pieces(contents@, '\n').len(),
        forall|k: int| 0 <= k < body@.len() ==> (#[trigger] body@[k])@ == rendered_paragraph(
            split_pieces(contents@, '\n')[k],
        ),
{
    let lines = split_on(contents, '\n');
    let mut body: Vec<String> = Vec::new();
    for k in 0..lines.len()
        invariant
            views(lines@) == split_pieces(contents@, '\n'),
            body@.len() == k,
            forall|m: int| 0 <= m < k ==> (#[trigger] body@[m])@ == rendered_paragraph(
                split_pieces(contents@, '\n')[m],
            ),
    {
        let html = render_paragraph(lines[k].as_str());
        proof {
            assert(views(lines@)[k as int] == lines@[k as int]@);
        }
        body.push(html);
    }
    body
}

} // verus!

verus! {

proof fn lemma_no_marker(s: Seq<char>, open: Seq<char>, close: Seq<char>, before: Seq<char>, after: Seq<char>)
    requires
        open.len() > 0,
        !s.contains(open[0]),
    ensures
        apply_marker(s, open, close, before, after) == s,
{
    assert forall|i: int| !is_first_at(s, open, i) by {
        if occurs_at(s, open, i) {
            assert(s.subrange(i, i + open.len())[0] == s[i]);
        }
    }
}

/// A paragraph without any marker character (`*`, `_`, `{`) is shown as it
/// is written.
pub proof fn lemma_plain_paragraph(p: Seq<char>)
    requires
        !p.contains('*'),
        !p.contains('_'),
        !p.contains('{'),
    ensures
        rendered_paragraph(p) == p,
{
    reveal_strlit("**");
    reveal_strlit("*");
    reveal_strlit("_");
    reveal_strlit("{{");
    lemma_no_marker(p, "**"@, "**"@, "<strong>"@, "</strong>"@);
    lemma_no_marker(p, "*"@, "*"@, "<i>"@, "</i>"@);
    lemma_no_marker(p, "_"@, "_"@, "<span class='underline'>"@, "</span>"@);
    lemma_no_marker(p, "{{"@, "}}"@, "<img src='"@, "' />"@);
}


/// Where a line is `x`, an opener, `y`, a closer and `z`, no opener starts
/// before that one and no closer starts after that one, the text between
/// the two markers is wrapped and the markers are dropped: the line becomes
/// `x`, `before`, `y`, `after`, `z`.
pub proof fn lemma_marker_wraps(
    x: Seq<char>,
    y: Seq<char>,
    z: Seq<char>,
    open: Seq<char>,
    close: Seq<char>,
    before: Seq<char>,
    after: Seq<char>,
)
    requires
        forall|k: int| 0 <= k < x.len() ==> !occurs_at(x + open + y + close + z, open, k),
        forall|k: int| x.len() + open.len() + y.len() < k ==> !occurs_at(x + open + y + close + z, close, k),
    ensures
        apply_marker(x + open + y + close + z, open, close, before, after) == x + before + y + after + z,
{
    let s = x + open + y + close + z;
    let i = x.len() as int;
    let j: int = x.len() as int + open.len() + y.len();
    assert(s.subrange(i, i + open.len()) =~= open);
    assert(s.subrange(j, j + close.len()) =~= close);
    assert(is_first_at(s, open, i));
    assert(is_last_at(s, close, j));
    let pair = choose|a: int, b: int| is_first_at(s, open, a) && is_last_at(s, close, b) && b >= a + open.len();
    lemma_first_unique(s, open, i, pair.0);
    lemma_last_unique(s, close, j, pair.1);
    assert(s.take(i) =~= x);
    assert(s.subrange(i + open.len(), j) =~= y);
    assert(s.skip(j + close.len()) =~= z);
}

/// A paragraph with one `**`-marked run and no other marker character
/// (`*`, `_`, `{`) anywhere shows that run in bold and the rest as written.
pub proof fn lemma_bold_paragraph(x: Seq<char>, y: Seq<char>, z: Seq<char>)
    requires
        !x.contains('*') && !x.contains('_') && !x.contains('{'),
        !y.contains('*') && !y.contains('_') && !y.contains('{'),
        !z.contains('*') && !z.contains('_') && !z.contains('{'),
    ensures
        rendered_paragraph(x + "**"@ + y + "**"@ + z) == x + "<strong>"@ + y + "</strong>"@ + z,
{
    reveal_strlit("**");
    reveal_strlit("*");
    reveal_strlit("_");
    reveal_strlit("{{");
    reveal_strlit("<strong>");
    reveal_strlit("</strong>");
    let star2 = "**"@;
    let p = x + star2 + y + star2 + z;
    assert forall|k: int| 0 <= k < x.len() implies !occurs_at(p, star2, k) by {
        if occurs_at(p, star2, k) {
            assert(p.subrange(k, k + 2)[0] == p[k]);
            assert(p[k] == x[k]);
        }
    }
    assert forall|k: int| x.len() + 2 + y.len() < k implies !occurs_at(p, star2, k) by {
        if occurs_at(p, star2, k) {
            assert(p.subrange(k, k + 2)[0] == p[k]);
            assert(p[k] == z[k - (x.len() + 4 + y.len())]);
        }
    }
    lemma_marker_wraps(x, y, z, star2, star2, "<strong>"@, "</strong>"@);
    let bold = x + "<strong>"@ + y + "</strong>"@ + z;
    assert(!bold.contains('*') && !bold.contains('_') && !bold.contains('{')) by {
        assert forall|k: int| 0 <= k < bold.len() implies bold[k] != '*' && bold[k] != '_' && bold[k] != '{' by {
            let a = x.len();
            let b = a + 8;
            let c = b + y.len();
            let d = c + 9;
            if k < a {
                assert(bold[k] == x[k]);
            } else if k < b {
                assert(bold[k] == "<strong>"@[k - a]);
            } else if k < c {
                assert(bold[k] == y[k - b]);
            } else if k < d {
                assert(bold[k] == "</strong>"@[k - c]);
            } else {
                assert(bold[k] == z[k - d]);
            }
        }
    }
    lemma_no_marker(bold, "*"@, "*"@, "<i>"@, "</i>"@);
    lemma_no_marker(bold, "_"@, "_"@, "<span class='underline'>"@, "</span>"@);
    lemma_no_marker(bold, "{{"@, "}}"@, "<img src='"@, "' />"@);
}

} // verus!
