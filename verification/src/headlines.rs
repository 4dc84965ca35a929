use vstd::prelude::*;
use crate::numbers::{decimal, decimal_string, parse_i64, parsed_i64};
use crate::order::{descending_order, descending_positions};
use crate::text::{chars_of, push_char, push_str, split_on, split_pieces, string_from_range, string_or_empty, text_or_empty, views};

verus! {

/// The columns of one row of the headlines table, each `None` where the
/// column could not be read as its type.
pub struct HeadlineRow {
    pub rank: Option<i32>,
    pub contents: Option<String>,
}

/// The rank of the row at position `k`: its own rank, or `-(k + 1)` where it
/// has none, so that unranked rows sort after ranked ones in table order.
pub open spec fn headline_rank(rows: Seq<HeadlineRow>, k: int) -> i64 {
    match rows[k].rank {
        Some(r) => r as i64,
        None => (-(k + 1)) as i64,
    }
}

/// The ranks of all rows, in table order.
pub open spec fn headline_ranks(rows: Seq<HeadlineRow>) -> Seq<i64> {
    Seq::new(rows.len(), |k: int| headline_rank(rows, k))
}

/// The headlines, highest rank first (equal ranks keep the table order).
pub fn get_headlines(rows: Vec<HeadlineRow>) -> (r: Vec<String>)
    requires
        rows@.len() <= i32::MAX,
        forall|k: int| 0 <= k < rows@.len() ==> (#[trigger] rows@[k]).rank != Some(i32::MIN),
    ensures
        r@.len() == rows@.len(),
        crate::order::is_descending_order(headline_ranks(rows@), descending_positions(headline_ranks(rows@))),
        forall|p: int|
            0 <= p < r@.len() ==> (#[trigger] r@[p])@ == text_or_empty(
                rows@[descending_positions(headline_ranks(rows@))[p] as int].contents,
            ),
{
    let mut ranks: Vec<i64> = Vec::new();
    let mut index: i64 = -1;
    for k in 0..rows.len()
        invariant
            rows@.len() <= i32::MAX,
            ranks@ =~= headline_ranks(rows@).take(k as int),
            index == -(k + 1),
    {
        let rank: i64 = match rows[k].rank {
            Some(r) => r as i64,
            None => index,
        };
        ranks.push(rank);
        index = index - 1;
    }
    assert(ranks@ =~= headline_ranks(rows@));
    let ord = descending_order(&ranks);
    let mut out: Vec<String> = Vec::new();
    for p in 0..ord.len()
        invariant
            ranks@ == headline_ranks(rows@),
            ord@ == descending_positions(ranks@),
            crate::order::is_descending_order(ranks@, ord@),
            out@.len() == p,
            forall|m: int| 0 <= m < p ==> (#[trigger] out@[m])@ == text_or_empty(rows@[ord@[m] as int].contents),
    {
        out.push(string_or_empty(&rows[ord[p]].contents));
    }
    out
}

/// One line of the headline editor: the position (from one), a space, the
/// headline and a line break.
pub open spec fn editor_line(k: int, headline: Seq<char>) -> Seq<char> {
    decimal(k + 1) + seq![' '] + headline + seq!['\n']
}

/// The text of the headline editor: one numbered line per headline.
pub open spec fn editor_text(headlines: Seq<Seq<char>>) -> Seq<char> {
    Seq::new(headlines.len(), |k: int| editor_line(k, headlines[k])).flatten()
}

/// The text of the headline editor for the current headlines.
pub fn headline_editor_text(headlines: Vec<String>) -> (txt: String)
    requires
        headlines@.len() <= i32::MAX,
    ensures
        txt@ == editor_text(views(headlines@)),
{
    let ghost hs = views(headlines@);
    let mut txt = String::new();
    for k in 0..headlines.len()
        invariant
            hs == views(headlines@),
            headlines@.len() <= i32::MAX,
            txt@ == Seq::new(k as nat, |j: int| editor_line(j, hs[j])).flatten(),
    {
        let number = decimal_string((k + 1) as i64);
        push_str(&mut txt, number.as_str());
        push_char(&mut txt, ' ');
        push_str(&mut txt, headlines[k].as_str());
        push_char(&mut txt, '\n');
        proof {
            let done = Seq::new(k as nat, |j: int| editor_line(j, hs[j]));
            assert(hs[k as int] == headlines@[k as int]@);
            assert(Seq::new((k + 1) as nat, |j: int| editor_line(j, hs[j])) =~= done.push(editor_line(k as int, hs[k as int])));
            done.lemma_flatten_push(editor_line(k as int, hs[k as int]));
            assert(txt@ =~= done.flatten() + editor_line(k as int, hs[k as int]));
        }
    }
    txt
}

/// The submitted headline editor text.
pub struct HeadlineEdit {
    pub new_headlines: String,
}

/// One headline to store: its rank and its text.
pub struct HeadlineEntry {
    pub rank: i64,
    pub contents: String,
}

/// The headline a line of the editor gives: the line is cut at its first
/// space; lines without a space, or with nothing before or after it, give
/// none; the part before is the rank (zero where it does not parse as an
/// integer).
pub open spec fn line_entry(line: Seq<char>) -> Option<(int, Seq<char>)> {
    if exists|i: int| 0 <= i < line.len() && line[i] == ' ' {
        let p = choose|p: int|
            0 <= p < line.len() && line[p] == ' ' && forall|m: int| 0 <= m < p ==> line[m] != ' ';
        let head = line.take(p);
        let tail = line.skip(p + 1);
        if head.len() == 0 || tail.len() == 0 {
            None
        } else {
            Some(
                (
                    match parsed_i64(head) {
                        Some(v) => v,
                        None => 0,
                    },
                    tail,
                ),
            )
        }
    } else {
        None
    }
}

/// The entries of the editor text: one per line that gives one, in order.
pub open spec fn edit_entries(text: Seq<char>) -> Seq<(int, Seq<char>)> {
    split_pieces(text, '\n').map_values(
        |line: Seq<char>|
            match line_entry(line) {
                Some(e) => seq![e],
                None => Seq::empty(),
            },
    ).flatten()
}

/// The rank and text of a stored entry.
pub open spec fn entry_view(e: HeadlineEntry) -> (int, Seq<char>) {
    (e.rank as int, e.contents@)
}

/// The entry of one editor line, if it gives one.
fn entry_of_line(line: &str) -> (r: Option<HeadlineEntry>)
    ensures
        r matches Some(e) ==> line_entry(line@) == Some(entry_view(e)),
        r is None ==> line_entry(line@) is None,
{
    let cs = chars_of(line);
    let mut p: usize = 0;
    while p < cs.len() && cs[p] != ' '
        invariant
            cs@ == line@,
            p <= cs@.len(),
            forall|m: int| 0 <= m < p ==> cs@[m] != ' ',
        decreases cs@.len() - p,
    {
        p = p + 1;
    }
    if p == cs.len() {
        return None;
    }
    proof {
        let q = choose|q: int|
            0 <= q < line@.len() && line@[q] == ' ' && forall|m: int| 0 <= m < q ==> line@[m] != ' ';
        if q < p {
            assert(cs@[q] != ' ');
        }
        if p < q {
            assert(line@[p as int] != ' ');
        }
    }
    if p == 0 || p + 1 == cs.len() {
        proof {
            assert(line@.take(p as int).len() == 0 || line@.skip(p + 1).len() == 0);
        }
        return None;
    }
    let head = string_from_range(&cs, 0, p);
    let tail = string_from_range(&cs, p + 1, cs.len());
    proof {
        assert(head@ =~= line@.take(p as int));
        assert(tail@ =~= line@.skip(p + 1));
    }
    let rank = match parse_i64(head.as_str()) {
        Some(v) => v,
        None => 0,
    };
    Some(HeadlineEntry { rank, contents: tail })
}

/// The headlines that a submitted editor text asks to store, in order.
pub fn parse_headline_edit(input: &HeadlineEdit) -> (r: Vec<HeadlineEntry>)
    ensures
        r@.map_values(|e: HeadlineEntry| entry_view(e)) == edit_entries(input.new_headlines@),
{
    let lines = split_on(input.new_headlines.as_str(), '\n');
    let ghost ls = views(lines@);
    let mut out: Vec<HeadlineEntry> = Vec::new();
    for k in 0..lines.len()
        invariant
            ls == views(lines@),
            ls == split_pieces(input.new_headlines@, '\n'),
            out@.map_values(|e: HeadlineEntry| entry_view(e)) == ls.take(k as int).map_values(
                |line: Seq<char>|
                    match line_entry(line) {
                        Some(e) => seq![e],
                        None => Seq::empty(),
                    },
            ).flatten(),
    {
        let ghost f = |line: Seq<char>|
            match line_entry(line) {
                Some(e) => seq![e],
                None => Seq::<(int, Seq<char>)>::empty(),
            };
        let ghost done = ls.take(k as int).map_values(f);
        let ghost old_out = out@;
        let e = entry_of_line(lines[k].as_str());
        proof {
            assert(ls[k as int] == lines@[k as int]@);
            assert(ls.take(k + 1).map_values(f) =~= done.push(f(ls[k as int])));
            done.lemma_flatten_push(f(ls[k as int]));
        }
        match e {
            Some(entry) => {
                out.push(entry);
                proof {
                    assert(out@.map_values(|e: HeadlineEntry| entry_view(e)) =~= old_out.map_values(
                        |e: HeadlineEntry| entry_view(e),
                    ).push(entry_view(entry)));
                }
            },
            None => {
                proof {
                    assert(f(ls[k as int]) =~= Seq::<(int, Seq<char>)>::empty());
                    assert(done.flatten() + Seq::<(int, Seq<char>)>::empty() =~= done.flatten());
                }
            },
        }
    }
    assert(ls.take(lines@.len() as int) =~= ls);
    out
}

} // verus!

verus! {

/// The editor line of headline `k` without its line break.
pub open spec fn bare_line(k: int, headline: Seq<char>) -> Seq<char> {
    decimal(k + 1) + seq![' '] + headline
}

proof fn lemma_bare_line(k: int, h: Seq<char>)
    requires
        0 <= k < i64::MAX,
        h.len() > 0,
    ensures
        line_entry(bare_line(k, h)) == Some((k + 1, h)),
        !h.contains('\n') ==> !bare_line(k, h).contains('\n'),
{
    let d = decimal(k + 1);
    crate::numbers::lemma_digits_of((k + 1) as nat);
    crate::numbers::lemma_parse_decimal(k + 1);
    let line = bare_line(k, h);
    let p = d.len() as int;
    assert(line[p] == ' ');
    assert forall|m: int| 0 <= m < p implies line[m] != ' ' by {
        assert(line[m] == d[m]);
        assert('0' <= d[m] <= '9');
    }
    let q = choose|q: int|
        0 <= q < line.len() && line[q] == ' ' && forall|m: int| 0 <= m < q ==> line[m] != ' ';
    if q < p {
        assert(line[q] != ' ');
    }
    if p < q {
        assert(line[p] != ' ');
    }
    assert(line.take(p) =~= d);
    assert(line.skip(p + 1) =~= h);
    if !h.contains('\n') {
        if line.contains('\n') {
            let i = choose|i: int| 0 <= i < line.len() && line[i] == '\n';
            if i < p {
                assert('0' <= d[i] <= '9');
            } else if i > p {
                assert(h[i - p - 1] == line[i]);
            }
        }
    }
}

proof fn lemma_entries_flatten(hs: Seq<Seq<char>>, n: int)
    requires
        0 <= n <= hs.len(),
    ensures
        Seq::new(n as nat, |k: int| seq![(k + 1, hs[k])]).flatten() == Seq::new(n as nat, |k: int| (k + 1, hs[k])),
    decreases n,
{
    if n > 0 {
        lemma_entries_flatten(hs, n - 1);
        let prev = Seq::new((n - 1) as nat, |k: int| seq![(k + 1, hs[k])]);
        assert(Seq::new(n as nat, |k: int| seq![(k + 1, hs[k])]) =~= prev.push(seq![(n, hs[n - 1])]));
        prev.lemma_flatten_push(seq![(n, hs[n - 1])]);
        assert(Seq::new(n as nat, |k: int| (k + 1, hs[k])) =~= Seq::new((n - 1) as nat, |k: int| (k + 1, hs[k])).push(
            (n, hs[n - 1]),
        ));
    } else {
        assert(Seq::new(0, |k: int| seq![(k + 1, hs[k])]) =~= Seq::<Seq<(int, Seq<char>)>>::empty());
        assert(Seq::new(0, |k: int| (k + 1, hs[k])) =~= Seq::<(int, Seq<char>)>::empty());
    }
}

/// Submitting the headline editor unchanged stores the headlines it shows,
/// ranked from one in the order shown (for headlines that are not empty and
/// hold no line break).
pub proof fn lemma_editor_round_trip(hs: Seq<Seq<char>>)
    requires
        hs.len() < i64::MAX,
        forall|k: int| 0 <= k < hs.len() ==> (#[trigger] hs[k]).len() > 0 && !hs[k].contains('\n'),
    ensures
        edit_entries(editor_text(hs)) == Seq::new(hs.len(), |k: int| (k + 1, hs[k])),
{
    let n = hs.len();
    let e = Seq::<char>::empty();
    let lines = Seq::new(n, |k: int| bare_line(k, hs[k]));
    let all = lines.push(e);
    let text = editor_text(hs);
    crate::text::lemma_joined_terminated(lines, '\n');
    assert forall|k: int| 0 <= k < n implies #[trigger] editor_line(k, hs[k]) == bare_line(k, hs[k]).push('\n') by {
        assert(editor_line(k, hs[k]) =~= bare_line(k, hs[k]).push('\n'));
    }
    assert(Seq::new(n, |k: int| editor_line(k, hs[k])) =~= lines.map_values(|p: Seq<char>| p.push('\n')));
    assert forall|k: int| 0 <= k < all.len() implies !(#[trigger] all[k]).contains('\n') by {
        if k < n {
            lemma_bare_line(k, hs[k]);
        }
    }
    assert(crate::text::is_split(all, text, '\n'));
    crate::text::lemma_split_unique(all, split_pieces(text, '\n'), text, '\n');
    let f = |line: Seq<char>|
        match line_entry(line) {
            Some(e) => seq![e],
            None => Seq::<(int, Seq<char>)>::empty(),
        };
    assert(line_entry(e) is None);
    assert forall|k: int| 0 <= k < n implies #[trigger] f(lines[k]) == seq![(k + 1, hs[k])] by {
        lemma_bare_line(k, hs[k]);
    }
    assert(lines.map_values(f) =~= Seq::new(n, |k: int| seq![(k + 1, hs[k])]));
    assert(all.map_values(f) =~= lines.map_values(f).push(Seq::empty()));
    lines.map_values(f).lemma_flatten_push(Seq::empty());
    lemma_entries_flatten(hs, n as int);
    assert(all.map_values(f).flatten() =~= Seq::new(n, |k: int| (k + 1, hs[k])));
}


/// In the order that the headlines are listed (descending rank, ties in
/// table order), a headline with a rank of zero or more comes before every
/// headline without a rank, and headlines without a rank keep their table
/// order.
pub proof fn lemma_unranked_last(rows: Seq<HeadlineRow>, ord: Seq<usize>, p: int, q: int)
    requires
        rows.len() <= i32::MAX,
        crate::order::is_descending_order(headline_ranks(rows), ord),
        0 <= p < ord.len(),
        0 <= q < ord.len(),
        p != q,
        rows[ord[q] as int].rank is None,
    ensures
        rows[ord[p] as int].rank matches Some(r) && r >= 0 ==> p < q,
        rows[ord[p] as int].rank is None ==> (p < q <==> ord[p] < ord[q]),
{
    let keys = headline_ranks(rows);
    assert(ord[p] < keys.len());
    assert(ord[q] < keys.len());
    assert(keys[ord[p] as int] == headline_rank(rows, ord[p] as int));
    assert(keys[ord[q] as int] == headline_rank(rows, ord[q] as int));
    if p < q {
        assert(crate::order::comes_before(keys, ord[p] as int, ord[q] as int));
    } else {
        assert(crate::order::comes_before(keys, ord[q] as int, ord[p] as int));
    }
}

} // verus!
