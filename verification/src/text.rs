use vstd::prelude::*;
use vstd::string::StringExecFns;

verus! {

/// The character sequences of a sequence of strings.
pub open spec fn views(v: Seq<String>) -> Seq<Seq<char>> {
    v.map_values(|s: String| s@)
}

/// Joins pieces with a separator between each two neighbours.
pub open spec fn joined(parts: Seq<Seq<char>>, sep: char) -> Seq<char>
    decreases parts.len(),
{
    if parts.len() == 0 {
        Seq::empty()
    } else if parts.len() == 1 {
        parts[0]
    } else {
        joined(parts.drop_last(), sep) + seq![sep] + parts.last()
    }
}

/// A valid way to cut `s` at `sep`: the pieces joined by `sep` give `s`
/// back and no piece holds `sep`.
pub open spec fn is_split(parts: Seq<Seq<char>>, s: Seq<char>, sep: char) -> bool {
    &&& parts.len() >= 1
    &&& joined(parts, sep) == s
    &&& forall|i: int| 0 <= i < parts.len() ==> !(#[trigger] parts[i]).contains(sep)
}

/// The pieces of `s` between the occurrences of `sep` (there is exactly
/// one way to cut, see `lemma_split_unique`).
pub open spec fn split_pieces(s: Seq<char>, sep: char) -> Seq<Seq<char>> {
    choose|parts: Seq<Seq<char>>| is_split(parts, s, sep)
}

/// Every character `from` replaced by `to`.
pub open spec fn replaced(s: Seq<char>, from: char, to: char) -> Seq<char> {
    s.map_values(|c: char| if c == from { to } else { c })
}

/// `needle` occurs in `hay` as a contiguous run.
pub open spec fn occurs_in(needle: Seq<char>, hay: Seq<char>) -> bool {
    exists|i: int| 0 <= i <= hay.len() - needle.len() && #[trigger] hay.subrange(i, i + needle.len()) == needle
}

/// `String::push`: appends one character.
#[verifier::external_body]
pub(crate) fn push_char(s: &mut String, c: char)
    ensures
        final(s)@ == old(s)@.push(c),
{
    s.push(c);
}

/// Appends a string slice.
pub fn push_str(s: &mut String, t: &str)
    ensures
        final(s)@ == old(s)@ + t@,
{
    s.append(t);
}

/// The characters of a string slice, in order.
pub fn chars_of(s: &str) -> (v: Vec<char>)
    ensures
        v@ == s@,
{
    broadcast use vstd::string::group_string_axioms;

    let mut v: Vec<char> = Vec::new();
    for c in it: s.chars()
        invariant
            it.seq() == s@,
            v@ == it.seq().take(it.index()),
    {
        v.push(c);
    }
    v
}

/// Builds a string from a run of characters.
pub fn string_from(v: &[char]) -> (s: String)
    ensures
        s@ == v@,
{
    let mut s = String::new();
    for i in 0..v.len()
        invariant
            s@ == v@.take(i as int),
    {
        push_char(&mut s, v[i]);
        assert(v@.take(i as int).push(v@[i as int]) =~= v@.take(i + 1));
    }
    assert(v@.take(v.len() as int) =~= v@);
    s
}

/// Builds a string from the characters `v[start..end]`.
pub fn string_from_range(v: &[char], start: usize, end: usize) -> (s: String)
    requires
        start <= end <= v@.len(),
    ensures
        s@ == v@.subrange(start as int, end as int),
{
    let mut s = String::new();
    let mut i = start;
    while i < end
        invariant
            start <= i <= end <= v@.len(),
            s@ == v@.subrange(start as int, i as int),
        decreases end - i,
    {
        push_char(&mut s, v[i]);
        assert(v@.subrange(start as int, i as int).push(v@[i as int]) =~= v@.subrange(start as int, i + 1));
        i = i + 1;
    }
    s
}

/// Every character `from` in `s` replaced by `to` (as `str::replace` does
/// with one-character patterns).
pub fn replace_char(s: &str, from: char, to: char) -> (r: String)
    ensures
        r@ == replaced(s@, from, to),
{
    let cs = chars_of(s);
    let mut out = String::new();
    for i in 0..cs.len()
        invariant
            cs@ == s@,
            out@ == replaced(s@.take(i as int), from, to),
    {
        if cs[i] == from {
            push_char(&mut out, to);
        } else {
            push_char(&mut out, cs[i]);
        }
        assert(replaced(s@.take(i as int), from, to).push(if cs@[i as int] == from { to } else { cs@[i as int] })
            =~= replaced(s@.take(i + 1), from, to));
    }
    assert(s@.take(cs.len() as int) =~= s@);
    out
}

proof fn lemma_joined_extend(parts: Seq<Seq<char>>, sep: char, c: char)
    requires
        parts.len() >= 1,
    ensures
        joined(parts.update(parts.len() - 1, parts.last().push(c)), sep) == joined(parts, sep).push(c),
        joined(parts.push(Seq::empty()), sep) == joined(parts, sep).push(sep),
{
    let up = parts.update(parts.len() - 1, parts.last().push(c));
    if parts.len() == 1 {
        assert(joined(up, sep) == up[0]);
    } else {
        assert(up.drop_last() =~= parts.drop_last());
        assert(joined(up, sep) =~= joined(parts, sep).push(c));
    }
    let pushed = parts.push(Seq::<char>::empty());
    assert(pushed.drop_last() =~= parts);
    assert(joined(pushed, sep) =~= joined(parts, sep).push(sep));
}

proof fn lemma_joined_has_sep(parts: Seq<Seq<char>>, sep: char)
    requires
        parts.len() > 1,
    ensures
        joined(parts, sep)[joined(parts.drop_last(), sep).len() as int] == sep,
        joined(parts, sep).len() == joined(parts.drop_last(), sep).len() + 1 + parts.last().len(),
{
}

/// Cutting a text at a separator can be done in one way only: two
/// sequences of separator-free pieces that join to the same text are equal.
pub proof fn lemma_split_unique(a: Seq<Seq<char>>, b: Seq<Seq<char>>, s: Seq<char>, sep: char)
    requires
        is_split(a, s, sep),
        is_split(b, s, sep),
    ensures
        a == b,
    decreases a.len(),
{
    if a.len() == 1 && b.len() == 1 {
        assert(a =~= b);
    } else if a.len() == 1 {
        lemma_joined_has_sep(b, sep);
        assert(a[0][joined(b.drop_last(), sep).len() as int] == sep);
    } else if b.len() == 1 {
        lemma_joined_has_sep(a, sep);
        assert(b[0][joined(a.drop_last(), sep).len() as int] == sep);
    } else {
        lemma_joined_has_sep(a, sep);
        lemma_joined_has_sep(b, sep);
        let x = joined(a.drop_last(), sep);
        let y = joined(b.drop_last(), sep);
        let la = a.last();
        let lb = b.last();
        assert(s == x + seq![sep] + la);
        assert(s == y + seq![sep] + lb);
        if la.len() < lb.len() {
            let p = x.len() as int;
            assert(s[p] == sep);
            assert(lb[p - (y.len() + 1)] == s[p]);
            assert(b[b.len() - 1] == lb);
        } else if lb.len() < la.len() {
            let p = y.len() as int;
            assert(s[p] == sep);
            assert(la[p - (x.len() + 1)] == s[p]);
            assert(a[a.len() - 1] == la);
        } else {
            assert(la =~= s.subrange(x.len() + 1int, s.len() as int));
            assert(lb =~= s.subrange(y.len() + 1int, s.len() as int));
            assert(x =~= s.subrange(0, x.len() as int));
            assert(y =~= s.subrange(0, y.len() as int));
            assert forall|i: int| 0 <= i < a.drop_last().len() implies !(#[trigger] a.drop_last()[i]).contains(sep) by {
                assert(a.drop_last()[i] == a[i]);
            }
            assert forall|i: int| 0 <= i < b.drop_last().len() implies !(#[trigger] b.drop_last()[i]).contains(sep) by {
                assert(b.drop_last()[i] == b[i]);
            }
            lemma_split_unique(a.drop_last(), b.drop_last(), x, sep);
            assert(a =~= b.drop_last().push(lb));
            assert(b =~= b.drop_last().push(lb));
        }
    }
}

/// Splits `s` at every occurrence of `sep`, as `str::split` with a
/// one-character pattern does.
pub fn split_on(s: &str, sep: char) -> (r: Vec<String>)
    ensures
        views(r@) == split_pieces(s@, sep),
        is_split(views(r@), s@, sep),
{
    let cs = chars_of(s);
    let mut parts: Vec<String> = Vec::new();
    let mut start: usize = 0;
    let mut i: usize = 0;
    while i < cs.len()
        invariant
            cs@ == s@,
            start <= i <= cs@.len(),
            joined(views(parts@).push(cs@.subrange(start as int, i as int)), sep) == cs@.take(i as int),
            forall|k: int| 0 <= k < parts@.len() ==> !(#[trigger] parts@[k])@.contains(sep),
            forall|k: int| start <= k < i ==> cs@[k] != sep,
        decreases cs@.len() - i,
    {
        let ghost old_views = views(parts@).push(cs@.subrange(start as int, i as int));
        if cs[i] == sep {
            let piece = string_from_range(&cs, start, i);
            parts.push(piece);
            proof {
                lemma_joined_extend(old_views, sep, sep);
                assert(views(parts@) =~= old_views);
                assert(cs@.subrange(i + 1, i + 1) =~= Seq::<char>::empty());
                assert(views(parts@).push(cs@.subrange(i + 1, i + 1)) =~= old_views.push(Seq::empty()));
                assert(cs@.take(i as int).push(sep) =~= cs@.take(i + 1));
                assert forall|k: int| 0 <= k < parts@.len() implies !(#[trigger] parts@[k])@.contains(sep) by {
                    if k == parts@.len() - 1 {
                        if parts@[k]@.contains(sep) {
                            let j = choose|j: int| 0 <= j < parts@[k]@.len() && parts@[k]@[j] == sep;
                            assert(cs@[start + j] == sep);
                        }
                    }
                }
            }
            start = i + 1;
        } else {
            proof {
                lemma_joined_extend(old_views, sep, cs@[i as int]);
                assert(cs@.subrange(start as int, i as int).push(cs@[i as int]) =~= cs@.subrange(start as int, i + 1));
                assert(old_views.last() == cs@.subrange(start as int, i as int));
                assert(old_views.update(old_views.len() - 1, old_views.last().push(cs@[i as int]))
                    =~= views(parts@).push(cs@.subrange(start as int, i + 1)));
                assert(cs@.take(i as int).push(cs@[i as int]) =~= cs@.take(i + 1));
            }
        }
        i = i + 1;
    }
    let ghost before = views(parts@);
    let last = string_from_range(&cs, start, cs.len());
    parts.push(last);
    proof {
        assert(views(parts@) =~= before.push(cs@.subrange(start as int, cs@.len() as int)));
        assert(cs@.take(cs@.len() as int) =~= s@);
        assert forall|k: int| 0 <= k < views(parts@).len() implies !(#[trigger] views(parts@)[k]).contains(sep) by {
            if k == parts@.len() - 1 {
                if parts@[k]@.contains(sep) {
                    let j = choose|j: int| 0 <= j < parts@[k]@.len() && parts@[k]@[j] == sep;
                    assert(cs@[start + j] == sep);
                }
            } else {
                assert(views(parts@)[k] == parts@[k]@);
            }
        }
        assert(is_split(views(parts@), s@, sep));
        lemma_split_unique(views(parts@), split_pieces(s@, sep), s@, sep);
    }
    parts
}

} // verus!

verus! {

/// Whether `needle` occurs in `hay`, as `str::contains` answers for a
/// string pattern.
pub fn contains_text(hay: &str, needle: &str) -> (r: bool)
    ensures
        r == occurs_in(needle@, hay@),
{
    let h = chars_of(hay);
    let n = chars_of(needle);
    if n.len() > h.len() {
        return false;
    }
    let hl = h.len();
    let last = hl - n.len();
    let mut i: usize = 0;
    while i <= last
        invariant
            h@ == hay@,
            n@ == needle@,
            last == h@.len() - n@.len(),
            i <= last,
            n@.len() <= h@.len(),
            hl == h@.len(),
            forall|k: int| 0 <= k < i ==> #[trigger] hay@.subrange(k, k + needle@.len()) != needle@,
        decreases last + 1 - i,
    {
        let mut j: usize = 0;
        let mut same = true;
        while j < n.len()
            invariant
                h@ == hay@,
                n@ == needle@,
                i <= last,
                last == h@.len() - n@.len(),
                n@.len() <= h@.len(),
                hl == h@.len(),
                j <= n@.len(),
                same == (forall|m: int| 0 <= m < j ==> h@[i + m] == n@[m]),
            decreases n@.len() - j,
        {
            assert(i + j < h@.len());
            let idx = i + j;
            same = same && h[idx] == n[j];
            j = j + 1;
        }
        if same {
            assert(hay@.subrange(i as int, i + needle@.len()) =~= needle@);
            return true;
        }
        let ghost k = i as int;
        assert(hay@.subrange(k, k + needle@.len()) != needle@) by {
            let m = choose|m: int| 0 <= m < n@.len() && h@[i + m] != n@[m];
            assert(hay@.subrange(k, k + needle@.len())[m] == h@[i + m]);
        }
        if i == last {
            assert forall|k: int| 0 <= k <= hay@.len() - needle@.len() implies #[trigger] hay@.subrange(k, k + needle@.len()) != needle@ by {
            }
            return false;
        }
        i = i + 1;
    }
    false
}

} // verus!

verus! {

/// The text of an optional string; empty where there is none.
pub open spec fn text_or_empty(o: Option<String>) -> Seq<char> {
    match o {
        Some(s) => s@,
        None => Seq::empty(),
    }
}

/// A copy of an optional string; empty where there is none.
pub fn string_or_empty(o: &Option<String>) -> (r: String)
    ensures
        r@ == text_or_empty(*o),
{
    match o {
        Some(s) => s.clone(),
        None => String::new(),
    }
}

} // verus!

verus! {

/// Pieces that each end with the separator join, with a final empty piece,
/// to the concatenation of the terminated pieces.
pub proof fn lemma_joined_terminated(parts: Seq<Seq<char>>, sep: char)
    ensures
        joined(parts.push(Seq::empty()), sep) == parts.map_values(|p: Seq<char>| p.push(sep)).flatten(),
    decreases parts.len(),
{
    let e = Seq::<char>::empty();
    let f = |p: Seq<char>| p.push(sep);
    if parts.len() == 0 {
        assert(parts.push(e).len() == 1);
        assert(joined(parts.push(e), sep) == e);
        assert(parts.map_values(f) =~= Seq::<Seq<char>>::empty());
    } else {
        let init = parts.drop_last();
        let last = parts.last();
        lemma_joined_terminated(init, sep);
        assert(parts.map_values(f) =~= init.map_values(f).push(last.push(sep)));
        init.map_values(f).lemma_flatten_push(last.push(sep));
        assert(parts.push(e).drop_last() =~= parts);
        assert(joined(parts.push(e), sep) == joined(parts, sep) + seq![sep] + e);
        assert(init.push(e).drop_last() =~= init);
        if init.len() == 0 {
            assert(joined(parts, sep) == last);
            assert(init.map_values(f) =~= Seq::<Seq<char>>::empty());
            assert(joined(parts.push(e), sep) =~= last.push(sep));
        } else {
            assert(parts.drop_last() == init);
            assert(joined(parts, sep) == joined(init, sep) + seq![sep] + last);
            assert(joined(init.push(e), sep) == joined(init, sep) + seq![sep] + e);
            assert(joined(parts.push(e), sep) =~= (joined(init, sep) + seq![sep] + e) + last.push(sep));
        }
    }
}


/// Each piece stands in the joined text as a contiguous run: the returned
/// offset is where piece `k` begins.
pub proof fn lemma_piece_offset(parts: Seq<Seq<char>>, sep: char, k: int) -> (i: int)
    requires
        0 <= k < parts.len(),
    ensures
        0 <= i <= joined(parts, sep).len() - parts[k].len(),
        joined(parts, sep).subrange(i, i + parts[k].len()) == parts[k],
    decreases parts.len(),
{
    let whole = joined(parts, sep);
    if parts.len() == 1 {
        assert(whole.subrange(0, parts[k].len() as int) =~= parts[k]);
        0
    } else {
        let init = joined(parts.drop_last(), sep);
        assert(whole == init + seq![sep] + parts.last());
        if k == parts.len() - 1 {
            let i: int = init.len() as int + 1;
            assert(whole.subrange(i, i + parts[k].len()) =~= parts[k]);
            i
        } else {
            let i = lemma_piece_offset(parts.drop_last(), sep, k);
            assert(parts.drop_last()[k] == parts[k]);
            assert(whole.subrange(i, i + parts[k].len()) =~= init.subrange(i, i + parts[k].len()));
            i
        }
    }
}

/// Replacing characters commutes with taking a run.
pub proof fn lemma_replaced_subrange(s: Seq<char>, from: char, to: char, i: int, j: int)
    requires
        0 <= i <= j <= s.len(),
    ensures
        replaced(s, from, to).subrange(i, j) == replaced(s.subrange(i, j), from, to),
{
    assert(replaced(s, from, to).subrange(i, j) =~= replaced(s.subrange(i, j), from, to));
}

} // verus!
