use vstd::prelude::*;
use crate::text::{
    is_split, joined, lemma_joined_terminated, lemma_split_unique, push_char, push_str, replace_char, replaced, split_on, split_pieces, views,
};

verus! {

/// The editable form of an author list: every name followed by a comma.
pub open spec fn editable_text(authors: Seq<Seq<char>>) -> Seq<char> {
    authors.map_values(|a: Seq<char>| a.push(',')).flatten()
}

/// The link to one author's page; every author after the first is marked
/// with a leading `+ `.
pub open spec fn author_link(first: bool, name: Seq<char>) -> Seq<char> {
    "<a href=/author/"@ + replaced(name, ' ', '-') + ">"@ + (if first {
        Seq::empty()
    } else {
        "+ "@
    }) + name + "</a>"@
}

/// The links of all the authors in a list, in order.
pub open spec fn author_links(names: Seq<Seq<char>>) -> Seq<char> {
    Seq::new(names.len(), |k: int| author_link(k == 0, names[k])).flatten()
}

/// The HTML of a comma-separated author list: one link per name.
pub open spec fn fancy_html_text(authors: Seq<char>) -> Seq<char> {
    author_links(split_pieces(authors, ','))
}

/// Joins author names into the form used in the editor: each name is
/// followed by a comma.
pub fn editable(authors: Vec<String>) -> (o: String)
    ensures
        o@ == editable_text(views(authors@)),
{
    let mut o = String::new();
    for i in 0..authors.len()
        invariant
            o@ == editable_text(views(authors@).take(i as int)),
    {
        push_str(&mut o, authors[i].as_str());
        push_char(&mut o, ',');
        proof {
            let done = views(authors@).take(i as int).map_values(|a: Seq<char>| a.push(','));
            let next = views(authors@).take(i + 1).map_values(|a: Seq<char>| a.push(','));
            assert(next =~= done.push(authors@[i as int]@.push(',')));
            done.lemma_flatten_push(authors@[i as int]@.push(','));
            assert(o@ =~= done.flatten() + authors@[i as int]@.push(','));
        }
    }
    assert(views(authors@).take(authors@.len() as int) =~= views(authors@));
    o
}

/// Turns a comma-separated author list into links to the authors' pages.
pub fn fancy_html(authors: String) -> (o: String)
    ensures
        o@ == fancy_html_text(authors@),
{
    let names = split_on(authors.as_str(), ',');
    let ghost pieces = views(names@);
    let mut o = String::new();
    for k in 0..names.len()
        invariant
            pieces == views(names@),
            o@ == Seq::new(k as nat, |j: int| author_link(j == 0, pieces[j])).flatten(),
    {
        let a = names[k].as_str();
        let fa = replace_char(a, ' ', '-');
        push_str(&mut o, "<a href=/author/");
        push_str(&mut o, fa.as_str());
        push_str(&mut o, ">");
        if k > 0 {
            push_str(&mut o, "+ ");
        }
        push_str(&mut o, a);
        push_str(&mut o, "</a>");
        proof {
            let done = Seq::new(k as nat, |j: int| author_link(j == 0, pieces[j]));
            let next = Seq::new((k + 1) as nat, |j: int| author_link(j == 0, pieces[j]));
            assert(pieces[k as int] == a@);
            assert(next =~= done.push(author_link(k == 0, pieces[k as int])));
            done.lemma_flatten_push(author_link(k == 0, pieces[k as int]));
            if k > 0 {
                assert(o@ =~= done.flatten() + author_link(false, a@));
            } else {
                assert(o@ =~= done.flatten() + author_link(true, a@));
            }
        }
    }
    o
}


/// The HTML of a comma-separated author list is, name by name and in the
/// list's order, a link to `/author/` followed by the name with every space
/// turned into a hyphen, whose text is the name itself, after `+ ` for every
/// name but the first.
pub proof fn lemma_author_links_written_out(authors: Seq<char>, names: Seq<Seq<char>>)
    requires
        is_split(names, authors, ','),
    ensures
        fancy_html_text(authors) == Seq::new(
            names.len(),
            |k: int|
                "<a href=/author/"@ + replaced(names[k], ' ', '-') + ">"@ + (if k == 0 {
                    Seq::empty()
                } else {
                    "+ "@
                }) + names[k] + "</a>"@,
        ).flatten(),
{
    let chosen = split_pieces(authors, ',');
    assert(is_split(chosen, authors, ','));
    lemma_split_unique(chosen, names, authors, ',');
    let links = Seq::new(names.len(), |k: int| author_link(k == 0, names[k]));
    let written = Seq::new(
        names.len(),
        |k: int|
            "<a href=/author/"@ + replaced(names[k], ' ', '-') + ">"@ + (if k == 0 {
                Seq::empty()
            } else {
                "+ "@
            }) + names[k] + "</a>"@,
    );
    assert(links =~= written);
}

/// Every author's link, first or not, points to `/author/` followed by that
/// author's name with every space turned into a hyphen; being first changes
/// only the leading `+ ` of the link's text, and the first link opens the
/// HTML. The result is the HTML before and after the link of name `k`.
pub proof fn lemma_author_link_target(authors: Seq<char>, names: Seq<Seq<char>>, k: int) -> (around: (
    Seq<char>,
    Seq<char>,
))
    requires
        is_split(names, authors, ','),
        0 <= k < names.len(),
    ensures
        k == 0 ==> around.0.len() == 0,
        fancy_html_text(authors) == around.0 + "<a href=/author/"@ + replaced(names[k], ' ', '-') + ">"@ + (
        if k == 0 {
            Seq::empty()
        } else {
            "+ "@
        }) + names[k] + "</a>"@ + around.1,
{
    lemma_author_links_written_out(authors, names);
    let written = Seq::new(
        names.len(),
        |j: int|
            "<a href=/author/"@ + replaced(names[j], ' ', '-') + ">"@ + (if j == 0 {
                Seq::empty()
            } else {
                "+ "@
            }) + names[j] + "</a>"@,
    );
    let before = written.take(k);
    let after = written.skip(k + 1);
    assert(written =~= before + seq![written[k]] + after);
    vstd::seq_lib::lemma_flatten_concat(before + seq![written[k]], after);
    vstd::seq_lib::lemma_flatten_concat(before, seq![written[k]]);
    seq![written[k]].lemma_flatten_singleton();
    if k == 0 {
        assert(before =~= Seq::<Seq<char>>::empty());
        assert(before.flatten() =~= Seq::<char>::empty());
    }
    let pre = before.flatten();
    let post = after.flatten();
    assert(fancy_html_text(authors) == pre + written[k] + post);
    (pre, post)
}


/// The editable form of an author list cuts back, at its commas, into the
/// same names followed by one empty piece (for names without commas).
pub proof fn lemma_editable_round_trip(names: Seq<Seq<char>>)
    requires
        forall|k: int| 0 <= k < names.len() ==> !(#[trigger] names[k]).contains(','),
    ensures
        split_pieces(editable_text(names), ',') == names.push(Seq::empty()),
{
    let text = editable_text(names);
    let all = names.push(Seq::<char>::empty());
    lemma_joined_terminated(names, ',');
    assert(names.map_values(|p: Seq<char>| p.push(',')) =~= names.map_values(|a: Seq<char>| a.push(',')));
    assert(joined(all, ',') == text);
    assert forall|k: int| 0 <= k < all.len() implies !(#[trigger] all[k]).contains(',') by {
        if k < names.len() {
            assert(all[k] == names[k]);
        } else {
            assert(all[k] =~= Seq::<char>::empty());
        }
    }
    assert(is_split(all, text, ','));
    let chosen = split_pieces(text, ',');
    lemma_split_unique(all, chosen, text, ',');
}

} // verus!
