use vstd::prelude::*;
use crate::authors_to_string::{fancy_html, fancy_html_text};
use crate::dates::{article_date, shown_date};
use crate::calendar::{date_text_of_day, days_before_year};
use crate::order::{descending_order, descending_positions};
use crate::text::{
    chars_of, contains_text, is_split, lemma_piece_offset, lemma_replaced_subrange, occurs_in, push_char, replace_char, replaced, string_or_empty,
    text_or_empty,
};

verus! {

/// An article as the site shows it.
pub struct Article {
    pub title: String,
    pub article_id: String,
    pub time_created_unix: i64,
    pub time_updated_unix: i64,
    pub authors: String,
    pub article_type: String,
    pub description: String,
    pub thumbnail_slug: String,
    pub article_contents: String,
    pub views: i64,
    pub formatted_date: String,
    pub formatted_title: String,
    pub formatted_authors: String,
}

/// The columns of one row of the articles table, each `None` where the
/// column could not be read as its type.
pub struct ArticleRow {
    pub article_id: Option<String>,
    pub authors: Option<String>,
    pub article_type: Option<String>,
    pub title: Option<String>,
    pub description: Option<String>,
    pub thumbnail_slug: Option<String>,
    pub time_created_unix: Option<i64>,
    pub time_updated_unix: Option<i64>,
    pub views: Option<i64>,
    pub article_contents: Option<String>,
}

/// Whether `c` is alphabetic, as `char::is_alphabetic` answers.
pub uninterp spec fn alphabetic(c: char) -> bool;

/// Whether `c` is numeric, as `char::is_numeric` answers.
pub uninterp spec fn numeric(c: char) -> bool;

/// `char::is_alphabetic` (the Unicode Alphabetic property); the contract
/// names the answer and does not restate Unicode's tables.
#[verifier::external_body]
fn is_alphabetic(c: char) -> (r: bool)
    ensures
        r == alphabetic(c),
{
    c.is_alphabetic()
}

/// `char::is_numeric` (the Unicode numeric categories); the contract names
/// the answer and does not restate Unicode's tables.
#[verifier::external_body]
fn is_numeric(c: char) -> (r: bool)
    ensures
        r == numeric(c),
{
    c.is_numeric()
}

/// What one character of a title becomes in its address form: a space a
/// hyphen, a letter or number itself, anything else nothing.
pub open spec fn url_piece(c: char) -> Seq<char> {
    if c == ' ' {
        seq!['-']
    } else if alphabetic(c) || numeric(c) {
        seq![c]
    } else {
        Seq::empty()
    }
}

/// The address form of a title.
pub open spec fn url_text(t: Seq<char>) -> Seq<char> {
    t.map_values(|c: char| url_piece(c)).flatten()
}

/// The address form of a title: spaces become hyphens, letters and numbers
/// stay, everything else is dropped.
pub fn format_url_text(t: String) -> (out: String)
    ensures
        out@ == url_text(t@),
{
    let cs = chars_of(t.as_str());
    let mut out = String::new();
    for i in 0..cs.len()
        invariant
            cs@ == t@,
            out@ == url_text(t@.take(i as int)),
    {
        let c = cs[i];
        if c == ' ' {
            push_char(&mut out, '-');
        } else if is_alphabetic(c) || is_numeric(c) {
            push_char(&mut out, c);
        }
        proof {
            let done = t@.take(i as int).map_values(|c: char| url_piece(c));
            assert(t@.take(i + 1).map_values(|c: char| url_piece(c)) =~= done.push(url_piece(c)));
            done.lemma_flatten_push(url_piece(c));
            assert(out@ =~= done.flatten() + url_piece(c));
        }
    }
    assert(t@.take(cs@.len() as int) =~= t@);
    out
}

/// The creation time a row gives (zero where missing).
pub open spec fn created_time(row: ArticleRow) -> i64 {
    row.time_created_unix.unwrap_or(0)
}

/// The creation times of rows, in order.
pub open spec fn created_times(rows: Seq<ArticleRow>) -> Seq<i64> {
    rows.map_values(|r: ArticleRow| created_time(r))
}

/// `a` is the article that `row` describes: missing text columns are
/// empty, missing numbers zero, and the derived fields are the shown date,
/// the address form of the title and the author links.
pub open spec fn built_article(a: Article, row: ArticleRow) -> bool {
    &&& a.article_id@ == text_or_empty(row.article_id)
    &&& a.authors@ == text_or_empty(row.authors)
    &&& a.article_type@ == text_or_empty(row.article_type)
    &&& a.title@ == text_or_empty(row.title)
    &&& a.description@ == text_or_empty(row.description)
    &&& a.thumbnail_slug@ == text_or_empty(row.thumbnail_slug)
    &&& a.article_contents@ == text_or_empty(row.article_contents)
    &&& a.time_created_unix == created_time(row)
    &&& a.time_updated_unix == row.time_updated_unix.unwrap_or(0)
    &&& a.views == row.views.unwrap_or(0)
    &&& shown_date(created_time(row)) == Some(a.formatted_date@)
    &&& a.formatted_title@ == url_text(a.title@)
    &&& a.formatted_authors@ == fancy_html_text(a.authors@)
}

/// The article a row describes; `None` where its creation date cannot be
/// shown.
pub fn article_from_row(row: &ArticleRow) -> (r: Option<Article>)
    ensures
        r matches Some(a) ==> built_article(a, *row),
        r is None <==> shown_date(created_time(*row)) is None,
{
    let created = row.time_created_unix.unwrap_or(0);
    let date = match article_date(created) {
        Some(d) => d,
        None => {
            return None;
        },
    };
    let title = string_or_empty(&row.title);
    let authors = string_or_empty(&row.authors);
    let formatted_title = format_url_text(title.clone());
    let formatted_authors = fancy_html(authors.clone());
    Some(
        Article {
            article_id: string_or_empty(&row.article_id),
            authors,
            article_type: string_or_empty(&row.article_type),
            title,
            description: string_or_empty(&row.description),
            thumbnail_slug: string_or_empty(&row.thumbnail_slug),
            time_created_unix: created,
            time_updated_unix: row.time_updated_unix.unwrap_or(0),
            views: row.views.unwrap_or(0),
            article_contents: string_or_empty(&row.article_contents),
            formatted_date: date,
            formatted_title,
            formatted_authors,
        },
    )
}

/// The articles that the rows describe, newest first (equal times keep the
/// order of the rows). `None` where some row's creation date cannot be
/// shown.
pub fn get_articles(rows: Vec<ArticleRow>) -> (r: Option<Vec<Article>>)
    requires
        forall|k: int| 0 <= k < rows@.len() ==> created_time(#[trigger] rows@[k]) != i64::MIN,
    ensures
        crate::order::is_descending_order(created_times(rows@), descending_positions(created_times(rows@))),
        r is None <==> exists|k: int|
            0 <= k < rows@.len() && shown_date(created_time(#[trigger] rows@[k])) is None,
        r matches Some(v) ==> {
            &&& v@.len() == rows@.len()
            &&& forall|p: int, q: int|
                0 <= p < q < v@.len() ==> (#[trigger] v@[p]).time_created_unix >= (#[trigger] v@[q]).time_created_unix
            &&& forall|p: int|
                0 <= p < v@.len() ==> built_article(
                    #[trigger] v@[p],
                    rows@[descending_positions(created_times(rows@))[p] as int],
                )
        },
{
    let mut keys: Vec<i64> = Vec::new();
    for k in 0..rows.len()
        invariant
            keys@ =~= created_times(rows@.take(k as int)),
    {
        keys.push(rows[k].time_created_unix.unwrap_or(0));
    }
    assert(rows@.take(rows@.len() as int) =~= rows@);
    let ord = descending_order(&keys);
    let mut out: Vec<Article> = Vec::new();
    for p in 0..ord.len()
        invariant
            keys@ == created_times(rows@),
            ord@ == descending_positions(keys@),
            crate::order::is_descending_order(keys@, ord@),
            out@.len() == p,
            forall|m: int| 0 <= m < p ==> built_article(#[trigger] out@[m], rows@[ord@[m] as int]),
            forall|m: int| 0 <= m < p ==> shown_date(created_time(rows@[#[trigger] ord@[m] as int])) is Some,
    {
        match article_from_row(&rows[ord[p]]) {
            Some(a) => {
                out.push(a);
            },
            None => {
                return None;
            },
        }
    }
    proof {
        assert forall|k: int| 0 <= k < rows@.len() implies shown_date(created_time(#[trigger] rows@[k])) is Some by {
            assert(ord@.contains(k as usize));
            let p = choose|p: int| 0 <= p < ord@.len() && ord@[p] == k as usize;
            assert(shown_date(created_time(rows@[ord@[p] as int])) is Some);
        }
        assert forall|p: int, q: int|
            0 <= p < q < out@.len() implies (#[trigger] out@[p]).time_created_unix >= (#[trigger] out@[q]).time_created_unix by {
            assert(crate::order::comes_before(keys@, ord@[p] as int, ord@[q] as int));
            assert(keys@[ord@[p] as int] == created_time(rows@[ord@[p] as int]));
            assert(keys@[ord@[q] as int] == created_time(rows@[ord@[q] as int]));
        }
    }
    Some(out)
}

/// The position of the first article with the given id.
fn position_of(articles: &Vec<Article>, article_id: &String) -> (r: Option<usize>)
    ensures
        r is None ==> forall|k: int| 0 <= k < articles@.len() ==> (#[trigger] articles@[k]).article_id@ != article_id@,
        r matches Some(k) ==> k < articles@.len() && articles@[k as int].article_id@ == article_id@
            && forall|m: int| 0 <= m < k ==> (#[trigger] articles@[m]).article_id@ != article_id@,
{
    for i in 0..articles.len()
        invariant
            forall|m: int| 0 <= m < i ==> (#[trigger] articles@[m]).article_id@ != article_id@,
    {
        if articles[i].article_id == *article_id {
            return Some(i);
        }
    }
    None
}

/// The first article with the given id.
pub fn find_article(articles: Vec<Article>, article_id: &String) -> (r: Option<Article>)
    ensures
        r is None <==> forall|k: int| 0 <= k < articles@.len() ==> (#[trigger] articles@[k]).article_id@ != article_id@,
        r matches Some(a) ==> exists|k: int|
            0 <= k < articles@.len() && a == #[trigger] articles@[k] && a.article_id@ == article_id@
                && forall|m: int| 0 <= m < k ==> (#[trigger] articles@[m]).article_id@ != article_id@,
{
    match position_of(&articles, article_id) {
        Some(k) => {
            let mut v = articles;
            let a = v.remove(k);
            Some(a)
        },
        None => None,
    }
}

/// The hyphenated form of a name or author list (spaces become hyphens),
/// which is how members appear in page addresses.
pub open spec fn hyphenated(s: Seq<char>) -> Seq<char> {
    replaced(s, ' ', '-')
}

/// An article is by the member whose address name is `slug` when that name
/// occurs in the hyphenated author list.
pub open spec fn is_by_member(a: Article, slug: Seq<char>) -> bool {
    occurs_in(slug, hyphenated(a.authors@))
}

/// The articles whose hyphenated author list holds `slug`, in order.
pub fn articles_by_member(articles: Vec<Article>, slug: &str) -> (r: Vec<Article>)
    ensures
        r@ == articles@.filter(|a: Article| is_by_member(a, slug@)),
{
    broadcast use vstd::seq_lib::group_seq_properties;

    let ghost all = articles@;
    let n = articles.len();
    let mut rest = articles;
    let mut out: Vec<Article> = Vec::new();
    let mut i: usize = 0;
    while rest.len() > 0
        invariant
            rest@ == all.skip(i as int),
            n == all.len(),
            i <= all.len(),
            out@ == all.take(i as int).filter(|a: Article| is_by_member(a, slug@)),
        decreases rest@.len(),
    {
        let a = rest.remove(0);
        assert(a == all[i as int]);
        assert(all.take(i + 1) =~= all.take(i as int).push(a));
        let hy = replace_char(a.authors.as_str(), ' ', '-');
        let keep = contains_text(hy.as_str(), slug);
        proof {
            all.take(i as int).lemma_filter_push(a, |a: Article| is_by_member(a, slug@));
        }
        if keep {
            out.push(a);
        }
        assert(rest@ =~= all.skip(i + 1));
        i = i + 1;
    }
    assert(all.take(i as int) =~= all);
    out
}

} // verus!

verus! {

/// The values of the home page: the headlines and the articles.
pub struct HomePageHTMLValues {
    pub headlines: Vec<String>,
    pub articles: Vec<Article>,
}


/// Every name of an article's comma-separated author list, first or not,
/// selects the article: with spaces turned into hyphens, the name occurs in
/// the hyphenated author list, so the article is among those listed for it.
pub proof fn lemma_every_author_selects(articles: Seq<Article>, i: int, names: Seq<Seq<char>>, k: int)
    requires
        0 <= i < articles.len(),
        is_split(names, articles[i].authors@, ','),
        0 <= k < names.len(),
    ensures
        occurs_in(replaced(names[k], ' ', '-'), replaced(articles[i].authors@, ' ', '-')),
        articles.filter(|a: Article| is_by_member(a, replaced(names[k], ' ', '-'))).contains(articles[i]),
{
    let authors = articles[i].authors@;
    let name = names[k];
    let at = lemma_piece_offset(names, ',', k);
    lemma_replaced_subrange(authors, ' ', '-', at, at + name.len());
    let hay = replaced(authors, ' ', '-');
    let needle = replaced(name, ' ', '-');
    assert(hay.subrange(at, at + needle.len()) == needle);
    let pred = |a: Article| is_by_member(a, replaced(names[k], ' ', '-'));
    assert(pred(articles[i]));
    articles.lemma_filter_contains(pred, i);
}


/// An article built from a row carries each column of the row unchanged
/// where it is present (a missing text column gives an empty text, a
/// missing number zero), and shows the UTC date of its creation time:
/// nothing for times not after the epoch, the month/day/year text of the
/// time's day before the year 10000.
pub proof fn lemma_built_article_columns(a: Article, row: ArticleRow)
    requires
        built_article(a, row),
    ensures
        row.article_id matches Some(x) ==> a.article_id@ == x@,
        row.article_id is None ==> a.article_id@.len() == 0,
        row.authors matches Some(x) ==> a.authors@ == x@,
        row.authors is None ==> a.authors@.len() == 0,
        row.article_type matches Some(x) ==> a.article_type@ == x@,
        row.article_type is None ==> a.article_type@.len() == 0,
        row.title matches Some(x) ==> a.title@ == x@,
        row.title is None ==> a.title@.len() == 0,
        row.description matches Some(x) ==> a.description@ == x@,
        row.description is None ==> a.description@.len() == 0,
        row.thumbnail_slug matches Some(x) ==> a.thumbnail_slug@ == x@,
        row.thumbnail_slug is None ==> a.thumbnail_slug@.len() == 0,
        row.article_contents matches Some(x) ==> a.article_contents@ == x@,
        row.article_contents is None ==> a.article_contents@.len() == 0,
        row.time_created_unix matches Some(x) ==> a.time_created_unix == x,
        row.time_created_unix is None ==> a.time_created_unix == 0,
        row.time_updated_unix matches Some(x) ==> a.time_updated_unix == x,
        row.time_updated_unix is None ==> a.time_updated_unix == 0,
        row.views matches Some(x) ==> a.views == x,
        row.views is None ==> a.views == 0,
        a.time_created_unix <= 0 ==> a.formatted_date@.len() == 0,
        0 < a.time_created_unix && (a.time_created_unix as int) / 86400 < days_before_year(10000)
            ==> a.formatted_date@ == date_text_of_day((a.time_created_unix as int) / 86400),
{
}


proof fn lemma_url_text_push(t: Seq<char>, c: char)
    ensures
        url_text(t.push(c)) == url_text(t) + url_piece(c),
{
    let pieces = t.map_values(|c: char| url_piece(c));
    assert(t.push(c).map_values(|c: char| url_piece(c)) =~= pieces.push(url_piece(c)));
    pieces.lemma_flatten_push(url_piece(c));
}

/// The address form of two pieces of a title, one after the other, is the
/// address form of the first followed by that of the second.
pub proof fn lemma_url_text_concat(s: Seq<char>, t: Seq<char>)
    ensures
        url_text(s + t) == url_text(s) + url_text(t),
{
    let f = |c: char| url_piece(c);
    assert((s + t).map_values(f) =~= s.map_values(f) + t.map_values(f));
    vstd::seq_lib::lemma_flatten_concat(s.map_values(f), t.map_values(f));
}

/// A title made of letters, numbers and spaces keeps every letter and
/// number in its place and turns each space into a hyphen.
pub proof fn lemma_url_text_plain(t: Seq<char>)
    requires
        forall|i: int| 0 <= i < t.len() ==> #[trigger] t[i] == ' ' || alphabetic(t[i]) || numeric(t[i]),
    ensures
        url_text(t) == replaced(t, ' ', '-'),
    decreases t.len(),
{
    if t.len() == 0 {
        assert(url_text(t) =~= Seq::<char>::empty());
        assert(replaced(t, ' ', '-') =~= Seq::<char>::empty());
    } else {
        let init = t.drop_last();
        assert(init.push(t.last()) =~= t);
        assert forall|i: int| 0 <= i < init.len() implies #[trigger] init[i] == ' ' || alphabetic(init[i]) || numeric(
            init[i],
        ) by {
            assert(init[i] == t[i]);
        }
        lemma_url_text_plain(init);
        lemma_url_text_push(init, t.last());
        assert(replaced(t, ' ', '-') =~= replaced(init, ' ', '-').push(if t.last() == ' ' {
            '-'
        } else {
            t.last()
        }));
        assert(t[t.len() - 1] == t.last());
        assert(url_text(t) =~= replaced(t, ' ', '-'));
    }
}

/// Only hyphens, letters and numbers are left in an address form, and it
/// is never longer than the title.
pub proof fn lemma_url_text_kept(t: Seq<char>)
    ensures
        url_text(t).len() <= t.len(),
        forall|i: int|
            0 <= i < url_text(t).len() ==> #[trigger] url_text(t)[i] == '-' || alphabetic(url_text(t)[i])
                || numeric(url_text(t)[i]),
    decreases t.len(),
{
    if t.len() == 0 {
        assert(url_text(t) =~= Seq::<char>::empty());
    } else {
        let init = t.drop_last();
        assert(init.push(t.last()) =~= t);
        lemma_url_text_kept(init);
        lemma_url_text_push(init, t.last());
        let u = url_text(t);
        assert forall|i: int| 0 <= i < u.len() implies #[trigger] u[i] == '-' || alphabetic(u[i]) || numeric(u[i]) by {
            if i < url_text(init).len() {
                assert(u[i] == url_text(init)[i]);
            } else {
                assert(u[i] == url_piece(t.last())[i - url_text(init).len()]);
            }
        }
    }
}

} // verus!
