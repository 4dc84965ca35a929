use vstd::prelude::*;
use crate::article::Article;
use crate::dates::{lemma_submitted_date_is_shown, shown_date, submission_time, submission_time_of};
use crate::calendar::{
    calendar_date, date_text_of_day, days_before_year, lemma_calendar_date_exists, lemma_day_in_year,
    lemma_year_bound, us_date_text,
};

verus! {

/// The fields of the page editor, as shown and as submitted; `date` is the
/// month/day/year date of the article.
pub struct PageEditInput {
    pub article_id: String,
    pub authors: String,
    pub article_type: String,
    pub title: String,
    pub description: Option<String>,
    pub image_slug: Option<String>,
    pub article_contents: String,
    pub date: String,
}

/// The editor for a new article with the given id: every field empty.
pub fn blank_page(article_id: String) -> (p: PageEditInput)
    ensures
        p.article_id == article_id,
        p.authors@ == Seq::<char>::empty(),
        p.article_type@ == Seq::<char>::empty(),
        p.title@ == Seq::<char>::empty(),
        p.description matches Some(d) && d@ == Seq::<char>::empty(),
        p.image_slug matches Some(s) && s@ == Seq::<char>::empty(),
        p.article_contents@ == Seq::<char>::empty(),
        p.date@ == Seq::<char>::empty(),
{
    PageEditInput {
        article_id,
        authors: String::new(),
        article_type: String::new(),
        title: String::new(),
        description: Some(String::new()),
        image_slug: Some(String::new()),
        article_contents: String::new(),
        date: String::new(),
    }
}

/// The editor filled with an existing article.
pub fn page_for_article(a: Article) -> (p: PageEditInput)
    ensures
        p.article_id == a.article_id,
        p.authors == a.authors,
        p.article_type == a.article_type,
        p.title == a.title,
        p.description == Some(a.description),
        p.image_slug == Some(a.thumbnail_slug),
        p.article_contents == a.article_contents,
        p.date == a.formatted_date,
{
    PageEditInput {
        article_id: a.article_id,
        authors: a.authors,
        article_type: a.article_type,
        title: a.title,
        description: Some(a.description),
        image_slug: Some(a.thumbnail_slug),
        article_contents: a.article_contents,
        date: a.formatted_date,
    }
}

/// The row that a submitted article is stored as. The creation time keeps
/// only the low 32 bits of the submission time (it is written as an `i32`);
/// the update time keeps all of it.
pub struct ArticleRecord {
    pub article_id: String,
    pub time_created: i32,
    pub time_updated: i64,
    pub authors: String,
    pub article_type: String,
    pub title: String,
    pub description: String,
    pub thumbnail_slug: String,
    pub article_contents: String,
    pub views: i64,
}

/// The row a submitted editor form is stored as: times from the submitted
/// date at noon UTC, missing description and image empty, no views.
pub fn submission_record(input: PageEditInput) -> (r: ArticleRecord)
    ensures
        r.article_id == input.article_id,
        r.time_created == submission_time_of(input.date@) as i32,
        r.time_updated == submission_time_of(input.date@),
        r.authors == input.authors,
        r.article_type == input.article_type,
        r.title == input.title,
        r.description@ == (match input.description {
            Some(d) => d@,
            None => Seq::empty(),
        }),
        r.thumbnail_slug@ == (match input.image_slug {
            Some(s) => s@,
            None => Seq::empty(),
        }),
        r.article_contents == input.article_contents,
        r.views == 0,
{
    let t = submission_time(input.date.as_str());
    let description = match input.description {
        Some(d) => d,
        None => String::new(),
    };
    let thumbnail_slug = match input.image_slug {
        Some(s) => s,
        None => String::new(),
    };
    ArticleRecord {
        article_id: input.article_id,
        time_created: t as i32,
        time_updated: t,
        authors: input.authors,
        article_type: input.article_type,
        title: input.title,
        description,
        thumbnail_slug,
        article_contents: input.article_contents,
        views: 0,
    }
}

/// An article is deleted only for a non-empty id.
pub fn should_delete(article_id: &str) -> (r: bool)
    ensures
        r == (article_id@.len() > 0),
{
    !article_id.is_empty()
}

} // verus!

verus! {

/// Saving an article's editor unchanged keeps the article's date: the date
/// that the editor shows for an article created after the epoch and before
/// the year 10000, submitted again, gives a time that shows the same date.
pub proof fn lemma_resubmitted_date_kept(t: i64)
    requires
        0 < t,
        (t as int) / 86400 < days_before_year(10000),
    ensures
        shown_date(t) is Some,
        shown_date(submission_time_of(shown_date(t)->0)) == shown_date(t),
{
    let day = (t as int) / 86400;
    lemma_year_bound(0);
    lemma_calendar_date_exists(day);
    let (y, m, d) = calendar_date(day);
    lemma_day_in_year(y, m, d);
    if y < 1970 {
        lemma_year_bound(y + 1);
    }
    assert(date_text_of_day(day) == us_date_text(y, m, d));
    lemma_submitted_date_is_shown(y, m, d);
}

} // verus!
