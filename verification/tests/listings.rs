use newsroom::article::{
    article_from_row, articles_by_member, find_article, format_url_text, get_articles, Article,
    ArticleRow,
};
use newsroom::author::{
    find_member, get_authors, profile_page_values, profile_update, short_year_string,
    signed_in_author, Author, AuthorRow, ProfileEditPageValue,
};
use newsroom::business_plans::get_business_plans;
use newsroom::dates::article_date;

fn row(id: &str, title: &str, authors: &str, created: Option<i64>) -> ArticleRow {
    ArticleRow {
        article_id: Some(id.to_string()),
        authors: Some(authors.to_string()),
        article_type: Some("news".to_string()),
        title: Some(title.to_string()),
        description: None,
        thumbnail_slug: Some("thumb.png".to_string()),
        time_created_unix: created,
        time_updated_unix: Some(7),
        views: None,
        article_contents: Some("body".to_string()),
    }
}

#[test]
fn format_url_text_keeps_letters_and_numbers() {
    assert_eq!(format_url_text("Hello, World 2!".to_string()), "Hello-World-2");
    assert_eq!(format_url_text("Café über ½".to_string()), "Café-über-½");
    assert_eq!(format_url_text("".to_string()), "");
}

#[test]
fn article_date_formats_utc_month_day_year() {
    assert_eq!(article_date(1_700_000_000), Some("11/14/2023".to_string()));
    assert_eq!(article_date(0), Some(String::new()));
    assert_eq!(article_date(-5), Some(String::new()));
    assert_eq!(article_date(i64::MAX), None);
}

#[test]
fn article_from_row_fills_defaults() {
    let a = article_from_row(&row("x", "A Title", "Jane Doe", None)).unwrap();
    assert_eq!(a.article_id, "x");
    assert_eq!(a.description, "");
    assert_eq!(a.time_created_unix, 0);
    assert_eq!(a.time_updated_unix, 7);
    assert_eq!(a.views, 0);
    assert_eq!(a.formatted_date, "");
    assert_eq!(a.formatted_title, "A-Title");
    assert_eq!(a.formatted_authors, "<a href=/author/Jane-Doe>Jane Doe</a>");
}

#[test]
fn get_articles_is_newest_first_and_stable() {
    let rows = vec![
        row("a", "A", "x", Some(100)),
        row("b", "B", "x", Some(300)),
        row("c", "C", "x", None),
        row("d", "D", "x", Some(300)),
    ];
    let articles = get_articles(rows).unwrap();
    let ids: Vec<&str> = articles.iter().map(|a| a.article_id.as_str()).collect();
    assert_eq!(ids, vec!["b", "d", "a", "c"]);
    assert_eq!(articles[0].formatted_date, "01/01/1970");
}

#[test]
fn get_articles_refuses_unshowable_dates() {
    let rows = vec![row("a", "A", "x", Some(100)), row("b", "B", "x", Some(i64::MAX))];
    assert!(get_articles(rows).is_none());
}

fn article(id: &str, authors: &str) -> Article {
    article_from_row(&row(id, "T", authors, Some(1))).unwrap()
}

#[test]
fn find_article_takes_the_first_match() {
    let list = vec![article("a", "x"), article("b", "y"), article("b", "z")];
    let found = find_article(list, &"b".to_string()).unwrap();
    assert_eq!(found.authors, "y");
    assert!(find_article(vec![article("a", "x")], &"q".to_string()).is_none());
}

#[test]
fn articles_by_member_matches_hyphenated_authors() {
    let list = vec![
        article("a", "Jane Doe,John"),
        article("b", "John"),
        article("c", "Mary Jane Doerr"),
    ];
    let ids: Vec<String> = articles_by_member(list, "Jane-Doe")
        .into_iter()
        .map(|a| a.article_id)
        .collect();
    assert_eq!(ids, vec!["a".to_string(), "c".to_string()]);
}

fn author_row(name: Option<&str>, level: Option<i8>) -> AuthorRow {
    AuthorRow {
        author_id: Some("id".to_string()),
        name: name.map(|n| n.to_string()),
        year: Some(2026),
        year_wide: Some(2026),
        bio: None,
        email: Some("e@x.org".to_string()),
        perm_level: level,
        google_magic: Some("tok".to_string()),
        club_position: None,
    }
}

#[test]
fn get_authors_lists_members_with_permission() {
    let rows = vec![
        author_row(Some("Ann Lee"), Some(1)),
        author_row(Some("Bo"), Some(0)),
        author_row(None, Some(5)),
        author_row(Some("Cy"), None),
    ];
    let authors = get_authors(rows);
    assert_eq!(authors.len(), 2);
    assert_eq!(authors[0].name, "Ann Lee");
    assert_eq!(authors[0].formatted_name, "Ann-Lee");
    assert_eq!(authors[0].formatted_year, "'26");
    assert_eq!(authors[0].club_position, "Goon");
    assert_eq!(authors[1].name, "");
    assert_eq!(authors[1].formatted_name, "GAY");
    assert_eq!(authors[1].perm_level, 5);
}

#[test]
fn short_year_keeps_the_sign() {
    assert_eq!(short_year_string(1997), "'97");
    assert_eq!(short_year_string(2005), "'5");
    assert_eq!(short_year_string(-1997), "'-97");
    assert_eq!(short_year_string(i32::MIN), format!("'{}", i32::MIN % 100));
}

#[test]
fn year_defaults_when_missing() {
    let mut r = author_row(Some("A"), Some(1));
    r.year = None;
    r.year_wide = None;
    let a = &get_authors(vec![r])[0];
    assert_eq!(a.year, 1997);
    assert_eq!(a.formatted_year, "'97");
}

fn author(name: &str, token: &str, email: &str, level: i8) -> Author {
    let mut r = author_row(Some(name), Some(level));
    r.google_magic = Some(token.to_string());
    r.email = Some(email.to_string());
    newsroom::author::author_from_row(&r)
}

#[test]
fn find_member_by_slug() {
    let list = vec![author("Ann Lee", "t", "e", 1), author("Bo", "t", "e", 1)];
    assert_eq!(find_member(list, &"Ann-Lee".to_string()).unwrap().name, "Ann Lee");
    let list = vec![author("Ann Lee", "t", "e", 1)];
    assert!(find_member(list, &"Ann Lee".to_string()).is_none());
}

#[test]
fn signed_in_author_needs_both_cookies() {
    let list = vec![author("A", "t1", "a@x", 0), author("B", "t1", "a@x", 1)];
    let token = Some("t1".to_string());
    let email = Some("a@x".to_string());
    assert_eq!(signed_in_author(list, &token, &email, true).unwrap().name, "B");
    let list = vec![author("A", "t1", "a@x", 0), author("B", "t1", "a@x", 1)];
    assert_eq!(signed_in_author(list, &token, &email, false).unwrap().name, "A");
    let list = vec![author("A", "t1", "a@x", 1)];
    assert!(signed_in_author(list, &None, &email, false).is_none());
    let list = vec![author("A", "t1", "a@x", 1)];
    assert!(signed_in_author(list, &Some("t2".to_string()), &email, false).is_none());
}

#[test]
fn profile_year_round_trips() {
    let mut a = author("A", "t", "e", 1);
    a.year = -12;
    let page = profile_page_values(a);
    assert_eq!(page.year, "-12");
    let update = profile_update(page);
    assert_eq!(update.year, -12);
}

#[test]
fn profile_update_falls_back_to_2025() {
    let input = ProfileEditPageValue {
        bio: "b".to_string(),
        name: "n".to_string(),
        year: "soon".to_string(),
        email: "e".to_string(),
        position: "p".to_string(),
    };
    assert_eq!(profile_update(input).year, 2025);
}

#[test]
fn business_plans_come_from_the_last_row() {
    assert_eq!(get_business_plans(&vec![]), "");
    assert_eq!(get_business_plans(&vec![Some("old".to_string()), Some("new".to_string())]), "new");
    assert_eq!(get_business_plans(&vec![Some("old".to_string()), None]), "");
}
