use newsroom::auth::{can_user_edit, check_login, login_redirect, new_account_hash, Credential, LoginOutcome};
use newsroom::dates::{submission_time, FALLBACK_SUBMISSION_TIME};
use newsroom::headlines::{
    get_headlines, headline_editor_text, parse_headline_edit, HeadlineEdit, HeadlineRow,
};
use newsroom::page_edit::{blank_page, should_delete, submission_record, PageEditInput};

fn hl(rank: Option<i32>, text: &str) -> HeadlineRow {
    HeadlineRow { rank, contents: Some(text.to_string()) }
}

#[test]
fn headlines_highest_rank_first() {
    let rows = vec![hl(Some(1), "a"), hl(Some(3), "b"), hl(None, "c"), hl(Some(3), "d"), HeadlineRow { rank: Some(2), contents: None }];
    assert_eq!(get_headlines(rows), vec!["b", "d", "", "a", "c"]);
}

#[test]
fn unranked_headlines_keep_table_order_last() {
    let rows = vec![hl(None, "x"), hl(None, "y"), hl(Some(-1), "z")];
    assert_eq!(get_headlines(rows), vec!["x", "z", "y"]);
}

#[test]
fn editor_text_numbers_lines_from_one() {
    let text = headline_editor_text(vec!["x".to_string(), "y z".to_string()]);
    assert_eq!(text, "1 x\n2 y z\n");
    assert_eq!(headline_editor_text(Vec::new()), "");
}

#[test]
fn parse_headline_edit_skips_incomplete_lines() {
    let input = HeadlineEdit { new_headlines: "1 x\n2 y z\n\nbad\n3 \n a\nq w\n-4 minus".to_string() };
    let entries: Vec<(i64, String)> =
        parse_headline_edit(&input).into_iter().map(|e| (e.rank, e.contents)).collect();
    assert_eq!(
        entries,
        vec![(1, "x".to_string()), (2, "y z".to_string()), (0, "w".to_string()), (-4, "minus".to_string())]
    );
}

#[test]
fn editor_round_trip() {
    let heads = vec!["Big news".to_string(), "Small".to_string()];
    let text = headline_editor_text(heads.clone());
    let entries: Vec<(i64, String)> = parse_headline_edit(&HeadlineEdit { new_headlines: text })
        .into_iter()
        .map(|e| (e.rank, e.contents))
        .collect();
    assert_eq!(entries, vec![(1, heads[0].clone()), (2, heads[1].clone())]);
}

#[test]
fn submission_time_is_noon_utc() {
    let noon = chrono::NaiveDate::from_ymd_opt(2024, 1, 2)
        .unwrap()
        .and_hms_opt(12, 0, 0)
        .unwrap()
        .and_utc()
        .timestamp();
    assert_eq!(submission_time("01/02/2024"), noon);
    assert_eq!(submission_time("not a date"), FALLBACK_SUBMISSION_TIME);
}

#[test]
fn fallback_time_is_noon_on_first_of_january_2030() {
    let t = chrono::NaiveDateTime::parse_from_str("01/01/2030 12:00:00", "%m/%d/%Y %H:%M:%S")
        .unwrap()
        .and_utc()
        .timestamp();
    assert_eq!(t, FALLBACK_SUBMISSION_TIME);
}

#[test]
fn submission_record_truncates_creation_time() {
    let mut input = blank_page("id1".to_string());
    input.date = "06/15/2200".to_string();
    input.description = None;
    let record = submission_record(input);
    let t = submission_time("06/15/2200");
    assert_eq!(record.time_updated, t);
    assert_eq!(record.time_created, t as i32);
    assert_eq!(record.description, "");
    assert_eq!(record.thumbnail_slug, "");
    assert_eq!(record.views, 0);
    assert_eq!(record.article_id, "id1");
}

#[test]
fn blank_page_is_empty() {
    let p: PageEditInput = blank_page("new".to_string());
    assert_eq!(p.article_id, "new");
    assert_eq!(p.description, Some(String::new()));
    assert_eq!(p.title, "");
}

#[test]
fn should_delete_only_named_articles() {
    assert!(should_delete("abc"));
    assert!(!should_delete(""));
}

fn cred(hash: Option<&str>, level: Option<i16>) -> Credential {
    Credential { stored_hash: hash.map(|h| h.to_string()), perm_level: level }
}

#[test]
fn can_user_edit_needs_token_and_editor_level() {
    let email = Some("a@x".to_string());
    let token = Some("tok".to_string());
    let rows = vec![cred(Some("tok"), Some(4)), cred(Some("tok"), Some(5))];
    assert!(can_user_edit(&email, &token, &rows));
    assert!(!can_user_edit(&None, &token, &rows));
    assert!(!can_user_edit(&email, &None, &rows));
    assert!(!can_user_edit(&email, &token, &vec![cred(Some("tok"), Some(4))]));
    assert!(!can_user_edit(&email, &token, &vec![cred(Some("other"), Some(5))]));
    assert!(can_user_edit(&email, &Some(String::new()), &vec![cred(None, Some(5))]));
}

#[test]
fn login_with_new_account_hash() {
    let hash = new_account_hash("secret").unwrap();
    match check_login("secret", &vec![cred(Some(&hash), Some(5))]) {
        LoginOutcome::Granted { token } => assert_eq!(token, hash),
        _ => panic!("expected access"),
    }
    assert!(matches!(check_login("secret", &vec![cred(Some(&hash), Some(1))]), LoginOutcome::Verified));
    assert!(matches!(check_login("wrong", &vec![cred(Some(&hash), Some(5))]), LoginOutcome::Denied));
    assert!(matches!(check_login("secret", &vec![]), LoginOutcome::Denied));
}

#[test]
fn login_stops_at_unreadable_hash() {
    let hash = new_account_hash("secret").unwrap();
    assert!(matches!(
        check_login("secret", &vec![cred(None, Some(5)), cred(Some(&hash), Some(5))]),
        LoginOutcome::UnreadableHash
    ));
    assert!(matches!(
        check_login("secret", &vec![cred(Some(&hash), Some(5)), cred(Some("junk"), Some(5))]),
        LoginOutcome::Granted { .. }
    ));
}

#[test]
fn login_redirect_page() {
    assert_eq!(
        login_redirect("edit-headlines"),
        "<meta http-equiv=\"refresh\" content=\"0; url=/edit-headlines \" />"
    );
}

#[test]
fn granted_token_passes_the_edit_check() {
    let hash = new_account_hash("pw").unwrap();
    let rows = vec![cred(Some("$argon2id$v=19$m=19456,t=2,p=1$c2FsdHNhbHQ$aGFzaGhhc2hoYXNoaGFzaA"), Some(5)), cred(Some(&hash), Some(5))];
    let token = match check_login("pw", &rows) {
        LoginOutcome::Granted { token } => token,
        _ => panic!("expected access"),
    };
    assert!(can_user_edit(&Some("a@x".to_string()), &Some(token), &rows));
}

