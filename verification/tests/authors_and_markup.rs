use newsroom::authors_to_string::{editable, fancy_html};
use newsroom::markup::{article_body, mark_up, render_paragraph};

#[test]
fn editable_ends_every_name_with_a_comma() {
    let names = vec!["Jane Doe".to_string(), "John".to_string()];
    assert_eq!(editable(names), "Jane Doe,John,");
    assert_eq!(editable(Vec::new()), "");
}

#[test]
fn fancy_html_links_each_author() {
    assert_eq!(
        fancy_html("Jane Doe,John".to_string()),
        "<a href=/author/Jane-Doe>Jane Doe</a><a href=/author/John>+ John</a>"
    );
}

#[test]
fn fancy_html_of_empty_list_has_one_empty_link() {
    assert_eq!(fancy_html(String::new()), "<a href=/author/></a>");
}

#[test]
fn fancy_html_of_editable_form_ends_with_empty_link() {
    let text = editable(vec!["Ann".to_string()]);
    assert_eq!(fancy_html(text), "<a href=/author/Ann>Ann</a><a href=/author/>+ </a>");
}

#[test]
fn bold_is_first_opener_to_last_closer() {
    assert_eq!(render_paragraph("**bold** text"), "<strong>bold</strong> text");
    assert_eq!(render_paragraph("**a**b**"), "<strong>a<i></i>b</strong>");
}

#[test]
fn bold_then_italic() {
    assert_eq!(render_paragraph("***a***"), "<strong><i>a</i></strong>");
}

#[test]
fn italic_underline_and_image() {
    assert_eq!(
        render_paragraph("*a* and _b_"),
        "<i>a</i> and <span class='underline'>b</span>"
    );
    assert_eq!(render_paragraph("{{pic.png}}"), "<img src='pic.png' />");
}

#[test]
fn unmatched_markers_stay() {
    assert_eq!(render_paragraph("a * b"), "a * b");
    assert_eq!(render_paragraph("{{x}"), "{{x}");
    assert_eq!(render_paragraph("plain text"), "plain text");
}

#[test]
fn mark_up_needs_closer_after_opener() {
    assert_eq!(mark_up("}}x{{", "{{", "}}", "<", ">"), "}}x{{");
    assert_eq!(mark_up("***", "**", "**", "<", ">"), "***");
    assert_eq!(mark_up("****", "**", "**", "<", ">"), "<>");
}

#[test]
fn article_body_renders_each_line() {
    assert_eq!(
        article_body("**Hi**\nplain\n_u_"),
        vec![
            "<strong>Hi</strong>".to_string(),
            "plain".to_string(),
            "<span class='underline'>u</span>".to_string()
        ]
    );
}
