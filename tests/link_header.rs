use supernova::link::{extract_link_next, field_next_link, HeaderField};

fn field(name: &str, value: &str) -> HeaderField {
    HeaderField { name: name.to_string(), value: value.to_string() }
}

#[test]
fn next_among_several_relations_matches() {
    let hs = vec![field("link", "<https://api.github.com/user/1/starred?page=2>; rel=\"next prev\"")];
    assert_eq!(
        extract_link_next(&hs),
        Some("https://api.github.com/user/1/starred?page=2".to_string())
    );
}

#[test]
fn later_next_wins_over_earlier_prev() {
    let hs = vec![field(
        "Link",
        "<https://x.test/first>; rel=\"prev\", <https://x.test/third>; rel=\"next\"",
    )];
    assert_eq!(extract_link_next(&hs), Some("https://x.test/third".to_string()));
}

#[test]
fn github_style_header() {
    let v = "<https://api.github.com/user/9/starred?page=2>; rel=\"next\", <https://api.github.com/user/9/starred?page=5>; rel=\"last\"";
    let hs = vec![field("content-type", "application/json"), field("link", v)];
    assert_eq!(
        extract_link_next(&hs),
        Some("https://api.github.com/user/9/starred?page=2".to_string())
    );
}

#[test]
fn absent_link_field_is_terminal() {
    let hs = vec![field("content-type", "application/json")];
    assert_eq!(extract_link_next(&hs), None);
    assert_eq!(extract_link_next(&Vec::new()), None);
}

#[test]
fn no_next_relation_is_terminal() {
    let hs = vec![field("link", "<https://x.test/first>; rel=\"prev\", <https://x.test/last>; rel=\"last\"")];
    assert_eq!(extract_link_next(&hs), None);
}

#[test]
fn word_containing_next_is_not_next() {
    assert_eq!(field_next_link("<https://x.test/a>; rel=\"nextpage\""), None);
    assert_eq!(field_next_link("<https://x.test/a>; relx=\"next\""), None);
}

#[test]
fn relation_and_parameter_ignore_case() {
    assert_eq!(field_next_link("<https://x.test/a>; REL=\"Next\""), Some("https://x.test/a".to_string()));
}

#[test]
fn unquoted_relation_and_other_parameters() {
    assert_eq!(
        field_next_link("<https://x.test/a>; title=\"t\"; rel=next"),
        Some("https://x.test/a".to_string())
    );
}

#[test]
fn comma_inside_target_does_not_split() {
    assert_eq!(
        field_next_link("<https://x.test/a?q=1,2>; rel=\"next\""),
        Some("https://x.test/a?q=1,2".to_string())
    );
}

#[test]
fn malformed_field_announces_nothing() {
    assert_eq!(field_next_link("https://x.test/a; rel=\"next\""), None);
    assert_eq!(field_next_link("<https://x.test/a; rel=\"next\""), None);
    assert_eq!(field_next_link(""), None);
    assert_eq!(field_next_link("garbage, <https://x.test/b>; rel=\"next\""), None);
    assert_eq!(field_next_link("x,<a>;rel=next"), None);
    assert_eq!(field_next_link("<a> junk; rel=next"), None);
    assert_eq!(field_next_link("<a>; rel=\"next"), None);
    let hs = vec![field("link", "<https://x.test/b>; rel=\"next\", oops")];
    assert_eq!(extract_link_next(&hs), None);
}

#[test]
fn blank_elements_are_allowed() {
    assert_eq!(field_next_link("<a>;rel=next, ,"), Some("a".to_string()));
    assert_eq!(field_next_link(" , <a>;rel=next"), Some("a".to_string()));
}

#[test]
fn quoted_values_are_honoured() {
    assert_eq!(field_next_link("<a>;title=\"x,y\";rel=next"), Some("a".to_string()));
    assert_eq!(field_next_link("<a>;title=\"x;rel=next;\""), None);
    assert_eq!(field_next_link("<a>;rel=next;title=\"x,y\""), Some("a".to_string()));
    assert_eq!(field_next_link("<a>;title=\"x\\\",y\";rel=next"), Some("a".to_string()));
    assert_eq!(
        field_next_link("<a>;title=\"p, q\";rel=prev, <b>;rel=\"next\""),
        Some("b".to_string())
    );
}

#[test]
fn second_link_field_is_read() {
    let hs = vec![
        field("Link", "<https://x.test/first>; rel=\"prev\""),
        field("LINK", " <https://x.test/second> ; rel = \"next\" "),
    ];
    assert_eq!(extract_link_next(&hs), Some("https://x.test/second".to_string()));
}

#[test]
fn first_next_by_position_among_several() {
    let hs = vec![field("link", "<https://x.test/a>; rel=\"next\", <https://x.test/b>; rel=\"next\"")];
    assert_eq!(extract_link_next(&hs), Some("https://x.test/a".to_string()));
}

#[test]
fn malformed_link_line_ends_the_parse() {
    let hs = vec![field("Link", "x"), field("Link", "<a>; rel=\"next\"")];
    assert_eq!(extract_link_next(&hs), None);
    let hs = vec![field("Link", "<a>; rel=\"next\""), field("link", "<b")];
    assert_eq!(extract_link_next(&hs), None);
    let hs = vec![field("Link", "<a>; rel=\"prev\""), field("x-other", "junk"), field("link", "<b>; rel=\"next\"")];
    assert_eq!(extract_link_next(&hs), Some("b".to_string()));
}
