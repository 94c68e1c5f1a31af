use mad::notes::frontmatter::Frontmatter;
use mad::tags::parser::{extract_primary_tag, replace_primary_tag};
use mad::tags::TagPath;

#[test]
fn test_parse_simple_tag() {
    let yaml = Frontmatter::from_yaml(
        r#"
tags:
  - simple
"#,
    )
    .unwrap();

    let tags = TagPath::from_frontmatter(&yaml);
    assert_eq!(tags.len(), 1);
    assert_eq!(tags[0].0, vec!["simple"]);
}

#[test]
fn test_parse_hierarchical_tag() {
    let yaml = Frontmatter::from_yaml(
        r#"
tags:
  - proyecto/cliente/acme
"#,
    )
    .unwrap();

    let tags = TagPath::from_frontmatter(&yaml);
    assert_eq!(tags.len(), 1);
    assert_eq!(tags[0].0, vec!["proyecto", "cliente", "acme"]);
}

#[test]
fn test_parse_array_as_separate_tags() {
    let yaml = Frontmatter::from_yaml(
        r#"
tags:
  - experta
  - administracion
"#,
    )
    .unwrap();

    let tags = TagPath::from_frontmatter(&yaml);
    assert_eq!(tags.len(), 2);
    assert_eq!(tags[0].0, vec!["experta"]);
    assert_eq!(tags[1].0, vec!["administracion"]);
}

#[test]
fn test_parse_multiple_hierarchical_tags() {
    let yaml = Frontmatter::from_yaml(
        r#"
tags:
  - padre/hijo
  - otro/tag/profundo
"#,
    )
    .unwrap();

    let tags = TagPath::from_frontmatter(&yaml);
    assert_eq!(tags.len(), 2);
    assert_eq!(tags[0].0, vec!["padre", "hijo"]);
    assert_eq!(tags[1].0, vec!["otro", "tag", "profundo"]);
}

#[test]
fn test_to_slash_string() {
    let tag = TagPath(vec![
        "proyecto".to_string(),
        "cliente".to_string(),
        "acme".to_string(),
    ]);
    assert_eq!(tag.to_slash_string(), "proyecto/cliente/acme");
}

#[test]
fn test_starts_with() {
    let parent = TagPath(vec!["proyecto".to_string(), "cliente".to_string()]);
    let child = TagPath(vec![
        "proyecto".to_string(),
        "cliente".to_string(),
        "acme".to_string(),
    ]);
    let unrelated = TagPath(vec!["otro".to_string()]);

    assert!(child.starts_with(&parent));
    assert!(!unrelated.starts_with(&parent));
    assert!(!parent.starts_with(&child));
}

#[test]
fn test_extract_primary_tag() {
    // Valid primary tag
    let body = "{ #dev/magic-documents }\n\n# Title\n\nContent here";
    let tag = extract_primary_tag(body).unwrap();
    assert_eq!(tag.0, vec!["dev", "magic-documents"]);

    // No primary tag
    let body = "# Title\n\nContent here";
    assert!(extract_primary_tag(body).is_none());

    // Invalid format (missing space before })
    let body = "{ #dev/project}\n\nContent";
    assert!(extract_primary_tag(body).is_none());

    // Simple tag
    let body = "{ #simple }\n\nContent";
    let tag = extract_primary_tag(body).unwrap();
    assert_eq!(tag.0, vec!["simple"]);
}

#[test]
fn test_replace_primary_tag() {
    let new_tag = TagPath(vec!["new".to_string(), "tag".to_string()]);

    // Replace existing tag
    let body = "{ #old/tag }\n\n# Title\n\nContent";
    let result = replace_primary_tag(body, &new_tag);
    assert!(result.starts_with("{ #new/tag }\n\n# Title"));

    // Insert new tag when none exists
    let body = "# Title\n\nContent";
    let result = replace_primary_tag(body, &new_tag);
    assert!(result.starts_with("{ #new/tag }\n\n# Title"));
}

#[test]
fn replace_primary_tag_gives_the_whole_body() {
    let new_tag = TagPath(vec!["new".to_string(), "tag".to_string()]);
    assert_eq!(
        replace_primary_tag("  { #old/tag }  \n\n# Title\n\nContent", &new_tag),
        "{ #new/tag }\n\n# Title\n\nContent"
    );
    assert_eq!(
        replace_primary_tag("\n\n# Title", &new_tag),
        "{ #new/tag }\n\n# Title"
    );
    // a marker that is not closed is no marker: the new one goes in front
    assert_eq!(
        replace_primary_tag("{ #old/tag}\nrest", &new_tag),
        "{ #new/tag }\n\n{ #old/tag}\nrest"
    );
}

#[test]
fn parse_reads_the_written_form_back() {
    let tag = TagPath(vec![
        "project".to_string(),
        "client".to_string(),
        "acme".to_string(),
    ]);
    let written = tag.to_slash_string();
    assert_eq!(written, "project/client/acme");
    let back = TagPath::parse(&written).unwrap();
    assert_eq!(back.0, tag.0);
    assert!(back == tag);
}

#[test]
fn parse_trims_segments_and_drops_empty_ones() {
    let tag = TagPath::parse("  a / b//c /").unwrap();
    assert_eq!(tag.0, vec!["a", "b", "c"]);
    assert!(TagPath::parse("").is_none());
    assert!(TagPath::parse(" / / ").is_none());
    // whitespace that is not ASCII is whitespace too
    let tag = TagPath::parse("\u{00A0}x\u{3000}/\u{2003}y").unwrap();
    assert_eq!(tag.0, vec!["x", "y"]);
}

#[test]
fn to_string_with_separator_puts_it_between_segments() {
    let tag = TagPath(vec!["a".to_string(), "b".to_string(), "c".to_string()]);
    assert_eq!(tag.to_string_with_separator(" → "), "a → b → c");
    assert_eq!(tag.to_string_with_separator(""), "abc");
    let single = TagPath(vec!["a".to_string()]);
    assert_eq!(single.to_string_with_separator("/"), "a");
    let empty = TagPath(vec![]);
    assert_eq!(empty.to_slash_string(), "");
}

#[test]
fn tag_paths_compare_by_their_segments() {
    let a = TagPath::from(vec!["x".to_string(), "y".to_string()]);
    let b = TagPath(vec!["x".to_string(), "y".to_string()]);
    let c = TagPath(vec!["x".to_string()]);
    assert!(a == b);
    assert!(a != c);
    assert!(a.clone() == a);
    assert!(a.starts_with(&a));
}

#[test]
fn primary_tag_needs_the_marker_at_the_head() {
    assert!(extract_primary_tag("text\n{ #a/b }").is_none());
    assert!(extract_primary_tag("{#a/b }").is_none());
    assert!(extract_primary_tag("{ # }").is_none());
    assert!(extract_primary_tag("{ # / }").is_none());
    let tag = extract_primary_tag("\n\n   { # a / b } and more }").unwrap();
    assert_eq!(tag.0, vec!["a", "b"]);
}

#[test]
fn front_matter_tags_come_from_the_first_key_that_holds_a_list() {
    let fm = Frontmatter::from_yaml("tag:\n  - second\ntags:\n  - first/one\n  - 7\n  - ' '\n").unwrap();
    let tags = TagPath::from_frontmatter(&fm);
    assert_eq!(tags.len(), 1);
    assert_eq!(tags[0].0, vec!["first", "one"]);

    // a key that holds no list is passed over
    let fm = Frontmatter::from_yaml("tags: single\nTags:\n  - upper\n").unwrap();
    let tags = TagPath::from_frontmatter(&fm);
    assert_eq!(tags.len(), 1);
    assert_eq!(tags[0].0, vec!["upper"]);

    let fm = Frontmatter::from_yaml("title: none\n").unwrap();
    assert!(TagPath::from_frontmatter(&fm).is_empty());
}

#[test]
fn the_marker_closes_on_its_own_line() {
    // a ` }` on a later line closes nothing
    assert!(extract_primary_tag("{ #dev/project}\n\nsee { x }").is_none());
    assert!(extract_primary_tag("{ #dev/project\n }").is_none());
    assert!(extract_primary_tag("{ #dev\n/project }").is_none());
    let tag = extract_primary_tag("{ #dev/project }\r\nsee { x }").unwrap();
    assert_eq!(tag.0, vec!["dev", "project"]);
    let tag = extract_primary_tag("{ #a } { #b }\nnext }").unwrap();
    assert_eq!(tag.0, vec!["a"]);

    let new_tag = TagPath(vec!["new".to_string()]);
    assert_eq!(
        replace_primary_tag("{ #dev/project}\n\nsee { x }", &new_tag),
        "{ #new }\n\n{ #dev/project}\n\nsee { x }"
    );
    assert_eq!(
        replace_primary_tag("{ #old } tail }\nnext", &new_tag),
        "{ #new }\n\ntail }\nnext"
    );
}
