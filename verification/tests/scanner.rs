use mad::tags::TagPath;
use mad::vault::scan::{
    dedupe_tags, extract_body_tags, extract_hash_tags_from_line, scan_document, scan_tags,
    Document,
};

fn written(tags: &Vec<TagPath>) -> Vec<String> {
    tags.iter().map(|t| t.to_slash_string()).collect()
}

fn doc(path: &str, content: &str) -> Document {
    Document { path: path.to_string(), content: content.to_string() }
}

#[test]
fn a_fenced_region_holds_no_tags() {
    assert!(extract_body_tags("```\n#notatag\n```").is_empty());
    assert!(extract_body_tags("~~~\n#notatag\n~~~").is_empty());
    assert!(extract_body_tags("   ```rust\n#notatag\n   ```").is_empty());
}

#[test]
fn tags_outside_fences_are_found() {
    let tags = extract_body_tags("#one\n```\n#two\n```\n#three/deep and #four_x-y.\n~~~\n#five");
    assert_eq!(written(&tags), vec!["one", "three/deep", "four_x-y"]);
}

#[test]
fn a_fence_line_switches_whatever_opened_the_block() {
    // a tilde line closes what backticks opened
    let tags = extract_body_tags("```\n#in\n~~~\n#out");
    assert_eq!(written(&tags), vec!["out"]);
    // the fence line itself holds no tag
    let tags = extract_body_tags("``` #fence\n#in\n``` #fence\n#out");
    assert_eq!(written(&tags), vec!["out"]);
}

#[test]
fn inline_tags_are_runs_of_tag_characters_after_a_hash() {
    let tags = extract_hash_tags_from_line("# Title with #tag1, #a/b/c! ##x #/ # #é #d//e/");
    assert_eq!(written(&tags), vec!["tag1", "a/b/c", "x", "d/e"]);
    assert!(extract_hash_tags_from_line("no tags here").is_empty());
    assert!(extract_hash_tags_from_line("").is_empty());
    let tags = extract_hash_tags_from_line("#end");
    assert_eq!(written(&tags), vec!["end"]);
}

#[test]
fn dedupe_keeps_the_first_of_each_written_form() {
    let tags = vec![
        TagPath(vec!["a".to_string(), "b".to_string()]),
        TagPath(vec!["c".to_string()]),
        TagPath(vec!["a/b".to_string()]),
        TagPath(vec!["a".to_string(), "b".to_string()]),
        TagPath(vec!["d".to_string()]),
        TagPath(vec!["c".to_string()]),
    ];
    let out = dedupe_tags(tags);
    assert_eq!(out.len(), 3);
    assert_eq!(out[0].0, vec!["a", "b"]);
    assert_eq!(out[1].0, vec!["c"]);
    assert_eq!(out[2].0, vec!["d"]);
    assert!(dedupe_tags(vec![]).is_empty());
}

#[test]
fn scan_gives_primary_and_secondary_tags() {
    let item = scan_document(&doc(
        "/v/Notas/x.md",
        "---\ntags:\n  - meta/one\n  - inline\n---\n{ #main/tag }\n\ntext #inline and #other\n",
    ));
    assert_eq!(item.path, "/v/Notas/x.md");
    assert_eq!(item.primary_tag.unwrap().0, vec!["main", "tag"]);
    assert_eq!(
        written(&item.secondary_tags),
        vec!["meta/one", "inline", "main/tag", "other"]
    );
}

#[test]
fn the_marker_line_is_scanned_for_inline_tags_too() {
    let item = scan_document(&doc("a.md", "{ #p/q }\n"));
    assert_eq!(written(&item.secondary_tags), vec!["p/q"]);
    assert_eq!(item.primary_tag.unwrap().0, vec!["p", "q"]);
}

#[test]
fn a_document_without_front_matter_is_all_body() {
    let item = scan_document(&doc("a.md", "just #text"));
    assert!(item.primary_tag.is_none());
    assert_eq!(written(&item.secondary_tags), vec!["text"]);
    // an opening fence without a closing one is no front matter
    let item = scan_document(&doc("a.md", "---\ntags: [x]\n#body"));
    assert_eq!(written(&item.secondary_tags), vec!["body"]);
}

#[test]
fn malformed_front_matter_gives_no_tags() {
    let item = scan_document(&doc("a.md", "---\ntags: [unclosed\n---\n{ #main }\n#inline"));
    assert!(item.primary_tag.is_none());
    assert!(item.secondary_tags.is_empty());
}

#[test]
fn scan_tags_scans_every_document() {
    let items = scan_tags(&vec![doc("a.md", "#a"), doc("b.md", "no"), doc("c.md", "{ #c }")]);
    assert_eq!(items.len(), 3);
    assert_eq!(items[0].path, "a.md");
    assert_eq!(written(&items[0].secondary_tags), vec!["a"]);
    assert!(items[1].secondary_tags.is_empty());
    assert_eq!(items[2].primary_tag.as_ref().unwrap().0, vec!["c"]);
}
