use mad::commands::migrate::{migrate_file_inner, migrate_front_matter, migrate_items};
use mad::commands::tman::{collect_all_tags, rename_in_front_matter, rename_tag};
use mad::notes::frontmatter::{Frontmatter, Scalar};
use mad::vault::scan::{scan_tags, Document};

fn path_of(items: &[&str]) -> Vec<String> {
    items.iter().map(|s| s.to_string()).collect()
}

fn texts(items: &[&str]) -> Vec<Scalar> {
    items.iter().map(|s| Scalar::Text(s.to_string())).collect()
}

#[test]
fn every_tag_knows_its_notes() {
    let items = scan_tags(&vec![
        Document { path: "b.md".to_string(), content: "#x #y/z".to_string() },
        Document { path: "a.md".to_string(), content: "---\ntags:\n- x\n---\n#x".to_string() },
        Document { path: "c.md".to_string(), content: "none".to_string() },
    ]);
    let groups = collect_all_tags(&items);
    assert_eq!(groups.len(), 2);
    assert_eq!(groups[0].key, "x");
    assert_eq!(groups[0].members, vec!["a.md", "b.md"]);
    assert_eq!(groups[1].key, "y/z");
    assert_eq!(groups[1].members, vec!["b.md"]);
}

#[test]
fn a_tag_is_renamed_in_the_first_list_of_tags() {
    let mut fm = Frontmatter::from_yaml("title: t\ntags:\n- ' old/tag '\n- old/tag/sub\n- other\n- 5\nTag:\n- old/tag\n").unwrap();
    let changed = rename_in_front_matter(&mut fm, &path_of(&["old", "tag"]), &path_of(&["new"]), false);
    assert!(changed);
    assert_eq!(
        fm.to_yaml().unwrap(),
        "title: t\ntags:\n- new\n- old/tag/sub\n- other\nTag:\n- old/tag\n"
    );
}

#[test]
fn a_recursive_rename_moves_the_tags_below() {
    let mut fm = Frontmatter::from_yaml("tags:\n- old/tag\n- old/tag/sub/deep\n- old\n- older/tag\n").unwrap();
    let changed = rename_in_front_matter(&mut fm, &path_of(&["old", "tag"]), &path_of(&["n", "m"]), true);
    assert!(changed);
    assert_eq!(fm.to_yaml().unwrap(), "tags:\n- n/m\n- n/m/sub/deep\n- old\n- older/tag\n");
}

#[test]
fn a_rename_that_meets_no_tag_changes_nothing() {
    let mut fm = Frontmatter::from_yaml("tags:\n- ' a '\n- 5\n").unwrap();
    assert!(!rename_in_front_matter(&mut fm, &path_of(&["x"]), &path_of(&["y"]), true));
    assert_eq!(fm.to_yaml().unwrap(), "tags:\n- ' a '\n- 5\n");
    let mut fm = Frontmatter::from_yaml("tags: a\n").unwrap();
    assert!(!rename_in_front_matter(&mut fm, &path_of(&["a"]), &path_of(&["y"]), false));
    assert!(rename_tag("no front matter", &path_of(&["a"]), &path_of(&["b"]), false).unwrap().is_none());
    assert!(rename_tag("---\n[\n---\n", &path_of(&["a"]), &path_of(&["b"]), false).unwrap().is_none());
}

#[test]
fn a_renamed_note_keeps_its_body() {
    let out = rename_tag("---\ntags:\n- a/b\n---\nbody #a/b\n", &path_of(&["a"]), &path_of(&["z"]), true)
        .unwrap()
        .unwrap();
    assert_eq!(out, "---\ntags:\n- z/b\n---\nbody #a/b\n");
}

#[test]
fn segments_that_are_spread_over_a_list_become_one_tag() {
    assert_eq!(migrate_items(&texts(&["padre", "hijo"])).unwrap(), "padre/hijo");
    assert_eq!(migrate_items(&texts(&[" a ", "", "b/c", " / d"])).unwrap(), "a/b/c/d");
    assert_eq!(migrate_items(&texts(&["a/b", "c"])).unwrap(), "a/b/c");
    assert!(migrate_items(&texts(&["a/b"])).is_none());
    assert!(migrate_items(&texts(&["single"])).is_none());
    assert!(migrate_items(&texts(&[])).is_none());
    assert!(migrate_items(&texts(&["a", " "])).is_none());
    let mixed = vec![Scalar::Text("a".to_string()), Scalar::Other(serde_yaml::Value::Null), Scalar::Text("b".to_string())];
    assert!(migrate_items(&mixed).is_none());
}

#[test]
fn the_first_list_that_can_be_migrated_is() {
    let mut fm = Frontmatter::from_yaml("tags:\n- done/already\ntag:\n- a\n- b\nTags:\n- c\n- d\n").unwrap();
    let note = migrate_front_matter(&mut fm).unwrap();
    assert_eq!(note, "[a, b] → [a/b]");
    assert_eq!(fm.to_yaml().unwrap(), "tags:\n- done/already\ntag:\n- a/b\nTags:\n- c\n- d\n");
    assert!(migrate_front_matter(&mut Frontmatter::from_yaml("tags:\n- a/b\n").unwrap()).is_none());
}

#[test]
fn a_migrated_note_keeps_its_body() {
    let (text, note) = migrate_file_inner("---\ntags:\n- padre\n- hijo\n---\nbody\n").unwrap().unwrap();
    assert_eq!(text, "---\ntags:\n- padre/hijo\n---\nbody\n");
    assert_eq!(note, "[padre, hijo] → [padre/hijo]");
    assert!(migrate_file_inner("body only").unwrap().is_none());
    assert!(migrate_file_inner("---\n[\n---\n").is_err());
}
