use mad::groups::{add_member, insert_sorted, Group};
use mad::paths::components;
use mad::tags::cache;
use mad::tags::primary_cache;
use mad::tags::{TagNode, TagPath};
use mad::vault::scan::{scan_tags, Document};

fn segs(items: &[&str]) -> Vec<String> {
    items.iter().map(|s| s.to_string()).collect()
}

fn note(path: &str, content: &str) -> Document {
    Document { path: path.to_string(), content: content.to_string() }
}

#[test]
fn shared_prefixes_share_nodes() {
    let mut root = TagNode::new("root".to_string());
    root.insert_path(&segs(&["project", "client", "acme"]));
    root.insert_path(&segs(&["project", "client", "zeta"]));
    root.insert_path(&segs(&["project", "internal"]));
    root.insert_path(&segs(&["alpha"]));
    root.insert_path(&[]);
    assert_eq!(root.name, "root");
    assert_eq!(root.get_children_names(), vec!["alpha", "project"]);
    let project = root.get_child("project").unwrap();
    assert_eq!(project.name, "project");
    assert_eq!(project.get_children_names(), vec!["client", "internal"]);
    let client = project.get_child("client").unwrap();
    assert_eq!(client.get_children_names(), vec!["acme", "zeta"]);
    assert!(client.get_child("acme").unwrap().children.is_empty());
    assert!(root.get_child("missing").is_none());
}

#[test]
fn children_stand_in_the_order_of_their_names() {
    let mut root = TagNode::new("root".to_string());
    for name in ["m", "b", "z", "a", "B", "ab", "é", "m"] {
        root.insert_path(&segs(&[name]));
    }
    let mut expected = vec!["m", "b", "z", "a", "B", "ab", "é"];
    expected.sort();
    assert_eq!(root.get_children_names(), expected);
}

#[test]
fn a_copy_holds_the_same_paths() {
    let mut root = TagNode::new("root".to_string());
    root.insert_path(&segs(&["a", "b"]));
    root.insert_path(&segs(&["c"]));
    let copy = root.copy();
    assert_eq!(copy.name, "root");
    assert_eq!(copy.get_children_names(), vec!["a", "c"]);
    assert_eq!(copy.get_child("a").unwrap().get_children_names(), vec!["b"]);
}

#[test]
fn the_tag_tree_holds_the_tags_of_the_front_matter() {
    let root = cache::collect(&vec![
        note("a.md", "---\ntags:\n- x/y\n- z\n---\n#inline"),
        note("b.md", "---\ntags: [broken\n---\n"),
        note("c.md", "---\ntags:\n- x/w\n---\n{ #primary }"),
        note("d.md", "no front matter"),
    ]);
    assert_eq!(root.name, "root");
    assert_eq!(root.get_children_names(), vec!["x", "z"]);
    assert_eq!(root.get_child("x").unwrap().get_children_names(), vec!["w", "y"]);
}

#[test]
fn the_primary_cache_knows_where_the_notes_of_a_tag_lie() {
    let items = scan_tags(&vec![
        note("/v/Notas/p/q/one.md", "{ #p/q }"),
        note("/v/Notas/else/two.md", "{ #p/q }"),
        note("/v/Notas/p/q/three.md", "{ #p/q }"),
        note("/v/Notas/r/four.md", "{ #r }"),
        note("/v/Notas/none.md", "no tag"),
        note("/outside/five.md", "{ #r }"),
    ]);
    let cache = primary_cache::collect(&components("/v"), &items);
    assert_eq!(cache.root.get_children_names(), vec!["p", "r"]);
    assert_eq!(cache.root.get_child("p").unwrap().get_children_names(), vec!["q"]);
    assert_eq!(cache.dirs_by_tag.len(), 2);
    assert_eq!(cache.dirs_by_tag[0].key, "p/q");
    assert_eq!(cache.dirs_by_tag[0].members, vec!["Notas/else", "Notas/p/q"]);
    assert_eq!(cache.dirs_by_tag[1].key, "r");
    assert_eq!(cache.dirs_by_tag[1].members, vec!["/outside", "Notas/r"]);
    // one group for each primary tag that a note has
    assert!(cache.dirs_by_tag.iter().all(|g| !g.members.is_empty()));
    let none = primary_cache::collect(&components("/v"), &scan_tags(&vec![note("/v/a.md", "no tag")]));
    assert!(none.dirs_by_tag.is_empty());
    assert!(none.root.children.is_empty());
}

#[test]
fn the_directory_of_a_note_is_written_from_the_vault_on() {
    let vault = components("/v");
    assert_eq!(primary_cache::dir_of_note(&vault, "/v/a/b/n.md"), "a/b");
    assert_eq!(primary_cache::dir_of_note(&vault, "/v/n.md"), "");
    assert_eq!(primary_cache::dir_of_note(&vault, "/w/a/n.md"), "/w/a");
    assert_eq!(primary_cache::dir_of_note(&vault, "/"), "");
}

#[test]
fn groups_keep_their_members_sorted_and_once() {
    let mut groups: Vec<Group> = Vec::new();
    add_member(&mut groups, "k".to_string(), "b".to_string());
    add_member(&mut groups, "k".to_string(), "a".to_string());
    add_member(&mut groups, "j".to_string(), "z".to_string());
    add_member(&mut groups, "k".to_string(), "b".to_string());
    assert_eq!(groups.len(), 2);
    assert_eq!(groups[0].key, "k");
    assert_eq!(groups[0].members, vec!["a", "b"]);
    assert_eq!(groups[1].members, vec!["z"]);
    let mut list = vec!["a".to_string(), "c".to_string()];
    insert_sorted(&mut list, "b".to_string());
    insert_sorted(&mut list, "d".to_string());
    insert_sorted(&mut list, "a".to_string());
    assert_eq!(list, vec!["a", "b", "c", "d"]);
}

#[test]
fn tag_paths_go_into_the_tree_by_their_segments() {
    let mut root = TagNode::new("root".to_string());
    let tag = TagPath::parse("one/two").unwrap();
    root.insert_path(&tag.0);
    assert_eq!(root.get_child("one").unwrap().get_children_names(), vec!["two"]);
}

#[test]
fn the_paths_of_a_tree_are_shown_from_the_top_down() {
    let mut root = TagNode::new("root".to_string());
    root.insert_path(&segs(&["b", "x"]));
    root.insert_path(&segs(&["a", "y", "z"]));
    root.insert_path(&segs(&["a", "c"]));
    let mut out = vec!["first".to_string()];
    root.collect_all_paths("", &mut out);
    assert_eq!(out, vec!["first", "a", "a → c", "a → y", "a → y → z", "b", "b → x"]);
    let mut out = Vec::new();
    root.get_child("a").unwrap().collect_all_paths("a", &mut out);
    assert_eq!(out, vec!["a → c", "a → y", "a → y → z"]);
}
