use mad::paths::{
    components, copy, file_name, head, join, parent, same_chars, starts_with, strip_prefix, tail,
    to_text,
};
use mad::utils::vault::{same_path, VaultWalker};
use std::path::Path;

fn std_components(p: &str) -> Vec<String> {
    Path::new(p)
        .components()
        .map(|c| c.as_os_str().to_string_lossy().into_owned())
        .collect()
}

#[test]
fn components_are_what_std_takes_them_to_be() {
    for p in [
        "", "/", ".", "..", "a", "a/b", "/a/b", "a//b", "a/./b", "./a", "./", "a/.", "a/..",
        "../a", "/.", "/..", "//a", "a/b/", "a/b//", "/a/./b/../c", "./.", ".a", "a.", "...",
        "/vault/Notas/note.md", "rel/ative/path with space",
    ] {
        assert_eq!(components(p), std_components(p), "{:?}", p);
    }
}

#[test]
fn paths_are_joined_as_std_joins_them() {
    for (a, b) in [("/a", "b/c"), ("/a/b", "/c"), ("a", ""), ("", "b"), ("/", "x"), ("a/b", "./c"), ("a", "..")] {
        let expected: Vec<String> = std_components(Path::new(a).join(b).to_str().unwrap());
        assert_eq!(join(&components(a), &components(b)), expected, "{:?} {:?}", a, b);
    }
}

#[test]
fn parents_and_file_names_are_those_of_std() {
    for p in ["/a/b", "a", "/", "", "a/..", "/a", "a/b/c.md", ".", "./a"] {
        let expected = Path::new(p).parent().map(|q| std_components(q.to_str().unwrap()));
        assert_eq!(parent(&components(p)), expected, "{:?}", p);
        let expected = Path::new(p).file_name().map(|n| n.to_str().unwrap().to_string());
        assert_eq!(file_name(&components(p)), expected, "{:?}", p);
    }
}

#[test]
fn prefixes_are_whole_components() {
    let p = components("/a/bc/d");
    assert!(starts_with(&p, &components("/a/bc")));
    assert!(starts_with(&p, &components("/")));
    assert!(starts_with(&p, &vec![]));
    assert!(!starts_with(&p, &components("/a/b")));
    assert!(!starts_with(&p, &components("a")));
    assert_eq!(strip_prefix(&p, &components("/a")), Some(components("bc/d")));
    assert_eq!(strip_prefix(&p, &p), Some(vec![]));
    assert_eq!(strip_prefix(&p, &components("/x")), None);
    assert_eq!(head(&p, 2), components("/a"));
    assert_eq!(copy(&p), p);
    assert_eq!(tail(&p, 2), components("bc/d"));
    assert!(same_path(&p, &components("/a//bc/./d")));
    assert!(!same_path(&p, &components("/a/bc")));
    assert!(same_chars(&vec!['a'], &vec!['a']));
    assert!(!same_chars(&vec!['a'], &vec!['a', 'b']));
}

#[test]
fn the_written_form_of_a_path_has_one_root() {
    assert_eq!(to_text(&components("/a/b")), "/a/b");
    assert_eq!(to_text(&components("a/b")), "a/b");
    assert_eq!(to_text(&components("/")), "/");
    assert_eq!(to_text(&vec![]), "");
}

#[test]
fn test_vault_walker_basic() {
    let vault = components("/tmp/vault");
    let files = vec![
        components("/tmp/vault/note1.md"),
        components("/tmp/vault/note2.md"),
        components("/tmp/vault/readme.txt"),
    ];
    let found = VaultWalker::new(&vault).walk(&files);
    assert_eq!(found.len(), 2);
}

#[test]
fn test_vault_walker_excludes_hidden() {
    let vault = components("/tmp/vault");
    let files = vec![
        components("/tmp/vault/visible/note.md"),
        components("/tmp/vault/.hidden/secret.md"),
    ];
    let found = VaultWalker::new(&vault).walk(&files);
    assert_eq!(found.len(), 1);
    assert_eq!(found[0], components("/tmp/vault/visible/note.md"));
}

#[test]
fn test_vault_walker_excludes_templates() {
    let vault = components("/tmp/vault");
    let files = vec![
        components("/tmp/vault/Notes/note.md"),
        components("/tmp/vault/Templates/template.md"),
    ];
    let templates_path = components("/tmp/vault/Templates");
    let found = VaultWalker::new(&vault).exclude_templates(&templates_path).walk(&files);
    assert_eq!(found.len(), 1);
    assert_eq!(found[0], components("/tmp/vault/Notes/note.md"));
}

#[test]
fn the_walk_reaches_markdown_files_below_directories_it_goes_into() {
    let vault = components("/v");
    let walker = VaultWalker::new(&vault).exclude_templates(&components("/v/T"));
    assert!(walker.visits(&components("/v/a/b/n.md")));
    assert!(walker.visits(&components("/v/.hidden.md")));
    assert!(walker.visits(&components("/v/a/T/n.md")));
    assert!(walker.visits(&components("/v/..md")));
    assert!(!walker.visits(&components("/v/a/.git/n.md")));
    assert!(!walker.visits(&components("/v/T/n.md")));
    assert!(!walker.visits(&components("/v/T/sub/n.md")));
    assert!(!walker.visits(&components("/v/n.MD")));
    assert!(!walker.visits(&components("/v/.md")));
    assert!(!walker.visits(&components("/v/n.md.bak")));
    assert!(!walker.visits(&components("/other/n.md")));
    assert!(!walker.visits(&components("/v")));
    assert!(walker.enters(&components("/v/a")));
    assert!(!walker.enters(&components("/v/.a")));
    assert!(!walker.enters(&components("/v/T")));
    let open = walker.exclude_hidden(false);
    assert!(open.visits(&components("/v/a/.git/n.md")));
    assert!(open.enters(&components("/v/.a")));
    assert!(!open.enters(&components("/v/T")));
    // a vault that is hidden itself is walked
    let hidden_vault = VaultWalker::new(&components("/home/.notes"));
    assert!(hidden_vault.visits(&components("/home/.notes/a/n.md")));
}
