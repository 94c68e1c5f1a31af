use mad::commands::retag::{
    create_backup, derive_tag_from_path, outcome_of, retag_file_inner, retag_parts,
    retag_recursive, Outcome, RetagError, Tally,
};
use mad::vault::scan::Document;
use mad::notes::config::Config;
use mad::notes::frontmatter::{extract, Field, Frontmatter, Scalar};
use mad::paths::components;
use mad::tags::parser::extract_primary_tag;

fn retag_config(tag_root: &str) -> Config {
    Config {
        vault: "/vault".to_string(),
        date: "%Y-%m-%d".to_string(),
        time: "%H:%M".to_string(),
        default_nametype: None,
        editor: None,
        editor_mode: None,
        timeprint: None,
        notes_dir: "Notas".to_string(),
        diary_dir: "Diario".to_string(),
        templates_dir: "Templates".to_string(),
        tag_root: tag_root.to_string(),
        dir_mappings: None,
        rcal_config: None,
    }
}

fn aliases_of(fm: &Frontmatter) -> Vec<String> {
    match fm.get("aliases") {
        Some(Field::List(items)) => items
            .iter()
            .map(|i| match i {
                Scalar::Text(t) => t.clone(),
                Scalar::Other(_) => "?".to_string(),
            })
            .collect(),
        _ => vec![],
    }
}

#[test]
fn the_directories_below_the_tag_root_are_the_tag() {
    let config = retag_config("Notas");
    let vault = components("/vault");
    let tag = derive_tag_from_path(&vault, &config, &components("/vault/Notas/a/b/note.md")).unwrap();
    assert_eq!(tag, "a/b");
    let tag = derive_tag_from_path(&vault, &config, &components("/vault/Notas/note.md")).unwrap();
    assert_eq!(tag, "");
    let tag = derive_tag_from_path(&vault, &config, &components("/vault/Notas")).unwrap();
    assert_eq!(tag, "");
}

#[test]
fn a_note_outside_the_tag_root_has_no_derived_tag() {
    let config = retag_config("Notas");
    let vault = components("/vault");
    let r = derive_tag_from_path(&vault, &config, &components("/vault/Other/a/note.md"));
    assert!(matches!(r, Err(RetagError::OutsideTagRoot)));
    let r = derive_tag_from_path(&vault, &config, &components("/vault/Notasx/a/note.md"));
    assert!(matches!(r, Err(RetagError::OutsideTagRoot)));
}

#[test]
fn a_tag_root_of_several_directories_is_skipped_whole() {
    let config = retag_config("deep/Notas");
    let vault = components("/vault");
    let tag = derive_tag_from_path(&vault, &config, &components("/vault/deep/Notas/x/y/z/n.md")).unwrap();
    assert_eq!(tag, "x/y/z");
}

#[test]
fn retag_scenario_rewrites_the_primary_tag_and_adds_an_alias() {
    let config = retag_config("Notas");
    let vault = components("/vault");
    let path = components("/vault/Notas/proj/client/note.md");
    let new_text = retag_file_inner(&vault, &config, &path, "{ #proj/other }\n\ntext", "2026-10-28", false)
        .unwrap()
        .unwrap();
    assert_eq!(
        new_text,
        "---\naliases:\n- 2026-10-28 proj/other\n---\n{ #proj/client }\n\ntext"
    );
    let (fm, body) = extract(&new_text).unwrap();
    assert_eq!(extract_primary_tag(&body).unwrap().0, vec!["proj", "client"]);
    assert_eq!(aliases_of(&fm), vec!["2026-10-28 proj/other"]);
}

#[test]
fn retag_without_alias_mode_leaves_the_front_matter() {
    let config = retag_config("Notas");
    let vault = components("/vault");
    let path = components("/vault/Notas/proj/client/note.md");
    let new_text = retag_file_inner(
        &vault,
        &config,
        &path,
        "---\ntitle: T\n---\n{ #proj/other }\n\ntext",
        "2026-10-28",
        true,
    )
    .unwrap()
    .unwrap();
    assert_eq!(new_text, "---\ntitle: T\n---\n{ #proj/client }\n\ntext");
}

#[test]
fn retag_twice_changes_nothing_the_second_time() {
    let config = retag_config("Notas");
    let vault = components("/vault");
    let path = components("/vault/Notas/proj/client/note.md");
    let first = retag_file_inner(&vault, &config, &path, "---\ntitle: T\n---\n# Title\n", "2026-10-28", false)
        .unwrap()
        .unwrap();
    let second = retag_file_inner(&vault, &config, &path, &first, "2026-10-29", false).unwrap();
    assert!(second.is_none());
    assert_eq!(outcome_of(&Ok(second)), Outcome::Skipped);
}

#[test]
fn retag_leaves_a_note_whose_tag_is_right() {
    let config = retag_config("Notas");
    let vault = components("/vault");
    let path = components("/vault/Notas/a/b/note.md");
    let r = retag_file_inner(&vault, &config, &path, "{ #a/b }\n\ntext", "d", false).unwrap();
    assert!(r.is_none());
    // segments are compared after trimming
    let r = retag_file_inner(&vault, &config, &path, "{ # a / b }\n\ntext", "d", false).unwrap();
    assert!(r.is_none());
}

#[test]
fn retag_leaves_a_note_right_below_the_tag_root() {
    let config = retag_config("Notas");
    let vault = components("/vault");
    let path = components("/vault/Notas/note.md");
    let r = retag_file_inner(&vault, &config, &path, "{ #a/b }\n\ntext", "d", false).unwrap();
    assert!(r.is_none());
}

#[test]
fn retag_keeps_the_aliases_that_are_there() {
    let (fm, body) = extract(
        "---\naliases:\n- first\n- second\ntitle: T\n---\n{ #x/y }\n\ntext",
    )
    .unwrap();
    let (new_fm, new_body) = retag_parts(fm, &body, "x/z", "2026-01-02", false).unwrap();
    assert_eq!(aliases_of(&new_fm), vec!["first", "second", "2026-01-02 x/y"]);
    assert!(matches!(new_fm.get("title"), Some(Field::Text(t)) if t == "T"));
    assert_eq!(new_fm.entries.len(), 2);
    assert_eq!(new_body, "{ #x/z }\n\ntext");
}

#[test]
fn a_text_under_aliases_is_kept_as_the_first_alias() {
    let (fm, body) = extract("---\ntitle: T\naliases: not a list\n---\n{ #x/y }\nrest").unwrap();
    let (new_fm, _) = retag_parts(fm, &body, "x/z", "today", false).unwrap();
    assert_eq!(aliases_of(&new_fm), vec!["not a list", "today x/y"]);
    // the entry keeps its place
    assert!(matches!(&new_fm.entries[1].key, Scalar::Text(k) if k == "aliases"));

    let config = retag_config("Notas");
    let vault = components("/v");
    let path = components("/v/Notas/x/z/n.md");
    let text = retag_file_inner(
        &vault,
        &config,
        &path,
        "---\naliases: keep\n---\n{ #x/y }\n\nt",
        "2026-01-02",
        false,
    )
    .unwrap()
    .unwrap();
    assert_eq!(text, "---\naliases:\n- keep\n- 2026-01-02 x/y\n---\n{ #x/z }\n\nt");
}

#[test]
fn retag_makes_the_alias_list_where_there_is_none() {
    let (fm, body) = extract("---\ntitle: T\n---\n{ #x/y }\nrest").unwrap();
    let (new_fm, _) = retag_parts(fm, &body, "x/z", "today", false).unwrap();
    assert_eq!(aliases_of(&new_fm), vec!["today x/y"]);
    assert!(matches!(&new_fm.entries[1].key, Scalar::Text(k) if k == "aliases"));
    // a value that is neither a list nor a text gives way to the list
    let (fm, body) = extract("---\naliases:\ntitle: T\n---\n{ #x/y }\nrest").unwrap();
    let (new_fm, _) = retag_parts(fm, &body, "x/z", "today", false).unwrap();
    assert_eq!(aliases_of(&new_fm), vec!["today x/y"]);
    assert!(matches!(&new_fm.entries[0].key, Scalar::Text(k) if k == "aliases"));
}

#[test]
fn a_note_without_primary_tag_gets_one_and_no_alias() {
    let (fm, body) = extract("# Title\n").unwrap();
    let (new_fm, new_body) = retag_parts(fm, &body, "a", "today", false).unwrap();
    assert!(new_fm.is_empty());
    assert_eq!(new_body, "{ #a }\n\n# Title\n");
}

#[test]
fn retag_fails_on_front_matter_that_cannot_be_read() {
    let config = retag_config("Notas");
    let vault = components("/vault");
    let path = components("/vault/Notas/a/note.md");
    let r = retag_file_inner(&vault, &config, &path, "---\nkey: [unclosed\n---\nbody", "d", false);
    assert!(matches!(r, Err(RetagError::Yaml(_))));
    assert_eq!(outcome_of(&r), Outcome::Failed);
    let r = retag_file_inner(&vault, &config, &components("/else/note.md"), "body", "d", false);
    assert!(matches!(r, Err(RetagError::OutsideTagRoot)));
}

#[test]
fn backups_go_to_the_backup_directory_with_a_time_stamp() {
    let vault = components("/vault");
    let p = create_backup(&vault, &components("/vault/Notas/a/first.md"), "20260202_131045").unwrap();
    assert_eq!(p, vec!["/", "vault", ".arc", "backups", "first_20260202_131045.md.bak"]);
    let p = create_backup(&vault, &components("/vault/readme.txt"), "20260202_131045").unwrap();
    assert_eq!(p, vec!["/", "vault", ".arc", "backups", "readme.txt_20260202_131045.bak"]);
    let r = create_backup(&vault, &components("/vault/Notas/.."), "s");
    assert!(matches!(r, Err(RetagError::InvalidFilename)));
}

#[test]
fn the_tally_counts_each_outcome() {
    let mut tally = Tally::new();
    tally.record(&Outcome::Updated);
    tally.record(&Outcome::Skipped);
    tally.record(&Outcome::Skipped);
    tally.record(&Outcome::Failed);
    tally.record(&outcome_of(&Ok(Some("text".to_string()))));
    assert_eq!(tally, Tally { updated: 2, skipped: 2, errors: 1 });
    let mut full = Tally { updated: usize::MAX, skipped: 0, errors: 0 };
    full.record(&Outcome::Updated);
    assert_eq!(full.updated, usize::MAX);
}

#[test]
fn a_failure_does_not_end_the_batch() {
    let outcomes = vec![
        Outcome::Updated,
        Outcome::Failed,
        Outcome::Skipped,
        Outcome::Failed,
        Outcome::Updated,
        Outcome::Updated,
    ];
    assert_eq!(Tally::of(&outcomes), Tally { updated: 3, skipped: 1, errors: 2 });
    assert_eq!(Tally::of(&vec![]), Tally::new());
}

#[test]
fn a_batch_is_retagged_note_by_note_and_settles() {
    let config = retag_config("Notas");
    let vault = components("/vault");
    let note = |path: &str, content: &str| Document {
        path: path.to_string(),
        content: content.to_string(),
    };
    let first = vec![
        note("/vault/Notas/a/b/one.md", "{ #old }\n\ntext"),
        note("/vault/Notas/a/two.md", "{ #a }\n\ntext"),
        note("/vault/Notas/a/three.md", "---\n[\n---\nbroken"),
        note("/elsewhere/four.md", "text"),
        note("/vault/Notas/c/five.md", "---\ntitle: T\n---\nno tag yet"),
        note("/vault/Notas/six.md", "right below the tag root"),
    ];
    let (results, tally) = retag_recursive(&vault, &config, &first, "2026-01-02", false);
    assert_eq!(results.len(), 6);
    assert_eq!(tally, Tally { updated: 2, skipped: 2, errors: 2 });
    assert_eq!(
        results[0].as_ref().unwrap().as_deref(),
        Some("---\naliases:\n- 2026-01-02 old\n---\n{ #a/b }\n\ntext")
    );
    assert!(matches!(results[1], Ok(None)));
    assert!(matches!(results[2], Err(RetagError::Yaml(_))));
    assert!(matches!(results[3], Err(RetagError::OutsideTagRoot)));
    assert_eq!(
        results[4].as_ref().unwrap().as_deref(),
        Some("---\ntitle: T\n---\n{ #c }\n\nno tag yet")
    );
    assert!(matches!(results[5], Ok(None)));

    // the notes that did not fail, as the first run left them
    let second: Vec<Document> = first
        .iter()
        .zip(results.iter())
        .filter(|(_, r)| r.is_ok())
        .map(|(d, r)| match r {
            Ok(Some(text)) => note(&d.path, text),
            _ => note(&d.path, &d.content),
        })
        .collect();
    let (results, tally) = retag_recursive(&vault, &config, &second, "2026-01-03", true);
    assert!(results.iter().all(|r| matches!(r, Ok(None))));
    assert_eq!(tally, Tally { updated: 0, skipped: 4, errors: 0 });
}
