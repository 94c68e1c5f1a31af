use mad::commands::obsidian::{find_matching_mapping, longest_match, note_place, MappingError};
use mad::commands::rename::{
    cascade, check_targets, plan, rename_from_productive, rename_from_vault, renamed, retag_dir, side_of,
    RenameError, Side,
};
use mad::notes::config::Config;
use mad::paths::components;

fn mapping_config(mappings: Option<Vec<(&str, &str)>>) -> Config {
    Config {
        vault: "/vault".to_string(),
        date: "%Y-%m-%d".to_string(),
        time: "%H:%M".to_string(),
        default_nametype: None,
        editor: None,
        editor_mode: None,
        timeprint: None,
        notes_dir: "Notas".to_string(),
        diary_dir: "Diario".to_string(),
        templates_dir: "Templates".to_string(),
        tag_root: "Notas".to_string(),
        dir_mappings: mappings.map(|m| {
            m.into_iter()
                .map(|(a, b)| (a.to_string(), b.to_string()))
                .collect()
        }),
        rcal_config: None,
    }
}

#[test]
fn the_longest_work_directory_wins() {
    let config = mapping_config(Some(vec![("/w", "a"), ("/w/sub", "b")]));
    let canonical = vec![Some(components("/w")), Some(components("/w/sub"))];
    let (work, doc) = find_matching_mapping(&components("/w/sub/x"), &config, &canonical).unwrap();
    assert_eq!(work, components("/w/sub"));
    assert_eq!(doc, "b");
    // whatever the order of the mappings
    let config = mapping_config(Some(vec![("/w/sub", "b"), ("/w", "a")]));
    let canonical = vec![Some(components("/w/sub")), Some(components("/w"))];
    let (work, doc) = find_matching_mapping(&components("/w/sub/x"), &config, &canonical).unwrap();
    assert_eq!(work, components("/w/sub"));
    assert_eq!(doc, "b");
    let (work, doc) = find_matching_mapping(&components("/w/other"), &config, &canonical).unwrap();
    assert_eq!(work, components("/w"));
    assert_eq!(doc, "a");
}

#[test]
fn whole_components_are_matched() {
    let config = mapping_config(Some(vec![("/w/sub", "b")]));
    let canonical = vec![Some(components("/w/sub"))];
    let r = find_matching_mapping(&components("/w/subway"), &config, &canonical);
    assert_eq!(r.unwrap_err(), MappingError::NoMatch);
}

#[test]
fn mappings_whose_work_directory_is_missing_are_passed_over() {
    let config = mapping_config(Some(vec![("/gone", "a"), ("/w", "b")]));
    let canonical = vec![None, Some(components("/w"))];
    let (work, doc) = find_matching_mapping(&components("/w/x"), &config, &canonical).unwrap();
    assert_eq!(work, components("/w"));
    assert_eq!(doc, "b");
    let r = find_matching_mapping(&components("/gone/x"), &config, &canonical);
    assert_eq!(r.unwrap_err(), MappingError::NoMatch);
    // a list that is too short counts as missing
    let r = find_matching_mapping(&components("/w/x"), &config, &vec![None]);
    assert_eq!(r.unwrap_err(), MappingError::NoMatch);
}

#[test]
fn without_mappings_nothing_is_found() {
    let r = find_matching_mapping(&components("/w"), &mapping_config(None), &vec![]);
    assert_eq!(r.unwrap_err(), MappingError::NoMappings);
    let r = find_matching_mapping(&components("/w"), &mapping_config(Some(vec![])), &vec![]);
    assert_eq!(r.unwrap_err(), MappingError::NoMappings);
}

#[test]
fn of_equal_prefixes_the_first_wins() {
    let prefixes = vec![
        Some(components("/a")),
        Some(components("/a/b")),
        None,
        Some(components("/a/b")),
        Some(vec![]),
    ];
    assert_eq!(longest_match(&components("/a/b/c"), &prefixes), Some(1));
    assert_eq!(longest_match(&components("/a"), &prefixes), Some(0));
    assert_eq!(longest_match(&components("/z"), &prefixes), None);
}

#[test]
fn a_work_directory_is_mirrored_below_the_tag_root() {
    let place = note_place(
        &components("/vault"),
        &mapping_config(None),
        "dev/tools",
        &components("proyecto/src"),
    )
    .unwrap();
    assert_eq!(place.tag, "dev/tools/proyecto/src");
    assert_eq!(place.dir, components("/vault/Notas/dev/tools/proyecto/src"));
    let place = note_place(&components("/vault"), &mapping_config(None), "", &components("p")).unwrap();
    assert_eq!(place.tag, "p");
    assert_eq!(place.dir, components("/vault/Notas/p"));
    let r = note_place(&components("/vault"), &mapping_config(None), "/", &vec![]);
    assert_eq!(r.unwrap_err(), MappingError::MappingRoot);
}

#[test]
fn test_rename_from_productive() {
    let config = mapping_config(Some(vec![("/tmp/work", "dev")]));
    let canonical = vec![Some(components("/tmp/work"))];
    let project_dir = components("/tmp/work/proyecto");
    let tag_root = components("/tmp/vault/Notas");
    let vault_project = rename_from_productive(&config, &canonical, &project_dir, &tag_root).unwrap();
    assert_eq!(vault_project, components("/tmp/vault/Notas/dev/proyecto"));

    let p = plan(&vault_project, true, &project_dir, "new-name").unwrap();
    assert_eq!(p.counterpart.from, components("/tmp/vault/Notas/dev/proyecto"));
    assert_eq!(p.counterpart.to, components("/tmp/vault/Notas/dev/new-name"));
    assert_eq!(p.current.from, components("/tmp/work/proyecto"));
    assert_eq!(p.current.to, components("/tmp/work/new-name"));
    assert_eq!(retag_dir(&p, &Side::Work), components("/tmp/vault/Notas/dev/new-name"));
}

#[test]
fn test_rename_from_vault() {
    let config = mapping_config(Some(vec![("/tmp/work", "dev")]));
    let vault_project = components("/tmp/vault/Notas/dev/proyecto");
    let tag_root = components("/tmp/vault/Notas");
    let project_dir = rename_from_vault(&config, &vault_project, &tag_root).unwrap();
    assert_eq!(project_dir, components("/tmp/work/proyecto"));

    let p = plan(&project_dir, true, &vault_project, "new-name").unwrap();
    assert_eq!(p.counterpart.to, components("/tmp/work/new-name"));
    assert_eq!(p.current.to, components("/tmp/vault/Notas/dev/new-name"));
    assert_eq!(retag_dir(&p, &Side::Vault), components("/tmp/vault/Notas/dev/new-name"));
}

#[test]
fn the_longest_documentation_path_wins() {
    let config = mapping_config(Some(vec![("/w/a", "dev"), ("/w/b", "dev/tools"), ("/w/c", "")]));
    let tag_root = components("/vault/Notas");
    let dir = rename_from_vault(&config, &components("/vault/Notas/dev/tools/x"), &tag_root).unwrap();
    assert_eq!(dir, components("/w/b/x"));
    let dir = rename_from_vault(&config, &components("/vault/Notas/dev/other"), &tag_root).unwrap();
    assert_eq!(dir, components("/w/a/other"));
    // an empty documentation path matches nothing
    let r = rename_from_vault(&config, &components("/vault/Notas/else"), &tag_root);
    assert_eq!(r.unwrap_err(), RenameError::NoMatch);
}

#[test]
fn rename_fails_where_nothing_can_be_mirrored() {
    let tag_root = components("/vault/Notas");
    let config = mapping_config(Some(vec![("/w", "dev")]));
    let r = rename_from_vault(&config, &components("/vault/Diario/x"), &tag_root);
    assert_eq!(r.unwrap_err(), RenameError::OutsideTagRoot);
    let r = rename_from_vault(&mapping_config(None), &components("/vault/Notas/x"), &tag_root);
    assert_eq!(r.unwrap_err(), RenameError::NoMappings);
    let r = rename_from_productive(&mapping_config(None), &vec![], &components("/w/x"), &tag_root);
    assert_eq!(r.unwrap_err(), RenameError::NoMappings);
    let r = rename_from_productive(&config, &vec![Some(components("/w"))], &components("/other"), &tag_root);
    assert_eq!(r.unwrap_err(), RenameError::NoMatch);
}

#[test]
fn a_rename_needs_the_counterpart_and_free_names() {
    let r = plan(&components("/v/a"), false, &components("/w/a"), "b");
    assert_eq!(r.unwrap_err(), RenameError::CounterpartMissing);
    let r = plan(&components("/"), true, &components("/w/a"), "b");
    assert_eq!(r.unwrap_err(), RenameError::NoParent);
    let r = plan(&components("/v/a"), true, &vec![], "b");
    assert_eq!(r.unwrap_err(), RenameError::NoParent);
    assert_eq!(check_targets(true, true).unwrap_err(), RenameError::CounterpartTargetExists);
    assert_eq!(check_targets(false, true).unwrap_err(), RenameError::TargetExists);
    assert!(check_targets(false, false).is_ok());
}

#[test]
fn the_side_is_the_vault_if_the_directory_lies_in_it() {
    assert_eq!(side_of(&components("/vault/Notas/x"), &components("/vault")), Side::Vault);
    assert_eq!(side_of(&components("/vault"), &components("/vault")), Side::Vault);
    assert_eq!(side_of(&components("/vaultx"), &components("/vault")), Side::Work);
    assert_eq!(renamed(&components("/a/b"), "c"), Some(components("/a/c")));
    assert_eq!(renamed(&components("a"), "c"), Some(components("c")));
}

#[test]
fn a_dual_rename_is_followed_by_a_retag_unless_told_otherwise() {
    let p = plan(&components("/v/Notas/dev/old"), true, &components("/w/old"), "new").unwrap();
    let run = cascade(&p, &Side::Work, false).unwrap();
    assert_eq!(run.dir, components("/v/Notas/dev/new"));
    assert!(run.no_backup);
    assert!(!run.no_alias);
    assert!(cascade(&p, &Side::Work, true).is_none());

    let p = plan(&components("/w/old"), true, &components("/v/Notas/dev/old"), "new").unwrap();
    let run = cascade(&p, &Side::Vault, false).unwrap();
    assert_eq!(run.dir, components("/v/Notas/dev/new"));
    assert!(cascade(&p, &Side::Vault, true).is_none());
}
