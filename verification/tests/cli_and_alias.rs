use mad::utils::alias::{is_reserved_word, split_command_line, AliasError};
use mad::commands::retag::{target_of, Target};
use mad::notes::config::Config;
use mad::paths::components;
use mad::utils::cli::{
    editor_mode, resolve_editor, tman_action, Args, CliError, EditorMode, TmanAction,
    ValidatedArgs,
};

fn no_args() -> Args {
    Args {
        daily: false,
        last_flag: false,
        last_num: None,
        editor_flag: false,
        editor_cmd: None,
        no_id: false,
        name: None,
        last_note: false,
        tman: None,
        tman_long: None,
        retag: None,
        redir: None,
        no_bak: false,
        obsidian: None,
        quick: None,
        migrate: false,
        title: None,
        target_dir: None,
    }
}

#[test]
fn reserved_words_are_reserved() {
    for w in ["dialy", "last", "tag", "retag", "redir", "cache", "tasks", "alias"] {
        assert!(is_reserved_word(w));
    }
    for w in ["daily", "", "Last", "tags", "rename", " alias"] {
        assert!(!is_reserved_word(w));
    }
}

#[test]
fn command_lines_split_at_whitespace() {
    assert_eq!(split_command_line("a b  c").unwrap(), vec!["a", "b", "c"]);
    assert_eq!(split_command_line("  lead and trail \t\n").unwrap(), vec!["lead", "and", "trail"]);
    assert!(split_command_line("").unwrap().is_empty());
    assert!(split_command_line("   ").unwrap().is_empty());
}

#[test]
fn quotes_keep_whitespace_in_an_argument() {
    assert_eq!(
        split_command_line("-n 'my note' \"other one\"").unwrap(),
        vec!["-n", "my note", "other one"]
    );
    assert_eq!(split_command_line("a'b c'd").unwrap(), vec!["ab cd"]);
    assert_eq!(split_command_line("'\"' \"'\"").unwrap(), vec!["\"", "'"]);
    // an empty quoted stretch gives no argument
    assert!(split_command_line("''").unwrap().is_empty());
}

#[test]
fn a_backslash_takes_the_next_character_as_it_is() {
    assert_eq!(split_command_line("a\\ b").unwrap(), vec!["a b"]);
    assert_eq!(split_command_line("\\'x").unwrap(), vec!["'x"]);
    assert_eq!(split_command_line("\"a\\\"b\"").unwrap(), vec!["a\"b"]);
    assert_eq!(split_command_line("'a\\b'").unwrap(), vec!["a\\b"]);
    assert_eq!(split_command_line("end\\").unwrap(), vec!["end"]);
}

#[test]
fn an_open_quote_is_an_error() {
    assert_eq!(split_command_line("'open").unwrap_err(), AliasError::UnclosedQuote);
    assert_eq!(split_command_line("a \"b").unwrap_err(), AliasError::UnclosedQuote);
    assert_eq!(split_command_line("\"a\\\"").unwrap_err(), AliasError::UnclosedQuote);
    assert_eq!(split_command_line("'a\\'").unwrap(), vec!["a\\"]);
}

#[test]
fn migrate_comes_first() {
    let args = Args { migrate: true, retag: Some(".".to_string()), editor_flag: true, editor_cmd: Some("vi".to_string()), ..no_args() };
    assert!(matches!(args.validate(), Ok(ValidatedArgs::Migrate)));
}

#[test]
fn a_note_for_the_work_directory() {
    let args = Args { obsidian: Some("T".to_string()), no_id: true, ..no_args() };
    assert!(matches!(
        args.validate(),
        Ok(ValidatedArgs::Obsidian { title, editor: EditorMode::Default, skip_timestamp: true }) if title == "T"
    ));
    let args = Args { quick: Some("Q".to_string()), editor_cmd: Some("nano".to_string()), ..no_args() };
    assert!(matches!(
        args.validate(),
        Ok(ValidatedArgs::Obsidian { title, editor: EditorMode::Custom(e), skip_timestamp: false }) if title == "Q" && e == "nano"
    ));
    let args = Args { obsidian: Some("O".to_string()), quick: Some("Q".to_string()), ..no_args() };
    assert!(matches!(args.validate(), Ok(ValidatedArgs::Obsidian { title, .. }) if title == "O"));
    let args = Args { obsidian: Some("T".to_string()), editor_flag: true, editor_cmd: Some("vi".to_string()), ..no_args() };
    assert!(matches!(args.validate(), Err(CliError::EditorConflict)));
}

#[test]
fn retag_and_redir_take_their_target() {
    let args = Args { retag: Some("file.md".to_string()), no_bak: true, ..no_args() };
    assert!(matches!(
        args.validate(),
        Ok(ValidatedArgs::Retag { target, no_backup: true }) if target == "file.md"
    ));
    let args = Args { redir: Some(".".to_string()), ..no_args() };
    assert!(matches!(
        args.validate(),
        Ok(ValidatedArgs::Redir { target, no_backup: false }) if target == "."
    ));
    let args = Args { retag: Some("a".to_string()), redir: Some("b".to_string()), ..no_args() };
    assert!(matches!(args.validate(), Ok(ValidatedArgs::Retag { .. })));
}

#[test]
fn the_tag_manager_stands_alone() {
    let args = Args { tman: Some("l".to_string()), ..no_args() };
    assert!(matches!(args.validate(), Ok(ValidatedArgs::Tman(TmanAction::List))));
    let args = Args { tman_long: Some("rename".to_string()), ..no_args() };
    assert!(matches!(args.validate(), Ok(ValidatedArgs::Tman(TmanAction::Rename))));
    let args = Args { tman: Some("interactive".to_string()), ..no_args() };
    assert!(matches!(args.validate(), Ok(ValidatedArgs::Tman(TmanAction::Interactive))));
    let args = Args { tman: Some("l".to_string()), daily: true, ..no_args() };
    assert!(matches!(args.validate(), Err(CliError::TmanCombined)));
    let args = Args { tman: Some("l".to_string()), title: Some("t".to_string()), ..no_args() };
    assert!(matches!(args.validate(), Err(CliError::TmanCombined)));
    let args = Args { tman: Some("nope".to_string()), ..no_args() };
    assert!(matches!(args.validate(), Err(CliError::UnknownTmanAction(w)) if w == "nope"));
    // the last note is no reason to refuse
    let args = Args { tman: Some("f".to_string()), last_note: true, ..no_args() };
    assert!(matches!(args.validate(), Ok(ValidatedArgs::Tman(TmanAction::Find))));
}

#[test]
fn every_action_of_the_tag_manager_has_its_words() {
    let cases = [
        ("l", "List"), ("list", "List"), ("ls", "List"),
        ("a", "ListAll"), ("list-all", "ListAll"), ("la", "ListAll"),
        ("r", "Rename"), ("rename", "Rename"), ("rn", "Rename"),
        ("f", "Find"), ("find", "Find"), ("search", "Find"),
        ("v", "Visual"), ("visual", "Visual"), ("telescope", "Visual"),
        ("interactive", "Interactive"), ("", "Interactive"),
    ];
    for (word, name) in cases {
        let action = tman_action(&word.to_string()).unwrap();
        assert_eq!(format!("{:?}", action), name);
    }
    assert!(tman_action(&"L".to_string()).is_none());
    assert!(tman_action(&"lists".to_string()).is_none());
}

#[test]
fn only_one_mode_may_be_asked_for() {
    let args = Args { daily: true, last_flag: true, ..no_args() };
    assert!(matches!(args.validate(), Err(CliError::ModeConflict)));
    let args = Args { name: Some("n".to_string()), last_note: true, ..no_args() };
    assert!(matches!(args.validate(), Err(CliError::ModeConflict)));
    // both ways of asking for the last notes are one mode, as are both titles
    let args = Args { last_flag: true, last_num: Some(3), ..no_args() };
    assert!(matches!(args.validate(), Ok(ValidatedArgs::Last { count: 3, .. })));
    let args = Args { name: Some("n".to_string()), title: Some("t".to_string()), ..no_args() };
    assert!(matches!(args.validate(), Ok(ValidatedArgs::Create { title: Some(t), .. }) if t == "n"));
}

#[test]
fn the_modes_of_a_single_note() {
    let args = Args { daily: true, editor_flag: true, ..no_args() };
    assert!(matches!(
        args.validate(),
        Ok(ValidatedArgs::Daily { editor: EditorMode::UseConfig, skip_timestamp: false })
    ));
    let args = Args { last_flag: true, ..no_args() };
    assert!(matches!(args.validate(), Ok(ValidatedArgs::Last { count: 5, .. })));
    let args = Args { last_num: Some(0), ..no_args() };
    assert!(matches!(args.validate(), Ok(ValidatedArgs::Last { count: 0, .. })));
    let args = Args { last_note: true, no_id: true, ..no_args() };
    assert!(matches!(args.validate(), Ok(ValidatedArgs::LastNote { skip_timestamp: true, .. })));
    let args = Args { title: Some("t".to_string()), target_dir: Some(".".to_string()), ..no_args() };
    assert!(matches!(
        args.validate(),
        Ok(ValidatedArgs::Create { title: Some(t), target_dir: Some(d), editor: EditorMode::Default, skip_timestamp: false })
            if t == "t" && d == "."
    ));
    assert!(matches!(
        no_args().validate(),
        Ok(ValidatedArgs::Create { title: None, target_dir: None, .. })
    ));
    let args = Args { daily: true, editor_flag: true, editor_cmd: Some("x".to_string()), ..no_args() };
    assert!(matches!(args.validate(), Err(CliError::EditorConflict)));
}

#[test]
fn the_editor_is_settled_by_flag_and_command() {
    assert!(matches!(editor_mode(false, None), Ok(EditorMode::Default)));
    assert!(matches!(editor_mode(true, None), Ok(EditorMode::UseConfig)));
    assert!(matches!(editor_mode(false, Some("e".to_string())), Ok(EditorMode::Custom(e)) if e == "e"));
    assert!(matches!(editor_mode(true, Some("e".to_string())), Err(CliError::EditorConflict)));
}

#[test]
fn an_editor_mode_stands_for_a_command() {
    let mut config = Config {
        vault: "/vault".to_string(),
        date: "%Y-%m-%d".to_string(),
        time: "%H:%M".to_string(),
        default_nametype: None,
        editor: Some("nano".to_string()),
        editor_mode: None,
        timeprint: None,
        notes_dir: "Notas".to_string(),
        diary_dir: "Diario".to_string(),
        templates_dir: "Templates".to_string(),
        tag_root: "Notas".to_string(),
        dir_mappings: None,
        rcal_config: None,
    };
    assert_eq!(resolve_editor(&config, EditorMode::Default), None);
    assert_eq!(resolve_editor(&config, EditorMode::UseConfig).as_deref(), Some("nano"));
    assert_eq!(
        resolve_editor(&config, EditorMode::Custom("code".to_string())).as_deref(),
        Some("code")
    );
    config.editor = None;
    assert_eq!(resolve_editor(&config, EditorMode::UseConfig).as_deref(), Some("vi"));
}

#[test]
fn a_target_is_the_directory_one_is_in_or_a_file() {
    let cwd = components("/home/u/notes");
    assert!(matches!(target_of(".", &cwd), Target::Below(d) if d == cwd));
    assert!(matches!(
        target_of("sub/file.md", &cwd),
        Target::File(p) if p == components("/home/u/notes/sub/file.md")
    ));
    assert!(matches!(
        target_of("/abs/file.md", &cwd),
        Target::File(p) if p == components("/abs/file.md")
    ));
    assert!(matches!(
        target_of("./", &cwd),
        Target::File(p) if p == cwd
    ));
}
