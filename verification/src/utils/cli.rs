//! The arguments of the command line, and what they ask for.

use crate::notes::config::Config;
use vstd::prelude::*;

verus! {

/// The arguments as they were given.
#[derive(Debug)]
pub struct Args {
    /// Open or make the daily note.
    pub daily: bool,
    /// Show the five notes that were edited last.
    pub last_flag: bool,
    /// Show this many notes that were edited last.
    pub last_num: Option<usize>,
    /// Use the editor of the configuration.
    pub editor_flag: bool,
    /// Use this editor.
    pub editor_cmd: Option<String>,
    /// Add no time stamp when a note is opened again.
    pub no_id: bool,
    /// The title of the note, given by name.
    pub name: Option<String>,
    /// Open the note that was edited last.
    pub last_note: bool,
    /// The action of the tag manager, short form.
    pub tman: Option<String>,
    /// The action of the tag manager, long form.
    pub tman_long: Option<String>,
    /// Retag this file or directory.
    pub retag: Option<String>,
    /// Move this file, or the files of this directory, to where their tags
    /// say.
    pub redir: Option<String>,
    /// Keep no backups.
    pub no_bak: bool,
    /// Make or open a note for the work directory one is in.
    pub obsidian: Option<String>,
    /// The same, under another name.
    pub quick: Option<String>,
    /// Turn tags that are spread over list elements into single tags.
    pub migrate: bool,
    /// The title of the note, given by position.
    pub title: Option<String>,
    /// The directory of the note, given by position.
    pub target_dir: Option<String>,
}

/// What the tag manager is asked to do.
#[derive(Debug)]
pub enum TmanAction {
    List,
    ListAll,
    Rename,
    Find,
    Interactive,
    Visual,
}

/// Which editor is to be used.
#[derive(Debug)]
pub enum EditorMode {
    /// The one that the configuration settles on.
    Default,
    /// The editor command of the configuration.
    UseConfig,
    /// This command.
    Custom(String),
}

/// What the arguments ask for.
#[derive(Debug)]
#[allow(inconsistent_fields)]
pub enum ValidatedArgs {
    Create { title: Option<String>, target_dir: Option<String>, editor: EditorMode, skip_timestamp: bool },
    Daily { editor: EditorMode, skip_timestamp: bool },
    Last { count: usize, editor: EditorMode, skip_timestamp: bool },
    LastNote { editor: EditorMode, skip_timestamp: bool },
    Tman(TmanAction),
    Retag { target: String, no_backup: bool },
    Redir { target: String, no_backup: bool },
    Obsidian { title: String, editor: EditorMode, skip_timestamp: bool },
    Migrate,
}

/// Why the arguments cannot be followed.
#[derive(Debug)]
pub enum CliError {
    /// Both the editor of the configuration and an editor command are asked
    /// for.
    EditorConflict,
    /// The tag manager is asked for together with another mode or an editor.
    TmanCombined,
    /// The tag manager knows no action of this name.
    UnknownTmanAction(String),
    /// More than one of the daily note, the last notes, the last note and a
    /// title are asked for.
    ModeConflict,
}

/// The first of the two that is there.
pub open spec fn or(a: Option<String>, b: Option<String>) -> Option<String> {
    match a {
        Some(_) => a,
        None => b,
    }
}

/// The editor that the arguments ask for.
pub open spec fn editor_of(args: Args) -> Result<EditorMode, CliError> {
    if args.editor_flag && args.editor_cmd is Some {
        Err(CliError::EditorConflict)
    } else if args.editor_flag {
        Ok(EditorMode::UseConfig)
    } else {
        match args.editor_cmd {
            Some(cmd) => Ok(EditorMode::Custom(cmd)),
            None => Ok(EditorMode::Default),
        }
    }
}

/// The action of the tag manager that a word names.
pub open spec fn tman_action_of(word: Seq<char>) -> Option<TmanAction> {
    if word == "l"@ || word == "list"@ || word == "ls"@ {
        Some(TmanAction::List)
    } else if word == "a"@ || word == "list-all"@ || word == "la"@ {
        Some(TmanAction::ListAll)
    } else if word == "r"@ || word == "rename"@ || word == "rn"@ {
        Some(TmanAction::Rename)
    } else if word == "f"@ || word == "find"@ || word == "search"@ {
        Some(TmanAction::Find)
    } else if word == "v"@ || word == "visual"@ || word == "telescope"@ {
        Some(TmanAction::Visual)
    } else if word == "interactive"@ || word == ""@ {
        Some(TmanAction::Interactive)
    } else {
        None
    }
}

/// How many of the flags are set.
pub open spec fn count_set(a: bool, b: bool, c: bool, d: bool) -> int {
    (if a { 1int } else { 0 }) + (if b { 1int } else { 0 }) + (if c { 1int } else { 0 }) + (if d {
        1int
    } else {
        0
    })
}

/// What the arguments ask for. The modes are tried in this order: migrate;
/// a note for the work directory; retag; redir; the tag manager, which
/// stands no other mode and no editor beside it; then the daily note, the
/// last notes, the last note, or a note of its own, of which only one may be
/// asked for.
pub open spec fn validated(args: Args) -> Result<ValidatedArgs, CliError> {
    if args.migrate {
        Ok(ValidatedArgs::Migrate)
    } else if or(args.obsidian, args.quick) is Some {
        match editor_of(args) {
            Ok(editor) => Ok(
                ValidatedArgs::Obsidian {
                    title: or(args.obsidian, args.quick)->0,
                    editor,
                    skip_timestamp: args.no_id,
                },
            ),
            Err(e) => Err(e),
        }
    } else if args.retag is Some {
        Ok(ValidatedArgs::Retag { target: args.retag->0, no_backup: args.no_bak })
    } else if args.redir is Some {
        Ok(ValidatedArgs::Redir { target: args.redir->0, no_backup: args.no_bak })
    } else if or(args.tman, args.tman_long) is Some {
        if args.daily || args.last_flag || args.last_num is Some || args.editor_flag
            || args.editor_cmd is Some || args.name is Some || args.title is Some {
            Err(CliError::TmanCombined)
        } else {
            match tman_action_of(or(args.tman, args.tman_long)->0@) {
                Some(action) => Ok(ValidatedArgs::Tman(action)),
                None => Err(CliError::UnknownTmanAction(or(args.tman, args.tman_long)->0)),
            }
        }
    } else if count_set(
        args.daily,
        args.last_flag || args.last_num is Some,
        args.name is Some || args.title is Some,
        args.last_note,
    ) > 1 {
        Err(CliError::ModeConflict)
    } else {
        match editor_of(args) {
            Err(e) => Err(e),
            Ok(editor) => if args.daily {
                Ok(ValidatedArgs::Daily { editor, skip_timestamp: args.no_id })
            } else if args.last_num is Some {
                Ok(
                    ValidatedArgs::Last {
                        count: args.last_num->0,
                        editor,
                        skip_timestamp: args.no_id,
                    },
                )
            } else if args.last_flag {
                Ok(ValidatedArgs::Last { count: 5, editor, skip_timestamp: args.no_id })
            } else if args.last_note {
                Ok(ValidatedArgs::LastNote { editor, skip_timestamp: args.no_id })
            } else {
                Ok(
                    ValidatedArgs::Create {
                        title: or(args.name, args.title),
                        target_dir: args.target_dir,
                        editor,
                        skip_timestamp: args.no_id,
                    },
                )
            },
        }
    }
}

/// True if the text of `s` is `t`.
fn is(s: &String, t: &str) -> (r: bool)
    ensures
        r == (s@ == t@),
{
    let owned = t.to_owned();
    *s == owned
}

/// The action of the tag manager that a word names.
pub fn tman_action(word: &String) -> (r: Option<TmanAction>)
    ensures
        r == tman_action_of(word@),
{
    if is(word, "l") || is(word, "list") || is(word, "ls") {
        Some(TmanAction::List)
    } else if is(word, "a") || is(word, "list-all") || is(word, "la") {
        Some(TmanAction::ListAll)
    } else if is(word, "r") || is(word, "rename") || is(word, "rn") {
        Some(TmanAction::Rename)
    } else if is(word, "f") || is(word, "find") || is(word, "search") {
        Some(TmanAction::Find)
    } else if is(word, "v") || is(word, "visual") || is(word, "telescope") {
        Some(TmanAction::Visual)
    } else if is(word, "interactive") || is(word, "") {
        Some(TmanAction::Interactive)
    } else {
        None
    }
}

/// The editor that the flag and the command ask for.
pub fn editor_mode(editor_flag: bool, editor_cmd: Option<String>) -> (r: Result<
    EditorMode,
    CliError,
>)
    ensures
        editor_flag && editor_cmd is Some ==> r == Err::<EditorMode, CliError>(
            CliError::EditorConflict,
        ),
        editor_flag && editor_cmd is None ==> r == Ok::<EditorMode, CliError>(
            EditorMode::UseConfig,
        ),
        !editor_flag ==> r == (match editor_cmd {
            Some(cmd) => Ok::<EditorMode, CliError>(EditorMode::Custom(cmd)),
            None => Ok(EditorMode::Default),
        }),
{
    if editor_flag && editor_cmd.is_some() {
        Err(CliError::EditorConflict)
    } else if editor_flag {
        Ok(EditorMode::UseConfig)
    } else {
        match editor_cmd {
            Some(cmd) => Ok(EditorMode::Custom(cmd)),
            None => Ok(EditorMode::Default),
        }
    }
}

/// The editor command that an editor mode stands for: none for the default,
/// the editor of the configuration, or `vi` if it names none, where the
/// configured editor is asked for, and the command itself where one is
/// given.
pub fn resolve_editor(config: &Config, mode: EditorMode) -> (r: Option<String>)
    ensures
        match mode {
            EditorMode::Default => r is None,
            EditorMode::UseConfig => match config.editor {
                Some(e) => r matches Some(c) && c@ == e@,
                None => r matches Some(c) && c@ == "vi"@,
            },
            EditorMode::Custom(cmd) => r == Some(cmd),
        },
{
    match mode {
        EditorMode::Default => None,
        EditorMode::UseConfig => match &config.editor {
            Some(e) => Some(e.clone()),
            None => Some("vi".to_owned()),
        },
        EditorMode::Custom(cmd) => Some(cmd),
    }
}

impl Args {
    /// Works out what the arguments ask for, or why they cannot be followed.
    pub fn validate(self) -> (r: Result<ValidatedArgs, CliError>)
        ensures
            r == validated(self),
    {
        if self.migrate {
            return Ok(ValidatedArgs::Migrate);
        }
        let Args {
            daily,
            last_flag,
            last_num,
            editor_flag,
            editor_cmd,
            no_id,
            name,
            last_note,
            tman,
            tman_long,
            retag,
            redir,
            no_bak,
            obsidian,
            quick,
            migrate,
            title,
            target_dir,
        } = self;
        let for_work_dir = match obsidian {
            Some(t) => Some(t),
            None => quick,
        };
        match for_work_dir {
            Some(note_title) => {
                return match editor_mode(editor_flag, editor_cmd) {
                    Ok(editor) => Ok(
                        ValidatedArgs::Obsidian { title: note_title, editor, skip_timestamp: no_id },
                    ),
                    Err(e) => Err(e),
                };
            },
            None => {},
        }
        match retag {
            Some(target) => {
                return Ok(ValidatedArgs::Retag { target, no_backup: no_bak });
            },
            None => {},
        }
        match redir {
            Some(target) => {
                return Ok(ValidatedArgs::Redir { target, no_backup: no_bak });
            },
            None => {},
        }
        let tman_value = match tman {
            Some(t) => Some(t),
            None => tman_long,
        };
        match tman_value {
            Some(word) => {
                if daily || last_flag || last_num.is_some() || editor_flag || editor_cmd.is_some()
                    || name.is_some() || title.is_some() {
                    return Err(CliError::TmanCombined);
                }
                return match tman_action(&word) {
                    Some(action) => Ok(ValidatedArgs::Tman(action)),
                    None => Err(CliError::UnknownTmanAction(word)),
                };
            },
            None => {},
        }
        let has_last = last_flag || last_num.is_some();
        let has_title = name.is_some() || title.is_some();
        let mut mode_count: u8 = 0;
        if daily {
            mode_count += 1;
        }
        if has_last {
            mode_count += 1;
        }
        if has_title {
            mode_count += 1;
        }
        if last_note {
            mode_count += 1;
        }
        assert(mode_count == count_set(daily, has_last, has_title, last_note));
        if mode_count > 1 {
            return Err(CliError::ModeConflict);
        }
        let editor = match editor_mode(editor_flag, editor_cmd) {
            Ok(e) => e,
            Err(e) => {
                return Err(e);
            },
        };
        if daily {
            Ok(ValidatedArgs::Daily { editor, skip_timestamp: no_id })
        } else if let Some(count) = last_num {
            Ok(ValidatedArgs::Last { count, editor, skip_timestamp: no_id })
        } else if last_flag {
            Ok(ValidatedArgs::Last { count: 5, editor, skip_timestamp: no_id })
        } else if last_note {
            Ok(ValidatedArgs::LastNote { editor, skip_timestamp: no_id })
        } else {
            let note_title = match name {
                Some(n) => Some(n),
                None => title,
            };
            Ok(
                ValidatedArgs::Create {
                    title: note_title,
                    target_dir,
                    editor,
                    skip_timestamp: no_id,
                },
            )
        }
    }
}

} // verus!
