//! The configuration of a vault and the places of the files that go with it.

use crate::paths;
use crate::text;
use vstd::prelude::*;

verus! {

/// The configuration record.
#[derive(Clone, Debug)]
pub struct Config {
    /// The written path of the vault.
    pub vault: String,
    /// The format of dates.
    pub date: String,
    /// The format of times of day.
    pub time: String,
    pub default_nametype: Option<String>,
    /// The command of the editor to start.
    pub editor: Option<String>,
    /// `integrated`, or anything else for the editor of `editor`.
    pub editor_mode: Option<String>,
    /// Whether a time stamp is added to a note that is opened again.
    pub timeprint: Option<bool>,
    /// The directory of notes, below the vault.
    pub notes_dir: String,
    /// The directory of the diary, below the vault.
    pub diary_dir: String,
    /// The directory of templates, below the vault; it is left out of scans.
    pub templates_dir: String,
    /// The directory below the vault from which on the places of notes are
    /// tags.
    pub tag_root: String,
    /// Pairs of a work directory and the place below the tag root where its
    /// documentation lies.
    pub dir_mappings: Option<Vec<(String, String)>>,
    /// The written path of the configuration of the calendar tool.
    pub rcal_config: Option<String>,
}

/// `dir` with the file `name` in it.
pub fn file_in(dir: &Vec<String>, name: &str) -> (r: Vec<String>)
    ensures
        text::texts(r@) == text::texts(dir@).push(name@),
{
    let mut p = paths::copy(dir);
    let ghost before = text::texts(p@);
    p.push(name.to_owned());
    assert(text::texts(p@) == before.push(name@));
    p
}

/// The directory of notes when the configuration names none.
pub fn default_notes_dir() -> (r: String)
    ensures
        r@ == "Notas"@,
{
    "Notas".to_owned()
}

/// The directory of the diary when the configuration names none.
pub fn default_diary_dir() -> (r: String)
    ensures
        r@ == "Diario"@,
{
    "Diario".to_owned()
}

/// The directory of templates when the configuration names none.
pub fn default_templates_dir() -> (r: String)
    ensures
        r@ == "Templates"@,
{
    "Templates".to_owned()
}

/// The tag root when the configuration names none.
pub fn default_tag_root() -> (r: String)
    ensures
        r@ == "Notas"@,
{
    "Notas".to_owned()
}

/// The directory in which configuration directories lie: the one that is
/// configured for the user if there is one, else `.config` in the home
/// directory.
pub open spec fn config_base(xdg: Option<Seq<char>>, home: Option<Seq<char>>) -> Seq<Seq<char>> {
    match xdg {
        Some(x) => paths::components_of(x),
        None => paths::components_of(home.unwrap()).push(".config"@),
    }
}

impl Config {
    /// The directory of the files of this program: `magic-documents` in the
    /// directory of configuration directories. `xdg_config_home` is that
    /// directory as configured for the user, `home` the home directory.
    pub fn config_dir(xdg_config_home: Option<&str>, home: Option<&str>) -> (r: Vec<String>)
        requires
            xdg_config_home is Some || home is Some,
        ensures
            text::texts(r@) == config_base(
                match xdg_config_home {
                    Some(x) => Some(x@),
                    None => None,
                },
                match home {
                    Some(h) => Some(h@),
                    None => None,
                },
            ).push("magic-documents"@),
    {
        let base = match xdg_config_home {
            Some(x) => paths::components(x),
            None => match home {
                Some(h) => file_in(&paths::components(h), ".config"),
                None => Vec::new(),
            },
        };
        file_in(&base, "magic-documents")
    }

    /// The configuration file.
    pub fn config_path(config_dir: &Vec<String>) -> (r: Vec<String>)
        ensures
            text::texts(r@) == text::texts(config_dir@).push("config.toml"@),
    {
        file_in(config_dir, "config.toml")
    }

    /// The file of the cache of all tags.
    pub fn cache_path(config_dir: &Vec<String>) -> (r: Vec<String>)
        ensures
            text::texts(r@) == text::texts(config_dir@).push("tags_cache.json"@),
    {
        file_in(config_dir, "tags_cache.json")
    }

    /// The file of the cache of primary tags.
    pub fn primary_cache_path(config_dir: &Vec<String>) -> (r: Vec<String>)
        ensures
            text::texts(r@) == text::texts(config_dir@).push("primary_tags_cache.json"@),
    {
        file_in(config_dir, "primary_tags_cache.json")
    }

    /// The file that remembers the note that was opened last.
    pub fn last_note_path(config_dir: &Vec<String>) -> (r: Vec<String>)
        ensures
            text::texts(r@) == text::texts(config_dir@).push(".last_note"@),
    {
        file_in(config_dir, ".last_note")
    }

    /// The file of the command aliases.
    pub fn aliases_path(config_dir: &Vec<String>) -> (r: Vec<String>)
        ensures
            text::texts(r@) == text::texts(config_dir@).push("aliases.json"@),
    {
        file_in(config_dir, "aliases.json")
    }

    /// The vault as a path.
    pub fn vault_path(&self) -> (r: Vec<String>)
        ensures
            text::texts(r@) == paths::components_of(self.vault@),
    {
        paths::components(self.vault.as_str())
    }

    /// The tag root: the directory `tag_root` below `vault`.
    pub fn tag_root_path(&self, vault: &Vec<String>) -> (r: Vec<String>)
        ensures
            text::texts(r@) == self.tag_root_of(text::texts(vault@)),
    {
        paths::join(vault, &paths::components(self.tag_root.as_str()))
    }

    /// The directory of notes: the directory `notes_dir` below `vault`.
    pub fn notes_path(&self, vault: &Vec<String>) -> (r: Vec<String>)
        ensures
            text::texts(r@) == self.notes_root_of(text::texts(vault@)),
    {
        paths::join(vault, &paths::components(self.notes_dir.as_str()))
    }

    /// The directory of templates: the directory `templates_dir` below
    /// `vault`.
    pub fn templates_path(&self, vault: &Vec<String>) -> (r: Vec<String>)
        ensures
            text::texts(r@) == paths::joined(
                text::texts(vault@),
                paths::components_of(self.templates_dir@),
            ),
    {
        paths::join(vault, &paths::components(self.templates_dir.as_str()))
    }

    /// The tag root below `vault`.
    pub open spec fn tag_root_of(&self, vault: Seq<Seq<char>>) -> Seq<Seq<char>> {
        paths::joined(vault, paths::components_of(self.tag_root@))
    }

    /// The directory of notes below `vault`.
    pub open spec fn notes_root_of(&self, vault: Seq<Seq<char>>) -> Seq<Seq<char>> {
        paths::joined(vault, paths::components_of(self.notes_dir@))
    }
}

} // verus!
