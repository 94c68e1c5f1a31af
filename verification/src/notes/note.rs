//! New notes: where a note goes, what it is called and what it holds.

use crate::notes::config::{file_in, Config};
use crate::notes::frontmatter::{
    render, render_entries, render_text, var_views, with_entry, EntryView, Field, FieldView,
    Frontmatter, Scalar, ScalarView,
};
use crate::notes::template::render_body;
use crate::paths;
use crate::tags::parser::slash;
use crate::text;
use vstd::prelude::*;

verus! {

/// What is known of a note that is to be made.
#[derive(Debug)]
pub struct NoteBuilder {
    pub vault: Vec<String>,
    pub config: Config,
    pub title: Option<String>,
    pub target_dir: Option<Vec<String>>,
    pub use_hierarchical_tags: bool,
    pub editor_override: Option<String>,
}

/// The slug that `slug::slugify` makes of a title.
pub uninterp spec fn slug_of(title: Seq<char>) -> Seq<char>;

/// Makes the slug of a title with `slug::slugify`. What the slug is depends
/// on the title alone; nothing more is claimed of it.
#[verifier::external_body]
pub(crate) fn slugify(title: &str) -> (r: String)
    ensures
        r@ == slug_of(title@),
{
    slug::slugify(title)
}

/// The title without the ending of a file of notes, if it has one.
pub open spec fn without_ending(title: Seq<char>) -> Option<Seq<char>> {
    if text::ends_with(title, ".md"@) {
        Some(title.take(title.len() - 3))
    } else if text::ends_with(title, ".txt"@) {
        Some(title.take(title.len() - 4))
    } else if text::ends_with(title, ".canvas"@) {
        Some(title.take(title.len() - 7))
    } else if text::ends_with(title, ".excalidraw"@) {
        Some(title.take(title.len() - 11))
    } else {
        None
    }
}

/// The name of the file of a note, without `.md`: a title that ends like a
/// file of notes gives its name without the ending; any other title gives
/// its slug; no title gives the date and the time.
pub open spec fn stem_of(title: Option<Seq<char>>, date: Seq<char>, time: Seq<char>) -> Seq<
    char,
> {
    match title {
        Some(t) => match without_ending(t) {
            Some(name) => name,
            None => slug_of(t),
        },
        None => date + seq![' '] + time,
    }
}

/// The variables of the template of a note, in the order of their names.
pub open spec fn variables_of(stem: Seq<char>, date: Seq<char>, time: Seq<char>) -> Seq<
    (Seq<char>, Seq<char>),
> {
    seq![("date"@, date), ("time"@, time), ("title"@, stem)]
}

/// The tag that a directory gives: its place below the directory of notes
/// or, failing that, below the vault, with `/` between the components; the
/// directory as it is if it lies in neither.
pub open spec fn dir_tag(
    notes_root: Seq<Seq<char>>,
    vault: Seq<Seq<char>>,
    dir: Seq<Seq<char>>,
) -> Seq<char> {
    let rel = match paths::stripped(dir, notes_root) {
        Some(r) => r,
        None => match paths::stripped(dir, vault) {
            Some(r) => r,
            None => dir,
        },
    };
    text::join(rel, slash())
}

/// The front matter of a new note: that of the template, rendered, with the
/// tag and the aliases that were picked, each left out if empty.
pub open spec fn new_front_matter(
    template: Seq<EntryView>,
    vars: Seq<(Seq<char>, Seq<char>)>,
    tag: Seq<char>,
    aliases: Seq<Seq<char>>,
) -> Seq<EntryView> {
    let rendered = render_entries(template, vars);
    let tagged = if tag.len() > 0 {
        with_entry(rendered, "tags"@, FieldView::List(seq![ScalarView::Text(tag)]))
    } else {
        rendered
    };
    if aliases.len() > 0 {
        with_entry(
            tagged,
            "aliases"@,
            FieldView::List(aliases.map_values(|a: Seq<char>| ScalarView::Text(a))),
        )
    } else {
        tagged
    }
}

/// The title without the ending of a file of notes, if it has one.
pub fn strip_ending(title: &Vec<char>) -> (r: Option<Vec<char>>)
    ensures
        match r {
            Some(name) => without_ending(title@) == Some(name@),
            None => without_ending(title@) is None,
        },
{
    proof {
        reveal_strlit(".md");
        reveal_strlit(".txt");
        reveal_strlit(".canvas");
        reveal_strlit(".excalidraw");
    }
    if text::has_suffix(title, &text::chars_of(".md")) {
        Some(text::slice(title, 0, title.len() - 3))
    } else if text::has_suffix(title, &text::chars_of(".txt")) {
        Some(text::slice(title, 0, title.len() - 4))
    } else if text::has_suffix(title, &text::chars_of(".canvas")) {
        Some(text::slice(title, 0, title.len() - 7))
    } else if text::has_suffix(title, &text::chars_of(".excalidraw")) {
        Some(text::slice(title, 0, title.len() - 11))
    } else {
        None
    }
}

/// The file of a note of the name `stem` in the directory `dir`.
pub fn note_file(dir: &Vec<String>, stem: &str) -> (r: Vec<String>)
    ensures
        text::texts(r@) == text::texts(dir@).push(stem@ + ".md"@),
{
    let mut name = text::chars_of(stem);
    text::append(&mut name, &text::chars_of(".md"));
    file_in(dir, text::string_of(&name).as_str())
}

impl NoteBuilder {
    /// A note without title, in the directory of notes.
    pub fn new(vault: Vec<String>, config: Config) -> (r: Self)
        ensures
            r.vault == vault,
            r.config == config,
            r.title is None,
            r.target_dir is None,
            !r.use_hierarchical_tags,
            r.editor_override is None,
    {
        NoteBuilder {
            vault,
            config,
            title: None,
            target_dir: None,
            use_hierarchical_tags: false,
            editor_override: None,
        }
    }

    /// The note with this title.
    pub fn title(self, title: Option<String>) -> (r: Self)
        ensures
            r == (NoteBuilder { title, ..self }),
    {
        NoteBuilder { title, ..self }
    }

    /// The note in this directory.
    pub fn target_directory(self, dir: Vec<String>) -> (r: Self)
        ensures
            r == (NoteBuilder { target_dir: Some(dir), ..self }),
    {
        NoteBuilder { target_dir: Some(dir), ..self }
    }

    /// The note with its tag picked level by level, or not.
    pub fn hierarchical_tags(self, use_hierarchical: bool) -> (r: Self)
        ensures
            r == (NoteBuilder { use_hierarchical_tags: use_hierarchical, ..self }),
    {
        NoteBuilder { use_hierarchical_tags: use_hierarchical, ..self }
    }

    /// The note opened with this editor.
    pub fn editor(self, editor: Option<String>) -> (r: Self)
        ensures
            r == (NoteBuilder { editor_override: editor, ..self }),
    {
        NoteBuilder { editor_override: editor, ..self }
    }

    /// The directory of the note: the target directory, below `current_dir`
    /// if it is not absolute; the directory of notes of the vault if no
    /// target directory is set.
    pub fn notes_directory(&self, current_dir: &Vec<String>) -> (r: Vec<String>)
        ensures
            text::texts(r@) == (match self.target_dir {
                Some(dir) => paths::joined(text::texts(current_dir@), text::texts(dir@)),
                None => self.config.notes_root_of(text::texts(self.vault@)),
            }),
    {
        match &self.target_dir {
            Some(dir) => paths::join(current_dir, dir),
            None => self.config.notes_path(&self.vault),
        }
    }

    /// The name of the file of the note, without `.md`.
    pub fn filename_stem(&self, date: &str, time: &str) -> (r: String)
        ensures
            r@ == stem_of(
                match self.title {
                    Some(t) => Some(t@),
                    None => None,
                },
                date@,
                time@,
            ),
    {
        match &self.title {
            Some(t) => {
                let chars = text::chars_of(t.as_str());
                match strip_ending(&chars) {
                    Some(name) => text::string_of(&name),
                    None => slugify(t.as_str()),
                }
            },
            None => {
                let mut out = text::chars_of(date);
                out.push(' ');
                text::append(&mut out, &text::chars_of(time));
                assert(out@ =~= date@ + seq![' '] + time@);
                text::string_of(&out)
            },
        }
    }

    /// The file of the note in the directory `notas_dir`.
    pub fn build_target_path(&self, notas_dir: &Vec<String>, date: &str, time: &str) -> (r: Vec<
        String,
    >)
        ensures
            text::texts(r@) == text::texts(notas_dir@).push(
                stem_of(
                    match self.title {
                        Some(t) => Some(t@),
                        None => None,
                    },
                    date@,
                    time@,
                ) + ".md"@,
            ),
    {
        let stem = self.filename_stem(date, time);
        note_file(notas_dir, stem.as_str())
    }

    /// The variables of the template of the note: `date`, `time` and
    /// `title`, which is the name of the file without `.md`.
    pub fn build_variables(&self, date: &str, time: &str) -> (r: Vec<(String, String)>)
        ensures
            var_views(r@) == variables_of(
                stem_of(
                    match self.title {
                        Some(t) => Some(t@),
                        None => None,
                    },
                    date@,
                    time@,
                ),
                date@,
                time@,
            ),
    {
        let stem = self.filename_stem(date, time);
        let mut vars: Vec<(String, String)> = Vec::new();
        vars.push(("date".to_owned(), date.to_owned()));
        vars.push(("time".to_owned(), time.to_owned()));
        vars.push(("title".to_owned(), stem));
        assert(var_views(vars@) =~= variables_of(stem@, date@, time@));
        vars
    }

    /// The tag that the directory of the note gives.
    pub fn derive_tag_from_dir(&self, dir: &Vec<String>) -> (r: String)
        ensures
            r@ == dir_tag(
                self.config.notes_root_of(text::texts(self.vault@)),
                text::texts(self.vault@),
                text::texts(dir@),
            ),
    {
        let notes_base = self.config.notes_path(&self.vault);
        let rel = match paths::strip_prefix(dir, &notes_base) {
            Some(r) => r,
            None => match paths::strip_prefix(dir, &self.vault) {
                Some(r) => r,
                None => {
                    paths::copy(dir)
                },
            },
        };
        let sep: Vec<char> = vec!['/'];
        assert(sep@ =~= slash());
        text::string_of(&text::join_strings(&rel, &sep))
    }

    /// The template of the note: the file named after the directory of
    /// notes in the directory of templates if `centralized_exists` says
    /// that it is there, else `template.txt` in the directory of the note.
    pub fn template_path(&self, notas_dir: &Vec<String>, centralized_exists: bool) -> (r: Vec<
        String,
    >)
        ensures
            text::texts(r@) == (if centralized_exists {
                paths::joined(
                    text::texts(self.vault@),
                    paths::components_of(self.config.templates_dir@),
                ).push(self.config.notes_dir@ + ".md"@)
            } else {
                text::texts(notas_dir@).push("template.txt"@)
            }),
    {
        if centralized_exists {
            note_file(&self.config.templates_path(&self.vault), self.config.notes_dir.as_str())
        } else {
            file_in(notas_dir, "template.txt")
        }
    }
}

/// The text of a daily note for which there is no template.
pub open spec fn plain_daily(date: Seq<char>, time: Seq<char>, today: Seq<char>) -> Seq<char> {
    "---\ndate: "@ + date + "\ntime: "@ + time + "\n---\n\n# "@ + today + "\n\n"@
}

/// The text of a daily note for which there is no template: the date and
/// the time as front matter, the day as heading.
pub fn daily_text(date: &str, time: &str, today: &str) -> (r: String)
    ensures
        r@ == plain_daily(date@, time@, today@),
{
    let mut out = text::chars_of("---\ndate: ");
    text::append(&mut out, &text::chars_of(date));
    text::append(&mut out, &text::chars_of("\ntime: "));
    text::append(&mut out, &text::chars_of(time));
    text::append(&mut out, &text::chars_of("\n---\n\n# "));
    text::append(&mut out, &text::chars_of(today));
    text::append(&mut out, &text::chars_of("\n\n"));
    assert(out@ =~= plain_daily(date@, time@, today@));
    text::string_of(&out)
}

/// The line that is added to a note when it is opened again: `@`, the date,
/// a blank, the time.
pub fn time_stamp(date: &str, time: &str) -> (r: String)
    ensures
        r@ == seq!['@'] + date@ + seq![' '] + time@,
{
    let mut out: Vec<char> = Vec::new();
    out.push('@');
    text::append(&mut out, &text::chars_of(date));
    out.push(' ');
    text::append(&mut out, &text::chars_of(time));
    assert(out@ =~= seq!['@'] + date@ + seq![' '] + time@);
    text::string_of(&out)
}

/// The editor that opens a note: the command that was asked for; failing
/// that, none if the configuration asks for the integrated editor or names
/// no mode; failing that, the editor of the configuration, or `vi`.
pub fn editor_command(config: &Config, editor_override: Option<String>) -> (r: Option<String>)
    ensures
        match editor_override {
            Some(cmd) => r == Some(cmd),
            None => match config.editor_mode {
                Some(mode) if mode@ != "integrated"@ => match config.editor {
                    Some(e) => r matches Some(c) && c@ == e@,
                    None => r matches Some(c) && c@ == "vi"@,
                },
                _ => r is None,
            },
        },
{
    match editor_override {
        Some(cmd) => Some(cmd),
        None => {
            let external = match &config.editor_mode {
                Some(mode) => !paths::text_is(mode, "integrated"),
                None => false,
            };
            if external {
                match &config.editor {
                    Some(e) => Some(e.clone()),
                    None => Some("vi".to_owned()),
                }
            } else {
                None
            }
        },
    }
}

/// The front matter and the body of a new note, from those of its template:
/// the texts are rendered with the variables; the tag, if one was picked,
/// becomes the only entry of `tags`; the aliases, if any were given, become
/// `aliases`.
pub fn create_new_note(
    template: Frontmatter,
    body: &str,
    vars: &Vec<(String, String)>,
    selected_tag: String,
    selected_aliases: &Vec<String>,
) -> (r: (Frontmatter, String))
    ensures
        r.0@ == new_front_matter(
            template@,
            var_views(vars@),
            selected_tag@,
            text::texts(selected_aliases@),
        ),
        r.1@ == render_text(body@, var_views(vars@)),
{
    let mut fm = render(template, vars);
    if !selected_tag.as_str().is_empty() {
        let mut tags: Vec<Scalar> = Vec::new();
        let ghost tag_text = selected_tag@;
        tags.push(Scalar::Text(selected_tag));
        assert(crate::notes::frontmatter::scalar_views(tags@) =~= seq![ScalarView::Text(tag_text)]);
        fm.insert("tags".to_owned(), Field::List(tags));
    }
    if selected_aliases.len() > 0 {
        let mut items: Vec<Scalar> = Vec::new();
        let mut i: usize = 0;
        while i < selected_aliases.len()
            invariant
                i <= selected_aliases.len(),
                crate::notes::frontmatter::scalar_views(items@) == text::texts(
                    selected_aliases@,
                ).take(i as int).map_values(|a: Seq<char>| ScalarView::Text(a)),
            decreases selected_aliases.len() - i,
        {
            let ghost before = crate::notes::frontmatter::scalar_views(items@);
            items.push(Scalar::Text(selected_aliases[i].clone()));
            assert(crate::notes::frontmatter::scalar_views(items@) == before.push(
                ScalarView::Text(selected_aliases@[i as int]@),
            ));
            assert(text::texts(selected_aliases@).take(i + 1).map_values(
                |a: Seq<char>| ScalarView::Text(a),
            ) =~= before.push(ScalarView::Text(selected_aliases@[i as int]@)));
            i += 1;
        }
        assert(text::texts(selected_aliases@).take(selected_aliases.len() as int) == text::texts(
            selected_aliases@,
        ));
        fm.insert("aliases".to_owned(), Field::List(items));
    }
    (fm, render_body(body, vars))
}

} // verus!
