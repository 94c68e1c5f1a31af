//! Retag: the tag of a note follows the place of the note.

use crate::notes::config::{file_in, Config};
use crate::notes::frontmatter::{
    closing_fence, document, document_parts, document_text, extract, fence, lemma_with_entry,
    list_under, lookup, with_item, yaml_entries, yaml_text, EntryView, Frontmatter, Scalar,
    ScalarView, YamlError,
};
use crate::paths;
use crate::tags::parser::{
    extract_primary_tag, lemma_primary_tag_of_replaced, marker_close, primary_tag,
    replace_primary_tag, slash, valid_segments, with_primary_tag, TagPath,
};
use crate::text;
use crate::vault::scan::Document;
use vstd::prelude::*;

verus! {

/// Why a note could not be retagged.
#[derive(Debug)]
pub enum RetagError {
    /// The note does not lie below the tag root.
    OutsideTagRoot,
    /// The path of the note does not end in a file name.
    InvalidFilename,
    /// The front matter could not be read or written.
    Yaml(YamlError),
}

/// How many notes of a batch were changed, left as they were, or failed.
#[derive(Clone, Debug, PartialEq, Eq)]
pub struct Tally {
    pub updated: usize,
    pub skipped: usize,
    pub errors: usize,
}

/// What became of one note of a batch.
#[derive(Clone, Debug, PartialEq, Eq)]
pub enum Outcome {
    Updated,
    Skipped,
    Failed,
}

/// What a command works on.
#[derive(Debug)]
pub enum Target {
    /// All notes below the directory one is in.
    Below(Vec<String>),
    /// One file.
    File(Vec<String>),
}

/// What the target that was named on the command line stands for: `.` is
/// the directory one is in, with all that is below it; anything else is a
/// file, taken from the directory one is in unless its path is absolute.
pub fn target_of(target: &str, current_dir: &Vec<String>) -> (r: Target)
    ensures
        match r {
            Target::Below(dir) => target@ == "."@ && text::texts(dir@) == text::texts(
                current_dir@,
            ),
            Target::File(path) => target@ != "."@ && text::texts(path@) == paths::joined(
                text::texts(current_dir@),
                paths::components_of(target@),
            ),
        },
{
    let t = target.to_owned();
    if paths::text_is(&t, ".") {
        Target::Below(paths::copy(current_dir))
    } else {
        Target::File(paths::join(current_dir, &paths::components(target)))
    }
}

/// The directories of a path below the tag root: the path without its last
/// component.
pub open spec fn dirs_of(rel: Seq<Seq<char>>) -> Seq<Seq<char>> {
    if rel.len() == 0 {
        rel
    } else {
        rel.drop_last()
    }
}

/// The tag that the place of a note gives: the directories between the tag
/// root and the note, with `/` between them. A note right below the tag root
/// gives the empty tag. `None` if the note does not lie below the tag root.
pub open spec fn derived_tag(tag_root: Seq<Seq<char>>, path: Seq<Seq<char>>) -> Option<
    Seq<char>,
> {
    match paths::stripped(path, tag_root) {
        Some(rel) => Some(text::join(dirs_of(rel), slash())),
        None => None,
    }
}

/// The alias that keeps a former tag: the date, a blank, the tag.
pub open spec fn alias_entry(date: Seq<char>, old_tag: Seq<char>) -> Seq<char> {
    date + seq![' '] + old_tag
}

/// The key under which the front matter keeps aliases.
pub open spec fn aliases_key() -> Seq<char> {
    "aliases"@
}

/// The front matter and the body of a note after retagging, or `None` where
/// the note stays as it is: where the derived tag is empty, or is the primary
/// tag of the body already. Otherwise the body gets the derived tag as its
/// primary tag and, unless `no_alias`, a former primary tag is kept as one
/// more alias.
pub open spec fn retagged_parts(
    fm: Seq<EntryView>,
    body: Seq<char>,
    derived: Seq<char>,
    date: Seq<char>,
    no_alias: bool,
) -> Option<(Seq<EntryView>, Seq<char>)> {
    if derived.len() == 0 {
        None
    } else {
        let new_body = with_primary_tag(body, text::split(derived, '/'));
        match primary_tag(body) {
            Some(old) => if text::join(old, slash()) == derived {
                None
            } else if no_alias {
                Some((fm, new_body))
            } else {
                Some(
                    (
                        with_item(
                            fm,
                            aliases_key(),
                            ScalarView::Text(alias_entry(date, text::join(old, slash()))),
                        ),
                        new_body,
                    ),
                )
            },
            None => Some((fm, new_body)),
        }
    }
}

/// The name of the backup of a file: the time stamp goes between the name
/// and `.bak`, before a closing `.md` if there is one.
pub open spec fn backup_name(name: Seq<char>, stamp: Seq<char>) -> Seq<char> {
    if text::ends_with(name, ".md"@) {
        name.take(name.len() - 3) + seq!['_'] + stamp + ".md.bak"@
    } else {
        name + seq!['_'] + stamp + ".bak"@
    }
}

/// The place of the backups of a vault.
pub open spec fn backup_dir(vault: Seq<Seq<char>>) -> Seq<Seq<char>> {
    vault.push(".arc"@).push("backups"@)
}

/// The tag that the place of a note gives.
pub fn derive_tag_from_path(vault: &Vec<String>, config: &Config, path: &Vec<String>) -> (r:
    Result<String, RetagError>)
    ensures
        match derived_tag(config.tag_root_of(text::texts(vault@)), text::texts(path@)) {
            Some(tag) => r matches Ok(t) && t@ == tag,
            None => r matches Err(RetagError::OutsideTagRoot),
        },
{
    let tag_root = config.tag_root_path(vault);
    match paths::strip_prefix(path, &tag_root) {
        None => Err(RetagError::OutsideTagRoot),
        Some(rel) => {
            let dirs = if rel.len() == 0 {
                rel
            } else {
                paths::head(&rel, rel.len() - 1)
            };
            let sep: Vec<char> = vec!['/'];
            assert(sep@ =~= slash());
            let joined = text::join_strings(&dirs, &sep);
            Ok(text::string_of(&joined))
        },
    }
}

/// Retags the parts of a note. Gives the new front matter and the new body,
/// or `None` where the note stays as it is.
pub fn retag_parts(fm: Frontmatter, body: &str, derived: &str, date: &str, no_alias: bool) -> (r:
    Option<(Frontmatter, String)>)
    ensures
        match retagged_parts(fm@, body@, derived@, date@, no_alias) {
            Some((new_fm, new_body)) => r matches Some((f, b)) && f@ == new_fm && b@ == new_body,
            None => r is None,
        },
{
    let derived_chars = text::chars_of(derived);
    if derived_chars.len() == 0 {
        return None;
    }
    let mut fm = fm;
    let pieces = text::split_on(&derived_chars, '/');
    let mut segments: Vec<String> = Vec::new();
    let mut i: usize = 0;
    while i < pieces.len()
        invariant
            i <= pieces.len(),
            text::texts(segments@) == text::pieces(pieces@).take(i as int),
        decreases pieces.len() - i,
    {
        let ghost before = text::texts(segments@);
        segments.push(text::string_of(&pieces[i]));
        assert(text::texts(segments@) == before.push(pieces@[i as int]@));
        i += 1;
    }
    assert(text::pieces(pieces@).take(pieces.len() as int) == text::pieces(pieces@));
    let new_tag = TagPath(segments);
    match extract_primary_tag(body) {
        Some(old_tag) => {
            let old_written = old_tag.to_slash_string();
            let old_chars = text::chars_of(old_written.as_str());
            if paths::same_chars(&old_chars, &derived_chars) {
                return None;
            }
            if !no_alias {
                let mut entry = text::chars_of(date);
                entry.push(' ');
                text::append(&mut entry, &old_chars);
                assert(entry@ =~= alias_entry(date@, old_written@));
                fm.push_to_list("aliases", Scalar::Text(text::string_of(&entry)));
            }
        },
        None => {},
    }
    let new_body = replace_primary_tag(body, &new_tag);
    Some((fm, new_body))
}

/// What retagging makes of a note.
pub enum Retagged {
    /// The note could not be retagged.
    Failed,
    /// The note stays as it is.
    Unchanged,
    /// The note gets this text.
    Rewritten(Seq<char>),
}

/// What retagging makes of the note at `path` that holds `content`: it
/// fails where the front matter cannot be read or written or the note does
/// not lie below the tag root; the note stays as it is where its place
/// gives no tag or the tag that it has; otherwise it is rewritten.
pub open spec fn retagged(
    tag_root: Seq<Seq<char>>,
    path: Seq<Seq<char>>,
    content: Seq<char>,
    date: Seq<char>,
    no_alias: bool,
) -> Retagged {
    match document_parts(content) {
        None => Retagged::Failed,
        Some((fm, body)) => match derived_tag(tag_root, path) {
            None => Retagged::Failed,
            Some(derived) => match retagged_parts(fm, body, derived, date, no_alias) {
                None => Retagged::Unchanged,
                Some((new_fm, new_body)) => match yaml_text(new_fm) {
                    Some(yaml) => Retagged::Rewritten(document_text(yaml, new_body)),
                    None => Retagged::Failed,
                },
            },
        },
    }
}

/// What a result of retagging stands for.
pub open spec fn result_view(r: Result<Option<String>, RetagError>) -> Retagged {
    match r {
        Ok(Some(t)) => Retagged::Rewritten(t@),
        Ok(None) => Retagged::Unchanged,
        Err(_) => Retagged::Failed,
    }
}

/// How a note is counted.
pub open spec fn outcome_view(r: Retagged) -> Outcome {
    match r {
        Retagged::Rewritten(_) => Outcome::Updated,
        Retagged::Unchanged => Outcome::Skipped,
        Retagged::Failed => Outcome::Failed,
    }
}

/// The notes of a batch: the path and the text of each.
pub open spec fn notes_of(documents: Seq<Document>) -> Seq<(Seq<Seq<char>>, Seq<char>)> {
    documents.map_values(|d: Document| (paths::components_of(d.path@), d.content@))
}

/// How the notes of a batch are counted, note by note. What becomes of a
/// note does not depend on the notes before it.
pub open spec fn batch_outcomes(
    tag_root: Seq<Seq<char>>,
    notes: Seq<(Seq<Seq<char>>, Seq<char>)>,
    date: Seq<char>,
    no_alias: bool,
) -> Seq<Outcome> {
    notes.map_values(
        |n: (Seq<Seq<char>>, Seq<char>)| outcome_view(retagged(tag_root, n.0, n.1, date, no_alias)),
    )
}

/// What a note holds after a run of retag: its new text if it was
/// rewritten, else what it held.
pub open spec fn text_after(content: Seq<char>, r: Retagged) -> Seq<char> {
    match r {
        Retagged::Rewritten(t) => t,
        _ => content,
    }
}

/// The notes of a batch after a run of retag.
pub open spec fn notes_after(
    tag_root: Seq<Seq<char>>,
    notes: Seq<(Seq<Seq<char>>, Seq<char>)>,
    date: Seq<char>,
    no_alias: bool,
) -> Seq<(Seq<Seq<char>>, Seq<char>)> {
    notes.map_values(
        |n: (Seq<Seq<char>>, Seq<char>)|
            (n.0, text_after(n.1, retagged(tag_root, n.0, n.1, date, no_alias))),
    )
}

/// Retags a note: works out the tag that the place of the note gives and
/// puts it into the document. Gives the new text of the document, or `None`
/// where the document stays as it is. `date` is the day as it is to be
/// written into an alias.
pub fn retag_file_inner(
    vault: &Vec<String>,
    config: &Config,
    path: &Vec<String>,
    content: &str,
    date: &str,
    no_alias: bool,
) -> (r: Result<Option<String>, RetagError>)
    ensures
        result_view(r) == retagged(
            config.tag_root_of(text::texts(vault@)),
            text::texts(path@),
            content@,
            date@,
            no_alias,
        ),
        match document_parts(content@) {
            None => r matches Err(RetagError::Yaml(_)),
            Some((fm, body)) => match derived_tag(
                config.tag_root_of(text::texts(vault@)),
                text::texts(path@),
            ) {
                None => r matches Err(RetagError::OutsideTagRoot),
                Some(derived) => match retagged_parts(fm, body, derived, date@, no_alias) {
                    None => r matches Ok(None),
                    Some((new_fm, new_body)) => match yaml_text(new_fm) {
                        Some(yaml) => r matches Ok(Some(t)) && t@ == document_text(
                            yaml,
                            new_body,
                        ),
                        None => r matches Err(RetagError::Yaml(_)),
                    },
                },
            },
        },
{
    let (fm, body) = match extract(content) {
        Ok(parts) => parts,
        Err(e) => {
            return Err(RetagError::Yaml(e));
        },
    };
    let derived = match derive_tag_from_path(vault, config, path) {
        Ok(tag) => tag,
        Err(e) => {
            return Err(e);
        },
    };
    assert(document_parts(content@) == Some((fm@, body@)));
    assert(derived_tag(config.tag_root_of(text::texts(vault@)), text::texts(path@)) == Some(
        derived@,
    ));
    let ghost want = retagged_parts(fm@, body@, derived@, date@, no_alias);
    match retag_parts(fm, body.as_str(), derived.as_str(), date, no_alias) {
        None => {
            assert(want is None);
            Ok(None)
        },
        Some((new_fm, new_body)) => match new_fm.to_yaml() {
            Ok(yaml) => Ok(Some(document(yaml.as_str(), new_body.as_str()))),
            Err(e) => Err(RetagError::Yaml(e)),
        },
    }
}

/// Retags the notes of a batch: works out, for each note, what retagging
/// makes of it, and counts the notes that are rewritten, that stay as they
/// are and that fail. A note that fails does not end the batch: every note
/// is retagged and counted, whatever became of the notes before it.
pub fn retag_recursive(
    vault: &Vec<String>,
    config: &Config,
    documents: &Vec<Document>,
    date: &str,
    no_alias: bool,
) -> (r: (Vec<Result<Option<String>, RetagError>>, Tally))
    ensures
        r.0@.len() == documents@.len(),
        forall|i: int|
            0 <= i < documents@.len() ==> result_view(#[trigger] r.0@[i]) == retagged(
                config.tag_root_of(text::texts(vault@)),
                paths::components_of(documents@[i].path@),
                documents@[i].content@,
                date@,
                no_alias,
            ),
        (r.1.updated as nat, r.1.skipped as nat, r.1.errors as nat) == counts(
            batch_outcomes(
                config.tag_root_of(text::texts(vault@)),
                notes_of(documents@),
                date@,
                no_alias,
            ),
        ),
{
    let ghost root = config.tag_root_of(text::texts(vault@));
    let ghost all = batch_outcomes(root, notes_of(documents@), date@, no_alias);
    let mut results: Vec<Result<Option<String>, RetagError>> = Vec::new();
    let mut outcomes: Vec<Outcome> = Vec::new();
    let mut i: usize = 0;
    while i < documents.len()
        invariant
            i <= documents.len(),
            root == config.tag_root_of(text::texts(vault@)),
            all == batch_outcomes(root, notes_of(documents@), date@, no_alias),
            results@.len() == i,
            outcomes@ == all.take(i as int),
            forall|k: int|
                0 <= k < i ==> result_view(#[trigger] results@[k]) == retagged(
                    root,
                    paths::components_of(documents@[k].path@),
                    documents@[k].content@,
                    date@,
                    no_alias,
                ),
        decreases documents.len() - i,
    {
        let path = paths::components(documents[i].path.as_str());
        let result = retag_file_inner(
            vault,
            config,
            &path,
            documents[i].content.as_str(),
            date,
            no_alias,
        );
        let outcome = outcome_of(&result);
        proof {
            assert(all[i as int] == outcome_view(result_view(result)));
            assert(all.take(i + 1) =~= all.take(i as int).push(outcome));
        }
        outcomes.push(outcome);
        results.push(result);
        i += 1;
    }
    assert(all.take(documents@.len() as int) == all);
    let tally = Tally::of(&outcomes);
    (results, tally)
}

/// Where the backup of a file goes: into the directory `.arc/backups` of the
/// vault, under the name of the file with the time stamp in it. Fails if the
/// path does not end in a file name.
pub fn create_backup(vault: &Vec<String>, file_path: &Vec<String>, stamp: &str) -> (r: Result<
    Vec<String>,
    RetagError,
>)
    ensures
        match paths::file_name_of(text::texts(file_path@)) {
            Some(name) => r matches Ok(p) && text::texts(p@) == backup_dir(
                text::texts(vault@),
            ).push(backup_name(name, stamp@)),
            None => r matches Err(RetagError::InvalidFilename),
        },
{
    let name = match paths::file_name(file_path) {
        Some(n) => n,
        None => {
            return Err(RetagError::InvalidFilename);
        },
    };
    let chars = text::chars_of(name.as_str());
    let suffix = text::chars_of(".md");
    proof {
        reveal_strlit(".md");
    }
    let with_md = text::has_suffix(&chars, &suffix);
    let stem_len = if with_md {
        chars.len() - 3
    } else {
        chars.len()
    };
    let ending = if with_md {
        ".md.bak"
    } else {
        ".bak"
    };
    let mut out = text::slice(&chars, 0, stem_len);
    out.push('_');
    text::append(&mut out, &text::chars_of(stamp));
    text::append(&mut out, &text::chars_of(ending));
    assert(out@ =~= backup_name(name@, stamp@));
    let dir = file_in(&file_in(vault, ".arc"), "backups");
    Ok(file_in(&dir, text::string_of(&out).as_str()))
}

/// How many of the outcomes are updates, skips and failures.
pub open spec fn counts(outcomes: Seq<Outcome>) -> (nat, nat, nat)
    decreases outcomes.len(),
{
    if outcomes.len() == 0 {
        (0, 0, 0)
    } else {
        let c = counts(outcomes.drop_last());
        match outcomes.last() {
            Outcome::Updated => (c.0 + 1, c.1, c.2),
            Outcome::Skipped => (c.0, c.1 + 1, c.2),
            Outcome::Failed => (c.0, c.1, c.2 + 1),
        }
    }
}

/// Every outcome is counted once.
pub proof fn lemma_counts(outcomes: Seq<Outcome>)
    ensures
        counts(outcomes).0 + counts(outcomes).1 + counts(outcomes).2 == outcomes.len(),
    decreases outcomes.len(),
{
    if outcomes.len() > 0 {
        lemma_counts(outcomes.drop_last());
    }
}

impl Tally {
    /// The tally of a batch: every note is counted, whatever became of the
    /// notes before it.
    pub fn of(outcomes: &Vec<Outcome>) -> (r: Self)
        ensures
            (r.updated as nat, r.skipped as nat, r.errors as nat) == counts(outcomes@),
    {
        let mut tally = Tally::new();
        let mut i: usize = 0;
        assert(outcomes@.take(0) == Seq::<Outcome>::empty());
        while i < outcomes.len()
            invariant
                i <= outcomes.len(),
                (tally.updated as nat, tally.skipped as nat, tally.errors as nat) == counts(
                    outcomes@.take(i as int),
                ),
            decreases outcomes.len() - i,
        {
            proof {
                lemma_counts(outcomes@.take(i as int));
                assert(outcomes@.take(i + 1).drop_last() == outcomes@.take(i as int));
                assert(outcomes@.take(i + 1).last() == outcomes@[i as int]);
            }
            tally.record(&outcomes[i]);
            i += 1;
        }
        assert(outcomes@.take(outcomes.len() as int) == outcomes@);
        tally
    }

    /// A tally of nothing.
    pub fn new() -> (r: Self)
        ensures
            r.updated == 0 && r.skipped == 0 && r.errors == 0,
    {
        Tally { updated: 0, skipped: 0, errors: 0 }
    }

    /// Counts one more note. A count that cannot grow stays as it is.
    pub fn record(&mut self, outcome: &Outcome)
        ensures
            final(self).updated == (if outcome is Updated && old(self).updated < usize::MAX {
                old(self).updated + 1
            } else {
                old(self).updated as int
            }),
            final(self).skipped == (if outcome is Skipped && old(self).skipped < usize::MAX {
                old(self).skipped + 1
            } else {
                old(self).skipped as int
            }),
            final(self).errors == (if outcome is Failed && old(self).errors < usize::MAX {
                old(self).errors + 1
            } else {
                old(self).errors as int
            }),
    {
        match outcome {
            Outcome::Updated => {
                self.updated = self.updated.saturating_add(1);
            },
            Outcome::Skipped => {
                self.skipped = self.skipped.saturating_add(1);
            },
            Outcome::Failed => {
                self.errors = self.errors.saturating_add(1);
            },
        }
    }
}

/// What became of a note, from what retagging it gave: a new text is an
/// update, none is a skip, a failure is an error.
pub fn outcome_of(result: &Result<Option<String>, RetagError>) -> (r: Outcome)
    ensures
        r == outcome_view(result_view(*result)),
        match result {
            Ok(Some(_)) => r is Updated,
            Ok(None) => r is Skipped,
            Err(_) => r is Failed,
        },
{
    match result {
        Ok(Some(_)) => Outcome::Updated,
        Ok(None) => Outcome::Skipped,
        Err(_) => Outcome::Failed,
    }
}

/// The place of a note gives its tag: a note that lies in the directories
/// `dirs` below the tag root is given those directories, with `/` between
/// them, as its tag; a note right below the tag root is given the empty tag
/// and stays as it is.
pub proof fn lemma_derived_tag(
    tag_root: Seq<Seq<char>>,
    dirs: Seq<Seq<char>>,
    file: Seq<char>,
    fm: Seq<EntryView>,
    body: Seq<char>,
    date: Seq<char>,
    no_alias: bool,
)
    ensures
        derived_tag(tag_root, (tag_root + dirs).push(file)) == Some(text::join(dirs, slash())),
        dirs.len() == 0 ==> retagged_parts(
            fm,
            body,
            text::join(dirs, slash()),
            date,
            no_alias,
        ) is None,
{
    let path = (tag_root + dirs).push(file);
    assert(tag_root =~= path.subrange(0, tag_root.len() as int));
    assert(path.skip(tag_root.len() as int) =~= dirs.push(file));
    assert(dirs.push(file).drop_last() =~= dirs);
}

/// A derived tag is clean if its pieces are valid segments and it holds
/// neither ` }` nor a line end: then the marker that carries it is one line
/// and is read back as it was written.
pub open spec fn clean_tag(derived: Seq<char>) -> bool {
    &&& valid_segments(text::split(derived, '/'))
    &&& !text::contains(derived, marker_close())
    &&& !derived.contains('\n')
}

/// Retagging is idempotent: a note that was retagged to a clean tag stays as
/// it is when it is retagged to that tag again, whatever the date and the
/// alias mode of the second run.
pub proof fn lemma_retag_twice(
    fm: Seq<EntryView>,
    body: Seq<char>,
    derived: Seq<char>,
    date: Seq<char>,
    no_alias: bool,
    later_date: Seq<char>,
    later_no_alias: bool,
)
    requires
        clean_tag(derived),
    ensures
        match retagged_parts(fm, body, derived, date, no_alias) {
            Some((new_fm, new_body)) => retagged_parts(
                new_fm,
                new_body,
                derived,
                later_date,
                later_no_alias,
            ) is None,
            None => true,
        },
{
    if derived.len() > 0 {
        let tag = text::split(derived, '/');
        text::lemma_split_pieces(derived, '/');
        text::lemma_join_split(derived, '/');
        assert(seq!['/'] =~= slash());
        lemma_primary_tag_of_replaced(body, tag);
    }
}

/// What the YAML of a written document must be like for the document to be
/// read as it was written: it ends with a line end, no line of it begins
/// with `---`, and the reader takes it, after a line end, for front matter.
pub open spec fn reads_back(yaml: Seq<char>) -> bool {
    &&& yaml.len() > 0
    &&& yaml.last() == '\n'
    &&& !text::starts_with(yaml, fence())
    &&& !text::contains(yaml, closing_fence())
    &&& yaml_entries(seq!['\n'] + yaml) is Some
}

/// A document that was written with front matter `yaml` that reads back
/// falls into that front matter and, after a line end, its body.
pub proof fn lemma_written_document(yaml: Seq<char>, body: Seq<char>)
    requires
        reads_back(yaml),
    ensures
        document_parts(document_text(yaml, body)) == Some(
            (yaml_entries(seq!['\n'] + yaml)->0, seq!['\n'] + body),
        ),
{
    reveal_strlit("---\n");
    let t = document_text(yaml, body);
    let k = yaml.len() as int;
    assert(t =~= seq!['-', '-', '-', '\n'] + yaml + seq!['-', '-', '-', '\n'] + body);
    assert(t.subrange(0, 3) =~= fence());
    let rest = t.skip(3);
    assert(rest =~= seq!['\n'] + yaml + seq!['-', '-', '-', '\n'] + body);
    assert(rest.subrange(k, k + 4) =~= closing_fence());
    text::lemma_find_from(yaml, closing_fence(), 0);
    assert forall|j: int| 0 <= j < k implies !text::matches_at(rest, closing_fence(), j) by {
        if text::matches_at(rest, closing_fence(), j) {
            let m = rest.subrange(j, j + 4);
            assert(m[0] == rest[j] && m[1] == rest[j + 1] && m[2] == rest[j + 2] && m[3] == rest[j
                + 3]);
            assert(rest[k] == '\n');
            if j == 0 {
                assert(yaml.subrange(0, 3) =~= fence());
            } else {
                assert(yaml.subrange(j - 1, j + 3) =~= m);
                assert(text::matches_at(yaml, closing_fence(), j - 1));
            }
        }
    }
    text::lemma_find_from_is(rest, closing_fence(), 0, k);
    assert(rest.take(k + 1) =~= seq!['\n'] + yaml);
    assert(rest.skip(k + 4) =~= seq!['\n'] + body);
}

/// The YAML and the body that retagging a document writes; `None` where it
/// writes nothing.
pub open spec fn retagged_text(
    content: Seq<char>,
    derived: Seq<char>,
    date: Seq<char>,
    no_alias: bool,
) -> Option<(Seq<char>, Seq<char>)> {
    match document_parts(content) {
        Some((fm, body)) => match retagged_parts(fm, body, derived, date, no_alias) {
            Some((new_fm, new_body)) => match yaml_text(new_fm) {
                Some(yaml) => Some((yaml, new_body)),
                None => None,
            },
            None => None,
        },
        None => None,
    }
}

/// Retagging a document is idempotent: the document that retagging to a
/// clean tag wrote, read again, stays as it is when it is retagged to that
/// tag again, provided that the YAML that was written reads back.
pub proof fn lemma_retag_document_twice(
    content: Seq<char>,
    derived: Seq<char>,
    date: Seq<char>,
    no_alias: bool,
    later_date: Seq<char>,
    later_no_alias: bool,
)
    requires
        clean_tag(derived),
        match retagged_text(content, derived, date, no_alias) {
            Some((yaml, _)) => reads_back(yaml),
            None => true,
        },
    ensures
        match retagged_text(content, derived, date, no_alias) {
            Some((yaml, body)) => match document_parts(document_text(yaml, body)) {
                Some((fm, again)) => retagged_parts(
                    fm,
                    again,
                    derived,
                    later_date,
                    later_no_alias,
                ) is None,
                None => false,
            },
            None => true,
        },
{
    match retagged_text(content, derived, date, no_alias) {
        Some((yaml, body)) => {
            let old_parts = document_parts(content)->0;
            let old_body = old_parts.1;
            lemma_written_document(yaml, body);
            let tag = text::split(derived, '/');
            text::lemma_split_pieces(derived, '/');
            text::lemma_join_split(derived, '/');
            assert(seq!['/'] =~= slash());
            lemma_primary_tag_of_replaced(old_body, tag);
            let again = seq!['\n'] + body;
            assert(body == with_primary_tag(old_body, tag));
            assert(body[0] == '{');
            text::lemma_leading_spaces(body, 0);
            text::lemma_leading_spaces(again, 1);
            assert(again.skip(1) =~= body);
            assert(body.skip(0) =~= body);
            assert(text::trim_start(again) == text::trim_start(body));
            assert(primary_tag(again) == primary_tag(body));
        },
        None => {},
    }
}

/// What must hold of a note for a second run of retag to leave it alone:
/// the first run does not fail on it and, where the first run rewrites it,
/// the tag of its place is clean and the YAML that is written reads back.
pub open spec fn settles(
    tag_root: Seq<Seq<char>>,
    path: Seq<Seq<char>>,
    content: Seq<char>,
    date: Seq<char>,
    no_alias: bool,
) -> bool {
    match retagged(tag_root, path, content, date, no_alias) {
        Retagged::Failed => false,
        Retagged::Unchanged => true,
        Retagged::Rewritten(_) => clean_tag(derived_tag(tag_root, path)->0) && (match retagged_text(
            content,
            derived_tag(tag_root, path)->0,
            date,
            no_alias,
        ) {
            Some((yaml, _)) => reads_back(yaml),
            None => false,
        }),
    }
}

/// A note that settles stays as it is in a second run of retag, whatever the
/// date and the alias mode of that run.
pub proof fn lemma_retagged_twice(
    tag_root: Seq<Seq<char>>,
    path: Seq<Seq<char>>,
    content: Seq<char>,
    date: Seq<char>,
    no_alias: bool,
    later_date: Seq<char>,
    later_no_alias: bool,
)
    requires
        settles(tag_root, path, content, date, no_alias),
    ensures
        retagged(
            tag_root,
            path,
            text_after(content, retagged(tag_root, path, content, date, no_alias)),
            later_date,
            later_no_alias,
        ) is Unchanged,
{
    match retagged(tag_root, path, content, date, no_alias) {
        Retagged::Rewritten(_) => {
            let derived = derived_tag(tag_root, path)->0;
            lemma_retag_document_twice(
                content,
                derived,
                date,
                no_alias,
                later_date,
                later_no_alias,
            );
        },
        _ => {},
    }
}

/// A list of skips is counted as that many skips.
pub proof fn lemma_all_skipped(outcomes: Seq<Outcome>)
    requires
        forall|i: int| 0 <= i < outcomes.len() ==> (#[trigger] outcomes[i]) is Skipped,
    ensures
        counts(outcomes) == (0nat, outcomes.len(), 0nat),
    decreases outcomes.len(),
{
    if outcomes.len() > 0 {
        let init = outcomes.drop_last();
        assert forall|i: int| 0 <= i < init.len() implies (#[trigger] init[i]) is Skipped by {
            assert(init[i] == outcomes[i]);
        }
        lemma_all_skipped(init);
        assert(outcomes[outcomes.len() - 1] is Skipped);
    }
}

/// Retag is idempotent on a batch: when every note of a batch settles, a
/// second run over the notes as the first run left them rewrites none and
/// fails on none; every note is skipped.
pub proof fn lemma_retag_batch_twice(
    tag_root: Seq<Seq<char>>,
    notes: Seq<(Seq<Seq<char>>, Seq<char>)>,
    date: Seq<char>,
    no_alias: bool,
    later_date: Seq<char>,
    later_no_alias: bool,
)
    requires
        forall|i: int|
            0 <= i < notes.len() ==> settles(
                tag_root,
                (#[trigger] notes[i]).0,
                notes[i].1,
                date,
                no_alias,
            ),
    ensures
        counts(
            batch_outcomes(
                tag_root,
                notes_after(tag_root, notes, date, no_alias),
                later_date,
                later_no_alias,
            ),
        ) == (0nat, notes.len(), 0nat),
{
    let after = notes_after(tag_root, notes, date, no_alias);
    let second = batch_outcomes(tag_root, after, later_date, later_no_alias);
    assert forall|i: int| 0 <= i < second.len() implies (#[trigger] second[i]) is Skipped by {
        assert(settles(tag_root, notes[i].0, notes[i].1, date, no_alias));
        lemma_retagged_twice(
            tag_root,
            notes[i].0,
            notes[i].1,
            date,
            no_alias,
            later_date,
            later_no_alias,
        );
    }
    lemma_all_skipped(second);
}

/// Retagging keeps the aliases: with alias mode on, a note whose primary tag
/// changes gets exactly one more alias, made of the date and the former tag,
/// at the end of its aliases; the aliases before it and every other entry
/// of the front matter stay as they were.
pub proof fn lemma_alias_preserved(
    fm: Seq<EntryView>,
    body: Seq<char>,
    derived: Seq<char>,
    date: Seq<char>,
)
    requires
        primary_tag(body) is Some,
    ensures
        match retagged_parts(fm, body, derived, date, false) {
            Some((new_fm, _)) => {
                let old_tag = text::join(primary_tag(body)->0, slash());
                &&& list_under(new_fm, aliases_key()) == list_under(fm, aliases_key()).push(
                    ScalarView::Text(alias_entry(date, old_tag)),
                )
                &&& forall|other: Seq<char>|
                    other != aliases_key() ==> #[trigger] lookup(new_fm, other) == lookup(
                        fm,
                        other,
                    )
            },
            None => true,
        },
{
    let old_tag = text::join(primary_tag(body)->0, slash());
    let item = ScalarView::Text(alias_entry(date, old_tag));
    lemma_with_entry(
        fm,
        aliases_key(),
        crate::notes::frontmatter::FieldView::List(list_under(fm, aliases_key()).push(item)),
    );
}

} // verus!
