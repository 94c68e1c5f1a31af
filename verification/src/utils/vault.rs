//! Which files of a vault a walk reaches.

use crate::paths;
use crate::text;
use vstd::prelude::*;

verus! {

/// How a vault is walked.
#[derive(Clone, Debug)]
pub struct VaultWalker {
    /// The directory at which the walk begins.
    pub vault: Vec<String>,
    /// Whether the directory of templates is left out.
    pub exclude_templates: bool,
    /// Whether directories whose name begins with `.` are left out.
    pub exclude_hidden: bool,
    /// The directory of templates.
    pub templates_path: Option<Vec<String>>,
}

/// A name of a Markdown file: it ends in `.md` and has something before
/// that.
pub open spec fn is_markdown_name(name: Seq<char>) -> bool {
    name.len() > 3 && text::ends_with(name, ".md"@)
}

/// A hidden name: it begins with `.`.
pub open spec fn is_hidden_name(name: Seq<char>) -> bool {
    name.len() > 0 && name[0] == '.'
}

impl VaultWalker {
    /// The model of the directory of templates.
    pub open spec fn templates(&self) -> Option<Seq<Seq<char>>> {
        match self.templates_path {
            Some(p) => Some(text::texts(p@)),
            None => None,
        }
    }

    /// True if the walk goes into the directory `dir`: not if hidden
    /// directories are left out and the name of `dir` is hidden; not if the
    /// templates are left out and `dir` is their directory.
    pub open spec fn goes_into(&self, dir: Seq<Seq<char>>) -> bool {
        &&& !(self.exclude_hidden && paths::file_name_of(dir) is Some && is_hidden_name(
            paths::file_name_of(dir)->0,
        ))
        &&& !(self.exclude_templates && self.templates() == Some(dir))
    }

    /// True if the walk hands out the file `file`: its name is that of a
    /// Markdown file, and the walk goes into every directory between the
    /// vault and the file.
    pub open spec fn reaches(&self, file: Seq<Seq<char>>) -> bool {
        &&& text::texts(self.vault@).is_prefix_of(file)
        &&& self.vault@.len() < file.len()
        &&& paths::file_name_of(file) is Some
        &&& is_markdown_name(paths::file_name_of(file)->0)
        &&& forall|n: int| self.vault@.len() < n < file.len() ==> self.goes_into(#[trigger] file.take(n))
    }

    /// The files that the walk hands out, of `files`, in their order.
    pub open spec fn reached(&self, files: Seq<Seq<Seq<char>>>) -> Seq<Seq<Seq<char>>>
        decreases files.len(),
    {
        if files.len() == 0 {
            Seq::empty()
        } else if self.reaches(files.last()) {
            self.reached(files.drop_last()).push(files.last())
        } else {
            self.reached(files.drop_last())
        }
    }

    /// A walk of `vault` that leaves out hidden directories.
    pub fn new(vault: &Vec<String>) -> (r: Self)
        ensures
            text::texts(r.vault@) == text::texts(vault@),
            !r.exclude_templates,
            r.exclude_hidden,
            r.templates_path is None,
    {
        VaultWalker {
            vault: paths::copy(vault),
            exclude_templates: false,
            exclude_hidden: true,
            templates_path: None,
        }
    }

    /// The walk, leaving out the directory of templates.
    pub fn exclude_templates(self, templates_path: &Vec<String>) -> (r: Self)
        ensures
            r.vault == self.vault,
            r.exclude_hidden == self.exclude_hidden,
            r.exclude_templates,
            r.templates() == Some(text::texts(templates_path@)),
    {
        VaultWalker {
            vault: self.vault,
            exclude_templates: true,
            exclude_hidden: self.exclude_hidden,
            templates_path: Some(paths::copy(templates_path)),
        }
    }

    /// The walk, leaving out hidden directories or not.
    pub fn exclude_hidden(self, exclude: bool) -> (r: Self)
        ensures
            r.vault == self.vault,
            r.exclude_hidden == exclude,
            r.exclude_templates == self.exclude_templates,
            r.templates_path == self.templates_path,
    {
        VaultWalker {
            vault: self.vault,
            exclude_templates: self.exclude_templates,
            exclude_hidden: exclude,
            templates_path: self.templates_path,
        }
    }

    /// True if the walk goes into the directory `dir`.
    pub fn enters(&self, dir: &Vec<String>) -> (r: bool)
        ensures
            r == self.goes_into(text::texts(dir@)),
    {
        if self.exclude_hidden {
            match paths::file_name(dir) {
                Some(name) => {
                    let chars = text::chars_of(name.as_str());
                    if chars.len() > 0 && chars[0] == '.' {
                        return false;
                    }
                },
                None => {},
            }
        }
        if self.exclude_templates {
            match &self.templates_path {
                Some(t) => {
                    if same_path(dir, t) {
                        return false;
                    }
                },
                None => {},
            }
        }
        true
    }

    /// True if the walk hands out the file `file`.
    pub fn visits(&self, file: &Vec<String>) -> (r: bool)
        ensures
            r == self.reaches(text::texts(file@)),
    {
        let ghost f = text::texts(file@);
        if !paths::starts_with(file, &self.vault) || self.vault.len() >= file.len() {
            return false;
        }
        let name = match paths::file_name(file) {
            Some(n) => n,
            None => {
                return false;
            },
        };
        let chars = text::chars_of(name.as_str());
        let suffix = text::chars_of(".md");
        proof {
            reveal_strlit(".md");
        }
        if chars.len() <= 3 || !text::has_suffix(&chars, &suffix) {
            return false;
        }
        let mut n: usize = self.vault.len() + 1;
        while n < file.len()
            invariant
                self.vault@.len() < n <= file@.len(),
                f == text::texts(file@),
                forall|m: int| self.vault@.len() < m < n ==> self.goes_into(#[trigger] f.take(m)),
            decreases file.len() - n,
        {
            let dir = paths::head(file, n);
            if !self.enters(&dir) {
                return false;
            }
            n += 1;
        }
        true
    }

    /// The files that the walk hands out, of the files `files` of the vault,
    /// in their order.
    pub fn walk(&self, files: &Vec<Vec<String>>) -> (r: Vec<Vec<String>>)
        ensures
            path_views(r@) == self.reached(path_views(files@)),
    {
        let mut out: Vec<Vec<String>> = Vec::new();
        let mut i: usize = 0;
        assert(path_views(files@).take(0) == Seq::<Seq<Seq<char>>>::empty());
        assert(path_views(out@) == Seq::<Seq<Seq<char>>>::empty());
        while i < files.len()
            invariant
                i <= files.len(),
                path_views(out@) == self.reached(path_views(files@).take(i as int)),
            decreases files.len() - i,
        {
            let ghost before = path_views(files@).take(i as int);
            let ghost now = path_views(files@).take(i + 1);
            let ghost old_out = path_views(out@);
            proof {
                assert(now.drop_last() == before);
                assert(now.last() == text::texts(files@[i as int]@));
            }
            if self.visits(&files[i]) {
                let copy = paths::copy(&files[i]);
                out.push(copy);
                assert(path_views(out@) == old_out.push(text::texts(files@[i as int]@)));
            }
            i += 1;
        }
        assert(path_views(files@).take(files.len() as int) == path_views(files@));
        out
    }
}

/// What a list of paths stands for.
pub open spec fn path_views(list: Seq<Vec<String>>) -> Seq<Seq<Seq<char>>> {
    list.map_values(|p: Vec<String>| text::texts(p@))
}

/// True if the two paths have the same components.
pub fn same_path(a: &Vec<String>, b: &Vec<String>) -> (r: bool)
    ensures
        r == (text::texts(a@) == text::texts(b@)),
{
    if a.len() != b.len() {
        return false;
    }
    let r = paths::starts_with(a, b);
    proof {
        if r {
            assert(text::texts(a@).subrange(0, a@.len() as int) == text::texts(a@));
            assert(text::texts(a@) =~= text::texts(b@));
        }
    }
    r
}

} // verus!
