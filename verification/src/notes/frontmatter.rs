//! The front matter of a note: the block of YAML between two `---` lines at
//! the head of the document.

use crate::text;
use serde_yaml::{Mapping, Value};
use vstd::prelude::*;

verus! {

/// `serde_yaml::Value`: a YAML value. Nothing is known of what is inside.
#[verifier::external_type_specification]
#[verifier::external_body]
pub struct ExValue(serde_yaml::Value);

/// `serde_yaml::Error`: what the YAML parser or writer complains of.
#[verifier::external_type_specification]
#[verifier::external_body]
pub struct ExYamlError(serde_yaml::Error);

/// A key of the front matter, or an element of a list in it: a text, or any
/// other YAML value, which is carried along unread.
#[derive(Debug)]
pub enum Scalar {
    Text(String),
    Other(Value),
}

/// The value of an entry of the front matter: a text, a list, or any other
/// YAML value, which is carried along unread.
#[derive(Debug)]
pub enum Field {
    Text(String),
    List(Vec<Scalar>),
    Other(Value),
}

/// One entry of the front matter.
#[derive(Debug)]
pub struct Entry {
    pub key: Scalar,
    pub value: Field,
}

/// The front matter of a note: its entries in the order of the document.
#[derive(Debug)]
pub struct Frontmatter {
    pub entries: Vec<Entry>,
}

/// What a `Scalar` stands for.
pub enum ScalarView {
    Text(Seq<char>),
    Other(Value),
}

/// What a `Field` stands for.
pub enum FieldView {
    Text(Seq<char>),
    List(Seq<ScalarView>),
    Other(Value),
}

/// What an `Entry` stands for.
pub struct EntryView {
    pub key: ScalarView,
    pub value: FieldView,
}

impl View for Scalar {
    type V = ScalarView;

    open spec fn view(&self) -> ScalarView {
        match self {
            Scalar::Text(t) => ScalarView::Text(t@),
            Scalar::Other(v) => ScalarView::Other(*v),
        }
    }
}

/// What a list of scalars stands for.
pub open spec fn scalar_views(items: Seq<Scalar>) -> Seq<ScalarView> {
    items.map_values(|s: Scalar| s@)
}

impl View for Field {
    type V = FieldView;

    open spec fn view(&self) -> FieldView {
        match self {
            Field::Text(t) => FieldView::Text(t@),
            Field::List(items) => FieldView::List(scalar_views(items@)),
            Field::Other(v) => FieldView::Other(*v),
        }
    }
}

impl View for Entry {
    type V = EntryView;

    open spec fn view(&self) -> EntryView {
        EntryView { key: self.key@, value: self.value@ }
    }
}

/// What a list of entries stands for.
pub open spec fn entry_views(entries: Seq<Entry>) -> Seq<EntryView> {
    entries.map_values(|e: Entry| e@)
}

impl View for Frontmatter {
    type V = Seq<EntryView>;

    open spec fn view(&self) -> Seq<EntryView> {
        entry_views(self.entries@)
    }
}

/// The entries that the YAML parser reads from a block of text, in the order
/// of the text; `None` where it rejects the block.
pub uninterp spec fn yaml_entries(raw: Seq<char>) -> Option<Seq<EntryView>>;

/// The text that the YAML writer gives for a list of entries; `None` where it
/// fails.
pub uninterp spec fn yaml_text(entries: Seq<EntryView>) -> Option<Seq<char>>;

/// Parses a block of YAML as a mapping with `serde_yaml::from_str` and hands
/// its entries out in the mapping's order. What the parser gives depends on
/// the text alone; nothing more is claimed of it.
#[verifier::external_body]
pub(crate) fn parse_yaml(raw: &str) -> (r: Result<Vec<Entry>, serde_yaml::Error>)
    ensures
        match r {
            Ok(es) => yaml_entries(raw@) == Some(entry_views(es@)),
            Err(_) => yaml_entries(raw@) is None,
        },
{
    let map = serde_yaml::from_str::<Mapping>(raw)?;
    let scalar = |v: Value| match v {
        Value::String(s) => Scalar::Text(s),
        other => Scalar::Other(other),
    };
    let field = |v: Value| match v {
        Value::String(s) => Field::Text(s),
        Value::Sequence(items) => Field::List(items.into_iter().map(scalar).collect()),
        other => Field::Other(other),
    };
    Ok(map.into_iter().map(|(k, v)| Entry { key: scalar(k), value: field(v) }).collect())
}

/// Collects the entries into a mapping and writes it with
/// `serde_yaml::to_string`. What the writer gives depends on the entries
/// alone; nothing more is claimed of it.
#[verifier::external_body]
pub(crate) fn write_yaml(entries: &Vec<Entry>) -> (r: Result<String, serde_yaml::Error>)
    ensures
        match r {
            Ok(s) => yaml_text(entry_views(entries@)) == Some(s@),
            Err(_) => yaml_text(entry_views(entries@)) is None,
        },
{
    let scalar = |s: &Scalar| match s {
        Scalar::Text(t) => Value::String(t.clone()),
        Scalar::Other(v) => v.clone(),
    };
    let field = |f: &Field| match f {
        Field::Text(t) => Value::String(t.clone()),
        Field::List(items) => Value::Sequence(items.iter().map(scalar).collect()),
        Field::Other(v) => v.clone(),
    };
    let map: Mapping = entries.iter().map(|e| (scalar(&e.key), field(&e.value))).collect();
    serde_yaml::to_string(&map)
}

/// The YAML of a front matter block could not be read or written.
#[derive(Debug)]
pub struct YamlError {
    pub cause: serde_yaml::Error,
}

/// The line that opens the front matter, without its line end.
pub open spec fn fence() -> Seq<char> {
    seq!['-', '-', '-']
}

/// A line end and the fence after it: what closes the front matter.
pub open spec fn closing_fence() -> Seq<char> {
    seq!['\n', '-', '-', '-']
}

/// The YAML block and the body of a document that begins with a fence and
/// holds a closing one: the block runs from after the opening fence through
/// the line end before the closing fence, the body begins right after the
/// closing fence. `None` for any other document.
pub open spec fn split_document(t: Seq<char>) -> Option<(Seq<char>, Seq<char>)> {
    if text::starts_with(t, fence()) {
        let rest = t.skip(3);
        match text::find(rest, closing_fence()) {
            Some(pos) => Some((rest.take(pos + 1), rest.skip(pos + 4))),
            None => None,
        }
    } else {
        None
    }
}

/// The position of the first entry whose key is the text `key`, or the
/// number of entries if there is none.
pub open spec fn key_index(entries: Seq<EntryView>, key: Seq<char>) -> int
    decreases entries.len(),
{
    if entries.len() == 0 || entries[0].key == ScalarView::Text(key) {
        0
    } else {
        1 + key_index(entries.drop_first(), key)
    }
}

/// The value of the first entry whose key is the text `key`.
pub open spec fn lookup(entries: Seq<EntryView>, key: Seq<char>) -> Option<FieldView> {
    let i = key_index(entries, key);
    if 0 <= i < entries.len() {
        Some(entries[i].value)
    } else {
        None
    }
}

/// The entries with `value` under `key`: in the place of the first entry of
/// that key if there is one, else at the end.
pub open spec fn with_entry(entries: Seq<EntryView>, key: Seq<char>, value: FieldView) -> Seq<
    EntryView,
> {
    let i = key_index(entries, key);
    let e = EntryView { key: ScalarView::Text(key), value };
    if 0 <= i < entries.len() {
        entries.update(i, e)
    } else {
        entries.push(e)
    }
}

/// The first entry with the key is where `key_index` points.
pub proof fn lemma_key_index(entries: Seq<EntryView>, key: Seq<char>, k: int)
    requires
        0 <= k <= entries.len(),
        forall|j: int| 0 <= j < k ==> (#[trigger] entries[j]).key != ScalarView::Text(key),
        k < entries.len() ==> entries[k].key == ScalarView::Text(key),
    ensures
        key_index(entries, key) == k,
    decreases entries.len(),
{
    if k > 0 {
        let t = entries.drop_first();
        assert forall|j: int| 0 <= j < k - 1 implies (#[trigger] t[j]).key != ScalarView::Text(
            key,
        ) by {
            assert(t[j] == entries[j + 1]);
        }
        lemma_key_index(t, key, k - 1);
    }
}

/// Where `key_index` points no entry before has the key, and the entry
/// there, if there is one, has it.
pub proof fn lemma_key_index_bounds(entries: Seq<EntryView>, key: Seq<char>)
    ensures
        0 <= key_index(entries, key) <= entries.len(),
        forall|j: int|
            0 <= j < key_index(entries, key) ==> (#[trigger] entries[j]).key != ScalarView::Text(
                key,
            ),
        key_index(entries, key) < entries.len() ==> entries[key_index(entries, key)].key
            == ScalarView::Text(key),
    decreases entries.len(),
{
    if entries.len() == 0 || entries[0].key == ScalarView::Text(key) {
    } else {
        let t = entries.drop_first();
        lemma_key_index_bounds(t, key);
        assert forall|j: int| 0 <= j < key_index(entries, key) implies (
        #[trigger] entries[j]).key != ScalarView::Text(key) by {
            if j > 0 {
                assert(entries[j] == t[j - 1]);
            }
        }
    }
}

/// The list under `key`. A text under the key counts as the list of that
/// one text. The list is empty if the key is missing or holds any other
/// value.
pub open spec fn list_under(entries: Seq<EntryView>, key: Seq<char>) -> Seq<ScalarView> {
    match lookup(entries, key) {
        Some(FieldView::List(items)) => items,
        Some(FieldView::Text(t)) => seq![ScalarView::Text(t)],
        _ => Seq::empty(),
    }
}

/// The entries with `item` added at the end of the list under `key`. What
/// the list held before stays, and so does a text that stood in its place;
/// a value that is neither a list nor a text gives way to the list.
pub open spec fn with_item(entries: Seq<EntryView>, key: Seq<char>, item: ScalarView) -> Seq<
    EntryView,
> {
    with_entry(entries, key, FieldView::List(list_under(entries, key).push(item)))
}

/// Putting a value under a key changes what is under that key and nothing
/// else: every other entry stays where it is and as it is.
pub proof fn lemma_with_entry(entries: Seq<EntryView>, key: Seq<char>, value: FieldView)
    ensures
        lookup(with_entry(entries, key, value), key) == Some(value),
        forall|other: Seq<char>|
            other != key ==> #[trigger] lookup(with_entry(entries, key, value), other) == lookup(
                entries,
                other,
            ),
        with_entry(entries, key, value).len() >= entries.len(),
        forall|j: int|
            0 <= j < entries.len() && j != key_index(entries, key) ==> #[trigger] with_entry(
                entries,
                key,
                value,
            )[j] == entries[j],
{
    let i = key_index(entries, key);
    let after = with_entry(entries, key, value);
    lemma_key_index_bounds(entries, key);
    assert forall|j: int| 0 <= j < i implies (#[trigger] after[j]).key != ScalarView::Text(
        key,
    ) by {
        assert(after[j] == entries[j]);
    }
    lemma_key_index(after, key, i);
    assert forall|other: Seq<char>| other != key implies #[trigger] lookup(after, other)
        == lookup(entries, other) by {
        let m = key_index(entries, other);
        lemma_key_index_bounds(entries, other);
        assert(ScalarView::Text(key) != ScalarView::Text(other));
        if m < entries.len() {
            assert(m != i);
            assert forall|j: int| 0 <= j < m implies (#[trigger] after[j]).key
                != ScalarView::Text(other) by {
                if j != i {
                    assert(after[j] == entries[j]);
                }
            }
            assert(after[m] == entries[m]);
            lemma_key_index(after, other, m);
        } else {
            assert forall|j: int| 0 <= j < after.len() implies (#[trigger] after[j]).key
                != ScalarView::Text(other) by {
                if j != i {
                    assert(after[j] == entries[j]);
                }
            }
            lemma_key_index(after, other, after.len() as int);
        }
    }
}

/// True if the scalar is the text `key`.
pub fn scalar_is(s: &Scalar, key: &str) -> (r: bool)
    ensures
        r == (s@ == ScalarView::Text(key@)),
{
    match s {
        Scalar::Text(t) => {
            let owned = key.to_owned();
            *t == owned
        },
        Scalar::Other(_) => false,
    }
}

impl Frontmatter {
    /// A front matter without entries.
    pub fn new() -> (r: Self)
        ensures
            r@ == Seq::<EntryView>::empty(),
    {
        Frontmatter { entries: Vec::new() }
    }

    /// True if there is no entry.
    pub fn is_empty(&self) -> (r: bool)
        ensures
            r == (self@.len() == 0),
    {
        self.entries.len() == 0
    }

    /// Where the first entry stands whose key is the text `key`.
    pub fn position(&self, key: &str) -> (r: Option<usize>)
        ensures
            match r {
                Some(i) => i == key_index(self@, key@) && i < self.entries.len(),
                None => key_index(self@, key@) == self.entries.len(),
            },
    {
        let mut i: usize = 0;
        while i < self.entries.len()
            invariant
                i <= self.entries.len(),
                forall|j: int| 0 <= j < i ==> (#[trigger] self@[j]).key != ScalarView::Text(key@),
            decreases self.entries.len() - i,
        {
            if scalar_is(&self.entries[i].key, key) {
                proof {
                    lemma_key_index(self@, key@, i as int);
                }
                return Some(i);
            }
            i += 1;
        }
        proof {
            lemma_key_index(self@, key@, i as int);
        }
        None
    }

    /// The value of the first entry whose key is the text `key`.
    pub fn get(&self, key: &str) -> (r: Option<&Field>)
        ensures
            match r {
                Some(f) => lookup(self@, key@) == Some(f@),
                None => lookup(self@, key@) is None,
            },
    {
        match self.position(key) {
            Some(i) => Some(&self.entries[i].value),
            None => None,
        }
    }

    /// Puts `value` under `key`: in the place of the entry of that key if
    /// there is one, else at the end.
    pub fn insert(&mut self, key: String, value: Field)
        ensures
            final(self)@ == with_entry(old(self)@, key@, value@),
    {
        let found = self.position(key.as_str());
        let entry = Entry { key: Scalar::Text(key), value };
        match found {
            Some(i) => {
                self.entries.set(i, entry);
                assert(self@ =~= old(self)@.update(i as int, entry@));
            },
            None => {
                self.entries.push(entry);
                assert(self@ =~= old(self)@.push(entry@));
            },
        }
    }

    /// Adds `item` at the end of the list under `key`. If the key is
    /// missing, the list is made; a text under the key becomes the first
    /// element of the list; any other value gives way to the list.
    pub fn push_to_list(&mut self, key: &str, item: Scalar)
        ensures
            final(self)@ == with_item(old(self)@, key@, item@),
    {
        proof {
            lemma_key_index_bounds(self@, key@);
        }
        match self.position(key) {
            Some(i) => {
                let entry = self.entries.remove(i);
                let Entry { key: k, value } = entry;
                let mut items = match value {
                    Field::List(items) => items,
                    Field::Text(t) => {
                        let mut single: Vec<Scalar> = Vec::new();
                        let ghost shown = t@;
                        single.push(Scalar::Text(t));
                        assert(scalar_views(single@) =~= seq![ScalarView::Text(shown)]);
                        single
                    },
                    Field::Other(_) => Vec::new(),
                };
                let ghost before = scalar_views(items@);
                assert(before == list_under(old(self)@, key@));
                items.push(item);
                assert(scalar_views(items@) == before.push(item@));
                let renewed = Entry { key: k, value: Field::List(items) };
                self.entries.insert(i, renewed);
                assert(self@ =~= old(self)@.update(i as int, renewed@));
            },
            None => {
                let mut items: Vec<Scalar> = Vec::new();
                items.push(item);
                assert(scalar_views(items@) =~= Seq::<ScalarView>::empty().push(item@));
                let entry = Entry { key: Scalar::Text(key.to_owned()), value: Field::List(items) };
                self.entries.push(entry);
                assert(self@ =~= old(self)@.push(entry@));
            },
        }
    }

    /// Reads a front matter from a block of YAML. Fails if the YAML parser
    /// rejects the block.
    pub fn from_yaml(raw: &str) -> (r: Result<Frontmatter, YamlError>)
        ensures
            match yaml_entries(raw@) {
                Some(entries) => r matches Ok(fm) && fm@ == entries,
                None => r is Err,
            },
    {
        match parse_yaml(raw) {
            Ok(entries) => Ok(Frontmatter { entries }),
            Err(e) => Err(YamlError { cause: e }),
        }
    }

    /// The YAML text of the entries.
    pub fn to_yaml(&self) -> (r: Result<String, YamlError>)
        ensures
            match r {
                Ok(s) => yaml_text(self@) == Some(s@),
                Err(_) => yaml_text(self@) is None,
            },
    {
        match write_yaml(&self.entries) {
            Ok(s) => Ok(s),
            Err(e) => Err(YamlError { cause: e }),
        }
    }
}

/// The entries of `base` with those of `over` put in, one after the other:
/// an entry with a text key takes the place of the entry of that key, or
/// goes to the end if there is none; an entry with any other key goes to the
/// end.
pub open spec fn merged(base: Seq<EntryView>, over: Seq<EntryView>) -> Seq<EntryView>
    decreases over.len(),
{
    if over.len() == 0 {
        base
    } else {
        let before = merged(base, over.drop_last());
        match over.last().key {
            ScalarView::Text(k) => with_entry(before, k, over.last().value),
            ScalarView::Other(_) => before.push(over.last()),
        }
    }
}

/// Puts the entries of `override_map` into `base`: where both have an entry
/// of a key, that of `override_map` stays. Keys that are no text are not
/// compared: their entries go to the end, and of entries with the same
/// such key the YAML writer keeps the last.
pub fn merge(base: Frontmatter, override_map: Frontmatter) -> (r: Frontmatter)
    ensures
        r@ == merged(base@, override_map@),
{
    let ghost over = override_map@;
    let mut out = base;
    for e in it: override_map.entries
        invariant
            entry_views(it.seq()) == over,
            out@ == merged(base@, over.take(it.index() as int)),
    {
        let ghost before = out@;
        proof {
            assert(over.take(it.index() + 1).drop_last() == over.take(it.index() as int));
            assert(over.take(it.index() + 1).last() == e@);
        }
        let Entry { key, value } = e;
        match key {
            Scalar::Text(k) => {
                out.insert(k, value);
            },
            Scalar::Other(v) => {
                let entry = Entry { key: Scalar::Other(v), value };
                out.entries.push(entry);
                assert(out@ =~= before.push(entry@));
            },
        }
    }
    proof {
        assert(over.take(over.len() as int) == over);
    }
    out
}

/// The names and values of the variables of a template.
pub open spec fn var_views(vars: Seq<(String, String)>) -> Seq<(Seq<char>, Seq<char>)> {
    vars.map_values(|p: (String, String)| (p.0@, p.1@))
}

/// The placeholder of a variable: its name in double braces.
pub open spec fn placeholder(name: Seq<char>) -> Seq<char> {
    seq!['{', '{'] + name + seq!['}', '}']
}

/// The text with the value of each variable in place of its placeholder.
/// The variables are applied one after the other, in their order, each to
/// what the one before it left.
pub open spec fn render_text(s: Seq<char>, vars: Seq<(Seq<char>, Seq<char>)>) -> Seq<char>
    decreases vars.len(),
{
    if vars.len() == 0 {
        s
    } else {
        text::replace_all(
            render_text(s, vars.drop_last()),
            placeholder(vars.last().0),
            vars.last().1,
        )
    }
}

/// A text value rendered; any other value as it is.
pub open spec fn render_field(f: FieldView, vars: Seq<(Seq<char>, Seq<char>)>) -> FieldView {
    match f {
        FieldView::Text(t) => FieldView::Text(render_text(t, vars)),
        other => other,
    }
}

/// The entries with their text values rendered.
pub open spec fn render_entries(
    entries: Seq<EntryView>,
    vars: Seq<(Seq<char>, Seq<char>)>,
) -> Seq<EntryView> {
    entries.map_values(|e: EntryView| EntryView { key: e.key, value: render_field(e.value, vars) })
}

/// The characters of a text with each placeholder replaced.
pub fn render_chars(s: &Vec<char>, vars: &Vec<(String, String)>) -> (r: Vec<char>)
    ensures
        r@ == render_text(s@, var_views(vars@)),
{
    let mut r: Vec<char> = text::slice(s, 0, s.len());
    let mut i: usize = 0;
    assert(s@.subrange(0, s.len() as int) == s@);
    assert(var_views(vars@).take(0) == Seq::<(Seq<char>, Seq<char>)>::empty());
    while i < vars.len()
        invariant
            i <= vars.len(),
            r@ == render_text(s@, var_views(vars@).take(i as int)),
        decreases vars.len() - i,
    {
        let ghost before = var_views(vars@).take(i as int);
        let ghost now = var_views(vars@).take(i + 1);
        let name = text::chars_of(vars[i].0.as_str());
        let value = text::chars_of(vars[i].1.as_str());
        let mut pat: Vec<char> = vec!['{', '{'];
        let close: Vec<char> = vec!['}', '}'];
        text::append(&mut pat, &name);
        text::append(&mut pat, &close);
        proof {
            assert(now.drop_last() == before);
            assert(now.last() == (vars@[i as int].0@, vars@[i as int].1@));
            assert(pat@ =~= placeholder(name@));
        }
        r = text::replaced(&r, &pat, &value);
        i += 1;
    }
    assert(var_views(vars@).take(vars.len() as int) == var_views(vars@));
    r
}

/// The text with the value of each variable in place of its placeholder
/// `{{name}}`.
pub fn render_string(s: &str, vars: &Vec<(String, String)>) -> (r: String)
    ensures
        r@ == render_text(s@, var_views(vars@)),
{
    let chars = text::chars_of(s);
    let r = render_chars(&chars, vars);
    text::string_of(&r)
}

/// The front matter with each text value rendered. Keys, lists and other
/// values stay as they are.
pub fn render(m: Frontmatter, vars: &Vec<(String, String)>) -> (r: Frontmatter)
    ensures
        r@ == render_entries(m@, var_views(vars@)),
{
    let ghost whole = m@;
    let mut out: Vec<Entry> = Vec::new();
    for e in it: m.entries
        invariant
            entry_views(it.seq()) == whole,
            entry_views(out@) == render_entries(whole.take(it.index() as int), var_views(vars@)),
    {
        let ghost before = entry_views(out@);
        let Entry { key, value } = e;
        let value = match value {
            Field::Text(t) => Field::Text(render_string(t.as_str(), vars)),
            other => other,
        };
        let rendered = Entry { key, value };
        out.push(rendered);
        proof {
            assert(entry_views(out@) =~= before.push(rendered@));
            assert(whole[it.index() as int] == e@);
            assert(entry_views(out@) =~= render_entries(
                whole.take(it.index() + 1),
                var_views(vars@),
            ));
        }
    }
    proof {
        assert(whole.take(whole.len() as int) == whole);
    }
    Frontmatter { entries: out }
}

/// The text of a document with front matter: a fence line, the YAML, a
/// fence line, the body.
pub open spec fn document_text(yaml: Seq<char>, body: Seq<char>) -> Seq<char> {
    "---\n"@ + yaml + "---\n"@ + body
}

/// Puts a document together from the YAML of its front matter and its body.
pub fn document(yaml: &str, body: &str) -> (r: String)
    ensures
        r@ == document_text(yaml@, body@),
{
    let mut out = text::chars_of("---\n");
    text::append(&mut out, &text::chars_of(yaml));
    text::append(&mut out, &text::chars_of("---\n"));
    text::append(&mut out, &text::chars_of(body));
    assert(out@ =~= document_text(yaml@, body@));
    text::string_of(&out)
}

/// The text of a document whose body brings its own line end: a fence line,
/// the YAML, a fence, the body.
pub open spec fn document_text_tight(yaml: Seq<char>, body: Seq<char>) -> Seq<char> {
    "---\n"@ + yaml + "---"@ + body
}

/// Puts a document together from the YAML of its front matter and a body
/// that begins with the line end of the closing fence.
pub fn document_tight(yaml: &str, body: &str) -> (r: String)
    ensures
        r@ == document_text_tight(yaml@, body@),
{
    let mut out = text::chars_of("---\n");
    text::append(&mut out, &text::chars_of(yaml));
    text::append(&mut out, &text::chars_of("---"));
    text::append(&mut out, &text::chars_of(body));
    assert(out@ =~= document_text_tight(yaml@, body@));
    text::string_of(&out)
}

/// The front matter and the body of a document; `None` where the front
/// matter cannot be read.
pub open spec fn document_parts(document: Seq<char>) -> Option<(Seq<EntryView>, Seq<char>)> {
    match split_document(document) {
        Some((raw, rest)) => match yaml_entries(raw) {
            Some(entries) => Some((entries, rest)),
            None => None,
        },
        None => Some((Seq::empty(), document)),
    }
}

/// Reads a document: its front matter and its body. A document that does
/// not begin with `---`, or has no closing `---` at the start of a later
/// line, is all body and has no front matter. Fails if the YAML parser
/// rejects the block between the fences.
pub fn extract(document: &str) -> (r: Result<(Frontmatter, String), YamlError>)
    ensures
        match document_parts(document@) {
            Some((entries, rest)) => r matches Ok((fm, body)) && fm@ == entries && body@ == rest,
            None => r is Err,
        },
{
    let chars = text::chars_of(document);
    let open: Vec<char> = vec!['-', '-', '-'];
    let close: Vec<char> = vec!['\n', '-', '-', '-'];
    assert(open@ =~= fence() && close@ =~= closing_fence());
    if text::has_at(&chars, &open, 0) {
        let rest = text::slice(&chars, 3, chars.len());
        match text::find_in(&rest, &close) {
            Some(pos) => {
                let raw = text::string_of(&text::slice(&rest, 0, pos + 1));
                let body = text::string_of(&text::slice(&rest, pos + 4, rest.len()));
                return match Frontmatter::from_yaml(raw.as_str()) {
                    Ok(fm) => Ok((fm, body)),
                    Err(e) => Err(e),
                };
            },
            None => {},
        }
    }
    Ok((Frontmatter::new(), text::string_of(&chars)))
}

} // verus!
