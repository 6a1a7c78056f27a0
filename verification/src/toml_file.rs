//! Editing a TOML settings file of a mod by dotted keys
//! (`"client.quickEnableRendering"`: table `client`, key
//! `quickEnableRendering`), its layout and comments kept: each step is done
//! by `toml_edit` on the file's text; which steps, in which order, and when
//! the edit is refused, is decided here.

use vstd::prelude::*;

use crate::json::{dotted_parts, texts};
use crate::text::split_on;

use toml_edit::{DocumentMut, Item, Value};

verus! {

/// A value to write: a string, an integer, a float (as its TOML text) or a
/// boolean.
#[derive(Clone, Debug)]
pub enum TomlScalar {
    Str(String),
    Integer(i64),
    Float(String),
    Boolean(bool),
}

pub enum TomlScalarV {
    Str(Seq<char>),
    Integer(i64),
    Float(Seq<char>),
    Boolean(bool),
}

impl View for TomlScalar {
    type V = TomlScalarV;

    open spec fn view(&self) -> TomlScalarV {
        match self {
            TomlScalar::Str(s) => TomlScalarV::Str(s@),
            TomlScalar::Integer(i) => TomlScalarV::Integer(*i),
            TomlScalar::Float(t) => TomlScalarV::Float(t@),
            TomlScalar::Boolean(b) => TomlScalarV::Boolean(*b),
        }
    }
}

/// A setting of the presets: a value TOML can hold, or one it cannot
/// (described).
#[derive(Clone, Debug)]
pub enum TomlSetting {
    Scalar(TomlScalar),
    Unsupported(String),
}

pub enum TomlSettingV {
    Scalar(TomlScalarV),
    Unsupported(Seq<char>),
}

impl View for TomlSetting {
    type V = TomlSettingV;

    open spec fn view(&self) -> TomlSettingV {
        match self {
            TomlSetting::Scalar(v) => TomlSettingV::Scalar(v@),
            TomlSetting::Unsupported(w) => TomlSettingV::Unsupported(w@),
        }
    }
}

/// What stands at a key of a table: nothing, a table, a value (inline
/// tables and arrays included), or something else (an array of tables).
#[derive(Clone, Copy, Debug, PartialEq, Eq)]
pub enum TomlKind {
    Missing,
    Table,
    Value,
    Other,
}

/// Why an edit was refused.
#[derive(Clone, Debug, PartialEq, Eq)]
pub enum TomlEditError {
    /// The file is not TOML.
    Unreadable,
    /// On the way to the key, something is not a table.
    NotATable(String),
    /// The value of the key cannot be written in TOML.
    Unsupported(String, String),
}

pub enum TomlEditErrorV {
    Unreadable,
    NotATable(Seq<char>),
    Unsupported(Seq<char>, Seq<char>),
}

impl View for TomlEditError {
    type V = TomlEditErrorV;

    open spec fn view(&self) -> TomlEditErrorV {
        match self {
            TomlEditError::Unreadable => TomlEditErrorV::Unreadable,
            TomlEditError::NotATable(k) => TomlEditErrorV::NotATable(k@),
            TomlEditError::Unsupported(k, w) => TomlEditErrorV::Unsupported(k@, w@),
        }
    }
}

impl TomlEditError {
    /// The message shown.
    pub fn message(&self) -> (r: String)
        ensures
            r@ == match self@ {
                TomlEditErrorV::Unreadable => "TOML existant illisible"@,
                TomlEditErrorV::NotATable(k) => k + " : pas une table"@,
                TomlEditErrorV::Unsupported(k, w) => k + " : type non pris en charge ("@ + w + ")"@,
            },
    {
        match self {
            TomlEditError::Unreadable => "TOML existant illisible".to_owned(),
            TomlEditError::NotATable(k) => {
                let mut r = k.clone();
                r.append(" : pas une table");
                r
            },
            TomlEditError::Unsupported(k, w) => {
                let mut r = k.clone();
                r.append(" : type non pris en charge (");
                r.append(w.as_str());
                r.append(")");
                r
            },
        }
    }
}

// ─── What toml_edit does ────────────────────────────────────────────────────

/// Whether the text is a TOML document (`DocumentMut`).
pub uninterp spec fn toml_parses(text: Seq<char>) -> bool;

/// `text.parse::<DocumentMut>().is_ok()`. Trusted: the result is
/// only named (`toml_parses`).
#[verifier::external_body]
fn toml_parses_exec(text: &str) -> (r: bool)
    ensures
        r == toml_parses(text@),
{
    text.parse::<DocumentMut>().is_ok()
}

/// The document of `text` as toml_edit prints it back.
pub uninterp spec fn toml_printed(text: Seq<char>) -> Seq<char>;

/// `DocumentMut` parsed from `text` (empty if it is not TOML),
/// then `to_string`. Trusted: the result is only named (`toml_printed`).
#[verifier::external_body]
fn toml_reprint(text: &str) -> (r: String)
    ensures
        r@ == toml_printed(text@),
{
    text.parse::<DocumentMut>().unwrap_or_default().to_string()
}

/// What stands at `key` of the table `parent` leads to, in `text`.
pub uninterp spec fn toml_kind_at(text: Seq<char>, parent: Seq<Seq<char>>, key: Seq<char>) -> TomlKind;

/// The document of `text` parsed by toml_edit, `Table::get` followed along
/// `parent` through tables (`Item::as_table`), then at `key`; the item's
/// variant told apart. Trusted: the result is only named (`toml_kind_at`).
#[verifier::external_body]
fn toml_kind(text: &str, parent: &Vec<String>, key: &str) -> (k: TomlKind)
    ensures
        k == toml_kind_at(text@, texts(parent@), key@),
{
    let doc: DocumentMut = text.parse().unwrap_or_default();
    let t = parent.iter().try_fold(doc.as_table(), |t, p| t.get(p)?.as_table());
    match t.and_then(|t| t.get(key)) {
        Some(Item::Table(_)) => TomlKind::Table,
        Some(Item::Value(_)) => TomlKind::Value,
        Some(Item::ArrayOfTables(_)) => TomlKind::Other,
        Some(Item::None) | None => TomlKind::Missing,
    }
}

/// `text` with an empty table inserted at `key` of the table `parent`
/// leads to.
pub uninterp spec fn toml_with_table(text: Seq<char>, parent: Seq<Seq<char>>, key: Seq<char>) -> Seq<char>;

/// toml_edit: `Table::insert(key, Item::Table(Table::new()))` in the table
/// `parent` leads to, then `to_string`. Trusted: the result is only named
/// (`toml_with_table`).
#[verifier::external_body]
fn toml_insert_table(text: &str, parent: &Vec<String>, key: &str) -> (r: String)
    ensures
        r@ == toml_with_table(text@, texts(parent@), key@),
{
    let mut doc: DocumentMut = text.parse().unwrap_or_default();
    if let Some(t) = parent.iter().try_fold(doc.as_table_mut(), |t, p| t.get_mut(p)?.as_table_mut()) {
        t.insert(key, Item::Table(toml_edit::Table::new()));
    }
    doc.to_string()
}

/// `text` with `v` inserted at `key` of the table `parent` leads to (in
/// place of what stood there).
pub uninterp spec fn toml_with_value(text: Seq<char>, parent: Seq<Seq<char>>, key: Seq<char>, v: TomlScalarV) -> Seq<char>;

/// toml_edit: `Table::insert(key, toml_edit::value(v))` in the table
/// `parent` leads to, then `to_string`; a float is parsed from its text
/// (`toml_edit::Value::from_str`). Trusted: the result is only named
/// (`toml_with_value`).
#[verifier::external_body]
fn toml_insert_value(text: &str, parent: &Vec<String>, key: &str, v: &TomlScalar) -> (r: String)
    ensures
        r@ == toml_with_value(text@, texts(parent@), key@, v@),
{
    let mut doc: DocumentMut = text.parse().unwrap_or_default();
    let new: Value = match v {
        TomlScalar::Str(s) => s.as_str().into(),
        TomlScalar::Integer(i) => (*i).into(),
        TomlScalar::Float(t) => t.parse().unwrap_or_else(|_| t.as_str().into()),
        TomlScalar::Boolean(b) => (*b).into(),
    };
    if let Some(t) = parent.iter().try_fold(doc.as_table_mut(), |t, p| t.get_mut(p)?.as_table_mut()) {
        t.insert(key, toml_edit::value(new));
    }
    doc.to_string()
}

/// `text` with the value at `key` of the table `parent` leads to replaced
/// by `v`, its decor (spaces and comments around it) kept.
pub uninterp spec fn toml_with_replaced(text: Seq<char>, parent: Seq<Seq<char>>, key: Seq<char>, v: TomlScalarV) -> Seq<char>;

/// toml_edit: the value at `key` (`Item::as_value_mut`) replaced by `v`
/// with its old `decor` put back, then `to_string`. Trusted: the result is
/// only named (`toml_with_replaced`).
#[verifier::external_body]
fn toml_replace_value(text: &str, parent: &Vec<String>, key: &str, v: &TomlScalar) -> (r: String)
    ensures
        r@ == toml_with_replaced(text@, texts(parent@), key@, v@),
{
    let mut doc: DocumentMut = text.parse().unwrap_or_default();
    let new: Value = match v {
        TomlScalar::Str(s) => s.as_str().into(),
        TomlScalar::Integer(i) => (*i).into(),
        TomlScalar::Float(t) => t.parse().unwrap_or_else(|_| t.as_str().into()),
        TomlScalar::Boolean(b) => (*b).into(),
    };
    let t = parent.iter().try_fold(doc.as_table_mut(), |t, p| t.get_mut(p)?.as_table_mut());
    if let Some(old) = t.and_then(|t| t.get_mut(key)?.as_value_mut()) {
        let decor = old.decor().clone();
        *old = new;
        *old.decor_mut() = decor;
    }
    doc.to_string()
}

/// `text` with the top-level `key` set to the boolean `value`.
pub uninterp spec fn toml_with_top_bool(text: Seq<char>, key: Seq<char>, value: bool) -> Seq<char>;

/// toml_edit: `doc[key] = toml_edit::value(value)` on the document of
/// `text` (empty if it is not TOML), then `to_string`. Trusted: the result
/// is only named (`toml_with_top_bool`).
#[verifier::external_body]
fn toml_set_top_bool(text: &str, key: &str, value: bool) -> (r: String)
    ensures
        r@ == toml_with_top_bool(text@, key@, value),
{
    let mut doc: DocumentMut = text.parse().unwrap_or_default();
    doc[key] = toml_edit::value(value);
    doc.to_string()
}

// ─── The edit ───────────────────────────────────────────────────────────────

/// The tables on the way to the last part of `parts`, from the `i`-th on,
/// opened: created empty where missing; `None` when one is something else
/// than a table.
pub open spec fn open_tables(text: Seq<char>, parts: Seq<Seq<char>>, i: int) -> Option<Seq<char>>
    decreases parts.len() - i,
{
    if i < 0 || i + 1 >= parts.len() {
        Some(text)
    } else {
        let parent = parts.take(i);
        match toml_kind_at(text, parent, parts[i]) {
            TomlKind::Missing => open_tables(toml_with_table(text, parent, parts[i]), parts, i + 1),
            TomlKind::Table => open_tables(text, parts, i + 1),
            _ => None,
        }
    }
}

/// `key` set to `setting` in `text`: the tables on the way opened (refused
/// when one is not a table), then a value already there replaced with its
/// decor kept, or else the value inserted; a value TOML cannot hold refused.
pub open spec fn spec_edit_key(text: Seq<char>, key: Seq<char>, setting: TomlSettingV) -> Result<Seq<char>, TomlEditErrorV> {
    let parts = split_on(key, '.');
    match open_tables(text, parts, 0) {
        None => Err(TomlEditErrorV::NotATable(key)),
        Some(t) => match setting {
            TomlSettingV::Unsupported(w) => Err(TomlEditErrorV::Unsupported(key, w)),
            TomlSettingV::Scalar(v) => {
                let parent = parts.drop_last();
                let last = parts.last();
                Ok(
                    if toml_kind_at(t, parent, last) == TomlKind::Value {
                        toml_with_replaced(t, parent, last, v)
                    } else {
                        toml_with_value(t, parent, last, v)
                    },
                )
            },
        },
    }
}

/// The settings of `set`, in order, written in the TOML text (printed back
/// by toml_edit); the first refusal stops the edit.
pub open spec fn spec_edit_toml(text: Seq<char>, set: Seq<(String, TomlSetting)>) -> Result<Seq<char>, TomlEditErrorV>
    decreases set.len(),
{
    if set.len() == 0 {
        if toml_parses(text) {
            Ok(toml_printed(text))
        } else {
            Err(TomlEditErrorV::Unreadable)
        }
    } else {
        match spec_edit_toml(text, set.drop_last()) {
            Ok(t) => spec_edit_key(t, set.last().0@, set.last().1@),
            Err(e) => Err(e),
        }
    }
}

/// See `spec_edit_key`.
fn edit_key(text: String, key: &str, setting: &TomlSetting) -> (r: Result<String, TomlEditError>)
    ensures
        match spec_edit_key(text@, key@, setting@) {
            Ok(t) => r matches Ok(s) && s@ == t,
            Err(e) => r matches Err(x) && x@ == e,
        },
{
    let parts = dotted_parts(key);
    let ghost ps = texts(parts@);
    let mut cur = text;
    let mut parent: Vec<String> = Vec::new();
    let mut i: usize = 0;
    while i < parts.len() - 1
        invariant
            ps == texts(parts@),
            ps == split_on(key@, '.'),
            parts@.len() >= 1,
            i + 1 <= parts@.len(),
            texts(parent@) == ps.take(i as int),
            parent@.len() == i,
            open_tables(text@, ps, 0) == open_tables(cur@, ps, i as int),
        decreases parts.len() - i,
    {
        assert(ps[i as int] == parts@[i as int]@);
        match toml_kind(cur.as_str(), &parent, parts[i].as_str()) {
            TomlKind::Missing => {
                cur = toml_insert_table(cur.as_str(), &parent, parts[i].as_str());
            },
            TomlKind::Table => {},
            _ => {
                return Err(TomlEditError::NotATable(key.to_owned()));
            },
        }
        let ghost before = parent@;
        let piece = parts[i].clone();
        parent.push(piece);
        assert forall|k: int| 0 <= k < i + 1 implies (#[trigger] parent@[k])@ == ps.take(i + 1)[k] by {
            if k < i {
                assert(parent@[k] == before[k]);
                assert(texts(before)[k] == before[k]@);
            }
        }
        assert(texts(parent@) =~= ps.take(i + 1));
        i = i + 1;
    }
    assert(texts(parent@) =~= ps.drop_last());
    assert(ps.last() == parts@[i as int]@);
    match setting {
        TomlSetting::Unsupported(w) => Err(TomlEditError::Unsupported(key.to_owned(), w.clone())),
        TomlSetting::Scalar(v) => {
            let last = parts[i].as_str();
            let kind = toml_kind(cur.as_str(), &parent, last);
            if let TomlKind::Value = kind {
                Ok(toml_replace_value(cur.as_str(), &parent, last, v))
            } else {
                Ok(toml_insert_value(cur.as_str(), &parent, last, v))
            }
        },
    }
}

/// A TOML settings file with the settings of `set` written, in order, by
/// dotted keys (see `spec_edit_toml`).
pub fn edit_toml(text: &str, set: &Vec<(String, TomlSetting)>) -> (r: Result<String, TomlEditError>)
    ensures
        match spec_edit_toml(text@, set@) {
            Ok(t) => r matches Ok(s) && s@ == t,
            Err(e) => r matches Err(x) && x@ == e,
        },
{
    if !toml_parses_exec(text) {
        proof {
            assert(set@.take(0) =~= Seq::<(String, TomlSetting)>::empty());
            lemma_edit_stops(text@, set@, 0);
        }
        return Err(TomlEditError::Unreadable);
    }
    let mut cur = toml_reprint(text);
    let mut i: usize = 0;
    while i < set.len()
        invariant
            i <= set@.len(),
            spec_edit_toml(text@, set@.take(i as int)) == Ok::<Seq<char>, TomlEditErrorV>(cur@),
        decreases set.len() - i,
    {
        let ghost t = set@.take(i + 1);
        assert(t.drop_last() =~= set@.take(i as int));
        assert(t.last() == set@[i as int]);
        match edit_key(cur, set[i].0.as_str(), &set[i].1) {
            Ok(next) => {
                cur = next;
            },
            Err(e) => {
                proof {
                    lemma_edit_stops(text@, set@, i as int + 1);
                }
                return Err(e);
            },
        }
        i = i + 1;
    }
    assert(set@.take(set@.len() as int) =~= set@);
    Ok(cur)
}

/// Once the edit of a prefix of `set` is refused, the whole edit is, with
/// the same refusal.
proof fn lemma_edit_stops(text: Seq<char>, set: Seq<(String, TomlSetting)>, k: int)
    requires
        0 <= k <= set.len(),
        spec_edit_toml(text, set.take(k)) is Err,
    ensures
        spec_edit_toml(text, set) == spec_edit_toml(text, set.take(k)),
    decreases set.len() - k,
{
    if k < set.len() {
        let t = set.take(k + 1);
        assert(t.drop_last() =~= set.take(k));
        lemma_edit_stops(text, set, k + 1);
    } else {
        assert(set.take(k) =~= set);
    }
}

/// NeoForge's loading window turned off in `config/fml.toml`: its
/// `earlyWindowControl` set to `false` (the launcher shows the progress).
pub fn early_window_off_text(fml: &str) -> (r: String)
    ensures
        r@ == toml_with_top_bool(fml@, "earlyWindowControl"@, false),
{
    toml_set_top_bool(fml, "earlyWindowControl", false)
}

} // verus!
