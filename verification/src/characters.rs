//! Character files: one TOML table each.
use vstd::prelude::*;

use crate::cards::{
    atom_is_body, atom_plain_string, card, card_of, has_extension, is_body, keys_as_text, keys_text,
    law_plain_text, name_or_empty, name_or_empty_of, path_has_extension, plain_text,
};
use crate::markdown::{file_stem_title, stem_title};
use crate::merge::reversed;
use crate::pairs::{law_placed_is_found, lookup, placed};
use crate::paths::{
    file_name, file_name_of, joined, law_joined_name, name_extension, name_stem, opt_view,
    plain_name,
};
use crate::records::{says, ConversationItem, ItemView};
use crate::schema::{atoms, lemma_atom, opt_atom, Atom, ExtraMap, JsonAtom, JsonFloat};
use crate::text::{cat, eq_ascii, is_white, same_ascii, same_str};
use crate::Error;

verus! {

/// `toml::Value`, a TOML value.
#[verifier::external_type_specification]
#[verifier::external_body]
pub struct ExTomlValue(toml::Value);

/// What a TOML value holds. A float is its bits and its decimal notation, a
/// date its text.
pub enum Toml {
    Text(Seq<char>),
    Int(i64),
    Float(u64, Seq<char>),
    Bool(bool),
    Date(Seq<char>),
    Arr(Seq<Toml>),
    Table(Seq<(Seq<char>, Toml)>),
}

/// What a TOML value holds.
pub uninterp spec fn toml_of(v: toml::Value) -> Toml;

/// The top level of a TOML value.
pub enum TomlNode {
    Text(String),
    Int(i64),
    Float(JsonFloat),
    Bool(bool),
    Date(String),
    Array(Vec<toml::Value>),
    Table(Vec<(String, toml::Value)>),
}

/// What TOML values hold, in order.
pub open spec fn tomls(v: Seq<toml::Value>) -> Seq<Toml> {
    Seq::new(v.len(), |i: int| toml_of(v[i]))
}

/// What named TOML values hold, in order.
pub open spec fn toml_fields(v: Seq<(String, toml::Value)>) -> Seq<(Seq<char>, Toml)> {
    Seq::new(v.len(), |i: int| (v[i].0@, toml_of(v[i].1)))
}

/// What a value with this top level holds.
pub open spec fn node_toml(n: TomlNode) -> Toml {
    match n {
        TomlNode::Text(s) => Toml::Text(s@),
        TomlNode::Int(i) => Toml::Int(i),
        TomlNode::Float(f) => Toml::Float(f.bits, f.text@),
        TomlNode::Bool(b) => Toml::Bool(b),
        TomlNode::Date(s) => Toml::Date(s@),
        TomlNode::Array(v) => Toml::Arr(tomls(v@)),
        TomlNode::Table(v) => Toml::Table(toml_fields(v@)),
    }
}

/// Takes a `toml::Value` apart by its variant. A float gives its bits and
/// its `Display` text, a date its `Display` text.
#[verifier::external_body]
fn read_toml(v: toml::Value) -> (r: TomlNode)
    ensures
        node_toml(r) == toml_of(v),
{
    match v {
        toml::Value::String(s) => TomlNode::Text(s),
        toml::Value::Integer(i) => TomlNode::Int(i),
        toml::Value::Float(x) => TomlNode::Float(JsonFloat { bits: x.to_bits(), text: x.to_string() }),
        toml::Value::Boolean(b) => TomlNode::Bool(b),
        toml::Value::Datetime(d) => TomlNode::Date(d.to_string()),
        toml::Value::Array(a) => TomlNode::Array(a),
        toml::Value::Table(t) => TomlNode::Table(t.into_iter().collect()),
    }
}

/// The top-level table of a TOML document, or the text of the error.
pub uninterp spec fn toml_parsed(text: Seq<char>) -> Result<Seq<(Seq<char>, Toml)>, Seq<char>>;

/// What parsing gave.
pub open spec fn parsed_view(r: Result<Vec<(String, toml::Value)>, String>) -> Result<
    Seq<(Seq<char>, Toml)>,
    Seq<char>,
> {
    match r {
        Ok(v) => Ok(toml_fields(v@)),
        Err(e) => Err(e@),
    }
}

/// Calls `toml::from_str` for a table. The table, or the error's `Display`
/// text, is a function of the document alone.
#[verifier::external_body]
fn parse_table(text: &str) -> (r: Result<Vec<(String, toml::Value)>, String>)
    ensures
        parsed_view(r) == toml_parsed(text@),
{
    match toml::from_str::<toml::Table>(text) {
        Ok(table) => Ok(table.into_iter().collect()),
        Err(error) => Err(error.to_string()),
    }
}

/// A TOML value as a JSON value. Dates become text.
pub open spec fn toml_atom(t: Toml) -> Atom
    decreases t,
{
    match t {
        Toml::Text(s) => Atom::Text(s),
        Toml::Int(i) => Atom::I64(i),
        Toml::Float(bits, text) => Atom::F64(bits, text),
        Toml::Bool(b) => Atom::Bool(b),
        Toml::Date(s) => Atom::Text(s),
        Toml::Arr(v) => Atom::Arr(toml_atoms(v)),
        Toml::Table(fs) => Atom::Obj(toml_pairs(fs)),
    }
}

/// TOML values as JSON values.
pub open spec fn toml_atoms(v: Seq<Toml>) -> Seq<Atom>
    decreases v,
{
    if v.len() == 0 {
        Seq::empty()
    } else {
        toml_atoms(v.drop_last()).push(toml_atom(v[v.len() - 1]))
    }
}

/// A TOML table as the fields of a JSON object, in key order.
pub open spec fn toml_pairs(fs: Seq<(Seq<char>, Toml)>) -> Seq<(Seq<char>, Atom)>
    decreases fs,
{
    if fs.len() == 0 {
        Seq::empty()
    } else {
        placed(toml_pairs(fs.drop_last()), fs[fs.len() - 1].0, toml_atom(fs[fs.len() - 1].1))
    }
}

/// A TOML value as a JSON value.
pub fn toml_to_atom(v: toml::Value) -> (r: JsonAtom)
    ensures
        r@ == toml_atom(toml_of(v)),
    decreases toml_of(v),
{
    match read_toml(v) {
        TomlNode::Text(s) => JsonAtom::String(s),
        TomlNode::Int(i) => JsonAtom::I64(i),
        TomlNode::Float(f) => JsonAtom::F64(f),
        TomlNode::Bool(b) => JsonAtom::Bool(b),
        TomlNode::Date(s) => JsonAtom::String(s),
        TomlNode::Array(items) => {
            let ghost given = items@;
            let ghost all = tomls(items@);
            let total: usize = items.len();
            let mut rest = reversed(items);
            let mut out: Vec<JsonAtom> = Vec::new();
            let mut done: usize = 0;
            proof {
                assert(all.take(0) =~= Seq::<Toml>::empty());
                assert(given.skip(0) =~= given);
                assert(atoms(out@) =~= toml_atoms(all.take(0)));
            }
            while done < total
                invariant
                    total == given.len(),
                    done <= total,
                    all == tomls(given),
                    toml_of(v) == Toml::Arr(all),
                    rest@ == given.skip(done as int).reverse(),
                    atoms(out@) == toml_atoms(all.take(done as int)),
                decreases total - done,
            {
                if let Some(x) = rest.pop() {
                    proof {
                        assert(x == given[done as int]);
                        assert(all[done as int] == toml_of(x));
                        assert(rest@ =~= given.skip(done + 1).reverse());
                        assert(all.take(done + 1).drop_last() =~= all.take(done as int));
                        assert(decreases_to!(toml_of(v) => toml_of(v)->Arr_0));
                        assert(decreases_to!(all => all[done as int]));
                    }
                    let ghost held = out@;
                    let a = toml_to_atom(x);
                    out.push(a);
                    proof {
                        assert(atoms(out@) =~= atoms(held).push(a@));
                    }
                }
                done = done + 1;
            }
            proof {
                assert(all.take(all.len() as int) =~= all);
                lemma_atom(out, ExtraMap { entries: arbitrary() });
            }
            JsonAtom::Array(out)
        },
        TomlNode::Table(items) => {
            let ghost given = items@;
            let ghost all = toml_fields(items@);
            let total: usize = items.len();
            let mut rest = reversed(items);
            let mut out = ExtraMap::new();
            let mut done: usize = 0;
            proof {
                assert(all.take(0) =~= Seq::<(Seq<char>, Toml)>::empty());
                assert(given.skip(0) =~= given);
            }
            while done < total
                invariant
                    total == given.len(),
                    done <= total,
                    all == toml_fields(given),
                    toml_of(v) == Toml::Table(all),
                    rest@ == given.skip(done as int).reverse(),
                    out@ == toml_pairs(all.take(done as int)),
                decreases total - done,
            {
                if let Some((key, x)) = rest.pop() {
                    proof {
                        assert((key, x) == given[done as int]);
                        assert(all[done as int] == (key@, toml_of(x)));
                        assert(rest@ =~= given.skip(done + 1).reverse());
                        assert(all.take(done + 1).drop_last() =~= all.take(done as int));
                        assert(decreases_to!(toml_of(v) => toml_of(v)->Table_0));
                        assert(decreases_to!(all => all[done as int]));
                        assert(decreases_to!(all[done as int] => all[done as int].1));
                    }
                    let a = toml_to_atom(x);
                    out.insert(key, a);
                }
                done = done + 1;
            }
            proof {
                assert(all.take(all.len() as int) =~= all);
                lemma_atom(arbitrary(), out);
            }
            JsonAtom::Object(out)
        },
    }
}

/// What has been read of a character.
#[verifier::ext_equal]
pub struct CharacterView {
    pub id: Option<Seq<char>>,
    pub title: Option<Seq<char>>,
    pub keys: Option<Seq<char>>,
    pub value: Option<Atom>,
    pub extra: Seq<(Seq<char>, Atom)>,
}

/// What has been read of a character.
pub struct Character {
    pub id: Option<String>,
    pub title: Option<String>,
    pub keys: Option<String>,
    pub value: Option<JsonAtom>,
    pub extra: ExtraMap,
}

impl View for Character {
    type V = CharacterView;

    open spec fn view(&self) -> CharacterView {
        CharacterView {
            id: opt_view(self.id),
            title: opt_view(self.title),
            keys: opt_view(self.keys),
            value: opt_atom(self.value),
            extra: self.extra@,
        }
    }
}

/// Nothing read yet.
pub open spec fn blank() -> CharacterView {
    CharacterView { id: None, title: None, keys: None, value: None, extra: Seq::empty() }
}

/// A character after one more field. A title wins over a name.
pub open spec fn with_field(c: CharacterView, key: Seq<char>, a: Atom) -> CharacterView {
    let extra = placed(c.extra, key, a);
    if key == "id"@ {
        CharacterView { id: plain_text(a), extra, ..c }
    } else if key == "title"@ || key == "name"@ {
        CharacterView {
            title: if c.title is None || key == "title"@ {
                plain_text(a)
            } else {
                c.title
            },
            extra,
            ..c
        }
    } else if key == "keys"@ {
        CharacterView { keys: keys_text(a), extra, ..c }
    } else if key == "value"@ && is_body(a) {
        CharacterView { value: Some(a), ..c }
    } else {
        CharacterView { extra, ..c }
    }
}

/// A character with these fields.
pub open spec fn character(fs: Seq<(Seq<char>, Toml)>) -> CharacterView
    decreases fs.len(),
{
    if fs.len() == 0 {
        blank()
    } else {
        with_field(character(fs.drop_last()), fs.last().0, toml_atom(fs.last().1))
    }
}

/// The conversation of a character that was read from `path`.
pub open spec fn character_card(path: Seq<char>, c: CharacterView) -> ItemView {
    let title = if c.title is Some {
        c.title
    } else {
        stem_title(path)
    };
    let id = if c.id is Some {
        c.id->0
    } else if title is Some {
        title->0
    } else {
        path
    };
    card(id, title, c.keys, c.value, c.extra)
}

impl Character {
    /// Nothing read yet.
    pub fn new() -> (r: Character)
        ensures
            r@ == blank(),
    {
        Character { id: None, title: None, keys: None, value: None, extra: ExtraMap::new() }
    }

    /// Reads one more field.
    pub fn field(&mut self, key: String, a: JsonAtom)
        ensures
            final(self)@ == with_field(old(self)@, key@, a@),
    {
        proof {
            reveal_strlit("id");
            reveal_strlit("title");
            reveal_strlit("name");
            reveal_strlit("keys");
            reveal_strlit("value");
            assert("name"@[0] != "keys"@[0]);
        }
        if same_str(&key, "id") {
            self.id = atom_plain_string(&a);
        } else if same_str(&key, "title") || same_str(&key, "name") {
            if self.title.is_none() || same_str(&key, "title") {
                self.title = atom_plain_string(&a);
            }
        } else if same_str(&key, "keys") {
            self.keys = keys_as_text(&a);
        } else if same_str(&key, "value") && atom_is_body(&a) {
            self.value = Some(a);
            return;
        }
        self.extra.insert(key, a);
    }

    /// The conversation of the character.
    pub fn into_item(self, path: &str) -> (r: ConversationItem)
        ensures
            r@ == character_card(path@, self@),
    {
        let title = match self.title {
            Some(t) => Some(t),
            None => file_stem_title(path),
        };
        let id = match self.id {
            Some(id) => id,
            None => match &title {
                Some(t) => t.clone(),
                None => path.to_owned(),
            },
        };
        card_of(id, title, self.keys, self.value, self.extra)
    }
}

/// The conversation of a parsed character file.
fn character_of(path: &str, fields: Vec<(String, toml::Value)>) -> (r: ConversationItem)
    ensures
        r@ == character_card(path@, character(toml_fields(fields@))),
{
    let ghost given = fields@;
    let ghost all = toml_fields(fields@);
    let total: usize = fields.len();
    let mut rest = reversed(fields);
    let mut out = Character::new();
    let mut done: usize = 0;
    proof {
        assert(all.take(0) =~= Seq::<(Seq<char>, Toml)>::empty());
        assert(given.skip(0) =~= given);
    }
    while done < total
        invariant
            total == given.len(),
            done <= total,
            all == toml_fields(given),
            rest@ == given.skip(done as int).reverse(),
            out@ == character(all.take(done as int)),
        decreases total - done,
    {
        if let Some((key, x)) = rest.pop() {
            proof {
                assert((key, x) == given[done as int]);
                assert(all[done as int] == (key@, toml_of(x)));
                assert(rest@ =~= given.skip(done + 1).reverse());
                assert(all.take(done + 1).drop_last() =~= all.take(done as int));
            }
            out.field(key, toml_to_atom(x));
        }
        done = done + 1;
    }
    proof {
        assert(all.take(all.len() as int) =~= all);
    }
    out.into_item(path)
}

/// Text of the error for a file that does not parse.
pub open spec fn parse_failure(path: Seq<char>, error: Seq<char>) -> Seq<char> {
    "failed to parse "@ + path + ": "@ + error
}

/// The error for a file that does not parse.
pub fn parse_error_of(path: &str, error: &str) -> (r: Error)
    ensures
        match r {
            Error::Ingest(m) => m@ == parse_failure(path@, error@),
            _ => false,
        },
{
    let mut m = cat("failed to parse ", path);
    m.push_str(": ");
    m.push_str(error);
    Error::Ingest(m)
}

/// The conversation of a character file with the text `text`.
pub fn character_item(path: &str, text: &str) -> (r: Result<ConversationItem, Error>)
    ensures
        match r {
            Ok(item) => toml_parsed(text@) is Ok && item@ == character_card(
                path@,
                character(toml_parsed(text@)->Ok_0),
            ),
            Err(Error::Ingest(m)) => toml_parsed(text@) is Err && m@ == parse_failure(
                path@,
                toml_parsed(text@)->Err_0,
            ),
            Err(_) => false,
        },
{
    match parse_table(text) {
        Ok(fields) => Ok(character_of(path, fields)),
        Err(e) => Err(parse_error_of(path, &e)),
    }
}

/// A TOML file that can be a character: not a crate manifest.
pub open spec fn character_file(path: Seq<char>) -> bool {
    has_extension(path, "toml"@) && !same_ascii(name_or_empty(path), "Cargo.toml"@)
}

/// Whether a TOML file can be a character.
pub fn is_toml_file(path: &str) -> (r: bool)
    ensures
        r == character_file(path@),
{
    path_has_extension(path, "toml") && !eq_ascii(&name_or_empty_of(path), "Cargo.toml")
}

/// Whether a directory is the one that holds characters.
pub fn is_characters_dir(path: &str) -> (r: bool)
    ensures
        r == (file_name(path@) == Some("characters"@)),
{
    match file_name_of(path) {
        Some(name) => same_str(&name, "characters"),
        None => false,
    }
}

/// A TOML value is kept as the JSON value of its kind, with everything in it.
pub proof fn law_toml_values(v: Seq<Toml>, fs: Seq<(Seq<char>, Toml)>, s: Seq<char>, i: i64, b: bool, k: int)
    ensures
        toml_atom(Toml::Text(s)) == Atom::Text(s),
        toml_atom(Toml::Int(i)) == Atom::I64(i),
        toml_atom(Toml::Bool(b)) == Atom::Bool(b),
        toml_atom(Toml::Date(s)) == Atom::Text(s),
        toml_atom(Toml::Arr(v)) is Arr,
        toml_atom(Toml::Arr(v))->Arr_0.len() == v.len(),
        0 <= k < v.len() ==> toml_atom(Toml::Arr(v))->Arr_0[k] == toml_atom(v[k]),
        toml_atom(Toml::Table(fs)) is Obj,
        0 <= k < fs.len() && (forall|j: int| k < j < fs.len() ==> (#[trigger] fs[j]).0 != fs[k].0)
            ==> lookup(toml_atom(Toml::Table(fs))->Obj_0, fs[k].0) == Some(toml_atom(fs[k].1)),
{
    lemma_toml_atoms(v, k);
    lemma_toml_pairs(fs, k);
}

proof fn lemma_toml_atoms(v: Seq<Toml>, k: int)
    ensures
        toml_atoms(v).len() == v.len(),
        0 <= k < v.len() ==> toml_atoms(v)[k] == toml_atom(v[k]),
    decreases v.len(),
{
    if v.len() > 0 {
        lemma_toml_atoms(v.drop_last(), k);
    }
}

proof fn lemma_toml_pairs(fs: Seq<(Seq<char>, Toml)>, k: int)
    ensures
        0 <= k < fs.len() && (forall|j: int| k < j < fs.len() ==> (#[trigger] fs[j]).0 != fs[k].0)
            ==> lookup(toml_pairs(fs), fs[k].0) == Some(toml_atom(fs[k].1)),
    decreases fs.len(),
{
    if 0 <= k < fs.len() {
        let n = fs.len() - 1;
        let init = fs.drop_last();
        lemma_toml_pairs(init, k);
        law_placed_is_found(toml_pairs(init), fs[n].0, toml_atom(fs[n].1), fs[k].0);
        assert(forall|j: int| 0 <= j < init.len() ==> #[trigger] init[j] == fs[j]);
    }
}

/// Each field of a character fills its own place: the id, the title, which a
/// name gives only where there is none, the keys and the value. What is not
/// the value is kept beside too.
pub proof fn law_character_fields(c: CharacterView, key: Seq<char>, a: Atom, s: Seq<char>)
    requires
        s.len() > 0 && !is_white(s[0]) && !is_white(s[s.len() - 1]),
    ensures
        with_field(c, "id"@, Atom::Text(s)).id == Some(s),
        with_field(c, "title"@, Atom::Text(s)).title == Some(s),
        c.title is None ==> with_field(c, "name"@, Atom::Text(s)).title == Some(s),
        c.title is Some ==> with_field(c, "name"@, Atom::Text(s)).title == c.title,
        with_field(c, "keys"@, Atom::Text(s)).keys == Some(s),
        with_field(c, "value"@, Atom::Text(s)).value == Some(Atom::Text(s)),
        key != "id"@ ==> with_field(c, key, a).id == c.id,
        key != "title"@ && key != "name"@ ==> with_field(c, key, a).title == c.title,
        key != "keys"@ ==> with_field(c, key, a).keys == c.keys,
        key != "value"@ ==> with_field(c, key, a).value == c.value,
        key != "value"@ ==> lookup(with_field(c, key, a).extra, key) == Some(a),
{
    law_placed_is_found(c.extra, key, a, key);
    law_plain_text(s, 0, 0, 0, Seq::empty(), Seq::empty());
    reveal_strlit("id");
    reveal_strlit("title");
    reveal_strlit("name");
    reveal_strlit("keys");
    reveal_strlit("value");
    assert("id"@[0] == 'i' && "title"@[0] == 't' && "name"@[0] == 'n' && "keys"@[0] == 'k'
        && "value"@[0] == 'v');
}

/// A character is a conversation with its title, else the name of its file,
/// its keys as the summary and its value as the message. Its id is its own,
/// else its title.
pub proof fn law_character_card(path: Seq<char>, c: CharacterView, s: Seq<char>, t: Seq<char>)
    ensures
        ({
            let item = character_card(path, c);
            &&& c.title == Some(t) ==> item.conversation.title == Some(t)
            &&& c.title is None && file_name(path) is Some && name_stem(file_name(path)->0).len() > 0
                ==> item.conversation.title == Some(name_stem(file_name(path)->0))
            &&& c.id == Some(s) ==> item.conversation.id == Some(s)
            &&& c.id is None && c.title == Some(t) ==> item.conversation.id == Some(t)
            &&& item.conversation.summary == c.keys
            &&& item.conversation.extra == c.extra
            &&& c.value == Some(Atom::Text(s)) ==> says(item, seq![s])
            &&& c.value is None ==> item.responses.len() == 0
        }),
{
}

/// A character file is a TOML file that is no crate manifest.
pub proof fn law_character_files(dir: Seq<char>, name: Seq<char>)
    requires
        plain_name(name),
    ensures
        character_file(joined(dir, name)) <==> {
            &&& name_extension(name) is Some
            &&& same_ascii(name_extension(name)->0, "toml"@)
            &&& !same_ascii(name, "Cargo.toml"@)
        },
{
    law_joined_name(dir, name);
}

} // verus!
