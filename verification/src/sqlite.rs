//! Session rows of a sqlite index as conversations.
use vstd::prelude::*;

use crate::markdown::{lossy, lossy_text};
use crate::pairs::{law_placed_is_found, lookup, placed};
use crate::paths::opt_view;
use crate::records::{
    bare, bare_response, copied_stamp, empty_conversation, empty_response, opt_stamp, plain_item,
    says, Conversation, ConversationItem, ConversationView, ItemView, Response, ResponseItem,
    ResponseView, Stamp, Timestamp,
};
use crate::schema::{opt_atom, Atom, ExtraMap, JsonAtom, JsonFloat};
use crate::text::{
    cat3, chars_of, decimal, decimal_i64, decimal_int, join, join_with, same_str, views,
};
use crate::Error;

verus! {

/// The table that holds sessions.
pub const SESSION_DOCS: &'static str = "session_docs";

/// One value of a row.
pub enum SqlValue {
    Null,
    Integer(i64),
    Real(JsonFloat),
    Text(Vec<u8>),
    Blob(Vec<u8>),
}

/// The text of bytes, when there is any.
pub open spec fn bytes_text(b: Seq<u8>) -> Option<Seq<char>> {
    if lossy_text(b).len() == 0 {
        None
    } else {
        Some(lossy_text(b))
    }
}

/// A value as text.
pub open spec fn sql_text(v: SqlValue) -> Option<Seq<char>> {
    match v {
        SqlValue::Null => None,
        SqlValue::Integer(i) => Some(decimal_int(i as int)),
        SqlValue::Real(f) => Some(f.text@),
        SqlValue::Text(b) => bytes_text(b@),
        SqlValue::Blob(b) => bytes_text(b@),
    }
}

/// A value as a time.
pub open spec fn sql_time(v: SqlValue) -> Option<Stamp> {
    match v {
        SqlValue::Text(b) => match bytes_text(b@) {
            Some(s) => Some(Stamp::Iso(s)),
            None => None,
        },
        SqlValue::Integer(i) => Some(Stamp::Other(Atom::I64(i))),
        SqlValue::Real(f) => Some(Stamp::Other(Atom::F64(f.bits, f.text@))),
        SqlValue::Null | SqlValue::Blob(_) => None,
    }
}

/// A value as a JSON value.
pub open spec fn sql_atom(v: SqlValue) -> Option<Atom> {
    match v {
        SqlValue::Null | SqlValue::Blob(_) => None,
        SqlValue::Integer(i) => Some(Atom::I64(i)),
        SqlValue::Real(f) => Some(Atom::F64(f.bits, f.text@)),
        SqlValue::Text(b) => Some(Atom::Text(lossy_text(b@))),
    }
}

fn text_of_bytes(b: &Vec<u8>) -> (r: Option<String>)
    ensures
        opt_view(r) == bytes_text(b@),
{
    let s = lossy(b.as_slice());
    if s.is_empty() {
        None
    } else {
        Some(s)
    }
}

/// A value as text.
pub fn value_to_string(v: &SqlValue) -> (r: Option<String>)
    ensures
        opt_view(r) == sql_text(*v),
{
    match v {
        SqlValue::Null => None,
        SqlValue::Integer(i) => Some(decimal_i64(*i)),
        SqlValue::Real(f) => Some(f.text.clone()),
        SqlValue::Text(b) => text_of_bytes(b),
        SqlValue::Blob(b) => text_of_bytes(b),
    }
}

/// A value as a time.
pub fn value_to_timestamp(v: &SqlValue) -> (r: Option<Timestamp>)
    ensures
        opt_stamp(r) == sql_time(*v),
{
    match v {
        SqlValue::Text(b) => match text_of_bytes(b) {
            Some(s) => Some(Timestamp::Iso(s)),
            None => None,
        },
        SqlValue::Integer(i) => Some(Timestamp::Other(JsonAtom::I64(*i))),
        SqlValue::Real(f) => Some(
            Timestamp::Other(JsonAtom::F64(JsonFloat { bits: f.bits, text: f.text.clone() })),
        ),
        SqlValue::Null | SqlValue::Blob(_) => None,
    }
}

/// A value as a JSON value.
pub fn value_to_atom(v: &SqlValue) -> (r: Option<JsonAtom>)
    ensures
        opt_atom(r) == sql_atom(*v),
{
    match v {
        SqlValue::Null | SqlValue::Blob(_) => None,
        SqlValue::Integer(i) => Some(JsonAtom::I64(*i)),
        SqlValue::Real(f) => Some(JsonAtom::F64(JsonFloat { bits: f.bits, text: f.text.clone() })),
        SqlValue::Text(b) => Some(JsonAtom::String(lossy(b.as_slice()))),
    }
}

/// What has been read of a session row.
#[verifier::ext_equal]
pub struct RowView {
    pub session_id: Option<Seq<char>>,
    pub title: Option<Seq<char>>,
    pub content: Option<Seq<char>>,
    pub content_hash: Option<Seq<char>>,
    pub updated: Option<Stamp>,
    pub extra: Seq<(Seq<char>, Atom)>,
}

/// What has been read of a session row.
pub struct Row {
    pub session_id: Option<String>,
    pub title: Option<String>,
    pub content: Option<String>,
    pub content_hash: Option<String>,
    pub updated: Option<Timestamp>,
    pub extra: ExtraMap,
}

impl View for Row {
    type V = RowView;

    open spec fn view(&self) -> RowView {
        RowView {
            session_id: opt_view(self.session_id),
            title: opt_view(self.title),
            content: opt_view(self.content),
            content_hash: opt_view(self.content_hash),
            updated: opt_stamp(self.updated),
            extra: self.extra@,
        }
    }
}

/// Nothing read yet.
pub open spec fn empty_row() -> RowView {
    RowView {
        session_id: None,
        title: None,
        content: None,
        content_hash: None,
        updated: None,
        extra: Seq::empty(),
    }
}

/// `extra` with a value, when there is one.
pub open spec fn with_atom(extra: Seq<(Seq<char>, Atom)>, key: Seq<char>, a: Option<Atom>) -> Seq<
    (Seq<char>, Atom),
> {
    match a {
        Some(x) => placed(extra, key, x),
        None => extra,
    }
}

/// An optional text as a JSON value.
pub open spec fn text_atom(s: Option<Seq<char>>) -> Option<Atom> {
    match s {
        Some(x) => Some(Atom::Text(x)),
        None => None,
    }
}

/// A row after one more column.
pub open spec fn with_column(row: RowView, name: Seq<char>, v: SqlValue) -> RowView {
    if name == "session_id"@ {
        RowView { session_id: sql_text(v), ..row }
    } else if name == "title"@ {
        RowView { title: sql_text(v), ..row }
    } else if name == "content"@ {
        RowView { content: sql_text(v), ..row }
    } else if name == "content_hash"@ {
        match sql_text(v) {
            Some(h) => RowView {
                content_hash: Some(h),
                extra: placed(row.extra, name, Atom::Text(h)),
                ..row
            },
            None => row,
        }
    } else if name == "cwd"@ {
        RowView { extra: with_atom(row.extra, name, text_atom(sql_text(v))), ..row }
    } else if name == "updated_at"@ {
        RowView { updated: sql_time(v), ..row }
    } else {
        RowView { extra: with_atom(row.extra, name, sql_atom(v)), ..row }
    }
}

/// A row with these columns.
pub open spec fn row_with(names: Seq<Seq<char>>, values: Seq<SqlValue>) -> RowView
    decreases names.len(),
{
    if names.len() == 0 || values.len() == 0 {
        empty_row()
    } else {
        with_column(
            row_with(names.drop_last(), values.drop_last()),
            names.last(),
            values.last(),
        )
    }
}

/// The text, unless it is empty.
pub open spec fn nonempty_text(s: Option<Seq<char>>) -> Option<Seq<char>> {
    if s is Some && s->0.len() > 0 {
        s
    } else {
        None
    }
}

/// The conversation of a session row. A row without a session id is none.
pub open spec fn session_item(row: RowView) -> Option<ItemView> {
    match nonempty_text(row.session_id) {
        Some(id) => Some(
            plain_item(
                ConversationView {
                    id: Some(id),
                    title: nonempty_text(row.title),
                    create_time: row.updated,
                    modify_time: row.updated,
                    extra: row.extra,
                    ..empty_conversation()
                },
                seq![
                    bare(
                        ResponseView {
                            _id: if row.content_hash is Some {
                                row.content_hash
                            } else {
                                Some(id)
                            },
                            conversation_id: Some(id),
                            message: text_atom(row.content),
                            create_time: row.updated,
                            ..empty_response()
                        },
                    ),
                ],
            ),
        ),
        None => None,
    }
}

impl Row {
    /// Nothing read yet.
    fn new() -> (r: Row)
        ensures
            r@ == empty_row(),
    {
        Row {
            session_id: None,
            title: None,
            content: None,
            content_hash: None,
            updated: None,
            extra: ExtraMap::new(),
        }
    }

    /// Reads one more column.
    fn column(&mut self, name: &str, v: &SqlValue)
        ensures
            final(self)@ == with_column(old(self)@, name@, *v),
    {
        if same_str(name, "session_id") {
            self.session_id = value_to_string(v);
        } else if same_str(name, "title") {
            self.title = value_to_string(v);
        } else if same_str(name, "content") {
            self.content = value_to_string(v);
        } else if same_str(name, "content_hash") {
            if let Some(h) = value_to_string(v) {
                self.extra.insert(name.to_owned(), JsonAtom::String(h.clone()));
                self.content_hash = Some(h);
            }
        } else if same_str(name, "cwd") {
            if let Some(s) = value_to_string(v) {
                self.extra.insert(name.to_owned(), JsonAtom::String(s));
            }
        } else if same_str(name, "updated_at") {
            self.updated = value_to_timestamp(v);
        } else {
            if let Some(a) = value_to_atom(v) {
                self.extra.insert(name.to_owned(), a);
            }
        }
    }

    /// The conversation of the row.
    fn into_item(self) -> (r: Option<ConversationItem>)
        ensures
            match r {
                Some(item) => session_item(self@) == Some(item@),
                None => session_item(self@) is None,
            },
    {
        let ghost want = session_item(self@);
        let id = match self.session_id {
            Some(id) => id,
            None => {
                return None;
            },
        };
        if id.is_empty() {
            return None;
        }
        let title = match self.title {
            Some(t) => if t.is_empty() {
                None
            } else {
                Some(t)
            },
            None => None,
        };
        let response_id = match self.content_hash {
            Some(h) => h,
            None => id.clone(),
        };
        let message = match self.content {
            Some(s) => Some(JsonAtom::String(s)),
            None => None,
        };
        let conversation = Conversation {
            id: Some(id.clone()),
            title,
            create_time: copied_stamp(&self.updated),
            modify_time: copied_stamp(&self.updated),
            extra: self.extra,
            ..Default::default()
        };
        let response = Response {
            _id: Some(response_id),
            conversation_id: Some(id),
            message,
            create_time: self.updated,
            ..Default::default()
        };
        let mut responses: Vec<ResponseItem> = Vec::new();
        responses.push(bare_response(response));
        let r = ConversationItem { conversation, responses, extra: ExtraMap::new() };
        proof {
            assert(r@.responses =~= want->0.responses);
            assert(r@.conversation =~= want->0.conversation);
        }
        Some(r)
    }
}

/// The conversation of a session row with one value for each column.
pub fn row_to_item(columns: &Vec<String>, values: &Vec<SqlValue>) -> (r: Option<ConversationItem>)
    requires
        columns@.len() == values@.len(),
    ensures
        match r {
            Some(item) => session_item(row_with(views(columns@), values@)) == Some(item@),
            None => session_item(row_with(views(columns@), values@)) is None,
        },
{
    let ghost names = views(columns@);
    let mut row = Row::new();
    let mut i: usize = 0;
    proof {
        assert(names.take(0) =~= Seq::<Seq<char>>::empty());
    }
    while i < columns.len()
        invariant
            i <= columns@.len(),
            columns@.len() == values@.len(),
            names == views(columns@),
            row@ == row_with(names.take(i as int), values@.take(i as int)),
        decreases columns.len() - i,
    {
        proof {
            assert(names.take(i + 1).drop_last() =~= names.take(i as int));
            assert(values@.take(i + 1).drop_last() =~= values@.take(i as int));
            assert(names.take(i + 1).last() == columns@[i as int]@);
        }
        row.column(&columns[i], &values[i]);
        i = i + 1;
    }
    proof {
        assert(names.take(names.len() as int) =~= names);
        assert(values@.take(values@.len() as int) =~= values@);
    }
    row.into_item()
}

/// Quotes inside a name, doubled.
pub open spec fn doubled(s: Seq<char>) -> Seq<char>
    decreases s.len(),
{
    if s.len() == 0 {
        s
    } else if s.last() == '"' {
        doubled(s.drop_last()).push('"').push('"')
    } else {
        doubled(s.drop_last()).push(s.last())
    }
}

/// A column name in quotes.
pub open spec fn quoted(name: Seq<char>) -> Seq<char> {
    "\""@ + doubled(name) + "\""@
}

/// A column name in quotes.
pub fn quote_ident(name: &str) -> (r: String)
    ensures
        r@ == quoted(name@),
{
    let v = chars_of(name);
    let mut inner = String::new();
    let mut i: usize = 0;
    proof {
        assert(v@.take(0) =~= Seq::<char>::empty());
    }
    while i < v.len()
        invariant
            i <= v@.len(),
            inner@ == doubled(v@.take(i as int)),
        decreases v.len() - i,
    {
        proof {
            assert(v@.take(i + 1).drop_last() =~= v@.take(i as int));
        }
        if v[i] == '"' {
            inner.push('"');
        }
        inner.push(v[i]);
        i = i + 1;
    }
    proof {
        assert(v@.take(v@.len() as int) =~= v@);
    }
    cat3("\"", &inner, "\"")
}

/// Column names in quotes.
pub open spec fn all_quoted(names: Seq<Seq<char>>) -> Seq<Seq<char>> {
    Seq::new(names.len(), |i: int| quoted(names[i]))
}

/// The query that reads every session row.
pub open spec fn select_text(names: Seq<Seq<char>>) -> Seq<char> {
    "SELECT "@ + join(all_quoted(names), ", "@) + " FROM session_docs"@
}

/// The query that reads these columns of every session row. An index
/// without session ids is refused.
pub fn select_sql(columns: &Vec<String>) -> (r: Result<String, Error>)
    ensures
        match r {
            Ok(sql) => views(columns@).contains("session_id"@) && sql@ == select_text(
                views(columns@),
            ),
            Err(Error::Ingest(m)) => !views(columns@).contains("session_id"@) && m@
                == "session_docs has no session_id column; pass a grok-oss session index"@,
            Err(_) => false,
        },
{
    let ghost names = views(columns@);
    let mut parts: Vec<String> = Vec::new();
    let mut found = false;
    let mut i: usize = 0;
    while i < columns.len()
        invariant
            i <= columns@.len(),
            names == views(columns@),
            parts@.len() == i,
            forall|k: int| 0 <= k < i ==> (#[trigger] parts@[k])@ == quoted(names[k]),
            found == exists|k: int| 0 <= k < i && #[trigger] names[k] == "session_id"@,
        decreases columns.len() - i,
    {
        if same_str(&columns[i], "session_id") {
            proof {
                assert(names[i as int] == "session_id"@);
            }
            found = true;
        }
        parts.push(quote_ident(&columns[i]));
        i = i + 1;
    }
    proof {
        assert(views(parts@) =~= all_quoted(names));
    }
    if !found {
        proof {
            assert forall|k: int| 0 <= k < names.len() implies names[k] != "session_id"@ by {}
        }
        return Err(
            Error::Ingest(
                "session_docs has no session_id column; pass a grok-oss session index".to_owned(),
            ),
        );
    }
    proof {
        let k = choose|k: int| 0 <= k < columns@.len() && #[trigger] names[k] == "session_id"@;
        assert(names.contains("session_id"@));
    }
    Ok(cat3("SELECT ", &join_with(parts.as_slice(), ", "), " FROM session_docs"))
}

/// The columns of the session table that have a meaning of their own.
pub open spec fn known_columns() -> Seq<Seq<char>> {
    seq!["session_id"@, "title"@, "content"@, "content_hash"@, "cwd"@, "updated_at"@]
}

/// Each column of a row fills its own field, and the others keep theirs.
/// Other columns are kept beside, under their names.
pub proof fn law_row_columns(row: RowView, name: Seq<char>, v: SqlValue)
    ensures
        with_column(row, "session_id"@, v).session_id == sql_text(v),
        with_column(row, "title"@, v).title == sql_text(v),
        with_column(row, "content"@, v).content == sql_text(v),
        with_column(row, "updated_at"@, v).updated == sql_time(v),
        sql_text(v) is Some ==> with_column(row, "content_hash"@, v).content_hash == sql_text(v),
        sql_text(v) is Some ==> lookup(with_column(row, "content_hash"@, v).extra, "content_hash"@)
            == Some(Atom::Text(sql_text(v)->0)),
        sql_text(v) is Some ==> lookup(with_column(row, "cwd"@, v).extra, "cwd"@) == Some(
            Atom::Text(sql_text(v)->0),
        ),
        name != "session_id"@ ==> with_column(row, name, v).session_id == row.session_id,
        name != "title"@ ==> with_column(row, name, v).title == row.title,
        name != "content"@ ==> with_column(row, name, v).content == row.content,
        name != "updated_at"@ ==> with_column(row, name, v).updated == row.updated,
        name != "content_hash"@ ==> with_column(row, name, v).content_hash == row.content_hash,
        !known_columns().contains(name) && sql_atom(v) is Some ==> lookup(with_column(row, name, v).extra, name)
            == sql_atom(v),
{
    reveal_strlit("session_id");
    reveal_strlit("title");
    reveal_strlit("content");
    reveal_strlit("content_hash");
    reveal_strlit("cwd");
    reveal_strlit("updated_at");
    assert("session_id"@[0] == 's' && "title"@[0] == 't' && "content"@.len() == 7
        && "content_hash"@.len() == 12 && "cwd"@.len() == 3 && "updated_at"@[0] == 'u');
    if sql_text(v) is Some {
        let a = Atom::Text(sql_text(v)->0);
        law_placed_is_found(row.extra, "content_hash"@, a, "content_hash"@);
        law_placed_is_found(row.extra, "cwd"@, a, "cwd"@);
    }
    if sql_atom(v) is Some {
        law_placed_is_found(row.extra, name, sql_atom(v)->0, name);
    }
    let all = known_columns();
    assert(all[0] == "session_id"@ && all[1] == "title"@ && all[2] == "content"@ && all[3]
        == "content_hash"@ && all[4] == "cwd"@ && all[5] == "updated_at"@);
}

/// What a database value says: a number in decimal, a text as it stands. A
/// null and an empty text say nothing.
pub proof fn law_sql_values(i: i64, v: SqlValue)
    ensures
        i >= 0 ==> sql_text(SqlValue::Integer(i)) == Some(decimal(i as nat)),
        i < 0 ==> sql_text(SqlValue::Integer(i)) == Some(seq!['-'] + decimal((-i) as nat)),
        sql_text(SqlValue::Null) is None,
        v matches SqlValue::Text(b) ==> lossy_text(b@).len() > 0 ==> sql_text(v) == Some(
            lossy_text(b@),
        ) && sql_time(v) == Some(Stamp::Iso(lossy_text(b@))),
        v matches SqlValue::Text(b) ==> sql_atom(v) == Some(Atom::Text(lossy_text(b@))),
        v matches SqlValue::Text(b) ==> lossy_text(b@).len() == 0 ==> sql_text(v) is None
            && sql_time(v) is None,
        v matches SqlValue::Real(f) ==> sql_text(v) == Some(f.text@),
        sql_time(SqlValue::Integer(i)) == Some(Stamp::Other(Atom::I64(i))),
        sql_time(SqlValue::Null) is None,
        sql_atom(SqlValue::Integer(i)) == Some(Atom::I64(i)),
        sql_atom(SqlValue::Null) is None,
{
}

/// A row is a session when it has an id. It says its content, under its title
/// and its time, with the hash of the content, else the session, as the id.
pub proof fn law_row_is_a_session(row: RowView, id: Seq<char>, s: Seq<char>, t: Seq<char>)
    requires
        id.len() > 0,
        t.len() > 0,
    ensures
        row.session_id is None || row.session_id == Some(Seq::<char>::empty()) ==> session_item(row)
            is None,
        row.session_id == Some(id) ==> session_item(row) is Some,
        row.session_id == Some(id) ==> ({
            let item = session_item(row)->0;
            &&& item.conversation.id == Some(id)
            &&& item.conversation.extra == row.extra
            &&& item.conversation.modify_time == row.updated
            &&& row.title == Some(t) ==> item.conversation.title == Some(t)
            &&& row.title is None ==> item.conversation.title is None
            &&& item.responses.len() == 1
            &&& row.content == Some(s) ==> says(item, seq![s])
            &&& row.content is None ==> item.responses[0].response.message is None
            &&& item.responses[0].response.conversation_id == Some(id)
            &&& row.content_hash == Some(t) ==> item.responses[0].response._id == Some(t)
            &&& row.content_hash is None ==> item.responses[0].response._id == Some(id)
        }),
{
}

/// A text with every doubled quote made one again. `None`: a quote stands
/// alone.
pub open spec fn undoubled(s: Seq<char>) -> Option<Seq<char>>
    decreases s.len(),
{
    if s.len() == 0 {
        Some(s)
    } else if s.last() != '"' {
        match undoubled(s.drop_last()) {
            Some(t) => Some(t.push(s.last())),
            None => None,
        }
    } else if s.len() >= 2 && s[s.len() - 2] == '"' {
        match undoubled(s.take(s.len() - 2)) {
            Some(t) => Some(t.push('"')),
            None => None,
        }
    } else {
        None
    }
}

/// A quoted name stands between quotes, and read back as SQL reads it, it is
/// the name.
pub proof fn law_quoted_name(name: Seq<char>)
    ensures
        quoted(name).len() >= 2,
        quoted(name)[0] == '"',
        quoted(name).last() == '"',
        undoubled(quoted(name).subrange(1, quoted(name).len() - 1)) == Some(name),
{
    reveal_strlit("\"");
    let d = doubled(name);
    let q = quoted(name);
    assert(q.subrange(1, q.len() - 1) =~= d);
    lemma_undoubled(name);
}

proof fn lemma_undoubled(name: Seq<char>)
    ensures
        undoubled(doubled(name)) == Some(name),
    decreases name.len(),
{
    if name.len() > 0 {
        let init = name.drop_last();
        lemma_undoubled(init);
        let d = doubled(init);
        assert(init.push(name.last()) =~= name);
        if name.last() == '"' {
            let all = d.push('"').push('"');
            assert(all.take(all.len() - 2) =~= d);
        } else {
            assert(d.push(name.last()).drop_last() =~= d);
        }
    }
}

/// A select lists the quoted columns in order, with commas between them, from
/// the table of sessions.
pub proof fn law_select(a: Seq<char>, b: Seq<char>)
    ensures
        select_text(seq![a]) == "SELECT "@ + quoted(a) + " FROM session_docs"@,
        select_text(seq![a, b]) == "SELECT "@ + quoted(a) + ", "@ + quoted(b)
            + " FROM session_docs"@,
{
    reveal_with_fuel(join, 3);
    let one = all_quoted(seq![a]);
    let two = all_quoted(seq![a, b]);
    assert(one =~= seq![quoted(a)]);
    assert(two =~= seq![quoted(a), quoted(b)]);
    assert(two.drop_last() =~= one);
    assert(join(two, ", "@) == quoted(a) + ", "@ + quoted(b));
    assert("SELECT "@ + (quoted(a) + ", "@ + quoted(b)) =~= "SELECT "@ + quoted(a) + ", "@ + quoted(
        b,
    ));
}

} // verus!
