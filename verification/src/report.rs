//! Search reports: formats, status lines, and the report of one or of all
//! archives.
use vstd::prelude::*;

use crate::archive::Archive;
use crate::grep::{pattern_found, search_one_archive_pattern};
use crate::json::{
    array_value, json_of, jsons, object1, object2, object3, opt_text, opt_text_value, text_value,
    Json,
};
use crate::pairs::lookup;
use crate::paths::{
    absolute, components, components_of, is_absolute, joined, keeps, kept_component,
    law_joined_name, law_no_components, lemma_split_around, lemma_split_before, opt_view, path_key,
    path_key_of, plain_name, under,
};
use crate::order::{sort_order, sorted_positions};
use crate::search::{
    distinct, group_hits, group_of, group_snippet_occurrences, groups_of, print_cap, printed_count,
    report_text, texts_of, write_hits_grouped, write_snippet_groups, LabeledHit, SearchFlags,
    SearchHit, SearchOccurrence, SearchSnippetGroup, UniqueHits, DEFAULT_SEARCH_MAX_COUNT,
};
use crate::text::{
    cat, cat3, decimal, decimal_usize, either, join, join_with, lemma_split_nonempty, lower,
    same_str, split_at_char, split_char, to_lower, trim, trimmed, views,
};
use crate::wire::{encode_rpc, encoded, WireFormat};
use crate::Error;

verus! {

/// How a search report is written. Status lines go elsewhere.
#[derive(Clone, Copy, Debug, PartialEq, Eq, Structural)]
pub enum SearchFormat {
    /// Grouped snippets and occurrence rows.
    Human,
    /// One JSON object with the snippet groups under `hits`.
    Json,
    /// The same document in TOON.
    Toon,
}

impl Default for SearchFormat {
    fn default() -> (r: SearchFormat)
        ensures
            r == SearchFormat::Human,
    {
        SearchFormat::Human
    }
}

/// The format of a name, up to ASCII case.
pub open spec fn format_of(name: Seq<char>) -> Option<SearchFormat> {
    let n = lower(trim(name));
    if n == "human"@ {
        Some(SearchFormat::Human)
    } else if n == "json"@ {
        Some(SearchFormat::Json)
    } else if n == "toon"@ {
        Some(SearchFormat::Toon)
    } else {
        None
    }
}

impl SearchFormat {
    /// The format named `human`, `json` or `toon`, up to ASCII case.
    pub fn parse_name(name: &str) -> (r: Result<SearchFormat, Error>)
        ensures
            match r {
                Ok(f) => format_of(name@) == Some(f),
                Err(Error::InvalidParams(m)) => format_of(name@) is None && m@
                    == "unknown search format "@ + lower(trim(name@))
                    + "; use human, json, or toon"@,
                Err(_) => false,
            },
    {
        let n = to_lower(trimmed(name).as_str());
        if same_str(n.as_str(), "human") {
            Ok(SearchFormat::Human)
        } else if same_str(n.as_str(), "json") {
            Ok(SearchFormat::Json)
        } else if same_str(n.as_str(), "toon") {
            Ok(SearchFormat::Toon)
        } else {
            Err(
                Error::InvalidParams(
                    cat3("unknown search format ", n.as_str(), "; use human, json, or toon"),
                ),
            )
        }
    }

    /// The wire encoding of a report that is a document.
    pub open spec fn wire_format(self) -> Option<WireFormat> {
        match self {
            SearchFormat::Human => None,
            SearchFormat::Json => Some(WireFormat::Json),
            SearchFormat::Toon => Some(WireFormat::Toon),
        }
    }

    fn wire(self) -> (r: Option<WireFormat>)
        ensures
            r == self.wire_format(),
    {
        match self {
            SearchFormat::Human => None,
            SearchFormat::Json => Some(WireFormat::Json),
            SearchFormat::Toon => Some(WireFormat::Toon),
        }
    }
}

/// Matcher flags, print cap and report format.
#[derive(Clone, Copy, Debug, PartialEq, Eq, Structural)]
pub struct SearchExec {
    pub flags: SearchFlags,
    /// Snippet groups printed. Zero means no cap.
    pub max_count: usize,
    pub format: SearchFormat,
}

impl Default for SearchExec {
    fn default() -> (r: SearchExec)
        ensures
            r == exec_with(
                (SearchFlags { ignore_case: false, fixed_strings: false, word_regexp: false }),
            ),
    {
        SearchExec {
            flags: SearchFlags { ignore_case: false, fixed_strings: false, word_regexp: false },
            max_count: DEFAULT_SEARCH_MAX_COUNT,
            format: SearchFormat::Human,
        }
    }
}

/// The defaults with other flags.
pub open spec fn exec_with(flags: SearchFlags) -> SearchExec {
    SearchExec { flags, max_count: DEFAULT_SEARCH_MAX_COUNT, format: SearchFormat::Human }
}

impl From<SearchFlags> for SearchExec {
    fn from(flags: SearchFlags) -> (r: SearchExec) {
        SearchExec { flags, max_count: DEFAULT_SEARCH_MAX_COUNT, format: SearchFormat::Human }
    }
}

impl vstd::std_specs::convert::FromSpecImpl<SearchFlags> for SearchExec {
    open spec fn obeys_from_spec() -> bool {
        true
    }

    open spec fn from_spec(flags: SearchFlags) -> SearchExec {
        exec_with(flags)
    }
}

/// What a section of a report stands for.
#[derive(Clone, Copy, Debug, PartialEq, Eq, Structural)]
pub enum SearchOrigin {
    /// An archive under the memex directory.
    Archive,
}

/// The hits of one archive.
#[derive(Debug)]
pub struct SearchGroup {
    pub path: String,
    pub origin: SearchOrigin,
    pub hits: Vec<SearchHit>,
    /// Matches that fell on a hit already counted.
    pub duplicate_omitted: usize,
}

/// One status line of a search.
#[derive(Debug)]
pub enum SearchStatus {
    /// The archives are mapped and the search starts.
    Starting { archives: usize },
    /// One archive is searched.
    Archive { completed: usize, total: usize, archive: String, unique_hits: usize },
}

/// The text of a status line.
pub open spec fn status_text(s: SearchStatus) -> Seq<char> {
    match s {
        SearchStatus::Starting { archives } => "searching "@ + decimal(archives as nat)
            + " archives"@,
        SearchStatus::Archive { completed, total, archive, unique_hits: _ } => "searching "@
            + decimal(completed as nat) + "/"@ + decimal(total as nat) + " "@ + archive@,
    }
}

impl SearchStatus {
    /// The text of this status line.
    pub fn line(&self) -> (r: String)
        ensures
            r@ == status_text(*self),
    {
        match self {
            SearchStatus::Starting { archives } => {
                let n = decimal_usize(*archives);
                cat3("searching ", n.as_str(), " archives")
            },
            SearchStatus::Archive { completed, total, archive, unique_hits: _ } => {
                let c = decimal_usize(*completed);
                let t = decimal_usize(*total);
                let head = cat3("searching ", c.as_str(), "/");
                let counts = cat3(head.as_str(), t.as_str(), " ");
                cat(counts.as_str(), archive.as_str())
            },
        }
    }

    /// A copy of this status.
    pub fn copied(&self) -> (r: SearchStatus)
        ensures
            r == *self,
    {
        match self {
            SearchStatus::Starting { archives } => SearchStatus::Starting { archives: *archives },
            SearchStatus::Archive { completed, total, archive, unique_hits } =>
                SearchStatus::Archive {
                completed: *completed,
                total: *total,
                archive: archive.clone(),
                unique_hits: *unique_hits,
            },
        }
    }
}

/// The status events of a search, in the order in which they came.
#[derive(Debug)]
pub struct SearchStatusSink {
    events: Vec<SearchStatus>,
}

impl View for SearchStatusSink {
    type V = Seq<SearchStatus>;

    closed spec fn view(&self) -> Seq<SearchStatus> {
        self.events@
    }
}

impl SearchStatusSink {
    /// An empty sink.
    pub fn new() -> (r: SearchStatusSink)
        ensures
            r@ == Seq::<SearchStatus>::empty(),
    {
        SearchStatusSink { events: Vec::new() }
    }

    /// The recorded events.
    pub fn events(&self) -> (r: Vec<SearchStatus>)
        ensures
            r@ == self@,
    {
        let mut out: Vec<SearchStatus> = Vec::new();
        let mut i: usize = 0;
        while i < self.events.len()
            invariant
                i <= self.events@.len(),
                out@ == self.events@.take(i as int),
            decreases self.events.len() - i,
        {
            out.push(self.events[i].copied());
            proof {
                assert(out@ =~= self.events@.take(i + 1));
            }
            i = i + 1;
        }
        proof {
            assert(self.events@.take(self.events@.len() as int) =~= self.events@);
        }
        out
    }

    /// Records an event.
    pub fn record(&mut self, event: SearchStatus)
        ensures
            final(self)@ == old(self)@.push(event),
    {
        self.events.push(event);
    }
}

/// The pieces from the component number `n` on.
pub open spec fn from_component(pieces: Seq<Seq<char>>, n: int) -> Seq<Seq<char>>
    decreases pieces.len(),
{
    if pieces.len() == 0 || (kept_component(pieces[0]) && n <= 0) {
        pieces
    } else if kept_component(pieces[0]) {
        from_component(pieces.drop_first(), n - 1)
    } else {
        from_component(pieces.drop_first(), n)
    }
}

/// The pieces up to the last component.
pub open spec fn to_component(pieces: Seq<Seq<char>>) -> Seq<Seq<char>>
    decreases pieces.len(),
{
    if pieces.len() == 0 || kept_component(pieces.last()) {
        pieces
    } else {
        to_component(pieces.drop_last())
    }
}

/// The path opens with a component that is no name: the root, or the current
/// directory.
pub open spec fn opens_apart(path: Seq<char>) -> bool {
    absolute(path) || split_char(path, '/')[0] == seq!['.']
}

/// The text of a path after its first `n` components, without what separates
/// it from them and without what follows its last component. Separators
/// inside stay as they are written.
pub open spec fn text_after(path: Seq<char>, n: int) -> Seq<char> {
    let pieces = split_char(path, '/');
    if n > 0 {
        let names = if opens_apart(path) {
            n - 1
        } else {
            n
        };
        join(to_component(from_component(pieces, names)), "/"@)
    } else if to_component(pieces).len() > 0 {
        join(to_component(pieces), "/"@)
    } else if absolute(path) {
        "/"@
    } else if opens_apart(path) {
        "."@
    } else {
        Seq::empty()
    }
}

/// `path` relative to `base`. A path elsewhere stays.
pub open spec fn relative(path: Seq<char>, base: Seq<char>) -> Seq<char> {
    if under(path, base) {
        text_after(path, components(base).len() as int)
    } else {
        path
    }
}

/// Where the component number `n` stands among the pieces.
fn component_at(pieces: &Vec<String>, n: usize) -> (r: usize)
    ensures
        r <= pieces@.len(),
        from_component(views(pieces@), n as int) == views(pieces@).skip(r as int),
{
    let mut left: usize = n;
    let mut i: usize = 0;
    let ghost all = views(pieces@);
    proof {
        assert(all.skip(0) =~= all);
    }
    while i < pieces.len()
        invariant
            i <= pieces@.len(),
            all == views(pieces@),
            from_component(all, n as int) == from_component(all.skip(i as int), left as int),
        decreases pieces.len() - i,
    {
        let piece = pieces[i].as_str();
        let kept = is_kept_component(piece);
        proof {
            assert(all.skip(i as int)[0] == piece@);
            assert(all.skip(i as int).drop_first() =~= all.skip(i + 1));
        }
        if kept && left == 0 {
            return i;
        }
        if kept {
            left = left - 1;
        }
        i = i + 1;
    }
    i
}

/// Whether a path keeps this component.
fn is_kept_component(piece: &str) -> (r: bool)
    ensures
        r == kept_component(piece@),
{
    proof {
        reveal_strlit(".");
        reveal_strlit("");
        assert("."@ =~= seq!['.']);
        assert(piece@ == ""@ <==> piece@.len() == 0) by {
            assert(""@ =~= Seq::<char>::empty());
            if piece@.len() == 0 {
                assert(piece@ =~= ""@);
            }
        }
    }
    !same_str(piece, "") && !same_str(piece, ".")
}

/// Drops the pieces after the last component.
fn drop_open_end(pieces: &mut Vec<String>)
    ensures
        views(final(pieces)@) == to_component(views(old(pieces)@)),
{
    while pieces.len() > 0 && !is_kept_component(pieces[pieces.len() - 1].as_str())
        invariant
            to_component(views(pieces@)) == to_component(views(old(pieces)@)),
        decreases pieces@.len(),
    {
        let ghost all = views(pieces@);
        pieces.pop();
        proof {
            assert(views(pieces@) =~= all.drop_last());
        }
    }
    proof {
        let all = views(pieces@);
        assert(all.len() > 0 ==> all.last() == pieces@.last()@);
    }
}

/// The label of an archive: its path relative to the memex directory.
pub fn status_label(memex_dir: &str, path: &str) -> (r: String)
    ensures
        r@ == relative(path@, memex_dir@),
{
    if !crate::paths::is_under(path, memex_dir) {
        return path.to_owned();
    }
    let n: usize = components_of(memex_dir).len();
    let mut pieces = split_at_char(path, '/');
    let ghost all = views(pieces@);
    let rooted = is_absolute(path);
    let apart = rooted || same_str(pieces[0].as_str(), ".");
    proof {
        reveal_strlit(".");
        assert("."@ =~= seq!['.']);
        assert(all[0] == pieces@[0]@);
    }
    if n > 0 {
        let names: usize = if apart {
            n - 1
        } else {
            n
        };
        let at = component_at(&pieces, names);
        let mut tail = pieces.split_off(at);
        proof {
            assert(views(tail@) =~= all.skip(at as int));
        }
        drop_open_end(&mut tail);
        return join_with(tail.as_slice(), "/");
    }
    drop_open_end(&mut pieces);
    if pieces.len() > 0 {
        join_with(pieces.as_slice(), "/")
    } else if rooted {
        "/".to_owned()
    } else if apart {
        ".".to_owned()
    } else {
        String::new()
    }
}

/// The label of a section of a report.
pub fn section_label(memex_dir: &str, path: &str, origin: SearchOrigin) -> (r: String)
    ensures
        r@ == relative(path@, memex_dir@),
{
    match origin {
        SearchOrigin::Archive => status_label(memex_dir, path),
    }
}

/// An occurrence as a document. An occurrence without an archive has no
/// `archive` field.
pub open spec fn occurrence_json(o: SearchOccurrence) -> Json {
    let id = ("conversation_id"@, opt_text(opt_view(o.conversation_id)));
    let field = ("field"@, Json::Text(o.field@));
    Json::Obj(
        match o.archive {
            Some(a) => seq![("archive"@, Json::Text(a@)), id, field],
            None => seq![id, field],
        },
    )
}

/// A snippet group as a document.
pub open spec fn group_json(g: SearchSnippetGroup) -> Json {
    Json::Obj(
        seq![
            ("snippet"@, Json::Text(g.snippet@)),
            ("field"@, Json::Text(g.field@)),
            (
                "occurrences"@,
                Json::Arr(
                    Seq::new(
                        g.occurrences@.len(),
                        |i: int| occurrence_json(g.occurrences@[i]),
                    ),
                ),
            ),
        ],
    )
}

/// Snippet groups as documents.
pub open spec fn groups_json(groups: Seq<SearchSnippetGroup>) -> Json {
    Json::Arr(Seq::new(groups.len(), |i: int| group_json(groups[i])))
}

/// The report document of the first `cap` groups.
pub open spec fn hits_json(groups: Seq<SearchSnippetGroup>, cap: int) -> Json {
    Json::Obj(seq![("hits"@, groups_json(groups.take(cap)))])
}

proof fn lemma_field_names()
    ensures
        "archive"@ != "conversation_id"@,
        "archive"@ != "field"@,
        "conversation_id"@ != "field"@,
        "snippet"@ != "field"@,
        "snippet"@ != "occurrences"@,
        "field"@ != "occurrences"@,
{
    reveal_strlit("archive");
    reveal_strlit("conversation_id");
    reveal_strlit("field");
    reveal_strlit("snippet");
    reveal_strlit("occurrences");
    assert("archive"@.len() != "conversation_id"@.len());
    assert("archive"@.len() != "field"@.len());
    assert("conversation_id"@.len() != "field"@.len());
    assert("snippet"@.len() != "field"@.len());
    assert("snippet"@.len() != "occurrences"@.len());
    assert("field"@.len() != "occurrences"@.len());
}

fn occurrence_value(o: &SearchOccurrence) -> (r: serde_json::Value)
    ensures
        json_of(r) == occurrence_json(*o),
{
    proof {
        lemma_field_names();
    }
    let id = opt_text_value(&o.conversation_id);
    let field = text_value(o.field);
    match &o.archive {
        Some(a) => object3("archive", text_value(a.as_str()), "conversation_id", id, "field", field),
        None => object2("conversation_id", id, "field", field),
    }
}

fn group_value(g: &SearchSnippetGroup) -> (r: serde_json::Value)
    ensures
        json_of(r) == group_json(*g),
{
    let mut rows: Vec<serde_json::Value> = Vec::new();
    let mut i: usize = 0;
    while i < g.occurrences.len()
        invariant
            i <= g.occurrences@.len(),
            rows@.len() == i,
            forall|k: int|
                0 <= k < i ==> json_of(#[trigger] rows@[k]) == occurrence_json(g.occurrences@[k]),
        decreases g.occurrences.len() - i,
    {
        rows.push(occurrence_value(&g.occurrences[i]));
        i = i + 1;
    }
    proof {
        lemma_field_names();
        assert(jsons(rows@) =~= Seq::new(
            g.occurrences@.len(),
            |i: int| occurrence_json(g.occurrences@[i]),
        ));
    }
    object3(
        "snippet",
        text_value(g.snippet.as_str()),
        "field",
        text_value(g.field),
        "occurrences",
        array_value(rows),
    )
}

/// The report document of the first `cap` groups.
pub fn hits_value(groups: &Vec<SearchSnippetGroup>, cap: usize) -> (r: serde_json::Value)
    requires
        cap <= groups@.len(),
    ensures
        json_of(r) == hits_json(groups@, cap as int),
{
    let mut rows: Vec<serde_json::Value> = Vec::new();
    let mut i: usize = 0;
    while i < cap
        invariant
            i <= cap <= groups@.len(),
            rows@.len() == i,
            forall|k: int| 0 <= k < i ==> json_of(#[trigger] rows@[k]) == group_json(groups@[k]),
        decreases cap - i,
    {
        rows.push(group_value(&groups[i]));
        i = i + 1;
    }
    proof {
        assert(jsons(rows@) =~= groups_json(groups@.take(cap as int))->Arr_0);
    }
    object1("hits", array_value(rows))
}

/// The report of snippet groups and how many groups it shows, or the message
/// of an encoder.
pub open spec fn report(
    groups: Seq<SearchSnippetGroup>,
    exec: SearchExec,
    omitted: nat,
) -> Result<Seq<char>, Seq<char>> {
    let cap = print_cap(groups.len(), exec.max_count as nat);
    match exec.format.wire_format() {
        None => Ok(report_text(groups, exec.max_count as nat, omitted)),
        Some(wire) => match encoded(hits_json(groups, cap as int), wire) {
            Ok(s) => Ok(s + "\n"@),
            Err(e) => Err(e),
        },
    }
}

/// `r` is the report `want` that shows `cap` groups.
pub open spec fn reported(
    want: Result<Seq<char>, Seq<char>>,
    cap: nat,
    r: Result<(String, usize), Error>,
) -> bool {
    match r {
        Ok(p) => want == Ok::<Seq<char>, Seq<char>>(p.0@) && p.1 == cap,
        Err(Error::InvalidParams(m)) => want == Err::<Seq<char>, Seq<char>>(m@),
        Err(_) => false,
    }
}

/// The report of snippet groups, and how many groups it shows.
pub fn write_search_report(
    groups: &Vec<SearchSnippetGroup>,
    exec: SearchExec,
    duplicate_omitted: usize,
) -> (r: Result<(String, usize), Error>)
    ensures
        reported(
            report(groups@, exec, duplicate_omitted as nat),
            print_cap(groups@.len(), exec.max_count as nat),
            r,
        ),
{
    match exec.format.wire() {
        None => Ok(write_snippet_groups(groups, exec.max_count, duplicate_omitted)),
        Some(wire) => write_encoded_hits(groups, exec, wire),
    }
}

fn write_encoded_hits(
    groups: &Vec<SearchSnippetGroup>,
    exec: SearchExec,
    format: WireFormat,
) -> (r: Result<(String, usize), Error>)
    requires
        exec.format.wire_format() == Some(format),
    ensures
        reported(
            report(groups@, exec, 0),
            print_cap(groups@.len(), exec.max_count as nat),
            r,
        ),
{
    let cap = printed_count(groups.len(), exec.max_count);
    let value = hits_value(groups, cap);
    match encode_rpc(&value, format) {
        Ok(s) => Ok((cat(s.as_str(), "\n"), cap)),
        Err(e) => Err(Error::InvalidParams(e)),
    }
}

/// `r` is the report of one archive. A report for people opens with the path
/// of the archive.
pub open spec fn reports_one(
    path: &str,
    hits: Seq<SearchHit>,
    exec: SearchExec,
    duplicate_omitted: nat,
    r: Result<(String, usize), Error>,
) -> bool {
    match exec.format {
        SearchFormat::Human => exists|groups: Seq<SearchSnippetGroup>| #[trigger]
            groups_of(None, hits, groups) && reported(
                Ok(
                    path@ + "\n"@ + report_text(groups, exec.max_count as nat, duplicate_omitted),
                ),
                print_cap(groups.len(), exec.max_count as nat),
                r,
            ),
        _ => exists|groups: Seq<SearchSnippetGroup>| #[trigger]
            groups_of(Some(path), hits, groups) && reported(
                report(groups, exec, duplicate_omitted),
                print_cap(groups.len(), exec.max_count as nat),
                r,
            ),
    }
}

/// The report of one archive, and how many groups it shows. A report for
/// people opens with the path of the archive.
pub fn write_one_archive_report(
    path: &str,
    hits: &Vec<SearchHit>,
    exec: SearchExec,
    duplicate_omitted: usize,
) -> (r: Result<(String, usize), Error>)
    ensures
        reports_one(path, hits@, exec, duplicate_omitted as nat, r),
{
    match exec.format {
        SearchFormat::Human => {
            let (text, shown) = write_hits_grouped(hits, exec.max_count, duplicate_omitted);
            Ok((cat3(path, "\n", text.as_str()), shown))
        },
        _ => {
            let groups = group_hits(Some(path), hits);
            write_search_report(&groups, exec, duplicate_omitted)
        },
    }
}

/// `r` is the report of a search of one archive file.
pub open spec fn reports_search(
    path: &str,
    b: Seq<u8>,
    ids: Seq<Option<String>>,
    pattern: Seq<char>,
    exec: SearchExec,
    r: Result<(String, usize), Error>,
) -> bool {
    exists|found: Result<UniqueHits, Error>|
        {
            &&& #[trigger] pattern_found(pattern, exec.flags, b, ids, found)
            &&& match found {
                Ok(u) => reports_one(path, u.hits@, exec, u.duplicate_omitted as nat, r),
                Err(e) => r == Err::<(String, usize), Error>(e),
            }
        }
}

/// Searches one archive and reports the hits, with how many groups are shown.
pub fn write_search_exec(
    path: &str,
    archive: &Archive,
    ids: &Vec<Option<String>>,
    pattern: &str,
    exec: SearchExec,
) -> (r: Result<(String, usize), Error>)
    requires
        archive.wf(),
    ensures
        reports_search(path, archive.file(), ids@, pattern@, exec, r),
{
    match search_one_archive_pattern(archive, ids, pattern, exec.flags) {
        Ok(found) => {
            let r = write_one_archive_report(path, &found.hits, exec, found.duplicate_omitted);
            proof {
                let all: Result<UniqueHits, Error> = Ok(found);
                assert(pattern_found(pattern@, exec.flags, archive.file(), ids@, all));
            }
            r
        },
        Err(e) => {
            proof {
                let none: Result<UniqueHits, Error> = Err(e);
                assert(pattern_found(pattern@, exec.flags, archive.file(), ids@, none));
            }
            Err(e)
        },
    }
}

/// Searches one archive with these flags and reports the hits for people.
pub fn write_search_with(
    path: &str,
    archive: &Archive,
    ids: &Vec<Option<String>>,
    pattern: &str,
    flags: SearchFlags,
) -> (r: Result<(String, usize), Error>)
    requires
        archive.wf(),
    ensures
        reports_search(path, archive.file(), ids@, pattern@, exec_with(flags), r),
{
    write_search_exec(path, archive, ids, pattern, SearchExec::from(flags))
}

/// Searches one archive and reports the hits for people.
pub fn write_search(
    path: &str,
    archive: &Archive,
    ids: &Vec<Option<String>>,
    pattern: &str,
    ignore_case: bool,
) -> (r: Result<(String, usize), Error>)
    requires
        archive.wf(),
    ensures
        reports_search(
            path,
            archive.file(),
            ids@,
            pattern@,
            exec_with(SearchFlags { ignore_case, fixed_strings: false, word_regexp: false }),
            r,
        ),
{
    write_search_with(
        path,
        archive,
        ids,
        pattern,
        SearchFlags { ignore_case, fixed_strings: false, word_regexp: false },
    )
}

/// The archives that a search of all of them reads. No archive is an error.
pub fn archives_to_search(memex_dir: &str, listed: Vec<String>) -> (r: Result<Vec<String>, Error>)
    ensures
        match r {
            Ok(v) => v == listed && listed@.len() > 0,
            Err(Error::NoArchives(d)) => listed@.len() == 0 && d@ == memex_dir@,
            Err(_) => false,
        },
{
    if listed.len() == 0 {
        return Err(Error::NoArchives(memex_dir.to_owned()));
    }
    Ok(listed)
}

/// What searching one mapped archive gave.
#[derive(Debug)]
pub struct ArchiveResult {
    pub path: String,
    pub found: Result<UniqueHits, Error>,
}

/// A finished search over archives.
#[derive(Debug)]
pub struct SearchRun {
    /// The archives that could be searched, in path order.
    pub groups: Vec<SearchGroup>,
    /// One status for each archive.
    pub statuses: Vec<SearchStatus>,
    /// The archives that could not be searched.
    pub unreadable: Vec<(String, Error)>,
}

/// The groups of the archives that could be searched.
pub open spec fn readable_groups(results: Seq<ArchiveResult>) -> Seq<SearchGroup>
    decreases results.len(),
{
    if results.len() == 0 {
        Seq::empty()
    } else {
        let head = readable_groups(results.drop_last());
        match results.last().found {
            Ok(found) => head.push(
                SearchGroup {
                    path: results.last().path,
                    origin: SearchOrigin::Archive,
                    hits: found.hits,
                    duplicate_omitted: found.duplicate_omitted,
                },
            ),
            Err(_) => head,
        }
    }
}

/// The archives that could not be searched, with their errors.
pub open spec fn unreadable_archives(results: Seq<ArchiveResult>) -> Seq<(String, Error)>
    decreases results.len(),
{
    if results.len() == 0 {
        Seq::empty()
    } else {
        let head = unreadable_archives(results.drop_last());
        match results.last().found {
            Ok(_) => head,
            Err(e) => head.push((results.last().path, e)),
        }
    }
}

/// `n` as far as it fits.
pub open spec fn at_most_max(n: nat) -> nat {
    if n <= usize::MAX {
        n
    } else {
        usize::MAX as nat
    }
}

/// Hits of all groups together.
pub open spec fn hit_total(groups: Seq<SearchGroup>) -> nat
    decreases groups.len(),
{
    if groups.len() == 0 {
        0
    } else {
        hit_total(groups.drop_last()) + groups.last().hits@.len()
    }
}

/// `s` is the status after `n` of the archives are searched.
pub open spec fn status_after(
    memex_dir: Seq<char>,
    results: Seq<ArchiveResult>,
    n: int,
    s: SearchStatus,
) -> bool {
    match s {
        SearchStatus::Archive { completed, total, archive, unique_hits } => {
            &&& completed == n
            &&& total == results.len()
            &&& archive@ == relative(results[n - 1].path@, memex_dir)
            &&& unique_hits == at_most_max(hit_total(readable_groups(results.take(n))))
        },
        _ => false,
    }
}

/// Groups in path order.
pub open spec fn in_path_order(groups: Seq<SearchGroup>) -> bool {
    forall|i: int, j: int|
        0 <= i < j < groups.len() ==> !crate::order::before(
            path_key((#[trigger] groups[j]).path@),
            path_key((#[trigger] groups[i]).path@),
        )
}

/// Puts a group in its place.
fn insert_group(groups: &mut Vec<SearchGroup>, g: SearchGroup)
    requires
        in_path_order(old(groups)@),
    ensures
        in_path_order(final(groups)@),
        final(groups)@.to_multiset() == old(groups)@.to_multiset().insert(g),
{
    let key = path_key_of(g.path.as_str());
    let ghost old_groups = groups@;
    let mut i: usize = groups.len();
    while i > 0
        invariant
            groups@ == old_groups,
            i <= groups@.len(),
            key@ == path_key(g.path@),
            forall|k: int|
                i <= k < groups@.len() ==> crate::order::before(
                    key@,
                    path_key((#[trigger] groups@[k]).path@),
                ),
        ensures
            i <= groups@.len(),
            i > 0 ==> !crate::order::before(key@, path_key(groups@[i - 1].path@)),
            groups@ == old_groups,
            forall|k: int|
                i <= k < groups@.len() ==> crate::order::before(
                    key@,
                    path_key((#[trigger] groups@[k]).path@),
                ),
        decreases i,
    {
        let other = path_key_of(groups[i - 1].path.as_str());
        if !crate::order::is_before(key.as_str(), other.as_str()) {
            break;
        }
        i = i - 1;
    }
    groups.insert(i, g);
    proof {
        let now = groups@;
        assert forall|a: int, b: int| 0 <= a < b < now.len() implies !crate::order::before(
            path_key((#[trigger] now[b]).path@),
            path_key((#[trigger] now[a]).path@),
        ) by {
            let ka = path_key(now[a].path@);
            let kb = path_key(now[b].path@);
            if a == i {
                assert(now[b] == old_groups[b - 1]);
                crate::order::law_string_order(ka, kb, ka);
            } else if b == i {
                assert(now[a] == old_groups[a]);
                if i - 1 == a {
                } else {
                    let kl = path_key(old_groups[i - 1].path@);
                    assert(!crate::order::before(kl, ka));
                    crate::order::law_string_order(ka, kl, kb);
                    crate::order::law_string_order(kb, ka, kl);
                    crate::order::law_string_order(kl, kb, ka);
                }
            } else {
                let x = if a < i {
                    a
                } else {
                    a - 1
                };
                let y = if b < i {
                    b
                } else {
                    b - 1
                };
                assert(now[a] == old_groups[x]);
                assert(now[b] == old_groups[y]);
            }
        }
        old_groups.to_multiset_ensures();
        vstd::seq_lib::to_multiset_insert(old_groups, i as int, g);
    }
}

/// `r` is what the results of the archives make together: the groups of
/// those that could be searched, in path order, and a status for each.
pub open spec fn collected(
    memex_dir: Seq<char>,
    results: Seq<ArchiveResult>,
    r: SearchRun,
) -> bool {
    &&& in_path_order(r.groups@)
    &&& r.groups@.to_multiset() == readable_groups(results).to_multiset()
    &&& r.unreadable@ == unreadable_archives(results)
    &&& r.statuses@.len() == results.len()
    &&& forall|i: int|
        0 <= i < results.len() ==> status_after(
            memex_dir,
            results,
            i + 1,
            #[trigger] r.statuses@[i],
        )
}

/// Collects what searching each archive gave. The caller maps the archives
/// and may search them in parallel.
pub fn collect_results(memex_dir: &str, results: Vec<ArchiveResult>) -> (r: SearchRun)
    ensures
        collected(memex_dir@, results@, r),
{
    let ghost all = results@;
    let total: usize = results.len();
    let mut rest = results;
    let mut groups: Vec<SearchGroup> = Vec::new();
    let mut statuses: Vec<SearchStatus> = Vec::new();
    let mut unreadable: Vec<(String, Error)> = Vec::new();
    let mut unique: usize = 0;
    let mut done: usize = 0;
    proof {
        assert(all.take(0) =~= Seq::<ArchiveResult>::empty());
        assert(all.skip(0) =~= all);
        assert(groups@ =~= Seq::<SearchGroup>::empty());
    }
    while done < total
        invariant
            done <= total,
            total == all.len(),
            rest@ == all.skip(done as int),
            in_path_order(groups@),
            groups@.to_multiset() == readable_groups(all.take(done as int)).to_multiset(),
            unreadable@ == unreadable_archives(all.take(done as int)),
            unique == at_most_max(hit_total(readable_groups(all.take(done as int)))),
            statuses@.len() == done,
            forall|i: int|
                0 <= i < done ==> status_after(memex_dir@, all, i + 1, #[trigger] statuses@[i]),
        decreases total - done,
    {
        let item = rest.remove(0);
        let ghost now = all.take(done as int);
        let ghost next = all.take(done + 1);
        proof {
            assert(next.drop_last() =~= now);
            assert(next.last() == all[done as int]);
            assert(item == all[done as int]);
            assert(rest@ =~= all.skip(done + 1));
        }
        let label = status_label(memex_dir, item.path.as_str());
        done = done + 1;
        match item.found {
            Ok(found) => {
                let n: usize = found.hits.len();
                unique = unique.saturating_add(n);
                let g = SearchGroup {
                    path: item.path,
                    origin: SearchOrigin::Archive,
                    hits: found.hits,
                    duplicate_omitted: found.duplicate_omitted,
                };
                proof {
                    let head = readable_groups(now);
                    assert(readable_groups(next) == head.push(g));
                    head.to_multiset_ensures();
                    assert(head.push(g).drop_last() =~= head);
                }
                insert_group(&mut groups, g);
            },
            Err(e) => {
                unreadable.push((item.path, e));
            },
        }
        statuses.push(
            SearchStatus::Archive { completed: done, total, archive: label, unique_hits: unique },
        );
    }
    proof {
        assert(all.take(all.len() as int) =~= all);
    }
    SearchRun { groups, statuses, unreadable }
}

/// The hits of the groups at the positions `p`, each with the label of its
/// group.
pub open spec fn labeled_hits(
    groups: Seq<SearchGroup>,
    labels: Seq<String>,
    p: Seq<usize>,
) -> Seq<(Seq<char>, SearchHit)>
    decreases p.len(),
{
    if p.len() == 0 {
        Seq::empty()
    } else {
        let g = p.last() as int;
        labeled_hits(groups, labels, p.drop_last()) + Seq::new(
            groups[g].hits@.len(),
            |i: int| (labels[g]@, groups[g].hits@[i]),
        )
    }
}

/// Duplicates of the groups with hits, at the positions `p`.
pub open spec fn omitted_total(groups: Seq<SearchGroup>, p: Seq<usize>) -> nat
    decreases p.len(),
{
    if p.len() == 0 {
        0
    } else {
        let g = groups[p.last() as int];
        omitted_total(groups, p.drop_last()) + if g.hits@.len() > 0 {
            g.duplicate_omitted as nat
        } else {
            0
        }
    }
}

/// `labeled` are the labeled hits `want`.
pub open spec fn is_labeled(labeled: Seq<LabeledHit>, want: Seq<(Seq<char>, SearchHit)>) -> bool {
    &&& labeled.len() == want.len()
    &&& forall|i: int|
        0 <= i < want.len() ==> crate::paths::opt_str((#[trigger] labeled[i]).archive) == Some(
            want[i].0,
        ) && *labeled[i].hit == want[i].1
}

/// `sections` sort the groups by label.
pub open spec fn by_label(
    memex_dir: Seq<char>,
    groups: Seq<SearchGroup>,
    keys: Seq<String>,
    p: Seq<usize>,
) -> bool {
    &&& keys.len() == groups.len()
    &&& forall|i: int|
        0 <= i < groups.len() ==> (#[trigger] keys[i])@ == path_key(
            relative(groups[i].path@, memex_dir),
        )
    &&& sorted_positions(keys, 0, keys.len() as int, p)
}

/// The labels in a report: paths relative to the memex directory for people,
/// whole paths in a document.
pub open spec fn is_labels(
    memex_dir: Seq<char>,
    groups: Seq<SearchGroup>,
    format: SearchFormat,
    labels: Seq<String>,
) -> bool {
    &&& labels.len() == groups.len()
    &&& forall|i: int|
        0 <= i < groups.len() ==> (#[trigger] labels[i])@ == if format == SearchFormat::Human {
            relative(groups[i].path@, memex_dir)
        } else {
            groups[i].path@
        }
}

/// `sg` are the snippet groups of `labeled`.
pub open spec fn snippet_groups_of(
    labeled: Seq<LabeledHit>,
    sg: Seq<SearchSnippetGroup>,
) -> bool {
    &&& sg.len() == distinct(texts_of(labeled)).len()
    &&& forall|i: int|
        0 <= i < sg.len() ==> group_of(labeled, distinct(texts_of(labeled))[i], #[trigger] sg[i])
}

/// `r` reports all groups: one snippet for each body, in the order of the
/// labels, with the print cap over all of them.
pub open spec fn reports_all(
    memex_dir: Seq<char>,
    groups: Seq<SearchGroup>,
    exec: SearchExec,
    r: Result<(String, usize), Error>,
) -> bool {
    exists|
        keys: Seq<String>,
        p: Seq<usize>,
        labels: Seq<String>,
        labeled: Seq<LabeledHit>,
        sg: Seq<SearchSnippetGroup>,
    |
        {
            &&& #[trigger] by_label(memex_dir, groups, keys, p)
            &&& is_labels(memex_dir, groups, exec.format, labels)
            &&& #[trigger] is_labeled(labeled, labeled_hits(groups, labels, p))
            &&& #[trigger] snippet_groups_of(labeled, sg)
            &&& reported(
                report(sg, exec, at_most_max(omitted_total(groups, p))),
                print_cap(sg.len(), exec.max_count as nat),
                r,
            )
        }
}

/// Report labels of groups, and their sort keys.
fn label_groups(memex_dir: &str, groups: &Vec<SearchGroup>, format: SearchFormat) -> (r: (
    Vec<String>,
    Vec<String>,
))
    ensures
        is_labels(memex_dir@, groups@, format, r.0@),
        r.1@.len() == groups@.len(),
        forall|i: int|
            0 <= i < groups@.len() ==> (#[trigger] r.1@[i])@ == path_key(
                relative(groups@[i].path@, memex_dir@),
            ),
{
    let mut labels: Vec<String> = Vec::new();
    let mut keys: Vec<String> = Vec::new();
    let mut i: usize = 0;
    while i < groups.len()
        invariant
            i <= groups@.len(),
            labels@.len() == i,
            keys@.len() == i,
            forall|k: int|
                0 <= k < i ==> (#[trigger] labels@[k])@ == if format == SearchFormat::Human {
                    relative(groups@[k].path@, memex_dir@)
                } else {
                    groups@[k].path@
                },
            forall|k: int|
                0 <= k < i ==> (#[trigger] keys@[k])@ == path_key(
                    relative(groups@[k].path@, memex_dir@),
                ),
        decreases groups.len() - i,
    {
        let label = section_label(memex_dir, groups[i].path.as_str(), groups[i].origin);
        keys.push(path_key_of(label.as_str()));
        match format {
            SearchFormat::Human => {
                labels.push(label);
            },
            _ => {
                labels.push(groups[i].path.clone());
            },
        }
        i = i + 1;
    }
    (labels, keys)
}

/// The report over all archives: one snippet for each body, with the places
/// where it appeared.
pub fn write_search_all_exec(memex_dir: &str, groups: &Vec<SearchGroup>, exec: SearchExec) -> (r:
    Result<(String, usize), Error>)
    ensures
        reports_all(memex_dir@, groups@, exec, r),
{
    let (labels, keys) = label_groups(memex_dir, groups, exec.format);
    let p = sort_order(&keys);
    let mut labeled: Vec<LabeledHit> = Vec::new();
    let mut omitted: usize = 0;
    let mut i: usize = 0;
    let ghost lp = p@;
    proof {
        assert(lp.take(0) =~= Seq::<usize>::empty());
    }
    while i < p.len()
        invariant
            i <= p@.len(),
            p@.len() == p.len(),
            lp == p@,
            keys@.len() == groups@.len(),
            labels@.len() == groups@.len(),
            sorted_positions(keys@, 0, keys@.len() as int, p@),
            is_labeled(labeled@, labeled_hits(groups@, labels@, lp.take(i as int))),
            omitted == at_most_max(omitted_total(groups@, lp.take(i as int))),
        decreases p.len() - i,
    {
        proof {
            assert(p@.contains(p@[i as int]));
            assert(lp.take(i + 1).drop_last() =~= lp.take(i as int));
            assert(lp.take(i + 1).last() == p@[i as int]);
        }
        let g = p[i];
        let group = &groups[g];
        let ghost head = labeled_hits(groups@, labels@, lp.take(i as int));
        let ghost more = Seq::new(
            group.hits@.len(),
            |i: int| (labels@[g as int]@, group.hits@[i]),
        );
        if group.hits.len() > 0 {
            omitted = omitted.saturating_add(group.duplicate_omitted);
        }
        let mut j: usize = 0;
        proof {
            assert(head + more.take(0) =~= head);
        }
        while j < group.hits.len()
            invariant
                j <= group.hits@.len(),
                g < labels@.len(),
                more == Seq::new(
                    group.hits@.len(),
                    |i: int| (labels@[g as int]@, group.hits@[i]),
                ),
                is_labeled(labeled@, head + more.take(j as int)),
            decreases group.hits.len() - j,
        {
            labeled.push(LabeledHit { archive: Some(labels[g].as_str()), hit: &group.hits[j] });
            proof {
                assert(head + more.take(j + 1) =~= (head + more.take(j as int)).push(
                    more[j as int],
                ));
            }
            j = j + 1;
        }
        proof {
            assert(more.take(more.len() as int) =~= more);
        }
        i = i + 1;
    }
    proof {
        assert(lp.take(lp.len() as int) =~= lp);
    }
    let sg = group_snippet_occurrences(&labeled);
    let r = write_search_report(&sg, exec, omitted);
    proof {
        assert(by_label(memex_dir@, groups@, keys@, p@));
        assert(is_labeled(labeled@, labeled_hits(groups@, labels@, p@)));
        assert(snippet_groups_of(labeled@, sg@));
    }
    r
}

/// The formats of a search report, in either case and with white space around
/// the name. Another name is refused.
pub proof fn law_report_formats(name: Seq<char>)
    ensures
        format_of(name) == Some(SearchFormat::Human) <==> lower(trim(name)) == "human"@,
        format_of(name) == Some(SearchFormat::Json) <==> lower(trim(name)) == "json"@,
        format_of(name) == Some(SearchFormat::Toon) <==> lower(trim(name)) == "toon"@,
        SearchFormat::Json.wire_format() == Some(WireFormat::Json),
        SearchFormat::Toon.wire_format() == Some(WireFormat::Toon),
        SearchFormat::Human.wire_format() is None,
{
    reveal_strlit("human");
    reveal_strlit("json");
    reveal_strlit("toon");
    assert("human"@.len() == 5 && "json"@[0] == 'j' && "toon"@[0] == 't');
}

proof fn lemma_from_component(a: Seq<Seq<char>>, b: Seq<Seq<char>>)
    ensures
        from_component(a + b, a.filter(keeps()).len() as int) == from_component(b, 0),
    decreases a.len(),
{
    let k = keeps();
    if a.len() == 0 {
        assert(a + b =~= b);
        reveal(Seq::filter);
    } else {
        let (x, rest) = (a[0], a.drop_first());
        lemma_from_component(rest, b);
        assert((a + b).drop_first() =~= rest + b);
        assert(seq![x] + rest =~= a);
        Seq::filter_distributes_over_add(seq![x], rest, k);
        reveal_with_fuel(Seq::filter, 2);
        assert(seq![x].drop_last() =~= Seq::<Seq<char>>::empty());
        if kept_component(x) {
            assert(seq![x].filter(k).len() == 1);
        } else {
            assert(seq![x].filter(k).len() == 0);
        }
    }
}

/// What lies below a folder is labelled by its name alone, and what does not
/// by its whole path.
pub proof fn law_relative_label(base: Seq<char>, name: Seq<char>, path: Seq<char>)
    requires
        plain_name(name),
        components(base).len() > 0,
    ensures
        relative(joined(base, name), base) == name,
        !under(path, base) ==> relative(path, base) == path,
{
    let there = joined(base, name);
    law_joined_name(base, name);
    let k = keeps();
    assert(base.len() > 0) by {
        if base.len() == 0 {
            law_no_components();
            assert(base =~= Seq::<char>::empty());
        }
    }
    assert(name.contains(name[0]));
    lemma_split_nonempty(base, either('/', '/'));
    lemma_split_before(Seq::empty(), '/', name);
    assert(Seq::<char>::empty() + name =~= name);
    assert(split_char(name, '/') =~= seq![name]);
    let none = Seq::<char>::empty();
    let pieces = split_char(there, '/');
    let n = components(base).len() as int;
    let front = pieces.drop_last();
    if base.last() == '/' {
        let b0 = base.drop_last();
        assert(there =~= b0 + seq!['/'] + name);
        assert(base =~= b0 + seq!['/'] + none);
        lemma_split_around(b0, '/', name);
        lemma_split_around(b0, '/', none);
        lemma_split_nonempty(b0, either('/', '/'));
        let x = split_char(b0, '/');
        assert(front =~= x);
        assert(split_char(none, '/') =~= seq![none]);
        Seq::filter_distributes_over_add(x, seq![none], k);
        assert(seq![none].filter(k).len() == 0) by {
            reveal_with_fuel(Seq::filter, 2);
            assert(seq![none].drop_last() =~= Seq::<Seq<char>>::empty());
        }
        assert(split_char(base, '/')[0] == x[0]);
    } else {
        lemma_split_around(base, '/', name);
        assert(front =~= split_char(base, '/'));
    }
    assert(pieces =~= front + seq![name]);
    assert(pieces[0] == front[0]);
    assert(there[0] == base[0]);
    lemma_from_component(front, seq![name]);
    assert(kept_component(name));
    assert(from_component(seq![name], 0) == seq![name]);
    assert(to_component(seq![name]) == seq![name]);
    assert(front.filter(k).len() == if opens_apart(there) {
        n - 1
    } else {
        n
    });
    if n == 1 && opens_apart(there) {
        assert(front.filter(k).len() == 0);
    }
    assert(join(seq![name], "/"@) == name);
}

/// An archive that was read gives a group with its path and its hits, and one
/// that was not is reported with its error. None is lost and none made up.
pub proof fn law_every_archive_is_answered(results: Seq<ArchiveResult>, i: int)
    requires
        0 <= i < results.len(),
    ensures
        readable_groups(results).len() + unreadable_archives(results).len() == results.len(),
        match results[i].found {
            Ok(found) => exists|k: int|
                0 <= k < readable_groups(results).len() && (#[trigger] readable_groups(
                    results,
                )[k]).path == results[i].path && readable_groups(results)[k].hits == found.hits
                    && readable_groups(results)[k].duplicate_omitted == found.duplicate_omitted,
            Err(e) => unreadable_archives(results).contains((results[i].path, e)),
        },
    decreases results.len(),
{
    let n = results.len() - 1;
    let init = results.drop_last();
    let (a, b) = (readable_groups(init), unreadable_archives(init));
    let (x, y) = (readable_groups(results), unreadable_archives(results));
    if i < n {
        law_every_archive_is_answered(init, i);
        assert(init[i] == results[i]);
        match results[i].found {
            Ok(found) => {
                let k = choose|k: int|
                    0 <= k < a.len() && (#[trigger] a[k]).path == results[i].path && a[k].hits
                        == found.hits && a[k].duplicate_omitted == found.duplicate_omitted;
                assert(x[k] == a[k]);
            },
            Err(e) => {
                let k = choose|k: int| 0 <= k < b.len() && b[k] == (results[i].path, e);
                assert(y[k] == b[k]);
            },
        }
    } else {
        lemma_answers(init);
        match results[n].found {
            Ok(found) => {
                assert(x[a.len() as int].path == results[n].path);
            },
            Err(e) => {
                assert(y[b.len() as int] == (results[n].path, e));
            },
        }
    }
}

proof fn lemma_answers(results: Seq<ArchiveResult>)
    ensures
        readable_groups(results).len() + unreadable_archives(results).len() == results.len(),
    decreases results.len(),
{
    if results.len() > 0 {
        lemma_answers(results.drop_last());
    }
}

/// A report in JSON or TOON holds the shown groups: the snippet, the field and
/// every place of each.
pub proof fn law_report_document(groups: Seq<SearchSnippetGroup>, cap: int, i: int, k: int)
    requires
        0 <= i < cap <= groups.len(),
        0 <= k < groups[i].occurrences@.len(),
    ensures
        exists|all: Seq<Json>|
            {
                &&& #[trigger] all.len() == cap
                &&& hits_json(groups, cap) == Json::Obj(seq![("hits"@, Json::Arr(all))])
                &&& match all[i] {
                    Json::Obj(fs) => {
                        &&& lookup(fs, "snippet"@) == Some(Json::Text(groups[i].snippet@))
                        &&& lookup(fs, "field"@) == Some(Json::Text(groups[i].field@))
                        &&& match lookup(fs, "occurrences"@) {
                            Some(Json::Arr(places)) => places.len() == groups[i].occurrences@.len()
                                && match places[k] {
                                Json::Obj(gs) => {
                                    let o = groups[i].occurrences@[k];
                                    &&& lookup(gs, "field"@) == Some(Json::Text(o.field@))
                                    &&& o.conversation_id is Some ==> lookup(gs, "conversation_id"@)
                                        == Some(Json::Text(o.conversation_id->0@))
                                    &&& o.conversation_id is None ==> lookup(gs, "conversation_id"@)
                                        == Some(Json::Null)
                                    &&& o.archive is Some ==> lookup(gs, "archive"@) == Some(
                                        Json::Text(o.archive->0@),
                                    )
                                    &&& o.archive is None ==> lookup(gs, "archive"@) is None
                                },
                                _ => false,
                            },
                            _ => false,
                        }
                    },
                    _ => false,
                }
            },
{
    let shown = groups.take(cap);
    let all = Seq::new(shown.len(), |j: int| group_json(shown[j]));
    let g = groups[i];
    let o = g.occurrences@[k];
    reveal_with_fuel(lookup, 4);
    reveal_strlit("snippet");
    reveal_strlit("field");
    reveal_strlit("occurrences");
    reveal_strlit("conversation_id");
    reveal_strlit("archive");
    assert("snippet"@[0] == 's' && "field"@[0] == 'f' && "occurrences"@[0] == 'o'
        && "conversation_id"@[0] == 'c' && "archive"@[0] == 'a');
    assert(all[i] == group_json(g));
    let fs = group_json(g)->Obj_0;
    assert(fs.len() == 3);
    assert(fs.last().0 == "occurrences"@ && fs.drop_last().last().0 == "field"@
        && fs.drop_last().drop_last().last().0 == "snippet"@);
    let places = fs[2].1->Arr_0;
    assert(places[k] == occurrence_json(o));
    let gs = occurrence_json(o)->Obj_0;
    if o.archive is Some {
        assert(gs.last().0 == "field"@ && gs.drop_last().last().0 == "conversation_id"@
            && gs.drop_last().drop_last().last().0 == "archive"@);
    } else {
        assert(gs.last().0 == "field"@ && gs.drop_last().last().0 == "conversation_id"@);
        assert(gs.drop_last().drop_last().len() == 0);
    }
    assert(all.len() == cap);
}

/// The hits of all archives, each with the label of its own, in the order of
/// the archives. None is lost.
pub proof fn law_every_hit_is_labelled(
    groups: Seq<SearchGroup>,
    labels: Seq<String>,
    p: Seq<usize>,
    k: int,
    i: int,
)
    requires
        0 <= k < p.len(),
        0 <= i < groups[p[k] as int].hits@.len(),
    ensures
        labeled_hits(groups, labels, p).contains(
            (labels[p[k] as int]@, groups[p[k] as int].hits@[i]),
        ),
    decreases p.len(),
{
    let n = p.len() - 1;
    let init = p.drop_last();
    let head = labeled_hits(groups, labels, init);
    let all = labeled_hits(groups, labels, p);
    let want = (labels[p[k] as int]@, groups[p[k] as int].hits@[i]);
    if k < n {
        assert(init[k] == p[k]);
        law_every_hit_is_labelled(groups, labels, init, k, i);
        let j = choose|j: int| 0 <= j < head.len() && head[j] == want;
        assert(all[j] == want);
    } else {
        assert(all[head.len() + i] == want);
    }
}

} // verus!
