//! Runs a compiled query over the packed spans of an archive text.
//!
//! Each span (one title or one message) is searched by itself, so that an
//! AND of lookaheads means both terms in one span.
use grep_matcher::Matcher;
use vstd::prelude::*;
use vstd::utf8::{
    decode_utf8, decode_utf8_encode_utf8, decode_utf8_split, encode_utf8, encode_utf8_decode_utf8,
    encode_utf8_valid_utf8, is_char_boundary, is_char_boundary_iff_not_is_continuation_byte,
    is_char_boundary_start_end_of_seq, valid_utf8, valid_utf8_split,
};

use crate::archive::{span_of, spans_of, text_of, Archive, TextSpan, FIELD_MESSAGE, FIELD_SUMMARY, FIELD_TITLE};
use crate::index::span_str;
use crate::paths::opt_view;
use crate::query::{
    compile_fault, compile_model, compile_query, compiles_to, CompiledQuery, QueryKind, QueryModel,
};
use crate::search::{
    by_conversation, copied_opt, firsts, law_grouping_keeps_hits, law_one_hit_for_each_text,
    unique_hits, SearchFlags, SearchHit, UniqueHits,
};
use crate::text::{chars_of, find_first, first_index, law_places, string_range};
use crate::utf::{byte_len, lemma_encode_concat, str_range, text_range};
use crate::{Error, IoKind};

verus! {

/// `grep_pcre2::RegexMatcher`.
#[verifier::external_type_specification]
#[verifier::external_body]
pub struct ExRegexMatcher(grep_pcre2::RegexMatcher);

/// Pattern, caseless, fixed strings, word, multi-line, dotall, extended.
pub type PatternModel = (Seq<char>, bool, bool, bool, bool, bool, bool);

/// The pattern and options that a matcher was built from.
pub uninterp spec fn built_from(m: grep_pcre2::RegexMatcher) -> (
    Seq<char>,
    bool,
    bool,
    bool,
    bool,
    bool,
    bool,
);

/// What PCRE2 says of a pattern that it refuses.
pub uninterp spec fn refusal(q: (Seq<char>, bool, bool, bool, bool, bool, bool)) -> Option<
    Seq<char>,
>;

/// Numbers of the lines of a text that match, counted from one.
pub uninterp spec fn matching_lines(
    q: (Seq<char>, bool, bool, bool, bool, bool, bool),
    text: Seq<char>,
) -> Seq<u64>;

/// Byte ranges of the successive matches in a line.
pub uninterp spec fn matching_ranges(
    q: (Seq<char>, bool, bool, bool, bool, bool, bool),
    line: Seq<char>,
) -> Seq<(usize, usize)>;

/// The lines of a text, each with its line feed.
pub open spec fn lines(s: Seq<char>) -> Seq<Seq<char>>
    decreases s.len(),
    via lines_decreases
{
    if s.len() == 0 {
        Seq::empty()
    } else {
        let n = first_index(s, '\n');
        if n == s.len() {
            seq![s]
        } else {
            seq![s.take(n + 1)] + lines(s.skip(n + 1))
        }
    }
}

#[via_fn]
proof fn lines_decreases(s: Seq<char>) {
    lemma_first_index(s, '\n');
}

proof fn lemma_first_index(s: Seq<char>, c: char)
    ensures
        0 <= first_index(s, c) <= s.len(),
    decreases s.len(),
{
    if s.len() > 0 && s[0] != c {
        lemma_first_index(s.drop_first(), c);
    }
}

/// How many characters the first item of a pattern takes: one, an escape, or
/// a control character with its letter.
pub open spec fn item_len(s: Seq<char>) -> int {
    if s.len() >= 3 && s[0] == '\\' && s[1] == 'c' {
        3
    } else if s.len() >= 2 && s[0] == '\\' {
        2
    } else {
        1
    }
}

/// A pattern starts with `\K`, which moves the start of a match.
pub open spec fn starts_reset(s: Seq<char>) -> bool {
    s.len() >= 2 && s[0] == '\\' && s[1] == 'K'
}

/// A decimal digit.
pub open spec fn digit(c: char) -> bool {
    '0' <= c <= '9'
}

/// A pattern starts with a call of a group, or of the whole pattern.
pub open spec fn starts_call(s: Seq<char>) -> bool {
    ||| s.len() >= 3 && s[0] == '\\' && s[1] == 'g' && (s[2] == '<' || s[2] == '\'')
    ||| s.len() >= 3 && s[0] == '(' && s[1] == '?' && (s[2] == 'R' || s[2] == '&' || digit(s[2]))
    ||| s.len() >= 4 && s[0] == '(' && s[1] == '?' && (s[2] == '+' || s[2] == '-') && digit(s[3])
    ||| s.len() >= 4 && s[0] == '(' && s[1] == '?' && s[2] == 'P' && s[3] == '>'
}

/// `\K` stands in a pattern.
pub open spec fn has_reset(s: Seq<char>) -> bool
    decreases s.len(),
{
    s.len() > 0 && (starts_reset(s) || has_reset(s.skip(item_len(s))))
}

/// A call of a group, or of the whole pattern, stands in a pattern.
pub open spec fn has_call(s: Seq<char>) -> bool
    decreases s.len(),
{
    s.len() > 0 && (starts_call(s) || has_call(s.skip(item_len(s))))
}

/// A pattern starts with a part that puts the place in the text back where it
/// was: a lookaround, or anything written with a lower-case name.
pub open spec fn starts_look(s: Seq<char>) -> bool {
    ||| s.len() >= 3 && s[0] == '(' && s[1] == '*' && 'a' <= s[2] <= 'z'
    ||| s.len() >= 3 && s[0] == '(' && s[1] == '?' && look_sign(s[2])
    ||| s.len() >= 4 && s[0] == '(' && s[1] == '?' && s[2] == '<' && look_sign(s[3])
}

/// The last sign of the opening of a lookaround.
pub open spec fn look_sign(c: char) -> bool {
    c == '=' || c == '!' || c == '*'
}

/// A part that puts the place in the text back stands in a pattern.
pub open spec fn has_look(s: Seq<char>) -> bool
    decreases s.len(),
{
    s.len() > 0 && (starts_look(s) || has_look(s.skip(item_len(s))))
}

/// A match can start behind its end: a lookaround calls a group in which the
/// start is moved. PCRE2 refuses `\K` in a lookaround, but not this. Outside a
/// lookaround the place in the text never goes back, so that a start is never
/// moved behind the end. The lookarounds that the word option puts around a
/// pattern call nothing.
pub open spec fn can_cross(q: (Seq<char>, bool, bool, bool, bool, bool, bool)) -> bool {
    !q.2 && has_reset(q.0) && has_call(q.0) && has_look(q.0)
}

/// What is said of a pattern whose matches can start behind their end.
pub const CROSSING_TEXT: &'static str =
    "\\K cannot be used together with a lookaround and a subroutine call or recursion";

/// Why a pattern is refused.
pub open spec fn pattern_fault(q: PatternModel) -> Option<Seq<char>> {
    if can_cross(q) {
        Some(CROSSING_TEXT@)
    } else {
        refusal(q)
    }
}

fn is_digit(c: char) -> (r: bool)
    ensures
        r == digit(c),
{
    '0' <= c && c <= '9'
}

fn is_look_sign(c: char) -> (r: bool)
    ensures
        r == look_sign(c),
{
    c == '=' || c == '!' || c == '*'
}

/// Whether `\K`, a call and a lookaround stand in a pattern.
fn moves_start_in_call(pattern: &str) -> (r: bool)
    ensures
        r == (has_reset(pattern@) && has_call(pattern@) && has_look(pattern@)),
{
    let v = chars_of(pattern);
    let n: usize = v.len();
    let mut reset = false;
    let mut call = false;
    let mut look = false;
    let mut i: usize = 0;
    proof {
        assert(v@.skip(0) =~= v@);
    }
    while i < n
        invariant
            n == v@.len(),
            i <= n,
            v@ == pattern@,
            has_reset(v@) == (reset || has_reset(v@.skip(i as int))),
            has_call(v@) == (call || has_call(v@.skip(i as int))),
            has_look(v@) == (look || has_look(v@.skip(i as int))),
        decreases n - i,
    {
        let ghost rest = v@.skip(i as int);
        let left: usize = n - i;
        let mut step: usize = 1;
        if v[i] == '\\' {
            if left >= 2 {
                step = 2;
                if v[i + 1] == 'K' {
                    reset = true;
                }
            }
            if left >= 3 {
                if v[i + 1] == 'c' {
                    step = 3;
                }
                if v[i + 1] == 'g' && (v[i + 2] == '<' || v[i + 2] == '\'') {
                    call = true;
                }
            }
        } else if v[i] == '(' && left >= 3 && v[i + 1] == '?' {
            let c = v[i + 2];
            if c == 'R' || c == '&' || is_digit(c) {
                call = true;
            }
            if left >= 4 && ((c == '+' || c == '-') && is_digit(v[i + 3]) || c == 'P' && v[i + 3]
                == '>') {
                call = true;
            }
            if is_look_sign(c) || left >= 4 && c == '<' && is_look_sign(v[i + 3]) {
                look = true;
            }
        } else if v[i] == '(' && left >= 3 && v[i + 1] == '*' && 'a' <= v[i + 2] && v[i + 2]
            <= 'z' {
            look = true;
        }
        proof {
            assert(rest.len() == left);
            assert(rest[0] == v@[i as int]);
            if left >= 2 {
                assert(rest[1] == v@[i + 1]);
            }
            if left >= 3 {
                assert(rest[2] == v@[i + 2]);
            }
            if left >= 4 {
                assert(rest[3] == v@[i + 3]);
            }
            assert(step == item_len(rest));
            assert(rest.skip(step as int) =~= v@.skip(i + step));
        }
        i = i + step;
    }
    reset && call && look
}

/// Builds a matcher with `grep_pcre2::RegexMatcherBuilder`, in UTF mode with
/// Unicode classes and the compiler for patterns where there is one. Whether
/// PCRE2 refuses the pattern, and with which message, is a function of the
/// pattern and the options.
#[verifier::external_body]
fn build_matcher(
    pattern: &str,
    caseless: bool,
    fixed: bool,
    word: bool,
    multi_line: bool,
    dotall: bool,
    extended: bool,
) -> (r: Result<grep_pcre2::RegexMatcher, String>)
    ensures
        ({
            let q = (pattern@, caseless, fixed, word, multi_line, dotall, extended);
            match r {
                Ok(m) => refusal(q) is None && built_from(m) == q,
                Err(e) => refusal(q) == Some(e@),
            }
        }),
{
    let mut builder = grep_pcre2::RegexMatcherBuilder::new();
    builder.caseless(caseless).fixed_strings(fixed).word(word);
    builder.multi_line(multi_line).dotall(dotall).extended(extended);
    builder.utf(true).ucp(true).jit_if_available(true);
    builder.build(pattern).map_err(|error| error.to_string())
}

/// Calls `grep_searcher::Searcher::search_slice` on a text, line by line,
/// without looking for a byte order mark. The numbers of the matching lines
/// are a function of the matcher and the text. They count the lines of the
/// text from one. A failure of the search engine is an error with its message.
/// The search panics on a match that starts behind its end, so no pattern with
/// such matches is admitted.
#[verifier::external_body]
fn search_lines(m: &grep_pcre2::RegexMatcher, text: &str) -> (r: Result<Vec<u64>, String>)
    requires
        !can_cross(built_from(*m)),
    ensures
        r matches Ok(v) ==> v@ == matching_lines(built_from(*m), text@) && (forall|i: int|
            0 <= i < v@.len() ==> 1 <= (#[trigger] v@[i]) <= lines(text@).len()),
{
    let mut found = Vec::new();
    let mut builder = grep_searcher::SearcherBuilder::new();
    let mut searcher = builder.line_number(true).bom_sniffing(false).multi_line(false).build();
    let sink = grep_searcher::sinks::UTF8(|number, _line| {
        found.push(number);
        Ok(true)
    });
    searcher.search_slice(m, text.as_bytes(), sink).map_err(|error| error.to_string())?;
    Ok(found)
}

/// Calls `grep_matcher::Matcher::find_iter` on a line. The ranges of the
/// successive matches are a function of the matcher and the line, and lie in
/// the line. A failure of the search engine is an error with its message. The
/// search panics on a match that starts behind its end, so no pattern with such
/// matches is admitted.
#[verifier::external_body]
fn find_ranges(m: &grep_pcre2::RegexMatcher, line: &str) -> (r: Result<
    Vec<(usize, usize)>,
    String,
>)
    requires
        !can_cross(built_from(*m)),
    ensures
        r matches Ok(v) ==> v@ == matching_ranges(built_from(*m), line@) && (forall|i: int|
            0 <= i < v@.len() ==> (#[trigger] v@[i]).0 <= v@[i].1 <= byte_len(line@)),
{
    let mut found = Vec::new();
    m.find_iter(line.as_bytes(), |range| {
        found.push((range.start(), range.end()));
        true
    }).map_err(|error| error.to_string())?;
    Ok(found)
}

/// The options of a query.
pub open spec fn query_options(q: QueryModel) -> PatternModel {
    (
        q.pattern,
        q.flags.ignore_case,
        q.flags.fixed_strings,
        q.flags.word_regexp,
        q.multi_line,
        q.dotall,
        q.extended,
    )
}

/// `r` is what building the matcher of a query gives.
pub open spec fn matcher_of(q: QueryModel, r: Result<grep_pcre2::RegexMatcher, Error>) -> bool {
    match r {
        Ok(m) => q.pattern.len() > 0 && pattern_fault(query_options(q)) is None && built_from(m)
            == query_options(q),
        Err(Error::EmptyPattern) => q.pattern.len() == 0,
        Err(Error::InvalidPattern(e)) => q.pattern.len() > 0 && pattern_fault(query_options(q))
            == Some(e@),
        Err(_) => false,
    }
}

/// Builds the matcher of a query.
pub fn compile_matcher(query: &CompiledQuery) -> (r: Result<grep_pcre2::RegexMatcher, Error>)
    ensures
        matcher_of(query@, r),
{
    if query.pattern.is_empty() {
        return Err(Error::EmptyPattern);
    }
    if !query.flags.fixed_strings && moves_start_in_call(query.pattern.as_str()) {
        return Err(Error::InvalidPattern(CROSSING_TEXT.to_owned()));
    }
    match build_matcher(
        query.pattern.as_str(),
        query.flags.ignore_case,
        query.flags.fixed_strings,
        query.flags.word_regexp,
        query.multi_line,
        query.dotall,
        query.extended,
    ) {
        Ok(m) => Ok(m),
        Err(text) => Err(Error::InvalidPattern(text)),
    }
}

/// Byte position of line `i`.
pub open spec fn line_start(ls: Seq<Seq<char>>, i: int) -> nat
    decreases i,
{
    if i <= 0 {
        0
    } else {
        line_start(ls, i - 1) + byte_len(ls[i - 1])
    }
}

/// A line with its byte position.
struct Line {
    start: usize,
    text: String,
}

proof fn lemma_split_bytes(v: Seq<char>, i: int, j: int)
    requires
        0 <= i <= j <= v.len(),
    ensures
        byte_len(v.take(j)) == byte_len(v.take(i)) + byte_len(v.subrange(i, j)),
        byte_len(v.take(j)) <= byte_len(v),
{
    assert(v.take(j) =~= v.take(i) + v.subrange(i, j));
    lemma_encode_concat(v.take(i), v.subrange(i, j));
    assert(v =~= v.take(j) + v.skip(j));
    lemma_encode_concat(v.take(j), v.skip(j));
}

/// The lines of a text.
fn lines_of(s: &str) -> (r: Vec<Line>)
    ensures
        r@.len() == lines(s@).len(),
        forall|i: int|
            0 <= i < r@.len() ==> (#[trigger] r@[i]).text@ == lines(s@)[i] && r@[i].start
                == line_start(lines(s@), i) && r@[i].start + byte_len(r@[i].text@) <= byte_len(s@),
{
    let v = chars_of(s);
    let bytes = s.as_bytes();
    let size: usize = bytes.len();
    let mut out: Vec<Line> = Vec::new();
    let mut i: usize = 0;
    let mut at: usize = 0;
    let ghost all = lines(s@);
    proof {
        assert(v@.skip(0) =~= v@);
        assert(v@.take(0) =~= Seq::<char>::empty());
        assert(all.skip(0) =~= all);
    }
    while i < v.len()
        invariant
            i <= v@.len(),
            v@.len() == v.len(),
            v@ == s@,
            size == byte_len(s@),
            at == byte_len(v@.take(i as int)),
            at <= size,
            all == lines(s@),
            out@.len() <= all.len(),
            lines(v@.skip(i as int)) == all.skip(out@.len() as int),
            at == line_start(all, out@.len() as int),
            forall|k: int|
                0 <= k < out@.len() ==> (#[trigger] out@[k]).text@ == all[k] && out@[k].start
                    == line_start(all, k) && out@[k].start + byte_len(out@[k].text@) <= size,
        decreases v.len() - i,
    {
        let ghost rest = v@.skip(i as int);
        let tail = vstd::slice::slice_subrange(v.as_slice(), i, v.len());
        proof {
            assert(tail@ =~= rest);
        }
        let n = find_first(tail, '\n');
        let end: usize = if n == tail.len() {
            v.len()
        } else {
            i + n + 1
        };
        let ghost k = out@.len() as int;
        proof {
            assert(rest.take(end - i) =~= v@.subrange(i as int, end as int));
            assert(rest.skip(end - i) =~= v@.skip(end as int));
            lemma_split_bytes(v@, i as int, end as int);
            if n == tail@.len() {
                assert(v@.subrange(i as int, end as int) =~= rest);
                assert(lines(v@.skip(end as int)) =~= Seq::<Seq<char>>::empty());
            }
            assert(lines(rest) =~= seq![v@.subrange(i as int, end as int)] + lines(
                v@.skip(end as int),
            ));
            assert(all.skip(k)[0] == v@.subrange(i as int, end as int));
            assert(all[k] == v@.subrange(i as int, end as int));
            assert(all.skip(k + 1) =~= lines(v@.skip(end as int))) by {
                assert(all.skip(k + 1) =~= all.skip(k).drop_first());
            }
        }
        let text = string_range(&v, i, end);
        let piece: usize = text.as_str().as_bytes().len();
        out.push(Line { start: at, text });
        at = at + piece;
        i = end;
    }
    proof {
        assert(v@.skip(i as int) =~= Seq::<char>::empty());
        assert(all.skip(out@.len() as int).len() == 0);
    }
    out
}

/// Matches in one line, by byte position in the text and length.
pub open spec fn line_matches(start: nat, ranges: Seq<(usize, usize)>) -> Seq<(u64, usize)> {
    Seq::new(
        ranges.len(),
        |i: int| ((start + ranges[i].0) as u64, (ranges[i].1 - ranges[i].0) as usize),
    )
}

/// Matches in some lines of a text: those of line `numbers[k]` are at the byte
/// ranges `ranges[k]` of the line.
pub open spec fn placed_matches(
    ls: Seq<Seq<char>>,
    numbers: Seq<u64>,
    ranges: Seq<Seq<(usize, usize)>>,
) -> Seq<(u64, usize)>
    decreases numbers.len(),
{
    if numbers.len() == 0 {
        Seq::empty()
    } else {
        placed_matches(ls, numbers.drop_last(), ranges.drop_last()) + line_matches(
            line_start(ls, numbers.last() - 1),
            ranges.last(),
        )
    }
}

/// The ranges of some lines.
pub open spec fn range_lists(ranges: Seq<Vec<(usize, usize)>>) -> Seq<Seq<(usize, usize)>> {
    Seq::new(ranges.len(), |k: int| ranges[k]@)
}

/// What the search engine finds in each of some lines.
pub open spec fn ranges_found(q: PatternModel, ls: Seq<Seq<char>>, numbers: Seq<u64>) -> Seq<
    Seq<(usize, usize)>,
> {
    Seq::new(numbers.len(), |k: int| matching_ranges(q, ls[numbers[k] - 1]))
}

/// All matches of a query in a text.
pub open spec fn found_in(q: PatternModel, text: Seq<char>) -> Seq<(u64, usize)> {
    let numbers = matching_lines(q, text);
    placed_matches(lines(text), numbers, ranges_found(q, lines(text), numbers))
}

/// Turns matches in lines into matches in the text: by byte position in the
/// text, and by length. `ranges` are the byte ranges in each of the lines
/// `numbers`, which count from one.
pub fn place_matches(text: &str, numbers: &Vec<u64>, ranges: &Vec<Vec<(usize, usize)>>) -> (r: Vec<
    (u64, usize),
>)
    requires
        ranges@.len() == numbers@.len(),
        forall|k: int|
            0 <= k < numbers@.len() ==> 1 <= (#[trigger] numbers@[k]) <= lines(text@).len(),
        forall|k: int, j: int|
            0 <= k < ranges@.len() && 0 <= j < ranges@[k]@.len() ==> (
            #[trigger] ranges@[k]@[j]).0 <= ranges@[k]@[j].1 <= byte_len(
                lines(text@)[numbers@[k] - 1],
            ),
    ensures
        r@ == placed_matches(lines(text@), numbers@, range_lists(ranges@)),
{
    let all = lines_of(text);
    let bytes = text.as_bytes();
    let size: usize = bytes.len();
    let ghost ls = lines(text@);
    let ghost lists = range_lists(ranges@);
    let mut out: Vec<(u64, usize)> = Vec::new();
    let mut i: usize = 0;
    proof {
        assert(numbers@.take(0) =~= Seq::<u64>::empty());
    }
    while i < numbers.len()
        invariant
            i <= numbers@.len(),
            ranges@.len() == numbers@.len(),
            size == byte_len(text@),
            ls == lines(text@),
            lists == range_lists(ranges@),
            all@.len() == ls.len(),
            forall|k: int|
                0 <= k < all@.len() ==> (#[trigger] all@[k]).text@ == ls[k] && all@[k].start
                    == line_start(ls, k) && all@[k].start + byte_len(all@[k].text@) <= size,
            forall|k: int| 0 <= k < numbers@.len() ==> 1 <= (#[trigger] numbers@[k]) <= ls.len(),
            forall|k: int, j: int|
                0 <= k < ranges@.len() && 0 <= j < ranges@[k]@.len() ==> (
                #[trigger] ranges@[k]@[j]).0 <= ranges@[k]@[j].1 <= byte_len(ls[numbers@[k] - 1]),
            out@ == placed_matches(ls, numbers@.take(i as int), lists.take(i as int)),
        decreases numbers.len() - i,
    {
        let total: usize = all.len();
        let n: usize = (numbers[i] - 1) as usize;
        let line = &all[n];
        let here = &ranges[i];
        let ghost head = out@;
        let ghost more = line_matches(line.start as nat, here@);
        let mut j: usize = 0;
        proof {
            assert(head + more.take(0) =~= head);
            assert forall|k: int| 0 <= k < here@.len() implies (#[trigger] here@[k]).0
                <= here@[k].1 <= byte_len(line.text@) by {
                assert(ranges@[i as int]@[k] == here@[k]);
            }
        }
        while j < here.len()
            invariant
                j <= here@.len(),
                line.start + byte_len(line.text@) <= size,
                more == line_matches(line.start as nat, here@),
                forall|k: int|
                    0 <= k < here@.len() ==> (#[trigger] here@[k]).0 <= here@[k].1 <= byte_len(
                        line.text@,
                    ),
                out@ == head + more.take(j as int),
            decreases here.len() - j,
        {
            let range = here[j];
            out.push(((line.start + range.0) as u64, range.1 - range.0));
            proof {
                assert(more.take(j + 1) =~= more.take(j as int).push(more[j as int]));
                assert(out@ =~= head + more.take(j + 1));
            }
            j = j + 1;
        }
        proof {
            assert(more.take(more.len() as int) =~= more);
            assert(numbers@.take(i + 1).drop_last() =~= numbers@.take(i as int));
            assert(lists.take(i + 1).drop_last() =~= lists.take(i as int));
            assert(lists.take(i + 1).last() == here@);
        }
        i = i + 1;
    }
    proof {
        assert(numbers@.take(numbers@.len() as int) =~= numbers@);
        assert(lists.take(lists.len() as int) =~= lists);
    }
    out
}

/// All matches in a text. Where the search engine answers, the answers are
/// placed by [`place_matches`].
pub fn find_matches(m: &grep_pcre2::RegexMatcher, text: &str) -> (r: Result<
    Vec<(u64, usize)>,
    Error,
>)
    requires
        !can_cross(built_from(*m)),
    ensures
        match r {
            Ok(v) => v@ == found_in(built_from(*m), text@),
            Err(Error::Io(k, _)) => k == IoKind::Other,
            Err(_) => false,
        },
{
    let numbers = match search_lines(m, text) {
        Ok(v) => v,
        Err(e) => {
            return Err(Error::Io(IoKind::Other, e));
        },
    };
    let all = lines_of(text);
    let ghost q = built_from(*m);
    let ghost ls = lines(text@);
    let mut ranges: Vec<Vec<(usize, usize)>> = Vec::new();
    let mut i: usize = 0;
    while i < numbers.len()
        invariant
            i <= numbers@.len(),
            q == built_from(*m),
            !can_cross(q),
            ls == lines(text@),
            all@.len() == ls.len(),
            forall|k: int| 0 <= k < all@.len() ==> (#[trigger] all@[k]).text@ == ls[k],
            forall|k: int| 0 <= k < numbers@.len() ==> 1 <= (#[trigger] numbers@[k]) <= ls.len(),
            ranges@.len() == i,
            forall|k: int|
                0 <= k < i ==> (#[trigger] ranges@[k])@ == matching_ranges(
                    q,
                    ls[numbers@[k] - 1],
                ),
            forall|k: int, j: int|
                0 <= k < i && 0 <= j < ranges@[k]@.len() ==> (#[trigger] ranges@[k]@[j]).0
                    <= ranges@[k]@[j].1 <= byte_len(ls[numbers@[k] - 1]),
        decreases numbers.len() - i,
    {
        let total: usize = all.len();
        let n: usize = (numbers[i] - 1) as usize;
        match find_ranges(m, all[n].text.as_str()) {
            Ok(v) => {
                ranges.push(v);
            },
            Err(e) => {
                return Err(Error::Io(IoKind::Other, e));
            },
        }
        i = i + 1;
    }
    proof {
        assert(range_lists(ranges@) =~= ranges_found(q, ls, numbers@));
    }
    Ok(place_matches(text, &numbers, &ranges))
}

/// Bytes shown on each side of a match.
pub const SNIPPET_RADIUS: usize = 56;

/// One match in a span.
#[derive(Clone, Copy, Debug, PartialEq, Eq, Structural)]
pub struct TextMatch {
    pub span_index: u32,
    pub byte_off: u32,
    pub match_len: u32,
}

/// A match that starts inside a span of `len` bytes and whose numbers fit.
/// An empty match counts.
pub open spec fn usable(m: (u64, usize), len: u64) -> bool {
    m.0 < len && m.0 <= u32::MAX && m.1 <= u32::MAX
}

/// `a` comes before `b` in a span: it starts earlier, or at the same place
/// and is longer.
pub open spec fn ahead(a: (u64, usize), b: (u64, usize)) -> bool {
    a.0 < b.0 || (a.0 == b.0 && a.1 > b.1)
}

/// The match that stands for the span.
pub open spec fn picked(ms: Seq<(u64, usize)>, len: u64) -> Option<(u64, usize)>
    decreases ms.len(),
{
    if ms.len() == 0 {
        None
    } else {
        let m = ms.last();
        match picked(ms.drop_last(), len) {
            _ if !usable(m, len) => picked(ms.drop_last(), len),
            Some(best) if !ahead(m, best) => Some(best),
            _ => Some(m),
        }
    }
}

/// How many matches count.
pub open spec fn usable_count(ms: Seq<(u64, usize)>, len: u64) -> nat
    decreases ms.len(),
{
    if ms.len() == 0 {
        0
    } else {
        usable_count(ms.drop_last(), len) + if usable(ms.last(), len) {
            1nat
        } else {
            0nat
        }
    }
}

/// The match that stands for a span is one of its matches, and no other
/// match that counts is ahead of it. There is one when any match counts.
pub proof fn law_picked_is_first(ms: Seq<(u64, usize)>, len: u64)
    ensures
        match picked(ms, len) {
            Some(best) => ms.contains(best) && usable(best, len) && forall|i: int|
                0 <= i < ms.len() && usable(#[trigger] ms[i], len) ==> !ahead(ms[i], best),
            None => forall|i: int| 0 <= i < ms.len() ==> !usable(#[trigger] ms[i], len),
        },
        picked(ms, len) is Some <==> usable_count(ms, len) > 0,
    decreases ms.len(),
{
    if ms.len() > 0 {
        let init = ms.drop_last();
        law_picked_is_first(init, len);
        assert forall|i: int| 0 <= i < ms.len() - 1 implies ms[i] == #[trigger] init[i] by {}
        assert(ms[ms.len() - 1] == ms.last());
        match picked(init, len) {
            Some(b) => {
                let k = choose|k: int| 0 <= k < init.len() && init[k] == b;
                assert(ms[k] == b);
                assert forall|i: int|
                    0 <= i < ms.len() && usable(#[trigger] ms[i], len) implies !ahead(
                    ms[i],
                    picked(ms, len)->0,
                ) by {
                    if i < init.len() {
                        assert(init[i] == ms[i]);
                    }
                }
            },
            None => {
                assert forall|i: int|
                    0 <= i < ms.len() - 1 implies !usable(#[trigger] ms[i], len) by {
                    assert(init[i] == ms[i]);
                }
            },
        }
    }
}

/// The match that stands for a span, and how many matches count.
pub fn pick_match(ms: &Vec<(u64, usize)>, len: u64) -> (r: (Option<(u32, u32)>, usize))
    ensures
        match r.0 {
            Some(m) => picked(ms@, len) == Some((m.0 as u64, m.1 as usize)),
            None => picked(ms@, len) is None,
        },
        r.1 == usable_count(ms@, len),
        r.1 <= ms@.len(),
{
    let mut best: Option<(u32, u32)> = None;
    let mut count: usize = 0;
    let mut i: usize = 0;
    proof {
        assert(ms@.take(0) =~= Seq::<(u64, usize)>::empty());
    }
    while i < ms.len()
        invariant
            i <= ms@.len(),
            match best {
                Some(m) => picked(ms@.take(i as int), len) == Some((m.0 as u64, m.1 as usize)),
                None => picked(ms@.take(i as int), len) is None,
            },
            count == usable_count(ms@.take(i as int), len),
            count <= i,
        decreases ms.len() - i,
    {
        let (rel, n) = ms[i];
        proof {
            assert(ms@.take(i + 1).drop_last() =~= ms@.take(i as int));
        }
        if rel < len && rel <= 0xffff_ffff && n <= 0xffff_ffff {
            count = count + 1;
            let m: (u32, u32) = (rel as u32, n as u32);
            best = match best {
                Some(b) => {
                    if m.0 < b.0 || (m.0 == b.0 && m.1 > b.1) {
                        Some(m)
                    } else {
                        Some(b)
                    }
                },
                None => Some(m),
            };
        }
        i = i + 1;
    }
    proof {
        assert(ms@.take(ms@.len() as int) =~= ms@);
    }
    (best, count)
}

/// The character boundary at or before byte `i`.
pub open spec fn boundary_at_or_before(b: Seq<u8>, i: int) -> int
    decreases i,
{
    if i <= 0 || is_char_boundary(b, i) {
        i
    } else {
        boundary_at_or_before(b, i - 1)
    }
}

/// The character boundary at or after byte `i`.
pub open spec fn boundary_at_or_after(b: Seq<u8>, i: int) -> int
    decreases b.len() - i,
{
    if i >= b.len() || is_char_boundary(b, i) {
        i
    } else {
        boundary_at_or_after(b, i + 1)
    }
}

/// Line breaks and tabs as spaces.
pub open spec fn on_one_line(s: Seq<char>) -> Seq<char> {
    Seq::new(
        s.len(),
        |i: int|
            if s[i] == '\n' || s[i] == '\r' || s[i] == '\t' {
                ' '
            } else {
                s[i]
            },
    )
}

/// First byte shown for a match at `off`.
pub open spec fn window_start(b: Seq<u8>, off: int) -> int {
    boundary_at_or_before(
        b,
        if off >= SNIPPET_RADIUS {
            off - SNIPPET_RADIUS
        } else {
            0
        },
    )
}

/// End of the bytes shown for a match that ends at `stop`.
pub open spec fn window_end(b: Seq<u8>, stop: int) -> int {
    let n = b.len() as int;
    let s = if stop <= n {
        stop
    } else {
        n
    };
    boundary_at_or_after(
        b,
        if s + SNIPPET_RADIUS <= n {
            s + SNIPPET_RADIUS
        } else {
            n
        },
    )
}

/// The snippet of a match of `len` bytes at byte `off` of a span text.
pub open spec fn snippet_text(text: Seq<char>, off: int, len: int) -> Seq<char> {
    let b = encode_utf8(text);
    let start = window_start(b, off);
    let end = window_end(b, off + len);
    (if start > 0 {
        "..."@
    } else {
        Seq::empty()
    }) + on_one_line(decode_utf8(b.subrange(start, end))) + (if end < b.len() {
        "..."@
    } else {
        Seq::empty()
    })
}

/// A short window of a span around a match.
pub fn make_snippet(span_text: &str, token_off: usize, token_len: usize) -> (r: String)
    requires
        token_off <= byte_len(span_text@),
    ensures
        r@ == snippet_text(span_text@, token_off as int, token_len as int),
{
    let bytes = span_text.as_bytes();
    let size: usize = bytes.len();
    let ghost b = encode_utf8(span_text@);
    proof {
        encode_utf8_valid_utf8(span_text@);
        is_char_boundary_start_end_of_seq(b);
    }
    let token_end: usize = if token_len >= size - token_off {
        size
    } else {
        token_off + token_len
    };
    let first: usize = if token_off >= SNIPPET_RADIUS {
        token_off - SNIPPET_RADIUS
    } else {
        0
    };
    let mut start: usize = first;
    while start > 0 && !span_text.is_char_boundary(start)
        invariant
            b == encode_utf8(span_text@),
            start <= first <= size,
            size == b.len(),
            boundary_at_or_before(b, start as int) == boundary_at_or_before(b, first as int),
        decreases start,
    {
        start = start - 1;
    }
    let last: usize = if SNIPPET_RADIUS <= size - token_end {
        token_end + SNIPPET_RADIUS
    } else {
        size
    };
    let mut end: usize = last;
    while end < size && !span_text.is_char_boundary(end)
        invariant
            b == encode_utf8(span_text@),
            last <= end <= size,
            size == b.len(),
            boundary_at_or_after(b, end as int) == boundary_at_or_after(b, last as int),
        decreases size - end,
    {
        end = end + 1;
    }
    let mut out = String::new();
    if start > 0 {
        out.push_str("...");
    }
    let ghost head = out@;
    match str_range(span_text, start, end - start) {
        Some(window) => {
            let v = chars_of(window);
            let ghost shown = on_one_line(v@);
            let mut i: usize = 0;
            proof {
                assert(head + shown.take(0) =~= head);
            }
            while i < v.len()
                invariant
                    i <= v@.len(),
                    shown == on_one_line(v@),
                    out@ == head + shown.take(i as int),
                decreases v.len() - i,
            {
                let c = v[i];
                if c == '\n' || c == '\r' || c == '\t' {
                    out.push(' ');
                } else {
                    out.push(c);
                }
                proof {
                    assert(shown.take(i + 1) =~= shown.take(i as int).push(shown[i as int]));
                    assert(out@ =~= head + shown.take(i + 1));
                }
                i = i + 1;
            }
            proof {
                assert(shown.take(shown.len() as int) =~= shown);
            }
        },
        None => {
            proof {
                assert(false);
            }
        },
    }
    if end < size {
        out.push_str("...");
    } else {
        proof {
            assert(out@ + Seq::<char>::empty() =~= out@);
        }
    }
    out
}

/// Name of a span field.
pub open spec fn field_text(field_id: u32) -> Seq<char> {
    if field_id == FIELD_TITLE {
        "title"@
    } else if field_id == FIELD_SUMMARY {
        "summary"@
    } else if field_id == FIELD_MESSAGE {
        "message"@
    } else {
        "unknown"@
    }
}

/// Name of a span field.
pub fn field_name(field_id: u32) -> (r: &'static str)
    ensures
        r@ == field_text(field_id),
{
    if field_id == FIELD_TITLE {
        "title"
    } else if field_id == FIELD_SUMMARY {
        "summary"
    } else if field_id == FIELD_MESSAGE {
        "message"
    } else {
        "unknown"
    }
}

/// The spans of a span table.
pub open spec fn table_spans(b: Seq<u8>) -> Seq<TextSpan> {
    Seq::new(b.len() / 32, |i: int| span_of(b.subrange(32 * i, 32 * i + 32)))
}

/// The spans of an archive.
fn load_spans(archive: &Archive) -> (r: Result<Vec<TextSpan>, Error>)
    requires
        archive.wf(),
    ensures
        match r {
            Ok(v) => spans_of(archive.file()).len() % 32 == 0 && v@ == table_spans(
                spans_of(archive.file()),
            ),
            Err(e) => spans_of(archive.file()).len() % 32 != 0 && e == Error::InvalidArchive,
        },
{
    let count = archive.span_count()?;
    let mut spans: Vec<TextSpan> = Vec::new();
    let ghost b = spans_of(archive.file());
    let mut i: usize = 0;
    while i < count
        invariant
            archive.wf(),
            b == spans_of(archive.file()),
            b.len() == 32 * count,
            i <= count,
            spans@ == table_spans(b).take(i as int),
        decreases count - i,
    {
        match archive.span(i) {
            Ok(s) => {
                spans.push(s);
            },
            Err(e) => {
                return Err(e);
            },
        }
        proof {
            assert(spans@ =~= table_spans(b).take(i + 1));
        }
        i = i + 1;
    }
    proof {
        assert(spans@ =~= table_spans(b));
    }
    Ok(spans)
}

/// Matches in a span. An empty span has none.
pub open spec fn span_found(q: PatternModel, text: Seq<char>, span: TextSpan) -> Seq<
    (u64, usize),
> {
    match text_range(text, span.text_off as int, span.len as int) {
        Some(t) if t.len() > 0 => found_in(q, t),
        _ => Seq::empty(),
    }
}

/// The matches in each span. A span whose number does not fit has none.
pub open spec fn spans_found(q: PatternModel, text: Seq<char>, spans: Seq<TextSpan>) -> Seq<
    Seq<(u64, usize)>,
> {
    Seq::new(
        spans.len(),
        |i: int|
            if i <= u32::MAX {
                span_found(q, text, spans[i])
            } else {
                Seq::empty()
            },
    )
}

/// The matches of some spans.
pub open spec fn match_lists(lists: Seq<Vec<(u64, usize)>>) -> Seq<Seq<(u64, usize)>> {
    Seq::new(lists.len(), |i: int| lists[i]@)
}

/// The spans that match, each with the match that stands for it. `found` are
/// the matches in each span.
pub open spec fn span_hits(spans: Seq<TextSpan>, found: Seq<Seq<(u64, usize)>>) -> Seq<TextMatch>
    decreases spans.len(),
{
    if spans.len() == 0 {
        Seq::empty()
    } else {
        let head = span_hits(spans.drop_last(), found.drop_last());
        let i = spans.len() - 1;
        match picked(found.last(), spans.last().len) {
            Some(m) if i <= u32::MAX => head.push(
                TextMatch { span_index: i as u32, byte_off: m.0 as u32, match_len: m.1 as u32 },
            ),
            _ => head,
        }
    }
}

/// How many matches count over all spans.
pub open spec fn span_matches(spans: Seq<TextSpan>, found: Seq<Seq<(u64, usize)>>) -> nat
    decreases spans.len(),
{
    if spans.len() == 0 {
        0
    } else {
        span_matches(spans.drop_last(), found.drop_last()) + if spans.len() - 1 <= u32::MAX {
            usable_count(found.last(), spans.last().len)
        } else {
            0
        }
    }
}

/// Every span lies in the text.
pub open spec fn spans_lie(text: Seq<char>, spans: Seq<TextSpan>) -> bool {
    forall|i: int|
        0 <= i < spans.len() ==> text_range(
            text,
            (#[trigger] spans[i]).text_off as int,
            spans[i].len as int,
        ) is Some
}

/// The span text of a match.
pub open spec fn match_text(text: Seq<char>, spans: Seq<TextSpan>, m: TextMatch) -> Seq<char> {
    let s = spans[m.span_index as int];
    text_range(text, s.text_off as int, s.len as int)->0
}

/// A match can be shown: it starts at a character of its span, and the span
/// belongs to a record.
pub open spec fn can_show(
    text: Seq<char>,
    spans: Seq<TextSpan>,
    records: nat,
    m: TextMatch,
) -> bool {
    let t = match_text(text, spans, m);
    &&& m.span_index < spans.len()
    &&& m.byte_off < byte_len(t)
    &&& is_char_boundary(encode_utf8(t), m.byte_off as int)
    &&& spans[m.span_index as int].record_index < records
}

/// `h` shows the match `m`.
pub open spec fn shows(
    text: Seq<char>,
    spans: Seq<TextSpan>,
    ids: Seq<Option<String>>,
    m: TextMatch,
    h: SearchHit,
) -> bool {
    let s = spans[m.span_index as int];
    let t = match_text(text, spans, m);
    &&& opt_view(h.conversation_id) == opt_view(ids[s.record_index as int])
    &&& h.field@ == field_text(s.field_id)
    &&& h.snippet@ == snippet_text(t, m.byte_off as int, m.match_len as int)
    &&& h.span_off == s.text_off
    &&& h.span_text@ == t
}

/// `hs` show the matches `ms`, one for one.
pub open spec fn all_shown(
    text: Seq<char>,
    spans: Seq<TextSpan>,
    ids: Seq<Option<String>>,
    ms: Seq<TextMatch>,
    hs: Seq<SearchHit>,
) -> bool {
    &&& hs.len() == ms.len()
    &&& forall|i: int|
        0 <= i < ms.len() ==> can_show(text, spans, ids.len(), #[trigger] ms[i]) && shows(
            text,
            spans,
            ids,
            ms[i],
            hs[i],
        )
}

/// The hits of matches. `ids` are the conversation ids of the records.
pub fn materialize(
    text: &str,
    spans: &Vec<TextSpan>,
    ids: &Vec<Option<String>>,
    hits: &Vec<TextMatch>,
) -> (r: Result<Vec<SearchHit>, Error>)
    requires
        spans_lie(text@, spans@),
    ensures
        match r {
            Ok(v) => all_shown(text@, spans@, ids@, hits@, v@),
            Err(e) => e == Error::InvalidArchive && exists|i: int|
                0 <= i < hits@.len() && !can_show(text@, spans@, ids@.len(), #[trigger] hits@[i]),
        },
{
    let mut out: Vec<SearchHit> = Vec::new();
    let mut i: usize = 0;
    while i < hits.len()
        invariant
            i <= hits@.len(),
            spans_lie(text@, spans@),
            out@.len() == i,
            forall|k: int|
                0 <= k < i ==> can_show(text@, spans@, ids@.len(), #[trigger] hits@[k]) && shows(
                    text@,
                    spans@,
                    ids@,
                    hits@[k],
                    out@[k],
                ),
        decreases hits.len() - i,
    {
        let m = hits[i];
        if m.span_index as u64 >= spans.len() as u64 {
            assert(!can_show(text@, spans@, ids@.len(), hits@[i as int]));
            return Err(Error::InvalidArchive);
        }
        let span = spans[m.span_index as usize];
        let span_text = match span_str(text, &span) {
            Ok(s) => s,
            Err(e) => {
                proof {
                    assert(spans@[m.span_index as int] == span);
                }
                return Err(e);
            },
        };
        let bytes = span_text.as_bytes();
        let size: usize = bytes.len();
        proof {
            encode_utf8_valid_utf8(span_text@);
        }
        if m.byte_off as u64 >= size as u64 || !span_text.is_char_boundary(m.byte_off as usize) {
            assert(!can_show(text@, spans@, ids@.len(), hits@[i as int]));
            return Err(Error::InvalidArchive);
        }
        if span.record_index as u64 >= ids.len() as u64 {
            assert(!can_show(text@, spans@, ids@.len(), hits@[i as int]));
            return Err(Error::InvalidArchive);
        }
        let snippet = make_snippet(span_text, m.byte_off as usize, m.match_len as usize);
        out.push(
            SearchHit {
                conversation_id: copied_opt(&ids[span.record_index as usize]),
                field: field_name(span.field_id),
                snippet,
                span_off: span.text_off,
                span_text: span_text.to_owned(),
            },
        );
        i = i + 1;
    }
    Ok(out)
}

/// What `matches` on `kept` hits leave as duplicates, as far as it fits.
pub open spec fn omitted(matches: nat, kept: nat) -> nat {
    let n = if matches <= usize::MAX {
        matches
    } else {
        usize::MAX as nat
    };
    if n >= kept {
        (n - kept) as nat
    } else {
        0
    }
}

/// `r` is what the matches in the spans of a text come to. `found` are the
/// matches in each span.
pub open spec fn gathered(
    text: Seq<char>,
    spans: Seq<TextSpan>,
    ids: Seq<Option<String>>,
    found: Seq<Seq<(u64, usize)>>,
    r: UniqueHits,
) -> bool {
    &&& exists|hs: Seq<SearchHit>| #[trigger]
        all_shown(text, spans, ids, span_hits(spans, found), hs) && r.hits@ == by_conversation(
            firsts(hs),
        )
    &&& r.duplicate_omitted == omitted(span_matches(spans, found), r.hits@.len())
}

/// Why the matches in the spans of a text come to nothing: a span lies outside
/// the text, or a match cannot be shown.
pub open spec fn gather_fault(
    text: Seq<char>,
    spans: Seq<TextSpan>,
    records: nat,
    found: Seq<Seq<(u64, usize)>>,
) -> bool {
    !spans_lie(text, spans) || exists|i: int|
        0 <= i < span_hits(spans, found).len() && !can_show(
            text,
            spans,
            records,
            #[trigger] span_hits(spans, found)[i],
        )
}

/// `found` is what searching spans of a text gives.
pub open spec fn searched(
    q: PatternModel,
    text: Seq<char>,
    spans: Seq<TextSpan>,
    ids: Seq<Option<String>>,
    found: UniqueHits,
) -> bool {
    spans_lie(text, spans) && gathered(text, spans, ids, spans_found(q, text, spans), found)
}

/// Why spans of a text cannot be searched: a span lies outside the text, or
/// a match cannot be shown.
pub open spec fn search_fault(
    q: PatternModel,
    text: Seq<char>,
    spans: Seq<TextSpan>,
    records: nat,
) -> bool {
    gather_fault(text, spans, records, spans_found(q, text, spans))
}

/// The hits of the matches in the spans of a text. `lists` are the matches in
/// each span: the first of them stands for the span, and the others are
/// counted. `ids` are the conversation ids of the records.
pub fn gather_hits(
    text: &str,
    spans: &Vec<TextSpan>,
    ids: &Vec<Option<String>>,
    lists: &Vec<Vec<(u64, usize)>>,
) -> (r: Result<UniqueHits, Error>)
    requires
        lists@.len() == spans@.len(),
    ensures
        match r {
            Ok(found) => !gather_fault(text@, spans@, ids@.len(), match_lists(lists@)) && gathered(
                text@,
                spans@,
                ids@,
                match_lists(lists@),
                found,
            ),
            Err(e) => e == Error::InvalidArchive && gather_fault(
                text@,
                spans@,
                ids@.len(),
                match_lists(lists@),
            ),
        },
{
    let ghost all = match_lists(lists@);
    let mut raw: Vec<TextMatch> = Vec::new();
    let mut matches: usize = 0;
    let mut i: usize = 0;
    proof {
        assert(spans@.take(0) =~= Seq::<TextSpan>::empty());
    }
    while i < spans.len()
        invariant
            i <= spans@.len(),
            lists@.len() == spans@.len(),
            all == match_lists(lists@),
            spans_lie(text@, spans@.take(i as int)),
            raw@ == span_hits(spans@.take(i as int), all.take(i as int)),
            matches == omitted(span_matches(spans@.take(i as int), all.take(i as int)), 0),
        decreases spans.len() - i,
    {
        let ghost now = spans@.take(i as int);
        let ghost next = spans@.take(i + 1);
        let span = spans[i];
        proof {
            assert(next.drop_last() =~= now);
            assert(next.last() == span);
            assert(all.take(i + 1).drop_last() =~= all.take(i as int));
            assert(all.take(i + 1).last() == lists@[i as int]@);
        }
        match span_str(text, &span) {
            Ok(_) => {},
            Err(e) => {
                proof {
                    assert(spans@[i as int] == span);
                    assert(!spans_lie(text@, spans@));
                }
                return Err(e);
            },
        }
        proof {
            assert forall|k: int| 0 <= k < next.len() implies text_range(
                text@,
                (#[trigger] next[k]).text_off as int,
                next[k].len as int,
            ) is Some by {
                if k < i {
                    assert(now[k] == next[k]);
                }
            }
        }
        if i as u64 <= 0xffff_ffff {
            let (best, count) = pick_match(&lists[i], span.len);
            matches = matches.saturating_add(count);
            match best {
                Some(m) => {
                    raw.push(
                        TextMatch { span_index: i as u32, byte_off: m.0, match_len: m.1 },
                    );
                },
                None => {},
            }
        }
        i = i + 1;
    }
    proof {
        assert(spans@.take(spans@.len() as int) =~= spans@);
        assert(all.take(all.len() as int) =~= all);
    }
    let hits = match materialize(text, spans, ids, &raw) {
        Ok(v) => v,
        Err(e) => {
            return Err(e);
        },
    };
    let ghost hs = hits@;
    let mut found = unique_hits(hits);
    found.duplicate_omitted = matches.saturating_sub(found.hits.len());
    proof {
        assert(all_shown(text@, spans@, ids@, span_hits(spans@, all), hs));
    }
    Ok(found)
}

/// Span `i` is handed to the search engine: it holds text, and so far every
/// span lies in the text.
pub open spec fn span_asked(text: Seq<char>, spans: Seq<TextSpan>, i: int) -> bool {
    &&& 0 <= i < spans.len()
    &&& i <= u32::MAX
    &&& spans_lie(text, spans.take(i))
    &&& text_range(text, spans[i].text_off as int, spans[i].len as int) matches Some(t) && t.len()
        > 0
}

/// Searches the spans of a text. The search engine can fail only where it is
/// asked. Where it answers, [`gather_hits`] says what comes of the answers.
pub fn search_spans(
    text: &str,
    spans: &Vec<TextSpan>,
    ids: &Vec<Option<String>>,
    matcher: &grep_pcre2::RegexMatcher,
) -> (r: Result<UniqueHits, Error>)
    requires
        !can_cross(built_from(*matcher)),
    ensures
        match r {
            Ok(found) => searched(built_from(*matcher), text@, spans@, ids@, found)
                && !search_fault(built_from(*matcher), text@, spans@, ids@.len()),
            Err(Error::InvalidArchive) => search_fault(
                built_from(*matcher),
                text@,
                spans@,
                ids@.len(),
            ),
            Err(Error::Io(k, _)) => k == IoKind::Other && exists|i: int| #[trigger]
                span_asked(text@, spans@, i),
            Err(_) => false,
        },
{
    let ghost q = built_from(*matcher);
    let mut lists: Vec<Vec<(u64, usize)>> = Vec::new();
    let mut i: usize = 0;
    while i < spans.len()
        invariant
            q == built_from(*matcher),
            !can_cross(q),
            i <= spans@.len(),
            spans_lie(text@, spans@.take(i as int)),
            lists@.len() == i,
            forall|k: int|
                0 <= k < i ==> (#[trigger] lists@[k])@ == spans_found(q, text@, spans@)[k],
        decreases spans.len() - i,
    {
        let ghost now = spans@.take(i as int);
        let ghost next = spans@.take(i + 1);
        let span = spans[i];
        let span_text = match span_str(text, &span) {
            Ok(s) => s,
            Err(e) => {
                proof {
                    assert(spans@[i as int] == span);
                    assert(!spans_lie(text@, spans@));
                }
                return Err(e);
            },
        };
        proof {
            assert forall|k: int| 0 <= k < next.len() implies text_range(
                text@,
                (#[trigger] next[k]).text_off as int,
                next[k].len as int,
            ) is Some by {
                if k < i {
                    assert(now[k] == next[k]);
                }
            }
        }
        let bytes = span_text.as_bytes();
        let size: usize = bytes.len();
        proof {
            if size == 0 {
                assert(span_text@.len() == 0) by {
                    if span_text@.len() > 0 {
                        lemma_split_bytes(span_text@, 0, 1);
                        assert(span_text@ =~= span_text@.take(1) + span_text@.skip(1));
                        assert(span_text@.take(1) =~= Seq::<char>::empty().push(span_text@[0]));
                        crate::utf::lemma_encode_push(Seq::empty(), span_text@[0]);
                    }
                }
                assert(span_found(q, text@, span) =~= Seq::<(u64, usize)>::empty());
            } else {
                assert(span_text@.len() > 0) by {
                    if span_text@.len() == 0 {
                        assert(span_text@ =~= Seq::<char>::empty());
                        assert(encode_utf8(span_text@) =~= Seq::<u8>::empty());
                    }
                }
            }
        }
        if size > 0 && i as u64 <= 0xffff_ffff {
            match find_matches(matcher, span_text) {
                Ok(v) => {
                    lists.push(v);
                },
                Err(e) => {
                    proof {
                        assert(spans@[i as int] == span);
                        assert(span_asked(text@, spans@, i as int));
                    }
                    return Err(e);
                },
            }
        } else {
            let none: Vec<(u64, usize)> = Vec::new();
            assert(none@ =~= spans_found(q, text@, spans@)[i as int]);
            lists.push(none);
        }
        i = i + 1;
    }
    proof {
        assert(spans@.take(spans@.len() as int) =~= spans@);
        assert(match_lists(lists@) =~= spans_found(q, text@, spans@));
    }
    gather_hits(text, spans, ids, &lists)
}

/// The text of an archive file.
pub open spec fn file_text(b: Seq<u8>) -> Seq<char> {
    decode_utf8(text_of(b))
}

/// The spans of an archive file.
pub open spec fn file_spans(b: Seq<u8>) -> Seq<TextSpan> {
    table_spans(spans_of(b))
}

/// The text of an archive file is UTF-8 and its span table is whole.
pub open spec fn readable(b: Seq<u8>) -> bool {
    valid_utf8(text_of(b)) && spans_of(b).len() % 32 == 0
}

/// `r` is what searching an archive file for `q` gives. `ids` are the
/// conversation ids of its records.
pub open spec fn searched_file(
    q: PatternModel,
    b: Seq<u8>,
    ids: Seq<Option<String>>,
    r: Result<UniqueHits, Error>,
) -> bool {
    match r {
        Ok(found) => readable(b) && searched(q, file_text(b), file_spans(b), ids, found)
            && !search_fault(q, file_text(b), file_spans(b), ids.len()),
        Err(Error::InvalidArchive) => !readable(b) || search_fault(
            q,
            file_text(b),
            file_spans(b),
            ids.len(),
        ),
        Err(Error::Io(k, _)) => readable(b) && k == IoKind::Other && exists|i: int| #[trigger]
            span_asked(file_text(b), file_spans(b), i),
        Err(_) => false,
    }
}

/// Searches every span of an archive. `ids` are the conversation ids of its
/// records, in record order.
pub fn search_blob(
    archive: &Archive,
    ids: &Vec<Option<String>>,
    matcher: &grep_pcre2::RegexMatcher,
) -> (r: Result<UniqueHits, Error>)
    requires
        archive.wf(),
        !can_cross(built_from(*matcher)),
    ensures
        searched_file(built_from(*matcher), archive.file(), ids@, r),
{
    let text = match archive.text() {
        Ok(t) => t,
        Err(e) => {
            return Err(e);
        },
    };
    proof {
        encode_utf8_decode_utf8(text@);
    }
    let spans = match load_spans(archive) {
        Ok(v) => v,
        Err(e) => {
            return Err(e);
        },
    };
    proof {
        assert(text@ == file_text(archive.file()));
        assert(spans@ == file_spans(archive.file()));
    }
    let r = search_spans(text, &spans, ids, matcher);
    proof {
        if r matches Err(Error::Io(_, _)) {
            let i = choose|i: int| #[trigger] span_asked(text@, spans@, i);
            assert(span_asked(file_text(archive.file()), file_spans(archive.file()), i));
        }
    }
    r
}

/// `r` is what searching an archive file for the query `q` gives.
pub open spec fn query_hits(
    q: QueryModel,
    b: Seq<u8>,
    ids: Seq<Option<String>>,
    r: Result<Vec<SearchHit>, Error>,
) -> bool {
    let o = query_options(q);
    match r {
        Err(Error::EmptyPattern) => q.pattern.len() == 0,
        Err(Error::InvalidPattern(e)) => q.pattern.len() > 0 && pattern_fault(o) == Some(e@),
        Err(e) => q.pattern.len() > 0 && pattern_fault(o) is None && searched_file(o, b, ids, Err(e)),
        Ok(v) => q.pattern.len() > 0 && pattern_fault(o) is None && exists|found: UniqueHits|
            found.hits == v && #[trigger] searched_file(o, b, ids, Ok(found)),
    }
}

fn search_compiled(
    archive: &Archive,
    ids: &Vec<Option<String>>,
    query: &CompiledQuery,
) -> (r: Result<Vec<SearchHit>, Error>)
    requires
        archive.wf(),
    ensures
        query_hits(query@, archive.file(), ids@, r),
{
    let matcher = match compile_matcher(query) {
        Ok(m) => m,
        Err(e) => {
            return Err(e);
        },
    };
    match search_blob(archive, ids, &matcher) {
        Ok(found) => {
            let ghost all = found;
            let hits = found.hits;
            assert(searched_file(query_options(query@), archive.file(), ids@, Ok(all)));
            Ok(hits)
        },
        Err(e) => Err(e),
    }
}

/// A query that uses `pattern` as PCRE2 as it stands.
pub open spec fn pcre2_model(pattern: Seq<char>, flags: SearchFlags) -> QueryModel {
    QueryModel {
        pattern,
        flags,
        kind: QueryKind::Regex,
        multi_line: false,
        dotall: false,
        extended: false,
    }
}

/// Searches the text of an archive. The pattern is PCRE2.
pub fn search(
    archive: &Archive,
    ids: &Vec<Option<String>>,
    pattern: &str,
    ignore_case: bool,
) -> (r: Result<Vec<SearchHit>, Error>)
    requires
        archive.wf(),
    ensures
        query_hits(
            pcre2_model(
                pattern@,
                (SearchFlags { ignore_case, fixed_strings: false, word_regexp: false }),
            ),
            archive.file(),
            ids@,
            r,
        ),
{
    search_with(
        archive,
        ids,
        pattern,
        SearchFlags { ignore_case, fixed_strings: false, word_regexp: false },
    )
}

/// Searches the text of an archive. The pattern is PCRE2.
pub fn search_with(
    archive: &Archive,
    ids: &Vec<Option<String>>,
    pattern: &str,
    flags: SearchFlags,
) -> (r: Result<Vec<SearchHit>, Error>)
    requires
        archive.wf(),
    ensures
        query_hits(pcre2_model(pattern@, flags), archive.file(), ids@, r),
{
    let query = CompiledQuery::pcre2(pattern, flags);
    search_compiled(archive, ids, &query)
}

/// Compiles a human or slash-wrapped query and searches the text of an
/// archive.
pub fn search_query(
    archive: &Archive,
    ids: &Vec<Option<String>>,
    pattern: &str,
    flags: SearchFlags,
) -> (r: Result<Vec<SearchHit>, Error>)
    requires
        archive.wf(),
    ensures
        match compile_fault(pattern@, flags) {
            None => query_hits(compile_model(pattern@, flags), archive.file(), ids@, r),
            Some(_) => exists|e: Error|
                r == Err::<Vec<SearchHit>, Error>(e) && #[trigger] compiles_to(
                    pattern@,
                    flags,
                    Err(e),
                ),
        },
{
    match compile_query(pattern, flags) {
        Ok(query) => search_compiled(archive, ids, &query),
        Err(e) => Err(e),
    }
}

/// `r` is what searching an archive file for a human or slash-wrapped query
/// gives.
pub open spec fn pattern_found(
    pattern: Seq<char>,
    flags: SearchFlags,
    b: Seq<u8>,
    ids: Seq<Option<String>>,
    r: Result<UniqueHits, Error>,
) -> bool {
    match compile_fault(pattern, flags) {
        Some(_) => exists|e: Error|
            r == Err::<UniqueHits, Error>(e) && #[trigger] compiles_to(pattern, flags, Err(e)),
        None => {
            let q = compile_model(pattern, flags);
            let o = query_options(q);
            match r {
                Err(Error::EmptyPattern) => q.pattern.len() == 0,
                Err(Error::InvalidPattern(e)) => q.pattern.len() > 0 && pattern_fault(o) == Some(e@),
                _ => q.pattern.len() > 0 && pattern_fault(o) is None && searched_file(o, b, ids, r),
            }
        },
    }
}

/// Compiles a human or slash-wrapped query and searches the text of an
/// archive. Counts what it left out.
pub fn search_one_archive_pattern(
    archive: &Archive,
    ids: &Vec<Option<String>>,
    pattern: &str,
    flags: SearchFlags,
) -> (r: Result<UniqueHits, Error>)
    requires
        archive.wf(),
    ensures
        pattern_found(pattern@, flags, archive.file(), ids@, r),
{
    let query = match compile_query(pattern, flags) {
        Ok(q) => q,
        Err(e) => {
            return Err(e);
        },
    };
    match compile_matcher(&query) {
        Ok(m) => search_blob(archive, ids, &m),
        Err(e) => Err(e),
    }
}

/// A text with line breaks and tabs as spaces.
pub open spec fn flat(s: Seq<char>) -> Seq<char> {
    s.map_values(|c: char| if c == '\n' || c == '\r' || c == '\t' { ' ' } else { c })
}

/// Three dots, where something was left out.
pub open spec fn left_out(some: bool) -> Seq<char> {
    if some {
        seq!['.', '.', '.']
    } else {
        Seq::empty()
    }
}

/// The snippet is the match `mid` with `left` before it and `right` behind it.
/// These are the whole of what stands there, or at least 56 bytes of it, and
/// not one character more than that takes. Dots tell that something is left
/// out.
pub open spec fn shown_between(
    snippet: Seq<char>,
    pre: Seq<char>,
    mid: Seq<char>,
    post: Seq<char>,
    left: Seq<char>,
    right: Seq<char>,
) -> bool {
    &&& left.is_suffix_of(pre)
    &&& right.is_prefix_of(post)
    &&& left == pre || byte_len(left) >= 56
    &&& right == post || byte_len(right) >= 56
    &&& byte_len(left) <= 56 || byte_len(left.drop_first()) < 56
    &&& byte_len(right) <= 56 || byte_len(right.drop_last()) < 56
    &&& snippet == left_out(left.len() < pre.len()) + flat(left) + flat(mid) + flat(right)
        + left_out(right.len() < post.len())
}

/// The end of one part of a text is a character boundary.
proof fn lemma_part_end(p: Seq<char>, q: Seq<char>)
    ensures
        is_char_boundary(encode_utf8(p + q), byte_len(p) as int),
        encode_utf8(p + q) == encode_utf8(p) + encode_utf8(q),
{
    let (x, y) = (encode_utf8(p), encode_utf8(q));
    let b = encode_utf8(p + q);
    lemma_encode_concat(p, q);
    encode_utf8_valid_utf8(p + q);
    encode_utf8_valid_utf8(q);
    is_char_boundary_start_end_of_seq(b);
    is_char_boundary_start_end_of_seq(y);
    if y.len() > 0 {
        is_char_boundary_iff_not_is_continuation_byte(y, 0);
        is_char_boundary_iff_not_is_continuation_byte(b, x.len() as int);
        assert(b[x.len() as int] == y[0]);
    }
}

/// A text parted at a character boundary of its bytes.
proof fn lemma_parted(t: Seq<char>, i: int) -> (r: (Seq<char>, Seq<char>))
    requires
        0 <= i <= byte_len(t),
        is_char_boundary(encode_utf8(t), i),
    ensures
        t == r.0 + r.1,
        encode_utf8(r.0) == encode_utf8(t).subrange(0, i),
        encode_utf8(r.1) == encode_utf8(t).subrange(i, byte_len(t) as int),
{
    let b = encode_utf8(t);
    encode_utf8_valid_utf8(t);
    encode_utf8_decode_utf8(t);
    valid_utf8_split(b, i);
    decode_utf8_split(b, i);
    let (x, y) = (b.subrange(0, i), b.subrange(i, b.len() as int));
    decode_utf8_encode_utf8(x);
    decode_utf8_encode_utf8(y);
    (decode_utf8(x), decode_utf8(y))
}

proof fn lemma_before(b: Seq<u8>, i: int)
    requires
        valid_utf8(b),
        0 <= i <= b.len(),
    ensures
        0 <= boundary_at_or_before(b, i) <= i,
        is_char_boundary(b, boundary_at_or_before(b, i)),
        forall|j: int|
            0 <= j <= i && #[trigger] is_char_boundary(b, j) ==> j <= boundary_at_or_before(b, i),
    decreases i,
{
    is_char_boundary_start_end_of_seq(b);
    if !(i <= 0 || is_char_boundary(b, i)) {
        lemma_before(b, i - 1);
    }
}

proof fn lemma_after(b: Seq<u8>, i: int)
    requires
        valid_utf8(b),
        0 <= i <= b.len(),
    ensures
        i <= boundary_at_or_after(b, i) <= b.len(),
        is_char_boundary(b, boundary_at_or_after(b, i)),
        forall|j: int|
            i <= j <= b.len() && #[trigger] is_char_boundary(b, j) ==> boundary_at_or_after(b, i)
                <= j,
    decreases b.len() - i,
{
    is_char_boundary_start_end_of_seq(b);
    if !(i >= b.len() || is_char_boundary(b, i)) {
        lemma_after(b, i + 1);
    }
}

proof fn lemma_no_bytes(t: Seq<char>)
    ensures
        t.len() == 0 <==> byte_len(t) == 0,
{
    if byte_len(t) == 0 {
        let none = Seq::<char>::empty();
        encode_utf8_decode_utf8(t);
        encode_utf8_decode_utf8(none);
        assert(encode_utf8(t) =~= encode_utf8(none));
    }
}

/// What a snippet shows before a match.
proof fn lemma_left(pre: Seq<char>, rest: Seq<char>) -> (left: Seq<char>)
    ensures
        ({
            let b = encode_utf8(pre + rest);
            let start = window_start(b, byte_len(pre) as int);
            &&& 0 <= start <= byte_len(pre)
            &&& left.is_suffix_of(pre)
            &&& left == pre || byte_len(left) >= 56
            &&& byte_len(left) <= 56 || byte_len(left.drop_first()) < 56
            &&& encode_utf8(left) == b.subrange(start, byte_len(pre) as int)
            &&& start > 0 <==> left.len() < pre.len()
        }),
{
    let b = encode_utf8(pre + rest);
    let x = encode_utf8(pre);
    let off = byte_len(pre) as int;
    let first = if off >= 56 {
        off - 56
    } else {
        0
    };
    let start = window_start(b, off);
    lemma_part_end(pre, rest);
    encode_utf8_valid_utf8(pre + rest);
    encode_utf8_valid_utf8(pre);
    lemma_before(b, first);
    is_char_boundary_start_end_of_seq(x);
    if start < off {
        is_char_boundary_iff_not_is_continuation_byte(b, start);
        is_char_boundary_iff_not_is_continuation_byte(x, start);
        assert(b[start] == x[start]);
    }
    let (gone, left) = lemma_parted(pre, start);
    assert(b.subrange(start, off) =~= x.subrange(start, off));
    lemma_no_bytes(gone);
    if gone.len() == 0 {
        assert(gone + left =~= left);
    }
    assert(left =~= pre.subrange(pre.len() - left.len(), pre.len() as int));
    if byte_len(left) > 56 {
        lemma_no_bytes(left);
        let (c, more) = (left.take(1), left.drop_first());
        assert(c + more =~= left);
        lemma_encode_concat(c, more);
        lemma_no_bytes(c);
        lemma_encode_concat(gone, c);
        assert((gone + c) + (more + rest) =~= pre + rest);
        lemma_part_end(gone + c, more + rest);
        assert(byte_len(gone + c) == start + byte_len(c));
        assert(is_char_boundary(b, start + byte_len(c)));
    }
    left
}

/// What a snippet shows behind a match.
proof fn lemma_right(lead: Seq<char>, post: Seq<char>) -> (right: Seq<char>)
    ensures
        ({
            let b = encode_utf8(lead + post);
            let stop = byte_len(lead) as int;
            let end = window_end(b, stop);
            &&& stop <= end <= b.len()
            &&& right.is_prefix_of(post)
            &&& right == post || byte_len(right) >= 56
            &&& byte_len(right) <= 56 || byte_len(right.drop_last()) < 56
            &&& encode_utf8(right) == b.subrange(stop, end)
            &&& end < b.len() <==> right.len() < post.len()
        }),
{
    let b = encode_utf8(lead + post);
    let y = encode_utf8(post);
    let n = b.len() as int;
    let stop = byte_len(lead) as int;
    let first = if stop + 56 <= n {
        stop + 56
    } else {
        n
    };
    lemma_part_end(lead, post);
    encode_utf8_valid_utf8(lead + post);
    encode_utf8_valid_utf8(post);
    lemma_after(b, first);
    let end = window_end(b, stop);
    is_char_boundary_start_end_of_seq(y);
    if end < n {
        is_char_boundary_iff_not_is_continuation_byte(b, end);
        is_char_boundary_iff_not_is_continuation_byte(y, end - stop);
        assert(b[end] == y[end - stop]);
    }
    let (right, gone) = lemma_parted(post, end - stop);
    assert(b.subrange(stop, end) =~= y.subrange(0, end - stop));
    lemma_no_bytes(gone);
    if gone.len() == 0 {
        assert(right + gone =~= right);
    }
    assert(right =~= post.subrange(0, right.len() as int));
    if byte_len(right) > 56 {
        lemma_no_bytes(right);
        let (more, c) = (right.drop_last(), right.skip(right.len() - 1));
        assert(more + c =~= right);
        lemma_encode_concat(more, c);
        lemma_no_bytes(c);
        lemma_encode_concat(lead, more);
        assert((lead + more) + (c + gone) =~= lead + post);
        lemma_part_end(lead + more, c + gone);
        assert(byte_len(lead + more) == end - byte_len(c));
        assert(is_char_boundary(b, end - byte_len(c)));
    }
    right
}

/// The snippet shows the match. For a match `mid` with `pre` before it and
/// `post` behind it, the whole match stands in the snippet on one line, with
/// as much around it as the window allows, and dots where it ends.
pub proof fn law_snippet_shows_the_match(pre: Seq<char>, mid: Seq<char>, post: Seq<char>)
    ensures
        exists|left: Seq<char>, right: Seq<char>| #[trigger]
            shown_between(
                snippet_text(pre + mid + post, byte_len(pre) as int, byte_len(mid) as int),
                pre,
                mid,
                post,
                left,
                right,
            ),
{
    let text = pre + mid + post;
    let b = encode_utf8(text);
    let left = lemma_left(pre, mid + post);
    let right = lemma_right(pre + mid, post);
    assert(pre + (mid + post) =~= text);
    lemma_encode_concat(pre, mid);
    lemma_encode_concat(pre + mid, post);
    let off = byte_len(pre) as int;
    let stop = off + byte_len(mid);
    let start = window_start(b, off);
    let end = window_end(b, stop);
    let shown = left + mid + right;
    lemma_encode_concat(left, mid);
    lemma_encode_concat(left + mid, right);
    assert(b.subrange(start, end) =~= b.subrange(start, off) + encode_utf8(mid) + b.subrange(
        stop,
        end,
    ));
    encode_utf8_decode_utf8(shown);
    assert(on_one_line(shown) =~= flat(left) + flat(mid) + flat(right));
    reveal_strlit("...");
    assert("..."@ =~= seq!['.', '.', '.']);
    let dots_before = left_out(left.len() < pre.len());
    let dots_behind = left_out(right.len() < post.len());
    assert(snippet_text(text, off, byte_len(mid) as int) =~= dots_before + flat(left) + flat(mid)
        + flat(right) + dots_behind);
    assert(shown_between(
        snippet_text(text, off, byte_len(mid) as int),
        pre,
        mid,
        post,
        left,
        right,
    ));
}

/// Pieces of text one after the other.
pub open spec fn put_together(v: Seq<Seq<char>>) -> Seq<char>
    decreases v.len(),
{
    if v.len() == 0 {
        Seq::empty()
    } else {
        v[0] + put_together(v.drop_first())
    }
}

/// The lines of a text are all of it. Each but the last ends with its line
/// feed, and no other line feed stands in a line.
pub proof fn law_lines(s: Seq<char>, i: int, k: int)
    ensures
        put_together(lines(s)) == s,
        0 <= i < lines(s).len() ==> lines(s)[i].len() > 0,
        0 <= i < lines(s).len() - 1 ==> lines(s)[i].last() == '\n',
        0 <= i < lines(s).len() && 0 <= k < lines(s)[i].len() - 1 ==> lines(s)[i][k] != '\n',
    decreases s.len(),
{
    if s.len() > 0 {
        law_places(s, '\n');
        let n = first_index(s, '\n');
        if n == s.len() {
            reveal_with_fuel(put_together, 2);
            assert(seq![s].drop_first() =~= Seq::<Seq<char>>::empty());
            assert(s + Seq::<char>::empty() =~= s);
            if i == 0 && 0 <= k < s.len() - 1 {
                assert(s[k] != '\n');
            }
        } else {
            let rest = s.skip(n + 1);
            let all = lines(s);
            law_lines(rest, i - 1, k);
            assert(all.drop_first() =~= lines(rest));
            assert(s.take(n + 1) + rest =~= s);
            assert(s.contains(s[n]));
            if i == 0 && 0 <= k < n {
                assert(s.take(n + 1)[k] == s[k]);
            }
            if i > 0 && i < all.len() {
                assert(all[i] == lines(rest)[i - 1]);
            }
        }
    } else {
        assert(s =~= Seq::<char>::empty());
    }
}

proof fn lemma_line_start(s: Seq<char>, i: int) -> (pre: Seq<char>)
    requires
        0 <= i <= lines(s).len(),
    ensures
        pre.is_prefix_of(s),
        byte_len(pre) == line_start(lines(s), i),
        i < lines(s).len() ==> pre.len() + lines(s)[i].len() <= s.len() && s.subrange(
            pre.len() as int,
            (pre.len() + lines(s)[i].len()) as int,
        ) == lines(s)[i],
    decreases i,
{
    let ls = lines(s);
    if i == 0 {
        let none = Seq::<char>::empty();
        assert(none =~= s.subrange(0, 0));
        assert(encode_utf8(none) =~= Seq::<u8>::empty());
        if ls.len() > 0 {
            lemma_first_index(s, '\n');
            assert(s.subrange(0, ls[0].len() as int) =~= ls[0]);
        }
        none
    } else {
        let pre = lemma_line_start(s, i - 1);
        let now = pre + ls[i - 1];
        lemma_encode_concat(pre, ls[i - 1]);
        assert(now =~= s.subrange(0, now.len() as int));
        if i < ls.len() {
            lemma_next_line(s, i, pre);
        }
        now
    }
}

/// Lines follow each other: what stands behind the first `i` lines opens with
/// the next.
proof fn lemma_next_line(s: Seq<char>, i: int, pre: Seq<char>)
    requires
        0 < i < lines(s).len(),
        pre.is_prefix_of(s),
        byte_len(pre) == line_start(lines(s), i - 1),
        pre.len() + lines(s)[i - 1].len() <= s.len(),
        s.subrange(pre.len() as int, (pre.len() + lines(s)[i - 1].len()) as int) == lines(s)[i - 1],
    ensures
        ({
            let at = (pre.len() + lines(s)[i - 1].len()) as int;
            &&& at + lines(s)[i].len() <= s.len()
            &&& s.subrange(at, at + lines(s)[i].len()) == lines(s)[i]
        }),
    decreases i,
{
    lemma_chars_before(s, i);
    lemma_chars_before(s, i - 1);
    let ls = lines(s);
    let a = chars_before(ls, i - 1);
    let p = s.take(a);
    lemma_start_bytes(s, i - 1);
    assert(byte_len(p) == byte_len(pre));
    lemma_same_prefix(s, p, pre);
}

spec fn chars_before(ls: Seq<Seq<char>>, i: int) -> int
    decreases i,
{
    if i <= 0 {
        0
    } else {
        chars_before(ls, i - 1) + ls[i - 1].len()
    }
}

proof fn lemma_chars_before(s: Seq<char>, i: int)
    requires
        0 <= i < lines(s).len(),
    ensures
        0 <= chars_before(lines(s), i) <= chars_before(lines(s), i) + lines(s)[i].len() <= s.len(),
        s.subrange(chars_before(lines(s), i), chars_before(lines(s), i) + lines(s)[i].len())
            == lines(s)[i],
    decreases s.len(),
{
    let ls = lines(s);
    lemma_first_index(s, '\n');
    let n = first_index(s, '\n');
    if n < s.len() {
        let rest = s.skip(n + 1);
        if i == 0 {
            assert(s.subrange(0, n + 1) =~= s.take(n + 1));
        } else {
            lemma_chars_before(rest, i - 1);
            lemma_shifted(ls, lines(rest), i);
            let a = chars_before(lines(rest), i - 1);
            let m = ls[i].len() as int;
            assert(s.subrange(n + 1 + a, n + 1 + a + m) =~= rest.subrange(a, a + m));
        }
    } else {
        assert(s.subrange(0, s.len() as int) =~= s);
    }
}

proof fn lemma_shifted(all: Seq<Seq<char>>, rest: Seq<Seq<char>>, i: int)
    requires
        0 < i <= all.len(),
        all =~= seq![all[0]] + rest,
    ensures
        chars_before(all, i) == all[0].len() + chars_before(rest, i - 1),
    decreases i,
{
    reveal_with_fuel(chars_before, 2);
    if i > 1 {
        lemma_shifted(all, rest, i - 1);
        assert(all[i - 1] == rest[i - 2]);
    }
}

proof fn lemma_start_bytes(s: Seq<char>, i: int)
    requires
        0 <= i < lines(s).len(),
    ensures
        byte_len(s.take(chars_before(lines(s), i))) == line_start(lines(s), i),
    decreases i,
{
    let ls = lines(s);
    lemma_chars_before(s, i);
    if i > 0 {
        lemma_start_bytes(s, i - 1);
        lemma_chars_before(s, i - 1);
        let (a, b) = (chars_before(ls, i - 1), chars_before(ls, i));
        lemma_encode_concat(s.take(a), ls[i - 1]);
        assert(s.take(b) =~= s.take(a) + ls[i - 1]);
    } else {
        assert(s.take(0) =~= Seq::<char>::empty());
        assert(encode_utf8(Seq::<char>::empty()) =~= Seq::<u8>::empty());
    }
}

proof fn lemma_same_prefix(s: Seq<char>, p: Seq<char>, q: Seq<char>)
    requires
        p.is_prefix_of(s),
        q.is_prefix_of(s),
        byte_len(p) == byte_len(q),
    ensures
        p == q,
{
    if p.len() < q.len() {
        lemma_longer_prefix(s, p, q);
    } else if q.len() < p.len() {
        lemma_longer_prefix(s, q, p);
    } else {
        assert(p =~= q);
    }
}

proof fn lemma_longer_prefix(s: Seq<char>, p: Seq<char>, q: Seq<char>)
    requires
        p.is_prefix_of(s),
        q.is_prefix_of(s),
        p.len() < q.len(),
    ensures
        byte_len(p) < byte_len(q),
{
    let more = q.skip(p.len() as int);
    assert(p + more =~= q);
    lemma_encode_concat(p, more);
    lemma_no_bytes(more);
}

/// A match in a line is placed in the text: the bytes that it stands for are
/// those of the match in its line.
pub proof fn law_matches_are_placed(
    text: Seq<char>,
    numbers: Seq<u64>,
    ranges: Seq<Seq<(usize, usize)>>,
    k: int,
    j: int,
)
    requires
        numbers.len() == ranges.len(),
        0 <= k < numbers.len(),
        1 <= numbers[k] <= lines(text).len(),
        0 <= j < ranges[k].len(),
        ranges[k][j].0 <= ranges[k][j].1 <= byte_len(lines(text)[numbers[k] - 1]),
        byte_len(text) <= usize::MAX,
    ensures
        exists|m: int|
            #![trigger placed_matches(lines(text), numbers, ranges)[m]]
            {
                let all = placed_matches(lines(text), numbers, ranges);
                let b = encode_utf8(text);
                &&& 0 <= m < all.len()
                &&& all[m].1 == ranges[k][j].1 - ranges[k][j].0
                &&& all[m].0 + all[m].1 <= b.len()
                &&& b.subrange(all[m].0 as int, all[m].0 + all[m].1) == encode_utf8(
                    lines(text)[numbers[k] - 1],
                ).subrange(ranges[k][j].0 as int, ranges[k][j].1 as int)
            },
{
    let ls = lines(text);
    let i = numbers[k] - 1;
    let (x, y) = (ranges[k][j].0, ranges[k][j].1);
    let all = placed_matches(ls, numbers, ranges);
    let want = ((line_start(ls, i) + x) as u64, (y - x) as usize);
    lemma_placed(ls, numbers, ranges, k, j);
    let m = choose|m: int| 0 <= m < all.len() && all[m] == want;
    let pre = lemma_line_start(text, i);
    let line = ls[i];
    let post = text.skip((pre.len() + line.len()) as int);
    assert(text =~= pre + line + post);
    lemma_encode_concat(pre, line);
    lemma_encode_concat(pre + line, post);
    let b = encode_utf8(text);
    let at = byte_len(pre) as int;
    assert(b.subrange(at + x, at + y) =~= encode_utf8(line).subrange(x as int, y as int));
    assert(all[m].0 == at + x && all[m].1 == y - x);
}

proof fn lemma_placed(
    ls: Seq<Seq<char>>,
    numbers: Seq<u64>,
    ranges: Seq<Seq<(usize, usize)>>,
    k: int,
    j: int,
)
    requires
        numbers.len() == ranges.len(),
        0 <= k < numbers.len(),
        0 <= j < ranges[k].len(),
    ensures
        placed_matches(ls, numbers, ranges).contains(
            (
                (line_start(ls, numbers[k] - 1) + ranges[k][j].0) as u64,
                (ranges[k][j].1 - ranges[k][j].0) as usize,
            ),
        ),
    decreases numbers.len(),
{
    let n = numbers.len() - 1;
    let head = placed_matches(ls, numbers.drop_last(), ranges.drop_last());
    let all = placed_matches(ls, numbers, ranges);
    let want = (
        (line_start(ls, numbers[k] - 1) + ranges[k][j].0) as u64,
        (ranges[k][j].1 - ranges[k][j].0) as usize,
    );
    if k < n {
        assert(ranges.drop_last()[k] == ranges[k]);
        lemma_placed(ls, numbers.drop_last(), ranges.drop_last(), k, j);
        let m = choose|m: int| 0 <= m < head.len() && head[m] == want;
        assert(all[m] == want);
    } else {
        assert(all[head.len() + j] == want);
    }
}

/// The match that a span is shown by starts inside the span, no other match
/// in it starts before, and none that starts with it is longer.
pub proof fn law_first_and_longest(ms: Seq<(u64, usize)>, len: u64, i: int)
    requires
        len <= u32::MAX,
    ensures
        match picked(ms, len) {
            Some(best) => {
                &&& best.0 < len
                &&& ms.contains(best)
                &&& 0 <= i < ms.len() && ms[i].0 < len && ms[i].1 <= u32::MAX ==> best.0 <= ms[i].0
                    && (best.0 == ms[i].0 ==> best.1 >= ms[i].1)
            },
            None => 0 <= i < ms.len() ==> ms[i].0 >= len || ms[i].1 > u32::MAX,
        },
{
    law_picked_is_first(ms, len);
    if picked(ms, len) is Some && 0 <= i < ms.len() && ms[i].0 < len && ms[i].1 <= u32::MAX {
        assert(usable(ms[i], len));
    }
}

/// The fields that a span can be of.
pub proof fn law_field_names(n: u32)
    ensures
        field_text(1) == "title"@,
        field_text(2) == "summary"@,
        field_text(3) == "message"@,
        n == 0 || n > 3 ==> field_text(n) == "unknown"@,
{
}

/// A query is handed to the matcher as it is: its pattern and each option in
/// its own place.
pub proof fn law_options_are_handed_on(q: QueryModel, pattern: Seq<char>, flags: SearchFlags)
    ensures
        query_options(q).0 == q.pattern,
        query_options(q).1 == q.flags.ignore_case,
        query_options(q).2 == q.flags.fixed_strings,
        query_options(q).3 == q.flags.word_regexp,
        query_options(q).4 == q.multi_line,
        query_options(q).5 == q.dotall,
        query_options(q).6 == q.extended,
        query_options(pcre2_model(pattern, flags)) == (
            pattern,
            flags.ignore_case,
            flags.fixed_strings,
            flags.word_regexp,
            false,
            false,
            false,
        ),
{
}

/// The hits of spans with matches: one for each span that has a match in it,
/// in the order of the spans, at the picked match.
pub proof fn law_one_hit_for_each_span(
    spans: Seq<TextSpan>,
    found: Seq<Seq<(u64, usize)>>,
    i: int,
    j: int,
)
    requires
        spans.len() == found.len(),
        spans.len() <= u32::MAX,
    ensures
        0 <= i < spans.len() && picked(found[i], spans[i].len) is Some ==> exists|k: int|
            0 <= k < span_hits(spans, found).len() && (#[trigger] span_hits(spans, found)[k]).span_index
                == i,
        0 <= j < span_hits(spans, found).len() ==> {
            let h = span_hits(spans, found)[j];
            &&& h.span_index < spans.len()
            &&& picked(found[h.span_index as int], spans[h.span_index as int].len) == Some(
                (h.byte_off as u64, h.match_len as usize),
            )
        },
        0 < j < span_hits(spans, found).len() ==> span_hits(spans, found)[j - 1].span_index
            < span_hits(spans, found)[j].span_index,
    decreases spans.len(),
{
    if spans.len() > 0 {
        let n = spans.len() - 1;
        let (s, f) = (spans.drop_last(), found.drop_last());
        let head = span_hits(s, f);
        let all = span_hits(spans, found);
        law_one_hit_for_each_span(s, f, i, j);
        law_picked_is_first(found[n], spans[n].len);
        if 0 <= i < n {
            assert(s[i] == spans[i] && f[i] == found[i]);
            if picked(found[i], spans[i].len) is Some {
                let k = choose|k: int|
                    0 <= k < head.len() && (#[trigger] head[k]).span_index == i;
                assert(all[k] == head[k]);
            }
        } else if i == n && picked(found[n], spans[n].len) is Some {
            assert(all[head.len() as int].span_index == n);
        }
        if 0 <= j < head.len() {
            assert(all[j] == head[j]);
            let x = head[j].span_index as int;
            assert(s[x] == spans[x] && f[x] == found[x]);
        }
        if j > 0 && j == head.len() {
            law_one_hit_for_each_span(s, f, i, j - 1);
            assert(all[j - 1] == head[j - 1]);
        }
    }
}

/// A search finds every span that matches: where a span has a match in it, a
/// hit of its conversation and field shows its whole text.
pub proof fn law_search_finds_every_span(
    q: PatternModel,
    text: Seq<char>,
    spans: Seq<TextSpan>,
    ids: Seq<Option<String>>,
    found: UniqueHits,
    i: int,
    t: Seq<char>,
)
    requires
        searched(q, text, spans, ids, found),
        spans.len() <= u32::MAX,
        0 <= i < spans.len(),
        text_range(text, spans[i].text_off as int, spans[i].len as int) == Some(t),
        t.len() > 0,
        picked(found_in(q, t), spans[i].len) is Some,
    ensures
        exists|k: int|
            0 <= k < found.hits@.len() && (#[trigger] found.hits@[k]).span_text@ == t && opt_view(
                found.hits@[k].conversation_id,
            ) == opt_view(ids[spans[i].record_index as int]) && found.hits@[k].field@ == field_text(
                spans[i].field_id,
            ),
{
    let lists = spans_found(q, text, spans);
    let ms = span_hits(spans, lists);
    let hs = choose|hs: Seq<SearchHit>| #[trigger]
        all_shown(text, spans, ids, ms, hs) && found.hits@ == by_conversation(firsts(hs));
    assert(lists[i] == found_in(q, t));
    law_one_hit_for_each_span(spans, lists, i, 0);
    let m = choose|m: int| 0 <= m < ms.len() && (#[trigger] ms[m]).span_index == i;
    assert(shows(text, spans, ids, ms[m], hs[m]));
    law_one_hit_for_each_text(hs, 0, 0, m);
    let one = firsts(hs);
    let f = choose|f: int|
        0 <= f < one.len() && opt_view((#[trigger] one[f]).conversation_id) == opt_view(
            hs[m].conversation_id,
        ) && one[f].field@ == hs[m].field@ && one[f].span_text@ == hs[m].span_text@;
    law_grouping_keeps_hits(one);
    let all = by_conversation(one);
    one.to_multiset_ensures();
    all.to_multiset_ensures();
    assert(one.contains(one[f]));
    assert(one.to_multiset().count(one[f]) > 0);
    assert(all.contains(one[f]));
    let k = choose|k: int| 0 <= k < all.len() && all[k] == one[f];
    assert(found.hits@[k].span_text@ == t);
}

/// Every hit shows a span that matches, with the id of its conversation, the
/// name of its field and its whole text.
pub proof fn law_every_hit_is_a_matching_span(
    q: PatternModel,
    text: Seq<char>,
    spans: Seq<TextSpan>,
    ids: Seq<Option<String>>,
    found: UniqueHits,
    k: int,
)
    requires
        searched(q, text, spans, ids, found),
        spans.len() <= u32::MAX,
        0 <= k < found.hits@.len(),
    ensures
        exists|i: int|
            {
                let h = found.hits@[k];
                &&& 0 <= i < spans.len()
                &&& text_range(text, (#[trigger] spans[i]).text_off as int, spans[i].len as int)
                    == Some(h.span_text@)
                &&& h.span_text@.len() > 0
                &&& picked(found_in(q, h.span_text@), spans[i].len) is Some
                &&& spans[i].record_index < ids.len()
                &&& opt_view(h.conversation_id) == opt_view(ids[spans[i].record_index as int])
                &&& h.field@ == field_text(spans[i].field_id)
            },
{
    let lists = spans_found(q, text, spans);
    let ms = span_hits(spans, lists);
    let hs = choose|hs: Seq<SearchHit>| #[trigger]
        all_shown(text, spans, ids, ms, hs) && found.hits@ == by_conversation(firsts(hs));
    let one = firsts(hs);
    let all = by_conversation(one);
    let h = all[k];
    law_grouping_keeps_hits(one);
    one.to_multiset_ensures();
    all.to_multiset_ensures();
    assert(all.contains(h));
    assert(all.to_multiset().count(h) > 0);
    assert(one.contains(h));
    let f = choose|f: int| 0 <= f < one.len() && one[f] == h;
    law_one_hit_for_each_text(hs, f, f, 0);
    assert(hs.contains(h));
    let m = choose|m: int| 0 <= m < hs.len() && hs[m] == h;
    law_one_hit_for_each_span(spans, lists, 0, m);
    let i = ms[m].span_index as int;
    assert(can_show(text, spans, ids.len(), ms[m]));
    assert(shows(text, spans, ids, ms[m], hs[m]));
    let t = match_text(text, spans, ms[m]);
    assert(text_range(text, spans[i].text_off as int, spans[i].len as int) is Some);
    law_picked_is_first(lists[i], spans[i].len);
    assert(lists[i] == span_found(q, text, spans[i]));
    if t.len() == 0 {
        assert(lists[i].len() == 0);
    }
    assert(spans[i].text_off == spans[i].text_off);
}

/// Which patterns are refused before they are tried: only those with a reset
/// of the match start, a call of a group and a lookaround. A pattern without
/// a backslash resets nothing, and one without a bracket looks nowhere.
pub proof fn law_what_can_cross(p: Seq<char>, s: Seq<char>, c: char)
    ensures
        !p.contains('\\') ==> !has_reset(p),
        !p.contains('(') ==> !has_look(p),
        has_reset(seq!['\\', 'K'] + s),
        c != '\\' ==> has_reset(seq![c] + s) == has_reset(s),
        c != '\\' && c != '(' ==> has_call(seq![c] + s) == has_call(s),
        c != '\\' && c != '(' ==> has_look(seq![c] + s) == has_look(s),
        has_look(seq!['(', '?', '='] + s),
        has_look(seq!['(', '?', '!'] + s),
        has_look(seq!['(', '?', '<', '='] + s),
        has_look(seq!['(', '?', '<', '!'] + s),
        has_call(seq!['(', '?', 'R'] + s),
        has_call(seq!['(', '?', '&'] + s),
        has_call(seq!['(', '?', 'P', '>'] + s),
        !can_cross((p, false, true, false, false, false, false)),
        can_cross((p, false, false, false, false, false, false)) <==> has_reset(p) && has_call(p)
            && has_look(p),
{
    if !p.contains('\\') {
        lemma_no_reset(p);
    }
    if !p.contains('(') {
        lemma_no_look(p);
    }
    let t = seq![c] + s;
    assert(t[0] == c);
    assert(t.skip(1) =~= s);
    let a = seq!['\\', 'K'] + s;
    assert(a[0] == '\\' && a[1] == 'K');
    let b1 = seq!['(', '?', '='] + s;
    let b2 = seq!['(', '?', '!'] + s;
    let b3 = seq!['(', '?', '<', '='] + s;
    let b4 = seq!['(', '?', '<', '!'] + s;
    assert(b1[0] == '(' && b1[1] == '?' && b1[2] == '=');
    assert(b2[0] == '(' && b2[1] == '?' && b2[2] == '!');
    assert(b3[0] == '(' && b3[1] == '?' && b3[2] == '<' && b3[3] == '=');
    assert(b4[0] == '(' && b4[1] == '?' && b4[2] == '<' && b4[3] == '!');
    let d1 = seq!['(', '?', 'R'] + s;
    let d2 = seq!['(', '?', '&'] + s;
    let d3 = seq!['(', '?', 'P', '>'] + s;
    assert(d1[0] == '(' && d1[1] == '?' && d1[2] == 'R');
    assert(d2[0] == '(' && d2[1] == '?' && d2[2] == '&');
    assert(d3[0] == '(' && d3[1] == '?' && d3[2] == 'P' && d3[3] == '>');
}

proof fn lemma_no_reset(p: Seq<char>)
    requires
        !p.contains('\\'),
    ensures
        !has_reset(p),
    decreases p.len(),
{
    if p.len() > 0 {
        assert(p.contains(p[0]));
        let rest = p.skip(1);
        assert(!rest.contains('\\')) by {
            if rest.contains('\\') {
                let i = choose|i: int| 0 <= i < rest.len() && rest[i] == '\\';
                assert(p[i + 1] == '\\');
            }
        }
        lemma_no_reset(rest);
    }
}

proof fn lemma_no_look(p: Seq<char>)
    requires
        !p.contains('('),
    ensures
        !has_look(p),
    decreases p.len(),
{
    if p.len() > 0 {
        assert(p.contains(p[0]));
        let rest = p.skip(item_len(p));
        assert(!rest.contains('(')) by {
            if rest.contains('(') {
                let i = choose|i: int| 0 <= i < rest.len() && rest[i] == '(';
                assert(p[i + item_len(p)] == '(');
            }
        }
        lemma_no_look(rest);
    }
}

} // verus!
