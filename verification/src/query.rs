//! Compiles a search pattern into PCRE2.
//!
//! Human mode is the default: bare words join with implicit AND (lookaheads,
//! any order), `AND` and `OR` are keywords in any case, `|` is OR, double
//! quotes mark a contiguous phrase, and metacharacters are escaped. A pattern
//! `/regex/flags` is taken as a regular expression with the flags `i`, `g`,
//! `m`, `s` and `x`. With fixed strings the pattern stays a literal.
use vstd::prelude::*;

use crate::paths::{lemma_split_around, lemma_split_before};
use crate::search::SearchFlags;
use crate::text::{
    blank, cat3, char_is_white, chars_of, eq_ascii, find_last, first_index, is_white, join, join_with,
    last_index, lemma_trim_lead, lower, lower_char, same_ascii, same_str, split_at_char, split_char, string_range, trim, trim_start,
    trimmed, views,
};
use crate::Error;

verus! {

/// How [`compile_query`] read the input.
#[derive(Clone, Copy, Debug, PartialEq, Eq, Structural)]
pub enum QueryKind {
    /// Human query: implicit AND, `AND`, `OR`, `|`, quoted phrases.
    Human,
    /// Slash-wrapped `/pattern/flags`.
    Regex,
    /// A literal.
    Literal,
}

/// PCRE2 pattern plus matcher flags.
#[derive(Clone, Debug, PartialEq, Eq)]
pub struct CompiledQuery {
    pub pattern: String,
    pub flags: SearchFlags,
    pub kind: QueryKind,
    pub multi_line: bool,
    pub dotall: bool,
    pub extended: bool,
}

/// What a compiled query says.
pub struct QueryModel {
    pub pattern: Seq<char>,
    pub flags: SearchFlags,
    pub kind: QueryKind,
    pub multi_line: bool,
    pub dotall: bool,
    pub extended: bool,
}

impl View for CompiledQuery {
    type V = QueryModel;

    open spec fn view(&self) -> QueryModel {
        QueryModel {
            pattern: self.pattern@,
            flags: self.flags,
            kind: self.kind,
            multi_line: self.multi_line,
            dotall: self.dotall,
            extended: self.extended,
        }
    }
}

/// Why a pattern does not compile.
pub enum QueryFault {
    Empty,
    Invalid(Seq<char>),
}

/// A word of a human query.
#[derive(Debug)]
pub enum Token {
    Term(String),
    And,
    Or,
}

/// A word of a human query, as the rules see it.
pub enum Lexeme {
    Term(Seq<char>),
    And,
    Or,
}

/// View of a token.
pub open spec fn lexeme(t: Token) -> Lexeme {
    match t {
        Token::Term(s) => Lexeme::Term(s@),
        Token::And => Lexeme::And,
        Token::Or => Lexeme::Or,
    }
}

/// Views of tokens.
pub open spec fn lexemes(ts: Seq<Token>) -> Seq<Lexeme> {
    Seq::new(ts.len(), |i: int| lexeme(ts[i]))
}

impl CompiledQuery {
    /// Uses `pattern` as PCRE2 as it stands.
    pub fn pcre2(pattern: &str, flags: SearchFlags) -> (r: CompiledQuery)
        ensures
            r@ == (QueryModel {
                pattern: pattern@,
                flags,
                kind: QueryKind::Regex,
                multi_line: false,
                dotall: false,
                extended: false,
            }),
    {
        CompiledQuery {
            pattern: pattern.to_owned(),
            flags,
            kind: QueryKind::Regex,
            multi_line: false,
            dotall: false,
            extended: false,
        }
    }
}

/// Characters that PCRE2 reads as operators.
pub open spec fn is_meta(c: char) -> bool {
    c == '\\' || c == '.' || c == '+' || c == '*' || c == '?' || c == '(' || c == ')' || c == '|'
        || c == '[' || c == ']' || c == '{' || c == '}' || c == '^' || c == '$' || c == '#'
}

/// `s` with a backslash before every operator.
pub open spec fn escaped(s: Seq<char>) -> Seq<char>
    decreases s.len(),
{
    if s.len() == 0 {
        Seq::empty()
    } else if is_meta(s.last()) {
        escaped(s.drop_last()).push('\\').push(s.last())
    } else {
        escaped(s.drop_last()).push(s.last())
    }
}

/// Escapes PCRE2 operators in a human term or phrase.
pub fn escape_pcre2(text: &str) -> (r: String)
    ensures
        r@ == escaped(text@),
{
    let v = chars_of(text);
    let mut out = String::new();
    let mut i: usize = 0;
    while i < v.len()
        invariant
            i <= v@.len(),
            v@ == text@,
            out@ == escaped(v@.take(i as int)),
        decreases v.len() - i,
    {
        let c = v[i];
        proof {
            assert(v@.take(i + 1).drop_last() =~= v@.take(i as int));
        }
        if c == '\\' || c == '.' || c == '+' || c == '*' || c == '?' || c == '(' || c == ')' || c
            == '|' || c == '[' || c == ']' || c == '{' || c == '}' || c == '^' || c == '$' || c
            == '#' {
            out.push('\\');
        }
        out.push(c);
        i = i + 1;
    }
    proof {
        assert(v@.take(v@.len() as int) =~= v@);
    }
    out
}

/// A term, bounded by non-word characters when `word`.
pub open spec fn bounded(term: Seq<char>, word: bool) -> Seq<char> {
    if word {
        "(?<!\\w)(?:"@ + term + ")(?!\\w)"@
    } else {
        term
    }
}

/// The pattern of a bare word or phrase.
pub open spec fn term_pattern(raw: Seq<char>, word: bool) -> Seq<char> {
    bounded(escaped(raw), word)
}

/// The token of a bare word or phrase.
fn term_of(raw: &str, word: bool) -> (t: Token)
    ensures
        lexeme(t) == Lexeme::Term(term_pattern(raw@, word)),
{
    let e = escape_pcre2(raw);
    if word {
        Token::Term(cat3("(?<!\\w)(?:", e.as_str(), ")(?!\\w)"))
    } else {
        Token::Term(e)
    }
}

/// The tokens of alternatives written with `|`, or why they are none.
pub open spec fn alternatives(parts: Seq<Seq<char>>, word: bool) -> Result<Seq<Lexeme>, Seq<char>>
    decreases parts.len(),
{
    if parts.len() == 0 {
        Ok(Seq::empty())
    } else {
        match alternatives(parts.drop_last(), word) {
            Err(m) => Err(m),
            Ok(head) => {
                let part = parts.last();
                if part.len() == 0 {
                    Err("empty alternative next to |"@)
                } else if same_ascii(part, "AND"@) || same_ascii(part, "OR"@) {
                    Err("AND or OR next to | is not a search term"@)
                } else {
                    let glued = if parts.len() == 1 {
                        head
                    } else {
                        head.push(Lexeme::Or)
                    };
                    Ok(glued.push(Lexeme::Term(term_pattern(part, word))))
                }
            },
        }
    }
}

/// The tokens of a word outside quotes, or why it is none.
pub open spec fn unquoted(raw: Seq<char>, word: bool) -> Result<Seq<Lexeme>, Seq<char>> {
    if same_ascii(raw, "AND"@) {
        Ok(seq![Lexeme::And])
    } else if same_ascii(raw, "OR"@) || raw == "|"@ {
        Ok(seq![Lexeme::Or])
    } else if raw.contains('|') {
        alternatives(split_char(raw, '|'), word)
    } else {
        Ok(seq![Lexeme::Term(term_pattern(raw, word))])
    }
}

/// Length of the part of `s` before the first white space.
pub open spec fn word_len(s: Seq<char>) -> nat
    decreases s.len(),
{
    if s.len() == 0 || is_white(s[0]) {
        0
    } else {
        1 + word_len(s.drop_first())
    }
}

proof fn lemma_word_len(s: Seq<char>)
    ensures
        word_len(s) <= s.len(),
    decreases s.len(),
{
    if s.len() > 0 && !is_white(s[0]) {
        lemma_word_len(s.drop_first());
    }
}

proof fn lemma_trim_start(s: Seq<char>)
    ensures
        trim_start(s).len() <= s.len(),
        trim_start(s).len() > 0 ==> !is_white(trim_start(s)[0]),
    decreases s.len(),
{
    if s.len() > 0 && is_white(s[0]) {
        lemma_trim_start(s.drop_first());
    }
}

proof fn lemma_first_index(s: Seq<char>, c: char)
    ensures
        0 <= first_index(s, c) <= s.len(),
    decreases s.len(),
{
    if s.len() > 0 && s[0] != c {
        lemma_first_index(s.drop_first(), c);
    }
}

/// `head` before the tokens of the rest.
pub open spec fn then_tokens(
    head: Seq<Lexeme>,
    rest: Result<Seq<Lexeme>, Seq<char>>,
) -> Result<Seq<Lexeme>, Seq<char>> {
    match rest {
        Ok(t) => Ok(head + t),
        Err(m) => Err(m),
    }
}

/// The tokens of a human query, or why it has none.
pub open spec fn tokens(input: Seq<char>, word: bool) -> Result<Seq<Lexeme>, Seq<char>>
    decreases input.len(),
    via tokens_decreases
{
    let s = trim_start(input);
    if s.len() == 0 {
        Ok(Seq::empty())
    } else if s[0] == '"' {
        let t = s.drop_first();
        let end = first_index(t, '"');
        if end == t.len() {
            Err("unclosed quote in search pattern"@)
        } else if end == 0 {
            Err("empty quoted phrase"@)
        } else {
            then_tokens(
                seq![Lexeme::Term(term_pattern(t.take(end), word))],
                tokens(t.skip(end + 1), word),
            )
        }
    } else {
        let n = word_len(s) as int;
        match unquoted(s.take(n), word) {
            Err(m) => Err(m),
            Ok(head) => then_tokens(head, tokens(s.skip(n), word)),
        }
    }
}

#[via_fn]
proof fn tokens_decreases(input: Seq<char>, word: bool) {
    lemma_trim_start(input);
    let s = trim_start(input);
    lemma_word_len(s);
    if s.len() > 0 {
        lemma_first_index(s.drop_first(), '"');
    }
}

/// Appends the tokens of a word outside quotes.
fn push_unquoted_token(out: &mut Vec<Token>, raw: &str, word: bool) -> (r: Result<(), Error>)
    ensures
        match r {
            Ok(_) => unquoted(raw@, word) matches Ok(ts) && lexemes(final(out)@) == lexemes(
                old(out)@,
            ) + ts,
            Err(Error::InvalidPattern(m)) => unquoted(raw@, word) == Err::<Seq<Lexeme>, Seq<char>>(
                m@,
            ),
            Err(_) => false,
        },
{
    if eq_ascii(raw, "AND") {
        out.push(Token::And);
        proof {
            assert(lexemes(out@) =~= lexemes(old(out)@) + seq![Lexeme::And]);
        }
        return Ok(());
    }
    if eq_ascii(raw, "OR") || same_str(raw, "|") {
        out.push(Token::Or);
        proof {
            assert(lexemes(out@) =~= lexemes(old(out)@) + seq![Lexeme::Or]);
        }
        return Ok(());
    }
    if crate::text::contains_char(raw, '|') {
        let parts = split_at_char(raw, '|');
        let ghost all = views(parts@);
        let ghost start = lexemes(out@);
        let mut i: usize = 0;
        proof {
            assert(all.take(0) =~= Seq::<Seq<char>>::empty());
            assert(start + Seq::<Lexeme>::empty() =~= start);
        }
        while i < parts.len()
            invariant
                i <= parts@.len(),
                all == views(parts@),
                all == split_char(raw@, '|'),
                raw@.contains('|'),
                !same_ascii(raw@, "AND"@),
                !same_ascii(raw@, "OR"@),
                raw@ != "|"@,
                alternatives(all.take(i as int), word) matches Ok(ts) && lexemes(out@) == start + ts,
            decreases parts.len() - i,
        {
            let ghost so_far = alternatives(all.take(i as int), word)->Ok_0;
            proof {
                assert(all.take(i + 1).drop_last() =~= all.take(i as int));
                assert(all.take(i + 1).last() == parts@[i as int]@);
            }
            let part = parts[i].as_str();
            if part.is_empty() {
                proof {
                    lemma_alternatives_stay(all, i + 1, word);
                }
                return Err(Error::InvalidPattern("empty alternative next to |".to_owned()));
            }
            if eq_ascii(part, "AND") || eq_ascii(part, "OR") {
                proof {
                    lemma_alternatives_stay(all, i + 1, word);
                }
                return Err(
                    Error::InvalidPattern("AND or OR next to | is not a search term".to_owned()),
                );
            }
            let ghost pre = lexemes(out@);
            let ghost glued = if i > 0 {
                so_far.push(Lexeme::Or)
            } else {
                so_far
            };
            if i > 0 {
                let ghost toks = out@;
                out.push(Token::Or);
                proof {
                    assert(lexemes(out@) =~= lexemes(toks).push(Lexeme::Or));
                    assert(pre.push(Lexeme::Or) =~= start + so_far.push(Lexeme::Or));
                }
            }
            proof {
                assert(lexemes(out@) == start + glued);
            }
            let ghost mid = lexemes(out@);
            let token = term_of(part, word);
            let ghost last = lexeme(token);
            out.push(token);
            proof {
                assert(lexemes(out@) =~= mid.push(last));
                assert(mid.push(last) =~= start + glued.push(last));
                assert(alternatives(all.take(i + 1), word) == Ok::<Seq<Lexeme>, Seq<char>>(
                    glued.push(last),
                ));
            }
            i = i + 1;
        }
        proof {
            assert(all.take(all.len() as int) =~= all);
        }
        return Ok(());
    }
    let t = term_of(raw, word);
    out.push(t);
    proof {
        assert(lexemes(out@) =~= lexemes(old(out)@) + seq![
            Lexeme::Term(term_pattern(raw@, word)),
        ]);
    }
    Ok(())
}

proof fn lemma_alternatives_stay(parts: Seq<Seq<char>>, j: int, word: bool)
    requires
        0 <= j <= parts.len(),
        alternatives(parts.take(j), word) is Err,
    ensures
        alternatives(parts, word) == alternatives(parts.take(j), word),
    decreases parts.len() - j,
{
    if j < parts.len() {
        assert(parts.take(j + 1).drop_last() =~= parts.take(j));
        lemma_alternatives_stay(parts, j + 1, word);
    } else {
        assert(parts.take(j) =~= parts);
    }
}

/// The tokens of a human query.
pub fn tokenize(input: &str, word: bool) -> (r: Result<Vec<Token>, Error>)
    ensures
        match r {
            Ok(ts) => tokens(input@, word) == Ok::<Seq<Lexeme>, Seq<char>>(lexemes(ts@)),
            Err(Error::InvalidPattern(m)) => tokens(input@, word) == Err::<Seq<Lexeme>, Seq<char>>(
                m@,
            ),
            Err(_) => false,
        },
{
    let v = chars_of(input);
    let mut out: Vec<Token> = Vec::new();
    let mut i: usize = 0;
    proof {
        assert(v@.skip(0) =~= v@);
        lemma_then_empty(tokens(v@, word));
        assert(lexemes(out@) =~= Seq::<Lexeme>::empty());
    }
    while i < v.len()
        invariant
            i <= v@.len(),
            v@ == input@,
            v@.len() == v.len(),
            tokens(input@, word) == then_tokens(lexemes(out@), tokens(v@.skip(i as int), word)),
        decreases v.len() - i,
    {
        let ghost rest = v@.skip(i as int);
        if char_is_white(v[i]) {
            proof {
                assert(rest.drop_first() =~= v@.skip(i + 1));
                assert(trim_start(rest) == trim_start(v@.skip(i + 1)));
            }
            i = i + 1;
            continue ;
        }
        proof {
            assert(rest[0] == v@[i as int]);
            assert(trim_start(rest) == rest);
        }
        let ghost was = lexemes(out@);
        if v[i] == '"' {
            let ghost t = rest.drop_first();
            let mut end: usize = i + 1;
            proof {
                assert(t.skip(0) =~= t);
                assert(v@.skip(i + 1) =~= t);
            }
            while end < v.len() && v[end] != '"'
                invariant
                    i + 1 <= end <= v@.len(),
                    v@.len() == v.len(),
                    t == v@.skip(i + 1),
                    first_index(t, '"') == end - i - 1 + first_index(v@.skip(end as int), '"'),
                decreases v.len() - end,
            {
                proof {
                    assert(v@.skip(end as int).drop_first() =~= v@.skip(end + 1));
                }
                end = end + 1;
            }
            if end == v.len() {
                return Err(Error::InvalidPattern("unclosed quote in search pattern".to_owned()));
            }
            proof {
                assert(v@.skip(end as int)[0] == '"');
                assert(first_index(t, '"') == end - i - 1);
            }
            if end == i + 1 {
                return Err(Error::InvalidPattern("empty quoted phrase".to_owned()));
            }
            let phrase = string_range(&v, i + 1, end);
            let token = term_of(phrase.as_str(), word);
            out.push(token);
            proof {
                assert(phrase@ =~= t.take(end - i - 1));
                assert(t.skip(end - i) =~= v@.skip(end + 1));
                let one = seq![Lexeme::Term(term_pattern(phrase@, word))];
                assert(lexemes(out@) =~= was + one);
                lemma_then_concat(was, one, tokens(v@.skip(end + 1), word));
            }
            i = end + 1;
            continue ;
        }
        let mut end: usize = i;
        proof {
            assert(rest.skip(0) =~= rest);
        }
        while end < v.len() && !char_is_white(v[end])
            invariant
                i <= end <= v@.len(),
                v@.len() == v.len(),
                rest == v@.skip(i as int),
                word_len(rest) == end - i + word_len(v@.skip(end as int)),
            decreases v.len() - end,
        {
            proof {
                assert(v@.skip(end as int).drop_first() =~= v@.skip(end + 1));
            }
            end = end + 1;
        }
        proof {
            assert(word_len(v@.skip(end as int)) == 0);
            assert(rest.take(end - i) =~= v@.subrange(i as int, end as int));
            assert(rest.skip(end - i) =~= v@.skip(end as int));
        }
        let raw = string_range(&v, i, end);
        match push_unquoted_token(&mut out, raw.as_str(), word) {
            Ok(_) => {
                proof {
                    lemma_then_concat(
                        was,
                        unquoted(raw@, word)->Ok_0,
                        tokens(v@.skip(end as int), word),
                    );
                }
            },
            Err(e) => {
                return Err(e);
            },
        }
        proof {
            assert(end > i) by {
                assert(word_len(rest) > 0);
            }
        }
        i = end;
    }
    proof {
        assert(v@.skip(i as int) =~= Seq::<char>::empty());
        assert(lexemes(out@) + Seq::<Lexeme>::empty() =~= lexemes(out@));
    }
    Ok(out)
}

proof fn lemma_then_empty(r: Result<Seq<Lexeme>, Seq<char>>)
    ensures
        then_tokens(Seq::empty(), r) == r,
{
    match r {
        Ok(t) => {
            assert(Seq::<Lexeme>::empty() + t =~= t);
        },
        Err(_) => {},
    }
}

proof fn lemma_then_concat(
    a: Seq<Lexeme>,
    b: Seq<Lexeme>,
    r: Result<Seq<Lexeme>, Seq<char>>,
)
    ensures
        then_tokens(a, then_tokens(b, r)) == then_tokens(a + b, r),
{
    match r {
        Ok(t) => {
            assert(a + (b + t) =~= a + b + t);
        },
        Err(_) => {},
    }
}

/// The runs of tokens between `OR`s.
pub open spec fn or_groups(ts: Seq<Lexeme>) -> Seq<Seq<Lexeme>>
    decreases ts.len(),
{
    if ts.len() == 0 {
        seq![Seq::<Lexeme>::empty()]
    } else {
        let head = or_groups(ts.drop_last());
        if ts.last() is Or {
            head.push(Seq::<Lexeme>::empty())
        } else {
            head.drop_last().push(head.last().push(ts.last()))
        }
    }
}

/// Every `AND` of the run stands between two terms.
pub open spec fn and_ok(g: Seq<Lexeme>) -> bool {
    &&& g.len() > 0
    &&& !(g[0] is And)
    &&& !(g.last() is And)
    &&& forall|i: int| 0 < i < g.len() ==> !((#[trigger] g[i]) is And && g[i - 1] is And)
}

/// The terms of a run.
pub open spec fn terms(g: Seq<Lexeme>) -> Seq<Seq<char>>
    decreases g.len(),
{
    if g.len() == 0 {
        Seq::empty()
    } else {
        match g.last() {
            Lexeme::Term(t) => terms(g.drop_last()).push(t),
            _ => terms(g.drop_last()),
        }
    }
}

/// One lookahead for each term.
pub open spec fn lookaheads(t: Seq<Seq<char>>) -> Seq<char>
    decreases t.len(),
{
    if t.len() == 0 {
        Seq::empty()
    } else {
        lookaheads(t.drop_last()) + "(?=.*"@ + t.last() + ")"@
    }
}

/// The pattern of terms that must all occur: a single term as it stands,
/// several as lookaheads.
pub open spec fn all_of(t: Seq<Seq<char>>) -> Seq<char> {
    if t.len() == 1 {
        t[0]
    } else {
        lookaheads(t)
    }
}

/// Why runs of tokens are no query: the first run with a fault decides.
pub open spec fn groups_fault(gs: Seq<Seq<Lexeme>>) -> Option<Seq<char>>
    decreases gs.len(),
{
    if gs.len() == 0 {
        None
    } else if groups_fault(gs.drop_last()) is Some {
        groups_fault(gs.drop_last())
    } else if gs.last().len() == 0 {
        Some("OR must sit between search terms"@)
    } else if !and_ok(gs.last()) {
        Some("AND must sit between search terms"@)
    } else {
        None
    }
}

/// The patterns of runs of tokens.
pub open spec fn group_patterns(gs: Seq<Seq<Lexeme>>) -> Seq<Seq<char>> {
    Seq::new(gs.len(), |i: int| all_of(terms(gs[i])))
}

/// The pattern of a human query: AND binds tighter than OR.
pub open spec fn human_pattern(ts: Seq<Lexeme>) -> Seq<char> {
    join(group_patterns(or_groups(ts)), "|"@)
}

/// Scanning a run: what follows an `AND` or the start must be a term.
spec fn run_ok(g: Seq<Lexeme>) -> bool {
    &&& g.len() > 0 ==> !(g[0] is And)
    &&& forall|i: int| 0 < i < g.len() ==> !((#[trigger] g[i]) is And && g[i - 1] is And)
}

proof fn lemma_run_bad(g: Seq<Lexeme>, i: int)
    requires
        0 <= i < g.len(),
        g[i] is And,
        i == 0 || g[i - 1] is And,
    ensures
        !and_ok(g),
{
    if i > 0 {
        assert(!(g[i] is And && g[i - 1] is And) ==> false);
    }
}

/// The pattern of the run `ts[from..to]`, which holds no `OR`.
fn parse_and(ts: &Vec<Token>, from: usize, to: usize) -> (r: Result<String, Error>)
    requires
        from < to <= ts@.len(),
        forall|i: int| from <= i < to ==> !((#[trigger] ts@[i]) is Or),
    ensures
        ({
            let g = lexemes(ts@).subrange(from as int, to as int);
            match r {
                Ok(p) => and_ok(g) && p@ == all_of(terms(g)),
                Err(Error::InvalidPattern(m)) => !and_ok(g) && m@
                    == "AND must sit between search terms"@,
                Err(_) => false,
            }
        }),
{
    let ghost g = lexemes(ts@).subrange(from as int, to as int);
    let mut found: Vec<String> = Vec::new();
    let mut expect_term = true;
    let mut i: usize = from;
    proof {
        assert(g.take(0) =~= Seq::<Lexeme>::empty());
    }
    while i < to
        invariant
            from <= i <= to <= ts@.len(),
            g == lexemes(ts@).subrange(from as int, to as int),
            forall|k: int| from <= k < to ==> !((#[trigger] ts@[k]) is Or),
            views(found@) == terms(g.take(i - from)),
            run_ok(g.take(i - from)),
            expect_term == (i == from || g[i - from - 1] is And),
        decreases to - i,
    {
        let ghost k = i - from;
        proof {
            assert(g.take(k + 1).drop_last() =~= g.take(k));
            assert(g[k] == lexeme(ts@[i as int]));
        }
        match &ts[i] {
            Token::And => {
                if expect_term {
                    proof {
                        lemma_run_bad(g, k);
                    }
                    return Err(
                        Error::InvalidPattern("AND must sit between search terms".to_owned()),
                    );
                }
                expect_term = true;
            },
            Token::Term(term) => {
                let ghost was = found@;
                found.push(term.clone());
                proof {
                    assert(views(found@) =~= views(was).push(term@));
                }
                expect_term = false;
            },
            Token::Or => {},
        }
        proof {
            assert forall|x: int| 0 < x < g.take(k + 1).len() implies !((#[trigger] g.take(
                k + 1,
            )[x]) is And && g.take(k + 1)[x - 1] is And) by {
                if x < k {
                    assert(g.take(k)[x] == g[x]);
                    assert(g.take(k)[x - 1] == g[x - 1]);
                }
            }
            assert(k > 0 ==> g.take(k)[0] == g[0]);
        }
        i = i + 1;
    }
    proof {
        assert(g.take(g.len() as int) =~= g);
    }
    if expect_term {
        return Err(Error::InvalidPattern("AND must sit between search terms".to_owned()));
    }
    proof {
        assert(views(found@).len() == found@.len());
    }
    if found.len() == 1 {
        proof {
            assert(views(found@)[0] == found@[0]@);
        }
        return Ok(found[0].clone());
    }
    let mut out = String::new();
    let mut j: usize = 0;
    proof {
        assert(views(found@).take(0) =~= Seq::<Seq<char>>::empty());
    }
    while j < found.len()
        invariant
            j <= found@.len(),
            out@ == lookaheads(views(found@).take(j as int)),
        decreases found.len() - j,
    {
        proof {
            let t = views(found@);
            assert(t.take(j + 1).drop_last() =~= t.take(j as int));
            assert(t.take(j + 1).last() == found@[j as int]@);
        }
        out.push_str("(?=.*");
        out.push_str(found[j].as_str());
        out.push_str(")");
        j = j + 1;
    }
    proof {
        assert(views(found@).take(found@.len() as int) =~= views(found@));
    }
    Ok(out)
}

proof fn lemma_groups_nonempty(ts: Seq<Lexeme>)
    ensures
        or_groups(ts).len() > 0,
    decreases ts.len(),
{
    if ts.len() > 0 {
        lemma_groups_nonempty(ts.drop_last());
    }
}

proof fn lemma_groups_fault_stay(gs: Seq<Seq<Lexeme>>, j: int)
    requires
        0 <= j <= gs.len(),
        groups_fault(gs.take(j)) is Some,
    ensures
        groups_fault(gs) == groups_fault(gs.take(j)),
    decreases gs.len() - j,
{
    if j < gs.len() {
        assert(gs.take(j + 1).drop_last() =~= gs.take(j));
        lemma_groups_fault_stay(gs, j + 1);
    } else {
        assert(gs.take(j) =~= gs);
    }
}

/// The groups of a prefix are the groups of the whole, up to the last one.
proof fn lemma_groups_prefix(ts: Seq<Lexeme>, k: int)
    requires
        0 <= k <= ts.len(),
    ensures
        ({
            let a = or_groups(ts.take(k));
            let b = or_groups(ts);
            a.len() <= b.len() && a.drop_last() == b.take(a.len() - 1) && a.len() > 0
        }),
    decreases ts.len() - k,
{
    lemma_groups_nonempty(ts.take(k));
    if k < ts.len() {
        lemma_groups_prefix(ts, k + 1);
        assert(ts.take(k + 1).drop_last() =~= ts.take(k));
        let a = or_groups(ts.take(k));
        let c = or_groups(ts.take(k + 1));
        let b = or_groups(ts);
        assert(a.drop_last() =~= c.take(a.len() - 1));
        assert(c.take(a.len() - 1) =~= b.take(a.len() - 1)) by {
            assert(c.drop_last() == b.take(c.len() - 1));
            if ts.take(k + 1).last() is Or {
                assert(c.drop_last() =~= a);
                assert forall|x: int| 0 <= x < a.len() - 1 implies c[x] == b[x] by {
                    assert(c.drop_last()[x] == b.take(c.len() - 1)[x]);
                }
            } else {
                assert forall|x: int| 0 <= x < a.len() - 1 implies c[x] == b[x] by {
                    assert(c.drop_last()[x] == b.take(c.len() - 1)[x]);
                }
            }
        }
    } else {
        assert(ts.take(k) =~= ts);
        assert(or_groups(ts).drop_last() =~= or_groups(ts).take(or_groups(ts).len() - 1));
    }
}

/// The pattern of the tokens of a human query.
fn parse_or(ts: &Vec<Token>) -> (r: Result<String, Error>)
    ensures
        match r {
            Ok(p) => groups_fault(or_groups(lexemes(ts@))) is None && p@ == human_pattern(
                lexemes(ts@),
            ),
            Err(Error::InvalidPattern(m)) => groups_fault(or_groups(lexemes(ts@))) == Some(m@),
            Err(_) => false,
        },
{
    let ghost all = lexemes(ts@);
    let ghost gs = or_groups(all);
    let mut alternatives: Vec<String> = Vec::new();
    let mut from: usize = 0;
    let mut i: usize = 0;
    proof {
        assert(all.take(0) =~= Seq::<Lexeme>::empty());
        assert(or_groups(all.take(0)).drop_last() =~= Seq::<Seq<Lexeme>>::empty());
        assert(all.subrange(0, 0) =~= Seq::<Lexeme>::empty());
        assert(gs.take(0) =~= Seq::<Seq<Lexeme>>::empty());
        assert(group_patterns(gs.take(0)) =~= Seq::<Seq<char>>::empty());
    }
    while i < ts.len()
        invariant
            from <= i <= ts@.len(),
            all == lexemes(ts@),
            gs == or_groups(all),
            forall|k: int| from <= k < i ==> !((#[trigger] ts@[k]) is Or),
            or_groups(all.take(i as int)).len() == alternatives@.len() + 1,
            or_groups(all.take(i as int)).last() == all.subrange(from as int, i as int),
            groups_fault(or_groups(all.take(i as int)).drop_last()) is None,
            views(alternatives@) == group_patterns(or_groups(all.take(i as int)).drop_last()),
        decreases ts.len() - i,
    {
        let ghost now = or_groups(all.take(i as int));
        proof {
            lemma_groups_nonempty(all.take(i as int));
            assert(all.take(i + 1).drop_last() =~= all.take(i as int));
            assert(all.take(i + 1).last() == lexeme(ts@[i as int]));
        }
        match &ts[i] {
            Token::Or => {
                proof {
                    let next = or_groups(all.take(i + 1));
                    assert(next.drop_last() =~= now);
                    lemma_groups_prefix(all, i + 1);
                    assert(gs.take(now.len() as int) =~= now);
                    assert(now.drop_last().push(now.last()) =~= now);
                }
                if from == i {
                    proof {
                        assert(all.subrange(from as int, i as int).len() == 0);
                        lemma_groups_fault_stay(gs, now.len() as int);
                    }
                    return Err(Error::InvalidPattern("OR must sit between search terms".to_owned()));
                }
                match parse_and(ts, from, i) {
                    Ok(p) => {
                        let ghost was = alternatives@;
                        alternatives.push(p);
                        proof {
                            assert(views(alternatives@) =~= views(was).push(p@));
                            assert(group_patterns(now) =~= group_patterns(now.drop_last()).push(
                                all_of(terms(now.last())),
                            ));
                        }
                    },
                    Err(e) => {
                        proof {
                            lemma_groups_fault_stay(gs, now.len() as int);
                        }
                        return Err(e);
                    },
                }
                from = i + 1;
                proof {
                    assert(all.subrange(from as int, i + 1) =~= Seq::<Lexeme>::empty());
                }
            },
            _ => {
                proof {
                    let next = or_groups(all.take(i + 1));
                    assert(next.drop_last() =~= now.drop_last());
                    assert(all.subrange(from as int, i + 1) =~= all.subrange(
                        from as int,
                        i as int,
                    ).push(all[i as int]));
                }
            },
        }
        i = i + 1;
    }
    proof {
        assert(all.take(all.len() as int) =~= all);
        assert(gs.drop_last().push(gs.last()) =~= gs);
    }
    if from == ts.len() {
        proof {
            assert(all.subrange(from as int, i as int).len() == 0);
        }
        return Err(Error::InvalidPattern("OR must sit between search terms".to_owned()));
    }
    match parse_and(ts, from, ts.len()) {
        Ok(p) => {
            let ghost was = alternatives@;
            alternatives.push(p);
            proof {
                assert(views(alternatives@) =~= views(was).push(p@));
                assert(group_patterns(gs) =~= group_patterns(gs.drop_last()).push(
                    all_of(terms(gs.last())),
                ));
            }
        },
        Err(e) => {
            return Err(e);
        },
    }
    Ok(join_with(alternatives.as_slice(), "|"))
}

/// Body and flags of a slash-wrapped pattern.
pub open spec fn slash_parts(s: Seq<char>) -> Option<(Seq<char>, Seq<char>)> {
    if s.len() > 0 && s[0] == '/' {
        let rest = s.drop_first();
        let slash = last_index(rest, '/');
        let flags = rest.skip(slash + 1);
        if slash >= 0 && (forall|i: int|
            0 <= i < flags.len() ==> 'a' <= (#[trigger] flags[i]) <= 'z') {
            Some((rest.take(slash), flags))
        } else {
            None
        }
    } else {
        None
    }
}

/// A flag that a slash-wrapped pattern may have.
pub open spec fn known_flag(c: char) -> bool {
    c == 'i' || c == 'g' || c == 'm' || c == 's' || c == 'x'
}

/// The first unknown flag.
pub open spec fn unknown_flag(flags: Seq<char>) -> Option<char>
    decreases flags.len(),
{
    if flags.len() == 0 {
        None
    } else if unknown_flag(flags.drop_last()) is Some {
        unknown_flag(flags.drop_last())
    } else if known_flag(flags.last()) {
        None
    } else {
        Some(flags.last())
    }
}

proof fn lemma_unknown_stays(flags: Seq<char>, j: int)
    requires
        0 <= j <= flags.len(),
        unknown_flag(flags.take(j)) is Some,
    ensures
        unknown_flag(flags) == unknown_flag(flags.take(j)),
    decreases flags.len() - j,
{
    if j < flags.len() {
        assert(flags.take(j + 1).drop_last() =~= flags.take(j));
        lemma_unknown_stays(flags, j + 1);
    } else {
        assert(flags.take(j) =~= flags);
    }
}

/// Why a pattern does not compile.
pub open spec fn compile_fault(pattern: Seq<char>, flags: SearchFlags) -> Option<QueryFault> {
    let s = trim(pattern);
    if s.len() == 0 {
        Some(QueryFault::Empty)
    } else if flags.fixed_strings {
        None
    } else {
        match slash_parts(s) {
            Some((body, letters)) => if body.len() == 0 {
                Some(QueryFault::Empty)
            } else {
                match unknown_flag(letters) {
                    Some(c) => Some(
                        QueryFault::Invalid("unsupported regex flag '"@ + seq![c] + "'"@),
                    ),
                    None => None,
                }
            },
            None => match tokens(s, flags.word_regexp) {
                Err(m) => Some(QueryFault::Invalid(m)),
                Ok(ts) => if ts.len() == 0 {
                    Some(QueryFault::Empty)
                } else {
                    match groups_fault(or_groups(ts)) {
                        Some(m) => Some(QueryFault::Invalid(m)),
                        None => None,
                    }
                },
            },
        }
    }
}

/// What a pattern compiles to.
pub open spec fn compile_model(pattern: Seq<char>, flags: SearchFlags) -> QueryModel {
    let s = trim(pattern);
    if flags.fixed_strings {
        QueryModel {
            pattern: s,
            flags,
            kind: QueryKind::Literal,
            multi_line: false,
            dotall: false,
            extended: false,
        }
    } else {
        match slash_parts(s) {
            Some((body, letters)) => QueryModel {
                pattern: body,
                flags: SearchFlags {
                    ignore_case: flags.ignore_case || letters.contains('i'),
                    fixed_strings: false,
                    word_regexp: flags.word_regexp,
                },
                kind: QueryKind::Regex,
                multi_line: letters.contains('m'),
                dotall: letters.contains('s'),
                extended: letters.contains('x'),
            },
            None => QueryModel {
                pattern: human_pattern(tokens(s, flags.word_regexp)->Ok_0),
                flags: SearchFlags {
                    ignore_case: flags.ignore_case,
                    fixed_strings: false,
                    word_regexp: false,
                },
                kind: QueryKind::Human,
                multi_line: false,
                dotall: false,
                extended: false,
            },
        }
    }
}

/// `r` is what compiling `pattern` gives.
pub open spec fn compiles_to(
    pattern: Seq<char>,
    flags: SearchFlags,
    r: Result<CompiledQuery, Error>,
) -> bool {
    match r {
        Ok(q) => compile_fault(pattern, flags) is None && q@ == compile_model(pattern, flags),
        Err(Error::EmptyPattern) => compile_fault(pattern, flags) == Some(QueryFault::Empty),
        Err(Error::InvalidPattern(m)) => compile_fault(pattern, flags) == Some(
            QueryFault::Invalid(m@),
        ),
        Err(_) => false,
    }
}

/// Body and flags of a slash-wrapped pattern.
fn parse_slash_regex(s: &str) -> (r: Option<(String, String)>)
    ensures
        match r {
            Some(p) => slash_parts(s@) == Some((p.0@, p.1@)),
            None => slash_parts(s@) is None,
        },
{
    let v = chars_of(s);
    if v.len() == 0 || v[0] != '/' {
        return None;
    }
    let rest = vstd::slice::slice_subrange(v.as_slice(), 1, v.len());
    proof {
        assert(rest@ =~= s@.drop_first());
    }
    let slash = match find_last(rest, '/') {
        Some(i) => i,
        None => {
            return None;
        },
    };
    let ghost flags = rest@.skip(slash + 1);
    let mut i: usize = slash + 1;
    while i < rest.len()
        invariant
            slash + 1 <= i <= rest@.len(),
            flags == rest@.skip(slash + 1),
            rest@ == s@.drop_first(),
            s@.len() > 0,
            s@[0] == '/',
            last_index(rest@, '/') == slash,
            forall|k: int| 0 <= k < i - slash - 1 ==> 'a' <= (#[trigger] flags[k]) <= 'z',
        decreases rest.len() - i,
    {
        let c = rest[i];
        proof {
            assert(flags[i - slash - 1] == c);
        }
        if c < 'a' || c > 'z' {
            return None;
        }
        i = i + 1;
    }
    let body = string_range(rest, 0, slash);
    let letters = string_range(rest, slash + 1, rest.len());
    proof {
        assert(body@ =~= rest@.take(slash as int));
        assert(letters@ =~= flags);
    }
    Some((body, letters))
}

/// Reads the flags of a slash-wrapped pattern.
fn compile_regex_mode(body: String, letters: &str, flags: SearchFlags) -> (r: Result<
    CompiledQuery,
    Error,
>)
    ensures
        match r {
            Ok(q) => body@.len() > 0 && unknown_flag(letters@) is None && q@ == (QueryModel {
                pattern: body@,
                flags: SearchFlags {
                    ignore_case: flags.ignore_case || letters@.contains('i'),
                    fixed_strings: false,
                    word_regexp: flags.word_regexp,
                },
                kind: QueryKind::Regex,
                multi_line: letters@.contains('m'),
                dotall: letters@.contains('s'),
                extended: letters@.contains('x'),
            }),
            Err(Error::EmptyPattern) => body@.len() == 0,
            Err(Error::InvalidPattern(m)) => body@.len() > 0 && (match unknown_flag(letters@) {
                Some(c) => m@ == "unsupported regex flag '"@ + seq![c] + "'"@,
                None => false,
            }),
            Err(_) => false,
        },
{
    if body.is_empty() {
        return Err(Error::EmptyPattern);
    }
    let v = chars_of(letters);
    let mut ignore_case = flags.ignore_case;
    let mut multi_line = false;
    let mut dotall = false;
    let mut extended = false;
    let mut i: usize = 0;
    while i < v.len()
        invariant
            i <= v@.len(),
            v@ == letters@,
            body@.len() > 0,
            unknown_flag(v@.take(i as int)) is None,
            ignore_case == (flags.ignore_case || v@.take(i as int).contains('i')),
            multi_line == v@.take(i as int).contains('m'),
            dotall == v@.take(i as int).contains('s'),
            extended == v@.take(i as int).contains('x'),
        decreases v.len() - i,
    {
        let c = v[i];
        proof {
            assert(v@.take(i + 1).drop_last() =~= v@.take(i as int));
            assert(v@.take(i + 1) =~= v@.take(i as int).push(c));
            lemma_push_has(v@.take(i as int), c);
        }
        if c == 'i' {
            ignore_case = true;
        } else if c == 'g' {
        } else if c == 'm' {
            multi_line = true;
        } else if c == 's' {
            dotall = true;
        } else if c == 'x' {
            extended = true;
        } else {
            let mut m = "unsupported regex flag '".to_owned();
            m.push(c);
            m.push_str("'");
            proof {
                assert(m@ =~= "unsupported regex flag '"@ + seq![c] + "'"@);
                lemma_unknown_stays(letters@, i + 1);
            }
            return Err(Error::InvalidPattern(m));
        }
        i = i + 1;
    }
    proof {
        assert(v@.take(v@.len() as int) =~= v@);
    }
    Ok(
        CompiledQuery {
            pattern: body,
            flags: SearchFlags {
                ignore_case,
                fixed_strings: false,
                word_regexp: flags.word_regexp,
            },
            kind: QueryKind::Regex,
            multi_line,
            dotall,
            extended,
        },
    )
}

proof fn lemma_push_has(s: Seq<char>, c: char)
    ensures
        forall|x: char| #[trigger] s.push(c).contains(x) <==> s.contains(x) || x == c,
{
    assert forall|x: char| #[trigger] s.push(c).contains(x) <==> s.contains(x) || x == c by {
        if s.contains(x) {
            let k = choose|k: int| 0 <= k < s.len() && s[k] == x;
            assert(s.push(c)[k] == x);
        }
        if x == c {
            assert(s.push(c)[s.len() as int] == x);
        }
    }
}

/// Compiles a human query.
fn compile_human(s: &str, flags: SearchFlags) -> (r: Result<CompiledQuery, Error>)
    ensures
        match r {
            Ok(q) => tokens(s@, flags.word_regexp) matches Ok(ts) && ts.len() > 0 && groups_fault(
                or_groups(ts),
            ) is None && q@ == (QueryModel {
                pattern: human_pattern(ts),
                flags: SearchFlags {
                    ignore_case: flags.ignore_case,
                    fixed_strings: false,
                    word_regexp: false,
                },
                kind: QueryKind::Human,
                multi_line: false,
                dotall: false,
                extended: false,
            }),
            Err(Error::EmptyPattern) => tokens(s@, flags.word_regexp) matches Ok(ts) && ts.len()
                == 0,
            Err(Error::InvalidPattern(m)) => match tokens(s@, flags.word_regexp) {
                Err(t) => m@ == t,
                Ok(ts) => ts.len() > 0 && groups_fault(or_groups(ts)) == Some(m@),
            },
            Err(_) => false,
        },
{
    let ts = tokenize(s, flags.word_regexp)?;
    if ts.len() == 0 {
        return Err(Error::EmptyPattern);
    }
    let pattern = parse_or(&ts)?;
    Ok(
        CompiledQuery {
            pattern,
            flags: SearchFlags {
                ignore_case: flags.ignore_case,
                fixed_strings: false,
                word_regexp: false,
            },
            kind: QueryKind::Human,
            multi_line: false,
            dotall: false,
            extended: false,
        },
    )
}

/// Compiles a user pattern into PCRE2.
pub fn compile_query(pattern: &str, flags: SearchFlags) -> (r: Result<CompiledQuery, Error>)
    ensures
        compiles_to(pattern@, flags, r),
{
    let s = trimmed(pattern);
    if s.is_empty() {
        return Err(Error::EmptyPattern);
    }
    if flags.fixed_strings {
        return Ok(
            CompiledQuery {
                pattern: s,
                flags,
                kind: QueryKind::Literal,
                multi_line: false,
                dotall: false,
                extended: false,
            },
        );
    }
    match parse_slash_regex(s.as_str()) {
        Some((body, letters)) => compile_regex_mode(body, letters.as_str(), flags),
        None => compile_human(s.as_str(), flags),
    }
}

/// With fixed strings every pattern that is not blank stays itself, slashes
/// and keywords included.
pub proof fn law_fixed_strings_keep_pattern(pattern: Seq<char>, flags: SearchFlags)
    requires
        flags.fixed_strings,
        trim(pattern).len() > 0,
    ensures
        compile_fault(pattern, flags) is None,
        compile_model(pattern, flags).pattern == trim(pattern),
        compile_model(pattern, flags).flags == flags,
{
}

/// AND binds tighter than OR: a query `a OR b` of two runs is the pattern of
/// the first, a bar, and the pattern of the second.
pub proof fn law_and_binds_tighter_than_or(a: Seq<Lexeme>, b: Seq<Lexeme>)
    requires
        and_ok(a),
        and_ok(b),
        forall|i: int| 0 <= i < a.len() ==> !((#[trigger] a[i]) is Or),
        forall|i: int| 0 <= i < b.len() ==> !((#[trigger] b[i]) is Or),
    ensures
        groups_fault(or_groups(a.push(Lexeme::Or) + b)) is None,
        human_pattern(a.push(Lexeme::Or) + b) == all_of(terms(a)) + "|"@ + all_of(terms(b)),
{
    let x = a.push(Lexeme::Or);
    lemma_one_group(a);
    assert(x.drop_last() =~= a);
    assert(or_groups(x) =~= seq![a, Seq::<Lexeme>::empty()]);
    lemma_second_group(x, a, b, b.len() as int);
    assert(b.take(b.len() as int) =~= b);
    let gs = or_groups(x + b);
    assert(gs =~= seq![a, b]);
    assert(gs.drop_last() =~= seq![a]);
    assert(seq![a].drop_last() =~= Seq::<Seq<Lexeme>>::empty());
    reveal_with_fuel(groups_fault, 3);
    let ps = group_patterns(gs);
    assert(ps.drop_last() =~= seq![all_of(terms(a))]);
    reveal_with_fuel(join, 3);
}

proof fn lemma_one_group(a: Seq<Lexeme>)
    requires
        forall|i: int| 0 <= i < a.len() ==> !((#[trigger] a[i]) is Or),
    ensures
        or_groups(a) == seq![a],
    decreases a.len(),
{
    if a.len() > 0 {
        let init = a.drop_last();
        assert forall|i: int| 0 <= i < init.len() implies !((#[trigger] init[i]) is Or) by {
            assert(init[i] == a[i]);
        }
        lemma_one_group(init);
        assert(a[a.len() - 1] == a.last());
        assert(or_groups(a) =~= seq![a]) by {
            assert(init.push(a.last()) =~= a);
        }
    } else {
        assert(a =~= Seq::<Lexeme>::empty());
    }
}

proof fn lemma_second_group(x: Seq<Lexeme>, a: Seq<Lexeme>, b: Seq<Lexeme>, k: int)
    requires
        0 <= k <= b.len(),
        or_groups(x) == seq![a, Seq::<Lexeme>::empty()],
        forall|i: int| 0 <= i < b.len() ==> !((#[trigger] b[i]) is Or),
    ensures
        or_groups(x + b.take(k)) == seq![a, b.take(k)],
    decreases k,
{
    if k == 0 {
        assert(x + b.take(0) =~= x);
        assert(b.take(0) =~= Seq::<Lexeme>::empty());
    } else {
        lemma_second_group(x, a, b, k - 1);
        let whole = x + b.take(k);
        assert(whole.drop_last() =~= x + b.take(k - 1));
        assert(whole.last() == b[k - 1]);
        assert(b.take(k - 1).push(b[k - 1]) =~= b.take(k));
        assert(or_groups(whole) =~= seq![a, b.take(k)]);
    }
}

/// A word without white space or bars that is no keyword and opens no phrase.
pub open spec fn plain_word(x: Seq<char>) -> bool {
    &&& x.len() > 0
    &&& forall|i: int| 0 <= i < x.len() ==> !is_white(#[trigger] x[i]) && x[i] != '|'
    &&& x[0] != '"'
    &&& !same_ascii(x, "AND"@)
    &&& !same_ascii(x, "OR"@)
}

/// White space between two words.
pub open spec fn gap(s: Seq<char>) -> bool {
    s.len() > 0 && blank(s)
}

proof fn lemma_word_runs(x: Seq<char>, rest: Seq<char>)
    requires
        forall|i: int| 0 <= i < x.len() ==> !is_white(#[trigger] x[i]),
        rest.len() > 0 ==> is_white(rest[0]),
    ensures
        word_len(x + rest) == x.len(),
    decreases x.len(),
{
    let s = x + rest;
    if x.len() > 0 {
        assert(s[0] == x[0]);
        assert(s.drop_first() =~= x.drop_first() + rest);
        lemma_word_runs(x.drop_first(), rest);
    }
}

/// The tokens of a word and of what follows it.
proof fn lemma_word_tokens(x: Seq<char>, rest: Seq<char>, word: bool)
    requires
        x.len() > 0,
        forall|i: int| 0 <= i < x.len() ==> !is_white(#[trigger] x[i]),
        x[0] != '"',
        rest.len() > 0 ==> is_white(rest[0]),
    ensures
        tokens(x + rest, word) == (match unquoted(x, word) {
            Err(m) => Err(m),
            Ok(head) => then_tokens(head, tokens(rest, word)),
        }),
{
    let s = x + rest;
    assert(s[0] == x[0]);
    lemma_word_runs(x, rest);
    assert(s.take(x.len() as int) =~= x);
    assert(s.skip(x.len() as int) =~= rest);
}

proof fn lemma_gap_tokens(a: Seq<char>, s: Seq<char>, word: bool)
    requires
        blank(a),
    ensures
        tokens(a + s, word) == tokens(s, word),
{
    lemma_trim_lead(a, s);
}

/// The tokens of one word.
proof fn lemma_last_word(y: Seq<char>, word: bool)
    requires
        plain_word(y),
    ensures
        tokens(y, word) == Ok::<Seq<Lexeme>, Seq<char>>(
            seq![Lexeme::Term(term_pattern(y, word))],
        ),
{
    let none = Seq::<char>::empty();
    lemma_plain_word(y, word);
    lemma_word_tokens(y, none, word);
    assert(y + none =~= y);
    let t = seq![Lexeme::Term(term_pattern(y, word))];
    assert(tokens(none, word) == Ok::<Seq<Lexeme>, Seq<char>>(Seq::empty()));
    assert(t + Seq::<Lexeme>::empty() =~= t);
}

proof fn lemma_plain_word(x: Seq<char>, word: bool)
    requires
        plain_word(x),
    ensures
        unquoted(x, word) == Ok::<Seq<Lexeme>, Seq<char>>(
            seq![Lexeme::Term(term_pattern(x, word))],
        ),
{
    reveal_strlit("|");
    assert("|"@[0] == '|');
    assert(!x.contains('|'));
}

/// The tokens of two words around a third.
proof fn lemma_three_words(
    x: Seq<char>,
    a: Seq<char>,
    key: Seq<char>,
    b: Seq<char>,
    y: Seq<char>,
    t: Lexeme,
    word: bool,
)
    requires
        plain_word(x),
        plain_word(y),
        gap(a),
        gap(b),
        key.len() > 0,
        forall|i: int| 0 <= i < key.len() ==> !is_white(#[trigger] key[i]),
        key[0] != '"',
        unquoted(key, word) == Ok::<Seq<Lexeme>, Seq<char>>(seq![t]),
    ensures
        tokens(x + a + key + b + y, word) == Ok::<Seq<Lexeme>, Seq<char>>(
            seq![Lexeme::Term(term_pattern(x, word)), t, Lexeme::Term(term_pattern(y, word))],
        ),
{
    let (p, q) = (Lexeme::Term(term_pattern(x, word)), Lexeme::Term(term_pattern(y, word)));
    let tail = b + y;
    let mid = key + tail;
    let after = a + mid;
    assert(x + a + key + b + y =~= x + after);
    assert(after[0] == a[0] && tail[0] == b[0]);
    lemma_plain_word(x, word);
    lemma_word_tokens(x, after, word);
    lemma_gap_tokens(a, mid, word);
    lemma_word_tokens(key, tail, word);
    lemma_gap_tokens(b, y, word);
    lemma_last_word(y, word);
    assert(seq![t] + seq![q] =~= seq![t, q]);
    assert(seq![p] + seq![t, q] =~= seq![p, t, q]);
}

/// A query from one word to another is taken as it stands, and not as a
/// regular expression.
proof fn lemma_query_text(x: Seq<char>, mid: Seq<char>, y: Seq<char>)
    requires
        plain_word(x),
        plain_word(y),
        x[0] != '/',
    ensures
        trim(x + mid + y) == x + mid + y,
        slash_parts(x + mid + y) is None,
{
    let s = x + mid + y;
    assert(s[0] == x[0]);
    assert(s.last() == y[y.len() - 1]);
}

proof fn lemma_not_key(s: Seq<char>)
    requires
        s.contains('|'),
    ensures
        !same_ascii(s, "AND"@),
        !same_ascii(s, "OR"@),
{
    reveal_strlit("AND");
    reveal_strlit("OR");
    let i = choose|i: int| 0 <= i < s.len() && s[i] == '|';
    assert(lower(s)[i] == '|');
    if same_ascii(s, "AND"@) {
        assert(lower("AND"@).len() == 3);
        assert(lower("AND"@)[i] == '|');
    }
    if same_ascii(s, "OR"@) {
        assert(lower("OR"@).len() == 2);
        assert(lower("OR"@)[i] == '|');
    }
}

/// The letters of a keyword are neither white space nor quotes.
proof fn lemma_key_letters(key: Seq<char>, name: Seq<char>)
    requires
        same_ascii(key, name),
        name == "AND"@ || name == "OR"@,
    ensures
        key.len() > 0,
        forall|i: int| 0 <= i < key.len() ==> !is_white(#[trigger] key[i]) && key[i] != '"',
{
    reveal_strlit("AND");
    reveal_strlit("OR");
    assert(lower(key).len() == lower(name).len());
    assert forall|i: int| 0 <= i < key.len() implies !is_white(#[trigger] key[i]) && key[i]
        != '"' by {
        assert(lower(key)[i] == lower(name)[i]);
        assert(lower(key)[i] == lower_char(key[i]));
        assert('a' <= lower_char(name[i]) <= 'z');
    }
}

/// `x y` and `x AND y`, the keyword in any case, compile alike: both words
/// must occur.
pub proof fn law_and_spellings(
    x: Seq<char>,
    y: Seq<char>,
    key: Seq<char>,
    a: Seq<char>,
    b: Seq<char>,
    c: Seq<char>,
    flags: SearchFlags,
)
    requires
        plain_word(x),
        plain_word(y),
        x[0] != '/',
        same_ascii(key, "AND"@),
        gap(a),
        gap(b),
        gap(c),
        !flags.fixed_strings,
    ensures
        compile_fault(x + c + y, flags) is None,
        compile_fault(x + a + key + b + y, flags) is None,
        compile_model(x + c + y, flags) == compile_model(x + a + key + b + y, flags),
        compile_model(x + c + y, flags).kind == QueryKind::Human,
        compile_model(x + c + y, flags).pattern == lookaheads(
            seq![term_pattern(x, flags.word_regexp), term_pattern(y, flags.word_regexp)],
        ),
{
    let word = flags.word_regexp;
    let (p, q) = (term_pattern(x, word), term_pattern(y, word));
    let (u, v) = (Lexeme::Term(p), Lexeme::Term(q));
    lemma_key_letters(key, "AND"@);
    lemma_three_words(x, a, key, b, y, Lexeme::And, word);
    assert(x + a + key + b + y =~= x + (a + key + b) + y);
    lemma_query_text(x, a + key + b, y);
    lemma_query_text(x, c, y);
    let after = c + y;
    assert(x + c + y =~= x + after);
    assert(after[0] == c[0]);
    lemma_plain_word(x, word);
    lemma_word_tokens(x, after, word);
    lemma_gap_tokens(c, y, word);
    lemma_last_word(y, word);
    assert(seq![u] + seq![v] =~= seq![u, v]);
    lemma_one_run(seq![u, v], seq![p, q]);
    lemma_one_run(seq![u, Lexeme::And, v], seq![p, q]);
}

/// A run of two terms.
proof fn lemma_one_run(g: Seq<Lexeme>, t: Seq<Seq<char>>)
    requires
        t.len() == 2,
        g == seq![Lexeme::Term(t[0]), Lexeme::Term(t[1])] || g == seq![
            Lexeme::Term(t[0]),
            Lexeme::And,
            Lexeme::Term(t[1]),
        ],
    ensures
        groups_fault(or_groups(g)) is None,
        human_pattern(g) == lookaheads(t),
{
    lemma_one_group(g);
    assert(and_ok(g));
    let gs = seq![g];
    assert(gs.drop_last() =~= Seq::<Seq<Lexeme>>::empty());
    reveal_with_fuel(groups_fault, 2);
    reveal_with_fuel(terms, 4);
    let init = g.drop_last();
    let none = Seq::<Lexeme>::empty();
    let u = Lexeme::Term(t[0]);
    if g.len() == 3 {
        assert(init =~= seq![u, Lexeme::And]);
        assert(init.drop_last() =~= seq![u]);
    } else {
        assert(init =~= seq![u]);
    }
    assert(seq![u].drop_last() =~= none);
    assert(terms(seq![u]) =~= seq![t[0]]);
    assert(terms(g) =~= t);
    let ps = group_patterns(gs);
    assert(ps =~= seq![lookaheads(t)]);
}

/// `x|y`, `x | y` and `x OR y`, the keyword in any case, compile alike: one
/// of the words must occur.
pub proof fn law_or_spellings(
    x: Seq<char>,
    y: Seq<char>,
    key: Seq<char>,
    a: Seq<char>,
    b: Seq<char>,
    flags: SearchFlags,
)
    requires
        plain_word(x),
        plain_word(y),
        x[0] != '/',
        same_ascii(key, "OR"@) || key == "|"@,
        gap(a),
        gap(b),
        !flags.fixed_strings,
    ensures
        compile_fault(x + "|"@ + y, flags) is None,
        compile_fault(x + a + key + b + y, flags) is None,
        compile_model(x + "|"@ + y, flags) == compile_model(x + a + key + b + y, flags),
        compile_model(x + "|"@ + y, flags).kind == QueryKind::Human,
        compile_model(x + "|"@ + y, flags).pattern == term_pattern(x, flags.word_regexp) + "|"@
            + term_pattern(y, flags.word_regexp),
{
    let word = flags.word_regexp;
    let (p, q) = (term_pattern(x, word), term_pattern(y, word));
    let (u, v) = (Lexeme::Term(p), Lexeme::Term(q));
    let none = Seq::<char>::empty();
    reveal_strlit("|");
    reveal_strlit("AND");
    reveal_strlit("OR");
    let bar = seq!['|'];
    assert("|"@ =~= bar);
    assert("|"@[0] == '|');
    if key == "|"@ {
        assert(key.contains('|'));
        lemma_not_key(key);
    } else {
        lemma_key_letters(key, "OR"@);
        assert(!same_ascii(key, "AND"@)) by {
            assert(lower("AND"@).len() == 3);
            assert(lower("OR"@).len() == 2);
        }
    }
    lemma_three_words(x, a, key, b, y, Lexeme::Or, word);
    assert(x + a + key + b + y =~= x + (a + key + b) + y);
    lemma_query_text(x, a + key + b, y);
    lemma_query_text(x, bar, y);
    let s = x + bar + y;
    assert(s[x.len() as int] == '|');
    assert(s.contains('|'));
    lemma_not_key(s);
    assert(s.len() > 1);
    lemma_split_around(x, '|', y);
    lemma_no_bar(x);
    lemma_no_bar(y);
    assert(split_char(s, '|') =~= seq![x, y]);
    let parts = seq![x, y];
    assert(parts.drop_last() =~= seq![x]);
    assert(seq![x].drop_last() =~= Seq::<Seq<char>>::empty());
    reveal_with_fuel(alternatives, 3);
    let ts = seq![u, Lexeme::Or, v];
    assert(Seq::<Lexeme>::empty().push(u) =~= seq![u]);
    assert(seq![u].push(Lexeme::Or).push(v) =~= ts);
    assert(unquoted(s, word) == Ok::<Seq<Lexeme>, Seq<char>>(ts));
    assert forall|i: int| 0 <= i < s.len() implies !is_white(#[trigger] s[i]) by {
        if i < x.len() {
            assert(s[i] == x[i]);
        } else if i > x.len() {
            assert(s[i] == y[i - x.len() - 1]);
        }
    }
    lemma_word_tokens(s, none, word);
    assert(s + none =~= s);
    assert(tokens(none, word) == Ok::<Seq<Lexeme>, Seq<char>>(Seq::empty()));
    assert(ts + Seq::<Lexeme>::empty() =~= ts);
    law_and_binds_tighter_than_or(seq![u], seq![v]);
    assert(seq![u].push(Lexeme::Or) + seq![v] =~= ts);
    reveal_with_fuel(terms, 2);
    assert(seq![u].drop_last() =~= Seq::<Lexeme>::empty());
    assert(seq![v].drop_last() =~= Seq::<Lexeme>::empty());
    assert(terms(seq![u]) =~= seq![p]);
    assert(terms(seq![v]) =~= seq![q]);
}

proof fn lemma_no_bar(x: Seq<char>)
    requires
        plain_word(x),
    ensures
        split_char(x, '|') == seq![x],
{
    let none = Seq::<char>::empty();
    assert(!x.contains('|'));
    lemma_split_before(none, '|', x);
    assert(none + x =~= x);
    assert(split_char(none, '|') =~= seq![none]);
    assert(seq![none].drop_last().push(x) =~= seq![x]);
}

/// The characters that have a meaning of their own in a PCRE2 pattern, outside
/// a class.
pub open spec fn operators() -> Seq<char> {
    seq!['\\', '.', '+', '*', '?', '(', ')', '|', '[', ']', '{', '}', '^', '$', '#']
}

/// The text that a PCRE2 pattern matches literally: a backslash makes the
/// operator behind it an ordinary character. `None`: an operator stands bare,
/// or a backslash stands before another character.
pub open spec fn literal_of(p: Seq<char>) -> Option<Seq<char>>
    decreases p.len(),
{
    if p.len() == 0 {
        Some(Seq::empty())
    } else if p[0] == '\\' {
        if p.len() >= 2 && operators().contains(p[1]) {
            match literal_of(p.skip(2)) {
                Some(rest) => Some(seq![p[1]] + rest),
                None => None,
            }
        } else {
            None
        }
    } else if operators().contains(p[0]) {
        None
    } else {
        match literal_of(p.skip(1)) {
            Some(rest) => Some(seq![p[0]] + rest),
            None => None,
        }
    }
}

/// One more character at the end of a literal pattern.
proof fn lemma_literal_push(p: Seq<char>, t: Seq<char>, c: char)
    requires
        literal_of(p) == Some(t),
    ensures
        operators().contains(c) ==> literal_of(p.push('\\').push(c)) == Some(t.push(c)),
        !operators().contains(c) ==> literal_of(p.push(c)) == Some(t.push(c)),
    decreases p.len(),
{
    let none = Seq::<char>::empty();
    let a = p.push('\\').push(c);
    let b = p.push(c);
    if p.len() == 0 {
        reveal_with_fuel(literal_of, 2);
        assert(a.skip(2) =~= none);
        assert(b.skip(1) =~= none);
        assert(seq![c] + none =~= seq![c]);
        assert(t =~= none);
        assert(t.push(c) =~= seq![c]);
        assert(operators()[0] == '\\');
        assert(operators().contains('\\'));
    } else {
        let n = if p[0] == '\\' {
            2int
        } else {
            1int
        };
        let rest = p.skip(n);
        let tail = literal_of(rest)->0;
        lemma_literal_push(rest, tail, c);
        assert(a.skip(n) =~= rest.push('\\').push(c));
        assert(b.skip(n) =~= rest.push(c));
        assert(a[0] == p[0] && b[0] == p[0]);
        assert(n == 2 ==> a[1] == p[1] && b[1] == p[1]);
        let first = if n == 2 {
            p[1]
        } else {
            p[0]
        };
        assert(seq![first] + tail.push(c) =~= (seq![first] + tail).push(c));
    }
}

/// A human term is matched literally. Read as PCRE2 reads it, the pattern of a
/// term is that term: every operator in it stands behind a backslash, and no
/// other character does.
pub proof fn law_terms_are_literal(term: Seq<char>)
    ensures
        literal_of(escaped(term)) == Some(term),
    decreases term.len(),
{
    if term.len() > 0 {
        let init = term.drop_last();
        let c = term.last();
        law_terms_are_literal(init);
        lemma_literal_push(escaped(init), init, c);
        assert(init.push(c) =~= term);
        lemma_operators(c);
    } else {
        assert(term =~= Seq::<char>::empty());
    }
}

proof fn lemma_operators(c: char)
    ensures
        operators().contains(c) <==> is_meta(c),
{
    let ops = operators();
    if is_meta(c) {
        let i = if c == '\\' {
            0int
        } else if c == '.' {
            1
        } else if c == '+' {
            2
        } else if c == '*' {
            3
        } else if c == '?' {
            4
        } else if c == '(' {
            5
        } else if c == ')' {
            6
        } else if c == '|' {
            7
        } else if c == '[' {
            8
        } else if c == ']' {
            9
        } else if c == '{' {
            10
        } else if c == '}' {
            11
        } else if c == '^' {
            12
        } else if c == '$' {
            13
        } else {
            14
        };
        assert(ops[i] == c);
    }
}

/// The pattern matches the text literally: as it stands, or between characters
/// that are part of no word.
pub open spec fn matches_literally(p: Seq<char>, text: Seq<char>, word: bool) -> bool {
    if word {
        exists|q: Seq<char>| #[trigger]
            literal_of(q) == Some(text) && p == "(?<!\\w)(?:"@ + q + ")(?!\\w)"@
    } else {
        literal_of(p) == Some(text)
    }
}

proof fn lemma_term_pattern(text: Seq<char>, word: bool)
    ensures
        matches_literally(term_pattern(text, word), text, word),
{
    law_terms_are_literal(text);
    assert(literal_of(escaped(text)) == Some(text));
}

/// A query of one word finds that word literally, whatever characters it has.
pub proof fn law_one_word_is_literal(x: Seq<char>, flags: SearchFlags)
    requires
        plain_word(x),
        x[0] != '/',
        !flags.fixed_strings,
    ensures
        compile_fault(x, flags) is None,
        matches_literally(compile_model(x, flags).pattern, x, flags.word_regexp),
        compile_model(x, flags).flags.ignore_case == flags.ignore_case,
        !compile_model(x, flags).flags.fixed_strings,
        !compile_model(x, flags).flags.word_regexp,
        !compile_model(x, flags).multi_line && !compile_model(x, flags).dotall && !compile_model(
            x,
            flags,
        ).extended,
{
    let word = flags.word_regexp;
    assert(x.last() == x[x.len() - 1]);
    lemma_last_word(x, word);
    lemma_term_pattern(x, word);
    lemma_single_term(term_pattern(x, word));
}

/// A query of one quoted phrase finds that phrase literally, white space and
/// operators included.
pub proof fn law_a_phrase_is_literal(text: Seq<char>, flags: SearchFlags)
    requires
        text.len() > 0,
        !text.contains('"'),
        !flags.fixed_strings,
    ensures
        compile_fault(seq!['"'] + text + seq!['"'], flags) is None,
        compile_model(seq!['"'] + text + seq!['"'], flags).kind == QueryKind::Human,
        matches_literally(
            compile_model(seq!['"'] + text + seq!['"'], flags).pattern,
            text,
            flags.word_regexp,
        ),
{
    let word = flags.word_regexp;
    let q = seq!['"'];
    let s = q + text + q;
    let none = Seq::<char>::empty();
    assert(s[0] == '"' && s.last() == '"');
    let t = s.drop_first();
    assert(t =~= text + q);
    lemma_first_quote(text, q);
    assert(t.take(text.len() as int) =~= text);
    assert(t.skip(text.len() as int + 1) =~= none);
    assert(tokens(none, word) == Ok::<Seq<Lexeme>, Seq<char>>(Seq::empty()));
    let p = term_pattern(text, word);
    assert(seq![Lexeme::Term(p)] + Seq::<Lexeme>::empty() =~= seq![Lexeme::Term(p)]);
    lemma_term_pattern(text, word);
    lemma_single_term(p);
}

proof fn lemma_first_quote(text: Seq<char>, q: Seq<char>)
    requires
        !text.contains('"'),
        q == seq!['"'],
    ensures
        first_index(text + q, '"') == text.len(),
    decreases text.len(),
{
    let s = text + q;
    if text.len() > 0 {
        assert(s[0] == text[0]);
        assert(text.contains(text[0]));
        let rest = text.drop_first();
        assert(!rest.contains('"')) by {
            if rest.contains('"') {
                let i = choose|i: int| 0 <= i < rest.len() && rest[i] == '"';
                assert(text[i + 1] == '"');
            }
        }
        lemma_first_quote(rest, q);
        assert(s.drop_first() =~= rest + q);
    }
}

proof fn lemma_single_term(p: Seq<char>)
    ensures
        groups_fault(or_groups(seq![Lexeme::Term(p)])) is None,
        human_pattern(seq![Lexeme::Term(p)]) == p,
{
    let g = seq![Lexeme::Term(p)];
    lemma_one_group(g);
    let gs = seq![g];
    assert(and_ok(g));
    assert(gs.drop_last() =~= Seq::<Seq<Lexeme>>::empty());
    reveal_with_fuel(groups_fault, 2);
    reveal_with_fuel(terms, 2);
    assert(g.drop_last() =~= Seq::<Lexeme>::empty());
    assert(terms(g) =~= seq![p]);
    assert(group_patterns(gs) =~= seq![p]);
}

/// Two words must both occur: one lookahead for each, in order.
pub proof fn law_two_words_must_both_occur(
    x: Seq<char>,
    y: Seq<char>,
    c: Seq<char>,
    flags: SearchFlags,
)
    requires
        plain_word(x),
        plain_word(y),
        x[0] != '/',
        gap(c),
        !flags.fixed_strings,
    ensures
        compile_fault(x + c + y, flags) is None,
        exists|p: Seq<char>, q: Seq<char>|
            #![trigger matches_literally(p, x, flags.word_regexp), matches_literally(q, y, flags.word_regexp)]
            matches_literally(p, x, flags.word_regexp) && matches_literally(
                q,
                y,
                flags.word_regexp,
            ) && compile_model(x + c + y, flags).pattern == "(?=.*"@ + p + ")"@ + "(?=.*"@ + q
                + ")"@,
{
    let word = flags.word_regexp;
    let (p, q) = (term_pattern(x, word), term_pattern(y, word));
    reveal_strlit("AND");
    assert(same_ascii("AND"@, "AND"@));
    law_and_spellings(x, y, "AND"@, c, c, c, flags);
    lemma_term_pattern(x, word);
    lemma_term_pattern(y, word);
    let t = seq![p, q];
    assert(t.drop_last() =~= seq![p]);
    assert(seq![p].drop_last() =~= Seq::<Seq<char>>::empty());
    reveal_with_fuel(lookaheads, 3);
    assert(lookaheads(t) =~= "(?=.*"@ + p + ")"@ + "(?=.*"@ + q + ")"@);
}

/// Of two words with a bar between them one must occur.
pub proof fn law_one_of_two_words_must_occur(x: Seq<char>, y: Seq<char>, flags: SearchFlags)
    requires
        plain_word(x),
        plain_word(y),
        x[0] != '/',
        !flags.fixed_strings,
    ensures
        compile_fault(x + seq!['|'] + y, flags) is None,
        exists|p: Seq<char>, q: Seq<char>|
            #![trigger matches_literally(p, x, flags.word_regexp), matches_literally(q, y, flags.word_regexp)]
            matches_literally(p, x, flags.word_regexp) && matches_literally(
                q,
                y,
                flags.word_regexp,
            ) && compile_model(x + seq!['|'] + y, flags).pattern == p + seq!['|'] + q,
{
    let word = flags.word_regexp;
    reveal_strlit("OR");
    reveal_strlit("|");
    assert("|"@ =~= seq!['|']);
    assert(same_ascii("OR"@, "OR"@));
    let c = seq![' '];
    law_or_spellings(x, y, "OR"@, c, c, flags);
    lemma_term_pattern(x, word);
    lemma_term_pattern(y, word);
}

/// A slash-wrapped pattern is taken as it stands, and each flag does one thing:
/// `i` ignores case, `m` is multi-line, `s` lets a dot match line breaks, `x`
/// is extended, and `g` changes nothing. Any other flag is refused, and so is
/// an empty pattern.
pub proof fn law_slash_patterns(body: Seq<char>, letters: Seq<char>, flags: SearchFlags)
    requires
        forall|i: int| 0 <= i < letters.len() ==> 'a' <= (#[trigger] letters[i]) <= 'z',
        !flags.fixed_strings,
    ensures
        ({
            let s = seq!['/'] + body + seq!['/'] + letters;
            let q = compile_model(s, flags);
            if body.len() == 0 {
                compile_fault(s, flags) is Some
            } else if exists|i: int|
                0 <= i < letters.len() && !seq!['i', 'g', 'm', 's', 'x'].contains(
                    #[trigger] letters[i],
                ) {
                compile_fault(s, flags) is Some
            } else {
                &&& compile_fault(s, flags) is None
                &&& q.kind == QueryKind::Regex
                &&& q.pattern == body
                &&& q.flags.ignore_case == (flags.ignore_case || letters.contains('i'))
                &&& q.flags.word_regexp == flags.word_regexp
                &&& !q.flags.fixed_strings
                &&& q.multi_line == letters.contains('m')
                &&& q.dotall == letters.contains('s')
                &&& q.extended == letters.contains('x')
            }
        }),
{
    let slash = seq!['/'];
    let s = slash + body + slash + letters;
    let rest = s.drop_first();
    assert(rest =~= body + slash + letters);
    assert(s[0] == '/');
    assert(!is_white(s.last())) by {
        if letters.len() > 0 {
            assert(s.last() == letters[letters.len() - 1]);
        } else {
            assert(s.last() == '/');
        }
    }
    lemma_last_slash(body, letters);
    assert(rest.take(body.len() as int) =~= body);
    assert(rest.skip(body.len() as int + 1) =~= letters);
    lemma_unknown_flag(letters);
}

proof fn lemma_last_slash(body: Seq<char>, letters: Seq<char>)
    requires
        forall|i: int| 0 <= i < letters.len() ==> 'a' <= (#[trigger] letters[i]) <= 'z',
    ensures
        last_index(body + seq!['/'] + letters, '/') == body.len(),
    decreases letters.len(),
{
    let s = body + seq!['/'] + letters;
    if letters.len() == 0 {
        assert(s.last() == '/');
    } else {
        assert(s.last() == letters[letters.len() - 1]);
        assert(s.drop_last() =~= body + seq!['/'] + letters.drop_last());
        lemma_last_slash(body, letters.drop_last());
    }
}

proof fn lemma_unknown_flag(letters: Seq<char>)
    ensures
        unknown_flag(letters) is Some <==> exists|i: int|
            0 <= i < letters.len() && !seq!['i', 'g', 'm', 's', 'x'].contains(
                #[trigger] letters[i],
            ),
    decreases letters.len(),
{
    let known = seq!['i', 'g', 'm', 's', 'x'];
    assert(known[0] == 'i' && known[1] == 'g' && known[2] == 'm' && known[3] == 's' && known[4]
        == 'x');
    if letters.len() > 0 {
        let init = letters.drop_last();
        lemma_unknown_flag(init);
        let c = letters[letters.len() - 1];
        assert(letters.last() == c);
        assert(known.contains(c) <==> known_flag(c));
        if unknown_flag(init) is Some {
            let i = choose|i: int| 0 <= i < init.len() && !known.contains(#[trigger] init[i]);
            assert(letters[i] == init[i]);
        }
        if exists|i: int| 0 <= i < letters.len() && !known.contains(#[trigger] letters[i]) {
            let i = choose|i: int| 0 <= i < letters.len() && !known.contains(#[trigger] letters[i]);
            if i < init.len() {
                assert(init[i] == letters[i]);
            }
        }
    }
}

} // verus!
