//! Text as sequences of characters: trimming, splitting, case and decimal
//! numbers.
//!
//! The specification functions speak of `Seq<char>`, the view of `str` and
//! `String`. The executable functions work on `&str` or on `&[char]`.
use vstd::prelude::*;

verus! {

/// `String::push` appends one character.
pub assume_specification[ std::string::String::push ](s: &mut std::string::String, c: char)
    ensures
        final(s)@ == old(s)@.push(c),
;

/// `String::push_str` appends a string slice.
pub assume_specification[ std::string::String::push_str ](s: &mut std::string::String, t: &str)
    ensures
        final(s)@ == old(s)@ + t@,
;

/// `str == str` compares the characters.
pub assume_specification[ <str as PartialEq<str>>::eq ](a: &str, b: &str) -> (r: bool)
    ensures
        r == (a@ == b@),
;

/// `String::len` is the length of the UTF-8 encoding.
pub assume_specification[ std::string::String::len ](s: &std::string::String) -> (n: usize)
    ensures
        n == vstd::utf8::encode_utf8(s@).len(),
;

/// `String::is_empty` holds of the string without characters.
pub assume_specification[ std::string::String::is_empty ](s: &std::string::String) -> (r: bool)
    ensures
        r == (s@.len() == 0),
;

/// The characters with the Unicode property `White_Space`.
pub open spec fn is_white(c: char) -> bool {
    ||| '\u{9}' <= c <= '\u{d}'
    ||| c == ' '
    ||| c == '\u{85}'
    ||| c == '\u{a0}'
    ||| c == '\u{1680}'
    ||| '\u{2000}' <= c <= '\u{200a}'
    ||| c == '\u{2028}'
    ||| c == '\u{2029}'
    ||| c == '\u{202f}'
    ||| c == '\u{205f}'
    ||| c == '\u{3000}'
}

/// Whether `c` has the Unicode property `White_Space`.
pub fn char_is_white(c: char) -> (r: bool)
    ensures
        r == is_white(c),
{
    ('\u{9}' <= c && c <= '\u{d}') || c == ' ' || c == '\u{85}' || c == '\u{a0}' || c == '\u{1680}'
        || ('\u{2000}' <= c && c <= '\u{200a}') || c == '\u{2028}' || c == '\u{2029}' || c
        == '\u{202f}' || c == '\u{205f}' || c == '\u{3000}'
}

/// ASCII lower case of one character. Other characters stay.
pub open spec fn lower_char(c: char) -> char {
    if 'A' <= c <= 'Z' {
        (c as u32 + 32) as char
    } else {
        c
    }
}

/// ASCII lower case of a string.
pub open spec fn lower(s: Seq<char>) -> Seq<char> {
    Seq::new(s.len(), |i: int| lower_char(s[i]))
}

/// Equality up to ASCII case.
pub open spec fn same_ascii(a: Seq<char>, b: Seq<char>) -> bool {
    lower(a) == lower(b)
}

/// `s` without leading white space.
pub open spec fn trim_start(s: Seq<char>) -> Seq<char>
    decreases s.len(),
{
    if s.len() > 0 && is_white(s[0]) {
        trim_start(s.drop_first())
    } else {
        s
    }
}

/// `s` without trailing white space.
pub open spec fn trim_end(s: Seq<char>) -> Seq<char>
    decreases s.len(),
{
    if s.len() > 0 && is_white(s.last()) {
        trim_end(s.drop_last())
    } else {
        s
    }
}

/// `s` without white space at either end.
pub open spec fn trim(s: Seq<char>) -> Seq<char> {
    trim_end(trim_start(s))
}

/// All of the text is white space.
pub open spec fn blank(s: Seq<char>) -> bool {
    forall|i: int| 0 <= i < s.len() ==> is_white(#[trigger] s[i])
}

/// White space before a text is trimmed off.
pub proof fn lemma_trim_lead(lead: Seq<char>, s: Seq<char>)
    requires
        blank(lead),
    ensures
        trim_start(lead + s) == trim_start(s),
    decreases lead.len(),
{
    if lead.len() == 0 {
        assert(lead + s =~= s);
    } else {
        assert((lead + s)[0] == lead[0]);
        assert((lead + s).drop_first() =~= lead.drop_first() + s);
        lemma_trim_lead(lead.drop_first(), s);
    }
}

/// The pieces of `s` between the characters that satisfy `cut`. There is one
/// piece more than there are such characters.
pub open spec fn split_by(s: Seq<char>, cut: spec_fn(char) -> bool) -> Seq<Seq<char>>
    decreases s.len(),
{
    if s.len() == 0 {
        seq![Seq::<char>::empty()]
    } else {
        let head = split_by(s.drop_last(), cut);
        if cut(s.last()) {
            head.push(Seq::<char>::empty())
        } else {
            head.drop_last().push(head.last().push(s.last()))
        }
    }
}

/// Holds of `a` and of `b`.
pub open spec fn either(a: char, b: char) -> spec_fn(char) -> bool {
    |x: char| x == a || x == b
}

/// The pieces of `s` between occurrences of `c`.
pub open spec fn split_char(s: Seq<char>, c: char) -> Seq<Seq<char>> {
    split_by(s, either(c, c))
}

/// The views of a list of strings.
pub open spec fn views(v: Seq<String>) -> Seq<Seq<char>> {
    Seq::new(v.len(), |i: int| v[i]@)
}

/// `parts` written one after the other with `sep` between neighbours.
pub open spec fn join(parts: Seq<Seq<char>>, sep: Seq<char>) -> Seq<char>
    decreases parts.len(),
{
    if parts.len() == 0 {
        Seq::empty()
    } else if parts.len() == 1 {
        parts[0]
    } else {
        join(parts.drop_last(), sep) + sep + parts.last()
    }
}

/// Position of the last `c` in `s`, or -1.
pub open spec fn last_index(s: Seq<char>, c: char) -> int
    decreases s.len(),
{
    if s.len() == 0 {
        -1
    } else if s.last() == c {
        s.len() - 1
    } else {
        last_index(s.drop_last(), c)
    }
}

/// Position of the first `c` in `s`, or `s.len()`.
pub open spec fn first_index(s: Seq<char>, c: char) -> int
    decreases s.len(),
{
    if s.len() == 0 {
        0
    } else if s[0] == c {
        0
    } else {
        1 + first_index(s.drop_first(), c)
    }
}

/// `s` starts with `p`.
pub open spec fn starts(s: Seq<char>, p: Seq<char>) -> bool {
    p.len() <= s.len() && s.take(p.len() as int) == p
}

/// `s` ends with `p`.
pub open spec fn ends(s: Seq<char>, p: Seq<char>) -> bool {
    p.len() <= s.len() && s.skip(s.len() - p.len()) == p
}

/// `s` with every `a` replaced by `b`.
pub open spec fn replace_char(s: Seq<char>, a: char, b: char) -> Seq<char> {
    Seq::new(s.len(), |i: int| if s[i] == a { b } else { s[i] })
}

/// The character of a decimal digit.
pub open spec fn digit(d: int) -> char {
    (48 + d) as char
}

/// Decimal notation of a natural number.
pub open spec fn decimal(n: nat) -> Seq<char>
    decreases n,
{
    if n < 10 {
        seq![digit(n as int)]
    } else {
        decimal(n / 10).push(digit((n % 10) as int))
    }
}

/// Decimal notation of an integer, with a minus sign below zero.
pub open spec fn decimal_int(v: int) -> Seq<char> {
    if v < 0 {
        seq!['-'] + decimal((-v) as nat)
    } else {
        decimal(v as nat)
    }
}

/// Whether two strings are the same.
pub fn same_str(a: &str, b: &str) -> (r: bool)
    ensures
        r == (a@ == b@),
{
    a.eq(b)
}

/// The characters of `s`.
pub fn chars_of(s: &str) -> (r: Vec<char>)
    ensures
        r@ == s@,
{
    let mut out: Vec<char> = Vec::new();
    for c in it: s.chars()
        invariant
            it.seq() == s@,
            out@ == s@.take(it.index()),
    {
        proof {
            assert(s@.take(it.index() + 1) == s@.take(it.index()).push(c));
        }
        out.push(c);
    }
    proof {
        assert(s@.take(s@.len() as int) == s@);
    }
    out
}

/// The string of the characters `v[from..to]`.
pub fn string_range(v: &[char], from: usize, to: usize) -> (r: String)
    requires
        from <= to <= v@.len(),
    ensures
        r@ == v@.subrange(from as int, to as int),
{
    let mut out = String::new();
    let mut i: usize = from;
    while i < to
        invariant
            from <= i <= to <= v@.len(),
            out@ == v@.subrange(from as int, i as int),
        decreases to - i,
    {
        out.push(v[i]);
        proof {
            assert(v@.subrange(from as int, i + 1) == v@.subrange(from as int, i as int).push(
                v@[i as int],
            ));
        }
        i = i + 1;
    }
    out
}

/// `a` followed by `b`.
pub fn cat(a: &str, b: &str) -> (r: String)
    ensures
        r@ == a@ + b@,
{
    let mut out = String::new();
    out.push_str(a);
    out.push_str(b);
    proof {
        assert(Seq::<char>::empty() + a@ =~= a@);
    }
    out
}

/// `a`, `b` and `c` in a row.
pub fn cat3(a: &str, b: &str, c: &str) -> (r: String)
    ensures
        r@ == a@ + b@ + c@,
{
    let mut out = cat(a, b);
    out.push_str(c);
    out
}

/// ASCII lower case of one character.
pub fn lower_char_of(c: char) -> (r: char)
    ensures
        r == lower_char(c),
{
    if 'A' <= c && c <= 'Z' {
        ((c as u8) + 32) as char
    } else {
        c
    }
}

/// ASCII lower case.
pub fn to_lower(s: &str) -> (r: String)
    ensures
        r@ == lower(s@),
{
    let v = chars_of(s);
    let mut out = String::new();
    let mut i: usize = 0;
    while i < v.len()
        invariant
            i <= v@.len(),
            v@ == s@,
            out@ == lower(v@).take(i as int),
        decreases v.len() - i,
    {
        out.push(lower_char_of(v[i]));
        proof {
            assert(lower(v@).take(i + 1) == lower(v@).take(i as int).push(lower_char(v@[i as int])));
        }
        i = i + 1;
    }
    proof {
        assert(lower(v@).take(v@.len() as int) == lower(v@));
    }
    out
}

/// Equality up to ASCII case.
pub fn eq_ascii(a: &str, b: &str) -> (r: bool)
    ensures
        r == same_ascii(a@, b@),
{
    let x = to_lower(a);
    let y = to_lower(b);
    x == y
}

/// First position in `v` that is not white space.
fn white_prefix(v: &[char]) -> (n: usize)
    ensures
        n <= v@.len(),
        trim_start(v@) == v@.skip(n as int),
{
    let mut n: usize = 0;
    proof {
        assert(v@.skip(0) == v@);
    }
    while n < v.len() && char_is_white(v[n])
        invariant
            n <= v@.len(),
            trim_start(v@) == trim_start(v@.skip(n as int)),
        decreases v.len() - n,
    {
        proof {
            assert(v@.skip(n as int).drop_first() == v@.skip(n + 1));
        }
        n = n + 1;
    }
    n
}

/// The end of `v[from..]` without trailing white space.
fn white_suffix(v: &[char], from: usize) -> (n: usize)
    requires
        from <= v@.len(),
    ensures
        from <= n <= v@.len(),
        trim_end(v@.skip(from as int)) == v@.subrange(from as int, n as int),
{
    let mut n: usize = v.len();
    proof {
        assert(v@.skip(from as int) == v@.subrange(from as int, n as int));
    }
    while n > from && char_is_white(v[n - 1])
        invariant
            from <= n <= v@.len(),
            trim_end(v@.skip(from as int)) == trim_end(v@.subrange(from as int, n as int)),
        decreases n,
    {
        proof {
            assert(v@.subrange(from as int, n as int).drop_last() == v@.subrange(
                from as int,
                n - 1,
            ));
        }
        n = n - 1;
    }
    n
}

/// `s` without white space at either end.
pub fn trimmed(s: &str) -> (r: String)
    ensures
        r@ == trim(s@),
{
    let v = chars_of(s);
    let from = white_prefix(&v);
    let to = white_suffix(&v, from);
    string_range(&v, from, to)
}

/// `s` without leading white space.
pub fn trimmed_start(s: &str) -> (r: String)
    ensures
        r@ == trim_start(s@),
{
    let v = chars_of(s);
    let from = white_prefix(&v);
    proof {
        assert(v@.skip(from as int) == v@.subrange(from as int, v@.len() as int));
    }
    string_range(&v, from, v.len())
}

/// A split has at least one piece.
pub proof fn lemma_split_nonempty(s: Seq<char>, cut: spec_fn(char) -> bool)
    ensures
        split_by(s, cut).len() > 0,
    decreases s.len(),
{
    if s.len() > 0 {
        lemma_split_nonempty(s.drop_last(), cut);
    }
}

/// The pieces of `v` between characters that are `a` or `b`.
pub fn split2(s: &str, a: char, b: char) -> (r: Vec<String>)
    ensures
        views(r@) == split_by(s@, either(a, b)),
        r@.len() > 0,
{
    let v = chars_of(s);
    let ghost cut = either(a, b);
    let mut out: Vec<String> = Vec::new();
    let mut cur = String::new();
    let mut i: usize = 0;
    proof {
        assert(split_by(v@.take(0), cut) =~= views(out@).push(cur@));
    }
    while i < v.len()
        invariant
            i <= v@.len(),
            cut == either(a, b),
            split_by(v@.take(i as int), cut) == views(out@).push(cur@),
        decreases v.len() - i,
    {
        let c = v[i];
        proof {
            assert(v@.take(i + 1).drop_last() == v@.take(i as int));
        }
        if c == a || c == b {
            let ghost before = out@;
            out.push(cur);
            proof {
                assert(views(out@) =~= views(before).push(out@.last()@));
            }
            cur = String::new();
            proof {
                assert(split_by(v@.take(i + 1), cut) =~= views(out@).push(cur@));
            }
        } else {
            let ghost was = cur@;
            cur.push(c);
            proof {
                let head = split_by(v@.take(i as int), cut);
                assert(head.drop_last() =~= views(out@));
                assert(split_by(v@.take(i + 1), cut) =~= views(out@).push(cur@));
            }
        }
        i = i + 1;
    }
    let ghost before = out@;
    out.push(cur);
    proof {
        assert(views(out@) =~= views(before).push(out@.last()@));
        assert(v@.take(v@.len() as int) == s@);
    }
    out
}

/// The pieces of `s` between occurrences of `c`.
pub fn split_at_char(s: &str, c: char) -> (r: Vec<String>)
    ensures
        views(r@) == split_char(s@, c),
        r@.len() > 0,
{
    split2(s, c, c)
}

/// `parts` with `sep` between neighbours.
pub fn join_with(parts: &[String], sep: &str) -> (r: String)
    ensures
        r@ == join(views(parts@), sep@),
{
    let mut out = String::new();
    let mut i: usize = 0;
    while i < parts.len()
        invariant
            i <= parts@.len(),
            out@ == join(views(parts@).take(i as int), sep@),
        decreases parts.len() - i,
    {
        proof {
            let all = views(parts@).take(i + 1);
            assert(all.drop_last() == views(parts@).take(i as int));
            assert(all.last() == parts@[i as int]@);
            assert(Seq::<char>::empty() + all.last() =~= all.last());
        }
        if i > 0 {
            out.push_str(sep);
        }
        out.push_str(parts[i].as_str());
        i = i + 1;
    }
    proof {
        assert(views(parts@).take(parts@.len() as int) == views(parts@));
    }
    out
}

/// Position of the last `c`, if any.
pub fn find_last(v: &[char], c: char) -> (r: Option<usize>)
    ensures
        match r {
            Some(i) => i < v@.len() && v@[i as int] == c && last_index(v@, c) == i,
            None => last_index(v@, c) == -1,
        },
{
    let mut i: usize = v.len();
    proof {
        assert(v@.take(v@.len() as int) == v@);
    }
    while i > 0
        invariant
            i <= v@.len(),
            last_index(v@, c) == last_index(v@.take(i as int), c),
        decreases i,
    {
        proof {
            assert(v@.take(i as int).drop_last() == v@.take(i - 1));
        }
        if v[i - 1] == c {
            return Some(i - 1);
        }
        i = i - 1;
    }
    None
}

/// Position of the first `c`, or the length.
pub fn find_first(v: &[char], c: char) -> (r: usize)
    ensures
        r <= v@.len(),
        first_index(v@, c) == r,
{
    let mut i: usize = 0;
    proof {
        assert(v@.skip(0) == v@);
    }
    while i < v.len() && v[i] != c
        invariant
            i <= v@.len(),
            first_index(v@, c) == i + first_index(v@.skip(i as int), c),
        decreases v.len() - i,
    {
        proof {
            assert(v@.skip(i as int).drop_first() == v@.skip(i + 1));
        }
        i = i + 1;
    }
    i
}

/// Whether `s` starts with `p`.
pub fn starts_with(s: &str, p: &str) -> (r: bool)
    ensures
        r == starts(s@, p@),
{
    let a = chars_of(s);
    let b = chars_of(p);
    if b.len() > a.len() {
        return false;
    }
    let mut i: usize = 0;
    while i < b.len()
        invariant
            i <= b@.len() <= a@.len(),
            a@ == s@,
            b@ == p@,
            forall|j: int| 0 <= j < i ==> a@[j] == b@[j],
        decreases b.len() - i,
    {
        if a[i] != b[i] {
            proof {
                assert(s@.take(p@.len() as int)[i as int] != p@[i as int]);
            }
            return false;
        }
        i = i + 1;
    }
    proof {
        assert(s@.take(p@.len() as int) =~= p@);
    }
    true
}

/// Whether `s` ends with `p`.
pub fn ends_with(s: &str, p: &str) -> (r: bool)
    ensures
        r == ends(s@, p@),
{
    let a = chars_of(s);
    let b = chars_of(p);
    if b.len() > a.len() {
        return false;
    }
    let off: usize = a.len() - b.len();
    let mut i: usize = 0;
    while i < b.len()
        invariant
            i <= b@.len() <= a@.len(),
            a@.len() == a.len(),
            off == a@.len() - b@.len(),
            a@ == s@,
            b@ == p@,
            forall|j: int| 0 <= j < i ==> a@[off + j] == b@[j],
        decreases b.len() - i,
    {
        if a[off + i] != b[i] {
            proof {
                assert(s@.skip(off as int)[i as int] != p@[i as int]);
            }
            return false;
        }
        i = i + 1;
    }
    proof {
        assert(s@.skip(off as int) =~= p@);
    }
    true
}

/// `s` without the prefix `p`, when it has it.
pub fn strip_start(s: &str, p: &str) -> (r: Option<String>)
    ensures
        match r {
            Some(t) => starts(s@, p@) && t@ == s@.skip(p@.len() as int),
            None => !starts(s@, p@),
        },
{
    if starts_with(s, p) {
        let v = chars_of(s);
        let n = chars_of(p).len();
        proof {
            assert(v@.subrange(n as int, v@.len() as int) == s@.skip(n as int));
        }
        Some(string_range(&v, n, v.len()))
    } else {
        None
    }
}

/// `s` without the suffix `p`, when it has it.
pub fn strip_end(s: &str, p: &str) -> (r: Option<String>)
    ensures
        match r {
            Some(t) => ends(s@, p@) && t@ == s@.take(s@.len() - p@.len()),
            None => !ends(s@, p@),
        },
{
    if ends_with(s, p) {
        let v = chars_of(s);
        let n = chars_of(p).len();
        proof {
            assert(v@.subrange(0, v@.len() - n) == s@.take(s@.len() - n));
        }
        Some(string_range(&v, 0, v.len() - n))
    } else {
        None
    }
}

/// `s` with every `a` replaced by `b`.
pub fn replaced(s: &str, a: char, b: char) -> (r: String)
    ensures
        r@ == replace_char(s@, a, b),
{
    let v = chars_of(s);
    let mut out = String::new();
    let mut i: usize = 0;
    while i < v.len()
        invariant
            i <= v@.len(),
            v@ == s@,
            out@ == replace_char(v@, a, b).take(i as int),
        decreases v.len() - i,
    {
        let c = v[i];
        let d = if c == a {
            b
        } else {
            c
        };
        out.push(d);
        proof {
            assert(replace_char(v@, a, b).take(i + 1) == replace_char(v@, a, b).take(
                i as int,
            ).push(d));
        }
        i = i + 1;
    }
    proof {
        assert(replace_char(v@, a, b).take(v@.len() as int) == replace_char(v@, a, b));
    }
    out
}

/// Whether `s` contains `c`.
pub fn contains_char(s: &str, c: char) -> (r: bool)
    ensures
        r == s@.contains(c),
{
    let v = chars_of(s);
    let mut i: usize = 0;
    while i < v.len()
        invariant
            i <= v@.len(),
            v@ == s@,
            forall|j: int| 0 <= j < i ==> v@[j] != c,
        decreases v.len() - i,
    {
        if v[i] == c {
            proof {
                assert(s@[i as int] == c);
            }
            return true;
        }
        i = i + 1;
    }
    false
}

/// The character of a decimal digit.
fn digit_of(d: u8) -> (c: char)
    requires
        d < 10,
    ensures
        c == digit(d as int),
{
    (48 + d) as char
}

/// Decimal notation.
pub fn decimal_u64(n: u64) -> (r: String)
    ensures
        r@ == decimal(n as nat),
    decreases n,
{
    if n < 10 {
        let mut out = String::new();
        out.push(digit_of(n as u8));
        proof {
            assert(out@ =~= decimal(n as nat));
        }
        out
    } else {
        let mut out = decimal_u64(n / 10);
        out.push(digit_of((n % 10) as u8));
        out
    }
}

/// Decimal notation.
pub fn decimal_usize(n: usize) -> (r: String)
    ensures
        r@ == decimal(n as nat),
{
    decimal_u64(n as u64)
}

/// Decimal notation of a signed number.
pub fn decimal_i64(v: i64) -> (r: String)
    ensures
        r@ == decimal_int(v as int),
{
    if v < 0 {
        let n: u64 = (-(v as i128)) as u64;
        let d = decimal_u64(n);
        let mut out = String::new();
        out.push('-');
        out.push_str(d.as_str());
        proof {
            assert(out@ =~= decimal_int(v as int));
        }
        out
    } else {
        decimal_u64(v as u64)
    }
}

/// A clone of a list of strings.
pub fn clone_strings(v: &Vec<String>) -> (r: Vec<String>)
    ensures
        r@ == v@,
{
    let mut out: Vec<String> = Vec::new();
    let mut i: usize = 0;
    while i < v.len()
        invariant
            i <= v@.len(),
            out@ == v@.take(i as int),
        decreases v.len() - i,
    {
        out.push(v[i].clone());
        proof {
            assert(v@.take(i + 1) == v@.take(i as int).push(v@[i as int]));
        }
        i = i + 1;
    }
    proof {
        assert(v@.take(v@.len() as int) == v@);
    }
    out
}

/// White space is exactly what Unicode calls so.
pub proof fn law_white_space(c: char)
    ensures
        is_white(c) <==> {
            ||| 0x9 <= c as int <= 0xd
            ||| 0x2000 <= c as int <= 0x200a
            ||| seq![0x20int, 0x85, 0xa0, 0x1680, 0x2028, 0x2029, 0x202f, 0x205f, 0x3000].contains(
                c as int,
            )
        },
{
    let all = seq![0x20int, 0x85, 0xa0, 0x1680, 0x2028, 0x2029, 0x202f, 0x205f, 0x3000];
    assert(all[0] == 0x20 && all[1] == 0x85 && all[2] == 0xa0 && all[3] == 0x1680);
    assert(all[4] == 0x2028 && all[5] == 0x2029 && all[6] == 0x202f && all[7] == 0x205f);
    assert(all[8] == 0x3000);
}

/// Trimming takes the white space at both ends, and nothing else.
pub proof fn law_trim(lead: Seq<char>, s: Seq<char>, tail: Seq<char>)
    requires
        forall|i: int| 0 <= i < lead.len() ==> is_white(#[trigger] lead[i]),
        forall|i: int| 0 <= i < tail.len() ==> is_white(#[trigger] tail[i]),
        s.len() > 0 ==> !is_white(s[0]) && !is_white(s[s.len() - 1]),
    ensures
        trim(lead + s + tail) == s,
        s.len() > 0 ==> trim_start(lead + s + tail) == s + tail,
        s.len() > 0 ==> trim_end(lead + s + tail) == lead + s,
{
    lemma_trim_lead(lead, s + tail);
    assert(lead + (s + tail) =~= lead + s + tail);
    if s.len() > 0 {
        assert((s + tail)[0] == s[0]);
        lemma_trim_tail(s, tail);
        lemma_trim_tail(lead + s, tail);
    } else {
        assert(s + tail =~= tail);
        lemma_trim_lead(tail, Seq::empty());
        assert(tail + Seq::<char>::empty() =~= tail);
    }
}

proof fn lemma_trim_tail(s: Seq<char>, tail: Seq<char>)
    requires
        s.len() > 0,
        !is_white(s[s.len() - 1]),
        forall|i: int| 0 <= i < tail.len() ==> is_white(#[trigger] tail[i]),
    ensures
        trim_end(s + tail) == s,
    decreases tail.len(),
{
    let t = s + tail;
    if tail.len() == 0 {
        assert(t =~= s);
        assert(s.last() == s[s.len() - 1]);
    } else {
        assert(t.last() == tail[tail.len() - 1]);
        assert(t.drop_last() =~= s + tail.drop_last());
        lemma_trim_tail(s, tail.drop_last());
    }
}

/// Splitting at a character and joining with it gives the text back, and no
/// part holds the character.
pub proof fn law_split_and_join(s: Seq<char>, c: char)
    ensures
        join(split_char(s, c), seq![c]) == s,
        forall|i: int| 0 <= i < split_char(s, c).len() ==> !(#[trigger] split_char(s, c)[i]).contains(
            c,
        ),
    decreases s.len(),
{
    let sep = seq![c];
    let cut = either(c, c);
    let parts = split_char(s, c);
    if s.len() == 0 {
        assert(parts =~= seq![Seq::<char>::empty()]);
        assert(s =~= Seq::<char>::empty());
    } else {
        let init = s.drop_last();
        let x = s.last();
        let head = split_char(init, c);
        law_split_and_join(init, c);
        lemma_split_nonempty(init, cut);
        assert(init.push(x) =~= s);
        if x == c {
            assert(parts =~= head.push(Seq::empty()));
            assert(parts.drop_last() =~= head);
            assert(join(parts, sep) =~= init + sep);
            assert forall|i: int| 0 <= i < parts.len() implies !(#[trigger] parts[i]).contains(c) by {
                if i < head.len() {
                    assert(parts[i] == head[i]);
                }
            }
        } else {
            let last = head.last().push(x);
            assert(parts =~= head.drop_last().push(last));
            assert(parts.drop_last() =~= head.drop_last());
            lemma_join_last(head, sep, x);
            assert forall|i: int| 0 <= i < parts.len() implies !(#[trigger] parts[i]).contains(c) by {
                if i < head.len() - 1 {
                    assert(parts[i] == head[i]);
                } else {
                    let h = head[head.len() - 1];
                    assert(!h.contains(c));
                    if last.contains(c) {
                        let k = choose|k: int| 0 <= k < last.len() && last[k] == c;
                        if k < h.len() {
                            assert(h[k] == c);
                        }
                    }
                }
            }
        }
    }
}

proof fn lemma_join_last(head: Seq<Seq<char>>, sep: Seq<char>, x: char)
    requires
        head.len() > 0,
    ensures
        join(head.drop_last().push(head.last().push(x)), sep) == join(head, sep).push(x),
{
    let parts = head.drop_last().push(head.last().push(x));
    assert(parts.drop_last() =~= head.drop_last());
    if head.len() > 1 {
        let front = join(head.drop_last(), sep) + sep;
        assert(front + head.last().push(x) =~= (front + head.last()).push(x));
    } else {
        assert(parts[0] =~= head[0].push(x));
    }
}

/// The number that decimal digits stand for.
pub open spec fn numeral(s: Seq<char>) -> int
    decreases s.len(),
{
    if s.len() == 0 {
        0
    } else {
        10 * numeral(s.drop_last()) + (s.last() as int - '0' as int)
    }
}

/// Decimal notation is that of the number: only digits, no leading zero, and
/// read back it is the number.
pub proof fn law_decimal(n: nat)
    ensures
        numeral(decimal(n)) == n,
        decimal(n).len() > 0,
        forall|i: int| 0 <= i < decimal(n).len() ==> '0' <= #[trigger] decimal(n)[i] <= '9',
        decimal(n)[0] == '0' ==> n == 0,
        n < 10 ==> decimal(n).len() == 1,
        decimal_int(n as int) == decimal(n),
        n > 0 ==> decimal_int(-n) == seq!['-'] + decimal(n),
    decreases n,
{
    reveal_with_fuel(numeral, 2);
    let d = decimal(n);
    if n < 10 {
        assert(d.drop_last() =~= Seq::<char>::empty());
    } else {
        law_decimal(n / 10);
        assert(d.drop_last() =~= decimal(n / 10));
        assert(d[0] == decimal(n / 10)[0]);
        assert forall|i: int| 0 <= i < d.len() implies '0' <= #[trigger] d[i] <= '9' by {
            if i < d.len() - 1 {
                assert(d[i] == decimal(n / 10)[i]);
            }
        }
    }
}

/// Lower case changes the letters A to Z only, each to its own small letter.
pub proof fn law_lower(s: Seq<char>, i: int)
    requires
        0 <= i < s.len(),
    ensures
        lower(s).len() == s.len(),
        'A' <= s[i] <= 'Z' ==> lower(s)[i] as int == s[i] as int - 'A' as int + 'a' as int,
        !('A' <= s[i] <= 'Z') ==> lower(s)[i] == s[i],
{
}

/// The first and the last place of a character.
pub proof fn law_places(s: Seq<char>, c: char)
    ensures
        !s.contains(c) ==> first_index(s, c) == s.len() && last_index(s, c) == -1,
        s.contains(c) ==> 0 <= first_index(s, c) <= last_index(s, c) < s.len() && s[first_index(
            s,
            c,
        )] == c && s[last_index(s, c)] == c,
        forall|i: int| 0 <= i < s.len() && #[trigger] s[i] == c ==> first_index(s, c) <= i
            <= last_index(s, c),
{
    lemma_first_place(s, c);
    lemma_last_place(s, c);
    if s.contains(c) {
        let i = choose|i: int| 0 <= i < s.len() && s[i] == c;
        assert(first_index(s, c) <= i <= last_index(s, c));
    } else if first_index(s, c) < s.len() {
        assert(s.contains(s[first_index(s, c)]));
    } else if last_index(s, c) >= 0 {
        assert(s.contains(s[last_index(s, c)]));
    }
}

proof fn lemma_first_place(s: Seq<char>, c: char)
    ensures
        0 <= first_index(s, c) <= s.len(),
        first_index(s, c) < s.len() ==> s[first_index(s, c)] == c,
        forall|i: int| 0 <= i < s.len() && #[trigger] s[i] == c ==> first_index(s, c) <= i,
    decreases s.len(),
{
    if s.len() > 0 && s[0] != c {
        let t = s.drop_first();
        lemma_first_place(t, c);
        assert forall|i: int| 0 <= i < s.len() && #[trigger] s[i] == c implies first_index(s, c)
            <= i by {
            if i > 0 {
                assert(t[i - 1] == c);
            }
        }
    }
}

proof fn lemma_last_place(s: Seq<char>, c: char)
    ensures
        -1 <= last_index(s, c) < s.len(),
        last_index(s, c) >= 0 ==> s[last_index(s, c)] == c,
        forall|i: int| 0 <= i < s.len() && #[trigger] s[i] == c ==> i <= last_index(s, c),
    decreases s.len(),
{
    if s.len() > 0 && s.last() != c {
        let t = s.drop_last();
        lemma_last_place(t, c);
        assert forall|i: int| 0 <= i < s.len() && #[trigger] s[i] == c implies i <= last_index(
            s,
            c,
        ) by {
            if i < t.len() {
                assert(t[i] == c);
            }
        }
    }
}

/// A text starts with `p` when it is `p` and more, and ends with `p` when it
/// is more and `p`.
pub proof fn law_starts_and_ends(p: Seq<char>, s: Seq<char>)
    ensures
        starts(p + s, p),
        ends(s + p, p),
        starts(s, p) ==> s == p + s.skip(p.len() as int),
        ends(s, p) ==> s == s.take(s.len() - p.len()) + p,
{
    assert((p + s).take(p.len() as int) =~= p);
    assert((s + p).skip(s.len() as int) =~= p);
    if starts(s, p) {
        assert(s =~= s.take(p.len() as int) + s.skip(p.len() as int));
    }
    if ends(s, p) {
        assert(s =~= s.take(s.len() - p.len()) + s.skip(s.len() - p.len()));
    }
}

} // verus!
