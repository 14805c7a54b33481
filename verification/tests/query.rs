use majestic::query::{compile_query, escape_pcre2, QueryKind};
use majestic::search::SearchFlags;
use majestic::Error;

fn flags() -> SearchFlags {
    SearchFlags::default()
}

#[test]
fn human_and_compiles_to_lookaheads() {
    let query = compile_query("lizard AND the", flags()).expect("compile AND");
    assert_eq!(query.kind, QueryKind::Human);
    assert!(
        query.pattern.contains("(?=.*lizard)") && query.pattern.contains("(?=.*the)"),
        "human AND must compile to lookaheads, got {:?}",
        query.pattern
    );
    assert_eq!(query.pattern, "(?=.*lizard)(?=.*the)");
}

#[test]
fn human_implicit_and_joins_bare_words() {
    let query = compile_query("lizard the", flags()).expect("implicit AND");
    assert_eq!(query.pattern, "(?=.*lizard)(?=.*the)");
    assert_eq!(query.kind, QueryKind::Human);
}

#[test]
fn human_or_compiles_to_pipe() {
    let query = compile_query("a OR b", flags()).expect("compile OR");
    assert_eq!(query.pattern, "a|b");
    let pipe = compile_query("a|b", flags()).expect("pipe OR");
    assert_eq!(pipe.pattern, "a|b");
}

#[test]
fn quoted_phrase_is_contiguous_literal() {
    let query = compile_query(r#""hello world""#, flags()).expect("phrase");
    assert_eq!(query.kind, QueryKind::Human);
    assert_eq!(query.pattern, "hello world");
    assert!(
        !query.pattern.contains("(?="),
        "a single phrase must not become lookahead AND, got {:?}",
        query.pattern
    );
}

#[test]
fn quoted_phrase_escapes_metacharacters() {
    let query = compile_query(r#""hello.world""#, flags()).expect("phrase meta");
    assert_eq!(query.pattern, r"hello\.world");
}

#[test]
fn slash_regex_i_sets_ignore_case() {
    let query = compile_query("/Catfooding/i", flags()).expect("regex i");
    assert_eq!(query.kind, QueryKind::Regex);
    assert_eq!(query.pattern, "Catfooding");
    assert!(query.flags.ignore_case);
    assert!(!query.flags.fixed_strings);
}

#[test]
fn slash_regex_g_is_accepted_as_no_op() {
    let query = compile_query("/foo/gi", flags()).expect("regex gi");
    assert_eq!(query.pattern, "foo");
    assert!(query.flags.ignore_case);
}

#[test]
fn slash_regex_unknown_flag_is_an_error() {
    let err = compile_query("/foo/q", flags()).expect_err("unknown flag");
    let text = err.message();
    assert!(text.contains('q'), "unknown flag must be named, got {text}");
}

#[test]
fn fixed_strings_skips_human_and_slash_compile() {
    let query = compile_query(
        "/foo/i",
        SearchFlags {
            fixed_strings: true,
            ..SearchFlags::default()
        },
    )
    .expect("literal");
    assert_eq!(query.kind, QueryKind::Literal);
    assert_eq!(query.pattern, "/foo/i");
    assert!(query.flags.fixed_strings);
    assert!(!query.flags.ignore_case);
}

#[test]
fn and_binds_tighter_than_or() {
    let query = compile_query("a OR b AND c", flags()).expect("precedence");
    assert_eq!(query.pattern, "a|(?=.*b)(?=.*c)");
}

#[test]
fn empty_pattern_is_empty_error() {
    assert!(matches!(
        compile_query("   ", flags()),
        Err(Error::EmptyPattern)
    ));
    assert!(matches!(
        compile_query("//i", flags()),
        Err(Error::EmptyPattern)
    ));
}

#[test]
fn unclosed_quote_is_invalid() {
    let err = compile_query("\"hello", flags()).expect_err("unclosed");
    let text = err.message();
    assert!(text.contains("unclosed quote"), "got {text}");
}

#[test]
fn slash_flags_set_every_option() {
    let query = compile_query("/a.b/msx", flags()).expect("regex msx");
    assert!(query.multi_line);
    assert!(query.dotall);
    assert!(query.extended);
    assert!(!query.flags.ignore_case);
}

#[test]
fn keywords_ignore_case() {
    let query = compile_query("lizard and the", flags()).expect("lower case and");
    assert_eq!(query.pattern, "(?=.*lizard)(?=.*the)");
    let query = compile_query("a or b", flags()).expect("lower case or");
    assert_eq!(query.pattern, "a|b");
}

#[test]
fn one_plain_word_stays_as_it_is() {
    let query = compile_query("  food ", flags()).expect("word");
    assert_eq!(query.pattern, "food");
}

#[test]
fn escape_puts_a_backslash_before_each_metacharacter() {
    assert_eq!(escape_pcre2("a.b*c"), r"a\.b\*c");
    assert_eq!(escape_pcre2("plain"), "plain");
    assert_eq!(escape_pcre2("(x|y)"), r"\(x\|y\)");
}

#[test]
fn spellings_of_and_compile_alike() {
    let plain = compile_query("lizard the", flags()).expect("plain");
    for spelled in ["lizard AND the", "lizard and the", "lizard  And\tthe"] {
        assert_eq!(compile_query(spelled, flags()).expect(spelled), plain);
    }
    assert_eq!(plain.kind, QueryKind::Human);
}

#[test]
fn spellings_of_or_compile_alike() {
    let plain = compile_query("lizard|the", flags()).expect("bar");
    for spelled in ["lizard OR the", "lizard or the", "lizard | the"] {
        assert_eq!(compile_query(spelled, flags()).expect(spelled), plain);
    }
    assert_eq!(plain.pattern, "lizard|the");
    assert_eq!(plain.kind, QueryKind::Human);
}
