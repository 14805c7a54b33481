use majestic::search::{
    group_hits, group_snippet_occurrences, search_worker_count, suppressed_clause, unique_hits,
    write_hits_grouped, LabeledHit, SearchHit, SearchSnippetGroup, DEFAULT_SEARCH_MAX_COUNT,
};

const SEARCH_PRINT_FLOOD_LINES: usize = 250_000;

fn groups_for(hits: &[SearchHit]) -> Vec<SearchSnippetGroup> {
    let labeled: Vec<LabeledHit> = hits
        .iter()
        .map(|hit| LabeledHit { archive: None, hit })
        .collect();
    group_snippet_occurrences(&labeled)
}

fn hit(id: &str, span_off: u64, span_text: &str) -> SearchHit {
    hit_with_snippet(id, span_off, span_text, span_text)
}

fn hit_with_snippet(id: &str, span_off: u64, span_text: &str, snippet: &str) -> SearchHit {
    SearchHit {
        conversation_id: Some(id.to_owned()),
        field: "message",
        snippet: snippet.to_owned(),
        span_off,
        span_text: span_text.to_owned(),
    }
}

#[test]
fn same_span_twice_is_one_unique_hit() {
    let found = unique_hits(vec![
        hit("same-convo", 40, "packed twice"),
        hit("same-convo", 40, "packed twice"),
    ]);
    assert_eq!(found.hits.len(), 1);
    assert_eq!(found.duplicate_omitted, 1);
    assert_eq!(found.hits[0].conversation_id.as_deref(), Some("same-convo"));
}

#[test]
fn same_span_text_two_offsets_is_one_unique_hit() {
    let found = unique_hits(vec![
        hit_with_snippet("same-convo", 40, "packed twice", "first snippet"),
        hit_with_snippet("same-convo", 4000, "packed twice", "second snippet"),
    ]);
    assert_eq!(found.hits.len(), 1);
    assert_eq!(found.duplicate_omitted, 1);
    assert_eq!(
        found.hits[0].snippet, "first snippet",
        "snippet must come from the first kept packed copy"
    );
    assert_eq!(found.hits[0].span_off, 40);
}

#[test]
fn sliding_snippets_same_span_are_one_unique_hit() {
    let body = "packed message to you, I did tell myself extra";
    let found = unique_hits(vec![
        hit_with_snippet("same-convo", 100, body, "... to you, I did tell myself"),
        hit_with_snippet("same-convo", 100, body, "...to you, I did tell myself"),
        hit_with_snippet("same-convo", 100, body, "...o you, I did tell myself"),
    ]);
    assert_eq!(found.hits.len(), 1);
    assert_eq!(found.duplicate_omitted, 2);
    assert_eq!(
        found.hits[0].snippet, "... to you, I did tell myself",
        "snippet must come from the first match in that packed message"
    );
}

#[test]
fn different_message_bodies_stay_two_unique_hits() {
    let found = unique_hits(vec![
        hit("same-convo", 100, "alpha-unique-msg"),
        hit("same-convo", 200, "beta-unique-msg"),
    ]);
    assert_eq!(found.hits.len(), 2);
    assert_eq!(found.duplicate_omitted, 0);
}

#[test]
fn same_snippet_window_different_bodies_stay_two_unique_hits() {
    let found = unique_hits(vec![
        hit_with_snippet(
            "same-convo",
            100,
            "aaa in the first packed message body",
            "aaa",
        ),
        hit_with_snippet(
            "same-convo",
            200,
            "aaa in the second packed message body",
            "aaa",
        ),
    ]);
    assert_eq!(
        found.hits.len(),
        2,
        "unique hits must not key on the snippet window"
    );
    assert_eq!(found.duplicate_omitted, 0);
}

#[test]
fn title_and_message_stay_two_unique_hits() {
    let found = unique_hits(vec![
        SearchHit {
            conversation_id: Some("same-convo".into()),
            field: "title",
            snippet: "aaa".into(),
            span_off: 0,
            span_text: "aaa".into(),
        },
        SearchHit {
            conversation_id: Some("same-convo".into()),
            field: "message",
            snippet: "aaa".into(),
            span_off: 40,
            span_text: "aaa".into(),
        },
    ]);
    assert_eq!(found.hits.len(), 2);
    assert_eq!(found.duplicate_omitted, 0);
    let groups = groups_for(&found.hits);
    assert_eq!(
        groups.len(),
        1,
        "the grouping key is full span text, so the same packed bytes are one snippet, got {groups:?}"
    );
    assert_eq!(groups[0].occurrences.len(), 2);
    let mut fields: Vec<_> = groups[0]
        .occurrences
        .iter()
        .map(|occurrence| occurrence.field)
        .collect();
    fields.sort();
    assert_eq!(fields, ["message", "title"]);
}

#[test]
fn two_conversations_stay_two_unique_hits() {
    let found = unique_hits(vec![
        hit("convo-a", 0, "alpha unique text"),
        hit("convo-b", 40, "beta unique text"),
    ]);
    assert_eq!(found.hits.len(), 2);
    assert_eq!(found.duplicate_omitted, 0);
}

#[test]
fn two_conversations_same_body_are_one_snippet_two_occurrences() {
    let found = unique_hits(vec![
        hit("convo-a", 0, "same sentence"),
        hit("convo-b", 40, "same sentence"),
    ]);
    assert_eq!(
        found.hits.len(),
        2,
        "uniqueness still keeps both conversation ids; grouping must not drop an occurrence"
    );
    assert_eq!(found.duplicate_omitted, 0);
    let groups = groups_for(&found.hits);
    assert_eq!(
        groups.len(),
        1,
        "presentation is one snippet for the same packed body, got {groups:?}"
    );
    assert_eq!(
        groups[0].occurrences.len(),
        2,
        "two conversation ids must be two occurrence rows, got {groups:?}"
    );
    let mut ids: Vec<_> = groups[0]
        .occurrences
        .iter()
        .map(|occurrence| occurrence.conversation_id.as_deref().unwrap_or("-"))
        .collect();
    ids.sort();
    assert_eq!(ids, ["convo-a", "convo-b"]);
    assert_eq!(groups[0].snippet, "same sentence");
}

#[test]
fn two_different_bodies_are_two_snippet_groups() {
    let found = unique_hits(vec![
        hit("convo-a", 0, "alpha unique text"),
        hit("convo-b", 40, "beta unique text"),
    ]);
    let groups = groups_for(&found.hits);
    assert_eq!(
        groups.len(),
        2,
        "different packed bodies stay two snippet blocks, got {groups:?}"
    );
    assert!(groups.iter().all(|group| group.occurrences.len() == 1));
}

#[test]
fn overlapping_same_id_same_bytes_are_one_snippet_one_occurrence() {
    let found = unique_hits(vec![
        hit("dump-convo", 40, "packed-copy-token"),
        hit("dump-convo", 4000, "packed-copy-token"),
    ]);
    assert_eq!(found.hits.len(), 1);
    let groups = groups_for(&found.hits);
    assert_eq!(groups.len(), 1);
    assert_eq!(
        groups[0].occurrences.len(),
        1,
        "overlapping dumps of the same id and bytes stay one occurrence, got {groups:?}"
    );
}

#[test]
fn write_hits_grouped_prints_same_body_once_then_occurrences() {
    let hits = unique_hits(vec![
        hit("convo-a", 0, "same sentence"),
        hit("convo-b", 40, "same sentence"),
    ])
    .hits;
    let (text, _) = write_hits_grouped(&hits, 0, 0);
    assert_eq!(
        text.matches("same sentence").count(),
        1,
        "the paragraph must print once, got {text:?}"
    );
    assert!(text.contains("present in:"), "got {text:?}");
    assert!(
        text.contains("conversation convo-a  field message"),
        "got {text:?}"
    );
    assert!(
        text.contains("conversation convo-b  field message"),
        "got {text:?}"
    );
}

#[test]
fn missing_conversation_id_same_body_is_one_unique_hit() {
    let found = unique_hits(vec![
        SearchHit {
            conversation_id: None,
            field: "message",
            snippet: "first snippet".into(),
            span_off: 0,
            span_text: "packed body".into(),
        },
        SearchHit {
            conversation_id: None,
            field: "message",
            snippet: "second snippet".into(),
            span_off: 80,
            span_text: "packed body".into(),
        },
    ]);
    assert_eq!(found.hits.len(), 1);
    assert_eq!(found.duplicate_omitted, 1);
    assert_eq!(found.hits[0].snippet, "first snippet");
}

#[test]
fn missing_conversation_id_different_bodies_stay_two_unique_hits() {
    let found = unique_hits(vec![
        SearchHit {
            conversation_id: None,
            field: "message",
            snippet: "alpha".into(),
            span_off: 0,
            span_text: "alpha body".into(),
        },
        SearchHit {
            conversation_id: None,
            field: "message",
            snippet: "beta".into(),
            span_off: 80,
            span_text: "beta body".into(),
        },
    ]);
    assert_eq!(found.hits.len(), 2);
    assert_eq!(found.duplicate_omitted, 0);
}

#[test]
fn default_print_cap_does_not_print_250k_lines() {
    assert!(DEFAULT_SEARCH_MAX_COUNT > 0);
    assert!(DEFAULT_SEARCH_MAX_COUNT < SEARCH_PRINT_FLOOD_LINES);
    let hits: Vec<SearchHit> = (0..1_000)
        .map(|i| hit(&format!("c{i}"), i as u64, &format!("snippet {i}")))
        .collect();
    let (text, printed) = write_hits_grouped(&hits, DEFAULT_SEARCH_MAX_COUNT, 0);
    assert_eq!(printed, DEFAULT_SEARCH_MAX_COUNT);
    let lines = text.lines().count();
    assert!(
        lines < SEARCH_PRINT_FLOOD_LINES,
        "default cap must not print 250k lines, got {lines}"
    );
    assert!(
        text.contains("more snippet groups not shown"),
        "suppressed snippet-group count must appear, got {text:?}"
    );
    assert_eq!(
        text.matches("present in:").count(),
        DEFAULT_SEARCH_MAX_COUNT
    );
}

#[test]
fn search_worker_count_is_min_of_files_and_available_parallelism() {
    for cpus in [1usize, 2, 4, 16] {
        assert_eq!(search_worker_count(0, cpus), 1);
        assert_eq!(search_worker_count(1, cpus), 1);
        assert_eq!(search_worker_count(cpus, cpus), cpus);
        assert_eq!(search_worker_count(cpus.saturating_add(50), cpus), cpus);
        if cpus > 4 {
            assert!(
                search_worker_count(8, cpus) > 4,
                "there is no four-map cap; eight files on more than four CPUs use more than four workers"
            );
        }
        assert_eq!(
            search_worker_count(2, cpus),
            2.min(cpus),
            "two archives use min(2, available parallelism) workers"
        );
    }
}

#[test]
fn no_occurrence_is_dropped_by_grouping() {
    let hits = unique_hits(vec![
        hit("a", 0, "one"),
        hit("b", 10, "two"),
        hit("c", 20, "one"),
        hit("d", 30, "two"),
        hit("a", 40, "three"),
    ])
    .hits;
    let groups = group_hits(Some("x.majestic"), &hits);
    let total: usize = groups.iter().map(|group| group.occurrences.len()).sum();
    assert_eq!(total, 5);
    assert_eq!(groups.len(), 3);
    assert_eq!(
        groups[0].occurrences[0].archive.as_deref(),
        Some("x.majestic")
    );
}

#[test]
fn suppressed_clause_names_what_is_left_out() {
    assert_eq!(suppressed_clause(3, 0), "3 more snippet groups not shown");
    assert_eq!(suppressed_clause(0, 2), "2 duplicate hits omitted");
    assert_eq!(
        suppressed_clause(3, 2),
        "3 more snippet groups not shown, 2 duplicate hits omitted"
    );
}
