use majestic::archive::{u32_fit, u32_fit_usize};
use majestic::bench_zstd::{
    bench_plan, dict_size_bytes, dictionary_for_pass, train_dict, zstd_roundtrip, DICT_SIZE_MAX,
    DICT_SIZE_MIN,
};
use majestic::json::{no_fields, object_of, text_value, u64_value, with_field};
use majestic::wire::{encode_rpc, parse_rpc_value, WireFormat};
use majestic::zip::{skip_reason, MAX_UNCOMPRESSED};

#[test]
fn u32_fit_overflow_returns_error_not_panic() {
    let err = u32_fit(u64::from(u32::MAX) + 1, "payload length")
        .expect_err("a value past u32::MAX must be Error, not a panic");
    let message = err.message();
    assert!(
        message.contains("does not fit in a 32-bit archive field"),
        "plain English fit error, got {message}"
    );
    assert!(
        message.contains("payload length"),
        "error must name the field, got {message}"
    );
}

#[test]
fn u32_fit_accepts_u32_max() {
    assert_eq!(
        u32_fit(u64::from(u32::MAX), "payload length").expect("u32::MAX fits"),
        u32::MAX
    );
    assert_eq!(u32_fit(0, "payload length").expect("zero fits"), 0);
    assert_eq!(
        u32_fit_usize(u32::MAX as usize, "span count").expect("usize u32::MAX fits"),
        u32::MAX
    );
}

#[test]
fn dict_size_clamps_one_percent() {
    assert_eq!(dict_size_bytes(0), DICT_SIZE_MIN);
    assert_eq!(dict_size_bytes(1_000_000), DICT_SIZE_MIN);
    assert_eq!(dict_size_bytes(10_000_000), 100_000);
    assert_eq!(dict_size_bytes(6_553_600), DICT_SIZE_MIN);
    assert_eq!(
        dict_size_bytes(DICT_SIZE_MAX.saturating_mul(100)),
        DICT_SIZE_MAX
    );
    assert_eq!(
        dict_size_bytes(DICT_SIZE_MAX.saturating_mul(1000)),
        DICT_SIZE_MAX
    );
}

#[test]
fn train_dict_requires_sample_sizes_to_sum_to_buffer() {
    let data = vec![1u8; 4096];
    let sizes = vec![1024, 1024];
    let err = train_dict(&data, &sizes, 1024).expect_err("mismatched sizes");
    let text = err.message();
    assert!(
        text.contains("Src size") || text.contains("zstd 2-pass dict"),
        "zstd must reject sizes that do not sum to the sample buffer, got {text}"
    );
}

#[test]
fn train_dict_succeeds_on_eight_times_dict_budget() {
    let chunk = 8 * 1024;
    let dict_size = 1024u64;
    let payload = b"lizard the synthetic zstd train payload. ".repeat(chunk);
    assert!(payload.len() >= 8 * dict_size as usize);
    let mut sizes = Vec::new();
    let mut remaining = payload.len();
    while remaining > 0 {
        let n = chunk.min(remaining);
        sizes.push(n);
        remaining -= n;
    }
    assert_eq!(
        sizes.iter().sum::<usize>(),
        payload.len(),
        "sample sizes must equal the buffer"
    );
    let dict = train_dict(&payload, &sizes, dict_size).expect("train");
    assert!(!dict.is_empty(), "trained dict must not be empty");
}

#[test]
fn zstd_roundtrip_few_kb() {
    let payload = b"lizard the synthetic zstd roundtrip payload. ".repeat(80);
    assert!(payload.len() > 2000, "fixture must be a few KB");
    assert!(payload.len() < 64 * 1024, "fixture must stay tiny");
    let out = zstd_roundtrip(&payload, 3).expect("tiny zstd roundtrip");
    assert_eq!(out, payload);
}

#[test]
fn two_pass_dict_differs_from_one_pass() {
    let payload = b"lizard the synthetic zstd dictionary sample payload. ".repeat(2000);
    assert!(
        payload.len() > 80_000,
        "training samples must be tens of KB"
    );
    let chunk = 1024;
    let mut sizes = Vec::new();
    let mut remaining = payload.len();
    while remaining > 0 {
        let n = chunk.min(remaining);
        sizes.push(n);
        remaining -= n;
    }
    let dict_size = 1024;
    let one =
        dictionary_for_pass(&payload, &sizes, dict_size, false).expect("1-pass must not train");
    let two = dictionary_for_pass(&payload, &sizes, dict_size, true).expect("2-pass train");
    assert!(one.is_none(), "1-pass compresses with no trained dict");
    let dict = two.expect("2-pass must return a trained dict");
    assert!(!dict.is_empty(), "trained dict must not be empty");

    let no_dict = zstd::bulk::compress(&payload, 3).expect("1-pass compress");
    let with_dict = zstd::bulk::Compressor::with_dictionary(3, &dict)
        .expect("2-pass compressor")
        .compress(&payload)
        .expect("2-pass compress");
    assert_ne!(
        no_dict, with_dict,
        "trained dict must change compressed bytes versus no dict"
    );
}

fn tiny_rpc() -> serde_json::Value {
    let fields = with_field(no_fields(), "jsonrpc", text_value("2.0"));
    let fields = with_field(fields, "id", u64_value(1));
    let fields = with_field(fields, "method", text_value("ping"));
    let fields = with_field(fields, "params", object_of(no_fields()));
    object_of(fields)
}

#[test]
fn toon_roundtrip_tiny_rpc_object() {
    let obj = tiny_rpc();
    let toon = encode_rpc(&obj, WireFormat::Toon).expect("encode TOON");
    assert!(
        !toon.trim_start().starts_with('{'),
        "TOON encoding must not look like JSON, got {toon:?}"
    );
    assert!(
        toon.contains("ping") || toon.contains("method"),
        "TOON must carry the method, got {toon:?}"
    );
    let (back, format) = parse_rpc_value(&toon).expect("parse TOON");
    assert_eq!(format, WireFormat::Toon);
    assert_eq!(back["method"], "ping");
    assert_eq!(back["id"], 1);
    assert_eq!(back["jsonrpc"], "2.0");
}

#[test]
fn json_object_is_not_sniffed_as_toon() {
    let line = r#"{"jsonrpc":"2.0","id":1,"method":"ping"}"#;
    let (value, format) = parse_rpc_value(line).expect("JSON");
    assert_eq!(format, WireFormat::Json);
    assert_eq!(value["method"], "ping");
}

#[test]
fn content_type_text_toon_selects_toon() {
    assert_eq!(
        WireFormat::from_media_type("text/toon; charset=utf-8"),
        Some(WireFormat::Toon)
    );
    assert_eq!(
        WireFormat::from_query_format(Some("toon")),
        Some(WireFormat::Toon)
    );
    assert_eq!(
        WireFormat::response(false, Some("toon"), None, WireFormat::Json),
        WireFormat::Toon
    );
    assert_eq!(
        WireFormat::response(false, None, Some("application/json"), WireFormat::Toon),
        WireFormat::Json
    );
}

#[test]
fn skip_reason_honors_max_uncompressed_bytes() {
    assert_eq!(
        skip_reason("a.json", false, 100, false, 50),
        Some("uncompressed zip entry exceeds the configured size limit")
    );
    assert_eq!(skip_reason("a.json", false, 50, false, 50), None);
    assert_eq!(skip_reason("a.json", false, 100, false, 200), None);
    assert_eq!(
        skip_reason(
            "a.json",
            false,
            MAX_UNCOMPRESSED + 1,
            false,
            MAX_UNCOMPRESSED
        ),
        Some("uncompressed zip entry exceeds the configured size limit")
    );
    assert_eq!(
        skip_reason("a.json", false, MAX_UNCOMPRESSED, false, MAX_UNCOMPRESSED),
        None,
        "exactly the configured limit must ingest"
    );
}

#[test]
fn default_max_uncompressed_is_eight_gib() {
    assert_eq!(MAX_UNCOMPRESSED, 8 * 1024 * 1024 * 1024);
}

#[test]
fn entries_that_are_no_plain_files_are_skipped() {
    assert_eq!(
        skip_reason("folder/", false, 0, false, 10),
        Some("directory entry")
    );
    assert_eq!(
        skip_reason("a.json", true, 0, false, 10),
        Some("encrypted zip entry")
    );
    assert_eq!(
        skip_reason("inner.ZIP", false, 0, false, 10),
        Some("zip-inside-zip")
    );
}

#[test]
fn empty_request_is_refused() {
    assert_eq!(parse_rpc_value("  \n").unwrap_err(), "empty request");
    assert!(parse_rpc_value("{").is_err());
}

#[test]
fn json_is_written_and_read_back() {
    let text = encode_rpc(&tiny_rpc(), WireFormat::Json).expect("JSON");
    assert_eq!(
        text,
        r#"{"jsonrpc":"2.0","id":1,"method":"ping","params":{}}"#
    );
    let (back, format) = parse_rpc_value(&text).expect("parse");
    assert_eq!(format, WireFormat::Json);
    assert_eq!(back, tiny_rpc());
}

#[test]
fn an_array_of_no_samples_trains_nothing() {
    assert!(train_dict(&[], &[], 1024).is_err());
}

#[test]
fn the_bench_runs_each_level_twice() {
    let plan = bench_plan();
    assert_eq!(plan.len(), 44);
    assert_eq!(plan[..3], [(1, 1), (1, 2), (2, 1)]);
    assert_eq!(plan[43], (22, 2));
}

#[test]
fn case_and_parameters_of_a_media_type_change_nothing() {
    for json in ["application/json", " Application/JSON ", "TEXT/json;charset=utf-8;q=1"] {
        assert_eq!(WireFormat::from_media_type(json), Some(WireFormat::Json));
    }
    for toon in ["text/toon", "\tTEXT/TOON ; x", "application/Toon;"] {
        assert_eq!(WireFormat::from_media_type(toon), Some(WireFormat::Toon));
    }
    for other in ["", ";application/json", "text/html", "application /json"] {
        assert_eq!(WireFormat::from_media_type(other), None);
    }
}
