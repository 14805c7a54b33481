//! A personal memex: lossless archives of account data exports, and search
//! over them.
//!
//! The library holds the archive format, the query language, the search
//! rules, the merge of repeated exports and the decisions of ingest. File and
//! network access stay with the caller, who hands in bytes and plain values.
use vstd::prelude::*;

use crate::text::{cat, decimal, decimal_u64};

pub mod acp;
pub mod again;
pub mod archive;
pub mod bench_zstd;
pub mod bytes;
pub mod cards;
pub mod catalog;
pub mod characters;
pub mod chatgpt;
pub mod cli;
pub mod codec;
pub mod config;
pub mod copies;
pub mod discover;
pub mod duplicates;
pub mod facebook;
pub mod files;
pub mod grep;
pub mod hash;
pub mod index;
pub mod infer;
pub mod ingest;
pub mod json;
pub mod listing;
pub mod logging;
pub mod lossless;
pub mod markdown;
pub mod mcp;
pub mod memex;
pub mod merge;
pub mod names;
pub mod notes;
pub mod number;
pub mod order;
pub mod pack;
pub mod pairs;
pub mod paths;
pub mod query;
pub mod records;
pub mod report;
pub mod rpc;
pub mod scan;
pub mod schema;
pub mod scopes;
pub mod search;
pub mod serve;
pub mod sessions;
pub mod sources;
pub mod spans;
pub mod sqlite;
pub mod systemwide;
pub mod telegram;
pub mod text;
pub mod trie;
pub mod utf;
pub mod walk;
pub mod wire;
pub mod x_archive;
pub mod zip;
pub mod zstd_file;

verus! {

/// Service folder inferred from an official Grok account export dump.
pub const GROK_SERVICE: &'static str = "agents/grok";

/// grok-oss session JSONL and `session_docs` sqlite.
pub const GROK_OSS_SERVICE: &'static str = "agents/grok-oss";

/// Agent report markdown under `.agents/reports`.
pub const REPORTS_SERVICE: &'static str = "agents/reports";

/// Obsidian vault (directory that contains `.obsidian/`).
pub const OBSIDIAN_SERVICE: &'static str = "notes/obsidian";

/// Markdown tree with no `.obsidian/` directory.
pub const MARKDOWN_SERVICE: &'static str = "notes/markdown";

/// Telegram Desktop JSON export (`result.json`).
pub const TELEGRAM_SERVICE: &'static str = "social/telegram";

/// ChatGPT account export (`conversations-*.json` plus `user.json`).
pub const CHATGPT_SERVICE: &'static str = "agents/chatgpt";

/// Meta Download Your Information (Facebook and Instagram activity folders).
pub const META_SERVICE: &'static str = "social/meta";

/// X account archive (`data/account.js` plus `data/tweet.js` or `data/tweets.js`).
pub const X_SERVICE: &'static str = "social/x";

/// What went wrong in an operation of the file system.
#[derive(Debug, Clone, Copy, PartialEq, Eq, Structural)]
pub enum IoKind {
    NotFound,
    PermissionDenied,
    Other,
}

/// Errors of ingest, archive open, search and RPC.
///
/// [`Error::message`] is the text that a user reads. No variant carries an
/// auth key.
#[derive(Debug)]
pub enum Error {
    InvalidMagic,
    UnsupportedVersion(u32),
    InvalidArchive,
    Bytecheck(String),
    TriesMissing,
    InvalidTries,
    EmptyPattern,
    InvalidPattern(String),
    Fst(String),
    HomeUnset,
    ArchiveUnspecified,
    NoArchives(String),
    NotGrokExport,
    MissingXUsername,
    AccountDisagree,
    InvalidScope(String),
    InvalidParams(String),
    UnknownMethod(String),
    Ingest(String),
    Json(String),
    Io(IoKind, String),
}

/// The text of an error.
pub open spec fn error_text(e: Error) -> Seq<char> {
    match e {
        Error::InvalidMagic => "invalid majestic magic"@,
        Error::UnsupportedVersion(v) => "unsupported majestic version "@ + decimal(v as nat),
        Error::InvalidArchive => "archive is truncated or offsets are invalid"@,
        Error::Bytecheck(m) => "archive bytecheck failed: "@ + m@,
        Error::TriesMissing => "tries region is missing; re-ingest the archive"@,
        Error::InvalidTries => "invalid tries region"@,
        Error::EmptyPattern => "search pattern is empty"@,
        Error::InvalidPattern(m) => "invalid search pattern: "@ + m@,
        Error::Fst(m) => "fst: "@ + m@,
        Error::HomeUnset => "HOME is not set; pass -o or an explicit archive path"@,
        Error::ArchiveUnspecified =>
            "pass --service and --account, or an explicit archive path (-o)"@,
        Error::NoArchives(path) => "no archives found under "@ + path@,
        Error::NotGrokExport =>
            "this input is not an official Grok export; pass --service and --account, or -o"@,
        Error::MissingXUsername =>
            "the Grok export auth file has no user.xUsername; pass --account"@,
        Error::AccountDisagree => "inputs infer different accounts; pass --account"@,
        Error::InvalidScope(m) => m@,
        Error::InvalidParams(m) => m@,
        Error::UnknownMethod(m) => "unknown RPC method "@ + m@,
        Error::Ingest(m) => m@,
        Error::Json(m) => m@,
        Error::Io(_, m) => m@,
    }
}

impl Error {
    /// The text of this error.
    pub fn message(&self) -> (r: String)
        ensures
            r@ == error_text(*self),
    {
        match self {
            Error::InvalidMagic => "invalid majestic magic".to_owned(),
            Error::UnsupportedVersion(v) => {
                let d = decimal_u64(*v as u64);
                cat("unsupported majestic version ", d.as_str())
            },
            Error::InvalidArchive => "archive is truncated or offsets are invalid".to_owned(),
            Error::Bytecheck(m) => cat("archive bytecheck failed: ", m.as_str()),
            Error::TriesMissing => "tries region is missing; re-ingest the archive".to_owned(),
            Error::InvalidTries => "invalid tries region".to_owned(),
            Error::EmptyPattern => "search pattern is empty".to_owned(),
            Error::InvalidPattern(m) => cat("invalid search pattern: ", m.as_str()),
            Error::Fst(m) => cat("fst: ", m.as_str()),
            Error::HomeUnset => "HOME is not set; pass -o or an explicit archive path".to_owned(),
            Error::ArchiveUnspecified =>
                "pass --service and --account, or an explicit archive path (-o)".to_owned(),
            Error::NoArchives(path) => cat("no archives found under ", path.as_str()),
            Error::NotGrokExport =>
                "this input is not an official Grok export; pass --service and --account, or -o".to_owned(),
            Error::MissingXUsername =>
                "the Grok export auth file has no user.xUsername; pass --account".to_owned(),
            Error::AccountDisagree => "inputs infer different accounts; pass --account".to_owned(),
            Error::InvalidScope(m) => m.clone(),
            Error::InvalidParams(m) => m.clone(),
            Error::UnknownMethod(m) => cat("unknown RPC method ", m.as_str()),
            Error::Ingest(m) => m.clone(),
            Error::Json(m) => m.clone(),
            Error::Io(_, m) => m.clone(),
        }
    }
}

/// The text of an error carries what the error tells, in full, behind words
/// that say what failed.
pub proof fn law_error_texts(m: String, v: u32, k: IoKind)
    ensures
        error_text(Error::InvalidScope(m)) == m@,
        error_text(Error::InvalidParams(m)) == m@,
        error_text(Error::Ingest(m)) == m@,
        error_text(Error::Json(m)) == m@,
        error_text(Error::Io(k, m)) == m@,
        error_text(Error::Bytecheck(m)) == "archive bytecheck failed: "@ + m@,
        error_text(Error::InvalidPattern(m)) == "invalid search pattern: "@ + m@,
        error_text(Error::Fst(m)) == "fst: "@ + m@,
        error_text(Error::NoArchives(m)) == "no archives found under "@ + m@,
        error_text(Error::UnknownMethod(m)) == "unknown RPC method "@ + m@,
        error_text(Error::UnsupportedVersion(v)) == "unsupported majestic version "@ + decimal(
            v as nat,
        ),
{
}

} // verus!
