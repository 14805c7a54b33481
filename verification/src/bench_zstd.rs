//! The compression bench: dictionary sizes, samples, names and the report.
//!
//! One pass compresses without a dictionary. Two passes train a dictionary
//! on samples and compress with it. The caller runs the clock, reads and
//! writes files, and moves temporaries to the trash.
use vstd::prelude::*;

use crate::memex::{home_dir, EntryKind, ListStep};
use crate::paths::{
    components, extension_of_name, join_path, joined, law_joined_two, law_name_and_extension,
    name_extension, opt_str, opt_view,
};
use crate::text::{
    cat, cat3, decimal, decimal_int, decimal_i64, decimal_u64, decimal_usize, eq_ascii,
    same_ascii, same_str, trim, trimmed,
};
use crate::zstd_file::zstd_decoded;
use crate::Error;

verus! {

/// Smallest trained dictionary: 64 KiB.
pub const DICT_SIZE_MIN: u64 = 65536;

/// Largest trained dictionary: 100 MiB.
pub const DICT_SIZE_MAX: u64 = 104857600;

/// Bytes read at a time for samples.
pub const SAMPLE_CHUNK: usize = 8192;

/// Sample bytes for each dictionary byte.
pub const SAMPLE_BUDGET_FACTOR: u64 = 8;

/// Most sample bytes.
pub const SAMPLE_BUDGET_MAX: usize = 268435456;

/// First level of the bench.
pub const FIRST_LEVEL: i32 = 1;

/// Last level of the bench.
pub const LAST_LEVEL: i32 = 22;

/// The runs of the bench on one archive, in order: each level without a
/// dictionary (pass 1) and with one (pass 2).
pub fn bench_plan() -> (r: Vec<(i32, u8)>)
    ensures
        r@.len() == 44,
        forall|i: int|
            0 <= i < 44 ==> #[trigger] r@[i] == ((FIRST_LEVEL + i / 2) as i32, (1 + i % 2) as u8),
{
    let mut out: Vec<(i32, u8)> = Vec::new();
    let mut level: i32 = FIRST_LEVEL;
    while level <= LAST_LEVEL
        invariant
            FIRST_LEVEL <= level <= LAST_LEVEL + 1,
            out@.len() == 2 * (level - FIRST_LEVEL),
            forall|i: int|
                0 <= i < out@.len() ==> #[trigger] out@[i] == (
                    (FIRST_LEVEL + i / 2) as i32,
                    (1 + i % 2) as u8,
                ),
        decreases LAST_LEVEL + 1 - level,
    {
        out.push((level, 1));
        out.push((level, 2));
        level = level + 1;
    }
    out
}

/// The dictionary size of an archive: a hundredth of its size, within the
/// bounds.
pub open spec fn dict_size(uncompressed: int) -> int {
    let s = uncompressed / 100;
    if s < DICT_SIZE_MIN {
        DICT_SIZE_MIN as int
    } else if s > DICT_SIZE_MAX {
        DICT_SIZE_MAX as int
    } else {
        s
    }
}

/// The dictionary size of an archive of `uncompressed` bytes.
pub fn dict_size_bytes(uncompressed: u64) -> (r: u64)
    ensures
        r == dict_size(uncompressed as int),
        DICT_SIZE_MIN <= r <= DICT_SIZE_MAX,
{
    let s: u64 = uncompressed / 100;
    if s < DICT_SIZE_MIN {
        DICT_SIZE_MIN
    } else if s > DICT_SIZE_MAX {
        DICT_SIZE_MAX
    } else {
        s
    }
}

/// A larger archive has no smaller dictionary.
pub proof fn law_dict_size_grows(a: int, b: int)
    requires
        0 <= a <= b,
    ensures
        dict_size(a) <= dict_size(b),
{
}

/// Options of the bench.
#[derive(Debug, Clone)]
pub struct BenchZstdOptions {
    pub dir: String,
    pub jsonl: String,
    pub report: String,
    pub re_ingest: bool,
    pub home: String,
}

/// Where reports go by default.
pub open spec fn bench_root(home: Seq<char>) -> Seq<char> {
    joined(joined(home, "memex"@), "bench-zstd"@)
}

/// A passed path, else the default.
pub open spec fn or_path(passed: Option<Seq<char>>, default: Seq<char>) -> Seq<char> {
    match passed {
        Some(p) => p,
        None => default,
    }
}

fn path_or(passed: Option<String>, default: String) -> (r: String)
    ensures
        r@ == or_path(opt_view(passed), default@),
{
    match passed {
        Some(p) => p,
        None => default,
    }
}

impl BenchZstdOptions {
    /// The options of the flags. `home` is the variable that names the home
    /// directory.
    pub fn from_flags(
        home: Option<&str>,
        dir: Option<String>,
        jsonl: Option<String>,
        report: Option<String>,
        re_ingest: bool,
    ) -> (r: Result<BenchZstdOptions, Error>)
        ensures
            match opt_str(home) {
                Some(h) if h.len() > 0 => match r {
                    Ok(o) => {
                        &&& o.home@ == h
                        &&& o.dir@ == or_path(opt_view(dir), joined(h, "memex"@))
                        &&& o.jsonl@ == or_path(
                            opt_view(jsonl),
                            joined(bench_root(h), "report.jsonl"@),
                        )
                        &&& o.report@ == or_path(
                            opt_view(report),
                            joined(bench_root(h), "report.md"@),
                        )
                        &&& o.re_ingest == re_ingest
                    },
                    Err(_) => false,
                },
                _ => r matches Err(e) && e == Error::HomeUnset,
            },
    {
        let home = match home_dir(home) {
            Ok(h) => h,
            Err(e) => {
                return Err(e);
            },
        };
        let memex = join_path(home.as_str(), "memex");
        let root = join_path(memex.as_str(), "bench-zstd");
        let default_jsonl = join_path(root.as_str(), "report.jsonl");
        let default_report = join_path(root.as_str(), "report.md");
        Ok(
            BenchZstdOptions {
                dir: path_or(dir, memex),
                jsonl: path_or(jsonl, default_jsonl),
                report: path_or(report, default_report),
                re_ingest,
                home,
            },
        )
    }
}

/// What the bench does with a directory entry: it walks every directory but
/// its own, and keeps uncompressed archives.
pub open spec fn bench_step(name: Seq<char>, kind: EntryKind) -> ListStep {
    match kind {
        EntryKind::Directory => if name == "bench-zstd"@ {
            ListStep::Skip
        } else {
            ListStep::Descend
        },
        EntryKind::File => match name_extension(name) {
            Some(ext) if same_ascii(ext, "archive"@) || same_ascii(ext, "majestic"@) =>
                ListStep::Keep,
            _ => ListStep::Skip,
        },
        EntryKind::Other => ListStep::Skip,
    }
}

/// What the bench does with a directory entry.
pub fn bench_decision(name: &str, kind: EntryKind) -> (r: ListStep)
    ensures
        r == bench_step(name@, kind),
{
    match kind {
        EntryKind::Directory => {
            if same_str(name, "bench-zstd") {
                ListStep::Skip
            } else {
                ListStep::Descend
            }
        },
        EntryKind::File => match extension_of_name(name) {
            Some(ext) => {
                if eq_ascii(ext.as_str(), "archive") || eq_ascii(ext.as_str(), "majestic") {
                    ListStep::Keep
                } else {
                    ListStep::Skip
                }
            },
            None => ListStep::Skip,
        },
        EntryKind::Other => ListStep::Skip,
    }
}

/// How many sample bytes a dictionary wants.
pub open spec fn sample_budget(dict_size: int) -> int {
    let want = dict_size * SAMPLE_BUDGET_FACTOR;
    if want > SAMPLE_BUDGET_MAX {
        SAMPLE_BUDGET_MAX as int
    } else if want < 1 {
        1
    } else {
        want
    }
}

/// How many sample bytes a dictionary of a bench size wants.
pub fn sample_bytes(dict_size: u64) -> (r: usize)
    requires
        dict_size <= DICT_SIZE_MAX,
    ensures
        r == sample_budget(dict_size as int),
{
    let want: u64 = dict_size * SAMPLE_BUDGET_FACTOR;
    if want > SAMPLE_BUDGET_MAX as u64 {
        SAMPLE_BUDGET_MAX
    } else if want < 1 {
        1
    } else {
        want as usize
    }
}

/// Sum of sizes.
pub open spec fn total(sizes: Seq<usize>) -> nat
    decreases sizes.len(),
{
    if sizes.len() == 0 {
        0
    } else {
        total(sizes.drop_last()) + sizes.last() as nat
    }
}

/// Samples read so far.
#[derive(Debug)]
pub struct Samples {
    pub data: Vec<u8>,
    pub sizes: Vec<usize>,
}

impl Samples {
    /// The sizes sum to the data.
    pub open spec fn wf(&self) -> bool {
        total(self.sizes@) == self.data@.len()
    }

    /// No samples.
    pub fn new() -> (r: Samples)
        ensures
            r.wf(),
            r.data@.len() == 0,
            r.sizes@.len() == 0,
    {
        Samples { data: Vec::new(), sizes: Vec::new() }
    }

    /// Takes what was read, up to `want` bytes in all, and says whether more
    /// is wanted. Nothing read is the end of the file.
    pub fn take(&mut self, chunk: &[u8], want: usize) -> (more: bool)
        requires
            old(self).wf(),
            old(self).data@.len() <= want,
        ensures
            final(self).wf(),
            final(self).data@.len() <= want,
            ({
                let room = want - old(self).data@.len();
                let n = if chunk@.len() <= room {
                    chunk@.len() as int
                } else {
                    room
                };
                &&& final(self).data@ == old(self).data@ + chunk@.take(n)
                &&& final(self).sizes@ == (if n > 0 {
                    old(self).sizes@.push(n as usize)
                } else {
                    old(self).sizes@
                })
                &&& more == (n > 0 && n == chunk@.len() && final(self).data@.len() < want)
            }),
    {
        let room: usize = want - self.data.len();
        let n: usize = if chunk.len() <= room {
            chunk.len()
        } else {
            room
        };
        let ghost was = self.sizes@;
        if n == 0 {
            proof {
                assert(self.data@ =~= old(self).data@ + chunk@.take(0));
            }
            return false;
        }
        let part = vstd::slice::slice_subrange(chunk, 0, n);
        proof {
            assert(part@ =~= chunk@.take(n as int));
        }
        self.data.extend_from_slice(part);
        self.sizes.push(n);
        proof {
            assert(self.sizes@.drop_last() =~= was);
            assert(self.data@ =~= old(self).data@ + chunk@.take(n as int));
        }
        n == chunk.len() && self.data.len() < want
    }

    /// Ends sampling. A file without bytes is an error.
    pub fn finish(self) -> (r: Result<(Vec<u8>, Vec<usize>), Error>)
        requires
            self.wf(),
        ensures
            match r {
                Ok(p) => p.0@ == self.data@ && p.1@ == self.sizes@ && p.0@.len() > 0 && total(p.1@)
                    == p.0@.len(),
                Err(Error::Ingest(m)) => self.data@.len() == 0 && m@
                    == "no sample bytes for zstd dict"@,
                Err(_) => false,
            },
    {
        if self.data.len() == 0 {
            return Err(Error::Ingest("no sample bytes for zstd dict".to_owned()));
        }
        Ok((self.data, self.sizes))
    }
}

/// What `zstd::dict::from_continuous` trains, or its error message.
pub uninterp spec fn trained(data: Seq<u8>, sizes: Seq<usize>, max_size: usize) -> Result<
    Seq<u8>,
    Seq<char>,
>;

/// Calls `zstd::dict::from_continuous`. The dictionary and the message of an
/// error are functions of the samples, their sizes and the largest size. No
/// buffer is larger than `isize::MAX`.
#[verifier::external_body]
fn train(data: &[u8], sizes: &[usize], max_size: usize) -> (r: Result<Vec<u8>, String>)
    requires
        max_size <= isize::MAX,
    ensures
        match r {
            Ok(d) => trained(data@, sizes@, max_size) == Ok::<Seq<u8>, Seq<char>>(d@),
            Err(e) => trained(data@, sizes@, max_size) == Err::<Seq<u8>, Seq<char>>(e@),
        },
{
    zstd::dict::from_continuous(data, sizes, max_size).map_err(|error| error.to_string())
}

/// The largest dictionary to train: at least 256 bytes, and else no more
/// than an eighth of the samples.
pub open spec fn max_dict(dict_size: int, data_len: int) -> int {
    let most = if data_len / 8 < 256 {
        256
    } else {
        data_len / 8
    };
    let want = if dict_size < 256 {
        256
    } else {
        dict_size
    };
    if want < most {
        want
    } else {
        most
    }
}

/// `r` is the trained dictionary of samples.
pub open spec fn is_dictionary(
    data: Seq<u8>,
    sizes: Seq<usize>,
    dict_size: u64,
    r: Result<Vec<u8>, Error>,
) -> bool {
    let max = max_dict(dict_size as int, data.len() as int);
    if data.len() == 0 {
        r matches Err(Error::Ingest(m)) && m@ == "no sample bytes for zstd dict"@
    } else if total(sizes) != data.len() {
        r matches Err(Error::Ingest(m)) && m@
            == "zstd 2-pass dict: Src size is incorrect (sizes sum "@ + decimal(total(sizes))
            + ", buffer "@ + decimal(data.len()) + ")"@
    } else {
        match (trained(data, sizes, max as usize), r) {
            (Ok(d), Ok(v)) => v@ == d,
            (Err(e), Err(Error::Ingest(m))) => m@ == "zstd 2-pass dict: "@ + e,
            _ => false,
        }
    }
}

fn sum_sizes(sizes: &[usize]) -> (r: usize)
    requires
        total(sizes@) <= usize::MAX,
    ensures
        r == total(sizes@),
{
    let mut sum: usize = 0;
    let mut i: usize = 0;
    proof {
        assert(sizes@.take(0) =~= Seq::<usize>::empty());
        assert(sizes@.take(sizes@.len() as int) =~= sizes@);
    }
    while i < sizes.len()
        invariant
            i <= sizes@.len(),
            sum == total(sizes@.take(i as int)),
            total(sizes@.take(sizes@.len() as int)) <= usize::MAX,
        decreases sizes.len() - i,
    {
        proof {
            assert(sizes@.take(i + 1).drop_last() =~= sizes@.take(i as int));
            lemma_total_grows(sizes@, i + 1);
        }
        sum = sum + sizes[i];
        i = i + 1;
    }
    sum
}

proof fn lemma_total_grows(sizes: Seq<usize>, n: int)
    requires
        0 <= n <= sizes.len(),
    ensures
        total(sizes.take(n)) <= total(sizes.take(sizes.len() as int)),
    decreases sizes.len() - n,
{
    if n < sizes.len() {
        assert(sizes.take(n + 1).drop_last() =~= sizes.take(n));
        lemma_total_grows(sizes, n + 1);
    }
}

/// Trains a dictionary on samples.
pub fn train_dict(data: &[u8], sizes: &[usize], dict_size: u64) -> (r: Result<Vec<u8>, Error>)
    requires
        total(sizes@) <= usize::MAX,
    ensures
        is_dictionary(data@, sizes@, dict_size, r),
{
    let size: usize = data.len();
    if size == 0 {
        return Err(Error::Ingest("no sample bytes for zstd dict".to_owned()));
    }
    let summed = sum_sizes(sizes);
    if summed != size {
        let a = decimal_usize(summed);
        let b = decimal_usize(size);
        let head = cat3(
            "zstd 2-pass dict: Src size is incorrect (sizes sum ",
            a.as_str(),
            ", buffer ",
        );
        return Err(Error::Ingest(cat3(head.as_str(), b.as_str(), ")")));
    }
    let most: usize = if size / 8 < 256 {
        256
    } else {
        size / 8
    };
    let max_size: usize = if dict_size < 256 {
        256
    } else if dict_size < most as u64 {
        dict_size as usize
    } else {
        most
    };
    match train(data, sizes, max_size) {
        Ok(d) => Ok(d),
        Err(e) => Err(Error::Ingest(cat("zstd 2-pass dict: ", e.as_str()))),
    }
}

/// The dictionary of a pass: none in one pass, a trained one in two.
pub fn dictionary_for_pass(data: &[u8], sizes: &[usize], dict_size: u64, two_pass: bool) -> (r:
    Result<Option<Vec<u8>>, Error>)
    requires
        total(sizes@) <= usize::MAX,
    ensures
        if two_pass {
            match r {
                Ok(Some(d)) => is_dictionary(data@, sizes@, dict_size, Ok(d)),
                Ok(None) => false,
                Err(e) => is_dictionary(data@, sizes@, dict_size, Err(e)),
            }
        } else {
            r matches Ok(d) && d is None
        },
{
    if !two_pass {
        return Ok(None);
    }
    match train_dict(data, sizes, dict_size) {
        Ok(d) => Ok(Some(d)),
        Err(e) => Err(e),
    }
}

/// What `zstd::bulk::compress` makes of bytes at a level, or its error
/// message.
pub uninterp spec fn zstd_packed(bytes: Seq<u8>, level: i32) -> Result<Seq<u8>, Seq<char>>;

/// Calls `zstd::bulk::compress`. The frame and the message of an error are
/// functions of the bytes and the level, and the frame decodes to the bytes.
#[verifier::external_body]
fn bulk_compress(bytes: &[u8], level: i32) -> (r: Result<Vec<u8>, String>)
    ensures
        match r {
            Ok(v) => zstd_packed(bytes@, level) == Ok::<Seq<u8>, Seq<char>>(v@) && zstd_decoded(v@)
                == Ok::<Seq<u8>, Seq<char>>(bytes@),
            Err(e) => zstd_packed(bytes@, level) == Err::<Seq<u8>, Seq<char>>(e@),
        },
{
    zstd::bulk::compress(bytes, level).map_err(|error| error.to_string())
}

/// `r` is what a frame holds, or an error where that does not fit.
pub open spec fn is_unpacked(
    r: Result<Vec<u8>, String>,
    held: Result<Seq<u8>, Seq<char>>,
    capacity: usize,
) -> bool {
    match r {
        Ok(v) => held matches Ok(d) ==> v@ == d,
        Err(_) => held matches Ok(d) ==> d.len() > capacity,
    }
}

/// Calls `zstd::bulk::decompress`. A frame decodes to what it holds, as long
/// as that fits in `capacity`; it is an error where it does not fit. No buffer
/// is larger than `isize::MAX`.
#[verifier::external_body]
fn bulk_decompress(bytes: &[u8], capacity: usize) -> (r: Result<Vec<u8>, String>)
    requires
        capacity <= isize::MAX,
    ensures
        is_unpacked(r, zstd_decoded(bytes@), capacity),
{
    zstd::bulk::decompress(bytes, capacity).map_err(|error| error.to_string())
}

/// Compresses and decompresses. What comes back is what went in, unless the
/// bytes cannot be compressed at this level.
pub fn zstd_roundtrip(bytes: &[u8], level: i32) -> (r: Result<Vec<u8>, Error>)
    requires
        bytes@.len() <= isize::MAX,
    ensures
        match r {
            Ok(v) => zstd_packed(bytes@, level) is Ok && v@ == bytes@,
            Err(Error::Ingest(m)) => zstd_packed(bytes@, level) matches Err(e) && m@
                == "zstd compress: "@ + e,
            Err(_) => false,
        },
{
    let compressed = match bulk_compress(bytes, level) {
        Ok(v) => v,
        Err(e) => {
            return Err(Error::Ingest(cat("zstd compress: ", e.as_str())));
        },
    };
    match bulk_decompress(compressed.as_slice(), bytes.len()) {
        Ok(v) => Ok(v),
        Err(e) => Err(Error::Ingest(cat("zstd decompress: ", e.as_str()))),
    }
}

/// Name of a temporary file of the bench.
pub open spec fn temp_text(stem: Seq<char>, level: int, dict_pass: int, ext: Seq<char>) -> Seq<
    char,
> {
    "tmp-"@ + stem + "-l"@ + decimal_int(level) + "-p"@ + decimal_int(dict_pass) + ext
}

/// Name of a temporary file of the bench.
pub fn temp_name(stem: &str, level: i32, dict_pass: u8, ext: &str) -> (r: String)
    ensures
        r@ == temp_text(stem@, level as int, dict_pass as int, ext@),
{
    let l = decimal_i64(level as i64);
    let p = decimal_i64(dict_pass as i64);
    let a = cat3("tmp-", stem, "-l");
    let b = cat3(a.as_str(), l.as_str(), "-p");
    cat3(b.as_str(), p.as_str(), ext)
}

/// Opening of the report.
pub open spec fn header_text(dir: Seq<char>, power: Seq<char>, inxi: Seq<char>) -> Seq<char> {
    "# memex zstd bench\n\n"@ + "- dir: `"@ + dir + "`\n"@ + "- power profile: "@ + power + "\n"@
        + "\n## garuda-inxi\n\n```\n"@ + inxi + "\n```\n"@
}

/// Opening of the report.
pub fn report_header(dir: &str, power_profile: &str, inxi: &str) -> (r: String)
    ensures
        r@ == header_text(dir@, power_profile@, inxi@),
{
    let a = cat3("# memex zstd bench\n\n", "- dir: `", dir);
    let b = cat3(a.as_str(), "`\n", "- power profile: ");
    let c = cat3(b.as_str(), power_profile, "\n");
    let d = cat3(c.as_str(), "\n## garuda-inxi\n\n```\n", inxi);
    cat(d.as_str(), "\n```\n")
}

/// One timed ingest.
#[derive(Clone, Copy, Debug, PartialEq, Eq, Structural)]
pub struct ReIngest {
    pub pass: u8,
    pub ms: u64,
    pub exports: usize,
    pub conversations: usize,
    pub source_count: usize,
}

/// A row of the table of timed ingests.
pub open spec fn re_ingest_text(row: ReIngest) -> Seq<char> {
    "| "@ + decimal(row.pass as nat) + " | "@ + decimal(row.ms as nat) + " | "@ + decimal(
        row.exports as nat,
    ) + " | "@ + decimal(row.conversations as nat) + " | "@ + decimal(row.source_count as nat)
        + " |\n"@
}

impl ReIngest {
    /// This row of the table.
    pub fn row(&self) -> (r: String)
        ensures
            r@ == re_ingest_text(*self),
    {
        let p = decimal_u64(self.pass as u64);
        let m = decimal_u64(self.ms);
        let e = decimal_usize(self.exports);
        let c = decimal_usize(self.conversations);
        let s = decimal_usize(self.source_count);
        let a = cat3("| ", p.as_str(), " | ");
        let b = cat3(a.as_str(), m.as_str(), " | ");
        let d = cat3(b.as_str(), e.as_str(), " | ");
        let f = cat3(d.as_str(), c.as_str(), " | ");
        cat3(f.as_str(), s.as_str(), " |\n")
    }
}

/// Heading of the table of timed ingests.
pub fn re_ingest_heading() -> (r: String)
    ensures
        r@ == "\n## re-ingest\n\n"@ + "| pass | ms | exports | conversations | sources |\n"@
            + "|------|----|---------|---------------|--------|\n"@,
{
    cat3(
        "\n## re-ingest\n\n",
        "| pass | ms | exports | conversations | sources |\n",
        "|------|----|---------|---------------|--------|\n",
    )
}

/// Heading of the table of levels.
pub fn levels_heading() -> (r: String)
    ensures
        r@ == "\n## levels\n\n"@
            + "| archive | level | dict_pass | uncompressed | compressed | ratio | dict | train_ms | compress_ms | decompress_ms | lizard | the |\n"@
            + "|---------|-------|-----------|--------------|------------|-------|------|----------|-------------|---------------|--------|-----|\n"@,
{
    cat3(
        "\n## levels\n\n",
        "| archive | level | dict_pass | uncompressed | compressed | ratio | dict | train_ms | compress_ms | decompress_ms | lizard | the |\n",
        "|---------|-------|-----------|--------------|------------|-------|------|----------|-------------|---------------|--------|-----|\n",
    )
}

/// One measured level.
#[derive(Debug)]
pub struct LevelRow {
    pub archive: String,
    pub level: i32,
    pub dict_pass: u8,
    pub uncompressed_bytes: u64,
    pub compressed_bytes: u64,
    /// The ratio with three decimals.
    pub ratio: String,
    pub dict_size: u64,
    pub train_ms: u64,
    pub compress_ms: u64,
    pub decompress_ms: u64,
    pub lizard_hits: usize,
    pub the_hits: usize,
}

/// A row of the table of levels.
pub open spec fn level_text(row: LevelRow) -> Seq<char> {
    "| `"@ + row.archive@ + "` | "@ + decimal_int(row.level as int) + " | "@ + decimal(
        row.dict_pass as nat,
    ) + " | "@ + decimal(row.uncompressed_bytes as nat) + " | "@ + decimal(
        row.compressed_bytes as nat,
    ) + " | "@ + row.ratio@ + " | "@ + decimal(row.dict_size as nat) + " | "@ + decimal(
        row.train_ms as nat,
    ) + " | "@ + decimal(row.compress_ms as nat) + " | "@ + decimal(row.decompress_ms as nat)
        + " | "@ + decimal(row.lizard_hits as nat) + " | "@ + decimal(row.the_hits as nat) + " |\n"@
}

impl LevelRow {
    /// This row of the table.
    pub fn row(&self) -> (r: String)
        ensures
            r@ == level_text(*self),
    {
        let mut out = cat3("| `", self.archive.as_str(), "` | ");
        let level = decimal_i64(self.level as i64);
        out.push_str(level.as_str());
        out.push_str(" | ");
        let pass = decimal_u64(self.dict_pass as u64);
        out.push_str(pass.as_str());
        out.push_str(" | ");
        let plain = decimal_u64(self.uncompressed_bytes);
        out.push_str(plain.as_str());
        out.push_str(" | ");
        let packed = decimal_u64(self.compressed_bytes);
        out.push_str(packed.as_str());
        out.push_str(" | ");
        out.push_str(self.ratio.as_str());
        out.push_str(" | ");
        let dict = decimal_u64(self.dict_size);
        out.push_str(dict.as_str());
        out.push_str(" | ");
        let train_ms = decimal_u64(self.train_ms);
        out.push_str(train_ms.as_str());
        out.push_str(" | ");
        let compress_ms = decimal_u64(self.compress_ms);
        out.push_str(compress_ms.as_str());
        out.push_str(" | ");
        let decompress_ms = decimal_u64(self.decompress_ms);
        out.push_str(decompress_ms.as_str());
        out.push_str(" | ");
        let lizard = decimal_usize(self.lizard_hits);
        out.push_str(lizard.as_str());
        out.push_str(" | ");
        let the = decimal_usize(self.the_hits);
        out.push_str(the.as_str());
        out.push_str(" |\n");
        out
    }
}

/// How a command that describes the machine ended.
#[derive(Debug)]
pub enum CommandOutcome {
    /// It succeeded with this output.
    Success(String),
    /// It failed with this error output.
    Failure(String),
    /// It did not start.
    Missing(String),
}

/// What the report says of a command.
pub open spec fn snapshot_text(cmd: Seq<char>, outcome: CommandOutcome) -> Seq<char> {
    match outcome {
        CommandOutcome::Success(out) => trim(out@),
        CommandOutcome::Failure(err) => cmd + " failed: "@ + trim(err@),
        CommandOutcome::Missing(err) => cmd + " not available: "@ + err@,
    }
}

/// What the report says of a command.
pub fn snapshot_cmd(cmd: &str, outcome: &CommandOutcome) -> (r: String)
    ensures
        r@ == snapshot_text(cmd@, *outcome),
{
    match outcome {
        CommandOutcome::Success(out) => trimmed(out.as_str()),
        CommandOutcome::Failure(err) => {
            let t = trimmed(err.as_str());
            cat3(cmd, " failed: ", t.as_str())
        },
        CommandOutcome::Missing(err) => cat3(cmd, " not available: ", err.as_str()),
    }
}

/// The size of a dictionary is a hundredth of the bytes, but never under 64
/// KiB or over 100 MiB.
pub proof fn law_dict_size(n: int)
    requires
        n >= 0,
    ensures
        65536 <= dict_size(n) <= 104857600,
        6553600 <= n <= 10485760000 ==> dict_size(n) == n / 100,
        n < 6553600 ==> dict_size(n) == 65536,
        n > 10485760000 ==> dict_size(n) == 104857600,
{
}

/// The samples of a dictionary take eight times its size, up to 256 MiB, and
/// the trained dictionary is no larger than an eighth of them.
pub proof fn law_samples(d: int, n: int)
    requires
        d >= 0,
        n >= 0,
    ensures
        1 <= d && 8 * d <= 268435456 ==> sample_budget(d) == 8 * d,
        8 * d > 268435456 ==> sample_budget(d) == 268435456,
        d == 0 ==> sample_budget(d) == 1,
        256 <= d && 256 <= n / 8 ==> max_dict(d, n) == if d < n / 8 {
            d
        } else {
            n / 8
        },
        n / 8 < 256 ==> max_dict(d, n) == 256,
        256 <= max_dict(d, n),
{
}

/// A bench reads the archives of the memex directory, in every folder but its
/// own.
pub proof fn law_bench_walk(stem: Seq<char>, ext: Seq<char>, name: Seq<char>)
    requires
        stem.len() > 0,
        !ext.contains('.'),
    ensures
        bench_step(stem + seq!['.'] + ext, EntryKind::File) == ListStep::Keep <==> same_ascii(
            ext,
            "archive"@,
        ) || same_ascii(ext, "majestic"@),
        bench_step(stem + seq!['.'] + ext, EntryKind::File) != ListStep::Descend,
        bench_step(name, EntryKind::Directory) == ListStep::Descend <==> name != "bench-zstd"@,
        bench_step(name, EntryKind::Directory) != ListStep::Keep,
        bench_step(name, EntryKind::Other) == ListStep::Skip,
{
    law_name_and_extension(stem, ext);
}

/// Where a bench writes: in `bench-zstd` of the memex directory.
pub proof fn law_bench_folder(home: Seq<char>, p: Seq<char>)
    ensures
        components(bench_root(home)) == components(home) + seq!["memex"@, "bench-zstd"@],
        or_path(Some(p), home) == p,
        or_path(None, home) == home,
{
    reveal_strlit("memex");
    reveal_strlit("bench-zstd");
    assert("memex"@.len() == 5 && "bench-zstd"@.len() == 10);
    law_joined_two(home, "memex"@, "bench-zstd"@);
}

} // verus!
