//! Layered user configuration of the `memex` command.
//!
//! Later layers win: the defaults here, then the TOML file, then `MEMEX_*`
//! environment variables, then the flags that the user passed. The caller
//! reads the layers. This module holds the defaults, the flags that overlay
//! them, tilde expansion and the rules for directories that a scan skips.
use vstd::prelude::*;

use crate::paths::{
    absolute, components, components_of, is_absolute, is_under, join_path, joined, law_joined_name,
    law_joined_two, normal_component, opt_str, opt_view, plain_name, under,
};
use crate::report::SearchFormat;
use crate::search::DEFAULT_SEARCH_MAX_COUNT;
use crate::text::{clone_strings, same_str, starts, starts_with, strip_start, views};
use crate::zip::MAX_UNCOMPRESSED;
use crate::zstd_file::COMPRESS_LEVEL;

verus! {

/// Directory levels below the home directory that a scan walks.
pub const HOME_SCAN_MAX_DEPTH: u32 = 8;

/// Home scan depth and directory skip lists.
#[derive(Debug, Clone)]
pub struct ScanConfig {
    /// Directory levels below the home directory.
    pub home_scan_max_depth: u32,
    /// Extra paths to skip: a prefix when absolute, consecutive components
    /// when relative.
    pub skip_directories: Vec<String>,
    /// Skip the system trash.
    pub skip_system_trash: bool,
}

/// Search flags. The pattern itself is not stored.
#[derive(Debug, Clone)]
pub struct SearchConfig {
    pub ignore_case: bool,
    pub fixed_strings: bool,
    pub word_regexp: bool,
    /// One archive. `None` means every archive.
    pub archive: Option<String>,
    /// Snippet groups printed. Zero means no cap.
    pub max_count: usize,
    pub format: SearchFormat,
}

/// Ingest paths. No inputs means a home scan.
#[derive(Debug, Clone)]
pub struct IngestConfig {
    pub output: Option<String>,
    pub inputs: Vec<String>,
}

/// Folder and file stem of an archive.
#[derive(Debug, Clone)]
pub struct ScopeConfig {
    pub service: Option<String>,
    pub account: Option<String>,
}

/// Archive of the stats command.
#[derive(Debug, Clone)]
pub struct StatsConfig {
    pub archive: Option<String>,
}

/// HTTP listen address.
#[derive(Debug, Clone)]
pub struct ServeConfig {
    pub bind: String,
}

/// Compression level. There is no dictionary.
#[derive(Debug, Clone, Copy, PartialEq, Eq, Structural)]
pub struct CompressConfig {
    pub level: i32,
}

/// Limit of zip ingest.
#[derive(Debug, Clone, Copy, PartialEq, Eq, Structural)]
pub struct ZipConfig {
    pub max_uncompressed_bytes: u64,
}

/// Terminal filter. The journal is always verbose.
#[derive(Debug, Clone)]
pub struct LogConfig {
    pub filter: String,
}

/// Worker count of ingest hashing.
#[derive(Debug, Clone, Copy, PartialEq, Eq, Structural)]
pub struct JobsConfig {
    pub rayon_threads: Option<usize>,
}

/// Paths and flags of the compression bench.
#[derive(Debug, Clone)]
pub struct BenchZstdConfig {
    pub dir: String,
    pub jsonl: String,
    pub report: String,
    pub re_ingest: bool,
}

/// Loaded options.
#[derive(Debug, Clone)]
pub struct Config {
    /// Archive directory.
    pub memex_dir: String,
    pub scan: ScanConfig,
    pub search: SearchConfig,
    pub ingest: IngestConfig,
    pub scope: ScopeConfig,
    pub stats: StatsConfig,
    pub serve: ServeConfig,
    pub compress: CompressConfig,
    pub zip: ZipConfig,
    pub log: LogConfig,
    pub jobs: JobsConfig,
    pub bench_zstd: BenchZstdConfig,
}

/// Flags that the user passed. `None` keeps the value of an earlier layer.
#[derive(Debug, Clone)]
pub struct CliOverlay {
    pub memex_dir: Option<String>,
    pub ignore_case: Option<bool>,
    pub fixed_strings: Option<bool>,
    pub word_regexp: Option<bool>,
    pub service: Option<String>,
    pub account: Option<String>,
    pub ingest_output: Option<String>,
    pub ingest_inputs: Option<Vec<String>>,
    pub search_archive: Option<String>,
    pub max_count: Option<usize>,
    pub search_format: Option<SearchFormat>,
    pub stats_archive: Option<String>,
    pub serve_bind: Option<String>,
    pub bench_zstd_dir: Option<String>,
    pub bench_zstd_jsonl: Option<String>,
    pub bench_zstd_report: Option<String>,
    pub bench_zstd_re_ingest: Option<bool>,
}

impl Default for CliOverlay {
    fn default() -> (r: CliOverlay)
        ensures
            no_flags(r),
    {
        CliOverlay {
            memex_dir: None,
            ignore_case: None,
            fixed_strings: None,
            word_regexp: None,
            service: None,
            account: None,
            ingest_output: None,
            ingest_inputs: None,
            search_archive: None,
            max_count: None,
            search_format: None,
            stats_archive: None,
            serve_bind: None,
            bench_zstd_dir: None,
            bench_zstd_jsonl: None,
            bench_zstd_report: None,
            bench_zstd_re_ingest: None,
        }
    }
}

/// The user passed no flag.
pub open spec fn no_flags(o: CliOverlay) -> bool {
    &&& o.memex_dir is None
    &&& o.ignore_case is None
    &&& o.fixed_strings is None
    &&& o.word_regexp is None
    &&& o.service is None
    &&& o.account is None
    &&& o.ingest_output is None
    &&& o.ingest_inputs is None
    &&& o.search_archive is None
    &&& o.max_count is None
    &&& o.search_format is None
    &&& o.stats_archive is None
    &&& o.serve_bind is None
    &&& o.bench_zstd_dir is None
    &&& o.bench_zstd_jsonl is None
    &&& o.bench_zstd_report is None
    &&& o.bench_zstd_re_ingest is None
}

impl Default for ScanConfig {
    fn default() -> (r: ScanConfig)
        ensures
            r.home_scan_max_depth == 8,
            r.skip_directories@.len() == 0,
            r.skip_system_trash,
    {
        ScanConfig {
            home_scan_max_depth: HOME_SCAN_MAX_DEPTH,
            skip_directories: Vec::new(),
            skip_system_trash: true,
        }
    }
}

impl Default for SearchConfig {
    fn default() -> (r: SearchConfig)
        ensures
            !r.ignore_case,
            !r.fixed_strings,
            !r.word_regexp,
            r.archive is None,
            r.max_count == 100,
            r.format == SearchFormat::Human,
    {
        SearchConfig {
            ignore_case: false,
            fixed_strings: false,
            word_regexp: false,
            archive: None,
            max_count: DEFAULT_SEARCH_MAX_COUNT,
            format: SearchFormat::Human,
        }
    }
}

impl Default for IngestConfig {
    fn default() -> (r: IngestConfig)
        ensures
            r.output is None,
            r.inputs@.len() == 0,
    {
        IngestConfig { output: None, inputs: Vec::new() }
    }
}

impl Default for ScopeConfig {
    fn default() -> (r: ScopeConfig)
        ensures
            r.service is None,
            r.account is None,
    {
        ScopeConfig { service: None, account: None }
    }
}

impl Default for StatsConfig {
    fn default() -> (r: StatsConfig)
        ensures
            r.archive is None,
    {
        StatsConfig { archive: None }
    }
}

impl Default for ServeConfig {
    fn default() -> (r: ServeConfig)
        ensures
            r.bind@ == "127.0.0.1:8741"@,
    {
        ServeConfig { bind: "127.0.0.1:8741".to_owned() }
    }
}

impl Default for CompressConfig {
    fn default() -> (r: CompressConfig)
        ensures
            r.level == 3,
    {
        CompressConfig { level: COMPRESS_LEVEL }
    }
}

impl Default for ZipConfig {
    fn default() -> (r: ZipConfig)
        ensures
            r.max_uncompressed_bytes == 8589934592,
    {
        ZipConfig { max_uncompressed_bytes: MAX_UNCOMPRESSED }
    }
}

impl Default for LogConfig {
    fn default() -> (r: LogConfig)
        ensures
            r.filter@ == "info"@,
    {
        LogConfig { filter: "info".to_owned() }
    }
}

impl Default for JobsConfig {
    fn default() -> (r: JobsConfig)
        ensures
            r.rayon_threads is None,
    {
        JobsConfig { rayon_threads: None }
    }
}

impl Default for BenchZstdConfig {
    fn default() -> (r: BenchZstdConfig)
        ensures
            r.dir@ == "~/memex"@,
            r.jsonl@ == "~/memex/bench-zstd/report.jsonl"@,
            r.report@ == "~/memex/bench-zstd/report.md"@,
            !r.re_ingest,
    {
        BenchZstdConfig {
            dir: "~/memex".to_owned(),
            jsonl: "~/memex/bench-zstd/report.jsonl".to_owned(),
            report: "~/memex/bench-zstd/report.md".to_owned(),
            re_ingest: false,
        }
    }
}

/// The options before any layer.
pub open spec fn is_default(c: Config) -> bool {
    &&& c.memex_dir@ == "~/memex"@
    &&& call_ensures(ScanConfig::default, (), c.scan)
    &&& call_ensures(SearchConfig::default, (), c.search)
    &&& call_ensures(IngestConfig::default, (), c.ingest)
    &&& call_ensures(ScopeConfig::default, (), c.scope)
    &&& call_ensures(StatsConfig::default, (), c.stats)
    &&& call_ensures(ServeConfig::default, (), c.serve)
    &&& call_ensures(CompressConfig::default, (), c.compress)
    &&& call_ensures(ZipConfig::default, (), c.zip)
    &&& call_ensures(LogConfig::default, (), c.log)
    &&& call_ensures(JobsConfig::default, (), c.jobs)
    &&& call_ensures(BenchZstdConfig::default, (), c.bench_zstd)
}

impl Default for Config {
    fn default() -> (r: Config)
        ensures
            is_default(r),
    {
        Config::crate_defaults()
    }
}

/// `path` with a leading `~` replaced by `home`. Other paths stay, `~user`
/// among them.
pub open spec fn expanded(path: Seq<char>, home: Seq<char>) -> Seq<char> {
    if path == seq!['~'] {
        home
    } else if starts(path, seq!['~', '/']) {
        joined(home, path.skip(2))
    } else {
        path
    }
}

/// Paths with their leading `~` replaced.
pub open spec fn all_expanded(paths: Seq<Seq<char>>, home: Seq<char>) -> Seq<Seq<char>> {
    Seq::new(paths.len(), |i: int| expanded(paths[i], home))
}

/// An optional path with its leading `~` replaced.
pub open spec fn opt_expanded(path: Option<Seq<char>>, home: Seq<char>) -> Option<Seq<char>> {
    match path {
        Some(p) => Some(expanded(p, home)),
        None => None,
    }
}

/// `path` with a leading `~` replaced by `home`.
pub fn expand_tilde(path: &str, home: &str) -> (r: String)
    ensures
        r@ == expanded(path@, home@),
{
    proof {
        reveal_strlit("~");
        reveal_strlit("~/");
        assert("~"@ =~= seq!['~']);
        assert("~/"@ =~= seq!['~', '/']);
    }
    if same_str(path, "~") {
        return home.to_owned();
    }
    match strip_start(path, "~/") {
        Some(rest) => join_path(home, rest.as_str()),
        None => path.to_owned(),
    }
}

/// Tilde expansion changes a path once: an expanded path stays, when the
/// home directory itself has no leading `~`.
pub proof fn law_expanding_twice(path: Seq<char>, home: Seq<char>)
    requires
        absolute(home),
    ensures
        expanded(expanded(path, home), home) == expanded(path, home),
{
    let e = expanded(path, home);
    if path == seq!['~'] {
        assert(e[0] == '/');
    } else if starts(path, seq!['~', '/']) {
        let rest = path.skip(2);
        if absolute(rest) {
            assert(e[0] == '/');
        } else {
            assert(e[0] == home[0]);
        }
    }
    if e[0] == '/' && e.len() > 0 {
        assert(e != seq!['~']);
        assert(!starts(e, seq!['~', '/'])) by {
            if starts(e, seq!['~', '/']) {
                assert(e.take(2)[0] == '~');
            }
        }
    }
}

fn expand_all(paths: &Vec<String>, home: &str) -> (r: Vec<String>)
    ensures
        views(r@) == all_expanded(views(paths@), home@),
{
    let mut out: Vec<String> = Vec::new();
    let mut i: usize = 0;
    while i < paths.len()
        invariant
            i <= paths@.len(),
            out@.len() == i,
            forall|k: int| 0 <= k < i ==> (#[trigger] out@[k])@ == expanded(paths@[k]@, home@),
        decreases paths.len() - i,
    {
        out.push(expand_tilde(paths[i].as_str(), home));
        i = i + 1;
    }
    proof {
        assert(views(out@) =~= all_expanded(views(paths@), home@));
    }
    out
}

fn expand_opt(path: &Option<String>, home: &str) -> (r: Option<String>)
    ensures
        opt_view(r) == opt_expanded(opt_view(*path), home@),
{
    match path {
        Some(p) => Some(expand_tilde(p.as_str(), home)),
        None => None,
    }
}

/// A passed value, else the value that was there.
pub open spec fn over<A>(passed: Option<A>, there: A) -> A {
    match passed {
        Some(v) => v,
        None => there,
    }
}

/// A passed value, else the optional value that was there.
pub open spec fn over_opt<A>(passed: Option<A>, there: Option<A>) -> Option<A> {
    match passed {
        Some(v) => Some(v),
        None => there,
    }
}

fn over_string(passed: &Option<String>, there: &String) -> (r: String)
    ensures
        r@ == over(opt_view(*passed), there@),
{
    match passed {
        Some(v) => v.clone(),
        None => there.clone(),
    }
}

fn over_path(passed: &Option<String>, there: &Option<String>) -> (r: Option<String>)
    ensures
        opt_view(r) == over_opt(opt_view(*passed), opt_view(*there)),
{
    match passed {
        Some(v) => Some(v.clone()),
        None => crate::search::copied_opt(there),
    }
}

fn over_bool(passed: Option<bool>, there: bool) -> (r: bool)
    ensures
        r == over(passed, there),
{
    match passed {
        Some(v) => v,
        None => there,
    }
}

/// `now` is `was` with the search flags of `o` on top.
pub open spec fn search_overlaid(was: SearchConfig, o: CliOverlay, now: SearchConfig) -> bool {
    &&& now.ignore_case == over(o.ignore_case, was.ignore_case)
    &&& now.fixed_strings == over(o.fixed_strings, was.fixed_strings)
    &&& now.word_regexp == over(o.word_regexp, was.word_regexp)
    &&& opt_view(now.archive) == over_opt(opt_view(o.search_archive), opt_view(was.archive))
    &&& now.max_count == over(o.max_count, was.max_count)
    &&& now.format == over(o.search_format, was.format)
}

fn over_search(was: &SearchConfig, o: &CliOverlay) -> (r: SearchConfig)
    ensures
        search_overlaid(*was, *o, r),
{
    SearchConfig {
        ignore_case: over_bool(o.ignore_case, was.ignore_case),
        fixed_strings: over_bool(o.fixed_strings, was.fixed_strings),
        word_regexp: over_bool(o.word_regexp, was.word_regexp),
        archive: over_path(&o.search_archive, &was.archive),
        max_count: match o.max_count {
            Some(v) => v,
            None => was.max_count,
        },
        format: match o.search_format {
            Some(v) => v,
            None => was.format,
        },
    }
}

/// `now` is `was` with the bench flags of `o` on top.
pub open spec fn bench_overlaid(was: BenchZstdConfig, o: CliOverlay, now: BenchZstdConfig) -> bool {
    &&& now.dir@ == over(opt_view(o.bench_zstd_dir), was.dir@)
    &&& now.jsonl@ == over(opt_view(o.bench_zstd_jsonl), was.jsonl@)
    &&& now.report@ == over(opt_view(o.bench_zstd_report), was.report@)
    &&& now.re_ingest == over(o.bench_zstd_re_ingest, was.re_ingest)
}

fn over_bench(was: &BenchZstdConfig, o: &CliOverlay) -> (r: BenchZstdConfig)
    ensures
        bench_overlaid(*was, *o, r),
{
    BenchZstdConfig {
        dir: over_string(&o.bench_zstd_dir, &was.dir),
        jsonl: over_string(&o.bench_zstd_jsonl, &was.jsonl),
        report: over_string(&o.bench_zstd_report, &was.report),
        re_ingest: over_bool(o.bench_zstd_re_ingest, was.re_ingest),
    }
}

/// `now` is `was` with a leading `~` in its paths expanded. Nothing else
/// differs.
pub open spec fn config_expanded(was: Config, home: Seq<char>, now: Config) -> bool {
    &&& now.memex_dir@ == expanded(was.memex_dir@, home)
    &&& views(now.scan.skip_directories@) == all_expanded(views(was.scan.skip_directories@), home)
    &&& now.scan.home_scan_max_depth == was.scan.home_scan_max_depth
    &&& now.scan.skip_system_trash == was.scan.skip_system_trash
    &&& opt_view(now.ingest.output) == opt_expanded(opt_view(was.ingest.output), home)
    &&& views(now.ingest.inputs@) == all_expanded(views(was.ingest.inputs@), home)
    &&& opt_view(now.search.archive) == opt_expanded(opt_view(was.search.archive), home)
    &&& now.search.ignore_case == was.search.ignore_case
    &&& now.search.fixed_strings == was.search.fixed_strings
    &&& now.search.word_regexp == was.search.word_regexp
    &&& now.search.max_count == was.search.max_count
    &&& now.search.format == was.search.format
    &&& opt_view(now.stats.archive) == opt_expanded(opt_view(was.stats.archive), home)
    &&& now.bench_zstd.dir@ == expanded(was.bench_zstd.dir@, home)
    &&& now.bench_zstd.jsonl@ == expanded(was.bench_zstd.jsonl@, home)
    &&& now.bench_zstd.report@ == expanded(was.bench_zstd.report@, home)
    &&& now.bench_zstd.re_ingest == was.bench_zstd.re_ingest
    &&& now.scope == was.scope
    &&& now.serve == was.serve
    &&& now.compress == was.compress
    &&& now.zip == was.zip
    &&& now.log == was.log
    &&& now.jobs == was.jobs
}

impl Config {
    /// The options before any layer. No extra directory is skipped. The
    /// system trash is.
    pub fn crate_defaults() -> (r: Config)
        ensures
            is_default(r),
    {
        Config {
            memex_dir: "~/memex".to_owned(),
            scan: ScanConfig::default(),
            search: SearchConfig::default(),
            ingest: IngestConfig::default(),
            scope: ScopeConfig::default(),
            stats: StatsConfig::default(),
            serve: ServeConfig::default(),
            compress: CompressConfig::default(),
            zip: ZipConfig::default(),
            log: LogConfig::default(),
            jobs: JobsConfig::default(),
            bench_zstd: BenchZstdConfig::default(),
        }
    }

    /// Expands a leading `~` in the paths.
    pub fn expand_tildes(&mut self, home: &str)
        ensures
            config_expanded(*old(self), home@, *final(self)),
    {
        self.memex_dir = expand_tilde(self.memex_dir.as_str(), home);
        self.scan.skip_directories = expand_all(&self.scan.skip_directories, home);
        self.ingest.output = expand_opt(&self.ingest.output, home);
        self.ingest.inputs = expand_all(&self.ingest.inputs, home);
        self.search.archive = expand_opt(&self.search.archive, home);
        self.stats.archive = expand_opt(&self.stats.archive, home);
        self.bench_zstd.dir = expand_tilde(self.bench_zstd.dir.as_str(), home);
        self.bench_zstd.jsonl = expand_tilde(self.bench_zstd.jsonl.as_str(), home);
        self.bench_zstd.report = expand_tilde(self.bench_zstd.report.as_str(), home);
    }

    /// Applies the flags that the user passed.
    pub fn overlay_cli(&mut self, overlay: &CliOverlay)
        ensures
            overlaid(*old(self), *overlay, *final(self)),
    {
        self.memex_dir = over_string(&overlay.memex_dir, &self.memex_dir);
        self.search = over_search(&self.search, overlay);
        self.scope = ScopeConfig {
            service: over_path(&overlay.service, &self.scope.service),
            account: over_path(&overlay.account, &self.scope.account),
        };
        self.ingest.output = over_path(&overlay.ingest_output, &self.ingest.output);
        match &overlay.ingest_inputs {
            Some(v) => {
                self.ingest.inputs = clone_strings(v);
            },
            None => {},
        }
        self.stats.archive = over_path(&overlay.stats_archive, &self.stats.archive);
        self.serve.bind = over_string(&overlay.serve_bind, &self.serve.bind);
        self.bench_zstd = over_bench(&self.bench_zstd, overlay);
    }

    /// Whether a scan skips a directory: the system trash, unless that rule
    /// is off, and the extra directories. `xdg_data_home` is the data
    /// directory, by default `.local/share` in the home directory.
    pub fn skips_directory(&self, path: &str, home: &str, xdg_data_home: Option<&str>) -> (r: bool)
        ensures
            r == skips(*self, path@, home@, opt_str(xdg_data_home)),
    {
        if self.scan.skip_system_trash && is_system_trash_path(path, home, xdg_data_home) {
            return true;
        }
        let mut i: usize = 0;
        while i < self.scan.skip_directories.len()
            invariant
                i <= self.scan.skip_directories@.len(),
                !(self.scan.skip_system_trash && system_trash(
                    path@,
                    home@,
                    opt_str(xdg_data_home),
                )),
                forall|k: int|
                    0 <= k < i ==> !matches_skip(
                        path@,
                        (#[trigger] self.scan.skip_directories@[k])@,
                    ),
            decreases self.scan.skip_directories.len() - i,
        {
            if path_matches_skip(path, self.scan.skip_directories[i].as_str()) {
                return true;
            }
            i = i + 1;
        }
        false
    }
}

/// `now` is `was` with the flags of `o` on top.
pub open spec fn overlaid(was: Config, o: CliOverlay, now: Config) -> bool {
    &&& now.memex_dir@ == over(opt_view(o.memex_dir), was.memex_dir@)
    &&& now.scan == was.scan
    &&& search_overlaid(was.search, o, now.search)
    &&& opt_view(now.ingest.output) == over_opt(
        opt_view(o.ingest_output),
        opt_view(was.ingest.output),
    )
    &&& now.ingest.inputs@ == (match o.ingest_inputs {
        Some(v) => v@,
        None => was.ingest.inputs@,
    })
    &&& opt_view(now.scope.service) == over_opt(opt_view(o.service), opt_view(was.scope.service))
    &&& opt_view(now.scope.account) == over_opt(opt_view(o.account), opt_view(was.scope.account))
    &&& opt_view(now.stats.archive) == over_opt(
        opt_view(o.stats_archive),
        opt_view(was.stats.archive),
    )
    &&& now.serve.bind@ == over(opt_view(o.serve_bind), was.serve.bind@)
    &&& now.compress == was.compress
    &&& now.zip == was.zip
    &&& now.log == was.log
    &&& now.jobs == was.jobs
    &&& bench_overlaid(was.bench_zstd, o, now.bench_zstd)
}

/// Flags that were not passed change nothing.
pub proof fn law_no_flag_changes_nothing(was: Config, o: CliOverlay, now: Config)
    requires
        overlaid(was, o, now),
        no_flags(o),
    ensures
        now.memex_dir@ == was.memex_dir@,
        now.scan == was.scan,
        now.search.ignore_case == was.search.ignore_case,
        now.search.fixed_strings == was.search.fixed_strings,
        now.search.word_regexp == was.search.word_regexp,
        opt_view(now.search.archive) == opt_view(was.search.archive),
        now.search.max_count == was.search.max_count,
        now.search.format == was.search.format,
        opt_view(now.ingest.output) == opt_view(was.ingest.output),
        now.ingest.inputs@ == was.ingest.inputs@,
        opt_view(now.scope.service) == opt_view(was.scope.service),
        opt_view(now.scope.account) == opt_view(was.scope.account),
        opt_view(now.stats.archive) == opt_view(was.stats.archive),
        now.serve.bind@ == was.serve.bind@,
        now.compress == was.compress,
        now.zip == was.zip,
        now.log == was.log,
        now.jobs == was.jobs,
        now.bench_zstd.dir@ == was.bench_zstd.dir@,
        now.bench_zstd.jsonl@ == was.bench_zstd.jsonl@,
        now.bench_zstd.report@ == was.bench_zstd.report@,
        now.bench_zstd.re_ingest == was.bench_zstd.re_ingest,
{
}

/// A directory name of a trash can.
pub open spec fn trash_name(name: Seq<char>) -> bool {
    normal_component(name) && (name == ".Trash"@ || starts(name, ".Trash-"@))
}

/// The XDG trash directory.
pub open spec fn xdg_trash(home: Seq<char>, xdg_data_home: Option<Seq<char>>) -> Seq<char> {
    let data = match xdg_data_home {
        Some(d) => d,
        None => joined(joined(home, ".local"@), "share"@),
    };
    joined(data, "Trash"@)
}

/// A path in the system trash.
pub open spec fn system_trash(
    path: Seq<char>,
    home: Seq<char>,
    xdg_data_home: Option<Seq<char>>,
) -> bool {
    ||| under(path, xdg_trash(home, xdg_data_home))
    ||| under(path, joined(home, ".Trash"@))
    ||| exists|i: int|
        0 <= i < components(path).len() && trash_name(#[trigger] components(path)[i])
}

/// The components `part` stand in `all`, next to each other.
pub open spec fn run_of(all: Seq<Seq<char>>, part: Seq<Seq<char>>) -> bool {
    exists|i: int|
        0 <= i <= all.len() - part.len() && #[trigger] all.subrange(i, i + part.len()) == part
}

/// A path that an extra skip directory covers.
pub open spec fn matches_skip(path: Seq<char>, skip: Seq<char>) -> bool {
    if skip.len() == 0 {
        false
    } else if absolute(skip) {
        under(path, skip)
    } else {
        components(skip).len() > 0 && run_of(components(path), components(skip))
    }
}

/// A directory that a scan skips by configuration.
pub open spec fn skips(
    c: Config,
    path: Seq<char>,
    home: Seq<char>,
    xdg_data_home: Option<Seq<char>>,
) -> bool {
    ||| c.scan.skip_system_trash && system_trash(path, home, xdg_data_home)
    ||| exists|i: int|
        0 <= i < c.scan.skip_directories@.len() && matches_skip(
            path,
            (#[trigger] c.scan.skip_directories@[i])@,
        )
}

fn is_trash_name(name: &str) -> (r: bool)
    ensures
        r == trash_name(name@),
{
    proof {
        reveal_strlit(".Trash");
        reveal_strlit(".Trash-");
        assert(".Trash"@.len() == 6);
        if starts(name@, ".Trash-"@) {
            assert(name@.len() >= 7);
        }
    }
    same_str(name, ".Trash") || starts_with(name, ".Trash-")
}

fn is_system_trash_path(path: &str, home: &str, xdg_data_home: Option<&str>) -> (r: bool)
    ensures
        r == system_trash(path@, home@, opt_str(xdg_data_home)),
{
    let data = match xdg_data_home {
        Some(d) => d.to_owned(),
        None => {
            let local = join_path(home, ".local");
            join_path(local.as_str(), "share")
        },
    };
    let xdg = join_path(data.as_str(), "Trash");
    if is_under(path, xdg.as_str()) {
        return true;
    }
    let user = join_path(home, ".Trash");
    if is_under(path, user.as_str()) {
        return true;
    }
    let all = components_of(path);
    let mut i: usize = 0;
    while i < all.len()
        invariant
            i <= all@.len(),
            views(all@) == components(path@),
            !under(path@, xdg_trash(home@, opt_str(xdg_data_home))),
            !under(path@, joined(home@, ".Trash"@)),
            forall|k: int| 0 <= k < i ==> !trash_name(#[trigger] components(path@)[k]),
        decreases all.len() - i,
    {
        proof {
            assert(views(all@)[i as int] == all@[i as int]@);
        }
        if is_trash_name(all[i].as_str()) {
            return true;
        }
        i = i + 1;
    }
    proof {
        assert(views(all@).len() == all@.len());
    }
    false
}

/// Whether the components of `part` stand in `all` from position `at` on.
fn run_at(all: &Vec<String>, part: &Vec<String>, at: usize) -> (r: bool)
    requires
        at + part@.len() <= all@.len(),
    ensures
        r == (views(all@).subrange(at as int, at + part@.len()) == views(part@)),
{
    let mut k: usize = 0;
    let size: usize = all.len();
    while k < part.len()
        invariant
            k <= part@.len(),
            size == all@.len(),
            at + part@.len() <= size,
            forall|m: int| 0 <= m < k ==> (#[trigger] all@[at + m])@ == part@[m]@,
        decreases part.len() - k,
    {
        if !same_str(all[at + k].as_str(), part[k].as_str()) {
            proof {
                let w = views(all@).subrange(at as int, at + part@.len());
                assert(w[k as int] == all@[at + k]@);
                assert(views(part@)[k as int] == part@[k as int]@);
            }
            return false;
        }
        k = k + 1;
    }
    proof {
        let w = views(all@).subrange(at as int, at + part@.len());
        assert forall|m: int| 0 <= m < part@.len() implies w[m] == #[trigger] views(part@)[m] by {
            assert(all@[at + m]@ == part@[m]@);
        }
        assert(w =~= views(part@));
    }
    true
}

fn path_matches_skip(path: &str, skip: &str) -> (r: bool)
    ensures
        r == matches_skip(path@, skip@),
{
    if skip.to_owned().is_empty() {
        return false;
    }
    if is_absolute(skip) {
        return is_under(path, skip);
    }
    let part = components_of(skip);
    let all = components_of(path);
    proof {
        assert(views(part@).len() == part@.len());
        assert(views(all@).len() == all@.len());
    }
    if part.len() == 0 || all.len() < part.len() {
        return false;
    }
    let last: usize = all.len() - part.len();
    let mut at: usize = 0;
    while at <= last
        invariant
            at <= last + 1,
            last == all@.len() - part@.len(),
            all@.len() == all.len(),
            part@.len() > 0,
            views(part@) == components(skip@),
            views(all@) == components(path@),
            skip@.len() > 0,
            !absolute(skip@),
            forall|k: int|
                0 <= k < at ==> #[trigger] components(path@).subrange(k, k + components(skip@).len())
                    != components(skip@),
        decreases last + 1 - at,
    {
        if run_at(&all, &part, at) {
            proof {
                assert(views(part@).len() == part@.len());
                let k = at as int;
                assert(components(path@).subrange(k, k + components(skip@).len()) == components(
                    skip@,
                ));
            }
            return true;
        }
        proof {
            assert(views(part@).len() == part@.len());
        }
        at = at + 1;
    }
    false
}

/// A variable that is set and not empty.
pub open spec fn given(var: Option<Seq<char>>) -> Option<Seq<char>> {
    match var {
        Some(v) if v.len() > 0 => Some(v),
        _ => None,
    }
}

fn given_string(var: Option<&str>) -> (r: Option<String>)
    ensures
        opt_view(r) == given(opt_str(var)),
{
    match var {
        Some(v) => {
            let s = v.to_owned();
            if s.is_empty() {
                None
            } else {
                Some(s)
            }
        },
        None => None,
    }
}

/// The configuration file: the one that a variable names, else
/// `majestic/memex.toml` in the configuration directory.
pub open spec fn config_path(
    memex_config: Option<Seq<char>>,
    config_home: Option<Seq<char>>,
    home: Option<Seq<char>>,
) -> Seq<char> {
    match (given(memex_config), given(home)) {
        (Some(path), Some(h)) => expanded(path, h),
        (Some(path), None) => path,
        (None, h) => {
            let dir = match (given(config_home), h) {
                (Some(c), _) => c,
                (None, Some(h)) => joined(h, ".config"@),
                (None, None) => ".config"@,
            };
            joined(joined(dir, "majestic"@), "memex.toml"@)
        },
    }
}

/// The configuration file, from the variables that decide. Empty variables
/// count as unset.
pub fn config_file_path_from(
    memex_config: Option<&str>,
    xdg_config_home: Option<&str>,
    home: Option<&str>,
) -> (r: String)
    ensures
        r@ == config_path(opt_str(memex_config), opt_str(xdg_config_home), opt_str(home)),
{
    let home = given_string(home);
    match given_string(memex_config) {
        Some(path) => match home {
            Some(h) => expand_tilde(path.as_str(), h.as_str()),
            None => path,
        },
        None => {
            let dir = match given_string(xdg_config_home) {
                Some(c) => c,
                None => match home {
                    Some(h) => join_path(h.as_str(), ".config"),
                    None => ".config".to_owned(),
                },
            };
            let crate_dir = join_path(dir.as_str(), "majestic");
            join_path(crate_dir.as_str(), "memex.toml")
        },
    }
}

/// A leading `~` stands for the home directory, alone or before a slash. Any
/// other path stays as it is.
pub proof fn law_tilde(rest: Seq<char>, home: Seq<char>)
    ensures
        expanded(seq!['~'], home) == home,
        expanded(seq!['~', '/'] + rest, home) == joined(home, rest),
        rest.len() == 0 || rest[0] != '~' ==> expanded(rest, home) == rest,
        rest.len() > 1 && rest[0] == '~' && rest[1] != '/' ==> expanded(rest, home) == rest,
{
    let lead = seq!['~', '/'];
    let s = lead + rest;
    assert(s.take(2) =~= lead);
    assert(s.skip(2) =~= rest);
    assert(s.len() != seq!['~'].len());
    if starts(rest, lead) {
        assert(rest.take(2)[0] == rest[0] && rest.take(2)[1] == rest[1]);
    }
}

/// A flag that was passed wins over the file.
pub proof fn law_flags_win(was: Config, o: CliOverlay, now: Config)
    requires
        overlaid(was, o, now),
    ensures
        o.memex_dir is Some ==> now.memex_dir@ == o.memex_dir->0@,
        o.ignore_case is Some ==> now.search.ignore_case == o.ignore_case->0,
        o.fixed_strings is Some ==> now.search.fixed_strings == o.fixed_strings->0,
        o.word_regexp is Some ==> now.search.word_regexp == o.word_regexp->0,
        o.search_archive is Some ==> opt_view(now.search.archive) == opt_view(o.search_archive),
        o.max_count is Some ==> now.search.max_count == o.max_count->0,
        o.search_format is Some ==> now.search.format == o.search_format->0,
        o.ingest_output is Some ==> opt_view(now.ingest.output) == opt_view(o.ingest_output),
        o.ingest_inputs is Some ==> now.ingest.inputs@ == o.ingest_inputs->0@,
        o.service is Some ==> opt_view(now.scope.service) == opt_view(o.service),
        o.account is Some ==> opt_view(now.scope.account) == opt_view(o.account),
        o.stats_archive is Some ==> opt_view(now.stats.archive) == opt_view(o.stats_archive),
        o.serve_bind is Some ==> now.serve.bind@ == o.serve_bind->0@,
        o.bench_zstd_dir is Some ==> now.bench_zstd.dir@ == o.bench_zstd_dir->0@,
        o.bench_zstd_jsonl is Some ==> now.bench_zstd.jsonl@ == o.bench_zstd_jsonl->0@,
        o.bench_zstd_report is Some ==> now.bench_zstd.report@ == o.bench_zstd_report->0@,
        o.bench_zstd_re_ingest is Some ==> now.bench_zstd.re_ingest == o.bench_zstd_re_ingest->0,
{
}

/// Without a file and without flags these are the settings.
pub proof fn law_defaults(c: Config)
    requires
        is_default(c),
    ensures
        c.memex_dir@ == "~/memex"@,
        c.scan.home_scan_max_depth == 8,
        c.scan.skip_directories@.len() == 0,
        c.scan.skip_system_trash,
        !c.search.ignore_case && !c.search.fixed_strings && !c.search.word_regexp,
        c.search.archive is None,
        c.search.max_count == 100,
        c.search.format == SearchFormat::Human,
        c.ingest.output is None && c.ingest.inputs@.len() == 0,
        c.scope.service is None && c.scope.account is None,
        c.stats.archive is None,
        c.serve.bind@ == "127.0.0.1:8741"@,
        c.compress.level == 3,
        c.zip.max_uncompressed_bytes == 8589934592,
        c.log.filter@ == "info"@,
        c.jobs.rayon_threads is None,
        c.bench_zstd.dir@ == "~/memex"@,
        c.bench_zstd.jsonl@ == "~/memex/bench-zstd/report.jsonl"@,
        c.bench_zstd.report@ == "~/memex/bench-zstd/report.md"@,
        !c.bench_zstd.re_ingest,
{
}

/// A path that lies in the trash: below a component `.Trash` or `.Trash-` and
/// more, or below `Trash` in the data directory.
pub proof fn law_trash(c: Config, path: Seq<char>, home: Seq<char>, xdg: Option<Seq<char>>, k: int)
    requires
        c.scan.skip_system_trash,
    ensures
        0 <= k < components(path).len() && components(path)[k] == ".Trash"@ ==> skips(
            c,
            path,
            home,
            xdg,
        ),
        0 <= k < components(path).len() && ".Trash-"@.is_prefix_of(components(path)[k]) ==> skips(
            c,
            path,
            home,
            xdg,
        ),
        xdg is None && (components(home) + seq![".local"@, "share"@, "Trash"@]).is_prefix_of(
            components(path),
        ) ==> skips(c, path, home, xdg),
        xdg is Some && (components(xdg->0) + seq!["Trash"@]).is_prefix_of(components(path))
            ==> skips(c, path, home, xdg),
{
    reveal_strlit(".Trash");
    reveal_strlit(".Trash-");
    reveal_strlit(".local");
    reveal_strlit("share");
    reveal_strlit("Trash");
    assert(".Trash"@.len() == 6 && ".local"@.len() == 6 && ".Trash-"@.len() == 7);
    assert(plain_name(".local"@) && plain_name("share"@) && plain_name("Trash"@));
    if 0 <= k < components(path).len() {
        let name = components(path)[k];
        if ".Trash-"@.is_prefix_of(name) {
            assert(name.len() >= 7);
            assert(trash_name(components(path)[k]));
        }
        if name == ".Trash"@ {
            assert(trash_name(components(path)[k]));
        }
    }
    let share = joined(joined(home, ".local"@), "share"@);
    law_joined_two(home, ".local"@, "share"@);
    law_joined_name(share, "Trash"@);
    assert(components(home) + seq![".local"@, "share"@, "Trash"@] =~= (components(home) + seq![
        ".local"@,
        "share"@,
    ]).push("Trash"@));
    if xdg is Some {
        law_joined_name(xdg->0, "Trash"@);
        assert(components(xdg->0) + seq!["Trash"@] =~= components(xdg->0).push("Trash"@));
    }
}

/// What the configuration skips besides: what lies below an absolute skip
/// directory, and what has the parts of a relative one in a row. With no such
/// directory and no trash rule nothing is skipped.
pub proof fn law_skip_directories(
    c: Config,
    path: Seq<char>,
    home: Seq<char>,
    xdg: Option<Seq<char>>,
    i: int,
    k: int,
)
    requires
        0 <= i < c.scan.skip_directories@.len(),
        c.scan.skip_directories@[i]@.len() > 0,
    ensures
        ({
            let skip = c.scan.skip_directories@[i]@;
            let (all, part) = (components(path), components(skip));
            &&& skip[0] == '/' && part.is_prefix_of(all) ==> skips(c, path, home, xdg)
            &&& skip[0] != '/' && part.len() > 0 && 0 <= k <= all.len() - part.len() && all.subrange(
                k,
                k + part.len(),
            ) == part ==> skips(c, path, home, xdg)
            &&& c.scan.skip_directories@.len() == 1 && !c.scan.skip_system_trash && skip[0] == '/'
                && !part.is_prefix_of(all) ==> !skips(c, path, home, xdg)
            &&& c.scan.skip_directories@.len() == 1 && !c.scan.skip_system_trash && skip[0] != '/'
                && (forall|m: int|
                0 <= m <= all.len() - part.len() ==> #[trigger] all.subrange(m, m + part.len())
                    != part) ==> !skips(c, path, home, xdg)
        }),
{
    let skip = c.scan.skip_directories@[i]@;
    let (all, part) = (components(path), components(skip));
    if skip[0] != '/' && 0 <= k <= all.len() - part.len() {
        assert(all.subrange(k, k + part.len()) == all.subrange(k, k + part.len()));
    }
    if c.scan.skip_directories@.len() == 1 {
        assert forall|m: int| 0 <= m < c.scan.skip_directories@.len() implies (
        #[trigger] c.scan.skip_directories@[m])@ == skip by {
            assert(m == i);
        }
    }
}

/// With no skip directory and without the trash rule nothing is skipped.
pub proof fn law_nothing_configured(
    c: Config,
    path: Seq<char>,
    home: Seq<char>,
    xdg: Option<Seq<char>>,
)
    requires
        c.scan.skip_directories@.len() == 0,
        !c.scan.skip_system_trash,
    ensures
        !skips(c, path, home, xdg),
{
}

/// Where the settings are read from: the file that is named, else
/// `majestic/memex.toml` in the configuration directory.
pub proof fn law_config_path(file: Seq<char>, dir: Seq<char>, home: Seq<char>)
    requires
        file.len() > 0 && file[0] != '~',
        dir.len() > 0,
        home.len() > 0,
    ensures
        config_path(Some(file), Some(dir), Some(home)) == file,
        config_path(Some(file), None, None) == file,
        components(config_path(None, Some(dir), Some(home))) == components(dir) + seq![
            "majestic"@,
            "memex.toml"@,
        ],
        components(config_path(None, None, Some(home))) == components(home) + seq![
            ".config"@,
            "majestic"@,
            "memex.toml"@,
        ],
        config_path(Some(Seq::empty()), Some(dir), Some(home)) == config_path(
            None,
            Some(dir),
            Some(home),
        ),
{
    law_tilde(file, home);
    reveal_strlit(".config");
    reveal_strlit("majestic");
    reveal_strlit("memex.toml");
    assert(".config"@.len() == 7 && "majestic"@.len() == 8 && "memex.toml"@.len() == 10);
    law_joined_two(dir, "majestic"@, "memex.toml"@);
    law_joined_name(home, ".config"@);
    law_joined_two(joined(home, ".config"@), "majestic"@, "memex.toml"@);
    assert(components(home).push(".config"@) + seq!["majestic"@, "memex.toml"@] =~= components(home)
        + seq![".config"@, "majestic"@, "memex.toml"@]);
}

} // verus!
