//! The logging policy: which filter the operational log file and the console
//! get, the startup banner, and the decisions around the daily log files.
use vstd::prelude::*;
use vstd::string::*;
use crate::runtime::filter::{
    check_parser_cuts_safely, env_filter_try_new, env_filter_verdict, lemma_no_lead_safe,
    parser_cuts_safely, starts_directive, LogFilter,
};
use crate::text::{
    ascii_lower, center, centered, eq_ignore_ascii_case, is_whitespace, starts_with,
    str_eq_ignore_ascii_case, str_starts_with, trim, trim_str,
};

verus! {

/// Tracing target for messages intended for an interactive console.
pub const TARGET_CONSOLE: &'static str = "console";

/// The console filter at the default level: warnings, plus milestones and detections.
pub const DEFAULT_CONSOLE_FILTER: &'static str = "warn,console=info,engine=info,response=info";

/// The file filter when neither the custom filter nor the level parses.
pub const FALLBACK_FILE_FILTER: &'static str = "info";

/// Width of the text inside the startup banner's frame.
pub const STARTUP_BANNER_INNER_WIDTH: usize = 49;

pub const BANNER_TOP: &'static str = "╔═══════════════════════════════════════════════════╗";

pub const BANNER_BOTTOM: &'static str = "╚═══════════════════════════════════════════════════╝";

pub const BANNER_TAGLINE: &'static str = "High-Performance Endpoint Detection Agent";

/// Permissions of a log directory: owner only.
pub const LOG_DIRECTORY_MODE: u32 = 0o700;

/// Permissions of a log file: owner read and write.
pub const LOG_FILE_MODE: u32 = 0o600;

/// Directory, under the system's temporary directory, used when the configured
/// log directory cannot be used.
pub const FALLBACK_LOG_DIRECTORY: &'static str = "rustinel-logs";

/// The logging settings that the filters are built from.
#[derive(Clone, Debug)]
pub struct LogConfig {
    /// Level name, such as `info`.
    pub level: String,
    /// Custom filter directives; when present and not blank they override the level.
    pub filter: Option<String>,
}

pub struct LogConfigModel {
    pub level: Seq<char>,
    pub filter: Option<Seq<char>>,
}

impl View for LogConfig {
    type V = LogConfigModel;

    open spec fn view(&self) -> LogConfigModel {
        LogConfigModel {
            level: self.level@,
            filter: match self.filter {
                Some(f) => Some(f@),
                None => None,
            },
        }
    }
}

/// The custom filter, trimmed, if it is given and not blank.
pub open spec fn custom_filter(c: LogConfigModel) -> Option<Seq<char>> {
    match c.filter {
        Some(f) => if trim(f).len() > 0 {
            Some(trim(f))
        } else {
            None
        },
        None => None,
    }
}

/// The custom filter is given, not blank, and parses.
pub open spec fn custom_filter_accepted(c: LogConfigModel) -> bool {
    custom_filter(c) matches Some(f) && env_filter_verdict(f) is None
}

/// The directives of the operational (file) filter: the custom filter if it
/// parses, else the trimmed level if it parses, else `info`.
pub open spec fn file_filter_directives(c: LogConfigModel) -> Seq<char> {
    if custom_filter_accepted(c) {
        custom_filter(c)->0
    } else if env_filter_verdict(trim(c.level)) is None {
        trim(c.level)
    } else {
        FALLBACK_FILE_FILTER@
    }
}

pub open spec fn filter_warning(filter: Seq<char>, error: Seq<char>, level: Seq<char>) -> Seq<char> {
    "Invalid logging.filter '"@ + filter + "': "@ + error + ". Falling back to logging.level '"@
        + level + "'"@
}

pub open spec fn level_warning(level: Seq<char>, error: Seq<char>) -> Seq<char> {
    "Invalid logging.level '"@ + level + "': "@ + error + ". Falling back to 'info'"@
}

/// The warnings that building the file filter reports, in order.
pub open spec fn file_filter_warnings(c: LogConfigModel) -> Seq<Seq<char>> {
    let on_filter = match custom_filter(c) {
        Some(f) => match env_filter_verdict(f) {
            Some(err) => seq![filter_warning(f, err, c.level)],
            None => Seq::empty(),
        },
        None => Seq::empty(),
    };
    let on_level = match env_filter_verdict(trim(c.level)) {
        Some(err) => seq![level_warning(c.level, err)],
        None => Seq::empty(),
    };
    if custom_filter_accepted(c) {
        Seq::empty()
    } else {
        on_filter + on_level
    }
}

/// The console directives that the level asks for: the level itself for debug
/// and trace, `warn` or `error` for those, and the compact default otherwise.
pub open spec fn console_level_directives(level: Seq<char>) -> Seq<char> {
    let l = trim(level);
    if eq_ignore_ascii_case(l, "debug"@) || eq_ignore_ascii_case(l, "trace"@) {
        l
    } else if eq_ignore_ascii_case(l, "warn"@) {
        "warn"@
    } else if eq_ignore_ascii_case(l, "error"@) {
        "error"@
    } else {
        DEFAULT_CONSOLE_FILTER@
    }
}

/// A custom filter is given, not blank, and not refused by the filter parser.
/// (One that the parser cannot read without cutting a character in two is
/// taken as given: building the file filter from it panics.)
pub open spec fn custom_filter_in_effect(c: LogConfigModel) -> bool {
    custom_filter(c) matches Some(f) && (parser_cuts_safely(f) ==> env_filter_verdict(f) is None)
}

/// The directives of the console filter, given those of the file filter. A
/// custom filter in effect rules both outputs: the console gets the file
/// filter. Otherwise the console follows the level.
pub open spec fn console_filter_directives(c: LogConfigModel, file: Seq<char>) -> Seq<char> {
    if custom_filter_in_effect(c) {
        file
    } else if env_filter_verdict(console_level_directives(c.level)) is None {
        console_level_directives(c.level)
    } else {
        DEFAULT_CONSOLE_FILTER@
    }
}

/// The settings on which building the file filter is owed: each string that
/// goes to the filter parser is one it reads without cutting a character in
/// two, and the fixed `info` filter parses where it is needed. (On the other
/// settings the parser, or the expectation that `info` parses, may panic; see
/// `parser_cuts_safely` for how closely that is drawn.)
pub open spec fn file_filter_buildable(c: LogConfigModel) -> bool {
    &&& custom_filter(c) matches Some(f) ==> parser_cuts_safely(f)
    &&& !custom_filter_accepted(c) ==> parser_cuts_safely(trim(c.level))
    &&& !custom_filter_accepted(c) && env_filter_verdict(trim(c.level)) is Some
        ==> env_filter_verdict(FALLBACK_FILE_FILTER@) is None
}

/// The settings on which building the console filter is owed: where the
/// directives the level asks for do not parse, the compact default does.
pub open spec fn console_filter_buildable(c: LogConfigModel) -> bool {
    !custom_filter_in_effect(c) && env_filter_verdict(console_level_directives(c.level)) is Some
        ==> env_filter_verdict(DEFAULT_CONSOLE_FILTER@) is None
}

/// No character of `s` is white space.
pub open spec fn no_whitespace(s: Seq<char>) -> bool {
    forall|i: int| 0 <= i < s.len() ==> !is_whitespace(#[trigger] s[i])
}

proof fn lemma_no_whitespace_safe(s: Seq<char>)
    requires
        no_whitespace(s),
    ensures
        parser_cuts_safely(s),
{
    assert forall|ps: int| 0 <= ps < s.len() && #[trigger] starts_directive(s, ps) implies !is_whitespace(
        s[ps],
    ) by {}
    lemma_no_lead_safe(s);
}

/// The fixed filters, and whatever the level asks the console for, are read
/// by the filter parser without cutting a character in two.
pub proof fn lemma_fixed_filters_cut_safely(level: Seq<char>)
    ensures
        parser_cuts_safely(FALLBACK_FILE_FILTER@),
        parser_cuts_safely(DEFAULT_CONSOLE_FILTER@),
        parser_cuts_safely(console_level_directives(level)),
{
    reveal_strlit("info");
    reveal_strlit("warn,console=info,engine=info,response=info");
    reveal_strlit("warn");
    reveal_strlit("error");
    reveal_strlit("debug");
    reveal_strlit("trace");
    assert(no_whitespace(FALLBACK_FILE_FILTER@));
    assert(no_whitespace(DEFAULT_CONSOLE_FILTER@));
    assert(no_whitespace("warn"@));
    assert(no_whitespace("error"@));
    lemma_no_whitespace_safe(FALLBACK_FILE_FILTER@);
    lemma_no_whitespace_safe(DEFAULT_CONSOLE_FILTER@);
    lemma_no_whitespace_safe("warn"@);
    lemma_no_whitespace_safe("error"@);
    let l = trim(level);
    if eq_ignore_ascii_case(l, "debug"@) || eq_ignore_ascii_case(l, "trace"@) {
        assert forall|i: int| 0 <= i < l.len() implies !is_whitespace(#[trigger] l[i]) by {
            if eq_ignore_ascii_case(l, "debug"@) {
                assert(ascii_lower(l[i]) == ascii_lower("debug"@[i]));
            } else {
                assert(ascii_lower(l[i]) == ascii_lower("trace"@[i]));
            }
        }
        lemma_no_whitespace_safe(l);
    }
}

pub open spec fn string_views(v: Seq<String>) -> Seq<Seq<char>> {
    v.map_values(|s: String| s@)
}

fn custom_filter_text(logging: &LogConfig) -> (r: Option<&str>)
    ensures
        match r {
            Some(f) => custom_filter(logging@) == Some(f@),
            None => custom_filter(logging@) is None,
        },
{
    match &logging.filter {
        Some(raw) => {
            let f = trim_str(raw.as_str());
            if f.unicode_len() > 0 {
                Some(f)
            } else {
                None
            }
        },
        None => None,
    }
}

/// Build the operational (file) filter from the logging settings, with the
/// warnings to report for settings that did not parse.
pub fn build_log_filter(logging: &LogConfig) -> (r: (LogFilter, Vec<String>))
    requires
        file_filter_buildable(logging@),
    ensures
        r.0@ == file_filter_directives(logging@),
        string_views(r.1@) == file_filter_warnings(logging@),
{
    let mut warnings: Vec<String> = Vec::new();
    let custom = custom_filter_text(logging);
    match custom {
        Some(f) => {
            match env_filter_try_new(f) {
                Ok(parsed) => {
                    proof {
                        assert(string_views(warnings@) =~= Seq::empty());
                    }
                    return (parsed, warnings);
                },
                Err(err) => {
                    let mut w = String::new();
                    w.append("Invalid logging.filter '");
                    w.append(f);
                    w.append("': ");
                    w.append(err.as_str());
                    w.append(". Falling back to logging.level '");
                    w.append(logging.level.as_str());
                    w.append("'");
                    warnings.push(w);
                },
            }
        },
        None => {},
    }
    let ghost before = string_views(warnings@);
    let level = trim_str(logging.level.as_str());
    match env_filter_try_new(level) {
        Ok(parsed) => {
            proof {
                assert(string_views(warnings@) =~= before + Seq::empty());
            }
            (parsed, warnings)
        },
        Err(err) => {
            let mut w = String::new();
            w.append("Invalid logging.level '");
            w.append(logging.level.as_str());
            w.append("': ");
            w.append(err.as_str());
            w.append(". Falling back to 'info'");
            warnings.push(w);
            proof {
                assert(string_views(warnings@) =~= before + seq![level_warning(logging@.level, err@)]);
            }
            proof {
                lemma_fixed_filters_cut_safely(logging@.level);
            }
            match env_filter_try_new(FALLBACK_FILE_FILTER) {
                Ok(fallback) => (fallback, warnings),
                Err(_) => vstd::pervasive::unreached(),
            }
        },
    }
}

fn console_level_text(level: &str) -> (r: &str)
    ensures
        r@ == console_level_directives(level@),
{
    let l = trim_str(level);
    if str_eq_ignore_ascii_case(l, "debug") || str_eq_ignore_ascii_case(l, "trace") {
        l
    } else if str_eq_ignore_ascii_case(l, "warn") {
        "warn"
    } else if str_eq_ignore_ascii_case(l, "error") {
        "error"
    } else {
        DEFAULT_CONSOLE_FILTER
    }
}

/// Build the filter for an interactive console layer.
///
/// A custom filter in effect remains authoritative for both outputs: the
/// console then gets the file filter. Otherwise explicit debug or trace levels
/// opt into the full stream, warn and error keep their level, and any other
/// level shows milestones and detections while suppressing component internals.
pub fn build_console_log_filter(logging: &LogConfig, base_filter: &LogFilter) -> (r: LogFilter)
    requires
        console_filter_buildable(logging@),
    ensures
        r@ == console_filter_directives(logging@, base_filter@),
{
    if let Some(custom) = custom_filter_text(logging) {
        if !check_parser_cuts_safely(custom) || env_filter_try_new(custom).is_ok() {
            return base_filter.duplicate();
        }
    }
    let chosen = console_level_text(logging.level.as_str());
    proof {
        lemma_fixed_filters_cut_safely(logging@.level);
    }
    match env_filter_try_new(chosen) {
        Ok(parsed) => parsed,
        Err(_) => match env_filter_try_new(DEFAULT_CONSOLE_FILTER) {
            Ok(fallback) => fallback,
            Err(_) => vstd::pervasive::unreached(),
        },
    }
}

/// The file filter where building it is owed (`file_filter_buildable`);
/// `None` on the other settings: where the filter parser might cut a
/// character in two (on some of them it would not, see `parser_cuts_safely`),
/// or where `info` is needed and does not parse.
pub fn checked_log_filter(logging: &LogConfig) -> (r: Option<(LogFilter, Vec<String>)>)
    ensures
        r is Some <==> file_filter_buildable(logging@),
        r matches Some(x) ==> x.0@ == file_filter_directives(logging@) && string_views(x.1@)
            == file_filter_warnings(logging@),
{
    let mut accepted = false;
    if let Some(f) = custom_filter_text(logging) {
        if !check_parser_cuts_safely(f) {
            return None;
        }
        accepted = env_filter_try_new(f).is_ok();
    }
    if !accepted {
        let level = trim_str(logging.level.as_str());
        if !check_parser_cuts_safely(level) {
            return None;
        }
        if env_filter_try_new(level).is_err() {
            proof {
                lemma_fixed_filters_cut_safely(logging@.level);
            }
            if env_filter_try_new(FALLBACK_FILE_FILTER).is_err() {
                return None;
            }
        }
    }
    Some(build_log_filter(logging))
}

/// The console filter where building it is owed; `None` where the compact
/// default would be needed and does not parse.
pub fn checked_console_log_filter(logging: &LogConfig, base_filter: &LogFilter) -> (r: Option<
    LogFilter,
>)
    ensures
        r is Some <==> console_filter_buildable(logging@),
        r matches Some(f) ==> f@ == console_filter_directives(logging@, base_filter@),
{
    if let Some(custom) = custom_filter_text(logging) {
        if !check_parser_cuts_safely(custom) || env_filter_try_new(custom).is_ok() {
            return Some(build_console_log_filter(logging, base_filter));
        }
    }
    let chosen = console_level_text(logging.level.as_str());
    proof {
        lemma_fixed_filters_cut_safely(logging@.level);
    }
    if env_filter_try_new(chosen).is_err() && env_filter_try_new(DEFAULT_CONSOLE_FILTER).is_err() {
        return None;
    }
    Some(build_console_log_filter(logging, base_filter))
}

/// The title line of the banner.
pub open spec fn banner_title(version: Seq<char>, runtime: Seq<char>) -> Seq<char> {
    "Rustinel v"@ + version + " ("@ + runtime + ")"@
}

/// A framed banner row holding `text` centred.
pub open spec fn banner_row(text: Seq<char>) -> Seq<char> {
    "║ "@ + centered(text, STARTUP_BANNER_INNER_WIDTH as nat) + " ║"@
}

/// The lines of the startup banner, top to bottom.
pub open spec fn startup_banner(version: Seq<char>, runtime: Seq<char>) -> Seq<Seq<char>> {
    seq![
        BANNER_TOP@,
        banner_row(banner_title(version, runtime)),
        banner_row(BANNER_TAGLINE@),
        BANNER_BOTTOM@,
    ]
}

fn banner_row_text(text: &str) -> (r: String)
    ensures
        r@ == banner_row(text@),
{
    let mut row = String::new();
    row.append("║ ");
    let middle = center(text, STARTUP_BANNER_INNER_WIDTH);
    row.append(middle.as_str());
    row.append(" ║");
    row
}

/// The startup banner's lines, to be logged in order to the console target:
/// a framed box with the version and runtime, then the tagline.
pub fn log_startup_banner(version: &str, runtime: &str) -> (r: Vec<String>)
    ensures
        string_views(r@) == startup_banner(version@, runtime@),
{
    let mut title = String::new();
    title.append("Rustinel v");
    title.append(version);
    title.append(" (");
    title.append(runtime);
    title.append(")");
    let mut lines: Vec<String> = Vec::new();
    lines.push(BANNER_TOP.to_owned());
    lines.push(banner_row_text(title.as_str()));
    lines.push(banner_row_text(BANNER_TAGLINE));
    lines.push(BANNER_BOTTOM.to_owned());
    proof {
        assert(string_views(lines@) =~= startup_banner(version@, runtime@));
    }
    lines
}

/// Whether a directory entry is a file of the daily log series `prefix`: a
/// file whose name is the prefix, a dot, and a date suffix.
pub open spec fn is_rotated_log_file(name: Seq<char>, prefix: Seq<char>) -> bool {
    starts_with(name, prefix + "."@)
}

/// Whether an entry of the log directory gets the log file permissions.
pub fn restricts_log_entry(is_file: bool, file_name: &str, prefix: &str) -> (r: bool)
    ensures
        r == (is_file && is_rotated_log_file(file_name@, prefix@)),
{
    if !is_file {
        return false;
    }
    let mut expected = String::new();
    expected.append(prefix);
    expected.append(".");
    str_starts_with(file_name, expected.as_str())
}

/// When the permissions of the daily log files were last restricted. The
/// appender rotates at the UTC date boundary; dates are counted in days.
pub struct PermissionRefresh {
    permission_date: i32,
}

impl View for PermissionRefresh {
    type V = i32;

    closed spec fn view(&self) -> i32 {
        self.permission_date
    }
}

impl PermissionRefresh {
    /// The files were restricted on `today`.
    pub fn new(today: i32) -> (r: PermissionRefresh)
        ensures
            r@ == today,
    {
        PermissionRefresh { permission_date: today }
    }

    /// After a write on `today`: must the files be restricted again? Only when
    /// the date has changed since they last were.
    pub fn needs_refresh(&self, today: i32) -> (r: bool)
        ensures
            r == (today != self@),
    {
        today != self.permission_date
    }

    /// The files were restricted again on `today`; record it. When restricting
    /// fails, this is not called, so the next write tries again.
    pub fn record_refresh(&mut self, today: i32)
        ensures
            final(self)@ == today,
    {
        self.permission_date = today;
    }

    /// After the underlying write, made on `today`: a failed write is reported
    /// as it failed; after a write on a new date the files are restricted
    /// first; otherwise the write is reported done.
    pub fn after_write(&self, wrote: bool, today: i32) -> (r: WriteStep)
        ensures
            r == (if !wrote {
                WriteStep::ReportError
            } else if today != self@ {
                WriteStep::RestrictFiles
            } else {
                WriteStep::ReportWritten
            }),
    {
        if !wrote {
            WriteStep::ReportError
        } else if self.needs_refresh(today) {
            WriteStep::RestrictFiles
        } else {
            WriteStep::ReportWritten
        }
    }

    /// After restricting the files on `today`: the date is recorded only when
    /// that succeeded, and then the write is reported done; otherwise the
    /// restriction's error is reported and the next write tries again.
    pub fn after_restrict(&mut self, restricted: bool, today: i32) -> (r: WriteStep)
        ensures
            final(self)@ == (if restricted {
                today
            } else {
                old(self)@
            }),
            r == (if restricted {
                WriteStep::ReportWritten
            } else {
                WriteStep::ReportError
            }),
    {
        if restricted {
            self.record_refresh(today);
            WriteStep::ReportWritten
        } else {
            WriteStep::ReportError
        }
    }
}

/// What a restricting log writer does next.
#[derive(Clone, Copy, Debug, PartialEq, Eq, Structural)]
pub enum WriteStep {
    /// Return the error at hand.
    ReportError,
    /// Restrict the permissions of the log files.
    RestrictFiles,
    /// Return the number of bytes written.
    ReportWritten,
}

/// Where the daily log writer of a pipeline is built.
#[derive(Clone, Copy, Debug, PartialEq, Eq, Structural)]
pub enum LogWriterSite {
    /// The configured log directory.
    Configured,
    /// `FALLBACK_LOG_DIRECTORY` under the system's temporary directory.
    TemporaryFallback,
    /// No file: records are discarded.
    Sink,
}

/// The first place to try.
pub fn first_log_writer_site() -> (r: LogWriterSite)
    ensures
        r == LogWriterSite::Configured,
{
    LogWriterSite::Configured
}

/// The place tried after `failed`: the configured directory is followed by
/// the temporary one, and that by the sink.
pub open spec fn site_after(failed: LogWriterSite) -> LogWriterSite {
    match failed {
        LogWriterSite::Configured => LogWriterSite::TemporaryFallback,
        _ => LogWriterSite::Sink,
    }
}

/// Where to turn when a writer could not be built at `failed`.
pub fn next_log_writer_site(failed: LogWriterSite) -> (r: LogWriterSite)
    ensures
        r == site_after(failed),
{
    match failed {
        LogWriterSite::Configured => LogWriterSite::TemporaryFallback,
        _ => LogWriterSite::Sink,
    }
}

} // verus!
