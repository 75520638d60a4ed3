use rustinel::runtime::filter::check_parser_cuts_safely;
use rustinel::runtime::logging::{
    build_console_log_filter, build_log_filter, checked_console_log_filter, checked_log_filter,
    first_log_writer_site, log_startup_banner, next_log_writer_site, restricts_log_entry,
    LogConfig, LogWriterSite, PermissionRefresh, WriteStep, BANNER_BOTTOM, BANNER_TOP,
    DEFAULT_CONSOLE_FILTER, TARGET_CONSOLE,
};
use rustinel::text::{center, str_eq_ignore_ascii_case, str_starts_with, trim_str};
use tracing::callsite::{Callsite, Identifier};
use tracing::field::FieldSet;
use tracing::metadata::Kind;
use tracing::subscriber::{Interest, Subscriber};
use tracing::{Level, Metadata};
use tracing_subscriber::layer::SubscriberExt;

fn logging(level: &str, filter: Option<&str>) -> LogConfig {
    LogConfig {
        level: level.to_owned(),
        filter: filter.map(str::to_owned),
    }
}

/// A call site for hand-built event metadata; filters never ask it back.
struct TestCallsite;

impl Callsite for TestCallsite {
    fn set_interest(&self, _interest: Interest) {}

    fn metadata(&self) -> &Metadata<'_> {
        unreachable!("event filters read the metadata they are given")
    }
}

const NO_FIELDS: &[&str] = &[];

fn event(target: &'static str, level: Level) -> Metadata<'static> {
    Metadata::new(
        "event",
        target,
        level,
        None,
        None,
        None,
        FieldSet::new(NO_FIELDS, Identifier(&TestCallsite)),
        Kind::EVENT,
    )
}

#[test]
fn default_info_console_filter_is_compact() {
    let logging = logging("info", None);
    let (file_filter, _) = build_log_filter(&logging);
    let console_filter = build_console_log_filter(&logging, &file_filter);
    let rendered = console_filter.env_filter().to_string();

    for directive in ["warn", "console=info", "engine=info", "response=info"] {
        assert!(rendered.split(',').any(|item| item == directive));
    }
}

#[test]
fn debug_console_filter_follows_the_requested_level() {
    let logging = logging("debug", None);
    let (file_filter, _) = build_log_filter(&logging);
    let console_filter = build_console_log_filter(&logging, &file_filter);

    assert_eq!(console_filter.env_filter().to_string(), "debug");
}

#[test]
fn custom_filter_applies_to_the_console_as_well() {
    let logging = logging("info", Some("info,scanner=debug"));
    let (file_filter, _) = build_log_filter(&logging);
    let console_filter = build_console_log_filter(&logging, &file_filter);
    let rendered = console_filter.env_filter().to_string();

    assert!(rendered.split(',').any(|item| item == "info"));
    assert!(rendered.split(',').any(|item| item == "scanner=debug"));
}

#[test]
fn default_info_console_output_keeps_user_facing_events() {
    let logging = logging("info", None);
    let (file_filter, _) = build_log_filter(&logging);
    let console_filter = build_console_log_filter(&logging, &file_filter);
    let subscriber = tracing_subscriber::registry().with(console_filter.into_env_filter());

    assert!(!subscriber.enabled(&event("rustinel", Level::INFO)));
    assert!(subscriber.enabled(&event(TARGET_CONSOLE, Level::INFO)));
    assert!(subscriber.enabled(&event("engine", Level::INFO)));
    assert!(subscriber.enabled(&event("rustinel", Level::WARN)));
}

#[test]
fn the_file_filter_takes_the_level_when_no_custom_filter_is_given() {
    let (file_filter, warnings) = build_log_filter(&logging(" debug ", None));
    assert_eq!(file_filter.directives(), "debug");
    assert_eq!(file_filter.env_filter().to_string(), "debug");
    assert!(warnings.is_empty());
}

#[test]
fn a_custom_filter_is_trimmed_and_takes_precedence() {
    let (file_filter, warnings) =
        build_log_filter(&logging("warn", Some("  info,scanner=debug  ")));
    assert_eq!(file_filter.directives(), "info,scanner=debug");
    assert!(warnings.is_empty());
}

#[test]
fn a_blank_custom_filter_is_ignored() {
    let logging = logging("warn", Some("   "));
    let (file_filter, warnings) = build_log_filter(&logging);
    assert_eq!(file_filter.directives(), "warn");
    assert!(warnings.is_empty());
    let console_filter = build_console_log_filter(&logging, &file_filter);
    assert_eq!(console_filter.directives(), "warn");
}

#[test]
fn a_rejected_custom_filter_falls_back_to_the_level_with_a_warning() {
    let logging = logging("info", Some("scanner=loud"));
    let (file_filter, warnings) = build_log_filter(&logging);
    assert_eq!(file_filter.directives(), "info");
    assert_eq!(warnings.len(), 1);
    assert!(warnings[0].starts_with("Invalid logging.filter 'scanner=loud': "));
    assert!(warnings[0].ends_with(". Falling back to logging.level 'info'"));
    let message = &warnings[0]["Invalid logging.filter 'scanner=loud': ".len()..];
    assert!(message.len() > ". Falling back to logging.level 'info'".len());
    // A rejected filter rules neither output: the console follows the level.
    let console_filter = build_console_log_filter(&logging, &file_filter);
    assert_eq!(console_filter.directives(), DEFAULT_CONSOLE_FILTER);
    let subscriber = tracing_subscriber::registry().with(console_filter.into_env_filter());
    assert!(!subscriber.enabled(&event("rustinel", Level::INFO)));
    assert!(subscriber.enabled(&event("engine", Level::INFO)));
}

#[test]
fn a_rejected_custom_filter_at_debug_leaves_both_outputs_at_debug() {
    let logging = logging("debug", Some("scanner=verbose"));
    let (file_filter, warnings) = build_log_filter(&logging);
    assert_eq!(file_filter.env_filter().to_string(), "debug");
    assert_eq!(warnings.len(), 1);
    let console_filter = build_console_log_filter(&logging, &file_filter);
    assert_eq!(console_filter.env_filter().to_string(), "debug");
}

#[test]
fn the_held_filter_is_built_from_the_stated_directives() {
    let logging = logging("warn", Some(" info,scanner=debug "));
    let (file_filter, _) = build_log_filter(&logging);
    let built = tracing_subscriber::EnvFilter::try_new("info,scanner=debug").expect("parses");
    assert_eq!(file_filter.env_filter().to_string(), built.to_string());
    let copy = file_filter.duplicate();
    assert_eq!(copy.env_filter().to_string(), built.to_string());
}

#[test]
fn directives_the_parser_would_cut_inside_a_character_are_refused() {
    assert!(check_parser_cuts_safely("info,scanner=debug"));
    assert!(check_parser_cuts_safely("info, scanner=debug"));
    assert!(check_parser_cuts_safely("é=debug"));
    assert!(check_parser_cuts_safely("a, é"));
    assert!(check_parser_cuts_safely("a, x=é?"));
    assert!(check_parser_cuts_safely("\u{3000}x"));
    assert!(!check_parser_cuts_safely("x, é=debug"));
    assert!(!check_parser_cuts_safely("a, é=x"));
    assert!(!check_parser_cuts_safely("\u{3000}é=x"));
    assert!(checked_log_filter(&logging("info", Some("info, é=debug"))).is_none());
    assert!(checked_log_filter(&logging("info, é=debug", None)).is_none());
    // The level is not read when the custom filter is in effect.
    let (filter, warnings) =
        checked_log_filter(&logging("info, é=debug", Some("warn"))).expect("owed");
    assert_eq!(filter.directives(), "warn");
    assert!(warnings.is_empty());
    // Read without a panic: the blank makes `é` a target of its own.
    let (filter, warnings) = checked_log_filter(&logging("info", Some("a, é"))).expect("owed");
    assert_eq!(filter.directives(), "a, é");
    assert!(warnings.is_empty());
    // Read without a panic and refused: the level falls back to `info`.
    let (filter, warnings) = checked_log_filter(&logging("a, x=é?", None)).expect("owed");
    assert_eq!(filter.directives(), "info");
    assert_eq!(warnings.len(), 1);
    // With ASCII only, a blank after a comma is read without panic, and the
    // parser, cutting the untrimmed text, refuses the directive.
    let (filter, warnings) =
        checked_log_filter(&logging("info", Some("info, scanner=debug"))).expect("owed");
    assert_eq!(filter.directives(), "info");
    assert_eq!(warnings.len(), 1);
    let logging = logging("trace", None);
    let (base, _) = checked_log_filter(&logging).expect("owed");
    let console = checked_console_log_filter(&logging, &base).expect("owed");
    assert_eq!(console.directives(), "trace");
}

#[test]
fn a_custom_filter_in_effect_copies_whatever_base_filter_is_given() {
    let settings = logging("info", Some("info"));
    let (base, _) = build_log_filter(&logging("warn", None));
    assert_eq!(base.directives(), "warn");
    let console = build_console_log_filter(&settings, &base);
    assert_eq!(console.directives(), "warn");
    assert_eq!(console.env_filter().to_string(), base.env_filter().to_string());
    // A custom filter the parser cannot read safely is taken as given.
    let unsafe_custom = logging("info", Some("a, é=x"));
    let console = build_console_log_filter(&unsafe_custom, &base);
    assert_eq!(console.directives(), "warn");
}

#[test]
fn restricting_writes_record_the_date_only_after_success() {
    let mut refresh = PermissionRefresh::new(739_000);
    assert_eq!(refresh.after_write(false, 739_001), WriteStep::ReportError);
    assert_eq!(refresh.after_write(true, 739_000), WriteStep::ReportWritten);
    assert_eq!(refresh.after_write(true, 739_001), WriteStep::RestrictFiles);
    assert_eq!(refresh.after_restrict(false, 739_001), WriteStep::ReportError);
    assert_eq!(refresh.after_write(true, 739_001), WriteStep::RestrictFiles);
    assert_eq!(refresh.after_restrict(true, 739_001), WriteStep::ReportWritten);
    assert_eq!(refresh.after_write(true, 739_001), WriteStep::ReportWritten);
}

#[test]
fn a_rejected_level_falls_back_to_info_with_a_warning() {
    let (file_filter, warnings) = build_log_filter(&logging("engine=loud", None));
    assert_eq!(file_filter.directives(), "info");
    assert_eq!(file_filter.env_filter().to_string(), "info");
    assert_eq!(warnings.len(), 1);
    assert!(warnings[0].starts_with("Invalid logging.level 'engine=loud': "));
    assert!(warnings[0].ends_with(". Falling back to 'info'"));
}

#[test]
fn both_rejected_give_two_warnings_in_order() {
    let (file_filter, warnings) = build_log_filter(&logging("engine=loud", Some("x=y")));
    assert_eq!(file_filter.directives(), "info");
    assert_eq!(warnings.len(), 2);
    assert!(warnings[0].starts_with("Invalid logging.filter 'x=y': "));
    assert!(warnings[0].ends_with("Falling back to logging.level 'engine=loud'"));
    assert!(warnings[1].starts_with("Invalid logging.level 'engine=loud': "));
}

#[test]
fn console_filter_follows_each_level() {
    for (level, expected) in [
        ("warn", "warn"),
        ("ERROR", "error"),
        (" Trace ", "Trace"),
        ("info", DEFAULT_CONSOLE_FILTER),
        ("off", DEFAULT_CONSOLE_FILTER),
    ] {
        let logging = logging(level, None);
        let (file_filter, _) = build_log_filter(&logging);
        let console_filter = build_console_log_filter(&logging, &file_filter);
        assert_eq!(console_filter.directives(), expected, "level {level:?}");
    }
}

#[test]
fn the_console_filter_copies_the_file_filter_for_a_custom_filter() {
    let logging = logging("debug", Some("engine=trace"));
    let (file_filter, _) = build_log_filter(&logging);
    let console_filter = build_console_log_filter(&logging, &file_filter);
    assert_eq!(console_filter.directives(), file_filter.directives());
    assert_eq!(
        console_filter.env_filter().to_string(),
        file_filter.env_filter().to_string()
    );
    let copy = console_filter.duplicate();
    assert_eq!(copy.directives(), "engine=trace");
}

#[test]
fn startup_banner_is_a_centred_box() {
    let lines = log_startup_banner("1.4.0r2", "service");
    assert_eq!(lines.len(), 4);
    assert_eq!(lines[0], BANNER_TOP);
    assert_eq!(
        lines[1],
        format!("║ {:^49} ║", "Rustinel v1.4.0r2 (service)")
    );
    assert_eq!(
        lines[1],
        "║            Rustinel v1.4.0r2 (service)            ║"
    );
    assert_eq!(
        lines[2],
        "║     High-Performance Endpoint Detection Agent     ║"
    );
    assert_eq!(lines[3], BANNER_BOTTOM);
    for line in &lines {
        assert_eq!(line.chars().count(), 53);
    }
}

#[test]
fn a_long_banner_title_overflows_the_box() {
    let runtime = "a runtime description that is far too long for the box";
    let lines = log_startup_banner("1.0.0r0", runtime);
    assert_eq!(lines[1], format!("║ Rustinel v1.0.0r0 ({runtime}) ║"));
    assert!(lines[1].chars().count() > 53);
}

#[test]
fn only_the_rotated_files_of_the_series_are_restricted() {
    assert!(restricts_log_entry(true, "alerts.json.2026-07-12", "alerts.json"));
    assert!(!restricts_log_entry(true, "other.log", "alerts.json"));
    assert!(!restricts_log_entry(true, "alerts.json", "alerts.json"));
    assert!(!restricts_log_entry(false, "alerts.json.2026-07-12", "alerts.json"));
    assert!(!restricts_log_entry(true, "alerts-json.2026-07-12", "alerts.json"));
}

#[test]
fn permissions_are_refreshed_once_per_date() {
    let mut refresh = PermissionRefresh::new(739_000);
    assert!(!refresh.needs_refresh(739_000));
    assert!(refresh.needs_refresh(739_001));
    refresh.record_refresh(739_001);
    assert!(!refresh.needs_refresh(739_001));
    assert!(refresh.needs_refresh(739_002));
}

#[test]
fn log_writers_fall_back_to_the_temporary_directory_then_the_sink() {
    let first = first_log_writer_site();
    assert_eq!(first, LogWriterSite::Configured);
    let second = next_log_writer_site(first);
    assert_eq!(second, LogWriterSite::TemporaryFallback);
    let third = next_log_writer_site(second);
    assert_eq!(third, LogWriterSite::Sink);
    assert_eq!(next_log_writer_site(third), LogWriterSite::Sink);
}

#[test]
fn text_helpers() {
    assert_eq!(trim_str("\t info \u{3000}"), "info");
    assert_eq!(trim_str("   "), "");
    assert!(str_eq_ignore_ascii_case("DeBuG", "debug"));
    assert!(!str_eq_ignore_ascii_case("debugs", "debug"));
    assert!(str_starts_with("alerts.json.1", "alerts.json."));
    assert!(!str_starts_with("alerts", "alerts.json."));
    assert_eq!(center("ab", 5), " ab  ");
    assert_eq!(center("abcdef", 5), "abcdef");
    assert_eq!(center("é", 4), " é  ");
}

/// The console half: quiet settings hide the engines' detection summaries. The
/// JSON alerts go through the alert pipeline, which no filter here governs.
#[test]
fn quiet_filters_hide_summaries_without_disabling_json_alerts() {
    for (level, filter) in [("warn", None), ("info", Some("warn,engine=off"))] {
        let logging = logging(level, filter);
        let (file_filter, warnings) = build_log_filter(&logging);
        assert!(warnings.is_empty());
        let console_filter = build_console_log_filter(&logging, &file_filter);
        let subscriber = tracing_subscriber::registry().with(console_filter.into_env_filter());
        assert!(!subscriber.enabled(&event("engine", Level::INFO)), "{level} {filter:?}");
        assert!(subscriber.enabled(&event("rustinel", Level::WARN)), "{level} {filter:?}");
    }
    let logging = logging("info", None);
    let (file_filter, _) = build_log_filter(&logging);
    let console_filter = build_console_log_filter(&logging, &file_filter);
    let subscriber = tracing_subscriber::registry().with(console_filter.into_env_filter());
    assert!(subscriber.enabled(&event("engine", Level::INFO)));
    assert!(subscriber.enabled(&event("response", Level::INFO)));
    assert!(!subscriber.enabled(&event("engine", Level::DEBUG)));
}
