//! Properties of the logging policy that hold for every configuration.
use vstd::prelude::*;
use vstd::string::*;
use crate::runtime::filter::{env_filter_verdict, parser_cuts_safely};
use crate::runtime::logging::{
    banner_title, console_filter_directives, custom_filter, custom_filter_accepted,
    file_filter_directives, site_after, FALLBACK_FILE_FILTER,
    startup_banner, LogConfigModel, LogWriterSite, BANNER_BOTTOM, BANNER_TAGLINE, BANNER_TOP,
    DEFAULT_CONSOLE_FILTER, STARTUP_BANNER_INNER_WIDTH,
};
use crate::text::{ascii_lower, eq_ignore_ascii_case, trim};

verus! {

/// A custom filter in effect remains authoritative for both outputs: when one
/// is given, not blank, and parses, the file gets it and the console gets a
/// copy of whatever file filter it is handed.
pub proof fn law_custom_filter_rules_both_outputs(c: LogConfigModel, file: Seq<char>)
    requires
        custom_filter_accepted(c),
    ensures
        file_filter_directives(c) == custom_filter(c)->0,
        console_filter_directives(c, file) == file,
{
}

/// A custom filter that the parser reads and refuses rules neither output: the
/// file falls back to the level, and the console gets what it would get with
/// no custom filter at all.
pub proof fn law_rejected_custom_filter_rules_neither(c: LogConfigModel)
    requires
        custom_filter(c) matches Some(f) && parser_cuts_safely(f),
        !custom_filter_accepted(c),
    ensures
        file_filter_directives(c) == (if env_filter_verdict(trim(c.level)) is None {
            trim(c.level)
        } else {
            FALLBACK_FILE_FILTER@
        }),
        console_filter_directives(c, file_filter_directives(c)) == console_filter_directives(
            LogConfigModel { level: c.level, filter: None },
            file_filter_directives(c),
        ),
{
}

/// Explicit debug or trace levels opt into the full stream: without a custom
/// filter, the console gets the directives of the file. (A level that the
/// filter parser rejects leaves the file at `info` and the console compact.)
pub proof fn law_debug_and_trace_reach_the_console(c: LogConfigModel)
    requires
        custom_filter(c) is None,
        eq_ignore_ascii_case(trim(c.level), "debug"@) || eq_ignore_ascii_case(
            trim(c.level),
            "trace"@,
        ),
        env_filter_verdict(trim(c.level)) is None,
    ensures
        console_filter_directives(c, file_filter_directives(c)) == trim(c.level),
        file_filter_directives(c) == trim(c.level),
{
}

/// The warn and error levels keep their level on the console: without a
/// custom filter, a level that reads `warn` or `error` up to ASCII case gives
/// the console that word (when the filter parser takes it).
pub proof fn law_warn_and_error_keep_their_level(c: LogConfigModel, word: Seq<char>)
    requires
        custom_filter(c) is None,
        word == "warn"@ || word == "error"@,
        eq_ignore_ascii_case(trim(c.level), word),
        env_filter_verdict(word) is None,
    ensures
        console_filter_directives(c, file_filter_directives(c)) == word,
{
    reveal_strlit("warn");
    reveal_strlit("error");
    reveal_strlit("debug");
    reveal_strlit("trace");
    let l = trim(c.level);
    if word == "error"@ {
        assert(ascii_lower(l[0]) == ascii_lower('e'));
        assert(!eq_ignore_ascii_case(l, "debug"@)) by {
            assert(ascii_lower("debug"@[0]) != ascii_lower('e'));
        }
        assert(!eq_ignore_ascii_case(l, "trace"@)) by {
            assert(ascii_lower("trace"@[0]) != ascii_lower('e'));
        }
        assert(!eq_ignore_ascii_case(l, "warn"@));
    }
}

/// At the default level, and at any level that is not debug, trace, warn or
/// error, the console shows warnings, milestones and detections only,
/// whatever the file gets.
pub proof fn law_other_levels_get_the_compact_console(c: LogConfigModel, file: Seq<char>)
    requires
        custom_filter(c) is None,
        !eq_ignore_ascii_case(trim(c.level), "debug"@),
        !eq_ignore_ascii_case(trim(c.level), "trace"@),
        !eq_ignore_ascii_case(trim(c.level), "warn"@),
        !eq_ignore_ascii_case(trim(c.level), "error"@),
    ensures
        console_filter_directives(c, file) == DEFAULT_CONSOLE_FILTER@,
{
}

/// The banner is a box: when its title fits the frame, every line has the
/// frame's width, the inner width and two borders of two characters.
pub proof fn law_banner_lines_share_one_width(version: Seq<char>, runtime: Seq<char>)
    requires
        banner_title(version, runtime).len() <= STARTUP_BANNER_INNER_WIDTH,
    ensures
        startup_banner(version, runtime).len() == 4,
        forall|i: int|
            0 <= i < 4 ==> (#[trigger] startup_banner(version, runtime)[i]).len()
                == STARTUP_BANNER_INNER_WIDTH + 4,
{
    reveal_strlit("╔═══════════════════════════════════════════════════╗");
    reveal_strlit("╚═══════════════════════════════════════════════════╝");
    reveal_strlit("High-Performance Endpoint Detection Agent");
    reveal_strlit("║ ");
    reveal_strlit(" ║");
    assert(BANNER_TOP@.len() == 53);
    assert(BANNER_BOTTOM@.len() == 53);
    assert(BANNER_TAGLINE@.len() == 41);
}

/// A daily log writer is tried in at most two directories; after the second
/// failure the records go to the sink, which is never left.
pub proof fn law_log_writer_ends_in_the_sink(s: LogWriterSite)
    ensures
        site_after(site_after(s)) == LogWriterSite::Sink,
        site_after(LogWriterSite::Sink) == LogWriterSite::Sink,
{
}

/// Without a custom filter in effect, the operational file keeps the
/// configured stream: whenever the trimmed level parses, the file filter is
/// built from exactly that level, whatever the level is.
pub proof fn law_file_filter_keeps_the_configured_level(c: LogConfigModel)
    requires
        c.filter is None || trim(c.filter->0).len() == 0,
        env_filter_verdict(trim(c.level)) is None,
    ensures
        file_filter_directives(c) == trim(c.level),
{
}

/// A custom filter that parses is what the file gets, whatever the level.
pub proof fn law_file_filter_takes_a_parsing_custom_filter(c: LogConfigModel)
    requires
        c.filter matches Some(f) && trim(f).len() > 0 && env_filter_verdict(trim(f)) is None,
    ensures
        file_filter_directives(c) == trim(c.filter->0),
{
}

/// `a` and `b` are the same letter up to ASCII case: `b` is `a`'s small
/// letter, or the other way round.
pub open spec fn case_pair(a: char, b: char) -> bool {
    (65 <= a as u32 <= 90 && b as u32 == a as u32 + 32) || (65 <= b as u32 <= 90 && a as u32
        == b as u32 + 32)
}

/// `s` and `t` agree character by character up to the case of ASCII letters.
pub open spec fn same_up_to_ascii_case(s: Seq<char>, t: Seq<char>) -> bool {
    &&& s.len() == t.len()
    &&& forall|i: int|
        0 <= i < s.len() ==> s[i] as u32 == t[i] as u32 || case_pair(#[trigger] s[i], t[i])
}

/// Case-insensitive comparison ignores exactly the case of the ASCII letters
/// `A` to `Z` and `a` to `z`: two strings match when, and only when, they
/// agree character by character but for that case.
pub proof fn law_case_insensitive_match(s: Seq<char>, t: Seq<char>)
    ensures
        eq_ignore_ascii_case(s, t) <==> same_up_to_ascii_case(s, t),
{
    if eq_ignore_ascii_case(s, t) {
        assert forall|i: int| 0 <= i < s.len() implies s[i] as u32 == t[i] as u32 || case_pair(
            #[trigger] s[i],
            t[i],
        ) by {
            assert(ascii_lower(s[i]) == ascii_lower(t[i]));
        }
    }
    if same_up_to_ascii_case(s, t) {
        assert forall|i: int| 0 <= i < s.len() implies ascii_lower(#[trigger] s[i]) == ascii_lower(
            t[i],
        ) by {
            assert(s[i] as u32 == t[i] as u32 || case_pair(s[i], t[i]));
        }
    }
}

/// The console reads the level without regard to ASCII case: a level that is
/// `warn` or `error` written in any mix of capitals gives the console that word.
pub proof fn law_console_level_ignores_ascii_case(c: LogConfigModel, word: Seq<char>)
    requires
        custom_filter(c) is None,
        word == "warn"@ || word == "error"@,
        same_up_to_ascii_case(trim(c.level), word),
        env_filter_verdict(word) is None,
    ensures
        console_filter_directives(c, file_filter_directives(c)) == word,
{
    law_case_insensitive_match(trim(c.level), word);
    law_warn_and_error_keep_their_level(c, word);
}

} // verus!
