//! Properties of the command line that hold for every argument list.
use vstd::prelude::*;
use crate::cli::grammar::{
    first_eq, global_flag, has_subcommands, is_documented_level, is_escape, is_global, is_long,
    is_short, key_index, requires_subcommand, depth, num_keys,
    lemma_first_eq_bounds, long_key, short_key, subcommand, takes_value, value_error, ArgKey,
    CliErrorKind, Level,
};
use crate::cli::extension::{
    chain_with_global, extends, is_plain_value, lemma_global_flag, lemma_parse_level_global_appended,
    lemma_tokens_fit_prefix,
};
use crate::cli::lemmas::{lemma_parse_level_wf, tokens_fit};
use crate::cli::shift::{
    chain_matches, global_waiting, lemma_descend_bound, lemma_parse_level_match,
    lemma_top_after_global, nothing_read, parsed_matches, slot_matches, tokens_shifted,
};
use crate::cli::scan::{
    chain_wf, init_state, level_ok, linked, parse_level, scan, step, validate, val_of, valid_ref,
    vals_wf, Parsed, Pending, ScanEnd, ScanState, Step, ValRef, close_level,
};
use crate::cli::{
    cli_of, command_of, deepest_value, flag_in, pack_level, parse_command_line, value_in, CliModel,
    CommandModel, RulesActionModel, ServiceAction, SetupPack,
};

verus! {

/// A token starting with a dash names no subcommand, not even `help`.
pub proof fn lemma_dash_names_no_subcommand(l: Level, t: Seq<char>)
    requires
        t.len() > 0,
        t[0] == '-',
    ensures
        subcommand(l, t) is None,
        t != "help"@,
{
    reveal_strlit("update");
    reveal_strlit("setup");
    reveal_strlit("run");
    reveal_strlit("capture");
    reveal_strlit("replay");
    reveal_strlit("doctor");
    reveal_strlit("service");
    reveal_strlit("rules");
    reveal_strlit("install");
    reveal_strlit("uninstall");
    reveal_strlit("start");
    reveal_strlit("stop");
    reveal_strlit("restart");
    reveal_strlit("status");
    reveal_strlit("list");
    reveal_strlit("help");
}

/// The first `=` from position `i` on stands at `k`.
pub proof fn lemma_first_eq_at(t: Seq<char>, i: int, k: int)
    requires
        0 <= i <= k < t.len(),
        t[k] == '=',
        forall|j: int| i <= j < k ==> t[j] != '=',
    ensures
        first_eq(t, i) == k,
    decreases k - i,
{
    if i < k {
        lemma_first_eq_at(t, i + 1, k);
    }
}

/// Without `=` from position `i` on, `first_eq` is the length.
pub proof fn lemma_first_eq_none(t: Seq<char>, i: int)
    requires
        0 <= i <= t.len(),
        forall|j: int| i <= j < t.len() ==> t[j] != '=',
    ensures
        first_eq(t, i) == t.len(),
    decreases t.len() - i,
{
    if i < t.len() {
        lemma_first_eq_none(t, i + 1);
    }
}

/// The global value chosen from a chain of admitted levels is admitted too.
proof fn lemma_deepest_admitted(toks: Seq<Seq<char>>, c: Seq<Parsed>, k: ArgKey)
    requires
        forall|m: int| 0 <= m < c.len() ==> vals_wf(toks, #[trigger] c[m].vals),
    ensures
        deepest_value(toks, c, k) matches Some(v) ==> value_error(k, v) is None,
    decreases c.len(),
{
    crate::cli::lemmas::lemma_key_slot(k);
    if c.len() > 0 {
        let last = c[c.len() - 1];
        assert(vals_wf(toks, last.vals));
        if value_in(toks, last, k) is None {
            let rest = c.drop_last();
            assert forall|m: int| 0 <= m < rest.len() implies vals_wf(toks, #[trigger] rest[m].vals) by {
                assert(rest[m] == c[m]);
            }
            lemma_deepest_admitted(toks, rest, k);
        }
    }
}

/// Every value in a parsed command line is one that its argument admits: the
/// log level is one of the documented five and the configuration path is not
/// empty.
pub proof fn law_parsed_values_are_admitted(toks: Seq<Seq<char>>)
    requires
        tokens_fit(toks),
    ensures
        parse_command_line(toks) matches Ok(cli) ==> {
            &&& cli.log_level matches Some(v) ==> is_documented_level(v)
            &&& cli.config matches Some(p) ==> p.len() > 0
        },
{
    lemma_parse_level_wf(Level::Top, toks, 1);
    if let Ok(c) = parse_level(Level::Top, toks, 1) {
        reveal(level_ok);
        assert forall|m: int| 0 <= m < c.len() implies vals_wf(toks, #[trigger] c[m].vals) by {
            assert(level_ok(toks, c[m], m < c.len() - 1));
        }
        lemma_deepest_admitted(toks, c, ArgKey::LogLevel);
        lemma_deepest_admitted(toks, c, ArgKey::Config);
    }
}

/// `run --console` and `run --no-console` exclude each other: no parsed
/// command line has both.
pub proof fn law_console_flags_exclude_each_other(toks: Seq<Seq<char>>)
    requires
        tokens_fit(toks),
    ensures
        parse_command_line(toks) matches Ok(cli) ==> (cli.command matches Some(
            CommandModel::Run { console, no_console },
        ) ==> !(console && no_console)),
{
    lemma_parse_level_wf(Level::Top, toks, 1);
    if let Ok(c) = parse_level(Level::Top, toks, 1) {
        reveal(level_ok);
        if c.len() >= 2 {
            assert(level_ok(toks, c[1], 1 < c.len() - 1));
        }
    }
}

/// The top level reads a flag-like first argument `t` from the initial state.
proof fn lemma_first_step(t: Seq<char>, toks: Seq<Seq<char>>)
    requires
        toks.len() >= 2,
        toks[1] == t,
        t.len() > 1,
        t[0] == '-',
    ensures
        scan(Level::Top, toks, 1, init_state()) == match step(Level::Top, toks, 1, init_state()) {
            Step::Next(s) => scan(Level::Top, toks, 2, s),
            Step::Stop(end) => end,
        },
        !is_escape(t) ==> step(Level::Top, toks, 1, init_state()) == if is_long(t) {
            crate::cli::scan::long_step(Level::Top, toks, 1, init_state())
        } else {
            match short_key(Level::Top, t[1]) {
                None => Step::Stop(ScanEnd::Failed(CliErrorKind::UnknownArgument)),
                Some(k) => crate::cli::scan::step_of(
                    crate::cli::scan::react(toks, init_state(), k, Some(ValRef { tok: 1, from: 0 })),
                ),
            }
        },
{
    lemma_dash_names_no_subcommand(Level::Top, t);
}

/// `--help` or `-h` first: help is shown, whatever follows.
pub proof fn law_help_first_shows_help(bin: Seq<char>, flag: Seq<char>, rest: Seq<Seq<char>>)
    requires
        flag == "--help"@ || flag == "-h"@,
    ensures
        parse_command_line(seq![bin, flag] + rest) == Err::<CliModel, CliErrorKind>(
            CliErrorKind::DisplayHelp,
        ),
{
    let toks = seq![bin, flag] + rest;
    reveal_strlit("--help");
    reveal_strlit("-h");
    reveal_strlit("help");
    assert(toks[1] == flag);
    lemma_first_step(flag, toks);
    if flag == "--help"@ {
        lemma_first_eq_none(flag, 2);
        assert(flag.subrange(2, 6) =~= "help"@);
    }
}

/// `--version` or `-V` first: the version is shown, whatever follows.
pub proof fn law_version_first_shows_version(bin: Seq<char>, flag: Seq<char>, rest: Seq<Seq<char>>)
    requires
        flag == "--version"@ || flag == "-V"@,
    ensures
        parse_command_line(seq![bin, flag] + rest) == Err::<CliModel, CliErrorKind>(
            CliErrorKind::DisplayVersion,
        ),
{
    let toks = seq![bin, flag] + rest;
    reveal_strlit("--version");
    reveal_strlit("-V");
    reveal_strlit("help");
    reveal_strlit("version");
    assert(toks[1] == flag);
    lemma_first_step(flag, toks);
    if flag == "--version"@ {
        lemma_first_eq_none(flag, 2);
        assert(flag.subrange(2, 9) =~= "version"@);
    }
}

/// `--log-level=v` alone is accepted exactly when `v` is a documented level,
/// and then it is the log level of the parsed command line.
pub proof fn law_log_level_accepted_iff_documented(bin: Seq<char>, v: Seq<char>)
    ensures
        parse_command_line(seq![bin, "--log-level="@ + v]) == if is_documented_level(v) {
            Ok(CliModel { command: None, config: None, log_level: Some(v) })
        } else {
            Err(CliErrorKind::InvalidValue)
        },
{
    let t = "--log-level="@ + v;
    let toks = seq![bin, t];
    reveal_strlit("--log-level=");
    reveal_strlit("log-level");
    reveal_strlit("help");
    reveal_strlit("version");
    reveal_strlit("config");
    assert(toks[1] == t);
    assert(t[0] == '-' && t[1] == '-' && t[11] == '=');
    lemma_first_step(t, toks);
    lemma_first_eq_at(t, 2, 11);
    assert(t.subrange(2, 11) =~= "log-level"@);
    assert(long_key(Level::Top, t.subrange(2, 11)) == Some(ArgKey::LogLevel));
    let r = ValRef { tok: 1, from: 12 };
    assert(val_of(toks, r) =~= v);
    if is_documented_level(v) {
        let s = crate::cli::scan::ScanState {
            vals: init_state().vals.update(key_index(ArgKey::LogLevel), Some(r)),
            ..init_state()
        };
        assert(scan(Level::Top, toks, 2, s) == ScanEnd::Finished(s));
        let p = Parsed { level: Level::Top, vals: s.vals };
        assert(validate(Level::Top, s.vals, false) is None);
        let c = seq![p];
        assert(deepest_value(toks, c.drop_last(), ArgKey::Config) is None);
        assert(deepest_value(toks, c.drop_last(), ArgKey::LogLevel) is None);
        assert(cli_of(toks, c) == CliModel { command: None, config: None, log_level: Some(v) });
    }
}

/// A global option's value in a command line.
pub open spec fn global_value(cli: CliModel, g: ArgKey) -> Option<Seq<char>> {
    if g is Config {
        cli.config
    } else {
        cli.log_level
    }
}

/// The command line with global option `g` set to `v`.
pub open spec fn with_global_value(cli: CliModel, g: ArgKey, v: Seq<char>) -> CliModel {
    if g is Config {
        CliModel { config: Some(v), ..cli }
    } else {
        CliModel { log_level: Some(v), ..cli }
    }
}

/// No level of a chain in which a global option is unset holds a value for it.
proof fn lemma_global_unset(toks: Seq<Seq<char>>, c: Seq<Parsed>, g: ArgKey)
    requires
        deepest_value(toks, c, g) is None,
    ensures
        forall|m: int| 0 <= m < c.len() ==> (#[trigger] c[m]).vals[key_index(g)] is None,
    decreases c.len(),
{
    if c.len() > 0 {
        let rest = c.drop_last();
        lemma_global_unset(toks, rest, g);
        assert forall|m: int| 0 <= m < c.len() implies (#[trigger] c[m]).vals[key_index(g)] is None by {
            if m < c.len() - 1 {
                assert(c[m] == rest[m]);
            }
        }
    }
}

/// Two chains that hold the same value for `k` at every level choose the same
/// global value for it.
proof fn lemma_deepest_same(
    t1: Seq<Seq<char>>,
    c1: Seq<Parsed>,
    t2: Seq<Seq<char>>,
    c2: Seq<Parsed>,
    k: ArgKey,
)
    requires
        c1.len() == c2.len(),
        forall|m: int| 0 <= m < c1.len() ==> value_in(t1, #[trigger] c1[m], k) == value_in(t2, c2[m], k),
    ensures
        deepest_value(t1, c1, k) == deepest_value(t2, c2, k),
    decreases c1.len(),
{
    if c1.len() > 0 {
        let (d1, d2) = (c1.drop_last(), c2.drop_last());
        assert forall|m: int| 0 <= m < d1.len() implies value_in(t1, #[trigger] d1[m], k) == value_in(
            t2,
            d2[m],
            k,
        ) by {
            assert(d1[m] == c1[m] && d2[m] == c2[m]);
        }
        lemma_deepest_same(t1, d1, t2, d2, k);
        assert(value_in(t1, c1[c1.len() - 1], k) == value_in(t2, c2[c2.len() - 1], k));
    }
}

/// The command a chain describes depends on its levels' commands and values only.
proof fn lemma_command_alike(tb: Seq<Seq<char>>, cb: Seq<Parsed>, ts: Seq<Seq<char>>, cs: Seq<Parsed>)
    requires
        cb.len() == cs.len(),
        forall|m: int| #![trigger cb[m]] 1 <= m < cs.len() && m <= 2 ==> cb[m].level == cs[m].level,
        forall|m: int, k: ArgKey|
            1 <= m < cs.len() && m <= 2 && !is_global(k) ==> #[trigger] value_in(tb, cb[m], k)
                == value_in(ts, cs[m], k),
        forall|m: int, k: ArgKey|
            1 <= m < cs.len() && m <= 2 && !is_global(k) ==> #[trigger] flag_in(cb[m], k) == flag_in(
                cs[m],
                k,
            ),
        cs.len() >= 2 && requires_subcommand(cs[1].level) ==> cs.len() >= 3,
    ensures
        command_of(tb, cb) == command_of(ts, cs),
{
    if cs.len() >= 2 {
        let (a, b) = (cb[1], cs[1]);
        assert(value_in(tb, a, ArgKey::Pack) == value_in(ts, b, ArgKey::Pack));
        assert(value_in(tb, a, ArgKey::CatalogUrl) == value_in(ts, b, ArgKey::CatalogUrl));
        assert(value_in(tb, a, ArgKey::Output) == value_in(ts, b, ArgKey::Output));
        assert(value_in(tb, a, ArgKey::Recording) == value_in(ts, b, ArgKey::Recording));
        assert(flag_in(a, ArgKey::Yes) == flag_in(b, ArgKey::Yes));
        assert(flag_in(a, ArgKey::NoStart) == flag_in(b, ArgKey::NoStart));
        assert(flag_in(a, ArgKey::Force) == flag_in(b, ArgKey::Force));
        assert(flag_in(a, ArgKey::Console) == flag_in(b, ArgKey::Console));
        assert(flag_in(a, ArgKey::NoConsole) == flag_in(b, ArgKey::NoConsole));
        assert(flag_in(a, ArgKey::Json) == flag_in(b, ArgKey::Json));
        if cs.len() >= 3 {
            let (a2, b2) = (cb[2], cs[2]);
            assert(value_in(tb, a2, ArgKey::CatalogUrl) == value_in(ts, b2, ArgKey::CatalogUrl));
            assert(value_in(tb, a2, ArgKey::RulesDir) == value_in(ts, b2, ArgKey::RulesDir));
            assert(value_in(tb, a2, ArgKey::PackName) == value_in(ts, b2, ArgKey::PackName));
        }
    }
}

/// Setting the deepest level's value for global option `g` keeps every other
/// value of the chain, read over the extended tokens.
proof fn lemma_values_kept(
    small: Seq<Seq<char>>,
    big: Seq<Seq<char>>,
    c: Seq<Parsed>,
    g: ArgKey,
    r: ValRef,
)
    requires
        extends(big, small),
        c.len() >= 1,
        forall|m: int| 0 <= m < c.len() ==> vals_wf(small, #[trigger] c[m].vals),
    ensures
        chain_with_global(c, g, r).len() == c.len(),
        forall|m: int| 0 <= m < c.len() ==> (#[trigger] chain_with_global(c, g, r)[m]).level == c[m].level,
        forall|m: int, k: ArgKey|
            0 <= m < c.len() && k != g ==> #[trigger] value_in(big, chain_with_global(c, g, r)[m], k)
                == value_in(small, c[m], k) && flag_in(chain_with_global(c, g, r)[m], k) == flag_in(
                c[m],
                k,
            ),
{
    let c2 = chain_with_global(c, g, r);
    crate::cli::lemmas::lemma_key_slot(g);
    assert forall|m: int, k: ArgKey| 0 <= m < c.len() && k != g implies #[trigger] value_in(
        big,
        c2[m],
        k,
    ) == value_in(small, c[m], k) && flag_in(c2[m], k) == flag_in(c[m], k) by {
        crate::cli::lemmas::lemma_key_slot(k);
        assert(vals_wf(small, c[m].vals));
        assert(c2[m].vals[key_index(k)] == c[m].vals[key_index(k)]);
        if let Some(x) = c[m].vals[key_index(k)] {
            assert(valid_ref(small, x));
            assert(big[x.tok as int] == small[x.tok as int]);
        }
    }
}

/// A global option (`--config` or `--log-level`) may follow all the other
/// arguments: appending it with value `v` to a command line that parsed
/// without it gives the same command line with `v` for it. This holds unless
/// a `--` stands among the arguments, after which every token is a plain value.
pub proof fn law_global_option_may_follow_the_arguments(toks: Seq<Seq<char>>, g: ArgKey, v: Seq<char>)
    requires
        toks.len() >= 1,
        is_global(g),
        tokens_fit(toks + seq![global_flag(g), v]),
        forall|k: int| 1 <= k < toks.len() ==> !is_escape(#[trigger] toks[k]),
        is_plain_value(v),
        value_error(g, v) is None,
        parse_command_line(toks) matches Ok(cli) && global_value(cli, g) is None,
    ensures
        parse_command_line(toks + seq![global_flag(g), v]) == Ok::<CliModel, CliErrorKind>(
            with_global_value(parse_command_line(toks)->Ok_0, g, v),
        ),
{
    let big = toks + seq![global_flag(g), v];
    let r = ValRef { tok: (toks.len() + 1) as usize, from: 0 };
    let other = if g is Config {
        ArgKey::LogLevel
    } else {
        ArgKey::Config
    };
    assert(extends(big, toks));
    lemma_tokens_fit_prefix(big, toks);
    lemma_parse_level_wf(Level::Top, toks, 1);
    let c = parse_level(Level::Top, toks, 1)->Ok_0;
    lemma_global_unset(toks, c, g);
    lemma_parse_level_global_appended(Level::Top, toks, big, 1, g, v);
    let c2 = chain_with_global(c, g, r);
    assert(parse_level(Level::Top, big, 1) == Ok::<Seq<Parsed>, CliErrorKind>(c2));
    reveal(level_ok);
    assert forall|m: int| 0 <= m < c.len() implies vals_wf(toks, #[trigger] c[m].vals) by {
        assert(level_ok(toks, c[m], m < c.len() - 1));
    }
    lemma_values_kept(toks, big, c, g, r);
    assert forall|m: int| 0 <= m < c.len() implies value_in(big, #[trigger] c2[m], other) == value_in(
        toks,
        c[m],
        other,
    ) by {
        assert(value_in(big, c2[m], other) == value_in(toks, c[m], other));
    }
    lemma_deepest_same(big, c2, toks, c, other);
    let last = c2[c2.len() - 1];
    crate::cli::lemmas::lemma_key_slot(g);
    assert(last.vals[key_index(g)] == Some(r));
    assert(val_of(big, r) =~= v);
    assert(deepest_value(big, c2, g) == Some(v));
    if c.len() == 2 {
        assert(!requires_subcommand(c[1].level));
    }
    assert forall|m: int, k: ArgKey| 1 <= m < c.len() && m <= 2 && !is_global(k) implies #[trigger] value_in(
        big,
        c2[m],
        k,
    ) == value_in(toks, c[m], k) by {
        assert(value_in(big, c2[m], k) == value_in(toks, c[m], k));
    }
    assert forall|m: int, k: ArgKey| 1 <= m < c.len() && m <= 2 && !is_global(k) implies #[trigger] flag_in(
        c2[m],
        k,
    ) == flag_in(c[m], k) by {
        assert(value_in(big, c2[m], k) == value_in(toks, c[m], k));
    }
    lemma_command_alike(big, c2, toks, c);
}

/// Matching levels hold the same values, but for the global option that
/// `held` gives the first one.
proof fn lemma_values_match(
    tb: Seq<Seq<char>>,
    qb: Parsed,
    ts: Seq<Seq<char>>,
    q: Parsed,
    held: Option<(ArgKey, Seq<char>)>,
)
    requires
        parsed_matches(tb, qb, ts, q, held),
    ensures
        forall|k: ArgKey|
            #![trigger value_in(tb, qb, k)]
            #![trigger flag_in(qb, k)]
            !(held matches Some((g, _)) && k == g) ==> value_in(tb, qb, k) == value_in(ts, q, k)
                && flag_in(qb, k) == flag_in(q, k),
        held matches Some((g, v)) ==> value_in(tb, qb, g) == Some(v),
{
    assert forall|k: ArgKey|
        #![trigger value_in(tb, qb, k)]
        #![trigger flag_in(qb, k)]
        !(held matches Some((g, _)) && k == g) implies value_in(tb, qb, k) == value_in(ts, q, k)
            && flag_in(qb, k) == flag_in(q, k) by {
        crate::cli::lemmas::lemma_key_slot(k);
        if let Some((g, _)) = held {
            crate::cli::lemmas::lemma_key_slot(g);
        }
        assert(slot_matches(tb, qb.vals, ts, q.vals, held, key_index(k)));
    }
    if let Some((g, _)) = held {
        assert(slot_matches(tb, qb.vals, ts, q.vals, held, key_index(g)));
    }
}

/// Where only the outermost level holds a value for `k`, it is the one chosen.
proof fn lemma_deepest_outermost(t: Seq<Seq<char>>, c: Seq<Parsed>, k: ArgKey)
    requires
        c.len() >= 1,
        forall|m: int| 1 <= m < c.len() ==> #[trigger] value_in(t, c[m], k) is None,
    ensures
        deepest_value(t, c, k) == value_in(t, c[0], k),
    decreases c.len(),
{
    if c.len() > 1 {
        let rest = c.drop_last();
        assert(value_in(t, c[c.len() - 1], k) is None);
        assert forall|m: int| 1 <= m < rest.len() implies #[trigger] value_in(t, rest[m], k) is None by {
            assert(rest[m] == c[m]);
            assert(value_in(t, c[m], k) is None);
        }
        lemma_deepest_outermost(t, rest, k);
        assert(rest[0] == c[0]);
    } else {
        reveal_with_fuel(deepest_value, 2);
        assert(c.drop_last().len() == 0);
    }
}

/// Matching chains describe the same command line, with `v` for global option `g`.
proof fn lemma_cli_of_matches(
    tb: Seq<Seq<char>>,
    cb: Seq<Parsed>,
    ts: Seq<Seq<char>>,
    cs: Seq<Parsed>,
    g: ArgKey,
    v: Seq<char>,
)
    requires
        is_global(g),
        chain_matches(tb, cb, ts, cs, Some((g, v))),
        forall|m: int| 0 <= m < cs.len() ==> (#[trigger] cs[m]).vals[key_index(g)] is None,
        cs.len() >= 2 && requires_subcommand(cs[1].level) ==> cs.len() >= 3,
    ensures
        cli_of(tb, cb) == with_global_value(cli_of(ts, cs), g, v),
{
    let other = if g is Config {
        ArgKey::LogLevel
    } else {
        ArgKey::Config
    };
    lemma_values_match(tb, cb[0], ts, cs[0], Some((g, v)));
    assert forall|m: int| 0 <= m < cs.len() implies value_in(tb, #[trigger] cb[m], other) == value_in(
        ts,
        cs[m],
        other,
    ) by {
        if m > 0 {
            assert(parsed_matches(tb, cb[m], ts, cs[m], None));
            lemma_values_match(tb, cb[m], ts, cs[m], None);
        }
        assert(value_in(tb, cb[m], other) == value_in(ts, cs[m], other));
    }
    lemma_deepest_same(tb, cb, ts, cs, other);
    assert forall|m: int| 1 <= m < cb.len() implies #[trigger] value_in(tb, cb[m], g) is None by {
        assert(parsed_matches(tb, cb[m], ts, cs[m], None));
        lemma_values_match(tb, cb[m], ts, cs[m], None);
        assert(cs[m].vals[key_index(g)] is None);
        assert(value_in(tb, cb[m], g) == value_in(ts, cs[m], g));
    }
    lemma_deepest_outermost(tb, cb, g);
    assert forall|m: int| #![trigger cb[m]] 1 <= m < cs.len() && m <= 2 implies cb[m].level == cs[m].level by {
        assert(parsed_matches(tb, cb[m], ts, cs[m], None));
    }
    assert forall|m: int, k: ArgKey| 1 <= m < cs.len() && m <= 2 && !is_global(k) implies #[trigger] value_in(
        tb,
        cb[m],
        k,
    ) == value_in(ts, cs[m], k) by {
        assert(parsed_matches(tb, cb[m], ts, cs[m], None));
        lemma_values_match(tb, cb[m], ts, cs[m], None);
    }
    assert forall|m: int, k: ArgKey| 1 <= m < cs.len() && m <= 2 && !is_global(k) implies #[trigger] flag_in(
        cb[m],
        k,
    ) == flag_in(cs[m], k) by {
        assert(parsed_matches(tb, cb[m], ts, cs[m], None));
        lemma_values_match(tb, cb[m], ts, cs[m], None);
    }
    lemma_command_alike(tb, cb, ts, cs);
}

/// A global option (`--config` or `--log-level`) may also stand right after
/// the binary's name: inserting it there with value `v`, in a command line
/// that parsed without it, gives the same command line with `v` for it.
pub proof fn law_global_option_may_precede_the_arguments(toks: Seq<Seq<char>>, g: ArgKey, v: Seq<char>)
    requires
        toks.len() >= 1,
        is_global(g),
        tokens_fit(seq![toks[0], global_flag(g), v] + toks.drop_first()),
        is_plain_value(v),
        value_error(g, v) is None,
        parse_command_line(toks) matches Ok(cli) && global_value(cli, g) is None,
    ensures
        parse_command_line(seq![toks[0], global_flag(g), v] + toks.drop_first()) == Ok::<
            CliModel,
            CliErrorKind,
        >(with_global_value(parse_command_line(toks)->Ok_0, g, v)),
{
    let big = seq![toks[0], global_flag(g), v] + toks.drop_first();
    assert forall|k: int| 1 <= k < toks.len() implies big[k + 2] == #[trigger] toks[k] by {
        assert(big[k + 2] == toks.drop_first()[k - 1]);
    }
    assert(tokens_shifted(big, toks, 2, 1));
    assert(big[2] == v);
    let t = global_flag(g);
    assert(big[1] == t);
    lemma_global_flag(Level::Top, g);
    crate::cli::lemmas::lemma_key_slot(g);
    let x1 = ScanState { pending: Some(Pending { key: g, val: None }), ..init_state() };
    assert(step(Level::Top, big, 1, init_state()) == Step::Next(x1));
    assert(step(Level::Top, big, 2, x1) == Step::Next(global_waiting(g, false)));
    assert(big.len() >= 3);
    assert(scan(Level::Top, big, 2, x1) == scan(Level::Top, big, 3, global_waiting(g, false)));
    assert(scan(Level::Top, big, 1, init_state()) == scan(Level::Top, big, 2, x1));
    assert(nothing_read(false) == init_state());
    lemma_top_after_global(big, toks, g, v, 1, false);
    lemma_descend_bound(Level::Top, toks, 1, init_state());
    let c = parse_level(Level::Top, toks, 1)->Ok_0;
    lemma_global_unset(toks, c, g);
    assert forall|k: int| 0 <= k < toks.len() implies #[trigger] toks[k].len() <= usize::MAX by {
        if k == 0 {
            assert(big[0] == toks[0]);
        } else {
            assert(big[k + 2] == toks[k]);
        }
    }
    lemma_parse_level_wf(Level::Top, toks, 1);
    if c.len() == 2 {
        assert(!requires_subcommand(c[1].level));
    }
    let ghost cb: Seq<Parsed>;
    match scan(Level::Top, toks, 1, init_state()) {
        ScanEnd::Finished(se) => {
            let q = close_level(Level::Top, toks, se, false)->Ok_0;
            assert(c == seq![q]);
            assert(c[0] == q);
            let be = scan(Level::Top, big, 3, global_waiting(g, false))->Finished_0;
            let qb = close_level(Level::Top, big, be, false)->Ok_0;
            cb = seq![qb];
            assert(cb[0] == qb);
        },
        ScanEnd::Descend(se, sub, j) => {
            let csub = parse_level(sub, toks, j)->Ok_0;
            let q = close_level(Level::Top, toks, se, true)->Ok_0;
            assert(c == seq![q] + csub);
            assert(c[0] == q);
            lemma_parse_level_match(sub, big, toks, 2, 1, j);
            let cbsub = parse_level(sub, big, j + 2)->Ok_0;
            let be = scan(Level::Top, big, 3, global_waiting(g, false))->Descend_0;
            let qb = close_level(Level::Top, big, be, true)->Ok_0;
            cb = seq![qb] + cbsub;
            assert(cb[0] == qb);
            assert forall|m: int| 1 <= m < c.len() implies #[trigger] parsed_matches(
                big,
                cb[m],
                toks,
                c[m],
                None,
            ) by {
                assert(cb[m] == cbsub[m - 1] && c[m] == csub[m - 1]);
                if m > 1 {
                    assert(parsed_matches(big, cbsub[m - 1], toks, csub[m - 1], None));
                }
            }
        },
        ScanEnd::Failed(_) => {
            cb = c;
        },
    }
    assert(parse_level(Level::Top, big, 1) == Ok::<Seq<Parsed>, CliErrorKind>(cb));
    lemma_cli_of_matches(big, cb, toks, c, g, v);
}

/// The pack that `setup --pack v` parses to names `v` again: its catalog
/// level is the text given on the command line.
pub proof fn law_pack_level_names_the_parsed_pack(toks: Seq<Seq<char>>)
    requires
        tokens_fit(toks),
    ensures
        match parse_level(Level::Top, toks, 1) {
            Ok(c) => (c.len() >= 2 && c[1].level is Setup && value_in(toks, c[1], ArgKey::Pack) is Some)
                ==> (command_of(toks, c) matches Some(CommandModel::Setup { pack: Some(p), .. })
                && pack_level(p) == value_in(toks, c[1], ArgKey::Pack)->0),
            Err(_) => true,
        },
{
    lemma_parse_level_wf(Level::Top, toks, 1);
    if let Ok(c) = parse_level(Level::Top, toks, 1) {
        if c.len() >= 2 && c[1].level is Setup && value_in(toks, c[1], ArgKey::Pack) is Some {
            reveal(level_ok);
            assert(level_ok(toks, c[1], 1 < c.len() - 1));
            assert(vals_wf(toks, c[1].vals));
            crate::cli::lemmas::lemma_key_slot(ArgKey::Pack);
            reveal_strlit("essential");
            reveal_strlit("advanced");
            let v = value_in(toks, c[1], ArgKey::Pack)->0;
            assert(value_error(ArgKey::Pack, v) is None);
        }
    }
}

/// `setup --pack` with a pack's catalog level parses back to that pack.
pub proof fn law_pack_level_parses_back(bin: Seq<char>, p: SetupPack)
    ensures
        parse_command_line(seq![bin, "setup"@, "--pack"@, pack_level(p)]) == Ok::<
            CliModel,
            CliErrorKind,
        >(
            CliModel {
                command: Some(
                    CommandModel::Setup {
                        pack: Some(p),
                        yes: false,
                        no_start: false,
                        force: false,
                        catalog_url: crate::cli::DEFAULT_CATALOG_URL@,
                    },
                ),
                config: None,
                log_level: None,
            },
        ),
{
    let v = pack_level(p);
    let toks = seq![bin, "setup"@, "--pack"@, v];
    reveal_strlit("setup");
    reveal_strlit("--pack");
    reveal_strlit("pack");
    reveal_strlit("help");
    reveal_strlit("version");
    reveal_strlit("config");
    reveal_strlit("log-level");
    reveal_strlit("essential");
    reveal_strlit("advanced");
    reveal_strlit("update");
    reveal_strlit("run");
    reveal_strlit("capture");
    reveal_strlit("replay");
    reveal_strlit("doctor");
    reveal_strlit("service");
    reveal_strlit("rules");
    assert(toks[1] == "setup"@ && toks[2] == "--pack"@ && toks[3] == v);
    let s0 = init_state();
    assert(step(Level::Top, toks, 1, s0) == Step::Stop(ScanEnd::Descend(s0, Level::Setup, 2)));
    assert(scan(Level::Top, toks, 1, s0) == ScanEnd::Descend(s0, Level::Setup, 2));
    let t = "--pack"@;
    lemma_dash_names_no_subcommand(Level::Setup, t);
    lemma_first_eq_none(t, 2);
    assert(t.subrange(2, 6) =~= "pack"@);
    assert("pack"@ != "help"@) by {
        assert("pack"@[0] != "help"@[0]);
    }
    assert(long_key(Level::Setup, t.subrange(2, 6)) == Some(ArgKey::Pack));
    let s1 = ScanState { pending: Some(Pending { key: ArgKey::Pack, val: None }), ..s0 };
    assert(step(Level::Setup, toks, 2, s0) == Step::Next(s1));
    let r = ValRef { tok: 3, from: 0 };
    let s2 = ScanState { pending: Some(Pending { key: ArgKey::Pack, val: Some(r) }), ..s1 };
    assert(step(Level::Setup, toks, 3, s1) == Step::Next(s2));
    assert(scan(Level::Setup, toks, 4, s2) == ScanEnd::Finished(s2));
    assert(scan(Level::Setup, toks, 3, s1) == ScanEnd::Finished(s2));
    assert(scan(Level::Setup, toks, 2, s0) == ScanEnd::Finished(s2));
    assert(val_of(toks, r) =~= v);
    let vals = s0.vals.update(key_index(ArgKey::Pack), Some(r));
    let q = Parsed { level: Level::Setup, vals };
    assert(close_level(Level::Setup, toks, s2, false) == Ok::<Parsed, CliErrorKind>(q));
    let top = Parsed { level: Level::Top, vals: s0.vals };
    assert(close_level(Level::Top, toks, s0, true) == Ok::<Parsed, CliErrorKind>(top));
    let c = seq![top] + seq![q];
    assert(parse_level(Level::Setup, toks, 2) == Ok::<Seq<Parsed>, CliErrorKind>(seq![q]));
    assert(parse_level(Level::Top, toks, 1) == Ok::<Seq<Parsed>, CliErrorKind>(c));
    assert(c[0] == top && c[1] == q);
    assert(value_in(toks, q, ArgKey::Pack) == Some(v));
    reveal_with_fuel(deepest_value, 3);
    assert(c.drop_last() =~= seq![top]);
    assert(seq![top].drop_last() =~= Seq::<Parsed>::empty());
}

/// Tokens from `i` on are subcommand words only, each naming a subcommand of
/// the level before it, down to a level that needs no further argument.
pub open spec fn words_only(l: Level, toks: Seq<Seq<char>>, i: int) -> bool
    decreases toks.len() - i,
{
    if i >= toks.len() {
        !requires_subcommand(l) && !(l is Replay) && !(l is RulesInstall)
    } else {
        match subcommand(l, toks[i]) {
            Some(sub) => depth(sub) < depth(l) && words_only(sub, toks, i + 1),
            None => false,
        }
    }
}

/// The levels those words name, each holding no value.
pub open spec fn word_levels(l: Level, toks: Seq<Seq<char>>, i: int) -> Seq<Parsed>
    decreases toks.len() - i,
{
    if i >= toks.len() {
        seq![Parsed { level: l, vals: init_state().vals }]
    } else {
        seq![Parsed { level: l, vals: init_state().vals }] + word_levels(
            subcommand(l, toks[i])->0,
            toks,
            i + 1,
        )
    }
}

proof fn lemma_words_parse(l: Level, toks: Seq<Seq<char>>, i: int)
    requires
        0 <= i <= toks.len(),
        words_only(l, toks, i),
    ensures
        parse_level(l, toks, i) == Ok::<Seq<Parsed>, CliErrorKind>(word_levels(l, toks, i)),
    decreases toks.len() - i,
{
    let s0 = init_state();
    if i < toks.len() {
        let sub = subcommand(l, toks[i])->0;
        assert(step(l, toks, i, s0) == Step::Stop(ScanEnd::Descend(s0, sub, i + 1)));
        assert(scan(l, toks, i, s0) == ScanEnd::Descend(s0, sub, i + 1));
        lemma_words_parse(sub, toks, i + 1);
        assert(!(l is Replay) && !(l is RulesInstall) && !(l is Run));
        assert(close_level(l, toks, s0, true) == Ok::<Parsed, CliErrorKind>(
            Parsed { level: l, vals: s0.vals },
        ));
    } else {
        assert(s0.vals[key_index(ArgKey::Console)] is None);
        assert(close_level(l, toks, s0, false) == Ok::<Parsed, CliErrorKind>(
            Parsed { level: l, vals: s0.vals },
        ));
    }
}

/// A chain of levels holding no value has no global value either.
proof fn lemma_no_values_no_globals(t: Seq<Seq<char>>, c: Seq<Parsed>, k: ArgKey)
    requires
        forall|m: int| 0 <= m < c.len() ==> (#[trigger] c[m]).vals == init_state().vals,
    ensures
        deepest_value(t, c, k) is None,
    decreases c.len(),
{
    crate::cli::lemmas::lemma_key_slot(k);
    if c.len() > 0 {
        let rest = c.drop_last();
        assert forall|m: int| 0 <= m < rest.len() implies (#[trigger] rest[m]).vals == init_state().vals by {
            assert(rest[m] == c[m]);
        }
        lemma_no_values_no_globals(t, rest, k);
        assert(c[c.len() - 1].vals == init_state().vals);
    }
}

/// The words of the command line, revealed, and told apart where two of them
/// have the same length.
proof fn lemma_command_words()
    ensures
        "service"@ != "capture"@,
        "install"@ != "restart"@,
        "update"@ != "replay"@,
        "update"@ != "doctor"@,
        "replay"@ != "doctor"@,
        "setup"@ != "rules"@,
        "status"@ != "update"@,
        "list"@ != "stop"@,
{
    reveal_strlit("update");
    reveal_strlit("setup");
    reveal_strlit("run");
    reveal_strlit("capture");
    reveal_strlit("replay");
    reveal_strlit("doctor");
    reveal_strlit("service");
    reveal_strlit("rules");
    reveal_strlit("install");
    reveal_strlit("uninstall");
    reveal_strlit("start");
    reveal_strlit("stop");
    reveal_strlit("restart");
    reveal_strlit("status");
    reveal_strlit("list");
    assert("service"@[0] != "capture"@[0]);
    assert("install"@[0] != "restart"@[0]);
    assert("update"@[0] != "replay"@[0]);
    assert("update"@[0] != "doctor"@[0]);
    assert("replay"@[0] != "doctor"@[0]);
    assert("setup"@[1] != "rules"@[1]);
    assert("status"@[0] != "update"@[0]);
    assert("list"@[0] != "stop"@[0]);
}

/// `service` followed by an action word runs that action: `install`
/// registers, `uninstall` unregisters, `start` starts, `stop` stops,
/// `restart` restarts, and `status` reports. The word typed fixes the action.
pub proof fn law_service_words_name_their_actions(bin: Seq<char>, a: Seq<char>)
    requires
        a == "install"@ || a == "uninstall"@ || a == "start"@ || a == "stop"@ || a == "restart"@ || a
            == "status"@,
    ensures
        parse_command_line(seq![bin, "service"@, a]) == Ok::<CliModel, CliErrorKind>(
            CliModel {
                command: Some(
                    CommandModel::Service {
                        action: if a == "install"@ {
                            ServiceAction::Install
                        } else if a == "uninstall"@ {
                            ServiceAction::Uninstall
                        } else if a == "start"@ {
                            ServiceAction::Start
                        } else if a == "stop"@ {
                            ServiceAction::Stop
                        } else if a == "restart"@ {
                            ServiceAction::Restart
                        } else {
                            ServiceAction::Status
                        },
                    },
                ),
                config: None,
                log_level: None,
            },
        ),
{
    lemma_command_words();
    let toks = seq![bin, "service"@, a];
    reveal_strlit("update");
    reveal_strlit("setup");
    reveal_strlit("run");
    reveal_strlit("capture");
    reveal_strlit("replay");
    reveal_strlit("doctor");
    reveal_strlit("service");
    reveal_strlit("rules");
    reveal_strlit("install");
    reveal_strlit("uninstall");
    reveal_strlit("start");
    reveal_strlit("stop");
    reveal_strlit("restart");
    reveal_strlit("status");
    reveal_strlit("list");
    reveal_with_fuel(words_only, 4);
    reveal_with_fuel(word_levels, 4);
    assert(toks[1] == "service"@ && toks[2] == a);
    assert(subcommand(Level::Top, toks[1]) == Some(Level::Service));
    assert(words_only(Level::Top, toks, 1));
    lemma_words_parse(Level::Top, toks, 1);
    let c = word_levels(Level::Top, toks, 1);
    assert(c.len() == 3);
    assert forall|m: int| 0 <= m < c.len() implies (#[trigger] c[m]).vals == init_state().vals by {}
    lemma_no_values_no_globals(toks, c, ArgKey::Config);
    lemma_no_values_no_globals(toks, c, ArgKey::LogLevel);
}

/// Each word of the top level that needs no argument names its own command:
/// `update`, `run`, `capture` and `doctor`, each with nothing set.
pub proof fn law_command_words_name_their_commands(bin: Seq<char>, w: Seq<char>)
    requires
        w == "update"@ || w == "run"@ || w == "capture"@ || w == "doctor"@,
    ensures
        parse_command_line(seq![bin, w]) == Ok::<CliModel, CliErrorKind>(
            CliModel {
                command: Some(
                    if w == "update"@ {
                        CommandModel::Update
                    } else if w == "run"@ {
                        CommandModel::Run { console: false, no_console: false }
                    } else if w == "capture"@ {
                        CommandModel::Capture { output: None }
                    } else {
                        CommandModel::Doctor { json: false }
                    },
                ),
                config: None,
                log_level: None,
            },
        ),
{
    lemma_command_words();
    let toks = seq![bin, w];
    reveal_strlit("update");
    reveal_strlit("setup");
    reveal_strlit("run");
    reveal_strlit("capture");
    reveal_strlit("replay");
    reveal_strlit("doctor");
    reveal_strlit("service");
    reveal_strlit("rules");
    reveal_strlit("install");
    reveal_strlit("uninstall");
    reveal_strlit("start");
    reveal_strlit("stop");
    reveal_strlit("restart");
    reveal_strlit("status");
    reveal_strlit("list");
    reveal_with_fuel(words_only, 4);
    reveal_with_fuel(word_levels, 4);
    assert(toks[1] == w);
    assert(words_only(Level::Top, toks, 1));
    lemma_words_parse(Level::Top, toks, 1);
    let c = word_levels(Level::Top, toks, 1);
    assert(c.len() == 2);
    assert forall|m: int| 0 <= m < c.len() implies (#[trigger] c[m]).vals == init_state().vals by {}
    lemma_no_values_no_globals(toks, c, ArgKey::Config);
    lemma_no_values_no_globals(toks, c, ArgKey::LogLevel);
    crate::cli::lemmas::lemma_key_slot(ArgKey::Console);
    crate::cli::lemmas::lemma_key_slot(ArgKey::NoConsole);
    crate::cli::lemmas::lemma_key_slot(ArgKey::Output);
    crate::cli::lemmas::lemma_key_slot(ArgKey::Json);
}

/// `rules list` lists and `rules update` updates, each from the default
/// catalog and rules directory.
pub proof fn law_rules_words_name_their_actions(bin: Seq<char>, a: Seq<char>)
    requires
        a == "list"@ || a == "update"@,
    ensures
        parse_command_line(seq![bin, "rules"@, a]) == Ok::<CliModel, CliErrorKind>(
            CliModel {
                command: Some(
                    CommandModel::Rules {
                        action: if a == "list"@ {
                            RulesActionModel::List {
                                catalog_url: crate::cli::DEFAULT_CATALOG_URL@,
                                rules_dir: None,
                            }
                        } else {
                            RulesActionModel::Update {
                                catalog_url: crate::cli::DEFAULT_CATALOG_URL@,
                                rules_dir: None,
                            }
                        },
                    },
                ),
                config: None,
                log_level: None,
            },
        ),
{
    lemma_command_words();
    let toks = seq![bin, "rules"@, a];
    reveal_strlit("update");
    reveal_strlit("setup");
    reveal_strlit("run");
    reveal_strlit("capture");
    reveal_strlit("replay");
    reveal_strlit("doctor");
    reveal_strlit("service");
    reveal_strlit("rules");
    reveal_strlit("install");
    reveal_strlit("uninstall");
    reveal_strlit("start");
    reveal_strlit("stop");
    reveal_strlit("restart");
    reveal_strlit("status");
    reveal_strlit("list");
    reveal_with_fuel(words_only, 4);
    reveal_with_fuel(word_levels, 4);
    assert(toks[1] == "rules"@ && toks[2] == a);
    assert(words_only(Level::Top, toks, 1));
    lemma_words_parse(Level::Top, toks, 1);
    let c = word_levels(Level::Top, toks, 1);
    assert(c.len() == 3);
    assert forall|m: int| 0 <= m < c.len() implies (#[trigger] c[m]).vals == init_state().vals by {}
    lemma_no_values_no_globals(toks, c, ArgKey::Config);
    lemma_no_values_no_globals(toks, c, ArgKey::LogLevel);
    crate::cli::lemmas::lemma_key_slot(ArgKey::CatalogUrl);
    crate::cli::lemmas::lemma_key_slot(ArgKey::RulesDir);
}

/// The three flags of `setup`.
pub open spec fn is_setup_flag(t: Seq<char>) -> bool {
    t == "--yes"@ || t == "--no-start"@ || t == "--force"@
}

/// The argument a setup flag sets.
spec fn setup_flag_key(t: Seq<char>) -> ArgKey {
    if t == "--yes"@ {
        ArgKey::Yes
    } else if t == "--no-start"@ {
        ArgKey::NoStart
    } else {
        ArgKey::Force
    }
}

/// The values of `setup` after its flags from token 2 up to `i`.
spec fn setup_flag_vals(toks: Seq<Seq<char>>, i: int) -> Seq<Option<ValRef>>
    decreases i,
{
    if i <= 2 {
        init_state().vals
    } else {
        setup_flag_vals(toks, i - 1).update(
            key_index(setup_flag_key(toks[i - 1])),
            Some(ValRef { tok: (i - 1) as usize, from: 0 }),
        )
    }
}

/// Slot `j` is set after the flags up to `i` exactly when one of them sets it.
proof fn lemma_setup_flag_vals(toks: Seq<Seq<char>>, i: int)
    requires
        2 <= i <= toks.len(),
        toks.len() <= usize::MAX,
        forall|m: int| 2 <= m < toks.len() ==> is_setup_flag(#[trigger] toks[m]),
    ensures
        setup_flag_vals(toks, i).len() == num_keys(),
        forall|j: int|
            0 <= j < num_keys() ==> (#[trigger] setup_flag_vals(toks, i)[j] is Some <==> exists|m: int|
                2 <= m < i && key_index(setup_flag_key(#[trigger] toks[m])) == j),
    decreases i,
{
    if i > 2 {
        lemma_setup_flag_vals(toks, i - 1);
        let k = setup_flag_key(toks[i - 1]);
        crate::cli::lemmas::lemma_key_slot(k);
        assert forall|j: int| 0 <= j < num_keys() implies (#[trigger] setup_flag_vals(toks, i)[j] is Some
            <==> exists|m: int| 2 <= m < i && key_index(setup_flag_key(#[trigger] toks[m])) == j) by {
            if j != key_index(k) {
                if exists|m: int| 2 <= m < i && key_index(setup_flag_key(#[trigger] toks[m])) == j {
                    let m = choose|m: int| 2 <= m < i && key_index(setup_flag_key(#[trigger] toks[m])) == j;
                    assert(m != i - 1);
                }
            } else {
                assert(key_index(setup_flag_key(toks[i - 1])) == j);
            }
        }
    }
}

/// Reading `setup`'s flags from token `i` on, each flag sets its own slot.
proof fn lemma_setup_flags_scan(toks: Seq<Seq<char>>, i: int)
    requires
        2 <= i <= toks.len(),
        toks.len() <= usize::MAX,
        forall|m: int| 2 <= m < toks.len() ==> is_setup_flag(#[trigger] toks[m]),
        forall|m: int, n: int| 2 <= m < n < toks.len() ==> toks[m] != toks[n],
    ensures
        scan(
            Level::Setup,
            toks,
            i,
            ScanState { vals: setup_flag_vals(toks, i), ..init_state() },
        ) == ScanEnd::Finished(ScanState { vals: setup_flag_vals(toks, toks.len() as int), ..init_state() }),
    decreases toks.len() - i,
{
    reveal_strlit("--yes");
    reveal_strlit("--no-start");
    reveal_strlit("--force");
    reveal_strlit("yes");
    reveal_strlit("no-start");
    reveal_strlit("force");
    reveal_strlit("help");
    reveal_strlit("version");
    reveal_strlit("config");
    reveal_strlit("log-level");
    reveal_strlit("pack");
    if i < toks.len() {
        let t = toks[i];
        let st = ScanState { vals: setup_flag_vals(toks, i), ..init_state() };
        let k = setup_flag_key(t);
        lemma_setup_flag_vals(toks, i);
        crate::cli::lemmas::lemma_key_slot(k);
        lemma_dash_names_no_subcommand(Level::Setup, t);
        lemma_first_eq_none(t, 2);
        let name = t.subrange(2, t.len() as int);
        if t == "--yes"@ {
            assert(name =~= "yes"@);
        } else if t == "--no-start"@ {
            assert(name =~= "no-start"@);
        } else {
            assert(name =~= "force"@);
        }
        assert(long_key(Level::Setup, name) == Some(k));
        assert(st.vals[key_index(k)] is None) by {
            if st.vals[key_index(k)] is Some {
                let m = choose|m: int| 2 <= m < i && key_index(setup_flag_key(#[trigger] toks[m]))
                    == key_index(k);
                crate::cli::lemmas::lemma_key_slot(setup_flag_key(toks[m]));
                assert(toks[m] != toks[i]);
            }
        }
        let next = ScanState { vals: setup_flag_vals(toks, i + 1), ..init_state() };
        assert(step(Level::Setup, toks, i, st) == Step::Next(next));
        lemma_setup_flags_scan(toks, i + 1);
    }
}

/// Each flag of `setup` sets its own field: `--yes` sets `yes`, `--no-start`
/// sets `no_start`, and `--force` sets `force`, in whatever order they come;
/// a field is set exactly when its flag was given.
#[verifier::spinoff_prover]
#[verifier::rlimit(40)]
pub proof fn law_setup_flags_set_their_own_fields(bin: Seq<char>, fs: Seq<Seq<char>>)
    requires
        forall|m: int| 0 <= m < fs.len() ==> is_setup_flag(#[trigger] fs[m]),
        forall|m: int, n: int| 0 <= m < n < fs.len() ==> fs[m] != fs[n],
    ensures
        parse_command_line(seq![bin, "setup"@] + fs) == Ok::<CliModel, CliErrorKind>(
            CliModel {
                command: Some(
                    CommandModel::Setup {
                        pack: None,
                        yes: fs.contains("--yes"@),
                        no_start: fs.contains("--no-start"@),
                        force: fs.contains("--force"@),
                        catalog_url: crate::cli::DEFAULT_CATALOG_URL@,
                    },
                ),
                config: None,
                log_level: None,
            },
        ),
{
    reveal_strlit("--yes");
    reveal_strlit("--no-start");
    reveal_strlit("--force");
    lemma_command_words();
    reveal_strlit("update");
    reveal_strlit("setup");
    let toks = seq![bin, "setup"@] + fs;
    // Three distinct flags at most, so the list fits in memory.
    assert(fs.len() <= 3) by {
        if fs.len() > 3 {
            assert(is_setup_flag(fs[0]) && is_setup_flag(fs[1]) && is_setup_flag(fs[2]) && is_setup_flag(
                fs[3],
            ));
        }
    }
    assert forall|m: int| 2 <= m < toks.len() implies is_setup_flag(#[trigger] toks[m]) by {
        assert(toks[m] == fs[m - 2]);
    }
    assert forall|m: int, n: int| 2 <= m < n < toks.len() implies toks[m] != toks[n] by {
        assert(toks[m] == fs[m - 2] && toks[n] == fs[n - 2]);
    }
    let s0 = init_state();
    assert(toks[1] == "setup"@);
    assert(subcommand(Level::Top, toks[1]) == Some(Level::Setup));
    assert(step(Level::Top, toks, 1, s0) == Step::Stop(ScanEnd::Descend(s0, Level::Setup, 2)));
    assert(scan(Level::Top, toks, 1, s0) == ScanEnd::Descend(s0, Level::Setup, 2));
    assert(ScanState { vals: setup_flag_vals(toks, 2), ..init_state() } == s0);
    lemma_setup_flags_scan(toks, 2);
    let n = toks.len() as int;
    let vals = setup_flag_vals(toks, n);
    lemma_setup_flag_vals(toks, n);
    let se = ScanState { vals, ..init_state() };
    let q = Parsed { level: Level::Setup, vals };
    assert(close_level(Level::Setup, toks, se, false) == Ok::<Parsed, CliErrorKind>(q));
    let top = Parsed { level: Level::Top, vals: s0.vals };
    assert(close_level(Level::Top, toks, s0, true) == Ok::<Parsed, CliErrorKind>(top));
    let c = seq![top] + seq![q];
    assert(parse_level(Level::Setup, toks, 2) == Ok::<Seq<Parsed>, CliErrorKind>(seq![q]));
    assert(parse_level(Level::Top, toks, 1) == Ok::<Seq<Parsed>, CliErrorKind>(c));
    assert(c[0] == top && c[1] == q);
    crate::cli::lemmas::lemma_key_slot(ArgKey::Yes);
    crate::cli::lemmas::lemma_key_slot(ArgKey::NoStart);
    crate::cli::lemmas::lemma_key_slot(ArgKey::Force);
    crate::cli::lemmas::lemma_key_slot(ArgKey::Pack);
    crate::cli::lemmas::lemma_key_slot(ArgKey::CatalogUrl);
    crate::cli::lemmas::lemma_key_slot(ArgKey::Config);
    crate::cli::lemmas::lemma_key_slot(ArgKey::LogLevel);
    assert forall|w: Seq<char>| #![trigger setup_flag_key(w)] is_setup_flag(w) implies (fs.contains(w)
        <==> vals[key_index(setup_flag_key(w))] is Some) by {
        crate::cli::lemmas::lemma_key_slot(setup_flag_key(w));
        if fs.contains(w) {
            let m = choose|m: int| 0 <= m < fs.len() && fs[m] == w;
            assert(toks[m + 2] == w);
        }
        if vals[key_index(setup_flag_key(w))] is Some {
            let m = choose|m: int| 2 <= m < n && key_index(setup_flag_key(#[trigger] toks[m]))
                == key_index(setup_flag_key(w));
            crate::cli::lemmas::lemma_key_slot(setup_flag_key(toks[m]));
            assert(toks[m] == fs[m - 2]);
        }
    }
    assert(is_setup_flag("--yes"@) && is_setup_flag("--no-start"@) && is_setup_flag("--force"@));
    assert(vals[key_index(ArgKey::Pack)] is None);
    assert(vals[key_index(ArgKey::CatalogUrl)] is None);
    assert(vals[key_index(ArgKey::Config)] is None);
    assert(vals[key_index(ArgKey::LogLevel)] is None);
    assert("--yes"@.len() == 5 && "--no-start"@.len() == 10 && "--force"@.len() == 7);
    assert("--no-start"@ != "--yes"@ && "--force"@ != "--yes"@ && "--force"@ != "--no-start"@);
    assert(setup_flag_key("--yes"@) == ArgKey::Yes);
    assert(setup_flag_key("--no-start"@) == ArgKey::NoStart);
    assert(setup_flag_key("--force"@) == ArgKey::Force);
    assert(flag_in(q, ArgKey::Yes) == fs.contains("--yes"@));
    assert(flag_in(q, ArgKey::NoStart) == fs.contains("--no-start"@));
    assert(flag_in(q, ArgKey::Force) == fs.contains("--force"@));
    assert(value_in(toks, q, ArgKey::Pack) is None);
    assert(crate::cli::catalog_url_in(toks, q) == crate::cli::DEFAULT_CATALOG_URL@);
    assert(command_of(toks, c) == Some(
        CommandModel::Setup {
            pack: None,
            yes: fs.contains("--yes"@),
            no_start: fs.contains("--no-start"@),
            force: fs.contains("--force"@),
            catalog_url: crate::cli::DEFAULT_CATALOG_URL@,
        },
    ));
    reveal_with_fuel(deepest_value, 3);
    assert(c.drop_last() =~= seq![top]);
    assert(seq![top].drop_last() =~= Seq::<Parsed>::empty());
    assert(deepest_value(toks, c, ArgKey::Config) is None);
    assert(deepest_value(toks, c, ArgKey::LogLevel) is None);
}

} // verus!
