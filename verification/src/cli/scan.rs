//! How the tokens of a command line are read, one command level at a time.
//!
//! A level reads tokens until they run out or a subcommand name starts the next
//! level. An option's value is checked when the option is settled: when the next
//! argument is reacted to, when a positional value arrives, when the tokens run
//! out, or once the subcommand below has been read. Then the level is validated.
use vstd::prelude::*;
use vstd::string::*;
use crate::cli::grammar::{
    depth, first_eq, has_subcommands, is_child, is_escape, is_long, is_short, key_at, key_index, long_key,
    names_subcommand, num_keys, positional, requires_subcommand, short_key, subcommand,
    takes_value, value_error, ArgKey, CliErrorKind, Level,
};

verus! {

/// A value inside the token list: token `tok`, from character `from` on.
#[derive(Clone, Copy, Debug, PartialEq, Eq, Structural)]
pub struct ValRef {
    pub tok: usize,
    pub from: usize,
}

/// An option that has been named and is waiting to be settled.
#[derive(Clone, Copy, Debug, PartialEq, Eq, Structural)]
pub struct Pending {
    pub key: ArgKey,
    pub val: Option<ValRef>,
}

/// The tokens, as character sequences.
pub open spec fn token_views(args: &[&str]) -> Seq<Seq<char>> {
    Seq::new(args@.len(), |i: int| args@[i]@)
}

pub open spec fn valid_ref(toks: Seq<Seq<char>>, r: ValRef) -> bool {
    &&& r.tok < toks.len()
    &&& r.from <= toks[r.tok as int].len()
}

/// The characters that a value reference designates.
pub open spec fn val_of(toks: Seq<Seq<char>>, r: ValRef) -> Seq<char> {
    toks[r.tok as int].subrange(r.from as int, toks[r.tok as int].len() as int)
}

/// What a level has read so far.
pub struct ScanState {
    /// One slot per argument: where its value (or, for a flag, the flag) stands.
    pub vals: Seq<Option<ValRef>>,
    pub pending: Option<Pending>,
    /// A `--` has been read.
    pub trailing: bool,
    /// The positional argument has been taken.
    pub pos_used: bool,
}

pub open spec fn init_state() -> ScanState {
    ScanState {
        vals: Seq::new(num_keys(), |j: int| None),
        pending: None,
        trailing: false,
        pos_used: false,
    }
}

/// Every stored value points into the tokens and is admitted by its argument.
pub open spec fn vals_wf(toks: Seq<Seq<char>>, vals: Seq<Option<ValRef>>) -> bool {
    &&& vals.len() == num_keys()
    &&& forall|j: int|
        0 <= j < num_keys() ==> (#[trigger] vals[j] matches Some(r) ==> valid_ref(toks, r)
            && value_error(key_at(j), val_of(toks, r)) is None)
}

pub open spec fn state_wf(toks: Seq<Seq<char>>, st: ScanState) -> bool {
    &&& vals_wf(toks, st.vals)
    &&& st.pending matches Some(p) ==> (p.val matches Some(r) ==> valid_ref(toks, r))
        && takes_value(p.key)
}

/// The result of reading one token.
pub enum Step {
    Next(ScanState),
    Stop(ScanEnd),
}

/// How reading a level ended.
pub enum ScanEnd {
    Failed(CliErrorKind),
    Finished(ScanState),
    /// Subcommand `1` starts at token `2`.
    Descend(ScanState, Level, int),
}

/// Record argument `k` with value `v` (for a flag, the flag's own token).
pub open spec fn store(toks: Seq<Seq<char>>, st: ScanState, k: ArgKey, v: Option<ValRef>) -> Result<
    ScanState,
    CliErrorKind,
> {
    if k is Help {
        Err(CliErrorKind::DisplayHelp)
    } else if k is Version {
        Err(CliErrorKind::DisplayVersion)
    } else if takes_value(k) && v is None {
        Err(CliErrorKind::InvalidValue)
    } else if st.vals[key_index(k)] is Some {
        Err(CliErrorKind::ArgumentConflict)
    } else if takes_value(k) && value_error(k, val_of(toks, v->0)) is Some {
        Err(value_error(k, val_of(toks, v->0))->0)
    } else {
        Ok(ScanState { vals: st.vals.update(key_index(k), v), ..st })
    }
}

/// Settle the pending option, if there is one.
pub open spec fn resolve(toks: Seq<Seq<char>>, st: ScanState) -> Result<ScanState, CliErrorKind> {
    match st.pending {
        None => Ok(st),
        Some(p) => store(toks, ScanState { pending: None, ..st }, p.key, p.val),
    }
}

/// Settle the pending option, then record `k`.
pub open spec fn react(toks: Seq<Seq<char>>, st: ScanState, k: ArgKey, v: Option<ValRef>) -> Result<
    ScanState,
    CliErrorKind,
> {
    match resolve(toks, st) {
        Err(e) => Err(e),
        Ok(s) => store(toks, s, k, v),
    }
}

pub open spec fn step_of(r: Result<ScanState, CliErrorKind>) -> Step {
    match r {
        Ok(s) => Step::Next(s),
        Err(e) => Step::Stop(ScanEnd::Failed(e)),
    }
}

/// The error for a value that no argument of level `l` takes.
pub open spec fn stray_value_error(l: Level, t: Seq<char>, trailing: bool) -> CliErrorKind {
    if trailing && names_subcommand(l, t) {
        CliErrorKind::UnknownArgument
    } else if has_subcommands(l) {
        CliErrorKind::InvalidSubcommand
    } else {
        CliErrorKind::UnknownArgument
    }
}

/// Token `i` as the positional value of level `l`.
pub open spec fn take_positional(l: Level, toks: Seq<Seq<char>>, i: int, st: ScanState) -> Step {
    if positional(l) is Some && !st.pos_used {
        match resolve(toks, st) {
            Err(e) => Step::Stop(ScanEnd::Failed(e)),
            Ok(s) => Step::Next(
                ScanState {
                    pending: Some(
                        Pending { key: positional(l)->0, val: Some(ValRef { tok: i as usize, from: 0 }) },
                    ),
                    pos_used: true,
                    ..s
                },
            ),
        }
    } else {
        Step::Stop(ScanEnd::Failed(stray_value_error(l, toks[i], st.trailing)))
    }
}

/// `help` walks down the subcommand names that follow it; help is shown if
/// they all exist.
pub open spec fn help_walk(at: Option<Level>, toks: Seq<Seq<char>>, i: int) -> CliErrorKind
    decreases toks.len() - i,
{
    if i >= toks.len() {
        CliErrorKind::DisplayHelp
    } else {
        match at {
            None => CliErrorKind::InvalidSubcommand,
            Some(l) => match subcommand(l, toks[i]) {
                Some(s) => help_walk(Some(s), toks, i + 1),
                None => if has_subcommands(l) && toks[i] == "help"@ {
                    help_walk(None, toks, i + 1)
                } else {
                    CliErrorKind::InvalidSubcommand
                },
            },
        }
    }
}

/// A long option `t` at token `i`.
pub open spec fn long_step(l: Level, toks: Seq<Seq<char>>, i: int, st: ScanState) -> Step {
    let t = toks[i];
    let e = first_eq(t, 2);
    match long_key(l, t.subrange(2, e)) {
        None => Step::Stop(ScanEnd::Failed(CliErrorKind::UnknownArgument)),
        Some(k) => if takes_value(k) {
            if e < t.len() {
                step_of(react(toks, st, k, Some(ValRef { tok: i as usize, from: (e + 1) as usize })))
            } else {
                match resolve(toks, st) {
                    Err(x) => Step::Stop(ScanEnd::Failed(x)),
                    Ok(s) => Step::Next(ScanState { pending: Some(Pending { key: k, val: None }), ..s }),
                }
            }
        } else if e < t.len() {
            Step::Stop(ScanEnd::Failed(CliErrorKind::TooManyValues))
        } else {
            step_of(react(toks, st, k, Some(ValRef { tok: i as usize, from: 0 })))
        },
    }
}

/// An option was named and waits for its value.
pub open spec fn awaits_value(st: ScanState) -> bool {
    st.pending matches Some(p) && p.val is None
}

/// Read token `i` at level `l`.
pub open spec fn step(l: Level, toks: Seq<Seq<char>>, i: int, st: ScanState) -> Step {
    let t = toks[i];
    if st.trailing {
        take_positional(l, toks, i, st)
    } else if !awaits_value(st) && subcommand(l, t) is Some {
        Step::Stop(ScanEnd::Descend(st, subcommand(l, t)->0, i + 1))
    } else if !awaits_value(st) && has_subcommands(l) && t == "help"@ {
        Step::Stop(ScanEnd::Failed(help_walk(Some(l), toks, i + 1)))
    } else if is_escape(t) {
        Step::Next(ScanState { trailing: true, ..st })
    } else if is_long(t) {
        long_step(l, toks, i, st)
    } else if is_short(t) {
        match short_key(l, t[1]) {
            None => Step::Stop(ScanEnd::Failed(CliErrorKind::UnknownArgument)),
            Some(k) => step_of(react(toks, st, k, Some(ValRef { tok: i as usize, from: 0 }))),
        }
    } else if awaits_value(st) {
        Step::Next(
            ScanState {
                pending: Some(
                    Pending { key: st.pending->0.key, val: Some(ValRef { tok: i as usize, from: 0 }) },
                ),
                ..st
            },
        )
    } else {
        take_positional(l, toks, i, st)
    }
}

/// Read level `l` from token `i` on.
pub open spec fn scan(l: Level, toks: Seq<Seq<char>>, i: int, st: ScanState) -> ScanEnd
    decreases toks.len() - i,
{
    if i >= toks.len() {
        ScanEnd::Finished(st)
    } else {
        match step(l, toks, i, st) {
            Step::Next(s) => scan(l, toks, i + 1, s),
            Step::Stop(end) => end,
        }
    }
}

/// What a level has read, once settled and validated.
pub struct Parsed {
    pub level: Level,
    pub vals: Seq<Option<ValRef>>,
}

pub open spec fn no_explicit_args(vals: Seq<Option<ValRef>>) -> bool {
    forall|j: int| 0 <= j < vals.len() ==> #[trigger] vals[j] is None
}

/// The checks a level undergoes once it has been read.
pub open spec fn validate(l: Level, vals: Seq<Option<ValRef>>, has_sub: bool) -> Option<CliErrorKind> {
    if !has_sub && requires_subcommand(l) {
        if no_explicit_args(vals) {
            Some(CliErrorKind::DisplayHelpOnMissingArgumentOrSubcommand)
        } else {
            Some(CliErrorKind::MissingSubcommand)
        }
    } else if l is Run && vals[key_index(ArgKey::Console)] is Some && vals[key_index(
        ArgKey::NoConsole,
    )] is Some {
        Some(CliErrorKind::ArgumentConflict)
    } else if l is Replay && vals[key_index(ArgKey::Recording)] is None {
        Some(CliErrorKind::MissingRequiredArgument)
    } else if l is RulesInstall && vals[key_index(ArgKey::PackName)] is None {
        Some(CliErrorKind::MissingRequiredArgument)
    } else {
        None
    }
}

/// Settle and validate a level that has been read.
pub open spec fn close_level(
    l: Level,
    toks: Seq<Seq<char>>,
    st: ScanState,
    has_sub: bool,
) -> Result<Parsed, CliErrorKind> {
    match resolve(toks, st) {
        Err(e) => Err(e),
        Ok(s) => match validate(l, s.vals, has_sub) {
            Some(e) => Err(e),
            None => Ok(Parsed { level: l, vals: s.vals }),
        },
    }
}

/// Parse level `l` from token `i` on: the chain of levels read, outermost first.
pub open spec fn parse_level(l: Level, toks: Seq<Seq<char>>, i: int) -> Result<
    Seq<Parsed>,
    CliErrorKind,
>
    decreases depth(l),
{
    match scan(l, toks, i, init_state()) {
        ScanEnd::Failed(e) => Err(e),
        ScanEnd::Finished(st) => match close_level(l, toks, st, false) {
            Err(e) => Err(e),
            Ok(p) => Ok(seq![p]),
        },
        ScanEnd::Descend(st, sub, j) => if depth(sub) < depth(l) {
            match parse_level(sub, toks, j) {
                Err(e) => Err(e),
                Ok(chain) => match close_level(l, toks, st, true) {
                    Err(e) => Err(e),
                    Ok(p) => Ok(seq![p] + chain),
                },
            }
        } else {
            Err(CliErrorKind::InvalidSubcommand)
        },
    }
}

/// The shape of a parsed chain: each level a subcommand of the one before, the
/// last one needing no subcommand, and every level's values admitted.
pub open spec fn chain_wf(toks: Seq<Seq<char>>, c: Seq<Parsed>, l: Level) -> bool {
    &&& c.len() >= 1
    &&& c[0].level == l
    &&& forall|k: int| 0 <= k < c.len() - 1 ==> #[trigger] linked(c, k)
    &&& !requires_subcommand(c[c.len() - 1].level)
    &&& forall|k: int| 0 <= k < c.len() ==> level_ok(toks, #[trigger] c[k], k < c.len() - 1)
}

/// Level `k + 1` of the chain is a subcommand of level `k`.
pub open spec fn linked(c: Seq<Parsed>, k: int) -> bool {
    is_child(c[k].level, c[k + 1].level)
}

/// A settled level: its values are admitted and it passed validation.
#[verifier::opaque]
pub open spec fn level_ok(toks: Seq<Seq<char>>, p: Parsed, has_sub: bool) -> bool {
    vals_wf(toks, p.vals) && validate(p.level, p.vals, has_sub) is None
}

pub proof fn lemma_chain_cons(toks: Seq<Seq<char>>, p: Parsed, rest: Seq<Parsed>, l: Level)
    requires
        p.level == l,
        level_ok(toks, p, true),
        chain_wf(toks, rest, rest[0].level),
        is_child(l, rest[0].level),
    ensures
        chain_wf(toks, seq![p] + rest, l),
{
    let c = seq![p] + rest;
    assert forall|k: int| 0 <= k < c.len() - 1 implies #[trigger] linked(c, k) by {
        if k > 0 {
            assert(c[k] == rest[k - 1]);
            assert(c[k + 1] == rest[k]);
            assert(linked(rest, k - 1));
        }
    }
    assert forall|k: int| 0 <= k < c.len() implies level_ok(toks, #[trigger] c[k], k < c.len() - 1) by {
        if k > 0 {
            assert(c[k] == rest[k - 1]);
        }
    }
    assert(c[c.len() - 1] == rest[rest.len() - 1]);
}

} // verus!
