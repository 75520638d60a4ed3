//! The executable reader of command lines, proved to follow `scan` and `parse_level`.
use vstd::prelude::*;
use vstd::string::*;
use crate::cli::grammar::{
    first_eq, first_eq_of, has_subcommands, is_child, key_at, key_index, key_takes_value,
    lemma_first_eq_bounds, lemma_subcommand_is_child, level_has_subcommands, long_key_of,
    num_keys, positional_of, requires_subcommand, short_key_of, slot_of, str_eq, subcommand,
    subcommand_of, takes_value, value_error, value_error_of, ArgKey, CliErrorKind, Level, depth,
};
use crate::cli::scan::{chain_wf, lemma_chain_cons, level_ok, linked,
    close_level, help_walk, init_state, no_explicit_args, parse_level, resolve, scan, state_wf,
    step, store, stray_value_error, token_views, val_of, valid_ref, validate, vals_wf, Parsed,
    Pending, ScanEnd, ScanState, Step, ValRef,
};

verus! {

/// What a level has read so far, in executable form.
pub struct Scanner {
    pub vals: Vec<Option<ValRef>>,
    pub pending: Option<Pending>,
    pub trailing: bool,
    pub pos_used: bool,
}

impl View for Scanner {
    type V = ScanState;

    open spec fn view(&self) -> ScanState {
        ScanState {
            vals: self.vals@,
            pending: self.pending,
            trailing: self.trailing,
            pos_used: self.pos_used,
        }
    }
}

/// A settled and validated level, in executable form.
pub struct LevelMatches {
    pub level: Level,
    pub vals: Vec<Option<ValRef>>,
}

impl View for LevelMatches {
    type V = Parsed;

    open spec fn view(&self) -> Parsed {
        Parsed { level: self.level, vals: self.vals@ }
    }
}

pub open spec fn chain_view(c: Seq<LevelMatches>) -> Seq<Parsed> {
    c.map_values(|m: LevelMatches| m@)
}

/// How the reading of a level stopped before its tokens ran out.
pub enum Halt {
    Failed(CliErrorKind),
    Descend(Level, usize),
}

pub open spec fn halt_of(r: Result<(), CliErrorKind>) -> Option<Halt> {
    match r {
        Ok(()) => None,
        Err(e) => Some(Halt::Failed(e)),
    }
}

/// `step`'s result, as `step_exec` reports it.
pub open spec fn step_reported(toks: Seq<Seq<char>>, i: int, s: Step, r: Option<Halt>, after: ScanState) -> bool {
    match s {
        Step::Next(n) => r is None && after == n && state_wf(toks, n),
        Step::Stop(ScanEnd::Failed(e)) => r == Some(Halt::Failed(e)),
        Step::Stop(ScanEnd::Descend(n, sub, j)) => r == Some(Halt::Descend(sub, j as usize)) && j
            == i + 1 && after == n && state_wf(toks, n),
        Step::Stop(ScanEnd::Finished(_)) => false,
    }
}

fn halt_from(r: Result<(), CliErrorKind>) -> (h: Option<Halt>)
    ensures
        h == halt_of(r),
{
    match r {
        Ok(()) => None,
        Err(e) => Some(Halt::Failed(e)),
    }
}

impl Scanner {
    fn new() -> (s: Scanner)
        ensures
            s@ == init_state(),
    {
        let mut vals: Vec<Option<ValRef>> = Vec::new();
        let mut j: usize = 0;
        while j < 16
            invariant
                j <= 16,
                vals@.len() == j,
                forall|k: int| 0 <= k < j ==> vals@[k] is None,
            decreases 16 - j,
        {
            vals.push(None);
            j = j + 1;
        }
        proof {
            assert(vals@ =~= Seq::new(num_keys(), |k: int| None::<ValRef>));
        }
        Scanner { vals, pending: None, trailing: false, pos_used: false }
    }
}

/// The characters of a value, as a string slice.
pub fn value_text<'a>(args: &[&'a str], r: ValRef) -> (s: &'a str)
    requires
        valid_ref(token_views(args), r),
    ensures
        s@ == val_of(token_views(args), r),
{
    let t: &'a str = args[r.tok];
    let n = t.unicode_len();
    t.substring_char(r.from, n)
}

fn store_exec(args: &[&str], sc: &mut Scanner, k: ArgKey, v: Option<ValRef>) -> (r: Result<
    (),
    CliErrorKind,
>)
    requires
        state_wf(token_views(args), old(sc)@),
        v matches Some(x) ==> valid_ref(token_views(args), x),
    ensures
        match store(token_views(args), old(sc)@, k, v) {
            Ok(s) => r is Ok && final(sc)@ == s && state_wf(token_views(args), s),
            Err(e) => r == Err::<(), CliErrorKind>(e),
        },
{
    let ghost toks = token_views(args);
    if k == ArgKey::Help {
        return Err(CliErrorKind::DisplayHelp);
    }
    if k == ArgKey::Version {
        return Err(CliErrorKind::DisplayVersion);
    }
    let tv = key_takes_value(k);
    if tv && v.is_none() {
        return Err(CliErrorKind::InvalidValue);
    }
    let slot = slot_of(k);
    if sc.vals[slot].is_some() {
        return Err(CliErrorKind::ArgumentConflict);
    }
    if tv {
        let x = v.unwrap();
        let text = value_text(args, x);
        match value_error_of(k, text) {
            Some(e) => {
                return Err(e);
            },
            None => {},
        }
    }
    sc.vals.set(slot, v);
    proof {
        let s = sc@;
        assert forall|j: int| 0 <= j < num_keys() implies (#[trigger] s.vals[j] matches Some(r)
            ==> valid_ref(toks, r) && value_error(key_at(j), val_of(toks, r)) is None) by {
            if j == slot as int {
            } else {
                assert(s.vals[j] == old(sc)@.vals[j]);
            }
        }
    }
    Ok(())
}

fn resolve_exec(args: &[&str], sc: &mut Scanner) -> (r: Result<(), CliErrorKind>)
    requires
        state_wf(token_views(args), old(sc)@),
    ensures
        match resolve(token_views(args), old(sc)@) {
            Ok(s) => r is Ok && final(sc)@ == s && state_wf(token_views(args), s),
            Err(e) => r == Err::<(), CliErrorKind>(e),
        },
{
    match sc.pending {
        None => Ok(()),
        Some(p) => {
            sc.pending = None;
            store_exec(args, sc, p.key, p.val)
        },
    }
}

fn react_exec(args: &[&str], sc: &mut Scanner, k: ArgKey, v: Option<ValRef>) -> (r: Result<
    (),
    CliErrorKind,
>)
    requires
        state_wf(token_views(args), old(sc)@),
        v matches Some(x) ==> valid_ref(token_views(args), x),
    ensures
        match crate::cli::scan::react(token_views(args), old(sc)@, k, v) {
            Ok(s) => r is Ok && final(sc)@ == s && state_wf(token_views(args), s),
            Err(e) => r == Err::<(), CliErrorKind>(e),
        },
{
    match resolve_exec(args, sc) {
        Err(e) => Err(e),
        Ok(()) => store_exec(args, sc, k, v),
    }
}

fn help_walk_exec(l: Level, args: &[&str], i: usize) -> (r: CliErrorKind)
    ensures
        r == help_walk(Some(l), token_views(args), i as int),
{
    let ghost toks = token_views(args);
    let mut at: Option<Level> = Some(l);
    let mut j: usize = i;
    while j < args.len()
        invariant
            toks == token_views(args),
            help_walk(Some(l), toks, i as int) == help_walk(at, toks, j as int),
        decreases args.len() - j,
    {
        match at {
            None => {
                return CliErrorKind::InvalidSubcommand;
            },
            Some(lv) => {
                match subcommand_of(lv, args[j]) {
                    Some(s) => {
                        at = Some(s);
                    },
                    None => {
                        if level_has_subcommands(lv) && str_eq(args[j], "help") {
                            at = None;
                        } else {
                            return CliErrorKind::InvalidSubcommand;
                        }
                    },
                }
            },
        }
        j = j + 1;
    }
    CliErrorKind::DisplayHelp
}

fn stray_error(l: Level, t: &str, trailing: bool) -> (r: CliErrorKind)
    ensures
        r == stray_value_error(l, t@, trailing),
{
    let names = subcommand_of(l, t).is_some() || (level_has_subcommands(l) && str_eq(t, "help"));
    if trailing && names {
        CliErrorKind::UnknownArgument
    } else if level_has_subcommands(l) {
        CliErrorKind::InvalidSubcommand
    } else {
        CliErrorKind::UnknownArgument
    }
}

fn take_positional_exec(l: Level, args: &[&str], i: usize, sc: &mut Scanner) -> (r: Option<Halt>)
    requires
        i < args.len(),
        state_wf(token_views(args), old(sc)@),
    ensures
        step_reported(
            token_views(args),
            i as int,
            crate::cli::scan::take_positional(l, token_views(args), i as int, old(sc)@),
            r,
            final(sc)@,
        ),
{
    let ghost toks = token_views(args);
    match positional_of(l) {
        Some(k) => {
            if !sc.pos_used {
                match resolve_exec(args, sc) {
                    Err(e) => Some(Halt::Failed(e)),
                    Ok(()) => {
                        sc.pending = Some(Pending { key: k, val: Some(ValRef { tok: i, from: 0 }) });
                        sc.pos_used = true;
                        None
                    },
                }
            } else {
                Some(Halt::Failed(stray_error(l, args[i], sc.trailing)))
            }
        },
        None => Some(Halt::Failed(stray_error(l, args[i], sc.trailing))),
    }
}

fn long_step_exec(l: Level, args: &[&str], i: usize, sc: &mut Scanner) -> (r: Option<Halt>)
    requires
        i < args.len(),
        args@[i as int]@.len() > 2,
        state_wf(token_views(args), old(sc)@),
    ensures
        step_reported(
            token_views(args),
            i as int,
            crate::cli::scan::long_step(l, token_views(args), i as int, old(sc)@),
            r,
            final(sc)@,
        ),
{
    let ghost toks = token_views(args);
    let t: &str = args[i];
    let n = t.unicode_len();
    let e = first_eq_of(t);
    proof {
        lemma_first_eq_bounds(t@, 2);
    }
    let name = t.substring_char(2, e);
    match long_key_of(l, name) {
        None => Some(Halt::Failed(CliErrorKind::UnknownArgument)),
        Some(k) => {
            if key_takes_value(k) {
                if e < n {
                    halt_from(react_exec(args, sc, k, Some(ValRef { tok: i, from: e + 1 })))
                } else {
                    match resolve_exec(args, sc) {
                        Err(x) => Some(Halt::Failed(x)),
                        Ok(()) => {
                            sc.pending = Some(Pending { key: k, val: None });
                            None
                        },
                    }
                }
            } else if e < n {
                Some(Halt::Failed(CliErrorKind::TooManyValues))
            } else {
                halt_from(react_exec(args, sc, k, Some(ValRef { tok: i, from: 0 })))
            }
        },
    }
}

fn step_exec(l: Level, args: &[&str], i: usize, sc: &mut Scanner) -> (r: Option<Halt>)
    requires
        i < args.len(),
        state_wf(token_views(args), old(sc)@),
    ensures
        step_reported(token_views(args), i as int, step(l, token_views(args), i as int, old(sc)@), r, final(sc)@),
{
    let ghost toks = token_views(args);
    let t: &str = args[i];
    if sc.trailing {
        return take_positional_exec(l, args, i, sc);
    }
    let awaiting = match sc.pending {
        Some(p) => p.val.is_none(),
        None => false,
    };
    if !awaiting {
        match subcommand_of(l, t) {
            Some(sub) => {
                return Some(Halt::Descend(sub, i + 1));
            },
            None => {},
        }
        if level_has_subcommands(l) && str_eq(t, "help") {
            return Some(Halt::Failed(help_walk_exec(l, args, i + 1)));
        }
    }
    let n = t.unicode_len();
    let dash0 = n >= 1 && t.get_char(0) == '-';
    let dash1 = n >= 2 && t.get_char(1) == '-';
    if n == 2 && dash0 && dash1 {
        sc.trailing = true;
        return None;
    }
    if n > 2 && dash0 && dash1 {
        return long_step_exec(l, args, i, sc);
    }
    if n > 1 && dash0 && !dash1 {
        let c = t.get_char(1);
        match short_key_of(l, c) {
            None => {
                return Some(Halt::Failed(CliErrorKind::UnknownArgument));
            },
            Some(k) => {
                return halt_from(react_exec(args, sc, k, Some(ValRef { tok: i, from: 0 })));
            },
        }
    }
    if awaiting {
        let p = sc.pending.unwrap();
        sc.pending = Some(Pending { key: p.key, val: Some(ValRef { tok: i, from: 0 }) });
        return None;
    }
    take_positional_exec(l, args, i, sc)
}

/// `scan`'s result, as `scan_exec` reports it.
pub open spec fn scan_reported(toks: Seq<Seq<char>>, end: ScanEnd, h: Option<Halt>, after: ScanState) -> bool {
    match end {
        ScanEnd::Failed(e) => h == Some(Halt::Failed(e)),
        ScanEnd::Finished(st) => h is None && after == st && state_wf(toks, st),
        ScanEnd::Descend(st, sub, j) => h == Some(Halt::Descend(sub, j as usize)) && 0 <= j
            <= toks.len() && after == st && state_wf(toks, st),
    }
}

fn scan_exec(l: Level, args: &[&str], start: usize) -> (r: (Option<Halt>, Scanner))
    ensures
        scan_reported(token_views(args), scan(l, token_views(args), start as int, init_state()), r.0, r.1@),
{
    let ghost toks = token_views(args);
    let mut sc = Scanner::new();
    let mut i: usize = start;
    while i < args.len()
        invariant
            toks == token_views(args),
            state_wf(toks, sc@),
            scan(l, toks, start as int, init_state()) == scan(l, toks, i as int, sc@),
        decreases args.len() - i,
    {
        let ghost before = sc@;
        let h = step_exec(l, args, i, &mut sc);
        match h {
            None => {},
            Some(x) => {
                return (Some(x), sc);
            },
        }
        i = i + 1;
    }
    (None, sc)
}

fn validate_exec(l: Level, vals: &Vec<Option<ValRef>>, has_sub: bool) -> (r: Option<CliErrorKind>)
    requires
        vals@.len() == num_keys(),
    ensures
        r == validate(l, vals@, has_sub),
{
    if !has_sub && (l == Level::Service || l == Level::Rules) {
        let mut j: usize = 0;
        while j < vals.len()
            invariant
                !has_sub,
                l == Level::Service || l == Level::Rules,
                j <= vals@.len(),
                forall|k: int| 0 <= k < j ==> #[trigger] vals@[k] is None,
            decreases vals.len() - j,
        {
            if vals[j].is_some() {
                proof {
                    assert(vals@[j as int] is Some);
                    assert(!no_explicit_args(vals@));
                }
                return Some(CliErrorKind::MissingSubcommand);
            }
            j = j + 1;
        }
        return Some(CliErrorKind::DisplayHelpOnMissingArgumentOrSubcommand);
    }
    if l == Level::Run && vals[7].is_some() && vals[8].is_some() {
        return Some(CliErrorKind::ArgumentConflict);
    }
    if l == Level::Replay && vals[12].is_none() {
        return Some(CliErrorKind::MissingRequiredArgument);
    }
    if l == Level::RulesInstall && vals[13].is_none() {
        return Some(CliErrorKind::MissingRequiredArgument);
    }
    None
}

fn close_level_exec(l: Level, args: &[&str], sc: Scanner, has_sub: bool) -> (r: Result<
    LevelMatches,
    CliErrorKind,
>)
    requires
        state_wf(token_views(args), sc@),
    ensures
        match close_level(l, token_views(args), sc@, has_sub) {
            Ok(p) => r matches Ok(m) && m@ == p && level_ok(token_views(args), p, has_sub),
            Err(e) => r matches Err(x) && x == e,
        },
{
    let mut sc = sc;
    match resolve_exec(args, &mut sc) {
        Err(e) => {
            return Err(e);
        },
        Ok(()) => {},
    }
    match validate_exec(l, &sc.vals, has_sub) {
        Some(e) => Err(e),
        None => {
            proof {
                reveal(level_ok);
            }
            Ok(LevelMatches { level: l, vals: sc.vals })
        },
    }
}

proof fn lemma_scan_descends_to_child(l: Level, toks: Seq<Seq<char>>, i: int, st: ScanState)
    ensures
        scan(l, toks, i, st) matches ScanEnd::Descend(_, sub, _) ==> is_child(l, sub) && depth(sub)
            < depth(l),
    decreases toks.len() - i,
{
    if i < toks.len() {
        lemma_subcommand_is_child(l, toks[i]);
        match step(l, toks, i, st) {
            Step::Next(s) => {
                lemma_scan_descends_to_child(l, toks, i + 1, s);
            },
            Step::Stop(_) => {},
        }
    }
}

/// Parse level `l` from token `start` on.
pub fn parse_level_exec(l: Level, args: &[&str], start: usize) -> (r: Result<
    Vec<LevelMatches>,
    CliErrorKind,
>)
    ensures
        match parse_level(l, token_views(args), start as int) {
            Ok(c) => r matches Ok(v) && chain_view(v@) == c && chain_wf(token_views(args), c, l),
            Err(e) => r matches Err(x) && x == e,
        },
    decreases depth(l),
{
    let ghost toks = token_views(args);
    let (h, sc) = scan_exec(l, args, start);
    let ghost sp = scan(l, toks, start as int, init_state());
    proof {
        lemma_scan_descends_to_child(l, toks, start as int, init_state());
    }
    match h {
        None => {
            assert(sp == ScanEnd::Finished(sc@));
            match close_level_exec(l, args, sc, false) {
                Err(e) => Err(e),
                Ok(p) => {
                    let mut v: Vec<LevelMatches> = Vec::new();
                    v.push(p);
                    proof {
                        assert(chain_view(v@) =~= seq![p@]);
                        reveal(level_ok);
                        let c = seq![p@];
                        assert(c[0] == p@);
                        assert(level_ok(toks, c[0], false));
                    }
                    Ok(v)
                },
            }
        },
        Some(Halt::Failed(e)) => {
            assert(sp == ScanEnd::Failed(e));
            Err(e)
        },
        Some(Halt::Descend(sub, j)) => {
            let ghost nargs = args.len();
            assert(toks.len() == nargs);
            assert(sp matches ScanEnd::Descend(st, s2, j2) && st == sc@ && s2 == sub && j2 == j);
            match parse_level_exec(sub, args, j) {
                Err(e) => Err(e),
                Ok(rest) => {
                    match close_level_exec(l, args, sc, true) {
                        Err(e) => Err(e),
                        Ok(p) => {
                            let ghost rest_view = chain_view(rest@);
                            let mut v: Vec<LevelMatches> = Vec::new();
                            v.push(p);
                            let mut rest = rest;
                            v.append(&mut rest);
                            proof {
                                assert(chain_view(v@) =~= seq![p@] + rest_view);
                                lemma_chain_cons(toks, p@, rest_view, l);
                            }
                            Ok(v)
                        },
                    }
                },
            }
        },
    }
}

} // verus!
