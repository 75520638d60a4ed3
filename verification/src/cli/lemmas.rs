//! Facts about reading command lines that the laws build on.
use vstd::prelude::*;
use crate::cli::grammar::{
    depth, is_child, key_at, key_index, lemma_first_eq_bounds, lemma_subcommand_is_child,
    num_keys, takes_value, value_error, ArgKey, CliErrorKind, Level, first_eq,
};
use crate::cli::scan::{
    chain_wf, close_level, init_state, lemma_chain_cons, level_ok, long_step, parse_level, react,
    resolve, scan, state_wf, step, store, take_positional, val_of, valid_ref, vals_wf, Parsed,
    Pending, ScanEnd, ScanState, Step, ValRef,
};

verus! {

/// Token lists that a program can hold: their lengths fit in `usize`.
pub open spec fn tokens_fit(toks: Seq<Seq<char>>) -> bool {
    &&& toks.len() <= usize::MAX
    &&& forall|k: int| 0 <= k < toks.len() ==> #[trigger] toks[k].len() <= usize::MAX
}

pub proof fn lemma_key_slot(k: ArgKey)
    ensures
        0 <= key_index(k) < num_keys(),
        key_at(key_index(k)) == k,
{
}

pub proof fn lemma_store_wf(toks: Seq<Seq<char>>, st: ScanState, k: ArgKey, v: Option<ValRef>)
    requires
        state_wf(toks, st),
        v matches Some(r) ==> valid_ref(toks, r),
    ensures
        store(toks, st, k, v) matches Ok(s) ==> state_wf(toks, s) && s.pending == st.pending
            && s.trailing == st.trailing && s.pos_used == st.pos_used,
{
    lemma_key_slot(k);
    if let Ok(s) = store(toks, st, k, v) {
        assert forall|j: int| 0 <= j < num_keys() implies (#[trigger] s.vals[j] matches Some(r)
            ==> valid_ref(toks, r) && value_error(key_at(j), val_of(toks, r)) is None) by {
            if j != key_index(k) {
                assert(s.vals[j] == st.vals[j]);
            }
        }
    }
}

pub proof fn lemma_resolve_wf(toks: Seq<Seq<char>>, st: ScanState)
    requires
        state_wf(toks, st),
    ensures
        resolve(toks, st) matches Ok(s) ==> state_wf(toks, s) && s.pending is None && s.trailing
            == st.trailing && s.pos_used == st.pos_used,
{
    if let Some(p) = st.pending {
        lemma_store_wf(toks, ScanState { pending: None, ..st }, p.key, p.val);
    }
}

pub proof fn lemma_react_wf(toks: Seq<Seq<char>>, st: ScanState, k: ArgKey, v: Option<ValRef>)
    requires
        state_wf(toks, st),
        v matches Some(r) ==> valid_ref(toks, r),
    ensures
        react(toks, st, k, v) matches Ok(s) ==> state_wf(toks, s) && s.pending is None
            && s.trailing == st.trailing && s.pos_used == st.pos_used,
{
    lemma_resolve_wf(toks, st);
    if let Ok(s) = resolve(toks, st) {
        lemma_store_wf(toks, s, k, v);
    }
}

pub proof fn lemma_step_wf(l: Level, toks: Seq<Seq<char>>, i: int, st: ScanState)
    requires
        0 <= i < toks.len(),
        tokens_fit(toks),
        state_wf(toks, st),
    ensures
        match step(l, toks, i, st) {
            Step::Next(s) => state_wf(toks, s),
            Step::Stop(ScanEnd::Descend(s, sub, j)) => state_wf(toks, s) && j == i + 1
                && is_child(l, sub),
            Step::Stop(ScanEnd::Finished(_)) => false,
            Step::Stop(ScanEnd::Failed(_)) => true,
        },
{
    let t = toks[i];
    assert(t.len() <= usize::MAX);
    let here = ValRef { tok: i as usize, from: 0 };
    assert(valid_ref(toks, here));
    lemma_subcommand_is_child(l, t);
    lemma_resolve_wf(toks, st);
    lemma_react_wf(toks, st, crate::cli::grammar::ArgKey::Help, Some(here));
    if is_long(t) {
        let e = first_eq(t, 2);
        lemma_first_eq_bounds(t, 2);
        if e < t.len() {
            let r = ValRef { tok: i as usize, from: (e + 1) as usize };
            assert(valid_ref(toks, r));
            lemma_react_wf(toks, st, ArgKey::Help, Some(r));
            if let Some(k) = crate::cli::grammar::long_key(l, t.subrange(2, e)) {
                lemma_react_wf(toks, st, k, Some(r));
            }
        }
        if let Some(k) = crate::cli::grammar::long_key(l, t.subrange(2, e)) {
            lemma_react_wf(toks, st, k, Some(here));
        }
    }
    if is_short(t) {
        if let Some(k) = crate::cli::grammar::short_key(l, t[1]) {
            lemma_react_wf(toks, st, k, Some(here));
        }
    }
}

use crate::cli::grammar::{is_long, is_short};

pub proof fn lemma_scan_wf(l: Level, toks: Seq<Seq<char>>, i: int, st: ScanState)
    requires
        0 <= i,
        tokens_fit(toks),
        state_wf(toks, st),
    ensures
        match scan(l, toks, i, st) {
            ScanEnd::Finished(s) => state_wf(toks, s),
            ScanEnd::Descend(s, sub, j) => state_wf(toks, s) && i < j <= toks.len() && is_child(
                l,
                sub,
            ),
            ScanEnd::Failed(_) => true,
        },
    decreases toks.len() - i,
{
    if i < toks.len() {
        lemma_step_wf(l, toks, i, st);
        if let Step::Next(s) = step(l, toks, i, st) {
            lemma_scan_wf(l, toks, i + 1, s);
        }
    }
}

pub proof fn lemma_init_wf(toks: Seq<Seq<char>>)
    ensures
        state_wf(toks, init_state()),
{
}

pub proof fn lemma_close_level_ok(l: Level, toks: Seq<Seq<char>>, st: ScanState, has_sub: bool)
    requires
        state_wf(toks, st),
    ensures
        close_level(l, toks, st, has_sub) matches Ok(p) ==> p.level == l && level_ok(
            toks,
            p,
            has_sub,
        ),
{
    reveal(level_ok);
    lemma_resolve_wf(toks, st);
}

/// Every successful parse yields a well-formed chain of levels.
pub proof fn lemma_parse_level_wf(l: Level, toks: Seq<Seq<char>>, i: int)
    requires
        0 <= i,
        tokens_fit(toks),
    ensures
        parse_level(l, toks, i) matches Ok(c) ==> chain_wf(toks, c, l),
    decreases depth(l),
{
    lemma_init_wf(toks);
    lemma_scan_wf(l, toks, i, init_state());
    match scan(l, toks, i, init_state()) {
        ScanEnd::Finished(st) => {
            lemma_close_level_ok(l, toks, st, false);
            if let Ok(p) = close_level(l, toks, st, false) {
                reveal(level_ok);
                let c = seq![p];
                assert(c[0] == p);
            }
        },
        ScanEnd::Descend(st, sub, j) => {
            lemma_parse_level_wf(sub, toks, j);
            lemma_close_level_ok(l, toks, st, true);
            if depth(sub) < depth(l) {
                if let Ok(chain) = parse_level(sub, toks, j) {
                    if let Ok(p) = close_level(l, toks, st, true) {
                        lemma_chain_cons(toks, p, chain, l);
                    }
                }
            }
        },
        ScanEnd::Failed(_) => {},
    }
}

} // verus!
