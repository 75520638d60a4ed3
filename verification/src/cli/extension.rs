//! How reading a command line changes when tokens are added at its end.
use vstd::prelude::*;
use crate::cli::grammar::{
    depth, first_eq, global_flag, is_escape, is_global, is_long, is_short, key_index,
    lemma_first_eq_bounds, long_key, requires_subcommand, short_key, subcommand, value_error, ArgKey,
    CliErrorKind, Level,
};
use crate::cli::lemmas::{
    lemma_init_wf, lemma_react_wf, lemma_resolve_wf, lemma_scan_wf, lemma_step_wf, tokens_fit,
};
use crate::cli::scan::{
    awaits_value, close_level, help_walk, init_state, long_step, parse_level, react, resolve, scan,
    state_wf, step, store, take_positional, val_of, valid_ref, validate, Parsed, Pending,
    ScanEnd, ScanState, Step, ValRef,
};

verus! {

/// `big` begins with the tokens of `small`.
pub open spec fn extends(big: Seq<Seq<char>>, small: Seq<Seq<char>>) -> bool {
    &&& small.len() <= big.len()
    &&& forall|k: int| 0 <= k < small.len() ==> #[trigger] big[k] == small[k]
}

pub proof fn lemma_store_ext(
    big: Seq<Seq<char>>,
    small: Seq<Seq<char>>,
    st: ScanState,
    k: ArgKey,
    v: Option<ValRef>,
)
    requires
        extends(big, small),
        v matches Some(r) ==> valid_ref(small, r),
    ensures
        store(big, st, k, v) == store(small, st, k, v),
{
    if let Some(r) = v {
        assert(big[r.tok as int] == small[r.tok as int]);
        assert(val_of(big, r) == val_of(small, r));
    }
}

pub proof fn lemma_resolve_ext(big: Seq<Seq<char>>, small: Seq<Seq<char>>, st: ScanState)
    requires
        extends(big, small),
        state_wf(small, st),
    ensures
        resolve(big, st) == resolve(small, st),
{
    if let Some(p) = st.pending {
        lemma_store_ext(big, small, ScanState { pending: None, ..st }, p.key, p.val);
    }
}

pub proof fn lemma_react_ext(
    big: Seq<Seq<char>>,
    small: Seq<Seq<char>>,
    st: ScanState,
    k: ArgKey,
    v: Option<ValRef>,
)
    requires
        extends(big, small),
        state_wf(small, st),
        v matches Some(r) ==> valid_ref(small, r),
    ensures
        react(big, st, k, v) == react(small, st, k, v),
{
    lemma_resolve_ext(big, small, st);
    lemma_resolve_wf(small, st);
    if let Ok(s) = resolve(small, st) {
        lemma_store_ext(big, small, s, k, v);
    }
}

/// A step that does not fail reads nothing beyond its own token.
pub proof fn lemma_step_ext(
    l: Level,
    big: Seq<Seq<char>>,
    small: Seq<Seq<char>>,
    i: int,
    st: ScanState,
)
    requires
        extends(big, small),
        0 <= i < small.len(),
        tokens_fit(small),
        state_wf(small, st),
    ensures
        !(step(l, small, i, st) matches Step::Stop(ScanEnd::Failed(_))) ==> step(l, big, i, st)
            == step(l, small, i, st),
{
    let t = small[i];
    assert(big[i] == t);
    assert(t.len() <= usize::MAX);
    let here = ValRef { tok: i as usize, from: 0 };
    lemma_resolve_ext(big, small, st);
    lemma_react_ext(big, small, st, ArgKey::Help, Some(here));
    if is_long(t) {
        let e = first_eq(t, 2);
        lemma_first_eq_bounds(t, 2);
        if let Some(k) = long_key(l, t.subrange(2, e)) {
            lemma_react_ext(big, small, st, k, Some(here));
            if e < t.len() {
                lemma_react_ext(big, small, st, k, Some(ValRef { tok: i as usize, from: (e + 1) as usize }));
            }
        }
        assert(long_step(l, big, i, st) == long_step(l, small, i, st));
    }
    if is_short(t) {
        if let Some(k) = short_key(l, t[1]) {
            lemma_react_ext(big, small, st, k, Some(here));
        }
    }
    assert(take_positional(l, big, i, st) == take_positional(l, small, i, st));
}

/// Reading a level over extended tokens continues where the shorter reading
/// finished, and descends where it descended.
pub proof fn lemma_scan_ext(
    l: Level,
    big: Seq<Seq<char>>,
    small: Seq<Seq<char>>,
    i: int,
    st: ScanState,
)
    requires
        extends(big, small),
        0 <= i <= small.len(),
        tokens_fit(small),
        state_wf(small, st),
    ensures
        match scan(l, small, i, st) {
            ScanEnd::Finished(s) => scan(l, big, i, st) == scan(l, big, small.len() as int, s),
            ScanEnd::Descend(s, sub, j) => scan(l, big, i, st) == ScanEnd::Descend(s, sub, j),
            ScanEnd::Failed(_) => true,
        },
    decreases small.len() - i,
{
    if i < small.len() {
        lemma_step_ext(l, big, small, i, st);
        lemma_step_wf(l, small, i, st);
        if let Step::Next(s) = step(l, small, i, st) {
            lemma_scan_ext(l, big, small, i + 1, s);
        }
    }
}

/// Without a `--` among the tokens read, a level never turns to trailing values.
pub proof fn lemma_scan_not_trailing(l: Level, toks: Seq<Seq<char>>, i: int, st: ScanState)
    requires
        0 <= i,
        tokens_fit(toks),
        state_wf(toks, st),
        !st.trailing,
        forall|k: int| i <= k < toks.len() ==> !is_escape(#[trigger] toks[k]),
    ensures
        match scan(l, toks, i, st) {
            ScanEnd::Finished(s) => !s.trailing,
            ScanEnd::Descend(s, _, _) => !s.trailing,
            ScanEnd::Failed(_) => true,
        },
    decreases toks.len() - i,
{
    if i < toks.len() {
        let t = toks[i];
        assert(!is_escape(toks[i]));
        lemma_step_wf(l, toks, i, st);
        lemma_resolve_wf(toks, st);
        let here = ValRef { tok: i as usize, from: 0 };
        lemma_react_wf(toks, st, ArgKey::Help, Some(here));
        if is_long(t) {
            let e = first_eq(t, 2);
            lemma_first_eq_bounds(t, 2);
            if let Some(k) = long_key(l, t.subrange(2, e)) {
                lemma_react_wf(toks, st, k, Some(here));
                if e < t.len() {
                    lemma_react_wf(toks, st, k, Some(ValRef { tok: i as usize, from: (e + 1) as usize }));
                }
            }
        }
        if is_short(t) {
            if let Some(k) = short_key(l, t[1]) {
                lemma_react_wf(toks, st, k, Some(here));
            }
        }
        if let Step::Next(s) = step(l, toks, i, st) {
            assert(!s.trailing);
            lemma_scan_not_trailing(l, toks, i + 1, s);
        }
    }
}


/// A token that can only be read as a value: not empty, and not a flag.
pub open spec fn is_plain_value(p: Seq<char>) -> bool {
    p.len() > 0 && !(p.len() > 1 && p[0] == '-')
}

/// Level `q` with its value for global option `g` at `r`.
pub open spec fn with_global(q: Parsed, g: ArgKey, r: ValRef) -> Parsed {
    Parsed { vals: q.vals.update(key_index(g), Some(r)), ..q }
}

/// The chain with its deepest level's value for `g` at `r`.
pub open spec fn chain_with_global(c: Seq<Parsed>, g: ArgKey, r: ValRef) -> Seq<Parsed> {
    c.update(c.len() - 1, with_global(c[c.len() - 1], g, r))
}

/// Global option `g` is written `flag` and denotes `g` at every command.
pub proof fn lemma_global_flag(l: Level, g: ArgKey)
    requires
        is_global(g),
    ensures
        is_long(global_flag(g)),
        !is_escape(global_flag(g)),
        first_eq(global_flag(g), 2) == global_flag(g).len(),
        long_key(l, global_flag(g).subrange(2, global_flag(g).len() as int)) == Some(g),
        subcommand(l, global_flag(g)) is None,
        global_flag(g) != "help"@,
{
    reveal_strlit("--config");
    reveal_strlit("--log-level");
    reveal_strlit("config");
    reveal_strlit("log-level");
    reveal_strlit("help");
    reveal_strlit("version");
    let t = global_flag(g);
    crate::cli::laws::lemma_dash_names_no_subcommand(l, t);
    crate::cli::laws::lemma_first_eq_none(t, 2);
    if g is Config {
        assert(t.subrange(2, t.len() as int) =~= "config"@);
    } else {
        assert(t.subrange(2, t.len() as int) =~= "log-level"@);
    }
}

pub proof fn lemma_tokens_fit_prefix(big: Seq<Seq<char>>, small: Seq<Seq<char>>)
    requires
        tokens_fit(big),
        extends(big, small),
    ensures
        tokens_fit(small),
{
    assert forall|k: int| 0 <= k < small.len() implies #[trigger] small[k].len() <= usize::MAX by {
        assert(big[k] == small[k]);
    }
}

/// The deepest level, having read its tokens, reads global option `g` and
/// its value `p` after them.
proof fn lemma_global_tail(
    l: Level,
    small: Seq<Seq<char>>,
    big: Seq<Seq<char>>,
    s: ScanState,
    g: ArgKey,
    p: Seq<char>,
)
    requires
        big == small + seq![global_flag(g), p],
        tokens_fit(big),
        state_wf(small, s),
        !s.trailing,
        close_level(l, small, s, false) matches Ok(q) && q.vals[key_index(g)] is None,
        is_global(g),
        is_plain_value(p),
        value_error(g, p) is None,
    ensures
        scan(l, big, small.len() as int, s) matches ScanEnd::Finished(s2) && close_level(l, big, s2, false)
            == Ok::<Parsed, CliErrorKind>(
            with_global(
                close_level(l, small, s, false)->Ok_0,
                g,
                ValRef { tok: (small.len() + 1) as usize, from: 0 },
            ),
        ),
{
    let n = small.len() as int;
    let t = global_flag(g);
    assert(extends(big, small));
    assert(big[n] == t);
    assert(big[n + 1] == p);
    assert(big.len() == n + 2);
    lemma_resolve_ext(big, small, s);
    lemma_resolve_wf(small, s);
    let s0 = resolve(small, s)->Ok_0;
    assert(!awaits_value(s)) by {
        if let Some(pp) = s.pending {
            if pp.val is None {
                assert(resolve(small, s) is Err);
            }
        }
    }
    lemma_global_flag(l, g);
    crate::cli::lemmas::lemma_key_slot(g);
    let s1 = ScanState { pending: Some(Pending { key: g, val: None }), ..s0 };
    assert(step(l, big, n, s) == Step::Next(s1));
    let r = ValRef { tok: (n + 1) as usize, from: 0 };
    let s2 = ScanState { pending: Some(Pending { key: g, val: Some(r) }), ..s1 };
    assert(step(l, big, n + 1, s1) == Step::Next(s2));
    assert(scan(l, big, n + 2, s2) == ScanEnd::Finished(s2));
    assert(scan(l, big, n + 1, s1) == ScanEnd::Finished(s2));
    assert(val_of(big, r) =~= p);
    let s3 = ScanState { vals: s0.vals.update(key_index(g), Some(r)), pending: None, ..s0 };
    assert(resolve(big, s2) == Ok::<ScanState, CliErrorKind>(s3));
    assert(validate(l, s3.vals, false) == validate(l, s0.vals, false));
}

/// Appending global option `g` with value `p` to a parse that succeeded
/// without it sets it at the deepest level and changes nothing else.
pub proof fn lemma_parse_level_global_appended(
    l: Level,
    small: Seq<Seq<char>>,
    big: Seq<Seq<char>>,
    i: int,
    g: ArgKey,
    p: Seq<char>,
)
    requires
        big == small + seq![global_flag(g), p],
        tokens_fit(big),
        0 <= i <= small.len(),
        forall|k: int| i <= k < small.len() ==> !is_escape(#[trigger] small[k]),
        is_global(g),
        is_plain_value(p),
        value_error(g, p) is None,
        parse_level(l, small, i) matches Ok(c) && forall|m: int|
            0 <= m < c.len() ==> (#[trigger] c[m]).vals[key_index(g)] is None,
    ensures
        parse_level(l, big, i) == Ok::<Seq<Parsed>, CliErrorKind>(
            chain_with_global(
                parse_level(l, small, i)->Ok_0,
                g,
                ValRef { tok: (small.len() + 1) as usize, from: 0 },
            ),
        ),
    decreases depth(l),
{
    let r = ValRef { tok: (small.len() + 1) as usize, from: 0 };
    assert(extends(big, small));
    lemma_tokens_fit_prefix(big, small);
    lemma_init_wf(small);
    lemma_scan_wf(l, small, i, init_state());
    lemma_scan_ext(l, big, small, i, init_state());
    lemma_scan_not_trailing(l, small, i, init_state());
    let c = parse_level(l, small, i)->Ok_0;
    match scan(l, small, i, init_state()) {
        ScanEnd::Finished(s) => {
            let q = close_level(l, small, s, false)->Ok_0;
            assert(c == seq![q]);
            assert(c[0] == q);
            lemma_global_tail(l, small, big, s, g, p);
            assert(chain_with_global(c, g, r) =~= seq![with_global(q, g, r)]);
        },
        ScanEnd::Descend(s, sub, j) => {
            crate::cli::lemmas::lemma_parse_level_wf(sub, small, j);
            let c_sub = parse_level(sub, small, j)->Ok_0;
            let q = close_level(l, small, s, true)->Ok_0;
            assert(c == seq![q] + c_sub);
            assert forall|m: int| 0 <= m < c_sub.len() implies (#[trigger] c_sub[m]).vals[key_index(g)]
                is None by {
                assert(c_sub[m] == c[m + 1]);
            }
            lemma_parse_level_global_appended(sub, small, big, j, g, p);
            lemma_resolve_ext(big, small, s);
            assert(close_level(l, big, s, true) == close_level(l, small, s, true));
            assert(chain_with_global(c, g, r) =~= seq![q] + chain_with_global(c_sub, g, r));
        },
        ScanEnd::Failed(_) => {},
    }
}

} // verus!
