//! How reading a command line changes when tokens are inserted before the
//! ones a level reads: it reads the same values, found `d` tokens later.
use vstd::prelude::*;
use crate::cli::grammar::{
    depth, first_eq, is_global, is_long, is_short, key_index, long_key, num_keys, requires_subcommand,
    short_key, subcommand, value_error, ArgKey, CliErrorKind, Level,
};
use crate::cli::scan::{
    close_level, help_walk, init_state, no_explicit_args, parse_level, react, resolve, scan, step,
    store, val_of, validate, Parsed, Pending, ScanEnd, ScanState, Step, ValRef,
};

verus! {

/// Tokens `tb` hold the tokens of `ts` from `lo` on, `d` places later.
pub open spec fn tokens_shifted(tb: Seq<Seq<char>>, ts: Seq<Seq<char>>, d: int, lo: int) -> bool {
    &&& 0 <= d
    &&& 0 <= lo
    &&& tb.len() == ts.len() + d
    &&& tb.len() <= usize::MAX
    &&& forall|k: int| lo <= k < ts.len() ==> tb[k + d] == #[trigger] ts[k]
}

/// Two slots that hold the same value, or are both empty; each is read in its
/// own tokens.
pub open spec fn same_value(
    tb: Seq<Seq<char>>,
    ob: Option<ValRef>,
    ts: Seq<Seq<char>>,
    os: Option<ValRef>,
) -> bool {
    match ob {
        None => os is None,
        Some(rb) => os matches Some(rs) && val_of(tb, rb) == val_of(ts, rs),
    }
}

/// Slot `j` of `vb` corresponds to slot `j` of `vs`. With `held`, the
/// configuration slot of `vb` holds `held` instead, and that of `vs` is empty.
pub open spec fn slot_matches(
    tb: Seq<Seq<char>>,
    vb: Seq<Option<ValRef>>,
    ts: Seq<Seq<char>>,
    vs: Seq<Option<ValRef>>,
    held: Option<(ArgKey, Seq<char>)>,
    j: int,
) -> bool {
    match held {
        Some((g, v)) => if j == key_index(g) {
            vb[j] matches Some(r) && val_of(tb, r) == v && vs[j] is None
        } else {
            same_value(tb, vb[j], ts, vs[j])
        },
        None => same_value(tb, vb[j], ts, vs[j]),
    }
}

pub open spec fn vals_match(
    tb: Seq<Seq<char>>,
    vb: Seq<Option<ValRef>>,
    ts: Seq<Seq<char>>,
    vs: Seq<Option<ValRef>>,
    held: Option<(ArgKey, Seq<char>)>,
) -> bool {
    &&& vb.len() == num_keys()
    &&& vs.len() == num_keys()
    &&& forall|j: int| 0 <= j < num_keys() ==> #[trigger] slot_matches(tb, vb, ts, vs, held, j)
}

pub open spec fn pending_matches(
    tb: Seq<Seq<char>>,
    pb: Option<Pending>,
    ts: Seq<Seq<char>>,
    ps: Option<Pending>,
) -> bool {
    match pb {
        None => ps is None,
        Some(b) => ps matches Some(s) && b.key == s.key && same_value(tb, b.val, ts, s.val),
    }
}

/// Two reading states that hold the same values, up to `held`.
pub open spec fn state_matches(
    tb: Seq<Seq<char>>,
    b: ScanState,
    ts: Seq<Seq<char>>,
    s: ScanState,
    held: Option<(ArgKey, Seq<char>)>,
) -> bool {
    &&& vals_match(tb, b.vals, ts, s.vals, held)
    &&& pending_matches(tb, b.pending, ts, s.pending)
    &&& b.trailing == s.trailing
    &&& b.pos_used == s.pos_used
}

/// The slot of the global option that `held` sets aside is empty in `vals`.
pub open spec fn slot_free(vals: Seq<Option<ValRef>>, held: Option<(ArgKey, Seq<char>)>) -> bool {
    match held {
        Some((g, _)) => vals[key_index(g)] is None,
        None => true,
    }
}

/// `held` sets aside a global option, if anything.
pub open spec fn held_ok(held: Option<(ArgKey, Seq<char>)>) -> bool {
    match held {
        Some((g, _)) => is_global(g),
        None => true,
    }
}

pub proof fn lemma_store_match(
    tb: Seq<Seq<char>>,
    b: ScanState,
    ts: Seq<Seq<char>>,
    s: ScanState,
    held: Option<(ArgKey, Seq<char>)>,
    k: ArgKey,
    vb: Option<ValRef>,
    vs: Option<ValRef>,
)
    requires
        state_matches(tb, b, ts, s, held),
        same_value(tb, vb, ts, vs),
        held_ok(held),
    ensures
        match store(ts, s, k, vs) {
            Ok(s1) => slot_free(s1.vals, held) ==> (store(tb, b, k, vb) matches Ok(b1) && state_matches(
                tb,
                b1,
                ts,
                s1,
                held,
            )),
            Err(_) => true,
        },
{
    crate::cli::lemmas::lemma_key_slot(k);
    let i = key_index(k);
    assert(slot_matches(tb, b.vals, ts, s.vals, held, i));
    if let Ok(s1) = store(ts, s, k, vs) {
        if slot_free(s1.vals, held) {
            if let Some((g, _)) = held {
                crate::cli::lemmas::lemma_key_slot(g);
                assert(i != key_index(g));
            }
            let b1 = store(tb, b, k, vb)->Ok_0;
            assert(store(tb, b, k, vb) is Ok);
            assert forall|j: int| 0 <= j < num_keys() implies #[trigger] slot_matches(
                tb,
                b1.vals,
                ts,
                s1.vals,
                held,
                j,
            ) by {
                assert(slot_matches(tb, b.vals, ts, s.vals, held, j));
            }
        }
    }
}

pub proof fn lemma_resolve_match(
    tb: Seq<Seq<char>>,
    b: ScanState,
    ts: Seq<Seq<char>>,
    s: ScanState,
    held: Option<(ArgKey, Seq<char>)>,
)
    requires
        state_matches(tb, b, ts, s, held),
        held_ok(held),
    ensures
        match resolve(ts, s) {
            Ok(s1) => slot_free(s1.vals, held) ==> (resolve(tb, b) matches Ok(b1) && state_matches(
                tb,
                b1,
                ts,
                s1,
                held,
            )),
            Err(_) => true,
        },
{
    if let Some(ps) = s.pending {
        let pb = b.pending->0;
        lemma_store_match(
            tb,
            ScanState { pending: None, ..b },
            ts,
            ScanState { pending: None, ..s },
            held,
            ps.key,
            pb.val,
            ps.val,
        );
    }
}

pub proof fn lemma_react_match(
    tb: Seq<Seq<char>>,
    b: ScanState,
    ts: Seq<Seq<char>>,
    s: ScanState,
    held: Option<(ArgKey, Seq<char>)>,
    k: ArgKey,
    vb: Option<ValRef>,
    vs: Option<ValRef>,
)
    requires
        state_matches(tb, b, ts, s, held),
        same_value(tb, vb, ts, vs),
        held_ok(held),
    ensures
        match react(ts, s, k, vs) {
            Ok(s2) => slot_free(s2.vals, held) ==> (react(tb, b, k, vb) matches Ok(b2) && state_matches(
                tb,
                b2,
                ts,
                s2,
                held,
            )),
            Err(_) => true,
        },
{
    lemma_resolve_match(tb, b, ts, s, held);
    if let Ok(s1) = resolve(ts, s) {
        if let Ok(s2) = store(ts, s1, k, vs) {
            if slot_free(s2.vals, held) {
                crate::cli::lemmas::lemma_key_slot(k);
                assert(slot_free(s1.vals, held));
                let b1 = resolve(tb, b)->Ok_0;
                lemma_store_match(tb, b1, ts, s1, held, k, vb, vs);
            }
        }
    }
}

/// A set slot stays set while a level is read.
pub proof fn lemma_react_keeps_slot(
    toks: Seq<Seq<char>>,
    st: ScanState,
    k: ArgKey,
    v: Option<ValRef>,
    g: ArgKey,
)
    requires
        st.vals.len() == num_keys(),
    ensures
        resolve(toks, st) matches Ok(s) ==> s.vals.len() == num_keys() && (st.vals[key_index(g)] is Some ==> s.vals[key_index(g)] is Some),
        react(toks, st, k, v) matches Ok(s) ==> s.vals.len() == num_keys() && (st.vals[key_index(g)] is Some ==> s.vals[key_index(g)] is Some),
{
    crate::cli::lemmas::lemma_key_slot(k);
    if let Some(p) = st.pending {
        crate::cli::lemmas::lemma_key_slot(p.key);
    }
    crate::cli::lemmas::lemma_key_slot(g);
}

pub proof fn lemma_step_keeps_slot(l: Level, toks: Seq<Seq<char>>, i: int, st: ScanState, g: ArgKey)
    requires
        0 <= i < toks.len(),
        st.vals.len() == num_keys(),
    ensures
        step(l, toks, i, st) matches Step::Next(s) ==> s.vals.len() == num_keys() && (st.vals[key_index(g)] is Some ==> s.vals[key_index(g)] is Some),
{
    let t = toks[i];
    let here = ValRef { tok: i as usize, from: 0 };
    lemma_react_keeps_slot(toks, st, ArgKey::Help, Some(here), g);
    if is_long(t) {
        let e = first_eq(t, 2);
        if let Some(k) = long_key(l, t.subrange(2, e)) {
            lemma_react_keeps_slot(toks, st, k, Some(here), g);
            lemma_react_keeps_slot(toks, st, k, Some(ValRef { tok: i as usize, from: (e + 1) as usize }), g);
        }
    }
    if is_short(t) {
        if let Some(k) = short_key(l, t[1]) {
            lemma_react_keeps_slot(toks, st, k, Some(here), g);
        }
    }
}

pub proof fn lemma_scan_keeps_slot(l: Level, toks: Seq<Seq<char>>, i: int, st: ScanState, g: ArgKey)
    requires
        0 <= i,
        st.vals.len() == num_keys(),
    ensures
        match scan(l, toks, i, st) {
            ScanEnd::Finished(s) => s.vals.len() == num_keys() && (st.vals[key_index(g)] is Some
                ==> s.vals[key_index(g)] is Some),
            ScanEnd::Descend(s, _, _) => s.vals.len() == num_keys() && (st.vals[key_index(g)] is Some ==> s.vals[key_index(g)] is Some),
            ScanEnd::Failed(_) => true,
        },
    decreases toks.len() - i,
{
    if i < toks.len() {
        lemma_step_keeps_slot(l, toks, i, st, g);
        if let Step::Next(s) = step(l, toks, i, st) {
            lemma_scan_keeps_slot(l, toks, i + 1, s, g);
        }
    }
}

/// `help` walks the same names in both token lists.
pub proof fn lemma_help_walk_shift(
    at: Option<Level>,
    tb: Seq<Seq<char>>,
    ts: Seq<Seq<char>>,
    d: int,
    lo: int,
    j: int,
)
    requires
        tokens_shifted(tb, ts, d, lo),
        lo <= j,
    ensures
        help_walk(at, tb, j + d) == help_walk(at, ts, j),
    decreases ts.len() - j,
{
    if j < ts.len() {
        assert(tb[j + d] == ts[j]);
        if let Some(l) = at {
            match subcommand(l, ts[j]) {
                Some(sub) => lemma_help_walk_shift(Some(sub), tb, ts, d, lo, j + 1),
                None => lemma_help_walk_shift(None, tb, ts, d, lo, j + 1),
            }
        }
    }
}

/// A value found at token `i` of `ts` is found at token `i + d` of `tb`.
pub proof fn lemma_here_shift(tb: Seq<Seq<char>>, ts: Seq<Seq<char>>, d: int, lo: int, i: int, from: usize)
    requires
        tokens_shifted(tb, ts, d, lo),
        lo <= i < ts.len(),
    ensures
        val_of(tb, ValRef { tok: (i + d) as usize, from }) == val_of(ts, ValRef { tok: i as usize, from }),
        same_value(
            tb,
            Some(ValRef { tok: (i + d) as usize, from }),
            ts,
            Some(ValRef { tok: i as usize, from }),
        ),
{
    assert(tb[i + d] == ts[i]);
}

/// Reading token `i` of `ts` and token `i + d` of `tb` from matching states
/// gives matching states, or descends into the same subcommand.
pub proof fn lemma_step_match(
    l: Level,
    tb: Seq<Seq<char>>,
    ts: Seq<Seq<char>>,
    d: int,
    lo: int,
    i: int,
    b: ScanState,
    s: ScanState,
    held: Option<(ArgKey, Seq<char>)>,
)
    requires
        tokens_shifted(tb, ts, d, lo),
        lo <= i < ts.len(),
        state_matches(tb, b, ts, s, held),
        held_ok(held),
    ensures
        match step(l, ts, i, s) {
            Step::Next(s1) => slot_free(s1.vals, held) ==> (step(l, tb, i + d, b) matches Step::Next(b1)
                && state_matches(tb, b1, ts, s1, held)),
            Step::Stop(ScanEnd::Descend(s1, sub, j)) => s1 == s && j == i + 1 && step(l, tb, i + d, b)
                == Step::Stop(ScanEnd::Descend(b, sub, j + d)),
            _ => true,
        },
{
    let t = ts[i];
    assert(tb[i + d] == t);
    let hs = ValRef { tok: i as usize, from: 0 };
    let hb = ValRef { tok: (i + d) as usize, from: 0 };
    lemma_here_shift(tb, ts, d, lo, i, 0);
    lemma_help_walk_shift(Some(l), tb, ts, d, lo, i + 1);
    lemma_resolve_match(tb, b, ts, s, held);
    lemma_react_match(tb, b, ts, s, held, ArgKey::Help, Some(hb), Some(hs));
    assert(crate::cli::scan::awaits_value(b) == crate::cli::scan::awaits_value(s));
    if is_long(t) {
        let e = first_eq(t, 2);
        if let Some(k) = long_key(l, t.subrange(2, e)) {
            lemma_react_match(tb, b, ts, s, held, k, Some(hb), Some(hs));
            let f = (e + 1) as usize;
            lemma_here_shift(tb, ts, d, lo, i, f);
            lemma_react_match(
                tb,
                b,
                ts,
                s,
                held,
                k,
                Some(ValRef { tok: (i + d) as usize, from: f }),
                Some(ValRef { tok: i as usize, from: f }),
            );
        }
    }
    if is_short(t) {
        if let Some(k) = short_key(l, t[1]) {
            lemma_react_match(tb, b, ts, s, held, k, Some(hb), Some(hs));
        }
    }
}

/// Reading a level from matching states gives matching ends.
pub proof fn lemma_scan_match(
    l: Level,
    tb: Seq<Seq<char>>,
    ts: Seq<Seq<char>>,
    d: int,
    lo: int,
    i: int,
    b: ScanState,
    s: ScanState,
    held: Option<(ArgKey, Seq<char>)>,
)
    requires
        tokens_shifted(tb, ts, d, lo),
        lo <= i <= ts.len(),
        state_matches(tb, b, ts, s, held),
        held_ok(held),
    ensures
        match scan(l, ts, i, s) {
            ScanEnd::Finished(se) => slot_free(se.vals, held) ==> (scan(l, tb, i + d, b) matches ScanEnd::Finished(
                be,
            ) && state_matches(tb, be, ts, se, held)),
            ScanEnd::Descend(se, sub, j) => slot_free(se.vals, held) ==> (i < j <= ts.len() && (scan(
                l,
                tb,
                i + d,
                b,
            ) matches ScanEnd::Descend(be, sub2, j2) && sub2 == sub && j2 == j + d && state_matches(
                tb,
                be,
                ts,
                se,
                held,
            ))),
            ScanEnd::Failed(_) => true,
        },
    decreases ts.len() - i,
{
    if i < ts.len() {
        lemma_step_match(l, tb, ts, d, lo, i, b, s, held);
        if let Some((g, _)) = held {
            lemma_step_keeps_slot(l, ts, i, s, g);
        }
        if let Step::Next(s1) = step(l, ts, i, s) {
            if let Some((g, _)) = held {
                lemma_scan_keeps_slot(l, ts, i + 1, s1, g);
            }
            if slot_free(s1.vals, held) {
                let b1 = step(l, tb, i + d, b)->Next_0;
                lemma_scan_match(l, tb, ts, d, lo, i + 1, b1, s1, held);
            }
        }
    }
}

/// Matching values pass or fail the same checks.
pub proof fn lemma_validate_match(
    l: Level,
    tb: Seq<Seq<char>>,
    vb: Seq<Option<ValRef>>,
    ts: Seq<Seq<char>>,
    vs: Seq<Option<ValRef>>,
    held: Option<(ArgKey, Seq<char>)>,
    h: bool,
)
    requires
        vals_match(tb, vb, ts, vs, held),
        held is Some ==> !requires_subcommand(l),
        held_ok(held),
    ensures
        validate(l, vb, h) == validate(l, vs, h),
{
    assert(slot_matches(tb, vb, ts, vs, held, key_index(ArgKey::Console)));
    assert(slot_matches(tb, vb, ts, vs, held, key_index(ArgKey::NoConsole)));
    assert(slot_matches(tb, vb, ts, vs, held, key_index(ArgKey::Recording)));
    assert(slot_matches(tb, vb, ts, vs, held, key_index(ArgKey::PackName)));
    if requires_subcommand(l) {
        assert(no_explicit_args(vb) == no_explicit_args(vs)) by {
            assert forall|j: int| 0 <= j < vs.len() implies (vb[j] is None <==> #[trigger] vs[j] is None) by {
                assert(slot_matches(tb, vb, ts, vs, held, j));
            }
            if no_explicit_args(vs) {
                assert forall|j: int| 0 <= j < vb.len() implies #[trigger] vb[j] is None by {
                    assert(slot_matches(tb, vb, ts, vs, held, j));
                    assert(vs[j] is None);
                }
            }
            if no_explicit_args(vb) {
                assert forall|j: int| 0 <= j < vs.len() implies #[trigger] vs[j] is None by {
                    assert(slot_matches(tb, vb, ts, vs, held, j));
                    assert(vb[j] is None);
                }
            }
        }
    }
}

/// Two settled levels with the same command and matching values.
pub open spec fn parsed_matches(
    tb: Seq<Seq<char>>,
    qb: Parsed,
    ts: Seq<Seq<char>>,
    q: Parsed,
    held: Option<(ArgKey, Seq<char>)>,
) -> bool {
    qb.level == q.level && vals_match(tb, qb.vals, ts, q.vals, held)
}

/// Two chains of the same commands with matching values; `held` concerns the
/// outermost level only.
pub open spec fn chain_matches(
    tb: Seq<Seq<char>>,
    cb: Seq<Parsed>,
    ts: Seq<Seq<char>>,
    cs: Seq<Parsed>,
    held: Option<(ArgKey, Seq<char>)>,
) -> bool {
    &&& cb.len() == cs.len()
    &&& cs.len() >= 1
    &&& parsed_matches(tb, cb[0], ts, cs[0], held)
    &&& forall|m: int| 1 <= m < cs.len() ==> #[trigger] parsed_matches(tb, cb[m], ts, cs[m], None)
}

pub proof fn lemma_close_match(
    l: Level,
    tb: Seq<Seq<char>>,
    b: ScanState,
    ts: Seq<Seq<char>>,
    s: ScanState,
    held: Option<(ArgKey, Seq<char>)>,
    h: bool,
)
    requires
        state_matches(tb, b, ts, s, held),
        held is Some ==> !requires_subcommand(l),
        held_ok(held),
    ensures
        match close_level(l, ts, s, h) {
            Ok(q) => slot_free(q.vals, held) ==> (close_level(
                l,
                tb,
                b,
                h,
            ) matches Ok(qb) && parsed_matches(tb, qb, ts, q, held)),
            Err(_) => true,
        },
{
    lemma_resolve_match(tb, b, ts, s, held);
    if let Ok(s1) = resolve(ts, s) {
        if slot_free(s1.vals, held) {
            let b1 = resolve(tb, b)->Ok_0;
            lemma_validate_match(l, tb, b1.vals, ts, s1.vals, held, h);
        }
    }
}

pub proof fn lemma_init_matches(tb: Seq<Seq<char>>, ts: Seq<Seq<char>>)
    ensures
        state_matches(tb, init_state(), ts, init_state(), None),
{
    let v = init_state().vals;
    assert forall|j: int| 0 <= j < num_keys() implies #[trigger] slot_matches(tb, v, ts, v, None, j) by {
        assert(v[j] is None);
    }
}

/// Parsing a level from token `j` of `ts`, or from token `j + d` of `tb`,
/// gives chains of the same commands with the same values.
pub proof fn lemma_parse_level_match(
    l: Level,
    tb: Seq<Seq<char>>,
    ts: Seq<Seq<char>>,
    d: int,
    lo: int,
    j: int,
)
    requires
        tokens_shifted(tb, ts, d, lo),
        lo <= j <= ts.len(),
    ensures
        match parse_level(l, ts, j) {
            Ok(cs) => parse_level(l, tb, j + d) matches Ok(cb) && chain_matches(tb, cb, ts, cs, None),
            Err(_) => true,
        },
    decreases depth(l),
{
    lemma_init_matches(tb, ts);
    lemma_scan_match(l, tb, ts, d, lo, j, init_state(), init_state(), None);
    match scan(l, ts, j, init_state()) {
        ScanEnd::Finished(se) => {
            let be = scan(l, tb, j + d, init_state())->Finished_0;
            lemma_close_match(l, tb, be, ts, se, None, false);
            if let Ok(q) = close_level(l, ts, se, false) {
                let qb = close_level(l, tb, be, false)->Ok_0;
                let (cb, cs) = (seq![qb], seq![q]);
                assert(cb[0] == qb && cs[0] == q);
            }
        },
        ScanEnd::Descend(se, sub, j2) => {
            let be = scan(l, tb, j + d, init_state())->Descend_0;
            lemma_close_match(l, tb, be, ts, se, None, true);
            if depth(sub) < depth(l) {
                lemma_parse_level_match(sub, tb, ts, d, lo, j2);
                if let Ok(csub) = parse_level(sub, ts, j2) {
                    if let Ok(q) = close_level(l, ts, se, true) {
                        let cbsub = parse_level(sub, tb, j2 + d)->Ok_0;
                        let qb = close_level(l, tb, be, true)->Ok_0;
                        let (cb, cs) = (seq![qb] + cbsub, seq![q] + csub);
                        assert(cb[0] == qb && cs[0] == q);
                        assert forall|m: int| 1 <= m < cs.len() implies #[trigger] parsed_matches(
                            tb,
                            cb[m],
                            ts,
                            cs[m],
                            None,
                        ) by {
                            assert(cb[m] == cbsub[m - 1] && cs[m] == csub[m - 1]);
                            if m > 1 {
                                assert(parsed_matches(tb, cbsub[m - 1], ts, csub[m - 1], None));
                            }
                        }
                    }
                }
            }
        },
        ScanEnd::Failed(_) => {},
    }
}

/// Where a global option's value stood when the option came first.
pub open spec fn first_value_ref() -> ValRef {
    ValRef { tok: 2, from: 0 }
}

/// The top level before anything was read, possibly after a `--`.
pub open spec fn nothing_read(tr: bool) -> ScanState {
    ScanState { trailing: tr, ..init_state() }
}

/// The top level having read only global option `g` and its value.
pub open spec fn global_waiting(g: ArgKey, tr: bool) -> ScanState {
    ScanState {
        pending: Some(Pending { key: g, val: Some(first_value_ref()) }),
        trailing: tr,
        ..init_state()
    }
}

/// The same with the option settled.
pub open spec fn global_settled(g: ArgKey, tr: bool) -> ScanState {
    ScanState {
        vals: init_state().vals.update(key_index(g), Some(first_value_ref())),
        trailing: tr,
        ..init_state()
    }
}

/// Where a subcommand starts: after the token that named it.
pub proof fn lemma_descend_bound(l: Level, toks: Seq<Seq<char>>, i: int, st: ScanState)
    ensures
        scan(l, toks, i, st) matches ScanEnd::Descend(_, _, j) ==> i < j <= toks.len(),
    decreases toks.len() - i,
{
    if i < toks.len() {
        if let Step::Next(s) = step(l, toks, i, st) {
            lemma_descend_bound(l, toks, i + 1, s);
        }
    }
}

/// How the top level ends in both token lists: where the shorter reading
/// settles without option `g`, the longer one ends the same way and settles
/// to a matching level that holds `v` for `g`.
pub open spec fn top_ends_alike(
    tb: Seq<Seq<char>>,
    eb: ScanEnd,
    ts: Seq<Seq<char>>,
    es: ScanEnd,
    g: ArgKey,
    v: Seq<char>,
) -> bool {
    match es {
        ScanEnd::Finished(se) => match close_level(Level::Top, ts, se, false) {
            Ok(q) => q.vals[key_index(g)] is None ==> (eb matches ScanEnd::Finished(be) && (close_level(
                Level::Top,
                tb,
                be,
                false,
            ) matches Ok(qb) && parsed_matches(tb, qb, ts, q, Some((g, v))))),
            Err(_) => true,
        },
        ScanEnd::Descend(se, sub, j) => match close_level(Level::Top, ts, se, true) {
            Ok(q) => q.vals[key_index(g)] is None ==> (eb matches ScanEnd::Descend(be, sub2, j2) && sub2
                == sub && j2 == j + 2 && (close_level(Level::Top, tb, be, true) matches Ok(qb)
                && parsed_matches(tb, qb, ts, q, Some((g, v))))),
            Err(_) => true,
        },
        ScanEnd::Failed(_) => true,
    }
}

proof fn lemma_global_settles(tb: Seq<Seq<char>>, ts: Seq<Seq<char>>, g: ArgKey, v: Seq<char>, tr: bool)
    requires
        tokens_shifted(tb, ts, 2, 1),
        tb[2] == v,
        is_global(g),
        value_error(g, v) is None,
    ensures
        resolve(tb, global_waiting(g, tr)) == Ok::<ScanState, CliErrorKind>(global_settled(g, tr)),
        resolve(tb, global_settled(g, tr)) == Ok::<ScanState, CliErrorKind>(global_settled(g, tr)),
        state_matches(tb, global_settled(g, tr), ts, nothing_read(tr), Some((g, v))),
        forall|h: bool| #[trigger] close_level(Level::Top, tb, global_waiting(g, tr), h) == close_level(
            Level::Top,
            tb,
            global_settled(g, tr),
            h,
        ),
{
    let vals = global_settled(g, tr).vals;
    assert(val_of(tb, first_value_ref()) =~= v);
    assert forall|j: int| 0 <= j < num_keys() implies #[trigger] slot_matches(
        tb,
        vals,
        ts,
        nothing_read(tr).vals,
        Some((g, v)),
        j,
    ) by {
        if j != key_index(g) {
            assert(vals[j] is None);
        }
    }
}

/// Reading the top level after global option `g` with value `v` matches
/// reading it without: once the first argument settles the option, the
/// states match up to it.
pub proof fn lemma_top_after_global(
    tb: Seq<Seq<char>>,
    ts: Seq<Seq<char>>,
    g: ArgKey,
    v: Seq<char>,
    i: int,
    tr: bool,
)
    requires
        tokens_shifted(tb, ts, 2, 1),
        tb[2] == v,
        is_global(g),
        value_error(g, v) is None,
        1 <= i <= ts.len(),
    ensures
        top_ends_alike(
            tb,
            scan(Level::Top, tb, i + 2, global_waiting(g, tr)),
            ts,
            scan(Level::Top, ts, i, nothing_read(tr)),
            g,
            v,
        ),
    decreases ts.len() - i,
{
    let held = Some((g, v));
    let (a, b0, s) = (global_waiting(g, tr), global_settled(g, tr), nothing_read(tr));
    lemma_global_settles(tb, ts, g, v, tr);
    lemma_scan_keeps_slot(Level::Top, ts, i, s, g);
    assert(close_level(Level::Top, tb, a, false) == close_level(Level::Top, tb, b0, false));
    assert(close_level(Level::Top, tb, a, true) == close_level(Level::Top, tb, b0, true));
    if i == ts.len() {
        lemma_close_match(Level::Top, tb, b0, ts, s, held, false);
    } else {
        let t = ts[i];
        assert(tb[i + 2] == t);
        lemma_scan_match(Level::Top, tb, ts, 2, 1, i, b0, s, held);
        lemma_step_match(Level::Top, tb, ts, 2, 1, i, b0, s, held);
        if !tr && crate::cli::grammar::is_escape(t) {
            crate::cli::laws::lemma_dash_names_no_subcommand(Level::Top, t);
            assert(step(Level::Top, ts, i, s) == Step::Next(nothing_read(true)));
            assert(step(Level::Top, tb, i + 2, a) == Step::Next(global_waiting(g, true)));
            lemma_top_after_global(tb, ts, g, v, i + 1, true);
        } else {
            match step(Level::Top, ts, i, s) {
                Step::Stop(ScanEnd::Descend(_, sub, j)) => {
                    lemma_close_match(Level::Top, tb, b0, ts, s, held, true);
                },
                Step::Next(s1) => {
                    lemma_step_keeps_slot(Level::Top, ts, i, s, g);
                    lemma_scan_keeps_slot(Level::Top, ts, i + 1, s1, g);
                    assert(step(Level::Top, tb, i + 2, a) == step(Level::Top, tb, i + 2, b0));
                    match scan(Level::Top, ts, i + 1, s1) {
                        ScanEnd::Finished(se) => {
                            lemma_react_keeps_slot(ts, se, ArgKey::Help, None, g);
                            if let Ok(q) = close_level(Level::Top, ts, se, false) {
                                if q.vals[key_index(g)] is None {
                                    let be = scan(Level::Top, tb, i + 2, b0)->Finished_0;
                                    lemma_close_match(Level::Top, tb, be, ts, se, held, false);
                                }
                            }
                        },
                        ScanEnd::Descend(se, _, _) => {
                            lemma_react_keeps_slot(ts, se, ArgKey::Help, None, g);
                            if let Ok(q) = close_level(Level::Top, ts, se, true) {
                                if q.vals[key_index(g)] is None {
                                    let be = scan(Level::Top, tb, i + 2, b0)->Descend_0;
                                    lemma_close_match(Level::Top, tb, be, ts, se, held, true);
                                }
                            }
                        },
                        ScanEnd::Failed(_) => {},
                    }
                },
                _ => {},
            }
        }
    }
}

} // verus!
