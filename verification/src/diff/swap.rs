//! Swapping the two graphs of a diff mirrors its exact matches.
use vstd::prelude::*;
use crate::diff::engine::{
    after_exact, after_fp, after_overrides, best_head, diff_spec, exact_step, final_state,
    fp_score, fp_step, fingerprinted, initial_state, is_top_level, lemma_best_head, match_v,
    suggested_base, suggested_head, unmatched_upto, DiffState,
};
use crate::diff::fingerprint::{
    fingerprint_of, inter_count, jaccard, lemma_fp_members_no_dup, lemma_inter_count_le,
    lemma_inter_count_le_other, pair_score,
};
use crate::diff::laws::{extends, fqns_unique};
use crate::diff::types::{
    ref_of, DiffConfig, MatchMethod, MatchV, RefV, RenameOverride, SuggestionV, JACCARD_ONE,
    SAME_PARENT_BONUS, SCORE_ONE,
};
use crate::index::children_of;
use crate::index::{last_fqn_pos, lemma_last_fqn_pos, lemma_last_fqn_pos_char};
use crate::model::SymbolGraph;

verus! {

/// Symbol `i` of `a` is a class, struct or enum and `b` has a symbol of
/// the same fqn and kind.
pub open spec fn has_counterpart(a: SymbolGraph, b: SymbolGraph, i: int) -> bool {
    &&& is_top_level(a.symbols@[i].kind)
    &&& exists|j: int|
        0 <= j < b.symbols@.len() && (#[trigger] b.symbols@[j]).fqn@ == a.symbols@[i].fqn@
            && b.symbols@[j].kind == a.symbols@[i].kind
}

/// `x` is the exact match of symbol `i` of `a` with its counterpart in `b`.
pub open spec fn exact_pair(a: SymbolGraph, b: SymbolGraph, i: int, x: MatchV) -> bool {
    &&& x.method == MatchMethod::Exact
    &&& x.base == ref_of(a.symbols@[i])
    &&& x.head == ref_of(b.symbols@[last_fqn_pos(b.symbols@, a.symbols@[i].fqn@)])
}

/// Some match of `ms` is an exact match whose base is `r`.
pub open spec fn exact_with_base(ms: Seq<MatchV>, r: crate::diff::types::RefV) -> bool {
    exists|m: int| 0 <= m < ms.len() && (#[trigger] ms[m]).method == MatchMethod::Exact && ms[m].base == r
}

/// Some match of `ms` is an exact match whose head is `r`.
pub open spec fn exact_with_head(ms: Seq<MatchV>, r: crate::diff::types::RefV) -> bool {
    exists|m: int| 0 <= m < ms.len() && (#[trigger] ms[m]).method == MatchMethod::Exact && ms[m].head == r
}

proof fn lemma_unique_pos(g: SymbolGraph, i: int)
    requires
        fqns_unique(g.symbols@),
        0 <= i < g.symbols@.len(),
    ensures
        last_fqn_pos(g.symbols@, g.symbols@[i].fqn@) == i,
{
    lemma_last_fqn_pos_char(g.symbols@, g.symbols@[i].fqn@, i);
}

/// With unique fqns, the counterpart of `i` is at `last_fqn_pos`.
proof fn lemma_counterpart_pos(a: SymbolGraph, b: SymbolGraph, i: int)
    requires
        fqns_unique(b.symbols@),
        0 <= i < a.symbols@.len(),
    ensures
        has_counterpart(a, b, i) <==> {
            let q = last_fqn_pos(b.symbols@, a.symbols@[i].fqn@);
            is_top_level(a.symbols@[i].kind) && q >= 0 && b.symbols@[q].kind == a.symbols@[i].kind
        },
{
    let f = a.symbols@[i].fqn@;
    lemma_last_fqn_pos(b.symbols@, f);
    let q = last_fqn_pos(b.symbols@, f);
    if has_counterpart(a, b, i) {
        let j = choose|j: int|
            0 <= j < b.symbols@.len() && (#[trigger] b.symbols@[j]).fqn@ == f && b.symbols@[j].kind
                == a.symbols@[i].kind;
        lemma_unique_pos(b, j);
    }
    if q >= 0 && is_top_level(a.symbols@[i].kind) && b.symbols@[q].kind == a.symbols@[i].kind {
        assert(b.symbols@[q].fqn@ == f);
    }
}

/// Match `x` is the exact match of one of the first `k` symbols of `a`.
pub open spec fn justified(a: SymbolGraph, b: SymbolGraph, k: int, x: MatchV) -> bool {
    exists|i: int| 0 <= i < k && has_counterpart(a, b, i) && #[trigger] exact_pair(a, b, i, x)
}

/// Some match of `ms` is the exact match of symbol `i` of `a`.
pub open spec fn recorded(a: SymbolGraph, b: SymbolGraph, i: int, ms: Seq<MatchV>) -> bool {
    exists|m: int| 0 <= m < ms.len() && #[trigger] exact_pair(a, b, i, ms[m])
}

/// What the exact pass has done after the first `k` symbols of `a`.
pub open spec fn exact_inv(a: SymbolGraph, b: SymbolGraph, k: int, st: DiffState) -> bool {
    &&& st.mb.len() == a.symbols@.len()
    &&& st.mh.len() == b.symbols@.len()
    &&& forall|i: int|
        0 <= i < a.symbols@.len() ==> #[trigger] st.mb[i] == (i < k && has_counterpart(a, b, i))
    &&& forall|j: int|
        0 <= j < b.symbols@.len() ==> #[trigger] st.mh[j] == (has_counterpart(b, a, j)
            && last_fqn_pos(a.symbols@, b.symbols@[j].fqn@) < k)
    &&& forall|m: int| 0 <= m < st.matches.len() ==> justified(a, b, k, #[trigger] st.matches[m])
    &&& forall|i: int|
        0 <= i < k && has_counterpart(a, b, i) ==> #[trigger] recorded(a, b, i, st.matches)
}

proof fn lemma_exact_start(a: SymbolGraph, b: SymbolGraph)
    ensures
        exact_inv(a, b, 0, initial_state(a.symbols@.len(), b.symbols@.len())),
{
    let init = initial_state(a.symbols@.len(), b.symbols@.len());
    assert forall|j: int| 0 <= j < b.symbols@.len() implies #[trigger] init.mh[j] == (
    has_counterpart(b, a, j) && last_fqn_pos(a.symbols@, b.symbols@[j].fqn@) < 0) by {
        lemma_last_fqn_pos(a.symbols@, b.symbols@[j].fqn@);
    }
}

/// Symbol `i` of `a` has a counterpart: the step matches the two.
proof fn lemma_exact_step_match(a: SymbolGraph, b: SymbolGraph, i: int, s: DiffState)
    requires
        fqns_unique(a.symbols@),
        fqns_unique(b.symbols@),
        0 <= i < a.symbols@.len(),
        exact_inv(a, b, i, s),
        has_counterpart(a, b, i),
    ensures
        exact_inv(a, b, i + 1, exact_step(a, b, s, i)),
{
    let na = a.symbols@.len();
    let nb = b.symbols@.len();
    let t = exact_step(a, b, s, i);
    let sym = a.symbols@[i];
    let f = sym.fqn@;
    let q = last_fqn_pos(b.symbols@, f);
    lemma_last_fqn_pos(b.symbols@, f);
    lemma_counterpart_pos(a, b, i);
    lemma_unique_pos(a, i);
    assert(b.symbols@[q].fqn@ == f);
    assert(last_fqn_pos(a.symbols@, b.symbols@[q].fqn@) == i);
    assert(!s.mh[q]);
    assert(!s.mb[i]);
    let mv = match_v(sym, b.symbols@[q], MatchMethod::Exact, SCORE_ONE as int);
    assert(t.mb == s.mb.update(i, true));
    assert(t.mh == s.mh.update(q, true));
    assert(t.matches == s.matches.push(mv));
    assert(exact_pair(a, b, i, mv));
    assert forall|j: int| 0 <= j < nb implies #[trigger] t.mh[j] == (has_counterpart(b, a, j)
        && last_fqn_pos(a.symbols@, b.symbols@[j].fqn@) < i + 1) by {
        if j == q {
            assert(has_counterpart(b, a, q));
        } else {
            assert(s.mh[j] == t.mh[j]);
            if last_fqn_pos(a.symbols@, b.symbols@[j].fqn@) == i {
                lemma_last_fqn_pos(a.symbols@, b.symbols@[j].fqn@);
                lemma_unique_pos(b, j);
                assert(b.symbols@[j].fqn@ == f);
            }
        }
    }
    assert forall|i2: int| 0 <= i2 < na implies #[trigger] t.mb[i2] == (i2 < i + 1
        && has_counterpart(a, b, i2)) by {
        if i2 != i {
            assert(t.mb[i2] == s.mb[i2]);
        }
    }
    assert forall|m: int| 0 <= m < t.matches.len() implies justified(a, b, i + 1, #[trigger] t.matches[m]) by {
        if m < s.matches.len() {
            assert(t.matches[m] == s.matches[m]);
            assert(justified(a, b, i, s.matches[m]));
            let i2 = choose|i2: int| 0 <= i2 < i && has_counterpart(a, b, i2) && #[trigger] exact_pair(a, b, i2, s.matches[m]);
            assert(exact_pair(a, b, i2, t.matches[m]));
        } else {
            assert(t.matches[m] == mv);
            assert(exact_pair(a, b, i, t.matches[m]));
        }
    }
    assert forall|i2: int| 0 <= i2 < i + 1 && has_counterpart(a, b, i2) implies #[trigger] recorded(a, b, i2, t.matches) by {
        if i2 < i {
            assert(recorded(a, b, i2, s.matches));
            let m = choose|m: int| 0 <= m < s.matches.len() && #[trigger] exact_pair(a, b, i2, s.matches[m]);
            assert(t.matches[m] == s.matches[m]);
            assert(exact_pair(a, b, i2, t.matches[m]));
        } else {
            let m = s.matches.len() as int;
            assert(t.matches[m] == mv);
            assert(exact_pair(a, b, i2, t.matches[m]));
        }
    }
    assert(exact_inv(a, b, i + 1, t));
}

/// Symbol `i` of `a` has no counterpart: the step changes nothing.
proof fn lemma_exact_step_skip(a: SymbolGraph, b: SymbolGraph, i: int, s: DiffState)
    requires
        fqns_unique(a.symbols@),
        fqns_unique(b.symbols@),
        0 <= i < a.symbols@.len(),
        exact_inv(a, b, i, s),
        !has_counterpart(a, b, i),
    ensures
        exact_inv(a, b, i + 1, exact_step(a, b, s, i)),
{
    let na = a.symbols@.len();
    let nb = b.symbols@.len();
    lemma_counterpart_pos(a, b, i);
    assert(exact_step(a, b, s, i) == s);
    assert forall|j: int| 0 <= j < nb implies #[trigger] s.mh[j] == (has_counterpart(b, a, j)
        && last_fqn_pos(a.symbols@, b.symbols@[j].fqn@) < i + 1) by {
        if has_counterpart(b, a, j) && last_fqn_pos(a.symbols@, b.symbols@[j].fqn@) == i {
            lemma_last_fqn_pos(a.symbols@, b.symbols@[j].fqn@);
            assert(a.symbols@[i].fqn@ == b.symbols@[j].fqn@);
            let i3 = choose|i3: int|
                0 <= i3 < na && (#[trigger] a.symbols@[i3]).fqn@ == b.symbols@[j].fqn@
                    && a.symbols@[i3].kind == b.symbols@[j].kind;
            lemma_unique_pos(a, i3);
            lemma_unique_pos(a, i);
            assert(i3 == i);
            assert(b.symbols@[j].fqn@ == a.symbols@[i].fqn@);
            assert(has_counterpart(a, b, i));
        }
    }
    assert forall|i2: int| 0 <= i2 < na implies #[trigger] s.mb[i2] == (i2 < i + 1
        && has_counterpart(a, b, i2)) by {
    }
    assert forall|m: int| 0 <= m < s.matches.len() implies justified(a, b, i + 1, #[trigger] s.matches[m]) by {
        assert(justified(a, b, i, s.matches[m]));
        let i2 = choose|i2: int| 0 <= i2 < i && has_counterpart(a, b, i2) && #[trigger] exact_pair(a, b, i2, s.matches[m]);
        assert(exact_pair(a, b, i2, s.matches[m]));
    }
    assert forall|i2: int| 0 <= i2 < i + 1 && has_counterpart(a, b, i2) implies #[trigger] recorded(a, b, i2, s.matches) by {
        assert(i2 < i);
    }
    assert(exact_inv(a, b, i + 1, s));
}

/// The exact pass over the first `k` symbols of `a`, with no overrides.
proof fn lemma_exact_pass(a: SymbolGraph, b: SymbolGraph, k: nat)
    requires
        fqns_unique(a.symbols@),
        fqns_unique(b.symbols@),
        k <= a.symbols@.len(),
    ensures
        exact_inv(a, b, k as int, after_exact(a, b, initial_state(a.symbols@.len(), b.symbols@.len()), k)),
    decreases k,
{
    let init = initial_state(a.symbols@.len(), b.symbols@.len());
    if k == 0 {
        lemma_exact_start(a, b);
    } else {
        lemma_exact_pass(a, b, (k - 1) as nat);
        let s = after_exact(a, b, init, (k - 1) as nat);
        assert(after_exact(a, b, init, k) == exact_step(a, b, s, k - 1));
        if has_counterpart(a, b, k - 1) {
            lemma_exact_step_match(a, b, k - 1, s);
        } else {
            lemma_exact_step_skip(a, b, k - 1, s);
        }
    }
}

/// The rename pass only adds matches, and those it adds are by
/// fingerprint.
proof fn lemma_fp_adds_fingerprint(
    base: SymbolGraph,
    head: SymbolGraph,
    cfg: DiffConfig,
    ovs: Seq<RenameOverride>,
    st: DiffState,
    k: nat,
)
    ensures
        extends(st, after_fp(base, head, cfg, ovs, st, k)),
        forall|m: int|
            st.matches.len() <= m < after_fp(base, head, cfg, ovs, st, k).matches.len() ==> (
            #[trigger] after_fp(base, head, cfg, ovs, st, k).matches[m]).method
                == MatchMethod::Fingerprint,
    decreases k,
{
    if k > 0 {
        lemma_fp_adds_fingerprint(base, head, cfg, ovs, st, (k - 1) as nat);
        let s = after_fp(base, head, cfg, ovs, st, (k - 1) as nat);
        let t = fp_step(base, head, cfg, ovs, s, k - 1);
        assert(t == after_fp(base, head, cfg, ovs, st, k));
        assert forall|m: int| st.matches.len() <= m < t.matches.len() implies (
        #[trigger] t.matches[m]).method == MatchMethod::Fingerprint by {
            if m < s.matches.len() {
                assert(t.matches[m] == s.matches[m]);
            }
        }
    }
}

proof fn lemma_final_matches(a: SymbolGraph, b: SymbolGraph, cfg: DiffConfig)
    requires
        fqns_unique(a.symbols@),
        fqns_unique(b.symbols@),
    ensures
        ({
            let e = after_exact(a, b, initial_state(a.symbols@.len(), b.symbols@.len()), a.symbols@.len());
            let d = diff_spec(a, b, cfg, Seq::empty());
            &&& exact_inv(a, b, a.symbols@.len() as int, e)
            &&& e.matches.len() <= d.matches.len()
            &&& forall|m: int| 0 <= m < e.matches.len() ==> #[trigger] d.matches[m] == e.matches[m]
            &&& forall|m: int|
                e.matches.len() <= m < d.matches.len() ==> (#[trigger] d.matches[m]).method
                    == MatchMethod::Fingerprint
        }),
{
    let ovs = Seq::<RenameOverride>::empty();
    let na = a.symbols@.len();
    let nb = b.symbols@.len();
    let s1 = after_overrides(a, b, ovs);
    assert(s1 == initial_state(na, nb));
    lemma_exact_pass(a, b, na);
    let e = after_exact(a, b, s1, na);
    lemma_fp_adds_fingerprint(a, b, cfg, ovs, e, na);
    let f = after_fp(a, b, cfg, ovs, e, na);
    assert(final_state(a, b, cfg, ovs) == f);
    assert(diff_spec(a, b, cfg, ovs).matches == f.matches);
}

/// A symbol of `a` is the base of an exact match in the diff of `a`
/// against `b` exactly when it has a counterpart in `b`.
proof fn lemma_base_side(a: SymbolGraph, b: SymbolGraph, cfg: DiffConfig, i: int)
    requires
        fqns_unique(a.symbols@),
        fqns_unique(b.symbols@),
        0 <= i < a.symbols@.len(),
    ensures
        exact_with_base(diff_spec(a, b, cfg, Seq::empty()).matches, ref_of(a.symbols@[i]))
            <==> has_counterpart(a, b, i),
{
    let na = a.symbols@.len();
    let e = after_exact(a, b, initial_state(na, b.symbols@.len()), na);
    let d = diff_spec(a, b, cfg, Seq::empty());
    lemma_final_matches(a, b, cfg);
    lemma_unique_pos(a, i);
    if exact_with_base(d.matches, ref_of(a.symbols@[i])) {
        let m = choose|m: int|
            0 <= m < d.matches.len() && (#[trigger] d.matches[m]).method == MatchMethod::Exact
                && d.matches[m].base == ref_of(a.symbols@[i]);
        assert(m < e.matches.len());
        assert(d.matches[m] == e.matches[m]);
        assert(justified(a, b, na as int, e.matches[m]));
        let i2 = choose|i2: int|
            0 <= i2 < na && has_counterpart(a, b, i2) && #[trigger] exact_pair(a, b, i2, e.matches[m]);
        assert(a.symbols@[i2].fqn@ == a.symbols@[i].fqn@);
        lemma_unique_pos(a, i2);
    }
    if has_counterpart(a, b, i) {
        assert(recorded(a, b, i, e.matches));
        let m = choose|m: int| 0 <= m < e.matches.len() && #[trigger] exact_pair(a, b, i, e.matches[m]);
        assert(d.matches[m] == e.matches[m]);
    }
}

/// A symbol of `a` is the head of an exact match in the diff of `b`
/// against `a` exactly when it has a counterpart in `b`.
proof fn lemma_head_side(a: SymbolGraph, b: SymbolGraph, cfg: DiffConfig, i: int)
    requires
        fqns_unique(a.symbols@),
        fqns_unique(b.symbols@),
        0 <= i < a.symbols@.len(),
    ensures
        exact_with_head(diff_spec(b, a, cfg, Seq::empty()).matches, ref_of(a.symbols@[i]))
            <==> has_counterpart(a, b, i),
{
    let na = a.symbols@.len();
    let nb = b.symbols@.len();
    let e = after_exact(b, a, initial_state(nb, na), nb);
    let d = diff_spec(b, a, cfg, Seq::empty());
    lemma_final_matches(b, a, cfg);
    lemma_unique_pos(a, i);
    if exact_with_head(d.matches, ref_of(a.symbols@[i])) {
        let m = choose|m: int|
            0 <= m < d.matches.len() && (#[trigger] d.matches[m]).method == MatchMethod::Exact
                && d.matches[m].head == ref_of(a.symbols@[i]);
        assert(m < e.matches.len());
        assert(d.matches[m] == e.matches[m]);
        assert(justified(b, a, nb as int, e.matches[m]));
        let j = choose|j: int|
            0 <= j < nb && has_counterpart(b, a, j) && #[trigger] exact_pair(b, a, j, e.matches[m]);
        let p = last_fqn_pos(a.symbols@, b.symbols@[j].fqn@);
        lemma_counterpart_pos(b, a, j);
        lemma_last_fqn_pos(a.symbols@, b.symbols@[j].fqn@);
        assert(a.symbols@[p].fqn@ == a.symbols@[i].fqn@);
        lemma_unique_pos(a, p);
        assert(p == i);
        assert(b.symbols@[j].fqn@ == a.symbols@[i].fqn@);
        assert(has_counterpart(a, b, i));
    }
    if has_counterpart(a, b, i) {
        let f = a.symbols@[i].fqn@;
        let j = choose|j: int|
            0 <= j < nb && (#[trigger] b.symbols@[j]).fqn@ == f && b.symbols@[j].kind
                == a.symbols@[i].kind;
        assert(has_counterpart(b, a, j));
        assert(recorded(b, a, j, e.matches));
        let m = choose|m: int| 0 <= m < e.matches.len() && #[trigger] exact_pair(b, a, j, e.matches[m]);
        assert(d.matches[m] == e.matches[m]);
        assert(last_fqn_pos(a.symbols@, b.symbols@[j].fqn@) == i);
    }
}

/// Swapping base and head mirrors the exact matches: with no overrides
/// and no fqn used twice in either graph, a symbol of `a` is the base of
/// an exact match in the diff of `a` against `b` exactly when it is the
/// head of an exact match in the diff of `b` against `a`, that is, when
/// `b` has a symbol of its fqn and kind (a class, struct or enum).
pub proof fn law_swap_mirrors_exact_matches(a: SymbolGraph, b: SymbolGraph, cfg: DiffConfig)
    requires
        fqns_unique(a.symbols@),
        fqns_unique(b.symbols@),
    ensures
        forall|i: int|
            0 <= i < a.symbols@.len() ==> (exact_with_base(
                diff_spec(a, b, cfg, Seq::empty()).matches,
                ref_of(#[trigger] a.symbols@[i]),
            ) <==> exact_with_head(diff_spec(b, a, cfg, Seq::empty()).matches, ref_of(a.symbols@[i]))),
        forall|i: int|
            0 <= i < a.symbols@.len() ==> (exact_with_base(
                diff_spec(a, b, cfg, Seq::empty()).matches,
                ref_of(#[trigger] a.symbols@[i]),
            ) <==> has_counterpart(a, b, i)),
{
    assert forall|i: int| 0 <= i < a.symbols@.len() implies (exact_with_base(
        diff_spec(a, b, cfg, Seq::empty()).matches,
        ref_of(#[trigger] a.symbols@[i]),
    ) <==> exact_with_head(diff_spec(b, a, cfg, Seq::empty()).matches, ref_of(a.symbols@[i])))
        && (exact_with_base(diff_spec(a, b, cfg, Seq::empty()).matches, ref_of(a.symbols@[i]))
        <==> has_counterpart(a, b, i)) by {
        lemma_base_side(a, b, cfg, i);
        lemma_head_side(a, b, cfg, i);
    }
}

// ---------------------------------------------------------------------------
// With rename detection out of reach, swapping also swaps added and removed
// ---------------------------------------------------------------------------

/// The highest score a pair of fingerprints can reach, in billionths.
pub open spec fn max_score(cfg: DiffConfig) -> int {
    (cfg.member_name_weight + cfg.member_type_weight + cfg.same_module_bonus + SAME_PARENT_BONUS)
        * JACCARD_ONE
}

/// Both rename thresholds lie above every reachable score, so rename
/// detection never pairs or suggests anything.
pub open spec fn renames_off(cfg: DiffConfig) -> bool {
    &&& cfg.fingerprint_suggestion_threshold * 1_000_000 > max_score(cfg)
    &&& cfg.fingerprint_confidence_threshold * 1_000_000 > max_score(cfg)
}

proof fn lemma_jaccard_bound(a: Seq<Seq<char>>, b: Seq<Seq<char>>)
    requires
        a.no_duplicates(),
    ensures
        0 <= jaccard(a, b) <= JACCARD_ONE,
{
    lemma_inter_count_le(a, b);
    lemma_inter_count_le_other(a, b);
    if !(a.len() == 0 && b.len() == 0) {
        let i = inter_count(a, b) as int;
        let u = a.len() + b.len() - i;
        if u > 0 {
            let j = JACCARD_ONE as int;
            assert(0 <= i * j / u <= j) by (nonlinear_arith)
                requires
                    0 <= i <= u,
                    0 < u,
                    j == 1000000,
            ;
        }
    }
}

proof fn lemma_score_bound(g1: SymbolGraph, g2: SymbolGraph, cfg: DiffConfig, i: int, j: int)
    ensures
        fp_score(g1, g2, cfg, i, j) <= max_score(cfg),
{
    let p = cfg.fingerprint_ignore_prefixes@;
    let f1 = fingerprint_of(g1, i, p);
    let f2 = fingerprint_of(g2, j, p);
    lemma_fp_members_no_dup(g1.symbols@, children_of(g1.relations@, g1.symbols@[i].local_id), p);
    lemma_jaccard_bound(f1.names, f2.names);
    lemma_jaccard_bound(f1.types, f2.types);
    let jn = jaccard(f1.names, f2.names);
    let jt = jaccard(f1.types, f2.types);
    let wn = cfg.member_name_weight as int;
    let wt = cfg.member_type_weight as int;
    let one = JACCARD_ONE as int;
    assert(wn * jn <= wn * one && wt * jt <= wt * one) by (nonlinear_arith)
        requires
            0 <= jn <= one,
            0 <= jt <= one,
            0 <= wn,
            0 <= wt,
    ;
    assert(pair_score(f1, f2, cfg) <= max_score(cfg));
}

proof fn lemma_fp_idle(a: SymbolGraph, b: SymbolGraph, cfg: DiffConfig, st: DiffState, k: nat)
    requires
        renames_off(cfg),
    ensures
        after_fp(a, b, cfg, Seq::empty(), st, k) == st,
    decreases k,
{
    if k > 0 {
        lemma_fp_idle(a, b, cfg, st, (k - 1) as nat);
        let ovs = Seq::<RenameOverride>::empty();
        lemma_best_head(a, b, cfg, ovs, st.mh, k - 1, b.symbols@.len());
        match best_head(a, b, cfg, ovs, st.mh, k - 1, b.symbols@.len()) {
            Some(h) => {
                lemma_score_bound(a, b, cfg, k - 1, h.0);
            },
            None => {},
        }
        assert(fp_step(a, b, cfg, ovs, st, k - 1) == st);
    }
}

proof fn lemma_exact_keeps_sugg(a: SymbolGraph, b: SymbolGraph, st: DiffState, k: nat)
    ensures
        after_exact(a, b, st, k).sugg == st.sugg,
    decreases k,
{
    if k > 0 {
        lemma_exact_keeps_sugg(a, b, st, (k - 1) as nat);
    }
}

proof fn lemma_unmatched_sides(
    syms: Seq<crate::model::Symbol>,
    marks: Seq<bool>,
    x: bool,
    y: bool,
    k: nat,
)
    ensures
        unmatched_upto(syms, marks, Seq::empty(), x, k) == unmatched_upto(
            syms,
            marks,
            Seq::empty(),
            y,
            k,
        ),
    decreases k,
{
    if k > 0 {
        lemma_unmatched_sides(syms, marks, x, y, (k - 1) as nat);
        let f = syms[k - 1].fqn@;
        assert(!suggested_base(Seq::<SuggestionV>::empty(), f));
        assert(!suggested_head(Seq::<SuggestionV>::empty(), f));
    }
}

/// With rename detection out of reach, the diff of `a` against `b` is
/// its exact pass alone, and what it lists as removed are the classes,
/// structs and enums of `a` without a counterpart in `b`.
proof fn lemma_exact_only(a: SymbolGraph, b: SymbolGraph, cfg: DiffConfig)
    requires
        fqns_unique(a.symbols@),
        fqns_unique(b.symbols@),
        renames_off(cfg),
    ensures
        ({
            let e = after_exact(a, b, initial_state(a.symbols@.len(), b.symbols@.len()), a.symbols@.len());
            let d = diff_spec(a, b, cfg, Seq::empty());
            &&& exact_inv(a, b, a.symbols@.len() as int, e)
            &&& e.sugg.len() == 0
            &&& d.suggestions.len() == 0
            &&& d.removed == unmatched_upto(a.symbols@, e.mb, Seq::empty(), true, a.symbols@.len())
            &&& d.added == unmatched_upto(b.symbols@, e.mh, Seq::empty(), false, b.symbols@.len())
        }),
{
    let ovs = Seq::<RenameOverride>::empty();
    let na = a.symbols@.len();
    let nb = b.symbols@.len();
    let s1 = after_overrides(a, b, ovs);
    assert(s1 == initial_state(na, nb));
    lemma_exact_pass(a, b, na);
    let e = after_exact(a, b, s1, na);
    lemma_exact_keeps_sugg(a, b, s1, na);
    lemma_fp_idle(a, b, cfg, e, na);
    assert(final_state(a, b, cfg, ovs) == e);
}

/// Swapping base and head swaps what is added and what is removed, when
/// rename detection cannot fire (both thresholds above the highest
/// reachable score), no override is given, and no fqn is used twice in
/// either graph. Neither diff then suggests a rename.
pub proof fn law_swap_exchanges_added_and_removed(a: SymbolGraph, b: SymbolGraph, cfg: DiffConfig)
    requires
        fqns_unique(a.symbols@),
        fqns_unique(b.symbols@),
        renames_off(cfg),
    ensures
        diff_spec(a, b, cfg, Seq::empty()).removed == diff_spec(b, a, cfg, Seq::empty()).added,
        diff_spec(a, b, cfg, Seq::empty()).added == diff_spec(b, a, cfg, Seq::empty()).removed,
        diff_spec(a, b, cfg, Seq::empty()).suggestions.len() == 0,
        diff_spec(b, a, cfg, Seq::empty()).suggestions.len() == 0,
{
    let na = a.symbols@.len();
    let nb = b.symbols@.len();
    lemma_exact_only(a, b, cfg);
    lemma_exact_only(b, a, cfg);
    let e1 = after_exact(a, b, initial_state(na, nb), na);
    let e2 = after_exact(b, a, initial_state(nb, na), nb);
    assert forall|i: int| 0 <= i < na implies e1.mb[i] == e2.mh[i] by {
        lemma_last_fqn_pos(b.symbols@, a.symbols@[i].fqn@);
    }
    assert(e1.mb =~= e2.mh);
    assert forall|j: int| 0 <= j < nb implies e1.mh[j] == e2.mb[j] by {
        lemma_last_fqn_pos(a.symbols@, b.symbols@[j].fqn@);
    }
    assert(e1.mh =~= e2.mb);
    lemma_unmatched_sides(a.symbols@, e1.mb, true, false, na);
    lemma_unmatched_sides(b.symbols@, e1.mh, false, true, nb);
}

} // verus!
