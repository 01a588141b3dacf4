//! Properties of the diff that hold for every pair of graphs.
use vstd::prelude::*;
use crate::diff::engine::{
    after_exact, after_fp, after_overrides, best_head, candidate, diff_spec, exact_step,
    final_state, fp_step, initial_state, is_top_level, lemma_best_head, lemma_exact_sized,
    lemma_fp_sized, lemma_overrides_sized, rejected, sized, suggested_base, suggested_head,
    unmatched_upto, with_match, DiffState,
};
use crate::diff::classify::{
    base_side, classify_spec, head_side, last_named, lemma_last_named, lemma_member_positions,
    change_at, differ, members_at, opt_canon, or_empty, pair_changes,
};
use crate::diff::engine::{changes_upto, fingerprinted, match_v};
use crate::diff::types::{
    ref_of, ChangeV, Decision, DiffConfig, FieldChangeV, MatchMethod, MatchV, RefV, RenameOverride,
    SuggestionV, SCORE_ONE,
};
use crate::index::{children_of, last_fqn_pos, last_id_pos, lemma_last_fqn_pos, lemma_last_fqn_pos_char};
use crate::diff::fingerprint::{
    fingerprint_of, fp_members, ignored, inter_count, jaccard, pair_score, parent_fqn_at,
    FingerprintV,
};
use crate::text::text_starts_with;
use crate::model::{Symbol, SymbolGraph, SymbolKind};

verus! {

/// `b` keeps the matches and suggestions of `a`, in place.
pub open spec fn extends(a: DiffState, b: DiffState) -> bool {
    &&& a.matches.len() <= b.matches.len()
    &&& forall|k: int| 0 <= k < a.matches.len() ==> #[trigger] b.matches[k] == a.matches[k]
    &&& a.sugg.len() <= b.sugg.len()
    &&& forall|k: int| 0 <= k < a.sugg.len() ==> #[trigger] b.sugg[k] == a.sugg[k]
}

proof fn lemma_exact_extends(base: SymbolGraph, head: SymbolGraph, st: DiffState, k: nat)
    ensures
        extends(st, after_exact(base, head, st, k)),
    decreases k,
{
    if k > 0 {
        lemma_exact_extends(base, head, st, (k - 1) as nat);
        let s = after_exact(base, head, st, (k - 1) as nat);
        let t = exact_step(base, head, s, k - 1);
        assert(extends(s, t));
    }
}

proof fn lemma_fp_extends(
    base: SymbolGraph,
    head: SymbolGraph,
    cfg: DiffConfig,
    ovs: Seq<RenameOverride>,
    st: DiffState,
    k: nat,
)
    ensures
        extends(st, after_fp(base, head, cfg, ovs, st, k)),
    decreases k,
{
    if k > 0 {
        lemma_fp_extends(base, head, cfg, ovs, st, (k - 1) as nat);
        let s = after_fp(base, head, cfg, ovs, st, (k - 1) as nat);
        let t = fp_step(base, head, cfg, ovs, s, k - 1);
        assert(extends(s, t));
    }
}

/// The override at `k` is among the matches after the overrides.
proof fn lemma_override_recorded(
    base: SymbolGraph,
    head: SymbolGraph,
    ovs: Seq<RenameOverride>,
    k: int,
)
    requires
        0 <= k < ovs.len(),
        ovs[k].decision == Decision::Match,
        last_fqn_pos(base.symbols@, ovs[k].base_fqn@) >= 0,
        last_fqn_pos(head.symbols@, ovs[k].head_fqn@) >= 0,
    ensures
        exists|m: int|
            0 <= m < after_overrides(base, head, ovs).matches.len() && {
                let x = #[trigger] after_overrides(base, head, ovs).matches[m];
                &&& x.method == MatchMethod::UserOverride
                &&& x.base.fqn == ovs[k].base_fqn@
                &&& x.head.fqn == ovs[k].head_fqn@
            },
    decreases ovs.len(),
{
    let prev = after_overrides(base, head, ovs.drop_last());
    let cur = after_overrides(base, head, ovs);
    lemma_last_fqn_pos(base.symbols@, ovs[k].base_fqn@);
    lemma_last_fqn_pos(head.symbols@, ovs[k].head_fqn@);
    if k == ovs.len() - 1 {
        let m = prev.matches.len() as int;
        assert(cur.matches[m].base.fqn == ovs[k].base_fqn@);
    } else {
        assert(ovs.drop_last()[k] == ovs[k]);
        lemma_override_recorded(base, head, ovs.drop_last(), k);
        let m = choose|m: int|
            0 <= m < prev.matches.len() && {
                let x = #[trigger] prev.matches[m];
                &&& x.method == MatchMethod::UserOverride
                &&& x.base.fqn == ovs[k].base_fqn@
                &&& x.head.fqn == ovs[k].head_fqn@
            };
        assert(cur.matches[m] == prev.matches[m]);
    }
}

/// A `Match` override whose two fqns name symbols of the graphs is in
/// the diff as a user-override match of those fqns.
pub proof fn law_override_match_is_kept(
    base: SymbolGraph,
    head: SymbolGraph,
    cfg: DiffConfig,
    ovs: Seq<RenameOverride>,
    k: int,
)
    requires
        0 <= k < ovs.len(),
        ovs[k].decision == Decision::Match,
        last_fqn_pos(base.symbols@, ovs[k].base_fqn@) >= 0,
        last_fqn_pos(head.symbols@, ovs[k].head_fqn@) >= 0,
    ensures
        exists|m: int|
            0 <= m < diff_spec(base, head, cfg, ovs).matches.len() && {
                let x = #[trigger] diff_spec(base, head, cfg, ovs).matches[m];
                &&& x.method == MatchMethod::UserOverride
                &&& x.base.fqn == ovs[k].base_fqn@
                &&& x.head.fqn == ovs[k].head_fqn@
            },
{
    let nb = base.symbols@.len();
    let s1 = after_overrides(base, head, ovs);
    let s2 = after_exact(base, head, s1, nb);
    let s3 = after_fp(base, head, cfg, ovs, s2, nb);
    lemma_override_recorded(base, head, ovs, k);
    lemma_exact_extends(base, head, s1, nb);
    lemma_fp_extends(base, head, cfg, ovs, s2, nb);
    let m = choose|m: int|
        0 <= m < s1.matches.len() && {
            let x = #[trigger] s1.matches[m];
            &&& x.method == MatchMethod::UserOverride
            &&& x.base.fqn == ovs[k].base_fqn@
            &&& x.head.fqn == ovs[k].head_fqn@
        };
    assert(s2.matches[m] == s1.matches[m]);
    assert(s3.matches[m] == s2.matches[m]);
    assert(final_state(base, head, cfg, ovs) == s3);
    assert(diff_spec(base, head, cfg, ovs).matches[m] == s1.matches[m]);
}

/// No suggestion and no fingerprint match pairs fqns whose last override
/// is a `Reject`.
pub open spec fn respects_rejections(st: DiffState, ovs: Seq<RenameOverride>) -> bool {
    &&& forall|k: int|
        0 <= k < st.sugg.len() ==> !rejected(
            ovs,
            (#[trigger] st.sugg[k]).base.fqn,
            st.sugg[k].head.fqn,
        )
    &&& forall|k: int|
        0 <= k < st.matches.len() && (#[trigger] st.matches[k]).method == MatchMethod::Fingerprint
            ==> !rejected(ovs, st.matches[k].base.fqn, st.matches[k].head.fqn)
}

proof fn lemma_overrides_respect(base: SymbolGraph, head: SymbolGraph, ovs: Seq<RenameOverride>, all: Seq<RenameOverride>)
    ensures
        respects_rejections(after_overrides(base, head, ovs), all),
        after_overrides(base, head, ovs).sugg.len() == 0,
    decreases ovs.len(),
{
    if ovs.len() > 0 {
        lemma_overrides_respect(base, head, ovs.drop_last(), all);
    }
}

proof fn lemma_exact_respects(base: SymbolGraph, head: SymbolGraph, st: DiffState, ovs: Seq<RenameOverride>, k: nat)
    requires
        respects_rejections(st, ovs),
    ensures
        respects_rejections(after_exact(base, head, st, k), ovs),
    decreases k,
{
    if k > 0 {
        lemma_exact_respects(base, head, st, ovs, (k - 1) as nat);
    }
}

proof fn lemma_fp_respects(
    base: SymbolGraph,
    head: SymbolGraph,
    cfg: DiffConfig,
    ovs: Seq<RenameOverride>,
    st: DiffState,
    k: nat,
)
    requires
        respects_rejections(st, ovs),
    ensures
        respects_rejections(after_fp(base, head, cfg, ovs, st, k), ovs),
    decreases k,
{
    if k > 0 {
        lemma_fp_respects(base, head, cfg, ovs, st, (k - 1) as nat);
        let s = after_fp(base, head, cfg, ovs, st, (k - 1) as nat);
        lemma_best_head(base, head, cfg, ovs, s.mh, k - 1, head.symbols@.len());
    }
}

/// A pair whose last override is a `Reject` is neither suggested nor
/// matched by fingerprint.
pub proof fn law_rejected_pair_is_never_renamed(
    base: SymbolGraph,
    head: SymbolGraph,
    cfg: DiffConfig,
    ovs: Seq<RenameOverride>,
    bf: Seq<char>,
    hf: Seq<char>,
)
    requires
        rejected(ovs, bf, hf),
    ensures
        forall|k: int|
            0 <= k < diff_spec(base, head, cfg, ovs).suggestions.len() ==> !({
                let s = #[trigger] diff_spec(base, head, cfg, ovs).suggestions[k];
                s.base.fqn == bf && s.head.fqn == hf
            }),
        forall|k: int|
            0 <= k < diff_spec(base, head, cfg, ovs).matches.len() && (#[trigger] diff_spec(
                base,
                head,
                cfg,
                ovs,
            ).matches[k]).method == MatchMethod::Fingerprint ==> !(diff_spec(
                base,
                head,
                cfg,
                ovs,
            ).matches[k].base.fqn == bf && diff_spec(base, head, cfg, ovs).matches[k].head.fqn
                == hf),
{
    let nb = base.symbols@.len();
    let s1 = after_overrides(base, head, ovs);
    let s2 = after_exact(base, head, s1, nb);
    lemma_overrides_respect(base, head, ovs, ovs);
    lemma_exact_respects(base, head, s1, ovs, nb);
    lemma_fp_respects(base, head, cfg, ovs, s2, nb);
}

/// Every matched position is the base (or head) of some match.
pub open spec fn marks_justified(base: SymbolGraph, head: SymbolGraph, st: DiffState) -> bool {
    &&& forall|i: int|
        0 <= i < st.mb.len() && #[trigger] st.mb[i] ==> exists|m: int|
            0 <= m < st.matches.len() && (#[trigger] st.matches[m]).base == ref_of(
                base.symbols@[i],
            )
    &&& forall|j: int|
        0 <= j < st.mh.len() && #[trigger] st.mh[j] ==> exists|m: int|
            0 <= m < st.matches.len() && (#[trigger] st.matches[m]).head == ref_of(
                head.symbols@[j],
            )
}

proof fn lemma_with_match_justified(
    base: SymbolGraph,
    head: SymbolGraph,
    st: DiffState,
    i: int,
    j: int,
    mv: MatchV,
)
    requires
        marks_justified(base, head, st),
        0 <= i < st.mb.len(),
        0 <= j < st.mh.len(),
        mv.base == ref_of(base.symbols@[i]),
        mv.head == ref_of(head.symbols@[j]),
    ensures
        marks_justified(base, head, with_match(st, i, j, mv)),
{
    let t = with_match(st, i, j, mv);
    let n = st.matches.len() as int;
    assert(t.matches[n] == mv);
    assert forall|x: int| 0 <= x < t.mb.len() && #[trigger] t.mb[x] implies exists|m: int|
        0 <= m < t.matches.len() && (#[trigger] t.matches[m]).base == ref_of(base.symbols@[x]) by {
        if x != i {
            assert(st.mb[x]);
            let m = choose|m: int|
                0 <= m < st.matches.len() && (#[trigger] st.matches[m]).base == ref_of(
                    base.symbols@[x],
                );
            assert(t.matches[m] == st.matches[m]);
        }
    }
    assert forall|x: int| 0 <= x < t.mh.len() && #[trigger] t.mh[x] implies exists|m: int|
        0 <= m < t.matches.len() && (#[trigger] t.matches[m]).head == ref_of(head.symbols@[x]) by {
        if x != j {
            assert(st.mh[x]);
            let m = choose|m: int|
                0 <= m < st.matches.len() && (#[trigger] st.matches[m]).head == ref_of(
                    head.symbols@[x],
                );
            assert(t.matches[m] == st.matches[m]);
        }
    }
}

proof fn lemma_overrides_justified(base: SymbolGraph, head: SymbolGraph, ovs: Seq<RenameOverride>)
    ensures
        marks_justified(base, head, after_overrides(base, head, ovs)),
    decreases ovs.len(),
{
    if ovs.len() > 0 {
        lemma_overrides_justified(base, head, ovs.drop_last());
        lemma_overrides_sized(base, head, ovs.drop_last());
        lemma_last_fqn_pos(base.symbols@, ovs.last().base_fqn@);
        lemma_last_fqn_pos(head.symbols@, ovs.last().head_fqn@);
        let st = after_overrides(base, head, ovs.drop_last());
        let b = last_fqn_pos(base.symbols@, ovs.last().base_fqn@);
        let h = last_fqn_pos(head.symbols@, ovs.last().head_fqn@);
        if ovs.last().decision == Decision::Match && b >= 0 && h >= 0 {
            lemma_with_match_justified(
                base,
                head,
                st,
                b,
                h,
                match_v(base.symbols@[b], head.symbols@[h], MatchMethod::UserOverride, SCORE_ONE as int),
            );
        }
    }
}

proof fn lemma_exact_justified(base: SymbolGraph, head: SymbolGraph, st: DiffState, k: nat)
    requires
        marks_justified(base, head, st),
        sized(st, base.symbols@.len(), head.symbols@.len()),
        k <= base.symbols@.len(),
    ensures
        marks_justified(base, head, after_exact(base, head, st, k)),
    decreases k,
{
    if k > 0 {
        lemma_exact_justified(base, head, st, (k - 1) as nat);
        lemma_exact_sized(base, head, st, (k - 1) as nat);
        let s = after_exact(base, head, st, (k - 1) as nat);
        let sym = base.symbols@[k - 1];
        lemma_last_fqn_pos(head.symbols@, sym.fqn@);
        let q = last_fqn_pos(head.symbols@, sym.fqn@);
        if !s.mb[k - 1] && is_top_level(sym.kind) && q >= 0 && head.symbols@[q].kind == sym.kind
            && !s.mh[q] {
            lemma_with_match_justified(
                base,
                head,
                s,
                k - 1,
                q,
                match_v(sym, head.symbols@[q], MatchMethod::Exact, SCORE_ONE as int),
            );
        }
    }
}

proof fn lemma_fp_justified(
    base: SymbolGraph,
    head: SymbolGraph,
    cfg: DiffConfig,
    ovs: Seq<RenameOverride>,
    st: DiffState,
    k: nat,
)
    requires
        marks_justified(base, head, st),
        sized(st, base.symbols@.len(), head.symbols@.len()),
        k <= base.symbols@.len(),
    ensures
        marks_justified(base, head, after_fp(base, head, cfg, ovs, st, k)),
    decreases k,
{
    if k > 0 {
        lemma_fp_justified(base, head, cfg, ovs, st, (k - 1) as nat);
        lemma_fp_sized(base, head, cfg, ovs, st, (k - 1) as nat);
        let s = after_fp(base, head, cfg, ovs, st, (k - 1) as nat);
        let sym = base.symbols@[k - 1];
        lemma_best_head(base, head, cfg, ovs, s.mh, k - 1, head.symbols@.len());
        let t = fp_step(base, head, cfg, ovs, s, k - 1);
        match best_head(base, head, cfg, ovs, s.mh, k - 1, head.symbols@.len()) {
            Some(b) => {
                if fingerprinted(sym.kind) && !s.mb[k - 1]
                    && b.1 >= cfg.fingerprint_confidence_threshold * 1_000_000 {
                    lemma_with_match_justified(
                        base,
                        head,
                        s,
                        k - 1,
                        b.0,
                        match_v(sym, head.symbols@[b.0], MatchMethod::Fingerprint, b.1),
                    );
                } else {
                    assert(t.mb == s.mb && t.mh == s.mh && t.matches == s.matches);
                    assert(marks_justified(base, head, t));
                }
            },
            None => {},
        }
    }
}

proof fn lemma_unmatched_contains(
    syms: Seq<Symbol>,
    marks: Seq<bool>,
    sugg: Seq<SuggestionV>,
    base_side: bool,
    k: nat,
    i: int,
)
    requires
        0 <= i < k <= syms.len(),
        is_top_level(syms[i].kind),
        !marks[i],
        !(if base_side {
            suggested_base(sugg, syms[i].fqn@)
        } else {
            suggested_head(sugg, syms[i].fqn@)
        }),
    ensures
        unmatched_upto(syms, marks, sugg, base_side, k).contains(ref_of(syms[i])),
    decreases k,
{
    let r = unmatched_upto(syms, marks, sugg, base_side, k);
    if i == k - 1 {
        assert(r[r.len() - 1] == ref_of(syms[i]));
    } else {
        lemma_unmatched_contains(syms, marks, sugg, base_side, (k - 1) as nat, i);
        let prev = unmatched_upto(syms, marks, sugg, base_side, (k - 1) as nat);
        let w = choose|w: int| 0 <= w < prev.len() && prev[w] == ref_of(syms[i]);
        assert(r[w] == prev[w]);
    }
}

/// Every class, struct and enum of the base graph is the base of a match,
/// named by a rename suggestion, or listed as removed; every one of the
/// head graph is the head of a match, named by a suggestion, or added.
pub proof fn law_every_top_level_symbol_is_reported(
    base: SymbolGraph,
    head: SymbolGraph,
    cfg: DiffConfig,
    ovs: Seq<RenameOverride>,
)
    ensures
        forall|i: int|
            0 <= i < base.symbols@.len() && is_top_level(#[trigger] base.symbols@[i].kind) ==> {
                let d = diff_spec(base, head, cfg, ovs);
                ||| exists|m: int|
                    0 <= m < d.matches.len() && (#[trigger] d.matches[m]).base == ref_of(
                        base.symbols@[i],
                    )
                ||| suggested_base(d.suggestions, base.symbols@[i].fqn@)
                ||| d.removed.contains(ref_of(base.symbols@[i]))
            },
        forall|j: int|
            0 <= j < head.symbols@.len() && is_top_level(#[trigger] head.symbols@[j].kind) ==> {
                let d = diff_spec(base, head, cfg, ovs);
                ||| exists|m: int|
                    0 <= m < d.matches.len() && (#[trigger] d.matches[m]).head == ref_of(
                        head.symbols@[j],
                    )
                ||| suggested_head(d.suggestions, head.symbols@[j].fqn@)
                ||| d.added.contains(ref_of(head.symbols@[j]))
            },
{
    let nb = base.symbols@.len();
    let nh = head.symbols@.len();
    let s1 = after_overrides(base, head, ovs);
    let s2 = after_exact(base, head, s1, nb);
    let s3 = after_fp(base, head, cfg, ovs, s2, nb);
    let d = diff_spec(base, head, cfg, ovs);
    lemma_overrides_sized(base, head, ovs);
    lemma_overrides_justified(base, head, ovs);
    lemma_exact_sized(base, head, s1, nb);
    lemma_exact_justified(base, head, s1, nb);
    lemma_fp_sized(base, head, cfg, ovs, s2, nb);
    lemma_fp_justified(base, head, cfg, ovs, s2, nb);
    assert(final_state(base, head, cfg, ovs) == s3);
    assert forall|i: int|
        0 <= i < nb && is_top_level(#[trigger] base.symbols@[i].kind) implies {
        ||| exists|m: int|
            0 <= m < d.matches.len() && (#[trigger] d.matches[m]).base == ref_of(base.symbols@[i])
        ||| suggested_base(d.suggestions, base.symbols@[i].fqn@)
        ||| d.removed.contains(ref_of(base.symbols@[i]))
    } by {
        if s3.mb[i] {
            let m = choose|m: int|
                0 <= m < s3.matches.len() && (#[trigger] s3.matches[m]).base == ref_of(
                    base.symbols@[i],
                );
            assert(d.matches[m] == s3.matches[m]);
        } else if !suggested_base(s3.sugg, base.symbols@[i].fqn@) {
            lemma_unmatched_contains(base.symbols@, s3.mb, s3.sugg, true, nb, i);
        }
    }
    assert forall|j: int|
        0 <= j < nh && is_top_level(#[trigger] head.symbols@[j].kind) implies {
        ||| exists|m: int|
            0 <= m < d.matches.len() && (#[trigger] d.matches[m]).head == ref_of(head.symbols@[j])
        ||| suggested_head(d.suggestions, head.symbols@[j].fqn@)
        ||| d.added.contains(ref_of(head.symbols@[j]))
    } by {
        if s3.mh[j] {
            let m = choose|m: int|
                0 <= m < s3.matches.len() && (#[trigger] s3.matches[m]).head == ref_of(
                    head.symbols@[j],
                );
            assert(d.matches[m] == s3.matches[m]);
        } else if !suggested_head(s3.sugg, head.symbols@[j].fqn@) {
            lemma_unmatched_contains(head.symbols@, s3.mh, s3.sugg, false, nh, j);
        }
    }
}

/// No two symbols share an fqn.
pub open spec fn fqns_unique(syms: Seq<Symbol>) -> bool {
    forall|i: int, j: int|
        0 <= i < syms.len() && 0 <= j < syms.len() && i != j ==> syms[i].fqn@ != syms[j].fqn@
}

/// No two distinct members of a symbol share a name.
pub open spec fn members_named_apart(g: SymbolGraph) -> bool {
    forall|p: int, t1: int, t2: int|
        #![trigger members_at(g, p)[t1], members_at(g, p)[t2]]
        0 <= p < g.symbols@.len() && 0 <= t1 < members_at(g, p).len() && 0 <= t2 < members_at(
            g,
            p,
        ).len() && g.symbols@[members_at(g, p)[t1]].name@ == g.symbols@[members_at(
            g,
            p,
        )[t2]].name@ ==> members_at(g, p)[t1] == members_at(g, p)[t2]
}

pub open spec fn top_marks(g: SymbolGraph, k: int) -> Seq<bool> {
    Seq::new(g.symbols@.len(), |x: int| x < k && is_top_level(g.symbols@[x].kind))
}

/// Exact matches of symbols of `g` with themselves.
pub open spec fn self_matches(g: SymbolGraph, ms: Seq<MatchV>) -> bool {
    forall|m: int|
        0 <= m < ms.len() ==> {
            &&& (#[trigger] ms[m]).method == MatchMethod::Exact
            &&& ms[m].base == ms[m].head
            &&& exists|i: int| 0 <= i < g.symbols@.len() && ms[m].base == ref_of(g.symbols@[i])
        }
}

/// Every match scores one and stands for one of the first `k` symbols, and
/// no two matches share a base.
pub open spec fn self_scores_distinct(g: SymbolGraph, ms: Seq<MatchV>, k: int) -> bool {
    &&& forall|m: int|
        0 <= m < ms.len() ==> (#[trigger] ms[m]).score == SCORE_ONE as int && exists|i: int|
            0 <= i < k && ms[m].base == ref_of(g.symbols@[i])
    &&& forall|m1: int, m2: int|
        0 <= m1 < m2 < ms.len() ==> (#[trigger] ms[m1]).base != (#[trigger] ms[m2]).base
}

proof fn lemma_self_exact_scores(g: SymbolGraph, k: nat)
    requires
        fqns_unique(g.symbols@),
        k <= g.symbols@.len(),
    ensures
        self_scores_distinct(
            g,
            after_exact(g, g, initial_state(g.symbols@.len(), g.symbols@.len()), k).matches,
            k as int,
        ),
    decreases k,
{
    let n = g.symbols@.len();
    let init = initial_state(n, n);
    if k > 0 {
        lemma_self_exact_scores(g, (k - 1) as nat);
        lemma_self_exact(g, (k - 1) as nat);
        let s = after_exact(g, g, init, (k - 1) as nat);
        let t = after_exact(g, g, init, k);
        let sym = g.symbols@[k - 1];
        lemma_unique_fqn_pos(g, k - 1);
        if is_top_level(sym.kind) {
            assert(!s.mb[k - 1]);
            assert(!s.mh[k - 1]);
            let mv = match_v(sym, sym, MatchMethod::Exact, SCORE_ONE as int);
            assert(t.matches == s.matches.push(mv));
            assert forall|m: int| 0 <= m < t.matches.len() implies (#[trigger] t.matches[m]).score
                == SCORE_ONE as int && exists|i: int|
                0 <= i < k && t.matches[m].base == ref_of(g.symbols@[i]) by {
                if m < s.matches.len() {
                    assert(t.matches[m] == s.matches[m]);
                } else {
                    assert(t.matches[m] == mv);
                    assert(mv.base == ref_of(g.symbols@[k - 1]));
                }
            }
            assert forall|m1: int, m2: int| 0 <= m1 < m2 < t.matches.len() implies (#[trigger] t.matches[m1]).base
                != (#[trigger] t.matches[m2]).base by {
                assert(t.matches[m1] == s.matches[m1]);
                if m2 < s.matches.len() {
                    assert(t.matches[m2] == s.matches[m2]);
                } else {
                    assert(t.matches[m2] == mv);
                    assert(s.matches[m1].score == SCORE_ONE as int);
                    let i = choose|i: int| 0 <= i < k - 1 && s.matches[m1].base == ref_of(g.symbols@[i]);
                    assert(g.symbols@[i].fqn@ != g.symbols@[k - 1].fqn@);
                }
            }
        } else {
            assert(t.matches == s.matches);
            assert forall|m: int| 0 <= m < t.matches.len() implies (#[trigger] t.matches[m]).score
                == SCORE_ONE as int && exists|i: int|
                0 <= i < k && t.matches[m].base == ref_of(g.symbols@[i]) by {
                assert(s.matches[m].score == SCORE_ONE as int);
                let i = choose|i: int| 0 <= i < k - 1 && s.matches[m].base == ref_of(g.symbols@[i]);
            }
        }
    }
}

proof fn lemma_unique_fqn_pos(g: SymbolGraph, i: int)
    requires
        fqns_unique(g.symbols@),
        0 <= i < g.symbols@.len(),
    ensures
        last_fqn_pos(g.symbols@, g.symbols@[i].fqn@) == i,
{
    lemma_last_fqn_pos_char(g.symbols@, g.symbols@[i].fqn@, i);
}

proof fn lemma_self_exact(g: SymbolGraph, k: nat)
    requires
        fqns_unique(g.symbols@),
        k <= g.symbols@.len(),
    ensures
        ({
            let st = after_exact(
                g,
                g,
                initial_state(g.symbols@.len(), g.symbols@.len()),
                k,
            );
            &&& st.mb == top_marks(g, k as int)
            &&& st.mh == top_marks(g, k as int)
            &&& st.sugg.len() == 0
            &&& self_matches(g, st.matches)
        }),
    decreases k,
{
    let n = g.symbols@.len();
    let init = initial_state(n, n);
    if k == 0 {
        assert(init.mb =~= top_marks(g, 0));
        assert(init.mh =~= top_marks(g, 0));
    } else {
        lemma_self_exact(g, (k - 1) as nat);
        let s = after_exact(g, g, init, (k - 1) as nat);
        let t = after_exact(g, g, init, k);
        let sym = g.symbols@[k - 1];
        lemma_unique_fqn_pos(g, k - 1);
        if is_top_level(sym.kind) {
            assert(!s.mb[k - 1]);
            assert(!s.mh[k - 1]);
            assert(t.mb =~= top_marks(g, k as int));
            assert(t.mh =~= top_marks(g, k as int));
            let mv = match_v(sym, sym, MatchMethod::Exact, SCORE_ONE as int);
            assert(t.matches == s.matches.push(mv));
            assert forall|m: int| 0 <= m < t.matches.len() implies {
                &&& (#[trigger] t.matches[m]).method == MatchMethod::Exact
                &&& t.matches[m].base == t.matches[m].head
                &&& exists|i: int| 0 <= i < n && t.matches[m].base == ref_of(g.symbols@[i])
            } by {
                if m < s.matches.len() {
                    assert(t.matches[m] == s.matches[m]);
                } else {
                    assert(t.matches[m] == mv);
                    assert(mv.base == ref_of(g.symbols@[k - 1]));
                }
            }
        } else {
            assert(s.mb =~= top_marks(g, k as int));
            assert(s.mh =~= top_marks(g, k as int));
        }
    }
}

proof fn lemma_self_fp(g: SymbolGraph, cfg: DiffConfig, st: DiffState, k: nat)
    requires
        st.mb == top_marks(g, g.symbols@.len() as int),
        k <= g.symbols@.len(),
    ensures
        after_fp(g, g, cfg, Seq::empty(), st, k) == st,
    decreases k,
{
    if k > 0 {
        lemma_self_fp(g, cfg, st, (k - 1) as nat);
        let sym = g.symbols@[k - 1];
        if fingerprinted(sym.kind) {
            assert(st.mb[k - 1]);
        }
    }
}

proof fn lemma_self_unmatched(g: SymbolGraph, sugg: Seq<SuggestionV>, side: bool, k: nat)
    requires
        k <= g.symbols@.len(),
    ensures
        unmatched_upto(g.symbols@, top_marks(g, g.symbols@.len() as int), sugg, side, k).len()
            == 0,
    decreases k,
{
    if k > 0 {
        lemma_self_unmatched(g, sugg, side, (k - 1) as nat);
    }
}

/// Diffing a graph against itself, with no overrides, reports every
/// class, struct and enum as an exact match of itself, and nothing added,
/// removed or suggested, provided no two symbols share an fqn.
pub proof fn law_self_diff_is_all_exact(g: SymbolGraph, cfg: DiffConfig)
    requires
        fqns_unique(g.symbols@),
    ensures
        ({
            let d = diff_spec(g, g, cfg, Seq::empty());
            &&& d.added.len() == 0
            &&& d.removed.len() == 0
            &&& d.suggestions.len() == 0
            &&& forall|m: int|
                0 <= m < d.matches.len() ==> (#[trigger] d.matches[m]).method == MatchMethod::Exact
                    && d.matches[m].base == d.matches[m].head
            &&& forall|i: int|
                0 <= i < g.symbols@.len() && is_top_level(#[trigger] g.symbols@[i].kind)
                    ==> exists|m: int|
                    0 <= m < d.matches.len() && (#[trigger] d.matches[m]).base == ref_of(
                        g.symbols@[i],
                    )
        }),
{
    let n = g.symbols@.len();
    let ovs = Seq::<RenameOverride>::empty();
    let s1 = after_overrides(g, g, ovs);
    assert(s1 == initial_state(n, n));
    lemma_self_exact(g, n);
    let s2 = after_exact(g, g, s1, n);
    lemma_self_fp(g, cfg, s2, n);
    assert(final_state(g, g, cfg, ovs) == s2);
    lemma_self_unmatched(g, s2.sugg, true, n);
    lemma_self_unmatched(g, s2.sugg, false, n);
    lemma_overrides_sized(g, g, ovs);
    lemma_overrides_justified(g, g, ovs);
    lemma_exact_justified(g, g, s1, n);
    let d = diff_spec(g, g, cfg, ovs);
    assert(d.matches == s2.matches);
    assert forall|i: int|
        0 <= i < n && is_top_level(#[trigger] g.symbols@[i].kind) implies exists|m: int|
        0 <= m < d.matches.len() && (#[trigger] d.matches[m]).base == ref_of(g.symbols@[i]) by {
        assert(s2.mb[i]);
    }
}

proof fn lemma_last_named_found(syms: Seq<Symbol>, ms: Seq<int>, n: Seq<char>, t: int)
    requires
        0 <= t < ms.len(),
        syms[ms[t]].name@ == n,
    ensures
        last_named(syms, ms, n) >= 0,
    decreases ms.len(),
{
    if t < ms.len() - 1 && syms[ms.last()].name@ != n {
        assert(ms.drop_last()[t] == ms[t]);
        lemma_last_named_found(syms, ms.drop_last(), n, t);
    }
}

proof fn lemma_pair_changes_self(hf: Seq<char>, b: Symbol)
    ensures
        pair_changes(hf, b, b).len() == 0,
{
    assert(pair_changes(hf, b, b) =~= Seq::<FieldChangeV>::empty());
}

proof fn lemma_classify_self(hf: Seq<char>, g: SymbolGraph, p: int)
    requires
        0 <= p < g.symbols@.len(),
        members_named_apart(g),
    ensures
        classify_spec(hf, g, p, g, p).len() == 0,
{
    let syms = g.symbols@;
    let ms = members_at(g, p);
    lemma_member_positions(syms, children_of(g.relations@, syms[p].local_id));
    assert forall|j: nat| j <= ms.len() implies #[trigger] base_side(hf, syms, ms.take(j as int), syms, ms).len()
        == 0 by {
        lemma_base_side_self(hf, g, p, j);
    }
    assert forall|j: nat| j <= ms.len() implies #[trigger] head_side(hf, syms, ms, syms, ms.take(j as int)).len()
        == 0 by {
        lemma_head_side_self(hf, g, p, j);
    }
    assert(ms.take(ms.len() as int) =~= ms);
    assert(base_side(hf, syms, ms.take(ms.len() as int), syms, ms).len() == 0);
    assert(head_side(hf, syms, ms, syms, ms.take(ms.len() as int)).len() == 0);
}

proof fn lemma_base_side_self(hf: Seq<char>, g: SymbolGraph, p: int, j: nat)
    requires
        0 <= p < g.symbols@.len(),
        members_named_apart(g),
        j <= members_at(g, p).len(),
    ensures
        base_side(hf, g.symbols@, members_at(g, p).take(j as int), g.symbols@, members_at(g, p)).len()
            == 0,
    decreases j,
{
    let syms = g.symbols@;
    let ms = members_at(g, p);
    if j > 0 {
        lemma_base_side_self(hf, g, p, (j - 1) as nat);
        let pre = ms.take(j as int);
        assert(pre.drop_last() =~= ms.take(j - 1));
        assert(pre.last() == ms[j - 1]);
        let b = syms[ms[j - 1]];
        lemma_last_named_found(syms, ms, b.name@, j - 1);
        lemma_last_named(syms, ms, b.name@);
        let k = last_named(syms, ms, b.name@);
        assert(ms[k] == ms[j - 1]);
        lemma_pair_changes_self(hf, b);
    }
}

proof fn lemma_head_side_self(hf: Seq<char>, g: SymbolGraph, p: int, j: nat)
    requires
        0 <= p < g.symbols@.len(),
        j <= members_at(g, p).len(),
    ensures
        head_side(hf, g.symbols@, members_at(g, p), g.symbols@, members_at(g, p).take(j as int)).len()
            == 0,
    decreases j,
{
    let syms = g.symbols@;
    let ms = members_at(g, p);
    if j > 0 {
        lemma_head_side_self(hf, g, p, (j - 1) as nat);
        let pre = ms.take(j as int);
        assert(pre.drop_last() =~= ms.take(j - 1));
        assert(pre.last() == ms[j - 1]);
        lemma_last_named_found(syms, ms, syms[ms[j - 1]].name@, j - 1);
    }
}

proof fn lemma_self_changes(g: SymbolGraph, ms: Seq<MatchV>)
    requires
        fqns_unique(g.symbols@),
        members_named_apart(g),
        self_matches(g, ms),
    ensures
        changes_upto(g, g, ms).len() == 0,
    decreases ms.len(),
{
    if ms.len() > 0 {
        assert forall|m: int| 0 <= m < ms.drop_last().len() implies {
            &&& (#[trigger] ms.drop_last()[m]).method == MatchMethod::Exact
            &&& ms.drop_last()[m].base == ms.drop_last()[m].head
            &&& exists|i: int|
                0 <= i < g.symbols@.len() && ms.drop_last()[m].base == ref_of(g.symbols@[i])
        } by {
            assert(ms.drop_last()[m] == ms[m]);
        }
        lemma_self_changes(g, ms.drop_last());
        let m = ms.last();
        assert(ms[ms.len() - 1] == m);
        let i = choose|i: int| 0 <= i < g.symbols@.len() && m.base == ref_of(g.symbols@[i]);
        lemma_unique_fqn_pos(g, i);
        lemma_classify_self(m.head.fqn, g, i);
    }
}

/// Diffing a graph against itself, with no overrides, reports no member
/// change, provided no two symbols share an fqn and no two members of a
/// symbol share a name.
pub proof fn law_self_diff_has_no_member_changes(g: SymbolGraph, cfg: DiffConfig)
    requires
        fqns_unique(g.symbols@),
        members_named_apart(g),
    ensures
        diff_spec(g, g, cfg, Seq::empty()).field_changes.len() == 0,
{
    let n = g.symbols@.len();
    let ovs = Seq::<RenameOverride>::empty();
    let s1 = after_overrides(g, g, ovs);
    assert(s1 == initial_state(n, n));
    lemma_self_exact(g, n);
    let s2 = after_exact(g, g, s1, n);
    lemma_self_fp(g, cfg, s2, n);
    assert(final_state(g, g, cfg, ovs) == s2);
    lemma_self_changes(g, s2.matches);
}

/// A member compared with itself shows no change: no offset, size, type,
/// vtable slot or signature change is reported for it.
pub proof fn law_equal_members_give_no_change(hf: Seq<char>, s: Symbol)
    ensures
        pair_changes(hf, s, s) == Seq::<FieldChangeV>::empty(),
{
    assert(pair_changes(hf, s, s) =~= Seq::<FieldChangeV>::empty());
}

/// Two members that agree on kind, offset, size, vtable slot and canonical
/// type.
pub open spec fn same_member(b: Symbol, h: Symbol) -> bool {
    &&& b.kind == h.kind
    &&& b.offset == h.offset
    &&& b.size == h.size
    &&& b.vtable_slot == h.vtable_slot
    &&& opt_canon(b.type_ref) == opt_canon(h.type_ref)
}

/// Some member among positions `ms` of `ss` is named `n`.
pub open spec fn has_member_named(ss: Seq<Symbol>, ms: Seq<int>, n: Seq<char>) -> bool {
    exists|t: int| 0 <= t < ms.len() && #[trigger] ss[ms[t]].name@ == n
}

/// The base members (positions `bms` in `bs`) and the head members
/// (positions `hms` in `hs`) have the same names, and members of the same
/// name agree.
pub open spec fn members_match(bs: Seq<Symbol>, bms: Seq<int>, hs: Seq<Symbol>, hms: Seq<int>) -> bool {
    &&& forall|i: int| 0 <= i < bms.len() ==> #[trigger] has_member_named(hs, hms, bs[bms[i]].name@)
    &&& forall|t: int| 0 <= t < hms.len() ==> #[trigger] has_member_named(bs, bms, hs[hms[t]].name@)
    &&& forall|i: int, t: int|
        0 <= i < bms.len() && 0 <= t < hms.len() && (#[trigger] bs[bms[i]]).name@ == (
        #[trigger] hs[hms[t]]).name@ ==> same_member(bs[bms[i]], hs[hms[t]])
}

proof fn lemma_matching_base_side(
    hf: Seq<char>,
    bs: Seq<Symbol>,
    bms: Seq<int>,
    hs: Seq<Symbol>,
    hms: Seq<int>,
    j: nat,
)
    requires
        members_match(bs, bms, hs, hms),
        j <= bms.len(),
    ensures
        base_side(hf, bs, bms.take(j as int), hs, hms).len() == 0,
    decreases j,
{
    if j > 0 {
        lemma_matching_base_side(hf, bs, bms, hs, hms, (j - 1) as nat);
        let pre = bms.take(j as int);
        assert(pre.drop_last() =~= bms.take(j - 1));
        assert(pre.last() == bms[j - 1]);
        let b = bs[bms[j - 1]];
        assert(has_member_named(hs, hms, b.name@));
        let t = choose|t: int| 0 <= t < hms.len() && #[trigger] hs[hms[t]].name@ == b.name@;
        lemma_last_named_found(hs, hms, b.name@, t);
        lemma_last_named(hs, hms, b.name@);
        let k = last_named(hs, hms, b.name@);
        assert(same_member(b, hs[hms[k]]));
        assert(pair_changes(hf, b, hs[hms[k]]) =~= Seq::<FieldChangeV>::empty());
    }
}

proof fn lemma_matching_head_side(
    hf: Seq<char>,
    bs: Seq<Symbol>,
    bms: Seq<int>,
    hs: Seq<Symbol>,
    hms: Seq<int>,
    j: nat,
)
    requires
        members_match(bs, bms, hs, hms),
        j <= hms.len(),
    ensures
        head_side(hf, bs, bms, hs, hms.take(j as int)).len() == 0,
    decreases j,
{
    if j > 0 {
        lemma_matching_head_side(hf, bs, bms, hs, hms, (j - 1) as nat);
        let pre = hms.take(j as int);
        assert(pre.drop_last() =~= hms.take(j - 1));
        assert(pre.last() == hms[j - 1]);
        let h = hs[hms[j - 1]];
        assert(has_member_named(bs, bms, h.name@));
        let i = choose|i: int| 0 <= i < bms.len() && #[trigger] bs[bms[i]].name@ == h.name@;
        lemma_last_named_found(bs, bms, h.name@, i);
    }
}

/// Classifying a matched pair reports no change when both have the same
/// parent (or none), their members have the same names, and members of the
/// same name agree on kind, offset, size, vtable slot and canonical type.
pub proof fn law_matching_members_give_no_change(
    hf: Seq<char>,
    base: SymbolGraph,
    p: int,
    head: SymbolGraph,
    q: int,
)
    requires
        parent_fqn_at(base, p) == parent_fqn_at(head, q),
        members_match(base.symbols@, members_at(base, p), head.symbols@, members_at(head, q)),
    ensures
        classify_spec(hf, base, p, head, q) == Seq::<FieldChangeV>::empty(),
{
    let bs = base.symbols@;
    let hs = head.symbols@;
    let bms = members_at(base, p);
    let hms = members_at(head, q);
    lemma_matching_base_side(hf, bs, bms, hs, hms, bms.len());
    lemma_matching_head_side(hf, bs, bms, hs, hms, hms.len());
    assert(bms.take(bms.len() as int) =~= bms);
    assert(hms.take(hms.len() as int) =~= hms);
    assert(classify_spec(hf, base, p, head, q) =~= Seq::<FieldChangeV>::empty());
}

/// The reported change is an offset change of the member named `n`.
pub open spec fn is_offset_change_of(n: Seq<char>) -> spec_fn(FieldChangeV) -> bool {
    |c: FieldChangeV| c.change matches ChangeV::OffsetChanged { field, .. } && field == n
}

/// No two of the members at positions `ms` of `ss` share a name.
pub open spec fn named_apart(ss: Seq<Symbol>, ms: Seq<int>) -> bool {
    forall|t1: int, t2: int|
        0 <= t1 < t2 < ms.len() ==> (#[trigger] ss[ms[t1]]).name@ != (#[trigger] ss[ms[t2]]).name@
}

#[verifier::spinoff_prover]
proof fn lemma_filter_single(x: FieldChangeV, pred: spec_fn(FieldChangeV) -> bool)
    ensures
        seq![x].filter(pred) == (if pred(x) {
            seq![x]
        } else {
            Seq::<FieldChangeV>::empty()
        }),
{
    let e = Seq::<FieldChangeV>::empty();
    assert(seq![x] =~= e.push(x));
    e.lemma_filter_push(x, pred);
    assert(e.filter(pred) =~= e);
}

#[verifier::spinoff_prover]
proof fn lemma_filter_empty(pred: spec_fn(FieldChangeV) -> bool)
    ensures
        Seq::<FieldChangeV>::empty().filter(pred) == Seq::<FieldChangeV>::empty(),
{
    assert(Seq::<FieldChangeV>::empty().filter(pred) =~= Seq::<FieldChangeV>::empty());
}

/// The reported change compares the member named `n` of the two sides:
/// an offset, size, type, vtable slot or signature change of it.
pub open spec fn compares_member(n: Seq<char>, c: FieldChangeV) -> bool {
    match c.change {
        ChangeV::OffsetChanged { field, .. } => field == n,
        ChangeV::SizeChanged { field, .. } => field == n,
        ChangeV::FieldTypeSubstituted { field, .. } => field == n,
        ChangeV::VtableShift { fn_name, .. } => fn_name == n,
        ChangeV::FunctionSignatureChanged { fn_name, .. } => fn_name == n,
        _ => false,
    }
}

/// `pred` picks out only changes that compare the member named `n`.
pub open spec fn about_member(n: Seq<char>, pred: spec_fn(FieldChangeV) -> bool) -> bool {
    forall|c: FieldChangeV| #[trigger] pred(c) ==> compares_member(n, c)
}

pub open spec fn is_size_change_of(n: Seq<char>) -> spec_fn(FieldChangeV) -> bool {
    |c: FieldChangeV| c.change matches ChangeV::SizeChanged { field, .. } && field == n
}

pub open spec fn is_type_change_of(n: Seq<char>) -> spec_fn(FieldChangeV) -> bool {
    |c: FieldChangeV| c.change matches ChangeV::FieldTypeSubstituted { field, .. } && field == n
}

pub open spec fn is_slot_change_of(n: Seq<char>) -> spec_fn(FieldChangeV) -> bool {
    |c: FieldChangeV| c.change matches ChangeV::VtableShift { fn_name, .. } && fn_name == n
}

pub open spec fn is_signature_change_of(n: Seq<char>) -> spec_fn(FieldChangeV) -> bool {
    |c: FieldChangeV| c.change matches ChangeV::FunctionSignatureChanged { fn_name, .. } && fn_name
        == n
}

/// What one member pair reports about a member of another name: nothing.
#[verifier::spinoff_prover]
proof fn lemma_pair_changes_other_member(
    hf: Seq<char>,
    b: Symbol,
    h: Symbol,
    n: Seq<char>,
    pred: spec_fn(FieldChangeV) -> bool,
)
    requires
        about_member(n, pred),
        b.name@ != n,
    ensures
        pair_changes(hf, b, h).filter(pred) == Seq::<FieldChangeV>::empty(),
{
    let e = Seq::<FieldChangeV>::empty();
    let pc = pair_changes(hf, b, h);
    assert forall|x: int| 0 <= x < pc.len() implies !pred(#[trigger] pc[x]) by {
        if pred(pc[x]) {
            assert(compares_member(n, pc[x]));
        }
    }
    lemma_filter_none(pc, pred);
}

#[verifier::spinoff_prover]
proof fn lemma_filter_none(s: Seq<FieldChangeV>, pred: spec_fn(FieldChangeV) -> bool)
    requires
        forall|x: int| 0 <= x < s.len() ==> !pred(#[trigger] s[x]),
    ensures
        s.filter(pred) == Seq::<FieldChangeV>::empty(),
    decreases s.len(),
{
    if s.len() == 0 {
        lemma_filter_empty(pred);
    } else {
        assert forall|x: int| 0 <= x < s.drop_last().len() implies !pred(
            #[trigger] s.drop_last()[x],
        ) by {
            assert(s.drop_last()[x] == s[x]);
        }
        lemma_filter_none(s.drop_last(), pred);
        assert(s.drop_last().push(s.last()) =~= s);
        s.drop_last().lemma_filter_push(s.last(), pred);
    }
}

/// The offset changes a member pair reports about its member: one, from the
/// base member's value to the head member's, when they differ.
#[verifier::spinoff_prover]
proof fn lemma_pair_offset_changes(hf: Seq<char>, b: Symbol, h: Symbol)
    ensures
        pair_changes(hf, b, h).filter(is_offset_change_of(b.name@)) == if b.kind == SymbolKind::Field && b.offset is Some && h.offset is Some && b.offset->0 != h.offset->0 {
            seq![change_at(hf, ChangeV::OffsetChanged { field: b.name@, old_offset: b.offset->0, new_offset: h.offset->0 })]
        } else {
            Seq::<FieldChangeV>::empty()
        },
{
    lemma_pair_filter(hf, b, h, is_offset_change_of(b.name@));
    let e = Seq::<FieldChangeV>::empty();
    assert(e + e =~= e);
    assert(e + e + e =~= e);
    let v = change_at(hf, ChangeV::OffsetChanged { field: b.name@, old_offset: b.offset->0, new_offset: h.offset->0 });
    assert(e + seq![v] =~= seq![v]);
    assert(seq![v] + e =~= seq![v]);
    assert(e + seq![v] + e =~= seq![v]);
    assert(seq![v] + e + e =~= seq![v]);
    assert(e + e + seq![v] =~= seq![v]);
}

/// The size changes a member pair reports about its member: one, from the
/// base member's value to the head member's, when they differ.
#[verifier::spinoff_prover]
proof fn lemma_pair_size_changes(hf: Seq<char>, b: Symbol, h: Symbol)
    ensures
        pair_changes(hf, b, h).filter(is_size_change_of(b.name@)) == if b.kind == SymbolKind::Field && b.size is Some && h.size is Some && b.size->0 != h.size->0 {
            seq![change_at(hf, ChangeV::SizeChanged { field: b.name@, old_size: b.size->0, new_size: h.size->0 })]
        } else {
            Seq::<FieldChangeV>::empty()
        },
{
    lemma_pair_filter(hf, b, h, is_size_change_of(b.name@));
    let e = Seq::<FieldChangeV>::empty();
    assert(e + e =~= e);
    assert(e + e + e =~= e);
    let v = change_at(hf, ChangeV::SizeChanged { field: b.name@, old_size: b.size->0, new_size: h.size->0 });
    assert(e + seq![v] =~= seq![v]);
    assert(seq![v] + e =~= seq![v]);
    assert(e + seq![v] + e =~= seq![v]);
    assert(seq![v] + e + e =~= seq![v]);
    assert(e + e + seq![v] =~= seq![v]);
}

/// The type changes a member pair reports about its member: one, from the
/// base member's value to the head member's, when they differ.
#[verifier::spinoff_prover]
proof fn lemma_pair_type_changes(hf: Seq<char>, b: Symbol, h: Symbol)
    ensures
        pair_changes(hf, b, h).filter(is_type_change_of(b.name@)) == if b.kind == SymbolKind::Field && opt_canon(b.type_ref) != opt_canon(h.type_ref) {
            seq![change_at(hf, ChangeV::FieldTypeSubstituted { field: b.name@, old_type: or_empty(opt_canon(b.type_ref)), new_type: or_empty(opt_canon(h.type_ref)) })]
        } else {
            Seq::<FieldChangeV>::empty()
        },
{
    lemma_pair_filter(hf, b, h, is_type_change_of(b.name@));
    let e = Seq::<FieldChangeV>::empty();
    assert(e + e =~= e);
    assert(e + e + e =~= e);
    let v = change_at(hf, ChangeV::FieldTypeSubstituted { field: b.name@, old_type: or_empty(opt_canon(b.type_ref)), new_type: or_empty(opt_canon(h.type_ref)) });
    assert(e + seq![v] =~= seq![v]);
    assert(seq![v] + e =~= seq![v]);
    assert(e + seq![v] + e =~= seq![v]);
    assert(seq![v] + e + e =~= seq![v]);
    assert(e + e + seq![v] =~= seq![v]);
}

/// The slot changes a member pair reports about its member: one, from the
/// base member's value to the head member's, when they differ.
#[verifier::spinoff_prover]
proof fn lemma_pair_slot_changes(hf: Seq<char>, b: Symbol, h: Symbol)
    ensures
        pair_changes(hf, b, h).filter(is_slot_change_of(b.name@)) == if b.kind == SymbolKind::Function && b.vtable_slot is Some && h.vtable_slot is Some && b.vtable_slot->0 != h.vtable_slot->0 {
            seq![change_at(hf, ChangeV::VtableShift { fn_name: b.name@, old_slot: b.vtable_slot->0, new_slot: h.vtable_slot->0 })]
        } else {
            Seq::<FieldChangeV>::empty()
        },
{
    lemma_pair_filter(hf, b, h, is_slot_change_of(b.name@));
    let e = Seq::<FieldChangeV>::empty();
    assert(e + e =~= e);
    assert(e + e + e =~= e);
    let v = change_at(hf, ChangeV::VtableShift { fn_name: b.name@, old_slot: b.vtable_slot->0, new_slot: h.vtable_slot->0 });
    assert(e + seq![v] =~= seq![v]);
    assert(seq![v] + e =~= seq![v]);
    assert(e + seq![v] + e =~= seq![v]);
    assert(seq![v] + e + e =~= seq![v]);
    assert(e + e + seq![v] =~= seq![v]);
}

/// The signature changes a member pair reports about its member: one, from the
/// base member's value to the head member's, when they differ.
#[verifier::spinoff_prover]
proof fn lemma_pair_signature_changes(hf: Seq<char>, b: Symbol, h: Symbol)
    ensures
        pair_changes(hf, b, h).filter(is_signature_change_of(b.name@)) == if b.kind == SymbolKind::Function && opt_canon(b.type_ref) != opt_canon(h.type_ref) {
            seq![change_at(hf, ChangeV::FunctionSignatureChanged { fn_name: b.name@, old_return: opt_canon(b.type_ref), new_return: opt_canon(h.type_ref) })]
        } else {
            Seq::<FieldChangeV>::empty()
        },
{
    lemma_pair_filter(hf, b, h, is_signature_change_of(b.name@));
    let e = Seq::<FieldChangeV>::empty();
    assert(e + e =~= e);
    assert(e + e + e =~= e);
    let v = change_at(hf, ChangeV::FunctionSignatureChanged { fn_name: b.name@, old_return: opt_canon(b.type_ref), new_return: opt_canon(h.type_ref) });
    assert(e + seq![v] =~= seq![v]);
    assert(seq![v] + e =~= seq![v]);
    assert(e + seq![v] + e =~= seq![v]);
    assert(seq![v] + e + e =~= seq![v]);
    assert(e + e + seq![v] =~= seq![v]);
}

/// A part of what a member pair reports, as `pred` keeps it.
pub open spec fn kept_part(
    cond: bool,
    v: FieldChangeV,
    pred: spec_fn(FieldChangeV) -> bool,
) -> Seq<FieldChangeV> {
    if cond && pred(v) {
        seq![v]
    } else {
        Seq::<FieldChangeV>::empty()
    }
}

/// The changes of a member pair that `pred` keeps, part by part.
#[verifier::spinoff_prover]
proof fn lemma_pair_filter(hf: Seq<char>, b: Symbol, h: Symbol, pred: spec_fn(FieldChangeV) -> bool)
    ensures
        pair_changes(hf, b, h).filter(pred) == if b.kind == SymbolKind::Field {
            kept_part(
                differ(b.offset, h.offset),
                change_at(
                    hf,
                    ChangeV::OffsetChanged {
                        field: b.name@,
                        old_offset: b.offset->0,
                        new_offset: h.offset->0,
                    },
                ),
                pred,
            ) + kept_part(
                differ(b.size, h.size),
                change_at(
                    hf,
                    ChangeV::SizeChanged {
                        field: b.name@,
                        old_size: b.size->0,
                        new_size: h.size->0,
                    },
                ),
                pred,
            ) + kept_part(
                opt_canon(b.type_ref) != opt_canon(h.type_ref),
                change_at(
                    hf,
                    ChangeV::FieldTypeSubstituted {
                        field: b.name@,
                        old_type: or_empty(opt_canon(b.type_ref)),
                        new_type: or_empty(opt_canon(h.type_ref)),
                    },
                ),
                pred,
            )
        } else if b.kind == SymbolKind::Function {
            kept_part(
                differ(b.vtable_slot, h.vtable_slot),
                change_at(
                    hf,
                    ChangeV::VtableShift {
                        fn_name: b.name@,
                        old_slot: b.vtable_slot->0,
                        new_slot: h.vtable_slot->0,
                    },
                ),
                pred,
            ) + kept_part(
                opt_canon(b.type_ref) != opt_canon(h.type_ref),
                change_at(
                    hf,
                    ChangeV::FunctionSignatureChanged {
                        fn_name: b.name@,
                        old_return: opt_canon(b.type_ref),
                        new_return: opt_canon(h.type_ref),
                    },
                ),
                pred,
            )
        } else {
            Seq::<FieldChangeV>::empty()
        },
{
    let n = b.name@;
    let bt = opt_canon(b.type_ref);
    let ht = opt_canon(h.type_ref);
    let e = Seq::<FieldChangeV>::empty();
    lemma_filter_empty(pred);
    if b.kind == SymbolKind::Field {
        let x = change_at(hf, ChangeV::OffsetChanged {
            field: n,
            old_offset: b.offset->0,
            new_offset: h.offset->0,
        });
        let y = change_at(hf, ChangeV::SizeChanged {
            field: n,
            old_size: b.size->0,
            new_size: h.size->0,
        });
        let z = change_at(hf, ChangeV::FieldTypeSubstituted {
            field: n,
            old_type: or_empty(bt),
            new_type: or_empty(ht),
        });
        let a1 = if differ(b.offset, h.offset) { seq![x] } else { e };
        let a2 = if differ(b.size, h.size) { seq![y] } else { e };
        let a3 = if bt != ht { seq![z] } else { e };
        assert(pair_changes(hf, b, h) == a1 + a2 + a3);
        Seq::filter_distributes_over_add(a1 + a2, a3, pred);
        Seq::filter_distributes_over_add(a1, a2, pred);
        lemma_filter_single(x, pred);
        lemma_filter_single(y, pred);
        lemma_filter_single(z, pred);
    } else if b.kind == SymbolKind::Function {
        let y = change_at(hf, ChangeV::VtableShift {
            fn_name: n,
            old_slot: b.vtable_slot->0,
            new_slot: h.vtable_slot->0,
        });
        let z = change_at(hf, ChangeV::FunctionSignatureChanged {
            fn_name: n,
            old_return: bt,
            new_return: ht,
        });
        let a2 = if differ(b.vtable_slot, h.vtable_slot) { seq![y] } else { e };
        let a3 = if bt != ht { seq![z] } else { e };
        assert(pair_changes(hf, b, h) == a2 + a3);
        Seq::filter_distributes_over_add(a2, a3, pred);
        lemma_filter_single(y, pred);
        lemma_filter_single(z, pred);
    } else {
        assert(pair_changes(hf, b, h) == e);
    }
}

#[verifier::spinoff_prover]
proof fn lemma_base_side_about(
    hf: Seq<char>,
    bs: Seq<Symbol>,
    bms: Seq<int>,
    hs: Seq<Symbol>,
    hms: Seq<int>,
    i: int,
    t: int,
    pred: spec_fn(FieldChangeV) -> bool,
    j: nat,
)
    requires
        named_apart(bs, bms),
        named_apart(hs, hms),
        0 <= i < bms.len(),
        0 <= t < hms.len(),
        hs[hms[t]].name@ == bs[bms[i]].name@,
        about_member(bs[bms[i]].name@, pred),
        j <= bms.len(),
    ensures
        base_side(hf, bs, bms.take(j as int), hs, hms).filter(pred) == (if j > i {
            pair_changes(hf, bs[bms[i]], hs[hms[t]]).filter(pred)
        } else {
            Seq::<FieldChangeV>::empty()
        }),
    decreases j,
{
    let n = bs[bms[i]].name@;
    let e = Seq::<FieldChangeV>::empty();
    if j == 0 {
        assert(bms.take(0) =~= Seq::<int>::empty());
        lemma_filter_empty(pred);
    } else {
        lemma_base_side_about(hf, bs, bms, hs, hms, i, t, pred, (j - 1) as nat);
        let pre = bms.take(j as int);
        assert(pre.drop_last() =~= bms.take(j - 1));
        assert(pre.last() == bms[j - 1]);
        let prev = base_side(hf, bs, bms.take(j - 1), hs, hms);
        let c = bs[bms[j - 1]];
        let k = last_named(hs, hms, c.name@);
        let removed = change_at(hf, ChangeV::FieldRemoved { field: c.name@ });
        let block = if k < 0 {
            seq![removed]
        } else {
            pair_changes(hf, c, hs[hms[k]])
        };
        assert(base_side(hf, bs, pre, hs, hms) == prev + block);
        Seq::filter_distributes_over_add(prev, block, pred);
        lemma_last_named(hs, hms, c.name@);
        if j - 1 != i {
            assert(c.name@ != n) by {
                if j - 1 < i {
                    assert(bs[bms[j - 1]].name@ != bs[bms[i]].name@);
                } else {
                    assert(bs[bms[i]].name@ != bs[bms[j - 1]].name@);
                }
            }
            if k < 0 {
                lemma_filter_single(removed, pred);
                if pred(removed) {
                    assert(compares_member(n, removed));
                }
            } else {
                lemma_pair_changes_other_member(hf, c, hs[hms[k]], n, pred);
            }
            assert(block.filter(pred) == e);
            if j > i + 1 {
                assert(prev.filter(pred) + e =~= prev.filter(pred));
            } else {
                assert(e + e =~= e);
            }
        } else {
            lemma_last_named_found(hs, hms, n, t);
            assert(k == t) by {
                if k < t {
                    assert(hs[hms[k]].name@ != hs[hms[t]].name@);
                } else if t < k {
                    assert(hs[hms[t]].name@ != hs[hms[k]].name@);
                }
            }
            assert(e + block.filter(pred) =~= block.filter(pred));
        }
    }
}

#[verifier::spinoff_prover]
proof fn lemma_head_side_about(
    hf: Seq<char>,
    bs: Seq<Symbol>,
    bms: Seq<int>,
    hs: Seq<Symbol>,
    hms: Seq<int>,
    n: Seq<char>,
    pred: spec_fn(FieldChangeV) -> bool,
)
    requires
        about_member(n, pred),
    ensures
        head_side(hf, bs, bms, hs, hms).filter(pred) == Seq::<FieldChangeV>::empty(),
    decreases hms.len(),
{
    if hms.len() == 0 {
        lemma_filter_empty(pred);
    } else {
        lemma_head_side_about(hf, bs, bms, hs, hms.drop_last(), n, pred);
        let prev = head_side(hf, bs, bms, hs, hms.drop_last());
        let h = hs[hms.last()];
        let added = change_at(hf, ChangeV::FieldAdded { field: h.name@ });
        prev.lemma_filter_push(added, pred);
        if pred(added) {
            assert(compares_member(n, added));
        }
    }
}

/// What classifying a pair reports about one member: exactly what the
/// base member and the head member of its name give.
#[verifier::spinoff_prover]
proof fn lemma_classify_about(
    hf: Seq<char>,
    base: SymbolGraph,
    p: int,
    head: SymbolGraph,
    q: int,
    i: int,
    t: int,
    pred: spec_fn(FieldChangeV) -> bool,
)
    requires
        named_apart(base.symbols@, members_at(base, p)),
        named_apart(head.symbols@, members_at(head, q)),
        0 <= i < members_at(base, p).len(),
        0 <= t < members_at(head, q).len(),
        head.symbols@[members_at(head, q)[t]].name@ == base.symbols@[members_at(base, p)[i]].name@,
        about_member(base.symbols@[members_at(base, p)[i]].name@, pred),
    ensures
        classify_spec(hf, base, p, head, q).filter(pred) == pair_changes(
            hf,
            base.symbols@[members_at(base, p)[i]],
            head.symbols@[members_at(head, q)[t]],
        ).filter(pred),
{
    let bs = base.symbols@;
    let hs = head.symbols@;
    let bms = members_at(base, p);
    let hms = members_at(head, q);
    let n = bs[bms[i]].name@;
    let e = Seq::<FieldChangeV>::empty();
    let bp = parent_fqn_at(base, p);
    let hp = parent_fqn_at(head, q);
    let pc = change_at(hf, ChangeV::ParentClassChanged { old_parent: bp, new_parent: hp });
    let par = if bp != hp { seq![pc] } else { e };
    let b = base_side(hf, bs, bms, hs, hms);
    let h = head_side(hf, bs, bms, hs, hms);
    assert(classify_spec(hf, base, p, head, q) == par + b + h);
    lemma_base_side_about(hf, bs, bms, hs, hms, i, t, pred, bms.len());
    assert(bms.take(bms.len() as int) =~= bms);
    lemma_head_side_about(hf, bs, bms, hs, hms, n, pred);
    lemma_filter_single(pc, pred);
    if pred(pc) {
        assert(compares_member(n, pc));
    }
    lemma_filter_empty(pred);
    Seq::filter_distributes_over_add(par + b, h, pred);
    Seq::filter_distributes_over_add(par, b, pred);
    assert(e + b.filter(pred) + e =~= b.filter(pred));
}

#[verifier::spinoff_prover]
proof fn lemma_classify_offsets(
    hf: Seq<char>,
    base: SymbolGraph,
    p: int,
    head: SymbolGraph,
    q: int,
    i: int,
    t: int,
)
    requires
        named_apart(base.symbols@, members_at(base, p)),
        named_apart(head.symbols@, members_at(head, q)),
        0 <= i < members_at(base, p).len(),
        0 <= t < members_at(head, q).len(),
        head.symbols@[members_at(head, q)[t]].name@ == base.symbols@[members_at(base, p)[i]].name@,
    ensures
        ({
            let b = base.symbols@[members_at(base, p)[i]];
            let h = head.symbols@[members_at(head, q)[t]];
            classify_spec(hf, base, p, head, q).filter(is_offset_change_of(b.name@)) == if b.kind == SymbolKind::Field && b.offset is Some && h.offset is Some && b.offset->0 != h.offset->0 {
                seq![FieldChangeV { parent_fqn: hf, change: ChangeV::OffsetChanged { field: b.name@, old_offset: b.offset->0, new_offset: h.offset->0 } }]
            } else {
                Seq::<FieldChangeV>::empty()
            }
        }),
{
    let b = base.symbols@[members_at(base, p)[i]];
    let h = head.symbols@[members_at(head, q)[t]];
    let n = b.name@;
    assert(about_member(n, is_offset_change_of(n)));
    lemma_classify_about(hf, base, p, head, q, i, t, is_offset_change_of(n));
    lemma_pair_offset_changes(hf, b, h);
}

#[verifier::spinoff_prover]
proof fn lemma_classify_sizes(
    hf: Seq<char>,
    base: SymbolGraph,
    p: int,
    head: SymbolGraph,
    q: int,
    i: int,
    t: int,
)
    requires
        named_apart(base.symbols@, members_at(base, p)),
        named_apart(head.symbols@, members_at(head, q)),
        0 <= i < members_at(base, p).len(),
        0 <= t < members_at(head, q).len(),
        head.symbols@[members_at(head, q)[t]].name@ == base.symbols@[members_at(base, p)[i]].name@,
    ensures
        ({
            let b = base.symbols@[members_at(base, p)[i]];
            let h = head.symbols@[members_at(head, q)[t]];
            classify_spec(hf, base, p, head, q).filter(is_size_change_of(b.name@)) == if b.kind == SymbolKind::Field && b.size is Some && h.size is Some && b.size->0 != h.size->0 {
                seq![FieldChangeV { parent_fqn: hf, change: ChangeV::SizeChanged { field: b.name@, old_size: b.size->0, new_size: h.size->0 } }]
            } else {
                Seq::<FieldChangeV>::empty()
            }
        }),
{
    let b = base.symbols@[members_at(base, p)[i]];
    let h = head.symbols@[members_at(head, q)[t]];
    let n = b.name@;
    assert(about_member(n, is_size_change_of(n)));
    lemma_classify_about(hf, base, p, head, q, i, t, is_size_change_of(n));
    lemma_pair_size_changes(hf, b, h);
}

#[verifier::spinoff_prover]
proof fn lemma_classify_types(
    hf: Seq<char>,
    base: SymbolGraph,
    p: int,
    head: SymbolGraph,
    q: int,
    i: int,
    t: int,
)
    requires
        named_apart(base.symbols@, members_at(base, p)),
        named_apart(head.symbols@, members_at(head, q)),
        0 <= i < members_at(base, p).len(),
        0 <= t < members_at(head, q).len(),
        head.symbols@[members_at(head, q)[t]].name@ == base.symbols@[members_at(base, p)[i]].name@,
    ensures
        ({
            let b = base.symbols@[members_at(base, p)[i]];
            let h = head.symbols@[members_at(head, q)[t]];
            classify_spec(hf, base, p, head, q).filter(is_type_change_of(b.name@)) == if b.kind == SymbolKind::Field && opt_canon(b.type_ref) != opt_canon(h.type_ref) {
                seq![FieldChangeV { parent_fqn: hf, change: ChangeV::FieldTypeSubstituted { field: b.name@, old_type: or_empty(opt_canon(b.type_ref)), new_type: or_empty(opt_canon(h.type_ref)) } }]
            } else {
                Seq::<FieldChangeV>::empty()
            }
        }),
{
    let b = base.symbols@[members_at(base, p)[i]];
    let h = head.symbols@[members_at(head, q)[t]];
    let n = b.name@;
    assert(about_member(n, is_type_change_of(n)));
    lemma_classify_about(hf, base, p, head, q, i, t, is_type_change_of(n));
    lemma_pair_type_changes(hf, b, h);
}

#[verifier::spinoff_prover]
proof fn lemma_classify_slots(
    hf: Seq<char>,
    base: SymbolGraph,
    p: int,
    head: SymbolGraph,
    q: int,
    i: int,
    t: int,
)
    requires
        named_apart(base.symbols@, members_at(base, p)),
        named_apart(head.symbols@, members_at(head, q)),
        0 <= i < members_at(base, p).len(),
        0 <= t < members_at(head, q).len(),
        head.symbols@[members_at(head, q)[t]].name@ == base.symbols@[members_at(base, p)[i]].name@,
    ensures
        ({
            let b = base.symbols@[members_at(base, p)[i]];
            let h = head.symbols@[members_at(head, q)[t]];
            classify_spec(hf, base, p, head, q).filter(is_slot_change_of(b.name@)) == if b.kind == SymbolKind::Function && b.vtable_slot is Some && h.vtable_slot is Some && b.vtable_slot->0 != h.vtable_slot->0 {
                seq![FieldChangeV { parent_fqn: hf, change: ChangeV::VtableShift { fn_name: b.name@, old_slot: b.vtable_slot->0, new_slot: h.vtable_slot->0 } }]
            } else {
                Seq::<FieldChangeV>::empty()
            }
        }),
{
    let b = base.symbols@[members_at(base, p)[i]];
    let h = head.symbols@[members_at(head, q)[t]];
    let n = b.name@;
    assert(about_member(n, is_slot_change_of(n)));
    lemma_classify_about(hf, base, p, head, q, i, t, is_slot_change_of(n));
    lemma_pair_slot_changes(hf, b, h);
}

#[verifier::spinoff_prover]
proof fn lemma_classify_signatures(
    hf: Seq<char>,
    base: SymbolGraph,
    p: int,
    head: SymbolGraph,
    q: int,
    i: int,
    t: int,
)
    requires
        named_apart(base.symbols@, members_at(base, p)),
        named_apart(head.symbols@, members_at(head, q)),
        0 <= i < members_at(base, p).len(),
        0 <= t < members_at(head, q).len(),
        head.symbols@[members_at(head, q)[t]].name@ == base.symbols@[members_at(base, p)[i]].name@,
    ensures
        ({
            let b = base.symbols@[members_at(base, p)[i]];
            let h = head.symbols@[members_at(head, q)[t]];
            classify_spec(hf, base, p, head, q).filter(is_signature_change_of(b.name@)) == if b.kind == SymbolKind::Function && opt_canon(b.type_ref) != opt_canon(h.type_ref) {
                seq![FieldChangeV { parent_fqn: hf, change: ChangeV::FunctionSignatureChanged { fn_name: b.name@, old_return: opt_canon(b.type_ref), new_return: opt_canon(h.type_ref) } }]
            } else {
                Seq::<FieldChangeV>::empty()
            }
        }),
{
    let b = base.symbols@[members_at(base, p)[i]];
    let h = head.symbols@[members_at(head, q)[t]];
    let n = b.name@;
    assert(about_member(n, is_signature_change_of(n)));
    lemma_classify_about(hf, base, p, head, q, i, t, is_signature_change_of(n));
    lemma_pair_signature_changes(hf, b, h);
}

/// When a member of the base class is matched with the head member of the
/// same name (no two members of either class share a name), classifying
/// the pair reports about it at most one change of each kind, and each
/// goes from the base member's value to the head member's:
/// - a field whose offsets are both known and differ: one offset change,
///   from the base offset to the head offset;
/// - a field whose sizes are both known and differ: one size change;
/// - a field whose canonical types differ: one type substitution;
/// - a function whose vtable slots are both known and differ: one slot
///   shift;
/// - a function whose canonical return types differ: one signature change;
/// and nothing of a kind whose condition does not hold.
pub proof fn law_member_changes_go_from_base_to_head(
    hf: Seq<char>,
    base: SymbolGraph,
    p: int,
    head: SymbolGraph,
    q: int,
    i: int,
    t: int,
)
    requires
        named_apart(base.symbols@, members_at(base, p)),
        named_apart(head.symbols@, members_at(head, q)),
        0 <= i < members_at(base, p).len(),
        0 <= t < members_at(head, q).len(),
        head.symbols@[members_at(head, q)[t]].name@ == base.symbols@[members_at(base, p)[i]].name@,
    ensures
        ({
            let b = base.symbols@[members_at(base, p)[i]];
            let h = head.symbols@[members_at(head, q)[t]];
            let n = b.name@;
            let cs = classify_spec(hf, base, p, head, q);
            let e = Seq::<FieldChangeV>::empty();
            let bt = opt_canon(b.type_ref);
            let ht = opt_canon(h.type_ref);
            &&& cs.filter(is_offset_change_of(n)) == if b.kind == SymbolKind::Field && b.offset is Some
                && h.offset is Some && b.offset->0 != h.offset->0 {
                seq![
                    FieldChangeV {
                        parent_fqn: hf,
                        change: ChangeV::OffsetChanged {
                            field: n,
                            old_offset: b.offset->0,
                            new_offset: h.offset->0,
                        },
                    },
                ]
            } else {
                e
            }
            &&& cs.filter(is_size_change_of(n)) == if b.kind == SymbolKind::Field && b.size is Some
                && h.size is Some && b.size->0 != h.size->0 {
                seq![
                    FieldChangeV {
                        parent_fqn: hf,
                        change: ChangeV::SizeChanged {
                            field: n,
                            old_size: b.size->0,
                            new_size: h.size->0,
                        },
                    },
                ]
            } else {
                e
            }
            &&& cs.filter(is_type_change_of(n)) == if b.kind == SymbolKind::Field && bt != ht {
                seq![
                    FieldChangeV {
                        parent_fqn: hf,
                        change: ChangeV::FieldTypeSubstituted {
                            field: n,
                            old_type: or_empty(bt),
                            new_type: or_empty(ht),
                        },
                    },
                ]
            } else {
                e
            }
            &&& cs.filter(is_slot_change_of(n)) == if b.kind == SymbolKind::Function
                && b.vtable_slot is Some && h.vtable_slot is Some && b.vtable_slot->0
                != h.vtable_slot->0 {
                seq![
                    FieldChangeV {
                        parent_fqn: hf,
                        change: ChangeV::VtableShift {
                            fn_name: n,
                            old_slot: b.vtable_slot->0,
                            new_slot: h.vtable_slot->0,
                        },
                    },
                ]
            } else {
                e
            }
            &&& cs.filter(is_signature_change_of(n)) == if b.kind == SymbolKind::Function && bt
                != ht {
                seq![
                    FieldChangeV {
                        parent_fqn: hf,
                        change: ChangeV::FunctionSignatureChanged {
                            fn_name: n,
                            old_return: bt,
                            new_return: ht,
                        },
                    },
                ]
            } else {
                e
            }
        }),
{
    lemma_classify_offsets(hf, base, p, head, q, i, t);
    lemma_classify_sizes(hf, base, p, head, q, i, t);
    lemma_classify_types(hf, base, p, head, q, i, t);
    lemma_classify_slots(hf, base, p, head, q, i, t);
    lemma_classify_signatures(hf, base, p, head, q, i, t);
}

pub open spec fn is_removal_of(n: Seq<char>) -> spec_fn(FieldChangeV) -> bool {
    |c: FieldChangeV| c.change matches ChangeV::FieldRemoved { field } && field == n
}

pub open spec fn is_addition_of(n: Seq<char>) -> spec_fn(FieldChangeV) -> bool {
    |c: FieldChangeV| c.change matches ChangeV::FieldAdded { field } && field == n
}

/// Some member among positions `ms` of `ss` is named `n` (by index).
pub open spec fn some_member_named(ss: Seq<Symbol>, ms: Seq<int>, n: Seq<char>) -> bool {
    exists|t: int| 0 <= t < ms.len() && #[trigger] ss[ms[t]].name@ == n
}

#[verifier::spinoff_prover]
proof fn lemma_pair_changes_no_membership(
    hf: Seq<char>,
    b: Symbol,
    h: Symbol,
    pred: spec_fn(FieldChangeV) -> bool,
)
    requires
        forall|c: FieldChangeV| #[trigger] pred(c) ==> (c.change is FieldRemoved || c.change is FieldAdded),
    ensures
        pair_changes(hf, b, h).filter(pred) == Seq::<FieldChangeV>::empty(),
{
    let n = b.name@;
    let bt = opt_canon(b.type_ref);
    let ht = opt_canon(h.type_ref);
    let e = Seq::<FieldChangeV>::empty();
    lemma_filter_empty(pred);
    if b.kind == SymbolKind::Field {
        let x = change_at(hf, ChangeV::OffsetChanged {
            field: n,
            old_offset: b.offset->0,
            new_offset: h.offset->0,
        });
        let y = change_at(hf, ChangeV::SizeChanged {
            field: n,
            old_size: b.size->0,
            new_size: h.size->0,
        });
        let z = change_at(hf, ChangeV::FieldTypeSubstituted {
            field: n,
            old_type: or_empty(bt),
            new_type: or_empty(ht),
        });
        let a1 = if differ(b.offset, h.offset) { seq![x] } else { e };
        let a2 = if differ(b.size, h.size) { seq![y] } else { e };
        let a3 = if bt != ht { seq![z] } else { e };
        assert(pair_changes(hf, b, h) == a1 + a2 + a3);
        Seq::filter_distributes_over_add(a1 + a2, a3, pred);
        Seq::filter_distributes_over_add(a1, a2, pred);
        lemma_filter_single(x, pred);
        lemma_filter_single(y, pred);
        lemma_filter_single(z, pred);
        assert(!pred(x));
        assert(!pred(y));
        assert(!pred(z));
        assert(e + e + e =~= e);
    } else if b.kind == SymbolKind::Function {
        let y = change_at(hf, ChangeV::VtableShift {
            fn_name: n,
            old_slot: b.vtable_slot->0,
            new_slot: h.vtable_slot->0,
        });
        let z = change_at(hf, ChangeV::FunctionSignatureChanged {
            fn_name: n,
            old_return: bt,
            new_return: ht,
        });
        let a2 = if differ(b.vtable_slot, h.vtable_slot) { seq![y] } else { e };
        let a3 = if bt != ht { seq![z] } else { e };
        assert(pair_changes(hf, b, h) == a2 + a3);
        Seq::filter_distributes_over_add(a2, a3, pred);
        lemma_filter_single(y, pred);
        lemma_filter_single(z, pred);
        assert(!pred(y));
        assert(!pred(z));
        assert(e + e =~= e);
    } else {
        assert(pair_changes(hf, b, h) == e);
    }
}

#[verifier::spinoff_prover]
proof fn lemma_base_side_removals(
    hf: Seq<char>,
    bs: Seq<Symbol>,
    bms: Seq<int>,
    hs: Seq<Symbol>,
    hms: Seq<int>,
    i: int,
    j: nat,
)
    requires
        named_apart(bs, bms),
        0 <= i < bms.len(),
        j <= bms.len(),
    ensures
        base_side(hf, bs, bms.take(j as int), hs, hms).filter(is_removal_of(bs[bms[i]].name@)) == (
        if j > i && !some_member_named(hs, hms, bs[bms[i]].name@) {
            seq![change_at(hf, ChangeV::FieldRemoved { field: bs[bms[i]].name@ })]
        } else {
            Seq::<FieldChangeV>::empty()
        }),
    decreases j,
{
    let n = bs[bms[i]].name@;
    let pred = is_removal_of(n);
    let e = Seq::<FieldChangeV>::empty();
    if j == 0 {
        assert(bms.take(0) =~= Seq::<int>::empty());
        lemma_filter_empty(pred);
    } else {
        lemma_base_side_removals(hf, bs, bms, hs, hms, i, (j - 1) as nat);
        let pre = bms.take(j as int);
        assert(pre.drop_last() =~= bms.take(j - 1));
        assert(pre.last() == bms[j - 1]);
        let prev = base_side(hf, bs, bms.take(j - 1), hs, hms);
        let c = bs[bms[j - 1]];
        let k = last_named(hs, hms, c.name@);
        let removed = change_at(hf, ChangeV::FieldRemoved { field: c.name@ });
        let block = if k < 0 {
            seq![removed]
        } else {
            pair_changes(hf, c, hs[hms[k]])
        };
        assert(base_side(hf, bs, pre, hs, hms) == prev + block);
        Seq::filter_distributes_over_add(prev, block, pred);
        lemma_last_named(hs, hms, c.name@);
        if k >= 0 {
            lemma_pair_changes_no_membership(hf, c, hs[hms[k]], pred);
        } else {
            lemma_filter_single(removed, pred);
        }
        if j - 1 != i {
            assert(c.name@ != n) by {
                if j - 1 < i {
                    assert(bs[bms[j - 1]].name@ != bs[bms[i]].name@);
                } else {
                    assert(bs[bms[i]].name@ != bs[bms[j - 1]].name@);
                }
            }
            assert(block.filter(pred) == e);
            assert(prev.filter(pred) + e =~= prev.filter(pred));
        } else {
            if some_member_named(hs, hms, n) {
                let t = choose|t: int| 0 <= t < hms.len() && #[trigger] hs[hms[t]].name@ == n;
                lemma_last_named_found(hs, hms, n, t);
                assert(block.filter(pred) == e);
            } else {
                if k >= 0 {
                    assert(hs[hms[k]].name@ == n);
                    assert(some_member_named(hs, hms, n));
                }
            }
            assert(e + block.filter(pred) =~= block.filter(pred));
            assert(e + e =~= e);
        }
    }
}

#[verifier::spinoff_prover]
proof fn lemma_head_side_additions(
    hf: Seq<char>,
    bs: Seq<Symbol>,
    bms: Seq<int>,
    hs: Seq<Symbol>,
    hms: Seq<int>,
    t: int,
    j: nat,
)
    requires
        named_apart(hs, hms),
        0 <= t < hms.len(),
        j <= hms.len(),
    ensures
        head_side(hf, bs, bms, hs, hms.take(j as int)).filter(is_addition_of(hs[hms[t]].name@)) == (
        if j > t && !some_member_named(bs, bms, hs[hms[t]].name@) && (hs[hms[t]].kind
            == SymbolKind::Field || hs[hms[t]].kind == SymbolKind::Function) {
            seq![change_at(hf, ChangeV::FieldAdded { field: hs[hms[t]].name@ })]
        } else {
            Seq::<FieldChangeV>::empty()
        }),
    decreases j,
{
    let n = hs[hms[t]].name@;
    let pred = is_addition_of(n);
    let e = Seq::<FieldChangeV>::empty();
    if j == 0 {
        assert(hms.take(0) =~= Seq::<int>::empty());
        lemma_filter_empty(pred);
    } else {
        lemma_head_side_additions(hf, bs, bms, hs, hms, t, (j - 1) as nat);
        let pre = hms.take(j as int);
        assert(pre.drop_last() =~= hms.take(j - 1));
        assert(pre.last() == hms[j - 1]);
        let prev = head_side(hf, bs, bms, hs, hms.take(j - 1));
        let h = hs[hms[j - 1]];
        let added = change_at(hf, ChangeV::FieldAdded { field: h.name@ });
        prev.lemma_filter_push(added, pred);
        lemma_last_named(bs, bms, h.name@);
        if j - 1 != t {
            assert(h.name@ != n) by {
                if j - 1 < t {
                    assert(hs[hms[j - 1]].name@ != hs[hms[t]].name@);
                } else {
                    assert(hs[hms[t]].name@ != hs[hms[j - 1]].name@);
                }
            }
        } else {
            if some_member_named(bs, bms, n) {
                let i = choose|i: int| 0 <= i < bms.len() && #[trigger] bs[bms[i]].name@ == n;
                lemma_last_named_found(bs, bms, n, i);
            } else {
                let k = last_named(bs, bms, n);
                if k >= 0 {
                    assert(bs[bms[k]].name@ == n);
                    assert(some_member_named(bs, bms, n));
                }
            }
            assert(e.push(added) =~= seq![added]);
        }
    }
}

#[verifier::spinoff_prover]
proof fn lemma_classify_removals(
    hf: Seq<char>,
    base: SymbolGraph,
    p: int,
    head: SymbolGraph,
    q: int,
    i: int,
)
    requires
        named_apart(base.symbols@, members_at(base, p)),
        0 <= i < members_at(base, p).len(),
    ensures
        ({
            let n = base.symbols@[members_at(base, p)[i]].name@;
            classify_spec(hf, base, p, head, q).filter(is_removal_of(n)) == if !some_member_named(
                head.symbols@,
                members_at(head, q),
                n,
            ) {
                seq![FieldChangeV { parent_fqn: hf, change: ChangeV::FieldRemoved { field: n } }]
            } else {
                Seq::<FieldChangeV>::empty()
            }
        }),
{
    let bs = base.symbols@;
    let hs = head.symbols@;
    let bms = members_at(base, p);
    let hms = members_at(head, q);
    let e = Seq::<FieldChangeV>::empty();
    let bp = parent_fqn_at(base, p);
    let hp = parent_fqn_at(head, q);
    let pc = change_at(hf, ChangeV::ParentClassChanged { old_parent: bp, new_parent: hp });
    let par = if bp != hp { seq![pc] } else { e };
    let bsd = base_side(hf, bs, bms, hs, hms);
    let hsd = head_side(hf, bs, bms, hs, hms);
    assert(classify_spec(hf, base, p, head, q) == par + bsd + hsd);
    assert(bms.take(bms.len() as int) =~= bms);
    let rp = is_removal_of(bs[bms[i]].name@);
    lemma_filter_empty(rp);
    lemma_base_side_removals(hf, bs, bms, hs, hms, i, bms.len());
    lemma_filter_single(pc, rp);
    lemma_head_side_no_removals(hf, bs, bms, hs, hms, bs[bms[i]].name@);
    Seq::filter_distributes_over_add(par + bsd, hsd, rp);
    Seq::filter_distributes_over_add(par, bsd, rp);
    assert(e + bsd.filter(rp) + e =~= bsd.filter(rp));
}

#[verifier::spinoff_prover]
proof fn lemma_classify_additions(
    hf: Seq<char>,
    base: SymbolGraph,
    p: int,
    head: SymbolGraph,
    q: int,
    t: int,
)
    requires
        named_apart(head.symbols@, members_at(head, q)),
        0 <= t < members_at(head, q).len(),
    ensures
        ({
            let h = head.symbols@[members_at(head, q)[t]];
            classify_spec(hf, base, p, head, q).filter(is_addition_of(h.name@)) == if !some_member_named(
                base.symbols@,
                members_at(base, p),
                h.name@,
            ) && (h.kind == SymbolKind::Field || h.kind == SymbolKind::Function) {
                seq![FieldChangeV { parent_fqn: hf, change: ChangeV::FieldAdded { field: h.name@ } }]
            } else {
                Seq::<FieldChangeV>::empty()
            }
        }),
{
    let bs = base.symbols@;
    let hs = head.symbols@;
    let bms = members_at(base, p);
    let hms = members_at(head, q);
    let e = Seq::<FieldChangeV>::empty();
    let bp = parent_fqn_at(base, p);
    let hp = parent_fqn_at(head, q);
    let pc = change_at(hf, ChangeV::ParentClassChanged { old_parent: bp, new_parent: hp });
    let par = if bp != hp { seq![pc] } else { e };
    let bsd = base_side(hf, bs, bms, hs, hms);
    let hsd = head_side(hf, bs, bms, hs, hms);
    assert(classify_spec(hf, base, p, head, q) == par + bsd + hsd);
    assert(hms.take(hms.len() as int) =~= hms);
    let ap = is_addition_of(hs[hms[t]].name@);
    lemma_filter_empty(ap);
    lemma_head_side_additions(hf, bs, bms, hs, hms, t, hms.len());
    lemma_filter_single(pc, ap);
    lemma_base_side_no_additions(hf, bs, bms, hs, hms, hs[hms[t]].name@);
    Seq::filter_distributes_over_add(par + bsd, hsd, ap);
    Seq::filter_distributes_over_add(par, bsd, ap);
    assert(e + e + hsd.filter(ap) =~= hsd.filter(ap));
}

/// A base member whose name no head member has is reported removed, once;
/// a head field or function whose name no base member has is reported
/// added, once; a member whose name both sides have is neither. (No two
/// members of either class share a name.)
#[verifier::spinoff_prover]
pub proof fn law_members_on_one_side_are_added_or_removed(
    hf: Seq<char>,
    base: SymbolGraph,
    p: int,
    head: SymbolGraph,
    q: int,
    i: int,
    t: int,
)
    requires
        named_apart(base.symbols@, members_at(base, p)),
        named_apart(head.symbols@, members_at(head, q)),
        0 <= i < members_at(base, p).len(),
        0 <= t < members_at(head, q).len(),
    ensures
        ({
            let b = base.symbols@[members_at(base, p)[i]];
            classify_spec(hf, base, p, head, q).filter(is_removal_of(b.name@)) == if !some_member_named(
                head.symbols@,
                members_at(head, q),
                b.name@,
            ) {
                seq![FieldChangeV { parent_fqn: hf, change: ChangeV::FieldRemoved { field: b.name@ } }]
            } else {
                Seq::<FieldChangeV>::empty()
            }
        }),
        ({
            let h = head.symbols@[members_at(head, q)[t]];
            classify_spec(hf, base, p, head, q).filter(is_addition_of(h.name@)) == if !some_member_named(
                base.symbols@,
                members_at(base, p),
                h.name@,
            ) && (h.kind == SymbolKind::Field || h.kind == SymbolKind::Function) {
                seq![FieldChangeV { parent_fqn: hf, change: ChangeV::FieldAdded { field: h.name@ } }]
            } else {
                Seq::<FieldChangeV>::empty()
            }
        }),
{
    lemma_classify_removals(hf, base, p, head, q, i);
    lemma_classify_additions(hf, base, p, head, q, t);
}

#[verifier::spinoff_prover]
proof fn lemma_head_side_no_removals(
    hf: Seq<char>,
    bs: Seq<Symbol>,
    bms: Seq<int>,
    hs: Seq<Symbol>,
    hms: Seq<int>,
    n: Seq<char>,
)
    ensures
        head_side(hf, bs, bms, hs, hms).filter(is_removal_of(n)) == Seq::<FieldChangeV>::empty(),
    decreases hms.len(),
{
    let pred = is_removal_of(n);
    if hms.len() == 0 {
        lemma_filter_empty(pred);
    } else {
        lemma_head_side_no_removals(hf, bs, bms, hs, hms.drop_last(), n);
        let prev = head_side(hf, bs, bms, hs, hms.drop_last());
        let h = hs[hms.last()];
        prev.lemma_filter_push(change_at(hf, ChangeV::FieldAdded { field: h.name@ }), pred);
    }
}

#[verifier::spinoff_prover]
proof fn lemma_base_side_no_additions(
    hf: Seq<char>,
    bs: Seq<Symbol>,
    bms: Seq<int>,
    hs: Seq<Symbol>,
    hms: Seq<int>,
    n: Seq<char>,
)
    ensures
        base_side(hf, bs, bms, hs, hms).filter(is_addition_of(n)) == Seq::<FieldChangeV>::empty(),
    decreases bms.len(),
{
    let pred = is_addition_of(n);
    if bms.len() == 0 {
        lemma_filter_empty(pred);
    } else {
        lemma_base_side_no_additions(hf, bs, bms.drop_last(), hs, hms, n);
        let prev = base_side(hf, bs, bms.drop_last(), hs, hms);
        let c = bs[bms.last()];
        let k = last_named(hs, hms, c.name@);
        let removed = change_at(hf, ChangeV::FieldRemoved { field: c.name@ });
        let block = if k < 0 {
            seq![removed]
        } else {
            pair_changes(hf, c, hs[hms[k]])
        };
        Seq::filter_distributes_over_add(prev, block, pred);
        if k < 0 {
            lemma_filter_single(removed, pred);
        } else {
            lemma_pair_changes_no_membership(hf, c, hs[hms[k]], pred);
        }
        assert(Seq::<FieldChangeV>::empty() + Seq::<FieldChangeV>::empty() =~= Seq::<FieldChangeV>::empty());
    }
}

pub open spec fn is_parent_change() -> spec_fn(FieldChangeV) -> bool {
    |c: FieldChangeV| c.change is ParentClassChanged
}

#[verifier::spinoff_prover]
proof fn lemma_base_side_no_parent_change(
    hf: Seq<char>,
    bs: Seq<Symbol>,
    bms: Seq<int>,
    hs: Seq<Symbol>,
    hms: Seq<int>,
)
    ensures
        base_side(hf, bs, bms, hs, hms).filter(is_parent_change()) == Seq::<FieldChangeV>::empty(),
    decreases bms.len(),
{
    let pred = is_parent_change();
    let e = Seq::<FieldChangeV>::empty();
    if bms.len() == 0 {
        lemma_filter_empty(pred);
    } else {
        lemma_base_side_no_parent_change(hf, bs, bms.drop_last(), hs, hms);
        let prev = base_side(hf, bs, bms.drop_last(), hs, hms);
        let c = bs[bms.last()];
        let k = last_named(hs, hms, c.name@);
        let removed = change_at(hf, ChangeV::FieldRemoved { field: c.name@ });
        let block = if k < 0 {
            seq![removed]
        } else {
            pair_changes(hf, c, hs[hms[k]])
        };
        Seq::filter_distributes_over_add(prev, block, pred);
        if k < 0 {
            lemma_filter_single(removed, pred);
        } else {
            lemma_pair_changes_no_parent(hf, c, hs[hms[k]]);
        }
        assert(e + e =~= e);
    }
}

#[verifier::spinoff_prover]
proof fn lemma_pair_changes_no_parent(hf: Seq<char>, b: Symbol, h: Symbol)
    ensures
        pair_changes(hf, b, h).filter(is_parent_change()) == Seq::<FieldChangeV>::empty(),
{
    let pred = is_parent_change();
    let n = b.name@;
    let bt = opt_canon(b.type_ref);
    let ht = opt_canon(h.type_ref);
    let e = Seq::<FieldChangeV>::empty();
    lemma_filter_empty(pred);
    if b.kind == SymbolKind::Field {
        let x = change_at(hf, ChangeV::OffsetChanged {
            field: n,
            old_offset: b.offset->0,
            new_offset: h.offset->0,
        });
        let y = change_at(hf, ChangeV::SizeChanged {
            field: n,
            old_size: b.size->0,
            new_size: h.size->0,
        });
        let z = change_at(hf, ChangeV::FieldTypeSubstituted {
            field: n,
            old_type: or_empty(bt),
            new_type: or_empty(ht),
        });
        let a1 = if differ(b.offset, h.offset) { seq![x] } else { e };
        let a2 = if differ(b.size, h.size) { seq![y] } else { e };
        let a3 = if bt != ht { seq![z] } else { e };
        assert(pair_changes(hf, b, h) == a1 + a2 + a3);
        Seq::filter_distributes_over_add(a1 + a2, a3, pred);
        Seq::filter_distributes_over_add(a1, a2, pred);
        lemma_filter_single(x, pred);
        lemma_filter_single(y, pred);
        lemma_filter_single(z, pred);
        assert(e + e + e =~= e);
    } else if b.kind == SymbolKind::Function {
        let y = change_at(hf, ChangeV::VtableShift {
            fn_name: n,
            old_slot: b.vtable_slot->0,
            new_slot: h.vtable_slot->0,
        });
        let z = change_at(hf, ChangeV::FunctionSignatureChanged {
            fn_name: n,
            old_return: bt,
            new_return: ht,
        });
        let a2 = if differ(b.vtable_slot, h.vtable_slot) { seq![y] } else { e };
        let a3 = if bt != ht { seq![z] } else { e };
        assert(pair_changes(hf, b, h) == a2 + a3);
        Seq::filter_distributes_over_add(a2, a3, pred);
        lemma_filter_single(y, pred);
        lemma_filter_single(z, pred);
        assert(e + e =~= e);
    } else {
        assert(pair_changes(hf, b, h) == e);
    }
}

#[verifier::spinoff_prover]
proof fn lemma_head_side_no_parent_change(
    hf: Seq<char>,
    bs: Seq<Symbol>,
    bms: Seq<int>,
    hs: Seq<Symbol>,
    hms: Seq<int>,
)
    ensures
        head_side(hf, bs, bms, hs, hms).filter(is_parent_change()) == Seq::<FieldChangeV>::empty(),
    decreases hms.len(),
{
    let pred = is_parent_change();
    if hms.len() == 0 {
        lemma_filter_empty(pred);
    } else {
        lemma_head_side_no_parent_change(hf, bs, bms, hs, hms.drop_last());
        let prev = head_side(hf, bs, bms, hs, hms.drop_last());
        let h = hs[hms.last()];
        prev.lemma_filter_push(change_at(hf, ChangeV::FieldAdded { field: h.name@ }), pred);
    }
}

/// Classifying a pair reports a parent change exactly when the `Inherits`
/// parents of the two symbols (by fqn, or none) differ, once, from the
/// base's parent to the head's.
#[verifier::spinoff_prover]
pub proof fn law_parent_change_goes_from_base_to_head(
    hf: Seq<char>,
    base: SymbolGraph,
    p: int,
    head: SymbolGraph,
    q: int,
)
    ensures
        classify_spec(hf, base, p, head, q).filter(is_parent_change()) == if parent_fqn_at(base, p)
            != parent_fqn_at(head, q) {
            seq![
                FieldChangeV {
                    parent_fqn: hf,
                    change: ChangeV::ParentClassChanged {
                        old_parent: parent_fqn_at(base, p),
                        new_parent: parent_fqn_at(head, q),
                    },
                },
            ]
        } else {
            Seq::<FieldChangeV>::empty()
        },
{
    let bs = base.symbols@;
    let hs = head.symbols@;
    let bms = members_at(base, p);
    let hms = members_at(head, q);
    let pred = is_parent_change();
    let e = Seq::<FieldChangeV>::empty();
    let bp = parent_fqn_at(base, p);
    let hp = parent_fqn_at(head, q);
    let pc = change_at(hf, ChangeV::ParentClassChanged { old_parent: bp, new_parent: hp });
    let par = if bp != hp { seq![pc] } else { e };
    let b = base_side(hf, bs, bms, hs, hms);
    let h = head_side(hf, bs, bms, hs, hms);
    assert(classify_spec(hf, base, p, head, q) == par + b + h);
    lemma_base_side_no_parent_change(hf, bs, bms, hs, hms);
    lemma_head_side_no_parent_change(hf, bs, bms, hs, hms);
    lemma_filter_single(pc, pred);
    lemma_filter_empty(pred);
    Seq::filter_distributes_over_add(par + b, h, pred);
    Seq::filter_distributes_over_add(par, b, pred);
    assert(par.filter(pred) + e + e =~= par.filter(pred));
}

#[verifier::spinoff_prover]
proof fn lemma_fp_members_skip_prefixes(
    syms: Seq<Symbol>,
    kids: Seq<u32>,
    prefixes: Seq<String>,
    x: int,
    k: int,
)
    requires
        0 <= x < fp_members(syms, kids, prefixes).0.len(),
        0 <= k < prefixes.len(),
    ensures
        !text_starts_with(fp_members(syms, kids, prefixes).0[x], prefixes[k]@),
    decreases kids.len(),
{
    let prev = fp_members(syms, kids.drop_last(), prefixes);
    let cur = fp_members(syms, kids, prefixes);
    let q = last_id_pos(syms, kids.last());
    if q < 0 {
        lemma_fp_members_skip_prefixes(syms, kids.drop_last(), prefixes, x, k);
    } else {
        let c = syms[q];
        if !(c.kind == SymbolKind::Field || c.kind == SymbolKind::Function) || ignored(
            c.name@,
            prefixes,
        ) {
            lemma_fp_members_skip_prefixes(syms, kids.drop_last(), prefixes, x, k);
        } else if x < prev.0.len() {
            assert(cur.0[x] == prev.0[x]);
            lemma_fp_members_skip_prefixes(syms, kids.drop_last(), prefixes, x, k);
        } else {
            assert(cur.0[x] == c.name@);
            if text_starts_with(c.name@, prefixes[k]@) {
                assert(ignored(c.name@, prefixes));
            }
        }
    }
}

/// No member name in a fingerprint starts with one of the ignored
/// prefixes (padding such as `Pad_` and `UnknownData_`).
#[verifier::spinoff_prover]
pub proof fn law_fingerprint_names_skip_ignored_prefixes(
    g: SymbolGraph,
    p: int,
    prefixes: Seq<String>,
    x: int,
    k: int,
)
    requires
        0 <= x < fingerprint_of(g, p, prefixes).names.len(),
        0 <= k < prefixes.len(),
    ensures
        !text_starts_with(fingerprint_of(g, p, prefixes).names[x], prefixes[k]@),
{
    lemma_fp_members_skip_prefixes(
        g.symbols@,
        children_of(g.relations@, g.symbols@[p].local_id),
        prefixes,
        x,
        k,
    );
}

/// Adding a field or function whose name starts with none of the ignored
/// prefixes to a class puts its name among the fingerprint's names.
#[verifier::spinoff_prover]
pub proof fn law_kept_member_enters_fingerprint(
    syms: Seq<Symbol>,
    kids: Seq<u32>,
    id: u32,
    prefixes: Seq<String>,
)
    requires
        last_id_pos(syms, id) >= 0,
        syms[last_id_pos(syms, id)].kind == SymbolKind::Field || syms[last_id_pos(
            syms,
            id,
        )].kind == SymbolKind::Function,
        forall|k: int|
            0 <= k < prefixes.len() ==> !text_starts_with(
                syms[last_id_pos(syms, id)].name@,
                #[trigger] prefixes[k]@,
            ),
    ensures
        fp_members(syms, kids.push(id), prefixes).0.contains(syms[last_id_pos(syms, id)].name@),
{
    let c = syms[last_id_pos(syms, id)];
    assert(kids.push(id).drop_last() =~= kids);
    assert(kids.push(id).last() == id);
    let prev = fp_members(syms, kids, prefixes).0;
    if !prev.contains(c.name@) {
        assert(prev.push(c.name@)[prev.len() as int] == c.name@);
    }
}

/// Adding a member whose name starts with an ignored prefix to a class
/// leaves the names and types of its fingerprint unchanged.
#[verifier::spinoff_prover]
pub proof fn law_ignored_member_leaves_fingerprint(
    syms: Seq<Symbol>,
    kids: Seq<u32>,
    id: u32,
    prefixes: Seq<String>,
    k: int,
)
    requires
        last_id_pos(syms, id) >= 0,
        0 <= k < prefixes.len(),
        text_starts_with(syms[last_id_pos(syms, id)].name@, prefixes[k]@),
    ensures
        fp_members(syms, kids.push(id), prefixes) == fp_members(syms, kids, prefixes),
{
    assert(kids.push(id).drop_last() =~= kids);
    assert(kids.push(id).last() == id);
}

#[verifier::spinoff_prover]
proof fn lemma_unmatched_not_suggested(
    syms: Seq<Symbol>,
    marks: Seq<bool>,
    sugg: Seq<SuggestionV>,
    base_side: bool,
    k: nat,
    x: int,
    j: int,
)
    requires
        0 <= x < unmatched_upto(syms, marks, sugg, base_side, k).len(),
        0 <= j < sugg.len(),
    ensures
        base_side ==> unmatched_upto(syms, marks, sugg, base_side, k)[x].fqn != sugg[j].base.fqn,
        !base_side ==> unmatched_upto(syms, marks, sugg, base_side, k)[x].fqn != sugg[j].head.fqn,
    decreases k,
{
    let prev = unmatched_upto(syms, marks, sugg, base_side, (k - 1) as nat);
    let cur = unmatched_upto(syms, marks, sugg, base_side, k);
    if x < prev.len() {
        assert(cur[x] == prev[x]);
        lemma_unmatched_not_suggested(syms, marks, sugg, base_side, (k - 1) as nat, x, j);
    } else {
        let s = syms[k - 1];
        assert(cur == prev.push(ref_of(s)));
        assert(cur[x] == ref_of(s));
        if base_side && s.fqn@ == sugg[j].base.fqn {
            assert(suggested_base(sugg, s.fqn@));
        }
        if !base_side && s.fqn@ == sugg[j].head.fqn {
            assert(suggested_head(sugg, s.fqn@));
        }
    }
}

/// A symbol that a rename suggestion names is listed neither as removed
/// nor as added: no removed symbol has the fqn of a suggestion's base,
/// and no added symbol has the fqn of a suggestion's head.
#[verifier::spinoff_prover]
pub proof fn law_suggested_symbols_are_not_added_or_removed(
    base: SymbolGraph,
    head: SymbolGraph,
    cfg: DiffConfig,
    ovs: Seq<RenameOverride>,
)
    ensures
        forall|x: int, j: int|
            0 <= x < diff_spec(base, head, cfg, ovs).removed.len() && 0 <= j < diff_spec(
                base,
                head,
                cfg,
                ovs,
            ).suggestions.len() ==> (#[trigger] diff_spec(base, head, cfg, ovs).removed[x]).fqn
                != (#[trigger] diff_spec(base, head, cfg, ovs).suggestions[j]).base.fqn,
        forall|x: int, j: int|
            0 <= x < diff_spec(base, head, cfg, ovs).added.len() && 0 <= j < diff_spec(
                base,
                head,
                cfg,
                ovs,
            ).suggestions.len() ==> (#[trigger] diff_spec(base, head, cfg, ovs).added[x]).fqn
                != (#[trigger] diff_spec(base, head, cfg, ovs).suggestions[j]).head.fqn,
{
    let st = final_state(base, head, cfg, ovs);
    let d = diff_spec(base, head, cfg, ovs);
    assert forall|x: int, j: int|
        0 <= x < d.removed.len() && 0 <= j < d.suggestions.len() implies (#[trigger] d.removed[x]).fqn
        != (#[trigger] d.suggestions[j]).base.fqn by {
        lemma_unmatched_not_suggested(base.symbols@, st.mb, st.sugg, true, base.symbols@.len(), x, j);
    }
    assert forall|x: int, j: int|
        0 <= x < d.added.len() && 0 <= j < d.suggestions.len() implies (#[trigger] d.added[x]).fqn
        != (#[trigger] d.suggestions[j]).head.fqn by {
        lemma_unmatched_not_suggested(head.symbols@, st.mh, st.sugg, false, head.symbols@.len(), x, j);
    }
}

/// Diffing a graph against itself, with no overrides, scores every match
/// one and matches each type once: no two matches share a base, provided
/// no two symbols share an fqn.
pub proof fn law_self_diff_matches_each_type_once(g: SymbolGraph, cfg: DiffConfig)
    requires
        fqns_unique(g.symbols@),
    ensures
        ({
            let d = diff_spec(g, g, cfg, Seq::empty());
            &&& forall|m: int| 0 <= m < d.matches.len() ==> (#[trigger] d.matches[m]).score == SCORE_ONE as int
            &&& forall|m1: int, m2: int|
                0 <= m1 < m2 < d.matches.len() ==> (#[trigger] d.matches[m1]).base != (
                #[trigger] d.matches[m2]).base
        }),
{
    let n = g.symbols@.len();
    let ovs = Seq::<RenameOverride>::empty();
    let s1 = after_overrides(g, g, ovs);
    assert(s1 == initial_state(n, n));
    lemma_self_exact(g, n);
    let s2 = after_exact(g, g, s1, n);
    lemma_self_fp(g, cfg, s2, n);
    assert(final_state(g, g, cfg, ovs) == s2);
    let d = diff_spec(g, g, cfg, ovs);
    assert(d.matches == s2.matches);
    lemma_self_exact_scores(g, n);
}

/// Shared elements counted one way equal those of the set intersection.
proof fn lemma_inter_count_set(a: Seq<Seq<char>>, b: Seq<Seq<char>>)
    requires
        a.no_duplicates(),
    ensures
        inter_count(a, b) == a.to_set().intersect(b.to_set()).len(),
        a.to_set().intersect(b.to_set()).finite(),
    decreases a.len(),
{
    broadcast use vstd::set::group_set_axioms, vstd::seq_lib::seq_to_set_is_finite;

    if a.len() == 0 {
        assert(a.to_set().intersect(b.to_set()) =~= Set::<Seq<char>>::empty());
    } else {
        let a1 = a.drop_last();
        let x = a.last();
        assert(a1.no_duplicates()) by {
            assert forall|i: int, j: int| 0 <= i < a1.len() && 0 <= j < a1.len() && i != j implies a1[i]
                != a1[j] by {
                assert(a1[i] == a[i] && a1[j] == a[j]);
            }
        }
        lemma_inter_count_set(a1, b);
        let i1 = a1.to_set().intersect(b.to_set());
        let i0 = a.to_set().intersect(b.to_set());
        assert(!a1.contains(x)) by {
            if a1.contains(x) {
                let k = choose|k: int| 0 <= k < a1.len() && a1[k] == x;
                assert(a[k] == a[a.len() - 1]);
            }
        }
        assert(a.to_set() =~= a1.to_set().insert(x)) by {
            assert forall|y: Seq<char>| a.contains(y) <==> (a1.contains(y) || y == x) by {
                if a.contains(y) {
                    let k = choose|k: int| 0 <= k < a.len() && a[k] == y;
                    if k < a.len() - 1 {
                        assert(a1[k] == y);
                    }
                }
                if a1.contains(y) {
                    let k = choose|k: int| 0 <= k < a1.len() && a1[k] == y;
                    assert(a[k] == y);
                }
                if y == x {
                    assert(a[a.len() - 1] == y);
                }
            }
        }
        if b.contains(x) {
            assert(i0 =~= i1.insert(x));
            assert(!i1.contains(x));
        } else {
            assert(i0 =~= i1);
        }
    }
}

/// The similarity score of two fingerprints does not depend on which
/// graph is the base: swapping them gives the same score.
pub proof fn law_fingerprint_score_is_symmetric(a: FingerprintV, b: FingerprintV, cfg: DiffConfig)
    requires
        a.names.no_duplicates(),
        a.types.no_duplicates(),
        b.names.no_duplicates(),
        b.types.no_duplicates(),
    ensures
        pair_score(a, b, cfg) == pair_score(b, a, cfg),
{
    lemma_inter_count_set(a.names, b.names);
    lemma_inter_count_set(b.names, a.names);
    lemma_inter_count_set(a.types, b.types);
    lemma_inter_count_set(b.types, a.types);
    assert(a.names.to_set().intersect(b.names.to_set()) =~= b.names.to_set().intersect(a.names.to_set()));
    assert(a.types.to_set().intersect(b.types.to_set()) =~= b.types.to_set().intersect(a.types.to_set()));
    assert(jaccard(a.names, b.names) == jaccard(b.names, a.names));
    assert(jaccard(a.types, b.types) == jaccard(b.types, a.types));
}

} // verus!
