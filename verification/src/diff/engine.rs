//! The diff engine: user overrides, exact matching by fqn, rename
//! detection by fingerprint, removed and added symbols, and member-level
//! classification of each matched pair.
//!
//! The engine is a pure function of two graphs, a configuration and the
//! user's overrides. Symbols are visited in graph order, so where several
//! head candidates score the same, the first of them wins.
use vstd::prelude::*;
use crate::diff::classify::{classify_field_changes, classify_spec};
use crate::diff::fingerprint::{fingerprint, fingerprint_of, pair_score, score, Fingerprint};
use crate::diff::types::{
    changes_view, matches_view, ref_of, refs_view, suggestions_view, symbol_ref, Decision, Diff,
    DiffConfig, DiffV, FieldChange, FieldChangeV, MatchMethod, MatchV, RefV, RenameOverride,
    RenameSuggestion, SuggestionV, SymbolMatch, SymbolRef, SCORE_ONE,
};
use crate::index::{ids_unique, last_fqn_pos, GraphIndex};
use crate::model::{Symbol, SymbolGraph, SymbolKind};

verus! {

/// Classes, structs and enums: the symbols the diff lists.
pub open spec fn is_top_level(k: SymbolKind) -> bool {
    k == SymbolKind::Class || k == SymbolKind::Struct || k == SymbolKind::Enum
}

/// Classes and structs: the symbols rename detection considers.
pub open spec fn fingerprinted(k: SymbolKind) -> bool {
    k == SymbolKind::Class || k == SymbolKind::Struct
}

/// Which base and head positions are matched so far, the matches and
/// the rename suggestions.
pub ghost struct DiffState {
    pub mb: Seq<bool>,
    pub mh: Seq<bool>,
    pub matches: Seq<MatchV>,
    pub sugg: Seq<SuggestionV>,
}

pub open spec fn initial_state(nb: nat, nh: nat) -> DiffState {
    DiffState {
        mb: Seq::new(nb, |i: int| false),
        mh: Seq::new(nh, |i: int| false),
        matches: Seq::empty(),
        sugg: Seq::empty(),
    }
}

pub open spec fn match_v(b: Symbol, h: Symbol, method: MatchMethod, score: int) -> MatchV {
    MatchV { base: ref_of(b), head: ref_of(h), method, score }
}

pub open spec fn with_match(st: DiffState, i: int, j: int, m: MatchV) -> DiffState {
    DiffState {
        mb: st.mb.update(i, true),
        mh: st.mh.update(j, true),
        matches: st.matches.push(m),
        sugg: st.sugg,
    }
}

/// State after the overrides, in order: each `Match` whose two fqns name
/// symbols matches those symbols.
pub open spec fn after_overrides(
    base: SymbolGraph,
    head: SymbolGraph,
    ovs: Seq<RenameOverride>,
) -> DiffState
    decreases ovs.len(),
{
    if ovs.len() == 0 {
        initial_state(base.symbols@.len(), head.symbols@.len())
    } else {
        let st = after_overrides(base, head, ovs.drop_last());
        let ov = ovs.last();
        let b = last_fqn_pos(base.symbols@, ov.base_fqn@);
        let h = last_fqn_pos(head.symbols@, ov.head_fqn@);
        if ov.decision == Decision::Match && b >= 0 && h >= 0 {
            with_match(
                st,
                b,
                h,
                match_v(
                    base.symbols@[b],
                    head.symbols@[h],
                    MatchMethod::UserOverride,
                    SCORE_ONE as int,
                ),
            )
        } else {
            st
        }
    }
}

/// Exact matching of the base symbol at `i`: an unmatched top-level
/// symbol matches the last head symbol of the same fqn, if that one has
/// the same kind and is unmatched.
pub open spec fn exact_step(base: SymbolGraph, head: SymbolGraph, st: DiffState, i: int) -> DiffState {
    let s = base.symbols@[i];
    let q = last_fqn_pos(head.symbols@, s.fqn@);
    if !st.mb[i] && is_top_level(s.kind) && q >= 0 && head.symbols@[q].kind == s.kind
        && !st.mh[q] {
        with_match(st, i, q, match_v(s, head.symbols@[q], MatchMethod::Exact, SCORE_ONE as int))
    } else {
        st
    }
}

pub open spec fn after_exact(base: SymbolGraph, head: SymbolGraph, st: DiffState, k: nat) -> DiffState
    decreases k,
{
    if k == 0 {
        st
    } else {
        exact_step(base, head, after_exact(base, head, st, (k - 1) as nat), k - 1)
    }
}

/// The decision of the last override on the pair (`bf`, `hf`).
pub open spec fn last_decision(ovs: Seq<RenameOverride>, bf: Seq<char>, hf: Seq<char>) -> Option<
    Decision,
>
    decreases ovs.len(),
{
    if ovs.len() == 0 {
        None
    } else if ovs.last().base_fqn@ == bf && ovs.last().head_fqn@ == hf {
        Some(ovs.last().decision)
    } else {
        last_decision(ovs.drop_last(), bf, hf)
    }
}

pub open spec fn rejected(ovs: Seq<RenameOverride>, bf: Seq<char>, hf: Seq<char>) -> bool {
    last_decision(ovs, bf, hf) == Some(Decision::Reject)
}

/// Head symbol `j` may be paired with base symbol `i` by fingerprint.
pub open spec fn candidate(
    base: SymbolGraph,
    head: SymbolGraph,
    ovs: Seq<RenameOverride>,
    mh: Seq<bool>,
    i: int,
    j: int,
) -> bool {
    &&& fingerprinted(head.symbols@[j].kind)
    &&& !mh[j]
    &&& head.symbols@[j].kind == base.symbols@[i].kind
    &&& !rejected(ovs, base.symbols@[i].fqn@, head.symbols@[j].fqn@)
}

pub open spec fn fp_score(base: SymbolGraph, head: SymbolGraph, cfg: DiffConfig, i: int, j: int) -> int {
    pair_score(
        fingerprint_of(base, i, cfg.fingerprint_ignore_prefixes@),
        fingerprint_of(head, j, cfg.fingerprint_ignore_prefixes@),
        cfg,
    )
}

/// Among the candidates below head position `m`, the first of highest
/// score, with that score.
pub open spec fn best_head(
    base: SymbolGraph,
    head: SymbolGraph,
    cfg: DiffConfig,
    ovs: Seq<RenameOverride>,
    mh: Seq<bool>,
    i: int,
    m: nat,
) -> Option<(int, int)>
    decreases m,
{
    if m == 0 {
        None
    } else {
        let prev = best_head(base, head, cfg, ovs, mh, i, (m - 1) as nat);
        let j = m - 1;
        if candidate(base, head, ovs, mh, i, j) {
            let sc = fp_score(base, head, cfg, i, j);
            match prev {
                None => Some((j, sc)),
                Some(b) => if sc > b.1 {
                    Some((j, sc))
                } else {
                    prev
                },
            }
        } else {
            prev
        }
    }
}

/// Rename detection for the base symbol at `i`: its best candidate is
/// matched at or above the confidence threshold, suggested at or above
/// the suggestion threshold.
pub open spec fn fp_step(
    base: SymbolGraph,
    head: SymbolGraph,
    cfg: DiffConfig,
    ovs: Seq<RenameOverride>,
    st: DiffState,
    i: int,
) -> DiffState {
    let s = base.symbols@[i];
    if !fingerprinted(s.kind) || st.mb[i] {
        st
    } else {
        match best_head(base, head, cfg, ovs, st.mh, i, head.symbols@.len()) {
            None => st,
            Some(b) => {
                let j = b.0;
                let sc = b.1;
                if sc >= cfg.fingerprint_confidence_threshold * 1_000_000 {
                    with_match(st, i, j, match_v(s, head.symbols@[j], MatchMethod::Fingerprint, sc))
                } else if sc >= cfg.fingerprint_suggestion_threshold * 1_000_000 {
                    DiffState {
                        sugg: st.sugg.push(
                            SuggestionV { base: ref_of(s), head: ref_of(head.symbols@[j]), score: sc },
                        ),
                        ..st
                    }
                } else {
                    st
                }
            },
        }
    }
}

pub open spec fn after_fp(
    base: SymbolGraph,
    head: SymbolGraph,
    cfg: DiffConfig,
    ovs: Seq<RenameOverride>,
    st: DiffState,
    k: nat,
) -> DiffState
    decreases k,
{
    if k == 0 {
        st
    } else {
        fp_step(base, head, cfg, ovs, after_fp(base, head, cfg, ovs, st, (k - 1) as nat), k - 1)
    }
}

/// State after the three matching passes.
pub open spec fn final_state(
    base: SymbolGraph,
    head: SymbolGraph,
    cfg: DiffConfig,
    ovs: Seq<RenameOverride>,
) -> DiffState {
    let nb = base.symbols@.len();
    after_fp(base, head, cfg, ovs, after_exact(base, head, after_overrides(base, head, ovs), nb), nb)
}

pub open spec fn suggested_base(sugg: Seq<SuggestionV>, f: Seq<char>) -> bool {
    exists|k: int| 0 <= k < sugg.len() && #[trigger] sugg[k].base.fqn == f
}

pub open spec fn suggested_head(sugg: Seq<SuggestionV>, f: Seq<char>) -> bool {
    exists|k: int| 0 <= k < sugg.len() && #[trigger] sugg[k].head.fqn == f
}

/// Unmatched top-level symbols among the first `k` of `syms` whose fqn
/// no suggestion names on that side (`marks` are the matched flags).
pub open spec fn unmatched_upto(
    syms: Seq<Symbol>,
    marks: Seq<bool>,
    sugg: Seq<SuggestionV>,
    base_side: bool,
    k: nat,
) -> Seq<RefV>
    decreases k,
{
    if k == 0 {
        Seq::empty()
    } else {
        let prev = unmatched_upto(syms, marks, sugg, base_side, (k - 1) as nat);
        let s = syms[k - 1];
        let named = if base_side {
            suggested_base(sugg, s.fqn@)
        } else {
            suggested_head(sugg, s.fqn@)
        };
        if is_top_level(s.kind) && !marks[k - 1] && !named {
            prev.push(ref_of(s))
        } else {
            prev
        }
    }
}

/// Member-level changes of the matches of top-level symbols, in match
/// order; each pair is looked up by the fqns the match names.
pub open spec fn changes_upto(base: SymbolGraph, head: SymbolGraph, ms: Seq<MatchV>) -> Seq<
    FieldChangeV,
>
    decreases ms.len(),
{
    if ms.len() == 0 {
        Seq::empty()
    } else {
        let prev = changes_upto(base, head, ms.drop_last());
        let m = ms.last();
        let p = last_fqn_pos(base.symbols@, m.base.fqn);
        let q = last_fqn_pos(head.symbols@, m.head.fqn);
        if is_top_level(m.base.kind) && p >= 0 && q >= 0 {
            prev + classify_spec(m.head.fqn, base, p, head, q)
        } else {
            prev
        }
    }
}

/// The diff of `head` against `base`.
pub open spec fn diff_spec(
    base: SymbolGraph,
    head: SymbolGraph,
    cfg: DiffConfig,
    ovs: Seq<RenameOverride>,
) -> DiffV {
    let st = final_state(base, head, cfg, ovs);
    DiffV {
        game_id: base.source.game_id@,
        base_version: base.source.game_version@,
        head_version: head.source.game_version@,
        matches: st.matches,
        added: unmatched_upto(head.symbols@, st.mh, st.sugg, false, head.symbols@.len()),
        removed: unmatched_upto(base.symbols@, st.mb, st.sugg, true, base.symbols@.len()),
        suggestions: st.sugg,
        field_changes: changes_upto(base, head, st.matches),
    }
}

// ---------------------------------------------------------------------------
// Lengths are kept by every pass
// ---------------------------------------------------------------------------

pub open spec fn sized(st: DiffState, nb: nat, nh: nat) -> bool {
    st.mb.len() == nb && st.mh.len() == nh
}

pub proof fn lemma_overrides_sized(base: SymbolGraph, head: SymbolGraph, ovs: Seq<RenameOverride>)
    ensures
        sized(after_overrides(base, head, ovs), base.symbols@.len(), head.symbols@.len()),
    decreases ovs.len(),
{
    if ovs.len() > 0 {
        lemma_overrides_sized(base, head, ovs.drop_last());
        crate::index::lemma_last_fqn_pos(base.symbols@, ovs.last().base_fqn@);
        crate::index::lemma_last_fqn_pos(head.symbols@, ovs.last().head_fqn@);
    }
}

pub proof fn lemma_exact_sized(base: SymbolGraph, head: SymbolGraph, st: DiffState, k: nat)
    requires
        sized(st, base.symbols@.len(), head.symbols@.len()),
        k <= base.symbols@.len(),
    ensures
        sized(after_exact(base, head, st, k), base.symbols@.len(), head.symbols@.len()),
    decreases k,
{
    if k > 0 {
        lemma_exact_sized(base, head, st, (k - 1) as nat);
        let s = after_exact(base, head, st, (k - 1) as nat);
        crate::index::lemma_last_fqn_pos(head.symbols@, base.symbols@[k - 1].fqn@);
    }
}

pub proof fn lemma_best_head(
    base: SymbolGraph,
    head: SymbolGraph,
    cfg: DiffConfig,
    ovs: Seq<RenameOverride>,
    mh: Seq<bool>,
    i: int,
    m: nat,
)
    ensures
        best_head(base, head, cfg, ovs, mh, i, m) matches Some(b) ==> 0 <= b.0 < m && candidate(
            base,
            head,
            ovs,
            mh,
            i,
            b.0,
        ) && b.1 == fp_score(base, head, cfg, i, b.0),
    decreases m,
{
    if m > 0 {
        lemma_best_head(base, head, cfg, ovs, mh, i, (m - 1) as nat);
    }
}

pub proof fn lemma_fp_sized(
    base: SymbolGraph,
    head: SymbolGraph,
    cfg: DiffConfig,
    ovs: Seq<RenameOverride>,
    st: DiffState,
    k: nat,
)
    requires
        sized(st, base.symbols@.len(), head.symbols@.len()),
        k <= base.symbols@.len(),
    ensures
        sized(after_fp(base, head, cfg, ovs, st, k), base.symbols@.len(), head.symbols@.len()),
    decreases k,
{
    if k > 0 {
        lemma_fp_sized(base, head, cfg, ovs, st, (k - 1) as nat);
        let s = after_fp(base, head, cfg, ovs, st, (k - 1) as nat);
        lemma_best_head(base, head, cfg, ovs, s.mh, k - 1, head.symbols@.len());
    }
}

// ---------------------------------------------------------------------------
// Executable passes
// ---------------------------------------------------------------------------

struct Progress {
    mb: Vec<bool>,
    mh: Vec<bool>,
    matches: Vec<SymbolMatch>,
    sugg: Vec<RenameSuggestion>,
}

impl View for Progress {
    type V = DiffState;

    closed spec fn view(&self) -> DiffState {
        DiffState {
            mb: self.mb@,
            mh: self.mh@,
            matches: matches_view(self.matches@),
            sugg: suggestions_view(self.sugg@),
        }
    }
}

impl Progress {
    fn record_match(
        &mut self,
        i: usize,
        j: usize,
        b: &Symbol,
        h: &Symbol,
        method: MatchMethod,
        score: u64,
    )
        requires
            i < old(self)@.mb.len(),
            j < old(self)@.mh.len(),
        ensures
            final(self)@ == with_match(old(self)@, i as int, j as int, match_v(*b, *h, method, score as int)),
    {
        self.mb.set(i, true);
        self.mh.set(j, true);
        self.matches.push(
            SymbolMatch { base: symbol_ref(b), head: symbol_ref(h), method, score },
        );
        proof {
            assert(self@.matches =~= old(self)@.matches.push(match_v(*b, *h, method, score as int)));
        }
    }
}

fn all_false(n: usize) -> (r: Vec<bool>)
    ensures
        r@ == Seq::new(n as nat, |i: int| false),
{
    let mut v: Vec<bool> = Vec::new();
    let mut k: usize = 0;
    while k < n
        invariant
            k <= n,
            v@ == Seq::new(k as nat, |i: int| false),
        decreases n - k,
    {
        v.push(false);
        k = k + 1;
        proof {
            assert(v@ =~= Seq::new(k as nat, |i: int| false));
        }
    }
    v
}

fn apply_overrides(
    base: &SymbolGraph,
    bidx: &GraphIndex,
    head: &SymbolGraph,
    hidx: &GraphIndex,
    ovs: &[RenameOverride],
) -> (r: Progress)
    requires
        bidx.wf(*base),
        hidx.wf(*head),
    ensures
        r@ == after_overrides(*base, *head, ovs@),
{
    let mut pr = Progress {
        mb: all_false(base.symbols.len()),
        mh: all_false(head.symbols.len()),
        matches: Vec::new(),
        sugg: Vec::new(),
    };
    proof {
        assert(pr@.matches =~= Seq::<MatchV>::empty());
        assert(pr@.sugg =~= Seq::<SuggestionV>::empty());
        assert(ovs@.take(0) =~= Seq::<RenameOverride>::empty());
    }
    let mut k: usize = 0;
    while k < ovs.len()
        invariant
            bidx.wf(*base),
            hidx.wf(*head),
            k <= ovs@.len(),
            pr@ == after_overrides(*base, *head, ovs@.take(k as int)),
        decreases ovs@.len() - k,
    {
        proof {
            assert(ovs@.take(k + 1).drop_last() =~= ovs@.take(k as int));
            assert(ovs@.take(k + 1).last() == ovs@[k as int]);
            lemma_overrides_sized(*base, *head, ovs@.take(k as int));
        }
        let ov = &ovs[k];
        if ov.decision == Decision::Match {
            match (bidx.by_fqn(base, ov.base_fqn.as_str()), hidx.by_fqn(head, ov.head_fqn.as_str())) {
                (Some(b), Some(h)) => {
                    pr.record_match(
                        b,
                        h,
                        &base.symbols[b],
                        &head.symbols[h],
                        MatchMethod::UserOverride,
                        SCORE_ONE,
                    );
                },
                _ => {},
            }
        }
        k = k + 1;
    }
    proof {
        assert(ovs@.take(k as int) =~= ovs@);
    }
    pr
}

fn exact_pass(
    base: &SymbolGraph,
    head: &SymbolGraph,
    hidx: &GraphIndex,
    pr: &mut Progress,
)
    requires
        hidx.wf(*head),
        sized(old(pr)@, base.symbols@.len(), head.symbols@.len()),
    ensures
        final(pr)@ == after_exact(*base, *head, old(pr)@, base.symbols@.len()),
{
    let ghost st0 = pr@;
    let mut i: usize = 0;
    while i < base.symbols.len()
        invariant
            hidx.wf(*head),
            sized(st0, base.symbols@.len(), head.symbols@.len()),
            i <= base.symbols@.len(),
            pr@ == after_exact(*base, *head, st0, i as nat),
        decreases base.symbols@.len() - i,
    {
        proof {
            lemma_exact_sized(*base, *head, st0, i as nat);
        }
        let s = &base.symbols[i];
        let top = s.kind == SymbolKind::Class || s.kind == SymbolKind::Struct || s.kind
            == SymbolKind::Enum;
        if !pr.mb[i] && top {
            match hidx.by_fqn(head, s.fqn.as_str()) {
                Some(q) => {
                    if head.symbols[q].kind == s.kind && !pr.mh[q] {
                        pr.record_match(i, q, s, &head.symbols[q], MatchMethod::Exact, SCORE_ONE);
                    }
                },
                None => {},
            }
        }
        i = i + 1;
    }
}

/// The decision of the last override on the pair (`bf`, `hf`) is `Reject`.
fn is_rejected(ovs: &[RenameOverride], bf: &String, hf: &String) -> (r: bool)
    ensures
        r == rejected(ovs@, bf@, hf@),
{
    let mut found: Option<Decision> = None;
    let mut k: usize = 0;
    while k < ovs.len()
        invariant
            k <= ovs@.len(),
            found == last_decision(ovs@.take(k as int), bf@, hf@),
        decreases ovs@.len() - k,
    {
        proof {
            assert(ovs@.take(k + 1).drop_last() =~= ovs@.take(k as int));
            assert(ovs@.take(k + 1).last() == ovs@[k as int]);
        }
        if ovs[k].base_fqn == *bf && ovs[k].head_fqn == *hf {
            found = Some(ovs[k].decision);
        }
        k = k + 1;
    }
    proof {
        assert(ovs@.take(k as int) =~= ovs@);
    }
    match found {
        Some(d) => d == Decision::Reject,
        None => false,
    }
}

/// Fingerprints of every symbol of the graph, by position.
fn all_fingerprints(g: &SymbolGraph, idx: &GraphIndex, prefixes: &Vec<String>) -> (r: Vec<
    Fingerprint,
>)
    requires
        idx.wf(*g),
    ensures
        r@.len() == g.symbols@.len(),
        forall|p: int|
            0 <= p < r@.len() ==> (#[trigger] r@[p])@ == fingerprint_of(*g, p, prefixes@)
                && r@[p].wf(),
{
    let mut out: Vec<Fingerprint> = Vec::new();
    let mut p: usize = 0;
    while p < g.symbols.len()
        invariant
            idx.wf(*g),
            p <= g.symbols@.len(),
            out@.len() == p,
            forall|q: int|
                0 <= q < p ==> (#[trigger] out@[q])@ == fingerprint_of(*g, q, prefixes@)
                    && out@[q].wf(),
        decreases g.symbols@.len() - p,
    {
        let f = fingerprint(g, idx, p, prefixes);
        out.push(f);
        p = p + 1;
    }
    out
}

pub open spec fn opt_pair(o: Option<(usize, u64)>) -> Option<(int, int)> {
    match o {
        Some(b) => Some((b.0 as int, b.1 as int)),
        None => None,
    }
}

fn best_candidate(
    base: &SymbolGraph,
    head: &SymbolGraph,
    cfg: &DiffConfig,
    ovs: &[RenameOverride],
    bfps: &Vec<Fingerprint>,
    hfps: &Vec<Fingerprint>,
    mh: &Vec<bool>,
    i: usize,
) -> (r: Option<(usize, u64)>)
    requires
        i < base.symbols@.len(),
        mh@.len() == head.symbols@.len(),
        bfps@.len() == base.symbols@.len(),
        hfps@.len() == head.symbols@.len(),
        forall|p: int|
            0 <= p < bfps@.len() ==> (#[trigger] bfps@[p])@ == fingerprint_of(
                *base,
                p,
                cfg.fingerprint_ignore_prefixes@,
            ) && bfps@[p].wf(),
        forall|p: int|
            0 <= p < hfps@.len() ==> (#[trigger] hfps@[p])@ == fingerprint_of(
                *head,
                p,
                cfg.fingerprint_ignore_prefixes@,
            ) && hfps@[p].wf(),
    ensures
        opt_pair(r) == best_head(*base, *head, *cfg, ovs@, mh@, i as int, head.symbols@.len()),
        r matches Some(b) ==> b.0 < head.symbols@.len(),
{
    let mut best: Option<(usize, u64)> = None;
    let mut j: usize = 0;
    let bsym = &base.symbols[i];
    while j < head.symbols.len()
        invariant
            i < base.symbols@.len(),
            bsym == base.symbols@[i as int],
            mh@.len() == head.symbols@.len(),
            bfps@.len() == base.symbols@.len(),
            hfps@.len() == head.symbols@.len(),
            forall|p: int|
                0 <= p < bfps@.len() ==> (#[trigger] bfps@[p])@ == fingerprint_of(
                    *base,
                    p,
                    cfg.fingerprint_ignore_prefixes@,
                ) && bfps@[p].wf(),
            forall|p: int|
                0 <= p < hfps@.len() ==> (#[trigger] hfps@[p])@ == fingerprint_of(
                    *head,
                    p,
                    cfg.fingerprint_ignore_prefixes@,
                ) && hfps@[p].wf(),
            j <= head.symbols@.len(),
            opt_pair(best) == best_head(*base, *head, *cfg, ovs@, mh@, i as int, j as nat),
            best matches Some(b) ==> b.0 < j,
        decreases head.symbols@.len() - j,
    {
        let h = &head.symbols[j];
        let fp = h.kind == SymbolKind::Class || h.kind == SymbolKind::Struct;
        if fp && !mh[j] && h.kind == bsym.kind && !is_rejected(ovs, &bsym.fqn, &h.fqn) {
            let sc = score(&bfps[i], &hfps[j], cfg);
            match best {
                None => {
                    best = Some((j, sc));
                },
                Some(b) => {
                    if sc > b.1 {
                        best = Some((j, sc));
                    }
                },
            }
        }
        j = j + 1;
    }
    best
}

fn fingerprint_pass(
    base: &SymbolGraph,
    bidx: &GraphIndex,
    head: &SymbolGraph,
    hidx: &GraphIndex,
    cfg: &DiffConfig,
    ovs: &[RenameOverride],
    pr: &mut Progress,
)
    requires
        bidx.wf(*base),
        hidx.wf(*head),
        sized(old(pr)@, base.symbols@.len(), head.symbols@.len()),
    ensures
        final(pr)@ == after_fp(*base, *head, *cfg, ovs@, old(pr)@, base.symbols@.len()),
{
    let bfps = all_fingerprints(base, bidx, &cfg.fingerprint_ignore_prefixes);
    let hfps = all_fingerprints(head, hidx, &cfg.fingerprint_ignore_prefixes);
    let ghost st0 = pr@;
    let conf: u64 = (cfg.fingerprint_confidence_threshold as u64) * 1_000_000;
    let sugg: u64 = (cfg.fingerprint_suggestion_threshold as u64) * 1_000_000;
    let mut i: usize = 0;
    while i < base.symbols.len()
        invariant
            sized(st0, base.symbols@.len(), head.symbols@.len()),
            conf == cfg.fingerprint_confidence_threshold * 1_000_000,
            sugg == cfg.fingerprint_suggestion_threshold * 1_000_000,
            bfps@.len() == base.symbols@.len(),
            hfps@.len() == head.symbols@.len(),
            forall|p: int|
                0 <= p < bfps@.len() ==> (#[trigger] bfps@[p])@ == fingerprint_of(
                    *base,
                    p,
                    cfg.fingerprint_ignore_prefixes@,
                ) && bfps@[p].wf(),
            forall|p: int|
                0 <= p < hfps@.len() ==> (#[trigger] hfps@[p])@ == fingerprint_of(
                    *head,
                    p,
                    cfg.fingerprint_ignore_prefixes@,
                ) && hfps@[p].wf(),
            i <= base.symbols@.len(),
            pr@ == after_fp(*base, *head, *cfg, ovs@, st0, i as nat),
        decreases base.symbols@.len() - i,
    {
        proof {
            lemma_fp_sized(*base, *head, *cfg, ovs@, st0, i as nat);
        }
        let s = &base.symbols[i];
        let fp = s.kind == SymbolKind::Class || s.kind == SymbolKind::Struct;
        if fp && !pr.mb[i] {
            match best_candidate(base, head, cfg, ovs, &bfps, &hfps, &pr.mh, i) {
                Some(b) => {
                    let (j, sc) = b;
                    if sc >= conf {
                        pr.record_match(i, j, s, &head.symbols[j], MatchMethod::Fingerprint, sc);
                    } else if sc >= sugg {
                        pr.sugg.push(
                            RenameSuggestion {
                                base: symbol_ref(s),
                                head: symbol_ref(&head.symbols[j]),
                                score: sc,
                            },
                        );
                        proof {
                            assert(pr@.sugg =~= after_fp(
                                *base,
                                *head,
                                *cfg,
                                ovs@,
                                st0,
                                i as nat,
                            ).sugg.push(
                                SuggestionV {
                                    base: ref_of(*s),
                                    head: ref_of(head.symbols@[j as int]),
                                    score: sc as int,
                                },
                            ));
                        }
                    }
                },
                None => {},
            }
        }
        i = i + 1;
    }
}

fn names_suggested(sugg: &Vec<RenameSuggestion>, f: &String, base_side: bool) -> (r: bool)
    ensures
        r == if base_side {
            suggested_base(suggestions_view(sugg@), f@)
        } else {
            suggested_head(suggestions_view(sugg@), f@)
        },
{
    let ghost sv = suggestions_view(sugg@);
    let mut k: usize = 0;
    while k < sugg.len()
        invariant
            sv == suggestions_view(sugg@),
            k <= sugg@.len(),
            forall|j: int|
                0 <= j < k ==> if base_side {
                    (#[trigger] sv[j]).base.fqn != f@
                } else {
                    sv[j].head.fqn != f@
                },
        decreases sugg@.len() - k,
    {
        let hit = if base_side {
            sugg[k].base.fqn == *f
        } else {
            sugg[k].head.fqn == *f
        };
        if hit {
            proof {
                assert(sv[k as int] == sugg@[k as int]@);
                if base_side {
                    assert(sv[k as int].base.fqn == f@);
                } else {
                    assert(sv[k as int].head.fqn == f@);
                }
            }
            return true;
        }
        proof {
            assert(sv[k as int] == sugg@[k as int]@);
        }
        k = k + 1;
    }
    false
}

fn unmatched(
    syms: &Vec<Symbol>,
    marks: &Vec<bool>,
    sugg: &Vec<RenameSuggestion>,
    base_side: bool,
) -> (r: Vec<SymbolRef>)
    requires
        marks@.len() == syms@.len(),
    ensures
        refs_view(r@) == unmatched_upto(
            syms@,
            marks@,
            suggestions_view(sugg@),
            base_side,
            syms@.len(),
        ),
{
    let mut out: Vec<SymbolRef> = Vec::new();
    let mut k: usize = 0;
    proof {
        assert(refs_view(out@) =~= Seq::<RefV>::empty());
    }
    while k < syms.len()
        invariant
            marks@.len() == syms@.len(),
            k <= syms@.len(),
            refs_view(out@) == unmatched_upto(
                syms@,
                marks@,
                suggestions_view(sugg@),
                base_side,
                k as nat,
            ),
        decreases syms@.len() - k,
    {
        let s = &syms[k];
        let top = s.kind == SymbolKind::Class || s.kind == SymbolKind::Struct || s.kind
            == SymbolKind::Enum;
        if top && !marks[k] && !names_suggested(sugg, &s.fqn, base_side) {
            out.push(symbol_ref(s));
            proof {
                assert(refs_view(out@) =~= unmatched_upto(
                    syms@,
                    marks@,
                    suggestions_view(sugg@),
                    base_side,
                    k as nat,
                ).push(ref_of(*s)));
            }
        }
        k = k + 1;
    }
    out
}

fn all_field_changes(
    base: &SymbolGraph,
    bidx: &GraphIndex,
    head: &SymbolGraph,
    hidx: &GraphIndex,
    ms: &Vec<SymbolMatch>,
) -> (r: Vec<FieldChange>)
    requires
        bidx.wf(*base),
        hidx.wf(*head),
    ensures
        changes_view(r@) == changes_upto(*base, *head, matches_view(ms@)),
{
    let ghost mv = matches_view(ms@);
    let mut out: Vec<FieldChange> = Vec::new();
    let mut k: usize = 0;
    proof {
        assert(changes_view(out@) =~= Seq::<FieldChangeV>::empty());
        assert(mv.take(0) =~= Seq::<MatchV>::empty());
    }
    while k < ms.len()
        invariant
            bidx.wf(*base),
            hidx.wf(*head),
            mv == matches_view(ms@),
            k <= ms@.len(),
            changes_view(out@) == changes_upto(*base, *head, mv.take(k as int)),
        decreases ms@.len() - k,
    {
        proof {
            assert(mv.take(k + 1).drop_last() =~= mv.take(k as int));
            assert(mv.take(k + 1).last() == ms@[k as int]@);
        }
        let m = &ms[k];
        let kind = m.base.kind;
        if kind == SymbolKind::Class || kind == SymbolKind::Struct || kind == SymbolKind::Enum {
            match (bidx.by_fqn(base, m.base.fqn.as_str()), hidx.by_fqn(head, m.head.fqn.as_str())) {
                (Some(p), Some(q)) => {
                    let mut cs = classify_field_changes(&m.head.fqn, base, bidx, p, head, hidx, q);
                    let ghost before = out@;
                    let ghost added = cs@;
                    out.append(&mut cs);
                    proof {
                        assert(out@ =~= before + added);
                        assert(changes_view(out@) =~= changes_view(before) + changes_view(added));
                    }
                },
                _ => {},
            }
        }
        k = k + 1;
    }
    proof {
        assert(mv.take(k as int) =~= mv);
    }
    out
}

/// The diff of `head` against `base`.
///
/// Overrides are applied first: a `Match` pairs the two named symbols
/// before any scoring; the last override on a pair that is a `Reject`
/// keeps that pair from being matched or suggested by fingerprint.
pub fn diff(
    base: &SymbolGraph,
    head: &SymbolGraph,
    config: &DiffConfig,
    overrides: &[RenameOverride],
) -> (d: Diff)
    requires
        ids_unique(base.symbols@),
        ids_unique(head.symbols@),
    ensures
        d@ == diff_spec(*base, *head, *config, overrides@),
{
    let bidx = GraphIndex::build(base);
    let hidx = GraphIndex::build(head);
    let mut pr = apply_overrides(base, &bidx, head, &hidx, overrides);
    proof {
        lemma_overrides_sized(*base, *head, overrides@);
    }
    exact_pass(base, head, &hidx, &mut pr);
    proof {
        lemma_exact_sized(
            *base,
            *head,
            after_overrides(*base, *head, overrides@),
            base.symbols@.len(),
        );
    }
    fingerprint_pass(base, &bidx, head, &hidx, config, overrides, &mut pr);
    proof {
        lemma_fp_sized(
            *base,
            *head,
            *config,
            overrides@,
            after_exact(*base, *head, after_overrides(*base, *head, overrides@), base.symbols@.len()),
            base.symbols@.len(),
        );
    }
    let removed = unmatched(&base.symbols, &pr.mb, &pr.sugg, true);
    let added = unmatched(&head.symbols, &pr.mh, &pr.sugg, false);
    let field_changes = all_field_changes(base, &bidx, head, &hidx, &pr.matches);
    let Progress { mb, mh, matches, sugg } = pr;
    Diff {
        game_id: base.source.game_id.clone(),
        base_version: base.source.game_version.clone(),
        head_version: head.source.game_version.clone(),
        matches,
        added,
        removed,
        renamed_suggestions: sugg,
        field_changes,
    }
}

} // verus!
