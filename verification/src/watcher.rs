//! Decisions of the folder watcher: which directory an event points at,
//! whether a directory is a dump root, and which ancestor of a changed
//! path is the dump to announce. Paths are sequences of components; the
//! root directory is the component `/`.
use vstd::prelude::*;

verus! {

pub open spec fn texts(p: Seq<String>) -> Seq<Seq<char>> {
    p.map_values(|c: String| c@)
}

/// The parent of a path: `None` for the empty path and the root.
pub open spec fn parent_of_path(p: Seq<Seq<char>>) -> Option<Seq<Seq<char>>> {
    if p.len() == 0 || (p.len() == 1 && p[0] == "/"@) {
        None
    } else {
        Some(p.drop_last())
    }
}

fn copy_path(p: &Vec<String>, n: usize) -> (r: Vec<String>)
    requires
        n <= p@.len(),
    ensures
        r@ == p@.take(n as int),
{
    let mut out: Vec<String> = Vec::new();
    let mut k: usize = 0;
    while k < n
        invariant
            n <= p@.len(),
            k <= n,
            out@ == p@.take(k as int),
        decreases n - k,
    {
        out.push(p[k].clone());
        k = k + 1;
        proof {
            assert(out@ =~= p@.take(k as int));
        }
    }
    out
}

/// `Path::parent` on components.
pub fn parent_path(p: &Vec<String>) -> (r: Option<Vec<String>>)
    ensures
        match r {
            Some(q) => parent_of_path(texts(p@)) == Some(texts(q@)),
            None => parent_of_path(texts(p@)) is None,
        },
{
    proof {
        reveal_strlit("/");
    }
    if p.len() == 0 {
        return None;
    }
    if p.len() == 1 && crate::text::str_eq(p[0].as_str(), "/") {
        return None;
    }
    let q = copy_path(p, p.len() - 1);
    proof {
        assert(texts(q@) =~= texts(p@).drop_last());
    }
    Some(q)
}

/// The directory an event path stands for: itself when it is a
/// directory, else its parent.
pub fn nearest_dir(p: &Vec<String>, is_dir: bool) -> (r: Option<Vec<String>>)
    ensures
        is_dir ==> (r matches Some(q) && q@ == p@),
        !is_dir ==> match r {
            Some(q) => parent_of_path(texts(p@)) == Some(texts(q@)),
            None => parent_of_path(texts(p@)) is None,
        },
{
    if is_dir {
        let q = copy_path(p, p.len());
        proof {
            assert(p@.take(p@.len() as int) =~= p@);
        }
        Some(q)
    } else {
        parent_path(p)
    }
}

/// `base` is a leading run of `p`'s components (`Path::starts_with`).
pub open spec fn starts_with_path(p: Seq<Seq<char>>, base: Seq<Seq<char>>) -> bool {
    base.len() <= p.len() && p.subrange(0, base.len() as int) == base
}

pub fn path_starts_with(p: &Vec<String>, base: &Vec<String>) -> (r: bool)
    ensures
        r == starts_with_path(texts(p@), texts(base@)),
{
    if base.len() > p.len() {
        return false;
    }
    let mut k: usize = 0;
    while k < base.len()
        invariant
            base@.len() <= p@.len(),
            k <= base@.len(),
            forall|j: int| 0 <= j < k ==> p@[j]@ == base@[j]@,
        decreases base@.len() - k,
    {
        if p[k] != base[k] {
            proof {
                assert(texts(p@).subrange(0, base@.len() as int)[k as int] == p@[k as int]@);
            }
            return false;
        }
        k = k + 1;
    }
    proof {
        assert(texts(p@).subrange(0, base@.len() as int) =~= texts(base@));
    }
    true
}

/// Under one of the watched roots.
pub open spec fn in_some_root(p: Seq<Seq<char>>, roots: Seq<Vec<String>>) -> bool {
    exists|k: int| 0 <= k < roots.len() && starts_with_path(p, texts(#[trigger] roots[k]@))
}

fn in_a_root(p: &Vec<String>, roots: &Vec<Vec<String>>) -> (r: bool)
    ensures
        r == in_some_root(texts(p@), roots@),
{
    let mut k: usize = 0;
    while k < roots.len()
        invariant
            k <= roots@.len(),
            forall|j: int| 0 <= j < k ==> !starts_with_path(texts(p@), texts(#[trigger] roots@[j]@)),
        decreases roots@.len() - k,
    {
        if path_starts_with(p, &roots[k]) {
            return true;
        }
        k = k + 1;
    }
    false
}

/// A dump root: a directory holding `CppSDK/SDK`, `_SDKInfo.json`,
/// `SDKInfo.json` or `SDK.hpp`.
pub fn looks_like_dump(
    is_dir: bool,
    has_cppsdk_sdk: bool,
    has_underscore_info: bool,
    has_info: bool,
    has_sdk_hpp: bool,
) -> (r: bool)
    ensures
        r == (is_dir && (has_cppsdk_sdk || has_underscore_info || has_info || has_sdk_hpp)),
{
    is_dir && (has_cppsdk_sdk || has_underscore_info || has_info || has_sdk_hpp)
}

/// Walking up `chain` (a path, then each parent in turn): `None` at the
/// first path outside every root, else the position of the first that
/// looks like a dump, else `None`.
pub open spec fn candidate_from(
    chain: Seq<Vec<String>>,
    roots: Seq<Vec<String>>,
    dump_like: Seq<bool>,
    k: int,
) -> Option<int>
    decreases chain.len() - k,
{
    if k < 0 || k >= chain.len() {
        None
    } else if !in_some_root(texts(chain[k]@), roots) {
        None
    } else if dump_like[k] {
        Some(k)
    } else {
        candidate_from(chain, roots, dump_like, k + 1)
    }
}

/// Which ancestor of a changed path is the dump to announce.
pub fn pick_candidate(chain: &Vec<Vec<String>>, roots: &Vec<Vec<String>>, dump_like: &Vec<bool>) -> (r:
    Option<usize>)
    requires
        dump_like@.len() == chain@.len(),
    ensures
        match r {
            Some(k) => candidate_from(chain@, roots@, dump_like@, 0) == Some(k as int),
            None => candidate_from(chain@, roots@, dump_like@, 0) is None,
        },
{
    let mut k: usize = 0;
    while k < chain.len()
        invariant
            dump_like@.len() == chain@.len(),
            k <= chain@.len(),
            candidate_from(chain@, roots@, dump_like@, k as int) == candidate_from(
                chain@,
                roots@,
                dump_like@,
                0,
            ),
        decreases chain@.len() - k,
    {
        if !in_a_root(&chain[k], roots) {
            return None;
        }
        if dump_like[k] {
            return Some(k);
        }
        k = k + 1;
    }
    None
}

/// The first of `roots`, from position `k` on, that `candidate` lies
/// under; the candidate itself when there is none.
pub open spec fn root_from(candidate: Seq<String>, roots: Seq<Vec<String>>, k: int) -> Seq<String>
    decreases roots.len() - k,
{
    if k < 0 || k >= roots.len() {
        candidate
    } else if starts_with_path(texts(candidate), texts(roots[k]@)) {
        roots[k]@
    } else {
        root_from(candidate, roots, k + 1)
    }
}

/// The watched root a dump sits under: the first that contains it, else
/// the dump itself.
pub open spec fn watched_root_for_spec(candidate: Seq<String>, roots: Seq<Vec<String>>) -> Seq<String> {
    root_from(candidate, roots, 0)
}

pub fn watched_root_for(candidate: &Vec<String>, roots: &Vec<Vec<String>>) -> (r: Vec<String>)
    ensures
        r@ == watched_root_for_spec(candidate@, roots@),
{
    let mut k: usize = 0;
    while k < roots.len()
        invariant
            k <= roots@.len(),
            root_from(candidate@, roots@, k as int) == root_from(candidate@, roots@, 0),
        decreases roots@.len() - k,
    {
        if path_starts_with(candidate, &roots[k]) {
            let r = copy_path(&roots[k], roots[k].len());
            proof {
                assert(roots@[k as int]@.take(roots@[k as int]@.len() as int) =~= roots@[k as int]@);
            }
            return r;
        }
        k = k + 1;
    }
    let r = copy_path(candidate, candidate.len());
    proof {
        assert(candidate@.take(candidate@.len() as int) =~= candidate@);
    }
    r
}


/// Whether two paths have the same components.
pub fn same_path(a: &Vec<String>, b: &Vec<String>) -> (r: bool)
    ensures
        r == (texts(a@) == texts(b@)),
{
    if a.len() != b.len() {
        proof {
            if texts(a@) == texts(b@) {
                assert(texts(a@).len() == texts(b@).len());
            }
        }
        return false;
    }
    let r = path_starts_with(a, b);
    proof {
        if r {
            assert(texts(a@).subrange(0, texts(b@).len() as int) =~= texts(a@));
        } else {
            assert(texts(a@).subrange(0, texts(b@).len() as int) =~= texts(a@));
        }
    }
    r
}

/// `p` is one of the paths of `v`.
pub open spec fn holds_path(v: Seq<Vec<String>>, p: Seq<Seq<char>>) -> bool {
    exists|k: int| 0 <= k < v.len() && texts(#[trigger] v[k]@) == p
}

proof fn lemma_holds_push(v: Seq<Vec<String>>, x: Vec<String>, q: Seq<Seq<char>>)
    ensures
        holds_path(v.push(x), q) == (holds_path(v, q) || texts(x@) == q),
{
    if holds_path(v, q) {
        let i = choose|i: int| 0 <= i < v.len() && texts(#[trigger] v[i]@) == q;
        assert(v.push(x)[i] == v[i]);
    }
    if texts(x@) == q {
        assert(v.push(x)[v.len() as int] == x);
    }
    if holds_path(v.push(x), q) {
        let i = choose|i: int| 0 <= i < v.push(x).len() && texts(#[trigger] v.push(x)[i]@) == q;
        if i < v.len() {
            assert(v.push(x)[i] == v[i]);
        }
    }
}

fn contains_path(v: &Vec<Vec<String>>, p: &Vec<String>) -> (r: bool)
    ensures
        r == holds_path(v@, texts(p@)),
{
    let mut k: usize = 0;
    while k < v.len()
        invariant
            k <= v@.len(),
            forall|j: int| 0 <= j < k ==> texts(#[trigger] v@[j]@) != texts(p@),
        decreases v@.len() - k,
    {
        if same_path(&v[k], p) {
            return true;
        }
        k = k + 1;
    }
    false
}

/// The paths of `v` other than `p`, in order.
fn without_path(v: &Vec<Vec<String>>, p: &Vec<String>) -> (r: Vec<Vec<String>>)
    ensures
        forall|q: Seq<Seq<char>>| holds_path(r@, q) == (holds_path(v@, q) && q != texts(p@)),
{
    let mut out: Vec<Vec<String>> = Vec::new();
    let mut k: usize = 0;
    while k < v.len()
        invariant
            k <= v@.len(),
            forall|q: Seq<Seq<char>>|
                holds_path(out@, q) == (holds_path(v@.take(k as int), q) && q != texts(p@)),
        decreases v@.len() - k,
    {
        let ghost prev = out@;
        let keep = !same_path(&v[k], p);
        if keep {
            out.push(copy_path(&v[k], v[k].len()));
        }
        proof {
            assert(v@[k as int]@.take(v@[k as int]@.len() as int) =~= v@[k as int]@);
            assert(v@.take(k + 1) =~= v@.take(k as int).push(v@[k as int]));
            assert forall|q: Seq<Seq<char>>|
                holds_path(out@, q) == (holds_path(v@.take(k + 1), q) && q != texts(p@)) by {
                lemma_holds_push(v@.take(k as int), v@[k as int], q);
                assert(holds_path(prev, q) == (holds_path(v@.take(k as int), q) && q != texts(p@)));
                if keep {
                    lemma_holds_push(prev, out@[out@.len() - 1], q);
                    assert(out@ =~= prev.push(out@[out@.len() - 1]));
                }
            }
        }
        k = k + 1;
    }
    proof {
        assert(v@.take(k as int) =~= v@);
    }
    out
}

/// A dump found by the watcher: its root and the watched root it is
/// under.
pub struct DumpDetected {
    pub path: Vec<String>,
    pub watched_root: Vec<String>,
}

/// What the watcher remembers between file-system events: the dumps
/// waiting for their quiet period to end, and the dumps already
/// announced (each is announced once).
pub struct WatchState {
    pending: Vec<Vec<String>>,
    emitted: Vec<Vec<String>>,
}

impl WatchState {
    /// `p` waits for its quiet period to end.
    pub closed spec fn is_pending(&self, p: Seq<Seq<char>>) -> bool {
        holds_path(self.pending@, p)
    }

    /// `p` was announced.
    pub closed spec fn was_emitted(&self, p: Seq<Seq<char>>) -> bool {
        holds_path(self.emitted@, p)
    }

    pub fn new() -> (r: WatchState)
        ensures
            forall|p: Seq<Seq<char>>| !r.is_pending(p) && !r.was_emitted(p),
    {
        WatchState { pending: Vec::new(), emitted: Vec::new() }
    }

    /// A change under `candidate` was seen. Unless that dump was already
    /// announced it becomes pending, and the caller starts a timer for
    /// it (`true`).
    pub fn on_change(&mut self, candidate: &Vec<String>) -> (arm: bool)
        ensures
            arm == !old(self).was_emitted(texts(candidate@)),
            forall|p: Seq<Seq<char>>|
                #[trigger] final(self).is_pending(p) == (old(self).is_pending(p) || (arm && p == texts(
                    candidate@,
                ))),
            forall|p: Seq<Seq<char>>| #[trigger] final(self).was_emitted(p) == old(self).was_emitted(p),
    {
        if contains_path(&self.emitted, candidate) {
            return false;
        }
        if !contains_path(&self.pending, candidate) {
            let ghost prev = self.pending@;
            self.pending.push(copy_path(candidate, candidate.len()));
            proof {
                assert(candidate@.take(candidate@.len() as int) =~= candidate@);
                assert(self.pending@ =~= prev.push(self.pending@[prev.len() as int]));
                assert forall|p: Seq<Seq<char>>|
                    holds_path(self.pending@, p) == (holds_path(prev, p) || p == texts(candidate@)) by {
                    lemma_holds_push(prev, self.pending@[prev.len() as int], p);
                }
            }
        }
        true
    }

    /// The quiet period of `candidate` ended. It stops being pending; the
    /// caller checks whether it is a dump (`true`) only if it was still
    /// pending.
    pub fn on_quiet(&mut self, candidate: &Vec<String>) -> (check: bool)
        ensures
            check == old(self).is_pending(texts(candidate@)),
            forall|p: Seq<Seq<char>>|
                #[trigger] final(self).is_pending(p) == (old(self).is_pending(p) && p != texts(candidate@)),
            forall|p: Seq<Seq<char>>| #[trigger] final(self).was_emitted(p) == old(self).was_emitted(p),
    {
        let was = contains_path(&self.pending, candidate);
        self.pending = without_path(&self.pending, candidate);
        was
    }

    /// `candidate` was checked and is a dump: it is recorded as announced
    /// and the announcement names the watched root it is under.
    pub fn announce(&mut self, candidate: &Vec<String>, roots: &Vec<Vec<String>>) -> (d: DumpDetected)
        ensures
            d.path@ == candidate@,
            d.watched_root@ == watched_root_for_spec(candidate@, roots@),
            forall|p: Seq<Seq<char>>|
                #[trigger] final(self).was_emitted(p) == (old(self).was_emitted(p) || p == texts(candidate@)),
            forall|p: Seq<Seq<char>>| #[trigger] final(self).is_pending(p) == old(self).is_pending(p),
    {
        let ghost prev = self.emitted@;
        self.emitted.push(copy_path(candidate, candidate.len()));
        proof {
            assert(candidate@.take(candidate@.len() as int) =~= candidate@);
            assert(self.emitted@ =~= prev.push(self.emitted@[prev.len() as int]));
            assert forall|p: Seq<Seq<char>>|
                holds_path(self.emitted@, p) == (holds_path(prev, p) || p == texts(candidate@)) by {
                lemma_holds_push(prev, self.emitted@[prev.len() as int], p);
            }
        }
        let root = watched_root_for(candidate, roots);
        DumpDetected { path: copy_path(candidate, candidate.len()), watched_root: root }
    }
}

} // verus!
