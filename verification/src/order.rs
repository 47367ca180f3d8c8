//! Order recovery for concurrent synthesis: a reorder buffer keyed by
//! sequence index that releases a unit downstream only once every
//! lower-indexed chunk has been resolved — played, or skipped after a
//! synthesis failure. With it, playback receives units in strictly
//! increasing index order no matter how synthesis interleaves.

use vstd::prelude::*;
use crate::queue::AudioUnit;

verus! {

/// What the synthesis stage reports for one chunk.
#[derive(Debug)]
pub enum SynthesisOutcome {
    /// Synthesis succeeded: a playable unit.
    Ready(AudioUnit),
    /// Synthesis failed for the chunk with this sequence index; the index
    /// is skipped and stays permanently absent from playback.
    Failed(usize),
}

impl SynthesisOutcome {
    /// The sequence index the outcome is about.
    pub open spec fn idx(self) -> int {
        match self {
            SynthesisOutcome::Ready(u) => u.index as int,
            SynthesisOutcome::Failed(i) => i as int,
        }
    }

    /// Runtime accessor for the sequence index.
    pub fn index(&self) -> (i: usize)
        ensures
            i as int == self.idx(),
    {
        match self {
            SynthesisOutcome::Ready(u) => u.index,
            SynthesisOutcome::Failed(i) => *i,
        }
    }
}

/// An internal ordering violation: the stage upstream delivered an index
/// twice, or one that was already resolved. This is reported loudly, never
/// papered over.
#[derive(Debug)]
pub enum OrderingError {
    /// The outcome's index was already resolved.
    Stale,
    /// An outcome for the same index is already waiting.
    Duplicate,
}

/// The reorder buffer: holds the next index owed downstream and the
/// outcomes received out of order, and releases runs of consecutive
/// resolved units.
pub struct Reorderer {
    next: usize,
    pending: Vec<SynthesisOutcome>,
}

impl Reorderer {
    /// The lowest sequence index not yet resolved: every unit released so
    /// far has a smaller index, and every waiting outcome a larger one.
    pub closed spec fn next_index(self) -> int {
        self.next as int
    }

    /// Whether this exact outcome is waiting in the buffer.
    pub closed spec fn has_pending(self, oc: SynthesisOutcome) -> bool {
        self.pending@.contains(oc)
    }

    /// Whether some outcome with this index is waiting in the buffer.
    pub closed spec fn pending_index(self, i: int) -> bool {
        seq_has_idx(self.pending@, i)
    }

    /// Well-formedness: waiting outcomes carry distinct indices, all above
    /// the next owed index and small enough that the counter can pass them.
    pub closed spec fn inv(self) -> bool {
        &&& forall|k: int|
            0 <= k < self.pending@.len() ==> self.next_index() < #[trigger] self.pending@[k].idx()
                < usize::MAX
        &&& forall|k1: int, k2: int|
            0 <= k1 < k2 < self.pending@.len() ==> self.pending@[k1].idx()
                != self.pending@[k2].idx()
    }

    /// An empty buffer that owes `start` first.
    pub fn new(start: usize) -> (r: Reorderer)
        ensures
            r.inv(),
            r.next_index() == start,
            forall|oc: SynthesisOutcome| !r.has_pending(oc),
            forall|i: int| !r.pending_index(i),
    {
        Reorderer { next: start, pending: Vec::new() }
    }

    /// Runtime accessor for the next owed index.
    pub fn next_expected(&self) -> (i: usize)
        ensures
            i as int == self.next_index(),
    {
        self.next
    }

    /// Takes in one synthesis outcome and hands back every unit that is now
    /// releasable: the new outcome and its successors among the waiting
    /// ones, in strictly increasing index order, with failed indices
    /// silently skipped. An outcome whose index was already seen is
    /// rejected and changes nothing.
    pub fn accept(&mut self, outcome: SynthesisOutcome) -> (r: Result<
        Vec<AudioUnit>,
        OrderingError,
    >)
        requires
            old(self).inv(),
            outcome.idx() < usize::MAX,
        ensures
            final(self).inv(),
            r is Err <==> (outcome.idx() < old(self).next_index() || old(self).pending_index(
                outcome.idx(),
            )),
            r is Err ==> *final(self) == *old(self),
            r is Ok ==> {
                let released = r->Ok_0@;
                &&& old(self).next_index() <= final(self).next_index()
                &&& forall|oc: SynthesisOutcome|
                    final(self).has_pending(oc) <==> ((old(self).has_pending(oc) || oc == outcome)
                        && oc.idx() >= final(self).next_index())
                &&& forall|i: int|
                    old(self).next_index() <= i < final(self).next_index() ==> (old(
                        self,
                    ).pending_index(i) || outcome.idx() == i)
                &&& !old(self).pending_index(final(self).next_index())
                &&& outcome.idx() != final(self).next_index()
                &&& forall|j: int|
                    0 <= j < released.len() ==> (old(self).has_pending(
                        SynthesisOutcome::Ready(#[trigger] released[j]),
                    ) || outcome == SynthesisOutcome::Ready(released[j]))
                &&& forall|j: int|
                    0 <= j < released.len() ==> old(self).next_index()
                        <= #[trigger] released[j].index < final(self).next_index()
                &&& forall|j1: int, j2: int|
                    0 <= j1 < j2 < released.len() ==> released[j1].index < released[j2].index
                &&& forall|u: AudioUnit|
                    ((old(self).has_pending(SynthesisOutcome::Ready(u)) || outcome
                        == SynthesisOutcome::Ready(u)) && old(self).next_index() <= u.index
                        < final(self).next_index()) ==> released.contains(u)
            },
    {
        let ghost os = *old(self);
        let i = outcome.index();
        if i < self.next {
            return Err(OrderingError::Stale);
        }
        if has_index(&self.pending, i) {
            return Err(OrderingError::Duplicate);
        }
        // The pool of unresolved outcomes is everything that was waiting
        // plus the new arrival; drain from it the run of consecutive
        // indices starting at the one owed next.
        let ghost pool = os.pending@.push(outcome);
        let ghost oldp = os.pending@;
        self.pending.push(outcome);
        let mut released: Vec<AudioUnit> = Vec::new();
        proof {
            assert(pool[pool.len() - 1] == outcome);
            assert forall|p: int| 0 <= p < pool.len() implies #[trigger] pool[p].idx()
                < usize::MAX by {
                if p < oldp.len() {
                    assert(pool[p] == oldp[p]);
                }
            }
            assert forall|oc: SynthesisOutcome| self.pending@.contains(oc) implies pool.contains(
                oc,
            ) && oc.idx() >= self.next_index() by {
                let k = choose|k: int| 0 <= k < self.pending@.len() && self.pending@[k] == oc;
                if k < oldp.len() {
                    assert(oldp[k] == oc);
                }
            }
            assert forall|oc: SynthesisOutcome|
                pool.contains(oc) && oc.idx() >= self.next_index() implies self.pending@.contains(
                oc,
            ) by {
                let k = choose|k: int| 0 <= k < pool.len() && pool[k] == oc;
                assert(self.pending@[k] == oc);
            }
            assert forall|p1: int, p2: int| 0 <= p1 < p2 < pool.len() implies pool[p1].idx()
                != pool[p2].idx() by {
                if p2 == pool.len() - 1 {
                    assert(pool[p1] == oldp[p1]);
                    assert(os.has_pending(oldp[p1]));
                    if oldp[p1].idx() == outcome.idx() {
                        assert(os.pending_index(outcome.idx()));
                    }
                } else {
                    assert(pool[p1] == oldp[p1]);
                    assert(pool[p2] == oldp[p2]);
                }
            }
        }
        let mut done = false;
        while !done
            invariant
                done ==> !seq_has_idx(self.pending@, self.next_index()),
                pool == os.pending@.push(outcome),
                os.next_index() <= outcome.idx() < usize::MAX,
                forall|p: int| 0 <= p < pool.len() ==> #[trigger] pool[p].idx() < usize::MAX,
                forall|p1: int, p2: int|
                    0 <= p1 < p2 < pool.len() ==> pool[p1].idx() != pool[p2].idx(),
                os.next_index() <= self.next_index() <= usize::MAX,
                forall|k1: int, k2: int|
                    0 <= k1 < k2 < self.pending@.len() ==> self.pending@[k1].idx()
                        != self.pending@[k2].idx(),
                forall|oc: SynthesisOutcome|
                    #[trigger] self.pending@.contains(oc) ==> pool.contains(oc) && oc.idx()
                        >= self.next_index(),
                forall|oc: SynthesisOutcome|
                    pool.contains(oc) && oc.idx() >= self.next_index()
                        ==> #[trigger] self.pending@.contains(oc),
                forall|i2: int|
                    os.next_index() <= i2 < self.next_index() ==> #[trigger] seq_has_idx(
                        pool,
                        i2,
                    ),
                forall|j: int|
                    0 <= j < released@.len() ==> pool.contains(
                        SynthesisOutcome::Ready(#[trigger] released@[j]),
                    ),
                forall|j: int|
                    0 <= j < released@.len() ==> os.next_index() <= #[trigger] released@[j].index
                        < self.next_index(),
                forall|j1: int, j2: int|
                    0 <= j1 < j2 < released@.len() ==> released@[j1].index < released@[j2].index,
                forall|u: AudioUnit|
                    (pool.contains(SynthesisOutcome::Ready(u)) && os.next_index() <= u.index
                        < self.next_index()) ==> released@.contains(u),
            decreases self.pending@.len(), (if done {
                0int
            } else {
                1int
            }),
        {
            let ghost before = *self;
            let taken = take_index(&mut self.pending, self.next);
            match taken {
                Option::None => {
                    done = true;
                },
                Option::Some(oc) => {
                    proof {
                        assert(before.has_pending(oc));
                        assert(pool.contains(oc) && oc.idx() == self.next_index());
                        // Only one pool member carries this index.
                        assert forall|oc2: SynthesisOutcome|
                            pool.contains(oc2) && oc2.idx() == self.next_index() implies oc2
                            == oc by {
                            let p1 = choose|p: int| 0 <= p < pool.len() && pool[p] == oc;
                            let p2 = choose|p: int| 0 <= p < pool.len() && pool[p] == oc2;
                            if p1 != p2 {
                                assert(pool[p1].idx() != pool[p2].idx());
                            }
                        }
                        // The remaining waiting set is the pool above the
                        // advanced index.
                        assert forall|oc2: SynthesisOutcome|
                            self.pending@.contains(oc2) implies (pool.contains(oc2) && oc2.idx()
                            >= self.next_index() + 1) by {
                            assert(before.pending@.contains(oc2) && oc2.idx()
                                != self.next_index());
                        }
                        assert forall|oc2: SynthesisOutcome|
                            pool.contains(oc2) && oc2.idx() >= self.next_index()
                                + 1 implies self.pending@.contains(oc2) by {
                            assert(before.pending@.contains(oc2) && oc2.idx()
                                != self.next_index());
                        }
                        let pw = choose|p: int| 0 <= p < pool.len() && pool[p] == oc;
                        assert(pool[pw].idx() == self.next_index());
                        assert(seq_has_idx(pool, self.next_index()));
                    }
                    match oc {
                        SynthesisOutcome::Ready(u) => {
                            proof {
                                assert forall|u2: AudioUnit|
                                    (pool.contains(SynthesisOutcome::Ready(u2))
                                        && os.next_index() <= u2.index < self.next_index()
                                        + 1) implies released@.push(u).contains(u2) by {
                                    if u2.index < self.next_index() {
                                        assert(released@.contains(u2));
                                        let j = choose|j: int|
                                            0 <= j < released@.len() && released@[j] == u2;
                                        assert(released@.push(u)[j] == u2);
                                    } else {
                                        assert(SynthesisOutcome::Ready(u2).idx()
                                            == self.next_index());
                                        assert(SynthesisOutcome::Ready(u2) == oc);
                                        assert(released@.push(u)[released@.len() as int] == u2);
                                    }
                                }
                                assert(pool.contains(SynthesisOutcome::Ready(u)));
                            }
                            released.push(u);
                        },
                        SynthesisOutcome::Failed(_) => {
                            proof {
                                assert forall|u2: AudioUnit|
                                    (pool.contains(SynthesisOutcome::Ready(u2))
                                        && os.next_index() <= u2.index < self.next_index()
                                        + 1) implies released@.contains(u2) by {
                                    if u2.index >= self.next_index() {
                                        assert(SynthesisOutcome::Ready(u2).idx()
                                            == self.next_index());
                                        assert(SynthesisOutcome::Ready(u2) == oc);
                                        assert(false);
                                    }
                                    assert(released@.contains(u2));
                                }
                            }
                        },
                    }
                    self.next = self.next + 1;
                },
            }
        }
        proof {
            // At exit no pool member carries the owed index, so everything
            // promised of the pool transfers to the caller's vocabulary.
            assert forall|k: int|
                0 <= k < self.pending@.len() implies self.next_index()
                < #[trigger] self.pending@[k].idx() < usize::MAX by {
                let oc = self.pending@[k];
                assert(self.pending@.contains(oc));
                assert(pool.contains(oc) && oc.idx() >= self.next_index());
                if oc.idx() == self.next_index() {
                    assert(seq_has_idx(self.pending@, self.next_index()));
                }
            }
            assert forall|oc: SynthesisOutcome| pool.contains(oc) implies (os.has_pending(oc)
                || oc == outcome) by {
                let p = choose|p: int| 0 <= p < pool.len() && pool[p] == oc;
                if p < os.pending@.len() {
                    assert(os.pending@[p] == oc);
                }
            }
            assert forall|oc: SynthesisOutcome|
                os.has_pending(oc) || oc == outcome implies pool.contains(oc) by {
                if os.has_pending(oc) {
                    let p = choose|p: int| 0 <= p < os.pending@.len() && os.pending@[p] == oc;
                    assert(pool[p] == oc);
                } else {
                    assert(pool[pool.len() - 1] == oc);
                }
            }
            assert(!os.pending_index(self.next_index()) && outcome.idx()
                != self.next_index()) by {
                if os.pending_index(self.next_index()) {
                    let k = choose|k: int|
                        0 <= k < os.pending@.len() && os.pending@[k].idx() == self.next_index();
                    assert(os.pending@.contains(os.pending@[k]));
                    assert(pool[k] == os.pending@[k]);
                    assert(pool.contains(os.pending@[k]));
                    assert(self.has_pending(os.pending@[k]));
                    let kk = choose|k2: int|
                        0 <= k2 < self.pending@.len() && self.pending@[k2] == os.pending@[k];
                    assert(seq_has_idx(self.pending@, self.next_index()));
                }
                if outcome.idx() == self.next_index() {
                    assert(pool.contains(outcome));
                    assert(self.has_pending(outcome));
                    let kk = choose|k2: int|
                        0 <= k2 < self.pending@.len() && self.pending@[k2] == outcome;
                    assert(seq_has_idx(self.pending@, self.next_index()));
                }
            }
            assert forall|i2: int|
                os.next_index() <= i2 < self.next_index() implies (os.pending_index(i2)
                || outcome.idx() == i2) by {
                assert(seq_has_idx(pool, i2));
                let p = choose|p: int| 0 <= p < pool.len() && pool[p].idx() == i2;
                assert(os.pending@.len() == pool.len() - 1);
                if p < os.pending@.len() {
                    assert(os.pending@[p] == pool[p]);
                }
            }
        }
        Ok(released)
    }
}

/// Whether some outcome in `s` carries the index `i`.
pub open spec fn seq_has_idx(s: Seq<SynthesisOutcome>, i: int) -> bool {
    exists|p: int| 0 <= p < s.len() && s[p].idx() == i
}

/// Whether some outcome in `v` carries the index `i`.
fn has_index(v: &Vec<SynthesisOutcome>, i: usize) -> (b: bool)
    ensures
        b == seq_has_idx(v@, i as int),
{
    let mut k: usize = 0;
    while k < v.len()
        invariant
            0 <= k <= v@.len(),
            forall|j: int| 0 <= j < k ==> v@[j].idx() != i,
        decreases v@.len() - k,
    {
        if v[k].index() == i {
            return true;
        }
        k = k + 1;
    }
    false
}

/// Removes and returns the outcome carrying index `i`, if any.
fn take_index(v: &mut Vec<SynthesisOutcome>, i: usize) -> (r: Option<SynthesisOutcome>)
    requires
        forall|k1: int, k2: int|
            0 <= k1 < k2 < old(v)@.len() ==> old(v)@[k1].idx() != old(v)@[k2].idx(),
    ensures
        forall|k1: int, k2: int|
            0 <= k1 < k2 < final(v)@.len() ==> final(v)@[k1].idx() != final(v)@[k2].idx(),
        r is None ==> final(v)@ == old(v)@ && !seq_has_idx(old(v)@, i as int),
        r is Some ==> {
            &&& r->Some_0.idx() == i
            &&& old(v)@.contains(r->Some_0)
            &&& final(v)@.len() == old(v)@.len() - 1
            &&& forall|oc: SynthesisOutcome|
                #[trigger] final(v)@.contains(oc) ==> (old(v)@.contains(oc) && oc.idx() != i)
            &&& forall|oc: SynthesisOutcome|
                old(v)@.contains(oc) && oc.idx() != i ==> #[trigger] final(v)@.contains(oc)
        },
{
    let mut k: usize = 0;
    while k < v.len()
        invariant
            0 <= k <= v@.len(),
            v@ == old(v)@,
            forall|j: int| 0 <= j < k ==> v@[j].idx() != i,
            forall|k1: int, k2: int|
                0 <= k1 < k2 < v@.len() ==> v@[k1].idx() != v@[k2].idx(),
        decreases v@.len() - k,
    {
        if v[k].index() == i {
            let oc = v.remove(k);
            proof {
                let oldv = old(v)@;
                assert(oldv[k as int] == oc);
                assert(final(v)@ =~= oldv.subrange(0, k as int) + oldv.subrange(
                    k + 1 as int,
                    oldv.len() as int,
                ));
                assert forall|oc2: SynthesisOutcome|
                    final(v)@.contains(oc2) implies (oldv.contains(oc2) && oc2.idx() != i) by {
                    let j = choose|j: int| 0 <= j < final(v)@.len() && final(v)@[j] == oc2;
                    if j < k {
                        assert(oldv[j] == oc2);
                    } else {
                        assert(oldv[j + 1] == oc2);
                    }
                }
                assert forall|oc2: SynthesisOutcome|
                    oldv.contains(oc2) && oc2.idx() != i implies final(v)@.contains(oc2) by {
                    let j = choose|j: int| 0 <= j < oldv.len() && oldv[j] == oc2;
                    if j < k {
                        assert(final(v)@[j] == oc2);
                    } else {
                        assert(final(v)@[j - 1] == oc2);
                    }
                }
                assert forall|k1: int, k2: int|
                    0 <= k1 < k2 < final(v)@.len() implies final(v)@[k1].idx()
                    != final(v)@[k2].idx() by {
                    let a1: int = if k1 < k {
                        k1
                    } else {
                        k1 + 1
                    };
                    let a2: int = if k2 < k {
                        k2
                    } else {
                        k2 + 1
                    };
                    assert(final(v)@[k1] == oldv[a1]);
                    assert(final(v)@[k2] == oldv[a2]);
                }
            }
            return Some(oc);
        }
        k = k + 1;
    }
    None
}

/// Ordering under concurrency: a whole synthesis round fed through the
/// reorder buffer, in whatever arrival order concurrent workers produced.
/// Provided the arrivals carry exactly the indices `start .. start + n`,
/// once each, playback receives exactly the successfully synthesized units,
/// in strictly increasing sequence-index order, with no duplicates; the
/// injected failures are the only indices missing.
pub fn replay_arrivals(arrivals: Vec<SynthesisOutcome>, start: usize) -> (played: Vec<AudioUnit>)
    requires
        start + arrivals@.len() <= usize::MAX,
        forall|k1: int, k2: int|
            0 <= k1 < k2 < arrivals@.len() ==> arrivals@[k1].idx() != arrivals@[k2].idx(),
        forall|k: int|
            0 <= k < arrivals@.len() ==> start <= #[trigger] arrivals@[k].idx() < start
                + arrivals@.len(),
        forall|i: int| start <= i < start + arrivals@.len() ==> #[trigger] seq_has_idx(
            arrivals@,
            i,
        ),
    ensures
        forall|j1: int, j2: int|
            0 <= j1 < j2 < played@.len() ==> played@[j1].index < played@[j2].index,
        forall|j: int|
            0 <= j < played@.len() ==> arrivals@.contains(
                SynthesisOutcome::Ready(#[trigger] played@[j]),
            ),
        forall|u: AudioUnit|
            arrivals@.contains(SynthesisOutcome::Ready(u)) ==> played@.contains(u),
        forall|k: int, j: int|
            #![trigger arrivals@[k], played@[j]]
            0 <= k < arrivals@.len() && 0 <= j < played@.len() && arrivals@[k] is Failed
                ==> played@[j].index != arrivals@[k].idx(),
{
    let ghost arr = arrivals@;
    let ghost n = arr.len() as int;
    let mut queue = arrivals;
    let mut r = Reorderer::new(start);
    let mut played: Vec<AudioUnit> = Vec::new();
    let mut t: usize = 0;
    proof {
        assert(queue@ =~= arr.subrange(0, n));
    }
    while queue.len() > 0
        invariant
            n == arr.len(),
            start + n <= usize::MAX,
            forall|k1: int, k2: int|
                0 <= k1 < k2 < arr.len() ==> arr[k1].idx() != arr[k2].idx(),
            forall|k: int|
                0 <= k < arr.len() ==> start <= #[trigger] arr[k].idx() < start + n,
            0 <= t <= n,
            queue@ == arr.subrange(t as int, n),
            r.inv(),
            start <= r.next_index(),
            forall|i: int|
                start <= i < r.next_index() ==> #[trigger] seq_has_idx(
                    arr.subrange(0, t as int),
                    i,
                ),
            forall|i: int|
                #[trigger] r.pending_index(i) ==> seq_has_idx(arr.subrange(0, t as int), i),
            forall|i: int|
                #[trigger] seq_has_idx(arr.subrange(0, t as int), i) ==> (i < r.next_index()
                    || r.pending_index(i)),
            forall|oc: SynthesisOutcome|
                #[trigger] r.has_pending(oc) ==> arr.subrange(0, t as int).contains(oc),
            forall|j1: int, j2: int|
                0 <= j1 < j2 < played@.len() ==> played@[j1].index < played@[j2].index,
            forall|j: int|
                0 <= j < played@.len() ==> arr.subrange(0, t as int).contains(
                    SynthesisOutcome::Ready(#[trigger] played@[j]),
                ) && start <= played@[j].index < r.next_index(),
            forall|u: AudioUnit|
                arr.subrange(0, t as int).contains(SynthesisOutcome::Ready(u)) && u.index
                    < r.next_index() ==> played@.contains(u),
        decreases queue@.len(),
    {
        let oc = queue.remove(0);
        let ghost pre = arr.subrange(0, t as int);
        let ghost pre1 = arr.subrange(0, t + 1 as int);
        let ghost os = r;
        proof {
            assert(oc == arr[t as int]);
            assert(queue@ =~= arr.subrange(t + 1 as int, n));
            assert(pre1 =~= pre.push(oc));
            // The arrival is fresh: its index was never seen, so it is
            // neither resolved nor waiting.
            assert(!seq_has_idx(pre, oc.idx())) by {
                if seq_has_idx(pre, oc.idx()) {
                    let k = choose|k: int| 0 <= k < pre.len() && pre[k].idx() == oc.idx();
                    assert(arr[k] == pre[k]);
                    assert(arr[k].idx() != arr[t as int].idx());
                }
            }
            if oc.idx() < r.next_index() {
                assert(seq_has_idx(pre, oc.idx()));
            }
            if r.pending_index(oc.idx()) {
                assert(seq_has_idx(pre, oc.idx()));
            }
        }
        let res = r.accept(oc);
        match res {
            Result::Ok(mut units) => {
                proof {
                    let ghost u_seq = units@;
                    // Fresh-index membership carries from the seen prefix to
                    // the extended one and back.
                    assert forall|i: int| #[trigger] seq_has_idx(pre, i) implies seq_has_idx(
                        pre1,
                        i,
                    ) by {
                        let k = choose|k: int| 0 <= k < pre.len() && pre[k].idx() == i;
                        assert(pre1[k].idx() == i);
                    }
                    assert(pre1[t as int] == oc);
                    assert(seq_has_idx(pre1, oc.idx()));
                    assert forall|oc2: SynthesisOutcome| pre.contains(oc2) implies pre1.contains(
                        oc2,
                    ) by {
                        let k = choose|k: int| 0 <= k < pre.len() && pre[k] == oc2;
                        assert(pre1[k] == oc2);
                    }
                    assert(pre1.contains(oc));
                    // (A) every resolved index was seen
                    assert forall|i: int|
                        start <= i < r.next_index() implies #[trigger] seq_has_idx(pre1, i) by {
                        if i < os.next_index() {
                            assert(seq_has_idx(pre, i));
                        } else {
                            assert(os.pending_index(i) || oc.idx() == i);
                            if os.pending_index(i) {
                                assert(seq_has_idx(pre, i));
                            }
                        }
                    }
                    // (B) every waiting index was seen
                    assert forall|i: int| #[trigger] r.pending_index(i) implies seq_has_idx(
                        pre1,
                        i,
                    ) by {
                        let k = choose|k: int|
                            0 <= k < r.pending@.len() && r.pending@[k].idx() == i;
                        let oc2 = r.pending@[k];
                        assert(r.has_pending(oc2));
                        assert(os.has_pending(oc2) || oc2 == oc);
                        if os.has_pending(oc2) {
                            assert(os.pending_index(i)) by {
                                let k2 = choose|k2: int|
                                    0 <= k2 < os.pending@.len() && os.pending@[k2] == oc2;
                                assert(os.pending@[k2].idx() == i);
                            }
                            assert(seq_has_idx(pre, i));
                        }
                    }
                    // (C) every seen index is resolved or waiting
                    assert forall|i: int|
                        #[trigger] seq_has_idx(pre1, i) implies (i < r.next_index()
                            || r.pending_index(i)) by {
                        let k = choose|k: int| 0 <= k < pre1.len() && pre1[k].idx() == i;
                        let oc2 = pre1[k];
                        if k < t {
                            assert(pre[k] == oc2);
                            assert(seq_has_idx(pre, i));
                            if !(i < os.next_index()) {
                                assert(os.pending_index(i));
                                let k2 = choose|k2: int|
                                    0 <= k2 < os.pending@.len() && os.pending@[k2].idx() == i;
                                let oc3 = os.pending@[k2];
                                assert(os.has_pending(oc3));
                                if oc3.idx() >= r.next_index() {
                                    assert(r.has_pending(oc3));
                                    let k3 = choose|k3: int|
                                        0 <= k3 < r.pending@.len() && r.pending@[k3] == oc3;
                                    assert(r.pending@[k3].idx() == i);
                                    assert(r.pending_index(i));
                                }
                            }
                        } else {
                            assert(oc2 == oc);
                            if oc.idx() >= r.next_index() {
                                assert(r.has_pending(oc));
                                let k3 = choose|k3: int|
                                    0 <= k3 < r.pending@.len() && r.pending@[k3] == oc;
                                assert(r.pending@[k3].idx() == i);
                                assert(r.pending_index(i));
                            }
                        }
                    }
                    // (D) waiting outcomes come from the seen prefix
                    assert forall|oc2: SynthesisOutcome|
                        #[trigger] r.has_pending(oc2) implies pre1.contains(oc2) by {
                        assert(os.has_pending(oc2) || oc2 == oc);
                        if os.has_pending(oc2) {
                            assert(pre.contains(oc2));
                        }
                    }
                    // Released units extend playback in order.
                    assert forall|j1: int, j2: int|
                        0 <= j1 < j2 < played@.len() + u_seq.len() implies (played@
                            + u_seq)[j1].index < (played@ + u_seq)[j2].index by {
                        if j2 < played@.len() {
                        } else if j1 >= played@.len() {
                            assert((played@ + u_seq)[j1] == u_seq[j1 - played@.len()]);
                            assert((played@ + u_seq)[j2] == u_seq[j2 - played@.len()]);
                        } else {
                            assert((played@ + u_seq)[j1] == played@[j1]);
                            assert((played@ + u_seq)[j2] == u_seq[j2 - played@.len()]);
                            assert(played@[j1].index < os.next_index());
                            assert(u_seq[j2 - played@.len()].index >= os.next_index());
                        }
                    }
                    assert forall|j: int|
                        0 <= j < played@.len() + u_seq.len() implies pre1.contains(
                            SynthesisOutcome::Ready(#[trigger] (played@ + u_seq)[j]),
                        ) && start <= (played@ + u_seq)[j].index < r.next_index() by {
                        if j < played@.len() {
                            assert((played@ + u_seq)[j] == played@[j]);
                            assert(pre.contains(SynthesisOutcome::Ready(played@[j])));
                        } else {
                            let u = u_seq[j - played@.len()];
                            assert((played@ + u_seq)[j] == u);
                            assert(os.has_pending(SynthesisOutcome::Ready(u)) || oc
                                == SynthesisOutcome::Ready(u));
                            if os.has_pending(SynthesisOutcome::Ready(u)) {
                                assert(pre.contains(SynthesisOutcome::Ready(u)));
                            }
                        }
                    }
                    // Everything seen, successful and resolved is played.
                    assert forall|u: AudioUnit|
                        pre1.contains(SynthesisOutcome::Ready(u)) && u.index
                            < r.next_index() implies (played@ + u_seq).contains(u) by {
                        let k = choose|k: int|
                            0 <= k < pre1.len() && pre1[k] == SynthesisOutcome::Ready(u);
                        if k == t {
                            assert(oc == SynthesisOutcome::Ready(u));
                            assert(oc.idx() >= os.next_index());
                            assert(units@.contains(u));
                            let j = choose|j: int| 0 <= j < u_seq.len() && u_seq[j] == u;
                            assert((played@ + u_seq)[played@.len() + j] == u);
                        } else {
                            assert(pre[k] == SynthesisOutcome::Ready(u));
                            assert(pre.contains(SynthesisOutcome::Ready(u)));
                            if u.index < os.next_index() {
                                assert(played@.contains(u));
                                let j = choose|j: int|
                                    0 <= j < played@.len() && played@[j] == u;
                                assert((played@ + u_seq)[j] == u);
                            } else {
                                // The unit was waiting in the buffer: the
                                // seen index belongs to exactly this outcome.
                                assert(seq_has_idx(pre, u.index as int));
                                assert(os.pending_index(u.index as int));
                                let k2 = choose|k2: int|
                                    0 <= k2 < os.pending@.len() && os.pending@[k2].idx()
                                        == u.index as int;
                                let oc3 = os.pending@[k2];
                                assert(os.has_pending(oc3));
                                assert(pre.contains(oc3));
                                let p1 = choose|p: int| 0 <= p < pre.len() && pre[p] == oc3;
                                if p1 != k {
                                    assert(arr[p1] == oc3 && arr[k] == pre[k]);
                                    assert(arr[p1].idx() != arr[k].idx());
                                    assert(false);
                                }
                                assert(oc3 == SynthesisOutcome::Ready(u));
                                assert(units@.contains(u));
                                let j = choose|j: int| 0 <= j < u_seq.len() && u_seq[j] == u;
                                assert((played@ + u_seq)[played@.len() + j] == u);
                            }
                        }
                    }
                }
                played.append(&mut units);
            },
            Result::Err(_) => {
                proof {
                    assert(false);
                }
            },
        }
        t = t + 1;
    }
    proof {
        assert(t == n);
        let pre = arr.subrange(0, n);
        assert(pre =~= arr);
        // Every index of the round is resolved: were the next owed index
        // still inside the round, it would have to be waiting, and the
        // buffer invariant forbids that.
        if r.next_index() < start + n {
            assert(seq_has_idx(arr, r.next_index()));
            assert(r.next_index() < r.next_index() || r.pending_index(r.next_index()));
            let k = choose|k: int|
                0 <= k < r.pending@.len() && r.pending@[k].idx() == r.next_index();
            assert(false);
        }
        assert forall|u: AudioUnit|
            arrivals@.contains(SynthesisOutcome::Ready(u)) implies played@.contains(u) by {
            let k = choose|k: int|
                0 <= k < arr.len() && arr[k] == SynthesisOutcome::Ready(u);
            assert(arr[k].idx() < start + n);
            assert(u.index < r.next_index());
        }
        assert forall|k: int, j: int|
            #![trigger arr[k], played@[j]]
            0 <= k < arr.len() && 0 <= j < played@.len() && arr[k] is Failed implies played@[
            j].index != arr[k].idx() by {
            assert(arr.contains(SynthesisOutcome::Ready(played@[j])));
            let k2 = choose|k2: int|
                0 <= k2 < arr.len() && arr[k2] == SynthesisOutcome::Ready(played@[j]);
            if k2 != k {
                assert(arr[k2].idx() != arr[k].idx());
            }
        }
    }
    played
}

} // verus!
