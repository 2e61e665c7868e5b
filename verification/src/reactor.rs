//! One worker's reactor: the set of readiness keys registered with the OS
//! multiplexer, and the registry holding, per key, the single wake handle
//! currently interested in it. The blocking wait itself is the caller's;
//! this module decides what registering, suspending, deregistering and a
//! batch of readiness events do to the registry.

use vstd::prelude::*;

verus! {

/// The map an association sequence of (key, waker) pairs denotes; a later
/// pair for a key shadows an earlier one.
pub open spec fn pairs_map<W>(s: Seq<(u64, W)>) -> Map<u64, W>
    decreases s.len(),
{
    if s.len() == 0 {
        Map::empty()
    } else {
        pairs_map(s.drop_last()).insert(s.last().0, s.last().1)
    }
}

/// Whether some pair of the association sequence carries this key.
pub open spec fn has_key<W>(s: Seq<(u64, W)>, k: u64) -> bool {
    exists|i: int| 0 <= i < s.len() && (#[trigger] s[i]).0 == k
}

/// No two pairs carry the same key.
pub open spec fn unique_keys<W>(s: Seq<(u64, W)>) -> bool {
    forall|i: int, j: int|
        0 <= i < s.len() && 0 <= j < s.len() && i != j ==> (#[trigger] s[i]).0 != (
        #[trigger] s[j]).0
}

/// No key occurs twice.
pub open spec fn distinct_keys(s: Seq<u64>) -> bool {
    forall|i: int, j: int|
        0 <= i < s.len() && 0 <= j < s.len() && i != j ==> #[trigger] s[i] != #[trigger] s[j]
}

proof fn lemma_pairs_map_dom<W>(s: Seq<(u64, W)>, k: u64)
    ensures
        pairs_map(s).dom().contains(k) <==> has_key(s, k),
    decreases s.len(),
{
    if s.len() == 0 {
    } else {
        lemma_pairs_map_dom(s.drop_last(), k);
        if s.last().0 == k {
            assert((s[s.len() - 1]).0 == k);
        } else {
            if has_key(s.drop_last(), k) {
                let i = choose|i: int|
                    0 <= i < s.drop_last().len() && (#[trigger] s.drop_last()[i]).0 == k;
                assert((s[i]).0 == k);
            }
            if has_key(s, k) {
                let i = choose|i: int| 0 <= i < s.len() && (#[trigger] s[i]).0 == k;
                assert(i < s.len() - 1);
                assert((s.drop_last()[i]).0 == k);
            }
        }
    }
}

proof fn lemma_unique_drop_last<W>(s: Seq<(u64, W)>)
    requires
        unique_keys(s),
        s.len() > 0,
    ensures
        unique_keys(s.drop_last()),
{
    assert forall|a: int, b: int|
        0 <= a < s.drop_last().len() && 0 <= b < s.drop_last().len() && a != b implies (
    #[trigger] s.drop_last()[a]).0 != (#[trigger] s.drop_last()[b]).0 by {
        assert(s.drop_last()[a] == s[a]);
        assert(s.drop_last()[b] == s[b]);
    }
}

proof fn lemma_pairs_map_index<W>(s: Seq<(u64, W)>, i: int)
    requires
        unique_keys(s),
        0 <= i < s.len(),
    ensures
        pairs_map(s).dom().contains((s[i]).0),
        pairs_map(s)[(s[i]).0] == (s[i]).1,
    decreases s.len(),
{
    if i == s.len() - 1 {
    } else {
        lemma_unique_drop_last(s);
        lemma_pairs_map_index(s.drop_last(), i);
        assert(s.drop_last()[i] == s[i]);
        assert((s[i]).0 != (s[s.len() - 1]).0);
    }
}

proof fn lemma_unique_remove_no_key<W>(s: Seq<(u64, W)>, i: int)
    requires
        unique_keys(s),
        0 <= i < s.len(),
    ensures
        unique_keys(s.remove(i)),
        !has_key(s.remove(i), (s[i]).0),
{
    let r = s.remove(i);
    assert forall|a: int, b: int| 0 <= a < r.len() && 0 <= b < r.len() && a != b implies (
    #[trigger] r[a]).0 != (#[trigger] r[b]).0 by {
        let a0: int = if a < i { a } else { a + 1 };
        let b0: int = if b < i { b } else { b + 1 };
        assert(r[a] == s[a0]);
        assert(r[b] == s[b0]);
    }
    assert forall|j: int| 0 <= j < r.len() implies (#[trigger] r[j]).0 != (s[i]).0 by {
        let j0: int = if j < i { j } else { j + 1 };
        assert(r[j] == s[j0]);
    }
}

proof fn lemma_pairs_map_remove<W>(s: Seq<(u64, W)>, i: int)
    requires
        unique_keys(s),
        0 <= i < s.len(),
    ensures
        pairs_map(s.remove(i)) == pairs_map(s).remove((s[i]).0),
    decreases s.len(),
{
    let k = (s[i]).0;
    if i == s.len() - 1 {
        assert(s.remove(i) =~= s.drop_last());
        assert(!has_key(s.drop_last(), k)) by {
            if has_key(s.drop_last(), k) {
                let j = choose|j: int|
                    0 <= j < s.drop_last().len() && (#[trigger] s.drop_last()[j]).0 == k;
                assert((s[j]).0 == k);
            }
        }
        lemma_pairs_map_dom(s.drop_last(), k);
        assert(pairs_map(s).remove(k) =~= pairs_map(s.drop_last()));
    } else {
        let dl = s.drop_last();
        lemma_unique_drop_last(s);
        lemma_pairs_map_remove(dl, i);
        assert(s.remove(i) =~= dl.remove(i).push(s.last()));
        assert(s.remove(i).drop_last() =~= dl.remove(i));
        assert(s.remove(i).last() == s.last());
        assert(k != s.last().0) by {
            assert(s.last() == s[s.len() - 1]);
        }
        assert(pairs_map(s.remove(i)) == pairs_map(dl.remove(i)).insert(s.last().0, s.last().1));
        assert(pairs_map(s.remove(i)) =~= pairs_map(s).remove(k));
    }
}

proof fn lemma_pairs_map_push<W>(s: Seq<(u64, W)>, k: u64, w: W)
    ensures
        pairs_map(s.push((k, w))) == pairs_map(s).insert(k, w),
{
    assert(s.push((k, w)).drop_last() =~= s);
    assert(s.push((k, w)).last() == (k, w));
}

proof fn lemma_unique_push<W>(s: Seq<(u64, W)>, k: u64, w: W)
    requires
        unique_keys(s),
        !has_key(s, k),
    ensures
        unique_keys(s.push((k, w))),
{
    let p = s.push((k, w));
    assert forall|a: int, b: int| 0 <= a < p.len() && 0 <= b < p.len() && a != b implies (
    #[trigger] p[a]).0 != (#[trigger] p[b]).0 by {
        if a < s.len() && b < s.len() {
            assert(p[a] == s[a]);
            assert(p[b] == s[b]);
        } else if a < s.len() {
            assert(p[a] == s[a]);
            assert((s[a]).0 != k);
        } else {
            assert(p[b] == s[b]);
            assert((s[b]).0 != k);
        }
    }
}

proof fn lemma_distinct_remove_to_set(s: Seq<u64>, i: int)
    requires
        distinct_keys(s),
        0 <= i < s.len(),
    ensures
        distinct_keys(s.remove(i)),
        s.remove(i).to_set() == s.to_set().remove(s[i]),
{
    let r = s.remove(i);
    assert forall|a: int, b: int|
        0 <= a < r.len() && 0 <= b < r.len() && a != b implies #[trigger] r[a] != #[trigger] r[b] by {
        let a0: int = if a < i { a } else { a + 1 };
        let b0: int = if b < i { b } else { b + 1 };
        assert(r[a] == s[a0]);
        assert(r[b] == s[b0]);
    }
    assert forall|x: u64| r.to_set().contains(x) == (s.to_set().contains(x) && x != s[i]) by {
        if r.contains(x) {
            let j = choose|j: int| 0 <= j < r.len() && r[j] == x;
            let j0: int = if j < i { j } else { j + 1 };
            assert(r[j] == s[j0]);
            assert(s[j0] == x);
            assert(x != s[i]);
        }
        if s.contains(x) && x != s[i] {
            let j = choose|j: int| 0 <= j < s.len() && s[j] == x;
            let j1: int = if j < i { j } else { j - 1 };
            assert(r[j1] == s[j]);
            assert(r.contains(x));
        }
    }
    assert(s.remove(i).to_set() =~= s.to_set().remove(s[i]));
}

/// What one wait pass dispatches, and what it leaves behind: for each event
/// key in order, the waker recorded under it, if any, each removed from the
/// registry as it is dispatched; a key a second event names again, or one
/// with no recorded waker, dispatches nothing.
pub open spec fn drain_spec<W>(m: Map<u64, W>, evs: Seq<u64>) -> (Seq<(u64, W)>, Map<u64, W>)
    decreases evs.len(),
{
    if evs.len() == 0 {
        (Seq::<(u64, W)>::empty(), m)
    } else if m.dom().contains(evs[0]) {
        let rest = drain_spec(m.remove(evs[0]), evs.skip(1));
        (seq![(evs[0], m[evs[0]])] + rest.0, rest.1)
    } else {
        drain_spec(m, evs.skip(1))
    }
}

/// One worker's reactor: the keys registered with the OS multiplexer, and
/// the single wake slot each key holds while an operation is suspended on
/// it. The waker type is the caller's; the reactor never looks inside it.
pub struct Reactor<W> {
    keys: Vec<u64>,
    wait: Vec<(u64, W)>,
}

impl<W> Reactor<W> {
    /// The readiness keys currently registered with the OS multiplexer.
    pub closed spec fn registered(&self) -> Set<u64> {
        self.keys@.to_set()
    }

    /// The wake registry: at most one waker per readiness key.
    pub closed spec fn waiting(&self) -> Map<u64, W> {
        pairs_map(self.wait@)
    }

    /// Well-formedness: no key is registered or holds a wake slot twice.
    pub closed spec fn wf(&self) -> bool {
        &&& distinct_keys(self.keys@)
        &&& unique_keys(self.wait@)
    }

    /// A fresh reactor: nothing registered, nothing waiting.
    pub fn new() -> (r: Self)
        ensures
            r.wf(),
            r.registered() == Set::<u64>::empty(),
            r.waiting() == Map::<u64, W>::empty(),
    {
        let r = Reactor { keys: Vec::new(), wait: Vec::new() };
        proof {
            assert(r.keys@.to_set() =~= Set::<u64>::empty());
        }
        r
    }

    fn find_key(&self, key: u64) -> (r: Option<usize>)
        ensures
            match r {
                Some(i) => i < self.keys@.len() && self.keys@[i as int] == key,
                None => !self.keys@.contains(key),
            },
    {
        let mut i: usize = 0;
        while i < self.keys.len()
            invariant
                i <= self.keys@.len(),
                forall|j: int| 0 <= j < i ==> self.keys@[j] != key,
            decreases self.keys@.len() - i,
        {
            if self.keys[i] == key {
                return Some(i);
            }
            i = i + 1;
        }
        None
    }

    fn find_wait(&self, key: u64) -> (r: Option<usize>)
        ensures
            match r {
                Some(i) => i < self.wait@.len() && (self.wait@[i as int]).0 == key,
                None => !has_key(self.wait@, key),
            },
    {
        let mut i: usize = 0;
        while i < self.wait.len()
            invariant
                i <= self.wait@.len(),
                forall|j: int| 0 <= j < i ==> (#[trigger] self.wait@[j]).0 != key,
            decreases self.wait@.len() - i,
        {
            if self.wait[i].0 == key {
                return Some(i);
            }
            i = i + 1;
        }
        None
    }

    /// Whether a key is registered with the OS multiplexer.
    pub fn is_registered(&self, key: u64) -> (r: bool)
        ensures
            r == self.registered().contains(key),
    {
        match self.find_key(key) {
            Some(i) => {
                proof {
                    assert(self.keys@.contains(key));
                }
                true
            }
            None => false,
        }
    }

    /// Whether a key currently holds a recorded waker.
    pub fn has_waiter(&self, key: u64) -> (r: bool)
        ensures
            r == self.waiting().dom().contains(key),
    {
        proof {
            lemma_pairs_map_dom(self.wait@, key);
        }
        match self.find_wait(key) {
            Some(i) => {
                proof {
                    assert(has_key(self.wait@, key));
                }
                true
            }
            None => false,
        }
    }

    /// Add a resource's key to the OS multiplexer's interest set. A key is
    /// registered at most once: resources own their handles exclusively.
    pub fn register(&mut self, key: u64)
        requires
            old(self).wf(),
            !old(self).registered().contains(key),
        ensures
            final(self).wf(),
            final(self).registered() == old(self).registered().insert(key),
            final(self).waiting() == old(self).waiting(),
    {
        self.keys.push(key);
        proof {
            let s0 = old(self).keys@;
            let s1 = self.keys@;
            assert forall|x: u64| s1.to_set().contains(x) == (s0.to_set().contains(x) || x == key)
            by {
                if s1.contains(x) {
                    let j = choose|j: int| 0 <= j < s1.len() && s1[j] == x;
                    if j < s0.len() {
                        assert(s0[j] == x);
                    }
                }
                if s0.contains(x) {
                    let j = choose|j: int| 0 <= j < s0.len() && s0[j] == x;
                    assert(s1[j] == x);
                }
                if x == key {
                    assert(s1[s0.len() as int] == key);
                }
            }
            assert(s1.to_set() =~= s0.to_set().insert(key));
            assert forall|a: int, b: int|
                0 <= a < s1.len() && 0 <= b < s1.len() && a != b implies #[trigger] s1[a]
                != #[trigger] s1[b] by {
                if a < s0.len() && b < s0.len() {
                } else if a < s0.len() {
                    assert(s0.contains(s0[a]));
                } else {
                    assert(s0.contains(s0[b]));
                }
            }
        }
    }

    /// Remove a resource's key from the OS multiplexer's interest set; after
    /// this, no readiness event names the key, so a waker still recorded
    /// under it is never again dispatched. Called exactly once per resource,
    /// at its destruction.
    pub fn deregister(&mut self, key: u64)
        requires
            old(self).wf(),
            old(self).registered().contains(key),
        ensures
            final(self).wf(),
            final(self).registered() == old(self).registered().remove(key),
            final(self).waiting() == old(self).waiting(),
    {
        match self.find_key(key) {
            Some(i) => {
                proof {
                    lemma_distinct_remove_to_set(self.keys@, i as int);
                }
                self.keys.remove(i);
            }
            None => {
                proof {
                    assert(old(self).keys@.contains(key));
                    assert(false);
                }
            }
        }
    }

    /// Record the waker interested in a key, overwriting whatever waker the
    /// key held before: the registry is a single wake slot per key, not a
    /// queue. A suspend point calls this immediately before returning its
    /// not-ready result.
    pub fn record_wait(&mut self, key: u64, waker: W)
        requires
            old(self).wf(),
        ensures
            final(self).wf(),
            final(self).registered() == old(self).registered(),
            final(self).waiting() == old(self).waiting().insert(key, waker),
    {
        match self.find_wait(key) {
            Some(i) => {
                proof {
                    lemma_pairs_map_remove(self.wait@, i as int);
                    lemma_unique_remove_no_key(self.wait@, i as int);
                }
                self.wait.remove(i);
            }
            None => {
                proof {
                    lemma_pairs_map_dom(self.wait@, key);
                }
            }
        }
        let ghost mid = self.wait@;
        self.wait.push((key, waker));
        proof {
            lemma_pairs_map_push(mid, key, waker);
            lemma_unique_push(mid, key, waker);
            assert(!has_key(mid, key));
            assert(final(self).waiting() =~= old(self).waiting().insert(key, waker));
        }
    }

    /// Take the waker recorded under a key out of the registry, if one is
    /// there: what the wait loop does for each readiness event before
    /// invoking the waker it got.
    pub fn take_waiter(&mut self, key: u64) -> (r: Option<W>)
        requires
            old(self).wf(),
        ensures
            final(self).wf(),
            final(self).registered() == old(self).registered(),
            old(self).waiting().dom().contains(key) ==> r == Some(old(self).waiting()[key])
                && final(self).waiting() == old(self).waiting().remove(key),
            !old(self).waiting().dom().contains(key) ==> r is None && final(self).waiting()
                == old(self).waiting(),
    {
        proof {
            lemma_pairs_map_dom(self.wait@, key);
        }
        match self.find_wait(key) {
            Some(i) => {
                proof {
                    assert(has_key(self.wait@, key));
                    lemma_pairs_map_index(self.wait@, i as int);
                    lemma_pairs_map_remove(self.wait@, i as int);
                    lemma_unique_remove_no_key(self.wait@, i as int);
                }
                let p = self.wait.remove(i);
                Some(p.1)
            }
            None => None,
        }
    }

    /// Serve one batch of readiness events: for each event key in order,
    /// take the recorded waker out of the registry and hand it back, paired
    /// with its key, for the caller to invoke.
    pub fn drain(&mut self, events: &Vec<u64>) -> (fired: Vec<(u64, W)>)
        requires
            old(self).wf(),
        ensures
            final(self).wf(),
            final(self).registered() == old(self).registered(),
            fired@ == drain_spec(old(self).waiting(), events@).0,
            final(self).waiting() == drain_spec(old(self).waiting(), events@).1,
    {
        let ghost m0 = old(self).waiting();
        let ghost r0 = old(self).registered();
        let mut fired: Vec<(u64, W)> = Vec::new();
        let mut i: usize = 0;
        proof {
            assert(events@.skip(0) =~= events@);
            assert(Seq::<(u64, W)>::empty() + drain_spec(m0, events@).0 =~= drain_spec(
                m0,
                events@,
            ).0);
        }
        while i < events.len()
            invariant
                self.wf(),
                i <= events@.len(),
                self.registered() == r0,
                drain_spec(m0, events@).0 == fired@ + drain_spec(
                    self.waiting(),
                    events@.skip(i as int),
                ).0,
                drain_spec(m0, events@).1 == drain_spec(self.waiting(), events@.skip(i as int)).1,
            decreases events@.len() - i,
        {
            let ghost pre = self.waiting();
            let ghost evs_i = events@.skip(i as int);
            let k = events[i];
            proof {
                assert(evs_i[0] == k);
                assert(evs_i.skip(1) =~= events@.skip(i as int + 1));
            }
            let r = self.take_waiter(k);
            let ghost fired_pre = fired@;
            match r {
                Some(w) => {
                    fired.push((k, w));
                    proof {
                        assert(pre.dom().contains(k));
                        assert(w == pre[k]);
                        assert(fired@ =~= fired_pre + seq![(k, w)]);
                        assert(fired_pre + (seq![(k, pre[k])] + drain_spec(
                            pre.remove(k),
                            evs_i.skip(1),
                        ).0) =~= fired@ + drain_spec(pre.remove(k), evs_i.skip(1)).0);
                    }
                }
                None => {
                    proof {
                        assert(!pre.dom().contains(k));
                    }
                }
            }
            i = i + 1;
        }
        proof {
            assert(events@.skip(events@.len() as int) =~= Seq::<u64>::empty());
            assert(fired@ + Seq::<(u64, W)>::empty() =~= fired@);
        }
        fired
    }
}

/// Overwrite law of the wake registry: when a waker is recorded for a key
/// that already holds one and a matching readiness event then arrives, the
/// one dispatch that event makes carries the latest registrant, and the
/// earlier one is gone without ever being dispatched.
pub proof fn lemma_latest_registrant<W>(m: Map<u64, W>, k: u64, w1: W, w2: W)
    ensures
        drain_spec(m.insert(k, w1).insert(k, w2), seq![k]).0 == seq![(k, w2)],
        !drain_spec(m.insert(k, w1).insert(k, w2), seq![k]).1.dom().contains(k),
{
    let m2 = m.insert(k, w1).insert(k, w2);
    let evs: Seq<u64> = seq![k];
    assert(evs.len() == 1);
    assert(evs[0] == k);
    assert(m2.dom().contains(k));
    assert(m2[k] == w2);
    let tail = evs.skip(1);
    assert(tail.len() == 0);
    assert(drain_spec(m2.remove(k), tail).0 =~= Seq::<(u64, W)>::empty());
    assert(drain_spec(m2.remove(k), tail).1 == m2.remove(k));
    assert(drain_spec(m2, evs).0 =~= seq![(k, m2[k])] + drain_spec(m2.remove(k), tail).0);
    assert(seq![(k, w2)] + Seq::<(u64, W)>::empty() =~= seq![(k, w2)]);
    assert(drain_spec(m2, evs).0 =~= seq![(k, w2)]);
    assert(!m2.remove(k).dom().contains(k));
}

/// No stale wake after deregistration: once a key is out of the registered
/// set, an event batch drawn from the registered keys cannot name it, so a
/// drain of that batch neither dispatches the waker still recorded under
/// the key nor disturbs its slot.
pub proof fn lemma_no_stale_wake<W>(m: Map<u64, W>, evs: Seq<u64>, regd: Set<u64>, k: u64)
    requires
        forall|i: int| 0 <= i < evs.len() ==> regd.contains(#[trigger] evs[i]),
        !regd.contains(k),
    ensures
        forall|i: int|
            0 <= i < drain_spec(m, evs).0.len() ==> (#[trigger] drain_spec(m, evs).0[i]).0 != k,
        drain_spec(m, evs).1.dom().contains(k) == m.dom().contains(k),
        m.dom().contains(k) ==> drain_spec(m, evs).1[k] == m[k],
    decreases evs.len(),
{
    if evs.len() == 0 {
    } else {
        let e = evs[0];
        assert(regd.contains(e));
        assert(e != k);
        assert forall|i: int| 0 <= i < evs.skip(1).len() implies regd.contains(
            #[trigger] evs.skip(1)[i],
        ) by {
            assert(evs.skip(1)[i] == evs[i + 1]);
        }
        if m.dom().contains(e) {
            lemma_no_stale_wake(m.remove(e), evs.skip(1), regd, k);
            let rest = drain_spec(m.remove(e), evs.skip(1));
            assert forall|i: int| 0 <= i < drain_spec(m, evs).0.len() implies (
            #[trigger] drain_spec(m, evs).0[i]).0 != k by {
                if i == 0 {
                    assert(drain_spec(m, evs).0[0] == (e, m[e]));
                } else {
                    assert(drain_spec(m, evs).0[i] == rest.0[i - 1]);
                }
            }
        } else {
            lemma_no_stale_wake(m, evs.skip(1), regd, k);
        }
    }
}

} // verus!
