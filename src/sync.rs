//! The bookkeeping behind the waiting primitives. Locks, condition
//! variables and task wakers stay with the caller; what to record and whom
//! to wake is decided here.
use vstd::prelude::*;

verus! {

/// One registered waiter: who it is and whether a notification is pending for it.
#[derive(Clone, Copy, Debug, PartialEq, Eq, Structural)]
pub struct Waiter {
    pub id: u64,
    pub ticked: bool,
}

/// The position of the entry for `id` in `s`, if there is one.
pub open spec fn find_spec(s: Seq<Waiter>, id: u64) -> Option<int> {
    if exists|i: int| 0 <= i < s.len() && s[i].id == id {
        Some(choose|i: int| 0 <= i < s.len() && s[i].id == id)
    } else {
        None
    }
}

/// No two entries share an id.
pub open spec fn ids_unique(s: Seq<Waiter>) -> bool {
    forall|i: int, j: int| 0 <= i < s.len() && 0 <= j < s.len() && i != j ==> s[i].id != s[j].id
}

/// One poll by `id` while the bound context reads `done`: the new list and
/// whether the poll resolves. A done context resolves at once; an entry with
/// a pending notification is consumed and resolves; otherwise the poller is
/// registered (once) and waits.
pub open spec fn poll_spec(s: Seq<Waiter>, id: u64, done: bool) -> (Seq<Waiter>, bool) {
    if done {
        (s, true)
    } else {
        match find_spec(s, id) {
            Some(i) => if s[i].ticked {
                (s.remove(i), true)
            } else {
                (s, false)
            },
            None => (s.push(Waiter { id, ticked: false }), false),
        }
    }
}

/// The list after notifying its earliest entry.
pub open spec fn notify_one_spec(s: Seq<Waiter>) -> Seq<Waiter> {
    if s.len() > 0 {
        s.update(0, Waiter { id: s[0].id, ticked: true })
    } else {
        s
    }
}

/// The list after notifying every entry.
pub open spec fn notify_all_spec(s: Seq<Waiter>) -> Seq<Waiter> {
    s.map_values(|w: Waiter| Waiter { id: w.id, ticked: true })
}

/// The list after `id` left it.
pub open spec fn remove_spec(s: Seq<Waiter>, id: u64) -> Seq<Waiter> {
    match find_spec(s, id) {
        Some(i) => s.remove(i),
        None => s,
    }
}

/// The waiters registered on one notification source, earliest first.
pub struct WaiterList {
    items: Vec<Waiter>,
}

impl View for WaiterList {
    type V = Seq<Waiter>;

    closed spec fn view(&self) -> Seq<Waiter> {
        self.items@
    }
}

impl WaiterList {
    pub open spec fn wf(&self) -> bool {
        ids_unique(self@)
    }

    pub fn new() -> (r: Self)
        ensures
            r.wf(),
            r@ == Seq::<Waiter>::empty(),
    {
        WaiterList { items: Vec::new() }
    }

    pub fn len(&self) -> (r: usize)
        ensures
            r == self@.len(),
    {
        self.items.len()
    }

    fn find(&self, id: u64) -> (r: Option<usize>)
        ensures
            r matches Some(i) ==> i < self@.len() && self@[i as int].id == id,
            r is None ==> find_spec(self@, id) is None,
            self.wf() && r is Some ==> find_spec(self@, id) == Some(r->Some_0 as int),
    {
        let mut i: usize = 0;
        while i < self.items.len()
            invariant
                0 <= i <= self@.len(),
                forall|j: int| 0 <= j < i ==> self@[j].id != id,
            decreases self@.len() - i,
        {
            if self.items[i].id == id {
                proof {
                    let k = choose|k: int| 0 <= k < self@.len() && self@[k].id == id;
                    assert(0 <= k < self@.len() && self@[k].id == id);
                    if self.wf() {
                        assert(k == i);
                    }
                }
                assert(exists|k: int| 0 <= k < self@.len() && self@[k].id == id);
                return Some(i);
            }
            i = i + 1;
        }
        None
    }

    /// One poll by `id`; see [`poll_spec`]. Returns whether it resolves.
    pub fn poll(&mut self, id: u64, done: bool) -> (r: bool)
        requires
            old(self).wf(),
        ensures
            final(self).wf(),
            (final(self)@, r) == poll_spec(old(self)@, id, done),
    {
        if done {
            return true;
        }
        match self.find(id) {
            Some(i) => {
                if self.items[i].ticked {
                    proof {
                        let k = choose|k: int| 0 <= k < self@.len() && self@[k].id == id;
                        assert(k == i);
                    }
                    self.items.remove(i);
                    proof {
                        let o = old(self)@;
                        assert(self@ == o.remove(i as int));
                        assert forall|a: int, b: int|
                            0 <= a < self@.len() && 0 <= b < self@.len() && a != b implies self@[a].id != self@[b].id by {
                            let a2 = if a < i { a } else { a + 1 };
                            let b2 = if b < i { b } else { b + 1 };
                            assert(self@[a] == o[a2]);
                            assert(self@[b] == o[b2]);
                        }
                    }
                    true
                } else {
                    proof {
                        let k = choose|k: int| 0 <= k < self@.len() && self@[k].id == id;
                        assert(k == i);
                    }
                    false
                }
            },
            None => {
                let ghost o = self@;
                self.items.push(Waiter { id, ticked: false });
                proof {
                    assert forall|a: int, b: int|
                        0 <= a < self@.len() && 0 <= b < self@.len() && a != b implies self@[a].id != self@[b].id by {
                        if a == o.len() {
                            assert(!(0 <= b < o.len() && o[b].id == id));
                        } else if b == o.len() {
                            assert(!(0 <= a < o.len() && o[a].id == id));
                        }
                    }
                }
                false
            },
        }
    }

    /// Marks the earliest entry as notified and returns its id, to be woken.
    pub fn notify_one(&mut self) -> (r: Option<u64>)
        requires
            old(self).wf(),
        ensures
            final(self).wf(),
            final(self)@ == notify_one_spec(old(self)@),
            old(self)@.len() == 0 ==> r is None,
            old(self)@.len() > 0 ==> r == Some(old(self)@[0].id),
    {
        if self.items.len() == 0 {
            return None;
        }
        let id = self.items[0].id;
        self.items.set(0, Waiter { id, ticked: true });
        Some(id)
    }

    /// Marks every entry as notified and returns their ids, to be woken.
    pub fn notify_all(&mut self) -> (r: Vec<u64>)
        requires
            old(self).wf(),
        ensures
            final(self).wf(),
            final(self)@ == notify_all_spec(old(self)@),
            r@ == old(self)@.map_values(|w: Waiter| w.id),
    {
        let n = self.items.len();
        let mut ids: Vec<u64> = Vec::new();
        let mut i: usize = 0;
        while i < n
            invariant
                n == self@.len(),
                n == old(self)@.len(),
                0 <= i <= n,
                forall|k: int| 0 <= k < i ==> #[trigger] self@[k] == (Waiter { id: old(self)@[k].id, ticked: true }),
                forall|k: int| i <= k < n ==> #[trigger] self@[k] == old(self)@[k],
                ids@ == old(self)@.subrange(0, i as int).map_values(|w: Waiter| w.id),
            decreases n - i,
        {
            let id = self.items[i].id;
            self.items.set(i, Waiter { id, ticked: true });
            ids.push(id);
            assert(old(self)@.subrange(0, i + 1).map_values(|w: Waiter| w.id) =~= old(self)@.subrange(0, i as int).map_values(|w: Waiter| w.id).push(id));
            i = i + 1;
        }
        assert(self@ =~= notify_all_spec(old(self)@));
        assert(old(self)@.subrange(0, n as int) =~= old(self)@);
        ids
    }

    /// Takes `id` off the list, as a waiter that is dropped must.
    pub fn remove(&mut self, id: u64)
        requires
            old(self).wf(),
        ensures
            final(self).wf(),
            final(self)@ == remove_spec(old(self)@, id),
    {
        match self.find(id) {
            Some(i) => {
                proof {
                    let k = choose|k: int| 0 <= k < self@.len() && self@[k].id == id;
                    assert(k == i);
                }
                self.items.remove(i);
                proof {
                    let o = old(self)@;
                    assert forall|a: int, b: int|
                        0 <= a < self@.len() && 0 <= b < self@.len() && a != b implies self@[a].id != self@[b].id by {
                        let a2 = if a < i { a } else { a + 1 };
                        let b2 = if b < i { b } else { b + 1 };
                        assert(self@[a] == o[a2]);
                        assert(self@[b] == o[b2]);
                    }
                }
            },
            None => {},
        }
    }
}

/// Two tasks `a` and `b` that poll the same fresh source both wait. After
/// one notification exactly one of them resolves on its next poll; after a
/// notification of all, both do; once the bound context is done every poll
/// resolves at once.
pub proof fn lemma_fairness(a: u64, b: u64)
    requires
        a != b,
    ensures
        ({
            let s0 = Seq::<Waiter>::empty();
            let (s1, ra) = poll_spec(s0, a, false);
            let (s2, rb) = poll_spec(s1, b, false);
            let one = notify_one_spec(s2);
            let (t1, ra1) = poll_spec(one, a, false);
            let (t2, rb1) = poll_spec(t1, b, false);
            let all = notify_all_spec(s2);
            let (u1, ra2) = poll_spec(all, a, false);
            let (u2, rb2) = poll_spec(u1, b, false);
            &&& !ra && !rb
            &&& ra1 != rb1
            &&& ra2 && rb2
        }),
        forall|s: Seq<Waiter>, id: u64| #[trigger] poll_spec(s, id, true) == (s, true),
{
    let s0 = Seq::<Waiter>::empty();
    let s1 = s0.push(Waiter { id: a, ticked: false });
    assert(find_spec(s0, a) is None);
    assert(poll_spec(s0, a, false).0 == s1);
    assert(!(exists|i: int| 0 <= i < s1.len() && s1[i].id == b) ) by {
        assert forall|i: int| 0 <= i < s1.len() implies s1[i].id != b by {
            assert(s1[i].id == a);
        }
    }
    let s2 = s1.push(Waiter { id: b, ticked: false });
    assert(poll_spec(s1, b, false).0 == s2);
    assert(s2[0].id == a && s2[1].id == b);
    // one notification
    let one = notify_one_spec(s2);
    assert(one[0] == Waiter { id: a, ticked: true });
    assert(one[1] == Waiter { id: b, ticked: false });
    assert(find_spec(one, a) == Some(0int)) by {
        assert(0 <= 0 < one.len() && one[0].id == a);
        let k = choose|k: int| 0 <= k < one.len() && one[k].id == a;
        assert(k == 0) by {
            if k == 1 {
                assert(one[1].id == b);
            }
        }
    }
    let t1 = one.remove(0);
    assert(t1.len() == 1 && t1[0] == one[1]);
    assert(find_spec(t1, b) == Some(0int)) by {
        assert(0 <= 0 < t1.len() && t1[0].id == b);
    }
    // notify all
    let all = notify_all_spec(s2);
    assert(all[0] == Waiter { id: a, ticked: true });
    assert(all[1] == Waiter { id: b, ticked: true });
    assert(find_spec(all, a) == Some(0int)) by {
        assert(0 <= 0 < all.len() && all[0].id == a);
        let k = choose|k: int| 0 <= k < all.len() && all[k].id == a;
        assert(k == 0) by {
            if k == 1 {
                assert(all[1].id == b);
            }
        }
    }
    let u1 = all.remove(0);
    assert(u1.len() == 1 && u1[0] == all[1]);
    assert(find_spec(u1, b) == Some(0int)) by {
        assert(0 <= 0 < u1.len() && u1[0].id == b);
    }
}

/// What a thread blocked on a condition variable does after waking.
#[derive(Clone, Copy, Debug, PartialEq, Eq, Structural)]
pub enum WaitStep {
    /// The notification arrived: the wait ends successfully.
    Finished,
    /// The bound context is done: the wait ends with an error.
    Cancelled,
    /// Neither happened: wait again, or, after a bounded wait, report a timeout.
    Sleep,
}

/// The decision of a blocking wait, given whether the notification flag is
/// set and whether the bound context reads done. A done context wins.
pub fn wait_step(signaled: bool, done: bool) -> (r: WaitStep)
    ensures
        done ==> r == WaitStep::Cancelled,
        !done && signaled ==> r == WaitStep::Finished,
        !done && !signaled ==> r == WaitStep::Sleep,
{
    if done {
        WaitStep::Cancelled
    } else if signaled {
        WaitStep::Finished
    } else {
        WaitStep::Sleep
    }
}

} // verus!
