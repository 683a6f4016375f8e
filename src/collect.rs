//! Gathering the results of tests that finish in any order into the order in
//! which their packages were discovered, with a running completion count.
use vstd::prelude::*;
use crate::error::Error;
use crate::protocol::{is_unresolved, RevDep, TestResult, TestResultData};

verus! {

/// How many slots hold a result.
pub open spec fn filled(slots: Seq<Option<TestResult>>) -> nat
    decreases slots.len(),
{
    if slots.len() == 0 {
        0
    } else {
        filled(slots.drop_last()) + if slots.last() is Some {
            1nat
        } else {
            0nat
        }
    }
}

proof fn lemma_filled_update(slots: Seq<Option<TestResult>>, i: int, t: TestResult)
    requires
        0 <= i < slots.len(),
        slots[i] is None,
    ensures
        filled(slots.update(i, Some(t))) == filled(slots) + 1,
        filled(slots) < slots.len(),
    decreases slots.len(),
{
    let s2 = slots.update(i, Some(t));
    if i == slots.len() - 1 {
        assert(s2.drop_last() =~= slots.drop_last());
        lemma_filled_le(slots.drop_last());
    } else {
        assert(s2.drop_last() =~= slots.drop_last().update(i, Some(t)));
        lemma_filled_update(slots.drop_last(), i, t);
    }
}

proof fn lemma_filled_le(slots: Seq<Option<TestResult>>)
    ensures
        filled(slots) <= slots.len(),
    decreases slots.len(),
{
    if slots.len() > 0 {
        lemma_filled_le(slots.drop_last());
    }
}

proof fn lemma_filled_empty(n: nat)
    ensures
        filled(Seq::new(n, |k: int| None::<TestResult>)) == 0,
    decreases n,
{
    if n > 0 {
        assert(Seq::new(n, |k: int| None::<TestResult>).drop_last() =~= Seq::new(
            (n - 1) as nat,
            |k: int| None::<TestResult>,
        ));
        lemma_filled_empty((n - 1) as nat);
    }
}

/// One slot per discovered package, in discovery order.
pub struct RunCollector {
    pub names: Vec<String>,
    pub slots: Vec<Option<TestResult>>,
    /// How many results have come in.
    pub completed: usize,
    /// The (position, result) pairs recorded so far, in the order they came.
    pub events: Ghost<Seq<(int, TestResult)>>,
}

/// The positions of `events` are distinct and below `n`.
pub open spec fn distinct_positions(events: Seq<(int, TestResult)>, n: nat) -> bool {
    &&& forall|j: int| 0 <= j < events.len() ==> 0 <= #[trigger] events[j].0 < n
    &&& forall|j: int, k: int|
        0 <= j < events.len() && 0 <= k < events.len() && j != k ==> events[j].0 != events[k].0
}

impl RunCollector {
    pub open spec fn wf(&self) -> bool {
        &&& self.names@.len() == self.slots@.len()
        &&& self.completed == filled(self.slots@)
        &&& distinct_positions(self.events@, self.slots@.len())
        &&& self.slots@ == record_all(Seq::new(self.slots@.len(), |k: int| None::<TestResult>), self.events@)
        &&& forall|i: int|
            0 <= i < self.slots@.len() && (#[trigger] self.slots@[i]) is Some
                ==> self.slots@[i]->0.rev_dep.name@ == self.names@[i]@
    }

    /// A collector for the packages `names`, in that order, with no result
    /// yet.
    pub fn new(names: Vec<String>) -> (r: RunCollector)
        ensures
            r.wf(),
            r.names == names,
            r.slots@ == Seq::new(names@.len(), |k: int| None::<TestResult>),
            r.completed == 0,
            r.events@ == Seq::<(int, TestResult)>::empty(),
    {
        let mut slots: Vec<Option<TestResult>> = Vec::new();
        let mut i: usize = 0;
        while i < names.len()
            invariant
                i <= names@.len(),
                slots@ == Seq::new(i as nat, |k: int| None::<TestResult>),
            decreases names.len() - i,
        {
            slots.push(None);
            i += 1;
            assert(slots@ =~= Seq::new(i as nat, |k: int| None::<TestResult>));
        }
        proof {
            lemma_filled_empty(names@.len());
        }
        RunCollector { names, slots, completed: 0, events: Ghost(Seq::empty()) }
    }

    pub fn total(&self) -> (r: usize)
        ensures
            r == self.names@.len(),
    {
        self.names.len()
    }

    /// Stores the result of the package at discovery position `index` and
    /// returns how many results have come in, this one included.
    pub fn record(&mut self, index: usize, result: TestResult) -> (n: usize)
        requires
            old(self).wf(),
            index < old(self).slots@.len(),
            old(self).slots@[index as int] is None,
            result.rev_dep.name@ == old(self).names@[index as int]@,
        ensures
            final(self).wf(),
            final(self).names == old(self).names,
            final(self).slots@ == old(self).slots@.update(index as int, Some(result)),
            final(self).completed == old(self).completed + 1,
            n == final(self).completed,
            final(self).events@ == old(self).events@.push((index as int, result)),
    {
        let len = self.slots.len();
        let ghost old_events = self.events@;
        let ghost e = (index as int, result);
        proof {
            lemma_filled_update(self.slots@, index as int, result);
            assert(self.completed < len);
            lemma_order_independent(len as nat, old_events);
            assert forall|j: int| 0 <= j < old_events.len() implies old_events[j].0 != index as int by {
                assert(self.slots@[old_events[j].0] is Some);
            }
            assert(old_events.push(e).drop_last() =~= old_events);
            assert(old_events.push(e).last() == e);
        }
        self.slots.set(index, Some(result));
        self.completed = self.completed + 1;
        self.events = Ghost(old_events.push(e));
        proof {
            let ev = self.events@;
            assert forall|j: int, k: int|
                0 <= j < ev.len() && 0 <= k < ev.len() && j != k implies ev[j].0 != ev[k].0 by {
                if j < old_events.len() && k < old_events.len() {
                    assert(ev[j] == old_events[j]);
                    assert(ev[k] == old_events[k]);
                }
            }
            assert forall|j: int| 0 <= j < ev.len() implies 0 <= #[trigger] ev[j].0 < len by {
                if j < old_events.len() {
                    assert(ev[j] == old_events[j]);
                }
            }
        }
        self.completed
    }

    /// The results in discovery order. A package whose result never came in
    /// gets an `Error` verdict for the lost worker.
    pub fn finish(self) -> (r: Vec<TestResult>)
        requires
            self.wf(),
        ensures
            r@.len() == self.slots@.len(),
            forall|i: int|
                0 <= i < r@.len() ==> match #[trigger] self.slots@[i] {
                    Some(t) => r@[i] == t,
                    None => is_unresolved(r@[i].rev_dep, self.names@[i]@) && r@[i].data
                        == TestResultData::Error(Error::RecvError),
                },
            forall|i: int| 0 <= i < r@.len() ==> (#[trigger] r@[i]).rev_dep.name@ == self.names@[i]@,
            forall|j: int|
                0 <= j < self.events@.len() ==> r@[#[trigger] self.events@[j].0] == self.events@[j].1,
    {
        proof {
            lemma_order_independent(self.slots@.len(), self.events@);
        }
        let ghost names0 = self.names@;
        let ghost slots0 = self.slots@;
        let n = self.slots.len();
        let mut names = self.names;
        let mut slots = self.slots;
        let mut out: Vec<TestResult> = Vec::new();
        let mut i: usize = 0;
        while i < n
            invariant
                n == slots0.len(),
                names0.len() == n,
                i <= n,
                names@ == names0.subrange(i as int, n as int),
                slots@ == slots0.subrange(i as int, n as int),
                out@.len() == i,
                forall|k: int|
                    0 <= k < i ==> match #[trigger] slots0[k] {
                        Some(t) => out@[k] == t,
                        None => is_unresolved(out@[k].rev_dep, names0[k]@) && out@[k].data
                            == TestResultData::Error(Error::RecvError),
                    },
            decreases n - i,
        {
            let name = names.remove(0);
            let slot = slots.remove(0);
            assert(slot == slots0[i as int]);
            assert(name == names0[i as int]);
            match slot {
                Some(t) => out.push(t),
                None => out.push(TestResult::error(RevDep::unresolved(name), Error::RecvError)),
            }
            i += 1;
            assert(names@ =~= names0.subrange(i as int, n as int));
            assert(slots@ =~= slots0.subrange(i as int, n as int));
        }
        proof {
            assert forall|k: int| 0 <= k < out@.len() implies (#[trigger] out@[k]).rev_dep.name@
                == names0[k]@ by {
                if slots0[k] is Some {
                    assert(slots0[k]->0.rev_dep.name@ == names0[k]@);
                }
            }
        }
        out
    }
}

/// The slots after recording `events` (discovery position, result) in
/// the order given, starting from `slots`.
pub open spec fn record_all(
    slots: Seq<Option<TestResult>>,
    events: Seq<(int, TestResult)>,
) -> Seq<Option<TestResult>>
    decreases events.len(),
{
    if events.len() == 0 {
        slots
    } else {
        let last = events.last();
        record_all(slots, events.drop_last()).update(last.0, Some(last.1))
    }
}

/// Whatever order the results come in, each lands at its package's
/// discovery position: when the positions are distinct and in range, the
/// slot of each recorded position holds that position's result.
pub proof fn lemma_order_independent(n: nat, events: Seq<(int, TestResult)>)
    requires
        forall|j: int| 0 <= j < events.len() ==> 0 <= #[trigger] events[j].0 < n,
        forall|j: int, k: int|
            0 <= j < events.len() && 0 <= k < events.len() && j != k ==> events[j].0 != events[k].0,
    ensures
        record_all(Seq::new(n, |k: int| None::<TestResult>), events).len() == n,
        forall|j: int|
            0 <= j < events.len() ==> record_all(Seq::new(n, |k: int| None::<TestResult>), events)[#[trigger] events[j].0]
                == Some(events[j].1),
    decreases events.len(),
{
    if events.len() > 0 {
        let rest = events.drop_last();
        lemma_order_independent(n, rest);
        assert forall|j: int| 0 <= j < events.len() implies record_all(
            Seq::new(n, |k: int| None::<TestResult>),
            events,
        )[#[trigger] events[j].0] == Some(events[j].1) by {
            if j < events.len() - 1 {
                assert(rest[j] == events[j]);
                assert(events[j].0 != events[events.len() - 1].0);
            }
        }
    }
}

} // verus!
