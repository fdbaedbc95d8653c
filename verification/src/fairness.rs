//! Admission: who may be in flight, and how many at once.
use vstd::multiset::Multiset;
use vstd::prelude::*;

use crate::text::{owned, same};

verus! {

/// The number of requests that one client identity has in flight.
pub struct ActiveIdentity {
    pub identity: String,
    pub count: u64,
}

/// Caps how many requests each client identity may have in flight at once.
pub struct IdentityFairnessLimiter {
    max_per_identity: Option<u64>,
    active: Vec<ActiveIdentity>,
    admitted_total: u64,
    saturation_total: u64,
}

/// What the limiter reports of itself.
#[derive(Debug, Clone, Copy, PartialEq, Eq, Structural)]
pub struct IdentityFairnessSnapshot {
    pub enabled: bool,
    pub max_per_identity: Option<u64>,
    pub active_in_flight: u64,
    pub tracked_identities: usize,
    pub admitted_total: u64,
    pub saturation_total: u64,
}

/// A slot held by one request of one identity; it is given back by `release`.
pub struct IdentityAdmission {
    identity: String,
}

impl IdentityAdmission {
    pub closed spec fn view(&self) -> Seq<char> {
        self.identity@
    }
}

spec fn known(active: Seq<ActiveIdentity>, id: Seq<char>) -> bool {
    exists|i: int| 0 <= i < active.len() && #[trigger] active[i].identity@ == id
}

spec fn place(active: Seq<ActiveIdentity>, id: Seq<char>) -> int {
    choose|i: int| 0 <= i < active.len() && #[trigger] active[i].identity@ == id
}

spec fn counts(active: Seq<ActiveIdentity>) -> Map<Seq<char>, u64> {
    Map::new(|id: Seq<char>| known(active, id), |id: Seq<char>| active[place(active, id)].count)
}

spec fn distinct(active: Seq<ActiveIdentity>) -> bool {
    forall|i: int, j: int|
        0 <= i < active.len() && 0 <= j < active.len() && i != j ==> #[trigger] active[i].identity@
            != #[trigger] active[j].identity@
}

spec fn total(active: Seq<ActiveIdentity>) -> nat
    decreases active.len(),
{
    if active.len() == 0 {
        0
    } else {
        total(active.drop_last()) + active.last().count as nat
    }
}

proof fn lemma_counts_at(active: Seq<ActiveIdentity>, i: int)
    requires
        distinct(active),
        0 <= i < active.len(),
    ensures
        counts(active).contains_key(active[i].identity@),
        counts(active)[active[i].identity@] == active[i].count,
{
    let id = active[i].identity@;
    assert(known(active, id));
    let p = place(active, id);
    assert(active[p].identity@ == id);
    if p != i {
        assert(active[p].identity@ != active[i].identity@);
    }
}

/// The slots that `id` holds in `m`.
pub open spec fn held(m: Map<Seq<char>, u64>, id: Seq<char>) -> u64 {
    if m.contains_key(id) {
        m[id]
    } else {
        0
    }
}

/// `m` with one more slot for `id`.
pub open spec fn slot_taken(m: Map<Seq<char>, u64>, id: Seq<char>) -> Map<Seq<char>, u64> {
    m.insert(id, (held(m, id) + 1) as u64)
}

/// `m` with one slot of `id` given back, and `id` forgotten with its last slot.
pub open spec fn slot_returned(m: Map<Seq<char>, u64>, id: Seq<char>) -> Map<Seq<char>, u64> {
    if held(m, id) > 1 {
        m.insert(id, (held(m, id) - 1) as u64)
    } else {
        m.remove(id)
    }
}

/// Giving back the slot just taken leaves every identity where it was.
pub proof fn identity_slot_round_trip(m: Map<Seq<char>, u64>, id: Seq<char>)
    requires
        m.contains_key(id) ==> 1 <= m[id] < u64::MAX,
    ensures
        slot_returned(slot_taken(m, id), id) == m,
        forall|other: Seq<char>| other != id ==> held(slot_taken(m, id), other) == held(m, other),
{
    assert(slot_returned(slot_taken(m, id), id) =~= m);
}

/// `m` after one more request of `id` asked for a slot, of which each identity has `max`.
pub open spec fn slot_asked(m: Map<Seq<char>, u64>, max: u64, id: Seq<char>) -> Map<
    Seq<char>,
    u64,
> {
    if held(m, id) >= max {
        m
    } else {
        slot_taken(m, id)
    }
}

/// The slots that are held in `m`, over all identities.
pub open spec fn slots(m: Map<Seq<char>, u64>) -> nat
    decreases m.dom().len(),
{
    if m.dom().finite() && m.dom().len() > 0 {
        let id = m.dom().choose();
        slots(m.remove(id)) + m[id] as nat
    } else {
        0
    }
}

proof fn lemma_slots_without(m: Map<Seq<char>, u64>, id: Seq<char>)
    requires
        m.dom().finite(),
        m.contains_key(id),
    ensures
        slots(m) == slots(m.remove(id)) + m[id],
    decreases m.dom().len(),
{
    let c = m.dom().choose();
    assert(m.dom().contains(id));
    assert(m.dom().len() > 0);
    assert(m.dom().contains(c));
    if c != id {
        lemma_slots_without(m.remove(c), id);
        lemma_slots_without(m.remove(id), c);
        assert(m.remove(c).remove(id) =~= m.remove(id).remove(c));
    }
}

proof fn lemma_slots_insert(m: Map<Seq<char>, u64>, id: Seq<char>, n: u64)
    requires
        m.dom().finite(),
    ensures
        m.insert(id, n).dom().finite(),
        slots(m.insert(id, n)) == slots(m) - held(m, id) + n,
{
    assert(m.insert(id, n).dom() =~= m.dom().insert(id));
    lemma_slots_without(m.insert(id, n), id);
    if m.contains_key(id) {
        lemma_slots_without(m, id);
        assert(m.insert(id, n).remove(id) =~= m.remove(id));
    } else {
        assert(m.insert(id, n).remove(id) =~= m);
    }
}

proof fn lemma_no_slots()
    ensures
        slots(Map::<Seq<char>, u64>::empty()) == 0,
{
    assert(Map::<Seq<char>, u64>::empty().dom() =~= Set::empty());
}

proof fn lemma_totals(active: Seq<ActiveIdentity>)
    requires
        distinct(active),
    ensures
        counts(active).dom().finite(),
        counts(active).dom().len() == active.len(),
        slots(counts(active)) == total(active),
    decreases active.len(),
{
    if active.len() == 0 {
        assert(counts(active) =~= Map::<Seq<char>, u64>::empty());
        lemma_no_slots();
    } else {
        let rest = active.drop_last();
        let e = active.last();
        assert(rest.push(e) =~= active);
        assert forall|i: int, j: int|
            0 <= i < rest.len() && 0 <= j < rest.len() && i != j implies #[trigger] rest[i].identity@
            != #[trigger] rest[j].identity@ by {
            assert(active[i].identity@ != active[j].identity@);
        }
        lemma_totals(rest);
        lemma_counts_push(rest, e);
        if known(rest, e.identity@) {
            let p = place(rest, e.identity@);
            assert(rest[p].identity@ == e.identity@);
            assert(active[p].identity@ != active[active.len() - 1].identity@);
        }
        lemma_slots_insert(counts(rest), e.identity@, e.count);
        assert(counts(active).dom() =~= counts(rest).dom().insert(e.identity@));
    }
}

/// One call on the limiter.
pub ghost enum SlotStep {
    /// A request of `id` asks for a slot.
    Ask { id: Seq<char> },
    /// A slot of `id` is given back.
    End { id: Seq<char> },
}

/// The identities in flight after `steps`, one after the other, when none was before.
pub open spec fn slots_after(max: u64, steps: Seq<SlotStep>) -> Map<Seq<char>, u64>
    decreases steps.len(),
{
    if steps.len() == 0 {
        Map::empty()
    } else {
        let before = slots_after(max, steps.drop_last());
        match steps.last() {
            SlotStep::Ask { id } => slot_asked(before, max, id),
            SlotStep::End { id } => slot_returned(before, id),
        }
    }
}

/// The admissions that `steps` gave and that are not given back, each as its identity.
pub open spec fn admissions(max: u64, steps: Seq<SlotStep>) -> Multiset<Seq<char>>
    decreases steps.len(),
{
    if steps.len() == 0 {
        Multiset::empty()
    } else {
        let before = admissions(max, steps.drop_last());
        match steps.last() {
            SlotStep::Ask { id } => if held(slots_after(max, steps.drop_last()), id) < max {
                before.insert(id)
            } else {
                before
            },
            SlotStep::End { id } => before.remove(id),
        }
    }
}

/// Whether only admissions that were given are given back, each once.
pub open spec fn slot_run(max: u64, steps: Seq<SlotStep>) -> bool {
    forall|i: int|
        0 <= i < steps.len() ==> (#[trigger] steps[i] matches SlotStep::End { id } ==> admissions(
            max,
            steps.take(i),
        ).count(id) > 0)
}

/// However requests come and go, in whatever order: each identity holds as many slots as
/// it has admissions, and never more than the cap; the slots over all identities are the
/// admissions; and an identity is known as long as it has one. So nothing is left once all
/// are given back.
pub proof fn slots_are_the_admissions(max: u64, steps: Seq<SlotStep>, id: Seq<char>)
    requires
        slot_run(max, steps),
    ensures
        held(slots_after(max, steps), id) == admissions(max, steps).count(id),
        held(slots_after(max, steps), id) <= max,
        slots_after(max, steps).contains_key(id) <==> admissions(max, steps).count(id) > 0,
        slots(slots_after(max, steps)) == admissions(max, steps).len(),
        slots_after(max, steps).dom() == admissions(max, steps).dom(),
        slots_after(max, steps).dom().finite(),
{
    lemma_slot_run(max, steps);
    let m = slots_after(max, steps);
    let a = admissions(max, steps);
    assert(held(m, id) == a.count(id));
    assert(m.dom() =~= a.dom()) by {
        assert forall|x: Seq<char>| #[trigger] m.dom().contains(x) == a.dom().contains(x) by {
            assert(held(m, x) == a.count(x));
        }
    }
}

proof fn lemma_slot_run(max: u64, steps: Seq<SlotStep>)
    requires
        slot_run(max, steps),
    ensures
        slots_after(max, steps).dom().finite(),
        slots(slots_after(max, steps)) == admissions(max, steps).len(),
        forall|x: Seq<char>| #[trigger]
            held(slots_after(max, steps), x) == admissions(max, steps).count(x),
        forall|x: Seq<char>| #[trigger] held(slots_after(max, steps), x) <= max,
        forall|x: Seq<char>| #[trigger]
            slots_after(max, steps).contains_key(x) ==> held(slots_after(max, steps), x) > 0,
    decreases steps.len(),
{
    broadcast use vstd::multiset::group_multiset_axioms;

    let m = slots_after(max, steps);
    let a = admissions(max, steps);
    if steps.len() == 0 {
        lemma_no_slots();
    } else {
        let rest = steps.drop_last();
        let last = steps.len() - 1;
        assert(steps.take(last) =~= rest);
        assert(steps[last] == steps.last());
        assert forall|i: int| 0 <= i < rest.len() implies (#[trigger] rest[i] matches SlotStep::End {
            id,
        } ==> admissions(max, rest.take(i)).count(id) > 0) by {
            assert(rest[i] == steps[i]);
            assert(rest.take(i) =~= steps.take(i));
        }
        lemma_slot_run(max, rest);
        let b = slots_after(max, rest);
        let c = admissions(max, rest);
        match steps.last() {
            SlotStep::Ask { id } => {
                assert(held(b, id) == c.count(id));
                if held(b, id) < max {
                    lemma_slots_insert(b, id, (held(b, id) + 1) as u64);
                }
            },
            SlotStep::End { id } => {
                assert(c.count(id) > 0);
                assert(held(b, id) == c.count(id));
                if held(b, id) > 1 {
                    lemma_slots_insert(b, id, (held(b, id) - 1) as u64);
                } else {
                    lemma_slots_without(b, id);
                }
            },
        }
        assert forall|x: Seq<char>| #[trigger] held(m, x) == a.count(x) by {
            assert(held(b, x) == c.count(x));
        }
        assert forall|x: Seq<char>| #[trigger] held(m, x) <= max by {
            assert(held(b, x) <= max);
        }
        assert forall|x: Seq<char>| #[trigger] m.contains_key(x) implies held(m, x) > 0 by {
            if b.contains_key(x) {
                assert(held(b, x) > 0);
            }
        }
    }
}

impl IdentityFairnessLimiter {
    /// The identities with requests in flight, each with their number.
    pub closed spec fn view(&self) -> Map<Seq<char>, u64> {
        counts(self.active@)
    }

    pub closed spec fn max(&self) -> Option<u64> {
        self.max_per_identity
    }

    pub closed spec fn admitted(&self) -> u64 {
        self.admitted_total
    }

    pub closed spec fn saturated(&self) -> u64 {
        self.saturation_total
    }

    /// The number of requests in flight over all identities.
    pub closed spec fn in_flight(&self) -> nat {
        total(self.active@)
    }

    /// The number of identities with requests in flight.
    pub closed spec fn identities(&self) -> nat {
        self.active@.len()
    }

    /// Every tracked identity is tracked once, holds at least one slot and never more
    /// than the cap; with no cap nothing is tracked.
    pub closed spec fn wf(&self) -> bool {
        &&& distinct(self.active@)
        &&& forall|i: int| 0 <= i < self.active@.len() ==> 1 <= (#[trigger] self.active@[i]).count
        &&& match self.max_per_identity {
            Some(max) => forall|i: int|
                0 <= i < self.active@.len() ==> (#[trigger] self.active@[i]).count <= max,
            None => self.active@.len() == 0,
        }
    }

    /// A limiter that nothing has happened to yet.
    pub open spec fn is_fresh(&self, max_per_identity: Option<u64>) -> bool {
        &&& self.wf()
        &&& self.max() == max_per_identity
        &&& self@ == Map::<Seq<char>, u64>::empty()
        &&& self.admitted() == 0
        &&& self.saturated() == 0
        &&& self.in_flight() == 0
        &&& self.identities() == 0
    }

    pub fn new(max_per_identity: Option<u64>) -> (l: IdentityFairnessLimiter)
        ensures
            l.is_fresh(max_per_identity),
    {
        let l = IdentityFairnessLimiter {
            max_per_identity,
            active: Vec::new(),
            admitted_total: 0,
            saturation_total: 0,
        };
        assert(counts(l.active@) =~= Map::<Seq<char>, u64>::empty());
        l
    }

    /// Every identity in flight holds at least one slot and at most as many as the cap.
    pub proof fn identities_hold_slots(&self, id: Seq<char>)
        requires
            self.wf(),
            self@.contains_key(id),
        ensures
            self@[id] >= 1,
            self.max() matches Some(max) && self@[id] <= max,
    {
        let i = place(self.active@, id);
        assert(self.active@[i].identity@ == id);
        assert(1 <= self.active@[i].count);
    }

    /// What is reported in flight are the slots over all identities, and what is reported
    /// tracked are the identities that hold one.
    pub proof fn totals_are_of_the_identities(&self)
        requires
            self.wf(),
        ensures
            self@.dom().finite(),
            self.in_flight() == slots(self@),
            self.identities() == self@.dom().len(),
    {
        lemma_totals(self.active@);
    }

    fn position(&self, identity: &str) -> (r: Option<usize>)
        ensures
            match r {
                Some(i) => i < self.active@.len() && self.active@[i as int].identity@ == identity@,
                None => !known(self.active@, identity@),
            },
    {
        let mut i: usize = 0;
        while i < self.active.len()
            invariant
                i <= self.active@.len(),
                forall|j: int| 0 <= j < i ==> (#[trigger] self.active@[j]).identity@ != identity@,
            decreases self.active@.len() - i,
        {
            if same(self.active[i].identity.as_str(), identity) {
                return Some(i);
            }
            i += 1;
        }
        None
    }

    /// Asks for a slot for one more request of `identity`.
    pub fn acquire(&mut self, identity: &str) -> (r: Result<Option<IdentityAdmission>, ()>)
        requires
            old(self).wf(),
        ensures
            final(self).wf(),
            final(self).max() == old(self).max(),
            match old(self).max() {
                None => r matches Ok(None) && *final(self) == *old(self),
                Some(max) => {
                    if held(old(self)@, identity@) >= max {
                        &&& r is Err
                        &&& final(self)@ == slot_asked(old(self)@, max, identity@)
                        &&& final(self)@ == old(self)@
                        &&& final(self).in_flight() == old(self).in_flight()
                        &&& final(self).identities() == old(self).identities()
                        &&& final(self).admitted() == old(self).admitted()
                        &&& final(self).saturated() == old(self).saturated().wrapping_add(1)
                    } else {
                        &&& r matches Ok(Some(a)) && a@ == identity@
                        &&& final(self)@ == slot_asked(old(self)@, max, identity@)
                        &&& final(self)@ == slot_taken(old(self)@, identity@)
                        &&& final(self).in_flight() == old(self).in_flight() + 1
                        &&& final(self).identities() == old(self).identities() + (if held(old(self)@, identity@) == 0 {
                            1int
                        } else {
                            0
                        })
                        &&& final(self).admitted() == old(self).admitted().wrapping_add(1)
                        &&& final(self).saturated() == old(self).saturated()
                    }
                },
            },
    {
        let max: u64 = match self.max_per_identity {
            None => {
                return Ok(None);
            },
            Some(max) => max,
        };
        let found = self.position(identity);
        let current: u64 = match found {
            Some(i) => self.active[i].count,
            None => 0,
        };
        let ghost before = self.active@;
        proof {
            if let Some(i) = found {
                lemma_counts_at(before, i as int);
            }
        }
        if current >= max {
            self.saturation_total = self.saturation_total.wrapping_add(1);
            return Err(());
        }
        match found {
            Some(i) => {
                let entry = ActiveIdentity { identity: owned(identity), count: current + 1 };
                self.active.set(i, entry);
                proof {
                    let after = self.active@;
                    assert(after == before.update(i as int, entry));
                    assert forall|a: int, b: int|
                        0 <= a < after.len() && 0 <= b < after.len() && a
                            != b implies #[trigger] after[a].identity@
                        != #[trigger] after[b].identity@ by {
                        assert(before[a].identity@ == after[a].identity@);
                        assert(before[b].identity@ == after[b].identity@);
                    }
                    lemma_total_update(before, i as int, entry);
                    lemma_counts_update(before, i as int, entry);
                }
            },
            None => {
                let entry = ActiveIdentity { identity: owned(identity), count: 1 };
                self.active.push(entry);
                proof {
                    let after = self.active@;
                    assert(after == before.push(entry));
                    assert forall|a: int, b: int|
                        0 <= a < after.len() && 0 <= b < after.len() && a
                            != b implies #[trigger] after[a].identity@
                        != #[trigger] after[b].identity@ by {
                        if a < before.len() && b < before.len() {
                            assert(before[a].identity@ != before[b].identity@);
                        } else if a < before.len() {
                            assert(known(before, before[a].identity@));
                        } else {
                            assert(known(before, before[b].identity@));
                        }
                    }
                    assert(after.drop_last() =~= before);
                    lemma_counts_push(before, entry);
                }
            },
        }
        self.admitted_total = self.admitted_total.wrapping_add(1);
        Ok(Some(IdentityAdmission { identity: owned(identity) }))
    }

    /// Gives a slot back; an identity without slots is forgotten.
    pub fn release(&mut self, admission: IdentityAdmission)
        requires
            old(self).wf(),
        ensures
            final(self).wf(),
            final(self).max() == old(self).max(),
            final(self).admitted() == old(self).admitted(),
            final(self).saturated() == old(self).saturated(),
            !old(self)@.contains_key(admission@) ==> *final(self) == *old(self),
            old(self)@.contains_key(admission@) ==> {
                &&& final(self)@ == slot_returned(old(self)@, admission@)
                &&& final(self).in_flight() == old(self).in_flight() - 1
                &&& final(self).identities() == old(self).identities() - (if held(
                    old(self)@,
                    admission@,
                ) == 1 {
                    1int
                } else {
                    0
                })
            },
    {
        let ghost before = self.active@;
        if let Some(i) = self.position(admission.identity.as_str()) {
            proof {
                lemma_counts_at(before, i as int);
            }
            let count: u64 = self.active[i].count;
            if count > 1 {
                let entry = ActiveIdentity { identity: admission.identity, count: count - 1 };
                self.active.set(i, entry);
                proof {
                    let after = self.active@;
                    assert(after == before.update(i as int, entry));
                    assert forall|a: int, b: int|
                        0 <= a < after.len() && 0 <= b < after.len() && a
                            != b implies #[trigger] after[a].identity@
                        != #[trigger] after[b].identity@ by {
                        assert(before[a].identity@ == after[a].identity@);
                        assert(before[b].identity@ == after[b].identity@);
                    }
                    lemma_total_update(before, i as int, entry);
                    lemma_counts_update(before, i as int, entry);
                }
            } else {
                let _gone = self.active.remove(i);
                proof {
                    assert(self.active@ == before.remove(i as int));
                    lemma_total_remove(before, i as int);
                    lemma_counts_remove(before, i as int);
                }
            }
        } else {
            assert(!counts(before).contains_key(admission@));
        }
    }

    /// Whether the number of requests in flight can be reported.
    pub fn in_flight_fits(&self) -> (r: bool)
        ensures
            r == (self.in_flight() <= u64::MAX),
    {
        let mut sum: u64 = 0;
        let mut i: usize = 0;
        assert(self.active@.take(0) =~= Seq::<ActiveIdentity>::empty());
        while i < self.active.len()
            invariant
                i <= self.active@.len(),
                sum == total(self.active@.take(i as int)),
            decreases self.active@.len() - i,
        {
            proof {
                assert(self.active@.take(i + 1).drop_last() =~= self.active@.take(i as int));
                lemma_total_prefix(self.active@, i + 1);
            }
            let more: u64 = self.active[i].count;
            if more > u64::MAX - sum {
                return false;
            }
            sum = sum + more;
            i += 1;
        }
        assert(self.active@.take(i as int) =~= self.active@);
        true
    }

    pub fn snapshot(&self) -> (s: IdentityFairnessSnapshot)
        requires
            self.in_flight() <= u64::MAX,
        ensures
            s.enabled == self.max() is Some,
            s.max_per_identity == self.max(),
            s.active_in_flight == self.in_flight(),
            s.tracked_identities == self.identities(),
            s.admitted_total == self.admitted(),
            s.saturation_total == self.saturated(),
    {
        let mut sum: u64 = 0;
        let mut i: usize = 0;
        assert(self.active@.take(0) =~= Seq::<ActiveIdentity>::empty());
        while i < self.active.len()
            invariant
                i <= self.active@.len(),
                sum == total(self.active@.take(i as int)),
                self.in_flight() <= u64::MAX,
            decreases self.active@.len() - i,
        {
            proof {
                assert(self.active@.take(i + 1).drop_last() =~= self.active@.take(i as int));
                lemma_total_prefix(self.active@, i + 1);
            }
            sum = sum + self.active[i].count;
            i += 1;
        }
        assert(self.active@.take(i as int) =~= self.active@);
        IdentityFairnessSnapshot {
            enabled: self.max_per_identity.is_some(),
            max_per_identity: self.max_per_identity,
            active_in_flight: sum,
            tracked_identities: self.active.len(),
            admitted_total: self.admitted_total,
            saturation_total: self.saturation_total,
        }
    }
}

proof fn lemma_total_prefix(s: Seq<ActiveIdentity>, i: int)
    requires
        0 <= i <= s.len(),
    ensures
        total(s.take(i)) <= total(s),
    decreases s.len() - i,
{
    if i < s.len() {
        lemma_total_prefix(s, i + 1);
        assert(s.take(i + 1).drop_last() =~= s.take(i));
    } else {
        assert(s.take(i) =~= s);
    }
}

proof fn lemma_total_update(s: Seq<ActiveIdentity>, i: int, e: ActiveIdentity)
    requires
        0 <= i < s.len(),
    ensures
        total(s.update(i, e)) == total(s) - s[i].count + e.count,
    decreases s.len(),
{
    if i == s.len() - 1 {
        assert(s.update(i, e).drop_last() =~= s.drop_last());
    } else {
        lemma_total_update(s.drop_last(), i, e);
        assert(s.update(i, e).drop_last() =~= s.drop_last().update(i, e));
    }
}

proof fn lemma_total_remove(s: Seq<ActiveIdentity>, i: int)
    requires
        0 <= i < s.len(),
    ensures
        total(s.remove(i)) == total(s) - s[i].count,
    decreases s.len(),
{
    if i == s.len() - 1 {
        assert(s.remove(i) =~= s.drop_last());
    } else {
        lemma_total_remove(s.drop_last(), i);
        assert(s.remove(i).drop_last() =~= s.drop_last().remove(i));
    }
}

proof fn lemma_counts_update(s: Seq<ActiveIdentity>, i: int, e: ActiveIdentity)
    requires
        distinct(s),
        distinct(s.update(i, e)),
        0 <= i < s.len(),
        e.identity@ == s[i].identity@,
    ensures
        counts(s.update(i, e)) == counts(s).insert(e.identity@, e.count),
{
    let t = s.update(i, e);
    assert forall|id: Seq<char>| known(t, id) == (known(s, id) || id == e.identity@) by {
        if known(t, id) {
            let p = place(t, id);
            assert(s[p].identity@ == id);
        }
        if known(s, id) {
            let p = place(s, id);
            assert(t[p].identity@ == id);
        }
        assert(t[i].identity@ == e.identity@);
    }
    assert forall|id: Seq<char>| known(t, id) implies counts(t)[id] == counts(s).insert(
        e.identity@,
        e.count,
    )[id] by {
        let p = place(t, id);
        assert(t[p].identity@ == id);
        lemma_counts_at(t, p);
        lemma_counts_at(s, p);
        if p != i {
            assert(t[p].identity@ != t[i].identity@);
        }
    }
    assert(counts(t) =~= counts(s).insert(e.identity@, e.count));
}

proof fn lemma_counts_push(s: Seq<ActiveIdentity>, e: ActiveIdentity)
    requires
        distinct(s),
        distinct(s.push(e)),
    ensures
        counts(s.push(e)) == counts(s).insert(e.identity@, e.count),
{
    let t = s.push(e);
    assert forall|id: Seq<char>| known(t, id) == (known(s, id) || id == e.identity@) by {
        if known(t, id) {
            let p = place(t, id);
            if p < s.len() {
                assert(s[p].identity@ == id);
            }
        }
        if known(s, id) {
            let p = place(s, id);
            assert(t[p].identity@ == id);
        }
        assert(t[s.len() as int].identity@ == e.identity@);
    }
    assert forall|id: Seq<char>| known(t, id) implies counts(t)[id] == counts(s).insert(
        e.identity@,
        e.count,
    )[id] by {
        let p = place(t, id);
        assert(t[p].identity@ == id);
        lemma_counts_at(t, p);
        if p < s.len() {
            lemma_counts_at(s, p);
            assert(t[p].identity@ != t[s.len() as int].identity@);
        }
    }
    assert(counts(t) =~= counts(s).insert(e.identity@, e.count));
}

proof fn lemma_counts_remove(s: Seq<ActiveIdentity>, i: int)
    requires
        distinct(s),
        0 <= i < s.len(),
    ensures
        distinct(s.remove(i)),
        counts(s.remove(i)) == counts(s).remove(s[i].identity@),
{
    let t = s.remove(i);
    let gone = s[i].identity@;
    assert forall|a: int| 0 <= a < t.len() implies #[trigger] t[a] == s[if a < i {
        a
    } else {
        a + 1
    }] by {}
    assert forall|a: int, b: int|
        0 <= a < t.len() && 0 <= b < t.len() && a != b implies #[trigger] t[a].identity@
        != #[trigger] t[b].identity@ by {
        let x = if a < i { a } else { a + 1 };
        let y = if b < i { b } else { b + 1 };
        assert(s[x].identity@ != s[y].identity@);
    }
    assert forall|id: Seq<char>| known(t, id) == (known(s, id) && id != gone) by {
        if known(t, id) {
            let p = place(t, id);
            let x = if p < i { p } else { p + 1 };
            assert(s[x].identity@ == id);
            assert(s[x].identity@ != s[i].identity@);
        }
        if known(s, id) && id != gone {
            let p = place(s, id);
            let x = if p < i { p } else { p - 1 };
            assert(t[x].identity@ == id);
        }
    }
    assert forall|id: Seq<char>| known(t, id) implies counts(t)[id] == counts(s).remove(
        gone,
    )[id] by {
        let p = place(t, id);
        assert(t[p].identity@ == id);
        lemma_counts_at(t, p);
        let x = if p < i { p } else { p + 1 };
        lemma_counts_at(s, x);
    }
    assert(counts(t) =~= counts(s).remove(gone));
}

/// What the global limiter reports of itself.
#[derive(Debug, Clone, Copy, PartialEq, Eq, Structural)]
pub struct GlobalInFlightSnapshot {
    pub enabled: bool,
    pub max_requests: Option<u64>,
    pub active: u64,
    pub admitted_total: u64,
    pub overload_total: u64,
    pub max_active_observed: u64,
}

/// A slot held by one request; it is given back by `release`.
pub struct GlobalInFlightAdmission(());

/// Caps how many requests may be in flight at once, whoever sent them.
pub struct GlobalInFlightLimiter {
    max_requests: Option<u64>,
    active: u64,
    admitted_total: u64,
    overload_total: u64,
    max_active_observed: u64,
}

/// The larger of two numbers.
pub open spec fn larger(a: u64, b: u64) -> u64 {
    if a > b {
        a
    } else {
        b
    }
}

impl GlobalInFlightSnapshot {
    /// Whether a request would be turned away.
    pub open spec fn full(self) -> bool {
        self.max_requests matches Some(max) && self.active >= max
    }

    /// The limiter after it admitted one request.
    pub open spec fn admitted(self) -> GlobalInFlightSnapshot {
        GlobalInFlightSnapshot {
            active: (self.active + 1) as u64,
            admitted_total: self.admitted_total.wrapping_add(1),
            max_active_observed: larger(self.max_active_observed, (self.active + 1) as u64),
            ..self
        }
    }

    /// The limiter after it turned one request away.
    pub open spec fn overloaded(self) -> GlobalInFlightSnapshot {
        GlobalInFlightSnapshot { overload_total: self.overload_total.wrapping_add(1), ..self }
    }

    /// The limiter after one request left.
    pub open spec fn released(self) -> GlobalInFlightSnapshot {
        GlobalInFlightSnapshot { active: self.active.wrapping_sub(1), ..self }
    }

    /// No more requests in flight, now or at any time, than the cap allows.
    pub open spec fn within_cap(self) -> bool {
        match self.max_requests {
            Some(max) => self.active <= max && self.max_active_observed <= max,
            None => self.active == 0 && self.max_active_observed == 0,
        }
    }
}

/// Admitting a request that fits keeps the cap, and its release brings the number
/// in flight back without touching any total.
pub proof fn global_slot_round_trip(s: GlobalInFlightSnapshot)
    requires
        s.within_cap(),
        s.max_requests is Some,
        !s.full(),
    ensures
        s.admitted().within_cap(),
        s.admitted().released().within_cap(),
        s.admitted().released().active == s.active,
        s.admitted().released().admitted_total == s.admitted_total.wrapping_add(1),
        s.admitted().released().overload_total == s.overload_total,
{
}

/// The limiter after one more request asked.
pub open spec fn limiter_asked(s: GlobalInFlightSnapshot) -> GlobalInFlightSnapshot {
    if s.max_requests is None {
        s
    } else if s.full() {
        s.overloaded()
    } else {
        s.admitted()
    }
}

/// The limiter after requests asked, where `true` stands, and left, where `false` stands.
pub open spec fn limiter_after(s: GlobalInFlightSnapshot, steps: Seq<bool>) -> GlobalInFlightSnapshot
    decreases steps.len(),
{
    if steps.len() == 0 {
        s
    } else {
        let before = limiter_after(s, steps.drop_last());
        if steps.last() {
            limiter_asked(before)
        } else {
            before.released()
        }
    }
}

/// The admissions that `steps` gave, without those that were given back.
pub open spec fn limiter_admissions(s: GlobalInFlightSnapshot, steps: Seq<bool>) -> int
    decreases steps.len(),
{
    if steps.len() == 0 {
        0
    } else {
        let before = limiter_after(s, steps.drop_last());
        limiter_admissions(s, steps.drop_last()) + (if !steps.last() {
            -1
        } else if before.max_requests is Some && !before.full() {
            1int
        } else {
            0
        })
    }
}

/// However requests come and go, in whatever order: the number in flight is that of the
/// admissions that are not given back, and never over the cap.
pub proof fn every_run_keeps_the_global_cap(max_requests: Option<u64>, steps: Seq<bool>)
    requires
        forall|i: int|
            0 <= i < steps.len() && !(#[trigger] steps[i]) ==> limiter_admissions(
                fresh_limiter(max_requests),
                steps.take(i),
            ) > 0,
    ensures
        limiter_after(fresh_limiter(max_requests), steps).within_cap(),
        limiter_after(fresh_limiter(max_requests), steps).max_requests == max_requests,
        limiter_after(fresh_limiter(max_requests), steps).active == limiter_admissions(
            fresh_limiter(max_requests),
            steps,
        ),
    decreases steps.len(),
{
    if steps.len() > 0 {
        let rest = steps.drop_last();
        let last = steps.len() - 1;
        assert(steps.take(last) =~= rest);
        assert(steps[last] == steps.last());
        assert forall|i: int| 0 <= i < rest.len() && !(#[trigger] rest[i]) implies limiter_admissions(
            fresh_limiter(max_requests),
            rest.take(i),
        ) > 0 by {
            assert(rest[i] == steps[i]);
            assert(rest.take(i) =~= steps.take(i));
        }
        every_run_keeps_the_global_cap(max_requests, rest);
    }
}

/// A limiter that nothing has happened to yet.
pub open spec fn fresh_limiter(max_requests: Option<u64>) -> GlobalInFlightSnapshot {
    GlobalInFlightSnapshot {
        enabled: max_requests is Some,
        max_requests,
        active: 0,
        admitted_total: 0,
        overload_total: 0,
        max_active_observed: 0,
    }
}

impl GlobalInFlightLimiter {
    pub closed spec fn view(&self) -> GlobalInFlightSnapshot {
        GlobalInFlightSnapshot {
            enabled: self.max_requests is Some,
            max_requests: self.max_requests,
            active: self.active,
            admitted_total: self.admitted_total,
            overload_total: self.overload_total,
            max_active_observed: self.max_active_observed,
        }
    }

    pub fn new(max_requests: Option<u64>) -> (l: GlobalInFlightLimiter)
        ensures
            l@ == fresh_limiter(max_requests),
            l@.within_cap(),
    {
        GlobalInFlightLimiter {
            max_requests,
            active: 0,
            admitted_total: 0,
            overload_total: 0,
            max_active_observed: 0,
        }
    }

    /// Asks for a slot: none is needed without a cap, and none is given at the cap.
    pub fn acquire(&mut self) -> (r: Result<Option<GlobalInFlightAdmission>, ()>)
        ensures
            old(self)@.max_requests is None ==> (r matches Ok(None)) && final(self)@ == old(self)@,
            old(self)@.max_requests is Some && old(self)@.full() ==> r is Err && final(self)@
                == old(self)@.overloaded(),
            old(self)@.max_requests is Some && !old(self)@.full() ==> (r matches Ok(Some(_)))
                && final(self)@ == old(self)@.admitted(),
            final(self)@ == limiter_asked(old(self)@),
            old(self)@.within_cap() ==> final(self)@.within_cap(),
    {
        let max: u64 = match self.max_requests {
            None => {
                return Ok(None);
            },
            Some(max) => max,
        };
        if self.active >= max {
            self.overload_total = self.overload_total.wrapping_add(1);
            return Err(());
        }
        self.active = self.active + 1;
        self.admitted_total = self.admitted_total.wrapping_add(1);
        let now: u64 = self.active;
        self.record_max_active(now);
        Ok(Some(GlobalInFlightAdmission(())))
    }

    /// Gives a slot back.
    pub fn release(&mut self, admission: GlobalInFlightAdmission)
        ensures
            final(self)@ == old(self)@.released(),
    {
        let _gone = admission;
        self.active = self.active.wrapping_sub(1);
    }

    fn record_max_active(&mut self, active: u64)
        ensures
            final(self)@ == (GlobalInFlightSnapshot {
                max_active_observed: larger(old(self)@.max_active_observed, active),
                ..old(self)@
            }),
    {
        if active > self.max_active_observed {
            self.max_active_observed = active;
        }
    }

    pub fn snapshot(&self) -> (s: GlobalInFlightSnapshot)
        ensures
            s == self@,
    {
        GlobalInFlightSnapshot {
            enabled: self.max_requests.is_some(),
            max_requests: self.max_requests,
            active: self.active,
            admitted_total: self.admitted_total,
            overload_total: self.overload_total,
            max_active_observed: self.max_active_observed,
        }
    }
}

/// What the edge does about clients that are slow to speak.
#[derive(Clone, Copy, Debug, PartialEq, Eq, Structural)]
pub struct SlowClientPolicy {
    pub header_read_timeout_ms: u64,
    pub keepalive_idle_timeout_ms: u64,
    pub max_connection_secs: Option<u64>,
    pub pingora_tls_handshake_timeout_secs: u64,
    pub keepalive_enabled: bool,
    pub keepalive_request_limit: Option<u32>,
}

/// The bounds on one HTTP/2 connection.
#[derive(Clone, Copy, Debug, PartialEq, Eq, Structural)]
pub struct H2Policy {
    pub max_concurrent_streams: u32,
    pub max_reset_streams: usize,
}

/// Milliseconds rounded up to seconds, and never less than one.
pub open spec fn idle_seconds(millis: u64) -> int {
    if millis == 0 {
        1
    } else {
        (millis + 999) / 1000
    }
}

impl SlowClientPolicy {
    /// The idle time between two requests of a connection, in whole seconds: never
    /// zero, which the server would take for no limit.
    pub fn keepalive_idle_secs(&self) -> (r: u64)
        ensures
            r == idle_seconds(self.keepalive_idle_timeout_ms),
            r >= 1,
            r * 1000 >= self.keepalive_idle_timeout_ms,
            r > 1 ==> (r - 1) * 1000 < self.keepalive_idle_timeout_ms,
    {
        let whole: u64 = self.keepalive_idle_timeout_ms / 1000;
        let rounded: u64 = if self.keepalive_idle_timeout_ms % 1000 == 0 {
            whole
        } else {
            whole + 1
        };
        if rounded < 1 {
            1
        } else {
            rounded
        }
    }
}

/// The bounds on connections that outlive a request.
#[derive(Clone, Copy, Debug, PartialEq, Eq, Structural)]
pub struct LongLivedLimits {
    pub max_connections: u64,
    pub max_buffered_bytes: u64,
    pub downstream_write_timeout_ms: u64,
}

/// What the registry reports of itself.
#[derive(Clone, Copy, Debug, PartialEq, Eq, Structural)]
pub struct LongLivedSnapshot {
    pub active: u64,
    pub accepted_total: u64,
    pub completed_total: u64,
    pub drained_total: u64,
    pub cancelled_total: u64,
    pub rejected_total: u64,
    pub downstream_timeout_total: u64,
    pub bytes_streamed_total: u64,
    pub max_active_observed: u64,
    pub max_connections: u64,
    pub max_buffered_bytes: u64,
    pub downstream_write_timeout_ms: u64,
}

impl LongLivedSnapshot {
    pub open spec fn full(self) -> bool {
        self.active >= self.max_connections
    }

    /// The registry after it admitted one connection.
    pub open spec fn admitted(self) -> LongLivedSnapshot {
        LongLivedSnapshot {
            active: (self.active + 1) as u64,
            accepted_total: self.accepted_total.wrapping_add(1),
            max_active_observed: larger(self.max_active_observed, (self.active + 1) as u64),
            ..self
        }
    }

    /// The registry after it turned one connection away.
    pub open spec fn rejected(self) -> LongLivedSnapshot {
        LongLivedSnapshot { rejected_total: self.rejected_total.wrapping_add(1), ..self }
    }

    /// The registry after one connection ended, well or not.
    pub open spec fn ended(self, completed: bool) -> LongLivedSnapshot {
        LongLivedSnapshot {
            active: self.active.wrapping_sub(1),
            completed_total: if completed {
                self.completed_total.wrapping_add(1)
            } else {
                self.completed_total
            },
            cancelled_total: if completed {
                self.cancelled_total
            } else {
                self.cancelled_total.wrapping_add(1)
            },
            ..self
        }
    }

    /// The registry after `bytes` more bytes were streamed.
    pub open spec fn streamed(self, bytes: u64) -> LongLivedSnapshot {
        LongLivedSnapshot {
            bytes_streamed_total: self.bytes_streamed_total.wrapping_add(bytes),
            ..self
        }
    }

    /// The registry after one connection was drained.
    pub open spec fn drained(self) -> LongLivedSnapshot {
        LongLivedSnapshot { drained_total: self.drained_total.wrapping_add(1), ..self }
    }

    /// The registry after one write to a client timed out.
    pub open spec fn timed_out(self) -> LongLivedSnapshot {
        LongLivedSnapshot {
            downstream_timeout_total: self.downstream_timeout_total.wrapping_add(1),
            ..self
        }
    }

    /// Never more connections than the cap allows.
    pub open spec fn within_cap(self) -> bool {
        self.active <= self.max_connections && self.max_active_observed <= self.max_connections
    }

    /// Every accepted connection has completed, was cancelled, or is active (in the
    /// wrapping arithmetic of the counters).
    pub open spec fn balanced(self) -> bool {
        self.completed_total.wrapping_add(self.cancelled_total).wrapping_add(self.active)
            == self.accepted_total
    }
}

/// Admitting and ending connections keeps the cap and the ledger.
pub proof fn long_lived_ledger(s: LongLivedSnapshot, completed: bool)
    requires
        s.within_cap(),
        s.balanced(),
    ensures
        !s.full() ==> s.admitted().within_cap() && s.admitted().balanced(),
        !s.full() ==> s.admitted().ended(completed).active == s.active,
        s.active > 0 ==> s.ended(completed).within_cap() && s.ended(completed).balanced(),
        s.rejected().within_cap() && s.rejected().balanced(),
        s.drained().within_cap() && s.drained().balanced(),
        s.timed_out().within_cap() && s.timed_out().balanced(),
        forall|bytes: u64| #[trigger] s.streamed(bytes).within_cap() && s.streamed(bytes).balanced(),
{
}

/// One call on the registry or on a connection that it admitted.
pub ghost enum SessionStep {
    /// A connection asks for a place.
    Ask,
    /// A connection ends, completed or not.
    End { completed: bool },
    /// Bytes are streamed.
    Stream { bytes: u64 },
    /// A connection is drained.
    Drain,
    /// A write to a client times out.
    TimeOut,
}

/// The registry after one more connection asked for a place.
pub open spec fn registry_asked(s: LongLivedSnapshot) -> LongLivedSnapshot {
    if s.full() {
        s.rejected()
    } else {
        s.admitted()
    }
}

/// The registry after `steps`, one after the other.
pub open spec fn registry_after(s: LongLivedSnapshot, steps: Seq<SessionStep>) -> LongLivedSnapshot
    decreases steps.len(),
{
    if steps.len() == 0 {
        s
    } else {
        let before = registry_after(s, steps.drop_last());
        match steps.last() {
            SessionStep::Ask => registry_asked(before),
            SessionStep::End { completed } => before.ended(completed),
            SessionStep::Stream { bytes } => before.streamed(bytes),
            SessionStep::Drain => before.drained(),
            SessionStep::TimeOut => before.timed_out(),
        }
    }
}

/// The connections that `steps` admitted.
pub open spec fn sessions_admitted(s: LongLivedSnapshot, steps: Seq<SessionStep>) -> nat
    decreases steps.len(),
{
    if steps.len() == 0 {
        0
    } else {
        sessions_admitted(s, steps.drop_last()) + (if steps.last() is Ask && !registry_after(
            s,
            steps.drop_last(),
        ).full() {
            1nat
        } else {
            0
        })
    }
}

/// The connections that ended completed, or that did not.
pub open spec fn sessions_ended(steps: Seq<SessionStep>, completed: bool) -> nat
    decreases steps.len(),
{
    if steps.len() == 0 {
        0
    } else {
        sessions_ended(steps.drop_last(), completed) + (if steps.last() == (SessionStep::End {
            completed,
        }) {
            1nat
        } else {
            0
        })
    }
}

/// The connections that `steps` admitted, without those that ended.
pub open spec fn sessions_alive(s: LongLivedSnapshot, steps: Seq<SessionStep>) -> int {
    sessions_admitted(s, steps) - sessions_ended(steps, true) - sessions_ended(steps, false)
}

/// However connections come and go, in whatever order, as long as only one that was
/// admitted ends, once: the active ones are those that are admitted and have not ended,
/// and never more than the cap; every one that was accepted is active, completed or
/// cancelled; and each that ended is counted once, as what it ended as. The totals are
/// exact as long as they fit.
pub proof fn every_run_keeps_the_session_ledger(limits: LongLivedLimits, steps: Seq<SessionStep>)
    requires
        forall|i: int|
            0 <= i < steps.len() && (#[trigger] steps[i]) is End ==> sessions_alive(
                fresh_registry(limits),
                steps.take(i),
            ) > 0,
    ensures
        ({
            let s = registry_after(fresh_registry(limits), steps);
            &&& s.within_cap()
            &&& s.balanced()
            &&& s.max_connections == limits.max_connections
            &&& s.active == sessions_alive(fresh_registry(limits), steps)
            &&& steps.len() <= u64::MAX ==> {
                &&& s.accepted_total == sessions_admitted(fresh_registry(limits), steps)
                &&& s.completed_total == sessions_ended(steps, true)
                &&& s.cancelled_total == sessions_ended(steps, false)
                &&& s.accepted_total == s.active + s.completed_total + s.cancelled_total
            }
        }),
{
    lemma_session_run(limits, steps);
}

proof fn lemma_session_run(limits: LongLivedLimits, steps: Seq<SessionStep>)
    requires
        forall|i: int|
            0 <= i < steps.len() && (#[trigger] steps[i]) is End ==> sessions_alive(
                fresh_registry(limits),
                steps.take(i),
            ) > 0,
    ensures
        ({
            let s = registry_after(fresh_registry(limits), steps);
            &&& s.within_cap()
            &&& s.balanced()
            &&& s.max_connections == limits.max_connections
            &&& s.active == sessions_alive(fresh_registry(limits), steps)
            &&& sessions_admitted(fresh_registry(limits), steps) <= steps.len()
            &&& sessions_ended(steps, true) <= steps.len()
            &&& sessions_ended(steps, false) <= steps.len()
            &&& steps.len() <= u64::MAX ==> {
                &&& s.accepted_total == sessions_admitted(fresh_registry(limits), steps)
                &&& s.completed_total == sessions_ended(steps, true)
                &&& s.cancelled_total == sessions_ended(steps, false)
            }
        }),
    decreases steps.len(),
{
    if steps.len() > 0 {
        let rest = steps.drop_last();
        let last = steps.len() - 1;
        assert(steps.take(last) =~= rest);
        assert(steps[last] == steps.last());
        assert forall|i: int| 0 <= i < rest.len() && (#[trigger] rest[i]) is End implies sessions_alive(
            fresh_registry(limits),
            rest.take(i),
        ) > 0 by {
            assert(rest[i] == steps[i]);
            assert(rest.take(i) =~= steps.take(i));
        }
        lemma_session_run(limits, rest);
        let before = registry_after(fresh_registry(limits), rest);
        long_lived_ledger(before, true);
        long_lived_ledger(before, false);
    }
}

/// Counts and bounds the connections that outlive a request.
pub struct LongLivedRegistry {
    limits: LongLivedLimits,
    active: u64,
    accepted_total: u64,
    completed_total: u64,
    drained_total: u64,
    cancelled_total: u64,
    rejected_total: u64,
    downstream_timeout_total: u64,
    bytes_streamed_total: u64,
    max_active_observed: u64,
}

/// One admitted connection; `release` ends it.
pub struct LongLivedAdmission {
    bytes_streamed: u64,
    completed: bool,
    drained: bool,
}

/// Why a write to the client failed.
#[derive(Clone, Copy, Debug, PartialEq, Eq, Structural)]
pub enum DownstreamWriteError {
    Timeout,
    Other,
}

/// A registry that nothing has happened to yet.
pub open spec fn fresh_registry(limits: LongLivedLimits) -> LongLivedSnapshot {
    LongLivedSnapshot {
        active: 0,
        accepted_total: 0,
        completed_total: 0,
        drained_total: 0,
        cancelled_total: 0,
        rejected_total: 0,
        downstream_timeout_total: 0,
        bytes_streamed_total: 0,
        max_active_observed: 0,
        max_connections: limits.max_connections,
        max_buffered_bytes: limits.max_buffered_bytes,
        downstream_write_timeout_ms: limits.downstream_write_timeout_ms,
    }
}

impl LongLivedRegistry {
    pub closed spec fn view(&self) -> LongLivedSnapshot {
        LongLivedSnapshot {
            active: self.active,
            accepted_total: self.accepted_total,
            completed_total: self.completed_total,
            drained_total: self.drained_total,
            cancelled_total: self.cancelled_total,
            rejected_total: self.rejected_total,
            downstream_timeout_total: self.downstream_timeout_total,
            bytes_streamed_total: self.bytes_streamed_total,
            max_active_observed: self.max_active_observed,
            max_connections: self.limits.max_connections,
            max_buffered_bytes: self.limits.max_buffered_bytes,
            downstream_write_timeout_ms: self.limits.downstream_write_timeout_ms,
        }
    }

    pub fn new(limits: LongLivedLimits) -> (r: LongLivedRegistry)
        ensures
            r@ == fresh_registry(limits),
            r@.within_cap(),
            r@.balanced(),
    {
        LongLivedRegistry {
            limits,
            active: 0,
            accepted_total: 0,
            completed_total: 0,
            drained_total: 0,
            cancelled_total: 0,
            rejected_total: 0,
            downstream_timeout_total: 0,
            bytes_streamed_total: 0,
            max_active_observed: 0,
        }
    }

    /// Asks for a place for one more connection.
    pub fn try_admit(&mut self) -> (r: Option<LongLivedAdmission>)
        ensures
            old(self)@.full() ==> r is None && final(self)@ == old(self)@.rejected(),
            !old(self)@.full() ==> r is Some && final(self)@ == old(self)@.admitted(),
            final(self)@ == registry_asked(old(self)@),
            r matches Some(a) ==> a.bytes() == 0 && !a.is_complete() && !a.is_drained(),
    {
        if self.active >= self.limits.max_connections {
            self.rejected_total = self.rejected_total.wrapping_add(1);
            return None;
        }
        self.active = self.active + 1;
        self.accepted_total = self.accepted_total.wrapping_add(1);
        let now: u64 = self.active;
        self.record_max_active(now);
        Some(LongLivedAdmission { bytes_streamed: 0, completed: false, drained: false })
    }

    /// Ends a connection: completed if it was marked so, cancelled otherwise.
    pub fn release(&mut self, admission: LongLivedAdmission)
        ensures
            final(self)@ == old(self)@.ended(admission.is_complete()),
    {
        self.active = self.active.wrapping_sub(1);
        if admission.completed {
            self.completed_total = self.completed_total.wrapping_add(1);
        } else {
            self.cancelled_total = self.cancelled_total.wrapping_add(1);
        }
    }

    fn record_max_active(&mut self, active: u64)
        ensures
            final(self)@ == (LongLivedSnapshot {
                max_active_observed: larger(old(self)@.max_active_observed, active),
                ..old(self)@
            }),
    {
        if active > self.max_active_observed {
            self.max_active_observed = active;
        }
    }

    pub fn snapshot(&self) -> (s: LongLivedSnapshot)
        ensures
            s == self@,
    {
        LongLivedSnapshot {
            active: self.active,
            accepted_total: self.accepted_total,
            completed_total: self.completed_total,
            drained_total: self.drained_total,
            cancelled_total: self.cancelled_total,
            rejected_total: self.rejected_total,
            downstream_timeout_total: self.downstream_timeout_total,
            bytes_streamed_total: self.bytes_streamed_total,
            max_active_observed: self.max_active_observed,
            max_connections: self.limits.max_connections,
            max_buffered_bytes: self.limits.max_buffered_bytes,
            downstream_write_timeout_ms: self.limits.downstream_write_timeout_ms,
        }
    }
}

/// The sum of two numbers, stopped at the largest.
pub open spec fn saturated(a: u64, b: u64) -> u64 {
    if a + b > u64::MAX {
        u64::MAX
    } else {
        (a + b) as u64
    }
}

impl LongLivedAdmission {
    /// The bytes streamed over this connection.
    pub closed spec fn bytes(&self) -> u64 {
        self.bytes_streamed
    }

    pub closed spec fn is_complete(&self) -> bool {
        self.completed
    }

    pub closed spec fn is_drained(&self) -> bool {
        self.drained
    }

    /// Counts `bytes` more bytes and says whether the connection is still within its
    /// allowance.
    pub fn record_bytes(&mut self, registry: &mut LongLivedRegistry, bytes: u64) -> (ok: bool)
        ensures
            final(self).bytes() == saturated(old(self).bytes(), bytes),
            final(self).is_complete() == old(self).is_complete(),
            final(self).is_drained() == old(self).is_drained(),
            final(registry)@ == old(registry)@.streamed(bytes),
            ok == (final(self).bytes() <= old(registry)@.max_buffered_bytes),
    {
        self.bytes_streamed = self.bytes_streamed.saturating_add(bytes);
        registry.bytes_streamed_total = registry.bytes_streamed_total.wrapping_add(bytes);
        self.bytes_streamed <= registry.limits.max_buffered_bytes
    }

    /// Marks the connection as having ended well.
    pub fn complete(&mut self)
        ensures
            final(self).is_complete(),
            final(self).is_drained() == old(self).is_drained(),
            final(self).bytes() == old(self).bytes(),
    {
        self.completed = true;
    }

    /// Marks the connection as ended by a drain, which is counted once.
    pub fn complete_drained(&mut self, registry: &mut LongLivedRegistry)
        ensures
            final(self).is_complete(),
            final(self).is_drained(),
            final(self).bytes() == old(self).bytes(),
            final(registry)@ == (if old(self).is_drained() {
                old(registry)@
            } else {
                old(registry)@.drained()
            }),
    {
        if !self.drained {
            registry.drained_total = registry.drained_total.wrapping_add(1);
            self.drained = true;
        }
        self.completed = true;
    }

    /// How long a write to this client may take.
    pub fn downstream_write_timeout_ms(&self, registry: &LongLivedRegistry) -> (r: u64)
        ensures
            r == registry@.downstream_write_timeout_ms,
    {
        registry.limits.downstream_write_timeout_ms
    }

    /// Counts a failed write if it timed out.
    pub fn record_downstream_write_error(
        &self,
        registry: &mut LongLivedRegistry,
        err: DownstreamWriteError,
    )
        ensures
            final(registry)@ == (if err is Timeout {
                old(registry)@.timed_out()
            } else {
                old(registry)@
            }),
    {
        if let DownstreamWriteError::Timeout = err {
            registry.downstream_timeout_total = registry.downstream_timeout_total.wrapping_add(1);
        }
    }
}

/// As long as fewer requests are in flight than the cap allows, one more is let in, and no
/// sooner is one turned away; without a cap none is, and nothing is counted.
pub proof fn requests_are_let_in_below_the_cap(s: GlobalInFlightSnapshot)
    requires
        s.active < u64::MAX,
    ensures
        ({
            let after = limiter_asked(s);
            &&& (s.max_requests matches Some(max) ==> {
                &&& s.active < max ==> {
                    &&& after.active == s.active + 1
                    &&& after.admitted_total == s.admitted_total.wrapping_add(1)
                    &&& after.overload_total == s.overload_total
                    &&& after.max_active_observed >= s.max_active_observed
                    &&& after.max_active_observed >= after.active
                    &&& after.max_active_observed == s.max_active_observed
                        || after.max_active_observed == after.active
                }
                &&& s.active >= max ==> {
                    &&& after.active == s.active
                    &&& after.admitted_total == s.admitted_total
                    &&& after.overload_total == s.overload_total.wrapping_add(1)
                    &&& after.max_active_observed == s.max_active_observed
                }
            })
            &&& s.max_requests is None ==> after == s
            &&& after.max_requests == s.max_requests
            &&& after.enabled == s.enabled
        }),
{
}

/// A client gets slots up to its cap and no more, whatever the others hold, and what it
/// gets no other loses.
pub proof fn slots_are_given_up_to_the_cap(
    m: Map<Seq<char>, u64>,
    max: u64,
    id: Seq<char>,
    other: Seq<char>,
)
    requires
        other != id,
    ensures
        m.contains_key(id) && m[id] < max ==> slot_asked(m, max, id)[id] == m[id] + 1,
        m.contains_key(id) && m[id] >= max ==> slot_asked(m, max, id) == m,
        !m.contains_key(id) && max > 0 ==> slot_asked(m, max, id)[id] == 1,
        !m.contains_key(id) && max == 0 ==> slot_asked(m, max, id) == m,
        slot_asked(m, max, id).contains_key(other) == m.contains_key(other),
        slot_asked(m, max, id)[other] == m[other],
        m.contains_key(id) && m[id] == 1 ==> !slot_returned(m, id).contains_key(id),
        m.contains_key(id) && m[id] > 1 ==> slot_returned(m, id)[id] == m[id] - 1,
        slot_returned(m, id).contains_key(other) == m.contains_key(other),
        slot_returned(m, id)[other] == m[other],
{
}

/// Connections that stay open get a place as long as fewer are open than may be, and each
/// thing that happens to one is counted under its own name and no other.
pub proof fn every_session_event_has_its_count(s: LongLivedSnapshot, completed: bool, bytes: u64)
    requires
        s.active < u64::MAX,
    ensures
        ({
            let asked = registry_asked(s);
            let ended = s.ended(completed);
            &&& s.active < s.max_connections ==> {
                &&& asked.active == s.active + 1
                &&& asked.accepted_total == s.accepted_total.wrapping_add(1)
                &&& asked.rejected_total == s.rejected_total
                &&& asked.max_active_observed >= asked.active
                &&& asked.max_active_observed >= s.max_active_observed
                &&& asked.max_active_observed == s.max_active_observed
                    || asked.max_active_observed == asked.active
            }
            &&& s.active >= s.max_connections ==> {
                &&& asked.active == s.active
                &&& asked.accepted_total == s.accepted_total
                &&& asked.rejected_total == s.rejected_total.wrapping_add(1)
                &&& asked.max_active_observed == s.max_active_observed
            }
            &&& asked.completed_total == s.completed_total
            &&& asked.cancelled_total == s.cancelled_total
            &&& asked.bytes_streamed_total == s.bytes_streamed_total
            &&& s.active > 0 ==> ended.active == s.active - 1
            &&& completed ==> ended.completed_total == s.completed_total.wrapping_add(1)
            &&& completed ==> ended.cancelled_total == s.cancelled_total
            &&& !completed ==> ended.completed_total == s.completed_total
            &&& !completed ==> ended.cancelled_total == s.cancelled_total.wrapping_add(1)
            &&& ended.accepted_total == s.accepted_total
            &&& ended.max_active_observed == s.max_active_observed
            &&& s.bytes_streamed_total + bytes <= u64::MAX ==> s.streamed(bytes).bytes_streamed_total
                == s.bytes_streamed_total + bytes
            &&& s.streamed(bytes).active == s.active
            &&& s.drained().drained_total == s.drained_total.wrapping_add(1)
            &&& s.drained().downstream_timeout_total == s.downstream_timeout_total
            &&& s.timed_out().downstream_timeout_total == s.downstream_timeout_total.wrapping_add(1)
            &&& s.timed_out().drained_total == s.drained_total
        }),
{
}

/// A connection is kept idle for at least as long as was asked for, in whole seconds, and
/// for less than a second longer; never for no time at all.
pub proof fn idle_time_is_rounded_up(millis: u64)
    ensures
        idle_seconds(millis) >= 1,
        idle_seconds(millis) * 1000 >= millis,
        millis > 0 ==> idle_seconds(millis) * 1000 < millis + 1000,
{
}

} // verus!
