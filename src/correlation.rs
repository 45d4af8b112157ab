//! The correlation table of in-flight engine requests: it issues request
//! identifiers and hands each response's completion slot back exactly once.
use vstd::prelude::*;
use crate::text::{decimal_string, decimal_text, lemma_decimal_text_injective, lemma_decimal_text_value, parse_decimal};

verus! {

/// Why a request could not be registered.
#[derive(Clone, Copy, Debug, PartialEq, Eq, Structural)]
pub enum CorrelationError {
    /// Every identifier has been issued.
    IdsExhausted,
    /// The engine is gone: no response can come any more.
    EngineGone,
}

/// Pending requests, each an identifier with the slot of the caller that
/// waits for its response, the next identifier to issue, and whether the
/// engine is gone.
pub struct PendingTable<S> {
    entries: Vec<(u64, S)>,
    next_id: u64,
    closed: bool,
}

impl<S> PendingTable<S> {
    /// The pending requests, in order of registration.
    pub closed spec fn entries(&self) -> Seq<(u64, S)> {
        self.entries@
    }

    /// The identifier that the next registration receives.
    pub closed spec fn next_id(&self) -> u64 {
        self.next_id
    }

    /// The engine is gone; no request is accepted any more.
    pub closed spec fn is_closed(&self) -> bool {
        self.closed
    }

    /// Every identifier issued so far.
    pub open spec fn issued(&self) -> Set<u64> {
        Set::new(|i: u64| 1 <= i < self.next_id())
    }

    /// Identifiers of pending requests are distinct, and each was issued.
    pub open spec fn wf(&self) -> bool {
        &&& 1 <= self.next_id()
        &&& self.is_closed() ==> self.entries().len() == 0
        &&& forall|k: int| 0 <= k < self.entries().len() ==> self.issued().contains(#[trigger] self.entries()[k].0)
        &&& forall|k: int, l: int| 0 <= k < l < self.entries().len() ==> #[trigger] self.entries()[k].0 != #[trigger] self.entries()[l].0
    }

    /// Some pending request has the identifier whose text is `id_text`.
    pub open spec fn pending_text(&self, id_text: Seq<char>) -> bool {
        exists|k: int| 0 <= k < self.entries().len() && decimal_text(#[trigger] self.entries()[k].0 as nat) == id_text
    }

    /// An empty table; the first identifier issued is 1.
    pub fn new() -> (r: Self)
        ensures
            r.wf(),
            r.entries().len() == 0,
            r.next_id() == 1,
            !r.is_closed(),
    {
        PendingTable { entries: Vec::new(), next_id: 1, closed: false }
    }

    /// The identifier that the next registration receives.
    pub fn upcoming_id(&self) -> (r: u64)
        ensures
            r == self.next_id(),
    {
        self.next_id
    }

    /// The number of pending requests.
    pub fn len(&self) -> (r: usize)
        ensures
            r == self.entries().len(),
    {
        self.entries.len()
    }

    /// Whether the engine is gone.
    pub fn closed(&self) -> (r: bool)
        ensures
            r == self.is_closed(),
    {
        self.closed
    }

    /// Registers a request whose caller waits on `slot`, and returns its
    /// fresh identifier. Fails once the engine is gone, or when every
    /// identifier has been issued.
    pub fn register(&mut self, slot: S) -> (r: Result<u64, CorrelationError>)
        requires
            old(self).wf(),
        ensures
            final(self).wf(),
            final(self).is_closed() == old(self).is_closed(),
            r == Err::<u64, CorrelationError>(CorrelationError::EngineGone) <==> old(self).is_closed(),
            r == Err::<u64, CorrelationError>(CorrelationError::IdsExhausted) <==> !old(self).is_closed()
                && old(self).next_id() == u64::MAX,
            r is Err ==> *final(self) == *old(self),
            r matches Ok(id) ==> {
                &&& id == old(self).next_id()
                &&& !old(self).issued().contains(id)
                &&& final(self).issued() == old(self).issued().insert(id)
                &&& final(self).entries() == old(self).entries().push((id, slot))
            },
    {
        if self.closed {
            return Err(CorrelationError::EngineGone);
        }
        if self.next_id == u64::MAX {
            return Err(CorrelationError::IdsExhausted);
        }
        let id = self.next_id;
        self.entries.push((id, slot));
        self.next_id = id + 1;
        assert(self.issued() =~= old(self).issued().insert(id));
        assert(forall|k: int| 0 <= k < old(self).entries().len() ==> #[trigger] old(self).entries()[k].0 < id);
        assert(forall|k: int| 0 <= k < old(self).entries().len() ==> #[trigger] self.entries()[k] == old(self).entries()[k]);
        Ok(id)
    }

    /// The position of the pending request whose identifier is `id`.
    fn position_of(&self, id: u64) -> (r: Option<usize>)
        ensures
            r matches Some(k) ==> k < self.entries().len() && self.entries()[k as int].0 == id,
            r is None ==> forall|k: int| 0 <= k < self.entries().len() ==> #[trigger] self.entries()[k].0 != id,
    {
        let mut k: usize = 0;
        while k < self.entries.len()
            invariant
                k <= self.entries@.len(),
                forall|j: int| 0 <= j < k ==> #[trigger] self.entries@[j].0 != id,
            decreases self.entries.len() - k,
        {
            if self.entries[k].0 == id {
                return Some(k);
            }
            k = k + 1;
        }
        None
    }

    /// Routes a response whose identifier reads `id_text`: when a pending
    /// request has that identifier, it is removed and its slot returned;
    /// otherwise (never issued, or already completed) nothing changes.
    pub fn complete(&mut self, id_text: &str) -> (r: Option<S>)
        requires
            old(self).wf(),
        ensures
            final(self).wf(),
            final(self).next_id() == old(self).next_id(),
            final(self).issued() == old(self).issued(),
            final(self).is_closed() == old(self).is_closed(),
            r is Some <==> old(self).pending_text(id_text@),
            r is None ==> *final(self) == *old(self),
            r matches Some(s) ==> exists|k: int| {
                &&& 0 <= k < old(self).entries().len()
                &&& decimal_text(old(self).entries()[k].0 as nat) == id_text@
                &&& s == old(self).entries()[k].1
                &&& final(self).entries() == old(self).entries().remove(k)
            },
    {
        let id = match parse_decimal(id_text) {
            Some(id) => id,
            None => {
                proof {
                    assert forall|k: int| 0 <= k < self.entries().len() implies decimal_text(#[trigger] self.entries()[k].0 as nat) != id_text@ by {
                        lemma_decimal_text_value(self.entries()[k].0 as nat);
                    }
                }
                return None;
            },
        };
        let canonical = decimal_string(id);
        if canonical != id_text.to_owned() {
            proof {
                assert forall|k: int| 0 <= k < self.entries().len() implies decimal_text(#[trigger] self.entries()[k].0 as nat) != id_text@ by {
                    lemma_decimal_text_value(self.entries()[k].0 as nat);
                }
            }
            return None;
        }
        match self.position_of(id) {
            Some(k) => {
                let (_, slot) = self.entries.remove(k);
                proof {
                    let old_entries = old(self).entries();
                    assert forall|a: int, b: int| 0 <= a < b < self.entries().len() implies #[trigger] self.entries()[a].0 != #[trigger] self.entries()[b].0 by {
                        let a2 = if a < k { a } else { a + 1 };
                        let b2 = if b < k { b } else { b + 1 };
                        assert(self.entries()[a] == old_entries[a2]);
                        assert(self.entries()[b] == old_entries[b2]);
                    }
                    assert forall|a: int| 0 <= a < self.entries().len() implies self.issued().contains(#[trigger] self.entries()[a].0) by {
                        let a2 = if a < k { a } else { a + 1 };
                        assert(self.entries()[a] == old_entries[a2]);
                    }
                }
                Some(slot)
            },
            None => {
                proof {
                    assert forall|k: int| 0 <= k < self.entries().len() implies decimal_text(#[trigger] self.entries()[k].0 as nat) != id_text@ by {
                        if decimal_text(self.entries()[k].0 as nat) == id_text@ {
                            lemma_decimal_text_injective(self.entries()[k].0 as nat, id as nat);
                        }
                    }
                }
                None
            },
        }
    }

    /// The engine is gone: every pending request is removed and the slots are
    /// returned, in order of registration, to be failed; later registrations
    /// fail. Identifiers already issued stay used.
    pub fn close(&mut self) -> (r: Vec<S>)
        requires
            old(self).wf(),
        ensures
            final(self).wf(),
            final(self).entries().len() == 0,
            final(self).is_closed(),
            final(self).next_id() == old(self).next_id(),
            final(self).issued() == old(self).issued(),
            r@.len() == old(self).entries().len(),
            r@ == old(self).entries().map_values(|e: (u64, S)| e.1),
    {
        let mut taken: Vec<(u64, S)> = Vec::new();
        std::mem::swap(&mut taken, &mut self.entries);
        self.closed = true;
        let mut r: Vec<S> = Vec::new();
        let ghost all = taken@;
        while taken.len() > 0
            invariant
                r@.len() <= all.len(),
                taken@ == all.subrange(r@.len() as int, all.len() as int),
                r@ == all.subrange(0, r@.len() as int).map_values(|e: (u64, S)| e.1),
            decreases taken.len(),
        {
            let (_, slot) = taken.remove(0);
            let ghost n = r@.len() as int;
            r.push(slot);
            assert(r@ =~= all.subrange(0, n + 1).map_values(|e: (u64, S)| e.1));
            assert(taken@ =~= all.subrange(n + 1, all.len() as int));
        }
        assert(all.subrange(0, all.len() as int) =~= all);
        r
    }
}

/// Identifiers issued along any run of the table are pairwise distinct,
/// however registrations, completions and closes interleave. `ts` holds the
/// table before and after every operation; no operation shrinks the issued
/// set (each one's contract says so). The `k`-th registration is the
/// operation at step `steps[k]`, and `ids[k]` the identifier it issued: one
/// not issued before that step and issued after it.
pub proof fn lemma_ids_pairwise_distinct<S>(ts: Seq<PendingTable<S>>, steps: Seq<int>, ids: Seq<u64>)
    requires
        steps.len() == ids.len(),
        forall|i: int| 0 <= i < ts.len() - 1 ==> #[trigger] ts[i].issued().subset_of(ts[i + 1].issued()),
        forall|k: int| 0 <= k < steps.len() ==> 0 <= #[trigger] steps[k] < ts.len() - 1,
        forall|k: int, l: int| 0 <= k < l < steps.len() ==> #[trigger] steps[k] < #[trigger] steps[l],
        forall|k: int| 0 <= k < ids.len() ==> !ts[steps[k]].issued().contains(#[trigger] ids[k]),
        forall|k: int| 0 <= k < ids.len() ==> ts[steps[k] + 1].issued().contains(#[trigger] ids[k]),
    ensures
        forall|k: int, l: int| 0 <= k < l < ids.len() ==> #[trigger] ids[k] != #[trigger] ids[l],
{
    assert forall|k: int, l: int| 0 <= k < l < ids.len() implies #[trigger] ids[k] != #[trigger] ids[l] by {
        assert(steps[k] < steps[l]);
        lemma_issued_grows(ts, steps[k] + 1, steps[l]);
        assert(ts[steps[k] + 1].issued().contains(ids[k]));
        assert(!ts[steps[l]].issued().contains(ids[l]));
    }
}

proof fn lemma_issued_grows<S>(ts: Seq<PendingTable<S>>, a: int, b: int)
    requires
        forall|i: int| 0 <= i < ts.len() - 1 ==> #[trigger] ts[i].issued().subset_of(ts[i + 1].issued()),
        0 <= a <= b < ts.len(),
    ensures
        ts[a].issued().subset_of(ts[b].issued()),
    decreases b - a,
{
    if a < b {
        lemma_issued_grows(ts, a + 1, b);
        assert(ts[a].issued().subset_of(ts[a + 1].issued()));
    }
}

/// A response whose identifier is stale or was never issued changes nothing:
/// every request pending before is pending after, and a later response for
/// it is still delivered.
pub proof fn lemma_stale_response_keeps_pending<S>(t: PendingTable<S>, u: PendingTable<S>, id_text: Seq<char>, other: Seq<char>)
    requires
        t.wf(),
        !t.pending_text(id_text),
        u == t,
        t.pending_text(other),
    ensures
        u.pending_text(other),
{
}

/// Completing one request leaves every other pending request pending.
pub proof fn lemma_others_stay_pending<S>(t: PendingTable<S>, u: PendingTable<S>, k: int, j: int)
    requires
        t.wf(),
        0 <= k < t.entries().len(),
        0 <= j < t.entries().len(),
        j != k,
        u.entries() == t.entries().remove(k),
    ensures
        u.pending_text(decimal_text(t.entries()[j].0 as nat)),
{
    let j2 = if j < k { j } else { j - 1 };
    assert(u.entries()[j2] == t.entries()[j]);
}

/// Once a response has completed a request, the table holds no request with
/// that identifier, so a second response with it unblocks nobody.
pub proof fn lemma_completed_not_pending<S>(t: PendingTable<S>, u: PendingTable<S>, id_text: Seq<char>, k: int)
    requires
        t.wf(),
        0 <= k < t.entries().len(),
        decimal_text(t.entries()[k].0 as nat) == id_text,
        u.entries() == t.entries().remove(k),
    ensures
        !u.pending_text(id_text),
{
    if u.pending_text(id_text) {
        let j = choose|j: int| 0 <= j < u.entries().len() && decimal_text(#[trigger] u.entries()[j].0 as nat) == id_text;
        let j2 = if j < k { j } else { j + 1 };
        assert(u.entries()[j] == t.entries()[j2]);
        lemma_decimal_text_injective(t.entries()[k].0 as nat, t.entries()[j2].0 as nat);
    }
}

} // verus!
