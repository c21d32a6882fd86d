//! Circuit breakers.
//!
//! A budget stops a single call from running away. This is the layer above: it
//! notices when a revision is consistently failing, so that it can be taken out
//! of service and a bad self-modification degrades into a rollback rather than
//! an agent nobody can reach.
use vstd::prelude::*;

use crate::slot::{law_keys_tell_slots_apart, slot_key, Slot, SlotView};
use crate::table::Table;
use crate::text;
use crate::text::trimmed;
use crate::time::{span_since, Clock, Span};

verus! {

/// The failures of every slot.
pub struct Breakers {
    /// By slot key: when each failure happened, newest last.
    failures: Table<Vec<Span>>,
    window: Span,
    threshold: usize,
    clock: Clock,
}

/// What is known of the failures of every slot.
#[verifier::ext_equal]
pub struct BreakersView {
    /// By slot key: when each failure happened, newest last.
    pub failures: Map<Seq<char>, Seq<Span>>,
    /// How long a failure counts.
    pub window: Span,
    /// How many trip the breaker.
    pub threshold: usize,
}

/// The failures that still count.
pub open spec fn recent(times: Seq<Span>, now: Span, window: Span) -> Seq<Span>
    decreases times.len(),
{
    if times.len() == 0 {
        Seq::empty()
    } else if span_since(now, times.last()).total() < window.total() {
        recent(times.drop_last(), now, window).push(times.last())
    } else {
        recent(times.drop_last(), now, window)
    }
}

impl BreakersView {
    /// The failures of a slot.
    pub open spec fn of(self, key: Seq<char>) -> Seq<Span> {
        if self.failures.contains_key(key) {
            self.failures[key]
        } else {
            Seq::empty()
        }
    }

    /// One more failure of a slot; those that no longer count are forgotten.
    pub open spec fn failed(self, key: Seq<char>, now: Span) -> BreakersView {
        BreakersView {
            failures: self.failures.insert(
                key,
                recent(self.of(key), now, self.window).push(now),
            ),
            ..self
        }
    }

    /// A clean slate for a slot.
    pub open spec fn cleared(self, key: Seq<char>) -> BreakersView {
        BreakersView { failures: self.failures.remove(key), ..self }
    }

    /// Whether a slot has failed often enough to be taken out of service.
    pub open spec fn tripped(self, key: Seq<char>) -> bool {
        self.of(key).len() >= self.threshold
    }

    /// Whether its spans are spans.
    pub open spec fn ok(self) -> bool {
        &&& self.window.ok()
        &&& forall|key: Seq<char>, i: int| #![trigger self.failures[key][i]]
            self.failures.contains_key(key) && 0 <= i < self.failures[key].len()
                ==> self.failures[key][i].ok()
    }
}

spec fn time_map(m: Map<Seq<char>, Vec<Span>>) -> Map<Seq<char>, Seq<Span>> {
    m.map_values(|v: Vec<Span>| v@)
}

impl View for Breakers {
    type V = BreakersView;

    closed spec fn view(&self) -> BreakersView {
        BreakersView {
            failures: time_map(self.failures@),
            window: self.window,
            threshold: self.threshold,
        }
    }
}

proof fn lemma_recent_ok(times: Seq<Span>, now: Span, window: Span)
    requires
        forall|i: int| 0 <= i < times.len() ==> (#[trigger] times[i]).ok(),
    ensures
        forall|i: int|
            0 <= i < recent(times, now, window).len() ==> (#[trigger] recent(
                times,
                now,
                window,
            )[i]).ok(),
        recent(times, now, window).len() <= times.len(),
    decreases times.len(),
{
    if times.len() > 0 {
        lemma_recent_ok(times.drop_last(), now, window);
    }
}

fn still_counting(times: &Vec<Span>, now: Span, window: Span) -> (r: Vec<Span>)
    requires
        forall|i: int| 0 <= i < times@.len() ==> (#[trigger] times@[i]).ok(),
        now.ok(),
        window.ok(),
    ensures
        r@ == recent(times@, now, window),
{
    let mut out: Vec<Span> = Vec::new();
    for i in 0..times.len()
        invariant
            forall|i: int| 0 <= i < times@.len() ==> (#[trigger] times@[i]).ok(),
            now.ok(),
            window.ok(),
            out@ == recent(times@.take(i as int), now, window),
    {
        proof {
            assert(times@.take(i + 1).drop_last() =~= times@.take(i as int));
        }
        let t = times[i];
        if now.since(&t).shorter_than(&window) {
            out.push(t);
        }
    }
    assert(times@.take(times@.len() as int) =~= times@);
    out
}

impl Breakers {
    /// The clock that failures are timed by, from the start.
    pub closed spec fn timer(self) -> Clock {
        self.clock
    }

    #[verifier::type_invariant]
    spec fn well_formed(self) -> bool {
        BreakersView {
            failures: time_map(self.failures@),
            window: self.window,
            threshold: self.threshold,
        }.ok()
    }

    /// Breakers that trip at a number of failures within a window.
    pub fn new(window: Span, threshold: usize) -> (r: Breakers)
        requires
            window.ok(),
        ensures
            r@.failures == Map::<Seq<char>, Seq<Span>>::empty(),
            r@.window == window,
            r@.threshold == threshold,
    {
        let failures: Table<Vec<Span>> = Table::new();
        assert(time_map(failures@) =~= Map::<Seq<char>, Seq<Span>>::empty());
        Breakers { failures, window, threshold, clock: Clock::start() }
    }

    /// Records a failure and reports whether the breaker has tripped.
    pub fn record_failure(&mut self, slot: &Slot) -> (r: bool)
        ensures
            exists|now: Span|
                #![trigger now.ok()]
                now.ok() && final(self)@ == old(self)@.failed(slot_key(slot@), now),
            r == final(self)@.tripped(slot_key(slot@)),
            final(self).timer() == old(self).timer(),
    {
        let now = self.clock.read();
        self.record_failure_at(slot, now)
    }

    /// Records a failure at a moment and reports whether the breaker has tripped.
    pub fn record_failure_at(&mut self, slot: &Slot, now: Span) -> (r: bool)
        requires
            now.ok(),
        ensures
            final(self)@ == old(self)@.failed(slot_key(slot@), now),
            r == final(self)@.tripped(slot_key(slot@)),
            final(self).timer() == old(self).timer(),
    {
        proof {
            use_type_invariant(&*self);
        }
        let ghost was = self@;
        let key = slot.key();
        let ghost k = key@;
        let mut entry: Vec<Span> = match self.failures.get(key.as_str()) {
            Some(times) => {
                proof {
                    assert(was.failures.contains_key(k) && was.failures[k] == times@);
                    assert forall|i: int| 0 <= i < times@.len() implies (#[trigger] times@[i]).ok() by {
                        assert(was.failures[k][i].ok());
                    }
                }
                still_counting(times, now, self.window)
            },
            None => {
                assert(!was.failures.contains_key(k));
                Vec::new()
            },
        };
        assert(entry@ == recent(was.of(k), now, was.window));
        proof {
            assert forall|i: int| 0 <= i < was.of(k).len() implies (#[trigger] was.of(k)[i]).ok() by {
                assert(was.failures[k][i].ok());
            }
            lemma_recent_ok(was.of(k), now, was.window);
        }
        entry.push(now);
        let tripped = entry.len() >= self.threshold;
        let mut table: Table<Vec<Span>> = Table::new();
        assert(time_map(table@) =~= Map::<Seq<char>, Seq<Span>>::empty());
        std::mem::swap(&mut table, &mut self.failures);
        let ghost had = table@;
        let ghost v = entry;
        let _ = table.insert(key, entry);
        proof {
            assert(table@ == had.insert(k, v));
            assert(time_map(table@) =~= was.failed(k, now).failures);
            assert(was.failed(k, now).ok());
        }
        self.failures = table;
        tripped
    }

    /// Called after a healthy result, and after a rollback, so a recovered slot
    /// starts from a clean slate.
    pub fn clear(&mut self, slot: &Slot)
        ensures
            final(self)@ == old(self)@.cleared(slot_key(slot@)),
            final(self).timer() == old(self).timer(),
    {
        proof {
            use_type_invariant(&*self);
        }
        let ghost was = self@;
        let key = slot.key();
        let mut table: Table<Vec<Span>> = Table::new();
        assert(time_map(table@) =~= Map::<Seq<char>, Seq<Span>>::empty());
        std::mem::swap(&mut table, &mut self.failures);
        let _ = table.remove(key.as_str());
        proof {
            assert(time_map(table@) =~= was.cleared(key@).failures);
            assert(was.cleared(key@).ok());
        }
        self.failures = table;
    }

    /// How many failures of a slot are on record.
    pub fn failure_count(&self, slot: &Slot) -> (r: usize)
        ensures
            r == self@.of(slot_key(slot@)).len(),
    {
        let key = slot.key();
        match self.failures.get(key.as_str()) {
            Some(times) => times.len(),
            None => 0,
        }
    }
}

// --- reports ----------------------------------------------------------------

/// What is reported of a slot that tripped its breaker, given what came of
/// rolling it back.
pub open spec fn trip_text(
    slot: SlotView,
    detail: Seq<char>,
    rollback: Result<String, String>,
) -> Seq<char> {
    match rollback {
        Ok(message) => slot_key(slot) + " kept failing ("@ + detail + "); "@ + message@,
        Err(e) => slot_key(slot) + " kept failing ("@ + detail
            + ") and could not be rolled back: "@ + e@,
    }
}

/// What is reported of a slot that tripped its breaker. A slot that was rolled
/// back starts over; one with nothing to fall back to keeps its failures.
pub fn report_trip(
    breakers: &mut Breakers,
    slot: &Slot,
    detail: &str,
    rollback: &Result<String, String>,
) -> (r: String)
    ensures
        r@ == trip_text(slot@, detail@, *rollback),
        final(breakers)@ == if rollback is Ok {
            old(breakers)@.cleared(slot_key(slot@))
        } else {
            old(breakers)@
        },
        final(breakers).timer() == old(breakers).timer(),
{
    match rollback {
        Ok(message) => {
            breakers.clear(slot);
            slot.key().concat(" kept failing (").concat(detail).concat("); ").concat(
                message.as_str(),
            )
        },
        Err(e) => slot.key().concat(" kept failing (").concat(detail).concat(
            ") and could not be rolled back: ",
        ).concat(e.as_str()),
    }
}

/// Why a probe of the agent failed, if it did. An agent that is not loaded is
/// no failure; one that answers with nothing is.
pub open spec fn probe_fault(answer: Option<Result<String, String>>) -> Option<Seq<char>> {
    match answer {
        None => None,
        Some(Ok(health)) => if trimmed(health@).len() == 0 {
            Some("health probe: health returned nothing"@)
        } else {
            None
        },
        Some(Err(e)) => Some("health probe: "@ + e@),
    }
}

/// Why a probe of the agent failed, if it did.
pub fn judge_probe(answer: &Option<Result<String, String>>) -> (r: Option<String>)
    ensures
        text::text_of(r) == probe_fault(*answer),
{
    match answer {
        None => None,
        Some(Ok(health)) => if text::is_blank(health.as_str()) {
            Some("health probe: health returned nothing".to_owned())
        } else {
            None
        },
        Some(Err(e)) => Some("health probe: ".to_owned().concat(e.as_str())),
    }
}

// --- laws -------------------------------------------------------------------

/// The failures of one slot are never another's.
pub proof fn law_breakers_are_per_slot(b: BreakersView, slot: SlotView, other: SlotView, now: Span)
    requires
        slot != other,
    ensures
        b.failed(slot_key(slot), now).of(slot_key(other)) == b.of(slot_key(other)),
        b.cleared(slot_key(slot)).of(slot_key(other)) == b.of(slot_key(other)),
{
    if slot_key(slot) == slot_key(other) {
        law_keys_tell_slots_apart(slot, other);
    }
}

/// A slot that recovered starts from nothing.
pub proof fn law_recovery_clears_the_breaker(b: BreakersView, key: Seq<char>)
    ensures
        b.cleared(key).of(key).len() == 0,
{
}

/// Everything that failed within the window counts: the breaker trips at the
/// failure that makes the number full.
pub proof fn law_the_breaker_trips_when_the_number_is_full(
    b: BreakersView,
    key: Seq<char>,
    now: Span,
)
    requires
        forall|i: int|
            0 <= i < b.of(key).len() ==> span_since(now, #[trigger] b.of(key)[i]).total()
                < b.window.total(),
    ensures
        b.failed(key, now).of(key) == b.of(key).push(now),
        b.failed(key, now).tripped(key) <==> b.of(key).len() + 1 >= b.threshold,
{
    lemma_all_recent(b.of(key), now, b.window);
}

proof fn lemma_all_recent(times: Seq<Span>, now: Span, window: Span)
    requires
        forall|i: int|
            0 <= i < times.len() ==> span_since(now, #[trigger] times[i]).total() < window.total(),
    ensures
        recent(times, now, window) == times,
    decreases times.len(),
{
    if times.len() > 0 {
        assert forall|i: int| 0 <= i < times.drop_last().len() implies span_since(
            now,
            #[trigger] times.drop_last()[i],
        ).total() < window.total() by {
            assert(times.drop_last()[i] == times[i]);
        }
        lemma_all_recent(times.drop_last(), now, window);
        assert(times.drop_last().push(times.last()) =~= times);
    }
}

/// A failure outside the window is forgotten.
pub proof fn law_old_failures_are_forgotten(b: BreakersView, key: Seq<char>, now: Span)
    requires
        forall|i: int|
            0 <= i < b.of(key).len() ==> span_since(now, #[trigger] b.of(key)[i]).total()
                >= b.window.total(),
    ensures
        b.failed(key, now).of(key) == seq![now],
{
    lemma_none_recent(b.of(key), now, b.window);
    assert(Seq::<Span>::empty().push(now) =~= seq![now]);
}

proof fn lemma_none_recent(times: Seq<Span>, now: Span, window: Span)
    requires
        forall|i: int|
            0 <= i < times.len() ==> span_since(now, #[trigger] times[i]).total() >= window.total(),
    ensures
        recent(times, now, window) == Seq::<Span>::empty(),
    decreases times.len(),
{
    if times.len() > 0 {
        assert forall|i: int| 0 <= i < times.drop_last().len() implies span_since(
            now,
            #[trigger] times.drop_last()[i],
        ).total() >= window.total() by {
            assert(times.drop_last()[i] == times[i]);
        }
        lemma_none_recent(times.drop_last(), now, window);
    }
}

/// A failure counts exactly as long as it is younger than the window, and those that
/// count are kept in order.
pub proof fn law_a_failure_counts_for_its_window(
    before: Seq<Span>,
    t: Span,
    after: Seq<Span>,
    now: Span,
    window: Span,
)
    ensures
        recent(before + seq![t] + after, now, window) == recent(before, now, window) + (
        if span_since(now, t).total() < window.total() {
            seq![t]
        } else {
            Seq::empty()
        }) + recent(after, now, window),
        recent(Seq::empty(), now, window).len() == 0,
{
    let one = seq![t];
    lemma_recent_add(before + one, after, now, window);
    lemma_recent_add(before, one, now, window);
    assert(one.drop_last() =~= Seq::<Span>::empty());
    assert(one.last() == t);
    assert(recent(Seq::<Span>::empty(), now, window) == Seq::<Span>::empty());
    if span_since(now, t).total() < window.total() {
        assert(recent(one, now, window) =~= one);
    } else {
        assert(recent(one, now, window) =~= Seq::<Span>::empty());
    }
}

proof fn lemma_recent_add(a: Seq<Span>, b: Seq<Span>, now: Span, window: Span)
    ensures
        recent(a + b, now, window) == recent(a, now, window) + recent(b, now, window),
    decreases b.len(),
{
    if b.len() == 0 {
        assert(a + b =~= a);
        assert(recent(a, now, window) + recent(b, now, window) =~= recent(a, now, window));
    } else {
        assert((a + b).drop_last() =~= a + b.drop_last());
        assert((a + b).last() == b.last());
        lemma_recent_add(a, b.drop_last(), now, window);
        let x = recent(a, now, window);
        let y = recent(b.drop_last(), now, window);
        if span_since(now, b.last()).total() < window.total() {
            assert((x + y).push(b.last()) =~= x + y.push(b.last()));
        }
    }
}

/// A breaker is tripped exactly where as many failures count as trip it; a failure is
/// always counted, and neither a failure nor a recovery changes what trips a breaker.
pub proof fn law_a_breaker_trips_at_its_number(b: BreakersView, key: Seq<char>, now: Span)
    ensures
        b.tripped(key) <==> b.of(key).len() >= b.threshold,
        b.failed(key, now).of(key).len() >= 1,
        b.failed(key, now).of(key).last() == now,
        b.threshold <= 1 ==> b.failed(key, now).tripped(key),
        b.threshold > 0 ==> !b.cleared(key).tripped(key),
        b.failed(key, now).window == b.window,
        b.failed(key, now).threshold == b.threshold,
        b.cleared(key).window == b.window,
        b.cleared(key).threshold == b.threshold,
{
}

/// A healthy answer is one that says something; what else an answer comes to is said,
/// and no answer at all is no fault of the agent's.
pub proof fn law_a_probe_wants_an_answer(answer: Option<Result<String, String>>)
    ensures
        match answer {
            None => probe_fault(answer) is None,
            Some(Ok(health)) => probe_fault(answer) is None <==> (exists|k: int|
                0 <= k < health@.len() && !text::is_white(#[trigger] health@[k])),
            Some(Err(e)) => probe_fault(answer) matches Some(f) && text::ends(f, e@),
        },
{
    match answer {
        Some(Ok(health)) => {
            text::lemma_blank(health@);
            if trimmed(health@).len() > 0 {
                let k = choose|k: int| 0 <= k < health@.len() && !text::is_white(health@[k]);
                assert(!text::is_white(health@[k]));
            }
        },
        Some(Err(e)) => {
            let f = "health probe: "@ + e@;
            assert(f.subrange(f.len() - e@.len(), f.len() as int) =~= e@);
        },
        None => {},
    }
}

/// What is told of a tripped breaker names the slot, what went wrong, and what became
/// of the rollback.
pub proof fn law_a_trip_is_told(
    slot: SlotView,
    detail: Seq<char>,
    rollback: Result<String, String>,
)
    ensures
        text::begins(trip_text(slot, detail, rollback), slot_key(slot)),
        text::occurs(trip_text(slot, detail, rollback), detail),
        text::ends(
            trip_text(slot, detail, rollback),
            match rollback {
                Ok(m) => m@,
                Err(e) => e@,
            },
        ),
{
    let key = slot_key(slot);
    let t = trip_text(slot, detail, rollback);
    assert(t.subrange(0, key.len() as int) =~= key);
    let lead = key + " kept failing ("@;
    match rollback {
        Ok(m) => {
            text::lemma_occurs_between(lead, detail, "); "@ + m@);
            assert(t =~= lead + detail + ("); "@ + m@));
            assert(t.subrange(t.len() - m@.len(), t.len() as int) =~= m@);
        },
        Err(e) => {
            text::lemma_occurs_between(lead, detail, ") and could not be rolled back: "@ + e@);
            assert(t =~= lead + detail + (") and could not be rolled back: "@ + e@));
            assert(t.subrange(t.len() - e@.len(), t.len() as int) =~= e@);
        },
    }
}

} // verus!
