//! The calendar: events, the rule for when two of them overlap, and a store
//! that keeps them in time order and answers range queries.

use std::ops::Range;
use vstd::prelude::*;
use vstd::slice::slice_subrange;

verus! {

/// Something that takes place at a moment in time and lasts for a while.
#[derive(Clone, Debug, PartialEq, Eq)]
pub struct Event {
    /// Who created the event; may be empty.
    pub organizer: String,
    /// Free text that says what the event is.
    pub description: String,
    /// The start, in seconds since the Unix epoch (UTC).
    pub date: i64,
    /// The length in seconds; zero is an event without extent.
    pub duration: u64,
}

/// The store keeps one event per `(date, duration)` pair.
pub open spec fn same_key(a: Event, b: Event) -> bool {
    a.date == b.date && a.duration == b.duration
}

/// The order of the store: by date, and among equal dates by duration.
pub open spec fn before(a: Event, b: Event) -> bool {
    a.date < b.date || (a.date == b.date && a.duration < b.duration)
}

/// Each event comes before all that follow it; no key occurs twice.
pub open spec fn sorted(s: Seq<Event>) -> bool {
    forall|i: int, j: int| 0 <= i < j < s.len() ==> before(#[trigger] s[i], #[trigger] s[j])
}

/// Some event of `s` has the key of `e`.
pub open spec fn has_key(s: Seq<Event>, e: Event) -> bool {
    exists|i: int| 0 <= i < s.len() && same_key(#[trigger] s[i], e)
}

/// The number of events of `s` that come before `e`.
pub open spec fn rank(s: Seq<Event>, e: Event) -> int {
    s.filter(|x: Event| before(x, e)).len() as int
}

/// What the store holds after `e` is offered to a store that held `s`: an
/// event whose key is taken is dropped, any other goes to its place.
pub open spec fn inserted(s: Seq<Event>, e: Event) -> Seq<Event> {
    if has_key(s, e) {
        s
    } else {
        s.insert(rank(s, e), e)
    }
}

/// The events of `s` that start in `[start, end)`, in the order of `s`.
pub open spec fn within(s: Seq<Event>, start: int, end: int) -> Seq<Event> {
    s.filter(|x: Event| start <= x.date < end)
}

impl Event {
    /// The first moment after the event.
    pub open spec fn end(&self) -> int {
        self.date + self.duration
    }

    /// Two events overlap when they start together, or when the earlier one
    /// ends strictly after the later one starts.
    pub open spec fn overlaps(&self, other: &Event) -> bool {
        if self.date < other.date {
            self.end() > other.date
        } else if other.date < self.date {
            other.end() > self.date
        } else {
            true
        }
    }

    /// Whether the two events overlap. Events that touch (one ends at the
    /// second at which the other starts) do not.
    pub fn overlap(&self, other: &Event) -> (r: bool)
        ensures
            r == self.overlaps(other),
    {
        if self.date < other.date {
            self.date as i128 + self.duration as i128 > other.date as i128
        } else if other.date < self.date {
            other.date as i128 + other.duration as i128 > self.date as i128
        } else {
            true
        }
    }

    /// An event without text or extent that starts at `date`: the mark of
    /// an end of a range, made to be looked for and never stored.
    pub fn from_date(date: i64) -> (mark: Event)
        ensures
            mark.organizer@ == Seq::<char>::empty(),
            mark.description@ == Seq::<char>::empty(),
            mark.date == date,
            mark.duration == 0,
    {
        Event { organizer: String::new(), description: String::new(), date: date, duration: 0 }
    }

    /// Whether this event comes before `other` in the calendar's order.
    pub fn comes_before(&self, other: &Event) -> (r: bool)
        ensures
            r == before(*self, *other),
    {
        self.date < other.date || (self.date == other.date && self.duration < other.duration)
    }
}

/// A filter that accepts exactly the positions `lo..hi` keeps that block.
pub proof fn lemma_filter_block<A>(s: Seq<A>, pred: spec_fn(A) -> bool, lo: int, hi: int)
    requires
        0 <= lo <= hi <= s.len(),
        forall|j: int| 0 <= j < s.len() ==> (pred(#[trigger] s[j]) <==> lo <= j < hi),
    ensures
        s.filter(pred) == s.subrange(lo, hi),
    decreases s.len(),
{
    reveal(Seq::filter);
    if s.len() > 0 {
        let n = s.len() as int;
        let t = s.drop_last();
        assert(forall|j: int| 0 <= j < t.len() ==> t[j] == s[j]);
        if pred(s.last()) {
            assert(pred(s[n - 1]));
            lemma_filter_block(t, pred, lo, n - 1);
            assert(s.subrange(lo, hi) =~= t.subrange(lo, n - 1).push(s.last()));
        } else if hi < n {
            lemma_filter_block(t, pred, lo, hi);
            assert(s.subrange(lo, hi) =~= t.subrange(lo, hi));
        } else {
            assert(!pred(s[n - 1]));
            lemma_filter_block(t, pred, n - 1, n - 1);
            assert(s.subrange(lo, hi) =~= t.subrange(n - 1, n - 1));
        }
    } else {
        assert(s.subrange(lo, hi) =~= s.filter(pred));
    }
}

/// The events of a calendar, in time order. They are kept in a vector: to
/// find a range takes two binary searches, to add an event one binary search
/// and the moving of the events that follow it.
pub struct Cal {
    events: Vec<Event>,
}

impl Cal {
    /// The events held, earliest first.
    pub closed spec fn view(&self) -> Seq<Event> {
        self.events@
    }

    /// The events are in order. Every calendar that `new` and `add_event`
    /// produce is.
    pub open spec fn wf(&self) -> bool {
        sorted(self@)
    }

    /// A calendar without events.
    pub fn new() -> (cal: Cal)
        ensures
            cal@ == Seq::<Event>::empty(),
            cal.wf(),
    {
        Cal { events: Vec::new() }
    }

    /// The number of events held.
    pub fn len(&self) -> (n: usize)
        ensures
            n == self@.len(),
    {
        self.events.len()
    }

    /// The first position whose event does not come before `key`.
    fn lower_bound(&self, key: &Event) -> (at: usize)
        requires
            self.wf(),
        ensures
            at <= self@.len(),
            forall|j: int| 0 <= j < self@.len() ==> (before(#[trigger] self@[j], *key) <==> j < at),
    {
        let mut lo: usize = 0;
        let mut hi: usize = self.events.len();
        while lo < hi
            invariant
                lo <= hi <= self.events@.len(),
                sorted(self.events@),
                forall|j: int| 0 <= j < lo ==> before(#[trigger] self.events@[j], *key),
                forall|j: int|
                    hi <= j < self.events@.len() ==> !before(#[trigger] self.events@[j], *key),
            decreases hi - lo,
        {
            let mid: usize = lo + (hi - lo) / 2;
            if self.events[mid].comes_before(key) {
                lo = mid + 1;
            } else {
                hi = mid;
            }
        }
        lo
    }

    /// Offers an event to the calendar. It is taken, and `true` returned,
    /// unless the calendar holds an event with the same date and duration:
    /// then the calendar stays as it was.
    pub fn add_event(&mut self, event: Event) -> (added: bool)
        requires
            old(self).wf(),
        ensures
            added == !has_key(old(self)@, event),
            final(self)@ == inserted(old(self)@, event),
            final(self).wf(),
    {
        let at = self.lower_bound(&event);
        proof {
            lemma_rank(self@, event);
            lemma_inserted(self@, event);
            if at < rank(self@, event) {
                assert(before(self@[at as int], event));
            } else if rank(self@, event) < at {
                assert(before(self@[rank(self@, event)], event));
            }
        }
        if at < self.events.len() && self.events[at].date == event.date && self.events[at].duration
            == event.duration {
            false
        } else {
            self.events.insert(at, event);
            true
        }
    }

    /// The events that start in `[range.start, range.end)`, earliest first.
    /// The ends of the range are looked for as events without extent. An
    /// empty or inverted range gives no events.
    pub fn events_in(&self, range: Range<i64>) -> (found: &[Event])
        requires
            self.wf(),
        ensures
            found@ == within(self@, range.start as int, range.end as int),
            sorted(found@),
    {
        let ghost s = self.events@;
        let lo = self.lower_bound(&Event::from_date(range.start));
        let upper = self.lower_bound(&Event::from_date(range.end));
        let hi = if upper < lo { lo } else { upper };
        proof {
            let pred = |x: Event| range.start as int <= x.date < range.end as int;
            assert forall|j: int| 0 <= j < s.len() implies (pred(#[trigger] s[j]) <==> lo <= j
                < hi) by {
                if upper < lo && upper <= j < lo {
                    assert(s[j].date < range.start);
                }
            }
            lemma_filter_block(s, pred, lo as int, hi as int);
        }
        slice_subrange(self.events.as_slice(), lo, hi)
    }
}

/// The store after each event of `events` has been offered in turn to an
/// empty one.
pub open spec fn inserted_all(events: Seq<Event>) -> Seq<Event>
    decreases events.len(),
{
    if events.len() == 0 {
        Seq::<Event>::empty()
    } else {
        inserted(inserted_all(events.drop_last()), events.last())
    }
}

/// No earlier event of `events` has the key of the one at `i`.
pub open spec fn first_of_key(events: Seq<Event>, i: int) -> bool {
    &&& 0 <= i < events.len()
    &&& forall|k: int| 0 <= k < i ==> !same_key(#[trigger] events[k], events[i])
}

/// `x` is an event of `events`, and the first one with its key.
pub open spec fn kept(events: Seq<Event>, x: Event) -> bool {
    exists|i: int| #[trigger] first_of_key(events, i) && events[i] == x
}

/// Events that start at the same moment overlap, whatever their durations.
pub proof fn lemma_same_date_overlaps(a: Event, b: Event)
    requires
        a.date == b.date,
    ensures
        a.overlaps(&b),
{
}

/// Of two events the earlier overlaps the later exactly when it ends
/// strictly after the later starts.
pub proof fn lemma_earlier_overlaps(a: Event, b: Event)
    requires
        a.date < b.date,
    ensures
        a.overlaps(&b) == (a.date + a.duration > b.date),
        b.overlaps(&a) == a.overlaps(&b),
{
}

/// In an ordered store the events before `e` are the first `rank(s, e)`.
pub proof fn lemma_rank(s: Seq<Event>, e: Event)
    requires
        sorted(s),
    ensures
        0 <= rank(s, e) <= s.len(),
        forall|j: int| 0 <= j < s.len() ==> (before(#[trigger] s[j], e) <==> j < rank(s, e)),
    decreases s.len(),
{
    reveal(Seq::filter);
    if s.len() > 0 {
        let t = s.drop_last();
        assert(forall|j: int| 0 <= j < t.len() ==> t[j] == s[j]);
        lemma_rank(t, e);
        if before(s.last(), e) {
            if t.len() > 0 {
                assert(before(t[t.len() - 1], s[s.len() - 1]));
                assert(before(t[t.len() - 1], e));
            }
            assert(rank(t, e) == t.len());
        }
    }
}

/// Where the event at `j` of `s` stands once `e` has been offered.
pub open spec fn moved(s: Seq<Event>, e: Event, j: int) -> int {
    if has_key(s, e) || j < rank(s, e) {
        j
    } else {
        j + 1
    }
}

/// Offering an event keeps the store ordered and every event that it held.
/// The event is added, at its place, exactly when its key is new.
pub proof fn lemma_inserted(s: Seq<Event>, e: Event)
    requires
        sorted(s),
    ensures
        sorted(inserted(s, e)),
        has_key(inserted(s, e), e),
        has_key(s, e) ==> inserted(s, e) == s,
        !has_key(s, e) ==> inserted(s, e).len() == s.len() + 1 && inserted(s, e)[rank(s, e)] == e,
        forall|j: int| 0 <= j < s.len() ==> inserted(s, e)[moved(s, e, j)] == #[trigger] s[j],
{
    lemma_rank(s, e);
    let t = inserted(s, e);
    if has_key(s, e) {
    } else {
        let r = rank(s, e);
        assert(t[r] == e);
        assert(same_key(t[r], e));
        assert forall|i: int, j: int| 0 <= i < j < t.len() implies before(
            #[trigger] t[i],
            #[trigger] t[j],
        ) by {
            if j < r {
                assert(before(s[i], s[j]));
            } else if j == r {
                assert(before(s[i], e));
            } else if i < r {
                if i < j - 1 {
                    assert(before(s[i], s[j - 1]));
                }
                assert(!before(s[j - 1], e) && !same_key(s[j - 1], e));
            } else if i == r {
                assert(!before(s[j - 1], e) && !same_key(s[j - 1], e));
            } else {
                assert(before(s[i - 1], s[j - 1]));
            }
        }
    }
}

/// Offering an event whose key the store has just taken changes nothing:
/// the store keeps its size and its events, and the offer is refused.
pub proof fn lemma_offered_twice(s: Seq<Event>, e: Event, again: Event)
    requires
        sorted(s),
        same_key(e, again),
    ensures
        has_key(inserted(s, e), again),
        inserted(inserted(s, e), again) == inserted(s, e),
        inserted(inserted(s, e), again).len() == inserted(s, e).len(),
{
    lemma_inserted(s, e);
    let t = inserted(s, e);
    let i = choose|i: int| 0 <= i < t.len() && same_key(#[trigger] t[i], e);
    assert(same_key(t[i], again));
}

/// What a store holds after any sequence of offers: it is ordered, it has
/// the key of every event offered, and each event in it is the first that
/// was offered with its key.
pub proof fn lemma_inserted_all(events: Seq<Event>)
    ensures
        sorted(inserted_all(events)),
        forall|i: int| 0 <= i < events.len() ==> has_key(inserted_all(events), #[trigger] events[i]),
        forall|j: int|
            0 <= j < inserted_all(events).len() ==> kept(events, #[trigger] inserted_all(events)[j]),
    decreases events.len(),
{
    if events.len() > 0 {
        let prev = events.drop_last();
        let e = events.last();
        let n = prev.len() as int;
        let s = inserted_all(prev);
        let t = inserted_all(events);
        lemma_inserted_all(prev);
        lemma_inserted(s, e);
        lemma_rank(s, e);
        let r = rank(s, e);
        assert(forall|i: int| 0 <= i < n ==> prev[i] == events[i]);
        assert forall|i: int| 0 <= i < events.len() implies has_key(t, #[trigger] events[i]) by {
            if i < n {
                assert(has_key(s, prev[i]));
                let k = choose|k: int| 0 <= k < s.len() && same_key(#[trigger] s[k], prev[i]);
                let k2 = moved(s, e, k);
                assert(t[k2] == s[k]);
                assert(same_key(t[k2], events[i]));
            }
        }
        assert forall|j: int| 0 <= j < t.len() implies kept(events, #[trigger] t[j]) by {
            if has_key(s, e) || j != r {
                let k = if has_key(s, e) || j < r { j } else { j - 1 };
                assert(t[moved(s, e, k)] == s[k]);
                assert(kept(prev, s[k]));
                let i = choose|i: int| #[trigger] first_of_key(prev, i) && prev[i] == s[k];
                assert(first_of_key(events, i));
            } else {
                assert forall|k: int| 0 <= k < n implies !same_key(#[trigger] events[k], e) by {
                    if same_key(events[k], e) {
                        assert(has_key(s, prev[k]));
                        let w = choose|w: int| 0 <= w < s.len() && same_key(#[trigger] s[w], prev[k]);
                        assert(same_key(s[w], e));
                    }
                }
                assert(first_of_key(events, n));
            }
        }
    }
}

/// A query over a span that covers every event offered finds the whole
/// store: one event for each key that was offered, the first offered with
/// it, and the events in order of their dates.
pub proof fn lemma_full_span(events: Seq<Event>, start: int, end: int)
    requires
        forall|i: int| 0 <= i < events.len() ==> start <= (#[trigger] events[i]).date < end,
    ensures
        within(inserted_all(events), start, end) == inserted_all(events),
        sorted(within(inserted_all(events), start, end)),
        forall|i: int, j: int|
            0 <= i < j < within(inserted_all(events), start, end).len() ==> (#[trigger] within(
                inserted_all(events),
                start,
                end,
            )[i]).date <= (#[trigger] within(inserted_all(events), start, end)[j]).date,
        forall|i: int|
            0 <= i < events.len() ==> has_key(
                within(inserted_all(events), start, end),
                #[trigger] events[i],
            ),
        forall|j: int|
            0 <= j < within(inserted_all(events), start, end).len() ==> kept(
                events,
                #[trigger] within(inserted_all(events), start, end)[j],
            ),
{
    let s = inserted_all(events);
    lemma_inserted_all(events);
    let pred = |x: Event| start <= x.date < end;
    assert forall|j: int| 0 <= j < s.len() implies (pred(#[trigger] s[j]) <==> 0 <= j < s.len()) by {
        assert(kept(events, s[j]));
    }
    lemma_filter_block(s, pred, 0, s.len() as int);
    assert(s.subrange(0, s.len() as int) =~= s);
    assert forall|i: int, j: int| 0 <= i < j < s.len() implies (#[trigger] s[i]).date <= (
    #[trigger] s[j]).date by {
        assert(before(s[i], s[j]));
    }
}

} // verus!
