//! Event data points of event sources, and the time window of recent events kept per source.

use vstd::prelude::*;
use std::collections::VecDeque;
use crate::json::{members_view, Json, JsonView};

verus! {

/// A data point of an event source: its source, when it happened, and its fields in order.
#[derive(Debug)]
pub struct EventData {
    pub source_id: String,
    pub timestamp_ms: i64,
    /// Field names and values; no name occurs twice.
    pub fields: Vec<(String, Json)>,
}

/// The mathematical value of an event.
pub struct EventView {
    pub source_id: Seq<char>,
    pub timestamp_ms: i64,
    pub fields: Seq<(Seq<char>, JsonView)>,
}

impl View for EventData {
    type V = EventView;

    open spec fn view(&self) -> EventView {
        EventView { source_id: self.source_id@, timestamp_ms: self.timestamp_ms, fields: members_view(self.fields@) }
    }
}

/// The views of a list of events.
pub open spec fn events_view(s: Seq<EventData>) -> Seq<EventView> {
    s.map_values(|e: EventData| e@)
}

/// The events after dropping, from the front, those older than `cutoff` (up to the first that is
/// not).
pub open spec fn drop_expired(s: Seq<EventView>, cutoff: i64) -> Seq<EventView>
    decreases s.len(),
{
    if s.len() > 0 && s[0].timestamp_ms < cutoff {
        drop_expired(s.subrange(1, s.len() as int), cutoff)
    } else {
        s
    }
}

/// The events whose time lies in `[from, to]`, in order.
pub open spec fn events_in_range(s: Seq<EventView>, from: i64, to: i64) -> Seq<EventView>
    decreases s.len(),
{
    if s.len() == 0 {
        s
    } else {
        let p = events_in_range(s.drop_last(), from, to);
        if from <= s.last().timestamp_ms <= to {
            p.push(s.last())
        } else {
            p
        }
    }
}

/// The events after adding `e` at time `now_ms` to a buffer spanning `span`: those at the front
/// older than `now_ms - span` are dropped first (none when that time is outside the range of
/// `i64`).
pub open spec fn pushed_at(s: Seq<EventView>, span: i64, now_ms: i64, e: EventView) -> Seq<EventView> {
    (if i64::MIN <= now_ms - span <= i64::MAX { drop_expired(s, (now_ms - span) as i64) } else { s }).push(e)
}

/// The recent events of one source, kept for a span of time.
#[derive(Debug)]
pub struct RingBuffer {
    data: VecDeque<EventData>,
    max_duration_ms: i64,
}

impl View for RingBuffer {
    type V = Seq<EventView>;

    closed spec fn view(&self) -> Seq<EventView> {
        events_view(self.data@)
    }
}

impl RingBuffer {
    /// The span of time the buffer keeps.
    pub closed spec fn span(&self) -> i64 {
        self.max_duration_ms
    }

    /// An empty buffer keeping `max_duration_ms` of events.
    pub fn new(max_duration_ms: i64) -> (r: RingBuffer)
        ensures
            r@ == Seq::<EventView>::empty(),
            r.span() == max_duration_ms,
    {
        let r = RingBuffer { data: VecDeque::new(), max_duration_ms };
        proof {
            assert(r@ =~= Seq::<EventView>::empty());
        }
        r
    }

    /// Adds an event at time `now_ms` (see `pushed_at`).
    pub fn push_at(&mut self, event: EventData, now_ms: i64)
        ensures
            final(self).span() == old(self).span(),
            final(self)@ == pushed_at(old(self)@, old(self).span(), now_ms, event@),
    {
        let ghost start = self@;
        match now_ms.checked_sub(self.max_duration_ms) {
            Some(cutoff) => {
                loop
                    invariant
                        drop_expired(self@, cutoff) == drop_expired(start, cutoff),
                        self.max_duration_ms == old(self).max_duration_ms,
                    ensures
                        self@ == drop_expired(start, cutoff),
                        self.max_duration_ms == old(self).max_duration_ms,
                    decreases self.data@.len(),
                {
                    if self.data.len() == 0 {
                        break;
                    }
                    if self.data[0].timestamp_ms < cutoff {
                        let ghost before = self@;
                        let _gone = self.data.pop_front();
                        proof {
                            assert(self@ =~= before.subrange(1, before.len() as int));
                        }
                    } else {
                        break;
                    }
                }
            },
            None => {},
        }
        let ghost mid = self@;
        self.data.push_back(event);
        proof {
            assert(self@ =~= mid.push(event@));
        }
    }

    /// The events whose time lies in `[from_ms, to_ms]`, in order.
    pub fn get_range(&self, from_ms: i64, to_ms: i64) -> (r: Vec<&EventData>)
        ensures
            r@.map_values(|e: &EventData| e@) == events_in_range(self@, from_ms, to_ms),
    {
        let ghost s = self@;
        let mut out: Vec<&EventData> = Vec::new();
        let mut i: usize = 0;
        proof {
            assert(s.take(0) =~= Seq::<EventView>::empty());
            assert(out@.map_values(|e: &EventData| e@) =~= Seq::<EventView>::empty());
        }
        while i < self.data.len()
            invariant
                i <= self.data@.len(),
                s == events_view(self.data@),
                out@.map_values(|e: &EventData| e@) == events_in_range(s.take(i as int), from_ms, to_ms),
            decreases self.data@.len() - i,
        {
            let e = &self.data[i];
            let ghost prev = out@;
            proof {
                let t = s.take(i + 1);
                assert(t.drop_last() =~= s.take(i as int));
                assert(t.last() == s[i as int]);
                assert(s[i as int] == e@);
            }
            if from_ms <= e.timestamp_ms && e.timestamp_ms <= to_ms {
                out.push(e);
                proof {
                    assert(out@.map_values(|e: &EventData| e@) =~= prev.map_values(|e: &EventData| e@).push(e@));
                }
            }
            i = i + 1;
        }
        proof {
            assert(s.take(self.data@.len() as int) =~= s);
        }
        out
    }
}

impl RingBuffer {
    /// Adds an event at the current time (see `push_at`).
    pub fn push(&mut self, event: EventData)
        ensures
            final(self).span() == old(self).span(),
            exists|now_ms: i64| final(self)@ == #[trigger] pushed_at(old(self)@, old(self).span(), now_ms, event@),
    {
        let now_ms = crate::storage::now_millis();
        self.push_at(event, now_ms);
    }
}

/// The event just added to a buffer is the last one any range covering its time returns.
pub proof fn lemma_pushed_event_in_range(s: Seq<EventView>, span: i64, now_ms: i64, e: EventView, from: i64, to: i64)
    requires
        from <= e.timestamp_ms <= to,
    ensures
        events_in_range(pushed_at(s, span, now_ms, e), from, to).len() > 0,
        events_in_range(pushed_at(s, span, now_ms, e), from, to).last() == e,
{
    let p = pushed_at(s, span, now_ms, e);
    assert(p.last() == e);
}

} // verus!
