//! What to do when the watched directories change.
use vstd::prelude::*;

verus! {

/// What the watch on the directories gave.
#[derive(Clone, Copy)]
pub enum WatchEvent {
    /// A file was written or moved.
    Changed,
    /// The events did not fit into the buffer: the input was invalid.
    InvalidInput,
    /// Anything else went wrong.
    Failed,
}

/// What follows.
pub enum WatchStep {
    /// Read the forkpoint.
    ReadForkpoint(AwaitForkpoint),
    /// Warn, and wait for the next event.
    Warn,
    /// Give up.
    Abort,
}

/// The forkpoint has to be read.
pub struct AwaitForkpoint;

/// What follows once the forkpoint was read.
pub enum ForkpointStep<C> {
    /// Read the header of the proposed head.
    ReadHead(AwaitHead<C>),
    /// Wait for the next event.
    Skip,
}

/// The header of the proposed head has to be read.
pub struct AwaitHead<C> {
    pub high_certificate: C,
}

/// The tip that an event gives, where `high_certificate` and `proposed_head` are what could be
/// read when it came: a change gives one if both could be, and nothing else does.
pub open spec fn tip_of<C, H>(
    event: WatchEvent,
    high_certificate: Option<C>,
    proposed_head: Option<H>,
) -> Option<(C, H)> {
    match (event, high_certificate, proposed_head) {
        (WatchEvent::Changed, Some(certificate), Some(head)) => Some((certificate, head)),
        _ => None,
    }
}

/// The tips that a run of events gives, each event with what could be read when it came.
pub open spec fn tips<C, H>(events: Seq<(WatchEvent, Option<C>, Option<H>)>) -> Seq<(C, H)>
    decreases events.len(),
{
    if events.len() == 0 {
        Seq::empty()
    } else {
        let (event, high_certificate, proposed_head) = events.last();
        match tip_of(event, high_certificate, proposed_head) {
            Some(tip) => tips(events.drop_last()).push(tip),
            None => tips(events.drop_last()),
        }
    }
}

/// Decides what follows from an event. A change leads to a tip, too many events at once are
/// passed over with a warning, and nothing else is.
pub fn watch_step(event: WatchEvent) -> (step: WatchStep)
    ensures
        event is Changed <==> step is ReadForkpoint,
        event is InvalidInput <==> step is Warn,
        event is Failed <==> step is Abort,
{
    match event {
        WatchEvent::Changed => WatchStep::ReadForkpoint(AwaitForkpoint),
        WatchEvent::InvalidInput => WatchStep::Warn,
        WatchEvent::Failed => WatchStep::Abort,
    }
}

impl AwaitForkpoint {
    /// Goes on with the certificate of the forkpoint, if it could be read and parsed.
    pub fn resume<C>(self, high_certificate: Option<C>) -> (step: ForkpointStep<C>)
        ensures
            step == match high_certificate {
                Some(high_certificate) => ForkpointStep::ReadHead(AwaitHead { high_certificate }),
                None => ForkpointStep::Skip,
            },
    {
        match high_certificate {
            Some(high_certificate) => ForkpointStep::ReadHead(AwaitHead { high_certificate }),
            None => ForkpointStep::Skip,
        }
    }
}

impl<C> AwaitHead<C> {
    /// The tip, if the header could be read.
    pub fn resume<H>(self, proposed_head: Option<H>) -> (tip: Option<(C, H)>)
        ensures
            tip == match proposed_head {
                Some(head) => Some((self.high_certificate, head)),
                None => None,
            },
            tip == tip_of(WatchEvent::Changed, Some(self.high_certificate), proposed_head),
    {
        match proposed_head {
            Some(head) => Some((self.high_certificate, head)),
            None => None,
        }
    }
}

/// The steps of an event lead to its tip: an event on which the forkpoint is not read gives
/// none, nor does one that is passed over for want of a certificate, and of any other the last
/// step returns it.
pub proof fn law_steps_give_the_tip<C, H>(
    event: WatchEvent,
    high_certificate: Option<C>,
    proposed_head: Option<H>,
)
    ensures
        event !is Changed ==> tip_of(event, high_certificate, proposed_head) is None,
        high_certificate is None ==> tip_of(event, high_certificate, proposed_head) is None,
        event is Changed && high_certificate is Some ==> tip_of(
            event,
            high_certificate,
            proposed_head,
        ) == match proposed_head {
            Some(head) => Some((high_certificate->0, head)),
            None => None,
        },
{
}

/// One more event adds its tip at the end, if it gives one, and nothing else; the tips before
/// it stay. So an event without a tip is skipped and later events are still served.
pub proof fn law_event_adds_its_tip<C, H>(
    events: Seq<(WatchEvent, Option<C>, Option<H>)>,
    event: (WatchEvent, Option<C>, Option<H>),
)
    requires
        event.0 !is Failed,
        forall|i: int| 0 <= i < events.len() ==> (#[trigger] events[i]).0 !is Failed,
    ensures
        tips(events.push(event)) == match tip_of(event.0, event.1, event.2) {
            Some(tip) => tips(events).push(tip),
            None => tips(events),
        },
{
    assert(events.push(event).drop_last() =~= events);
}

proof fn lemma_tips_of_some<C, H>(events: Seq<(WatchEvent, Option<C>, Option<H>)>, n: int)
    requires
        0 <= n <= events.len(),
    ensures
        tips(events.take(n)).is_prefix_of(tips(events)),
    decreases events.len(),
{
    if n == events.len() {
        assert(events.take(n) =~= events);
    } else {
        lemma_tips_of_some(events.drop_last(), n);
        assert(events.drop_last().take(n) =~= events.take(n));
    }
}

proof fn lemma_tips_are_few<C, H>(events: Seq<(WatchEvent, Option<C>, Option<H>)>)
    ensures
        tips(events).len() <= events.len(),
    decreases events.len(),
{
    if events.len() > 0 {
        lemma_tips_are_few(events.drop_last());
    }
}

/// A run of events without a failure gives its tips in the order of the events, at most one
/// for each: the tip of an event stands right behind those of the events before it, and an
/// event without a tip leaves no trace.
pub proof fn law_tips_keep_the_order_of_events<C, H>(
    events: Seq<(WatchEvent, Option<C>, Option<H>)>,
    i: int,
)
    requires
        0 <= i < events.len(),
        forall|k: int| 0 <= k < events.len() ==> (#[trigger] events[k]).0 !is Failed,
    ensures
        tips(events).len() <= events.len(),
        tips(events.take(i)).is_prefix_of(tips(events)),
        match tip_of(events[i].0, events[i].1, events[i].2) {
            Some(tip) => {
                &&& tips(events.take(i)).len() < tips(events).len()
                &&& tips(events)[tips(events.take(i)).len() as int] == tip
                &&& tips(events.take(i + 1)) == tips(events.take(i)).push(tip)
            },
            None => tips(events.take(i + 1)) == tips(events.take(i)),
        },
{
    lemma_tips_are_few(events);
    lemma_tips_of_some(events, i);
    lemma_tips_of_some(events, i + 1);
    assert(events.take(i + 1) =~= events.take(i).push(events[i]));
    law_event_adds_its_tip(events.take(i), events[i]);
    if let Some(tip) = tip_of(events[i].0, events[i].1, events[i].2) {
        let n = tips(events.take(i)).len() as int;
        assert(tips(events.take(i + 1))[n] == tip);
    }
}

/// From every event to its tip: after a change the forkpoint is read, and then, if that could be
/// read, the proposed head; the tip is the pair of what was read, if both could be. Too many
/// events at once lead to a warning and anything else to giving up, without a tip.
pub proof fn law_event_leads_to_its_tip<C, H>(
    event: WatchEvent,
    step: WatchStep,
    high_certificate: Option<C>,
    next: ForkpointStep<C>,
    proposed_head: Option<H>,
    tip: Option<(C, H)>,
)
    requires
        call_ensures(watch_step, (event,), step),
        step matches WatchStep::ReadForkpoint(s) ==> call_ensures(
            AwaitForkpoint::resume::<C>,
            (s, high_certificate),
            next,
        ),
        step is ReadForkpoint && next is ReadHead ==> call_ensures(
            AwaitHead::<C>::resume::<H>,
            (next->ReadHead_0, proposed_head),
            tip,
        ),
    ensures
        event is Changed <==> step is ReadForkpoint,
        event is InvalidInput <==> step is Warn,
        event is Failed <==> step is Abort,
        event is Changed ==> (next is ReadHead <==> high_certificate is Some),
        event is Changed && high_certificate is Some ==> {
            &&& tip is Some <==> proposed_head is Some
            &&& tip matches Some(t) ==> Some(t.0) == high_certificate && Some(t.1) == proposed_head
        },
{
}

} // verus!
