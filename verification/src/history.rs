//! What a camera has come to after everything that has happened to its stream.

use vstd::prelude::*;
use crate::camera::{
    actions_after, disconnected, negotiated_after, negotiated_in, pacing_after, ActionView, Link,
    StreamState,
};
use crate::negotiate::{FormatParam, Negotiated};
use crate::pacing::Pacing;
use crate::pod::ParamType;

verus! {

/// Something that happens to a camera's stream.
pub enum Event {
    /// The stream changed its state.
    StateChanged { new: StreamState, link: Link, at: u64 },
    /// A parameter of the stream changed.
    ParamChanged { id: ParamType, param: Option<FormatParam>, node_id: u32 },
    /// The user accepted or rejected what had been negotiated, and the actions that follow from
    /// it were carried out.
    Answered { neg: Negotiated, accepted: bool },
    /// The driver timer fired.
    TimerFired { at: u64 },
    /// A buffer was dequeued; `mapped` tells whether every plane it has room for has its data.
    BufferDequeued { mapped: bool },
}

/// The part of a camera that events change.
pub struct Progress {
    pub pacing: Pacing,
    pub negotiated: Option<Negotiated>,
    /// How many frames have been produced.
    pub seq: nat,
}

/// A camera to which nothing has happened.
pub open spec fn fresh() -> Progress {
    Progress {
        pacing: Pacing { streaming: false, period_ns: 0, next_due: 0 },
        negotiated: None,
        seq: 0,
    }
}

impl Progress {
    /// Whether the event produces a frame.
    pub open spec fn produces(self, event: Event) -> bool {
        match event {
            Event::BufferDequeued { mapped } => mapped && self.negotiated is Some,
            _ => false,
        }
    }

    /// Where the event leads.
    pub open spec fn step(self, event: Event) -> Progress {
        match event {
            Event::StateChanged { new, link, at } => Progress {
                pacing: pacing_after(self.pacing, new, link, at),
                negotiated: negotiated_after(self.negotiated, new),
                ..self
            },
            Event::ParamChanged { id, param, node_id } => match negotiated_in(id, param, node_id) {
                Some(neg) => Progress {
                    pacing: Pacing { period_ns: neg.period() as u64, ..self.pacing },
                    negotiated: Some(neg),
                    ..self
                },
                None => self,
            },
            Event::Answered { .. } => self,
            Event::TimerFired { at } => Progress { pacing: self.pacing.ticked(at), ..self },
            Event::BufferDequeued { mapped } => Progress {
                seq: if self.produces(event) {
                    self.seq + 1
                } else {
                    self.seq
                },
                ..self
            },
        }
    }
}

/// Where the events lead, one after the other.
pub open spec fn after(events: Seq<Event>) -> Progress
    decreases events.len(),
{
    if events.len() == 0 {
        fresh()
    } else {
        after(events.drop_last()).step(events.last())
    }
}

/// Whether the event starts the flow of frames: a change to a streaming stream that drives the
/// graph and is not lazy.
pub open spec fn starts(event: Event) -> bool {
    match event {
        Event::StateChanged { new, link, at } => new is Streaming && link.driving && !link.lazy,
        _ => false,
    }
}

/// Whether the latest state change was to a streaming stream that drives the graph and is not
/// lazy.
pub open spec fn streams(events: Seq<Event>) -> bool
    decreases events.len(),
{
    if events.len() == 0 {
        false
    } else {
        match events.last() {
            Event::StateChanged { .. } => starts(events.last()),
            _ => streams(events.drop_last()),
        }
    }
}

/// What the latest parameter that negotiated anything negotiated, since the stream last was
/// without a consumer.
pub open spec fn latest_negotiation(events: Seq<Event>) -> Option<Negotiated>
    decreases events.len(),
{
    if events.len() == 0 {
        None
    } else {
        match events.last() {
            Event::ParamChanged { id, param, node_id } if negotiated_in(id, param, node_id)
                is Some => negotiated_in(id, param, node_id),
            Event::StateChanged { new, .. } if disconnected(new) => None,
            _ => latest_negotiation(events.drop_last()),
        }
    }
}

/// How many of the events produced a frame.
pub open spec fn frames_produced(events: Seq<Event>) -> nat
    decreases events.len(),
{
    if events.len() == 0 {
        0
    } else {
        let before = events.drop_last();
        frames_produced(before) + if after(before).produces(events.last()) {
            1nat
        } else {
            0nat
        }
    }
}

/// Whatever has happened: frames are pushed exactly while the stream streams, the geometry is
/// the one that its consumer negotiated last, the period is that geometry's, and the counter is at the number of
/// frames produced.
pub proof fn law_progress_follows_events(events: Seq<Event>)
    ensures
        after(events).pacing.streaming == streams(events),
        after(events).negotiated == latest_negotiation(events),
        after(events).pacing.period_ns == match latest_negotiation(events) {
            Some(neg) => neg.period() as u64,
            None => 0,
        },
        after(events).seq == frames_produced(events),
    decreases events.len(),
{
    if events.len() > 0 {
        law_progress_follows_events(events.drop_last());
    }
}

/// A tick asks for a frame only while the stream streams, and only once a format has been
/// negotiated.
pub proof fn law_ticks_need_a_streaming_consumer(events: Seq<Event>, now: u64)
    requires
        after(events).pacing.due(now),
    ensures
        streams(events),
        latest_negotiation(events) is Some,
{
    law_progress_follows_events(events);
}

/// A frame is produced only once a format has been negotiated, and has that format.
pub proof fn law_frames_need_a_negotiation(events: Seq<Event>, event: Event)
    requires
        after(events).produces(event),
    ensures
        latest_negotiation(events) is Some,
        after(events).negotiated == latest_negotiation(events),
{
    law_progress_follows_events(events);
}

/// Frames are numbered from zero without a gap: the number of a frame is the number of frames
/// before it, and the next frame has the next number.
pub proof fn law_frames_are_numbered_in_order(events: Seq<Event>, event: Event)
    requires
        after(events).produces(event),
    ensures
        after(events).seq == frames_produced(events),
        after(events.push(event)).seq == frames_produced(events) + 1,
{
    law_progress_follows_events(events);
    assert(events.push(event).drop_last() == events);
}

/// Whether the event negotiates a format.
pub open spec fn negotiates(event: Event) -> bool {
    match event {
        Event::ParamChanged { id, param, node_id } => negotiated_in(id, param, node_id) is Some,
        _ => false,
    }
}

/// A consumer that is gone gets no frame: after any state but `Streaming`, no tick asks for one
/// until the stream streams again, whatever else happens in between.
pub proof fn law_silence_until_the_stream_starts(
    events: Seq<Event>,
    gone: Event,
    since: Seq<Event>,
    now: u64,
)
    requires
        gone is StateChanged,
        !(gone->new is Streaming),
        forall|i: int| 0 <= i < since.len() ==> !starts(#[trigger] since[i]),
    ensures
        !after(events.push(gone) + since).pacing.due(now),
{
    law_progress_follows_events(events.push(gone) + since);
    lemma_streams_since(events, gone, since);
}

/// Once the consumer is gone, no frame is asked for or produced until a new one has negotiated
/// a format, and none is asked for until the stream has started again; frames then have the
/// format that the new consumer negotiated last.
pub proof fn law_new_consumer_gets_its_own_format(
    events: Seq<Event>,
    gone: Event,
    since: Seq<Event>,
    now: u64,
    event: Event,
)
    requires
        gone is StateChanged,
        disconnected(gone->new),
    ensures
        after(events.push(gone) + since).negotiated == latest_negotiation(since),
        after(events.push(gone) + since).pacing.due(now) ==> {
            &&& exists|i: int| 0 <= i < since.len() && starts(#[trigger] since[i])
            &&& exists|j: int| 0 <= j < since.len() && negotiates(#[trigger] since[j])
        },
        after(events.push(gone) + since).produces(event) ==> exists|j: int|
            0 <= j < since.len() && negotiates(#[trigger] since[j]),
{
    law_progress_follows_events(events.push(gone) + since);
    lemma_streams_since(events, gone, since);
    lemma_negotiation_since(events, gone, since);
}

/// The actions carried out since the stream last was without a consumer, for a camera with this
/// bound on its buffers.
pub open spec fn actions_done(events: Seq<Event>, max_buffers: u32) -> Seq<ActionView>
    decreases events.len(),
{
    if events.len() == 0 {
        Seq::empty()
    } else {
        match events.last() {
            Event::Answered { neg, accepted } => actions_done(events.drop_last(), max_buffers)
                + actions_after(neg, max_buffers, accepted),
            Event::StateChanged { new, .. } if disconnected(new) => Seq::empty(),
            _ => actions_done(events.drop_last(), max_buffers),
        }
    }
}

/// Whether one of the actions is a reply.
pub open spec fn replies(actions: Seq<ActionView>) -> bool {
    exists|i: int| 0 <= i < actions.len() && (#[trigger] actions[i]) is Send
}

/// Whether one of the actions tells the user what has been negotiated.
pub open spec fn reports(actions: Seq<ActionView>) -> bool {
    exists|i: int| 0 <= i < actions.len() && (#[trigger] actions[i]) is Report
}

/// Whether buffers are dequeued only after a reply to the consumer that is there, as PipeWire
/// sees to.
pub open spec fn buffers_follow_replies(events: Seq<Event>, max_buffers: u32) -> bool {
    forall|k: int|
        0 <= k < events.len() && (#[trigger] events[k]) is BufferDequeued ==> replies(
            actions_done(events.take(k), max_buffers),
        )
}

/// Where buffers are dequeued only after a reply, the user has been told of a negotiation with
/// the consumer that is there before any frame for it is produced, the first one included.
pub proof fn law_report_precedes_the_frames(events: Seq<Event>, max_buffers: u32, k: int)
    requires
        buffers_follow_replies(events, max_buffers),
        0 <= k < events.len(),
        after(events.take(k)).produces(events[k]),
    ensures
        reports(actions_done(events.take(k), max_buffers)),
{
    assert(events[k] is BufferDequeued);
    lemma_replies_are_reported(events.take(k), max_buffers);
}

/// Whoever has been replied to has been reported.
proof fn lemma_replies_are_reported(events: Seq<Event>, max_buffers: u32)
    ensures
        replies(actions_done(events, max_buffers)) ==> reports(actions_done(events, max_buffers)),
    decreases events.len(),
{
    if events.len() > 0 {
        let before = actions_done(events.drop_last(), max_buffers);
        lemma_replies_are_reported(events.drop_last(), max_buffers);
        match events.last() {
            Event::Answered { neg, accepted } => {
                let done = actions_done(events, max_buffers);
                let new = actions_after(neg, max_buffers, accepted);
                assert(done == before + new);
                if accepted {
                    assert(done[before.len() as int + 1] == new[1]);
                } else {
                    assert(done == before);
                }
            },
            _ => {},
        }
    }
}

/// A stream that streams after it has stopped has been started since.
proof fn lemma_streams_since(events: Seq<Event>, gone: Event, since: Seq<Event>)
    requires
        gone is StateChanged,
        !(gone->new is Streaming),
    ensures
        streams(events.push(gone) + since) ==> exists|i: int|
            0 <= i < since.len() && starts(#[trigger] since[i]),
    decreases since.len(),
{
    let history = events.push(gone) + since;
    if since.len() == 0 {
        assert(history == events.push(gone));
        assert(history.last() == gone);
    } else {
        let shorter = since.drop_last();
        assert(history.drop_last() == events.push(gone) + shorter);
        assert(history.last() == since[since.len() - 1]);
        lemma_streams_since(events, gone, shorter);
        if streams(events.push(gone) + shorter) {
            let i = choose|i: int| 0 <= i < shorter.len() && starts(#[trigger] shorter[i]);
            assert(starts(since[i]));
        }
    }
}

/// What was negotiated before the consumer had gone does not count, and what counts has been
/// negotiated since.
proof fn lemma_negotiation_since(events: Seq<Event>, gone: Event, since: Seq<Event>)
    requires
        gone is StateChanged,
        disconnected(gone->new),
    ensures
        latest_negotiation(events.push(gone) + since) == latest_negotiation(since),
        latest_negotiation(since) is Some ==> exists|j: int|
            0 <= j < since.len() && negotiates(#[trigger] since[j]),
    decreases since.len(),
{
    let history = events.push(gone) + since;
    if since.len() == 0 {
        assert(history == events.push(gone));
        assert(history.last() == gone);
    } else {
        let shorter = since.drop_last();
        assert(history.drop_last() == events.push(gone) + shorter);
        assert(history.last() == since[since.len() - 1]);
        lemma_negotiation_since(events, gone, shorter);
        if latest_negotiation(since) is Some && !negotiates(since[since.len() - 1]) {
            let j = choose|j: int| 0 <= j < shorter.len() && negotiates(#[trigger] shorter[j]);
            assert(negotiates(since[j]));
        }
    }
}

/// A parameter that negotiates sets the geometry and, by its rate, the period, and touches
/// nothing else; any other parameter changes nothing.
pub proof fn law_param_sets_geometry_and_period(
    p: Progress,
    id: ParamType,
    param: Option<FormatParam>,
    node_id: u32,
)
    ensures
        ({
            let q = p.step(Event::ParamChanged { id, param, node_id });
            &&& q.seq == p.seq
            &&& q.pacing.streaming == p.pacing.streaming
            &&& q.pacing.next_due == p.pacing.next_due
            &&& match negotiated_in(id, param, node_id) {
                None => q == p,
                Some(neg) => {
                    let info = param.unwrap().video.unwrap();
                    let period = q.pacing.period_ns;
                    &&& q.negotiated == Some(neg)
                    &&& neg.format.id() == info.format
                    &&& neg.width == info.width
                    &&& neg.height == info.height
                    &&& info.fps_num > 0 ==> period * info.fps_num <= info.fps_denom
                        * 1_000_000_000 < (period + 1) * info.fps_num
                    &&& info.fps_num == 0 ==> period == info.fps_denom * 1_000_000_000
                },
            }
        }),
{
    crate::camera::law_param_negotiates_what_it_states(id, param, node_id);
    match negotiated_in(id, param, node_id) {
        None => {},
        Some(neg) => crate::negotiate::law_period_of_any_rate(neg),
    }
}

/// Only a dequeued buffer counts frames, one where something has been negotiated and all its
/// planes are mapped; ticks and answers leave everything but the deadline as it was.
pub proof fn law_only_buffers_are_counted(p: Progress, mapped: bool, event: Event)
    ensures
        p.step(Event::BufferDequeued { mapped }).seq == p.seq + if mapped && p.negotiated is Some {
            1int
        } else {
            0
        },
        p.step(Event::BufferDequeued { mapped }).pacing == p.pacing,
        p.step(Event::BufferDequeued { mapped }).negotiated == p.negotiated,
        !(event is BufferDequeued) ==> p.step(event).seq == p.seq,
        event is TimerFired || event is Answered ==> p.step(event).negotiated == p.negotiated
            && p.step(event).pacing.period_ns == p.pacing.period_ns
            && p.step(event).pacing.streaming == p.pacing.streaming,
{
}

} // verus!
