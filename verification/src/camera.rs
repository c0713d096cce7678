//! The camera: how it starts, and what it does on each event of its stream.
//!
//! The stream's owner reports events (a state change, a parameter, a timer tick, a dequeued
//! buffer) and carries out what comes back (a state to report, objects to send, a frame to
//! fill).

use vstd::prelude::*;
use crate::advertise::{advertised_objects, advertised_param_blobs, lists_rate};
use crate::config::{validate, Config, ConfigView};
use crate::error::Error;
use crate::format::Format;
use crate::frame::{
    build_planes, chunks_of, header_for, mapped, plane_count, sizes_fit, visited,
    write_header_meta, Chunk, Frame, MetaHeader,
};
use crate::history::{fresh, Event, Progress};
use crate::negotiate::{
    law_only_listed_combinations_can_be_picked, negotiated_by, parse_negotiated, picks,
    reply_buffers, reply_objects, rows_fit, FormatParam, Negotiated, VideoInfo,
};
use crate::pacing::Pacing;
use crate::pod::{
    buffers_object, meta_object, object_views, says, Key, Object, ObjectView, ParamType, ValueView,
};
use crate::text::{signed_decimal, signed_decimal_string};

verus! {

/// Connection state of the camera, reported to its user.
#[derive(Clone, Debug, PartialEq, Eq)]
pub enum State {
    /// No consumer is linked. `error` carries the message when the
    /// transition was caused by a stream error (e.g. the link died).
    ///
    /// After `Disconnected`, the fill handler is not called again until a
    /// new consumer connects and negotiates; any
    /// per-consumer resources may safely be released here.
    Disconnected { error: Option<String> },
    /// A consumer is connected (node linked, format negotiated) but not
    /// actively pulling frames yet.
    Paused { node_id: u32 },
    /// Frames are flowing; the fill handler is being called at the
    /// negotiated framerate.
    Streaming { node_id: u32 },
}

/// State of the stream that carries the camera. A driver stream has a single link; the states
/// reflect the stream, not individual consumers.
#[derive(Clone, Debug, PartialEq, Eq)]
pub enum StreamState {
    Error(String),
    Unconnected,
    Connecting,
    Paused,
    Streaming,
}

/// What the stream says of itself when its state changes.
#[derive(Clone, Copy, Debug, PartialEq, Eq, Structural)]
pub struct Link {
    pub node_id: u32,
    /// Whether the stream drives the graph.
    pub driving: bool,
    /// Whether the graph pulls frames by itself.
    pub lazy: bool,
}

/// A property of the camera's node.
#[derive(Clone, Copy, Debug, PartialEq, Eq, Structural)]
pub enum NodeKey {
    NodeName,
    NodeDescription,
    NodeNick,
    MediaName,
    MediaClass,
    MediaType,
    MediaCategory,
    MediaRole,
}

/// Something to be done for a negotiation.
#[derive(Clone, Debug, PartialEq, Eq)]
pub enum Action {
    /// Send these objects as the stream's parameters.
    Send(Vec<Object>),
    /// Tell the user what has been negotiated.
    Report(Negotiated),
}

/// What an [`Action`] says.
#[verifier::ext_equal]
pub enum ActionView {
    Send(Seq<ObjectView>),
    Report(Negotiated),
}

impl View for Action {
    type V = ActionView;

    open spec fn view(&self) -> ActionView {
        match *self {
            Action::Send(objects) => ActionView::Send(object_views(objects@)),
            Action::Report(neg) => ActionView::Report(neg),
        }
    }
}

/// What the actions say, in order.
pub open spec fn action_views(actions: Seq<Action>) -> Seq<ActionView> {
    actions.map_values(|action: Action| action@)
}

/// What is to be done, in this order, once the user has accepted or rejected `neg`: where it is
/// accepted the reply is sent and then the user is told; where it is rejected nothing happens.
pub open spec fn actions_after(neg: Negotiated, max_buffers: u32, accepted: bool) -> Seq<
    ActionView,
> {
    if accepted {
        seq![ActionView::Send(reply_objects(neg, max_buffers)), ActionView::Report(neg)]
    } else {
        Seq::empty()
    }
}

/// What a dequeued buffer comes to.
pub struct Processed<'b> {
    /// The chunk to set on each of the first data blocks.
    pub chunks: Vec<Chunk>,
    /// What to stamp the `Header` meta with.
    pub header: Option<MetaHeader>,
    /// The frame to fill.
    pub frame: Option<Frame<'b>>,
}

/// A virtual camera.
pub struct Camera {
    /// The node's name, which is also the stream's.
    pub name: String,
    pub properties: Vec<(NodeKey, String)>,
    /// The objects to advertise when the stream connects.
    pub params: Vec<Object>,
    pub max_buffers: u32,
    pub pacing: Pacing,
    /// Latest negotiation result.
    pub negotiated: Option<Negotiated>,
    /// Frame sequence counter (incremented per produced frame).
    pub seq: u64,
}

/// What the node properties say, in order.
pub open spec fn node_property_views(properties: Seq<(NodeKey, String)>) -> Seq<
    (NodeKey, Seq<char>),
> {
    properties.map_values(|p: (NodeKey, String)| (p.0, p.1@))
}

/// The properties of the node of a camera: it is a video source and plays the role of a camera.
pub open spec fn node_properties_of(config: ConfigView) -> Seq<(NodeKey, Seq<char>)> {
    seq![
        (NodeKey::NodeName, config.name),
        (NodeKey::NodeDescription, config.media_name),
        (NodeKey::NodeNick, config.media_name),
        (NodeKey::MediaName, config.media_name),
        (NodeKey::MediaClass, "Video/Source"@),
        (NodeKey::MediaType, "Video"@),
        (NodeKey::MediaCategory, "Capture"@),
        (NodeKey::MediaRole, "Camera"@),
    ]
}

/// Whether a stream in this state has no consumer.
pub open spec fn disconnected(new: StreamState) -> bool {
    match new {
        StreamState::Unconnected | StreamState::Connecting | StreamState::Error(_) => true,
        StreamState::Paused | StreamState::Streaming => false,
    }
}

/// The pace after the stream has changed its state to `new`: frames are pushed only in a
/// streaming stream that drives the graph and is not lazy, the first of them at once. The
/// framerate goes with the consumer that asked for it.
pub open spec fn pacing_after(p: Pacing, new: StreamState, link: Link, now: u64) -> Pacing {
    match new {
        StreamState::Streaming => Pacing {
            streaming: link.driving && !link.lazy,
            next_due: now,
            ..p
        },
        StreamState::Paused => Pacing { streaming: false, ..p },
        _ => Pacing { streaming: false, period_ns: 0, ..p },
    }
}

/// What is negotiated after the stream has changed its state to `new`: nothing, where the
/// consumer is gone.
pub open spec fn negotiated_after(negotiated: Option<Negotiated>, new: StreamState) -> Option<
    Negotiated,
> {
    if disconnected(new) {
        None
    } else {
        negotiated
    }
}

/// The state that is reported for a stream state.
pub open spec fn reported(new: StreamState, node_id: u32) -> State {
    match new {
        StreamState::Unconnected | StreamState::Connecting => State::Disconnected { error: None },
        StreamState::Paused => State::Paused { node_id },
        StreamState::Streaming => State::Streaming { node_id },
        StreamState::Error(message) => State::Disconnected { error: Some(message) },
    }
}

/// What a parameter of the given type negotiates: only a Format does, and clearing it does not.
pub open spec fn negotiated_in(id: ParamType, param: Option<FormatParam>, node_id: u32) -> Option<
    Negotiated,
> {
    match param {
        Some(format) if id == ParamType::Format => negotiated_by(format, node_id),
        _ => None,
    }
}

/// The node properties for `config`.
fn node_properties(config: &Config) -> (r: Vec<(NodeKey, String)>)
    ensures
        node_property_views(r@) == node_properties_of(config@),
{
    let mut r: Vec<(NodeKey, String)> = Vec::new();
    r.push((NodeKey::NodeName, config.name.clone()));
    r.push((NodeKey::NodeDescription, config.media_name.clone()));
    r.push((NodeKey::NodeNick, config.media_name.clone()));
    r.push((NodeKey::MediaName, config.media_name.clone()));
    r.push((NodeKey::MediaClass, "Video/Source".to_owned()));
    r.push((NodeKey::MediaType, "Video".to_owned()));
    r.push((NodeKey::MediaCategory, "Capture".to_owned()));
    r.push((NodeKey::MediaRole, "Camera".to_owned()));
    assert(node_property_views(r@) == node_properties_of(config@));
    r
}

/// Whether connecting the stream worked, by what the connect call returned.
pub fn connect_result(code: i32) -> (r: Result<(), Error>)
    ensures
        match r {
            Ok(_) => code >= 0,
            Err(Error::Connect(message)) => code < 0 && message@ == "pw_stream_connect: "@
                + signed_decimal(code as int),
            Err(Error::InvalidConfig(_)) => false,
        },
{
    if code < 0 {
        let mut message = "pw_stream_connect: ".to_owned();
        let digits = signed_decimal_string(code);
        message.append(digits.as_str());
        return Err(Error::Connect(message));
    }
    Ok(())
}

impl Camera {
    /// The rows of what has been negotiated have a byte count that fits in a `u32`.
    pub open spec fn wf(self) -> bool {
        self.negotiated is Some ==> self.negotiated.unwrap().wf()
    }

    /// The part of the camera that events change.
    pub open spec fn progress(self) -> Progress {
        Progress {
            pacing: self.pacing,
            negotiated: self.negotiated,
            seq: self.seq as nat,
        }
    }

    /// How many planes a frame in a buffer with these data blocks has.
    pub open spec fn planes_in(self, datas: Seq<Option<&mut [u8]>>) -> nat {
        plane_count(datas.len(), self.negotiated.unwrap().layout().len())
    }

    /// Whether a buffer with these data blocks becomes a frame: a format has been negotiated,
    /// and no plane lacks its data.
    pub open spec fn usable(self, datas: Seq<Option<&mut [u8]>>) -> bool {
        self.negotiated is Some && mapped(datas, self.planes_in(datas) as int)
    }

    /// The camera that `config` describes, before any consumer has come.
    pub fn new(config: Config) -> (r: Result<Camera, Error>)
        ensures
            match r {
                Ok(camera) => {
                    &&& config@.fault() is None
                    &&& camera.wf()
                    &&& camera.name@ == config@.name
                    &&& node_property_views(camera.properties@) == node_properties_of(config@)
                    &&& object_views(camera.params@) == advertised_objects(config@)
                    &&& camera.max_buffers == config.max_buffers
                    &&& camera.progress() == fresh()
                    &&& !camera.pacing.streaming
                    &&& camera.pacing.period_ns == 0
                    &&& camera.negotiated is None
                    &&& camera.seq == 0
                },
                Err(Error::InvalidConfig(message)) => config@.fault() == Some(message@),
                Err(Error::Connect(_)) => false,
            },
    {
        match validate(&config) {
            Ok(_) => {},
            Err(error) => {
                return Err(error);
            },
        }
        proof {
            crate::config::law_faultless_config_is_sane(config@);
            crate::advertise::law_sane_config_is_rated(config@);
        }
        let properties = node_properties(&config);
        let params = advertised_param_blobs(&config);
        Ok(
            Camera {
                name: config.name,
                properties,
                params,
                max_buffers: config.max_buffers,
                pacing: Pacing::new(),
                negotiated: None,
                seq: 0,
            },
        )
    }

    /// The stream's state changed: updates the pace and gives the [`State`] to report. A stream
    /// without a consumer forgets what the last one negotiated.
    pub fn on_state_changed(&mut self, new: StreamState, link: Link, now: u64) -> (r: State)
        ensures
            r == reported(new, link.node_id),
            old(self).wf() ==> final(self).wf(),
            *final(self) == (Camera {
                pacing: pacing_after(old(self).pacing, new, link, now),
                negotiated: negotiated_after(old(self).negotiated, new),
                ..*old(self)
            }),
            final(self).progress() == old(self).progress().step(
                Event::StateChanged { new, link, at: now },
            ),
    {
        match new {
            StreamState::Unconnected | StreamState::Connecting => {
                self.disconnect();
                State::Disconnected { error: None }
            },
            StreamState::Paused => {
                self.pacing.streaming = false;
                State::Paused { node_id: link.node_id }
            },
            StreamState::Streaming => {
                self.pacing.next_due = now;
                self.pacing.streaming = link.driving && !link.lazy;
                State::Streaming { node_id: link.node_id }
            },
            StreamState::Error(message) => {
                self.disconnect();
                State::Disconnected { error: Some(message) }
            },
        }
    }

    /// Stops the frames and forgets what has been negotiated.
    fn disconnect(&mut self)
        ensures
            *final(self) == (Camera {
                pacing: Pacing { streaming: false, period_ns: 0, ..old(self).pacing },
                negotiated: None,
                ..*old(self)
            }),
    {
        self.pacing.streaming = false;
        self.pacing.period_ns = 0;
        self.negotiated = None;
    }

    /// A parameter of the stream changed: where it is a Format that the camera supports,
    /// takes a snapshot of it, sets the driver period, and gives the snapshot, so that the user
    /// can be asked whether to accept it (see [`Camera::answer`]).
    pub fn on_param_changed(
        &mut self,
        id: ParamType,
        param: Option<FormatParam>,
        node_id: u32,
    ) -> (r: Option<Negotiated>)
        requires
            old(self).wf(),
            id == ParamType::Format && param is Some ==> rows_fit(param.unwrap()),
        ensures
            final(self).wf(),
            r == negotiated_in(id, param, node_id),
            r is Some <==> id is Format && param is Some && param.unwrap().is_object
                && param.unwrap().video is Some && exists|f: Format|
                (#[trigger] f.id()) == param.unwrap().video.unwrap().format,
            r is Some ==> {
                let neg = r.unwrap();
                let info = param.unwrap().video.unwrap();
                &&& neg.format.id() == info.format
                &&& neg.width == info.width
                &&& neg.height == info.height
                &&& neg.fps_num == info.fps_num
                &&& neg.fps_denom == info.fps_denom
                &&& neg.stride == neg.format.row_bytes(info.width)
                &&& neg.node_id == node_id
                &&& final(self).negotiated == Some(neg)
            },
            *final(self) == match r {
                Some(neg) => Camera {
                    pacing: Pacing { period_ns: neg.period() as u64, ..old(self).pacing },
                    negotiated: Some(neg),
                    ..*old(self)
                },
                None => *old(self),
            },
            final(self).progress() == old(self).progress().step(
                Event::ParamChanged { id, param, node_id },
            ),
    {
        if id != ParamType::Format {
            return None;
        }
        match param {
            None => None,
            Some(format) => match parse_negotiated(&format, node_id) {
                None => None,
                Some(neg) => {
                    self.pacing.period_ns = neg.period_ns();
                    self.negotiated = Some(neg);
                    Some(neg)
                },
            },
        }
    }

    /// What to do, in this order, for a negotiation that the user has been asked about.
    ///
    /// **The reply is the acknowledgement.** PipeWire will not enter `Streaming`
    /// until the source has replied with params that are compatible with what
    /// the consumer asked for. Where the user rejects the geometry there is *no*
    /// reply, which tells the consumer to pick a different (format, size, fps) or give up.
    ///
    /// Where the user accepts it, the reply is queued before the user is told.
    pub fn answer(&self, neg: &Negotiated, verdict: &Result<(), String>) -> (r: Vec<Action>)
        requires
            verdict is Ok ==> neg.wf() && neg.reply_fits(),
        ensures
            action_views(r@) == actions_after(*neg, self.max_buffers, verdict is Ok),
            self.progress() == self.progress().step(
                Event::Answered { neg: *neg, accepted: verdict is Ok },
            ),
    {
        let mut actions: Vec<Action> = Vec::new();
        match verdict {
            Err(_) => {},
            Ok(_) => {
                actions.push(Action::Send(reply_buffers(neg, self.max_buffers)));
                actions.push(Action::Report(*neg));
            },
        }
        assert(action_views(actions@) == actions_after(*neg, self.max_buffers, verdict is Ok));
        actions
    }

    /// The driver timer fired at `now`: whether a frame is to be produced.
    pub fn on_timer(&mut self, now: u64) -> (r: bool)
        requires
            old(self).pacing.due(now) ==> old(self).pacing.deadline_after(now) <= u64::MAX,
        ensures
            r == old(self).pacing.due(now),
            r ==> now < final(self).pacing.next_due <= now + old(self).pacing.period_ns,
            *final(self) == (Camera { pacing: old(self).pacing.ticked(now), ..*old(self) }),
            final(self).progress() == old(self).progress().step(Event::TimerFired { at: now }),
    {
        self.pacing.tick(now)
    }

    /// A buffer was dequeued at `now` (nanoseconds since the camera started): stamps its timing
    /// and makes the [`Frame`] that the fill handler gets.
    ///
    /// `datas` are the buffer's data blocks, `None` where one is not mapped, and `header_size`
    /// is the size of its `Header` meta, if it has one. A block that is not a plane of the frame
    /// keeps its bytes.
    pub fn process_buffer<'b>(
        &mut self,
        datas: Vec<Option<&'b mut [u8]>>,
        header_size: Option<u32>,
        now: u64,
    ) -> (r: Processed<'b>)
        requires
            old(self).wf(),
            old(self).seq < u64::MAX,
            old(self).negotiated is Some ==> sizes_fit(
                old(self).negotiated.unwrap().layout(),
                visited(datas@, old(self).planes_in(datas@)),
            ),
        ensures
            final(self).wf(),
            r.frame is Some <==> old(self).usable(datas@),
            *final(self) == (Camera {
                seq: if r.frame is Some {
                    (old(self).seq + 1) as u64
                } else {
                    old(self).seq
                },
                ..*old(self)
            }),
            final(self).progress() == old(self).progress().step(
                Event::BufferDequeued {
                    mapped: mapped(datas@, old(self).planes_in(datas@) as int),
                },
            ),
            r.chunks@ == if old(self).negotiated is Some {
                chunks_of(
                    old(self).negotiated.unwrap().layout(),
                    visited(datas@, old(self).planes_in(datas@)),
                )
            } else {
                Seq::empty()
            },
            forall|i: int|
                0 <= i < r.chunks@.len() ==> {
                    let chunk = #[trigger] r.chunks@[i];
                    let (stride, height) = old(self).negotiated.unwrap().layout()[i];
                    &&& chunk.offset == 0
                    &&& chunk.size == stride * height
                    &&& stride <= i32::MAX ==> chunk.stride == stride
                },
            r.frame is Some ==> r.chunks@.len() == r.frame.unwrap().planes@.len(),
            r.header == if r.frame is Some {
                header_for(header_size, old(self).seq, now)
            } else {
                None
            },
            r.frame is Some ==> {
                let frame = r.frame.unwrap();
                let neg = old(self).negotiated.unwrap();
                &&& frame.width == neg.width
                &&& frame.height == neg.height
                &&& frame.format == neg.format
                &&& frame.fps_num == neg.fps_num
                &&& frame.fps_denom == neg.fps_denom
                &&& frame.seq == old(self).seq
                &&& frame.pts == now
                &&& frame.planes@.len() == old(self).planes_in(datas@)
            },
            r.frame is Some ==> forall|i: int|
                0 <= i < r.frame.unwrap().planes@.len() ==> {
                    let plane = #[trigger] r.frame.unwrap().planes@[i];
                    let neg = old(self).negotiated.unwrap();
                    &&& plane.stride == neg.layout()[i].0
                    &&& plane.height == neg.layout()[i].1
                    &&& plane.data@ == datas@[i].unwrap()@
                    &&& final(plane.data)@ == final(datas@[i].unwrap())@
                },
            forall|j: int|
                0 <= j < datas@.len() && (#[trigger] datas@[j]) is Some && !(r.frame is Some && j
                    < r.frame.unwrap().planes@.len()) ==> final(datas@[j].unwrap())@
                    == datas@[j].unwrap()@,
    {
        // Every field used below comes from this copy: a later renegotiation may replace
        // `negotiated` while the frame is being filled.
        let neg = match self.negotiated {
            None => {
                proof {
                    assert(has_resolved(datas));
                    assert forall|j: int|
                        0 <= j < datas@.len() && (#[trigger] datas@[j]) is Some implies
                        final(datas@[j].unwrap())@ == datas@[j].unwrap()@ by {
                        assert(has_resolved(datas@[j]));
                    }
                }
                return Processed { chunks: Vec::new(), header: None, frame: None };
            },
            Some(neg) => neg,
        };
        let layout = neg.format.planes(neg.width, neg.height);
        let (chunks, planes) = build_planes(datas, layout.as_slice());
        match planes {
            None => Processed { chunks, header: None, frame: None },
            Some(planes) => {
                let seq: u64 = self.seq;
                self.seq = seq + 1;
                // Stamped before the fill handler runs, so that `pts` is the frame's
                // presentation time and the user can render for it.
                let header = write_header_meta(header_size, seq, now);
                let frame = Frame {
                    width: neg.width,
                    height: neg.height,
                    format: neg.format,
                    fps_num: neg.fps_num,
                    fps_denom: neg.fps_denom,
                    seq,
                    pts: now,
                    planes,
                };
                Processed { chunks, header, frame: Some(frame) }
            },
        }
    }
}

/// An accepted negotiation is answered once and reported once, and the report comes after the
/// reply is queued; a rejected one is neither answered nor reported.
pub proof fn law_reply_comes_before_the_report(
    neg: Negotiated,
    max_buffers: u32,
    accepted: bool,
    i: int,
    j: int,
)
    requires
        0 <= i < actions_after(neg, max_buffers, accepted).len(),
        0 <= j < actions_after(neg, max_buffers, accepted).len(),
    ensures
        accepted,
        actions_after(neg, max_buffers, accepted)[i] is Send && actions_after(
            neg,
            max_buffers,
            accepted,
        )[j] is Report ==> i < j,
        actions_after(neg, max_buffers, accepted)[i] is Send <==> i == 0,
        actions_after(neg, max_buffers, accepted)[j] is Report <==> j == 1,
{
}

/// Frames are pushed only while the stream streams, drives the graph and is not lazy; every
/// other state stops them. The framerate lasts until the consumer is gone.
pub proof fn law_only_streaming_pushes_frames(p: Pacing, new: StreamState, link: Link, now: u64)
    ensures
        pacing_after(p, new, link, now).streaming <==> new is Streaming && link.driving
            && !link.lazy,
        pacing_after(p, new, link, now).period_ns == if disconnected(new) {
            0
        } else {
            p.period_ns
        },
{
}

/// A stream that starts with a negotiated rate produces its first frame at the next tick, and
/// one that leaves `Streaming` produces none, however often the timer fires.
pub proof fn law_frames_follow_the_stream(
    p: Pacing,
    new: StreamState,
    link: Link,
    now: u64,
    times: Seq<u64>,
)
    ensures
        new is Streaming && link.driving && !link.lazy && p.period_ns > 0 && times.len() > 0
            && times[0] >= now ==> pacing_after(p, new, link, now).due(times[0]),
        !(new is Streaming) ==> crate::pacing::frames(pacing_after(p, new, link, now), times) == 0,
{
    if !(new is Streaming) {
        crate::pacing::law_silent_unless_streaming(pacing_after(p, new, link, now), times);
    }
}

/// The `pts` of a frame is the one in its `Header` meta, where there is a full one and the
/// time fits.
pub proof fn law_header_has_the_frame_timing(size: u32, seq: u64, pts: u64)
    requires
        size >= crate::pod::HEADER_META_SIZE,
        pts <= i64::MAX,
    ensures
        header_for(Some(size), seq, pts) is Some,
        header_for(Some(size), seq, pts).unwrap().pts == pts,
        header_for(Some(size), seq, pts).unwrap().seq == seq,
{
}

/// Whatever a parameter negotiates is what it states: only a Format that is a raw video format
/// with the id of a supported format negotiates, and then that format, size and rate.
pub proof fn law_param_negotiates_what_it_states(
    id: ParamType,
    param: Option<FormatParam>,
    node_id: u32,
)
    ensures
        negotiated_in(id, param, node_id) is Some <==> id is Format && param is Some
            && param.unwrap().is_object && param.unwrap().video is Some && exists|f: Format|
            (#[trigger] f.id()) == param.unwrap().video.unwrap().format,
        negotiated_in(id, param, node_id) is Some ==> {
            let neg = negotiated_in(id, param, node_id).unwrap();
            let info = param.unwrap().video.unwrap();
            &&& neg.format.id() == info.format
            &&& neg.width == info.width
            &&& neg.height == info.height
            &&& neg.fps_num == info.fps_num
            &&& neg.fps_denom == info.fps_denom
            &&& neg.format.row_bytes(info.width) <= u32::MAX ==> neg.stride
                == neg.format.row_bytes(info.width)
            &&& neg.node_id == node_id
        },
{
    if param is Some && param.unwrap().video is Some {
        crate::format::law_only_the_right_format_is_found(
            param.unwrap().video.unwrap().format,
            Seq::empty(),
        );
    }
}

/// A consumer that picks from what is advertised for a config, and states what it has picked, is
/// understood: the camera negotiates the format, size and rate that a mode of the config lists.
pub proof fn law_picked_combination_is_negotiated(
    config: ConfigView,
    i: int,
    info: VideoInfo,
    node_id: u32,
)
    requires
        0 <= i < advertised_objects(config).len(),
        picks(advertised_objects(config)[i], info),
    ensures
        ({
            let param = FormatParam { is_object: true, video: Some(info) };
            let r = negotiated_in(ParamType::Format, Some(param), node_id);
            &&& r is Some
            &&& r.unwrap().width == info.width
            &&& r.unwrap().height == info.height
            &&& r.unwrap().fps_num == info.fps_num
            &&& r.unwrap().fps_denom == 1
            &&& exists|m: int|
                {
                    let mode = #[trigger] config.modes[m];
                    &&& 0 <= m < config.modes.len()
                    &&& mode.width == info.width
                    &&& mode.height == info.height
                    &&& mode.formats.contains(r.unwrap().format)
                    &&& mode.fps.contains(info.fps_num)
                }
        }),
{
    let param = FormatParam { is_object: true, video: Some(info) };
    let r = negotiated_in(ParamType::Format, Some(param), node_id);
    law_only_listed_combinations_can_be_picked(config, i, info);
    let (m, format) = choose|m: int, format: Format|
        0 <= m < config.modes.len() && format.id() == info.format && #[trigger] lists_rate(
            config.modes[m],
            format,
            info.width,
            info.height,
            info.fps_num,
        );
    law_param_negotiates_what_it_states(ParamType::Format, Some(param), node_id);
    assert(format.id() == info.format);
    crate::format::law_spa_ids_are_unique(format, r.unwrap().format);
    assert(config.modes[m].formats.contains(format));
}

/// The user is told of each state of the stream: its node where there is a consumer, and the
/// message where there was an error.
pub proof fn law_state_is_reported_as_it_is(new: StreamState, node_id: u32)
    ensures
        match reported(new, node_id) {
            State::Streaming { node_id: node } => new is Streaming && node == node_id,
            State::Paused { node_id: node } => new is Paused && node == node_id,
            State::Disconnected { error: Some(message) } => new == StreamState::Error(message),
            State::Disconnected { error: None } => new is Unconnected || new is Connecting,
        },
{
}

/// A change of state starts the pace at once where the stream streams, keeps rate and
/// negotiation while there is a consumer, and forgets both where there is none.
pub proof fn law_state_sets_the_pace(
    p: Pacing,
    negotiated: Option<Negotiated>,
    new: StreamState,
    link: Link,
    now: u64,
)
    ensures
        pacing_after(p, new, link, now).streaming <==> new is Streaming && link.driving
            && !link.lazy,
        pacing_after(p, new, link, now).next_due == if new is Streaming {
            now
        } else {
            p.next_due
        },
        new is Streaming || new is Paused ==> pacing_after(p, new, link, now).period_ns
            == p.period_ns && negotiated_after(negotiated, new) == negotiated,
        new is Unconnected || new is Connecting || new is Error ==> pacing_after(
            p,
            new,
            link,
            now,
        ).period_ns == 0 && negotiated_after(negotiated, new) is None,
{
}

/// The node says its name and, three times, what it is called; and that it is a camera.
pub proof fn law_node_says_what_it_is(config: ConfigView)
    ensures
        node_properties_of(config).len() == 8,
        forall|i: int|
            0 <= i < node_properties_of(config).len() ==> {
                let (key, value) = #[trigger] node_properties_of(config)[i];
                match key {
                    NodeKey::NodeName => i == 0 && value == config.name,
                    NodeKey::NodeDescription => i == 1 && value == config.media_name,
                    NodeKey::NodeNick => i == 2 && value == config.media_name,
                    NodeKey::MediaName => i == 3 && value == config.media_name,
                    NodeKey::MediaClass => i == 4 && value == "Video/Source"@,
                    NodeKey::MediaType => i == 5 && value == "Video"@,
                    NodeKey::MediaCategory => i == 6 && value == "Capture"@,
                    NodeKey::MediaRole => i == 7 && value == "Camera"@,
                }
            },
{
}

/// Properties and actions are seen as they are.
pub proof fn law_properties_and_actions_are_seen_whole(
    properties: Seq<(NodeKey, String)>,
    actions: Seq<Action>,
)
    ensures
        node_property_views(properties).len() == properties.len(),
        forall|i: int|
            0 <= i < properties.len() ==> (#[trigger] node_property_views(properties)[i]).0
                == properties[i].0 && node_property_views(properties)[i].1 == properties[i].1@,
        action_views(actions).len() == actions.len(),
        forall|i: int|
            0 <= i < actions.len() ==> match actions[i] {
                Action::Send(objects) => #[trigger] action_views(actions)[i] == ActionView::Send(
                    object_views(objects@),
                ),
                Action::Report(neg) => #[trigger] action_views(actions)[i] == ActionView::Report(
                    neg,
                ),
            },
{
}

/// An accepted negotiation is answered with the buffers for its geometry and a request for the
/// meta, and reported as it is; a rejected one is not answered.
pub proof fn law_answer_fits_the_negotiation(neg: Negotiated, max_buffers: u32)
    requires
        neg.format.row_bytes(neg.width) <= u32::MAX,
    ensures
        actions_after(neg, max_buffers, false).len() == 0,
        actions_after(neg, max_buffers, true).len() == 2,
        actions_after(neg, max_buffers, true)[1] == ActionView::Report(neg),
        match actions_after(neg, max_buffers, true)[0] {
            ActionView::Send(objects) => {
                &&& objects.len() == 2
                &&& objects[0].id is Buffers
                &&& objects[0].type_ is ParamBuffers
                &&& says(
                    objects[0],
                    Key::BufferBlocks,
                    ValueView::Int(
                        if neg.format is I420 {
                            3
                        } else if neg.format is Nv12 || neg.format is Nv21 {
                            2
                        } else {
                            1
                        },
                    ),
                )
                &&& neg.stride <= i32::MAX ==> says(
                    objects[0],
                    Key::BufferStride,
                    ValueView::Int(neg.stride as i32),
                )
                &&& neg.stride <= i32::MAX && neg.height <= i32::MAX && neg.stride * neg.height
                    <= i32::MAX ==> says(
                    objects[0],
                    Key::BufferSize,
                    ValueView::Int((neg.stride * neg.height) as i32),
                )
                &&& objects[0] == buffers_object(
                    neg.stride,
                    neg.height,
                    neg.format.layout(neg.width, neg.height).len() as u32,
                    max_buffers,
                )
                &&& objects[1] == meta_object()
            },
            _ => false,
        },
{
    crate::format::law_planes_hold_the_samples(neg.format, neg.width, neg.height);
    crate::pod::law_buffers_object_says_its_geometry(
        neg.stride,
        neg.height,
        neg.layout().len() as u32,
        max_buffers,
    );
}

/// The planes of a negotiation are those of its format at its size.
pub proof fn law_negotiation_has_the_planes_of_its_format(neg: Negotiated)
    ensures
        neg.layout() == neg.format.layout(neg.width, neg.height),
{
}

/// A buffer becomes a frame exactly where something has been negotiated and every block that
/// stands for a plane is mapped; the frame has a plane for each of those blocks.
pub proof fn law_mapped_buffer_becomes_a_frame(camera: Camera, datas: Seq<Option<&mut [u8]>>)
    requires
        camera.negotiated is Some,
    ensures
        camera.usable(datas) <==> forall|i: int|
            0 <= i < datas.len() && i < camera.negotiated.unwrap().layout().len() ==> (
            #[trigger] datas[i]) is Some,
        camera.planes_in(datas) <= datas.len(),
        camera.planes_in(datas) <= camera.negotiated.unwrap().layout().len(),
        camera.planes_in(datas) == datas.len() || camera.planes_in(datas)
            == camera.negotiated.unwrap().layout().len(),
{
}

/// What events change of a camera is its pace, its negotiation and its counter; it starts
/// silent, without a negotiation and at zero.
pub proof fn law_camera_starts_silent(camera: Camera)
    ensures
        camera.progress().pacing == camera.pacing,
        camera.progress().negotiated == camera.negotiated,
        camera.progress().seq == camera.seq,
        !fresh().pacing.streaming,
        fresh().pacing.period_ns == 0,
        fresh().pacing.next_due == 0,
        fresh().negotiated is None,
        fresh().seq == 0,
{
}

} // verus!
