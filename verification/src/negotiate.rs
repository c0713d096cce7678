//! What a consumer picks, and the answer to it.

use vstd::prelude::*;
use crate::advertise::{
    advertised_objects, law_every_advertised_rate_is_listed, law_every_rate_is_advertised, lists_rate, offer_is_for, offer_object, offers_of, whole_rates,
};
use crate::config::ConfigView;
use crate::format::{format_with_id, Format};
use crate::pod::{
    buffers_object, buffers_pod, enumformat_object, meta_object, meta_pod, object_views, property,
    wrapped, FpsChoice, Fraction, Id, Key, Object, ObjectView, PropertyView, Rectangle, ValueView,
};

verus! {

/// What the camera negotiated with the connected consumer.
#[derive(Clone, Copy, Debug, PartialEq, Eq, Structural)]
pub struct Negotiated {
    pub format: Format,
    pub width: u32,
    pub height: u32,
    pub fps_num: u32,
    pub fps_denom: u32,
    /// Row stride in bytes (>= width * bytes-per-pixel).
    pub stride: u32,
    /// PipeWire node id of the connected consumer (0 until known).
    pub node_id: u32,
}

/// A raw video format as a consumer states it.
#[derive(Clone, Copy, Debug, PartialEq, Eq, Structural)]
pub struct VideoInfo {
    /// SPA format id.
    pub format: u32,
    pub width: u32,
    pub height: u32,
    pub fps_num: u32,
    pub fps_denom: u32,
}

/// A consumer's parameter.
#[derive(Clone, Copy, Debug, PartialEq, Eq, Structural)]
pub struct FormatParam {
    /// Whether it is an object at all.
    pub is_object: bool,
    /// The raw video format it parses as, if it does.
    pub video: Option<VideoInfo>,
}

/// What a parameter negotiates: a raw video format with the id of a supported format, and
/// nothing else.
pub open spec fn negotiated_by(param: FormatParam, node_id: u32) -> Option<Negotiated> {
    match param.video {
        Some(info) if param.is_object => match format_with_id(info.format) {
            Some(format) => Some(
                Negotiated {
                    format,
                    width: info.width,
                    height: info.height,
                    fps_num: info.fps_num,
                    fps_denom: info.fps_denom,
                    stride: format.row_bytes(info.width) as u32,
                    node_id,
                },
            ),
            None => None,
        },
        _ => None,
    }
}

/// Whether the rows of what a parameter negotiates have a byte count that fits in a `u32`.
pub open spec fn rows_fit(param: FormatParam) -> bool {
    match param.video {
        Some(info) if param.is_object => match format_with_id(info.format) {
            Some(format) => format.row_bytes(info.width) <= u32::MAX,
            None => true,
        },
        _ => true,
    }
}

impl Negotiated {
    /// The byte count of the first plane's rows fits in a `u32`.
    pub open spec fn wf(self) -> bool {
        self.format.row_bytes(self.width) <= u32::MAX
    }

    /// The plane layout of this geometry.
    pub open spec fn layout(self) -> Seq<(u32, u32)> {
        self.format.layout(self.width, self.height)
    }

    /// Nanoseconds between two frames: a zero numerator counts as one.
    pub open spec fn period(self) -> int {
        self.fps_denom * 1_000_000_000 / if self.fps_num == 0 {
            1
        } else {
            self.fps_num as int
        }
    }

    /// The first plane's size, as the reply states it, fits in an `i32`.
    pub open spec fn reply_fits(self) -> bool {
        i32::MIN <= wrapped(self.stride) * wrapped(self.height) <= i32::MAX
    }

    /// Nanoseconds between two frames.
    pub fn period_ns(&self) -> (r: u64)
        ensures
            r == self.period(),
    {
        let num: u64 = if self.fps_num == 0 { 1 } else { self.fps_num as u64 };
        let span: u64 = self.fps_denom as u64 * 1_000_000_000;
        span / num
    }
}

/// Parse the consumer's Format param into a [`Negotiated`], or `None` if the
/// param is not a video format the camera supports.
pub fn parse_negotiated(param: &FormatParam, node_id: u32) -> (r: Option<Negotiated>)
    requires
        rows_fit(*param),
    ensures
        r == negotiated_by(*param, node_id),
        r is Some ==> r.unwrap().wf(),
        r is Some ==> param.is_object && param.video is Some && r.unwrap().format.id()
            == param.video.unwrap().format && r.unwrap().stride == r.unwrap().format.row_bytes(
            param.video.unwrap().width,
        ),
{
    if !param.is_object {
        return None;
    }
    match param.video {
        None => None,
        Some(info) => match Format::from_spa_id(info.format) {
            None => None,
            Some(format) => {
                let planes = format.planes(info.width, info.height);
                Some(
                    Negotiated {
                        format,
                        width: info.width,
                        height: info.height,
                        fps_num: info.fps_num,
                        fps_denom: info.fps_denom,
                        stride: planes[0].0,
                        node_id,
                    },
                )
            },
        },
    }
}

/// The objects that accept `neg`: the buffers, then the `Header` meta.
pub open spec fn reply_objects(neg: Negotiated, max_buffers: u32) -> Seq<ObjectView> {
    seq![
        buffers_object(neg.stride, neg.height, neg.layout().len() as u32, max_buffers),
        meta_object(),
    ]
}

/// Reply with `ParamBuffers` (and re-request the Header meta): the
/// acknowledgement that the consumer's (format, size, fps) is accepted.
///
/// `blocks` is the number of data blocks (planes) per buffer; `size` is the
/// size of the *first* block (`stride x height`), and the stride is that of the first
/// block. PipeWire derives the per-plane layout from the negotiated video
/// format, so only the primary block is described here.
pub fn reply_buffers(neg: &Negotiated, max_buffers: u32) -> (r: Vec<Object>)
    requires
        neg.wf(),
        neg.reply_fits(),
    ensures
        object_views(r@) == reply_objects(*neg, max_buffers),
{
    let num_planes: u32 = neg.format.planes(neg.width, neg.height).len() as u32;
    let mut blobs: Vec<Object> = Vec::new();
    blobs.push(buffers_pod(neg.stride, neg.height, num_planes, max_buffers));
    blobs.push(meta_pod());
    assert(object_views(blobs@) == reply_objects(*neg, max_buffers));
    blobs
}

/// Whether the framerate value `value` lets a consumer pick `rate`.
pub open spec fn admits_rate(value: ValueView, rate: Fraction) -> bool {
    match value {
        ValueView::Fraction(fraction) => fraction == rate,
        ValueView::FractionEnum { default, alternatives } => alternatives.contains(rate),
        _ => false,
    }
}

/// Whether a consumer that is offered `object` can pick `info`.
pub open spec fn picks(object: ObjectView, info: VideoInfo) -> bool {
    &&& object.properties.contains(
        property(Key::VideoFormat, ValueView::Id(Id::Raw(info.format))),
    )
    &&& object.properties.contains(
        property(
            Key::VideoSize,
            ValueView::Rectangle(Rectangle { width: info.width, height: info.height }),
        ),
    )
    &&& exists|p: PropertyView|
        #[trigger] object.properties.contains(p) && p.key == Key::VideoFramerate && admits_rate(
            p.value,
            Fraction { num: info.fps_num, denom: info.fps_denom },
        )
}

/// What a consumer picks from an advertised object is negotiated as that format and size, at
/// one of the advertised rates.
pub proof fn law_advertised_formats_negotiate(
    format: Format,
    width: u32,
    height: u32,
    fps: Seq<FpsChoice>,
    info: VideoInfo,
    node_id: u32,
)
    requires
        picks(enumformat_object(format, width, height, fps), info),
    ensures
        negotiated_by(FormatParam { is_object: true, video: Some(info) }, node_id) == Some(
            Negotiated {
                format,
                width,
                height,
                fps_num: info.fps_num,
                fps_denom: info.fps_denom,
                stride: format.row_bytes(width) as u32,
                node_id,
            },
        ),
        fps.contains((info.fps_num, info.fps_denom)),
{
    let object = enumformat_object(format, width, height, fps);
    let stated = property(Key::VideoFormat, ValueView::Id(Id::Raw(info.format)));
    let f = choose|i: int| 0 <= i < object.properties.len() && object.properties[i] == stated;
    assert(object.properties[f].key == Key::VideoFormat);
    assert(f == 2);
    crate::format::law_spa_id_read_back(format);
    let size = property(
        Key::VideoSize,
        ValueView::Rectangle(Rectangle { width: info.width, height: info.height }),
    );
    let s = choose|i: int| 0 <= i < object.properties.len() && object.properties[i] == size;
    assert(s == 3);
    let rate = Fraction { num: info.fps_num, denom: info.fps_denom };
    let p = choose|p: PropertyView|
        #[trigger] object.properties.contains(p) && p.key == Key::VideoFramerate && admits_rate(
            p.value,
            rate,
        );
    let r = choose|i: int| 0 <= i < object.properties.len() && object.properties[i] == p;
    assert(r == 4);
    if fps.len() == 1 {
        assert(fps[0] == (info.fps_num, info.fps_denom));
    } else {
        let alternatives = fps.map_values(|choice: FpsChoice| crate::pod::fraction(choice));
        assert(alternatives.contains(rate));
        let k = choose|k: int| 0 <= k < alternatives.len() && alternatives[k] == rate;
        assert(fps[k] == (info.fps_num, info.fps_denom));
    }
}

/// An advertised object lets a consumer pick its format and size at each of its rates.
pub proof fn law_every_advertised_rate_can_be_picked(
    format: Format,
    width: u32,
    height: u32,
    fps: Seq<FpsChoice>,
    k: int,
)
    requires
        0 <= k < fps.len(),
    ensures
        picks(
            enumformat_object(format, width, height, fps),
            VideoInfo { format: format.id(), width, height, fps_num: fps[k].0, fps_denom: fps[k].1 },
        ),
{
    let object = enumformat_object(format, width, height, fps);
    assert(object.properties[2] == property(
        Key::VideoFormat,
        ValueView::Id(Id::Raw(format.id())),
    ));
    assert(object.properties[3] == property(
        Key::VideoSize,
        ValueView::Rectangle(Rectangle { width, height }),
    ));
    let p = object.properties[4];
    assert(object.properties.contains(p));
    let rate = crate::pod::fraction(fps[k]);
    if fps.len() > 1 {
        let alternatives = fps.map_values(|choice: FpsChoice| crate::pod::fraction(choice));
        assert(alternatives[k] == rate);
    }
    assert(admits_rate(p.value, rate));
}

/// Every (format, size, framerate) of a config can be picked from what is advertised for it.
pub proof fn law_every_combination_can_be_picked(config: ConfigView, m: int, k: int, j: int)
    requires
        0 <= m < config.modes.len(),
        0 <= k < config.modes[m].formats.len(),
        0 <= j < config.modes[m].fps.len(),
    ensures
        exists|i: int|
            0 <= i < advertised_objects(config).len() && picks(
                #[trigger] advertised_objects(config)[i],
                VideoInfo {
                    format: config.modes[m].formats[k].id(),
                    width: config.modes[m].width,
                    height: config.modes[m].height,
                    fps_num: config.modes[m].fps[j],
                    fps_denom: 1,
                },
            ),
{
    let mode = config.modes[m];
    let offers = offers_of(config.modes);
    law_every_rate_is_advertised(config.modes, m, k, j);
    let i = choose|i: int|
        0 <= i < offers.len() && offer_is_for(
            #[trigger] offers[i],
            mode.formats[k],
            mode.width,
            mode.height,
        ) && offers[i].fps.contains(mode.fps[j]);
    let offer = offers[i];
    let a = choose|a: int| 0 <= a < offer.fps.len() && offer.fps[a] == mode.fps[j];
    let rates = whole_rates(offer.fps);
    assert(rates[a] == (mode.fps[j], 1u32));
    law_every_advertised_rate_can_be_picked(offer.format, offer.width, offer.height, rates, a);
    assert(advertised_objects(config)[i] == offer_object(offer));
}

/// Only the (format, size, framerate) combinations of a config can be picked from what is
/// advertised for it.
pub proof fn law_only_listed_combinations_can_be_picked(
    config: ConfigView,
    i: int,
    info: VideoInfo,
)
    requires
        0 <= i < advertised_objects(config).len(),
        picks(advertised_objects(config)[i], info),
    ensures
        info.fps_denom == 1,
        exists|m: int, format: Format|
            0 <= m < config.modes.len() && format.id() == info.format && #[trigger] lists_rate(
                config.modes[m],
                format,
                info.width,
                info.height,
                info.fps_num,
            ),
{
    let offers = offers_of(config.modes);
    if i == offers.len() {
        let stated = property(Key::VideoFormat, ValueView::Id(Id::Raw(info.format)));
        assert(meta_object().properties.contains(stated));
        let f = choose|f: int|
            0 <= f < meta_object().properties.len() && meta_object().properties[f] == stated;
        assert(meta_object().properties[f].key == Key::VideoFormat);
        assert(false);
    }
    let offer = offers[i];
    let rates = whole_rates(offer.fps);
    assert(advertised_objects(config)[i] == offer_object(offer));
    law_advertised_formats_negotiate(offer.format, offer.width, offer.height, rates, info, 0);
    let a = choose|a: int| 0 <= a < rates.len() && rates[a] == (info.fps_num, info.fps_denom);
    assert(offer.fps[a] == info.fps_num);
    law_every_advertised_rate_is_listed(config.modes, i, a);
    let m = choose|m: int|
        0 <= m < config.modes.len() && lists_rate(
            #[trigger] config.modes[m],
            offer.format,
            offer.width,
            offer.height,
            offer.fps[a],
        );
    let object = offer_object(offer);
    let stated = property(Key::VideoFormat, ValueView::Id(Id::Raw(info.format)));
    let f = choose|f: int| 0 <= f < object.properties.len() && object.properties[f] == stated;
    assert(object.properties[f].key == Key::VideoFormat);
    assert(f == 2);
    assert(lists_rate(config.modes[m], offer.format, info.width, info.height, info.fps_num));
}

/// The period is the negotiated one, rounded down to whole nanoseconds.
pub proof fn law_period_rounds_down(neg: Negotiated)
    requires
        neg.fps_num > 0,
    ensures
        neg.period() * neg.fps_num <= neg.fps_denom * 1_000_000_000 < (neg.period() + 1)
            * neg.fps_num,
{
    let span = neg.fps_denom * 1_000_000_000;
    let num = neg.fps_num as int;
    assert(span / num * num <= span < (span / num + 1) * num) by (nonlinear_arith)
        requires
            num > 0,
    ;
}

/// The period is what is between two frames at the negotiated rate, at any rate; without a
/// numerator it is what a numerator of one gives.
pub proof fn law_period_of_any_rate(neg: Negotiated)
    ensures
        0 <= neg.period() <= u64::MAX,
        neg.fps_num > 0 ==> neg.period() * neg.fps_num <= neg.fps_denom * 1_000_000_000 < (
        neg.period() + 1) * neg.fps_num,
        neg.fps_num == 0 ==> neg.period() == neg.fps_denom * 1_000_000_000,
{
    let span = neg.fps_denom * 1_000_000_000;
    if neg.fps_num > 0 {
        law_period_rounds_down(neg);
        let num = neg.fps_num as int;
        assert(0 <= span / num <= span) by (nonlinear_arith)
            requires
                num > 0,
                span >= 0,
        ;
    } else {
        assert(span / 1 == span);
    }
}

/// What a raw video format negotiates is that format, at the size and rate it states.
pub proof fn law_stated_format_is_negotiated(param: FormatParam, node_id: u32)
    ensures
        negotiated_by(param, node_id) is Some <==> param.is_object && param.video is Some && exists|
            f: Format,
        | (#[trigger] f.id()) == param.video.unwrap().format,
        negotiated_by(param, node_id) is Some ==> {
            let neg = negotiated_by(param, node_id).unwrap();
            let info = param.video.unwrap();
            &&& neg.format.id() == info.format
            &&& neg.width == info.width
            &&& neg.height == info.height
            &&& neg.fps_num == info.fps_num
            &&& neg.fps_denom == info.fps_denom
            &&& neg.node_id == node_id
        },
{
    if param.video is Some {
        crate::format::law_only_the_right_format_is_found(
            param.video.unwrap().format,
            Seq::empty(),
        );
    }
}

/// The reply describes the first plane and counts the planes, and asks for the meta behind it.
pub proof fn law_reply_describes_the_first_plane(neg: Negotiated, max_buffers: u32)
    requires
        neg.format.row_bytes(neg.width) <= u32::MAX,
    ensures
        reply_objects(neg, max_buffers).len() == 2,
        reply_objects(neg, max_buffers)[0] == buffers_object(
            neg.stride,
            neg.height,
            if neg.format is I420 {
                3
            } else if neg.format is Nv12 || neg.format is Nv21 {
                2
            } else {
                1
            },
            max_buffers,
        ),
        reply_objects(neg, max_buffers)[1] == meta_object(),
{
    crate::format::law_planes_hold_the_samples(neg.format, neg.width, neg.height);
}

} // verus!
