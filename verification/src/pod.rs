//! The parameter objects ("PODs") of a camera: the formats it advertises and its replies to a
//! negotiation.
//!
//! An [`Object`] names SPA's types, keys and ids symbolically; whoever serializes it supplies
//! the numbers. Every advertised size is a *plain* rectangle: OBS parses the size as one and
//! drops range and choice encodings.

use vstd::prelude::*;
use crate::format::Format;

verus! {

/// Hard ceiling on `Config::max_buffers`.
pub const MAX_BUFFERS: i32 = 16;

/// The size of a full `Header` meta in bytes.
pub const HEADER_META_SIZE: u32 = 32;

/// `SPA_VIDEO_TRANSFER_BT709`.
pub const TRANSFER_BT709: u32 = 5;

/// `SPA_VIDEO_COLOR_PRIMARIES_BT709`.
pub const PRIMARIES_BT709: u32 = 1;

/// A single framerate choice as a `(num, denom)` fraction.
pub type FpsChoice = (u32, u32);

#[derive(Clone, Copy, Debug, PartialEq, Eq, Structural)]
pub struct Fraction {
    pub num: u32,
    pub denom: u32,
}

#[derive(Clone, Copy, Debug, PartialEq, Eq, Structural)]
pub struct Rectangle {
    pub width: u32,
    pub height: u32,
}

/// What an object describes (`SPA_TYPE_OBJECT_*`).
#[derive(Clone, Copy, Debug, PartialEq, Eq, Structural)]
pub enum ObjectType {
    ParamFormat,
    ParamBuffers,
    ParamMeta,
}

/// The parameter an object stands for (`SPA_PARAM_*`).
#[derive(Clone, Copy, Debug, PartialEq, Eq, Structural)]
pub enum ParamType {
    EnumFormat,
    Format,
    Buffers,
    Meta,
    /// Any other parameter, by its number.
    Other(u32),
}

/// What a property says (`SPA_FORMAT_*`, `SPA_PARAM_BUFFERS_*`, `SPA_PARAM_META_*`).
#[derive(Clone, Copy, Debug, PartialEq, Eq, Structural)]
pub enum Key {
    MediaType,
    MediaSubtype,
    VideoFormat,
    VideoSize,
    VideoFramerate,
    VideoMaxFramerate,
    VideoColorRange,
    VideoColorMatrix,
    VideoTransferFunction,
    VideoColorPrimaries,
    Buffers,
    BufferBlocks,
    BufferSize,
    BufferStride,
    MetaType,
    MetaSize,
}

/// An enumerated value.
#[derive(Clone, Copy, Debug, PartialEq, Eq, Structural)]
pub enum Id {
    /// `SPA_MEDIA_TYPE_video`.
    MediaVideo,
    /// `SPA_MEDIA_SUBTYPE_raw`.
    SubtypeRaw,
    /// `SPA_VIDEO_COLOR_RANGE_0_255`.
    ColorRangeFull,
    /// `SPA_VIDEO_COLOR_RANGE_16_235`.
    ColorRangeLimited,
    /// `SPA_VIDEO_COLOR_MATRIX_BT601`.
    ColorMatrixBt601,
    /// `SPA_META_Header`.
    MetaHeader,
    /// An id by its number.
    Raw(u32),
}

/// A property's value.
#[derive(Clone, Debug, PartialEq, Eq)]
pub enum Value {
    Id(Id),
    Int(i32),
    Rectangle(Rectangle),
    Fraction(Fraction),
    /// One of several fractions.
    FractionEnum { default: Fraction, alternatives: Vec<Fraction> },
    /// An integer between two bounds, both included, with the one that is taken by default.
    IntRange { preferred: i32, min: i32, max: i32 },
}

/// One property of an object. No property carries a flag.
#[derive(Clone, Debug, PartialEq, Eq)]
pub struct Property {
    pub key: Key,
    pub value: Value,
}

/// A parameter object.
#[derive(Clone, Debug, PartialEq, Eq)]
pub struct Object {
    pub type_: ObjectType,
    pub id: ParamType,
    pub properties: Vec<Property>,
}

/// What a [`Value`] says.
#[verifier::ext_equal]
pub enum ValueView {
    Id(Id),
    Int(i32),
    Rectangle(Rectangle),
    Fraction(Fraction),
    FractionEnum { default: Fraction, alternatives: Seq<Fraction> },
    IntRange { preferred: i32, min: i32, max: i32 },
}

/// What a [`Property`] says.
#[verifier::ext_equal]
pub struct PropertyView {
    pub key: Key,
    pub value: ValueView,
}

/// What an [`Object`] says.
#[verifier::ext_equal]
pub struct ObjectView {
    pub type_: ObjectType,
    pub id: ParamType,
    pub properties: Seq<PropertyView>,
}

impl View for Value {
    type V = ValueView;

    open spec fn view(&self) -> ValueView {
        match *self {
            Value::Id(id) => ValueView::Id(id),
            Value::Int(n) => ValueView::Int(n),
            Value::Rectangle(rectangle) => ValueView::Rectangle(rectangle),
            Value::Fraction(fraction) => ValueView::Fraction(fraction),
            Value::FractionEnum { default, alternatives } => ValueView::FractionEnum {
                default,
                alternatives: alternatives@,
            },
            Value::IntRange { preferred, min, max } => ValueView::IntRange { preferred, min, max },
        }
    }
}

impl View for Property {
    type V = PropertyView;

    open spec fn view(&self) -> PropertyView {
        PropertyView { key: self.key, value: self.value@ }
    }
}

/// What the properties say, in order.
pub open spec fn property_views(properties: Seq<Property>) -> Seq<PropertyView> {
    properties.map_values(|property: Property| property@)
}

impl View for Object {
    type V = ObjectView;

    open spec fn view(&self) -> ObjectView {
        ObjectView {
            type_: self.type_,
            id: self.id,
            properties: property_views(self.properties@),
        }
    }
}

/// What the objects say, in order.
pub open spec fn object_views(objects: Seq<Object>) -> Seq<ObjectView> {
    objects.map_values(|object: Object| object@)
}

/// A property of the given key and value.
pub open spec fn property(key: Key, value: ValueView) -> PropertyView {
    PropertyView { key, value }
}

pub open spec fn fraction(choice: FpsChoice) -> Fraction {
    Fraction { num: choice.0, denom: choice.1 }
}

/// The framerate property's value: a plain fraction for a single rate, an enum of fractions
/// with the first as default for several.
pub open spec fn framerate(fps: Seq<FpsChoice>) -> ValueView {
    if fps.len() == 1 {
        ValueView::Fraction(fraction(fps[0]))
    } else {
        ValueView::FractionEnum {
            default: fraction(fps[0]),
            alternatives: fps.map_values(|choice: FpsChoice| fraction(choice)),
        }
    }
}

/// The denominator of a framerate, a zero counted as one.
pub open spec fn denominator(choice: FpsChoice) -> u32 {
    if choice.1 == 0 {
        1
    } else {
        choice.1
    }
}

/// Whether `a` is the slower framerate of the two.
pub open spec fn slower(a: FpsChoice, b: FpsChoice) -> bool {
    a.0 * denominator(b) < b.0 * denominator(a)
}

/// The fastest of the framerates, the first of them where several are equally fast.
pub open spec fn fastest(fps: Seq<FpsChoice>) -> FpsChoice
    decreases fps.len(),
{
    if fps.len() <= 1 {
        (fps[0].0, denominator(fps[0]))
    } else {
        let best = fastest(fps.drop_last());
        if slower(best, fps.last()) {
            (fps.last().0, denominator(fps.last()))
        } else {
            best
        }
    }
}

/// The range in which colors are coded: packed Y'UV is limited, as on a real webcam.
pub open spec fn color_range(format: Format) -> Id {
    match format {
        Format::Yuy2 | Format::Uvyvy => Id::ColorRangeLimited,
        _ => Id::ColorRangeFull,
    }
}

/// The properties that every advertised format has.
pub open spec fn base_properties(
    format: Format,
    width: u32,
    height: u32,
    fps: Seq<FpsChoice>,
) -> Seq<PropertyView> {
    seq![
        property(Key::MediaType, ValueView::Id(Id::MediaVideo)),
        property(Key::MediaSubtype, ValueView::Id(Id::SubtypeRaw)),
        property(Key::VideoFormat, ValueView::Id(Id::Raw(format.id()))),
        property(Key::VideoSize, ValueView::Rectangle(Rectangle { width, height })),
        property(Key::VideoFramerate, framerate(fps)),
        property(Key::VideoColorRange, ValueView::Id(color_range(format))),
        property(Key::VideoColorMatrix, ValueView::Id(Id::ColorMatrixBt601)),
        property(Key::VideoTransferFunction, ValueView::Id(Id::Raw(TRANSFER_BT709))),
        property(Key::VideoColorPrimaries, ValueView::Id(Id::Raw(PRIMARIES_BT709))),
    ]
}

/// The object that advertises `format` at `width x height` with the framerates `fps`. The
/// fastest rate is named only where there are several.
pub open spec fn enumformat_object(
    format: Format,
    width: u32,
    height: u32,
    fps: Seq<FpsChoice>,
) -> ObjectView {
    let base = base_properties(format, width, height, fps);
    ObjectView {
        type_: ObjectType::ParamFormat,
        id: ParamType::EnumFormat,
        properties: if fps.len() > 1 {
            base.push(property(Key::VideoMaxFramerate, ValueView::Fraction(fraction(fastest(fps)))))
        } else {
            base
        },
    }
}

/// `n` read as a two's complement number.
#[verifier::inline]
pub open spec fn wrapped(n: u32) -> int {
    if n <= i32::MAX {
        n as int
    } else {
        n - 0x1_0000_0000
    }
}

/// The least buffer count a consumer may pick: two, whatever the config asks for.
pub open spec fn least_buffers(max_buffers: u32) -> int {
    2
}

/// The greatest buffer count a consumer may pick.
pub open spec fn most_buffers(max_buffers: u32) -> int {
    if max_buffers < 2 {
        2
    } else if max_buffers > MAX_BUFFERS {
        MAX_BUFFERS as int
    } else {
        max_buffers as int
    }
}

/// The buffer count a consumer gets that does not ask for another.
pub open spec fn default_buffers(max_buffers: u32) -> int {
    if most_buffers(max_buffers) < 4 {
        most_buffers(max_buffers)
    } else {
        4
    }
}

/// The object that accepts a geometry: how many buffers, and the first plane's blocks, size
/// and stride.
pub open spec fn buffers_object(
    stride: u32,
    height: u32,
    num_planes: u32,
    max_buffers: u32,
) -> ObjectView {
    ObjectView {
        type_: ObjectType::ParamBuffers,
        id: ParamType::Buffers,
        properties: seq![
            property(
                Key::Buffers,
                ValueView::IntRange {
                    preferred: default_buffers(max_buffers) as i32,
                    min: least_buffers(max_buffers) as i32,
                    max: most_buffers(max_buffers) as i32,
                },
            ),
            property(Key::BufferBlocks, ValueView::Int(wrapped(num_planes) as i32)),
            property(Key::BufferSize, ValueView::Int((wrapped(stride) * wrapped(height)) as i32)),
            property(Key::BufferStride, ValueView::Int(wrapped(stride) as i32)),
        ],
    }
}

/// The object that asks for a `Header` meta on each buffer.
pub open spec fn meta_object() -> ObjectView {
    ObjectView {
        type_: ObjectType::ParamMeta,
        id: ParamType::Meta,
        properties: seq![
            property(Key::MetaType, ValueView::Id(Id::MetaHeader)),
            property(Key::MetaSize, ValueView::Int(HEADER_META_SIZE as i32)),
        ],
    }
}

fn plain(key: Key, id: Id) -> (r: Property)
    ensures
        r@ == property(key, ValueView::Id(id)),
{
    Property { key, value: Value::Id(id) }
}

/// Framerate choice value for `fps`: a plain `Fraction` for a single rate,
/// or an enum of fractions for several.
pub fn framerate_value(fps: &[FpsChoice]) -> (r: Value)
    requires
        fps@.len() > 0,
    ensures
        r@ == framerate(fps@),
{
    let default = Fraction { num: fps[0].0, denom: fps[0].1 };
    if fps.len() == 1 {
        return Value::Fraction(default);
    }
    let mut alternatives: Vec<Fraction> = Vec::new();
    let mut i: usize = 0;
    while i < fps.len()
        invariant
            i <= fps@.len(),
            alternatives@.len() == i,
            forall|j: int| 0 <= j < i ==> alternatives@[j] == fraction(#[trigger] fps@[j]),
        decreases fps@.len() - i,
    {
        alternatives.push(Fraction { num: fps[i].0, denom: fps[i].1 });
        i += 1;
    }
    assert(alternatives@ == fps@.map_values(|choice: FpsChoice| fraction(choice)));
    Value::FractionEnum { default, alternatives }
}

/// The maximum advertised framerate as `(num, denom)`, for the
/// `maxFramerate` property. Real camera nodes advertise it; browsers use it
/// to validate the negotiated rate. Only given for several choices: a single one already pins
/// the rate exactly.
pub fn max_framerate(fps: &[FpsChoice]) -> (r: Option<FpsChoice>)
    ensures
        r == if fps@.len() > 1 {
            Some(fastest(fps@))
        } else {
            None
        },
{
    if fps.len() <= 1 {
        return None;
    }
    let mut best: FpsChoice = (fps[0].0, if fps[0].1 == 0 { 1 } else { fps[0].1 });
    let mut i: usize = 1;
    assert(fps@.take(1)[0] == fps@[0]);
    while i < fps.len()
        invariant
            1 <= i <= fps@.len(),
            best == fastest(fps@.take(i as int)),
            best.1 > 0,
        decreases fps@.len() - i,
    {
        let denom: u32 = if fps[i].1 == 0 { 1 } else { fps[i].1 };
        let left: u64 = widening_mul(best.0, denom);
        let right: u64 = widening_mul(fps[i].0, best.1);
        proof {
            let so_far = fps@.take(i + 1);
            assert(so_far.drop_last() == fps@.take(i as int));
            assert(so_far.last() == fps@[i as int]);
        }
        if left < right {
            best = (fps[i].0, denom);
        }
        i += 1;
    }
    assert(fps@.take(fps@.len() as int) == fps@);
    Some(best)
}

fn widening_mul(a: u32, b: u32) -> (r: u64)
    ensures
        r == a * b,
{
    assert(a * b <= u32::MAX * u32::MAX) by (nonlinear_arith)
        requires
            a <= u32::MAX,
            b <= u32::MAX,
    ;
    (a as u64) * (b as u64)
}

/// The base `EnumFormat` properties for one (format, size) pair: the geometry, then the
/// colorimetry a regular PipeWire camera node advertises.
pub fn format_properties(format: Format, width: u32, height: u32, fps: &[FpsChoice]) -> (r: Vec<
    Property,
>)
    requires
        fps@.len() > 0,
    ensures
        property_views(r@) == base_properties(format, width, height, fps@),
{
    let range = match format {
        Format::Yuy2 | Format::Uvyvy => Id::ColorRangeLimited,
        _ => Id::ColorRangeFull,
    };
    let mut properties: Vec<Property> = Vec::new();
    properties.push(plain(Key::MediaType, Id::MediaVideo));
    properties.push(plain(Key::MediaSubtype, Id::SubtypeRaw));
    properties.push(plain(Key::VideoFormat, Id::Raw(format.spa_id())));
    properties.push(
        Property { key: Key::VideoSize, value: Value::Rectangle(Rectangle { width, height }) },
    );
    properties.push(Property { key: Key::VideoFramerate, value: framerate_value(fps) });
    properties.push(plain(Key::VideoColorRange, range));
    properties.push(plain(Key::VideoColorMatrix, Id::ColorMatrixBt601));
    properties.push(plain(Key::VideoTransferFunction, Id::Raw(TRANSFER_BT709)));
    properties.push(plain(Key::VideoColorPrimaries, Id::Raw(PRIMARIES_BT709)));
    assert(property_views(properties@) == base_properties(format, width, height, fps@));
    properties
}

/// One `EnumFormat` object with plain (fixed) values for a single
/// (format, size) pair and its framerates.
///
/// It has no modifier property: the mere presence of one makes gstreamer-pipewire ask for
/// DmaBuf-only buffers, which the camera cannot provide.
pub fn enumformat_pod(format: Format, width: u32, height: u32, fps: &[FpsChoice]) -> (r: Object)
    requires
        fps@.len() > 0,
    ensures
        r@ == enumformat_object(format, width, height, fps@),
{
    let mut properties = format_properties(format, width, height, fps);
    let ghost base = properties@;
    match max_framerate(fps) {
        Some((num, denom)) => {
            properties.push(
                Property {
                    key: Key::VideoMaxFramerate,
                    value: Value::Fraction(Fraction { num, denom }),
                },
            );
            assert(property_views(properties@) == property_views(base).push(properties@.last()@));
        },
        None => {},
    }
    Object { type_: ObjectType::ParamFormat, id: ParamType::EnumFormat, properties }
}

/// `n` as a two's complement number.
pub fn to_i32(n: u32) -> (r: i32)
    ensures
        r == wrapped(n),
        n <= i32::MAX ==> r == n,
        (r - n) % 0x1_0000_0000 == 0,
{
    let r = n as i32;
    assert(n <= 0x7fff_ffff ==> r as int == n as int) by (bit_vector)
        requires
            r == n as i32,
    ;
    assert(n > 0x7fff_ffff ==> r as int == n as int - 0x1_0000_0000) by (bit_vector)
        requires
            r == n as i32,
    ;
    r
}

/// The `ParamBuffers` properties: the buffer-count range `(min, max, default)` and the first
/// (primary) plane's block count, size and stride.
pub fn buffers_properties(
    range: (u32, u32, u32),
    num_planes: u32,
    stride: u32,
    height: u32,
) -> (r: Vec<Property>)
    requires
        i32::MIN <= wrapped(stride) * wrapped(height) <= i32::MAX,
    ensures
        property_views(r@) == seq![
            property(
                Key::Buffers,
                ValueView::IntRange {
                    preferred: wrapped(range.2) as i32,
                    min: wrapped(range.0) as i32,
                    max: wrapped(range.1) as i32,
                },
            ),
            property(Key::BufferBlocks, ValueView::Int(wrapped(num_planes) as i32)),
            property(Key::BufferSize, ValueView::Int((wrapped(stride) * wrapped(height)) as i32)),
            property(Key::BufferStride, ValueView::Int(wrapped(stride) as i32)),
        ],
{
    let (min, max, default) = range;
    let size: i32 = to_i32(stride) * to_i32(height);
    let mut properties: Vec<Property> = Vec::new();
    properties.push(
        Property {
            key: Key::Buffers,
            value: Value::IntRange {
                preferred: to_i32(default),
                min: to_i32(min),
                max: to_i32(max),
            },
        },
    );
    properties.push(Property { key: Key::BufferBlocks, value: Value::Int(to_i32(num_planes)) });
    properties.push(Property { key: Key::BufferSize, value: Value::Int(size) });
    properties.push(Property { key: Key::BufferStride, value: Value::Int(to_i32(stride)) });
    properties
}

/// `ParamBuffers` reply: accept 2..[`MAX_BUFFERS`] buffers of the negotiated
/// geometry. `num_planes` is the number of data blocks (planes) per buffer;
/// `stride`/`height` describe the first (primary) plane: PipeWire derives
/// the per-plane layout from the negotiated video format.
pub fn buffers_pod(stride: u32, height: u32, num_planes: u32, max_buffers: u32) -> (r: Object)
    requires
        i32::MIN <= wrapped(stride) * wrapped(height) <= i32::MAX,
    ensures
        r@ == buffers_object(stride, height, num_planes, max_buffers),
{
    let min: u32 = 2;
    let max: u32 = if max_buffers < 2 {
        2
    } else if max_buffers > MAX_BUFFERS as u32 {
        MAX_BUFFERS as u32
    } else {
        max_buffers
    };
    let default: u32 = if max < 4 { max } else { 4 };
    Object {
        type_: ObjectType::ParamBuffers,
        id: ParamType::Buffers,
        properties: buffers_properties((min, max, default), num_planes, stride, height),
    }
}

/// `ParamMeta` object asking for a `Header` meta alongside the video data.
pub fn meta_pod() -> (r: Object)
    ensures
        r@ == meta_object(),
{
    let mut properties: Vec<Property> = Vec::new();
    properties.push(plain(Key::MetaType, Id::MetaHeader));
    properties.push(Property { key: Key::MetaSize, value: Value::Int(32) });
    let r = Object { type_: ObjectType::ParamMeta, id: ParamType::Meta, properties };
    assert(r@.properties == meta_object().properties);
    r
}

/// The fastest framerate is one of them, and none of them is faster.
pub proof fn law_fastest_is_fastest(fps: Seq<FpsChoice>, i: int)
    requires
        0 <= i < fps.len(),
    ensures
        !slower(fastest(fps), fps[i]),
        exists|j: int|
            0 <= j < fps.len() && fastest(fps) == ((#[trigger] fps[j]).0, denominator(fps[j])),
    decreases fps.len(),
{
    if fps.len() == 1 {
        assert(fastest(fps) == (fps[0].0, denominator(fps[0])));
    } else {
        let front = fps.drop_last();
        let best = fastest(front);
        let last = fps.last();
        law_fastest_is_fastest(front, if i < front.len() { i } else { 0 });
        let j = choose|j: int|
            0 <= j < front.len() && best == ((#[trigger] front[j]).0, denominator(front[j]));
        assert(fps[j] == front[j]);
        assert(fps[fps.len() - 1] == last);
        if slower(best, last) && i < front.len() {
            lemma_rates_are_ordered(fps[i], best, last);
        }
    }
}

/// A rate that is not above `middle` is not above one that `middle` is slower than.
proof fn lemma_rates_are_ordered(low: FpsChoice, middle: FpsChoice, high: FpsChoice)
    requires
        !slower(middle, low),
        slower(middle, high),
    ensures
        !slower((high.0, denominator(high)), low),
{
    let (l, ld) = (low.0 as int, denominator(low) as int);
    let (m, md) = (middle.0 as int, denominator(middle) as int);
    let (h, hd) = (high.0 as int, denominator(high) as int);
    assert(l * hd <= h * ld) by (nonlinear_arith)
        requires
            l * md <= m * ld,
            m * hd < h * md,
            md > 0,
            ld > 0,
            hd > 0,
            l >= 0,
            m >= 0,
    {
        assert((l * md) * hd <= (m * ld) * hd);
        assert((m * hd) * ld <= (h * md) * ld);
        assert((l * md) * hd == (l * hd) * md);
        assert((m * ld) * hd == (m * hd) * ld);
        assert((h * md) * ld == (h * ld) * md);
        assert((l * hd) * md <= (h * ld) * md);
    }
}

/// No advertised format says two things under one key.
pub proof fn law_keys_are_unique(
    format: Format,
    width: u32,
    height: u32,
    fps: Seq<FpsChoice>,
    i: int,
    j: int,
)
    requires
        0 <= i < enumformat_object(format, width, height, fps).properties.len(),
        0 <= j < enumformat_object(format, width, height, fps).properties.len(),
        enumformat_object(format, width, height, fps).properties[i].key == enumformat_object(
            format,
            width,
            height,
            fps,
        ).properties[j].key,
    ensures
        i == j,
{
}

/// Whatever the config asks for, a consumer can pick the default buffer count, never fewer
/// than two and never more than [`MAX_BUFFERS`]; where the config allows two or more, it gets
/// no more than the config allows.
pub proof fn law_buffer_counts(max_buffers: u32)
    ensures
        2 <= least_buffers(max_buffers) <= default_buffers(max_buffers) <= most_buffers(
            max_buffers,
        ) <= MAX_BUFFERS,
        max_buffers >= 2 ==> most_buffers(max_buffers) <= max_buffers,
{
}

/// Objects are seen as they are: nothing of a value, a property or an object is left out.
pub proof fn law_objects_are_seen_whole(object: Object, objects: Seq<Object>, value: Value)
    ensures
        object@.type_ == object.type_,
        object@.id == object.id,
        object@.properties.len() == object.properties@.len(),
        forall|i: int|
            0 <= i < object.properties@.len() ==> (#[trigger] object@.properties[i]).key
                == object.properties@[i].key && object@.properties[i].value
                == object.properties@[i].value@,
        object_views(objects).len() == objects.len(),
        forall|i: int| 0 <= i < objects.len() ==> #[trigger] object_views(objects)[i] == objects[i]@,
        match value {
            Value::Id(id) => value@ == ValueView::Id(id),
            Value::Int(n) => value@ == ValueView::Int(n),
            Value::Rectangle(rectangle) => value@ == ValueView::Rectangle(rectangle),
            Value::Fraction(fraction) => value@ == ValueView::Fraction(fraction),
            Value::FractionEnum { default, alternatives } => value@ == (ValueView::FractionEnum {
                default,
                alternatives: alternatives@,
            }),
            Value::IntRange { preferred, min, max } => value@ == (ValueView::IntRange {
                preferred,
                min,
                max,
            }),
        },
{
}

/// Whether `object` says `value` under `key`, and nothing else.
pub open spec fn says(object: ObjectView, key: Key, value: ValueView) -> bool {
    &&& exists|i: int| 0 <= i < object.properties.len() && #[trigger] object.properties[i].key == key
    &&& forall|i: int|
        0 <= i < object.properties.len() && #[trigger] object.properties[i].key == key
            ==> object.properties[i].value == value
}

/// An advertised object says which format and size it is for and how its colors are coded:
/// packed Y'UV in the limited range, everything else in the full one.
pub proof fn law_advertised_object_says_its_format(
    format: Format,
    width: u32,
    height: u32,
    fps: Seq<FpsChoice>,
)
    ensures
        ({
            let object = enumformat_object(format, width, height, fps);
            &&& object.type_ is ParamFormat
            &&& object.id is EnumFormat
            &&& says(object, Key::MediaType, ValueView::Id(Id::MediaVideo))
            &&& says(object, Key::MediaSubtype, ValueView::Id(Id::SubtypeRaw))
            &&& says(object, Key::VideoFormat, ValueView::Id(Id::Raw(format.id())))
            &&& says(
                object,
                Key::VideoSize,
                ValueView::Rectangle(Rectangle { width, height }),
            )
            &&& says(
                object,
                Key::VideoColorRange,
                ValueView::Id(
                    if format is Yuy2 || format is Uvyvy {
                        Id::ColorRangeLimited
                    } else {
                        Id::ColorRangeFull
                    },
                ),
            )
            &&& says(object, Key::VideoColorMatrix, ValueView::Id(Id::ColorMatrixBt601))
            &&& says(object, Key::VideoTransferFunction, ValueView::Id(Id::Raw(5)))
            &&& says(object, Key::VideoColorPrimaries, ValueView::Id(Id::Raw(1)))
            &&& object.properties.len() == if fps.len() > 1 {
                10
            } else {
                9int
            }
        }),
{
    let object = enumformat_object(format, width, height, fps);
    assert(object.properties[0].key is MediaType);
    assert(object.properties[1].key is MediaSubtype);
    assert(object.properties[2].key is VideoFormat);
    assert(object.properties[3].key is VideoSize);
    assert(object.properties[5].key is VideoColorRange);
    assert(object.properties[6].key is VideoColorMatrix);
    assert(object.properties[7].key is VideoTransferFunction);
    assert(object.properties[8].key is VideoColorPrimaries);
}

/// An advertised object says each of its framerates, in order and with the first as default; a
/// single one it says plainly.
pub proof fn law_advertised_object_says_its_rates(
    format: Format,
    width: u32,
    height: u32,
    fps: Seq<FpsChoice>,
)
    requires
        fps.len() > 0,
    ensures
        exists|value: ValueView|
            {
                &&& #[trigger] says(
                    enumformat_object(format, width, height, fps),
                    Key::VideoFramerate,
                    value,
                )
                &&& match value {
                    ValueView::Fraction(rate) => fps.len() == 1 && fps[0] == (rate.num, rate.denom),
                    ValueView::FractionEnum { default, alternatives } => {
                        &&& fps.len() > 1
                        &&& fps[0] == (default.num, default.denom)
                        &&& alternatives.len() == fps.len()
                        &&& forall|i: int|
                            0 <= i < fps.len() ==> #[trigger] fps[i] == (
                                alternatives[i].num,
                                alternatives[i].denom,
                            )
                    },
                    _ => false,
                }
            },
{
    let object = enumformat_object(format, width, height, fps);
    assert(object.properties[4].key is VideoFramerate);
    assert(says(object, Key::VideoFramerate, object.properties[4].value));
}

/// An advertised object with several framerates says the fastest of them under the one key for
/// it: a rate that is one of them, a zero denominator counted as one, and that none of them
/// exceeds. An object with one framerate does not say it.
pub proof fn law_advertised_object_says_its_fastest_rate(
    format: Format,
    width: u32,
    height: u32,
    fps: Seq<FpsChoice>,
)
    ensures
        fps.len() > 1 ==> exists|rate: Fraction|
            {
                &&& #[trigger] says(
                    enumformat_object(format, width, height, fps),
                    Key::VideoMaxFramerate,
                    ValueView::Fraction(rate),
                )
                &&& is_greatest_rate((rate.num, rate.denom), fps)
            },
        fps.len() <= 1 ==> forall|i: int|
            0 <= i < enumformat_object(format, width, height, fps).properties.len()
                ==> !((#[trigger] enumformat_object(format, width, height, fps).properties[i]).key
                is VideoMaxFramerate),
{
    if fps.len() > 1 {
        let object = enumformat_object(format, width, height, fps);
        let best = fastest(fps);
        assert(object.properties[9].key is VideoMaxFramerate);
        assert(says(object, Key::VideoMaxFramerate, ValueView::Fraction(fraction(best))));
        law_greatest_rate_is_found(fps);
    }
}

/// Whether `rate` is one of the framerates, a zero denominator counted as one, and none of them
/// exceeds it.
pub open spec fn is_greatest_rate(rate: FpsChoice, fps: Seq<FpsChoice>) -> bool {
    &&& rate.1 > 0
    &&& exists|j: int|
        0 <= j < fps.len() && rate.0 == (#[trigger] fps[j]).0 && (rate.1 == fps[j].1 || fps[j].1
            == 0 && rate.1 == 1)
    &&& forall|i: int|
        0 <= i < fps.len() ==> {
            let (num, denom) = #[trigger] fps[i];
            num * rate.1 <= rate.0 * if denom == 0 {
                1
            } else {
                denom as int
            }
        }
}

/// The fastest framerate is the greatest one.
pub proof fn law_greatest_rate_is_found(fps: Seq<FpsChoice>)
    requires
        fps.len() > 0,
    ensures
        is_greatest_rate(fastest(fps), fps),
{
    let best = fastest(fps);
    law_fastest_is_fastest(fps, 0);
    assert forall|i: int| 0 <= i < fps.len() implies {
        let (num, denom) = #[trigger] fps[i];
        num * best.1 <= best.0 * if denom == 0 {
            1
        } else {
            denom as int
        }
    } by {
        law_fastest_is_fastest(fps, i);
    }
}

/// Reading a number as two's complement keeps it where it fits, and otherwise takes off one
/// whole turn.
pub proof fn law_wrapping_takes_off_whole_turns(n: u32)
    ensures
        i32::MIN <= wrapped(n) <= i32::MAX,
        n <= i32::MAX ==> wrapped(n) == n,
        (wrapped(n) - n) % 0x1_0000_0000 == 0,
{
}

/// The reply says how many buffers a consumer may pick, from two up to what the config allows
/// and at most sixteen, with four as the default where that is allowed; and the number of
/// blocks, the size of the first plane and its stride.
pub proof fn law_buffers_object_says_its_geometry(
    stride: u32,
    height: u32,
    num_planes: u32,
    max_buffers: u32,
)
    ensures
        ({
            let object = buffers_object(stride, height, num_planes, max_buffers);
            &&& object.type_ is ParamBuffers
            &&& object.id is Buffers
            &&& object.properties.len() == 4
            &&& exists|preferred: i32, min: i32, max: i32|
                {
                    &&& #[trigger] says(
                        object,
                        Key::Buffers,
                        ValueView::IntRange { preferred, min, max },
                    )
                    &&& min == 2
                    &&& 2 <= max <= 16
                    &&& 2 <= max_buffers <= 16 ==> max == max_buffers
                    &&& max_buffers < 2 ==> max == 2
                    &&& max_buffers > 16 ==> max == 16
                    &&& min <= preferred <= max
                    &&& preferred <= 4
                    &&& preferred == 4 || preferred == max
                }
            &&& num_planes <= i32::MAX ==> says(
                object,
                Key::BufferBlocks,
                ValueView::Int(num_planes as i32),
            )
            &&& stride <= i32::MAX ==> says(object, Key::BufferStride, ValueView::Int(stride as i32))
            &&& stride <= i32::MAX && height <= i32::MAX && stride * height <= i32::MAX ==> says(
                object,
                Key::BufferSize,
                ValueView::Int((stride * height) as i32),
            )
        }),
{
    let object = buffers_object(stride, height, num_planes, max_buffers);
    assert(object.properties[0].key is Buffers);
    assert(object.properties[1].key is BufferBlocks);
    assert(object.properties[2].key is BufferSize);
    assert(object.properties[3].key is BufferStride);
    assert(says(
        object,
        Key::Buffers,
        ValueView::IntRange {
            preferred: default_buffers(max_buffers) as i32,
            min: least_buffers(max_buffers) as i32,
            max: most_buffers(max_buffers) as i32,
        },
    ));
}

/// What the reply says of numbers that do not fit in an `i32` agrees with them up to whole
/// turns.
pub proof fn law_buffers_object_wraps_its_geometry(
    stride: u32,
    height: u32,
    num_planes: u32,
    max_buffers: u32,
)
    requires
        i32::MIN <= wrapped(stride) * wrapped(height) <= i32::MAX,
    ensures
        exists|blocks: i32|
            #[trigger] says(
                buffers_object(stride, height, num_planes, max_buffers),
                Key::BufferBlocks,
                ValueView::Int(blocks),
            ) && (blocks - num_planes) % 0x1_0000_0000 == 0,
        exists|size: i32|
            #[trigger] says(
                buffers_object(stride, height, num_planes, max_buffers),
                Key::BufferSize,
                ValueView::Int(size),
            ) && (size - stride * height) % 0x1_0000_0000 == 0,
        exists|row: i32|
            #[trigger] says(
                buffers_object(stride, height, num_planes, max_buffers),
                Key::BufferStride,
                ValueView::Int(row),
            ) && (row - stride) % 0x1_0000_0000 == 0,
{
    let object = buffers_object(stride, height, num_planes, max_buffers);
    let size = wrapped(stride) * wrapped(height);
    assert(object.properties[1].key is BufferBlocks);
    assert(object.properties[2].key is BufferSize);
    assert(object.properties[3].key is BufferStride);
    assert(says(object, Key::BufferBlocks, ValueView::Int(wrapped(num_planes) as i32)));
    assert(says(object, Key::BufferSize, ValueView::Int(size as i32)));
    assert(says(object, Key::BufferStride, ValueView::Int(wrapped(stride) as i32)));
    let turn: int = 0x1_0000_0000;
    let a: int = if stride <= i32::MAX { 0 } else { 1 };
    let b: int = if height <= i32::MAX { 0 } else { 1 };
    let (s, h) = (stride as int, height as int);
    assert(size == (s - a * turn) * (h - b * turn)) by {
        assert(a * turn == 0 || a * turn == turn);
        assert(b * turn == 0 || b * turn == turn);
    }
    assert((size - s * h) % turn == 0) by (nonlinear_arith)
        requires
            turn == 0x1_0000_0000,
            size == (s - a * turn) * (h - b * turn),
    {
        assert(size - s * h == turn * (a * b * turn - a * h - b * s));
    }
}

/// The meta request asks for a full `Header` meta and for nothing else.
pub proof fn law_meta_object_asks_for_the_header()
    ensures
        meta_object().type_ is ParamMeta,
        meta_object().id is Meta,
        meta_object().properties.len() == 2,
        says(meta_object(), Key::MetaType, ValueView::Id(Id::MetaHeader)),
        says(meta_object(), Key::MetaSize, ValueView::Int(32)),
{
    assert(meta_object().properties[0].key is MetaType);
    assert(meta_object().properties[1].key is MetaSize);
}

/// A single framerate is said plainly; several are each said, in order, with the first as
/// default.
pub proof fn law_framerate_names_each_rate(fps: Seq<FpsChoice>)
    requires
        fps.len() > 0,
    ensures
        match framerate(fps) {
            ValueView::Fraction(rate) => fps.len() == 1 && fps[0] == (rate.num, rate.denom),
            ValueView::FractionEnum { default, alternatives } => {
                &&& fps.len() > 1
                &&& fps[0] == (default.num, default.denom)
                &&& alternatives.len() == fps.len()
                &&& forall|i: int|
                    0 <= i < fps.len() ==> #[trigger] fps[i] == (
                        alternatives[i].num,
                        alternatives[i].denom,
                    )
            },
            _ => false,
        },
{
}

} // verus!
