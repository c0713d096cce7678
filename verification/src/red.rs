//! Solid red frames, in every format.

use vstd::prelude::*;
use crate::format::Format;
use crate::frame::{filled, same_heading, Frame, Plane};
use crate::negotiate::Negotiated;

verus! {

/// `before` with its first `n` bytes set to `pattern`, over and over.
pub open spec fn painted(before: Seq<u8>, n: int, pattern: Seq<u8>) -> Seq<u8> {
    Seq::new(
        before.len(),
        |i: int|
            if i < n {
                pattern[i % pattern.len() as int]
            } else {
                before[i]
            },
    )
}

/// The bytes that solid red repeats, for each plane. In Y'UV, red is the BT.709 limited-range
/// Y=63, Cb=104, Cr=240.
pub open spec fn red_patterns(format: Format) -> Seq<Seq<u8>> {
    match format {
        Format::Rgba => seq![seq![255u8, 0u8, 0u8, 255u8]],
        Format::Bgra => seq![seq![0u8, 0u8, 255u8, 255u8]],
        Format::Bgrx => seq![seq![0u8, 0u8, 255u8, 0u8]],
        Format::Rgbx => seq![seq![255u8, 0u8, 0u8, 0u8]],
        Format::Bgr => seq![seq![0u8, 0u8, 255u8]],
        Format::Rgb => seq![seq![255u8, 0u8, 0u8]],
        Format::I420 => seq![seq![63u8], seq![104u8], seq![240u8]],
        Format::Nv12 => seq![seq![63u8], seq![104u8, 240u8]],
        Format::Nv21 => seq![seq![63u8], seq![240u8, 104u8]],
        Format::Yuy2 => seq![seq![63u8, 104u8, 63u8, 240u8]],
        Format::Uvyvy => seq![seq![104u8, 63u8, 240u8, 63u8]],
        Format::Grey => seq![seq![63u8]],
    }
}

/// Setting every byte to one value is painting a pattern of one byte.
proof fn lemma_filled_is_painted(before: Seq<u8>, n: int, value: u8)
    ensures
        filled(before, n, value) == painted(before, n, seq![value]),
{
    assert(filled(before, n, value) =~= painted(before, n, seq![value])) by {
        assert forall|i: int| 0 <= i < before.len() implies filled(before, n, value)[i] == painted(
            before,
            n,
            seq![value],
        )[i] by {
            assert(i % 1 == 0);
        }
    }
}

/// Fill `plane` with a solid byte value.
pub fn fill_solid(p: &mut Plane, value: u8)
    requires
        old(p).bytes() <= old(p).data@.len(),
    ensures
        final(p).stride == old(p).stride,
        final(p).height == old(p).height,
        final(p).data@ == filled(old(p).data@, old(p).bytes(), value),
        final(final(p).data)@ == final(old(p).data)@,
{
    assert(p.data.len() == p.data@.len());
    let n: usize = p.stride as usize * p.height as usize;
    let mut i: usize = 0;
    while i < n
        invariant
            p.stride == old(p).stride,
            p.height == old(p).height,
            n == old(p).bytes(),
            i <= n <= old(p).data@.len(),
            p.data@ == filled(old(p).data@, i as int, value),
            final(p.data)@ == final(old(p).data)@,
        decreases n - i,
    {
        p.data[i] = value;
        i += 1;
    }
}

/// Fill a plane with `pattern`, repeated across the rows, the last one cut off where the plane
/// ends.
pub fn fill_packed(p: &mut Plane, pattern: &[u8])
    requires
        old(p).bytes() <= old(p).data@.len(),
        pattern@.len() > 0 || old(p).bytes() == 0,
    ensures
        final(p).stride == old(p).stride,
        final(p).height == old(p).height,
        final(p).data@ == painted(old(p).data@, old(p).bytes(), pattern@),
        final(final(p).data)@ == final(old(p).data)@,
{
    assert(p.data.len() == p.data@.len());
    let n: usize = p.stride as usize * p.height as usize;
    let mut i: usize = 0;
    while i < n
        invariant
            p.stride == old(p).stride,
            p.height == old(p).height,
            n == old(p).bytes(),
            i <= n <= old(p).data@.len(),
            pattern@.len() > 0 || n == 0,
            p.data@ == painted(old(p).data@, i as int, pattern@),
            final(p.data)@ == final(old(p).data)@,
        decreases n - i,
    {
        p.data[i] = pattern[i % pattern.len()];
        i += 1;
    }
}

/// What the planes must be like for [`fill_red`]: there is one for each pattern, and its pixels
/// lie within its data.
pub open spec fn can_be_red(frame: Frame) -> bool {
    &&& frame.planes@.len() >= red_patterns(frame.format).len()
    &&& forall|k: int|
        0 <= k < red_patterns(frame.format).len() ==> (#[trigger] frame.planes@[k]).bytes()
            <= frame.planes@[k].data@.len()
}

/// Fill every plane of the frame with the solid-red representation for the
/// negotiated format.
pub fn fill_red(frame: &mut Frame, _negotiated: &Negotiated)
    requires
        can_be_red(*old(frame)),
    ensures
        same_heading(*final(frame), *old(frame)),
        final(frame).planes@.len() == old(frame).planes@.len(),
        forall|k: int|
            0 <= k < old(frame).planes@.len() ==> {
                let plane = #[trigger] final(frame).planes@[k];
                let before = old(frame).planes@[k];
                &&& plane.stride == before.stride
                &&& plane.height == before.height
                &&& plane.data@ == if k < red_patterns(old(frame).format).len() {
                    painted(before.data@, before.bytes(), red_patterns(old(frame).format)[k])
                } else {
                    before.data@
                }
                &&& final(plane.data)@ == final(before.data)@
            },
{
    proof {
        lemma_solid_planes(*frame);
    }
    match frame.format {
        Format::Rgba => fill_packed(&mut frame.planes[0], &[255, 0, 0, 255]),
        Format::Bgra => fill_packed(&mut frame.planes[0], &[0, 0, 255, 255]),
        Format::Bgrx => fill_packed(&mut frame.planes[0], &[0, 0, 255, 0]),
        Format::Rgbx => fill_packed(&mut frame.planes[0], &[255, 0, 0, 0]),
        Format::Bgr => fill_packed(&mut frame.planes[0], &[0, 0, 255]),
        Format::Rgb => fill_packed(&mut frame.planes[0], &[255, 0, 0]),
        // I420: Y plane, U plane, V plane.
        Format::I420 => {
            fill_solid(&mut frame.planes[0], 63);
            fill_solid(&mut frame.planes[1], 104);
            fill_solid(&mut frame.planes[2], 240);
        },
        // NV12: Y plane, UV interleaved (U,V,U,V,...).
        Format::Nv12 => {
            fill_solid(&mut frame.planes[0], 63);
            fill_packed(&mut frame.planes[1], &[104, 240]);
        },
        // NV21: Y plane, VU interleaved (V,U,V,U,...).
        Format::Nv21 => {
            fill_solid(&mut frame.planes[0], 63);
            fill_packed(&mut frame.planes[1], &[240, 104]);
        },
        // YUY2: Y U Y V per 2px.
        Format::Yuy2 => fill_packed(&mut frame.planes[0], &[63, 104, 63, 240]),
        // UYVY: U Y V Y per 2px.
        Format::Uvyvy => fill_packed(&mut frame.planes[0], &[104, 63, 240, 63]),
        // GREY: solid luma.
        Format::Grey => fill_solid(&mut frame.planes[0], 63),
    }
}

/// What [`lemma_filled_is_painted`] says of the bytes that fill a whole plane.
proof fn lemma_solid_planes(frame: Frame)
    ensures
        forall|k: int, n: int, value: u8|
            #![trigger filled(frame.planes@[k].data@, n, value)]
            filled(frame.planes@[k].data@, n, value) == painted(
                frame.planes@[k].data@,
                n,
                seq![value],
            ),
{
    assert forall|k: int, n: int, value: u8|
        #![trigger filled(frame.planes@[k].data@, n, value)]
        filled(frame.planes@[k].data@, n, value) == painted(
            frame.planes@[k].data@,
            n,
            seq![value],
        ) by {
        lemma_filled_is_painted(frame.planes@[k].data@, n, value);
    }
}

/// There is a red for every plane of every format.
pub proof fn law_every_plane_has_its_red(format: Format, width: u32, height: u32)
    ensures
        red_patterns(format).len() == format.layout(width, height).len(),
        forall|k: int|
            0 <= k < red_patterns(format).len() ==> (#[trigger] red_patterns(format)[k]).len() > 0,
{
}

/// A frame that has every plane of its geometry, each with room for its pixels, can be filled:
/// with red, and, where the byte counts fit in a `u32`, with black.
pub proof fn law_roomy_frame_can_be_filled(frame: Frame)
    requires
        frame.planes@.len() == frame.format.layout(frame.width, frame.height).len(),
        forall|k: int|
            0 <= k < frame.planes@.len() ==> {
                let plane = #[trigger] frame.planes@[k];
                let (stride, height) = frame.format.layout(frame.width, frame.height)[k];
                &&& plane.stride == stride
                &&& plane.height == height
                &&& stride * height <= plane.data@.len()
            },
    ensures
        can_be_red(frame),
        forall|k: int|
            0 <= k < frame.planes@.len() ==> ((#[trigger] frame.planes@[k]).fits()
                <==> frame.planes@[k].bytes() <= u32::MAX),
{
    law_every_plane_has_its_red(frame.format, frame.width, frame.height);
}

/// Whether two pixels share a chroma sample within a row of the interleaved or packed formats.
pub open spec fn pairs_pixels(format: Format) -> bool {
    match format {
        Format::Nv12 | Format::Nv21 | Format::Yuy2 | Format::Uvyvy => true,
        _ => false,
    }
}

/// Every row of every plane is red from its first byte: where pixels come in pairs the width
/// has to be even, or a row would end in the middle of a pair.
pub proof fn law_every_row_is_red(
    format: Format,
    width: u32,
    height: u32,
    k: int,
    before: Seq<u8>,
    x: int,
    y: int,
)
    requires
        format.row_bytes(width) <= u32::MAX,
        pairs_pixels(format) ==> width % 2 == 0,
        0 <= k < red_patterns(format).len(),
        0 <= x < format.layout(width, height)[k].0,
        0 <= y < format.layout(width, height)[k].1,
        before.len() >= format.layout(width, height)[k].0 * format.layout(width, height)[k].1,
    ensures
        0 <= y * format.layout(width, height)[k].0 + x < before.len(),
        painted(
            before,
            format.layout(width, height)[k].0 * format.layout(width, height)[k].1,
            red_patterns(format)[k],
        )[y * format.layout(width, height)[k].0 + x] == red_patterns(format)[k][x
            % red_patterns(format)[k].len() as int],
{
    let stride = format.layout(width, height)[k].0 as int;
    let rows = format.layout(width, height)[k].1 as int;
    let len = red_patterns(format)[k].len() as int;
    let repeats = if len == 1 {
        stride
    } else if len == 2 {
        stride / 2
    } else if len == 3 {
        stride / 3
    } else {
        stride / 4
    };
    assert(len == 1 || len == 2 || len == 3 || len == 4);
    assert(len == 2 ==> stride % 2 == 0);
    assert(len == 3 ==> stride % 3 == 0);
    assert(len == 4 ==> stride % 4 == 0);
    assert(stride == len * repeats) by (nonlinear_arith)
        requires
            len == 1 && stride == repeats || len == 2 && stride == 2 * repeats || len == 3 && stride
                == 3 * repeats || len == 4 && stride == 4 * repeats,
    ;
    assert(y * stride == len * (y * repeats)) by (nonlinear_arith)
        requires
            stride == len * repeats,
    ;
    vstd::arithmetic::div_mod::lemma_mod_multiples_vanish(y * repeats, x, len);
    assert(0 <= y * stride + x < stride * rows) by (nonlinear_arith)
        requires
            0 <= x < stride,
            0 <= y < rows,
    ;
}

/// Painting repeats the pattern from the first byte on, up to where it ends, and leaves the
/// bytes behind.
pub proof fn law_painted_bytes(before: Seq<u8>, n: int, pattern: Seq<u8>, i: int)
    requires
        0 <= i < before.len(),
        pattern.len() > 0,
    ensures
        painted(before, n, pattern).len() == before.len(),
        i < n && i < pattern.len() ==> painted(before, n, pattern)[i] == pattern[i],
        i < n && i >= pattern.len() ==> painted(before, n, pattern)[i] == painted(
            before,
            n,
            pattern,
        )[i - pattern.len()],
        i >= n ==> painted(before, n, pattern)[i] == before[i],
{
    let len = pattern.len() as int;
    if i < len {
        assert(i % len == i) by (nonlinear_arith)
            requires
                0 <= i < len,
        ;
    } else {
        assert((i - len) % len == i % len) by {
            vstd::arithmetic::div_mod::lemma_mod_multiples_vanish(-1, i, len);
        }
    }
}

/// Red is the same color in every format: full red and no green or blue where the components are
/// those, in the order that the format has; and else one luma and one pair of chroma samples.
pub proof fn law_red_is_one_color()
    ensures
        red_patterns(Format::Rgb) == seq![seq![255u8, 0u8, 0u8]],
        red_patterns(Format::Bgr) == seq![red_patterns(Format::Rgb)[0].reverse()],
        red_patterns(Format::Rgba) == seq![red_patterns(Format::Rgb)[0].push(255u8)],
        red_patterns(Format::Bgra) == seq![red_patterns(Format::Bgr)[0].push(255u8)],
        red_patterns(Format::Rgbx) == seq![red_patterns(Format::Rgb)[0].push(0u8)],
        red_patterns(Format::Bgrx) == seq![red_patterns(Format::Bgr)[0].push(0u8)],
        red_patterns(Format::I420) == seq![seq![63u8], seq![104u8], seq![240u8]],
        red_patterns(Format::Grey) == seq![red_patterns(Format::I420)[0]],
        red_patterns(Format::Nv12) == seq![
            red_patterns(Format::I420)[0],
            red_patterns(Format::I420)[1] + red_patterns(Format::I420)[2],
        ],
        red_patterns(Format::Nv21) == seq![
            red_patterns(Format::I420)[0],
            red_patterns(Format::Nv12)[1].reverse(),
        ],
        red_patterns(Format::Yuy2) == seq![
            red_patterns(Format::I420)[0] + red_patterns(Format::I420)[1] + red_patterns(
                Format::I420,
            )[0] + red_patterns(Format::I420)[2],
        ],
        red_patterns(Format::Uvyvy) == seq![
            red_patterns(Format::I420)[1] + red_patterns(Format::I420)[0] + red_patterns(
                Format::I420,
            )[2] + red_patterns(Format::I420)[0],
        ],
{
    assert(seq![255u8, 0u8, 0u8].reverse() =~= seq![0u8, 0u8, 255u8]);
    assert(seq![255u8, 0u8, 0u8].push(255u8) =~= seq![255u8, 0u8, 0u8, 255u8]);
    assert(seq![0u8, 0u8, 255u8].push(255u8) =~= seq![0u8, 0u8, 255u8, 255u8]);
    assert(seq![255u8, 0u8, 0u8].push(0u8) =~= seq![255u8, 0u8, 0u8, 0u8]);
    assert(seq![0u8, 0u8, 255u8].push(0u8) =~= seq![0u8, 0u8, 255u8, 0u8]);
    assert(seq![104u8] + seq![240u8] =~= seq![104u8, 240u8]);
    assert(seq![104u8, 240u8].reverse() =~= seq![240u8, 104u8]);
    assert(seq![63u8] + seq![104u8] + seq![63u8] + seq![240u8] =~= seq![63u8, 104u8, 63u8, 240u8]);
    assert(seq![104u8] + seq![63u8] + seq![240u8] + seq![63u8] =~= seq![104u8, 63u8, 240u8, 63u8]);
}

} // verus!
