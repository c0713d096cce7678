//! A dequeued buffer as a frame to be filled.

use vstd::prelude::*;
use crate::format::Format;
use crate::pod::{to_i32, wrapped, HEADER_META_SIZE};

verus! {

/// One plane of a raw video frame.
///
/// `data` has length >= `stride * height` (it is the buffer's max size for
/// this plane). The meaningful pixels occupy the first `stride * height`
/// bytes, laid out as `height` rows of `stride` bytes each.
pub struct Plane<'f> {
    /// Row stride in bytes (bytes per row).
    pub stride: u32,
    /// Number of rows in this plane.
    pub height: u32,
    /// The plane's pixel data, mutable.
    pub data: &'f mut [u8],
}

/// One frame of the camera output, handed to your fill handler.
///
/// Self-describing: the negotiated geometry is on the view itself, so your
/// code can adapt to whatever the consumer picked (format, size, planes).
///
/// `planes` is ordered by plane index (0 = luma/primary).
pub struct Frame<'f> {
    pub width: u32,
    pub height: u32,
    pub format: Format,
    /// Framerate numerator (from the negotiation for this buffer).
    pub fps_num: u32,
    /// Framerate denominator (1 for whole-number rates).
    pub fps_denom: u32,
    /// Frame sequence number: increments by one per produced frame, starting at 0.
    pub seq: u64,
    /// Presentation timestamp in nanoseconds since the camera started, monotonic. The same
    /// value is written to the buffer's `Header` meta (`pts`) when that meta is
    /// negotiated, so GStreamer-based consumers (`pipewiresrc`) see it as
    /// the frame PTS.
    pub pts: u64,
    /// Planes, in plane order. Fill every plane before returning.
    pub planes: Vec<Plane<'f>>,
}

/// The part of a plane's buffer that holds the frame.
#[derive(Clone, Copy, Debug, PartialEq, Eq, Structural)]
pub struct Chunk {
    pub offset: u32,
    pub size: u32,
    pub stride: i32,
}

/// The contents of a `Header` meta.
#[derive(Clone, Copy, Debug, PartialEq, Eq, Structural)]
pub struct MetaHeader {
    pub flags: u32,
    pub offset: u32,
    pub pts: i64,
    pub dts_offset: i64,
    pub seq: u64,
}

/// `before` with its first `n` bytes set to `value`.
pub open spec fn filled(before: Seq<u8>, n: int, value: u8) -> Seq<u8> {
    Seq::new(
        before.len(),
        |i: int|
            if i < n {
                value
            } else {
                before[i]
            },
    )
}

impl<'f> Plane<'f> {
    /// How many bytes of `data` hold pixels.
    pub open spec fn bytes(self) -> int {
        self.stride * self.height
    }

    /// The pixels lie within `data`, and their byte count fits in a `u32`.
    pub open spec fn fits(self) -> bool {
        self.bytes() <= u32::MAX && self.bytes() <= self.data@.len()
    }

    /// Sets every pixel byte to `value`.
    pub fn fill(&mut self, value: u8)
        requires
            old(self).fits(),
        ensures
            final(self).stride == old(self).stride,
            final(self).height == old(self).height,
            final(self).data@ == filled(old(self).data@, old(self).bytes(), value),
            final(final(self).data)@ == final(old(self).data)@,
    {
        let n: usize = (self.stride * self.height) as usize;
        let mut i: usize = 0;
        while i < n
            invariant
                self.stride == old(self).stride,
                self.height == old(self).height,
                n == old(self).bytes(),
                i <= n <= old(self).data@.len(),
                self.data@ == filled(old(self).data@, i as int, value),
                final(self.data)@ == final(old(self).data)@,
            decreases n - i,
        {
            self.data[i] = value;
            i += 1;
        }
    }
}

/// Two frames that agree in everything but their planes.
pub open spec fn same_heading(a: Frame, b: Frame) -> bool {
    &&& a.width == b.width
    &&& a.height == b.height
    &&& a.format == b.format
    &&& a.fps_num == b.fps_num
    &&& a.fps_denom == b.fps_denom
    &&& a.seq == b.seq
    &&& a.pts == b.pts
}

impl<'f> Frame<'f> {
    /// Fill every plane with a neutral "black" value: zero.
    pub fn fill_black(&mut self)
        requires
            forall|k: int|
                0 <= k < old(self).planes@.len() ==> (#[trigger] old(self).planes@[k]).fits(),
        ensures
            same_heading(*final(self), *old(self)),
            final(self).planes@.len() == old(self).planes@.len(),
            forall|k: int|
                0 <= k < old(self).planes@.len() ==> {
                    let plane = #[trigger] final(self).planes@[k];
                    let before = old(self).planes@[k];
                    &&& plane.stride == before.stride
                    &&& plane.height == before.height
                    &&& plane.data@ == filled(before.data@, before.bytes(), 0)
                    &&& final(plane.data)@ == final(before.data)@
                },
    {
        let n: usize = self.planes.len();
        let mut k: usize = 0;
        while k < n
            invariant
                k <= n,
                n == old(self).planes@.len(),
                n == self.planes@.len(),
                same_heading(*self, *old(self)),
                forall|j: int| 0 <= j < n ==> (#[trigger] old(self).planes@[j]).fits(),
                forall|j: int|
                    0 <= j < k ==> {
                        let plane = #[trigger] self.planes@[j];
                        let before = old(self).planes@[j];
                        &&& plane.stride == before.stride
                        &&& plane.height == before.height
                        &&& plane.data@ == filled(before.data@, before.bytes(), 0)
                        &&& final(plane.data)@ == final(before.data)@
                    },
                forall|j: int| k <= j < n ==> #[trigger] self.planes@[j] == old(self).planes@[j],
            decreases n - k,
        {
            self.planes[k].fill(0);
            k += 1;
        }
    }
}

/// How many planes a buffer with `blocks` data blocks has for a layout of `planes` planes.
pub open spec fn plane_count(blocks: nat, planes: nat) -> nat {
    if blocks < planes {
        blocks
    } else {
        planes
    }
}

/// Whether each of the first `n` data blocks is mapped.
pub open spec fn mapped(datas: Seq<Option<&mut [u8]>>, n: int) -> bool {
    forall|i: int| 0 <= i < n ==> (#[trigger] datas[i]) is Some
}

/// How many of the first `n` data blocks are looked at: all up to the first that is not mapped,
/// that one included.
pub open spec fn visited(datas: Seq<Option<&mut [u8]>>, n: nat) -> nat
    decreases n,
{
    if n == 0 {
        0
    } else if mapped(datas, n - 1) {
        n
    } else {
        visited(datas, (n - 1) as nat)
    }
}

/// The chunk of a plane: all of it, from the start.
pub open spec fn chunk_of(plane: (u32, u32)) -> Chunk {
    Chunk { offset: 0, size: (plane.0 * plane.1) as u32, stride: wrapped(plane.0) as i32 }
}

/// The chunks of the planes that are looked at.
pub open spec fn chunks_of(layout: Seq<(u32, u32)>, n: nat) -> Seq<Chunk> {
    Seq::new(n, |i: int| chunk_of(layout[i]))
}

/// Whether the byte counts of the first `n` planes fit in a `u32`.
pub open spec fn sizes_fit(layout: Seq<(u32, u32)>, n: nat) -> bool {
    forall|i: int| 0 <= i < n ==> (#[trigger] layout[i]).0 * layout[i].1 <= u32::MAX
}

proof fn lemma_visited(datas: Seq<Option<&mut [u8]>>, n: nat)
    ensures
        visited(datas, n) <= n,
        mapped(datas, n - 1) ==> visited(datas, n) == n,
        forall|i: int| 0 <= i < visited(datas, n) - 1 ==> (#[trigger] datas[i]) is Some,
        visited(datas, n) < n ==> visited(datas, n) > 0 && datas[visited(datas, n) - 1] is None,
    decreases n,
{
    if n > 0 {
        lemma_visited(datas, (n - 1) as nat);
        if !mapped(datas, n - 1) && visited(datas, (n - 1) as nat) == n - 1 {
            let i = choose|i: int| 0 <= i < n - 1 && (#[trigger] datas[i]) is None;
            assert(i == n - 2);
        }
    }
}

/// Build the [`Frame`] plane views from a buffer's data blocks and the
/// negotiated per-plane layout, and say which chunk each block gets (offset 0, full
/// size). The views are `None` if a plane has no data (the buffer is not usable). Blocks that do
/// not become planes keep their bytes.
pub fn build_planes<'b>(datas: Vec<Option<&'b mut [u8]>>, layout: &[(u32, u32)]) -> (r: (
    Vec<Chunk>,
    Option<Vec<Plane<'b>>>,
))
    requires
        sizes_fit(layout@, visited(datas@, plane_count(datas@.len(), layout@.len()))),
    ensures
        r.0@ == chunks_of(
            layout@,
            visited(datas@, plane_count(datas@.len(), layout@.len())),
        ),
        forall|i: int|
            0 <= i < r.0@.len() ==> {
                let chunk = #[trigger] r.0@[i];
                &&& chunk.offset == 0
                &&& chunk.size == layout@[i].0 * layout@[i].1
                &&& layout@[i].0 <= i32::MAX ==> chunk.stride == layout@[i].0
            },
        r.0@.len() <= datas@.len() && r.0@.len() <= layout@.len(),
        r.1 is Some ==> r.0@.len() == r.1.unwrap()@.len(),
        r.1 is Some ==> r.0@.len() == datas@.len() || r.0@.len() == layout@.len(),
        r.1 is None ==> r.0@.len() > 0 && datas@[r.0@.len() - 1] is None && forall|i: int|
            0 <= i < r.0@.len() - 1 ==> (#[trigger] datas@[i]) is Some,
        r.1 is Some <==> mapped(datas@, plane_count(datas@.len(), layout@.len()) as int),
        r.1 is Some ==> r.1.unwrap()@.len() == plane_count(datas@.len(), layout@.len()),
        r.1 is Some ==> forall|i: int|
            0 <= i < r.1.unwrap()@.len() ==> {
                let plane = #[trigger] r.1.unwrap()@[i];
                &&& plane.stride == layout@[i].0
                &&& plane.height == layout@[i].1
                &&& plane.data@ == datas@[i].unwrap()@
                &&& final(plane.data)@ == final(datas@[i].unwrap())@
            },
        forall|j: int|
            0 <= j < datas@.len() && (#[trigger] datas@[j]) is Some && !(r.1 is Some && j
                < plane_count(datas@.len(), layout@.len())) ==> final(datas@[j].unwrap())@
                == datas@[j].unwrap()@,
{
    let ghost blocks = datas@;
    let mut rest = datas;
    let n: usize = if rest.len() < layout.len() { rest.len() } else { layout.len() };
    let mut chunks: Vec<Chunk> = Vec::new();
    let mut planes: Vec<Plane<'b>> = Vec::new();
    let mut i: usize = 0;
    while i < n
        invariant
            i <= n,
            n == plane_count(blocks.len(), layout@.len()),
            blocks == datas@,
            rest@.len() == blocks.len(),
            sizes_fit(layout@, visited(blocks, n as nat)),
            mapped(blocks, i as int),
            chunks@ == chunks_of(layout@, i as nat),
            planes@.len() == i,
            forall|j: int| i <= j < blocks.len() ==> #[trigger] rest@[j] == blocks[j],
            forall|j: int|
                0 <= j < i ==> {
                    let plane = #[trigger] planes@[j];
                    &&& plane.stride == layout@[j].0
                    &&& plane.height == layout@[j].1
                    &&& plane.data@ == blocks[j].unwrap()@
                    &&& final(plane.data)@ == final(blocks[j].unwrap())@
                },
        decreases n - i,
    {
        let (stride, height) = layout[i];
        proof {
            lemma_visited(blocks, n as nat);
            if visited(blocks, n as nat) <= i {
                assert(blocks[visited(blocks, n as nat) - 1] is Some);
            }
            assert(layout@[i as int].0 * layout@[i as int].1 <= u32::MAX);
        }
        chunks.push(Chunk { offset: 0, size: stride * height, stride: to_i32(stride) });
        assert(chunks@ == chunks_of(layout@, (i + 1) as nat));
        match rest[i].take() {
            Some(data) => {
                planes.push(Plane { stride, height, data });
            },
            None => {
                proof {
                    assert(blocks[i as int] is None);
                    lemma_visited(blocks, n as nat);
                    if visited(blocks, n as nat) > i + 1 {
                        assert(blocks[i as int] is Some);
                    }
                    assert(has_resolved(rest));
                    assert(has_resolved(planes));
                    assert forall|j: int|
                        0 <= j < blocks.len() && (#[trigger] blocks[j]) is Some implies
                        final(blocks[j].unwrap())@ == blocks[j].unwrap()@ by {
                        if j < i {
                            assert(has_resolved(planes@[j]));
                            assert(has_resolved(planes@[j].data));
                        } else {
                            assert(has_resolved(rest@[j]));
                        }
                    }
                }
                return (chunks, None);
            },
        }
        i += 1;
    }
    proof {
        lemma_visited(blocks, n as nat);
        assert(has_resolved(rest));
        assert forall|j: int|
            n <= j < blocks.len() && (#[trigger] blocks[j]) is Some implies
            final(blocks[j].unwrap())@ == blocks[j].unwrap()@ by {
            assert(has_resolved(rest@[j]));
        }
    }
    (chunks, Some(planes))
}

/// `n` read as a two's complement number.
pub open spec fn wrapped_i64(n: u64) -> int {
    if n <= i64::MAX {
        n as int
    } else {
        n - 0x1_0000_0000_0000_0000
    }
}

/// What a `Header` meta of `size` bytes is stamped with: nothing where there is none or where
/// it is not a full one.
pub open spec fn header_for(size: Option<u32>, seq: u64, pts: u64) -> Option<MetaHeader> {
    match size {
        Some(bytes) if bytes >= HEADER_META_SIZE => Some(
            MetaHeader { flags: 0, offset: 0, pts: wrapped_i64(pts) as i64, dts_offset: 0, seq },
        ),
        _ => None,
    }
}

/// What to write to the `Header` meta (`flags`, `offset`, `pts`, `dts_offset`,
/// `seq`) if the buffer carries a *full* one. A smaller meta
/// region is left untouched: there are no partial writes.
pub fn write_header_meta(size: Option<u32>, seq: u64, pts: u64) -> (r: Option<MetaHeader>)
    ensures
        r == header_for(size, seq, pts),
{
    match size {
        None => None,
        Some(bytes) => {
            if bytes < HEADER_META_SIZE {
                return None;
            }
            let signed = pts as i64;
            assert(pts <= 0x7fff_ffff_ffff_ffff ==> signed as int == pts as int) by (bit_vector)
                requires
                    signed == pts as i64,
            ;
            assert(pts > 0x7fff_ffff_ffff_ffff ==> signed as int == pts as int
                - 0x1_0000_0000_0000_0000) by (bit_vector)
                requires
                    signed == pts as i64,
            ;
            Some(MetaHeader { flags: 0, offset: 0, pts: signed, dts_offset: 0, seq })
        },
    }
}

/// Filling sets the bytes in front and leaves those behind them.
pub proof fn law_filled_bytes(before: Seq<u8>, n: int, value: u8, i: int)
    requires
        0 <= i < before.len(),
    ensures
        filled(before, n, value).len() == before.len(),
        i < n ==> filled(before, n, value)[i] == value,
        i >= n ==> filled(before, n, value)[i] == before[i],
{
}

/// A plane's pixels are its rows, one behind the other.
pub proof fn law_plane_has_its_rows(plane: Plane)
    ensures
        plane.bytes() == plane.stride * plane.height,
{
}

/// Frames of the same heading agree in their geometry, rate, number and time.
pub proof fn law_heading_is_all_but_the_planes(a: Frame, b: Frame)
    ensures
        same_heading(a, b) <==> a.width == b.width && a.height == b.height && a.format == b.format
            && a.fps_num == b.fps_num && a.fps_denom == b.fps_denom && a.seq == b.seq && a.pts
            == b.pts,
{
}

/// A chunk covers exactly the pixels of its plane: all of its rows from the first byte on, in
/// the plane's stride.
pub proof fn law_chunk_covers_the_plane(layout: Seq<(u32, u32)>, n: nat, i: int)
    requires
        sizes_fit(layout, n),
        0 <= i < n,
    ensures
        chunks_of(layout, n).len() == n,
        chunks_of(layout, n)[i].offset == 0,
        chunks_of(layout, n)[i].size == layout[i].0 * layout[i].1,
        layout[i].0 <= i32::MAX ==> chunks_of(layout, n)[i].stride == layout[i].0,
        (chunks_of(layout, n)[i].stride - layout[i].0) % 0x1_0000_0000 == 0,
{
    assert(layout[i].0 * layout[i].1 <= u32::MAX);
    assert(0 <= layout[i].0 * layout[i].1) by (nonlinear_arith)
        requires
            0 <= layout[i].0,
            0 <= layout[i].1,
    ;
}

/// A buffer has a plane for each block that the layout has a place for.
pub proof fn law_plane_for_each_block(blocks: nat, planes: nat)
    ensures
        plane_count(blocks, planes) <= blocks,
        plane_count(blocks, planes) <= planes,
        plane_count(blocks, planes) == blocks || plane_count(blocks, planes) == planes,
{
}

/// The blocks are looked at one after the other, until one of them is not mapped.
pub proof fn law_blocks_are_looked_at_in_order(datas: Seq<Option<&mut [u8]>>, n: nat)
    ensures
        visited(datas, n) <= n,
        n > 0 ==> visited(datas, n) > 0,
        forall|i: int| 0 <= i < visited(datas, n) - 1 ==> (#[trigger] datas[i]) is Some,
        visited(datas, n) < n ==> datas[visited(datas, n) - 1] is None,
        mapped(datas, n as int) <==> forall|i: int| 0 <= i < n ==> (#[trigger] datas[i]) is Some,
{
    lemma_visited(datas, n);
}

/// A full `Header` meta is stamped with the frame's number and time and with nothing else; a
/// smaller one and none at all are left alone.
pub proof fn law_header_is_stamped_in_full_or_not_at_all(size: Option<u32>, seq: u64, pts: u64)
    ensures
        header_for(size, seq, pts) is Some <==> size is Some && size.unwrap() >= 32,
        header_for(size, seq, pts) is Some ==> {
            let header = header_for(size, seq, pts).unwrap();
            &&& header.flags == 0
            &&& header.offset == 0
            &&& header.dts_offset == 0
            &&& header.seq == seq
            &&& pts <= i64::MAX ==> header.pts == pts
            &&& (header.pts - pts) % 0x1_0000_0000_0000_0000 == 0
        },
{
}

} // verus!
