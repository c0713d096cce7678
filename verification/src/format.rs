//! The raw video formats, their SPA ids, names and plane layouts.

use vstd::prelude::*;

verus! {

/// A raw (uncompressed) video format the camera can produce.
///
/// All are single- or multi-plane *raw* formats. MJPG is left out: it needs an encoder.
#[derive(Clone, Copy, Debug, PartialEq, Eq, Structural)]
#[non_exhaustive]
pub enum Format {
    /// RGBA, 4 bytes/pixel.
    Rgba,
    /// BGRA, 4 bytes/pixel.
    Bgra,
    /// BGRx, 4 bytes/pixel (X unused).
    Bgrx,
    /// RGBx, 4 bytes/pixel (X unused).
    Rgbx,
    /// BGR, 3 bytes/pixel.
    Bgr,
    /// RGB, 3 bytes/pixel.
    Rgb,
    /// I420: Y plane + planar U and V (4:2:0).
    I420,
    /// NV12: Y plane + interleaved UV plane (4:2:0).
    Nv12,
    /// NV21: Y plane + interleaved VU plane (4:2:0).
    Nv21,
    /// YUY2: packed Y U Y V (4:2:2).
    Yuy2,
    /// UYVY: packed U Y V Y (4:2:2).
    Uvyvy,
    /// 8-bit grayscale, 1 byte/pixel.
    Grey,
}

/// Every format, in the order in which they are offered.
pub open spec fn all_formats() -> Seq<Format> {
    seq![
        Format::Rgba,
        Format::Bgra,
        Format::Bgrx,
        Format::Rgbx,
        Format::Bgr,
        Format::Rgb,
        Format::I420,
        Format::Nv12,
        Format::Nv21,
        Format::Yuy2,
        Format::Uvyvy,
        Format::Grey,
    ]
}

/// The format that has the SPA id `id`.
pub open spec fn format_with_id(id: u32) -> Option<Format> {
    if exists|f: Format| f.id() == id {
        Some(choose|f: Format| f.id() == id)
    } else {
        None
    }
}

/// The format that is called `name`.
pub open spec fn format_named(name: Seq<char>) -> Option<Format> {
    if exists|f: Format| f.name() == name {
        Some(choose|f: Format| f.name() == name)
    } else {
        None
    }
}

/// The names of `formats`, with a comma and a space between two of them.
pub open spec fn joined_names(formats: Seq<Format>) -> Seq<char>
    decreases formats.len(),
{
    if formats.len() == 0 {
        Seq::empty()
    } else if formats.len() == 1 {
        formats[0].name()
    } else {
        joined_names(formats.drop_last()) + ", "@ + formats.last().name()
    }
}

/// What is said of a name that no format has.
pub open spec fn unknown_format_message(name: Seq<char>) -> Seq<char> {
    "unknown format \""@ + name + "\" (try one of: "@ + joined_names(all_formats()) + ")"@
}

impl Format {
    /// The SPA format id (`SPA_VIDEO_FORMAT_*`).
    pub open spec fn id(self) -> u32 {
        match self {
            Format::I420 => 2,
            Format::Yuy2 => 4,
            Format::Uvyvy => 5,
            Format::Rgbx => 7,
            Format::Bgrx => 8,
            Format::Rgba => 11,
            Format::Bgra => 12,
            Format::Rgb => 15,
            Format::Bgr => 16,
            Format::Nv12 => 23,
            Format::Nv21 => 24,
            Format::Grey => 25,
        }
    }

    /// The lowercase name.
    pub open spec fn name(self) -> Seq<char> {
        match self {
            Format::Rgba => "rgba"@,
            Format::Bgra => "bgra"@,
            Format::Bgrx => "bgrx"@,
            Format::Rgbx => "rgbx"@,
            Format::Bgr => "bgr"@,
            Format::Rgb => "rgb"@,
            Format::I420 => "i420"@,
            Format::Nv12 => "nv12"@,
            Format::Nv21 => "nv21"@,
            Format::Yuy2 => "yuy2"@,
            Format::Uvyvy => "uyvy"@,
            Format::Grey => "grey"@,
        }
    }

    /// Bytes per pixel in the first plane.
    pub open spec fn pixel_bytes(self) -> int {
        match self {
            Format::Rgba | Format::Bgra | Format::Bgrx | Format::Rgbx => 4,
            Format::Bgr | Format::Rgb => 3,
            Format::Yuy2 | Format::Uvyvy => 2,
            Format::I420 | Format::Nv12 | Format::Nv21 | Format::Grey => 1,
        }
    }

    /// Bytes per row of the first plane.
    pub open spec fn row_bytes(self, width: u32) -> int {
        self.pixel_bytes() * width
    }

    /// One `(stride in bytes, rows)` per plane, in plane order: the chroma planes of the
    /// 4:2:0 formats have half the rows, and half the samples of each component per row.
    pub open spec fn layout(self, width: u32, height: u32) -> Seq<(u32, u32)> {
        let first = (self.row_bytes(width) as u32, height);
        match self {
            Format::I420 => seq![first, (width / 2, height / 2), (width / 2, height / 2)],
            Format::Nv12 | Format::Nv21 => seq![first, (width, height / 2)],
            _ => seq![first],
        }
    }

    /// The plane layout for this format at `width x height`: one
    /// `(stride_bytes, height)` per plane, in plane order.
    pub fn planes(&self, width: u32, height: u32) -> (r: Vec<(u32, u32)>)
        requires
            self.row_bytes(width) <= u32::MAX,
        ensures
            r@ == self.layout(width, height),
    {
        match self {
            Format::Rgba | Format::Bgra | Format::Bgrx | Format::Rgbx => {
                vec![(width * 4, height)]
            },
            Format::Bgr | Format::Rgb => vec![(width * 3, height)],
            Format::I420 => {
                vec![(width, height), (width / 2, height / 2), (width / 2, height / 2)]
            },
            Format::Nv12 | Format::Nv21 => vec![(width, height), (width, height / 2)],
            Format::Yuy2 | Format::Uvyvy => vec![(width * 2, height)],
            Format::Grey => vec![(width, height)],
        }
    }

    /// Whether a row of `width` pixels has a byte count that fits in a `u32`, which
    /// [`Format::planes`] asks for.
    pub fn stride_fits(&self, width: u32) -> (r: bool)
        ensures
            r == (self.row_bytes(width) <= u32::MAX),
    {
        let pixel_bytes: u64 = match self {
            Format::Rgba | Format::Bgra | Format::Bgrx | Format::Rgbx => 4,
            Format::Bgr | Format::Rgb => 3,
            Format::Yuy2 | Format::Uvyvy => 2,
            Format::I420 | Format::Nv12 | Format::Nv21 | Format::Grey => 1,
        };
        assert(pixel_bytes * width <= 4 * width) by (nonlinear_arith)
            requires
                pixel_bytes <= 4,
        ;
        assert(pixel_bytes * width == self.row_bytes(width));
        pixel_bytes * (width as u64) <= u32::MAX as u64
    }

    /// All formats, in a stable order.
    pub fn all() -> (r: &'static [Format])
        ensures
            r@ == all_formats(),
    {
        &[
            Format::Rgba,
            Format::Bgra,
            Format::Bgrx,
            Format::Rgbx,
            Format::Bgr,
            Format::Rgb,
            Format::I420,
            Format::Nv12,
            Format::Nv21,
            Format::Yuy2,
            Format::Uvyvy,
            Format::Grey,
        ]
    }

    /// The SPA format id this maps to (`SPA_VIDEO_FORMAT_*`).
    pub fn spa_id(self) -> (r: u32)
        ensures
            r == self.id(),
    {
        match self {
            Format::Rgba => 11,
            Format::Bgra => 12,
            Format::Bgrx => 8,
            Format::Rgbx => 7,
            Format::Bgr => 16,
            Format::Rgb => 15,
            Format::I420 => 2,
            Format::Nv12 => 23,
            Format::Nv21 => 24,
            Format::Yuy2 => 4,
            Format::Uvyvy => 5,
            Format::Grey => 25,
        }
    }

    /// Inverse of [`Format::spa_id`]: the `Format` for a SPA id, or `None` if
    /// the id is not one of a supported format.
    pub fn from_spa_id(id: u32) -> (r: Option<Format>)
        ensures
            r == format_with_id(id),
    {
        let formats = Format::all();
        let mut i: usize = 0;
        while i < formats.len()
            invariant
                i <= formats@.len(),
                formats@ == all_formats(),
                forall|j: int| 0 <= j < i ==> (#[trigger] formats@[j]).id() != id,
            decreases formats@.len() - i,
        {
            let format = formats[i];
            if format.spa_id() == id {
                proof {
                    law_spa_id_read_back(format);
                }
                return Some(format);
            }
            i += 1;
        }
        proof {
            assert forall|f: Format| f.id() != id by {
                law_every_format_listed(f);
            }
        }
        None
    }

    /// The format's lowercase name (`"rgba"`, `"nv12"`, ...). Inverse of
    /// [`Format::from_str`].
    pub fn as_str(self) -> (r: &'static str)
        ensures
            r@ == self.name(),
    {
        match self {
            Format::Rgba => "rgba",
            Format::Bgra => "bgra",
            Format::Bgrx => "bgrx",
            Format::Rgbx => "rgbx",
            Format::Bgr => "bgr",
            Format::Rgb => "rgb",
            Format::I420 => "i420",
            Format::Nv12 => "nv12",
            Format::Nv21 => "nv21",
            Format::Yuy2 => "yuy2",
            Format::Uvyvy => "uyvy",
            Format::Grey => "grey",
        }
    }

    /// The name as an owned string.
    pub fn to_string(&self) -> (r: String)
        ensures
            r@ == self.name(),
    {
        self.as_str().to_owned()
    }

    /// The format called `s`, or a message that lists the names there are.
    pub fn from_str(s: &str) -> (r: Result<Format, String>)
        ensures
            match r {
                Ok(format) => format_named(s@) == Some(format),
                Err(message) => format_named(s@) is None && message@ == unknown_format_message(s@),
            },
    {
        let formats = Format::all();
        let wanted = s.to_owned();
        let mut i: usize = 0;
        while i < formats.len()
            invariant
                i <= formats@.len(),
                formats@ == all_formats(),
                wanted@ == s@,
                forall|j: int| 0 <= j < i ==> (#[trigger] formats@[j]).name() != s@,
            decreases formats@.len() - i,
        {
            let format = formats[i];
            if format.to_string() == wanted {
                proof {
                    law_name_read_back(format);
                }
                return Ok(format);
            }
            i += 1;
        }
        proof {
            assert forall|f: Format| f.name() != s@ by {
                law_every_format_listed(f);
            }
        }
        let mut message = "unknown format \"".to_owned();
        message.append(s);
        message.append("\" (try one of: ");
        let names = Self::join_all_names();
        message.append(names.as_str());
        message.append(")");
        Err(message)
    }

    fn join_all_names() -> (r: String)
        ensures
            r@ == joined_names(all_formats()),
    {
        let formats = Format::all();
        let mut names = formats[0].to_string();
        let mut i: usize = 1;
        assert(all_formats().take(1)[0] == all_formats()[0]);
        while i < formats.len()
            invariant
                1 <= i <= formats@.len(),
                formats@ == all_formats(),
                names@ == joined_names(all_formats().take(i as int)),
            decreases formats@.len() - i,
        {
            names.append(", ");
            names.append(formats[i].as_str());
            i += 1;
            proof {
                let so_far = all_formats().take(i as int);
                assert(so_far.drop_last() == all_formats().take(i - 1));
                assert(so_far.last() == all_formats()[i - 1]);
            }
        }
        assert(all_formats().take(formats@.len() as int) == all_formats());
        names
    }
}

impl std::str::FromStr for Format {
    type Err = String;

    fn from_str(s: &str) -> (r: Result<Self, Self::Err>)
        ensures
            match r {
                Ok(format) => format_named(s@) == Some(format),
                Err(message) => format_named(s@) is None && message@ == unknown_format_message(s@),
            },
    {
        Format::from_str(s)
    }
}

/// [`Format::all`] lists every format, and none of them twice.
pub proof fn law_every_format_listed(f: Format)
    ensures
        exists|i: int| 0 <= i < all_formats().len() && #[trigger] all_formats()[i] == f,
        all_formats().no_duplicates(),
{
    let i: int = match f {
        Format::Rgba => 0,
        Format::Bgra => 1,
        Format::Bgrx => 2,
        Format::Rgbx => 3,
        Format::Bgr => 4,
        Format::Rgb => 5,
        Format::I420 => 6,
        Format::Nv12 => 7,
        Format::Nv21 => 8,
        Format::Yuy2 => 9,
        Format::Uvyvy => 10,
        Format::Grey => 11,
    };
    assert(all_formats()[i] == f);
}

/// No two formats share a SPA id.
pub proof fn law_spa_ids_are_unique(a: Format, b: Format)
    ensures
        a.id() == b.id() ==> a == b,
{
}

/// Every format is found again by its SPA id.
pub proof fn law_spa_id_read_back(f: Format)
    ensures
        format_with_id(f.id()) == Some(f),
{
    assert forall|g: Format| g.id() == f.id() implies g == f by {
        law_spa_ids_are_unique(g, f);
    }
}

/// No two formats share a name.
pub proof fn law_names_are_unique(a: Format, b: Format)
    ensures
        a.name() == b.name() ==> a == b,
{
    reveal_strlit("rgba");
    reveal_strlit("bgra");
    reveal_strlit("bgrx");
    reveal_strlit("rgbx");
    reveal_strlit("bgr");
    reveal_strlit("rgb");
    reveal_strlit("i420");
    reveal_strlit("nv12");
    reveal_strlit("nv21");
    reveal_strlit("yuy2");
    reveal_strlit("uyvy");
    reveal_strlit("grey");
    if a.name() == b.name() {
        assert(a.name()[0] == b.name()[0]);
        assert(a.name()[1] == b.name()[1]);
        assert(a.name()[2] == b.name()[2]);
        assert(a.name().len() == b.name().len());
        if a.name().len() == 4 {
            assert(a.name()[3] == b.name()[3]);
        }
    }
}

/// Every format is found again by its name.
pub proof fn law_name_read_back(f: Format)
    ensures
        format_named(f.name()) == Some(f),
{
    assert forall|g: Format| g.name() == f.name() implies g == f by {
        law_names_are_unique(g, f);
    }
}

/// Where the width is a multiple of eight and the height even, every format has a plane,
/// each plane's stride is a multiple of four, and each plane's row count divides the
/// frame's.
pub proof fn law_planes_are_sane(f: Format, width: u32, height: u32)
    requires
        f.row_bytes(width) <= u32::MAX,
        width % 8 == 0,
        height % 2 == 0,
        height > 0,
    ensures
        f.layout(width, height).len() > 0,
        forall|i: int|
            0 <= i < f.layout(width, height).len() ==> (#[trigger] f.layout(width, height)[i]).0
                % 4 == 0 && height % f.layout(width, height)[i].1 == 0,
{
    let layout = f.layout(width, height);
    let half = height / 2;
    lemma_row_is_aligned(f, width);
    assert((width / 2) % 4 == 0 && width % 4 == 0);
    assert(height % half == 0) by (nonlinear_arith)
        requires
            height == 2 * half,
            half > 0,
    ;
    assert(height % height == 0) by (nonlinear_arith)
        requires
            height > 0,
    ;
    assert forall|i: int| 0 <= i < layout.len() implies (#[trigger] layout[i]).0 % 4 == 0 && height
        % layout[i].1 == 0 by {
        if i == 0 {
            assert(layout[i] == (f.row_bytes(width) as u32, height));
        } else {
            assert(layout[i].1 == half);
            assert(layout[i].0 == width || layout[i].0 == width / 2);
        }
    }
}

/// A row of a multiple of eight pixels has a multiple of four bytes.
proof fn lemma_row_is_aligned(f: Format, width: u32)
    requires
        width % 8 == 0,
    ensures
        f.row_bytes(width) % 4 == 0,
{
    let w = width as int;
    assert((4 * w) % 4 == 0 && (3 * w) % 4 == 0 && (2 * w) % 4 == 0 && (1 * w) % 4 == 0);
    let bytes = f.pixel_bytes();
    assert(bytes == 1 || bytes == 2 || bytes == 3 || bytes == 4);
}

/// The first plane has the frame's full height and holds every pixel of a row; no other
/// plane is larger.
pub proof fn law_first_plane_is_largest(f: Format, width: u32, height: u32)
    requires
        f.row_bytes(width) <= u32::MAX,
    ensures
        f.layout(width, height)[0] == (f.row_bytes(width) as u32, height),
        forall|i: int|
            0 <= i < f.layout(width, height).len() ==> (#[trigger] f.layout(width, height)[i]).0
                <= f.layout(width, height)[0].0 && f.layout(width, height)[i].1 <= height,
{
}

/// An id or a name finds only the format that has it.
pub proof fn law_only_the_right_format_is_found(id: u32, name: Seq<char>)
    ensures
        format_with_id(id) is Some ==> format_with_id(id).unwrap().id() == id,
        format_with_id(id) is None <==> forall|f: Format| (#[trigger] f.id()) != id,
        format_named(name) is Some ==> format_named(name).unwrap().name() == name,
        format_named(name) is None <==> forall|f: Format| (#[trigger] f.name()) != name,
{
}

/// Rows hold their pixels and nothing else, at every size: four bytes each, three or two in the
/// packed formats, one in luma; the chroma planes of the 4:2:0 formats hold half the rows, and
/// per row half the samples of each component.
pub proof fn law_planes_hold_the_samples(f: Format, width: u32, height: u32)
    requires
        f.row_bytes(width) <= u32::MAX,
    ensures
        f is Rgba || f is Bgra || f is Bgrx || f is Rgbx ==> f.row_bytes(width) == width + width
            + width + width,
        f is Bgr || f is Rgb ==> f.row_bytes(width) == width + width + width,
        f is Yuy2 || f is Uvyvy ==> f.row_bytes(width) == width + width,
        f is I420 || f is Nv12 || f is Nv21 || f is Grey ==> f.row_bytes(width) == width,
        f.layout(width, height).len() == if f is I420 {
            3
        } else if f is Nv12 || f is Nv21 {
            2
        } else {
            1int
        },
        f.layout(width, height)[0].0 == f.row_bytes(width),
        f.layout(width, height)[0].1 == height,
        forall|i: int|
            1 <= i < f.layout(width, height).len() ==> {
                let (stride, rows) = #[trigger] f.layout(width, height)[i];
                &&& 0 <= height - 2 * rows <= 1
                &&& f is I420 ==> 0 <= width - 2 * stride <= 1
                &&& !(f is I420) ==> stride == width
            },
{
}

/// The message for an unknown name quotes it, whatever it is, and is the same otherwise.
pub proof fn law_unknown_name_is_quoted(name: Seq<char>)
    ensures
        unknown_format_message(name) == "unknown format \""@ + name + unknown_format_message(
            Seq::empty(),
        ).skip("unknown format \""@.len() as int),
{
    let head = "unknown format \""@;
    let none = unknown_format_message(Seq::empty());
    let tail = "\" (try one of: "@ + joined_names(all_formats()) + ")"@;
    assert(head + Seq::<char>::empty() == head);
    assert(none == head + tail);
    assert(none.skip(head.len() as int) == tail);
    assert(unknown_format_message(name) == head + name + tail);
}

} // verus!
