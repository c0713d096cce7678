use pipewire_vircam::Format;

/// Every supported `Format` maps back to itself via its SPA id.
#[test]
fn format_spa_id_roundtrip() {
    for f in Format::all() {
        let back = Format::from_spa_id(f.spa_id());
        assert_eq!(back, Some(*f), "from_spa_id({}) != {f:?}", f.spa_id());
    }
}

/// No two supported formats share an SPA id (a copy-paste id collision
/// would silently mis-negotiate).
#[test]
fn format_spa_ids_are_unique() {
    for (i, a) in Format::all().iter().enumerate() {
        for b in Format::all().iter().skip(i + 1) {
            assert_ne!(
                a.spa_id(),
                b.spa_id(),
                "{} and {} share spa_id {}",
                a.spa_id(),
                b.spa_id(),
                a.spa_id()
            );
        }
    }
}

/// Every format parses back from its name (`FromStr` round-trip), and
/// unknown names are rejected.
#[test]
fn format_from_str_roundtrip() {
    for f in Format::all() {
        let parsed: Format = f.as_str().parse().unwrap_or_else(|e| panic!("{f:?}: {e}"));
        assert_eq!(parsed, *f);
    }
    assert!("mjpg".parse::<Format>().is_err());
    assert!("".parse::<Format>().is_err());
    // Names are case-sensitive (matches the wire names we document).
    assert!("RGBA".parse::<Format>().is_err());
}

/// `from_spa_id` rejects ids we don't support (e.g. MJPG, or garbage).
#[test]
fn from_spa_id_rejects_unknown() {
    assert_eq!(Format::from_spa_id(0), None); // SPA_VIDEO_FORMAT_UNKNOWN
    assert_eq!(Format::from_spa_id(3), None); // YV12 (not supported)
    assert_eq!(Format::from_spa_id(9999), None);
    assert_eq!(Format::from_spa_id(u32::MAX), None);
}

/// The per-plane layout (stride, height) for each format at a known
/// size. This is the core stride/plane math: the thing most likely to
/// regress.
#[test]
fn format_planes_layout() {
    let (w, h) = (1920u32, 1080u32);
    assert_eq!(Format::Rgba.planes(w, h), vec![(w * 4, h)]);
    assert_eq!(Format::Bgra.planes(w, h), vec![(w * 4, h)]);
    assert_eq!(Format::Bgrx.planes(w, h), vec![(w * 4, h)]);
    assert_eq!(Format::Rgbx.planes(w, h), vec![(w * 4, h)]);
    assert_eq!(Format::Bgr.planes(w, h), vec![(w * 3, h)]);
    assert_eq!(Format::Rgb.planes(w, h), vec![(w * 3, h)]);
    // I420: Y + planar U,V (half resolution each).
    assert_eq!(
        Format::I420.planes(w, h),
        vec![(w, h), (w / 2, h / 2), (w / 2, h / 2)]
    );
    // NV12/NV21: Y + interleaved UV/VU (half resolution).
    assert_eq!(Format::Nv12.planes(w, h), vec![(w, h), (w, h / 2)]);
    assert_eq!(Format::Nv21.planes(w, h), vec![(w, h), (w, h / 2)]);
    // Packed 4:2:2: 2 bytes/pixel, one plane.
    assert_eq!(Format::Yuy2.planes(w, h), vec![(w * 2, h)]);
    assert_eq!(Format::Uvyvy.planes(w, h), vec![(w * 2, h)]);
    // Grayscale: 1 byte/pixel, one plane.
    assert_eq!(Format::Grey.planes(w, h), vec![(w, h)]);
}

/// Every format has at least one plane whose stride is a multiple of 4
/// (PipeWire row-stride alignment) and whose height divides the frame
/// height evenly (chroma subsampling).
#[test]
fn planes_are_sane_for_all_formats() {
    let (w, h) = (1920u32, 1080u32);
    for f in Format::all() {
        let planes = f.planes(w, h);
        assert!(!planes.is_empty(), "{f:?} has no planes");
        for (stride, ph) in planes {
            assert_eq!(stride % 4, 0, "{f:?} stride {stride} not 4-aligned");
            assert_eq!(h % ph, 0, "{f:?} height {h} not divisible by plane {ph}");
        }
    }
}

#[test]
fn spa_ids_are_those_of_the_wire() {
    let ids: Vec<u32> = Format::all().iter().map(|f| f.spa_id()).collect();
    assert_eq!(ids, vec![11, 12, 8, 7, 16, 15, 2, 23, 24, 4, 5, 25]);
}

#[test]
fn all_formats_in_order() {
    let names: Vec<String> = Format::all().iter().map(|f| f.to_string()).collect();
    assert_eq!(
        names,
        vec![
            "rgba", "bgra", "bgrx", "rgbx", "bgr", "rgb", "i420", "nv12", "nv21", "yuy2", "uyvy",
            "grey"
        ]
    );
}

#[test]
fn unknown_format_message_lists_names() {
    assert_eq!(
        Format::from_str("mjpg"),
        Err("unknown format \"mjpg\" (try one of: rgba, bgra, bgrx, rgbx, bgr, rgb, i420, nv12, \
             nv21, yuy2, uyvy, grey)"
            .to_string())
    );
    assert_eq!(Format::from_str("uyvy"), Ok(Format::Uvyvy));
}

#[test]
fn odd_sizes_round_chroma_down() {
    assert_eq!(
        Format::I420.planes(5, 3),
        vec![(5, 3), (2, 1), (2, 1)]
    );
    assert_eq!(Format::Nv12.planes(5, 3), vec![(5, 3), (5, 1)]);
    assert_eq!(Format::Rgb.planes(0, 0), vec![(0, 0)]);
}

#[test]
fn stride_fits_up_to_the_last_pixel() {
    assert!(Format::Rgba.stride_fits(u32::MAX / 4));
    assert!(!Format::Rgba.stride_fits(u32::MAX / 4 + 1));
    assert!(Format::Rgb.stride_fits(u32::MAX / 3));
    assert!(!Format::Bgr.stride_fits(u32::MAX / 3 + 1));
    assert!(!Format::Yuy2.stride_fits(u32::MAX / 2 + 1));
    assert!(Format::Grey.stride_fits(u32::MAX));
    assert!(Format::I420.stride_fits(u32::MAX));
}
