use pipewire_vircam::advertise::advertised_param_blobs;
use pipewire_vircam::pod::{
    buffers_pod, enumformat_pod, max_framerate, meta_pod, to_i32, Fraction, Id, Key, Object,
    ObjectType, ParamType, Rectangle, Value,
};
use pipewire_vircam::{Config, Format, Mode};

/// A distinctive geometry: width != height != fps, so a size/framerate
/// swap or a "denom always 1" assumption is caught.
const W: u32 = 384;
const H: u32 = 272;
const FPS: u32 = 47;

/// The value of the one property that `object` has under `key`.
fn value_of(object: &Object, key: Key) -> Value {
    let found: Vec<Value> = object
        .properties
        .iter()
        .filter(|p| p.key == key)
        .map(|p| p.value.clone())
        .collect();
    assert_eq!(found.len(), 1, "{key:?}");
    found[0].clone()
}

/// `enumformat_pod` must describe the exact (format, size, fps) we asked for.
#[test]
fn enumformat_pod_roundtrip() {
    for f in Format::all() {
        let pod = enumformat_pod(*f, W, H, &[(FPS, 1)]);
        assert_eq!(pod.type_, ObjectType::ParamFormat);
        assert_eq!(pod.id, ParamType::EnumFormat);
        assert_eq!(value_of(&pod, Key::MediaType), Value::Id(Id::MediaVideo));
        assert_eq!(value_of(&pod, Key::MediaSubtype), Value::Id(Id::SubtypeRaw));
        assert_eq!(
            value_of(&pod, Key::VideoFormat),
            Value::Id(Id::Raw(f.spa_id())),
            "format id mismatch for {f:?}"
        );
        assert_eq!(
            value_of(&pod, Key::VideoSize),
            Value::Rectangle(Rectangle { width: W, height: H })
        );
        assert_eq!(
            value_of(&pod, Key::VideoFramerate),
            Value::Fraction(Fraction { num: FPS, denom: 1 })
        );
    }
}

/// The colorimetry properties must be present (there are more than
/// the five that give the geometry), and sizes do not change the shape.
#[test]
fn enumformat_pod_colorimetry() {
    let pod_sd = enumformat_pod(Format::Rgba, 640, 480, &[(30, 1)]);
    let pod_hd = enumformat_pod(Format::Rgba, 1920, 1080, &[(30, 1)]);
    assert!(pod_sd.properties.len() > 5);
    assert!(pod_hd.properties.len() > 5);
    assert_eq!(pod_sd.properties.len(), pod_hd.properties.len());
    for (sd, hd) in pod_sd.properties.iter().zip(&pod_hd.properties) {
        assert_eq!(sd.key, hd.key);
    }
    assert_eq!(
        value_of(&pod_hd, Key::VideoColorRange),
        Value::Id(Id::ColorRangeFull)
    );
    assert_eq!(
        value_of(&pod_hd, Key::VideoColorMatrix),
        Value::Id(Id::ColorMatrixBt601)
    );
    assert_eq!(
        value_of(&pod_hd, Key::VideoTransferFunction),
        Value::Id(Id::Raw(5))
    );
    assert_eq!(
        value_of(&pod_hd, Key::VideoColorPrimaries),
        Value::Id(Id::Raw(1))
    );
    for f in [Format::Yuy2, Format::Uvyvy] {
        let pod = enumformat_pod(f, 640, 480, &[(30, 1)]);
        assert_eq!(
            value_of(&pod, Key::VideoColorRange),
            Value::Id(Id::ColorRangeLimited)
        );
    }
}

/// Two fps values for the same (format, size) must give distinct
/// objects carrying the exact framerate: the multi-fps regression guard.
#[test]
fn enumformat_pod_multi_fps() {
    for fps in [15u32, 30, 60] {
        let pod = enumformat_pod(Format::Rgba, W, H, &[(fps, 1)]);
        assert_eq!(
            value_of(&pod, Key::VideoFramerate),
            Value::Fraction(Fraction { num: fps, denom: 1 })
        );
        assert_eq!(
            value_of(&pod, Key::VideoSize),
            Value::Rectangle(Rectangle { width: W, height: H })
        );
    }
}

#[test]
fn enumformat_pod_several_fps_is_a_choice() {
    let pod = enumformat_pod(Format::Rgba, W, H, &[(30, 1), (60, 1), (24, 1)]);
    assert_eq!(
        value_of(&pod, Key::VideoFramerate),
        Value::FractionEnum {
            default: Fraction { num: 30, denom: 1 },
            alternatives: vec![
                Fraction { num: 30, denom: 1 },
                Fraction { num: 60, denom: 1 },
                Fraction { num: 24, denom: 1 },
            ],
        }
    );
    assert_eq!(
        value_of(&pod, Key::VideoMaxFramerate),
        Value::Fraction(Fraction { num: 60, denom: 1 })
    );
    let single = enumformat_pod(Format::Rgba, W, H, &[(30, 1)]);
    assert!(single
        .properties
        .iter()
        .all(|p| p.key != Key::VideoMaxFramerate));
}

#[test]
fn max_framerate_is_the_fastest() {
    assert_eq!(max_framerate(&[]), None);
    assert_eq!(max_framerate(&[(30, 1)]), None);
    assert_eq!(max_framerate(&[(30, 1), (15, 1)]), Some((30, 1)));
    assert_eq!(max_framerate(&[(30000, 1001), (24, 1)]), Some((30000, 1001)));
    assert_eq!(max_framerate(&[(24, 0), (30, 2)]), Some((24, 1)));
    assert_eq!(
        max_framerate(&[(u32::MAX, u32::MAX), (u32::MAX, 1)]),
        Some((u32::MAX, 1))
    );
}

fn config(modes: Vec<Mode>) -> Config {
    Config {
        name: "cam".into(),
        media_name: "cam".into(),
        modes,
        max_buffers: 4,
    }
}

/// Duplicate (format, size) combinations are advertised once, and
/// the advertised blobs end with the `meta` (Header) request.
#[test]
fn advertised_param_blobs_dedup() {
    let config = config(vec![
        Mode {
            width: W,
            height: H,
            fps: vec![FPS, FPS],
            formats: vec![Format::Rgba, Format::Rgba],
        },
        Mode {
            width: W,
            height: H,
            fps: vec![FPS + 1],
            formats: vec![Format::Rgba],
        },
    ]);
    let blobs = advertised_param_blobs(&config);
    // Both modes have the same (format, size): 1 Format + 1 meta.
    assert_eq!(blobs.len(), 2);
    // The last blob is the meta (Header) request.
    assert_eq!(blobs[1].id, ParamType::Meta);
    // The repeated framerate is advertised once, and that of the other mode behind it.
    let slow = Fraction { num: FPS, denom: 1 };
    let fast = Fraction { num: FPS + 1, denom: 1 };
    assert_eq!(
        value_of(&blobs[0], Key::VideoFramerate),
        Value::FractionEnum {
            default: slow,
            alternatives: vec![slow, fast]
        }
    );
}

/// Grouping invariant: for each (format, size), all fps entries must be
/// *consecutive* in the advertised blob list.
#[test]
fn advertised_param_blobs_grouped_by_format_then_size() {
    let config = config(vec![
        Mode {
            width: 1920,
            height: 1080,
            fps: vec![24, 30],
            formats: vec![Format::Rgba, Format::Yuy2],
        },
        Mode {
            width: 1280,
            height: 720,
            fps: vec![24, 30],
            formats: vec![Format::Rgba, Format::Yuy2],
        },
    ]);
    let blobs = advertised_param_blobs(&config);
    // With one Format per (format, size): 4 Formats + 1 meta = 5.
    assert_eq!(blobs.len(), 5);
    let rates = [(24, 1), (30, 1)];
    assert_eq!(blobs[0], enumformat_pod(Format::Rgba, 1920, 1080, &rates));
    assert_eq!(blobs[1], enumformat_pod(Format::Yuy2, 1920, 1080, &rates));
    assert_eq!(blobs[2], enumformat_pod(Format::Rgba, 1280, 720, &rates));
    assert_eq!(blobs[3], enumformat_pod(Format::Yuy2, 1280, 720, &rates));
    assert_eq!(blobs[4], meta_pod());
}

#[test]
fn nothing_to_offer_still_asks_for_the_meta() {
    assert_eq!(advertised_param_blobs(&config(vec![])), vec![meta_pod()]);
}

/// `buffers_pod` and `meta_pod` give well-formed
/// objects that are non-trivial in size.
#[test]
fn buffers_and_meta_pods_roundtrip() {
    for pod in [
        buffers_pod(7680, 1080, 1, 4),
        buffers_pod(1920, 1080, 3, 16),
        buffers_pod(1920, 1080, 3, 2),
        meta_pod(),
    ] {
        assert!(!pod.properties.is_empty(), "pod must be non-trivial");
    }
    let pod = buffers_pod(7680, 1080, 1, 4);
    assert_eq!(pod.type_, ObjectType::ParamBuffers);
    assert_eq!(pod.id, ParamType::Buffers);
    assert_eq!(
        value_of(&pod, Key::Buffers),
        Value::IntRange { preferred: 4, min: 2, max: 4 }
    );
    assert_eq!(value_of(&pod, Key::BufferBlocks), Value::Int(1));
    assert_eq!(value_of(&pod, Key::BufferSize), Value::Int(7680 * 1080));
    assert_eq!(value_of(&pod, Key::BufferStride), Value::Int(7680));
    let meta = meta_pod();
    assert_eq!(meta.type_, ObjectType::ParamMeta);
    assert_eq!(meta.id, ParamType::Meta);
    assert_eq!(value_of(&meta, Key::MetaType), Value::Id(Id::MetaHeader));
    assert_eq!(value_of(&meta, Key::MetaSize), Value::Int(32));
}

#[test]
fn buffer_counts_stay_in_bounds() {
    let range = |max_buffers: u32| value_of(&buffers_pod(4, 1, 1, max_buffers), Key::Buffers);
    assert_eq!(range(0), Value::IntRange { preferred: 2, min: 2, max: 2 });
    assert_eq!(range(1), Value::IntRange { preferred: 2, min: 2, max: 2 });
    assert_eq!(range(2), Value::IntRange { preferred: 2, min: 2, max: 2 });
    assert_eq!(range(3), Value::IntRange { preferred: 3, min: 2, max: 3 });
    assert_eq!(range(16), Value::IntRange { preferred: 4, min: 2, max: 16 });
    assert_eq!(range(17), Value::IntRange { preferred: 4, min: 2, max: 16 });
    assert_eq!(
        range(u32::MAX),
        Value::IntRange { preferred: 4, min: 2, max: 16 }
    );
}

#[test]
fn large_counts_wrap_to_negative() {
    assert_eq!(to_i32(0), 0);
    assert_eq!(to_i32(i32::MAX as u32), i32::MAX);
    assert_eq!(to_i32(0x8000_0000), i32::MIN);
    assert_eq!(to_i32(u32::MAX), -1);
    let pod = buffers_pod(u32::MAX, 5, 1, 4);
    assert_eq!(value_of(&pod, Key::BufferSize), Value::Int(-5));
}

#[test]
fn rates_of_all_modes_are_advertised() {
    let mode = |width: u32, fps: Vec<u32>, formats: Vec<Format>| Mode {
        width,
        height: H,
        fps,
        formats,
    };
    let blobs = advertised_param_blobs(&config(vec![
        mode(W, vec![30, 60, 30], vec![Format::Rgba]),
        mode(W, vec![15, 60], vec![Format::Grey, Format::Rgba]),
        mode(W + 1, vec![15], vec![Format::Rgba]),
    ]));
    assert_eq!(
        blobs,
        vec![
            enumformat_pod(Format::Rgba, W, H, &[(30, 1), (60, 1), (15, 1)]),
            enumformat_pod(Format::Grey, W, H, &[(15, 1), (60, 1)]),
            enumformat_pod(Format::Rgba, W + 1, H, &[(15, 1)]),
            meta_pod(),
        ]
    );
}
