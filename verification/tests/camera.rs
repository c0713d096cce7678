use pipewire_vircam::camera::{connect_result, Action, Link, NodeKey, StreamState};
use pipewire_vircam::frame::{build_planes, write_header_meta, Chunk, MetaHeader};
use pipewire_vircam::negotiate::{
    parse_negotiated, reply_buffers, FormatParam, Negotiated, VideoInfo,
};
use pipewire_vircam::pacing::Pacing;
use pipewire_vircam::pod::{buffers_pod, enumformat_pod, meta_pod, ParamType};
use pipewire_vircam::{Camera, Config, Error, Format, Frame, Mode, Plane, State};

fn config() -> Config {
    Config {
        name: "cam".into(),
        media_name: "A Camera".into(),
        modes: vec![Mode {
            width: 4,
            height: 2,
            fps: vec![30],
            formats: vec![Format::Rgba, Format::I420],
        }],
        max_buffers: 8,
    }
}

fn camera() -> Camera {
    match Camera::new(config()) {
        Ok(camera) => camera,
        Err(e) => panic!("{e:?}"),
    }
}

fn param(format: Format, fps_num: u32, fps_denom: u32) -> FormatParam {
    FormatParam {
        is_object: true,
        video: Some(VideoInfo {
            format: format.spa_id(),
            width: 4,
            height: 2,
            fps_num,
            fps_denom,
        }),
    }
}

fn negotiated(format: Format, stride: u32) -> Negotiated {
    Negotiated {
        format,
        width: 4,
        height: 2,
        fps_num: 30,
        fps_denom: 1,
        stride,
        node_id: 7,
    }
}

const LINK: Link = Link {
    node_id: 9,
    driving: true,
    lazy: false,
};

#[test]
fn new_camera_waits() {
    let camera = camera();
    assert_eq!(camera.name, "cam");
    assert_eq!(camera.max_buffers, 8);
    assert_eq!(camera.seq, 0);
    assert_eq!(camera.negotiated, None);
    assert_eq!(
        camera.pacing,
        Pacing {
            streaming: false,
            period_ns: 0,
            next_due: 0
        }
    );
    assert_eq!(
        camera.params,
        vec![
            enumformat_pod(Format::Rgba, 4, 2, &[(30, 1)]),
            enumformat_pod(Format::I420, 4, 2, &[(30, 1)]),
            meta_pod(),
        ]
    );
    let text = |s: &str| s.to_string();
    assert_eq!(
        camera.properties,
        vec![
            (NodeKey::NodeName, text("cam")),
            (NodeKey::NodeDescription, text("A Camera")),
            (NodeKey::NodeNick, text("A Camera")),
            (NodeKey::MediaName, text("A Camera")),
            (NodeKey::MediaClass, text("Video/Source")),
            (NodeKey::MediaType, text("Video")),
            (NodeKey::MediaCategory, text("Capture")),
            (NodeKey::MediaRole, text("Camera")),
        ]
    );
}

#[test]
fn bad_config_makes_no_camera() {
    let mut bad = config();
    bad.modes[0].fps = vec![0];
    match Camera::new(bad) {
        Err(e) => assert_eq!(
            e.to_string(),
            "invalid config: mode fps values must be nonzero"
        ),
        Ok(_) => panic!("accepted"),
    }
}

#[test]
fn connect_codes() {
    assert_eq!(connect_result(0), Ok(()));
    assert_eq!(connect_result(3), Ok(()));
    assert_eq!(
        connect_result(-22),
        Err(Error::Connect("pw_stream_connect: -22".into()))
    );
    assert_eq!(
        connect_result(i32::MIN),
        Err(Error::Connect("pw_stream_connect: -2147483648".into()))
    );
}

#[test]
fn states_are_reported() {
    let mut camera = camera();
    assert_eq!(
        camera.on_state_changed(StreamState::Connecting, LINK, 1),
        State::Disconnected { error: None }
    );
    assert_eq!(
        camera.on_state_changed(StreamState::Unconnected, LINK, 1),
        State::Disconnected { error: None }
    );
    assert_eq!(
        camera.on_state_changed(StreamState::Paused, LINK, 2),
        State::Paused { node_id: 9 }
    );
    assert!(!camera.pacing.streaming);
    assert_eq!(
        camera.on_state_changed(StreamState::Streaming, LINK, 3),
        State::Streaming { node_id: 9 }
    );
    assert!(camera.pacing.streaming);
    assert_eq!(camera.pacing.next_due, 3);
    assert_eq!(
        camera.on_state_changed(StreamState::Error("gone".into()), LINK, 4),
        State::Disconnected {
            error: Some("gone".into())
        }
    );
    assert!(!camera.pacing.streaming);
    assert_eq!(camera.pacing.next_due, 3);
}

#[test]
fn only_a_driving_stream_pushes() {
    let mut camera = camera();
    let passive = Link {
        driving: false,
        ..LINK
    };
    let lazy = Link { lazy: true, ..LINK };
    camera.on_state_changed(StreamState::Streaming, passive, 5);
    assert!(!camera.pacing.streaming);
    camera.on_state_changed(StreamState::Streaming, lazy, 6);
    assert!(!camera.pacing.streaming);
    assert_eq!(camera.pacing.next_due, 6);
}

#[test]
fn format_is_negotiated() {
    let mut camera = camera();
    let neg = camera.on_param_changed(ParamType::Format, Some(param(Format::Rgba, 30, 1)), 7);
    assert_eq!(neg, Some(negotiated(Format::Rgba, 16)));
    assert_eq!(camera.negotiated, neg);
    assert_eq!(camera.pacing.period_ns, 33_333_333);
}

#[test]
fn other_parameters_are_ignored() {
    let mut camera = camera();
    let rgba = param(Format::Rgba, 30, 1);
    let unknown = FormatParam {
        is_object: true,
        video: Some(VideoInfo {
            format: 3,
            width: 4,
            height: 2,
            fps_num: 30,
            fps_denom: 1,
        }),
    };
    let no_object = FormatParam {
        is_object: false,
        ..rgba
    };
    let no_video = FormatParam {
        is_object: true,
        video: None,
    };
    assert_eq!(
        camera.on_param_changed(ParamType::EnumFormat, Some(rgba), 7),
        None
    );
    assert_eq!(
        camera.on_param_changed(ParamType::Other(99), Some(rgba), 7),
        None
    );
    assert_eq!(camera.on_param_changed(ParamType::Format, None, 7), None);
    for p in [unknown, no_object, no_video] {
        assert_eq!(camera.on_param_changed(ParamType::Format, Some(p), 7), None);
        assert_eq!(parse_negotiated(&p, 7), None);
    }
    assert_eq!(camera.negotiated, None);
    assert_eq!(camera.pacing.period_ns, 0);
}

#[test]
fn advertised_rates_negotiate() {
    for f in Format::all() {
        let neg = parse_negotiated(&param(*f, 30000, 1001), 1).unwrap();
        assert_eq!(neg.format, *f);
        assert_eq!(neg.stride, f.planes(4, 2)[0].0);
        assert_eq!((neg.fps_num, neg.fps_denom), (30000, 1001));
        assert_eq!(neg.period_ns(), 33_366_666);
    }
}

#[test]
fn zero_rates_have_a_period() {
    let still = Negotiated {
        fps_num: 0,
        fps_denom: 2,
        ..negotiated(Format::Rgba, 16)
    };
    assert_eq!(still.period_ns(), 2_000_000_000);
    let endless = Negotiated {
        fps_num: 30,
        fps_denom: 0,
        ..negotiated(Format::Rgba, 16)
    };
    assert_eq!(endless.period_ns(), 0);
    let slow = Negotiated {
        fps_num: 1,
        fps_denom: u32::MAX,
        ..negotiated(Format::Rgba, 16)
    };
    assert_eq!(slow.period_ns(), 4_294_967_295_000_000_000);
}

#[test]
fn acceptance_is_answered_and_rejection_is_not() {
    let camera = camera();
    let neg = negotiated(Format::I420, 4);
    assert_eq!(
        camera.answer(&neg, &Ok(())),
        vec![
            Action::Send(vec![buffers_pod(4, 2, 3, 8), meta_pod()]),
            Action::Report(neg),
        ]
    );
    assert_eq!(camera.answer(&neg, &Err("too small".into())), vec![]);
    // Rows may be padded.
    let padded = negotiated(Format::Rgba, 64);
    assert_eq!(
        camera.answer(&padded, &Ok(()))[0],
        Action::Send(vec![buffers_pod(64, 2, 1, 8), meta_pod()])
    );
    assert_eq!(
        reply_buffers(&negotiated(Format::Nv12, 4), 2),
        vec![buffers_pod(4, 2, 2, 2), meta_pod()]
    );
}

#[test]
fn buffers_become_frames() {
    let mut camera = camera();
    camera.on_param_changed(ParamType::Format, Some(param(Format::I420, 30, 1)), 7);
    let mut y = vec![1u8; 10];
    let mut u = vec![1u8; 3];
    let mut v = vec![1u8; 2];
    {
        let datas = vec![
            Some(y.as_mut_slice()),
            Some(u.as_mut_slice()),
            Some(v.as_mut_slice()),
        ];
        let processed = camera.process_buffer(datas, Some(32), 1_000_000_000);
        assert_eq!(
            processed.chunks,
            vec![
                Chunk { offset: 0, size: 8, stride: 4 },
                Chunk { offset: 0, size: 2, stride: 2 },
                Chunk { offset: 0, size: 2, stride: 2 },
            ]
        );
        let header = processed.header.unwrap();
        let mut frame = processed.frame.unwrap();
        assert_eq!(header.pts, 1_000_000_000);
        assert_eq!(header.seq, 0);
        assert_eq!((frame.seq, frame.pts), (0, 1_000_000_000));
        assert_eq!((frame.width, frame.height), (4, 2));
        assert_eq!(frame.format, Format::I420);
        assert_eq!((frame.fps_num, frame.fps_denom), (30, 1));
        assert_eq!(frame.planes.len(), 3);
        assert_eq!((frame.planes[1].stride, frame.planes[1].height), (2, 1));
        frame.fill_black();
    }
    assert_eq!(y, vec![0, 0, 0, 0, 0, 0, 0, 0, 1, 1]);
    assert_eq!(u, vec![0, 0, 1]);
    assert_eq!(v, vec![0, 0]);
    assert_eq!(camera.seq, 1);
}

#[test]
fn frames_are_numbered_in_order() {
    let mut camera = camera();
    camera.on_param_changed(ParamType::Format, Some(param(Format::Rgba, 30, 1)), 7);
    let mut data = vec![0u8; 32];
    for n in 0..3u64 {
        let processed = camera.process_buffer(vec![Some(data.as_mut_slice())], None, 100 * n);
        assert_eq!(processed.header, None);
        let frame = processed.frame.unwrap();
        assert_eq!((frame.seq, frame.pts), (n, 100 * n));
        let unusable = camera.process_buffer(vec![None], Some(32), 1);
        assert!(unusable.frame.is_none());
        assert_eq!(unusable.header, None);
    }
    assert_eq!(camera.seq, 3);
}

#[test]
fn no_frame_before_a_negotiation() {
    let mut camera = camera();
    let mut data = vec![0u8; 32];
    let processed = camera.process_buffer(vec![Some(data.as_mut_slice())], Some(32), 5);
    assert!(processed.frame.is_none());
    assert!(processed.chunks.is_empty());
    assert_eq!(processed.header, None);
    assert_eq!(camera.seq, 0);
}

#[test]
fn unmapped_plane_makes_the_buffer_unusable() {
    let mut y = vec![0u8; 8];
    let mut v = vec![0u8; 2];
    let layout = Format::I420.planes(4, 2);
    let (chunks, planes) = build_planes(
        vec![Some(y.as_mut_slice()), None, Some(v.as_mut_slice())],
        &layout,
    );
    assert!(planes.is_none());
    assert_eq!(chunks.len(), 2);
}

#[test]
fn spare_blocks_and_planes_are_left_out() {
    let mut a = vec![0u8; 32];
    let mut b = vec![0u8; 32];
    let (chunks, planes) = build_planes(
        vec![Some(a.as_mut_slice()), Some(b.as_mut_slice())],
        &Format::Rgba.planes(4, 2),
    );
    assert_eq!(chunks, vec![Chunk { offset: 0, size: 32, stride: 16 }]);
    assert_eq!(planes.unwrap().len(), 1);
    let mut y = vec![0u8; 8];
    let (chunks, planes) = build_planes(vec![Some(y.as_mut_slice())], &Format::I420.planes(4, 2));
    assert_eq!(chunks.len(), 1);
    assert_eq!(planes.unwrap().len(), 1);
}

#[test]
fn writes_full_header_meta() {
    let payload = write_header_meta(Some(32), 42, 1_000_000_000).unwrap();
    assert_eq!(payload.flags, 0);
    assert_eq!(payload.offset, 0);
    assert_eq!(payload.pts, 1_000_000_000);
    assert_eq!(payload.dts_offset, 0);
    assert_eq!(payload.seq, 42);
}

/// A meta region smaller than the full 32-byte header must be left
/// untouched (no partial writes, no OOB).
#[test]
fn leaves_small_meta_untouched() {
    assert_eq!(write_header_meta(Some(8), 42, 1_000_000_000), None);
    assert_eq!(write_header_meta(Some(31), 42, 1_000_000_000), None);
}

/// A buffer without any Header meta (e.g. only the auto `Busy` meta) is
/// a no-op.
#[test]
fn no_meta_is_a_noop() {
    assert_eq!(write_header_meta(None, 42, 1_000_000_000), None);
}

#[test]
fn late_timestamps_wrap() {
    assert_eq!(
        write_header_meta(Some(64), 1, u64::MAX),
        Some(MetaHeader {
            flags: 0,
            offset: 0,
            pts: -1,
            dts_offset: 0,
            seq: 1
        })
    );
}

#[test]
fn black_leaves_the_padding_alone() {
    let mut data = vec![9u8; 6];
    {
        let mut frame = Frame {
            width: 2,
            height: 2,
            format: Format::Grey,
            fps_num: 30,
            fps_denom: 1,
            seq: 0,
            pts: 0,
            planes: vec![Plane {
                stride: 2,
                height: 2,
                data: &mut data,
            }],
        };
        frame.fill_black();
        assert_eq!(frame.planes[0].stride, 2);
    }
    assert_eq!(data, vec![0, 0, 0, 0, 9, 9]);
}

#[test]
fn ticks_need_a_streaming_consumer() {
    let mut camera = camera();
    assert!(!camera.on_timer(10));
    camera.on_state_changed(StreamState::Streaming, LINK, 20);
    // Streaming, but nothing has been negotiated.
    assert!(!camera.on_timer(30));
    camera.on_state_changed(StreamState::Paused, LINK, 40);
    camera.on_param_changed(ParamType::Format, Some(param(Format::Rgba, 1000, 1)), 7);
    // Negotiated, but paused.
    assert!(!camera.on_timer(50));
    camera.on_state_changed(StreamState::Streaming, LINK, 60);
    assert!(camera.on_timer(60));
    assert!(!camera.on_timer(61));
    assert_eq!(camera.pacing.next_due, 1_000_060);
    camera.on_state_changed(StreamState::Error("link died".into()), LINK, 70);
    assert!(!camera.on_timer(2_000_000));
    // The consumer is gone, and what it negotiated with it.
    assert_eq!(camera.negotiated, None);
    camera.on_state_changed(StreamState::Streaming, LINK, 3_000_000);
    assert!(!camera.on_timer(3_000_001));
    let mut data = vec![0u8; 32];
    let processed = camera.process_buffer(vec![Some(data.as_mut_slice())], None, 3_000_001);
    assert!(processed.frame.is_none());
    // A new consumer that has negotiated gets its first frame at once.
    camera.on_param_changed(ParamType::Format, Some(param(Format::Rgba, 1000, 1)), 7);
    assert!(camera.on_timer(3_000_002));
}

#[test]
fn only_a_disconnect_forgets_the_negotiation() {
    for (new, kept) in [
        (StreamState::Unconnected, false),
        (StreamState::Connecting, false),
        (StreamState::Error("gone".into()), false),
        (StreamState::Paused, true),
        (StreamState::Streaming, true),
    ] {
        let mut camera = camera();
        camera.on_param_changed(ParamType::Format, Some(param(Format::Rgba, 1000, 1)), 7);
        camera.on_state_changed(new, LINK, 60);
        assert_eq!(camera.negotiated.is_some(), kept);
        assert_eq!(camera.pacing.period_ns, if kept { 1_000_000 } else { 0 });
    }
}

#[test]
fn renegotiation_changes_the_rate_only() {
    let mut camera = camera();
    camera.on_param_changed(ParamType::Format, Some(param(Format::Rgba, 30, 1)), 7);
    camera.on_state_changed(StreamState::Streaming, LINK, 60);
    let before = camera.pacing;
    camera.on_param_changed(ParamType::Format, Some(param(Format::I420, 60, 1)), 7);
    assert_eq!(
        camera.pacing,
        Pacing {
            period_ns: 16_666_666,
            ..before
        }
    );
    assert_eq!(camera.negotiated.unwrap().format, Format::I420);
    camera.on_state_changed(StreamState::Paused, LINK, 80);
    assert_eq!(camera.pacing.period_ns, 16_666_666);
}

#[test]
fn new_consumer_gets_its_own_format() {
    let mut camera = camera();
    camera.on_param_changed(ParamType::Format, Some(param(Format::I420, 30, 1)), 7);
    camera.on_state_changed(StreamState::Streaming, LINK, 0);
    camera.on_state_changed(StreamState::Error("link died".into()), LINK, 10);
    camera.on_state_changed(StreamState::Connecting, LINK, 20);
    camera.on_state_changed(StreamState::Paused, LINK, 30);
    camera.on_param_changed(ParamType::Format, Some(param(Format::Rgba, 60, 1)), 8);
    assert!(!camera.on_timer(1_000_000_000));
    camera.on_state_changed(StreamState::Streaming, LINK, 2_000_000_000);
    assert!(camera.on_timer(2_000_000_000));
    let mut data = vec![0u8; 32];
    let processed = camera.process_buffer(vec![Some(data.as_mut_slice())], None, 2_000_000_000);
    let frame = processed.frame.unwrap();
    assert_eq!(frame.format, Format::Rgba);
    assert_eq!((frame.fps_num, frame.fps_denom), (60, 1));
    assert_eq!((frame.planes[0].stride, frame.planes[0].height), (16, 2));
}

#[test]
fn blocks_that_are_no_planes_keep_their_bytes() {
    let mut camera = camera();
    let mut first = vec![1u8; 32];
    let mut spare = vec![2u8; 8];
    // Nothing has been negotiated.
    let datas = vec![Some(first.as_mut_slice()), Some(spare.as_mut_slice())];
    assert!(camera.process_buffer(datas, None, 0).frame.is_none());
    assert_eq!((&first, &spare), (&vec![1u8; 32], &vec![2u8; 8]));
    // One plane, and a block behind it.
    camera.on_param_changed(ParamType::Format, Some(param(Format::Rgba, 30, 1)), 7);
    let datas = vec![Some(first.as_mut_slice()), Some(spare.as_mut_slice())];
    let mut frame = camera.process_buffer(datas, None, 0).frame.unwrap();
    assert_eq!(frame.planes.len(), 1);
    frame.fill_black();
    assert_eq!((&first, &spare), (&vec![0u8; 32], &vec![2u8; 8]));
    // A plane is not mapped.
    let (_, planes) = build_planes(
        vec![Some(first.as_mut_slice()), None, Some(spare.as_mut_slice())],
        &Format::I420.planes(4, 2),
    );
    assert!(planes.is_none());
    assert_eq!((&first, &spare), (&vec![0u8; 32], &vec![2u8; 8]));
}

#[test]
fn report_precedes_the_frames() {
    let mut camera = camera();
    let mut done: Vec<&str> = Vec::new();
    camera.on_state_changed(StreamState::Paused, LINK, 0);
    let neg = camera
        .on_param_changed(ParamType::Format, Some(param(Format::Rgba, 30, 1)), 7)
        .unwrap();
    for verdict in [Err("not ready".to_string()), Ok(())] {
        for action in camera.answer(&neg, &verdict) {
            done.push(match action {
                Action::Send(_) => "reply",
                Action::Report(_) => "report",
            });
        }
    }
    camera.on_state_changed(StreamState::Streaming, LINK, 10);
    assert!(camera.on_timer(10));
    let mut data = vec![0u8; 32];
    if camera
        .process_buffer(vec![Some(data.as_mut_slice())], None, 10)
        .frame
        .is_some()
    {
        done.push("frame");
    }
    assert_eq!(done, vec!["reply", "report", "frame"]);
}
