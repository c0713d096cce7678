use pipewire_vircam::advertise::advertised_param_blobs;
use pipewire_vircam::cli::{
    arg_error_line, negotiated_line, parse_args, parse_mode, report_state, state_lines,
    unknown_argument_line, ArgError,
};
use pipewire_vircam::pod::enumformat_pod;
use pipewire_vircam::text::{decimal_string, parse_u32, signed_decimal_string, split_once};
use pipewire_vircam::{Format, Negotiated, State};

fn args(list: &[&str]) -> Vec<String> {
    list.iter().map(|s| s.to_string()).collect()
}

#[test]
fn modes_are_parsed() {
    let mode = parse_mode("1280x720@60").unwrap();
    assert_eq!((mode.width, mode.height), (1280, 720));
    assert_eq!(mode.fps, vec![60]);
    assert_eq!(mode.formats, Format::all().to_vec());
    let plus = parse_mode("+1x002@4294967295").unwrap();
    assert_eq!((plus.width, plus.height), (1, 2));
    assert_eq!(plus.fps, vec![u32::MAX]);
}

#[test]
fn bad_modes_are_explained() {
    let fault = |s: &str| parse_mode(s).unwrap_err();
    assert_eq!(fault("640x480"), "mode needs WxH@FPS: 640x480");
    assert_eq!(fault("640@480"), "mode needs WxH@FPS: 640@480");
    assert_eq!(fault(""), "mode needs WxH@FPS: ");
    assert_eq!(fault("ax480@30"), "bad width: ax480@30");
    assert_eq!(fault("x480@30"), "bad width: x480@30");
    assert_eq!(fault("640x-1@30"), "bad height: 640x-1@30");
    assert_eq!(fault("640x4x8@30"), "bad height: 640x4x8@30");
    assert_eq!(fault("640x480@"), "bad fps: 640x480@");
    assert_eq!(fault("640x480@30@1"), "bad fps: 640x480@30@1");
    assert_eq!(fault("640x480@4294967296"), "bad fps: 640x480@4294967296");
}

#[test]
fn default_is_full_hd() {
    let config = parse_args(&args(&[])).unwrap();
    assert_eq!(config.name, "redcam");
    assert_eq!(config.media_name, "Red Virtual Camera");
    assert_eq!(config.max_buffers, 4);
    assert_eq!(config.modes.len(), 1);
    assert_eq!((config.modes[0].width, config.modes[0].height), (1920, 1080));
    assert_eq!(config.modes[0].fps, vec![30]);
    assert_eq!(config.modes[0].formats, Format::all().to_vec());
}

#[test]
fn arguments_are_collected() {
    let config = parse_args(&args(&[
        "--mode",
        "1280x720@60",
        "--name",
        "a",
        "--mode",
        "640x480@15",
        "--name",
        "b",
    ]))
    .unwrap();
    assert_eq!(config.name, "b");
    let sizes: Vec<u32> = config.modes.iter().map(|m| m.width).collect();
    assert_eq!(sizes, vec![1280, 640]);
}

#[test]
fn bad_arguments_are_reported() {
    let fault = |list: &[&str]| parse_args(&args(list)).unwrap_err();
    assert_eq!(fault(&["--name"]), ArgError::MissingValue("--name".into()));
    assert_eq!(
        fault(&["--name", "x", "--mode"]),
        ArgError::MissingValue("--mode".into())
    );
    assert_eq!(
        fault(&["--mode", "1x2"]),
        ArgError::BadMode("mode needs WxH@FPS: 1x2".into())
    );
    assert_eq!(fault(&["-h"]), ArgError::Unknown("-h".into()));
}

#[test]
fn states_are_printed() {
    assert_eq!(
        state_lines(&State::Paused { node_id: 90 }, false),
        vec!["node id: 90", "stream state: \"paused\""]
    );
    assert_eq!(
        state_lines(&State::Paused { node_id: 90 }, true),
        vec!["stream state: \"paused\""]
    );
    assert_eq!(
        state_lines(&State::Streaming { node_id: 90 }, false),
        vec!["stream state: \"streaming\""]
    );
    assert_eq!(
        state_lines(&State::Disconnected { error: None }, true),
        vec!["stream state: \"unconnected\""]
    );
    assert_eq!(
        state_lines(
            &State::Disconnected {
                error: Some("link died".into())
            },
            true
        ),
        vec!["stream state: \"error\" link died"]
    );
}

#[test]
fn negotiations_are_printed() {
    let line = negotiated_line(&Negotiated {
        format: Format::Rgba,
        width: 1920,
        height: 1080,
        fps_num: 30,
        fps_denom: 1,
        stride: 7680,
        node_id: 90,
    });
    assert_eq!(line, "negotiated: format=11 1920x1080@30/1 stride=7680");
}

#[test]
fn numbers_are_read_back() {
    for n in [0u32, 9, 10, 1080, u32::MAX] {
        assert_eq!(parse_u32(&decimal_string(n as u64)), Some(n));
        assert_eq!(decimal_string(n as u64), n.to_string());
    }
    assert_eq!(decimal_string(u64::MAX), u64::MAX.to_string());
    assert_eq!(signed_decimal_string(-10), "-10");
    assert_eq!(signed_decimal_string(i32::MAX), i32::MAX.to_string());
    for bad in ["", "+", "++1", " 1", "1 ", "-0", "4294967296", "\u{662}"] {
        assert_eq!(parse_u32(bad), None, "{bad:?}");
        assert!(bad.parse::<u32>().is_err());
    }
}

#[test]
fn text_is_split_at_the_first_mark() {
    assert_eq!(split_once("a=b=c", '='), Some(("a", "b=c")));
    assert_eq!(split_once("=", '='), Some(("", "")));
    assert_eq!(split_once("\u{e9}x\u{e9}", 'x'), Some(("\u{e9}", "\u{e9}")));
    assert_eq!(split_once("abc", '='), None);
}

#[test]
fn argument_errors_are_printed() {
    let line = |list: &[&str]| arg_error_line(&parse_args(&args(list)).unwrap_err());
    assert_eq!(line(&["--name"]), "redcam: --name needs a value");
    assert_eq!(line(&["--mode"]), "redcam: --mode needs a value");
    assert_eq!(line(&["--mode", "1x2"]), "redcam: mode needs WxH@FPS: 1x2");
    assert_eq!(line(&["-v"]), "redcam: unknown argument \"-v\"");
    assert_eq!(line(&["a\"\n"]), "redcam: unknown argument \"a\\\"\\n\"");
    assert_eq!(unknown_argument_line("'x'"), "redcam: unknown argument 'x'");
}

#[test]
fn node_id_is_printed_once() {
    let mut printed = false;
    let mut all: Vec<String> = Vec::new();
    for state in [
        State::Disconnected { error: None },
        State::Paused { node_id: 90 },
        State::Streaming { node_id: 90 },
        State::Paused { node_id: 90 },
    ] {
        let (lines, next) = report_state(&state, printed);
        all.extend(lines);
        printed = next;
    }
    assert_eq!(
        all,
        vec![
            "stream state: \"unconnected\"",
            "node id: 90",
            "stream state: \"paused\"",
            "stream state: \"streaming\"",
            "stream state: \"paused\"",
        ]
    );
}

#[test]
fn repeated_modes_keep_every_rate() {
    let list = args(&["--mode", "1920x1080@30", "--mode", "1920x1080@60"]);
    let blobs = advertised_param_blobs(&parse_args(&list).unwrap());
    assert_eq!(blobs.len(), 13);
    assert_eq!(
        blobs[0],
        enumformat_pod(Format::Rgba, 1920, 1080, &[(30, 1), (60, 1)])
    );
}
