use pipewire_vircam::config::validate;
use pipewire_vircam::{Config, Error, Format, Mode};

fn mode() -> Mode {
    Mode {
        width: 640,
        height: 480,
        fps: vec![15, 30],
        formats: vec![Format::Rgba],
    }
}

fn config(modes: Vec<Mode>) -> Config {
    Config {
        name: "cam".into(),
        media_name: "A Camera".into(),
        modes,
        max_buffers: 4,
    }
}

fn fault(config: Config) -> String {
    match validate(&config) {
        Err(Error::InvalidConfig(message)) => message,
        other => panic!("{other:?}"),
    }
}

#[test]
fn sane_config_is_valid() {
    assert_eq!(validate(&config(vec![mode()])), Ok(()));
    assert_eq!(validate(&config(vec![mode(), mode()])), Ok(()));
}

#[test]
fn empty_name_is_reported_first() {
    let mut nameless = config(vec![]);
    nameless.name = String::new();
    assert_eq!(fault(nameless), "name must not be empty");
}

#[test]
fn modes_are_needed() {
    assert_eq!(fault(config(vec![])), "at least one mode is required");
}

#[test]
fn each_fault_of_a_mode_is_named() {
    let flat = Mode { height: 0, ..mode() };
    let thin = Mode { width: 0, ..mode() };
    let still = Mode { fps: vec![], ..mode() };
    let frozen = Mode { fps: vec![30, 0], ..mode() };
    let shapeless = Mode { formats: vec![], ..mode() };
    assert_eq!(fault(config(vec![flat])), "mode size must be nonzero");
    assert_eq!(fault(config(vec![thin])), "mode size must be nonzero");
    assert_eq!(fault(config(vec![still])), "mode needs at least one fps");
    assert_eq!(fault(config(vec![frozen])), "mode fps values must be nonzero");
    assert_eq!(
        fault(config(vec![shapeless])),
        "each mode needs at least one format"
    );
}

#[test]
fn first_faulty_mode_counts() {
    let still = Mode { fps: vec![], ..mode() };
    let thin = Mode { width: 0, ..mode() };
    assert_eq!(
        fault(config(vec![mode(), still, thin])),
        "mode needs at least one fps"
    );
    let worst = Mode {
        width: 0,
        height: 0,
        fps: vec![],
        formats: vec![],
    };
    assert_eq!(fault(config(vec![worst])), "mode size must be nonzero");
}
