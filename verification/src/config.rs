//! What a camera offers, and which offers make sense.

use vstd::prelude::*;
use crate::error::Error;
use crate::format::Format;

verus! {

/// One advertised (resolution, framerates, formats) combination.
#[derive(Clone, Debug)]
pub struct Mode {
    pub width: u32,
    pub height: u32,
    /// Framerates in whole frames per second (>= 1). Each is advertised as `fps/1`; the
    /// consumer picks one of them.
    pub fps: Vec<u32>,
    /// Formats offered for this size/framerate (>= 1).
    pub formats: Vec<Format>,
}

/// Camera configuration.
///
/// Validated in [`Camera::new`](crate::camera::Camera::new): at least one mode, each with a
/// sane size/fps and at least one format. Duplicate (format, size, fps) combinations are
/// deduplicated before being advertised.
///
/// The fill handler has to produce frames at the advertised rate. Where it takes longer than
/// `1/fps` seconds, the driver skips missed periods rather than bursting catch-up frames.
#[derive(Clone, Debug)]
pub struct Config {
    /// Node name (`node.name`). This is what consumers target, e.g.
    /// `pipewiresrc target-object=<name>` or in OBS.
    pub name: String,
    /// Human readable name (`media.name`, nick, description).
    pub media_name: String,
    pub modes: Vec<Mode>,
    /// Upper bound on the buffer ring size advertised to consumers
    /// (they pick a count in `2..=max_buffers`; less than two counts as two, and more than
    /// [`MAX_BUFFERS`](crate::pod::MAX_BUFFERS) as that many).
    /// Each 1080p RGBA buffer is ~8 MB, so this caps ring memory.
    pub max_buffers: u32,
}

/// What a [`Mode`] says.
#[verifier::ext_equal]
pub struct ModeView {
    pub width: u32,
    pub height: u32,
    pub fps: Seq<u32>,
    pub formats: Seq<Format>,
}

impl View for Mode {
    type V = ModeView;

    open spec fn view(&self) -> ModeView {
        ModeView {
            width: self.width,
            height: self.height,
            fps: self.fps@,
            formats: self.formats@,
        }
    }
}

/// What the modes say, in order.
pub open spec fn mode_views(modes: Seq<Mode>) -> Seq<ModeView> {
    modes.map_values(|mode: Mode| mode@)
}

/// What a [`Config`] says.
#[verifier::ext_equal]
pub struct ConfigView {
    pub name: Seq<char>,
    pub media_name: Seq<char>,
    pub modes: Seq<ModeView>,
    pub max_buffers: u32,
}

impl View for Config {
    type V = ConfigView;

    open spec fn view(&self) -> ConfigView {
        ConfigView {
            name: self.name@,
            media_name: self.media_name@,
            modes: mode_views(self.modes@),
            max_buffers: self.max_buffers,
        }
    }
}

impl ModeView {
    /// A mode that can be offered.
    pub open spec fn sane(self) -> bool {
        &&& self.width > 0
        &&& self.height > 0
        &&& self.fps.len() > 0
        &&& !self.fps.contains(0)
        &&& self.formats.len() > 0
    }

    /// What is wrong with the mode, if anything is.
    pub open spec fn fault(self) -> Option<Seq<char>> {
        if self.width == 0 || self.height == 0 {
            Some("mode size must be nonzero"@)
        } else if self.fps.len() == 0 {
            Some("mode needs at least one fps"@)
        } else if self.fps.contains(0) {
            Some("mode fps values must be nonzero"@)
        } else if self.formats.len() == 0 {
            Some("each mode needs at least one format"@)
        } else {
            None
        }
    }
}

/// What is wrong with the first of `modes` that has a fault.
pub open spec fn first_mode_fault(modes: Seq<ModeView>) -> Option<Seq<char>>
    decreases modes.len(),
{
    if modes.len() == 0 {
        None
    } else if modes[0].fault() is Some {
        modes[0].fault()
    } else {
        first_mode_fault(modes.drop_first())
    }
}

impl ConfigView {
    /// A config that a camera can be made from.
    pub open spec fn sane(self) -> bool {
        &&& self.name.len() > 0
        &&& self.modes.len() > 0
        &&& forall|i: int| 0 <= i < self.modes.len() ==> (#[trigger] self.modes[i]).sane()
    }

    /// What is wrong with the config, if anything is: the name is looked at first, then the
    /// modes in order.
    pub open spec fn fault(self) -> Option<Seq<char>> {
        if self.name.len() == 0 {
            Some("name must not be empty"@)
        } else if self.modes.len() == 0 {
            Some("at least one mode is required"@)
        } else {
            first_mode_fault(self.modes)
        }
    }
}

proof fn lemma_no_mode_fault(modes: Seq<ModeView>)
    ensures
        first_mode_fault(modes) is None <==> forall|i: int|
            0 <= i < modes.len() ==> (#[trigger] modes[i]).sane(),
    decreases modes.len(),
{
    if modes.len() > 0 {
        let rest = modes.drop_first();
        lemma_no_mode_fault(rest);
        assert(forall|i: int| 0 <= i < rest.len() ==> rest[i] == #[trigger] modes[i + 1]);
        if forall|i: int| 0 <= i < modes.len() ==> (#[trigger] modes[i]).sane() {
            assert(modes[0].sane());
            assert forall|i: int| 0 <= i < rest.len() implies (#[trigger] rest[i]).sane() by {
                assert(modes[i + 1].sane());
            }
        } else {
            let bad = choose|i: int| 0 <= i < modes.len() && !(#[trigger] modes[i]).sane();
            if bad > 0 {
                assert(!rest[bad - 1].sane());
            }
        }
    }
}

/// A config has no fault exactly where it is sane: it has a name, at least one mode, and each
/// mode has a size, nonzero framerates and formats.
pub proof fn law_faultless_config_is_sane(config: ConfigView)
    ensures
        config.fault() is None <==> config.sane(),
{
    lemma_no_mode_fault(config.modes);
}

/// Whether `values` holds a zero.
fn contains_zero(values: &Vec<u32>) -> (r: bool)
    ensures
        r == values@.contains(0),
{
    let mut i: usize = 0;
    while i < values.len()
        invariant
            i <= values@.len(),
            forall|j: int| 0 <= j < i ==> values@[j] != 0,
        decreases values@.len() - i,
    {
        if values[i] == 0 {
            assert(values@[i as int] == 0);
            return true;
        }
        i += 1;
    }
    false
}

fn validate_mode(mode: &Mode) -> (r: Result<(), Error>)
    ensures
        match r {
            Ok(_) => mode@.fault() is None,
            Err(Error::InvalidConfig(message)) => mode@.fault() == Some(message@),
            Err(Error::Connect(_)) => false,
        },
{
    if mode.width == 0 || mode.height == 0 {
        return Err(Error::InvalidConfig("mode size must be nonzero".to_owned()));
    }
    if mode.fps.is_empty() {
        return Err(Error::InvalidConfig("mode needs at least one fps".to_owned()));
    }
    if contains_zero(&mode.fps) {
        return Err(Error::InvalidConfig("mode fps values must be nonzero".to_owned()));
    }
    if mode.formats.is_empty() {
        return Err(Error::InvalidConfig("each mode needs at least one format".to_owned()));
    }
    Ok(())
}

/// Reports the first fault of `config`, or that there is none.
pub fn validate(config: &Config) -> (r: Result<(), Error>)
    ensures
        match r {
            Ok(_) => config@.fault() is None,
            Err(Error::InvalidConfig(message)) => config@.fault() == Some(message@),
            Err(Error::Connect(_)) => false,
        },
{
    if config.name.as_str().is_empty() {
        return Err(Error::InvalidConfig("name must not be empty".to_owned()));
    }
    if config.modes.is_empty() {
        return Err(Error::InvalidConfig("at least one mode is required".to_owned()));
    }
    let ghost views = config@.modes;
    let mut i: usize = 0;
    assert(views.skip(0) == views);
    while i < config.modes.len()
        invariant
            i <= config.modes@.len(),
            views == config@.modes,
            views.len() > 0,
            config@.name.len() > 0,
            first_mode_fault(views) == first_mode_fault(views.skip(i as int)),
        decreases config.modes@.len() - i,
    {
        let ghost rest = views.skip(i as int);
        assert(rest[0] == config.modes@[i as int]@);
        assert(rest.drop_first() == views.skip(i + 1));
        match validate_mode(&config.modes[i]) {
            Ok(_) => {},
            Err(error) => {
                return Err(error);
            },
        }
        i += 1;
    }
    Ok(())
}

/// A config is seen as it is: its names, its bound on the buffers, and each mode with its size,
/// its framerates and its formats.
pub proof fn law_config_is_seen_whole(config: Config)
    ensures
        config@.name == config.name@,
        config@.media_name == config.media_name@,
        config@.max_buffers == config.max_buffers,
        config@.modes.len() == config.modes@.len(),
        forall|m: int|
            0 <= m < config.modes@.len() ==> {
                let seen = #[trigger] config@.modes[m];
                &&& seen.width == config.modes@[m].width
                &&& seen.height == config.modes@[m].height
                &&& seen.fps == config.modes@[m].fps@
                &&& seen.formats == config.modes@[m].formats@
            },
{
}

/// The first fault counts: no name before no modes, no modes before a bad mode, and of the bad
/// modes the first, every mode before which is sane.
pub proof fn law_first_fault_is_named(config: ConfigView, m: int)
    ensures
        config.name.len() == 0 ==> config.fault() == Some("name must not be empty"@),
        config.name.len() > 0 && config.modes.len() == 0 ==> config.fault() == Some(
            "at least one mode is required"@,
        ),
        config.name.len() > 0 && 0 <= m < config.modes.len() && !config.modes[m].sane() && (forall|
            i: int,
        |
            0 <= i < m ==> (#[trigger] config.modes[i]).sane()) ==> config.fault()
            == config.modes[m].fault() && config.fault() is Some,
{
    if config.name.len() > 0 && 0 <= m < config.modes.len() && !config.modes[m].sane() && (forall|
        i: int,
    |
        0 <= i < m ==> (#[trigger] config.modes[i]).sane()) {
        lemma_first_mode_fault(config.modes, m);
    }
}

proof fn lemma_first_mode_fault(modes: Seq<ModeView>, m: int)
    requires
        0 <= m < modes.len(),
        !modes[m].sane(),
        forall|i: int| 0 <= i < m ==> (#[trigger] modes[i]).sane(),
    ensures
        first_mode_fault(modes) == modes[m].fault(),
        modes[m].fault() is Some,
    decreases m,
{
    if m > 0 {
        let rest = modes.drop_first();
        assert(modes[0].sane());
        assert(rest[m - 1] == modes[m]);
        assert forall|i: int| 0 <= i < m - 1 implies (#[trigger] rest[i]).sane() by {
            assert(rest[i] == modes[i + 1]);
        }
        lemma_first_mode_fault(rest, m - 1);
    }
}

/// Each fault of a mode has its own words, and a fault is only named where it is there.
pub proof fn law_mode_fault_is_what_is_wrong(mode: ModeView)
    ensures
        mode.fault() is None <==> mode.width > 0 && mode.height > 0 && mode.fps.len() > 0 && (forall|
            i: int,
        |
            0 <= i < mode.fps.len() ==> #[trigger] mode.fps[i] > 0) && mode.formats.len() > 0,
        mode.width == 0 || mode.height == 0 ==> mode.fault() == Some("mode size must be nonzero"@),
        mode.width > 0 && mode.height > 0 && mode.fps.len() == 0 ==> mode.fault() == Some(
            "mode needs at least one fps"@,
        ),
        mode.width > 0 && mode.height > 0 && (exists|i: int|
            0 <= i < mode.fps.len() && #[trigger] mode.fps[i] == 0) ==> mode.fault() == Some(
            "mode fps values must be nonzero"@,
        ),
        mode.width > 0 && mode.height > 0 && mode.fps.len() > 0 && (forall|i: int|
            0 <= i < mode.fps.len() ==> #[trigger] mode.fps[i] > 0) && mode.formats.len() == 0
            ==> mode.fault() == Some("each mode needs at least one format"@),
{
    if exists|i: int| 0 <= i < mode.fps.len() && #[trigger] mode.fps[i] == 0 {
        assert(mode.fps.contains(0));
    }
}

} // verus!
