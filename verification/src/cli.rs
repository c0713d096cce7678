//! The command line of `redcam`, a solid red camera: its arguments and what it prints.

use vstd::prelude::*;
use crate::camera::State;
use crate::config::{mode_views, Config, ConfigView, Mode, ModeView};
use crate::format::{all_formats, Format};
use crate::negotiate::Negotiated;
use crate::text::{
    decimal, decimal_string, is_digit, lemma_index_of, parse_u32, split_once, split_once_of, u32_of,
};

verus! {

/// Why the arguments are not understood.
#[derive(Clone, Debug, PartialEq, Eq)]
pub enum ArgError {
    /// The last argument is a flag that wants a value.
    MissingValue(String),
    /// A mode is not `WxH@FPS`, with the message that says so.
    BadMode(String),
    /// There is no such argument.
    Unknown(String),
}

/// What an [`ArgError`] says.
pub enum ArgErrorView {
    MissingValue(Seq<char>),
    BadMode(Seq<char>),
    Unknown(Seq<char>),
}

impl View for ArgError {
    type V = ArgErrorView;

    open spec fn view(&self) -> ArgErrorView {
        match self {
            ArgError::MissingValue(flag) => ArgErrorView::MissingValue(flag@),
            ArgError::BadMode(message) => ArgErrorView::BadMode(message@),
            ArgError::Unknown(argument) => ArgErrorView::Unknown(argument@),
        }
    }
}

/// The mode that `WxH@FPS` stands for, which offers every format; or what is wrong with it.
pub open spec fn mode_of(s: Seq<char>) -> Result<ModeView, Seq<char>> {
    match split_once_of(s, '@') {
        None => Err("mode needs WxH@FPS: "@ + s),
        Some((size, fps)) => match split_once_of(size, 'x') {
            None => Err("mode needs WxH@FPS: "@ + s),
            Some((width, height)) => if u32_of(width) is None {
                Err("bad width: "@ + s)
            } else if u32_of(height) is None {
                Err("bad height: "@ + s)
            } else if u32_of(fps) is None {
                Err("bad fps: "@ + s)
            } else {
                Ok(
                    ModeView {
                        width: u32_of(width).unwrap(),
                        height: u32_of(height).unwrap(),
                        fps: seq![u32_of(fps).unwrap()],
                        formats: all_formats(),
                    },
                )
            },
        },
    }
}

/// A node name and modes, as far as the arguments have given them.
#[verifier::ext_equal]
pub struct Given {
    pub name: Seq<char>,
    pub modes: Seq<ModeView>,
}

/// What the arguments from the `i`th on add to what has been given.
pub open spec fn given_by(args: Seq<Seq<char>>, i: nat, given: Given) -> Result<
    Given,
    ArgErrorView,
>
    decreases args.len() - i,
{
    if i >= args.len() {
        Ok(given)
    } else if args[i as int] == "--name"@ {
        if i + 1 >= args.len() {
            Err(ArgErrorView::MissingValue("--name"@))
        } else {
            given_by(args, i + 2, Given { name: args[i as int + 1], ..given })
        }
    } else if args[i as int] == "--mode"@ {
        if i + 1 >= args.len() {
            Err(ArgErrorView::MissingValue("--mode"@))
        } else {
            match mode_of(args[i as int + 1]) {
                Ok(mode) => given_by(args, i + 2, Given { modes: given.modes.push(mode), ..given }),
                Err(message) => Err(ArgErrorView::BadMode(message)),
            }
        }
    } else {
        Err(ArgErrorView::Unknown(args[i as int]))
    }
}

/// The mode that is offered where none is asked for: 1920x1080 at 30 fps in every format.
pub open spec fn default_mode_view() -> ModeView {
    ModeView { width: 1920, height: 1080, fps: seq![30u32], formats: all_formats() }
}

/// The config that the arguments ask for.
pub open spec fn config_of(args: Seq<Seq<char>>) -> Result<ConfigView, ArgErrorView> {
    match given_by(args, 0, Given { name: "redcam"@, modes: Seq::empty() }) {
        Ok(given) => Ok(
            ConfigView {
                name: given.name,
                media_name: "Red Virtual Camera"@,
                modes: if given.modes.len() == 0 {
                    seq![default_mode_view()]
                } else {
                    given.modes
                },
                max_buffers: 4,
            },
        ),
        Err(error) => Err(error),
    }
}

/// What the arguments say, in order.
pub open spec fn argument_views(args: Seq<String>) -> Seq<Seq<char>> {
    args.map_values(|argument: String| argument@)
}

fn every_format() -> (r: Vec<Format>)
    ensures
        r@ == all_formats(),
{
    let formats = Format::all();
    let mut r: Vec<Format> = Vec::new();
    let mut i: usize = 0;
    while i < formats.len()
        invariant
            i <= formats@.len(),
            r@ == formats@.take(i as int),
        decreases formats@.len() - i,
    {
        r.push(formats[i]);
        i += 1;
        assert(r@ == formats@.take(i as int));
    }
    assert(formats@.take(formats@.len() as int) == formats@);
    r
}

fn prefixed(prefix: &str, s: &str) -> (r: String)
    ensures
        r@ == prefix@ + s@,
{
    let mut r = prefix.to_owned();
    r.append(s);
    r
}

/// The mode that `WxH@FPS` stands for, which offers every format.
pub fn parse_mode(s: &str) -> (r: Result<Mode, String>)
    ensures
        match r {
            Ok(mode) => mode_of(s@) == Ok::<ModeView, Seq<char>>(mode@),
            Err(message) => mode_of(s@) == Err::<ModeView, Seq<char>>(message@),
        },
{
    let (size, fps) = match split_once(s, '@') {
        Some(parts) => parts,
        None => {
            return Err(prefixed("mode needs WxH@FPS: ", s));
        },
    };
    let (width, height) = match split_once(size, 'x') {
        Some(parts) => parts,
        None => {
            return Err(prefixed("mode needs WxH@FPS: ", s));
        },
    };
    let width: u32 = match parse_u32(width) {
        Some(width) => width,
        None => {
            return Err(prefixed("bad width: ", s));
        },
    };
    let height: u32 = match parse_u32(height) {
        Some(height) => height,
        None => {
            return Err(prefixed("bad height: ", s));
        },
    };
    let fps: u32 = match parse_u32(fps) {
        Some(fps) => fps,
        None => {
            return Err(prefixed("bad fps: ", s));
        },
    };
    let mode = Mode { width, height, fps: vec![fps], formats: every_format() };
    assert(mode@.fps == seq![fps]);
    Ok(mode)
}

/// The config that the arguments (without the program's name) ask for.
pub fn parse_args(args: &Vec<String>) -> (r: Result<Config, ArgError>)
    ensures
        match r {
            Ok(config) => config_of(argument_views(args@)) == Ok::<ConfigView, ArgErrorView>(
                config@,
            ),
            Err(error) => config_of(argument_views(args@)) == Err::<ConfigView, ArgErrorView>(
                error@,
            ),
        },
{
    let ghost views = argument_views(args@);
    let ghost start = Given { name: "redcam"@, modes: Seq::empty() };
    let name_flag = "--name".to_owned();
    let mode_flag = "--mode".to_owned();
    let mut name = "redcam".to_owned();
    let mut modes: Vec<Mode> = Vec::new();
    let mut i: usize = 0;
    assert(mode_views(modes@) == start.modes);
    while i < args.len()
        invariant
            i <= args@.len(),
            views == argument_views(args@),
            name_flag@ == "--name"@,
            mode_flag@ == "--mode"@,
            given_by(views, 0, start) == given_by(
                views,
                i as nat,
                Given { name: name@, modes: mode_views(modes@) },
            ),
            start == (Given { name: "redcam"@, modes: Seq::empty() }),
        decreases args@.len() - i,
    {
        assert(views[i as int] == args@[i as int]@);
        if args[i] == name_flag {
            if args.len() - i < 2 {
                return Err(ArgError::MissingValue(name_flag));
            }
            assert(views[i + 1] == args@[i + 1]@);
            name = args[i + 1].clone();
            i += 2;
        } else if args[i] == mode_flag {
            if args.len() - i < 2 {
                return Err(ArgError::MissingValue(mode_flag));
            }
            assert(views[i + 1] == args@[i + 1]@);
            match parse_mode(args[i + 1].as_str()) {
                Ok(mode) => {
                    let ghost before = modes@;
                    modes.push(mode);
                    assert(mode_views(modes@) == mode_views(before).push(mode@));
                },
                Err(message) => {
                    return Err(ArgError::BadMode(message));
                },
            }
            i += 2;
        } else {
            return Err(ArgError::Unknown(args[i].clone()));
        }
    }
    let ghost asked = mode_views(modes@);
    if modes.is_empty() {
        modes.push(Mode { width: 1920, height: 1080, fps: vec![30], formats: every_format() });
        assert(modes@[0]@.fps == seq![30u32]);
        assert(mode_views(modes@) == seq![default_mode_view()]);
    }
    Ok(Config { name, media_name: "Red Virtual Camera".to_owned(), modes, max_buffers: 4 })
}

/// How Rust writes a string as a literal, in quotes and with its escapes: what `Debug` of `str`
/// writes.
pub uninterp spec fn quoted_text(s: Seq<char>) -> Seq<char>;

/// Writes a string as a literal, by `Debug` of `str` from the standard library. It is taken to
/// depend on the string alone; what it writes for a given string is not stated.
#[verifier::external_body]
fn quoted(s: &str) -> (r: String)
    ensures
        r@ == quoted_text(s@),
{
    format!("{:?}", s)
}

/// The line for an argument that there is not, given as a literal.
pub open spec fn unknown_argument_text(literal: Seq<char>) -> Seq<char> {
    "redcam: unknown argument "@ + literal
}

/// The line that says why the arguments are not understood.
pub open spec fn arg_error_text(error: ArgErrorView) -> Seq<char> {
    match error {
        ArgErrorView::MissingValue(flag) => "redcam: "@ + flag + " needs a value"@,
        ArgErrorView::BadMode(message) => "redcam: "@ + message,
        ArgErrorView::Unknown(argument) => unknown_argument_text(quoted_text(argument)),
    }
}

/// The line for an argument that there is not, given as a literal.
pub fn unknown_argument_line(literal: &str) -> (r: String)
    ensures
        r@ == unknown_argument_text(literal@),
{
    prefixed("redcam: unknown argument ", literal)
}

/// The line that says why the arguments are not understood.
pub fn arg_error_line(error: &ArgError) -> (r: String)
    ensures
        r@ == arg_error_text(error@),
{
    match error {
        ArgError::MissingValue(flag) => {
            let mut line = prefixed("redcam: ", flag.as_str());
            line.append(" needs a value");
            line
        },
        ArgError::BadMode(message) => prefixed("redcam: ", message.as_str()),
        ArgError::Unknown(argument) => {
            let literal = quoted(argument.as_str());
            unknown_argument_line(literal.as_str())
        },
    }
}

/// The lines that report a state: the node id once, before the first pause.
pub open spec fn state_text(state: State, node_printed: bool) -> Seq<Seq<char>> {
    match state {
        State::Disconnected { error: Some(message) } => seq!["stream state: \"error\" "@
            + message@],
        State::Disconnected { error: None } => seq!["stream state: \"unconnected\""@],
        State::Paused { node_id } => if node_printed {
            seq!["stream state: \"paused\""@]
        } else {
            seq!["node id: "@ + decimal(node_id as nat), "stream state: \"paused\""@]
        },
        State::Streaming { node_id } => seq!["stream state: \"streaming\""@],
    }
}

/// The lines that report `state`, where `node_printed` tells whether the node id has been
/// reported before.
pub fn state_lines(state: &State, node_printed: bool) -> (r: Vec<String>)
    ensures
        argument_views(r@) == state_text(*state, node_printed),
{
    let mut lines: Vec<String> = Vec::new();
    match state {
        State::Disconnected { error: Some(message) } => {
            lines.push(prefixed("stream state: \"error\" ", message.as_str()));
        },
        State::Disconnected { error: None } => {
            lines.push("stream state: \"unconnected\"".to_owned());
        },
        State::Paused { node_id } => {
            if !node_printed {
                let digits = decimal_string(*node_id as u64);
                lines.push(prefixed("node id: ", digits.as_str()));
            }
            lines.push("stream state: \"paused\"".to_owned());
        },
        State::Streaming { node_id: _ } => {
            lines.push("stream state: \"streaming\"".to_owned());
        },
    }
    assert(argument_views(lines@) == state_text(*state, node_printed));
    lines
}

/// Whether the node id has been reported, after `state` has been.
pub open spec fn printed_after(state: State, node_printed: bool) -> bool {
    node_printed || state is Paused
}

/// The lines that report `state`, and whether the node id has then been reported.
pub fn report_state(state: &State, node_printed: bool) -> (r: (Vec<String>, bool))
    ensures
        argument_views(r.0@) == state_text(*state, node_printed),
        r.1 == printed_after(*state, node_printed),
{
    let lines = state_lines(state, node_printed);
    let printed = match state {
        State::Paused { node_id: _ } => true,
        _ => node_printed,
    };
    (lines, printed)
}

/// Whether the node id has been reported, after all of the states have been.
pub open spec fn printed_after_all(states: Seq<State>) -> bool
    decreases states.len(),
{
    if states.len() == 0 {
        false
    } else {
        printed_after(states.last(), printed_after_all(states.drop_last()))
    }
}

/// The node id has been reported exactly where there was a pause.
proof fn lemma_printed_after_a_pause(states: Seq<State>)
    ensures
        printed_after_all(states) <==> exists|i: int|
            0 <= i < states.len() && (#[trigger] states[i]) is Paused,
    decreases states.len(),
{
    if states.len() > 0 {
        let front = states.drop_last();
        lemma_printed_after_a_pause(front);
        assert(states[states.len() - 1] == states.last());
        if exists|i: int| 0 <= i < front.len() && (#[trigger] front[i]) is Paused {
            let i = choose|i: int| 0 <= i < front.len() && (#[trigger] front[i]) is Paused;
            assert(states[i] is Paused);
        }
        if exists|i: int| 0 <= i < states.len() && (#[trigger] states[i]) is Paused {
            let i = choose|i: int| 0 <= i < states.len() && (#[trigger] states[i]) is Paused;
            if i < front.len() {
                assert(front[i] is Paused);
            }
        }
    }
}

/// The node id is reported once, before the first pause: every other state gets the one line
/// that names it.
pub proof fn law_node_id_is_reported_with_the_first_pause(states: Seq<State>, k: int)
    requires
        0 <= k < states.len(),
    ensures
        ({
            let text = state_text(states[k], printed_after_all(states.take(k)));
            if states[k] is Paused && forall|i: int|
                0 <= i < k ==> !((#[trigger] states[i]) is Paused) {
                &&& text.len() == 2
                &&& text[0] == "node id: "@ + decimal(states[k]->Paused_node_id as nat)
            } else {
                text.len() == 1
            }
        }),
{
    let before = states.take(k);
    lemma_printed_after_a_pause(before);
    assert(forall|i: int| 0 <= i < k ==> before[i] == #[trigger] states[i]);
    if exists|i: int| 0 <= i < k && (#[trigger] states[i]) is Paused {
        let i = choose|i: int| 0 <= i < k && (#[trigger] states[i]) is Paused;
        assert(before[i] is Paused);
    }
}

/// The line that reports a negotiation.
pub open spec fn negotiated_text(n: Negotiated) -> Seq<char> {
    "negotiated: format="@ + decimal(n.format.id() as nat) + " "@ + decimal(n.width as nat) + "x"@
        + decimal(n.height as nat) + "@"@ + decimal(n.fps_num as nat) + "/"@ + decimal(
        n.fps_denom as nat,
    ) + " stride="@ + decimal(n.stride as nat)
}

fn append_decimal(line: &mut String, n: u32)
    ensures
        final(line)@ == old(line)@ + decimal(n as nat),
{
    let digits = decimal_string(n as u64);
    line.append(digits.as_str());
}

/// The line that reports a negotiation.
pub fn negotiated_line(n: &Negotiated) -> (r: String)
    ensures
        r@ == negotiated_text(*n),
{
    let mut line = "negotiated: format=".to_owned();
    append_decimal(&mut line, n.format.spa_id());
    line.append(" ");
    append_decimal(&mut line, n.width);
    line.append("x");
    append_decimal(&mut line, n.height);
    line.append("@");
    append_decimal(&mut line, n.fps_num);
    line.append("/");
    append_decimal(&mut line, n.fps_denom);
    line.append(" stride=");
    append_decimal(&mut line, n.stride);
    line
}

/// The text that names a mode.
pub open spec fn mode_text(width: u32, height: u32, fps: u32) -> Seq<char> {
    decimal(width as nat).push('x') + decimal(height as nat).push('@') + decimal(fps as nat)
}

/// Every size and framerate can be asked for by its decimal text.
pub proof fn law_mode_text_read_back(width: u32, height: u32, fps: u32)
    ensures
        mode_of(mode_text(width, height, fps)) == Ok::<ModeView, Seq<char>>(
            ModeView { width, height, fps: seq![fps], formats: all_formats() },
        ),
{
    let w = decimal(width as nat);
    let h = decimal(height as nat);
    let f = decimal(fps as nat);
    let s = mode_text(width, height, fps);
    crate::text::law_decimal_spells_number(width as nat);
    crate::text::law_decimal_spells_number(height as nat);
    crate::text::law_u32_read_back(width);
    crate::text::law_u32_read_back(height);
    crate::text::law_u32_read_back(fps);
    let at = (w.len() + 1 + h.len()) as int;
    let size = w.push('x') + h;
    assert forall|j: int| 0 <= j < at implies s[j] != '@' by {
        if j < w.len() {
            assert(s[j] == w[j]);
            assert(is_digit(w[j]));
        } else if j > w.len() {
            assert(s[j] == h[j - w.len() - 1]);
            assert(is_digit(h[j - w.len() - 1]));
        }
    }
    lemma_index_of(s, '@', at);
    assert(s.take(at) == size);
    assert(s.skip(at + 1) == f);
    assert forall|j: int| 0 <= j < w.len() implies size[j] != 'x' by {
        assert(size[j] == w[j]);
        assert(is_digit(w[j]));
    }
    lemma_index_of(size, 'x', w.len() as int);
    assert(size.take(w.len() as int) == w);
    assert(size.skip(w.len() as int + 1) == h);
}

/// Text of the shape `WxH@FPS` is a mode exactly where all three parts are numbers, and then has
/// that size, that one framerate and every format; else the first part that is no number is to
/// blame.
pub proof fn law_mode_text_is_taken_apart(width: Seq<char>, height: Seq<char>, fps: Seq<char>)
    requires
        !width.contains('x'),
        !width.contains('@'),
        !height.contains('@'),
    ensures
        ({
            let s = width.push('x') + height.push('@') + fps;
            match mode_of(s) {
                Ok(mode) => {
                    &&& u32_of(width) == Some(mode.width)
                    &&& u32_of(height) == Some(mode.height)
                    &&& mode.fps.len() == 1
                    &&& u32_of(fps) == Some(mode.fps[0])
                    &&& forall|f: Format| #[trigger] mode.formats.contains(f)
                    &&& mode.formats == all_formats()
                },
                Err(message) => {
                    ||| u32_of(width) is None && message == "bad width: "@ + s
                    ||| u32_of(width) is Some && u32_of(height) is None && message
                        == "bad height: "@ + s
                    ||| u32_of(width) is Some && u32_of(height) is Some && u32_of(fps) is None
                        && message == "bad fps: "@ + s
                },
            }
        }),
{
    let s = width.push('x') + height.push('@') + fps;
    let size = width.push('x') + height;
    assert forall|j: int| 0 <= j < size.len() implies s[j] != '@' by {
        if j < width.len() {
            assert(width.contains(width[j]));
        } else if j > width.len() {
            assert(height.contains(height[j - width.len() - 1]));
        }
    }
    lemma_index_of(s, '@', size.len() as int);
    assert(s.take(size.len() as int) == size);
    assert(s.skip(size.len() as int + 1) == fps);
    assert forall|j: int| 0 <= j < width.len() implies size[j] != 'x' by {
        assert(width.contains(width[j]));
    }
    lemma_index_of(size, 'x', width.len() as int);
    assert(size.take(width.len() as int) == width);
    assert(size.skip(width.len() as int + 1) == height);
    assert forall|f: Format| #[trigger] all_formats().contains(f) by {
        crate::format::law_every_format_listed(f);
    }
}

/// Text without the marks of a mode is none, and is said to be none.
pub proof fn law_text_without_marks_is_no_mode(before: Seq<char>, behind: Seq<char>)
    requires
        !before.contains('@'),
    ensures
        mode_of(before) == Err::<ModeView, Seq<char>>("mode needs WxH@FPS: "@ + before),
        !before.contains('x') ==> mode_of(before.push('@') + behind) == Err::<ModeView, Seq<char>>(
            "mode needs WxH@FPS: "@ + (before.push('@') + behind),
        ),
{
    assert forall|j: int| 0 <= j < before.len() implies before[j] != '@' by {
        assert(before.contains(before[j]));
    }
    lemma_index_of(before, '@', before.len() as int);
    if !before.contains('x') {
        let s = before.push('@') + behind;
        assert forall|j: int| 0 <= j < before.len() implies s[j] != '@' by {
            assert(s[j] == before[j]);
        }
        lemma_index_of(s, '@', before.len() as int);
        assert(s.take(before.len() as int) == before);
        assert forall|j: int| 0 <= j < before.len() implies before[j] != 'x' by {
            assert(before.contains(before[j]));
        }
        lemma_index_of(before, 'x', before.len() as int);
    }
}

/// Something that is set on the command line.
pub enum Setting {
    Name(Seq<char>),
    Mode(Seq<char>),
}

/// The arguments that set these things, one after the other.
pub open spec fn spelled(settings: Seq<Setting>) -> Seq<Seq<char>>
    decreases settings.len(),
{
    if settings.len() == 0 {
        Seq::empty()
    } else {
        spelled(settings.drop_last()) + match settings.last() {
            Setting::Name(name) => seq!["--name"@, name],
            Setting::Mode(text) => seq!["--mode"@, text],
        }
    }
}

/// The texts of the modes that are set, in order.
pub open spec fn mode_texts(settings: Seq<Setting>) -> Seq<Seq<char>>
    decreases settings.len(),
{
    if settings.len() == 0 {
        Seq::empty()
    } else {
        match settings.last() {
            Setting::Name(_) => mode_texts(settings.drop_last()),
            Setting::Mode(text) => mode_texts(settings.drop_last()).push(text),
        }
    }
}

/// Whether every mode that is set is one.
pub open spec fn modes_are_good(settings: Seq<Setting>) -> bool {
    forall|i: int|
        0 <= i < settings.len() ==> match #[trigger] settings[i] {
            Setting::Mode(text) => mode_of(text) is Ok,
            _ => true,
        }
}

/// What has been given once these things are set.
spec fn given_after(settings: Seq<Setting>) -> Given
    decreases settings.len(),
{
    if settings.len() == 0 {
        Given { name: "redcam"@, modes: Seq::empty() }
    } else {
        let before = given_after(settings.drop_last());
        match settings.last() {
            Setting::Name(name) => Given { name, ..before },
            Setting::Mode(text) => Given {
                modes: before.modes.push(mode_of(text)->Ok_0),
                ..before
            },
        }
    }
}

proof fn lemma_settings_are_given(settings: Seq<Setting>, rest: Seq<Seq<char>>)
    requires
        modes_are_good(settings),
    ensures
        given_by(
            spelled(settings) + rest,
            0,
            Given { name: "redcam"@, modes: Seq::empty() },
        ) == given_by(spelled(settings) + rest, spelled(settings).len(), given_after(settings)),
    decreases settings.len(),
{
    if settings.len() > 0 {
        let front = settings.drop_last();
        let last = settings.last();
        let pair = match last {
            Setting::Name(name) => seq!["--name"@, name],
            Setting::Mode(text) => seq!["--mode"@, text],
        };
        let args = spelled(settings) + rest;
        assert(args == spelled(front) + (pair + rest));
        assert(modes_are_good(front)) by {
            assert forall|i: int| 0 <= i < front.len() implies match #[trigger] front[i] {
                Setting::Mode(text) => mode_of(text) is Ok,
                _ => true,
            } by {
                assert(front[i] == settings[i]);
            }
        }
        lemma_settings_are_given(front, pair + rest);
        let i = spelled(front).len();
        assert(args[i as int] == pair[0]);
        assert(args[i as int + 1] == pair[1]);
        assert(settings[settings.len() - 1] == last);
        lemma_flags_differ();
    }
}

proof fn lemma_flags_differ()
    ensures
        "--name"@ != "--mode"@,
{
    reveal_strlit("--name");
    reveal_strlit("--mode");
    assert("--name"@[2] != "--mode"@[2]);
}

proof fn lemma_given_modes(settings: Seq<Setting>)
    requires
        modes_are_good(settings),
    ensures
        given_after(settings).modes.len() == mode_texts(settings).len(),
        forall|i: int|
            0 <= i < mode_texts(settings).len() ==> mode_of(#[trigger] mode_texts(settings)[i])
                == Ok::<ModeView, Seq<char>>(given_after(settings).modes[i]),
    decreases settings.len(),
{
    if settings.len() > 0 {
        let front = settings.drop_last();
        assert(modes_are_good(front)) by {
            assert forall|i: int| 0 <= i < front.len() implies match #[trigger] front[i] {
                Setting::Mode(text) => mode_of(text) is Ok,
                _ => true,
            } by {
                assert(front[i] == settings[i]);
            }
        }
        lemma_given_modes(front);
        assert(settings[settings.len() - 1] == settings.last());
    }
}

proof fn lemma_given_name(settings: Seq<Setting>)
    ensures
        (forall|i: int| 0 <= i < settings.len() ==> !((#[trigger] settings[i]) is Name))
            ==> given_after(settings).name == "redcam"@,
        forall|i: int|
            0 <= i < settings.len() && (#[trigger] settings[i]) is Name && (forall|j: int|
                i < j < settings.len() ==> !((#[trigger] settings[j]) is Name)) ==> settings[i]
                == Setting::Name(given_after(settings).name),
    decreases settings.len(),
{
    if settings.len() > 0 {
        let front = settings.drop_last();
        lemma_given_name(front);
        assert(settings[settings.len() - 1] == settings.last());
        if forall|i: int| 0 <= i < settings.len() ==> !((#[trigger] settings[i]) is Name) {
            assert forall|i: int| 0 <= i < front.len() implies !((#[trigger] front[i]) is Name) by {
                assert(front[i] == settings[i]);
            }
        }
        assert forall|i: int|
            0 <= i < settings.len() && (#[trigger] settings[i]) is Name && (forall|j: int|
                i < j < settings.len() ==> !((#[trigger] settings[j]) is Name)) implies settings[i]
            == Setting::Name(given_after(settings).name) by {
            if i < front.len() {
                assert(front[i] == settings[i]);
                assert(!(settings[settings.len() - 1] is Name));
                assert forall|j: int| i < j < front.len() implies !((#[trigger] front[j])
                    is Name) by {
                    assert(front[j] == settings[j]);
                }
            }
        }
    }
}

/// Everything that is set on the command line is taken: each mode, in order and however many
/// there are, and of the names the last one. Without a mode there is the one of 1920x1080 at 30
/// fps in every format, and without a name it is `redcam`.
pub proof fn law_every_setting_is_taken(settings: Seq<Setting>)
    requires
        modes_are_good(settings),
    ensures
        match config_of(spelled(settings)) {
            Ok(config) => {
                &&& mode_texts(settings).len() > 0 ==> config.modes.len() == mode_texts(
                    settings,
                ).len()
                &&& forall|i: int|
                    0 <= i < mode_texts(settings).len() ==> mode_of(
                        #[trigger] mode_texts(settings)[i],
                    ) == Ok::<ModeView, Seq<char>>(config.modes[i])
                &&& mode_texts(settings).len() == 0 ==> config.modes.len() == 1
                    && config.modes[0].width == 1920 && config.modes[0].height == 1080
                    && config.modes[0].fps == seq![30u32] && config.modes[0].formats
                    == all_formats()
                &&& (forall|i: int| 0 <= i < settings.len() ==> !((#[trigger] settings[i]) is Name))
                    ==> config.name == "redcam"@
                &&& forall|i: int|
                    0 <= i < settings.len() && (#[trigger] settings[i]) is Name && (forall|j: int|
                        i < j < settings.len() ==> !((#[trigger] settings[j]) is Name))
                        ==> settings[i] == Setting::Name(config.name)
                &&& config.media_name == "Red Virtual Camera"@
                &&& config.max_buffers == 4
            },
            Err(_) => false,
        },
{
    lemma_settings_are_given(settings, Seq::empty());
    assert(spelled(settings) + Seq::<Seq<char>>::empty() == spelled(settings));
    lemma_given_modes(settings);
    lemma_given_name(settings);
}

/// The first argument that is not understood is reported, whatever follows it: one that there is
/// not, a flag without its value, or a mode that is none.
pub proof fn law_first_bad_argument_is_reported(
    settings: Seq<Setting>,
    argument: Seq<char>,
    rest: Seq<Seq<char>>,
)
    requires
        modes_are_good(settings),
    ensures
        argument != "--name"@ && argument != "--mode"@ ==> config_of(
            spelled(settings) + (seq![argument] + rest),
        ) == Err::<ConfigView, ArgErrorView>(ArgErrorView::Unknown(argument)),
        config_of(spelled(settings) + seq!["--name"@]) == Err::<ConfigView, ArgErrorView>(
            ArgErrorView::MissingValue("--name"@),
        ),
        config_of(spelled(settings) + seq!["--mode"@]) == Err::<ConfigView, ArgErrorView>(
            ArgErrorView::MissingValue("--mode"@),
        ),
        match mode_of(argument) {
            Err(message) => config_of(spelled(settings) + (seq!["--mode"@, argument] + rest))
                == Err::<ConfigView, ArgErrorView>(ArgErrorView::BadMode(message)),
            Ok(_) => true,
        },
{
    lemma_flags_differ();
    let i = spelled(settings).len() as int;
    lemma_settings_are_given(settings, seq![argument] + rest);
    lemma_settings_are_given(settings, seq!["--name"@]);
    lemma_settings_are_given(settings, seq!["--mode"@]);
    lemma_settings_are_given(settings, seq!["--mode"@, argument] + rest);
    assert((spelled(settings) + (seq![argument] + rest))[i] == argument);
    assert((spelled(settings) + seq!["--name"@])[i] == "--name"@);
    assert((spelled(settings) + seq!["--mode"@])[i] == "--mode"@);
    let bad = spelled(settings) + (seq!["--mode"@, argument] + rest);
    assert(bad[i] == "--mode"@);
    assert(bad[i + 1] == argument);
}

/// Arguments and their errors are seen as they are.
pub proof fn law_arguments_are_seen_whole(args: Seq<String>, error: ArgError)
    ensures
        argument_views(args).len() == args.len(),
        forall|i: int| 0 <= i < args.len() ==> #[trigger] argument_views(args)[i] == args[i]@,
        match error {
            ArgError::MissingValue(flag) => error@ == ArgErrorView::MissingValue(flag@),
            ArgError::BadMode(message) => error@ == ArgErrorView::BadMode(message@),
            ArgError::Unknown(argument) => error@ == ArgErrorView::Unknown(argument@),
        },
{
}

/// The last line for a state names it, and gives the message where there was an error; the only
/// other line is the node id, before a pause, while it has not been printed.
pub proof fn law_state_is_named(state: State, node_printed: bool)
    ensures
        ({
            let text = state_text(state, node_printed);
            &&& text.len() == if state is Paused && !node_printed {
                2
            } else {
                1int
            }
            &&& match state {
                State::Disconnected { error: Some(message) } => {
                    let head = "stream state: \"error\" "@;
                    &&& text.last().len() == head.len() + message@.len()
                    &&& text.last().take(head.len() as int) == head
                    &&& text.last().skip(head.len() as int) == message@
                },
                State::Disconnected { error: None } => text.last()
                    == "stream state: \"unconnected\""@,
                State::Paused { node_id } => {
                    let head = "node id: "@;
                    &&& text.last() == "stream state: \"paused\""@
                    &&& !node_printed ==> text[0].take(head.len() as int) == head && u32_of(
                        text[0].skip(head.len() as int),
                    ) == Some(node_id)
                },
                State::Streaming { .. } => text.last() == "stream state: \"streaming\""@,
            }
        }),
        printed_after(state, node_printed) <==> node_printed || state is Paused,
{
    match state {
        State::Disconnected { error: Some(message) } => {
            let head = "stream state: \"error\" "@;
            assert((head + message@).take(head.len() as int) == head);
            assert((head + message@).skip(head.len() as int) == message@);
        },
        State::Paused { node_id } => {
            let head = "node id: "@;
            let digits = decimal(node_id as nat);
            crate::text::law_u32_read_back(node_id);
            assert((head + digits).take(head.len() as int) == head);
            assert((head + digits).skip(head.len() as int) == digits);
        },
        _ => {},
    }
}

/// The line for a negotiation holds its numbers, each of them as a text that reads back as it.
pub proof fn law_negotiated_line_reads_back(n: Negotiated)
    ensures
        exists|id: Seq<char>, w: Seq<char>, h: Seq<char>, a: Seq<char>, b: Seq<char>, s: Seq<char>|
            {
                &&& #[trigger] negotiated_shape(id, w, h, a, b, s) == negotiated_text(n)
                &&& u32_of(id) == Some(n.format.id())
                &&& u32_of(w) == Some(n.width)
                &&& u32_of(h) == Some(n.height)
                &&& u32_of(a) == Some(n.fps_num)
                &&& u32_of(b) == Some(n.fps_denom)
                &&& u32_of(s) == Some(n.stride)
            },
{
    crate::text::law_u32_read_back(n.format.id());
    crate::text::law_u32_read_back(n.width);
    crate::text::law_u32_read_back(n.height);
    crate::text::law_u32_read_back(n.fps_num);
    crate::text::law_u32_read_back(n.fps_denom);
    crate::text::law_u32_read_back(n.stride);
    assert(negotiated_shape(
        decimal(n.format.id() as nat),
        decimal(n.width as nat),
        decimal(n.height as nat),
        decimal(n.fps_num as nat),
        decimal(n.fps_denom as nat),
        decimal(n.stride as nat),
    ) == negotiated_text(n));
}

/// The line for a negotiation with these texts for its numbers.
pub open spec fn negotiated_shape(
    id: Seq<char>,
    w: Seq<char>,
    h: Seq<char>,
    a: Seq<char>,
    b: Seq<char>,
    s: Seq<char>,
) -> Seq<char> {
    "negotiated: format="@ + id + " "@ + w + "x"@ + h + "@"@ + a + "/"@ + b + " stride="@ + s
}

/// A line for an error starts with the program's name and holds what the error is about.
pub proof fn law_argument_error_is_told(error: ArgErrorView, literal: Seq<char>)
    ensures
        match error {
            ArgErrorView::MissingValue(flag) => arg_error_text(error) == ("redcam: "@ + flag)
                + " needs a value"@,
            ArgErrorView::BadMode(message) => arg_error_text(error) == "redcam: "@ + message,
            ArgErrorView::Unknown(argument) => arg_error_text(error)
                == "redcam: unknown argument "@ + quoted_text(argument),
        },
        unknown_argument_text(literal) == "redcam: unknown argument "@ + literal,
{
}

} // verus!
