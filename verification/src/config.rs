use vstd::prelude::*;

use crate::text::{
    ascii_lowercase, is_ascii_text, lowercase, parse_usize, text_equals, to_lowercase,
    usize_of_text,
};

verus! {

/// The bit pattern of the `f64` value `1.0`, the brightness used when no
/// `--brightness` value is given.
pub const DEFAULT_BRIGHTNESS_BITS: u64 = 0x3FF0_0000_0000_0000;

/// The width, in pixels, when no `--width` value is given.
pub const DEFAULT_WIDTH: usize = 800;

/// The height, in pixels, when no `--height` value is given.
pub const DEFAULT_HEIGHT: usize = 600;

/// One command-line argument: its text and, where the text reads as an `f64`,
/// the bit pattern of that value.
pub struct Arg {
    pub text: String,
    pub float_bits: Option<u64>,
}

/// The render settings.
#[derive(Clone)]
pub struct Config {
    pub width: usize,
    pub height: usize,
    pub scene: String,
    /// The bit pattern of the `f64` light brightness.
    pub brightness_bits: u64,
}

/// The mathematical model of a `Config`.
pub struct ConfigModel {
    pub width: usize,
    pub height: usize,
    pub scene: Seq<char>,
    pub brightness_bits: u64,
}

impl View for Config {
    type V = ConfigModel;

    open spec fn view(&self) -> ConfigModel {
        ConfigModel {
            width: self.width,
            height: self.height,
            scene: self.scene@,
            brightness_bits: self.brightness_bits,
        }
    }
}

/// What the command line asks for.
pub enum CliAction {
    /// Render with these settings.
    Render(Config),
    /// Show the usage text and stop.
    Help,
}

/// The kinds of argument that the command line knows.
#[derive(PartialEq, Eq, Structural, Clone, Copy)]
pub enum Flag {
    Width,
    Height,
    Scene,
    Brightness,
    Help,
    Other,
}

/// The kind of the argument with text `s`.
pub open spec fn flag_of(s: Seq<char>) -> Flag {
    if s == "--width"@ {
        Flag::Width
    } else if s == "--height"@ {
        Flag::Height
    } else if s == "--scene"@ {
        Flag::Scene
    } else if s == "--brightness"@ {
        Flag::Brightness
    } else if s == "--help"@ || s == "-h"@ {
        Flag::Help
    } else {
        Flag::Other
    }
}

/// The settings before any argument is read.
pub open spec fn default_model() -> ConfigModel {
    ConfigModel {
        width: DEFAULT_WIDTH,
        height: DEFAULT_HEIGHT,
        scene: "sphere"@,
        brightness_bits: DEFAULT_BRIGHTNESS_BITS,
    }
}

/// The scene name that the text `s` gives: its lowercase form, which for
/// ASCII text is `s` with `A` to `Z` made `a` to `z`.
pub open spec fn scene_name(s: Seq<char>) -> Seq<char> {
    if is_ascii_text(s) {
        ascii_lowercase(s)
    } else {
        lowercase(s)
    }
}

/// The settings after flag `f` is given the value `value`: a width or height
/// that does not read as a `usize`, or a brightness that does not read as an
/// `f64`, leaves the settings as they were; a scene name is lowercased.
pub open spec fn apply_flag(f: Flag, value: Arg, cfg: ConfigModel) -> ConfigModel {
    match f {
        Flag::Width => match usize_of_text(value.text@) {
            Some(w) => ConfigModel { width: w, ..cfg },
            None => cfg,
        },
        Flag::Height => match usize_of_text(value.text@) {
            Some(h) => ConfigModel { height: h, ..cfg },
            None => cfg,
        },
        Flag::Scene => ConfigModel { scene: scene_name(value.text@), ..cfg },
        Flag::Brightness => match value.float_bits {
            Some(b) => ConfigModel { brightness_bits: b, ..cfg },
            None => cfg,
        },
        _ => cfg,
    }
}

/// Reads `args` from position `i` on, starting from the settings `cfg`.
/// A flag that takes a value consumes the argument after it; a flag at the
/// very end has no value and is ignored; an unknown argument is skipped; a
/// help flag ends the reading with `None`.
pub open spec fn read_args(args: Seq<Arg>, i: nat, cfg: ConfigModel) -> Option<ConfigModel>
    decreases args.len() - i,
{
    if i >= args.len() {
        Some(cfg)
    } else {
        let f = flag_of(args[i as int].text@);
        if f == Flag::Help {
            None
        } else if f == Flag::Other {
            read_args(args, i + 1, cfg)
        } else if i + 1 < args.len() {
            read_args(args, i + 2, apply_flag(f, args[i + 1 as int], cfg))
        } else {
            Some(cfg)
        }
    }
}

/// Reading `args` from position `i` on never meets a value flag at the very
/// end, so every value it takes comes from `args` itself.
pub open spec fn reads_through(args: Seq<Arg>, i: nat) -> bool
    decreases args.len() - i,
{
    if i >= args.len() {
        true
    } else {
        let f = flag_of(args[i as int].text@);
        if f == Flag::Help {
            true
        } else if f == Flag::Other {
            reads_through(args, i + 1)
        } else if i + 1 < args.len() {
            reads_through(args, i + 2)
        } else {
            false
        }
    }
}

/// The settings that reading `rest` leaves, after `first` was read into
/// `outcome` (help stays help).
pub open spec fn then_read(outcome: Option<ConfigModel>, rest: Seq<Arg>) -> Option<ConfigModel> {
    match outcome {
        Some(c) => read_args(rest, 0, c),
        None => None,
    }
}

/// Reading past the end of `a` in `a + b` is reading `b`.
proof fn lemma_read_in_suffix(a: Seq<Arg>, b: Seq<Arg>, j: nat, cfg: ConfigModel)
    ensures
        read_args(a + b, a.len() + j, cfg) == read_args(b, j, cfg),
    decreases b.len() - j,
{
    let ab = a + b;
    if j < b.len() {
        assert(ab[(a.len() + j) as int] == b[j as int]);
        let f = flag_of(b[j as int].text@);
        if f == Flag::Other {
            lemma_read_in_suffix(a, b, j + 1, cfg);
            assert(a.len() + j + 1 == a.len() + (j + 1));
        } else if f != Flag::Help && j + 1 < b.len() {
            assert(ab[(a.len() + j + 1) as int] == b[j + 1 as int]);
            lemma_read_in_suffix(a, b, j + 2, apply_flag(f, b[j + 1 as int], cfg));
            assert(a.len() + j + 2 == a.len() + (j + 2));
        }
    }
}

/// Arguments are read from left to right: reading `a` followed by `b` is
/// reading `b` from the settings that reading `a` leaves, provided no value
/// flag stands last in `a` waiting for its value. So a later setting
/// overrides an earlier one, and a help flag in `a` asks for help whatever
/// follows.
pub proof fn lemma_read_concat(a: Seq<Arg>, b: Seq<Arg>, i: nat, cfg: ConfigModel)
    requires
        i <= a.len(),
        reads_through(a, i),
    ensures
        read_args(a + b, i, cfg) == then_read(read_args(a, i, cfg), b),
    decreases a.len() - i,
{
    let ab = a + b;
    if i == a.len() {
        lemma_read_in_suffix(a, b, 0, cfg);
        assert(a.len() + 0nat == i);
    } else {
        assert(ab[i as int] == a[i as int]);
        let f = flag_of(a[i as int].text@);
        if f == Flag::Other {
            lemma_read_concat(a, b, i + 1, cfg);
        } else if f != Flag::Help {
            assert(ab[i + 1 as int] == a[i + 1 as int]);
            lemma_read_concat(a, b, i + 2, apply_flag(f, a[i + 1 as int], cfg));
        }
    }
}

/// A `--width` with a valid number, given last, sets the width to that number
/// and leaves the rest of what the earlier arguments set.
pub proof fn lemma_last_width_wins(a: Seq<Arg>, flag: Arg, value: Arg, cfg: ConfigModel)
    requires
        reads_through(a, 0),
        flag.text@ == "--width"@,
        usize_of_text(value.text@) is Some,
    ensures
        read_args(a + seq![flag, value], 0, cfg) == match read_args(a, 0, cfg) {
            Some(c) => Some(ConfigModel { width: usize_of_text(value.text@)->0, ..c }),
            None => None,
        },
{
    let tail = seq![flag, value];
    lemma_read_concat(a, tail, 0, cfg);
    match read_args(a, 0, cfg) {
        Some(c) => {
            assert(flag_of(tail[0].text@) == Flag::Width);
            let after = apply_flag(Flag::Width, tail[1], c);
            assert(read_args(tail, 2, after) == Some(after));
        },
        None => {},
    }
}

/// Reading no arguments leaves the settings as they are.
pub proof fn lemma_no_arguments(cfg: ConfigModel)
    ensures
        read_args(Seq::<Arg>::empty(), 0, cfg) == Some(cfg),
{
}

/// An unknown argument in front changes nothing: the rest is read as if it
/// were not there.
pub proof fn lemma_unknown_argument_skipped(x: Arg, rest: Seq<Arg>, cfg: ConfigModel)
    requires
        flag_of(x.text@) == Flag::Other,
    ensures
        read_args(seq![x] + rest, 0, cfg) == read_args(rest, 0, cfg),
{
    let a = seq![x];
    assert((a + rest)[0] == x);
    lemma_read_in_suffix(a, rest, 0, cfg);
    assert(a.len() + 0nat == 1nat);
}

/// A help flag in front asks for help, whatever follows.
pub proof fn lemma_help_first(h: Arg, rest: Seq<Arg>, cfg: ConfigModel)
    requires
        flag_of(h.text@) == Flag::Help,
    ensures
        read_args(seq![h] + rest, 0, cfg) is None,
{
    assert((seq![h] + rest)[0] == h);
}

/// A value flag in front takes the argument after it as its value, and the
/// rest is read from the settings that it leaves.
pub proof fn lemma_flag_takes_next_argument(
    flag: Arg,
    value: Arg,
    rest: Seq<Arg>,
    cfg: ConfigModel,
)
    requires
        flag_of(flag.text@) != Flag::Help,
        flag_of(flag.text@) != Flag::Other,
    ensures
        read_args(seq![flag, value] + rest, 0, cfg) == read_args(
            rest,
            0,
            apply_flag(flag_of(flag.text@), value, cfg),
        ),
{
    let a = seq![flag, value];
    assert((a + rest)[0] == flag);
    assert((a + rest)[1] == value);
    lemma_read_in_suffix(a, rest, 0, apply_flag(flag_of(flag.text@), value, cfg));
    assert(a.len() + 0nat == 2nat);
}

/// A value flag given last without its value is ignored.
pub proof fn lemma_flag_without_value_ignored(a: Seq<Arg>, flag: Arg, cfg: ConfigModel)
    requires
        reads_through(a, 0),
        flag_of(flag.text@) != Flag::Help,
        flag_of(flag.text@) != Flag::Other,
    ensures
        read_args(a + seq![flag], 0, cfg) == read_args(a, 0, cfg),
{
    lemma_read_concat(a, seq![flag], 0, cfg);
}

/// What each flag does to each setting: `--width` and `--height` set their
/// setting to any number that their value reads as, and leave it otherwise;
/// `--scene` sets the scene name; `--brightness` sets the brightness to any
/// `f64` that its value reads as, and leaves it otherwise. No flag touches
/// another flag's setting.
pub proof fn lemma_flag_effects(f: Flag, value: Arg, cfg: ConfigModel)
    ensures
        apply_flag(f, value, cfg).width == match (f, usize_of_text(value.text@)) {
            (Flag::Width, Some(w)) => w,
            _ => cfg.width,
        },
        apply_flag(f, value, cfg).height == match (f, usize_of_text(value.text@)) {
            (Flag::Height, Some(h)) => h,
            _ => cfg.height,
        },
        apply_flag(f, value, cfg).scene == if f == Flag::Scene {
            scene_name(value.text@)
        } else {
            cfg.scene
        },
        apply_flag(f, value, cfg).brightness_bits == match (f, value.float_bits) {
            (Flag::Brightness, Some(b)) => b,
            _ => cfg.brightness_bits,
        },
{
}

/// A value flag given last, with its value, acts on the settings that the
/// earlier arguments left, provided none of them asked for help.
pub proof fn lemma_last_flag_acts_last(a: Seq<Arg>, flag: Arg, value: Arg, cfg: ConfigModel)
    requires
        reads_through(a, 0),
        flag_of(flag.text@) != Flag::Help,
        flag_of(flag.text@) != Flag::Other,
    ensures
        read_args(a + seq![flag, value], 0, cfg) == match read_args(a, 0, cfg) {
            Some(c) => Some(apply_flag(flag_of(flag.text@), value, c)),
            None => None,
        },
{
    let tail = seq![flag, value];
    lemma_read_concat(a, tail, 0, cfg);
    if let Some(c) = read_args(a, 0, cfg) {
        let after = apply_flag(flag_of(flag.text@), tail[1], c);
        assert(read_args(tail, 2, after) == Some(after));
    }
}

/// A `--height` with a valid number, given last, sets the height to that
/// number, whatever the width or anything else, and leaves the rest of what
/// the earlier arguments set.
pub proof fn lemma_last_height_wins(a: Seq<Arg>, flag: Arg, value: Arg, cfg: ConfigModel)
    requires
        reads_through(a, 0),
        flag.text@ == "--height"@,
        usize_of_text(value.text@) is Some,
    ensures
        read_args(a + seq![flag, value], 0, cfg) == match read_args(a, 0, cfg) {
            Some(c) => Some(ConfigModel { height: usize_of_text(value.text@)->0, ..c }),
            None => None,
        },
{
    assert(flag_of(flag.text@) == Flag::Height) by {
        reveal_strlit("--height");
        reveal_strlit("--width");
        assert("--height"@.len() == 8);
        assert("--width"@.len() == 7);
    }
    lemma_last_flag_acts_last(a, flag, value, cfg);
    if let Some(c) = read_args(a, 0, cfg) {
        lemma_flag_effects(Flag::Height, value, c);
    }
}

/// A `--brightness` whose value reads as an `f64`, given last, sets the
/// brightness to that value and leaves the rest of what the earlier arguments
/// set.
pub proof fn lemma_last_brightness_wins(a: Seq<Arg>, flag: Arg, value: Arg, cfg: ConfigModel)
    requires
        reads_through(a, 0),
        flag.text@ == "--brightness"@,
        value.float_bits is Some,
    ensures
        read_args(a + seq![flag, value], 0, cfg) == match read_args(a, 0, cfg) {
            Some(c) => Some(ConfigModel { brightness_bits: value.float_bits->0, ..c }),
            None => None,
        },
{
    assert(flag_of(flag.text@) == Flag::Brightness) by {
        reveal_strlit("--brightness");
        reveal_strlit("--width");
        reveal_strlit("--height");
        reveal_strlit("--scene");
        assert("--brightness"@.len() == 12);
        assert("--width"@.len() == 7);
        assert("--height"@.len() == 8);
        assert("--scene"@.len() == 7);
    }
    lemma_last_flag_acts_last(a, flag, value, cfg);
    if let Some(c) = read_args(a, 0, cfg) {
        lemma_flag_effects(Flag::Brightness, value, c);
    }
}

/// A `--scene` given last sets the scene name to its value, lowercased, and
/// leaves the rest of what the earlier arguments set.
pub proof fn lemma_last_scene_wins(a: Seq<Arg>, flag: Arg, value: Arg, cfg: ConfigModel)
    requires
        reads_through(a, 0),
        flag.text@ == "--scene"@,
    ensures
        read_args(a + seq![flag, value], 0, cfg) == match read_args(a, 0, cfg) {
            Some(c) => Some(ConfigModel { scene: scene_name(value.text@), ..c }),
            None => None,
        },
{
    assert(flag_of(flag.text@) == Flag::Scene) by {
        reveal_strlit("--scene");
        reveal_strlit("--width");
        reveal_strlit("--height");
        assert("--scene"@[2] != "--width"@[2]);
        assert("--scene"@[2] != "--height"@[2]);
    }
    lemma_last_flag_acts_last(a, flag, value, cfg);
    if let Some(c) = read_args(a, 0, cfg) {
        lemma_flag_effects(Flag::Scene, value, c);
    }
}

/// The kind of the argument with text `s`.
pub fn classify(s: &str) -> (f: Flag)
    ensures
        f == flag_of(s@),
{
    if text_equals(s, "--width") {
        Flag::Width
    } else if text_equals(s, "--height") {
        Flag::Height
    } else if text_equals(s, "--scene") {
        Flag::Scene
    } else if text_equals(s, "--brightness") {
        Flag::Brightness
    } else if text_equals(s, "--help") || text_equals(s, "-h") {
        Flag::Help
    } else {
        Flag::Other
    }
}

impl Config {
    /// The settings before any argument is read: 800 by 600 pixels, the
    /// `sphere` scene and brightness 1.0.
    pub fn new() -> (c: Config)
        ensures
            c@ == default_model(),
    {
        Config {
            width: DEFAULT_WIDTH,
            height: DEFAULT_HEIGHT,
            scene: String::from_str("sphere"),
            brightness_bits: DEFAULT_BRIGHTNESS_BITS,
        }
    }

    /// Gives flag `f` the value `value`.
    pub fn apply(&mut self, f: Flag, value: &Arg)
        ensures
            final(self)@ == apply_flag(f, *value, old(self)@),
    {
        match f {
            Flag::Width => {
                if let Some(w) = parse_usize(value.text.as_str()) {
                    self.width = w;
                }
            },
            Flag::Height => {
                if let Some(h) = parse_usize(value.text.as_str()) {
                    self.height = h;
                }
            },
            Flag::Scene => {
                self.scene = to_lowercase(value.text.as_str());
            },
            Flag::Brightness => {
                if let Some(b) = value.float_bits {
                    self.brightness_bits = b;
                }
            },
            _ => {},
        }
    }

    /// Reads the command-line arguments (the program name left out).
    /// `--width N`, `--height N`, `--scene NAME` and `--brightness F` set the
    /// settings, the last valid value winning; `--help` or `-h` asks for the
    /// usage text; anything else is skipped.
    pub fn from_args(args: Vec<Arg>) -> (r: CliAction)
        ensures
            match r {
                CliAction::Render(c) => read_args(args@, 0, default_model()) == Some(c@),
                CliAction::Help => read_args(args@, 0, default_model()) is None,
            },
    {
        let mut config = Config::new();
        let n = args.len();
        let mut i: usize = 0;
        while i < n
            invariant
                n == args@.len(),
                i <= n,
                read_args(args@, 0, default_model()) == read_args(args@, i as nat, config@),
            decreases n - i,
        {
            let f = classify(args[i].text.as_str());
            match f {
                Flag::Help => {
                    return CliAction::Help;
                },
                Flag::Other => {
                    i = i + 1;
                },
                _ => {
                    if i + 1 < n {
                        config.apply(f, &args[i + 1]);
                        i = i + 2;
                    } else {
                        i = n;
                    }
                },
            }
        }
        CliAction::Render(config)
    }
}

} // verus!
