//! Profiles: power saving by default, and a profile for games.

use vstd::prelude::*;

use crate::text;

verus! {

/// The profile in use.
#[derive(Clone, Copy, Debug, PartialEq, Eq, Structural)]
pub enum Mode {
    /// Saves power and stays smooth.
    Power,
    /// Puts the frame rate first.
    Game,
}

/// The name of a profile.
pub open spec fn mode_name(mode: Mode) -> Seq<char> {
    match mode {
        Mode::Power => "power"@,
        Mode::Game => "game"@,
    }
}

impl Mode {
    /// The name of the profile.
    pub fn as_str(self) -> (r: &'static str)
        ensures
            r@ == mode_name(self),
    {
        match self {
            Mode::Power => "power",
            Mode::Game => "game",
        }
    }
}

/// What the user asks for: to follow the foreground application, or one profile.
#[derive(Clone, Copy, Debug, PartialEq, Eq, Structural)]
pub enum Override {
    Auto,
    Mode(Mode),
}

/// What a word in lower case asks for.
pub open spec fn word_override(word: Seq<char>) -> Option<Override> {
    if word.len() == 0 || word == "auto"@ {
        Some(Override::Auto)
    } else if word == "power"@ || word == "battery"@ || word == "eco"@ {
        Some(Override::Mode(Mode::Power))
    } else if word == "game"@ || word == "performance"@ || word == "gaming"@ {
        Some(Override::Mode(Mode::Game))
    } else {
        None
    }
}

/// What the content of the file for overrides asks for. Upper and lower case and
/// white space around it make no difference. A word that is not known asks for
/// nothing.
pub open spec fn spec_parse_override(content: Seq<char>) -> Option<Override> {
    word_override(text::ascii_lowercase(text::spec_trim(content)))
}

/// Reads the content of the file for overrides.
pub fn parse_override(content: &str) -> (r: Option<Override>)
    ensures
        r == spec_parse_override(content@),
{
    let word = text::trim(content);
    assert(text::ascii_lowercase(word@).len() == word@.len());
    if word.is_empty() || text::lowercase_is(word, "auto") {
        Some(Override::Auto)
    } else if text::lowercase_is(word, "power") || text::lowercase_is(word, "battery")
        || text::lowercase_is(word, "eco") {
        Some(Override::Mode(Mode::Power))
    } else if text::lowercase_is(word, "game") || text::lowercase_is(word, "performance")
        || text::lowercase_is(word, "gaming") {
        Some(Override::Mode(Mode::Game))
    } else {
        None
    }
}

/// The profile to use: the one asked for, or else the one for games exactly if a
/// game is in the foreground.
pub open spec fn decided_mode(override_mode: Option<Override>, game_foreground: bool) -> Mode {
    match override_mode {
        Some(Override::Mode(m)) => m,
        _ => if game_foreground {
            Mode::Game
        } else {
            Mode::Power
        },
    }
}

/// Decides on the profile to use.
pub fn decide_mode(override_mode: Option<Override>, game_foreground: bool) -> (r: Mode)
    ensures
        r == decided_mode(override_mode, game_foreground),
{
    match override_mode {
        Some(Override::Mode(m)) => m,
        _ => if game_foreground {
            Mode::Game
        } else {
            Mode::Power
        },
    }
}

/// What a user asks for by the name of a profile decides, whatever is in the
/// foreground.
pub proof fn law_profile_name_decides(mode: Mode, game_foreground: bool)
    ensures
        spec_parse_override(mode_name(mode)) == Some(Override::Mode(mode)),
        decided_mode(spec_parse_override(mode_name(mode)), game_foreground) == mode,
{
    reveal_strlit("power");
    reveal_strlit("game");
    reveal_strlit("auto");
    reveal_strlit("battery");
    reveal_strlit("eco");
    let name = mode_name(mode);
    text::lemma_trim_tight(name);
    assert(text::ascii_lowercase(name) =~= name);
    assert("game"@[0] != "auto"@[0]);
}

/// White space around an override makes no difference, nor does removing it.
pub proof fn law_override_space_is_irrelevant(
    left: Seq<char>,
    content: Seq<char>,
    right: Seq<char>,
)
    requires
        forall|k: int| 0 <= k < left.len() ==> text::is_white_space(#[trigger] left[k]),
        forall|k: int| 0 <= k < right.len() ==> text::is_white_space(#[trigger] right[k]),
    ensures
        spec_parse_override(left + content + right) == spec_parse_override(content),
        spec_parse_override(text::spec_trim(content)) == spec_parse_override(content),
{
    text::lemma_trim_of_padded(left, content, right);
    text::lemma_trim_edges(content);
    text::lemma_trim_tight(text::spec_trim(content));
}

/// The case of the ASCII letters of an override makes no difference: two contents that
/// are the same in lower case ask for the same, and so does a content in upper case.
pub proof fn law_override_case_is_irrelevant(a: Seq<char>, b: Seq<char>)
    ensures
        text::ascii_lowercase(a) == text::ascii_lowercase(b) ==> spec_parse_override(a)
            == spec_parse_override(b),
        spec_parse_override(text::ascii_uppercase(a)) == spec_parse_override(a),
        spec_parse_override(text::ascii_lowercase(a)) == spec_parse_override(a),
{
    text::lemma_trim_of_lower(a);
    text::lemma_trim_of_lower(b);
    text::lemma_lower_of_upper(a);
    text::lemma_trim_of_lower(text::ascii_uppercase(a));
    let low = text::ascii_lowercase(a);
    text::lemma_trim_of_lower(low);
    assert(text::ascii_lowercase(low) =~= low);
}

/// An override that is not known does what `auto` does.
pub proof fn law_unknown_override_is_auto(content: Seq<char>, game_foreground: bool)
    requires
        spec_parse_override(content) is None,
    ensures
        decided_mode(spec_parse_override(content), game_foreground) == decided_mode(
            Some(Override::Auto),
            game_foreground,
        ),
{
}

// ---------------------------------------------------------------------------
// Switching profiles
// ---------------------------------------------------------------------------
/// The configuration file of a profile.
pub fn profile_file<'a>(mode: Mode, config_file: &'a str, game_file: &'a str) -> (r: &'a str)
    ensures
        r@ == spec_profile_file(mode, config_file@, game_file@),
{
    match mode {
        Mode::Game => game_file,
        Mode::Power => config_file,
    }
}

/// The configuration file of a profile.
pub open spec fn spec_profile_file(
    mode: Mode,
    config_file: Seq<char>,
    game_file: Seq<char>,
) -> Seq<char> {
    match mode {
        Mode::Game => game_file,
        Mode::Power => config_file,
    }
}

/// The profile that the detector announces, if it is another than before.
pub fn detect_change(last: Mode, override_mode: Option<Override>, game_foreground: bool) -> (r:
    Option<Mode>)
    ensures
        r == if decided_mode(override_mode, game_foreground) == last {
            None
        } else {
            Some(decided_mode(override_mode, game_foreground))
        },
{
    let target = decide_mode(override_mode, game_foreground);
    if target == last {
        None
    } else {
        Some(target)
    }
}

/// Where the service stands: the profile in effect, and whether an announcement
/// waits to be acted on.
#[derive(Clone, Copy, Debug, PartialEq, Eq, Structural)]
pub struct ProfileState {
    pub effective: Mode,
    pub announced: bool,
}

/// The profile whose configuration is to be loaded to follow an announcement.
pub open spec fn wanted_profile(s: ProfileState, target: Mode) -> Option<Mode> {
    if s.announced && target != s.effective {
        Some(target)
    } else {
        None
    }
}

/// Finds the profile whose configuration is to be loaded. `target` is the profile
/// that was announced last.
pub fn plan_switch(s: ProfileState, target: Mode) -> (r: Option<Mode>)
    ensures
        r == wanted_profile(s, target),
{
    if s.announced && target != s.effective {
        Some(target)
    } else {
        None
    }
}

/// Where the service stands after it followed an announcement as far as it could.
/// A profile whose configuration cannot be loaded stays announced.
pub open spec fn switched(s: ProfileState, target: Mode, loaded: bool) -> ProfileState {
    if wanted_profile(s, target) is None {
        ProfileState { effective: s.effective, announced: false }
    } else if loaded {
        ProfileState { effective: target, announced: false }
    } else {
        ProfileState { effective: s.effective, announced: true }
    }
}

/// Follows an announcement. `loaded` is whether the configuration of the profile
/// that `plan_switch` wanted could be loaded.
pub fn finish_switch(s: ProfileState, target: Mode, loaded: bool) -> (r: ProfileState)
    ensures
        r == switched(s, target, loaded),
{
    match plan_switch(s, target) {
        None => ProfileState { effective: s.effective, announced: false },
        Some(_) => if loaded {
            ProfileState { effective: target, announced: false }
        } else {
            ProfileState { effective: s.effective, announced: true }
        },
    }
}

/// The least number of seconds between two reports that a switch failed.
pub const FAILURE_REPORT_SECS: u64 = 30;

/// Whether a failed switch is to be reported, so many seconds after the last report.
pub fn failure_report_due(elapsed: u64) -> (r: bool)
    ensures
        r == (elapsed >= FAILURE_REPORT_SECS),
{
    elapsed >= FAILURE_REPORT_SECS
}

/// Whether a switch to a profile renews the list of games: its file is the one that
/// lists them.
pub fn switch_renews_games(target: Mode) -> (r: bool)
    ensures
        r == (target == Mode::Game),
{
    target == Mode::Game
}

/// Whether the file for games, when it is loaded anew, replaces the configuration in
/// effect.
pub fn game_reload_takes_effect(effective: Mode) -> (r: bool)
    ensures
        r == (effective == Mode::Game),
{
    effective == Mode::Game
}

/// Whether a configuration comes from the file of a profile. `file` is where it comes
/// from, if there is one.
pub open spec fn fits_profile(
    mode: Mode,
    file: Option<Seq<char>>,
    config_file: Seq<char>,
    game_file: Seq<char>,
) -> bool {
    file == Some(spec_profile_file(mode, config_file, game_file))
}

/// Whether the configuration in effect comes from another file than that of the
/// profile in effect. `current_file` is where it comes from, if there is one.
pub fn needs_repair(
    effective: Mode,
    current_file: Option<&str>,
    config_file: &str,
    game_file: &str,
) -> (r: bool)
    ensures
        r == !fits_profile(
            effective,
            match current_file {
                Some(f) => Some(f@),
                None => None,
            },
            config_file@,
            game_file@,
        ),
{
    match current_file {
        Some(f) => !text::same(f, profile_file(effective, config_file, game_file)),
        None => true,
    }
}

/// Whichever profile a switch ends in, the configuration of that profile's file fits
/// it, and that of the other profile's file does not unless the files are the same.
pub proof fn law_configuration_follows_profile(
    s: ProfileState,
    target: Mode,
    loaded: bool,
    config_file: Seq<char>,
    game_file: Seq<char>,
)
    ensures
        ({
            let mode = switched(s, target, loaded).effective;
            let other = if mode == Mode::Game {
                config_file
            } else {
                game_file
            };
            &&& fits_profile(
                mode,
                Some(spec_profile_file(mode, config_file, game_file)),
                config_file,
                game_file,
            )
            &&& fits_profile(mode, Some(other), config_file, game_file) == (config_file
                == game_file)
            &&& !fits_profile(mode, None, config_file, game_file)
        }),
{
}

/// A switch ends in the announced profile, or it stays announced and is tried
/// again.
pub proof fn law_switch_is_not_forgotten(s: ProfileState, target: Mode, loaded: bool)
    requires
        s.announced,
    ensures
        switched(s, target, loaded).effective == target || wanted_profile(
            switched(s, target, loaded),
            target,
        ) == Some(target),
        loaded ==> switched(s, target, loaded).effective == target,
        !loaded ==> switched(s, target, loaded).effective == s.effective,
{
}

} // verus!
