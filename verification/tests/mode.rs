use threadopt::mode::{
    decide_mode, detect_change, failure_report_due, finish_switch, game_reload_takes_effect,
    needs_repair, parse_override, plan_switch, profile_file, switch_renews_games, Mode, Override, ProfileState,
};

#[test]
fn parse_override_auto_and_empty() {
    assert_eq!(parse_override(""), Some(Override::Auto));
    assert_eq!(parse_override("auto"), Some(Override::Auto));
    assert_eq!(parse_override("  AUTO \n"), Some(Override::Auto));
}

#[test]
fn parse_override_modes() {
    assert_eq!(parse_override("power"), Some(Override::Mode(Mode::Power)));
    assert_eq!(parse_override("battery"), Some(Override::Mode(Mode::Power)));
    assert_eq!(parse_override("game"), Some(Override::Mode(Mode::Game)));
    assert_eq!(
        parse_override("performance"),
        Some(Override::Mode(Mode::Game))
    );
}

#[test]
fn parse_override_unknown_is_none() {
    assert_eq!(parse_override("unknown"), None);
    assert_eq!(parse_override("42"), None);
}

#[test]
fn decide_override_wins() {
    assert_eq!(
        decide_mode(Some(Override::Mode(Mode::Power)), true),
        Mode::Power
    );
    assert_eq!(
        decide_mode(Some(Override::Mode(Mode::Game)), false),
        Mode::Game
    );
}

#[test]
fn decide_auto_follows_foreground() {
    assert_eq!(decide_mode(Some(Override::Auto), true), Mode::Game);
    assert_eq!(decide_mode(Some(Override::Auto), false), Mode::Power);
    assert_eq!(decide_mode(None, true), Mode::Game);
    assert_eq!(decide_mode(None, false), Mode::Power);
}

#[test]
fn remaining_override_words() {
    assert_eq!(parse_override("Eco"), Some(Override::Mode(Mode::Power)));
    assert_eq!(parse_override("GAMING\r\n"), Some(Override::Mode(Mode::Game)));
    assert_eq!(parse_override(" \t\n"), Some(Override::Auto));
    assert_eq!(parse_override("game power"), None);
    // Only the letters of ASCII are folded.
    assert_eq!(parse_override("ＧＡＭＥ"), None);
}

#[test]
fn profile_name_decides() {
    for mode in [Mode::Power, Mode::Game] {
        assert_eq!(parse_override(mode.as_str()), Some(Override::Mode(mode)));
        assert_eq!(decide_mode(parse_override(mode.as_str()), true), mode);
        assert_eq!(decide_mode(parse_override(mode.as_str()), false), mode);
    }
    assert_eq!(Mode::Power.as_str(), "power");
    assert_eq!(Mode::Game.as_str(), "game");
}

#[test]
fn unknown_override_is_auto() {
    for fg in [true, false] {
        assert_eq!(
            decide_mode(parse_override("turbo"), fg),
            decide_mode(Some(Override::Auto), fg)
        );
    }
}

#[test]
fn override_case_is_irrelevant() {
    assert_eq!(parse_override("\tPoWeR "), parse_override("power"));
    for word in ["", "auto", " Game ", "\neco", "gaming\r\n", "x y", "线"] {
        let asked = parse_override(word);
        assert_eq!(parse_override(&word.to_ascii_uppercase()), asked);
        assert_eq!(parse_override(&word.to_ascii_lowercase()), asked);
        assert_eq!(parse_override(word.trim()), asked);
        assert_eq!(parse_override(&format!(" \t{}\u{3000}\n", word)), asked);
    }
}

#[test]
fn detector_announces_changes_only() {
    assert_eq!(detect_change(Mode::Power, None, true), Some(Mode::Game));
    assert_eq!(detect_change(Mode::Game, None, true), None);
    assert_eq!(
        detect_change(Mode::Game, Some(Override::Mode(Mode::Power)), true),
        Some(Mode::Power)
    );
    assert_eq!(detect_change(Mode::Power, Some(Override::Auto), false), None);
}

#[test]
fn files_of_profiles() {
    assert_eq!(profile_file(Mode::Power, "a", "g"), "a");
    assert_eq!(profile_file(Mode::Game, "a", "g"), "g");
}

#[test]
fn switch_succeeds() {
    let s = ProfileState {
        effective: Mode::Power,
        announced: true,
    };
    assert_eq!(plan_switch(s, Mode::Game), Some(Mode::Game));
    assert_eq!(
        finish_switch(s, Mode::Game, true),
        ProfileState {
            effective: Mode::Game,
            announced: false
        }
    );
}

#[test]
fn failed_switch_is_tried_again() {
    let s = ProfileState {
        effective: Mode::Power,
        announced: true,
    };
    let t = finish_switch(s, Mode::Game, false);
    assert_eq!(t, s);
    assert_eq!(plan_switch(t, Mode::Game), Some(Mode::Game));
    assert_eq!(finish_switch(t, Mode::Game, true).effective, Mode::Game);
}

#[test]
fn nothing_to_switch() {
    let quiet = ProfileState {
        effective: Mode::Power,
        announced: false,
    };
    assert_eq!(plan_switch(quiet, Mode::Game), None);
    assert_eq!(finish_switch(quiet, Mode::Game, true), quiet);
    let same = ProfileState {
        effective: Mode::Game,
        announced: true,
    };
    assert_eq!(plan_switch(same, Mode::Game), None);
    assert_eq!(
        finish_switch(same, Mode::Game, false),
        ProfileState {
            effective: Mode::Game,
            announced: false
        }
    );
}

#[test]
fn repair_when_files_differ() {
    assert!(!needs_repair(Mode::Power, Some("a"), "a", "g"));
    assert!(needs_repair(Mode::Power, Some("g"), "a", "g"));
    assert!(!needs_repair(Mode::Game, Some("g"), "a", "g"));
    assert!(needs_repair(Mode::Game, Some("a"), "a", "g"));
    assert!(needs_repair(Mode::Power, None, "a", "g"));
}

#[test]
fn games_belong_to_the_game_profile() {
    assert!(switch_renews_games(Mode::Game));
    assert!(!switch_renews_games(Mode::Power));
    assert!(game_reload_takes_effect(Mode::Game));
    assert!(!game_reload_takes_effect(Mode::Power));
}

#[test]
fn failed_switches_are_reported_now_and_then() {
    assert!(!failure_report_due(0));
    assert!(!failure_report_due(29));
    assert!(failure_report_due(30));
    assert!(failure_report_due(31));
}
