use xremap::config::{Config, KeyAction, Remap, WindowConfig};

fn remap(from: &str, to: &str) -> Remap {
    Remap { from: from.to_string(), to: KeyAction::Single(to.to_string()) }
}

fn rule(only: Option<&[&str]>, not: Option<&[&str]>, remaps: Vec<Remap>) -> WindowConfig {
    WindowConfig {
        class_only: only.map(|l| l.iter().map(|s| s.to_string()).collect()),
        class_not: not.map(|l| l.iter().map(|s| s.to_string()).collect()),
        remaps,
    }
}

fn empty_config() -> Config {
    Config { windows: Vec::new() }
}

#[test]
fn class_only_matches_case_insensitive_substring() {
    let r = rule(Some(&["chromium"]), None, vec![]);
    assert!(empty_config().matches_window(&r, Some("Chromium-Browser")));
}

#[test]
fn class_only_rejects_other_class() {
    let r = rule(Some(&["chromium"]), None, vec![]);
    assert!(!empty_config().matches_window(&r, Some("firefox")));
}

#[test]
fn class_only_rejects_unknown_class() {
    let r = rule(Some(&["chromium"]), None, vec![]);
    assert!(!empty_config().matches_window(&r, None));
}

#[test]
fn pattern_is_lowercased_too() {
    let r = rule(Some(&["ChroMium"]), None, vec![]);
    assert!(empty_config().matches_window(&r, Some("chromium")));
    let r = rule(None, Some(&["TERM"]), vec![]);
    assert!(!empty_config().matches_window(&r, Some("xterm")));
}

#[test]
fn class_not_applies_to_unknown_class() {
    let r = rule(None, Some(&["terminal"]), vec![]);
    assert!(empty_config().matches_window(&r, None));
    let both = rule(Some(&["chromium"]), Some(&["terminal"]), vec![]);
    assert!(empty_config().matches_window(&both, None));
}

#[test]
fn class_not_excludes_matching_class() {
    let r = rule(None, Some(&["terminal", "xterm"]), vec![]);
    assert!(!empty_config().matches_window(&r, Some("Gnome-Terminal")));
    assert!(!empty_config().matches_window(&r, Some("XTerm")));
    assert!(empty_config().matches_window(&r, Some("firefox")));
}

#[test]
fn no_filter_always_applies() {
    let r = rule(None, None, vec![]);
    assert!(empty_config().matches_window(&r, None));
    assert!(empty_config().matches_window(&r, Some("anything")));
}

#[test]
fn class_only_wins_over_class_not() {
    let r = rule(Some(&["term"]), Some(&["xterm"]), vec![]);
    assert!(empty_config().matches_window(&r, Some("xterm")));
    assert!(!empty_config().matches_window(&r, Some("firefox")));
}

#[test]
fn empty_pattern_occurs_in_every_class() {
    let r = rule(Some(&[""]), None, vec![]);
    assert!(empty_config().matches_window(&r, Some("firefox")));
    let none = rule(Some(&[]), None, vec![]);
    assert!(!empty_config().matches_window(&none, Some("firefox")));
}

#[test]
fn remaps_concatenate_in_rule_order() {
    let config = Config {
        windows: vec![
            rule(None, None, vec![remap("C-b", "Left"), remap("C-f", "Right")]),
            rule(Some(&["firefox"]), None, vec![remap("C-n", "Down")]),
            rule(None, Some(&["firefox"]), vec![remap("C-p", "Up")]),
            rule(Some(&["fire"]), None, vec![remap("C-b", "Home"), remap("C-a", "End")]),
        ],
    };
    let got = config.remaps_for_window(Some("Firefox"));
    assert_eq!(
        got,
        vec![
            remap("C-b", "Left"),
            remap("C-f", "Right"),
            remap("C-n", "Down"),
            remap("C-b", "Home"),
            remap("C-a", "End"),
        ]
    );
    let unknown = config.remaps_for_window(None);
    assert_eq!(unknown, vec![remap("C-b", "Left"), remap("C-f", "Right"), remap("C-p", "Up")]);
}

#[test]
fn remaps_of_no_rules_are_empty() {
    assert!(empty_config().remaps_for_window(Some("x")).is_empty());
    assert!(empty_config().remaps_for_window(None).is_empty());
}

#[test]
fn clone_keeps_a_sequence_action() {
    let r = Remap {
        from: "C-k".to_string(),
        to: KeyAction::Multiple(vec!["Shift-End".to_string(), "Delete".to_string()]),
    };
    assert_eq!(r.clone(), r);
}
