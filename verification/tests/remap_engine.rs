use xremap::config::{Config, KeyAction, Remap, WindowConfig};
use xremap::event_handler::{EventHandler, Phase, SETTLE_MILLIS};
use xremap::key_mapper::KeyPress;
use xremap::server::{KeyEvent, KeyEventKind, PropertyKey, Reply, Request};

const ROOT: u64 = 1000;

fn single(from: &str, to: &str) -> Remap {
    Remap { from: from.to_string(), to: KeyAction::Single(to.to_string()) }
}

fn multiple(from: &str, to: &[&str]) -> Remap {
    Remap {
        from: from.to_string(),
        to: KeyAction::Multiple(to.iter().map(|s| s.to_string()).collect()),
    }
}

fn patterns(list: &[&str]) -> Option<Vec<String>> {
    Some(list.iter().map(|s| s.to_string()).collect())
}

fn rules() -> Config {
    Config {
        windows: vec![
            WindowConfig {
                class_only: None,
                class_not: None,
                remaps: vec![
                    single("C-b", "Left"),
                    single("C-", "x"),
                    single("C-f", "Right"),
                    single("Hyper-F5", "a"),
                ],
            },
            WindowConfig {
                class_only: patterns(&["firefox"]),
                class_not: None,
                remaps: vec![single("C-b", "Home"), multiple("M-Delete", &["Shift-End", "Delete"])],
            },
            WindowConfig {
                class_only: None,
                class_not: patterns(&["firefox"]),
                remaps: vec![single("C-n", "Down")],
            },
        ],
    }
}

fn keycode_of(symbol: u64) -> u8 {
    match symbol {
        0x62 => 56,
        0x66 => 41,
        0x6e => 57,
        0xffc2 => 71,
        0xffff => 119,
        0xff50 => 110,
        0xff51 => 113,
        0xff53 => 114,
        0xff54 => 116,
        0xff57 => 115,
        _ => 0,
    }
}

/// A display with the window `active` in the foreground, whose class property
/// holds `class`.
fn display(active: u64, class: &'static [u8]) -> impl Fn(Request) -> Reply {
    move |request| match request {
        Request::ActiveWindowProperty => Reply::Window(active),
        Request::InputFocus => Reply::Window(active),
        Request::Tree(_) => Reply::Tree { root: ROOT, parent: ROOT, children: vec![] },
        Request::TextProperty(window, PropertyKey::Class) if window == active && !class.is_empty() => {
            Reply::Text { encoding: 31, value: class.to_vec() }
        }
        Request::TextProperty(..) => Reply::Failed,
        Request::TextList(..) => Reply::Failed,
        Request::Keycode(symbol) => Reply::Keycode(keycode_of(symbol)),
        Request::UngrabAll | Request::Grab(_) | Request::Send(_) | Request::Settle(_) => Reply::Done,
    }
}

/// Carries every request out against the display until the engine is idle, and
/// gives back the requests in order.
fn run(
    handler: &mut EventHandler,
    first: Option<Request>,
    server: &dyn Fn(Request) -> Reply,
) -> Vec<Request> {
    let mut log = Vec::new();
    let mut request = first;
    while let Some(current) = request {
        log.push(current);
        request = handler.resume(server(current));
    }
    assert!(handler.is_idle());
    log
}

fn grab(keycode: u8, modifiers: u32) -> Request {
    Request::Grab(KeyPress { keycode, modifiers })
}

fn four_grabs(keycode: u8, modifiers: u32) -> Vec<Request> {
    vec![
        grab(keycode, modifiers),
        grab(keycode, modifiers | 0x10),
        grab(keycode, modifiers | 0x02),
        grab(keycode, modifiers | 0x10 | 0x02),
    ]
}

fn event(kind: KeyEventKind, window: u64, keycode: u8, state: u32) -> Request {
    Request::Send(KeyEvent {
        kind,
        window,
        subwindow: 0,
        time: 0,
        x: 1,
        y: 1,
        x_root: 1,
        y_root: 1,
        state,
        keycode,
        same_screen: true,
        propagate: true,
        event_mask: match kind {
            KeyEventKind::Press => 1,
            KeyEventKind::Release => 2,
        },
    })
}

fn key(keycode: u8, modifiers: u32) -> KeyPress {
    KeyPress { keycode, modifiers }
}

#[test]
fn new_engine_is_idle_and_empty() {
    let handler = EventHandler::new(ROOT, rules());
    assert!(handler.is_idle());
    assert_eq!(handler.phase(), Phase::Idle);
    assert_eq!(handler.target_window(), ROOT);
    assert!(handler.grabbed_keys().is_empty());
    assert_eq!(handler.handler(key(56, 4)), None);
}

#[test]
fn initialize_builds_table_and_grabs() {
    let mut handler = EventHandler::new(ROOT, rules());
    let server = display(100, b"firefox\0Firefox\0");
    let first = handler.initialize();
    assert_eq!(first, Some(Request::UngrabAll));
    assert_eq!(handler.phase(), Phase::Releasing);
    let log = run(&mut handler, first, &server);

    let mut expected = vec![
        Request::UngrabAll,
        Request::ActiveWindowProperty,
        Request::TextProperty(100, PropertyKey::Class),
        Request::Keycode(0x62),
        Request::Keycode(0x66),
        Request::Keycode(0xffc2),
        Request::Keycode(0x62),
        Request::Keycode(0xffff),
    ];
    expected.extend(four_grabs(56, 4));
    expected.extend(four_grabs(41, 4));
    expected.extend(four_grabs(71, 0));
    expected.extend(four_grabs(119, 8));
    assert_eq!(log, expected);

    assert_eq!(handler.target_window(), 100);
    assert_eq!(handler.grabbed_keys(), vec![key(56, 4), key(41, 4), key(71, 0), key(119, 8)]);
    assert_eq!(handler.handler(key(41, 4)), Some(KeyAction::Single("Right".to_string())));
    assert_eq!(handler.handler(key(71, 0)), Some(KeyAction::Single("a".to_string())));
    assert_eq!(
        handler.handler(key(119, 8)),
        Some(KeyAction::Multiple(vec!["Shift-End".to_string(), "Delete".to_string()]))
    );
    assert_eq!(handler.handler(key(57, 4)), None);
    assert_eq!(handler.handler(key(56, 0)), None);
}

#[test]
fn later_remap_of_the_same_key_wins() {
    let mut handler = EventHandler::new(ROOT, rules());
    let server = display(100, b"firefox");
    let first = handler.initialize();
    run(&mut handler, first, &server);
    assert_eq!(handler.handler(key(56, 4)), Some(KeyAction::Single("Home".to_string())));
    let grabbed = handler.grabbed_keys();
    assert_eq!(grabbed.iter().filter(|k| **k == key(56, 4)).count(), 1);
    assert_eq!(grabbed[0], key(56, 4));
}

#[test]
fn same_key_under_two_spellings_is_one_entry() {
    let config = Config {
        windows: vec![WindowConfig {
            class_only: None,
            class_not: None,
            remaps: vec![single("Ctrl-b", "Left"), single("C-f", "End"), single("C-b", "Right")],
        }],
    };
    let mut handler = EventHandler::new(ROOT, config);
    let server = display(100, b"x");
    let first = handler.initialize();
    run(&mut handler, first, &server);
    assert_eq!(handler.handler(key(56, 4)), Some(KeyAction::Single("Right".to_string())));
    assert_eq!(handler.grabbed_keys(), vec![key(56, 4), key(41, 4)]);
}

#[test]
fn malformed_remap_is_dropped_and_the_rest_registers() {
    let config = Config {
        windows: vec![WindowConfig {
            class_only: None,
            class_not: None,
            remaps: vec![single("C-", "Left"), single("C-b", "Left"), single("C-f", "Right")],
        }],
    };
    let mut handler = EventHandler::new(ROOT, config);
    let server = display(100, b"x");
    let first = handler.initialize();
    let log = run(&mut handler, first, &server);
    assert_eq!(log[3], Request::Keycode(0x62));
    assert_eq!(log[4], Request::Keycode(0x66));
    assert_eq!(log.len(), 5 + 8);
    assert_eq!(handler.grabbed_keys(), vec![key(56, 4), key(41, 4)]);
    assert_eq!(handler.handler(key(56, 4)), Some(KeyAction::Single("Left".to_string())));
    assert_eq!(handler.handler(key(41, 4)), Some(KeyAction::Single("Right".to_string())));
}

#[test]
fn key_without_keycode_is_not_registered() {
    let config = Config {
        windows: vec![WindowConfig {
            class_only: None,
            class_not: None,
            remaps: vec![single("C-q", "Left"), single("C-b", "Left")],
        }],
    };
    let mut handler = EventHandler::new(ROOT, config);
    let server = display(100, b"x");
    let first = handler.initialize();
    let log = run(&mut handler, first, &server);
    assert_eq!(log[3], Request::Keycode(0x71));
    assert_eq!(handler.grabbed_keys(), vec![key(56, 4)]);
    assert_eq!(handler.handler(key(0, 4)), None);
}

#[test]
fn unknown_class_takes_unfiltered_and_class_not_rules() {
    let mut handler = EventHandler::new(ROOT, rules());
    let server = display(100, b"");
    let first = handler.initialize();
    let log = run(&mut handler, first, &server);
    let expected_start = vec![
        Request::UngrabAll,
        Request::ActiveWindowProperty,
        Request::TextProperty(100, PropertyKey::Class),
        Request::TextProperty(100, PropertyKey::NetName),
        Request::TextProperty(100, PropertyKey::Name),
        Request::Tree(100),
        Request::Keycode(0x62),
        Request::Keycode(0x66),
        Request::Keycode(0xffc2),
        Request::Keycode(0x6e),
    ];
    assert_eq!(log[..10].to_vec(), expected_start);
    assert_eq!(handler.grabbed_keys(), vec![key(56, 4), key(41, 4), key(71, 0), key(57, 4)]);
    assert_eq!(handler.handler(key(56, 4)), Some(KeyAction::Single("Left".to_string())));
    assert_eq!(handler.handler(key(57, 4)), Some(KeyAction::Single("Down".to_string())));
    assert_eq!(handler.handler(key(119, 8)), None);
}

#[test]
fn no_rules_no_grabs() {
    let mut handler = EventHandler::new(ROOT, Config { windows: vec![] });
    let server = display(100, b"x");
    let first = handler.initialize();
    let log = run(&mut handler, first, &server);
    assert_eq!(
        log,
        vec![
            Request::UngrabAll,
            Request::ActiveWindowProperty,
            Request::TextProperty(100, PropertyKey::Class),
        ]
    );
    assert!(handler.grabbed_keys().is_empty());
}

#[test]
fn remapped_key_is_sent_to_the_target_window() {
    let mut handler = EventHandler::new(ROOT, rules());
    let server = display(100, b"firefox");
    let first = handler.initialize();
    run(&mut handler, first, &server);

    let first = handler.handle_key_press(56, 4);
    assert_eq!(handler.phase(), Phase::Sending);
    let log = run(&mut handler, first, &server);
    assert_eq!(
        log,
        vec![
            Request::Keycode(0xff50),
            event(KeyEventKind::Press, 100, 110, 0),
            event(KeyEventKind::Release, 100, 110, 0),
        ]
    );
}

#[test]
fn lock_keys_do_not_tell_keys_apart() {
    let mut handler = EventHandler::new(ROOT, rules());
    let server = display(100, b"firefox");
    let first = handler.initialize();
    run(&mut handler, first, &server);
    for state in [4u32, 4 | 0x10, 4 | 0x02, 4 | 0x12, 4 | 0x20 | 0x80 | 0x100] {
        let first = handler.handle_key_press(41, state);
        assert_eq!(first, Some(Request::Keycode(0xff53)));
        run(&mut handler, first, &server);
    }
    // shift, alt and super do
    for state in [4u32 | 1, 4 | 8, 4 | 0x40, 0] {
        assert_eq!(handler.handle_key_press(41, state), None);
        assert!(handler.is_idle());
    }
}

#[test]
fn sequence_action_sends_every_key() {
    let mut handler = EventHandler::new(ROOT, rules());
    let server = display(100, b"firefox");
    let first = handler.initialize();
    run(&mut handler, first, &server);
    let first = handler.handle_key_press(119, 8);
    let log = run(&mut handler, first, &server);
    assert_eq!(
        log,
        vec![
            Request::Keycode(0xff57),
            event(KeyEventKind::Press, 100, 115, 1),
            event(KeyEventKind::Release, 100, 115, 1),
            Request::Keycode(0xffff),
            event(KeyEventKind::Press, 100, 119, 0),
            event(KeyEventKind::Release, 100, 119, 0),
        ]
    );
}

#[test]
fn key_that_is_not_remapped_does_nothing() {
    let mut handler = EventHandler::new(ROOT, rules());
    let server = display(100, b"firefox");
    let first = handler.initialize();
    run(&mut handler, first, &server);
    assert_eq!(handler.handle_key_press(99, 4), None);
    assert!(handler.is_idle());
    assert_eq!(handler.grabbed_keys().len(), 4);
}

#[test]
fn action_that_cannot_be_sent_leaves_the_engine_idle() {
    let config = Config {
        windows: vec![WindowConfig {
            class_only: None,
            class_not: None,
            remaps: vec![single("C-b", "NoSuchKey"), single("C-f", "z")],
        }],
    };
    let mut handler = EventHandler::new(ROOT, config);
    let server = display(100, b"x");
    let first = handler.initialize();
    run(&mut handler, first, &server);
    assert_eq!(handler.handle_key_press(56, 4), None);
    assert!(handler.is_idle());
    // "z" parses, but the layout has no key for it
    let first = handler.handle_key_press(41, 4);
    assert_eq!(first, Some(Request::Keycode(0x7a)));
    assert_eq!(run(&mut handler, first, &server).len(), 1);
}

#[test]
fn property_change_rebuilds_only_for_another_window() {
    let mut handler = EventHandler::new(ROOT, rules());
    let server = display(100, b"firefox");
    let first = handler.initialize();
    run(&mut handler, first, &server);

    let first = handler.handle_property_notify();
    assert_eq!(first, Some(Request::Settle(SETTLE_MILLIS)));
    assert_eq!(SETTLE_MILLIS, 100);
    assert_eq!(handler.phase(), Phase::Settling);
    let log = run(&mut handler, first, &server);
    assert_eq!(log, vec![Request::Settle(100), Request::ActiveWindowProperty]);
    assert_eq!(handler.grabbed_keys().len(), 4);

    let other = display(200, b"xterm");
    let first = handler.handle_property_notify();
    let log = run(&mut handler, first, &other);
    assert_eq!(log[..4].to_vec(), vec![
        Request::Settle(100),
        Request::ActiveWindowProperty,
        Request::UngrabAll,
        Request::ActiveWindowProperty,
    ]);
    assert_eq!(handler.target_window(), 200);
    assert_eq!(handler.grabbed_keys(), vec![key(56, 4), key(41, 4), key(71, 0), key(57, 4)]);
    assert_eq!(handler.handler(key(56, 4)), Some(KeyAction::Single("Left".to_string())));

    let first = handler.handle_property_notify();
    let log = run(&mut handler, first, &other);
    assert_eq!(log, vec![Request::Settle(100), Request::ActiveWindowProperty]);
}

#[test]
fn keymap_change_always_rebuilds() {
    let mut handler = EventHandler::new(ROOT, rules());
    let server = display(100, b"firefox");
    let first = handler.initialize();
    let built = run(&mut handler, first, &server);
    let first = handler.handle_mapping_notify();
    assert_eq!(first, Some(Request::UngrabAll));
    assert!(handler.grabbed_keys().is_empty());
    assert_eq!(handler.handler(key(56, 4)), None);
    let rebuilt = run(&mut handler, first, &server);
    assert_eq!(rebuilt, built);
}

#[test]
fn rebuild_twice_gives_the_same_table_and_grabs() {
    let mut handler = EventHandler::new(ROOT, rules());
    let server = display(100, b"firefox");
    let first = handler.initialize();
    run(&mut handler, first, &server);
    let grabbed = handler.grabbed_keys();
    let table: Vec<Option<KeyAction>> = grabbed.iter().map(|k| handler.handler(*k)).collect();
    for _ in 0..2 {
        let first = handler.handle_mapping_notify();
        run(&mut handler, first, &server);
        assert_eq!(handler.grabbed_keys(), grabbed);
        let again: Vec<Option<KeyAction>> =
            grabbed.iter().map(|k| handler.handler(*k)).collect();
        assert_eq!(again, table);
    }
}

#[test]
fn idle_engine_ignores_replies() {
    let mut handler = EventHandler::new(ROOT, rules());
    assert_eq!(handler.resume(Reply::Keycode(56)), None);
    assert!(handler.is_idle());
    assert!(handler.grabbed_keys().is_empty());
}

#[test]
fn failed_grabs_do_not_stop_the_rebuild() {
    let mut handler = EventHandler::new(ROOT, rules());
    let inner = display(100, b"firefox");
    let server = move |request: Request| match request {
        Request::Grab(_) | Request::UngrabAll => Reply::Failed,
        other => inner(other),
    };
    let first = handler.initialize();
    let log = run(&mut handler, first, &server);
    assert_eq!(log.len(), 8 + 16);
    assert_eq!(handler.grabbed_keys().len(), 4);
}

#[test]
fn foreground_window_found_in_the_tree() {
    // no active-window property, no usable focus: the tree is searched
    let server = |request: Request| match request {
        Request::ActiveWindowProperty => Reply::Failed,
        Request::InputFocus => Reply::Window(1),
        Request::Tree(window) if window == ROOT => {
            Reply::Tree { root: ROOT, parent: 0, children: vec![10, 11] }
        }
        Request::Tree(10) => Reply::Tree { root: ROOT, parent: ROOT, children: vec![20] },
        Request::Tree(20) => Reply::Tree { root: ROOT, parent: 10, children: vec![] },
        Request::Tree(_) => Reply::Failed,
        Request::TextProperty(11, PropertyKey::Name) => {
            Reply::Text { encoding: 31, value: b"Firefox Nightly".to_vec() }
        }
        Request::TextProperty(..) => Reply::Failed,
        Request::TextList(..) => Reply::Failed,
        Request::Keycode(symbol) => Reply::Keycode(keycode_of(symbol)),
        _ => Reply::Done,
    };
    let mut handler = EventHandler::new(ROOT, rules());
    let first = handler.initialize();
    let log = run(&mut handler, first, &server);
    let expected_start = vec![
        Request::UngrabAll,
        Request::ActiveWindowProperty,
        Request::InputFocus,
        Request::Tree(ROOT),
        Request::TextProperty(10, PropertyKey::Class),
        Request::TextProperty(10, PropertyKey::NetName),
        Request::TextProperty(10, PropertyKey::Name),
        Request::Tree(10),
        Request::TextProperty(20, PropertyKey::Class),
        Request::TextProperty(20, PropertyKey::NetName),
        Request::TextProperty(20, PropertyKey::Name),
        Request::Tree(20),
        Request::TextProperty(11, PropertyKey::Class),
        Request::TextProperty(11, PropertyKey::NetName),
        Request::TextProperty(11, PropertyKey::Name),
        // the class of window 11
        Request::TextProperty(11, PropertyKey::Class),
        Request::TextProperty(11, PropertyKey::NetName),
        Request::TextProperty(11, PropertyKey::Name),
        Request::Keycode(0x62),
    ];
    assert_eq!(log[..expected_start.len()].to_vec(), expected_start);
    assert_eq!(handler.target_window(), 11);
    // "Firefox Nightly" matches the rule for firefox
    assert_eq!(handler.handler(key(56, 4)), Some(KeyAction::Single("Home".to_string())));
    assert_eq!(handler.handler(key(57, 4)), None);
}

#[test]
fn class_of_an_ancestor_decides_the_rules() {
    let server = |request: Request| match request {
        Request::ActiveWindowProperty => Reply::Window(30),
        Request::Tree(30) => Reply::Tree { root: ROOT, parent: 31, children: vec![] },
        Request::Tree(31) => Reply::Tree { root: ROOT, parent: ROOT, children: vec![30] },
        Request::Tree(_) => Reply::Failed,
        Request::TextProperty(31, PropertyKey::Class) => {
            Reply::Text { encoding: 31, value: b"firefox\0Firefox\0".to_vec() }
        }
        Request::TextProperty(..) => Reply::Failed,
        Request::TextList(..) => Reply::Failed,
        Request::Keycode(symbol) => Reply::Keycode(keycode_of(symbol)),
        _ => Reply::Done,
    };
    let mut handler = EventHandler::new(ROOT, rules());
    let first = handler.initialize();
    run(&mut handler, first, &server);
    assert_eq!(handler.target_window(), 30);
    assert_eq!(handler.handler(key(56, 4)), Some(KeyAction::Single("Home".to_string())));
    assert_eq!(handler.grabbed_keys(), vec![key(56, 4), key(41, 4), key(71, 0), key(119, 8)]);
}
