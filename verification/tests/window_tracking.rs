use xremap::server::{PropertyKey, Reply, Request};
use xremap::window_manager::{
    try_get_class_direct, Probe, ProbeResult, Progress, Stage, WindowManager, MAX_DEPTH,
};

const ROOT: u64 = 1000;

fn text(bytes: &[u8]) -> Reply {
    Reply::Text { encoding: 31, value: bytes.to_vec() }
}

fn tree(parent: u64, children: &[u64]) -> Reply {
    Reply::Tree { root: ROOT, parent, children: children.to_vec() }
}

fn class_probe(window: u64) -> Probe {
    Probe { window, key: PropertyKey::Class, decoding: false }
}

/// Answers the three property requests for one window with "nothing there".
fn no_properties(manager: &mut WindowManager, window: u64, first: Progress) -> Progress {
    assert_eq!(first, Progress::Ask(Request::TextProperty(window, PropertyKey::Class)));
    assert_eq!(
        manager.resume(Reply::Failed),
        Progress::Ask(Request::TextProperty(window, PropertyKey::NetName))
    );
    assert_eq!(
        manager.resume(Reply::Failed),
        Progress::Ask(Request::TextProperty(window, PropertyKey::Name))
    );
    manager.resume(Reply::Failed)
}

#[test]
fn depth_limit_is_twenty() {
    assert_eq!(MAX_DEPTH, 20);
}

#[test]
fn active_window_property_comes_first() {
    let mut manager = WindowManager::new(ROOT);
    assert_eq!(manager.current_window(), None);
    assert_eq!(manager.root_window(), ROOT);
    assert_eq!(manager.get_active_window(), Request::ActiveWindowProperty);
    assert_eq!(manager.stage(), Stage::Property);
    assert_eq!(manager.resume(Reply::Window(42)), Progress::Window(42));
    assert_eq!(manager.current_window(), Some(42));
    assert_eq!(manager.stage(), Stage::Idle);
}

#[test]
fn input_focus_comes_second() {
    for unusable in [Reply::Window(0), Reply::Window(ROOT), Reply::Failed, Reply::Done] {
        let mut manager = WindowManager::new(ROOT);
        manager.get_active_window();
        assert_eq!(manager.resume(unusable), Progress::Ask(Request::InputFocus));
        assert_eq!(manager.resume(Reply::Window(77)), Progress::Window(77));
        assert_eq!(manager.current_window(), Some(77));
    }
}

#[test]
fn pointer_root_is_accepted_as_property_but_not_as_focus() {
    let mut manager = WindowManager::new(ROOT);
    manager.get_active_window();
    assert_eq!(manager.resume(Reply::Window(1)), Progress::Window(1));

    for unusable in [Reply::Window(0), Reply::Window(1), Reply::Window(ROOT), Reply::Failed] {
        let mut manager = WindowManager::new(ROOT);
        manager.get_active_window();
        manager.resume(Reply::Failed);
        assert_eq!(manager.resume(unusable), Progress::Ask(Request::Tree(ROOT)));
    }
}

#[test]
fn tree_search_finds_first_window_with_text() {
    let mut manager = WindowManager::new(ROOT);
    manager.get_active_window();
    manager.resume(Reply::Failed);
    assert_eq!(manager.resume(Reply::Failed), Progress::Ask(Request::Tree(ROOT)));
    // root has the children 10 and 11
    let first = manager.resume(tree(0, &[10, 11]));
    let after = no_properties(&mut manager, 10, first);
    // 10 has no text: its children are looked at before 11
    assert_eq!(after, Progress::Ask(Request::Tree(10)));
    let first = manager.resume(tree(ROOT, &[20]));
    assert_eq!(first, Progress::Ask(Request::TextProperty(20, PropertyKey::Class)));
    assert_eq!(manager.resume(text(b"xterm\0XTerm\0")), Progress::Window(20));
    assert_eq!(manager.current_window(), Some(20));
    assert_eq!(manager.stage(), Stage::Idle);
}

#[test]
fn tree_search_goes_back_to_siblings() {
    let mut manager = WindowManager::new(ROOT);
    manager.get_active_window();
    manager.resume(Reply::Failed);
    manager.resume(Reply::Failed);
    let first = manager.resume(tree(0, &[10, 11]));
    let after = no_properties(&mut manager, 10, first);
    assert_eq!(after, Progress::Ask(Request::Tree(10)));
    let first = manager.resume(tree(ROOT, &[20]));
    let after = no_properties(&mut manager, 20, first);
    assert_eq!(after, Progress::Ask(Request::Tree(20)));
    // 20 has no children: on to 11
    let first = manager.resume(tree(10, &[]));
    assert_eq!(first, Progress::Ask(Request::TextProperty(11, PropertyKey::Class)));
    assert_eq!(
        manager.resume(Reply::Failed),
        Progress::Ask(Request::TextProperty(11, PropertyKey::NetName))
    );
    assert_eq!(manager.resume(text(b"Editor")), Progress::Window(11));
}

#[test]
fn root_is_the_last_resort() {
    let mut manager = WindowManager::new(ROOT);
    manager.get_active_window();
    manager.resume(Reply::Failed);
    manager.resume(Reply::Failed);
    assert_eq!(manager.resume(Reply::Failed), Progress::Window(ROOT));
    assert_eq!(manager.current_window(), Some(ROOT));

    let mut manager = WindowManager::new(ROOT);
    manager.get_active_window();
    manager.resume(Reply::Failed);
    manager.resume(Reply::Failed);
    let first = manager.resume(tree(0, &[10]));
    let after = no_properties(&mut manager, 10, first);
    assert_eq!(after, Progress::Ask(Request::Tree(10)));
    assert_eq!(manager.resume(Reply::Failed), Progress::Window(ROOT));
}

#[test]
fn tree_search_stops_twenty_levels_down() {
    let mut manager = WindowManager::new(ROOT);
    manager.get_active_window();
    manager.resume(Reply::Failed);
    assert_eq!(manager.resume(Reply::Failed), Progress::Ask(Request::Tree(ROOT)));
    // a chain: window d is the only child of window d - 1, window 1 of the root
    let mut listed = 1;
    let mut progress = manager.resume(tree(0, &[1]));
    let mut level = 1u64;
    loop {
        let after = no_properties(&mut manager, level, progress);
        if after == Progress::Window(ROOT) {
            break;
        }
        assert_eq!(after, Progress::Ask(Request::Tree(level)));
        listed += 1;
        progress = manager.resume(tree(level - 1, &[level + 1]));
        level += 1;
    }
    assert_eq!(level, 20);
    assert_eq!(listed, 20);
}

#[test]
fn window_at_level_twenty_is_still_found() {
    let mut manager = WindowManager::new(ROOT);
    manager.get_active_window();
    manager.resume(Reply::Failed);
    manager.resume(Reply::Failed);
    let mut progress = manager.resume(tree(0, &[1]));
    for level in 1u64..20 {
        let after = no_properties(&mut manager, level, progress);
        assert_eq!(after, Progress::Ask(Request::Tree(level)));
        progress = manager.resume(tree(level - 1, &[level + 1]));
    }
    assert_eq!(progress, Progress::Ask(Request::TextProperty(20, PropertyKey::Class)));
    assert_eq!(manager.resume(text(b"deep")), Progress::Window(20));
}

#[test]
fn change_is_reported_once() {
    let mut manager = WindowManager::new(ROOT);
    assert_eq!(manager.has_window_changed(), Request::ActiveWindowProperty);
    assert_eq!(manager.resume(Reply::Window(42)), Progress::Changed(true));
    assert_eq!(manager.current_window(), Some(42));
    for _ in 0..3 {
        manager.has_window_changed();
        assert_eq!(manager.resume(Reply::Window(42)), Progress::Changed(false));
        assert_eq!(manager.current_window(), Some(42));
    }
    manager.has_window_changed();
    assert_eq!(manager.resume(Reply::Window(43)), Progress::Changed(true));
    manager.has_window_changed();
    assert_eq!(manager.resume(Reply::Window(43)), Progress::Changed(false));
    manager.has_window_changed();
    assert_eq!(manager.resume(Reply::Window(42)), Progress::Changed(true));
    assert_eq!(manager.current_window(), Some(42));
}

#[test]
fn lookup_is_remembered_by_the_next_poll() {
    let mut manager = WindowManager::new(ROOT);
    manager.get_active_window();
    assert_eq!(manager.resume(Reply::Window(42)), Progress::Window(42));
    manager.has_window_changed();
    assert_eq!(manager.resume(Reply::Window(42)), Progress::Changed(false));
    manager.has_window_changed();
    manager.resume(Reply::Failed);
    assert_eq!(manager.resume(Reply::Window(50)), Progress::Changed(true));
}

#[test]
fn poll_falls_back_like_a_lookup() {
    let mut manager = WindowManager::new(ROOT);
    manager.has_window_changed();
    manager.resume(Reply::Window(ROOT));
    manager.resume(Reply::Window(1));
    assert_eq!(manager.resume(Reply::Failed), Progress::Changed(true));
    assert_eq!(manager.current_window(), Some(ROOT));
    manager.has_window_changed();
    manager.resume(Reply::Failed);
    manager.resume(Reply::Failed);
    assert_eq!(manager.resume(tree(0, &[])), Progress::Changed(false));
}

#[test]
fn class_from_the_window_itself() {
    let mut manager = WindowManager::new(ROOT);
    assert_eq!(manager.get_window_class(5), Request::TextProperty(5, PropertyKey::Class));
    assert_eq!(manager.stage(), Stage::Classing(class_probe(5)));
    assert_eq!(
        manager.resume(text(b"chromium\0Chromium-Browser\0")),
        Progress::Class(Some("chromium".to_string()))
    );
    assert_eq!(manager.stage(), Stage::Idle);
}

#[test]
fn class_from_a_name_property() {
    let mut manager = WindowManager::new(ROOT);
    manager.get_window_class(5);
    assert_eq!(
        manager.resume(Reply::Failed),
        Progress::Ask(Request::TextProperty(5, PropertyKey::NetName))
    );
    assert_eq!(
        manager.resume(text(b"")),
        Progress::Ask(Request::TextProperty(5, PropertyKey::Name))
    );
    assert_eq!(manager.resume(text(b"Terminal")), Progress::Class(Some("Terminal".to_string())));
}

#[test]
fn encoded_text_is_decoded_to_a_list() {
    let mut manager = WindowManager::new(ROOT);
    manager.get_window_class(5);
    assert_eq!(
        manager.resume(Reply::Text { encoding: 400, value: vec![0xe3, 0x81, 0x82] }),
        Progress::Ask(Request::TextList(5, PropertyKey::Class))
    );
    assert_eq!(
        manager.resume(Reply::TextList(vec!["first".to_string(), "second".to_string()])),
        Progress::Class(Some("first".to_string()))
    );
}

#[test]
fn failed_decoding_counts_as_no_text() {
    let mut manager = WindowManager::new(ROOT);
    manager.get_window_class(5);
    manager.resume(Reply::Text { encoding: 400, value: vec![1] });
    assert_eq!(
        manager.resume(Reply::Failed),
        Progress::Ask(Request::TextProperty(5, PropertyKey::NetName))
    );
    manager.resume(Reply::Text { encoding: 400, value: vec![1] });
    assert_eq!(
        manager.resume(Reply::TextList(vec![])),
        Progress::Ask(Request::TextProperty(5, PropertyKey::Name))
    );
    manager.resume(Reply::Text { encoding: 400, value: vec![1] });
    assert_eq!(
        manager.resume(Reply::TextList(vec![String::new(), "x".to_string()])),
        Progress::Ask(Request::Tree(5))
    );
}

#[test]
fn class_from_an_ancestor() {
    let mut manager = WindowManager::new(ROOT);
    let first = Progress::Ask(manager.get_window_class(5));
    let after = no_properties(&mut manager, 5, first);
    assert_eq!(after, Progress::Ask(Request::Tree(5)));
    assert_eq!(manager.stage(), Stage::Climbing(5));
    let first = manager.resume(tree(6, &[]));
    let after = no_properties(&mut manager, 6, first);
    assert_eq!(after, Progress::Ask(Request::Tree(6)));
    let first = manager.resume(tree(7, &[5]));
    assert_eq!(first, Progress::Ask(Request::TextProperty(7, PropertyKey::Class)));
    assert_eq!(manager.resume(text(b"Frame")), Progress::Class(Some("Frame".to_string())));
}

#[test]
fn climb_ends_below_the_root() {
    for reply in [tree(ROOT, &[]), tree(0, &[]), Reply::Failed, Reply::Window(6)] {
        let mut manager = WindowManager::new(ROOT);
        let first = Progress::Ask(manager.get_window_class(5));
        let after = no_properties(&mut manager, 5, first);
        assert_eq!(after, Progress::Ask(Request::Tree(5)));
        assert_eq!(manager.resume(reply), Progress::Class(None));
        assert_eq!(manager.stage(), Stage::Idle);
    }
}

#[test]
fn climb_ends_after_twenty_ancestors() {
    let mut manager = WindowManager::new(ROOT);
    let mut progress = Progress::Ask(manager.get_window_class(100));
    let mut window = 100u64;
    let mut asked = 0;
    loop {
        let after = no_properties(&mut manager, window, progress);
        asked += 1;
        assert_eq!(after, Progress::Ask(Request::Tree(window)));
        progress = manager.resume(tree(window + 1, &[]));
        if progress == Progress::Class(None) {
            break;
        }
        window += 1;
    }
    // the window itself and twenty ancestors
    assert_eq!(asked, 21);
    assert_eq!(window, 120);
}

#[test]
fn plain_text_ends_at_the_first_zero_byte() {
    assert_eq!(
        try_get_class_direct(class_probe(5), text(b"abc\0def")),
        ProbeResult::Found("abc".to_string())
    );
    assert_eq!(
        try_get_class_direct(class_probe(5), text(b"no zero")),
        ProbeResult::Found("no zero".to_string())
    );
    let next = Probe { window: 5, key: PropertyKey::NetName, decoding: false };
    assert_eq!(
        try_get_class_direct(class_probe(5), text(b"\0hidden")),
        ProbeResult::Ask(next, Request::TextProperty(5, PropertyKey::NetName))
    );
}

#[test]
fn bytes_that_are_no_text_are_replaced() {
    assert_eq!(
        try_get_class_direct(class_probe(5), text(&[0xff, b'a'])),
        ProbeResult::Found("\u{fffd}a".to_string())
    );
    assert_eq!(
        try_get_class_direct(class_probe(5), text("gr\u{fc}n".as_bytes())),
        ProbeResult::Found("gr\u{fc}n".to_string())
    );
}

#[test]
fn last_property_without_text_is_absent() {
    let last = Probe { window: 5, key: PropertyKey::Name, decoding: false };
    assert_eq!(try_get_class_direct(last, Reply::Failed), ProbeResult::Absent);
    let decoding = Probe { window: 5, key: PropertyKey::Name, decoding: true };
    assert_eq!(try_get_class_direct(decoding, Reply::TextList(vec![])), ProbeResult::Absent);
    assert_eq!(try_get_class_direct(decoding, text(b"late")), ProbeResult::Absent);
}

#[test]
fn idle_tracker_ignores_replies() {
    let mut manager = WindowManager::new(ROOT);
    assert_eq!(manager.resume(Reply::Window(5)), Progress::Idle);
    assert_eq!(manager.current_window(), None);
}
