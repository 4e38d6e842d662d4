//! What the lookups of a [`WindowManager`](crate::window_manager::WindowManager)
//! find, said in terms of the display server's answers alone, and the proof
//! that a lookup carried through against a server finds exactly that.
//!
//! A server is a function from requests to replies: it answers the same
//! request in the same way for as long as a lookup runs.

use crate::server::{PropertyKey, Reply, Request, Window, ENCODING_STRING, POINTER_ROOT};
use crate::window_manager::{
    c_string, class_begun, lookup_begun, lossy_text, passed_over, probe_begun, probe_stepped,
    resolved, search_continued, settled, tracker_resumed, tracker_run, FrameView, Outcome, Probe,
    Probed, Stage, TrackerView, MAX_DEPTH,
};
use vstd::prelude::*;

verus! {

/// A text that is not empty.
pub open spec fn non_empty(text: Seq<char>) -> Option<Seq<char>> {
    if text.len() > 0 {
        Some(text)
    } else {
        None
    }
}

/// The first of two texts that is there.
pub open spec fn first_of(a: Option<Seq<char>>, b: Option<Seq<char>>) -> Option<Seq<char>> {
    if a is Some {
        a
    } else {
        b
    }
}

/// The text of a property as its decoding to a string list gives it: the
/// first string of the list.
pub open spec fn listed_text(server: spec_fn(Request) -> Reply, window: Window, key: PropertyKey)
    -> Option<Seq<char>> {
    match server(Request::TextList(window, key)) {
        Reply::TextList(list) if list@.len() > 0 => non_empty(list@[0]@),
        _ => None,
    }
}

/// The text of one property of a window: in the plain 8-bit encoding the
/// bytes up to the first zero byte, in any other the first string of the
/// decoded list.
pub open spec fn property_text(server: spec_fn(Request) -> Reply, window: Window, key: PropertyKey)
    -> Option<Seq<char>> {
    match server(Request::TextProperty(window, key)) {
        Reply::Text { encoding, value } if value@.len() > 0 => {
            if encoding == ENCODING_STRING {
                non_empty(lossy_text(c_string(value@)))
            } else {
                listed_text(server, window, key)
            }
        },
        _ => None,
    }
}

/// The first text that the properties tried after `key` give.
pub open spec fn text_after(server: spec_fn(Request) -> Reply, window: Window, key: PropertyKey)
    -> Option<Seq<char>> {
    match key {
        PropertyKey::Class => first_of(
            property_text(server, window, PropertyKey::NetName),
            property_text(server, window, PropertyKey::Name),
        ),
        PropertyKey::NetName => property_text(server, window, PropertyKey::Name),
        PropertyKey::Name => None,
    }
}

/// The first text that a window's own properties give: class, then the two
/// name properties.
pub open spec fn own_text(server: spec_fn(Request) -> Reply, window: Window) -> Option<Seq<char>> {
    first_of(
        property_text(server, window, PropertyKey::Class),
        text_after(server, window, PropertyKey::Class),
    )
}

/// The class of a window: its own text or, failing that, the class of its
/// parent, for at most `ancestors` windows above it. The root and what lies
/// above a window without parent are not asked.
pub open spec fn class_of(server: spec_fn(Request) -> Reply, window: Window, ancestors: nat)
    -> Option<Seq<char>>
    decreases ancestors,
{
    match own_text(server, window) {
        Some(text) => Some(text),
        None => {
            if ancestors == 0 {
                None
            } else {
                match server(Request::Tree(window)) {
                    Reply::Tree { root, parent, .. } if parent != 0 && parent != root => class_of(
                        server,
                        parent,
                        (ancestors - 1) as nat,
                    ),
                    _ => None,
                }
            }
        },
    }
}

/// The first window with a text of its own below `window`, at most `levels`
/// levels down. A window comes before its children, and these before its next
/// sibling.
pub open spec fn found_below(server: spec_fn(Request) -> Reply, window: Window, levels: nat)
    -> Option<Window>
    decreases levels, 0nat,
{
    if levels == 0 {
        None
    } else {
        match server(Request::Tree(window)) {
            Reply::Tree { children, .. } => found_among(
                server,
                children@,
                0,
                (levels - 1) as nat,
            ),
            _ => None,
        }
    }
}

/// The first window with a text of its own among the children from `from` on
/// and what lies below them, at most `deeper` levels down.
pub open spec fn found_among(
    server: spec_fn(Request) -> Reply,
    children: Seq<Window>,
    from: nat,
    deeper: nat,
) -> Option<Window>
    decreases deeper, 1 + children.len() - from,
{
    if from >= children.len() {
        None
    } else if own_text(server, children[from as int]) is Some {
        Some(children[from as int])
    } else {
        match found_below(server, children[from as int], deeper) {
            Some(window) => Some(window),
            None => found_among(server, children, from + 1, deeper),
        }
    }
}

/// The window in the foreground. In this order: what the "active window"
/// property names, unless that is no window or the root; the window with the
/// input focus, unless that is no window, the pointer root or the root; the
/// first window with a text of its own at most [`MAX_DEPTH`] levels below the
/// root; the root.
pub open spec fn foreground(server: spec_fn(Request) -> Reply, root: Window) -> Window {
    match server(Request::ActiveWindowProperty) {
        Reply::Window(window) if window != 0 && window != root => window,
        _ => focused_or_found(server, root),
    }
}

/// The foreground window where the "active window" property names none.
pub open spec fn focused_or_found(server: spec_fn(Request) -> Reply, root: Window) -> Window {
    match server(Request::InputFocus) {
        Reply::Window(window) if window != 0 && window != POINTER_ROOT && window != root => window,
        _ => match found_below(server, root, MAX_DEPTH as nat) {
            Some(window) => window,
            None => root,
        },
    }
}

/// The request that a probe is waiting for the reply to.
pub open spec fn probe_request(probe: Probe) -> Request {
    if probe.decoding {
        Request::TextList(probe.window, probe.key)
    } else {
        Request::TextProperty(probe.window, probe.key)
    }
}

/// The text that a probe will come to, from where it stands.
pub open spec fn probe_yield(server: spec_fn(Request) -> Reply, probe: Probe) -> Option<Seq<char>> {
    first_of(
        if probe.decoding {
            listed_text(server, probe.window, probe.key)
        } else {
            property_text(server, probe.window, probe.key)
        },
        text_after(server, probe.window, probe.key),
    )
}

/// A step of a probe leaves what it will come to as it is.
pub proof fn lemma_probe_step(server: spec_fn(Request) -> Reply, probe: Probe)
    ensures
        match probe_stepped(probe, server(probe_request(probe))) {
            Probed::Ask(next, request) => {
                &&& request == probe_request(next)
                &&& next.window == probe.window
                &&& probe_yield(server, next) == probe_yield(server, probe)
            },
            Probed::Found(text) => probe_yield(server, probe) == Some(text),
            Probed::Absent => probe_yield(server, probe) is None,
        },
{
}

/// The class that the ancestors of a window give it, for at most `ancestors`
/// of them.
pub open spec fn class_above(server: spec_fn(Request) -> Reply, window: Window, ancestors: nat)
    -> Option<Seq<char>> {
    if ancestors == 0 {
        None
    } else {
        match server(Request::Tree(window)) {
            Reply::Tree { root, parent, .. } if parent != 0 && parent != root => class_of(
                server,
                parent,
                (ancestors - 1) as nat,
            ),
            _ => None,
        }
    }
}

/// A class lookup is under way, `request` is open, and the lookup will come to
/// `class`.
pub open spec fn class_pending(
    server: spec_fn(Request) -> Reply,
    tracker: TrackerView,
    request: Request,
    class: Option<Seq<char>>,
) -> bool {
    &&& tracker.depth <= MAX_DEPTH
    &&& match tracker.stage {
        Stage::Classing(probe) => {
            &&& request == probe_request(probe)
            &&& class == first_of(
                probe_yield(server, probe),
                class_above(server, probe.window, (MAX_DEPTH - tracker.depth) as nat),
            )
        },
        Stage::Climbing(window) => {
            &&& request == Request::Tree(window)
            &&& class == class_above(server, window, (MAX_DEPTH - tracker.depth) as nat)
        },
        _ => false,
    }
}

/// A step of a class lookup leaves what it will come to as it is, and a step
/// that asks nothing more has come to it.
pub proof fn lemma_class_step(
    server: spec_fn(Request) -> Reply,
    tracker: TrackerView,
    request: Request,
    class: Option<Seq<char>>,
)
    requires
        class_pending(server, tracker, request, class),
    ensures
        match tracker_resumed(tracker, server(request)).1 {
            Outcome::Ask(more) => class_pending(
                server,
                tracker_resumed(tracker, server(request)).0,
                more,
                class,
            ),
            outcome => outcome == Outcome::Class(class),
        },
{
    match tracker.stage {
        Stage::Classing(probe) => {
            lemma_probe_step(server, probe);
        },
        Stage::Climbing(window) => {
            match server(request) {
                Reply::Tree { root, parent, .. } if parent != 0 && parent != root && tracker.depth
                    < MAX_DEPTH => {
                    lemma_probe_step(server, probe_begun(parent).0);
                },
                _ => {},
            }
        },
        _ => {},
    }
}

/// A class lookup that has just begun will come to the window's class.
pub proof fn lemma_class_begun(
    server: spec_fn(Request) -> Reply,
    tracker: TrackerView,
    window: Window,
)
    ensures
        class_pending(
            server,
            class_begun(tracker, window).0,
            class_begun(tracker, window).1,
            class_of(server, window, MAX_DEPTH as nat),
        ),
{
}

proof fn lemma_class_run(
    server: spec_fn(Request) -> Reply,
    tracker: TrackerView,
    request: Request,
    class: Option<Seq<char>>,
    steps: nat,
)
    requires
        class_pending(server, tracker, request, class),
    ensures
        tracker_run(server, tracker, request, steps).1 is Ask || tracker_run(
            server,
            tracker,
            request,
            steps,
        ).1 == Outcome::Class(class),
    decreases steps,
{
    lemma_class_step(server, tracker, request, class);
    let (next, outcome) = tracker_resumed(tracker, server(request));
    match outcome {
        Outcome::Ask(more) if steps > 0 => {
            lemma_class_run(server, next, more, class, (steps - 1) as nat);
        },
        _ => {},
    }
}

/// A class lookup that came to its end found the window's class: the first
/// text that the window's own properties give or, failing that, those of its
/// nearest ancestor that has one, among at most [`MAX_DEPTH`] ancestors below
/// the root.
pub proof fn lemma_class_lookup_finds_class(
    server: spec_fn(Request) -> Reply,
    tracker: TrackerView,
    window: Window,
    steps: nat,
)
    ensures
        ({
            let (begun, request) = class_begun(tracker, window);
            let outcome = tracker_run(server, begun, request, steps).1;
            outcome is Ask || outcome == Outcome::Class(class_of(server, window, MAX_DEPTH as nat))
        }),
{
    let (begun, request) = class_begun(tracker, window);
    lemma_class_begun(server, tracker, window);
    lemma_class_run(server, begun, request, class_of(server, window, MAX_DEPTH as nat), steps);
}

/// What the tree search finds from where it stands: the first window with a
/// text of its own among the children that are left, innermost frame first;
/// the root if there is none.
pub open spec fn remaining(server: spec_fn(Request) -> Reply, root: Window, stack: Seq<FrameView>)
    -> Window
    decreases stack.len(),
{
    if stack.len() == 0 {
        root
    } else {
        match found_among(
            server,
            stack.last().children,
            stack.last().next,
            (MAX_DEPTH - stack.len()) as nat,
        ) {
            Some(window) => window,
            None => remaining(server, root, stack.drop_last()),
        }
    }
}

/// What the tree search finds once the children of `window` are dealt with,
/// which lies as deep as the stack is high.
pub open spec fn found_from(
    server: spec_fn(Request) -> Reply,
    root: Window,
    stack: Seq<FrameView>,
    window: Window,
) -> Window {
    match found_below(server, window, (MAX_DEPTH - stack.len()) as nat) {
        Some(found) => found,
        None => remaining(server, root, stack),
    }
}

/// A lookup of the foreground window is under way, `request` is open, and the
/// lookup will come to `window`.
pub open spec fn lookup_pending(
    server: spec_fn(Request) -> Reply,
    tracker: TrackerView,
    request: Request,
    window: Window,
) -> bool {
    match tracker.stage {
        Stage::Property => {
            &&& request == Request::ActiveWindowProperty
            &&& window == foreground(server, tracker.root)
        },
        Stage::Focus => {
            &&& request == Request::InputFocus
            &&& window == focused_or_found(server, tracker.root)
        },
        Stage::Listing(parent) => {
            &&& request == Request::Tree(parent)
            &&& tracker.stack.len() < MAX_DEPTH
            &&& window == found_from(server, tracker.root, tracker.stack, parent)
        },
        Stage::Searching(probe) => {
            &&& request == probe_request(probe)
            &&& 0 < tracker.stack.len() <= MAX_DEPTH
            &&& tracker.stack.last().next < tracker.stack.last().children.len()
            &&& probe.window == tracker.stack.last().children[tracker.stack.last().next as int]
            &&& window == if probe_yield(server, probe) is Some {
                probe.window
            } else {
                found_from(server, tracker.root, passed_over(tracker.stack), probe.window)
            }
        },
        _ => false,
    }
}

/// Frames of which no child is left add nothing to what the search finds.
proof fn lemma_remaining_settled(
    server: spec_fn(Request) -> Reply,
    root: Window,
    stack: Seq<FrameView>,
)
    ensures
        remaining(server, root, settled(stack)) == remaining(server, root, stack),
    decreases stack.len(),
{
    if stack.len() > 0 && stack.last().next >= stack.last().children.len() {
        lemma_remaining_settled(server, root, stack.drop_last());
    }
}

/// Going on with the search either asks for the first property of the next
/// child, or ends the lookup with the root.
proof fn lemma_search_continued(
    server: spec_fn(Request) -> Reply,
    tracker: TrackerView,
    stack: Seq<FrameView>,
    window: Window,
)
    requires
        stack.len() <= MAX_DEPTH,
        window == remaining(server, tracker.root, stack),
    ensures
        match search_continued(tracker, stack).1 {
            Outcome::Ask(more) => lookup_pending(
                server,
                search_continued(tracker, stack).0,
                more,
                window,
            ),
            _ => search_continued(tracker, stack) == resolved(tracker, window),
        },
{
    lemma_remaining_settled(server, tracker.root, stack);
    crate::window_manager::lemma_settled_has_child(stack);
    let rest = settled(stack);
    if rest.len() > 0 {
        assert(passed_over(rest).drop_last() =~= rest.drop_last());
    }
}

/// A step of a lookup leaves what it will come to as it is, and a step that
/// asks nothing more has come to it.
pub proof fn lemma_lookup_step(
    server: spec_fn(Request) -> Reply,
    tracker: TrackerView,
    request: Request,
    window: Window,
)
    requires
        lookup_pending(server, tracker, request, window),
    ensures
        match tracker_resumed(tracker, server(request)).1 {
            Outcome::Ask(more) => {
                &&& lookup_pending(server, tracker_resumed(tracker, server(request)).0, more, window)
                &&& tracker_resumed(tracker, server(request)).0.polling == tracker.polling
                &&& tracker_resumed(tracker, server(request)).0.last_seen == tracker.last_seen
            },
            _ => tracker_resumed(tracker, server(request)) == resolved(tracker, window),
        },
{
    let reply = server(request);
    match tracker.stage {
        Stage::Listing(parent) => {
            match reply {
                Reply::Tree { children, .. } => {
                    let pushed = tracker.stack.push(FrameView { children: children@, next: 0 });
                    assert(pushed.drop_last() =~= tracker.stack);
                    lemma_search_continued(server, tracker, pushed, window);
                },
                _ => {
                    lemma_search_continued(server, tracker, tracker.stack, window);
                },
            }
        },
        Stage::Searching(probe) => {
            lemma_probe_step(server, probe);
            match probe_stepped(probe, reply) {
                Probed::Absent => {
                    let stack = passed_over(tracker.stack);
                    if stack.len() >= MAX_DEPTH {
                        lemma_search_continued(server, tracker, stack, window);
                    }
                },
                _ => {},
            }
        },
        _ => {},
    }
}

proof fn lemma_lookup_run(
    server: spec_fn(Request) -> Reply,
    tracker: TrackerView,
    request: Request,
    window: Window,
    steps: nat,
)
    requires
        lookup_pending(server, tracker, request, window),
    ensures
        tracker_run(server, tracker, request, steps).1 is Ask || tracker_run(
            server,
            tracker,
            request,
            steps,
        ) == resolved(tracker, window),
    decreases steps,
{
    lemma_lookup_step(server, tracker, request, window);
    let (next, outcome) = tracker_resumed(tracker, server(request));
    match outcome {
        Outcome::Ask(more) if steps > 0 => {
            lemma_lookup_run(server, next, more, window, (steps - 1) as nat);
        },
        _ => {},
    }
}

/// A lookup that came to its end found the foreground window, and remembers
/// it. Where the question was whether the window changed, the answer is
/// whether the foreground window is another one than the window remembered
/// before.
pub proof fn lemma_lookup_finds_foreground(
    server: spec_fn(Request) -> Reply,
    tracker: TrackerView,
    polling: bool,
    steps: nat,
)
    ensures
        ({
            let (begun, request) = lookup_begun(tracker, polling);
            let (after, outcome) = tracker_run(server, begun, request, steps);
            let window = foreground(server, tracker.root);
            outcome is Ask || {
                &&& after.last_seen == Some(window)
                &&& after.stage == Stage::Idle
                &&& outcome == if polling {
                    Outcome::Changed(tracker.last_seen != Some(window))
                } else {
                    Outcome::Window(window)
                }
            }
        }),
{
    let (begun, request) = lookup_begun(tracker, polling);
    lemma_lookup_run(server, begun, request, foreground(server, tracker.root), steps);
}

/// The root window stays what it is.
pub proof fn lemma_root_kept(
    server: spec_fn(Request) -> Reply,
    tracker: TrackerView,
    request: Request,
    steps: nat,
)
    ensures
        tracker_run(server, tracker, request, steps).0.root == tracker.root,
    decreases steps,
{
    let (next, outcome) = tracker_resumed(tracker, server(request));
    match outcome {
        Outcome::Ask(more) if steps > 0 => {
            lemma_root_kept(server, next, more, (steps - 1) as nat);
        },
        _ => {},
    }
}

/// Of two polls one after the other, each run to its end, the second says
/// "changed" exactly when the foreground window is another one than at the
/// first: a change of window is reported once, and while the display server
/// answers as before the answer is "not changed".
pub proof fn lemma_change_reported_once(
    first_server: spec_fn(Request) -> Reply,
    second_server: spec_fn(Request) -> Reply,
    tracker: TrackerView,
    steps: nat,
    steps_again: nat,
)
    ensures
        ({
            let (begun, request) = lookup_begun(tracker, true);
            let (after, outcome) = tracker_run(first_server, begun, request, steps);
            let (again, request_again) = lookup_begun(after, true);
            let outcome_again = tracker_run(second_server, again, request_again, steps_again).1;
            outcome is Ask || outcome_again is Ask || {
                &&& outcome_again == Outcome::Changed(
                    foreground(first_server, tracker.root) != foreground(
                        second_server,
                        tracker.root,
                    ),
                )
                &&& first_server == second_server ==> outcome_again == Outcome::Changed(false)
            }
        }),
{
    let (begun, request) = lookup_begun(tracker, true);
    let (after, outcome) = tracker_run(first_server, begun, request, steps);
    lemma_lookup_finds_foreground(first_server, tracker, true, steps);
    lemma_root_kept(first_server, begun, request, steps);
    lemma_lookup_finds_foreground(second_server, after, true, steps_again);
}

} // verus!
