//! All work comes to an end, whatever the display server answers: a probe
//! has three properties to try, a class lookup at most [`MAX_DEPTH`]
//! ancestors, the tree search never goes deeper than [`MAX_DEPTH`] levels
//! into a tree whose windows have finitely many children each, and the engine
//! has finitely many remaps to register, keys to grab and keys to send.

use crate::event_handler::{
    engine_resumed, key_pressed, rebuild_begun, sources, followed, EngineView, Phase,
    SETTLE_MILLIS,
};
use crate::foreground::{
    class_of, foreground, lemma_class_lookup_finds_class, lemma_lookup_finds_foreground,
    lemma_probe_step, probe_request, probe_yield,
};
use crate::dispatch::{grabs_of, table_of};
use crate::key_mapper::{events_of, next_valid, recognized, KeyPress, SendStage};
use crate::runs::{
    engine_run, events_sent, grabs_issued, grabs_of_keys, lemma_key_press_result,
    lemma_property_change_result, lemma_rebuild_grabs, lemma_rebuild_result, remaps_in_force,
};
use crate::server::{PropertyKey, Reply, Request, Window, POINTER_ROOT};
use crate::window_manager::{
    at_rest, class_begun, lemma_settled_has_child, lookup_begun, passed_over, probe_begun,
    probe_stepped, resolved, search_continued, settled, tracker_resumed, tracker_run, FrameView,
    Outcome, Probe, Probed, Stage, TrackerView, MAX_DEPTH,
};
use vstd::prelude::*;

verus! {

/// A run that has come to an end stays where it is when it is given more
/// steps, and a run that still asks goes on from where it stands.
pub proof fn lemma_run_continues(
    server: spec_fn(Request) -> Reply,
    tracker: TrackerView,
    request: Request,
    steps: nat,
    more: nat,
)
    ensures
        match tracker_run(server, tracker, request, steps) {
            (next, Outcome::Ask(open)) => tracker_run(server, tracker, request, steps + 1 + more)
                == tracker_run(server, next, open, more),
            done => tracker_run(server, tracker, request, steps + more) == done,
        },
    decreases steps,
{
    let (next, outcome) = tracker_resumed(tracker, server(request));
    match outcome {
        Outcome::Ask(open) => {
            if steps > 0 {
                lemma_run_continues(server, next, open, (steps - 1) as nat, more);
            }
        },
        _ => {},
    }
}

/// How many steps a probe has left at most.
pub open spec fn probe_rank(probe: Probe) -> nat {
    let keys: nat = match probe.key {
        PropertyKey::Class => 2,
        PropertyKey::NetName => 1,
        PropertyKey::Name => 0,
    };
    if probe.decoding {
        2 * keys
    } else {
        2 * keys + 1
    }
}

/// What a class lookup comes to once the probe in hand is through.
pub open spec fn class_probed(
    server: spec_fn(Request) -> Reply,
    tracker: TrackerView,
    probe: Probe,
) -> (TrackerView, Outcome) {
    match probe_yield(server, probe) {
        Some(text) => (at_rest(tracker), Outcome::Class(Some(text))),
        None => (
            TrackerView { stage: Stage::Climbing(probe.window), ..tracker },
            Outcome::Ask(Request::Tree(probe.window)),
        ),
    }
}

/// What a tree search comes to once the probe in hand is through.
pub open spec fn search_probed(
    server: spec_fn(Request) -> Reply,
    tracker: TrackerView,
    probe: Probe,
) -> (TrackerView, Outcome) {
    if probe_yield(server, probe) is Some {
        resolved(tracker, probe.window)
    } else {
        let stack = passed_over(tracker.stack);
        if stack.len() < MAX_DEPTH {
            (
                TrackerView { stage: Stage::Listing(probe.window), stack, ..tracker },
                Outcome::Ask(Request::Tree(probe.window)),
            )
        } else {
            search_continued(tracker, stack)
        }
    }
}

/// A probe in a class lookup is through after at most six steps.
pub proof fn lemma_class_probe_ends(
    server: spec_fn(Request) -> Reply,
    tracker: TrackerView,
    probe: Probe,
) -> (steps: nat)
    requires
        tracker.stage == Stage::Classing(probe),
    ensures
        steps <= probe_rank(probe),
        tracker_run(server, tracker, probe_request(probe), steps) == class_probed(
            server,
            tracker,
            probe,
        ),
    decreases probe_rank(probe),
{
    lemma_probe_step(server, probe);
    match probe_stepped(probe, server(probe_request(probe))) {
        Probed::Ask(next, request) => {
            let stepped = TrackerView { stage: Stage::Classing(next), ..tracker };
            let rest = lemma_class_probe_ends(server, stepped, next);
            rest + 1
        },
        _ => 0,
    }
}

/// A probe in a tree search is through after at most six steps.
pub proof fn lemma_search_probe_ends(
    server: spec_fn(Request) -> Reply,
    tracker: TrackerView,
    probe: Probe,
) -> (steps: nat)
    requires
        tracker.stage == Stage::Searching(probe),
    ensures
        steps <= probe_rank(probe),
        tracker_run(server, tracker, probe_request(probe), steps) == search_probed(
            server,
            tracker,
            probe,
        ),
    decreases probe_rank(probe),
{
    lemma_probe_step(server, probe);
    match probe_stepped(probe, server(probe_request(probe))) {
        Probed::Ask(next, request) => {
            let stepped = TrackerView { stage: Stage::Searching(next), ..tracker };
            let rest = lemma_search_probe_ends(server, stepped, next);
            rest + 1
        },
        _ => 0,
    }
}

/// A class lookup that stands at a probe comes to an end.
pub proof fn lemma_class_ends_from(
    server: spec_fn(Request) -> Reply,
    tracker: TrackerView,
    probe: Probe,
) -> (steps: nat)
    requires
        tracker.stage == Stage::Classing(probe),
        tracker.depth <= MAX_DEPTH,
    ensures
        !(tracker_run(server, tracker, probe_request(probe), steps).1 is Ask),
    decreases MAX_DEPTH - tracker.depth,
{
    let probing = lemma_class_probe_ends(server, tracker, probe);
    let (probed, outcome) = class_probed(server, tracker, probe);
    match outcome {
        Outcome::Ask(open) => {
            let (next, more) = tracker_resumed(probed, server(open));
            match more {
                Outcome::Ask(request) => {
                    let parent = next.stage->Classing_0;
                    let rest = lemma_class_ends_from(server, next, parent);
                    lemma_run_continues(server, probed, open, 0, rest);
                    lemma_run_continues(server, tracker, probe_request(probe), probing, 1 + rest);
                    probing + 2 + rest
                },
                _ => {
                    lemma_run_continues(server, tracker, probe_request(probe), probing, 0);
                    probing + 1
                },
            }
        },
        _ => probing,
    }
}

/// Every class lookup comes to an end, and finds the window's class.
pub proof fn lemma_class_lookup_ends(
    server: spec_fn(Request) -> Reply,
    tracker: TrackerView,
    window: Window,
) -> (steps: nat)
    ensures
        tracker_run(server, class_begun(tracker, window).0, class_begun(tracker, window).1, steps).1
            == Outcome::Class(class_of(server, window, MAX_DEPTH as nat)),
{
    let (begun, request) = class_begun(tracker, window);
    let steps = lemma_class_ends_from(server, begun, probe_begun(window).0);
    lemma_class_lookup_finds_class(server, tracker, window, steps);
    steps
}

/// The stack with no child left in its last frame.
pub open spec fn exhausted(stack: Seq<FrameView>) -> Seq<FrameView> {
    stack.drop_last().push(
        FrameView { next: stack.last().children.len(), ..stack.last() },
    )
}

/// The last frame of the stack has a child left, and the stack is no deeper
/// than the search may go.
pub open spec fn child_left(stack: Seq<FrameView>) -> bool {
    &&& 0 < stack.len() <= MAX_DEPTH
    &&& stack.last().next < stack.last().children.len()
}

/// Where the search stands does not bear on how it goes on.
proof fn lemma_search_continued_alike(a: TrackerView, b: TrackerView, stack: Seq<FrameView>)
    requires
        a.root == b.root,
        a.last_seen == b.last_seen,
        a.polling == b.polling,
        a.depth == b.depth,
    ensures
        search_continued(a, stack) == search_continued(b, stack),
{
}

/// A frame without a child left is as good as gone.
proof fn lemma_exhausted_is_dropped(tracker: TrackerView, stack: Seq<FrameView>)
    requires
        stack.len() > 0,
    ensures
        search_continued(tracker, exhausted(stack)) == search_continued(tracker, stack.drop_last()),
{
    assert(exhausted(stack).drop_last() =~= stack.drop_last());
}

/// The search is through with the child in hand, and with all that lies below
/// it, after finitely many steps: then it has either come to an end, or it
/// goes on with the child passed over.
pub proof fn lemma_child_ends(
    server: spec_fn(Request) -> Reply,
    tracker: TrackerView,
    stack: Seq<FrameView>,
) -> (steps: nat)
    requires
        child_left(stack),
    ensures
        ({
            let (begun, first) = search_continued(tracker, stack);
            let after = tracker_run(server, begun, first->Ask_0, steps);
            first is Ask && (!(after.1 is Ask) || after == search_continued(
                tracker,
                passed_over(stack),
            ))
        }),
    decreases MAX_DEPTH - stack.len(), 0nat,
{
    lemma_settled_has_child(stack);
    let (begun, first) = search_continued(tracker, stack);
    let child = stack.last().children[stack.last().next as int];
    let probe = probe_begun(child).0;
    let request = probe_begun(child).1;
    let probing = lemma_search_probe_ends(server, begun, probe);
    let (probed, outcome) = search_probed(server, begun, probe);
    let passed = passed_over(stack);
    if probe_yield(server, probe) is Some {
        probing
    } else if passed.len() >= MAX_DEPTH {
        lemma_search_continued_alike(begun, tracker, passed);
        probing
    } else {
        let open = Request::Tree(child);
        lemma_run_continues(server, begun, request, probing, 0);
        match server(open) {
            Reply::Tree { children, .. } => {
                let frame = FrameView { children: children@, next: 0 };
                let deeper = passed.push(frame);
                assert(deeper.drop_last() =~= passed);
                lemma_search_continued_alike(probed, tracker, deeper);
                if children@.len() == 0 {
                    lemma_exhausted_is_dropped(tracker, deeper);
                    probing + 1
                } else {
                    let below = lemma_frame_ends(server, tracker, deeper);
                    lemma_exhausted_is_dropped(tracker, deeper);
                    lemma_run_continues(server, probed, open, 0, below);
                    lemma_run_continues(server, begun, request, probing, 1 + below);
                    probing + 2 + below
                }
            },
            _ => {
                lemma_search_continued_alike(probed, tracker, passed);
                probing + 1
            },
        }
    }
}

/// The search is through with the children that are left in the last frame
/// after finitely many steps: then it has either come to an end, or it goes on
/// without that frame.
pub proof fn lemma_frame_ends(
    server: spec_fn(Request) -> Reply,
    tracker: TrackerView,
    stack: Seq<FrameView>,
) -> (steps: nat)
    requires
        child_left(stack),
    ensures
        ({
            let (begun, first) = search_continued(tracker, stack);
            let after = tracker_run(server, begun, first->Ask_0, steps);
            first is Ask && (!(after.1 is Ask) || after == search_continued(
                tracker,
                exhausted(stack),
            ))
        }),
    decreases MAX_DEPTH - stack.len(), 1 + stack.last().children.len() - stack.last().next,
{
    let (begun, first) = search_continued(tracker, stack);
    let child = lemma_child_ends(server, tracker, stack);
    let after = tracker_run(server, begun, first->Ask_0, child);
    let passed = passed_over(stack);
    assert(passed.drop_last() =~= stack.drop_last());
    if !(after.1 is Ask) {
        child
    } else if passed.last().next >= passed.last().children.len() {
        child
    } else {
        let rest = lemma_frame_ends(server, tracker, passed);
        lemma_run_continues(server, begun, first->Ask_0, child, rest);
        child + 1 + rest
    }
}

/// Every lookup of the foreground window comes to an end.
pub proof fn lemma_lookup_ends(
    server: spec_fn(Request) -> Reply,
    tracker: TrackerView,
    polling: bool,
) -> (steps: nat)
    ensures
        ({
            let (begun, request) = lookup_begun(tracker, polling);
            let (after, outcome) = tracker_run(server, begun, request, steps);
            let window = foreground(server, tracker.root);
            &&& after.last_seen == Some(window)
            &&& after.stage == Stage::Idle
            &&& outcome == if polling {
                Outcome::Changed(tracker.last_seen != Some(window))
            } else {
                Outcome::Window(window)
            }
        }),
{
    let (begun, request) = lookup_begun(tracker, polling);
    let steps = lemma_lookup_ends_from(server, begun);
    lemma_lookup_finds_foreground(server, tracker, polling, steps);
    steps
}

/// A lookup that has just begun comes to an end.
proof fn lemma_lookup_ends_from(server: spec_fn(Request) -> Reply, begun: TrackerView) -> (steps:
    nat)
    requires
        begun.stage == Stage::Property,
    ensures
        !(tracker_run(server, begun, Request::ActiveWindowProperty, steps).1 is Ask),
{
    let (focusing, first) = tracker_resumed(begun, server(Request::ActiveWindowProperty));
    if !(first is Ask) {
        return 0;
    }
    let (listing, second) = tracker_resumed(focusing, server(Request::InputFocus));
    if !(second is Ask) {
        lemma_run_continues(server, begun, Request::ActiveWindowProperty, 0, 0);
        return 1;
    }
    let open = Request::Tree(begun.root);
    let (searching, third) = tracker_resumed(listing, server(open));
    lemma_run_continues(server, focusing, Request::InputFocus, 0, 0);
    if !(third is Ask) {
        lemma_run_continues(server, begun, Request::ActiveWindowProperty, 0, 1);
        return 2;
    }
    let children = server(open)->Tree_children;
    let stack = seq![FrameView { children: children@, next: 0 }];
    lemma_settled_has_child(stack);
    assert(stack.drop_last() =~= Seq::<FrameView>::empty());
    let below = lemma_frame_ends(server, listing, stack);
    lemma_exhausted_is_dropped(listing, stack);
    lemma_run_continues(server, listing, open, 0, below);
    lemma_run_continues(server, focusing, Request::InputFocus, 0, 1 + below);
    lemma_run_continues(server, begun, Request::ActiveWindowProperty, 0, 2 + below);
    3 + below
}

/// A run of so many steps and then of some more is a run of as many steps as
/// both together.
pub proof fn lemma_engine_run_continues(
    server: spec_fn(Request) -> Reply,
    engine: EngineView,
    request: Option<Request>,
    steps: nat,
    more: nat,
)
    ensures
        engine_run(server, engine, request, steps + more) == engine_run(
            server,
            engine_run(server, engine, request, steps).0,
            engine_run(server, engine, request, steps).1,
            more,
        ),
    decreases steps,
{
    if steps > 0 && request is Some {
        let (next, open) = engine_resumed(engine, server(request->0));
        lemma_engine_run_continues(server, next, open, (steps - 1) as nat, more);
    }
}

/// While the tracker of an engine has a lookup in hand, the engine goes as
/// the tracker goes: when the lookup has come to an end, the engine has made
/// its move on what the lookup came to.
pub proof fn lemma_engine_follows_tracker(
    server: spec_fn(Request) -> Reply,
    engine: EngineView,
    request: Request,
    lookup: nat,
) -> (steps: nat)
    requires
        engine.phase == Phase::Polling || engine.phase == Phase::Resolving || engine.phase
            == Phase::Classifying,
        !(tracker_run(server, engine.tracker, request, lookup).1 is Ask),
    ensures
        steps > 0,
        engine_run(server, engine, Some(request), steps) == followed(
            engine,
            tracker_run(server, engine.tracker, request, lookup).0,
            tracker_run(server, engine.tracker, request, lookup).1,
        ),
    decreases lookup,
{
    reveal_with_fuel(engine_run, 2);
    let (next, outcome) = tracker_resumed(engine.tracker, server(request));
    match outcome {
        Outcome::Ask(more) => {
            let stepped = EngineView { tracker: next, ..engine };
            let rest = lemma_engine_follows_tracker(server, stepped, more, (lookup - 1) as nat);
            rest + 1
        },
        _ => 1,
    }
}

/// The grabs come to an end.
proof fn lemma_grabbing_ends(
    server: spec_fn(Request) -> Reply,
    engine: EngineView,
    request: Option<Request>,
) -> (steps: nat)
    requires
        engine.phase is Grabbing || engine.phase == Phase::Idle,
        engine.phase == Phase::Idle <==> request is None,
        engine.phase is Grabbing ==> engine.phase->Grabbing_variant <= 3,
    ensures
        engine_run(server, engine, request, steps).1 is None,
    decreases
            (if engine.phase is Grabbing && engine.next < engine.grabbed.len() {
                4 * (engine.grabbed.len() - engine.next) - engine.phase->Grabbing_variant
            } else {
                0
            }),
            (if engine.phase is Grabbing {
                1nat
            } else {
                0nat
            }),
{
    match request {
        None => 0,
        Some(open) => {
            let (next, more) = engine_resumed(engine, server(open));
            let rest = lemma_grabbing_ends(server, next, more);
            rest + 1
        },
    }
}

/// The registering of the remaps comes to an end, and so do the grabs after
/// it.
proof fn lemma_registering_ends(
    server: spec_fn(Request) -> Reply,
    engine: EngineView,
    request: Option<Request>,
) -> (steps: nat)
    requires
        engine.phase is Registering || engine.phase is Grabbing || engine.phase == Phase::Idle,
        engine.phase == Phase::Idle <==> request is None,
        engine.phase is Grabbing ==> engine.phase->Grabbing_variant <= 3,
    ensures
        engine_run(server, engine, request, steps).1 is None,
    decreases
            (if engine.phase is Registering && engine.next <= engine.remaps.len() {
                1 + engine.remaps.len() - engine.next
            } else {
                0
            }),
{
    if engine.phase is Registering {
        let open = request->0;
        let (next, more) = engine_resumed(engine, server(open));
        lemma_next_valid_bounds(sources(engine.remaps), engine.next);
        let rest = if next.phase is Registering {
            lemma_registering_ends(server, next, more)
        } else {
            lemma_grabbing_ends(server, next, more)
        };
        rest + 1
    } else {
        lemma_grabbing_ends(server, engine, request)
    }
}

/// The next key expression that can be parsed lies at or after the place
/// where the search for it began, and within the list.
pub proof fn lemma_next_valid_bounds(keys: Seq<Seq<char>>, from: nat)
    ensures
        from <= keys.len() ==> from <= next_valid(keys, from) <= keys.len(),
        from >= keys.len() ==> next_valid(keys, from) == keys.len(),
    decreases keys.len() - from,
{
    if from < keys.len() && !(crate::key_mapper::parse_expr(keys[from as int]) is Ok) {
        lemma_next_valid_bounds(keys, from + 1);
    }
}

/// Every rebuild comes to an end, and then the engine fits the foreground
/// window: remapped keys go to that window, the dispatch table is the table of
/// the remaps that apply to the window's class, the grabbed keys are the keys
/// of the table, and each of them was grabbed four times.
pub proof fn lemma_rebuild_ends(server: spec_fn(Request) -> Reply, engine: EngineView) -> (steps:
    nat)
    ensures
        ({
            let (begun, request) = rebuild_begun(engine);
            let (done, open) = engine_run(server, begun, request, steps);
            let window = foreground(server, engine.tracker.root);
            let remaps = remaps_in_force(server, engine.rules, engine.tracker.root);
            &&& open is None
            &&& done.phase == Phase::Idle
            &&& done.target == window
            &&& done.tracker.last_seen == Some(window)
            &&& done.handlers == table_of(server, remaps)
            &&& done.grabbed == grabs_of(server, remaps)
            &&& grabs_issued(server, begun, request, steps) == grabs_of_keys(done.grabbed, 0)
        }),
{
    let steps = lemma_rebuild_ends_only(server, engine);
    lemma_rebuild_result(server, engine, steps);
    lemma_rebuild_grabs(server, engine, steps);
    steps
}

proof fn lemma_rebuild_ends_only(server: spec_fn(Request) -> Reply, engine: EngineView) -> (steps:
    nat)
    ensures
        engine_run(server, rebuild_begun(engine).0, rebuild_begun(engine).1, steps).1 is None,
{
    reveal_with_fuel(engine_run, 2);
    let (begun, request) = rebuild_begun(engine);
    let (resolving, first) = engine_resumed(begun, server(request->0));
    // the lookup of the foreground window
    let lookup = lemma_lookup_ends(server, begun.tracker, false);
    let found = lemma_engine_follows_tracker(server, resolving, first->0, lookup);
    let (classifying, second) = engine_run(server, resolving, first, found);
    lemma_engine_run_continues(server, begun, request, 1, found);
    // the lookup of its class
    let window = foreground(server, begun.tracker.root);
    let class = lemma_class_lookup_ends(server, classifying.tracker, window);
    let classed = lemma_engine_follows_tracker(server, classifying, second->0, class);
    let (registering, third) = engine_run(server, classifying, second, classed);
    lemma_engine_run_continues(server, begun, request, 1 + found, classed);
    // the remaps and the grabs
    lemma_next_valid_bounds(sources(registering.remaps), 0);
    let rest = lemma_registering_ends(server, registering, third);
    lemma_engine_run_continues(server, begun, request, 1 + found + classed, rest);
    1 + found + classed + rest
}

/// How many steps a sender has left at most before it goes on to the next
/// key.
pub open spec fn send_rank(stage: SendStage) -> nat {
    match stage {
        SendStage::Idle => 0,
        SendStage::Resolving { .. } => 3,
        SendStage::Pressing { .. } => 2,
        SendStage::Releasing => 1,
    }
}

/// The sending of keys comes to an end.
pub proof fn lemma_sending_ends(
    server: spec_fn(Request) -> Reply,
    engine: EngineView,
    request: Option<Request>,
) -> (steps: nat)
    requires
        engine.phase == Phase::Sending || engine.phase == Phase::Idle,
        engine.phase == Phase::Idle <==> request is None,
        engine.sender.stage == SendStage::Idle <==> request is None,
    ensures
        engine_run(server, engine, request, steps).1 is None,
    decreases
            (if engine.sender.next <= engine.sender.keys.len() {
                engine.sender.keys.len() - engine.sender.next
            } else {
                0
            }),
            send_rank(engine.sender.stage),
{
    match request {
        None => 0,
        Some(open) => {
            let (next, more) = engine_resumed(engine, server(open));
            lemma_next_valid_bounds(engine.sender.keys, engine.sender.next);
            let rest = lemma_sending_ends(server, next, more);
            rest + 1
        },
    }
}

/// The work that a key press starts comes to an end. Then a key that the
/// table holds has had the events of its action's key expressions sent to the
/// target window, in order, and any other key has had nothing sent. Table,
/// grabs and target are as they were.
pub proof fn lemma_key_press_ends(
    server: spec_fn(Request) -> Reply,
    engine: EngineView,
    keycode: crate::server::KeyCode,
    state: u32,
) -> (steps: nat)
    requires
        engine.phase == Phase::Idle,
    ensures
        ({
            let key = KeyPress { keycode, modifiers: recognized(state) };
            let (begun, request) = key_pressed(engine, keycode, state);
            let (done, open) = engine_run(server, begun, request, steps);
            &&& open is None
            &&& done == (EngineView { sender: done.sender, ..engine })
            &&& events_sent(server, begun, request, steps) == if engine.handlers.contains_key(
                key,
            ) {
                events_of(
                    server,
                    engine.target,
                    crate::event_handler::keys_of(engine.handlers[key]),
                    0,
                )
            } else {
                Seq::empty()
            }
        }),
{
    let (begun, request) = key_pressed(engine, keycode, state);
    let steps = if request is None {
        0
    } else {
        lemma_next_valid_bounds(begun.sender.keys, 0);
        lemma_sending_ends(server, begun, request)
    };
    lemma_key_press_result(server, engine, keycode, state, steps);
    steps
}

/// The work that a property change starts comes to an end. Then, if the
/// foreground window is the one seen last, table, grabs and target are as they
/// were; else the engine was rebuilt and fits the new foreground window.
pub proof fn lemma_property_change_ends(server: spec_fn(Request) -> Reply, engine: EngineView)
    -> (steps: nat)
    ensures
        ({
            let settling = EngineView { phase: Phase::Settling, ..engine };
            let (done, open) = engine_run(
                server,
                settling,
                Some(Request::Settle(SETTLE_MILLIS)),
                steps,
            );
            let window = foreground(server, engine.tracker.root);
            let remaps = remaps_in_force(server, engine.rules, engine.tracker.root);
            &&& open is None
            &&& done.phase == Phase::Idle
            &&& done.tracker.last_seen == Some(window)
            &&& if engine.tracker.last_seen == Some(window) {
                &&& done.handlers == engine.handlers
                &&& done.grabbed == engine.grabbed
                &&& done.target == engine.target
            } else {
                &&& done.handlers == table_of(server, remaps)
                &&& done.grabbed == grabs_of(server, remaps)
                &&& done.target == window
            }
        }),
{
    let steps = lemma_property_change_ends_only(server, engine);
    lemma_property_change_result(server, engine, steps);
    steps
}

proof fn lemma_property_change_ends_only(server: spec_fn(Request) -> Reply, engine: EngineView)
    -> (steps: nat)
    ensures
        engine_run(
            server,
            EngineView { phase: Phase::Settling, ..engine },
            Some(Request::Settle(SETTLE_MILLIS)),
            steps,
        ).1 is None,
{
    reveal_with_fuel(engine_run, 2);
    let settling = EngineView { phase: Phase::Settling, ..engine };
    let request = Some(Request::Settle(SETTLE_MILLIS));
    let (polling, first) = engine_resumed(settling, server(request->0));
    let lookup = lemma_lookup_ends(server, engine.tracker, true);
    let polled = lemma_engine_follows_tracker(server, polling, first->0, lookup);
    let (after, second) = engine_run(server, polling, first, polled);
    lemma_engine_run_continues(server, settling, request, 1, polled);
    if second is None {
        1 + polled
    } else {
        let rebuild = lemma_rebuild_ends_only(
            server,
            EngineView { tracker: after.tracker, ..polling },
        );
        lemma_engine_run_continues(server, settling, request, 1 + polled, rebuild);
        1 + polled + rebuild
    }
}

} // verus!
