//! What the engine's work comes to when it is carried through against a
//! display server: after a rebuild the engine fits the foreground window, a
//! property change rebuilds only for another window, and a key press sends
//! the keys it stands for.
//!
//! A server is a function from requests to replies: it answers the same
//! request in the same way for as long as the work runs.

use crate::config::{remaps_for, ActionView, RemapView, RuleView};
use crate::dispatch::{grabs_of, lemma_unparsed_add_nothing, table_of};
use crate::event_handler::{
    engine_resumed, key_pressed, keys_of, lock_variant, rebuild_begun, registered,
    registering_continued, sources, EngineView, Phase, SETTLE_MILLIS,
};
use crate::foreground::{
    class_of, class_pending, foreground, lemma_class_begun, lemma_class_step, lemma_lookup_step,
    lookup_pending,
};
use crate::key_mapper::{
    event_in, events_due, events_of, lemma_advanced_sends_rest, lemma_send_step, next_valid,
    parse_expr, recognized, sending, KeyPress,
};
use crate::server::{KeyCode, KeyEvent, Reply, Request, Window};
use crate::window_manager::{tracker_resumed, MAX_DEPTH};
use vstd::prelude::*;

verus! {

/// The engine's work carried through against a display server that gives
/// `server(r)` for the request `r`: the engine is resumed with the server's
/// reply until it is idle, for at most `steps` requests. The second part of
/// the result is the request that is still open, `None` if the work is done.
pub open spec fn engine_run(
    server: spec_fn(Request) -> Reply,
    engine: EngineView,
    request: Option<Request>,
    steps: nat,
) -> (EngineView, Option<Request>)
    decreases steps,
{
    if steps == 0 || request is None {
        (engine, request)
    } else {
        let (next, more) = engine_resumed(engine, server(request->0));
        engine_run(server, next, more, (steps - 1) as nat)
    }
}

/// The remaps that apply to the foreground window, as the display server's
/// answers give its class.
pub open spec fn remaps_in_force(
    server: spec_fn(Request) -> Reply,
    rules: Seq<RuleView>,
    root: Window,
) -> Seq<RemapView> {
    remaps_for(rules, class_of(server, foreground(server, root), MAX_DEPTH as nat))
}

/// What holds of an engine all through a rebuild: the lookups are on their
/// way to the foreground window and its class, and table and grabbed keys are
/// those of the remaps dealt with so far.
pub open spec fn rebuilding(
    server: spec_fn(Request) -> Reply,
    engine: EngineView,
    request: Option<Request>,
) -> bool {
    let window = foreground(server, engine.tracker.root);
    let found = {
        &&& engine.target == window
        &&& engine.tracker.last_seen == Some(window)
    };
    let fetched = {
        &&& found
        &&& engine.remaps == remaps_in_force(server, engine.rules, engine.tracker.root)
    };
    let nothing_yet = {
        &&& request is Some
        &&& engine.remaps == Seq::<RemapView>::empty()
        &&& engine.handlers == Map::<KeyPress, ActionView>::empty()
        &&& engine.grabbed == Seq::<KeyPress>::empty()
    };
    match engine.phase {
        Phase::Releasing => nothing_yet && request == Some(Request::UngrabAll),
        Phase::Resolving => {
            &&& nothing_yet
            &&& !engine.tracker.polling
            &&& lookup_pending(server, engine.tracker, request->0, window)
        },
        Phase::Classifying => {
            &&& nothing_yet
            &&& found
            &&& class_pending(
                server,
                engine.tracker,
                request->0,
                class_of(server, window, MAX_DEPTH as nat),
            )
        },
        Phase::Registering { modifiers } => {
            &&& fetched
            &&& 0 < engine.next <= engine.remaps.len()
            &&& parse_expr(engine.remaps[engine.next - 1].from) is Ok
            &&& parse_expr(engine.remaps[engine.next - 1].from)->Ok_0.1 == modifiers
            &&& request == Some(
                Request::Keycode(parse_expr(engine.remaps[engine.next - 1].from)->Ok_0.0),
            )
            &&& engine.handlers == table_of(server, engine.remaps.take(engine.next - 1))
            &&& engine.grabbed == grabs_of(server, engine.remaps.take(engine.next - 1))
        },
        Phase::Grabbing { variant } => {
            &&& fetched
            &&& variant <= 3
            &&& engine.next < engine.grabbed.len()
            &&& request == Some(
                Request::Grab(
                    KeyPress {
                        keycode: engine.grabbed[engine.next as int].keycode,
                        modifiers: lock_variant(
                            engine.grabbed[engine.next as int].modifiers,
                            variant,
                        ),
                    },
                ),
            )
            &&& engine.handlers == table_of(server, engine.remaps)
            &&& engine.grabbed == grabs_of(server, engine.remaps)
        },
        Phase::Idle => {
            &&& fetched
            &&& request is None
            &&& engine.handlers == table_of(server, engine.remaps)
            &&& engine.grabbed == grabs_of(server, engine.remaps)
        },
        _ => false,
    }
}

proof fn lemma_registering_continued(
    server: spec_fn(Request) -> Reply,
    engine: EngineView,
    from: nat,
)
    requires
        from <= engine.remaps.len(),
        engine.target == foreground(server, engine.tracker.root),
        engine.tracker.last_seen == Some(foreground(server, engine.tracker.root)),
        engine.remaps == remaps_in_force(server, engine.rules, engine.tracker.root),
        engine.handlers == table_of(server, engine.remaps.take(from as int)),
        engine.grabbed == grabs_of(server, engine.remaps.take(from as int)),
    ensures
        rebuilding(
            server,
            registering_continued(engine, from).0,
            registering_continued(engine, from).1,
        ),
{
    lemma_unparsed_add_nothing(server, engine.remaps, from);
    let at = next_valid(sources(engine.remaps), from);
    if at >= engine.remaps.len() {
        assert(engine.remaps.take(at as int) =~= engine.remaps);
    }
}

proof fn lemma_rebuilding_step(server: spec_fn(Request) -> Reply, engine: EngineView, request: Request)
    requires
        rebuilding(server, engine, Some(request)),
    ensures
        rebuilding(
            server,
            engine_resumed(engine, server(request)).0,
            engine_resumed(engine, server(request)).1,
        ),
        engine_resumed(engine, server(request)).0.rules == engine.rules,
        engine_resumed(engine, server(request)).0.tracker.root == engine.tracker.root,
{
    let reply = server(request);
    let window = foreground(server, engine.tracker.root);
    match engine.phase {
        Phase::Resolving => {
            lemma_lookup_step(server, engine.tracker, request, window);
            let (tracker, outcome) = tracker_resumed(engine.tracker, reply);
            if !(outcome is Ask) {
                lemma_class_begun(server, tracker, window);
            }
        },
        Phase::Classifying => {
            let class = class_of(server, window, MAX_DEPTH as nat);
            lemma_class_step(server, engine.tracker, request, class);
            let (tracker, outcome) = tracker_resumed(engine.tracker, reply);
            if !(outcome is Ask) {
                let fetched = EngineView {
                    tracker,
                    remaps: remaps_for(engine.rules, class),
                    ..engine
                };
                lemma_registering_continued(server, fetched, 0);
            }
        },
        Phase::Registering { modifiers } => {
            let n = engine.next;
            assert(engine.remaps.take(n as int).drop_last() =~= engine.remaps.take(n - 1));
            match reply {
                Reply::Keycode(keycode) if keycode != 0 => {
                    lemma_registering_continued(server, registered(engine, keycode, modifiers), n);
                },
                _ => {
                    lemma_registering_continued(server, engine, n);
                },
            }
        },
        _ => {},
    }
}

proof fn lemma_rebuilding_run(
    server: spec_fn(Request) -> Reply,
    engine: EngineView,
    request: Option<Request>,
    steps: nat,
)
    requires
        rebuilding(server, engine, request),
    ensures
        rebuilding(
            server,
            engine_run(server, engine, request, steps).0,
            engine_run(server, engine, request, steps).1,
        ),
        engine_run(server, engine, request, steps).0.rules == engine.rules,
        engine_run(server, engine, request, steps).0.tracker.root == engine.tracker.root,
    decreases steps,
{
    if steps > 0 && request is Some {
        lemma_rebuilding_step(server, engine, request->0);
        let (next, more) = engine_resumed(engine, server(request->0));
        lemma_rebuilding_run(server, next, more, (steps - 1) as nat);
    }
}

/// After a rebuild that ran to its end, the engine fits the foreground
/// window: remapped keys go to that window, the dispatch table is the table of
/// the remaps that apply to the window's class, and the grabbed keys are the
/// keys of the table.
pub proof fn lemma_rebuild_result(
    server: spec_fn(Request) -> Reply,
    engine: EngineView,
    steps: nat,
)
    ensures
        ({
            let (begun, request) = rebuild_begun(engine);
            let (done, open) = engine_run(server, begun, request, steps);
            let window = foreground(server, engine.tracker.root);
            let remaps = remaps_in_force(server, engine.rules, engine.tracker.root);
            open is None ==> {
                &&& done.phase == Phase::Idle
                &&& done.target == window
                &&& done.tracker.last_seen == Some(window)
                &&& done.remaps == remaps
                &&& done.handlers == table_of(server, remaps)
                &&& done.grabbed == grabs_of(server, remaps)
            }
        }),
{
    let (begun, request) = rebuild_begun(engine);
    lemma_rebuilding_run(server, begun, request, steps);
}

/// A rebuild right after a rebuild, with the display server answering as
/// before, ends with the same dispatch table and the same grabbed keys.
pub proof fn lemma_rebuild_twice_same(
    server: spec_fn(Request) -> Reply,
    engine: EngineView,
    steps: nat,
    steps_again: nat,
)
    ensures
        ({
            let (begun, request) = rebuild_begun(engine);
            let (done, open) = engine_run(server, begun, request, steps);
            let (begun_again, request_again) = rebuild_begun(done);
            let (again, open_again) = engine_run(server, begun_again, request_again, steps_again);
            open is None && open_again is None ==> {
                &&& again.handlers == done.handlers
                &&& again.grabbed == done.grabbed
                &&& again.target == done.target
            }
        }),
{
    let (begun, request) = rebuild_begun(engine);
    let (done, open) = engine_run(server, begun, request, steps);
    lemma_rebuilding_run(server, begun, request, steps);
    lemma_rebuild_result(server, engine, steps);
    lemma_rebuild_result(server, done, steps_again);
}

/// What holds of an engine while it deals with a property change that came
/// when it stood at `start`: until the poll has ended nothing but the tracker
/// has changed; after it, either the window is the one seen last and the
/// engine is as it was, or a rebuild is under way.
pub open spec fn polling(
    server: spec_fn(Request) -> Reply,
    start: EngineView,
    engine: EngineView,
    request: Option<Request>,
) -> bool {
    let window = foreground(server, start.tracker.root);
    let tracker_only = {
        &&& engine == (EngineView { tracker: engine.tracker, phase: engine.phase, ..start })
        &&& engine.tracker.root == start.tracker.root
    };
    match engine.phase {
        Phase::Settling => {
            &&& engine == (EngineView { phase: Phase::Settling, ..start })
            &&& request is Some
        },
        Phase::Polling => {
            &&& tracker_only
            &&& request is Some
            &&& engine.tracker.polling
            &&& engine.tracker.last_seen == start.tracker.last_seen
            &&& lookup_pending(server, engine.tracker, request->0, window)
        },
        Phase::Idle => {
            if start.tracker.last_seen == Some(window) {
                &&& tracker_only
                &&& request is None
                &&& engine.tracker.last_seen == Some(window)
            } else {
                rebuilding(server, engine, request)
            }
        },
        _ => {
            &&& start.tracker.last_seen != Some(window)
            &&& engine.rules == start.rules
            &&& engine.tracker.root == start.tracker.root
            &&& rebuilding(server, engine, request)
        },
    }
}

proof fn lemma_polling_run(
    server: spec_fn(Request) -> Reply,
    start: EngineView,
    engine: EngineView,
    request: Option<Request>,
    steps: nat,
)
    requires
        polling(server, start, engine, request),
        engine.phase == Phase::Idle ==> engine.rules == start.rules && engine.tracker.root
            == start.tracker.root,
    ensures
        polling(
            server,
            start,
            engine_run(server, engine, request, steps).0,
            engine_run(server, engine, request, steps).1,
        ),
        engine_run(server, engine, request, steps).0.rules == start.rules,
        engine_run(server, engine, request, steps).0.tracker.root == start.tracker.root,
    decreases steps,
{
    if steps > 0 && request is Some {
        let (next, more) = engine_resumed(engine, server(request->0));
        match engine.phase {
            Phase::Settling => {},
            Phase::Polling => {
                lemma_lookup_step(
                    server,
                    engine.tracker,
                    request->0,
                    foreground(server, start.tracker.root),
                );
            },
            _ => {
                lemma_rebuilding_step(server, engine, request->0);
            },
        }
        lemma_polling_run(server, start, next, more, (steps - 1) as nat);
    }
}

/// After a property change that was dealt with to the end: if the foreground
/// window is the one seen last, table, grabs and target are as they were;
/// else the engine was rebuilt and fits the new foreground window.
pub proof fn lemma_property_change_result(
    server: spec_fn(Request) -> Reply,
    engine: EngineView,
    steps: nat,
)
    ensures
        ({
            let settling = EngineView { phase: Phase::Settling, ..engine };
            let (done, open) = engine_run(
                server,
                settling,
                Some(Request::Settle(SETTLE_MILLIS)),
                steps,
            );
            let window = foreground(server, engine.tracker.root);
            let remaps = remaps_in_force(server, engine.rules, engine.tracker.root);
            open is None ==> {
                &&& done.phase == Phase::Idle
                &&& done.tracker.last_seen == Some(window)
                &&& if engine.tracker.last_seen == Some(window) {
                    &&& done.handlers == engine.handlers
                    &&& done.grabbed == engine.grabbed
                    &&& done.target == engine.target
                } else {
                    &&& done.handlers == table_of(server, remaps)
                    &&& done.grabbed == grabs_of(server, remaps)
                    &&& done.target == window
                }
            }
        }),
{
    let settling = EngineView { phase: Phase::Settling, ..engine };
    lemma_polling_run(server, engine, settling, Some(Request::Settle(SETTLE_MILLIS)), steps);
}

/// The key events among the requests that an engine hands out on its way
/// against a display server, in order.
pub open spec fn events_sent(
    server: spec_fn(Request) -> Reply,
    engine: EngineView,
    request: Option<Request>,
    steps: nat,
) -> Seq<KeyEvent>
    decreases steps,
{
    if steps == 0 || request is None {
        Seq::empty()
    } else {
        let (next, more) = engine_resumed(engine, server(request->0));
        event_in(request) + events_sent(server, next, more, (steps - 1) as nat)
    }
}

proof fn lemma_sending_run(
    server: spec_fn(Request) -> Reply,
    engine: EngineView,
    request: Option<Request>,
    steps: nat,
)
    requires
        engine.phase == Phase::Sending || engine.phase == Phase::Idle,
        engine.phase == Phase::Idle <==> request is None,
        sending(engine.sender, request),
    ensures
        engine_run(server, engine, request, steps).1 is None ==> {
            &&& events_sent(server, engine, request, steps) == events_due(
                server,
                engine.sender,
                request,
            )
            &&& engine_run(server, engine, request, steps).0 == (EngineView {
                sender: engine_run(server, engine, request, steps).0.sender,
                phase: Phase::Idle,
                ..engine
            })
        },
    decreases steps,
{
    if steps > 0 && request is Some {
        lemma_send_step(server, engine.sender, request->0);
        let (next, more) = engine_resumed(engine, server(request->0));
        lemma_sending_run(server, next, more, (steps - 1) as nat);
    }
}

/// A key press that was dealt with to the end has sent, for a key that the
/// table holds, the events of the action's key expressions to the target
/// window, in order, and for any other key nothing. Table, grabs and target
/// are as they were.
pub proof fn lemma_key_press_result(
    server: spec_fn(Request) -> Reply,
    engine: EngineView,
    keycode: KeyCode,
    state: u32,
    steps: nat,
)
    requires
        engine.phase == Phase::Idle,
    ensures
        ({
            let key = KeyPress { keycode, modifiers: recognized(state) };
            let (begun, request) = key_pressed(engine, keycode, state);
            let (done, open) = engine_run(server, begun, request, steps);
            open is None ==> {
                &&& done == (EngineView { sender: done.sender, ..engine })
                &&& events_sent(server, begun, request, steps) == if engine.handlers.contains_key(
                    key,
                ) {
                    events_of(server, engine.target, keys_of(engine.handlers[key]), 0)
                } else {
                    Seq::empty()
                }
            }
        }),
{
    let key = KeyPress { keycode, modifiers: recognized(state) };
    let (begun, request) = key_pressed(engine, keycode, state);
    if engine.handlers.contains_key(key) {
        lemma_advanced_sends_rest(server, engine.target, keys_of(engine.handlers[key]), 0);
        lemma_sending_run(server, begun, request, steps);
    }
}

/// The grabs of one key from variant `from` on: a key is grabbed four times,
/// as it is, with num lock, with caps lock, and with both.
pub open spec fn grabs_of_key(key: KeyPress, from: nat) -> Seq<KeyPress>
    decreases 4 - from,
{
    if from >= 4 {
        Seq::empty()
    } else {
        seq![
            KeyPress { keycode: key.keycode, modifiers: lock_variant(key.modifiers, from as u8) },
        ] + grabs_of_key(key, from + 1)
    }
}

/// The grabs of the keys from `from` on: the four grabs of each key, key after
/// key.
pub open spec fn grabs_of_keys(keys: Seq<KeyPress>, from: nat) -> Seq<KeyPress>
    decreases keys.len() - from,
{
    if from >= keys.len() {
        Seq::empty()
    } else {
        grabs_of_key(keys[from as int], 0) + grabs_of_keys(keys, from + 1)
    }
}

/// The grab that a request asks for, if it asks for one.
pub open spec fn grab_in(request: Option<Request>) -> Seq<KeyPress> {
    match request {
        Some(Request::Grab(key)) => seq![key],
        _ => Seq::empty(),
    }
}

/// The grabs among the requests that an engine hands out on its way against a
/// display server, in order.
pub open spec fn grabs_issued(
    server: spec_fn(Request) -> Reply,
    engine: EngineView,
    request: Option<Request>,
    steps: nat,
) -> Seq<KeyPress>
    decreases steps,
{
    if steps == 0 || request is None {
        Seq::empty()
    } else {
        let (next, more) = engine_resumed(engine, server(request->0));
        grab_in(request) + grabs_issued(server, next, more, (steps - 1) as nat)
    }
}

/// The grabs that a rebuild has still to issue.
pub open spec fn grabs_due(server: spec_fn(Request) -> Reply, engine: EngineView) -> Seq<KeyPress> {
    match engine.phase {
        Phase::Idle => Seq::empty(),
        Phase::Grabbing { variant } => grabs_of_key(
            engine.grabbed[engine.next as int],
            variant as nat,
        ) + grabs_of_keys(engine.grabbed, engine.next + 1),
        _ => grabs_of_keys(
            grabs_of(server, remaps_in_force(server, engine.rules, engine.tracker.root)),
            0,
        ),
    }
}

proof fn lemma_grabs_run(
    server: spec_fn(Request) -> Reply,
    engine: EngineView,
    request: Option<Request>,
    steps: nat,
)
    requires
        rebuilding(server, engine, request),
    ensures
        engine_run(server, engine, request, steps).1 is None ==> grabs_issued(
            server,
            engine,
            request,
            steps,
        ) == grabs_due(server, engine),
    decreases steps,
{
    if steps > 0 && request is Some {
        lemma_rebuilding_step(server, engine, request->0);
        let (next, more) = engine_resumed(engine, server(request->0));
        lemma_grabs_run(server, next, more, (steps - 1) as nat);
        if engine.phase is Grabbing {
            assert(grabs_of_key(engine.grabbed[engine.next as int], 4) =~= Seq::empty());
        }
    }
}

/// A rebuild that ran to its end has asked for the four grabs of every
/// grabbed key, key after key, and for no other grab.
pub proof fn lemma_rebuild_grabs(
    server: spec_fn(Request) -> Reply,
    engine: EngineView,
    steps: nat,
)
    ensures
        ({
            let (begun, request) = rebuild_begun(engine);
            let (done, open) = engine_run(server, begun, request, steps);
            open is None ==> grabs_issued(server, begun, request, steps) == grabs_of_keys(
                done.grabbed,
                0,
            )
        }),
{
    let (begun, request) = rebuild_begun(engine);
    lemma_grabs_run(server, begun, request, steps);
    lemma_rebuild_result(server, engine, steps);
}

} // verus!
