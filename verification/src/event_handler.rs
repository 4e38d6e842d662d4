//! The remap engine: it keeps the key grabs and the dispatch table in step
//! with the foreground window, and answers key presses with the keys they are
//! remapped to.
//!
//! The engine handles one event at a time. A handler begins the work and
//! hands out the first [`Request`]; [`EventHandler::resume`] takes each reply
//! and hands out the next request, until it returns `None`: the engine is idle
//! again and the next event may come.

use crate::config::{
    remap_views, remaps_for, ActionView, Config, KeyAction, Remap, RemapView, RuleView,
};
use crate::key_mapper::{
    advanced, next_valid, parse_expr, recognized, resumed, KeyMapper, KeyPress, SenderView,
    CONTROL_MASK, LOCK_MASK, MOD1_MASK, MOD2_MASK, MOD4_MASK, SHIFT_MASK,
};
use crate::server::{KeyCode, Reply, Request, Window};
use crate::window_manager::{
    class_begun, lookup_begun, tracker_resumed, Outcome, Progress, TrackerView, WindowManager,
};
use std::collections::HashMap;
use vstd::prelude::*;

verus! {

broadcast use vstd::std_specs::hash::group_hash_axioms;

/// How long the engine waits after a property change before it looks at the
/// foreground window, in milliseconds: window managers are slow to bring a
/// window's properties up to date.
pub const SETTLE_MILLIS: u64 = 100;

/// What the engine is doing.
#[derive(Debug, Clone, Copy, PartialEq, Eq, Structural)]
pub enum Phase {
    /// Nothing: the table and the grabs fit the foreground window.
    Idle,
    /// A property changed: the settle delay is running.
    Settling,
    /// A property changed: the tracker finds out whether the foreground
    /// window is another one.
    Polling,
    /// Rebuilding: the release of all grabs was asked for.
    Releasing,
    /// Rebuilding: the tracker looks for the foreground window.
    Resolving,
    /// Rebuilding: the tracker looks for the window's class.
    Classifying,
    /// Rebuilding: the keycode of a remap's source key was asked for.
    Registering { modifiers: u32 },
    /// Rebuilding: the grabs are issued; `variant` counts the four grabs of
    /// one key.
    Grabbing { variant: u8 },
    /// A remapped key was pressed: the keys it stands for are sent.
    Sending,
}

/// Handles the events of the display server: key presses, property changes
/// and keymap changes.
pub struct EventHandler {
    config: Config,
    window_manager: WindowManager,
    key_mapper: KeyMapper,
    key_handlers: HashMap<u64, KeyAction>,
    grabbed_keys: Vec<KeyPress>,
    target_window: Window,
    phase: Phase,
    remaps: Vec<Remap>,
    next: usize,
}

/// An [`EventHandler`]'s state.
pub struct EngineView {
    /// The rules, which never change.
    pub rules: Seq<RuleView>,
    pub tracker: TrackerView,
    pub sender: SenderView,
    /// The dispatch table: what each grabbed key stands for.
    pub handlers: Map<KeyPress, ActionView>,
    /// The grabbed keys, each once, in the order in which they were first
    /// registered.
    pub grabbed: Seq<KeyPress>,
    /// The window that remapped keys are sent to.
    pub target: Window,
    pub phase: Phase,
    /// Rebuilding: the remaps that apply to the foreground window.
    pub remaps: Seq<RemapView>,
    /// Rebuilding: how many remaps are dealt with or, when grabbing, how many
    /// keys.
    pub next: nat,
}

/// The number under which the dispatch table files a key.
pub open spec fn key_index(key: KeyPress) -> u64 {
    (key.keycode * 0x1_0000_0000 + key.modifiers) as u64
}

/// The dispatch table by key, each action as text.
pub open spec fn handler_views(table: Map<u64, KeyAction>) -> Map<KeyPress, ActionView> {
    Map::new(
        |key: KeyPress| table.contains_key(key_index(key)),
        |key: KeyPress| table[key_index(key)]@,
    )
}

/// Table and grabbed keys fit together: every grabbed key is there once, and
/// the grabbed keys are the keys that the table holds.
pub open spec fn fitting(handlers: Map<KeyPress, ActionView>, grabbed: Seq<KeyPress>) -> bool {
    &&& grabbed.no_duplicates()
    &&& forall|key: KeyPress| handlers.contains_key(key) <==> grabbed.contains(key)
}

/// The source key expressions of a list of remaps.
pub open spec fn sources(remaps: Seq<RemapView>) -> Seq<Seq<char>> {
    Seq::new(remaps.len(), |i: int| remaps[i].from)
}

/// The key expressions that an action sends, in order.
pub open spec fn keys_of(action: ActionView) -> Seq<Seq<char>> {
    match action {
        ActionView::Single(key) => seq![key],
        ActionView::Multiple(keys) => keys,
    }
}

/// The four masks under which a key is grabbed, so that it is caught whatever
/// the state of the two lock keys: as it is, with num lock, with caps lock,
/// with both.
pub open spec fn lock_variant(modifiers: u32, variant: u8) -> u32 {
    if variant == 0 {
        modifiers
    } else if variant == 1 {
        modifiers | MOD2_MASK
    } else if variant == 2 {
        modifiers | LOCK_MASK
    } else {
        modifiers | MOD2_MASK | LOCK_MASK
    }
}

/// The rebuild begins: table and grabbed keys are empty, nothing of an
/// earlier rebuild is kept, and the release of all grabs is asked for.
pub open spec fn rebuild_begun(engine: EngineView) -> (EngineView, Option<Request>) {
    (
        EngineView {
            handlers: Map::empty(),
            grabbed: Seq::empty(),
            phase: Phase::Releasing,
            remaps: Seq::empty(),
            next: 0,
            ..engine
        },
        Some(Request::UngrabAll),
    )
}

/// The grabs go on with variant `variant` of the key at `index`. After the
/// last key the engine is idle.
pub open spec fn grabbing_continued(engine: EngineView, index: nat, variant: u8) -> (
    EngineView,
    Option<Request>,
) {
    if index >= engine.grabbed.len() {
        (EngineView { phase: Phase::Idle, next: 0, ..engine }, None)
    } else {
        (
            EngineView { phase: Phase::Grabbing { variant }, next: index, ..engine },
            Some(
                Request::Grab(
                    KeyPress {
                        keycode: engine.grabbed[index as int].keycode,
                        modifiers: lock_variant(engine.grabbed[index as int].modifiers, variant),
                    },
                ),
            ),
        )
    }
}

/// The registering goes on with the remaps from `from` on: one whose source
/// cannot be parsed is dropped; for the first whose source can, the keycode of
/// its symbol is asked for. After the last remap the grabs are issued.
pub open spec fn registering_continued(engine: EngineView, from: nat) -> (
    EngineView,
    Option<Request>,
) {
    let at = next_valid(sources(engine.remaps), from);
    if at >= engine.remaps.len() {
        grabbing_continued(engine, 0, 0)
    } else {
        let parsed = parse_expr(engine.remaps[at as int].from)->Ok_0;
        (
            EngineView {
                phase: Phase::Registering { modifiers: parsed.1 },
                next: at + 1,
                ..engine
            },
            Some(Request::Keycode(parsed.0)),
        )
    }
}

/// The remap in hand is bound to its key: it takes the place of what the
/// table held for that key, and the key joins the grabbed keys unless it is
/// among them.
pub open spec fn registered(engine: EngineView, keycode: KeyCode, modifiers: u32) -> EngineView {
    let key = KeyPress { keycode, modifiers };
    EngineView {
        handlers: engine.handlers.insert(key, engine.remaps[engine.next - 1].to),
        grabbed: if engine.grabbed.contains(key) {
            engine.grabbed
        } else {
            engine.grabbed.push(key)
        },
        ..engine
    }
}

/// What pressing a key makes of an idle engine: a key that the table holds
/// has its keys sent to the target window; any other changes nothing.
pub open spec fn key_pressed(engine: EngineView, keycode: KeyCode, state: u32) -> (
    EngineView,
    Option<Request>,
) {
    let key = KeyPress { keycode, modifiers: recognized(state) };
    if engine.handlers.contains_key(key) {
        let (sender, request) = advanced(engine.target, keys_of(engine.handlers[key]), 0);
        (
            EngineView {
                sender,
                phase: if request is Some {
                    Phase::Sending
                } else {
                    Phase::Idle
                },
                ..engine
            },
            request,
        )
    } else {
        (engine, None)
    }
}

/// What the engine makes of a step of its tracker. While the tracker asks,
/// the engine passes the request on. A poll that says "changed" begins a
/// rebuild, and any other leaves the engine as it is; the foreground window
/// becomes the target, and its class is looked up next; the class gives the
/// remaps, which are registered next.
pub open spec fn followed(engine: EngineView, tracker: TrackerView, outcome: Outcome) -> (
    EngineView,
    Option<Request>,
) {
    let kept = EngineView { tracker, ..engine };
    match (engine.phase, outcome) {
        (_, Outcome::Ask(request)) => (kept, Some(request)),
        (Phase::Polling, Outcome::Changed(true)) => rebuild_begun(kept),
        (Phase::Resolving, Outcome::Window(window)) => (
            EngineView {
                tracker: class_begun(tracker, window).0,
                target: window,
                phase: Phase::Classifying,
                ..engine
            },
            Some(class_begun(tracker, window).1),
        ),
        (Phase::Classifying, Outcome::Class(class)) => registering_continued(
            EngineView { remaps: remaps_for(engine.rules, class), ..kept },
            0,
        ),
        _ => (EngineView { phase: Phase::Idle, ..kept }, None),
    }
}

/// What the engine does with a reply.
pub open spec fn engine_resumed(engine: EngineView, reply: Reply) -> (EngineView, Option<Request>) {
    match engine.phase {
        Phase::Idle => (engine, None),
        Phase::Settling => (
            EngineView {
                tracker: lookup_begun(engine.tracker, true).0,
                phase: Phase::Polling,
                ..engine
            },
            Some(lookup_begun(engine.tracker, true).1),
        ),
        Phase::Releasing => (
            EngineView {
                tracker: lookup_begun(engine.tracker, false).0,
                phase: Phase::Resolving,
                ..engine
            },
            Some(lookup_begun(engine.tracker, false).1),
        ),
        Phase::Polling | Phase::Resolving | Phase::Classifying => followed(
            engine,
            tracker_resumed(engine.tracker, reply).0,
            tracker_resumed(engine.tracker, reply).1,
        ),
        Phase::Registering { modifiers } => match reply {
            Reply::Keycode(keycode) if keycode != 0 && 0 < engine.next <= engine.remaps.len() =>
                registering_continued(registered(engine, keycode, modifiers), engine.next),
            _ => registering_continued(engine, engine.next),
        },
        Phase::Grabbing { variant } => if variant < 3 {
            grabbing_continued(engine, engine.next, (variant + 1) as u8)
        } else {
            grabbing_continued(engine, engine.next + 1, 0)
        },
        Phase::Sending => {
            let (sender, request) = resumed(engine.sender, reply);
            (
                EngineView {
                    sender,
                    phase: if request is Some {
                        Phase::Sending
                    } else {
                        Phase::Idle
                    },
                    ..engine
                },
                request,
            )
        },
    }
}

/// The engine is idle exactly when it asks nothing more.
pub proof fn lemma_idle_when_nothing_asked(engine: EngineView, reply: Reply)
    ensures
        engine_resumed(engine, reply).1 is None <==> engine_resumed(engine, reply).0.phase
            == Phase::Idle,
{
}

/// Two keys are filed under the same number only if they are the same key.
pub proof fn lemma_key_index_injective(a: KeyPress, b: KeyPress)
    ensures
        key_index(a) == key_index(b) <==> a == b,
{
}

/// Filing an action under a key's number binds the key to the action.
proof fn lemma_handler_insert(table: Map<u64, KeyAction>, key: KeyPress, action: KeyAction)
    ensures
        handler_views(table.insert(key_index(key), action)) == handler_views(table).insert(
            key,
            action@,
        ),
{
    assert forall|other: KeyPress|
        key_index(other) == key_index(key) implies other == key by {
        lemma_key_index_injective(other, key);
    }
}

/// Table and grabbed keys of a new engine fit together, and whatever the
/// engine does with an event or a reply, they go on fitting together.
pub proof fn lemma_fitting_kept(engine: EngineView, reply: Reply, keycode: KeyCode, state: u32)
    requires
        fitting(engine.handlers, engine.grabbed),
    ensures
        fitting(Map::<KeyPress, ActionView>::empty(), Seq::<KeyPress>::empty()),
        fitting(engine_resumed(engine, reply).0.handlers, engine_resumed(engine, reply).0.grabbed),
        fitting(rebuild_begun(engine).0.handlers, rebuild_begun(engine).0.grabbed),
        fitting(
            key_pressed(engine, keycode, state).0.handlers,
            key_pressed(engine, keycode, state).0.grabbed,
        ),
{
    if let Phase::Registering { modifiers } = engine.phase {
        if let Reply::Keycode(keycode) = reply {
            lemma_fitting_bound(
                engine.handlers,
                engine.grabbed,
                KeyPress { keycode, modifiers },
                engine.remaps[engine.next - 1].to,
            );
        }
    }
}

/// Binding a key keeps table and grabbed keys fitting together.
pub proof fn lemma_fitting_bound(
    handlers: Map<KeyPress, ActionView>,
    grabbed: Seq<KeyPress>,
    key: KeyPress,
    action: ActionView,
)
    requires
        fitting(handlers, grabbed),
    ensures
        fitting(
            handlers.insert(key, action),
            if grabbed.contains(key) {
                grabbed
            } else {
                grabbed.push(key)
            },
        ),
{
    if !grabbed.contains(key) {
        let grown = grabbed.push(key);
        assert forall|other: KeyPress| handlers.insert(key, action).contains_key(other)
            <==> grown.contains(other) by {
            if grabbed.contains(other) {
                let i = choose|i: int| 0 <= i < grabbed.len() && grabbed[i] == other;
                assert(grown[i] == other);
            }
            if other == key {
                assert(grown[grabbed.len() as int] == key);
            }
        }
    }
}

fn index_of(key: KeyPress) -> (index: u64)
    ensures
        index == key_index(key),
{
    key.keycode as u64 * 0x1_0000_0000 + key.modifiers as u64
}

fn has_key(keys: &Vec<KeyPress>, key: KeyPress) -> (found: bool)
    ensures
        found == keys@.contains(key),
{
    let mut i: usize = 0;
    while i < keys.len()
        invariant
            i <= keys.len(),
            forall|k: int| 0 <= k < i ==> keys@[k] != key,
        decreases keys.len() - i,
    {
        if keys[i] == key {
            return true;
        }
        i += 1;
    }
    false
}

/// Enters an action for a key in the table, over what the table held for the
/// key, and adds the key to the grabbed keys unless it is among them.
fn bind(
    table: &mut HashMap<u64, KeyAction>,
    keys: &mut Vec<KeyPress>,
    key: KeyPress,
    action: KeyAction,
)
    ensures
        handler_views(final(table)@) == handler_views(old(table)@).insert(key, action@),
        final(keys)@ == if old(keys)@.contains(key) {
            old(keys)@
        } else {
            old(keys)@.push(key)
        },
{
    proof {
        lemma_handler_insert(table@, key, action);
    }
    if !has_key(keys, key) {
        keys.push(key);
    }
    table.insert(index_of(key), action);
}

/// Empties table and grabbed keys.
fn unbind_all(table: &mut HashMap<u64, KeyAction>, keys: &mut Vec<KeyPress>)
    ensures
        handler_views(final(table)@) == Map::<KeyPress, ActionView>::empty(),
        final(keys)@ == Seq::<KeyPress>::empty(),
{
    table.clear();
    keys.clear();
    assert(handler_views(table@) =~= Map::empty());
}

fn with_locks(modifiers: u32, variant: u8) -> (mask: u32)
    ensures
        mask == lock_variant(modifiers, variant),
{
    if variant == 0 {
        modifiers
    } else if variant == 1 {
        modifiers | MOD2_MASK
    } else if variant == 2 {
        modifiers | LOCK_MASK
    } else {
        modifiers | MOD2_MASK | LOCK_MASK
    }
}

impl View for EventHandler {
    type V = EngineView;

    closed spec fn view(&self) -> EngineView {
        EngineView {
            rules: self.config@,
            tracker: self.window_manager@,
            sender: self.key_mapper@,
            handlers: handler_views(self.key_handlers@),
            grabbed: self.grabbed_keys@,
            target: self.target_window,
            phase: self.phase,
            remaps: remap_views(self.remaps@),
            next: self.next as nat,
        }
    }
}

impl EventHandler {
    /// An idle engine for the display whose root window is `root_window`,
    /// with an empty table and no grabs. [`EventHandler::initialize`] builds
    /// the table.
    pub fn new(root_window: Window, config: Config) -> (handler: EventHandler)
        ensures
            handler@ == (EngineView {
                rules: config@,
                tracker: WindowManager::new_view(root_window),
                sender: KeyMapper::new_view(),
                handlers: Map::empty(),
                grabbed: Seq::empty(),
                target: root_window,
                phase: Phase::Idle,
                remaps: Seq::empty(),
                next: 0,
            }),
    {
        let key_handlers: HashMap<u64, KeyAction> = HashMap::new();
        let remaps: Vec<Remap> = Vec::new();
        assert(handler_views(key_handlers@) =~= Map::empty());
        assert(remap_views(remaps@) =~= Seq::empty());
        EventHandler {
            config,
            window_manager: WindowManager::new(root_window),
            key_mapper: KeyMapper::new(),
            key_handlers,
            grabbed_keys: Vec::new(),
            target_window: root_window,
            phase: Phase::Idle,
            remaps,
            next: 0,
        }
    }

    /// Whether the engine is idle, so that the next event may be handled.
    pub fn is_idle(&self) -> (idle: bool)
        ensures
            idle == (self@.phase == Phase::Idle),
    {
        self.phase == Phase::Idle
    }

    /// What the engine is doing.
    pub fn phase(&self) -> (phase: Phase)
        ensures
            phase == self@.phase,
    {
        self.phase
    }

    /// The window that remapped keys are sent to.
    pub fn target_window(&self) -> (window: Window)
        ensures
            window == self@.target,
    {
        self.target_window
    }

    /// The grabbed keys, in the order in which they were first registered.
    pub fn grabbed_keys(&self) -> (keys: Vec<KeyPress>)
        ensures
            keys@ == self@.grabbed,
    {
        self.grabbed_keys.clone()
    }

    /// What the dispatch table holds for a key.
    pub fn handler(&self, key: KeyPress) -> (action: Option<KeyAction>)
        ensures
            match action {
                Some(found) => self@.handlers.contains_key(key) && found@ == self@.handlers[key],
                None => !self@.handlers.contains_key(key),
            },
    {
        let index = index_of(key);
        match self.key_handlers.get(&index) {
            Some(action) => Some(action.clone()),
            None => None,
        }
    }

    /// Builds the table and the grabs for the first time.
    pub fn initialize(&mut self) -> (request: Option<Request>)
        requires
            old(self)@.phase == Phase::Idle,
        ensures
            (final(self)@, request) == rebuild_begun(old(self)@),
    {
        self.update_key_mappings()
    }

    /// A key was pressed with the modifier state `state`. Of the state only
    /// control, shift, alt and super count.
    pub fn handle_key_press(&mut self, keycode: KeyCode, state: u32) -> (request: Option<Request>)
        requires
            old(self)@.phase == Phase::Idle,
        ensures
            (final(self)@, request) == key_pressed(old(self)@, keycode, state),
            request is None <==> final(self)@.phase == Phase::Idle,
    {
        let filtered = state & (CONTROL_MASK | SHIFT_MASK | MOD1_MASK | MOD4_MASK);
        let key = KeyPress { keycode, modifiers: filtered };
        let index = index_of(key);
        let keys: Vec<String> = match self.key_handlers.get(&index) {
            Some(KeyAction::Single(key_expr)) => {
                let mut keys: Vec<String> = Vec::new();
                keys.push(key_expr.clone());
                assert(crate::config::texts_of(keys@) =~= keys_of(self@.handlers[key]));
                keys
            },
            Some(KeyAction::Multiple(key_exprs)) => {
                let keys = key_exprs.clone();
                keys
            },
            None => {
                return None;
            },
        };
        let request = self.key_mapper.send_key_sequence(self.target_window, keys.as_slice());
        if request.is_some() {
            self.phase = Phase::Sending;
        }
        request
    }

    /// A property of the root window changed, which may mean that another
    /// window came to the foreground. After the settle delay the engine looks
    /// at the foreground window, and rebuilds only if it is another one.
    pub fn handle_property_notify(&mut self) -> (request: Option<Request>)
        requires
            old(self)@.phase == Phase::Idle,
        ensures
            final(self)@ == (EngineView { phase: Phase::Settling, ..old(self)@ }),
            request == Some(Request::Settle(SETTLE_MILLIS)),
    {
        self.phase = Phase::Settling;
        Some(Request::Settle(SETTLE_MILLIS))
    }

    /// The keyboard mapping changed: the engine rebuilds in any case.
    pub fn handle_mapping_notify(&mut self) -> (request: Option<Request>)
        requires
            old(self)@.phase == Phase::Idle,
        ensures
            (final(self)@, request) == rebuild_begun(old(self)@),
    {
        self.update_key_mappings()
    }

    /// Begins the rebuild of table and grabs.
    fn update_key_mappings(&mut self) -> (request: Option<Request>)
        ensures
            (final(self)@, request) == rebuild_begun(old(self)@),
    {
        unbind_all(&mut self.key_handlers, &mut self.grabbed_keys);
        self.remaps = Vec::new();
        self.next = 0;
        self.phase = Phase::Releasing;
        assert(remap_views(self.remaps@) =~= Seq::empty());
        self.ungrab_all_keys()
    }

    fn ungrab_all_keys(&self) -> (request: Option<Request>)
        ensures
            request == Some(Request::UngrabAll),
    {
        Some(Request::UngrabAll)
    }

    /// Goes on with the grabs at variant `variant` of the key at `index`.
    fn grab_keys(&mut self, index: usize, variant: u8) -> (request: Option<Request>)
        ensures
            (final(self)@, request) == grabbing_continued(old(self)@, index as nat, variant),
    {
        if index >= self.grabbed_keys.len() {
            self.phase = Phase::Idle;
            self.next = 0;
            None
        } else {
            self.phase = Phase::Grabbing { variant };
            self.next = index;
            let key = self.grabbed_keys[index];
            Some(
                Request::Grab(
                    KeyPress {
                        keycode: key.keycode,
                        modifiers: with_locks(key.modifiers, variant),
                    },
                ),
            )
        }
    }

    /// Goes on with the remaps from `from` on.
    fn next_remap(&mut self, from: usize) -> (request: Option<Request>)
        ensures
            (final(self)@, request) == registering_continued(old(self)@, from as nat),
    {
        let ghost froms = sources(self@.remaps);
        let mut at = from;
        while at < self.remaps.len()
            invariant
                self@ == old(self)@,
                froms == sources(self@.remaps),
                from <= at,
                next_valid(froms, from as nat) == next_valid(froms, at as nat),
            decreases self.remaps.len() - at,
        {
            match self.key_mapper.parse_key(self.remaps[at].from.as_str()) {
                Ok((symbol, modifiers)) => {
                    self.phase = Phase::Registering { modifiers };
                    self.next = at + 1;
                    return Some(Request::Keycode(symbol));
                },
                Err(_) => {
                    at += 1;
                },
            }
        }
        self.grab_keys(0, 0)
    }

    /// Binds the remap in hand to the key that its source resolved to.
    fn register_remap(&mut self, keycode: KeyCode, modifiers: u32)
        requires
            0 < old(self)@.next <= old(self)@.remaps.len(),
        ensures
            final(self)@ == registered(old(self)@, keycode, modifiers),
    {
        let key = KeyPress { keycode, modifiers };
        let action = self.remaps[self.next - 1].to.clone();
        bind(&mut self.key_handlers, &mut self.grabbed_keys, key, action);
    }

    /// Takes the reply to the last request and hands out the next one;
    /// `None` when the engine is idle again.
    pub fn resume(&mut self, reply: Reply) -> (request: Option<Request>)
        ensures
            (final(self)@, request) == engine_resumed(old(self)@, reply),
            request is None <==> final(self)@.phase == Phase::Idle,
    {
        proof {
            lemma_idle_when_nothing_asked(old(self)@, reply);
        }
        match self.phase {
            Phase::Idle => None,
            Phase::Settling => {
                self.phase = Phase::Polling;
                Some(self.window_manager.has_window_changed())
            },
            Phase::Polling => {
                match self.window_manager.resume(reply) {
                    Progress::Ask(request) => Some(request),
                    Progress::Changed(true) => self.update_key_mappings(),
                    _ => {
                        self.phase = Phase::Idle;
                        None
                    },
                }
            },
            Phase::Releasing => {
                self.phase = Phase::Resolving;
                Some(self.window_manager.get_active_window())
            },
            Phase::Resolving => {
                match self.window_manager.resume(reply) {
                    Progress::Ask(request) => Some(request),
                    Progress::Window(window) => {
                        self.target_window = window;
                        self.phase = Phase::Classifying;
                        Some(self.window_manager.get_window_class(window))
                    },
                    _ => {
                        self.phase = Phase::Idle;
                        None
                    },
                }
            },
            Phase::Classifying => {
                match self.window_manager.resume(reply) {
                    Progress::Ask(request) => Some(request),
                    Progress::Class(class) => {
                        self.remaps = match &class {
                            Some(name) => self.config.remaps_for_window(Some(name.as_str())),
                            None => self.config.remaps_for_window(None),
                        };
                        self.next_remap(0)
                    },
                    _ => {
                        self.phase = Phase::Idle;
                        None
                    },
                }
            },
            Phase::Registering { modifiers } => {
                if let Reply::Keycode(keycode) = reply {
                    if keycode != 0 && 0 < self.next && self.next <= self.remaps.len() {
                        self.register_remap(keycode, modifiers);
                    }
                }
                self.next_remap(self.next)
            },
            Phase::Grabbing { variant } => {
                if variant < 3 {
                    self.grab_keys(self.next, variant + 1)
                } else if self.next < self.grabbed_keys.len() {
                    self.grab_keys(self.next + 1, 0)
                } else {
                    // no key is in hand, so none is left
                    self.grab_keys(self.next, 0)
                }
            },
            Phase::Sending => {
                let request = self.key_mapper.resume(reply);
                if request.is_none() {
                    self.phase = Phase::Idle;
                }
                request
            },
        }
    }
}

} // verus!
