//! Which window is in the foreground, and what its class is.
//!
//! Window metadata is often missing, so both questions go through a chain of
//! fallbacks, each tried only when the one before gave nothing usable. Every
//! step of a chain is one [`Request`]; [`WindowManager::resume`] takes the
//! reply and decides what comes next.

use crate::server::{PropertyKey, Reply, Request, Window, ENCODING_STRING, POINTER_ROOT};
use vstd::prelude::*;

verus! {

/// How deep below the root the window tree is searched, and how many
/// ancestors of a window are asked for its class.
pub const MAX_DEPTH: usize = 20;

/// Where the reading of one window's own text properties stands: the property
/// in hand, and whether its decoding to a string list was asked for.
#[derive(Debug, Clone, Copy, PartialEq, Eq, Structural)]
pub struct Probe {
    pub window: Window,
    pub key: PropertyKey,
    pub decoding: bool,
}

/// What the reading of one window's text properties has come to.
pub enum Probed {
    /// Another request is needed.
    Ask(Probe, Request),
    /// A property gave a text that is not empty.
    Found(Seq<char>),
    /// No property gave one.
    Absent,
}

/// [`Probed`] with the text as a string.
#[derive(Debug, PartialEq, Eq)]
pub enum ProbeResult {
    Ask(Probe, Request),
    Found(String),
    Absent,
}

impl View for ProbeResult {
    type V = Probed;

    open spec fn view(&self) -> Probed {
        match self {
            ProbeResult::Ask(probe, request) => Probed::Ask(*probe, *request),
            ProbeResult::Found(text) => Probed::Found(text@),
            ProbeResult::Absent => Probed::Absent,
        }
    }
}

/// The text that `String::from_utf8_lossy` makes of bytes.
pub uninterp spec fn lossy_text(bytes: Seq<u8>) -> Seq<char>;

/// Calls `String::from_utf8_lossy` and takes the result as an owned string.
#[verifier::external_body]
fn decode_lossy(bytes: &Vec<u8>) -> (text: String)
    ensures
        text@ == lossy_text(bytes@),
{
    String::from_utf8_lossy(bytes).into_owned()
}

/// The number of bytes before the first zero byte; all of them if there is
/// none.
pub open spec fn c_string_len(bytes: Seq<u8>) -> nat
    decreases bytes.len(),
{
    if bytes.len() == 0 || bytes.first() == 0 {
        0
    } else {
        1 + c_string_len(bytes.drop_first())
    }
}

/// The bytes before the first zero byte.
pub open spec fn c_string(bytes: Seq<u8>) -> Seq<u8> {
    bytes.take(c_string_len(bytes) as int)
}

/// The property tried after `key`, if any.
pub open spec fn key_after(key: PropertyKey) -> Option<PropertyKey> {
    match key {
        PropertyKey::Class => Some(PropertyKey::NetName),
        PropertyKey::NetName => Some(PropertyKey::Name),
        PropertyKey::Name => None,
    }
}

/// The first step of reading a window's properties: its class property.
pub open spec fn probe_begun(window: Window) -> (Probe, Request) {
    (
        Probe { window, key: PropertyKey::Class, decoding: false },
        Request::TextProperty(window, PropertyKey::Class),
    )
}

/// Gives the current property up and goes on to the next.
pub open spec fn probe_moved_on(probe: Probe) -> Probed {
    match key_after(probe.key) {
        Some(key) => Probed::Ask(
            Probe { window: probe.window, key, decoding: false },
            Request::TextProperty(probe.window, key),
        ),
        None => Probed::Absent,
    }
}

/// A text that is not empty is the answer; an empty one counts as none.
pub open spec fn probe_accepted(probe: Probe, text: Seq<char>) -> Probed {
    if text.len() > 0 {
        Probed::Found(text)
    } else {
        probe_moved_on(probe)
    }
}

/// One step of reading a window's text properties. A property in the plain
/// 8-bit encoding is taken as it is, up to its first zero byte. One in
/// another encoding is decoded to a string list, of which the first counts.
pub open spec fn probe_stepped(probe: Probe, reply: Reply) -> Probed {
    if !probe.decoding {
        match reply {
            Reply::Text { encoding, value } if value@.len() > 0 => {
                if encoding == ENCODING_STRING {
                    probe_accepted(probe, lossy_text(c_string(value@)))
                } else {
                    Probed::Ask(
                        Probe { decoding: true, ..probe },
                        Request::TextList(probe.window, probe.key),
                    )
                }
            },
            _ => probe_moved_on(probe),
        }
    } else {
        match reply {
            Reply::TextList(list) if list@.len() > 0 => probe_accepted(probe, list@[0]@),
            _ => probe_moved_on(probe),
        }
    }
}

/// Cuts the bytes off at the first zero byte.
fn cut_at_nul(bytes: &mut Vec<u8>)
    ensures
        final(bytes)@ == c_string(old(bytes)@),
{
    let mut i: usize = 0;
    assert(bytes@.subrange(0, bytes.len() as int) =~= bytes@);
    while i < bytes.len() && bytes[i] != 0
        invariant
            i <= bytes.len(),
            c_string_len(bytes@) == i + c_string_len(bytes@.subrange(i as int, bytes.len() as int)),
        decreases bytes.len() - i,
    {
        assert(bytes@.subrange(i as int, bytes.len() as int).drop_first() =~= bytes@.subrange(
            i + 1,
            bytes.len() as int,
        ));
        i += 1;
    }
    bytes.truncate(i);
}

fn begin_probe(window: Window) -> (begun: (Probe, Request))
    ensures
        begun == probe_begun(window),
{
    (
        Probe { window, key: PropertyKey::Class, decoding: false },
        Request::TextProperty(window, PropertyKey::Class),
    )
}

fn move_on(probe: Probe) -> (result: ProbeResult)
    ensures
        result@ == probe_moved_on(probe),
{
    match probe.key {
        PropertyKey::Class => ProbeResult::Ask(
            Probe { window: probe.window, key: PropertyKey::NetName, decoding: false },
            Request::TextProperty(probe.window, PropertyKey::NetName),
        ),
        PropertyKey::NetName => ProbeResult::Ask(
            Probe { window: probe.window, key: PropertyKey::Name, decoding: false },
            Request::TextProperty(probe.window, PropertyKey::Name),
        ),
        PropertyKey::Name => ProbeResult::Absent,
    }
}

fn accept(probe: Probe, text: String) -> (result: ProbeResult)
    ensures
        result@ == probe_accepted(probe, text@),
{
    if text.as_str().is_empty() {
        move_on(probe)
    } else {
        ProbeResult::Found(text)
    }
}

/// One step of reading a window's class from its own text properties, without
/// a look at its ancestors.
pub fn try_get_class_direct(probe: Probe, reply: Reply) -> (result: ProbeResult)
    ensures
        result@ == probe_stepped(probe, reply),
{
    if !probe.decoding {
        match reply {
            Reply::Text { encoding, value } => {
                if value.len() == 0 {
                    move_on(probe)
                } else if encoding == ENCODING_STRING {
                    let mut bytes = value;
                    cut_at_nul(&mut bytes);
                    accept(probe, decode_lossy(&bytes))
                } else {
                    ProbeResult::Ask(
                        Probe { window: probe.window, key: probe.key, decoding: true },
                        Request::TextList(probe.window, probe.key),
                    )
                }
            },
            _ => move_on(probe),
        }
    } else {
        match reply {
            Reply::TextList(list) => {
                if list.len() == 0 {
                    move_on(probe)
                } else {
                    accept(probe, list[0].clone())
                }
            },
            _ => move_on(probe),
        }
    }
}

/// The children of one window in the tree search, and how many of them are
/// dealt with.
pub struct Frame {
    children: Vec<Window>,
    next: usize,
}

/// A [`Frame`] as plain values.
pub struct FrameView {
    pub children: Seq<Window>,
    pub next: nat,
}

impl View for Frame {
    type V = FrameView;

    closed spec fn view(&self) -> FrameView {
        FrameView { children: self.children@, next: self.next as nat }
    }
}

/// The frames of a stack as plain values, the innermost last.
pub open spec fn frame_views(stack: Seq<Frame>) -> Seq<FrameView> {
    Seq::new(stack.len(), |i: int| stack[i]@)
}

/// What a [`WindowManager`] is waiting for.
#[derive(Debug, Clone, Copy, PartialEq, Eq, Structural)]
pub enum Stage {
    /// Nothing.
    Idle,
    /// The root window's "active window" property.
    Property,
    /// The window that has the input focus.
    Focus,
    /// Tree search: the children of this window.
    Listing(Window),
    /// Tree search: a text property of the window under test.
    Searching(Probe),
    /// Class lookup: a text property of the window, or of an ancestor.
    Classing(Probe),
    /// Class lookup: the parent of this window.
    Climbing(Window),
}

/// What a step of a [`WindowManager`] came to.
pub enum Outcome {
    /// Another request is needed.
    Ask(Request),
    /// The foreground window.
    Window(Window),
    /// Whether the foreground window is another one than last time.
    Changed(bool),
    /// The window's class, if anything gave one.
    Class(Option<Seq<char>>),
    /// Nothing was in progress.
    Idle,
}

/// [`Outcome`] with the class as a string.
#[derive(Debug, PartialEq, Eq)]
pub enum Progress {
    Ask(Request),
    Window(Window),
    Changed(bool),
    Class(Option<String>),
    Idle,
}

impl View for Progress {
    type V = Outcome;

    open spec fn view(&self) -> Outcome {
        match self {
            Progress::Ask(request) => Outcome::Ask(*request),
            Progress::Window(window) => Outcome::Window(*window),
            Progress::Changed(changed) => Outcome::Changed(*changed),
            Progress::Class(Some(class)) => Outcome::Class(Some(class@)),
            Progress::Class(None) => Outcome::Class(None),
            Progress::Idle => Outcome::Idle,
        }
    }
}

/// Tracks the foreground window: finds it and its class through the
/// fallback chains, and remembers the window found last.
pub struct WindowManager {
    root_window: Window,
    current_window: Option<Window>,
    polling: bool,
    stage: Stage,
    stack: Vec<Frame>,
    depth: usize,
}

/// A [`WindowManager`]'s state.
pub struct TrackerView {
    /// The root window.
    pub root: Window,
    /// The foreground window found last.
    pub last_seen: Option<Window>,
    /// Whether the lookup in progress is to say if the window changed.
    pub polling: bool,
    pub stage: Stage,
    /// Tree search: the windows whose children are under test, the innermost
    /// last.
    pub stack: Seq<FrameView>,
    /// Class lookup: how many steps above the window the ancestor in hand is.
    pub depth: nat,
}

impl View for WindowManager {
    type V = TrackerView;

    closed spec fn view(&self) -> TrackerView {
        TrackerView {
            root: self.root_window,
            last_seen: self.current_window,
            polling: self.polling,
            stage: self.stage,
            stack: frame_views(self.stack@),
            depth: self.depth as nat,
        }
    }
}

/// The state with nothing in progress.
pub open spec fn at_rest(tracker: TrackerView) -> TrackerView {
    TrackerView { polling: false, stage: Stage::Idle, stack: Seq::empty(), depth: 0, ..tracker }
}

/// The lookup of the foreground window begins with the root window's "active
/// window" property.
pub open spec fn lookup_begun(tracker: TrackerView, polling: bool) -> (TrackerView, Request) {
    (
        TrackerView { polling, stage: Stage::Property, ..at_rest(tracker) },
        Request::ActiveWindowProperty,
    )
}

/// The lookup of a window's class begins with the window's own properties.
pub open spec fn class_begun(tracker: TrackerView, window: Window) -> (TrackerView, Request) {
    (
        TrackerView { stage: Stage::Classing(probe_begun(window).0), ..at_rest(tracker) },
        probe_begun(window).1,
    )
}

/// The foreground window is found: it is remembered, and the result says
/// which window it is or, where that was the question, whether it is another
/// one than the window remembered before.
pub open spec fn resolved(tracker: TrackerView, window: Window) -> (TrackerView, Outcome) {
    let after = TrackerView { last_seen: Some(window), ..at_rest(tracker) };
    if tracker.polling {
        (after, Outcome::Changed(tracker.last_seen != Some(window)))
    } else {
        (after, Outcome::Window(window))
    }
}

/// The stack without the frames at its end of which no child is left.
pub open spec fn settled(stack: Seq<FrameView>) -> Seq<FrameView>
    decreases stack.len(),
{
    if stack.len() == 0 {
        stack
    } else if stack.last().next >= stack.last().children.len() {
        settled(stack.drop_last())
    } else {
        stack
    }
}

/// In a settled stack the last frame has a child left.
pub proof fn lemma_settled_has_child(stack: Seq<FrameView>)
    ensures
        settled(stack).len() <= stack.len(),
        settled(stack).len() > 0 ==> settled(stack).last().next < settled(
            stack,
        ).last().children.len(),
        settled(settled(stack)) == settled(stack),
    decreases stack.len(),
{
    if stack.len() > 0 && stack.last().next >= stack.last().children.len() {
        lemma_settled_has_child(stack.drop_last());
    }
}

/// The stack with the current child of its last frame passed over.
pub open spec fn passed_over(stack: Seq<FrameView>) -> Seq<FrameView> {
    if stack.len() > 0 && stack.last().next < stack.last().children.len() {
        stack.drop_last().push(FrameView { next: stack.last().next + 1, ..stack.last() })
    } else {
        stack
    }
}

/// The tree search goes on with the next child that is left, innermost
/// first. With none left the root window itself counts as the foreground
/// window.
pub open spec fn search_continued(tracker: TrackerView, stack: Seq<FrameView>) -> (
    TrackerView,
    Outcome,
) {
    let rest = settled(stack);
    if rest.len() == 0 {
        resolved(tracker, tracker.root)
    } else {
        let child = rest.last().children[rest.last().next as int];
        (
            TrackerView { stage: Stage::Searching(probe_begun(child).0), stack: rest, ..tracker },
            Outcome::Ask(probe_begun(child).1),
        )
    }
}

/// What a tracker does with a reply.
///
/// The foreground window is, in this order: what the "active window"
/// property names, unless that is no window or the root; the window that has
/// the input focus, unless that is no window, the pointer root or the root;
/// the first window found below the root, at most [`MAX_DEPTH`] levels down,
/// each window before its children, whose own text properties give a text;
/// the root.
///
/// A window's class is the first text that its own properties give or, failing
/// that, those of its parent, and so on for at most [`MAX_DEPTH`] ancestors
/// below the root.
pub open spec fn tracker_resumed(tracker: TrackerView, reply: Reply) -> (TrackerView, Outcome) {
    match tracker.stage {
        Stage::Idle => (tracker, Outcome::Idle),
        Stage::Property => match reply {
            Reply::Window(window) if window != 0 && window != tracker.root => resolved(
                tracker,
                window,
            ),
            _ => (TrackerView { stage: Stage::Focus, ..tracker }, Outcome::Ask(Request::InputFocus)),
        },
        Stage::Focus => match reply {
            Reply::Window(window) if window != 0 && window != POINTER_ROOT && window
                != tracker.root => resolved(tracker, window),
            _ => (
                TrackerView {
                    stage: Stage::Listing(tracker.root),
                    stack: Seq::empty(),
                    ..tracker
                },
                Outcome::Ask(Request::Tree(tracker.root)),
            ),
        },
        Stage::Listing(_) => match reply {
            Reply::Tree { children, .. } => search_continued(
                tracker,
                tracker.stack.push(FrameView { children: children@, next: 0 }),
            ),
            _ => search_continued(tracker, tracker.stack),
        },
        Stage::Searching(probe) => match probe_stepped(probe, reply) {
            Probed::Ask(next, request) => (
                TrackerView { stage: Stage::Searching(next), ..tracker },
                Outcome::Ask(request),
            ),
            Probed::Found(_) => resolved(tracker, probe.window),
            Probed::Absent => {
                let stack = passed_over(tracker.stack);
                if stack.len() < MAX_DEPTH {
                    (
                        TrackerView { stage: Stage::Listing(probe.window), stack, ..tracker },
                        Outcome::Ask(Request::Tree(probe.window)),
                    )
                } else {
                    search_continued(tracker, stack)
                }
            },
        },
        Stage::Classing(probe) => match probe_stepped(probe, reply) {
            Probed::Ask(next, request) => (
                TrackerView { stage: Stage::Classing(next), ..tracker },
                Outcome::Ask(request),
            ),
            Probed::Found(text) => (at_rest(tracker), Outcome::Class(Some(text))),
            Probed::Absent => (
                TrackerView { stage: Stage::Climbing(probe.window), ..tracker },
                Outcome::Ask(Request::Tree(probe.window)),
            ),
        },
        Stage::Climbing(_) => match reply {
            Reply::Tree { root, parent, .. } if parent != 0 && parent != root && tracker.depth
                < MAX_DEPTH => (
                TrackerView {
                    stage: Stage::Classing(probe_begun(parent).0),
                    depth: tracker.depth + 1,
                    ..tracker
                },
                Outcome::Ask(probe_begun(parent).1),
            ),
            _ => (at_rest(tracker), Outcome::Class(None)),
        },
    }
}

impl WindowManager {
    /// The state of a new tracker: idle, and no foreground window seen yet.
    pub open spec fn new_view(root_window: Window) -> TrackerView {
        TrackerView {
            root: root_window,
            last_seen: None,
            polling: false,
            stage: Stage::Idle,
            stack: Seq::empty(),
            depth: 0,
        }
    }

    /// A tracker for the display whose root window is `root_window`. It has
    /// seen no foreground window yet.
    pub fn new(root_window: Window) -> (manager: WindowManager)
        ensures
            manager@ == Self::new_view(root_window),
    {
        let stack: Vec<Frame> = Vec::new();
        assert(frame_views(stack@) =~= Seq::empty());
        WindowManager {
            root_window,
            current_window: None,
            polling: false,
            stage: Stage::Idle,
            stack,
            depth: 0,
        }
    }

    /// The root window.
    pub fn root_window(&self) -> (root: Window)
        ensures
            root == self@.root,
    {
        self.root_window
    }

    /// The foreground window found last.
    pub fn current_window(&self) -> (window: Option<Window>)
        ensures
            window == self@.last_seen,
    {
        self.current_window
    }

    /// What the tracker is waiting for.
    pub fn stage(&self) -> (stage: Stage)
        ensures
            stage == self@.stage,
    {
        self.stage
    }

    fn rest(&mut self)
        ensures
            final(self)@ == at_rest(old(self)@),
    {
        self.polling = false;
        self.stage = Stage::Idle;
        self.stack = Vec::new();
        self.depth = 0;
        assert(frame_views(self.stack@) =~= Seq::empty());
    }

    fn begin_lookup(&mut self, polling: bool) -> (request: Request)
        ensures
            (final(self)@, request) == lookup_begun(old(self)@, polling),
    {
        self.rest();
        self.polling = polling;
        self.stage = Stage::Property;
        Request::ActiveWindowProperty
    }

    /// Begins to find the foreground window. [`WindowManager::resume`] takes
    /// the replies and ends with [`Progress::Window`].
    pub fn get_active_window(&mut self) -> (request: Request)
        ensures
            (final(self)@, request) == lookup_begun(old(self)@, false),
    {
        self.begin_lookup(false)
    }

    /// Begins to find out whether the foreground window is another one than
    /// the one found last. [`WindowManager::resume`] takes the replies and
    /// ends with [`Progress::Changed`].
    pub fn has_window_changed(&mut self) -> (request: Request)
        ensures
            (final(self)@, request) == lookup_begun(old(self)@, true),
    {
        self.begin_lookup(true)
    }

    /// Begins to find the class of a window. [`WindowManager::resume`] takes
    /// the replies and ends with [`Progress::Class`].
    pub fn get_window_class(&mut self, window: Window) -> (request: Request)
        ensures
            (final(self)@, request) == class_begun(old(self)@, window),
    {
        self.rest();
        let (probe, request) = begin_probe(window);
        self.stage = Stage::Classing(probe);
        request
    }

    fn resolve(&mut self, window: Window) -> (progress: Progress)
        ensures
            (final(self)@, progress@) == resolved(old(self)@, window),
    {
        let changed = match self.current_window {
            Some(seen) => seen != window,
            None => true,
        };
        let polling = self.polling;
        self.rest();
        self.current_window = Some(window);
        if polling {
            Progress::Changed(changed)
        } else {
            Progress::Window(window)
        }
    }

    fn settle(&mut self)
        ensures
            final(self)@ == (TrackerView { stack: settled(old(self)@.stack), ..old(self)@ }),
    {
        let mut going = true;
        while going && self.stack.len() > 0
            invariant
                settled(self@.stack) == settled(old(self)@.stack),
                self@ == (TrackerView { stack: self@.stack, ..old(self)@ }),
                !going ==> settled(self@.stack) == self@.stack,
            decreases self.stack.len() + (if going { 1nat } else { 0nat }),
        {
            let last = self.stack.len() - 1;
            if self.stack[last].next >= self.stack[last].children.len() {
                let ghost before = self@.stack;
                self.stack.pop();
                assert(self@.stack =~= before.drop_last());
            } else {
                going = false;
            }
        }
    }

    fn pass_over(&mut self)
        ensures
            final(self)@ == (TrackerView { stack: passed_over(old(self)@.stack), ..old(self)@ }),
    {
        let ghost before = self@.stack;
        if self.stack.len() > 0 {
            let last = self.stack.len() - 1;
            if self.stack[last].next < self.stack[last].children.len() {
                let top = self.stack.pop().unwrap();
                let ghost rest = self@.stack;
                assert(rest =~= before.drop_last());
                self.stack.push(Frame { children: top.children, next: top.next + 1 });
                assert(self@.stack =~= rest.push(
                    FrameView { next: before.last().next + 1, ..before.last() },
                ));
            }
        }
    }

    /// Goes on with the search of the window tree for a window that has text
    /// properties of its own.
    fn find_focused_window(&mut self) -> (progress: Progress)
        ensures
            (final(self)@, progress@) == search_continued(old(self)@, old(self)@.stack),
    {
        self.settle();
        proof {
            lemma_settled_has_child(old(self)@.stack);
        }
        if self.stack.len() == 0 {
            let root = self.root_window;
            self.resolve(root)
        } else {
            let last = self.stack.len() - 1;
            let child = self.stack[last].children[self.stack[last].next];
            let (probe, request) = begin_probe(child);
            self.stage = Stage::Searching(probe);
            Progress::Ask(request)
        }
    }

    /// Takes the reply to the last request and says what to do next, or what
    /// the lookup came to.
    pub fn resume(&mut self, reply: Reply) -> (progress: Progress)
        ensures
            (final(self)@, progress@) == tracker_resumed(old(self)@, reply),
    {
        match self.stage {
            Stage::Idle => Progress::Idle,
            Stage::Property => {
                if let Reply::Window(window) = reply {
                    if window != 0 && window != self.root_window {
                        return self.resolve(window);
                    }
                }
                self.stage = Stage::Focus;
                Progress::Ask(Request::InputFocus)
            },
            Stage::Focus => {
                if let Reply::Window(window) = reply {
                    if window != 0 && window != POINTER_ROOT && window != self.root_window {
                        return self.resolve(window);
                    }
                }
                self.stage = Stage::Listing(self.root_window);
                self.stack = Vec::new();
                assert(frame_views(self.stack@) =~= Seq::empty());
                Progress::Ask(Request::Tree(self.root_window))
            },
            Stage::Listing(_) => {
                if let Reply::Tree { root: _, parent: _, children } = reply {
                    let ghost before = self@.stack;
                    self.stack.push(Frame { children, next: 0 });
                    assert(self@.stack =~= before.push(FrameView { children: children@, next: 0 }));
                }
                self.find_focused_window()
            },
            Stage::Searching(probe) => {
                match try_get_class_direct(probe, reply) {
                    ProbeResult::Ask(next, request) => {
                        self.stage = Stage::Searching(next);
                        Progress::Ask(request)
                    },
                    ProbeResult::Found(_) => self.resolve(probe.window),
                    ProbeResult::Absent => {
                        self.pass_over();
                        if self.stack.len() < MAX_DEPTH {
                            self.stage = Stage::Listing(probe.window);
                            Progress::Ask(Request::Tree(probe.window))
                        } else {
                            self.find_focused_window()
                        }
                    },
                }
            },
            Stage::Classing(probe) => {
                match try_get_class_direct(probe, reply) {
                    ProbeResult::Ask(next, request) => {
                        self.stage = Stage::Classing(next);
                        Progress::Ask(request)
                    },
                    ProbeResult::Found(text) => {
                        self.rest();
                        Progress::Class(Some(text))
                    },
                    ProbeResult::Absent => {
                        self.stage = Stage::Climbing(probe.window);
                        Progress::Ask(Request::Tree(probe.window))
                    },
                }
            },
            Stage::Climbing(_) => {
                if let Reply::Tree { root, parent, children: _ } = reply {
                    if parent != 0 && parent != root && self.depth < MAX_DEPTH {
                        let (probe, request) = begin_probe(parent);
                        self.stage = Stage::Classing(probe);
                        self.depth = self.depth + 1;
                        return Progress::Ask(request);
                    }
                }
                self.rest();
                Progress::Class(None)
            },
        }
    }
}

/// A lookup carried through against a display server that gives `server(r)`
/// for the request `r`: the tracker is resumed with the server's reply until
/// it asks nothing more, for at most `steps` further requests.
pub open spec fn tracker_run(
    server: spec_fn(Request) -> Reply,
    tracker: TrackerView,
    request: Request,
    steps: nat,
) -> (TrackerView, Outcome)
    decreases steps,
{
    let (next, outcome) = tracker_resumed(tracker, server(request));
    match outcome {
        Outcome::Ask(more) if steps > 0 => tracker_run(server, next, more, (steps - 1) as nat),
        _ => (next, outcome),
    }
}

} // verus!
