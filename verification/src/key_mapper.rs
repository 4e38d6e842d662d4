//! Key expressions such as `Ctrl-Shift-F2`: their parsing, and the sending of
//! synthetic key events for them.

use crate::server::{KeyCode, KeyEvent, KeyEventKind, KeySym, Reply, Request, Window};
use vstd::prelude::*;
use vstd::string::*;

verus! {

/// The modifier bit of the shift keys.
pub const SHIFT_MASK: u32 = 0x01;

/// The modifier bit of caps lock.
pub const LOCK_MASK: u32 = 0x02;

/// The modifier bit of the control keys.
pub const CONTROL_MASK: u32 = 0x04;

/// The modifier bit of the alt keys.
pub const MOD1_MASK: u32 = 0x08;

/// The modifier bit of num lock.
pub const MOD2_MASK: u32 = 0x10;

/// The modifier bit of the super keys.
pub const MOD4_MASK: u32 = 0x40;

/// The symbol of the backspace key.
pub const XK_BACKSPACE: KeySym = 0xff08;

/// The symbol of the tab key.
pub const XK_TAB: KeySym = 0xff09;

/// The symbol of the return key.
pub const XK_RETURN: KeySym = 0xff0d;

/// The symbol of the escape key.
pub const XK_ESCAPE: KeySym = 0xff1b;

/// The symbol of the delete key.
pub const XK_DELETE: KeySym = 0xffff;

/// The symbol of the home key.
pub const XK_HOME: KeySym = 0xff50;

/// The symbol of the left arrow.
pub const XK_LEFT: KeySym = 0xff51;

/// The symbol of the up arrow.
pub const XK_UP: KeySym = 0xff52;

/// The symbol of the right arrow.
pub const XK_RIGHT: KeySym = 0xff53;

/// The symbol of the down arrow.
pub const XK_DOWN: KeySym = 0xff54;

/// The symbol of the end key.
pub const XK_END: KeySym = 0xff57;

/// The symbol of the space bar.
pub const XK_SPACE: KeySym = 0x20;

/// The symbol of the first function key; those of the others follow it.
pub const XK_F1: KeySym = 0xffbe;

/// The event mask under which a key press is delivered.
pub const KEY_PRESS_MASK: u64 = 0x1;

/// The event mask under which a key release is delivered.
pub const KEY_RELEASE_MASK: u64 = 0x2;

/// A key, and the modifiers held with it: what a key press is known by.
#[derive(Debug, Clone, Copy, PartialEq, Eq, Hash, Structural)]
pub struct KeyPress {
    pub keycode: KeyCode,
    pub modifiers: u32,
}

/// Why a key expression was not understood.
#[derive(Debug, Clone, Copy, PartialEq, Eq, Structural)]
pub enum ParseError {
    /// Nothing follows the last hyphen, or the expression is empty.
    EmptyKey,
    /// The key token is longer than one character and names no key.
    UnknownKey,
}

/// The hyphen-separated tokens of a key expression. There is always at least
/// one; `"C-"` has the tokens `"C"` and `""`.
pub open spec fn tokens(expr: Seq<char>) -> Seq<Seq<char>>
    decreases expr.len(),
{
    if expr.len() == 0 {
        seq![Seq::empty()]
    } else {
        let before = tokens(expr.drop_last());
        if expr.last() == '-' {
            before.push(Seq::empty())
        } else {
            before.drop_last().push(before.last().push(expr.last()))
        }
    }
}

/// The tokens put together again, with a hyphen between each two.
pub open spec fn joined(parts: Seq<Seq<char>>) -> Seq<char>
    decreases parts.len(),
{
    if parts.len() == 0 {
        Seq::empty()
    } else if parts.len() == 1 {
        parts[0]
    } else {
        joined(parts.drop_last()) + seq!['-'] + parts.last()
    }
}

/// The tokens of an expression are its parts between the hyphens: there is
/// at least one, none holds a hyphen, and joined by hyphens they give the
/// expression back.
pub proof fn lemma_tokens_split(expr: Seq<char>)
    ensures
        tokens(expr).len() >= 1,
        joined(tokens(expr)) == expr,
        forall|i: int, j: int|
            0 <= i < tokens(expr).len() && 0 <= j < tokens(expr)[i].len() ==> tokens(
                expr,
            )[i][j] != '-',
    decreases expr.len(),
{
    if expr.len() > 0 {
        let before = tokens(expr.drop_last());
        lemma_tokens_split(expr.drop_last());
        let parts = tokens(expr);
        if expr.last() == '-' {
            assert(parts.drop_last() =~= before);
        } else if before.len() > 1 {
            assert(parts.drop_last() =~= before.drop_last());
            assert(joined(parts) =~= (joined(before.drop_last()) + seq!['-']
                + before.last()).push(expr.last()));
        }
    }
}

/// The value that a table gives for a name: that of the first entry of that
/// name.
pub open spec fn lookup<V>(table: Seq<(Seq<char>, V)>, name: Seq<char>) -> Option<V>
    decreases table.len(),
{
    if table.len() == 0 {
        None
    } else if table.first().0 == name {
        Some(table.first().1)
    } else {
        lookup(table.drop_first(), name)
    }
}

/// The names of the modifiers, with their short forms, and the mask of each.
pub open spec fn modifier_table() -> Seq<(Seq<char>, u32)> {
    seq![
        ("Ctrl"@, CONTROL_MASK),
        ("C"@, CONTROL_MASK),
        ("Alt"@, MOD1_MASK),
        ("M"@, MOD1_MASK),
        ("Shift"@, SHIFT_MASK),
        ("S"@, SHIFT_MASK),
        ("Super"@, MOD4_MASK),
    ]
}

/// The keys that have a name of more than one character, and the symbol of
/// each. Letters, digits and every other single character stand for
/// themselves and need no entry.
pub open spec fn key_table() -> Seq<(Seq<char>, KeySym)> {
    seq![
        ("Left"@, XK_LEFT),
        ("Right"@, XK_RIGHT),
        ("Up"@, XK_UP),
        ("Down"@, XK_DOWN),
        ("Home"@, XK_HOME),
        ("End"@, XK_END),
        ("BackSpace"@, XK_BACKSPACE),
        ("Delete"@, XK_DELETE),
        ("Return"@, XK_RETURN),
        ("Tab"@, XK_TAB),
        ("Escape"@, XK_ESCAPE),
        ("space"@, XK_SPACE),
        ("F1"@, XK_F1),
        ("F2"@, (XK_F1 + 1) as KeySym),
        ("F3"@, (XK_F1 + 2) as KeySym),
        ("F4"@, (XK_F1 + 3) as KeySym),
        ("F5"@, (XK_F1 + 4) as KeySym),
        ("F6"@, (XK_F1 + 5) as KeySym),
        ("F7"@, (XK_F1 + 6) as KeySym),
        ("F8"@, (XK_F1 + 7) as KeySym),
        ("F9"@, (XK_F1 + 8) as KeySym),
        ("F10"@, (XK_F1 + 9) as KeySym),
        ("F11"@, (XK_F1 + 10) as KeySym),
        ("F12"@, (XK_F1 + 11) as KeySym),
    ]
}

/// The mask of a modifier token; an unknown one adds nothing.
pub open spec fn modifier_mask(token: Seq<char>) -> u32 {
    match lookup(modifier_table(), token) {
        Some(mask) => mask,
        None => 0,
    }
}

/// The masks of all the tokens, or-ed together.
pub open spec fn modifier_bits(tokens: Seq<Seq<char>>) -> u32
    decreases tokens.len(),
{
    if tokens.len() == 0 {
        0
    } else {
        modifier_bits(tokens.drop_last()) | modifier_mask(tokens.last())
    }
}

/// The symbol of a key token: of one character, that character's code; of a
/// longer one, what the key table gives.
pub open spec fn key_symbol(token: Seq<char>) -> Result<KeySym, ParseError> {
    if token.len() == 0 {
        Err(ParseError::EmptyKey)
    } else if token.len() == 1 {
        Ok(token[0] as KeySym)
    } else {
        match lookup(key_table(), token) {
            Some(symbol) => Ok(symbol),
            None => Err(ParseError::UnknownKey),
        }
    }
}

/// What a key expression means: the last token is the key, the tokens before
/// it are modifiers.
pub open spec fn parse_expr(expr: Seq<char>) -> Result<(KeySym, u32), ParseError> {
    let parts = tokens(expr);
    match key_symbol(parts.last()) {
        Ok(symbol) => Ok((symbol, modifier_bits(parts.drop_last()))),
        Err(error) => Err(error),
    }
}

/// A table's entries as texts.
pub open spec fn table_view<V>(table: Seq<(String, V)>) -> Seq<(Seq<char>, V)> {
    Seq::new(table.len(), |i: int| (table[i].0@, table[i].1))
}

/// Looks a name up in a table.
fn find<V: Copy>(table: &Vec<(String, V)>, name: &String) -> (value: Option<V>)
    ensures
        value == lookup(table_view(table@), name@),
{
    let mut i: usize = 0;
    assert(table_view(table@).subrange(0, table.len() as int) =~= table_view(table@));
    while i < table.len()
        invariant
            i <= table.len(),
            lookup(table_view(table@), name@) == lookup(
                table_view(table@).subrange(i as int, table.len() as int),
                name@,
            ),
        decreases table.len() - i,
    {
        let ghost rest = table_view(table@).subrange(i as int, table.len() as int);
        assert(rest.drop_first() =~= table_view(table@).subrange(i + 1, table.len() as int));
        if table[i].0 == *name {
            return Some(table[i].1);
        }
        i += 1;
    }
    None
}

/// Adds an entry to a table.
fn add_entry<V>(table: &mut Vec<(String, V)>, name: &str, value: V)
    ensures
        table_view(final(table)@) == table_view(old(table)@).push((name@, value)),
{
    table.push((name.to_owned(), value));
}

/// How far the sending of one key has come.
#[derive(Debug, Clone, Copy, PartialEq, Eq, Structural)]
pub enum SendStage {
    /// Nothing is being sent.
    Idle,
    /// The keycode of the key's symbol was asked for.
    Resolving { modifiers: u32 },
    /// The press event was handed out.
    Pressing { keycode: KeyCode, modifiers: u32 },
    /// The release event was handed out.
    Releasing,
}

/// Parses key expressions and sends keys: for each key a press event, then a
/// release event, to one window.
pub struct KeyMapper {
    keysym_map: Vec<(String, KeySym)>,
    modifier_map: Vec<(String, u32)>,
    window: Window,
    keys: Vec<String>,
    next: usize,
    stage: SendStage,
}

/// A [`KeyMapper`]'s state: the window it sends to, the key expressions of
/// the sequence in hand, how many of them are dealt with, and how far the
/// current one has come.
pub struct SenderView {
    pub window: Window,
    pub keys: Seq<Seq<char>>,
    pub next: nat,
    pub stage: SendStage,
}

/// The first position at or after `from` whose key expression can be parsed;
/// the number of keys if there is none.
pub open spec fn next_valid(keys: Seq<Seq<char>>, from: nat) -> nat
    decreases keys.len() - from,
{
    if from >= keys.len() {
        keys.len()
    } else if parse_expr(keys[from as int]) is Ok {
        from
    } else {
        next_valid(keys, from + 1)
    }
}

/// The synthetic event for a key: addressed to `window`, passed on to its
/// ancestors, with the pointer at (1, 1).
pub open spec fn key_event(kind: KeyEventKind, window: Window, keycode: KeyCode, modifiers: u32)
    -> KeyEvent {
    KeyEvent {
        kind,
        window,
        subwindow: 0,
        time: 0,
        x: 1,
        y: 1,
        x_root: 1,
        y_root: 1,
        state: modifiers,
        keycode,
        same_screen: true,
        propagate: true,
        event_mask: match kind {
            KeyEventKind::Press => KEY_PRESS_MASK,
            KeyEventKind::Release => KEY_RELEASE_MASK,
        },
    }
}

/// Goes on to the next key at or after `from`: a key expression that cannot be
/// parsed is passed over; for the first that can, the keycode of its symbol is
/// asked for. With no such key left the sender is idle.
pub open spec fn advanced(window: Window, keys: Seq<Seq<char>>, from: nat) -> (
    SenderView,
    Option<Request>,
) {
    let at = next_valid(keys, from);
    if at >= keys.len() {
        (SenderView { window, keys, next: keys.len(), stage: SendStage::Idle }, None)
    } else {
        let parsed = parse_expr(keys[at as int])->Ok_0;
        (
            SenderView {
                window,
                keys,
                next: at + 1,
                stage: SendStage::Resolving { modifiers: parsed.1 },
            },
            Some(Request::Keycode(parsed.0)),
        )
    }
}

/// What a sender does with a reply. To a keycode other than `0` it answers
/// with the press event, to whatever follows that with the release event. A
/// key for which the layout has no keycode is passed over.
pub open spec fn resumed(sender: SenderView, reply: Reply) -> (SenderView, Option<Request>) {
    match sender.stage {
        SendStage::Idle => (sender, None),
        SendStage::Resolving { modifiers } => match reply {
            Reply::Keycode(keycode) if keycode != 0 => (
                SenderView { stage: SendStage::Pressing { keycode, modifiers }, ..sender },
                Some(
                    Request::Send(
                        key_event(KeyEventKind::Press, sender.window, keycode, modifiers),
                    ),
                ),
            ),
            _ => advanced(sender.window, sender.keys, sender.next),
        },
        SendStage::Pressing { keycode, modifiers } => (
            SenderView { stage: SendStage::Releasing, ..sender },
            Some(Request::Send(key_event(KeyEventKind::Release, sender.window, keycode, modifiers))),
        ),
        SendStage::Releasing => advanced(sender.window, sender.keys, sender.next),
    }
}

/// Builds a key press or release event.
fn make_event(kind: KeyEventKind, window: Window, keycode: KeyCode, modifiers: u32) -> (event:
    KeyEvent)
    ensures
        event == key_event(kind, window, keycode, modifiers),
{
    KeyEvent {
        kind,
        window,
        subwindow: 0,
        time: 0,
        x: 1,
        y: 1,
        x_root: 1,
        y_root: 1,
        state: modifiers,
        keycode,
        same_screen: true,
        propagate: true,
        event_mask: match kind {
            KeyEventKind::Press => KEY_PRESS_MASK,
            KeyEventKind::Release => KEY_RELEASE_MASK,
        },
    }
}

impl View for KeyMapper {
    type V = SenderView;

    closed spec fn view(&self) -> SenderView {
        SenderView {
            window: self.window,
            keys: crate::config::texts_of(self.keys@),
            next: self.next as nat,
            stage: self.stage,
        }
    }
}

impl KeyMapper {
    #[verifier::type_invariant]
    spec fn tables_hold(&self) -> bool {
        &&& table_view(self.keysym_map@) == key_table()
        &&& table_view(self.modifier_map@) == modifier_table()
    }

    /// The state of a new mapper: nothing to send.
    pub open spec fn new_view() -> SenderView {
        SenderView { window: 0, keys: Seq::empty(), next: 0, stage: SendStage::Idle }
    }

    /// A mapper with the key and modifier tables filled, and nothing to send.
    pub fn new() -> (mapper: KeyMapper)
        ensures
            mapper@ == Self::new_view(),
    {
        let mut keysym_map: Vec<(String, KeySym)> = Vec::new();
        let mut modifier_map: Vec<(String, u32)> = Vec::new();

        add_entry(&mut keysym_map, "Left", XK_LEFT);
        add_entry(&mut keysym_map, "Right", XK_RIGHT);
        add_entry(&mut keysym_map, "Up", XK_UP);
        add_entry(&mut keysym_map, "Down", XK_DOWN);
        add_entry(&mut keysym_map, "Home", XK_HOME);
        add_entry(&mut keysym_map, "End", XK_END);
        add_entry(&mut keysym_map, "BackSpace", XK_BACKSPACE);
        add_entry(&mut keysym_map, "Delete", XK_DELETE);
        add_entry(&mut keysym_map, "Return", XK_RETURN);
        add_entry(&mut keysym_map, "Tab", XK_TAB);
        add_entry(&mut keysym_map, "Escape", XK_ESCAPE);
        add_entry(&mut keysym_map, "space", XK_SPACE);

        add_entry(&mut keysym_map, "F1", XK_F1);
        add_entry(&mut keysym_map, "F2", XK_F1 + 1);
        add_entry(&mut keysym_map, "F3", XK_F1 + 2);
        add_entry(&mut keysym_map, "F4", XK_F1 + 3);
        add_entry(&mut keysym_map, "F5", XK_F1 + 4);
        add_entry(&mut keysym_map, "F6", XK_F1 + 5);
        add_entry(&mut keysym_map, "F7", XK_F1 + 6);
        add_entry(&mut keysym_map, "F8", XK_F1 + 7);
        add_entry(&mut keysym_map, "F9", XK_F1 + 8);
        add_entry(&mut keysym_map, "F10", XK_F1 + 9);
        add_entry(&mut keysym_map, "F11", XK_F1 + 10);
        add_entry(&mut keysym_map, "F12", XK_F1 + 11);

        add_entry(&mut modifier_map, "Ctrl", CONTROL_MASK);
        add_entry(&mut modifier_map, "C", CONTROL_MASK);
        add_entry(&mut modifier_map, "Alt", MOD1_MASK);
        add_entry(&mut modifier_map, "M", MOD1_MASK);
        add_entry(&mut modifier_map, "Shift", SHIFT_MASK);
        add_entry(&mut modifier_map, "S", SHIFT_MASK);
        add_entry(&mut modifier_map, "Super", MOD4_MASK);

        assert(table_view(keysym_map@) =~= key_table());
        assert(table_view(modifier_map@) =~= modifier_table());
        let keys: Vec<String> = Vec::new();
        assert(crate::config::texts_of(keys@) =~= Seq::empty());
        KeyMapper { keysym_map, modifier_map, window: 0, keys, next: 0, stage: SendStage::Idle }
    }

    /// Parses a key expression: hyphen-separated tokens, the last of which is
    /// the key and the others modifiers. A modifier that is not known is left
    /// out; a key that is not known fails the expression.
    pub fn parse_key(&self, key_expr: &str) -> (parsed: Result<(KeySym, u32), ParseError>)
        ensures
            parsed == parse_expr(key_expr@),
    {
        proof {
            use_type_invariant(self);
        }
        let len = key_expr.unicode_len();
        let mut modifiers: u32 = 0;
        let mut start: usize = 0;
        let mut i: usize = 0;
        let ghost mut done: Seq<Seq<char>> = Seq::empty();
        assert(key_expr@.take(0) =~= Seq::empty());
        while i < len
            invariant
                len == key_expr@.len(),
                start <= i <= len,
                tokens(key_expr@.take(i as int)) == done.push(
                    key_expr@.subrange(start as int, i as int),
                ),
                modifiers == modifier_bits(done),
                table_view(self.modifier_map@) == modifier_table(),
            decreases len - i,
        {
            let ghost prefix = key_expr@.take(i as int);
            let ghost current = key_expr@.subrange(start as int, i as int);
            assert(key_expr@.take(i + 1).drop_last() =~= prefix);
            assert(done.push(current).drop_last() =~= done);
            if key_expr.get_char(i) == '-' {
                let token = key_expr.substring_char(start, i).to_owned();
                if let Some(mask) = find(&self.modifier_map, &token) {
                    modifiers = modifiers | mask;
                } else {
                    assert(modifiers | 0u32 == modifiers) by (bit_vector);
                }
                proof {
                    done = done.push(current);
                    assert(key_expr@.subrange(i + 1, i + 1) =~= Seq::empty());
                }
                start = i + 1;
            } else {
                assert(key_expr@.subrange(start as int, i + 1) =~= current.push(
                    key_expr@[i as int],
                ));
            }
            i += 1;
        }
        assert(key_expr@.take(len as int) =~= key_expr@);
        assert(done.push(key_expr@.subrange(start as int, len as int)).drop_last() =~= done);
        let key = key_expr.substring_char(start, len);
        let key_len = len - start;
        if key_len == 0 {
            Err(ParseError::EmptyKey)
        } else if key_len == 1 {
            Ok((key.get_char(0) as KeySym, modifiers))
        } else {
            match find(&self.keysym_map, &key.to_owned()) {
                Some(symbol) => Ok((symbol, modifiers)),
                None => Err(ParseError::UnknownKey),
            }
        }
    }

    /// The request that maps a key symbol to its keycode under the current
    /// layout. The reply is `0` where the layout has no key for the symbol.
    pub fn keycode_from_keysym(&self, keysym: KeySym) -> (request: Request)
        ensures
            request == Request::Keycode(keysym),
    {
        Request::Keycode(keysym)
    }

    /// How far the sending of the current key has come.
    pub fn stage(&self) -> (stage: SendStage)
        ensures
            stage == self@.stage,
    {
        self.stage
    }

    /// Goes on to the next key that can be parsed, from `self.next` on.
    fn advance(&mut self) -> (request: Option<Request>)
        ensures
            (final(self)@, request) == advanced(old(self)@.window, old(self)@.keys, old(self)@.next),
    {
        proof {
            use_type_invariant(&*self);
        }
        let ghost keys = self@.keys;
        let ghost from = self@.next;
        while self.next < self.keys.len()
            invariant
                keys == old(self)@.keys,
                from == old(self)@.next,
                self@.keys == keys,
                self@.window == old(self)@.window,
                from <= self@.next,
                next_valid(keys, from) == next_valid(keys, self@.next),
                self.tables_hold(),
            decreases self.keys.len() - self.next,
        {
            let at = self.next;
            let parsed = self.parse_key(self.keys[at].as_str());
            match parsed {
                Ok((symbol, modifiers)) => {
                    self.next = at + 1;
                    self.stage = SendStage::Resolving { modifiers };
                    return Some(self.keycode_from_keysym(symbol));
                },
                Err(_) => {
                    self.next = at + 1;
                },
            }
        }
        self.next = self.keys.len();
        self.stage = SendStage::Idle;
        None
    }

    /// Begins to send one key with a modifier mask to a window: asks for the
    /// keycode of the symbol. [`KeyMapper::resume`] does the rest.
    pub fn send_key(&mut self, window: Window, keysym: KeySym, modifiers: u32) -> (request: Request)
        ensures
            final(self)@ == (SenderView {
                window,
                keys: Seq::empty(),
                next: 0,
                stage: SendStage::Resolving { modifiers },
            }),
            request == Request::Keycode(keysym),
    {
        proof {
            use_type_invariant(&*self);
        }
        self.next = 0;
        self.keys = Vec::new();
        self.window = window;
        self.stage = SendStage::Resolving { modifiers };
        assert(crate::config::texts_of(self.keys@) =~= Seq::empty());
        self.keycode_from_keysym(keysym)
    }

    /// Begins to send a sequence of keys to a window, in the order of the
    /// list: asks for the keycode of the first key expression that can be
    /// parsed. The result is `None` where there is none.
    pub fn send_key_sequence(&mut self, window: Window, keys: &[String]) -> (request: Option<
        Request,
    >)
        ensures
            (final(self)@, request) == advanced(window, crate::config::texts_of(keys@), 0),
    {
        let mut copied: Vec<String> = Vec::new();
        let mut i: usize = 0;
        while i < keys.len()
            invariant
                i <= keys.len(),
                crate::config::texts_of(copied@) == crate::config::texts_of(keys@).take(i as int),
            decreases keys.len() - i,
        {
            let ghost so_far = copied@;
            let key = keys[i].clone();
            copied.push(key);
            assert(crate::config::texts_of(copied@) =~= crate::config::texts_of(so_far).push(
                keys@[i as int]@,
            ));
            i += 1;
        }
        assert(crate::config::texts_of(keys@).take(i as int) =~= crate::config::texts_of(keys@));
        proof {
            use_type_invariant(&*self);
        }
        self.next = 0;
        self.keys = copied;
        self.window = window;
        self.stage = SendStage::Idle;
        self.advance()
    }

    /// Takes the reply to the last request and says what to do next; `None`
    /// when nothing is left to send.
    pub fn resume(&mut self, reply: Reply) -> (request: Option<Request>)
        ensures
            (final(self)@, request) == resumed(old(self)@, reply),
    {
        proof {
            use_type_invariant(&*self);
        }
        match self.stage {
            SendStage::Idle => None,
            SendStage::Resolving { modifiers } => {
                match reply {
                    Reply::Keycode(keycode) => {
                        if keycode != 0 {
                            self.stage = SendStage::Pressing { keycode, modifiers };
                            Some(
                                Request::Send(
                                    make_event(
                                        KeyEventKind::Press,
                                        self.window,
                                        keycode,
                                        modifiers,
                                    ),
                                ),
                            )
                        } else {
                            self.advance()
                        }
                    },
                    _ => self.advance(),
                }
            },
            SendStage::Pressing { keycode, modifiers } => {
                self.stage = SendStage::Releasing;
                Some(
                    Request::Send(
                        make_event(KeyEventKind::Release, self.window, keycode, modifiers),
                    ),
                )
            },
            SendStage::Releasing => self.advance(),
        }
    }
}

/// The two events that send one key, if the layout has a keycode for its
/// symbol: the press, then the release.
pub open spec fn key_events(
    server: spec_fn(Request) -> Reply,
    window: Window,
    symbol: KeySym,
    modifiers: u32,
) -> Seq<KeyEvent> {
    match server(Request::Keycode(symbol)) {
        Reply::Keycode(keycode) if keycode != 0 => seq![
            key_event(KeyEventKind::Press, window, keycode, modifiers),
            key_event(KeyEventKind::Release, window, keycode, modifiers),
        ],
        _ => Seq::empty(),
    }
}

/// The events that send the key expressions from `from` on, in order. A key
/// expression that cannot be parsed, or whose symbol has no keycode, sends
/// nothing.
pub open spec fn events_of(
    server: spec_fn(Request) -> Reply,
    window: Window,
    keys: Seq<Seq<char>>,
    from: nat,
) -> Seq<KeyEvent>
    decreases keys.len() - from,
{
    if from >= keys.len() {
        Seq::empty()
    } else {
        (match parse_expr(keys[from as int]) {
            Ok((symbol, modifiers)) => key_events(server, window, symbol, modifiers),
            Err(_) => Seq::empty(),
        }) + events_of(server, window, keys, from + 1)
    }
}

/// The event that a request sends, if it sends one.
pub open spec fn event_in(request: Option<Request>) -> Seq<KeyEvent> {
    match request {
        Some(Request::Send(event)) => seq![event],
        _ => Seq::empty(),
    }
}

/// A sender and its open request fit together.
pub open spec fn sending(sender: SenderView, request: Option<Request>) -> bool {
    match sender.stage {
        SendStage::Idle => request is None,
        SendStage::Resolving { modifiers } => request is Some && request->0 is Keycode,
        SendStage::Pressing { keycode, modifiers } => request == Some(
            Request::Send(key_event(KeyEventKind::Press, sender.window, keycode, modifiers)),
        ),
        SendStage::Releasing => request is Some && request->0 is Send,
    }
}

/// The events that a sender has still to send, the one in its open request
/// first.
pub open spec fn events_due(
    server: spec_fn(Request) -> Reply,
    sender: SenderView,
    request: Option<Request>,
) -> Seq<KeyEvent> {
    let later = events_of(server, sender.window, sender.keys, sender.next);
    match sender.stage {
        SendStage::Idle => Seq::empty(),
        SendStage::Resolving { modifiers } => key_events(
            server,
            sender.window,
            request->0->Keycode_0,
            modifiers,
        ) + later,
        SendStage::Pressing { keycode, modifiers } => seq![
            key_event(KeyEventKind::Press, sender.window, keycode, modifiers),
            key_event(KeyEventKind::Release, sender.window, keycode, modifiers),
        ] + later,
        SendStage::Releasing => event_in(request) + later,
    }
}

/// A sender that goes on with the keys from `from` on has the events of these
/// keys to send.
pub proof fn lemma_advanced_sends_rest(
    server: spec_fn(Request) -> Reply,
    window: Window,
    keys: Seq<Seq<char>>,
    from: nat,
)
    ensures
        sending(advanced(window, keys, from).0, advanced(window, keys, from).1),
        events_due(server, advanced(window, keys, from).0, advanced(window, keys, from).1)
            == events_of(server, window, keys, from),
    decreases keys.len() - from,
{
    if from < keys.len() && parse_expr(keys[from as int]) is Err {
        lemma_advanced_sends_rest(server, window, keys, from + 1);
    }
}

/// With each step a sender sends the event of its open request, and has the
/// rest left to send.
pub proof fn lemma_send_step(
    server: spec_fn(Request) -> Reply,
    sender: SenderView,
    request: Request,
)
    requires
        sending(sender, Some(request)),
    ensures
        sending(resumed(sender, server(request)).0, resumed(sender, server(request)).1),
        events_due(server, sender, Some(request)) == event_in(Some(request)) + events_due(
            server,
            resumed(sender, server(request)).0,
            resumed(sender, server(request)).1,
        ),
        resumed(sender, server(request)).0.window == sender.window,
{
    lemma_advanced_sends_rest(server, sender.window, sender.keys, sender.next);
}

/// What a table gives for a name is the value of an entry of that name, and
/// it gives nothing only if no entry has the name.
pub proof fn lemma_lookup_is_entry<V>(table: Seq<(Seq<char>, V)>, name: Seq<char>)
    ensures
        match lookup(table, name) {
            Some(value) => exists|i: int| 0 <= i < table.len() && #[trigger] table[i] == (name, value),
            None => forall|i: int| 0 <= i < table.len() ==> (#[trigger] table[i]).0 != name,
        },
    decreases table.len(),
{
    if table.len() > 0 {
        if table.first().0 == name {
        } else {
            lemma_lookup_is_entry(table.drop_first(), name);
            match lookup(table.drop_first(), name) {
                Some(value) => {
                    let i = choose|i: int|
                        0 <= i < table.drop_first().len() && #[trigger] table.drop_first()[i] == (
                            name,
                            value,
                        );
                },
                None => {
                    assert forall|i: int| 0 <= i < table.len() implies (#[trigger] table[i]).0
                        != name by {
                        if i > 0 {
                            assert(table.drop_first()[i - 1] == table[i]);
                        }
                    }
                },
            }
        }
    }
}

/// The modifiers that tell keys apart: control, shift, alt and super.
pub open spec fn recognized(state: u32) -> u32 {
    state & (CONTROL_MASK | SHIFT_MASK | MOD1_MASK | MOD4_MASK)
}

/// The mask of a token holds no bit but those of control, shift, alt and
/// super.
pub proof fn lemma_modifier_mask_recognized(token: Seq<char>)
    ensures
        recognized(modifier_mask(token)) == modifier_mask(token),
{
    lemma_lookup_is_entry(modifier_table(), token);
    let mask = modifier_mask(token);
    assert(mask & (0x04u32 | 0x01u32 | 0x08u32 | 0x40u32) == mask) by (bit_vector)
        requires
            mask == 0 || mask == 0x01 || mask == 0x04 || mask == 0x08 || mask == 0x40,
    ;
}

/// The masks of any tokens, or-ed together, hold no bit but those of control,
/// shift, alt and super.
pub proof fn lemma_modifier_bits_recognized(tokens: Seq<Seq<char>>)
    ensures
        recognized(modifier_bits(tokens)) == modifier_bits(tokens),
    decreases tokens.len(),
{
    if tokens.len() > 0 {
        lemma_modifier_bits_recognized(tokens.drop_last());
        lemma_modifier_mask_recognized(tokens.last());
        let before = modifier_bits(tokens.drop_last());
        let mask = modifier_mask(tokens.last());
        assert((before | mask) & (0x04u32 | 0x01u32 | 0x08u32 | 0x40u32) == (before | mask))
            by (bit_vector)
            requires
                before & (0x04u32 | 0x01u32 | 0x08u32 | 0x40u32) == before,
                mask & (0x04u32 | 0x01u32 | 0x08u32 | 0x40u32) == mask,
        ;
    } else {
        assert(0u32 & (0x04u32 | 0x01u32 | 0x08u32 | 0x40u32) == 0u32) by (bit_vector);
    }
}

/// The modifier mask of a parsed key expression is in the form in which key
/// presses are looked up.
pub proof fn lemma_parsed_modifiers_recognized(expr: Seq<char>)
    ensures
        parse_expr(expr) matches Ok(parsed) ==> recognized(parsed.1) == parsed.1,
{
    lemma_modifier_bits_recognized(tokens(expr).drop_last());
}

} // verus!
