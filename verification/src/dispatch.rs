//! The dispatch table that a list of remaps makes under a keyboard layout,
//! and what holds of it.
//!
//! The layout is what the display server answers to
//! [`Request::Keycode`]: a function from requests to replies.

use crate::config::{ActionView, RemapView};
use crate::event_handler::sources;
use crate::key_mapper::{
    lemma_parsed_modifiers_recognized, next_valid, parse_expr, recognized, KeyPress,
};
use crate::server::{Reply, Request};
use vstd::prelude::*;

verus! {

/// The key that a remap is bound to under the server's layout, if its source
/// can be parsed and the layout has a key for the symbol.
pub open spec fn binding_of(server: spec_fn(Request) -> Reply, remap: RemapView) -> Option<
    KeyPress,
> {
    match parse_expr(remap.from) {
        Ok((symbol, modifiers)) => match server(Request::Keycode(symbol)) {
            Reply::Keycode(keycode) if keycode != 0 => Some(KeyPress { keycode, modifiers }),
            _ => None,
        },
        Err(_) => None,
    }
}

/// The dispatch table that a list of remaps makes: each remap that has a key
/// is entered in turn, over what the table held for that key.
pub open spec fn table_of(server: spec_fn(Request) -> Reply, remaps: Seq<RemapView>) -> Map<
    KeyPress,
    ActionView,
>
    decreases remaps.len(),
{
    if remaps.len() == 0 {
        Map::empty()
    } else {
        let before = table_of(server, remaps.drop_last());
        match binding_of(server, remaps.last()) {
            Some(key) => before.insert(key, remaps.last().to),
            None => before,
        }
    }
}

/// The keys that a list of remaps has grabbed: the key of each remap, in
/// order, each key once.
pub open spec fn grabs_of(server: spec_fn(Request) -> Reply, remaps: Seq<RemapView>) -> Seq<
    KeyPress,
>
    decreases remaps.len(),
{
    if remaps.len() == 0 {
        Seq::empty()
    } else {
        let before = grabs_of(server, remaps.drop_last());
        match binding_of(server, remaps.last()) {
            Some(key) => if before.contains(key) {
                before
            } else {
                before.push(key)
            },
            None => before,
        }
    }
}

/// Where several remaps have the same key, the table holds the action of the
/// last of them.
pub proof fn lemma_later_remap_wins(
    server: spec_fn(Request) -> Reply,
    remaps: Seq<RemapView>,
    last: int,
    key: KeyPress,
)
    requires
        0 <= last < remaps.len(),
        binding_of(server, remaps[last]) == Some(key),
        forall|later: int|
            last < later < remaps.len() ==> binding_of(server, #[trigger] remaps[later]) != Some(
                key,
            ),
    ensures
        table_of(server, remaps).contains_key(key),
        table_of(server, remaps)[key] == remaps[last].to,
    decreases remaps.len(),
{
    if last < remaps.len() - 1 {
        assert forall|later: int| last < later < remaps.drop_last().len() implies binding_of(
            server,
            #[trigger] remaps.drop_last()[later],
        ) != Some(key) by {
        }
        lemma_later_remap_wins(server, remaps.drop_last(), last, key);
    }
}

/// Every key of the table is in the form in which key presses are looked up:
/// its modifiers are among control, shift, alt and super, and its keycode is
/// not `0`. So a grabbed key is found again whatever the lock keys add to the
/// reported state.
pub proof fn lemma_table_keys_canonical(
    server: spec_fn(Request) -> Reply,
    remaps: Seq<RemapView>,
    key: KeyPress,
)
    requires
        table_of(server, remaps).contains_key(key),
    ensures
        recognized(key.modifiers) == key.modifiers,
        key.keycode != 0,
    decreases remaps.len(),
{
    if remaps.len() > 0 {
        lemma_parsed_modifiers_recognized(remaps.last().from);
        if binding_of(server, remaps.last()) != Some(key) {
            lemma_table_keys_canonical(server, remaps.drop_last(), key);
        }
    }
}

/// The table holds a key exactly when some remap has it, and the grabbed keys
/// are the keys of the table, each once.
pub proof fn lemma_grabs_are_table_keys(server: spec_fn(Request) -> Reply, remaps: Seq<RemapView>)
    ensures
        grabs_of(server, remaps).no_duplicates(),
        forall|key: KeyPress|
            grabs_of(server, remaps).contains(key) <==> #[trigger] table_of(
                server,
                remaps,
            ).contains_key(key),
    decreases remaps.len(),
{
    if remaps.len() > 0 {
        lemma_grabs_are_table_keys(server, remaps.drop_last());
        let before = grabs_of(server, remaps.drop_last());
        let table_before = table_of(server, remaps.drop_last());
        assert forall|key: KeyPress|
            grabs_of(server, remaps).contains(key) <==> #[trigger] table_of(
                server,
                remaps,
            ).contains_key(key) by {
            assert(before.contains(key) <==> table_before.contains_key(key));
            if let Some(new) = binding_of(server, remaps.last()) {
                assert(before.contains(new) <==> table_before.contains_key(new));
                if !before.contains(new) {
                    if before.contains(key) {
                        let i = choose|i: int| 0 <= i < before.len() && before[i] == key;
                        assert(before.push(new)[i] == key);
                    }
                    if key == new {
                        assert(before.push(new)[before.len() as int] == key);
                    }
                }
            }
        }
    }
}

/// Remaps whose source cannot be parsed add nothing to table and grabs.
pub proof fn lemma_unparsed_add_nothing(
    server: spec_fn(Request) -> Reply,
    remaps: Seq<RemapView>,
    from: nat,
)
    requires
        from <= remaps.len(),
    ensures
        from <= next_valid(sources(remaps), from) <= remaps.len(),
        table_of(server, remaps.take(next_valid(sources(remaps), from) as int)) == table_of(
            server,
            remaps.take(from as int),
        ),
        grabs_of(server, remaps.take(next_valid(sources(remaps), from) as int)) == grabs_of(
            server,
            remaps.take(from as int),
        ),
        next_valid(sources(remaps), from) < remaps.len() ==> parse_expr(
            remaps[next_valid(sources(remaps), from) as int].from,
        ) is Ok,
    decreases remaps.len() - from,
{
    if from < remaps.len() {
        if !(parse_expr(remaps[from as int].from) is Ok) {
            lemma_unparsed_add_nothing(server, remaps, from + 1);
            assert(remaps.take(from as int + 1).drop_last() =~= remaps.take(from as int));
        }
    }
}

} // verus!
