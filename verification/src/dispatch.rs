//! The command dispatcher: the fixed key-to-slot table, the activation rule,
//! and the main/help view state machine.
//!
//! The dispatcher is pure: it turns a key press (or a button click, which is
//! an activation of a slot) into an outcome that says which command to hand
//! to the shell, whether to close the window, and which view to show next.
//! The surrounding program performs the spawn and the close.

use vstd::prelude::*;

use crate::config::{Config, COMMAND_COUNT};

verus! {

/// Which of the two views the window shows.
#[derive(Clone, Copy, Debug, PartialEq, Eq)]
pub enum Screen {
    Main,
    Help,
}

/// A key press as the dispatcher sees it: the escape key, or a character.
#[derive(Clone, Copy, Debug, PartialEq, Eq)]
pub enum KeyPress {
    Escape,
    Character(char),
}

/// What a key press or click leads to.  `spawn` is the command string to hand
/// verbatim to a system shell, fire-and-forget; `close` says whether the
/// window is to be closed; `next` is the view to show afterwards; `handled`
/// says whether the event was consumed (a consumed event propagates no
/// further).
#[derive(Clone, Debug, PartialEq, Eq)]
pub struct Outcome {
    pub spawn: Option<String>,
    pub close: bool,
    pub next: Screen,
    pub handled: bool,
}

/// The fixed table from shortcut character to slot index.
pub open spec fn spec_key_index(c: char) -> Option<usize> {
    if c == 'a' {
        Some(0usize)
    } else if c == 's' {
        Some(1usize)
    } else if c == 'd' {
        Some(2usize)
    } else if c == 'f' {
        Some(3usize)
    } else if c == 'h' {
        Some(4usize)
    } else if c == 'j' {
        Some(5usize)
    } else if c == 'k' {
        Some(6usize)
    } else if c == 'l' {
        Some(7usize)
    } else {
        None
    }
}

/// The shortcut character bound to a slot, the inverse of [`spec_key_index`].
pub open spec fn spec_shortcut(i: int) -> char {
    seq!['a', 's', 'd', 'f', 'h', 'j', 'k', 'l'][i]
}

/// Looks a shortcut character up in the fixed key table.
pub fn key_index(c: char) -> (r: Option<usize>)
    ensures
        r == spec_key_index(c),
{
    match c {
        'a' => Some(0),
        's' => Some(1),
        'd' => Some(2),
        'f' => Some(3),
        'h' => Some(4),
        'j' => Some(5),
        'k' => Some(6),
        'l' => Some(7),
        _ => None,
    }
}

/// The shortcut character shown beside grid cell `i`.
pub fn shortcut_for_slot(i: usize) -> (c: char)
    requires
        i < COMMAND_COUNT,
    ensures
        c == spec_shortcut(i as int),
{
    let r: char = if i == 0 {
        'a'
    } else if i == 1 {
        's'
    } else if i == 2 {
        'd'
    } else if i == 3 {
        'f'
    } else if i == 4 {
        'h'
    } else if i == 5 {
        'j'
    } else if i == 6 {
        'k'
    } else {
        'l'
    };
    r
}

/// The key table and the slot table are a fixed bijection: every slot's
/// shortcut maps back to that slot, and every mapped character is some slot's
/// shortcut.
pub proof fn lemma_shortcut_bijection()
    ensures
        forall|i: int|
            0 <= i < COMMAND_COUNT ==> spec_key_index(spec_shortcut(i)) == Some(i as usize),
        forall|c: char|
            #[trigger] spec_key_index(c) matches Some(i) ==> spec_shortcut(i as int) == c,
{
}

/// Where slot `index` sits in the four-column row-major grid, as (row, column).
pub fn grid_position(index: usize) -> (r: (usize, usize))
    requires
        index < COMMAND_COUNT,
    ensures
        r.0 == index as int / 4,
        r.1 == index as int % 4,
        r.0 < 2,
        r.1 < 4,
{
    (index / 4, index % 4)
}

/// Activating slot `index`: within range, the slot's command is spawned and
/// the window closes; out of range, nothing at all happens.
pub fn activate(config: &Config, index: usize) -> (r: Outcome)
    ensures
        index < config@.len() ==> {
            &&& r.spawn matches Some(cmd) && cmd@ == config@[index as int].1
            &&& r.close
            &&& r.handled
        },
        index >= config@.len() ==> r.spawn is None && !r.close && !r.handled,
        r.next == Screen::Main,
{
    if index < config.commands.len() {
        let cmd = config.commands[index].command.clone();
        Outcome { spawn: Some(cmd), close: true, next: Screen::Main, handled: true }
    } else {
        Outcome { spawn: None, close: false, next: Screen::Main, handled: false }
    }
}

/// What a key press leads to, as (next view, command to spawn, close, handled).
pub open spec fn spec_handle_key(
    screen: Screen,
    key: KeyPress,
    entries: Seq<(Seq<char>, Seq<char>)>,
) -> (Screen, Option<Seq<char>>, bool, bool) {
    match key {
        KeyPress::Escape => match screen {
            Screen::Help => (Screen::Main, None, false, true),
            Screen::Main => (Screen::Main, None, true, true),
        },
        KeyPress::Character(c) => if c == '?' {
            match screen {
                Screen::Main => (Screen::Help, None, false, true),
                Screen::Help => (Screen::Main, None, false, true),
            }
        } else {
            match screen {
                Screen::Main => match spec_key_index(c) {
                    Some(i) => if i < entries.len() {
                        (Screen::Main, Some(entries[i as int].1), true, true)
                    } else {
                        (Screen::Main, None, false, false)
                    },
                    None => (Screen::Main, None, false, false),
                },
                Screen::Help => (Screen::Help, None, false, false),
            }
        },
    }
}

/// Handles one key press: escape closes the window from the main view and
/// returns to the main view from the help view; `?` toggles between the two
/// views; a shortcut character, on the main view only, spawns the command in
/// its slot and closes the window; everything else is left unhandled.
pub fn handle_key(screen: Screen, key: KeyPress, config: &Config) -> (r: Outcome)
    ensures
        ({
            let (next, spawn, close, handled) = spec_handle_key(screen, key, config@);
            &&& r.next == next
            &&& r.close == close
            &&& r.handled == handled
            &&& (match (r.spawn, spawn) {
                (Some(s), Some(m)) => s@ == m,
                (None, None) => true,
                _ => false,
            })
        }),
{
    match key {
        KeyPress::Escape => match screen {
            Screen::Help => Outcome {
                spawn: None,
                close: false,
                next: Screen::Main,
                handled: true,
            },
            Screen::Main => Outcome { spawn: None, close: true, next: Screen::Main, handled: true },
        },
        KeyPress::Character(c) => {
            if c == '?' {
                let next = match screen {
                    Screen::Main => Screen::Help,
                    Screen::Help => Screen::Main,
                };
                Outcome { spawn: None, close: false, next, handled: true }
            } else {
                match screen {
                    Screen::Main => match key_index(c) {
                        Some(i) => activate(config, i),
                        None => Outcome {
                            spawn: None,
                            close: false,
                            next: Screen::Main,
                            handled: false,
                        },
                    },
                    Screen::Help => Outcome {
                        spawn: None,
                        close: false,
                        next: Screen::Help,
                        handled: false,
                    },
                }
            }
        },
    }
}

/// From the main view the help trigger switches to the help view, and while
/// the help view shows, no key press spawns a command and none closes the
/// window: every key either returns to the main view (`?` or escape) or is
/// left unhandled with the help view still showing.
pub proof fn lemma_help_suppresses_commands(entries: Seq<(Seq<char>, Seq<char>)>, key: KeyPress)
    ensures
        spec_handle_key(Screen::Main, KeyPress::Character('?'), entries).0 == Screen::Help,
        spec_handle_key(Screen::Help, key, entries).1 is None,
        !spec_handle_key(Screen::Help, key, entries).2,
        spec_handle_key(Screen::Help, key, entries).0 == Screen::Help ==> !spec_handle_key(
            Screen::Help,
            key,
            entries,
        ).3,
        spec_handle_key(Screen::Help, key, entries).0 == Screen::Main <==> (key == KeyPress::Escape
            || key == KeyPress::Character('?')),
{
}

} // verus!
