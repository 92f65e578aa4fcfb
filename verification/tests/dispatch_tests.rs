use hyprmenu::config::{CommandEntry, Config};
use hyprmenu::dispatch::{
    activate, grid_position, handle_key, key_index, shortcut_for_slot, KeyPress, Screen,
};

fn entry(label: &str, command: &str) -> CommandEntry {
    CommandEntry { label: label.to_string(), command: command.to_string() }
}

fn test_config() -> Config {
    Config {
        commands: vec![
            entry("One", "cmd-one"),
            entry("Two", "cmd-two"),
            entry("Three", "cmd-three"),
            entry("Four", "cmd-four"),
            entry("Five", "cmd-five"),
            entry("Six", "cmd-six"),
            entry("Seven", "cmd-seven"),
            entry("Eight", "cmd-eight"),
        ],
    }
}

#[test]
fn key_table_matches_shortcuts() {
    let shortcuts = ['a', 's', 'd', 'f', 'h', 'j', 'k', 'l'];
    for (i, c) in shortcuts.iter().enumerate() {
        assert_eq!(key_index(*c), Some(i));
        assert_eq!(shortcut_for_slot(i), *c);
    }
    for c in ['q', 'w', 'e', 'A', 'S', '?', ' ', '0', '\u{e9}'] {
        assert_eq!(key_index(c), None);
    }
}

#[test]
fn activate_in_range_spawns_and_closes() {
    let config = test_config();
    for i in 0..8 {
        let outcome = activate(&config, i);
        assert_eq!(outcome.spawn.as_deref(), Some(config.commands[i].command.as_str()));
        assert!(outcome.close);
        assert!(outcome.handled);
        assert_eq!(outcome.next, Screen::Main);
    }
}

#[test]
fn activate_out_of_range_does_nothing() {
    let config = test_config();
    for i in [8usize, 9, 100] {
        let outcome = activate(&config, i);
        assert_eq!(outcome.spawn, None);
        assert!(!outcome.close);
        assert!(!outcome.handled);
    }
}

#[test]
fn command_key_on_main_spawns_and_closes() {
    let config = test_config();
    let outcome = handle_key(Screen::Main, KeyPress::Character('d'), &config);
    assert_eq!(outcome.spawn.as_deref(), Some("cmd-three"));
    assert!(outcome.close);
    assert!(outcome.handled);
    assert_eq!(outcome.next, Screen::Main);
}

#[test]
fn escape_on_main_closes_without_spawn() {
    let config = test_config();
    let outcome = handle_key(Screen::Main, KeyPress::Escape, &config);
    assert_eq!(outcome.spawn, None);
    assert!(outcome.close);
    assert!(outcome.handled);
}

#[test]
fn help_trigger_toggles_views() {
    let config = test_config();
    let to_help = handle_key(Screen::Main, KeyPress::Character('?'), &config);
    assert_eq!(to_help.next, Screen::Help);
    assert_eq!(to_help.spawn, None);
    assert!(!to_help.close);
    assert!(to_help.handled);

    let back = handle_key(Screen::Help, KeyPress::Character('?'), &config);
    assert_eq!(back.next, Screen::Main);
    assert_eq!(back.spawn, None);
    assert!(!back.close);

    let escape_back = handle_key(Screen::Help, KeyPress::Escape, &config);
    assert_eq!(escape_back.next, Screen::Main);
    assert_eq!(escape_back.spawn, None);
    assert!(!escape_back.close);
    assert!(escape_back.handled);
}

#[test]
fn help_view_suppresses_command_keys() {
    let config = test_config();
    for c in ['a', 's', 'd', 'f', 'h', 'j', 'k', 'l', 'q'] {
        let outcome = handle_key(Screen::Help, KeyPress::Character(c), &config);
        assert_eq!(outcome.spawn, None);
        assert!(!outcome.close);
        assert!(!outcome.handled);
        assert_eq!(outcome.next, Screen::Help);
    }
}

#[test]
fn unmapped_key_on_main_is_ignored() {
    let config = test_config();
    for c in ['q', 'z', '1', ' '] {
        let outcome = handle_key(Screen::Main, KeyPress::Character(c), &config);
        assert_eq!(outcome.spawn, None);
        assert!(!outcome.close);
        assert!(!outcome.handled);
        assert_eq!(outcome.next, Screen::Main);
    }
}

#[test]
fn command_key_beyond_short_list_is_ignored() {
    let config = Config { commands: vec![entry("Only", "cmd-only")] };
    let hit = handle_key(Screen::Main, KeyPress::Character('a'), &config);
    assert_eq!(hit.spawn.as_deref(), Some("cmd-only"));
    assert!(hit.close);
    let miss = handle_key(Screen::Main, KeyPress::Character('s'), &config);
    assert_eq!(miss.spawn, None);
    assert!(!miss.close);
    assert!(!miss.handled);
}

#[test]
fn grid_positions_are_row_major() {
    assert_eq!(grid_position(0), (0, 0));
    assert_eq!(grid_position(1), (0, 1));
    assert_eq!(grid_position(2), (0, 2));
    assert_eq!(grid_position(3), (0, 3));
    assert_eq!(grid_position(4), (1, 0));
    assert_eq!(grid_position(5), (1, 1));
    assert_eq!(grid_position(6), (1, 2));
    assert_eq!(grid_position(7), (1, 3));
}
