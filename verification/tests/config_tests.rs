use hyprmenu::config::{load_config, save_config, CommandEntry, Config, LoadStatus, COMMAND_COUNT};

fn entry(label: &str, command: &str) -> CommandEntry {
    CommandEntry { label: label.to_string(), command: command.to_string() }
}

fn eight_entries() -> Vec<CommandEntry> {
    vec![
        entry("One", "echo one"),
        entry("Two", "echo two"),
        entry("Three", "echo three"),
        entry("Four", "echo four"),
        entry("Five", "echo five"),
        entry("Six", "echo six"),
        entry("Seven", "echo seven"),
        entry("Eight", "echo eight"),
    ]
}

#[test]
fn default_has_eight_entries() {
    let config = Config::default();
    assert_eq!(config.commands.len(), COMMAND_COUNT);
    assert_eq!(config.commands[0].label, "Terminal");
    assert_eq!(config.commands[0].command, "kitty");
    assert_eq!(config.commands[1].label, "Firefox");
    assert_eq!(config.commands[1].command, "firefox");
    assert_eq!(config.commands[2].label, "Files");
    assert_eq!(config.commands[2].command, "thunar");
    assert_eq!(config.commands[3].label, "VS Code");
    assert_eq!(config.commands[3].command, "code");
    assert_eq!(config.commands[4].label, "Spotify");
    assert_eq!(config.commands[4].command, "spotify");
    assert_eq!(config.commands[5].label, "Discord");
    assert_eq!(config.commands[5].command, "discord");
    assert_eq!(config.commands[6].label, "Screenshot");
    assert_eq!(config.commands[6].command, "grim -g \"$(slurp)\" - | wl-copy");
    assert_eq!(config.commands[7].label, "Lock");
    assert_eq!(config.commands[7].command, "hyprlock");
}

#[test]
fn load_missing_file_returns_defaults() {
    let (config, status) = load_config(None);
    assert_eq!(status, LoadStatus::Missing);
    assert_eq!(config, Config::default());
}

#[test]
fn load_well_formed_returns_entries_unchanged() {
    let text = String::from(
        "{ \"commands\": [\n  {\"label\": \"One\", \"command\": \"echo one\"},\n  {\"command\": \"echo two\", \"label\": \"Two\"},\n  {\"label\":\"Three\",\"command\":\"echo three\"},\n  { \"label\" : \"Four\" , \"command\" : \"echo four\" },\n  {\"label\": \"Five\", \"command\": \"echo five\"},\n  {\"label\": \"Six\", \"command\": \"echo six\"},\n  {\"label\": \"Seven\", \"command\": \"echo seven\"},\n  {\"label\": \"Eight\", \"command\": \"echo eight\"}\n] }\n",
    );
    let (config, status) = load_config(Some(&text));
    assert_eq!(status, LoadStatus::Loaded);
    assert_eq!(config.commands, eight_entries());
}

#[test]
fn load_seven_entries_returns_defaults() {
    let mut short = eight_entries();
    short.pop();
    let text = save_config(&Config { commands: short });
    let (config, status) = load_config(Some(&text));
    assert_eq!(status, LoadStatus::WrongCount);
    assert_eq!(config, Config::default());
}

#[test]
fn load_nine_entries_returns_defaults() {
    let mut long = eight_entries();
    long.push(entry("Nine", "echo nine"));
    let text = save_config(&Config { commands: long });
    let (config, status) = load_config(Some(&text));
    assert_eq!(status, LoadStatus::WrongCount);
    assert_eq!(config, Config::default());
}

#[test]
fn load_invalid_syntax_returns_defaults() {
    for bad in [
        "",
        "not json at all",
        "{",
        "{\"commands\": [",
        "{\"commands\": [{\"label\": \"a\"}]}",
        "{\"commands\": [{\"label\": \"a\", \"command\": 3}]}",
        "[]",
        "{\"commands\": {}}",
        "{\"other\": []}",
    ] {
        let text = bad.to_string();
        let (config, status) = load_config(Some(&text));
        assert_eq!(status, LoadStatus::Invalid, "content: {:?}", bad);
        assert_eq!(config, Config::default());
    }
}

#[test]
fn load_empty_list_returns_defaults() {
    let text = String::from("{\"commands\": []}");
    let (config, status) = load_config(Some(&text));
    assert_eq!(status, LoadStatus::WrongCount);
    assert_eq!(config, Config::default());
}

#[test]
fn save_writes_pretty_document() {
    let config = Config { commands: vec![entry("A", "b"), entry("C", "d")] };
    let expected = "{\n  \"commands\": [\n    {\n      \"label\": \"A\",\n      \"command\": \"b\"\n    },\n    {\n      \"label\": \"C\",\n      \"command\": \"d\"\n    }\n  ]\n}";
    assert_eq!(save_config(&config), expected);
}

#[test]
fn save_escapes_special_characters() {
    let config = Config { commands: vec![entry("a\"b\\c", "x\ny\tz\u{1}")] };
    let expected = "{\n  \"commands\": [\n    {\n      \"label\": \"a\\\"b\\\\c\",\n      \"command\": \"x\\ny\\tz\\u0001\"\n    }\n  ]\n}";
    assert_eq!(save_config(&config), expected);
}

#[test]
fn missing_file_then_written_defaults_load_back() {
    let (config, status) = load_config(None);
    assert_eq!(status, LoadStatus::Missing);
    let written = save_config(&config);
    let (reloaded, second_status) = load_config(Some(&written));
    assert_eq!(second_status, LoadStatus::Loaded);
    assert_eq!(reloaded, Config::default());
}
