use hyprmenu::config::{load_config, save_config, CommandEntry, Config, LoadStatus};

fn entry(label: &str, command: &str) -> CommandEntry {
    CommandEntry { label: label.to_string(), command: command.to_string() }
}

fn roundtrip(config: &Config) -> Config {
    let text = save_config(config);
    let (loaded, status) = load_config(Some(&text));
    assert_eq!(status, LoadStatus::Loaded);
    loaded
}

#[test]
fn roundtrip_plain_entries() {
    let config = Config {
        commands: vec![
            entry("Terminal", "kitty"),
            entry("Browser", "firefox --new-window"),
            entry("Files", "thunar /home"),
            entry("Editor", "code ."),
            entry("Music", "spotify"),
            entry("Chat", "discord"),
            entry("Shot", "grim -g \"$(slurp)\" - | wl-copy"),
            entry("Lock", "hyprlock"),
        ],
    };
    assert_eq!(roundtrip(&config), config);
}

#[test]
fn roundtrip_special_characters() {
    let config = Config {
        commands: vec![
            entry("quotes \"inside\"", "echo \"hi\""),
            entry("back\\slash", "printf '%s\\n'"),
            entry("line\nbreak", "tab\there"),
            entry("bell\u{7}", "esc\u{1b}end"),
            entry("", ""),
            entry("accented \u{e9}\u{e8}", "umlaut \u{fc}"),
            entry("wide \u{4e2d}\u{6587}", "emoji \u{1f600}"),
            entry("slash / and more", "control\u{1f}mix"),
        ],
    };
    assert_eq!(roundtrip(&config), config);
}

#[test]
fn parse_accepts_unicode_escapes() {
    let text = String::from(
        "{\"commands\": [{\"label\": \"\\u0041\\u00e9\\u4e2d\", \"command\": \"\\u0009x\"},{\"label\":\"b\",\"command\":\"b\"},{\"label\":\"c\",\"command\":\"c\"},{\"label\":\"d\",\"command\":\"d\"},{\"label\":\"e\",\"command\":\"e\"},{\"label\":\"f\",\"command\":\"f\"},{\"label\":\"g\",\"command\":\"g\"},{\"label\":\"h\",\"command\":\"h\"}]}",
    );
    let (config, status) = load_config(Some(&text));
    assert_eq!(status, LoadStatus::Loaded);
    assert_eq!(config.commands[0].label, "A\u{e9}\u{4e2d}");
    assert_eq!(config.commands[0].command, "\tx");
}

#[test]
fn parse_rejects_surrogate_escape() {
    let text = String::from("{\"commands\": [{\"label\": \"\\ud800\", \"command\": \"x\"}]}");
    let (config, status) = load_config(Some(&text));
    assert_eq!(status, LoadStatus::Invalid);
    assert_eq!(config, Config::default());
}

#[test]
fn parse_rejects_duplicate_keys() {
    let text = String::from("{\"commands\": [{\"label\": \"a\", \"label\": \"b\"}]}");
    let (_, status) = load_config(Some(&text));
    assert_eq!(status, LoadStatus::Invalid);
}

#[test]
fn parse_rejects_trailing_text() {
    let config = Config { commands: vec![entry("a", "b")] };
    let mut text = save_config(&config);
    text.push_str(" x");
    let (_, status) = load_config(Some(&text));
    assert_eq!(status, LoadStatus::Invalid);
}

#[test]
fn serde_json_reads_saved_document() {
    let config = Config {
        commands: vec![
            entry("quotes \"inside\"", "echo \"hi\""),
            entry("back\\slash", "printf '%s\\n'"),
            entry("line\nbreak", "tab\there"),
            entry("bell\u{7}", "esc\u{1b}end"),
            entry("Terminal", "kitty"),
            entry("accented \u{e9}", "plain"),
            entry("wide \u{4e2d}", "emoji \u{1f600}"),
            entry("Lock", "hyprlock"),
        ],
    };
    let text = save_config(&config);
    let value: serde_json::Value = serde_json::from_str(&text).unwrap();
    let list = value.get("commands").unwrap().as_array().unwrap();
    assert_eq!(list.len(), 8);
    for (i, item) in list.iter().enumerate() {
        assert_eq!(item.get("label").unwrap().as_str().unwrap(), config.commands[i].label);
        assert_eq!(item.get("command").unwrap().as_str().unwrap(), config.commands[i].command);
    }
}

#[test]
fn loader_reads_serde_json_output() {
    let labels = ["One", "Two", "Three", "Four", "Five", "Six", "Seven", "Eight"];
    let mut items: Vec<serde_json::Value> = Vec::new();
    for label in labels {
        let mut object = serde_json::Map::new();
        object.insert("label".to_string(), serde_json::Value::String(label.to_string()));
        object.insert(
            "command".to_string(),
            serde_json::Value::String(format!("run {} \"now\"", label)),
        );
        items.push(serde_json::Value::Object(object));
    }
    let mut top = serde_json::Map::new();
    top.insert("commands".to_string(), serde_json::Value::Array(items));
    let document = serde_json::Value::Object(top);

    for text in [
        serde_json::to_string(&document).unwrap(),
        serde_json::to_string_pretty(&document).unwrap(),
    ] {
        let (config, status) = load_config(Some(&text));
        assert_eq!(status, LoadStatus::Loaded);
        for (i, label) in labels.iter().enumerate() {
            assert_eq!(config.commands[i].label, *label);
            assert_eq!(config.commands[i].command, format!("run {} \"now\"", label));
        }
    }
}
