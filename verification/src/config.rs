//! The launcher's configuration: an ordered list of labelled shell commands.
//!
//! A configuration is valid when it holds exactly [`COMMAND_COUNT`] entries;
//! position `i` of the list is bound to shortcut key `i` and to grid cell `i`.

use vstd::prelude::*;

verus! {

/// How many command entries a valid configuration holds.
pub const COMMAND_COUNT: usize = 8;

/// One launchable action: a human-readable label and the shell command it runs.
#[derive(Clone, Debug, PartialEq, Eq)]
pub struct CommandEntry {
    pub label: String,
    pub command: String,
}

impl View for CommandEntry {
    type V = (Seq<char>, Seq<char>);

    open spec fn view(&self) -> Self::V {
        (self.label@, self.command@)
    }
}

/// The full configuration: the ordered command list.
#[derive(Clone, Debug, PartialEq, Eq)]
pub struct Config {
    pub commands: Vec<CommandEntry>,
}

/// The (label, command) views of a command list, in order.
pub open spec fn entry_views(es: Seq<CommandEntry>) -> Seq<(Seq<char>, Seq<char>)> {
    es.map_values(|e: CommandEntry| e@)
}

impl View for Config {
    type V = Seq<(Seq<char>, Seq<char>)>;

    open spec fn view(&self) -> Self::V {
        entry_views(self.commands@)
    }
}

/// A configuration is valid when it holds exactly eight entries.
pub open spec fn config_valid(entries: Seq<(Seq<char>, Seq<char>)>) -> bool {
    entries.len() == COMMAND_COUNT
}

/// The hard-coded default command set, in order: terminal, browser, file
/// manager, editor, media player, chat client, screenshot pipeline, screen
/// lock.
pub open spec fn default_entries() -> Seq<(Seq<char>, Seq<char>)> {
    seq![
        ("Terminal"@, "kitty"@),
        ("Firefox"@, "firefox"@),
        ("Files"@, "thunar"@),
        ("VS Code"@, "code"@),
        ("Spotify"@, "spotify"@),
        ("Discord"@, "discord"@),
        ("Screenshot"@, "grim -g \"$(slurp)\" - | wl-copy"@),
        ("Lock"@, "hyprlock"@),
    ]
}

impl Config {
    /// A valid configuration holds exactly eight entries.
    pub fn is_valid(&self) -> (r: bool)
        ensures
            r == config_valid(self@),
    {
        self.commands.len() == COMMAND_COUNT
    }
}

impl Default for Config {
    /// Builds the hard-coded default configuration.
    fn default() -> (c: Self)
        ensures
            c@ == default_entries(),
            config_valid(c@),
    {
        let commands: Vec<CommandEntry> = vec![
            CommandEntry { label: String::from_str("Terminal"), command: String::from_str("kitty") },
            CommandEntry { label: String::from_str("Firefox"), command: String::from_str("firefox") },
            CommandEntry { label: String::from_str("Files"), command: String::from_str("thunar") },
            CommandEntry { label: String::from_str("VS Code"), command: String::from_str("code") },
            CommandEntry { label: String::from_str("Spotify"), command: String::from_str("spotify") },
            CommandEntry { label: String::from_str("Discord"), command: String::from_str("discord") },
            CommandEntry {
                label: String::from_str("Screenshot"),
                command: String::from_str("grim -g \"$(slurp)\" - | wl-copy"),
            },
            CommandEntry { label: String::from_str("Lock"), command: String::from_str("hyprlock") },
        ];
        let c = Config { commands };
        proof {
            assert(c@ =~= default_entries());
        }
        c
    }
}

/// How loading went: the file's entries were taken, or the defaults replaced
/// them because the file was missing, was not a well-formed document, or held
/// the wrong number of entries.
#[derive(Clone, Copy, Debug, PartialEq, Eq)]
pub enum LoadStatus {
    Loaded,
    Missing,
    Invalid,
    WrongCount,
}

/// What loading yields for given file content: the entries to use, and how
/// they were arrived at.
pub open spec fn spec_load(content: Option<Seq<char>>) -> (Seq<(Seq<char>, Seq<char>)>, LoadStatus) {
    match content {
        None => (default_entries(), LoadStatus::Missing),
        Some(s) => match crate::json::spec_parse_config(s) {
            Some(es) => if config_valid(es) {
                (es, LoadStatus::Loaded)
            } else {
                (default_entries(), LoadStatus::WrongCount)
            },
            None => (default_entries(), LoadStatus::Invalid),
        },
    }
}

/// Interprets the configuration file's content, `None` standing for a file
/// that could not be read.  A well-formed document with exactly eight entries
/// yields those entries unchanged; anything else yields the default set.  Any
/// status but `Loaded` asks the caller to rewrite the file with the returned
/// configuration.
pub fn load_config(content: Option<&String>) -> (r: (Config, LoadStatus))
    ensures
        ({
            let (entries, status) = spec_load(
                match content {
                    Some(s) => Some(s@),
                    None => None,
                },
            );
            &&& r.0@ == entries
            &&& r.1 == status
            &&& config_valid(r.0@)
        }),
{
    match content {
        None => (Config::default(), LoadStatus::Missing),
        Some(s) => {
            let chars = crate::text::string_to_chars(s);
            match crate::json::parse_config(&chars) {
                Some(es) => {
                    let cfg = Config { commands: es };
                    if cfg.commands.len() == COMMAND_COUNT {
                        (cfg, LoadStatus::Loaded)
                    } else {
                        (Config::default(), LoadStatus::WrongCount)
                    }
                },
                None => (Config::default(), LoadStatus::Invalid),
            }
        },
    }
}

/// Serializes a configuration as the pretty-printed document text.
pub fn save_config(config: &Config) -> (s: String)
    ensures
        s@ == crate::json::ser_config(config@),
{
    let chars = crate::json::write_config(&config.commands);
    crate::text::chars_to_string(&chars)
}

/// Saving and then loading gives the configuration back: the saved text
/// parses to exactly the entries it was made from, and loading it takes them
/// unchanged whenever there are eight of them.
pub proof fn lemma_save_then_load(entries: Seq<(Seq<char>, Seq<char>)>)
    ensures
        crate::json::spec_parse_config(crate::json::ser_config(entries)) == Some(entries),
        config_valid(entries) ==> spec_load(Some(crate::json::ser_config(entries))) == (
            entries,
            LoadStatus::Loaded,
        ),
{
    crate::json::lemma_parse_ser_config(entries);
}

/// Loading always yields a valid configuration, and whenever the content was
/// not taken as it stands, what it yields is exactly the default set.
pub proof fn lemma_load_fallback(content: Option<Seq<char>>)
    ensures
        config_valid(spec_load(content).0),
        spec_load(content).1 != LoadStatus::Loaded ==> spec_load(content).0 == default_entries(),
        content is None <==> spec_load(content).1 == LoadStatus::Missing,
{
}

} // verus!
