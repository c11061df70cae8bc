//! The commands that users give, decoded once from a name and options into
//! a closed set of variants.

use vstd::prelude::*;
use crate::text::parse_id;
use crate::text::parsed_id;
use crate::text::str_eq;

verus! {

/// What an option of a command holds.
#[derive(Clone, Debug, PartialEq, Eq)]
pub enum OptionValue {
    Text(String),
    Channel(u64),
    /// Anything else, or nothing.
    Other,
}

/// The value of an option as contracts see it.
pub enum ValueView {
    Text(Seq<char>),
    Channel(u64),
    Other,
}

impl View for OptionValue {
    type V = ValueView;

    open spec fn view(&self) -> ValueView {
        match self {
            OptionValue::Text(s) => ValueView::Text(s@),
            OptionValue::Channel(id) => ValueView::Channel(*id),
            OptionValue::Other => ValueView::Other,
        }
    }
}

/// One option of a command as the chat platform hands it over.
#[derive(Clone, Debug, PartialEq, Eq)]
pub struct CommandOption {
    pub name: String,
    pub value: OptionValue,
    /// Whether the user is typing into this option.
    pub focused: bool,
}

/// An option as contracts see it.
pub struct OptionView {
    pub name: Seq<char>,
    pub value: ValueView,
    pub focused: bool,
}

impl View for CommandOption {
    type V = OptionView;

    open spec fn view(&self) -> OptionView {
        OptionView { name: self.name@, value: self.value@, focused: self.focused }
    }
}

/// The views of a vector of options.
pub open spec fn option_views(v: Seq<CommandOption>) -> Seq<OptionView> {
    v.map_values(|o: CommandOption| o@)
}

/// The first option of this name.
pub open spec fn found_param(options: Seq<OptionView>, name: Seq<char>) -> Option<OptionView>
    decreases options.len(),
{
    if options.len() == 0 {
        None
    } else if options[0].name == name {
        Some(options[0])
    } else {
        found_param(options.drop_first(), name)
    }
}

/// The channel that the first option of this name holds.
pub open spec fn channel_opt(options: Seq<OptionView>, name: Seq<char>) -> Option<u64> {
    match found_param(options, name) {
        Some(o) => match o.value {
            ValueView::Channel(id) => Some(id),
            _ => None,
        },
        None => None,
    }
}

/// The text that the first option of this name holds.
pub open spec fn string_opt(options: Seq<OptionView>, name: Seq<char>) -> Option<Seq<char>> {
    match found_param(options, name) {
        Some(o) => match o.value {
            ValueView::Text(s) => Some(s),
            _ => None,
        },
        None => None,
    }
}

/// Skipping options of other names changes nothing in what is found.
pub proof fn lemma_found_param_skip(options: Seq<OptionView>, name: Seq<char>, n: int)
    requires
        0 <= n <= options.len(),
        forall|k: int| 0 <= k < n ==> (#[trigger] options[k]).name != name,
    ensures
        found_param(options, name) == found_param(options.skip(n), name),
    decreases n,
{
    if n == 0 {
        assert(options.skip(0) =~= options);
    } else {
        let rest = options.drop_first();
        assert forall|k: int| 0 <= k < n - 1 implies (#[trigger] rest[k]).name != name by {
            assert(rest[k] == options[k + 1]);
        }
        lemma_found_param_skip(rest, name, n - 1);
        assert(rest.skip(n - 1) =~= options.skip(n));
    }
}

/// The first option of this name.
pub fn find_param<'a>(name: &str, options: &'a Vec<CommandOption>) -> (r: Option<&'a CommandOption>)
    ensures
        match r {
            Some(o) => found_param(option_views(options@), name@) == Some(o@),
            None => found_param(option_views(options@), name@) is None,
        },
{
    let n: usize = options.len();
    let mut i: usize = 0;
    while i < n
        invariant
            n == options@.len(),
            i <= n,
            forall|k: int| 0 <= k < i ==> (#[trigger] option_views(options@)[k]).name != name@,
        decreases n - i,
    {
        if str_eq(options[i].name.as_str(), name) {
            proof {
                let all = option_views(options@);
                lemma_found_param_skip(all, name@, i as int);
                assert(all.skip(i as int)[0] == all[i as int]);
            }
            return Some(&options[i]);
        }
        i += 1;
    }
    proof {
        let all = option_views(options@);
        lemma_found_param_skip(all, name@, n as int);
    }
    None
}

/// The channel that the first option of this name holds.
pub fn get_channel_opt(name: &str, options: &Vec<CommandOption>) -> (r: Option<u64>)
    ensures
        r == channel_opt(option_views(options@), name@),
{
    match find_param(name, options) {
        Some(o) => match &o.value {
            OptionValue::Channel(id) => Some(*id),
            _ => None,
        },
        None => None,
    }
}

/// The text that the first option of this name holds.
pub fn get_string_opt<'a>(name: &str, options: &'a Vec<CommandOption>) -> (r: Option<&'a String>)
    ensures
        match r {
            Some(s) => string_opt(option_views(options@), name@) == Some(s@),
            None => string_opt(option_views(options@), name@) is None,
        },
{
    match find_param(name, options) {
        Some(o) => match &o.value {
            OptionValue::Text(s) => Some(s),
            _ => None,
        },
        None => None,
    }
}

/// Why a name and options are no command.
#[derive(Clone, Copy, Debug, PartialEq, Eq, Structural)]
pub enum DecodeError {
    /// There is no command of this name.
    UnknownCommand,
    /// An option that the command needs is missing or holds the wrong kind of value.
    BadOption,
    /// The option that suggestions are made for is not the one being typed into.
    NotFocused,
}

/// A command of a user.
#[derive(Clone, Debug, PartialEq, Eq)]
#[allow(inconsistent_fields)]
pub enum Command {
    Connect { source: u64, target_server: String, target_channel: String },
    Disconnect { source: u64, target_label: String },
    DisconnectAll { source: u64 },
    ListConnections,
    WipeConnections { server: String },
    WipeMentions { server: String },
    MentionAdd { target_server: String, target_channel: String, mentions: String, source: Option<u64> },
    ListMentions { target_server: String },
}

/// A command as contracts see it.
#[allow(inconsistent_fields)]
pub enum CommandView {
    Connect { source: u64, target_server: Seq<char>, target_channel: Seq<char> },
    Disconnect { source: u64, target_label: Seq<char> },
    DisconnectAll { source: u64 },
    ListConnections,
    WipeConnections { server: Seq<char> },
    WipeMentions { server: Seq<char> },
    MentionAdd { target_server: Seq<char>, target_channel: Seq<char>, mentions: Seq<char>, source: Option<u64> },
    ListMentions { target_server: Seq<char> },
}

impl View for Command {
    type V = CommandView;

    open spec fn view(&self) -> CommandView {
        match self {
            Command::Connect { source, target_server, target_channel } => CommandView::Connect {
                source: *source,
                target_server: target_server@,
                target_channel: target_channel@,
            },
            Command::Disconnect { source, target_label } => CommandView::Disconnect {
                source: *source,
                target_label: target_label@,
            },
            Command::DisconnectAll { source } => CommandView::DisconnectAll { source: *source },
            Command::ListConnections => CommandView::ListConnections,
            Command::WipeConnections { server } => CommandView::WipeConnections { server: server@ },
            Command::WipeMentions { server } => CommandView::WipeMentions { server: server@ },
            Command::MentionAdd { target_server, target_channel, mentions, source } => CommandView::MentionAdd {
                target_server: target_server@,
                target_channel: target_channel@,
                mentions: mentions@,
                source: *source,
            },
            Command::ListMentions { target_server } => CommandView::ListMentions { target_server: target_server@ },
        }
    }
}

/// A decoded command as contracts see it.
pub open spec fn decoded_view(r: Result<Command, DecodeError>) -> Result<CommandView, DecodeError> {
    match r {
        Ok(c) => Ok(c@),
        Err(e) => Err(e),
    }
}

/// The command that a name and options stand for.
pub open spec fn decoded_command(
    name: Seq<char>,
    options: Seq<OptionView>,
) -> Result<CommandView, DecodeError> {
    if name == "connect"@ {
        match (channel_opt(options, "source"@), string_opt(options, "target_server"@), string_opt(options, "target_channel"@)) {
            (Some(source), Some(target_server), Some(target_channel)) => Ok(
                CommandView::Connect { source, target_server, target_channel },
            ),
            _ => Err(DecodeError::BadOption),
        }
    } else if name == "disconnect"@ {
        match (channel_opt(options, "source"@), string_opt(options, "target_channel"@)) {
            (Some(source), Some(target_label)) => Ok(CommandView::Disconnect { source, target_label }),
            _ => Err(DecodeError::BadOption),
        }
    } else if name == "disconnect-all"@ {
        match channel_opt(options, "source"@) {
            Some(source) => Ok(CommandView::DisconnectAll { source }),
            None => Err(DecodeError::BadOption),
        }
    } else if name == "list-connections"@ {
        Ok(CommandView::ListConnections)
    } else if name == "wipe-connections"@ {
        match string_opt(options, "server"@) {
            Some(server) => Ok(CommandView::WipeConnections { server }),
            None => Err(DecodeError::BadOption),
        }
    } else if name == "wipe-mentions"@ {
        match string_opt(options, "server"@) {
            Some(server) => Ok(CommandView::WipeMentions { server }),
            None => Err(DecodeError::BadOption),
        }
    } else if name == "mention-add"@ {
        match (string_opt(options, "target_server"@), string_opt(options, "target_channel"@), string_opt(options, "mentions"@)) {
            (Some(target_server), Some(target_channel), Some(mentions)) => Ok(
                CommandView::MentionAdd {
                    target_server,
                    target_channel,
                    mentions,
                    source: channel_opt(options, "source"@),
                },
            ),
            _ => Err(DecodeError::BadOption),
        }
    } else if name == "list-mentions"@ {
        match string_opt(options, "target_server"@) {
            Some(target_server) => Ok(CommandView::ListMentions { target_server }),
            None => Err(DecodeError::BadOption),
        }
    } else {
        Err(DecodeError::UnknownCommand)
    }
}

/// Decodes the name and the options of a command.
pub fn decode_command(name: &str, options: &Vec<CommandOption>) -> (r: Result<Command, DecodeError>)
    ensures
        decoded_view(r) == decoded_command(name@, option_views(options@)),
{
    if str_eq(name, "connect") {
        let source = get_channel_opt("source", options);
        let target_server = get_string_opt("target_server", options);
        let target_channel = get_string_opt("target_channel", options);
        match (source, target_server, target_channel) {
            (Some(source), Some(target_server), Some(target_channel)) => Ok(
                Command::Connect { source, target_server: target_server.clone(), target_channel: target_channel.clone() },
            ),
            _ => Err(DecodeError::BadOption),
        }
    } else if str_eq(name, "disconnect") {
        let source = get_channel_opt("source", options);
        let target_label = get_string_opt("target_channel", options);
        match (source, target_label) {
            (Some(source), Some(target_label)) => Ok(Command::Disconnect { source, target_label: target_label.clone() }),
            _ => Err(DecodeError::BadOption),
        }
    } else if str_eq(name, "disconnect-all") {
        match get_channel_opt("source", options) {
            Some(source) => Ok(Command::DisconnectAll { source }),
            None => Err(DecodeError::BadOption),
        }
    } else if str_eq(name, "list-connections") {
        Ok(Command::ListConnections)
    } else if str_eq(name, "wipe-connections") {
        match get_string_opt("server", options) {
            Some(server) => Ok(Command::WipeConnections { server: server.clone() }),
            None => Err(DecodeError::BadOption),
        }
    } else if str_eq(name, "wipe-mentions") {
        match get_string_opt("server", options) {
            Some(server) => Ok(Command::WipeMentions { server: server.clone() }),
            None => Err(DecodeError::BadOption),
        }
    } else if str_eq(name, "mention-add") {
        let target_server = get_string_opt("target_server", options);
        let target_channel = get_string_opt("target_channel", options);
        let mentions = get_string_opt("mentions", options);
        let source = get_channel_opt("source", options);
        match (target_server, target_channel, mentions) {
            (Some(target_server), Some(target_channel), Some(mentions)) => Ok(
                Command::MentionAdd {
                    target_server: target_server.clone(),
                    target_channel: target_channel.clone(),
                    mentions: mentions.clone(),
                    source,
                },
            ),
            _ => Err(DecodeError::BadOption),
        }
    } else if str_eq(name, "list-mentions") {
        match get_string_opt("target_server", options) {
            Some(target_server) => Ok(Command::ListMentions { target_server: target_server.clone() }),
            None => Err(DecodeError::BadOption),
        }
    } else {
        Err(DecodeError::UnknownCommand)
    }
}

/// What suggestions are wanted for.
#[derive(Clone, Debug, PartialEq, Eq)]
pub enum Suggest {
    /// Guild names close to `fragment`.
    Servers { fragment: String },
    /// Names of the channels of the guild `server` close to `fragment`.
    Channels { server: String, fragment: String },
    /// Labels of the targets connected to `source` close to `fragment`.
    Targets { source: u64, fragment: String },
}

/// A request for suggestions as contracts see it.
pub enum SuggestView {
    Servers { fragment: Seq<char> },
    Channels { server: Seq<char>, fragment: Seq<char> },
    Targets { source: u64, fragment: Seq<char> },
}

impl View for Suggest {
    type V = SuggestView;

    open spec fn view(&self) -> SuggestView {
        match self {
            Suggest::Servers { fragment } => SuggestView::Servers { fragment: fragment@ },
            Suggest::Channels { server, fragment } => SuggestView::Channels { server: server@, fragment: fragment@ },
            Suggest::Targets { source, fragment } => SuggestView::Targets { source: *source, fragment: fragment@ },
        }
    }
}

impl SuggestView {
    /// What the user has typed so far.
    pub open spec fn fragment(self) -> Seq<char> {
        match self {
            SuggestView::Servers { fragment } => fragment,
            SuggestView::Channels { server, fragment } => fragment,
            SuggestView::Targets { source, fragment } => fragment,
        }
    }
}

/// A decoded request as contracts see it.
pub open spec fn suggest_view(r: Result<Suggest, DecodeError>) -> Result<SuggestView, DecodeError> {
    match r {
        Ok(s) => Ok(s@),
        Err(e) => Err(e),
    }
}

/// What a command with a target server and a target channel wants
/// suggestions for: guilds while the server is typed, else the channels of
/// the server while the channel is typed.
pub open spec fn decoded_target_suggest(
    options: Seq<OptionView>,
) -> Result<SuggestView, DecodeError> {
    match found_param(options, "target_server"@) {
        Some(server) => match server.value {
            ValueView::Text(server_name) => if server.focused {
                Ok(SuggestView::Servers { fragment: server_name })
            } else {
                match found_param(options, "target_channel"@) {
                    Some(channel) => if channel.focused {
                        match channel.value {
                            ValueView::Text(fragment) => Ok(SuggestView::Channels { server: server_name, fragment }),
                            _ => Err(DecodeError::BadOption),
                        }
                    } else {
                        Err(DecodeError::NotFocused)
                    },
                    None => Err(DecodeError::NotFocused),
                }
            },
            _ => Err(DecodeError::BadOption),
        },
        None => Err(DecodeError::BadOption),
    }
}

/// What the command that wipes a server wants suggestions for: guilds.
pub open spec fn decoded_server_suggest(
    options: Seq<OptionView>,
) -> Result<SuggestView, DecodeError> {
    match string_opt(options, "server"@) {
        Some(fragment) => Ok(SuggestView::Servers { fragment }),
        None => Err(DecodeError::BadOption),
    }
}

/// What the command that disconnects wants suggestions for: the targets of
/// the source, while the target is typed.
pub open spec fn decoded_disconnect_suggest(
    options: Seq<OptionView>,
) -> Result<SuggestView, DecodeError> {
    match (found_param(options, "source"@), found_param(options, "target_channel"@)) {
        (Some(source), Some(target)) => if target.focused {
            match (target.value, source.value) {
                (ValueView::Text(fragment), ValueView::Text(id)) => match parsed_id(id) {
                    Some(source) => Ok(SuggestView::Targets { source, fragment }),
                    None => Err(DecodeError::BadOption),
                },
                _ => Err(DecodeError::BadOption),
            }
        } else {
            Err(DecodeError::NotFocused)
        },
        _ => Err(DecodeError::BadOption),
    }
}

/// What suggestions the options of the command of this name ask for.
pub open spec fn decoded_suggest(
    name: Seq<char>,
    options: Seq<OptionView>,
) -> Result<SuggestView, DecodeError> {
    if name == "connect"@ || name == "mention-add"@ {
        decoded_target_suggest(options)
    } else if name == "disconnect"@ {
        decoded_disconnect_suggest(options)
    } else if name == "wipe-connections"@ || name == "wipe-mentions"@ {
        decoded_server_suggest(options)
    } else {
        Err(DecodeError::UnknownCommand)
    }
}

/// Decodes what the commands `connect` and `mention-add` want suggestions for.
pub fn handle_connect_autocomplete(
    options: &Vec<CommandOption>,
) -> (r: Result<Suggest, DecodeError>)
    ensures
        suggest_view(r) == decoded_target_suggest(option_views(options@)),
{
    let server = match find_param("target_server", options) {
        Some(server) => server,
        None => {
            return Err(DecodeError::BadOption);
        },
    };
    let server_name = match &server.value {
        OptionValue::Text(s) => s,
        _ => {
            return Err(DecodeError::BadOption);
        },
    };
    if server.focused {
        return Ok(Suggest::Servers { fragment: server_name.clone() });
    }
    match find_param("target_channel", options) {
        Some(channel) => {
            if channel.focused {
                match &channel.value {
                    OptionValue::Text(fragment) => Ok(
                        Suggest::Channels { server: server_name.clone(), fragment: fragment.clone() },
                    ),
                    _ => Err(DecodeError::BadOption),
                }
            } else {
                Err(DecodeError::NotFocused)
            }
        },
        None => Err(DecodeError::NotFocused),
    }
}

/// Decodes what the commands that wipe a server want suggestions for.
pub fn handle_wipe_connections_autocomplete(
    options: &Vec<CommandOption>,
) -> (r: Result<Suggest, DecodeError>)
    ensures
        suggest_view(r) == decoded_server_suggest(option_views(options@)),
{
    match get_string_opt("server", options) {
        Some(fragment) => Ok(Suggest::Servers { fragment: fragment.clone() }),
        None => Err(DecodeError::BadOption),
    }
}

/// Decodes what the command `disconnect` wants suggestions for.
pub fn handle_disconnect_autocomplete(
    options: &Vec<CommandOption>,
) -> (r: Result<Suggest, DecodeError>)
    ensures
        suggest_view(r) == decoded_disconnect_suggest(option_views(options@)),
{
    let source = find_param("source", options);
    let target = find_param("target_channel", options);
    match (source, target) {
        (Some(source), Some(target)) => {
            if !target.focused {
                return Err(DecodeError::NotFocused);
            }
            match (&target.value, &source.value) {
                (OptionValue::Text(fragment), OptionValue::Text(id)) => match parse_id(id.as_str()) {
                    Some(source) => Ok(Suggest::Targets { source, fragment: fragment.clone() }),
                    None => Err(DecodeError::BadOption),
                },
                _ => Err(DecodeError::BadOption),
            }
        },
        _ => Err(DecodeError::BadOption),
    }
}

/// Decodes what suggestions the options of the command of this name ask for.
pub fn decode_autocomplete(
    name: &str,
    options: &Vec<CommandOption>,
) -> (r: Result<Suggest, DecodeError>)
    ensures
        suggest_view(r) == decoded_suggest(name@, option_views(options@)),
{
    if str_eq(name, "connect") || str_eq(name, "mention-add") {
        handle_connect_autocomplete(options)
    } else if str_eq(name, "disconnect") {
        handle_disconnect_autocomplete(options)
    } else if str_eq(name, "wipe-connections") || str_eq(name, "wipe-mentions") {
        handle_wipe_connections_autocomplete(options)
    } else {
        Err(DecodeError::UnknownCommand)
    }
}

} // verus!
