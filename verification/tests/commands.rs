use channel_relay::commands::{
    decode_autocomplete, decode_command, find_param, get_channel_opt, get_string_opt,
    handle_connect_autocomplete, handle_disconnect_autocomplete, handle_wipe_connections_autocomplete,
    Command, CommandOption, DecodeError, OptionValue, Suggest,
};

fn text(name: &str, value: &str) -> CommandOption {
    CommandOption { name: name.to_string(), value: OptionValue::Text(value.to_string()), focused: false }
}

fn typing(name: &str, value: &str) -> CommandOption {
    CommandOption { name: name.to_string(), value: OptionValue::Text(value.to_string()), focused: true }
}

fn chan(name: &str, id: u64) -> CommandOption {
    CommandOption { name: name.to_string(), value: OptionValue::Channel(id), focused: false }
}

fn other(name: &str) -> CommandOption {
    CommandOption { name: name.to_string(), value: OptionValue::Other, focused: false }
}

#[test]
fn find_param_takes_the_first_of_that_name() {
    let options = vec![text("a", "1"), text("b", "2"), text("a", "3")];
    assert_eq!(find_param("a", &options), Some(&options[0]));
    assert_eq!(find_param("b", &options), Some(&options[1]));
    assert_eq!(find_param("c", &options), None);
    assert_eq!(find_param("a", &Vec::new()), None);
}

#[test]
fn options_are_read_by_kind() {
    let options = vec![chan("source", 5), text("server", "GuildX"), other("odd"), text("source", "x")];
    assert_eq!(get_channel_opt("source", &options), Some(5));
    assert_eq!(get_channel_opt("server", &options), None);
    assert_eq!(get_channel_opt("missing", &options), None);
    assert_eq!(get_string_opt("server", &options), Some(&"GuildX".to_string()));
    assert_eq!(get_string_opt("source", &options), None);
    assert_eq!(get_string_opt("odd", &options), None);
}

#[test]
fn decode_command_knows_every_command() {
    let options = vec![
        chan("source", 5),
        text("target_server", "GuildY"),
        text("target_channel", "#mirror"),
        text("server", "GuildX"),
        text("mentions", "@a @b"),
    ];
    assert_eq!(
        decode_command("connect", &options),
        Ok(Command::Connect { source: 5, target_server: "GuildY".to_string(), target_channel: "#mirror".to_string() })
    );
    assert_eq!(
        decode_command("disconnect", &options),
        Ok(Command::Disconnect { source: 5, target_label: "#mirror".to_string() })
    );
    assert_eq!(decode_command("disconnect-all", &options), Ok(Command::DisconnectAll { source: 5 }));
    assert_eq!(decode_command("list-connections", &Vec::new()), Ok(Command::ListConnections));
    assert_eq!(
        decode_command("wipe-connections", &options),
        Ok(Command::WipeConnections { server: "GuildX".to_string() })
    );
    assert_eq!(
        decode_command("wipe-mentions", &options),
        Ok(Command::WipeMentions { server: "GuildX".to_string() })
    );
    assert_eq!(
        decode_command("mention-add", &options),
        Ok(Command::MentionAdd {
            target_server: "GuildY".to_string(),
            target_channel: "#mirror".to_string(),
            mentions: "@a @b".to_string(),
            source: Some(5),
        })
    );
    assert_eq!(
        decode_command("mention-add", &options[1..].to_vec()),
        Ok(Command::MentionAdd {
            target_server: "GuildY".to_string(),
            target_channel: "#mirror".to_string(),
            mentions: "@a @b".to_string(),
            source: None,
        })
    );
    assert_eq!(
        decode_command("list-mentions", &options),
        Ok(Command::ListMentions { target_server: "GuildY".to_string() })
    );
}

#[test]
fn decode_command_refuses_what_it_does_not_know() {
    assert_eq!(decode_command("dance", &Vec::new()), Err(DecodeError::UnknownCommand));
    assert_eq!(decode_command("", &Vec::new()), Err(DecodeError::UnknownCommand));
    assert_eq!(decode_command("Connect", &Vec::new()), Err(DecodeError::UnknownCommand));
    assert_eq!(decode_command("connect", &Vec::new()), Err(DecodeError::BadOption));
    assert_eq!(
        decode_command("connect", &vec![text("source", "5"), text("target_server", "a"), text("target_channel", "b")]),
        Err(DecodeError::BadOption)
    );
    assert_eq!(decode_command("disconnect-all", &vec![other("source")]), Err(DecodeError::BadOption));
    assert_eq!(decode_command("wipe-mentions", &vec![chan("server", 1)]), Err(DecodeError::BadOption));
    assert_eq!(
        decode_command("mention-add", &vec![text("target_server", "a"), text("target_channel", "b")]),
        Err(DecodeError::BadOption)
    );
}

#[test]
fn suggestions_for_the_server_while_it_is_typed() {
    let options = vec![chan("source", 5), typing("target_server", "Gui")];
    assert_eq!(
        handle_connect_autocomplete(&options),
        Ok(Suggest::Servers { fragment: "Gui".to_string() })
    );
    assert_eq!(decode_autocomplete("connect", &options), Ok(Suggest::Servers { fragment: "Gui".to_string() }));
    assert_eq!(decode_autocomplete("mention-add", &options), Ok(Suggest::Servers { fragment: "Gui".to_string() }));
}

#[test]
fn suggestions_for_the_channel_while_it_is_typed() {
    let options = vec![text("target_server", "GuildY"), typing("target_channel", "mir")];
    assert_eq!(
        decode_autocomplete("connect", &options),
        Ok(Suggest::Channels { server: "GuildY".to_string(), fragment: "mir".to_string() })
    );
    let idle = vec![text("target_server", "GuildY"), text("target_channel", "mir")];
    assert_eq!(decode_autocomplete("connect", &idle), Err(DecodeError::NotFocused));
    let lone = vec![text("target_server", "GuildY")];
    assert_eq!(decode_autocomplete("connect", &lone), Err(DecodeError::NotFocused));
    let odd = vec![text("target_server", "GuildY"), CommandOption { name: "target_channel".to_string(), value: OptionValue::Other, focused: true }];
    assert_eq!(decode_autocomplete("connect", &odd), Err(DecodeError::BadOption));
    assert_eq!(decode_autocomplete("connect", &vec![chan("target_server", 1)]), Err(DecodeError::BadOption));
    assert_eq!(decode_autocomplete("connect", &Vec::new()), Err(DecodeError::BadOption));
}

#[test]
fn suggestions_for_the_target_to_disconnect() {
    let options = vec![text("source", "101"), typing("target_channel", "mir")];
    assert_eq!(
        handle_disconnect_autocomplete(&options),
        Ok(Suggest::Targets { source: 101, fragment: "mir".to_string() })
    );
    assert_eq!(
        decode_autocomplete("disconnect", &options),
        Ok(Suggest::Targets { source: 101, fragment: "mir".to_string() })
    );
    let idle = vec![text("source", "101"), text("target_channel", "mir")];
    assert_eq!(decode_autocomplete("disconnect", &idle), Err(DecodeError::NotFocused));
    let bad_id = vec![text("source", "abc"), typing("target_channel", "mir")];
    assert_eq!(decode_autocomplete("disconnect", &bad_id), Err(DecodeError::BadOption));
    let no_source = vec![typing("target_channel", "mir")];
    assert_eq!(decode_autocomplete("disconnect", &no_source), Err(DecodeError::BadOption));
}

#[test]
fn suggestions_for_the_server_to_wipe() {
    let options = vec![typing("server", "Gu")];
    assert_eq!(
        handle_wipe_connections_autocomplete(&options),
        Ok(Suggest::Servers { fragment: "Gu".to_string() })
    );
    assert_eq!(decode_autocomplete("wipe-connections", &options), Ok(Suggest::Servers { fragment: "Gu".to_string() }));
    assert_eq!(decode_autocomplete("wipe-mentions", &options), Ok(Suggest::Servers { fragment: "Gu".to_string() }));
    assert_eq!(decode_autocomplete("wipe-mentions", &Vec::new()), Err(DecodeError::BadOption));
    assert_eq!(decode_autocomplete("list-connections", &options), Err(DecodeError::UnknownCommand));
}
