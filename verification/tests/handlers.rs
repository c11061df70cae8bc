use channel_relay::commands::{Command, CommandOption, OptionValue, Suggest};
use channel_relay::responses::CommandResponse;
use channel_relay::webhooks::WebhookStep;
use channel_relay::connections::Creation;
use channel_relay::error::RelayError;
use channel_relay::mentions::Addition;
use channel_relay::model::{Channel, Connection, Guild, Registry};

const ALERTS: u64 = 101;
const NEWS: u64 = 102;
const MIRROR: u64 = 201;
const ARCHIVE: u64 = 202;
const U: u64 = 1;
const V: u64 = 2;

fn registry() -> Registry {
    let mut reg = Registry::new();
    reg.upsert_guild(Guild { id: 10, name: "GuildX".to_string() });
    reg.upsert_guild(Guild { id: 20, name: "GuildY".to_string() });
    for (id, name, guild_id) in [(ALERTS, "#alerts", 10), (NEWS, "#news", 10), (MIRROR, "#mirror", 20), (ARCHIVE, "#archive", 20)] {
        assert!(reg.upsert_channel(Channel { id, name: name.to_string(), guild_id, webhook: None }).is_ok());
    }
    reg
}

fn names(v: &[&str]) -> Vec<String> {
    v.iter().map(|s| s.to_string()).collect()
}

#[test]
fn connect_command_connects_by_name() {
    let mut reg = registry();
    assert_eq!(reg.handle_connect_command(U, ALERTS, "GuildY", "#mirror", Some(7)), Ok(MIRROR));
    assert_eq!(
        reg.connections(),
        &vec![Connection { source: ALERTS, target: MIRROR, owner: U, webhook: 7 }]
    );
    assert_eq!(
        reg.handle_connect_command(U, ALERTS, "GuildY", "#mirror", Some(8)),
        Err(RelayError::AlreadyExists)
    );
    assert_eq!(reg.handle_connect_command(U, ALERTS, "GuildY", "#nope", Some(8)), Err(RelayError::NotFound));
    assert_eq!(reg.handle_connect_command(U, 999, "GuildY", "#mirror", Some(8)), Err(RelayError::NotFound));
    assert_eq!(
        reg.handle_connect_command(V, ALERTS, "GuildY", "#mirror", None),
        Err(RelayError::DeliveryUnavailable)
    );
    assert_eq!(reg.connections().len(), 1);
}

#[test]
fn disconnect_command_disconnects_by_label() {
    let mut reg = registry();
    assert_eq!(reg.create_connection(ALERTS, MIRROR, U, Some(7)), Ok(Creation::Created));
    assert_eq!(reg.create_connection(ALERTS, ARCHIVE, U, Some(8)), Ok(Creation::Created));
    assert_eq!(reg.handle_disconnect_command(U, ALERTS, "GuildY #mirror"), Err(RelayError::NotFound));
    assert_eq!(reg.handle_disconnect_command(U, ALERTS, "[GuildY] #nope"), Err(RelayError::NotFound));
    assert_eq!(reg.handle_disconnect_command(V, ALERTS, "[GuildY] #mirror"), Err(RelayError::NotFound));
    assert_eq!(reg.connections().len(), 2);
    assert_eq!(reg.handle_disconnect_command(U, ALERTS, "[GuildY] #mirror"), Ok(MIRROR));
    assert_eq!(
        reg.connections(),
        &vec![Connection { source: ALERTS, target: ARCHIVE, owner: U, webhook: 8 }]
    );
    assert_eq!(reg.handle_disconnect_command(U, ALERTS, "[GuildY] #mirror"), Err(RelayError::NotFound));
    assert_eq!(
        reg.disconnect_parsed(U, ALERTS, Some(("GuildY".to_string(), "#archive".to_string()))),
        Ok(ARCHIVE)
    );
    assert_eq!(reg.disconnect_parsed(U, ALERTS, None), Err(RelayError::NotFound));
    assert!(reg.connections().is_empty());
}

#[test]
fn mention_add_command_adds_each_mention() {
    let mut reg = registry();
    assert_eq!(
        reg.handle_mention_add_command(U, "GuildY", "#mirror", "@a @b @a", Some(ALERTS)),
        Ok((MIRROR, vec![Addition::Added, Addition::Added, Addition::AlreadyExists]))
    );
    assert_eq!(
        reg.handle_mention_add_command(U, "GuildY", "#mirror", "@a", None),
        Ok((MIRROR, vec![Addition::Added]))
    );
    assert_eq!(
        reg.handle_mention_add_command(U, "GuildY", "#nope", "@a", None),
        Err(RelayError::NotFound)
    );
    assert_eq!(reg.rules().len(), 3);
    assert_eq!(reg.rules_for(U, MIRROR, ALERTS), names(&["@a", "@b"]));
    assert_eq!(reg.rules_for(U, MIRROR, NEWS), names(&["@a"]));
    assert_eq!(
        reg.add_rules(V, MIRROR, None, &names(&["@x", "@x"])),
        vec![Addition::Added, Addition::AlreadyExists]
    );
}

#[test]
fn server_suggestions_rank_the_guild_names() {
    let reg = registry();
    assert_eq!(reg.connect_target_server_autocomplete(""), Ok(names(&["GuildX", "GuildY"])));
    assert_eq!(reg.connect_target_server_autocomplete("y"), Ok(names(&["GuildY", "GuildX"])));
    assert_eq!(
        Registry::new().connect_target_server_autocomplete("y"),
        Err(RelayError::NoCandidates)
    );
}

#[test]
fn channel_suggestions_rank_the_channels_of_the_server() {
    let reg = registry();
    assert_eq!(
        reg.connect_target_channel_autocomplete("GuildY", ""),
        Ok(names(&["#archive", "#mirror"]))
    );
    assert_eq!(
        reg.connect_target_channel_autocomplete("GuildY", "mir"),
        Ok(names(&["#mirror", "#archive"]))
    );
    assert_eq!(reg.connect_target_channel_autocomplete("  ", "mir"), Err(RelayError::NoCandidates));
    assert_eq!(reg.connect_target_channel_autocomplete("Nowhere", "mir"), Err(RelayError::NoCandidates));
}

#[test]
fn target_suggestions_rank_the_labels_of_the_owner() {
    let mut reg = registry();
    assert_eq!(reg.create_connection(ALERTS, MIRROR, U, Some(7)), Ok(Creation::Created));
    assert_eq!(reg.create_connection(ALERTS, NEWS, U, Some(8)), Ok(Creation::Created));
    assert_eq!(reg.create_connection(ALERTS, ARCHIVE, V, Some(9)), Ok(Creation::Created));
    assert_eq!(
        reg.disconnect_target_channel_autocomplete(ALERTS, U, ""),
        Ok(names(&["[GuildX] #news", "[GuildY] #mirror"]))
    );
    assert_eq!(
        reg.disconnect_target_channel_autocomplete(ALERTS, U, "mirror"),
        Ok(names(&["[GuildY] #mirror", "[GuildX] #news"]))
    );
    assert_eq!(reg.disconnect_target_channel_autocomplete(NEWS, U, ""), Err(RelayError::NoCandidates));
    assert_eq!(
        reg.suggest(&Suggest::Targets { source: ALERTS, fragment: "".to_string() }, V),
        Ok(names(&["[GuildY] #archive"]))
    );
    assert_eq!(
        reg.suggest(&Suggest::Servers { fragment: "".to_string() }, V),
        Ok(names(&["GuildX", "GuildY"]))
    );
    assert_eq!(
        reg.suggest(&Suggest::Channels { server: "GuildX".to_string(), fragment: "".to_string() }, V),
        Ok(names(&["#alerts", "#news"]))
    );
}

#[test]
fn autocomplete_shows_nothing_when_anything_goes_wrong() {
    let reg = registry();
    let typing = |name: &str, value: &str| CommandOption {
        name: name.to_string(),
        value: OptionValue::Text(value.to_string()),
        focused: true,
    };
    assert_eq!(
        reg.handle_autocomplete("connect", &vec![typing("target_server", "x")], U),
        names(&["GuildX", "GuildY"])
    );
    assert_eq!(reg.handle_autocomplete("dance", &vec![typing("target_server", "x")], U), Vec::<String>::new());
    assert_eq!(reg.handle_autocomplete("connect", &Vec::new(), U), Vec::<String>::new());
    let long = "x".repeat(300);
    assert_eq!(reg.handle_autocomplete("connect", &vec![typing("target_server", &long)], U), Vec::<String>::new());
    assert_eq!(
        Registry::new().handle_autocomplete("connect", &vec![typing("target_server", "x")], U),
        Vec::<String>::new()
    );
}

fn connect(server: &str, channel: &str) -> Command {
    Command::Connect { source: ALERTS, target_server: server.to_string(), target_channel: channel.to_string() }
}

fn response(title: &str, msg: &str) -> CommandResponse {
    CommandResponse { title: title.to_string(), msg: msg.to_string() }
}

#[test]
fn a_handle_is_requested_only_where_one_is_missing() {
    let mut reg = registry();
    assert_eq!(
        reg.webhook_request(&connect("GuildY", "#mirror"), U, "alice"),
        Some(WebhookStep::Create { channel: MIRROR, name: "alice".to_string() })
    );
    assert_eq!(reg.webhook_request(&connect("GuildY", "#nope"), U, "alice"), None);
    assert_eq!(reg.webhook_request(&Command::ListConnections, U, "alice"), None);
    assert_eq!(reg.webhook_request(&Command::DisconnectAll { source: ALERTS }, U, "alice"), None);
    assert_eq!(reg.resolve(U, MIRROR, Some(7)), Ok(7));
    assert_eq!(reg.webhook_request(&connect("GuildY", "#mirror"), U, "alice"), None);
    assert_eq!(
        reg.webhook_request(&connect("GuildY", "#mirror"), V, "bob"),
        Some(WebhookStep::Create { channel: MIRROR, name: "bob".to_string() })
    );
}

#[test]
fn commands_are_carried_out_and_answered() {
    let mut reg = registry();
    assert_eq!(
        reg.handle_application_command(&connect("GuildY", "#mirror"), U, Some(7)),
        Ok(response("Connection created", "Source: <#101>\nTarget server: __**GuildY**__\nTarget channel: <#201>"))
    );
    assert_eq!(
        reg.handle_application_command(&connect("GuildY", "#mirror"), U, None),
        Err(RelayError::AlreadyExists)
    );
    assert_eq!(
        reg.handle_application_command(&connect("GuildY", "#archive"), U, None),
        Err(RelayError::DeliveryUnavailable)
    );
    assert_eq!(
        reg.handle_application_command(&connect("GuildY", "#nope"), U, Some(8)),
        Err(RelayError::NotFound)
    );
    assert_eq!(
        reg.handle_application_command(&Command::ListConnections, U, None),
        Ok(response("Connection List", "__**GuildX**__\n> <#101> => <#201> **(GuildY)**"))
    );
    assert_eq!(
        reg.handle_application_command(&Command::ListConnections, V, None),
        Ok(response("Connection List", ""))
    );
    let add = Command::MentionAdd {
        target_server: "GuildY".to_string(),
        target_channel: "#mirror".to_string(),
        mentions: "@a @b".to_string(),
        source: None,
    };
    assert_eq!(
        reg.handle_application_command(&add, U, None),
        Ok(response("Added Mentions", "Mentions:\n@a\n@b\n\nTarget server: __**GuildY**__\nTarget channel <#201>"))
    );
    assert_eq!(
        reg.handle_application_command(&Command::ListMentions { target_server: "GuildY".to_string() }, U, None),
        Ok(response("Mention List for \"GuildY\"", "(**ALL**) => <#201>\n> @a\n(**ALL**) => <#201>\n> @b"))
    );
    assert_eq!(
        reg.handle_application_command(&Command::WipeMentions { server: "GuildY".to_string() }, U, None),
        Ok(response("Wiped Mentions", "Removed all mentions to/from: __**GuildY**__"))
    );
    assert!(reg.rules().is_empty());
    let disconnect = Command::Disconnect { source: ALERTS, target_label: "[GuildY] #mirror".to_string() };
    assert_eq!(
        reg.handle_application_command(&disconnect, V, None),
        Err(RelayError::NotFound)
    );
    assert_eq!(
        reg.handle_application_command(&disconnect, U, None),
        Ok(response("Disconnected", "Source: <#101>\nServer: GuildY\nTarget: <#201>"))
    );
    assert!(reg.connections().is_empty());
    assert_eq!(reg.create_connection(ALERTS, MIRROR, U, None), Ok(Creation::Created));
    assert_eq!(reg.create_connection(NEWS, ARCHIVE, U, Some(9)), Ok(Creation::Created));
    assert_eq!(
        reg.handle_application_command(&Command::DisconnectAll { source: ALERTS }, U, None),
        Ok(response("Disconnected All", "Source: <#101>"))
    );
    assert_eq!(reg.connections().len(), 1);
    assert_eq!(
        reg.handle_application_command(&Command::WipeConnections { server: "GuildX".to_string() }, U, None),
        Ok(response("Wiped Connections", "Removed all connections to/from: __**GuildX**__"))
    );
    assert!(reg.connections().is_empty());
}
