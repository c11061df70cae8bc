use channel_relay::connections::{Creation, Deletion, Route};
use channel_relay::directory::ChannelSeen;
use channel_relay::error::RelayError;
use channel_relay::listing::{ConnectionGroup, ConnectionLine};
use channel_relay::model::{Channel, Connection, Guild, Registry, Webhook};
use channel_relay::webhooks::WebhookStep;

const GUILD_X: u64 = 10;
const GUILD_Y: u64 = 20;
const ALERTS: u64 = 101;
const NEWS: u64 = 102;
const MIRROR: u64 = 201;
const ARCHIVE: u64 = 202;
const U: u64 = 1;
const V: u64 = 2;

fn guild(id: u64, name: &str) -> Guild {
    Guild { id, name: name.to_string() }
}

fn channel(id: u64, name: &str, guild_id: u64) -> Channel {
    Channel { id, name: name.to_string(), guild_id, webhook: None }
}

fn two_guilds() -> Registry {
    let mut reg = Registry::new();
    reg.upsert_guild(guild(GUILD_X, "GuildX"));
    reg.upsert_guild(guild(GUILD_Y, "GuildY"));
    assert_eq!(reg.upsert_channel(channel(ALERTS, "#alerts", GUILD_X)), Ok(()));
    assert_eq!(reg.upsert_channel(channel(NEWS, "#news", GUILD_X)), Ok(()));
    assert_eq!(reg.upsert_channel(channel(MIRROR, "#mirror", GUILD_Y)), Ok(()));
    assert_eq!(reg.upsert_channel(channel(ARCHIVE, "#archive", GUILD_Y)), Ok(()));
    reg
}

#[test]
fn new_registry_is_empty() {
    let reg = Registry::new();
    assert!(reg.guilds().is_empty());
    assert!(reg.channels().is_empty());
    assert!(reg.connections().is_empty());
    assert!(reg.rules().is_empty());
    assert!(reg.webhooks().is_empty());
    assert!(reg.connections_for(ALERTS, U).is_empty());
    assert!(reg.list_connections(U).is_empty());
}

#[test]
fn upsert_guild_replaces_on_conflict() {
    let mut reg = two_guilds();
    reg.upsert_guild(guild(GUILD_X, "Renamed"));
    assert_eq!(reg.guilds(), &vec![guild(GUILD_X, "Renamed"), guild(GUILD_Y, "GuildY")]);
    assert_eq!(reg.guild_name_of(ALERTS), Some("Renamed".to_string()));
    assert!(reg.knows_guild(GUILD_X));
    assert!(!reg.knows_guild(99));
}

#[test]
fn upsert_channel_replaces_on_conflict() {
    let mut reg = two_guilds();
    let moved = Channel { id: ALERTS, name: "#alarms".to_string(), guild_id: GUILD_Y, webhook: Some(7) };
    assert_eq!(reg.upsert_channel(moved.clone()), Ok(()));
    assert_eq!(reg.channels().len(), 4);
    assert_eq!(reg.channels()[0], moved);
    assert_eq!(reg.guild_name_of(ALERTS), Some("GuildY".to_string()));
}

#[test]
fn upsert_channel_needs_a_known_guild() {
    let mut reg = two_guilds();
    assert_eq!(reg.upsert_channel(channel(301, "#lost", 30)), Err(RelayError::NotFound));
    assert_eq!(reg.channels().len(), 4);
    assert!(!reg.knows_channel(301));
    assert!(reg.knows_channel(ALERTS));
}

#[test]
fn observe_guild_stores_text_channels_with_a_hash() {
    let mut reg = Registry::new();
    let seen = vec![
        ChannelSeen { id: 1, name: "general".to_string(), is_text: true, webhook: Some(5) },
        ChannelSeen { id: 2, name: "Voice".to_string(), is_text: false, webhook: None },
        ChannelSeen { id: 3, name: "random".to_string(), is_text: true, webhook: None },
    ];
    reg.observe_guild(GUILD_X, "GuildX".to_string(), &seen);
    assert_eq!(reg.guilds(), &vec![guild(GUILD_X, "GuildX")]);
    assert_eq!(
        reg.channels(),
        &vec![
            Channel { id: 1, name: "#general".to_string(), guild_id: GUILD_X, webhook: Some(5) },
            Channel { id: 3, name: "#random".to_string(), guild_id: GUILD_X, webhook: None },
        ]
    );
    reg.observe_guild(GUILD_X, "GuildX".to_string(), &seen);
    assert_eq!(reg.guilds().len(), 1);
    assert_eq!(reg.channels().len(), 2);
}

#[test]
fn names_are_listed_in_retrieval_order() {
    let mut reg = two_guilds();
    assert_eq!(reg.get_guild_names(), vec!["GuildX".to_string(), "GuildY".to_string()]);
    assert_eq!(reg.get_channel_names("GuildY"), vec!["#mirror".to_string(), "#archive".to_string()]);
    assert_eq!(reg.get_channel_names("Nowhere"), Vec::<String>::new());
    reg.upsert_guild(guild(30, "GuildX"));
    assert_eq!(reg.upsert_channel(channel(301, "#twin", 30)), Ok(()));
    assert_eq!(
        reg.get_channel_names("GuildX"),
        vec!["#alerts".to_string(), "#news".to_string(), "#twin".to_string()]
    );
}

#[test]
fn name_to_ids_finds_the_first_channel_of_that_name() {
    let mut reg = two_guilds();
    assert_eq!(reg.name_to_ids("GuildY", "#mirror"), Ok((GUILD_Y, MIRROR)));
    assert_eq!(reg.name_to_ids("GuildX", "#mirror"), Err(RelayError::NotFound));
    assert_eq!(reg.name_to_ids("GuildY", "mirror"), Err(RelayError::NotFound));
    assert_eq!(reg.upsert_channel(channel(203, "#mirror", GUILD_Y)), Ok(()));
    assert_eq!(reg.name_to_ids("GuildY", "#mirror"), Ok((GUILD_Y, MIRROR)));
    assert!(reg.in_guild_named(MIRROR, "GuildY"));
    assert!(!reg.in_guild_named(MIRROR, "GuildX"));
    assert!(!reg.in_guild_named(999, "GuildX"));
    assert_eq!(reg.guild_name_of(999), None);
}

#[test]
fn create_connection_needs_known_channels() {
    let mut reg = two_guilds();
    assert_eq!(reg.create_connection(999, MIRROR, U, Some(7)), Err(RelayError::NotFound));
    assert_eq!(reg.create_connection(ALERTS, 999, U, Some(7)), Err(RelayError::NotFound));
    assert!(reg.connections().is_empty());
    assert!(reg.webhooks().is_empty());
}

#[test]
fn create_connection_twice_is_created_then_already_exists() {
    let mut reg = two_guilds();
    assert_eq!(reg.create_connection(ALERTS, MIRROR, U, Some(7)), Ok(Creation::Created));
    assert_eq!(reg.create_connection(ALERTS, MIRROR, U, Some(8)), Ok(Creation::AlreadyExists));
    assert_eq!(reg.create_connection(ALERTS, MIRROR, U, None), Ok(Creation::AlreadyExists));
    assert_eq!(
        reg.connections(),
        &vec![Connection { source: ALERTS, target: MIRROR, owner: U, webhook: 7 }]
    );
    assert_eq!(reg.webhooks(), &vec![Webhook { id: 7, target: MIRROR, owner: U }]);
    assert!(reg.connection_exists(ALERTS, MIRROR, U));
    assert!(!reg.connection_exists(ALERTS, MIRROR, V));
}

#[test]
fn create_connection_without_a_handle_is_delivery_unavailable() {
    let mut reg = two_guilds();
    assert_eq!(reg.create_connection(ALERTS, MIRROR, U, None), Err(RelayError::DeliveryUnavailable));
    assert!(reg.connections().is_empty());
    assert!(reg.webhooks().is_empty());
}

#[test]
fn create_connection_reuses_the_handle_of_owner_and_target() {
    let mut reg = two_guilds();
    assert_eq!(reg.create_connection(ALERTS, MIRROR, U, Some(7)), Ok(Creation::Created));
    assert_eq!(reg.create_connection(NEWS, MIRROR, U, None), Ok(Creation::Created));
    assert_eq!(reg.create_connection(NEWS, MIRROR, V, Some(9)), Ok(Creation::Created));
    assert_eq!(reg.connections_for(NEWS, U), vec![Route { target: MIRROR, webhook: 7 }]);
    assert_eq!(reg.connections_for(NEWS, V), vec![Route { target: MIRROR, webhook: 9 }]);
    assert_eq!(reg.webhooks().len(), 2);
}

#[test]
fn maybe_add_connection_keeps_the_handle_it_is_given() {
    let mut reg = two_guilds();
    assert_eq!(reg.maybe_add_connection(ALERTS, MIRROR, U, 42), Ok(Creation::Created));
    assert_eq!(reg.maybe_add_connection(ALERTS, MIRROR, U, 43), Ok(Creation::AlreadyExists));
    assert_eq!(reg.maybe_add_connection(ALERTS, 999, U, 43), Err(RelayError::NotFound));
    assert_eq!(reg.connections_for(ALERTS, U), vec![Route { target: MIRROR, webhook: 42 }]);
    assert!(reg.webhooks().is_empty());
}

#[test]
fn connections_of_one_owner_are_invisible_to_another() {
    let mut reg = two_guilds();
    assert_eq!(reg.create_connection(ALERTS, MIRROR, V, Some(9)), Ok(Creation::Created));
    let before = reg.connections_for(ALERTS, V);
    assert_eq!(reg.create_connection(ALERTS, MIRROR, U, Some(7)), Ok(Creation::Created));
    assert_eq!(reg.create_connection(ALERTS, ARCHIVE, U, Some(8)), Ok(Creation::Created));
    assert_eq!(reg.connections_for(ALERTS, V), before);
    assert_eq!(reg.connections_for(ALERTS, 3), Vec::<Route>::new());
}

#[test]
fn scenario_one_connection_one_target() {
    let mut reg = two_guilds();
    assert_eq!(reg.create_connection(ALERTS, MIRROR, U, Some(7)), Ok(Creation::Created));
    assert_eq!(reg.connections_for(ALERTS, U), vec![Route { target: MIRROR, webhook: 7 }]);
}

#[test]
fn delete_connection_is_deleted_or_not_found() {
    let mut reg = two_guilds();
    assert_eq!(reg.create_connection(ALERTS, MIRROR, U, Some(7)), Ok(Creation::Created));
    assert_eq!(reg.create_connection(ALERTS, MIRROR, V, Some(9)), Ok(Creation::Created));
    assert_eq!(reg.delete_connection(ALERTS, ARCHIVE, U), Deletion::NotFound);
    assert_eq!(reg.connections().len(), 2);
    assert_eq!(reg.delete_connection(ALERTS, MIRROR, U), Deletion::Deleted);
    assert_eq!(reg.delete_connection(ALERTS, MIRROR, U), Deletion::NotFound);
    assert_eq!(
        reg.connections(),
        &vec![Connection { source: ALERTS, target: MIRROR, owner: V, webhook: 9 }]
    );
}

#[test]
fn delete_all_connections_from_spares_other_sources_and_owners() {
    let mut reg = two_guilds();
    assert_eq!(reg.create_connection(ALERTS, MIRROR, U, Some(7)), Ok(Creation::Created));
    assert_eq!(reg.create_connection(NEWS, MIRROR, U, None), Ok(Creation::Created));
    assert_eq!(reg.create_connection(ALERTS, ARCHIVE, U, Some(8)), Ok(Creation::Created));
    assert_eq!(reg.create_connection(ALERTS, MIRROR, V, Some(9)), Ok(Creation::Created));
    assert_eq!(reg.delete_all_connections_from(ALERTS, U), 2);
    assert_eq!(
        reg.connections(),
        &vec![
            Connection { source: NEWS, target: MIRROR, owner: U, webhook: 7 },
            Connection { source: ALERTS, target: MIRROR, owner: V, webhook: 9 },
        ]
    );
    assert_eq!(reg.delete_all_connections_from(ALERTS, U), 0);
    assert_eq!(reg.connections().len(), 2);
}

#[test]
fn scenario_wipe_connections_touching_either_end() {
    let mut reg = two_guilds();
    reg.upsert_guild(guild(30, "GuildZ"));
    assert_eq!(reg.upsert_channel(channel(301, "#far", 30)), Ok(()));
    assert_eq!(reg.create_connection(ALERTS, MIRROR, U, Some(7)), Ok(Creation::Created));
    assert_eq!(reg.create_connection(MIRROR, NEWS, U, Some(8)), Ok(Creation::Created));
    assert_eq!(reg.create_connection(MIRROR, 301, U, Some(9)), Ok(Creation::Created));
    assert_eq!(reg.create_connection(ALERTS, MIRROR, V, Some(6)), Ok(Creation::Created));
    assert_eq!(reg.wipe_connections_touching("GuildX", U), 2);
    assert_eq!(
        reg.connections(),
        &vec![
            Connection { source: MIRROR, target: 301, owner: U, webhook: 9 },
            Connection { source: ALERTS, target: MIRROR, owner: V, webhook: 6 },
        ]
    );
    assert_eq!(reg.wipe_connections_touching("Nowhere", U), 0);
    assert_eq!(reg.wipe_connections_touching("GuildX", V), 1);
}

#[test]
fn list_connections_groups_by_the_guild_of_the_source() {
    let mut reg = two_guilds();
    assert_eq!(reg.create_connection(ALERTS, MIRROR, U, Some(7)), Ok(Creation::Created));
    assert_eq!(reg.create_connection(MIRROR, NEWS, U, Some(8)), Ok(Creation::Created));
    assert_eq!(reg.create_connection(NEWS, ARCHIVE, U, Some(9)), Ok(Creation::Created));
    assert_eq!(reg.create_connection(NEWS, MIRROR, V, Some(6)), Ok(Creation::Created));
    let mut groups = reg.list_connections(U);
    groups.sort_by(|a, b| a.guild.cmp(&b.guild));
    assert_eq!(
        groups,
        vec![
            ConnectionGroup {
                guild: "GuildX".to_string(),
                lines: vec![
                    ConnectionLine { source: ALERTS, target: MIRROR, target_guild: "GuildY".to_string() },
                    ConnectionLine { source: NEWS, target: ARCHIVE, target_guild: "GuildY".to_string() },
                ],
            },
            ConnectionGroup {
                guild: "GuildY".to_string(),
                lines: vec![ConnectionLine { source: MIRROR, target: NEWS, target_guild: "GuildX".to_string() }],
            },
        ]
    );
    assert_eq!(reg.source_guilds(V), vec!["GuildX".to_string()]);
    assert_eq!(
        reg.lines_in(V, "GuildX"),
        vec![ConnectionLine { source: NEWS, target: MIRROR, target_guild: "GuildY".to_string() }]
    );
    assert!(reg.list_connections(3).is_empty());
}

#[test]
fn resolve_creates_once_and_reuses() {
    let mut reg = two_guilds();
    assert_eq!(reg.webhook_for(U, MIRROR), None);
    assert_eq!(
        reg.resolve_begin(U, "alice", MIRROR),
        WebhookStep::Create { channel: MIRROR, name: "alice".to_string() }
    );
    assert_eq!(reg.resolve(U, MIRROR, None), Err(RelayError::DeliveryUnavailable));
    assert!(reg.webhooks().is_empty());
    assert_eq!(reg.resolve(U, MIRROR, Some(7)), Ok(7));
    assert_eq!(reg.resolve(U, MIRROR, Some(8)), Ok(7));
    assert_eq!(reg.resolve(U, MIRROR, None), Ok(7));
    assert_eq!(reg.resolve_begin(U, "alice", MIRROR), WebhookStep::Ready(7));
    assert_eq!(reg.webhook_for(U, MIRROR), Some(7));
    assert_eq!(reg.webhook_for(V, MIRROR), None);
    assert_eq!(reg.webhooks(), &vec![Webhook { id: 7, target: MIRROR, owner: U }]);
}

#[test]
fn store_webhook_replaces_on_conflict() {
    let mut reg = two_guilds();
    reg.store_webhook(U, MIRROR, 7);
    reg.store_webhook(V, MIRROR, 9);
    reg.store_webhook(U, MIRROR, 8);
    assert_eq!(
        reg.webhooks(),
        &vec![Webhook { id: 8, target: MIRROR, owner: U }, Webhook { id: 9, target: MIRROR, owner: V }]
    );
}

#[test]
fn target_labels_name_guild_and_channel() {
    let mut reg = two_guilds();
    assert_eq!(reg.create_connection(ALERTS, MIRROR, U, Some(7)), Ok(Creation::Created));
    assert_eq!(reg.create_connection(ALERTS, NEWS, U, Some(8)), Ok(Creation::Created));
    assert_eq!(reg.create_connection(ALERTS, ARCHIVE, V, Some(9)), Ok(Creation::Created));
    assert_eq!(
        reg.target_labels(ALERTS, U),
        vec!["[GuildY] #mirror".to_string(), "[GuildX] #news".to_string()]
    );
}

#[test]
fn errors_are_described() {
    assert_eq!(RelayError::NotFound.describe(), "not found");
    assert_eq!(RelayError::AlreadyExists.describe(), "already exists");
    assert_eq!(RelayError::DeliveryUnavailable.describe(), "delivery unavailable");
    assert_eq!(RelayError::StoreError.describe(), "store error");
    assert_eq!(RelayError::NoCandidates.describe(), "no candidates");
}
