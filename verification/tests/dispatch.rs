use channel_relay::connections::Creation;
use channel_relay::dispatch::{Delivery, Inbound, Outcome, RelayRun, RelayStep};
use channel_relay::error::RelayError;
use channel_relay::mentions::Addition;
use channel_relay::model::{Channel, Guild, Registry};

const ALERTS: u64 = 101;
const MIRROR: u64 = 201;
const ARCHIVE: u64 = 202;
const U: u64 = 1;
const V: u64 = 2;

fn registry() -> Registry {
    let mut reg = Registry::new();
    reg.upsert_guild(Guild { id: 10, name: "GuildX".to_string() });
    for (id, name) in [(ALERTS, "#alerts"), (MIRROR, "#mirror"), (ARCHIVE, "#archive")] {
        assert!(reg.upsert_channel(Channel { id, name: name.to_string(), guild_id: 10, webhook: None }).is_ok());
    }
    reg
}

fn message(author: u64, author_is_bot: bool) -> Inbound {
    Inbound { channel: ALERTS, author, author_is_bot, content: "disk is full".to_string() }
}

fn delivery(target: u64) -> Delivery {
    Delivery { target, webhook: target + 1000, content: "x".to_string(), mentions: Vec::new() }
}

#[test]
fn scenario_one_message_one_delivery() {
    let mut reg = registry();
    assert_eq!(reg.create_connection(ALERTS, MIRROR, U, Some(7)), Ok(Creation::Created));
    let plan = reg.handle_message(&message(U, false));
    assert_eq!(
        plan,
        vec![Delivery { target: MIRROR, webhook: 7, content: "disk is full".to_string(), mentions: Vec::new() }]
    );
    let mut run = RelayRun::start(plan);
    assert_eq!(run.next(), RelayStep::Deliver(0));
    assert_eq!(run.due().map(|d| d.target), Some(MIRROR));
    run.record(Outcome::Delivered);
    assert_eq!(run.next(), RelayStep::Done);
    assert_eq!(run.due(), None);
    assert!(run.failed_targets().is_empty());
}

#[test]
fn messages_of_bots_are_not_relayed() {
    let mut reg = registry();
    assert_eq!(reg.create_connection(ALERTS, MIRROR, U, Some(7)), Ok(Creation::Created));
    assert!(reg.handle_message(&message(U, true)).is_empty());
}

#[test]
fn messages_without_connections_are_not_relayed() {
    let mut reg = registry();
    assert_eq!(reg.create_connection(ALERTS, MIRROR, U, Some(7)), Ok(Creation::Created));
    assert!(reg.handle_message(&message(V, false)).is_empty());
    let elsewhere = Inbound { channel: MIRROR, author: U, author_is_bot: false, content: "hi".to_string() };
    assert!(reg.handle_message(&elsewhere).is_empty());
}

#[test]
fn every_target_gets_the_content_and_its_own_mentions() {
    let mut reg = registry();
    assert_eq!(reg.create_connection(ALERTS, MIRROR, U, Some(7)), Ok(Creation::Created));
    assert_eq!(reg.create_connection(ALERTS, ARCHIVE, U, Some(8)), Ok(Creation::Created));
    assert_eq!(reg.add_rule(U, MIRROR, None, "@team".to_string()), Addition::Added);
    assert_eq!(reg.add_rule(U, MIRROR, Some(ALERTS), "@oncall".to_string()), Addition::Added);
    assert_eq!(reg.add_rule(U, MIRROR, Some(ALERTS), "@team".to_string()), Addition::Added);
    let plan = reg.handle_message(&message(U, false));
    assert_eq!(
        plan,
        vec![
            Delivery {
                target: MIRROR,
                webhook: 7,
                content: "disk is full".to_string(),
                mentions: vec!["@oncall".to_string(), "@team".to_string()],
            },
            Delivery { target: ARCHIVE, webhook: 8, content: "disk is full".to_string(), mentions: Vec::new() },
        ]
    );
    assert_eq!(plan[0].overlay(), "@oncall\n@team");
    assert_eq!(plan[1].overlay(), "");
}

#[test]
fn an_unavailable_delivery_does_not_stop_the_others() {
    let mut run = RelayRun::start(vec![delivery(1), delivery(2), delivery(3)]);
    assert_eq!(run.next(), RelayStep::Deliver(0));
    run.record(Outcome::Failed(RelayError::DeliveryUnavailable));
    assert_eq!(run.next(), RelayStep::Deliver(1));
    run.record(Outcome::Delivered);
    assert_eq!(run.next(), RelayStep::Deliver(2));
    assert_eq!(run.due().map(|d| d.target), Some(3));
    run.record(Outcome::Failed(RelayError::DeliveryUnavailable));
    assert_eq!(run.next(), RelayStep::Done);
    assert_eq!(run.failed_targets(), &vec![1, 3]);
    run.record(Outcome::Delivered);
    assert_eq!(run.next(), RelayStep::Done);
    assert_eq!(run.failed_targets(), &vec![1, 3]);
}

#[test]
fn a_store_error_stops_the_run() {
    let mut run = RelayRun::start(vec![delivery(1), delivery(2)]);
    run.record(Outcome::Delivered);
    run.record(Outcome::Failed(RelayError::StoreError));
    assert_eq!(run.next(), RelayStep::Abort(RelayError::StoreError));
    assert_eq!(run.due(), None);
    run.record(Outcome::Delivered);
    assert_eq!(run.next(), RelayStep::Abort(RelayError::StoreError));
    assert!(run.failed_targets().is_empty());
}

#[test]
fn an_empty_plan_is_done() {
    let run = RelayRun::start(Vec::new());
    assert_eq!(run.next(), RelayStep::Done);
    assert_eq!(run.due(), None);
}
