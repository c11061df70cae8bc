use channel_relay::mentions::{sort_dedup, Addition};
use channel_relay::model::{Channel, Guild, MentionRule, Registry};

const ALERTS: u64 = 101;
const NEWS: u64 = 102;
const MIRROR: u64 = 201;
const U: u64 = 1;
const V: u64 = 2;

fn registry() -> Registry {
    let mut reg = Registry::new();
    reg.upsert_guild(Guild { id: 10, name: "GuildX".to_string() });
    reg.upsert_guild(Guild { id: 20, name: "GuildY".to_string() });
    for (id, name, guild_id) in [(ALERTS, "#alerts", 10), (NEWS, "#news", 10), (MIRROR, "#mirror", 20)] {
        assert!(reg.upsert_channel(Channel { id, name: name.to_string(), guild_id, webhook: None }).is_ok());
    }
    reg
}

fn texts(v: &[&str]) -> Vec<String> {
    v.iter().map(|s| s.to_string()).collect()
}

#[test]
fn scenario_wildcard_and_specific_rule_give_one_mention() {
    let mut reg = registry();
    assert_eq!(reg.add_rule(U, MIRROR, None, "@team".to_string()), Addition::Added);
    assert_eq!(reg.add_rule(U, MIRROR, Some(ALERTS), "@team".to_string()), Addition::Added);
    assert_eq!(reg.rules().len(), 2);
    assert_eq!(reg.rules_for(U, MIRROR, ALERTS), texts(&["@team"]));
}

#[test]
fn add_rule_twice_is_added_then_already_exists() {
    let mut reg = registry();
    assert_eq!(reg.add_rule(U, MIRROR, None, "@team".to_string()), Addition::Added);
    assert_eq!(reg.add_rule(U, MIRROR, None, "@team".to_string()), Addition::AlreadyExists);
    assert_eq!(reg.add_rule(U, MIRROR, Some(ALERTS), "@team".to_string()), Addition::Added);
    assert_eq!(reg.add_rule(U, MIRROR, Some(ALERTS), "@team".to_string()), Addition::AlreadyExists);
    assert_eq!(reg.add_rule(U, MIRROR, Some(NEWS), "@team".to_string()), Addition::Added);
    assert_eq!(reg.add_rule(V, MIRROR, None, "@team".to_string()), Addition::Added);
    assert_eq!(reg.add_rule(U, MIRROR, None, "@Team".to_string()), Addition::Added);
    assert_eq!(reg.rules().len(), 5);
    assert!(reg.mention_exists(U, MIRROR, None, "@team"));
    assert!(!reg.mention_exists(U, MIRROR, None, "@other"));
    assert!(!reg.mention_exists(V, MIRROR, Some(ALERTS), "@team"));
    assert_eq!(
        reg.rules()[0],
        MentionRule { source: None, target: MIRROR, text: "@team".to_string(), owner: U }
    );
}

#[test]
fn rules_for_takes_wildcard_rules_and_rules_of_the_source() {
    let mut reg = registry();
    assert_eq!(reg.add_rule(U, MIRROR, None, "@zeta".to_string()), Addition::Added);
    assert_eq!(reg.add_rule(U, MIRROR, Some(ALERTS), "@alpha".to_string()), Addition::Added);
    assert_eq!(reg.add_rule(U, MIRROR, Some(NEWS), "@news".to_string()), Addition::Added);
    assert_eq!(reg.add_rule(U, ALERTS, None, "@elsewhere".to_string()), Addition::Added);
    assert_eq!(reg.add_rule(V, MIRROR, None, "@theirs".to_string()), Addition::Added);
    assert_eq!(reg.add_rule(U, MIRROR, Some(ALERTS), "@Beta".to_string()), Addition::Added);
    assert_eq!(reg.rules_for(U, MIRROR, ALERTS), texts(&["@Beta", "@alpha", "@zeta"]));
    assert_eq!(reg.rules_for(U, MIRROR, NEWS), texts(&["@news", "@zeta"]));
    assert_eq!(reg.rules_for(U, MIRROR, 999), texts(&["@zeta"]));
    assert_eq!(reg.rules_for(V, MIRROR, ALERTS), texts(&["@theirs"]));
    assert_eq!(reg.rules_for(3, MIRROR, ALERTS), Vec::<String>::new());
}

#[test]
fn sort_dedup_orders_and_keeps_each_once() {
    assert_eq!(sort_dedup(&texts(&["b", "a", "b", "c", "a", "B"])), texts(&["B", "a", "b", "c"]));
    assert_eq!(sort_dedup(&Vec::new()), Vec::<String>::new());
    let input = texts(&["@x", "", "@x", "é", "@a", ""]);
    let mut expected = input.clone();
    expected.sort_unstable();
    expected.dedup();
    assert_eq!(sort_dedup(&input), expected);
}

#[test]
fn wipe_rules_touching_either_end() {
    let mut reg = registry();
    assert_eq!(reg.add_rule(U, MIRROR, None, "@a".to_string()), Addition::Added);
    assert_eq!(reg.add_rule(U, MIRROR, Some(ALERTS), "@b".to_string()), Addition::Added);
    assert_eq!(reg.add_rule(U, NEWS, Some(MIRROR), "@c".to_string()), Addition::Added);
    assert_eq!(reg.add_rule(U, NEWS, None, "@d".to_string()), Addition::Added);
    assert_eq!(reg.add_rule(V, NEWS, None, "@e".to_string()), Addition::Added);
    assert_eq!(reg.wipe_rules_touching("GuildX", U), 3);
    assert_eq!(
        reg.rules(),
        &vec![
            MentionRule { source: None, target: MIRROR, text: "@a".to_string(), owner: U },
            MentionRule { source: None, target: NEWS, text: "@e".to_string(), owner: V },
        ]
    );
    assert_eq!(reg.wipe_rules_touching("GuildX", U), 0);
    assert_eq!(reg.wipe_rules_touching("GuildY", U), 1);
    assert_eq!(reg.rules().len(), 1);
}

#[test]
fn list_mentions_takes_the_rules_into_the_server() {
    let mut reg = registry();
    assert_eq!(reg.add_rule(U, MIRROR, None, "@a".to_string()), Addition::Added);
    assert_eq!(reg.add_rule(U, NEWS, Some(MIRROR), "@c".to_string()), Addition::Added);
    assert_eq!(reg.add_rule(U, MIRROR, Some(ALERTS), "@b".to_string()), Addition::Added);
    assert_eq!(reg.add_rule(V, MIRROR, None, "@e".to_string()), Addition::Added);
    assert_eq!(
        reg.list_mentions(U, "GuildY"),
        vec![
            MentionRule { source: None, target: MIRROR, text: "@a".to_string(), owner: U },
            MentionRule { source: Some(ALERTS), target: MIRROR, text: "@b".to_string(), owner: U },
        ]
    );
    assert_eq!(
        reg.list_mentions(U, "GuildX"),
        vec![MentionRule { source: Some(MIRROR), target: NEWS, text: "@c".to_string(), owner: U }]
    );
    assert!(reg.list_mentions(U, "Nowhere").is_empty());
}
