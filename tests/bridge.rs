use discord_bridge::{
    classify_dispatch, dispatch_inbound, finish_delivery, has_replacement, link_token, publish,
    request, ChatEvent, ConfigError, CorrelationStore, DispatchOutcome, LinkRegistry,
    PublishError, ReplyContext, REPLY_TTL_MS,
};

fn config(pairs: &[(&str, &str)]) -> Vec<(String, String)> {
    pairs.iter().map(|(k, v)| (k.to_string(), v.to_string())).collect()
}

fn received(channel: &str, message: &str, text: &str) -> ChatEvent {
    ChatEvent::MessageReceived {
        channel_id: channel.to_string(),
        message_id: message.to_string(),
        author_id: "u1".to_string(),
        text: text.to_string(),
    }
}

fn reply(subject: &str, body: &[u8]) -> discord_bridge::CanonicalMessage {
    discord_bridge::CanonicalMessage { subject: subject.to_string(), reply_to: None, body: body.to_vec() }
}

fn linked_abc() -> LinkRegistry {
    let mut links = LinkRegistry::new();
    let r = links.add_link("abc".to_string(), &config(&[("token", "T1")]), 7);
    assert_eq!(r, Ok(None));
    links
}

#[test]
fn ping_is_answered_on_its_channel() {
    let mut links = linked_abc();
    let tenant = "abc".to_string();
    let msg = dispatch_inbound(&mut links, &tenant, received("c1", "m1", "ping?"), 1000).unwrap();
    assert_eq!(msg.subject, "c1");
    assert_eq!(msg.reply_to, Some("m1".to_string()));
    assert_eq!(msg.body, b"ping?".to_vec());

    let d = publish(&mut links, Some(&tenant), reply("m1", b"Ping received."), 2000).unwrap();
    assert_eq!(d.channel_id, "c1");
    assert_eq!(d.session, 7);
    assert_eq!(d.text, "Ping received.");
    assert!(!d.replaced);
}

#[test]
fn second_reply_to_one_message_is_not_found() {
    let mut links = linked_abc();
    let tenant = "abc".to_string();
    dispatch_inbound(&mut links, &tenant, received("c1", "m1", "ping?"), 0).unwrap();
    let first = publish(&mut links, Some(&tenant), reply("m1", b"Pong"), 10);
    assert_eq!(first.unwrap().text, "Pong");
    let second = publish(&mut links, Some(&tenant), reply("m1", b"Again"), 20);
    assert_eq!(second.err(), Some(PublishError::NotFound));
}

#[test]
fn publish_after_removal_meets_unknown_link() {
    let mut links = linked_abc();
    let tenant = "abc".to_string();
    assert_eq!(links.remove_link(&tenant), Some(7));
    assert!(!links.contains(&tenant));
    let r = publish(&mut links, Some(&tenant), reply("m1", b"late"), 0);
    assert_eq!(r.err(), Some(PublishError::UnknownLink));
    assert!(dispatch_inbound(&mut links, &tenant, received("c1", "m2", "hi"), 0).is_none());
}

#[test]
fn removal_of_unknown_tenant_changes_nothing() {
    let mut links = linked_abc();
    assert_eq!(links.remove_link(&"nobody".to_string()), None);
    assert!(links.contains(&"abc".to_string()));
}

#[test]
fn add_without_token_fails_and_registers_nothing() {
    let mut links = linked_abc();
    let r = links.add_link("xyz".to_string(), &config(&[("secret", "T2")]), 8);
    assert_eq!(r, Err(ConfigError::MissingToken));
    assert!(!links.contains(&"xyz".to_string()));
    assert_eq!(links.session_of(&"abc".to_string()), Some(7));
    let empty = links.add_link("xyz".to_string(), &Vec::new(), 9);
    assert_eq!(empty, Err(ConfigError::MissingToken));
    assert!(!links.contains(&"xyz".to_string()));
}

#[test]
fn token_key_ignores_case() {
    assert_eq!(link_token(&config(&[("TOKEN", "T1")])), Ok("T1".to_string()));
    assert_eq!(link_token(&config(&[("other", "x"), ("Token", "T9")])), Ok("T9".to_string()));
    assert_eq!(link_token(&config(&[("tokens", "x")])), Err(ConfigError::MissingToken));
}

#[test]
fn adding_again_replaces_the_link() {
    let mut links = linked_abc();
    let tenant = "abc".to_string();
    dispatch_inbound(&mut links, &tenant, received("c1", "m1", "ping"), 0).unwrap();
    let r = links.add_link(tenant.clone(), &config(&[("token", "T2")]), 8);
    assert_eq!(r, Ok(Some(7)));
    assert_eq!(links.session_of(&tenant), Some(8));
    let p = publish(&mut links, Some(&tenant), reply("m1", b"x"), 1);
    assert_eq!(p.err(), Some(PublishError::NotFound));
}

#[test]
fn ready_event_dispatches_nothing() {
    let mut links = linked_abc();
    let tenant = "abc".to_string();
    let ev = ChatEvent::SessionReady { identity: "bot".to_string() };
    assert!(dispatch_inbound(&mut links, &tenant, ev, 0).is_none());
}

#[test]
fn publish_without_tenant_fails() {
    let mut links = linked_abc();
    let r = publish(&mut links, None, reply("m1", b"x"), 0);
    assert_eq!(r.err(), Some(PublishError::MissingTenant));
}

#[test]
fn unclaimed_reply_lapses_after_its_lifetime() {
    let mut links = linked_abc();
    let tenant = "abc".to_string();
    dispatch_inbound(&mut links, &tenant, received("c1", "m1", "ping"), 5000).unwrap();
    let r = publish(&mut links, Some(&tenant), reply("m1", b"late"), 5000 + REPLY_TTL_MS);
    assert_eq!(r.err(), Some(PublishError::NotFound));
    dispatch_inbound(&mut links, &tenant, received("c1", "m2", "ping"), 5000).unwrap();
    let r = publish(&mut links, Some(&tenant), reply("m2", b"in time"), 5000 + REPLY_TTL_MS - 1);
    assert_eq!(r.unwrap().text, "in time");
}

#[test]
fn store_resolves_each_key_once() {
    let mut store = CorrelationStore::new();
    let key = "m1".to_string();
    store.begin(key.clone(), ReplyContext { channel_id: "c1".to_string(), session: 1 }, 0);
    assert_eq!(store.len(), 1);
    let first = store.resolve(&key, 10).unwrap();
    assert_eq!(first.channel_id, "c1");
    assert!(store.resolve(&key, 11).is_none());
    assert_eq!(store.len(), 0);
}

#[test]
fn store_begin_overwrites_same_key() {
    let mut store = CorrelationStore::new();
    let key = "m1".to_string();
    store.begin(key.clone(), ReplyContext { channel_id: "c1".to_string(), session: 1 }, 0);
    store.begin(key.clone(), ReplyContext { channel_id: "c2".to_string(), session: 2 }, 0);
    assert_eq!(store.len(), 1);
    let c = store.resolve(&key, 1).unwrap();
    assert_eq!(c.channel_id, "c2");
    assert_eq!(c.session, 2);
}

#[test]
fn sweep_drops_only_lapsed_entries() {
    let mut store = CorrelationStore::new();
    let ctx = |c: &str| ReplyContext { channel_id: c.to_string(), session: 1 };
    store.begin("old".to_string(), ctx("c1"), 0);
    store.begin("new".to_string(), ctx("c2"), 20000);
    let gone = store.evict_expired(REPLY_TTL_MS);
    assert_eq!(gone, vec!["old".to_string()]);
    assert_eq!(store.len(), 1);
    assert!(store.resolve(&"old".to_string(), REPLY_TTL_MS).is_none());
    assert_eq!(store.resolve(&"new".to_string(), REPLY_TTL_MS).unwrap().channel_id, "c2");
}

#[test]
fn registry_sweep_reaches_every_link() {
    let mut links = linked_abc();
    links.add_link("def".to_string(), &config(&[("token", "T2")]), 8).unwrap();
    let abc = "abc".to_string();
    let def = "def".to_string();
    dispatch_inbound(&mut links, &abc, received("c1", "m1", "a"), 0).unwrap();
    dispatch_inbound(&mut links, &def, received("c2", "m2", "b"), 0).unwrap();
    dispatch_inbound(&mut links, &def, received("c3", "m3", "c"), 40000).unwrap();
    links.evict_expired(REPLY_TTL_MS + 1);
    assert_eq!(publish(&mut links, Some(&abc), reply("m1", b"x"), 0).err(), Some(PublishError::NotFound));
    assert_eq!(publish(&mut links, Some(&def), reply("m2", b"x"), 0).err(), Some(PublishError::NotFound));
    assert_eq!(publish(&mut links, Some(&def), reply("m3", b"x"), 40001).unwrap().channel_id, "c3");
}

#[test]
fn invalid_utf8_body_is_delivered_with_replacement() {
    let mut links = linked_abc();
    let tenant = "abc".to_string();
    dispatch_inbound(&mut links, &tenant, received("c1", "m1", "ping"), 0).unwrap();
    let d = publish(&mut links, Some(&tenant), reply("m1", &[b'o', b'k', 0xff, b'!']), 1).unwrap();
    assert_eq!(d.text, "ok\u{FFFD}!");
    assert!(d.replaced);
}

#[test]
fn valid_utf8_body_is_delivered_verbatim() {
    let mut links = linked_abc();
    let tenant = "abc".to_string();
    dispatch_inbound(&mut links, &tenant, received("c1", "m1", "ping"), 0).unwrap();
    let text = "héllo ✓";
    let d = publish(&mut links, Some(&tenant), reply("m1", text.as_bytes()), 1).unwrap();
    assert_eq!(d.text, text);
    assert!(!d.replaced);
}

#[test]
fn replacement_check_finds_the_character() {
    assert!(has_replacement(&"a\u{FFFD}b".to_string()));
    assert!(!has_replacement(&"abc".to_string()));
    assert!(!has_replacement(&String::new()));
}

#[test]
fn request_is_not_implemented() {
    let r = request("s".to_string(), vec![1, 2], 1000);
    assert_eq!(r.err(), Some(PublishError::NotImplemented));
}

#[test]
fn delivery_failure_is_reported() {
    assert_eq!(finish_delivery(Ok(())), Ok(()));
    assert_eq!(finish_delivery(Err("down".to_string())), Err(PublishError::DeliveryFailed("down".to_string())));
}

#[test]
fn dispatch_outcomes_are_told_apart() {
    assert_eq!(classify_dispatch(Ok(Ok(()))), DispatchOutcome::Handled);
    assert_eq!(classify_dispatch(Ok(Err("bad".to_string()))), DispatchOutcome::PluginFailed("bad".to_string()));
    assert_eq!(classify_dispatch(Err("rpc".to_string())), DispatchOutcome::TransportFailed("rpc".to_string()));
}
