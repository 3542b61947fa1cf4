use discord_message_counter::{
    load_mappings, process_conversations, scan_unit, Conversation, MyError, NameMapping, UnitData,
};

fn unit(id: &str, channel_json: &str, messages_json: &str) -> UnitData {
    UnitData {
        unit_id: id.to_owned(),
        channel_json: channel_json.to_owned(),
        messages_json: messages_json.to_owned(),
    }
}

fn mapping_of(pairs: &[(&str, &str)]) -> NameMapping {
    let mut m = NameMapping::new();
    for (k, v) in pairs {
        m.insert((*k).to_owned(), (*v).to_owned());
    }
    m
}

#[test]
fn scan_unit_reads_guild_reference_and_count() {
    let u = unit(
        "555",
        "{\"guild\": {\"id\": \"g1\"}, \"name\": \"general\"}",
        "[{\"a\": 1}, {\"a\": 2}, {\"a\": 3}]",
    );
    let s = scan_unit(&u).unwrap();
    assert_eq!(s.unit_id, "555");
    assert_eq!(s.message_count, 3);
}

#[test]
fn scan_unit_rejects_malformed_metadata() {
    let u = unit("1", "not json at all", "[]");
    match scan_unit(&u) {
        Err(MyError::Json(_)) => {}
        other => panic!("expected a parse error, got {:?}", other.is_ok()),
    }
}

#[test]
fn scan_unit_rejects_non_array_message_list() {
    let u = unit("1", "{}", "{\"not\": \"an array\"}");
    match scan_unit(&u) {
        Err(MyError::Json(_)) => {}
        other => panic!("expected a parse error, got {:?}", other.is_ok()),
    }
}

#[test]
fn direct_conversation_without_mapping_uses_unstripped_fallback() {
    let units = vec![unit("c123", "{}", "[]")];
    let convs = process_conversations(&units, &None, &None).unwrap();
    assert_eq!(convs.len(), 1);
    match &convs[0] {
        Conversation::DmOrGc { name, message_count } => {
            assert_eq!(name, "Conversation c123");
            assert_eq!(*message_count, 0);
        }
        _ => panic!("expected a direct conversation"),
    }
}

#[test]
fn direct_conversation_resolves_through_stripped_id() {
    let cm = Some(mapping_of(&[("123", "Alice")]));
    let units = vec![unit("c123", "{}", "[1, 2]")];
    let convs = process_conversations(&units, &cm, &None).unwrap();
    match &convs[0] {
        Conversation::DmOrGc { name, message_count } => {
            assert_eq!(name, "Alice");
            assert_eq!(*message_count, 2);
        }
        _ => panic!("expected a direct conversation"),
    }
}

#[test]
fn only_a_single_leading_c_is_stripped() {
    let cm = Some(mapping_of(&[("c5", "Inner")]));
    let units = vec![unit("cc5", "{}", "[]")];
    let convs = process_conversations(&units, &cm, &None).unwrap();
    match &convs[0] {
        Conversation::DmOrGc { name, .. } => assert_eq!(name, "Inner"),
        _ => panic!("expected a direct conversation"),
    }
}

#[test]
fn id_without_prefix_is_looked_up_as_it_stands() {
    let cm = Some(mapping_of(&[("42", "Plain")]));
    let units = vec![unit("42", "{}", "[]")];
    let convs = process_conversations(&units, &cm, &None).unwrap();
    match &convs[0] {
        Conversation::DmOrGc { name, .. } => assert_eq!(name, "Plain"),
        _ => panic!("expected a direct conversation"),
    }
}

#[test]
fn guild_reference_without_id_maps_to_unknown() {
    let units = vec![unit("9", "{\"guild\": {}}", "[1]")];
    let convs = process_conversations(&units, &None, &None).unwrap();
    assert_eq!(convs.len(), 1);
    match &convs[0] {
        Conversation::Guild { name, message_count, channels } => {
            assert_eq!(name, "Guild Unknown");
            assert_eq!(*message_count, 1);
            assert_eq!(channels.len(), 1);
            assert_eq!(channels[0].name, "9");
        }
        _ => panic!("expected a guild"),
    }
}

#[test]
fn guild_name_mapping_can_key_on_the_unknown_sentinel() {
    let gm = Some(mapping_of(&[("Unknown", "Mystery Guild")]));
    let units = vec![unit("9", "{\"guild\": {}}", "[1]")];
    let convs = process_conversations(&units, &None, &gm).unwrap();
    match &convs[0] {
        Conversation::Guild { name, .. } => assert_eq!(name, "Mystery Guild"),
        _ => panic!("expected a guild"),
    }
}

#[test]
fn channels_of_one_guild_merge_with_running_total() {
    let units = vec![
        unit("1", "{\"guild\": {\"id\": \"g1\"}, \"name\": \"alpha\"}", "[1, 2, 3]"),
        unit("2", "{}", "[1]"),
        unit("3", "{\"guild\": {\"id\": \"g1\"}, \"name\": \"beta\"}", "[1, 2]"),
    ];
    let convs = process_conversations(&units, &None, &None).unwrap();
    assert_eq!(convs.len(), 2);
    match &convs[1] {
        Conversation::Guild { name, message_count, channels } => {
            assert_eq!(name, "Guild g1");
            assert_eq!(*message_count, 5);
            assert_eq!(channels.len(), 2);
            assert_eq!(channels[0].name, "alpha");
            assert_eq!(channels[0].message_count, 3);
            assert_eq!(channels[1].name, "beta");
            assert_eq!(channels[1].message_count, 2);
        }
        _ => panic!("expected a guild"),
    }
}

#[test]
fn two_guilds_stay_separate_by_id() {
    let units = vec![
        unit("1", "{\"guild\": {\"id\": \"g1\"}}", "[1]"),
        unit("2", "{\"guild\": {\"id\": \"g2\"}}", "[1, 2]"),
        unit("3", "{\"guild\": {\"id\": \"g1\"}}", "[1, 2, 3]"),
    ];
    let gm = Some(mapping_of(&[("g1", "First"), ("g2", "Second")]));
    let convs = process_conversations(&units, &None, &gm).unwrap();
    assert_eq!(convs.len(), 2);
    match (&convs[0], &convs[1]) {
        (
            Conversation::Guild { name: n1, message_count: c1, channels: ch1 },
            Conversation::Guild { name: n2, message_count: c2, channels: ch2 },
        ) => {
            assert_eq!(n1, "First");
            assert_eq!(*c1, 4);
            assert_eq!(ch1.len(), 2);
            assert_eq!(n2, "Second");
            assert_eq!(*c2, 2);
            assert_eq!(ch2.len(), 1);
        }
        _ => panic!("expected two guilds"),
    }
}

#[test]
fn channel_with_non_string_name_falls_back_to_unit_id() {
    let units = vec![unit("77", "{\"guild\": {\"id\": \"g\"}, \"name\": 5}", "[]")];
    let convs = process_conversations(&units, &None, &None).unwrap();
    match &convs[0] {
        Conversation::Guild { channels, .. } => assert_eq!(channels[0].name, "77"),
        _ => panic!("expected a guild"),
    }
}

#[test]
fn processing_aborts_on_first_malformed_unit() {
    let units = vec![unit("1", "{}", "[]"), unit("2", "{oops", "[]")];
    match process_conversations(&units, &None, &None) {
        Err(MyError::Json(_)) => {}
        _ => panic!("expected a parse error"),
    }
}

#[test]
fn empty_listing_yields_empty_report() {
    let units: Vec<UnitData> = Vec::new();
    let convs = process_conversations(&units, &None, &None).unwrap();
    assert!(convs.is_empty());
}

#[test]
fn load_mappings_tolerates_absent_guild_index() {
    let (cm, gm) = load_mappings(Some("{\"1\": \"Alice\"}"), None).unwrap();
    let cm = cm.unwrap();
    assert!(gm.is_none());
    assert_eq!(cm.get("1").unwrap(), "Alice");
    assert!(cm.get("2").is_none());

    let units = vec![unit("5", "{\"guild\": {\"id\": \"g7\"}}", "[1]")];
    let convs = process_conversations(&units, &cm.into(), &gm).unwrap();
    match &convs[0] {
        Conversation::Guild { name, .. } => assert_eq!(name, "Guild g7"),
        _ => panic!("expected a guild"),
    }
}

#[test]
fn load_mappings_rejects_malformed_index() {
    match load_mappings(Some("[1, 2, 3]"), None) {
        Err(MyError::Json(_)) => {}
        _ => panic!("expected a parse error"),
    }
    match load_mappings(None, Some("{\"a\": 3}")) {
        Err(MyError::Json(_)) => {}
        _ => panic!("expected a parse error"),
    }
}

#[test]
fn load_mappings_absent_both_is_fine() {
    let (cm, gm) = load_mappings(None, None).unwrap();
    assert!(cm.is_none());
    assert!(gm.is_none());
}
