use discord_message_counter::{
    filter_and_sort_conversations, print_conversations, process_conversations, process_scanned,
    Channel, Conversation, ConversationType, MyError, ScannedUnit, UnitData, UnitKind,
};

fn dm(name: &str, count: usize) -> Conversation {
    Conversation::DmOrGc { name: name.to_owned(), message_count: count }
}

fn guild(name: &str, channels: &[(&str, usize)]) -> Conversation {
    let mut total: usize = 0;
    let mut chans = Vec::new();
    for (n, c) in channels {
        total += *c;
        chans.push(Channel { name: (*n).to_owned(), message_count: *c });
    }
    Conversation::Guild { name: name.to_owned(), message_count: total, channels: chans }
}

fn names(convs: &[Conversation]) -> Vec<String> {
    convs
        .iter()
        .map(|c| match c {
            Conversation::DmOrGc { name, .. } => name.clone(),
            Conversation::Guild { name, .. } => name.clone(),
        })
        .collect()
}

fn unit(id: &str, channel_json: &str, messages_json: &str) -> UnitData {
    UnitData {
        unit_id: id.to_owned(),
        channel_json: channel_json.to_owned(),
        messages_json: messages_json.to_owned(),
    }
}

#[test]
fn message_count_reads_both_variants() {
    assert_eq!(dm("a", 7).message_count(), 7);
    assert_eq!(guild("g", &[("x", 2), ("y", 3)]).message_count(), 5);
}

#[test]
fn sort_is_descending_by_count() {
    let convs = vec![dm("low", 1), dm("high", 9), dm("mid", 4)];
    let r = filter_and_sort_conversations(convs, &None, 1, None);
    assert_eq!(names(&r), vec!["high", "mid", "low"]);
}

#[test]
fn equal_counts_keep_scan_order() {
    let convs = vec![dm("first", 3), dm("second", 3), dm("third", 3)];
    let r = filter_and_sort_conversations(convs, &None, 1, None);
    assert_eq!(names(&r), vec!["first", "second", "third"]);
}

#[test]
fn min_messages_drops_small_conversations() {
    let convs = vec![dm("tiny", 0), dm("small", 2), dm("big", 10)];
    let r = filter_and_sort_conversations(convs, &None, 3, None);
    assert_eq!(names(&r), vec!["big"]);
}

#[test]
fn type_filter_keeps_only_requested_kind() {
    let convs = vec![dm("d", 5), guild("g", &[("c", 4)])];
    let dms = filter_and_sort_conversations(
        vec![dm("d", 5), guild("g", &[("c", 4)])],
        &Some(ConversationType::Dm),
        1,
        None,
    );
    assert_eq!(names(&dms), vec!["d"]);
    let guilds = filter_and_sort_conversations(convs, &Some(ConversationType::Guild), 1, None);
    assert_eq!(names(&guilds), vec!["g"]);
}

#[test]
fn limit_keeps_the_highest_counts() {
    let convs = vec![dm("a", 1), dm("b", 5), dm("c", 3), dm("d", 4)];
    let r = filter_and_sort_conversations(convs, &None, 1, Some(2));
    assert_eq!(names(&r), vec!["b", "d"]);
}

#[test]
fn limit_larger_than_set_changes_nothing() {
    let convs = vec![dm("a", 1), dm("b", 5)];
    let r = filter_and_sort_conversations(convs, &None, 1, Some(10));
    assert_eq!(r.len(), 2);
}

#[test]
fn filters_before_or_after_sorting_agree() {
    let convs = || vec![dm("a", 1), guild("g", &[("c", 6)]), dm("b", 5), dm("z", 2)];
    let filtered_then_sorted = filter_and_sort_conversations(convs(), &None, 2, None);
    let sorted = filter_and_sort_conversations(convs(), &None, 0, None);
    let sorted_then_filtered: Vec<Conversation> = sorted
        .into_iter()
        .filter(|c| c.message_count() >= 2)
        .collect();
    assert_eq!(names(&filtered_then_sorted), names(&sorted_then_filtered));
}

#[test]
fn round_trip_guild_competes_by_total() {
    let units = vec![
        unit("1", "{\"guild\": {\"id\": \"g1\"}, \"name\": \"A\"}", "[1, 2, 3, 4, 5]"),
        unit("2", "{\"guild\": {\"id\": \"g1\"}, \"name\": \"B\"}", "[1, 2]"),
        unit("c30", "{}", "[1, 2, 3, 4, 5, 6, 7, 8, 9, 10]"),
    ];
    let (cm, gm) = discord_message_counter::load_mappings(
        Some("{\"30\": \"C\"}"),
        Some("{\"g1\": \"The Guild\"}"),
    )
    .unwrap();
    let convs = process_conversations(&units, &cm, &gm).unwrap();
    let r = filter_and_sort_conversations(convs, &None, 1, None);
    assert_eq!(r.len(), 2);
    match &r[0] {
        Conversation::DmOrGc { name, message_count } => {
            assert_eq!(name, "C");
            assert_eq!(*message_count, 10);
        }
        _ => panic!("expected the direct conversation first"),
    }
    match &r[1] {
        Conversation::Guild { name, message_count, channels } => {
            assert_eq!(name, "The Guild");
            assert_eq!(*message_count, 7);
            assert_eq!(channels.len(), 2);
            assert_eq!((channels[0].name.as_str(), channels[0].message_count), ("A", 5));
            assert_eq!((channels[1].name.as_str(), channels[1].message_count), ("B", 2));
        }
        _ => panic!("expected the guild second"),
    }
}

#[test]
fn overflowing_total_is_reported() {
    let scanned = vec![
        ScannedUnit { unit_id: "1".to_owned(), message_count: usize::MAX, kind: UnitKind::Direct },
        ScannedUnit { unit_id: "2".to_owned(), message_count: 1, kind: UnitKind::Direct },
    ];
    match process_scanned(&scanned, &None, &None) {
        Err(MyError::CountOverflow) => {}
        _ => panic!("expected the overflow error"),
    }
}

#[test]
fn direct_conversation_prints_one_line() {
    let lines = print_conversations(vec![dm("Alice", 12345)]);
    assert_eq!(lines, vec!["Alice [12345 messages]"]);
}

#[test]
fn guild_prints_channels_sorted_with_connectors_and_blank_line() {
    let g = guild("The Guild", &[("quiet", 2), ("busy", 9), ("mid", 5)]);
    let lines = print_conversations(vec![dm("Top", 20), g]);
    assert_eq!(
        lines,
        vec![
            "Top [20 messages]",
            "The Guild [16 messages]",
            "    ├── busy [9 messages]",
            "    ├── mid [5 messages]",
            "    └── quiet [2 messages]",
            "",
        ]
    );
}

#[test]
fn zero_renders_as_single_digit() {
    let lines = print_conversations(vec![dm("Empty", 0)]);
    assert_eq!(lines, vec!["Empty [0 messages]"]);
}
