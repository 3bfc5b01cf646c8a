use strixcraft::chat::{ChatSystem, MessageType};

#[test]
fn new_chat_system_has_the_default_channels() {
    let system = ChatSystem::new();
    assert_eq!(system.channels.len(), 2);
    let global = system.get_channel(&"global".to_string()).unwrap();
    assert!(global.is_global);
    assert_eq!(global.members, vec!["SYSTEM".to_string()]);
    let local = system.get_channel(&"local".to_string()).unwrap();
    assert!(!local.is_global);
    assert!(system.get_channel(&"nowhere".to_string()).is_none());
}

#[test]
fn send_message_filters_profanity_and_lowercases() {
    let mut system = ChatSystem::new();
    let message = system
        .send_message(
            &"alice".to_string(),
            &"HELLO BadWord1 World".to_string(),
            MessageType::Chat,
            None,
            None,
            10,
        )
        .unwrap();
    assert_eq!(message.sender, "alice");
    assert_eq!(message.content, "hello ******** world");
    assert_eq!(message.timestamp, 10);
    assert_eq!(message.id.len(), 36);
    assert_eq!(system.messages.len(), 1);
}

#[test]
fn rate_limit_allows_one_message_per_second() {
    let mut system = ChatSystem::new();
    let alice = "alice".to_string();
    let hi = "hi".to_string();
    assert!(system.send_message(&alice, &hi, MessageType::Chat, None, None, 10).is_ok());
    let err = system.send_message(&alice, &hi, MessageType::Chat, None, None, 10).unwrap_err();
    assert_eq!(err, "You are sending messages too quickly");
    // another player is not affected
    assert!(system.send_message(&"bob".to_string(), &hi, MessageType::Chat, None, None, 10).is_ok());
    // one second later the sender may speak again
    assert!(system.send_message(&alice, &hi, MessageType::Chat, None, None, 11).is_ok());
}

#[test]
fn muted_players_cannot_send_until_unmuted_or_expired() {
    let mut system = ChatSystem::new();
    let alice = "alice".to_string();
    let hi = "hi".to_string();
    system.mute_player(&alice, 5, 100); // muted until 400
    assert!(system.is_player_muted(&alice, 100));
    assert!(system.is_player_muted(&alice, 400));
    assert!(!system.is_player_muted(&alice, 401));
    let err = system.send_message(&alice, &hi, MessageType::Chat, None, None, 200).unwrap_err();
    assert_eq!(err, "You are currently muted");
    // expiry lifts the mute by itself
    assert!(system.send_message(&alice, &hi, MessageType::Chat, None, None, 401).is_ok());
    // an explicit unmute also works, and reports whether one existed
    assert!(system.unmute_player(&alice));
    assert!(!system.unmute_player(&alice));
    assert!(!system.is_player_muted(&alice, 200));
}

#[test]
fn history_drops_the_oldest_message_beyond_the_bound() {
    let mut system = ChatSystem::new();
    system.max_messages = 3;
    for (i, name) in ["a", "b", "c", "d"].iter().enumerate() {
        system
            .send_message(
                &name.to_string(),
                &format!("message {}", i),
                MessageType::Chat,
                None,
                None,
                i as u64,
            )
            .unwrap();
    }
    assert_eq!(system.messages.len(), 3);
    assert_eq!(system.messages[0].sender, "b");
    assert_eq!(system.messages[2].sender, "d");
}

#[test]
fn recent_messages_come_newest_first_and_respect_the_world() {
    let mut system = ChatSystem::new();
    let w1 = "w1".to_string();
    system
        .send_message(&"a".to_string(), &"one".to_string(), MessageType::Chat, Some(w1.clone()), None, 1)
        .unwrap();
    system
        .send_message(&"b".to_string(), &"two".to_string(), MessageType::Chat, None, None, 2)
        .unwrap();
    system
        .send_message(&"c".to_string(), &"three".to_string(), MessageType::Chat, Some(w1.clone()), None, 3)
        .unwrap();
    let all = system.get_recent_messages(10, None, None);
    assert_eq!(all.len(), 3);
    assert_eq!(all[0].content, "three");
    assert_eq!(all[2].content, "one");
    let only_two = system.get_recent_messages(2, None, None);
    assert_eq!(only_two.len(), 2);
    assert_eq!(only_two[1].content, "two");
    let in_w1 = system.get_recent_messages(10, Some(&w1), None);
    assert_eq!(in_w1.len(), 2);
    assert_eq!(in_w1[0].content, "three");
    assert_eq!(in_w1[1].content, "one");
}

#[test]
fn channels_can_be_created_joined_and_left() {
    let mut system = ChatSystem::new();
    let team = system
        .create_channel(
            "team".to_string(),
            "Team".to_string(),
            "Team chat".to_string(),
            false,
            true,
            "alice".to_string(),
        )
        .unwrap();
    assert_eq!(team.members, vec!["alice".to_string()]);
    let err = system
        .create_channel(
            "team".to_string(),
            "Another".to_string(),
            "Duplicate".to_string(),
            false,
            false,
            "bob".to_string(),
        )
        .unwrap_err();
    assert_eq!(err, "Channel already exists");

    let team_id = "team".to_string();
    let bob = "bob".to_string();
    assert!(system.join_channel(&team_id, &bob).is_ok());
    // joining twice does not duplicate the membership
    assert!(system.join_channel(&team_id, &bob).is_ok());
    let channel = system.get_channel(&team_id).unwrap();
    assert_eq!(channel.members, vec!["alice".to_string(), "bob".to_string()]);

    assert!(system.leave_channel(&team_id, &bob).is_ok());
    let channel = system.get_channel(&team_id).unwrap();
    assert_eq!(channel.members, vec!["alice".to_string()]);

    let missing = "missing".to_string();
    assert_eq!(system.join_channel(&missing, &bob).unwrap_err(), "Channel not found");
    assert_eq!(system.leave_channel(&missing, &bob).unwrap_err(), "Channel not found");
}

#[test]
fn player_channels_list_only_memberships() {
    let mut system = ChatSystem::new();
    let alice = "alice".to_string();
    system
        .create_channel(
            "team".to_string(),
            "Team".to_string(),
            "Team chat".to_string(),
            false,
            true,
            alice.clone(),
        )
        .unwrap();
    let mine = system.get_player_channels(&alice);
    assert_eq!(mine.len(), 1);
    assert_eq!(mine[0].id, "team");
    assert_eq!(system.get_all_channels().len(), 3);
}

#[test]
fn whisper_carries_its_target() {
    let mut system = ChatSystem::new();
    let message = system
        .send_whisper(&"alice".to_string(), &"bob".to_string(), &"psst".to_string(), 5)
        .unwrap();
    assert!(matches!(message.message_type, MessageType::Whisper));
    assert_eq!(message.target_player.as_deref(), Some("bob"));
    assert!(message.world_id.is_none());
}

#[test]
fn broadcast_sends_a_system_message() {
    let mut system = ChatSystem::new();
    let message = system.broadcast_system_message(&"server restarting".to_string(), None, 50);
    assert_eq!(message.sender, "SYSTEM");
    assert!(matches!(message.message_type, MessageType::System));
    assert_eq!(message.content, "server restarting");
}

#[test]
fn chat_stats_count_messages_by_kind() {
    let mut system = ChatSystem::new();
    let hi = "hi".to_string();
    system.send_message(&"a".to_string(), &hi, MessageType::Chat, None, None, 1).unwrap();
    system.send_message(&"b".to_string(), &hi, MessageType::Chat, None, None, 1).unwrap();
    system.send_whisper(&"c".to_string(), &"d".to_string(), &hi, 1).unwrap();
    system.mute_player(&"e".to_string(), 1, 1);
    let stats = system.get_chat_stats();
    assert_eq!(stats.total_messages, 3);
    assert_eq!(stats.total_channels, 2);
    assert_eq!(stats.muted_players, 1);
    assert_eq!(stats.message_type_counts[0], (MessageType::Chat, 2));
    assert_eq!(stats.message_type_counts[3], (MessageType::Whisper, 1));
    assert_eq!(stats.message_type_counts[4], (MessageType::Global, 0));
}
