use multi_agent_chat::message_router::channel::{Channel, ChannelError, ChannelHandler, ChannelType};
use multi_agent_chat::message_router::queue::{ChatMessage, MessagePriority, MessageQueue, MessageQueueError};
use multi_agent_chat::message_router::router::{MessageRouter, RouterError};
use rand::rngs::StdRng;
use rand::{Rng, SeedableRng};

fn new_id() -> u128 {
    uuid::Uuid::new_v4().as_u128()
}

// ---------------------------------------------------------------- channel

#[test]
fn channel_test_general_channel_creation() {
    let channel = Channel::new_general("Main Chat".to_string());
    assert_eq!(channel.channel_type, ChannelType::General);
    assert_eq!(channel.name, "Main Chat");
    assert!(channel.active);
}

#[test]
fn channel_test_private_channel_creation() {
    let channel = Channel::new_private("agent1".to_string(), "agent2".to_string());
    match channel.channel_type {
        ChannelType::Private(ref a1, ref a2) => {
            assert_eq!(a1, "agent1");
            assert_eq!(a2, "agent2");
        }
        _ => panic!("Expected Private channel type"),
    }
    assert!(channel.has_participant("agent1"));
    assert!(channel.has_participant("agent2"));
}

#[test]
fn test_private_channel_id_consistency() {
    let id1 = Channel::get_private_channel_id("agent1", "agent2");
    let id2 = Channel::get_private_channel_id("agent2", "agent1");
    assert_eq!(id1, id2);
}

#[test]
fn test_add_remove_participant() {
    let mut channel = Channel::new_topic("testing".to_string());
    channel.add_participant("agent1".to_string());
    assert!(channel.has_participant("agent1"));
    channel.remove_participant("agent1");
    assert!(!channel.has_participant("agent1"));
}

#[test]
fn private_channel_key_and_name() {
    assert_eq!(Channel::get_private_channel_id("bob", "alice"), "alice:bob");
    let channel = Channel::new_private("bob".to_string(), "alice".to_string());
    assert_eq!(channel.name, "PM: bob <-> alice");
    assert_eq!(channel.participants, vec!["alice".to_string(), "bob".to_string()]);
    let doc = Channel::new_document(1);
    assert_eq!(doc.channel_type, ChannelType::Document(1));
    assert_eq!(doc.name, "Document: 00000000-0000-0000-0000-000000000001");
    let topic = Channel::new_topic("news".to_string());
    assert_eq!(topic.channel_type, ChannelType::Topic("news".to_string()));
    assert_eq!(topic.name, "#news");
}

#[test]
fn adding_a_participant_twice_keeps_one() {
    let mut channel = Channel::new_topic("t".to_string());
    channel.add_participant("a".to_string());
    channel.add_participant("a".to_string());
    assert_eq!(channel.participants.len(), 1);
    assert_eq!(ChannelError::InvalidOperation("x".to_string()).message(), "Invalid channel operation: x");
    assert_eq!(ChannelError::NotFound.message(), "Channel not found");
}

// ---------------------------------------------------------------- queue

#[test]
fn test_message_creation() {
    let msg = ChatMessage::new("agent1".to_string(), new_id(), "Hello, world!".to_string());
    assert_eq!(msg.sender_id, "agent1");
    assert_eq!(msg.content, "Hello, world!");
    assert_eq!(msg.votes, (0, 0));
}

#[test]
fn test_message_truncation() {
    let msg = ChatMessage::new(
        "agent1".to_string(),
        new_id(),
        "This is a long message with many words that should be truncated properly".to_string(),
    );
    let truncated = msg.truncate_content(5);
    assert_eq!(truncated, "This is a long...");
}

#[test]
fn test_voting() {
    let mut msg = ChatMessage::new("agent1".to_string(), new_id(), "Test message".to_string());
    msg.vote("voter1".to_string(), true);
    assert_eq!(msg.votes, (1, 0));
    assert!(msg.voters.contains(&"voter1".to_string()));
    msg.vote("voter2".to_string(), false);
    assert_eq!(msg.votes, (1, 1));
}

#[test]
fn test_queue_exact_capacity() {
    let mut queue = MessageQueue::new(10);
    for i in 0..10 {
        let msg = ChatMessage::new(format!("agent_{}", i), new_id(), format!("Message {}", i));
        assert!(queue.enqueue(msg).is_ok(), "Should enqueue up to capacity");
    }
    let msg = ChatMessage::new("agent_overflow".to_string(), new_id(), "Overflow".to_string());
    let result = queue.enqueue(msg);
    assert!(result.is_err(), "Should fail when queue is full");
    assert!(matches!(result, Err(MessageQueueError::QueueFull)));
}

#[test]
fn test_queue_same_priority_ordering() {
    let mut queue = MessageQueue::new(100);
    for i in 0..50 {
        let msg = ChatMessage::new(format!("agent_{}", i), new_id(), format!("Message {}", i));
        queue.enqueue_with_priority(msg, MessagePriority::Normal).unwrap();
    }
    let mut queue_mut = queue.clone();
    for i in 0..50 {
        let dequeued = queue_mut.dequeue().unwrap();
        assert_eq!(dequeued.message.sender_id, format!("agent_{}", i));
    }
}

#[test]
fn test_dequeue_empty_queue() {
    let queue = MessageQueue::new(100);
    let mut queue_mut = queue.clone();
    let result = queue_mut.dequeue();
    assert!(result.is_err());
    assert!(matches!(result, Err(MessageQueueError::QueueEmpty)));
}

#[test]
fn test_vote_manipulation_on_new_message() {
    let mut msg = ChatMessage::new("agent1".to_string(), new_id(), "Test".to_string());
    msg.vote("voter1".to_string(), true);
    assert_eq!(msg.votes, (1, 0));
    msg.vote("voter1".to_string(), false);
}

#[test]
fn test_message_truncation_edge_cases() {
    // Exact word limit
    let exact_words = (0..200).map(|_| "word").collect::<Vec<_>>().join(" ");
    let msg = ChatMessage::new("agent".to_string(), new_id(), exact_words.clone());
    let truncated = msg.truncate_content(200);
    assert_eq!(truncated, exact_words);

    // One over limit: the ellipsis ends the last kept word, as in
    // `test_message_truncation` ("This is a long..." for five words), so
    // 199 words are left and the last of them reads "word...".
    let one_over = (0..201).map(|_| "word").collect::<Vec<_>>().join(" ");
    let msg = ChatMessage::new("agent".to_string(), new_id(), one_over);
    let truncated = msg.truncate_content(200);
    assert!(truncated.ends_with("..."));
    assert_eq!(truncated.split_whitespace().count(), 199);

    // Empty message
    let msg = ChatMessage::new("agent".to_string(), new_id(), "".to_string());
    let truncated = msg.truncate_content(200);
    assert_eq!(truncated, "");
}

#[test]
fn test_fuzz_random_vote_sequences() {
    let mut rng = StdRng::seed_from_u64(42);
    for _iteration in 0..100 {
        let mut msg = ChatMessage::new("author".to_string(), new_id(), "Vote test".to_string());
        let num_votes = rng.gen_range(1..50);
        for _i in 0..num_votes {
            let voter_id = format!("voter_{}", rng.gen_range(0..10));
            let approve = rng.gen_bool(0.5);
            msg.vote(voter_id, approve);
        }
        let unique_voters: std::collections::HashSet<_> = msg.voters.iter().collect();
        assert_eq!(unique_voters.len(), msg.voters.len());
    }
}

#[test]
fn test_queue_capacity_reporting() {
    let queue = MessageQueue::new(500);
    assert_eq!(queue.size(), 500);
}

#[test]
fn higher_priority_leaves_first() {
    let mut queue = MessageQueue::new(10);
    let ch = new_id();
    queue.enqueue_with_priority(ChatMessage::new("low".to_string(), ch, "1".to_string()), MessagePriority::Low).unwrap();
    queue.enqueue_with_priority(ChatMessage::new("urgent".to_string(), ch, "2".to_string()), MessagePriority::Urgent).unwrap();
    queue.enqueue(ChatMessage::new("normal".to_string(), ch, "3".to_string())).unwrap();
    queue.enqueue_with_priority(ChatMessage::new("high".to_string(), ch, "4".to_string()), MessagePriority::High).unwrap();
    queue.enqueue_with_priority(ChatMessage::new("urgent2".to_string(), ch, "5".to_string()), MessagePriority::Urgent).unwrap();
    assert_eq!(queue.size(), 5);
    let order: Vec<String> = (0..5).map(|_| queue.dequeue().unwrap().message.sender_id).collect();
    assert_eq!(order, vec!["urgent", "urgent2", "high", "normal", "low"]);
    assert_eq!(queue.size(), 10);
    assert_eq!(MessagePriority::default(), MessagePriority::Normal);
    assert_eq!(MessageQueueError::QueueFull.message(), "Queue is full");
    assert_eq!(MessageQueueError::QueueEmpty.message(), "Queue is empty");
    assert_eq!(MessageQueueError::OperationFailed("x".to_string()).message(), "Queue operation failed: x");
}

#[test]
fn revoting_moves_the_voter_last() {
    let mut msg = ChatMessage::new("a".to_string(), 1, "m".to_string()).with_document(9);
    assert_eq!(msg.document_ref, Some(9));
    msg.vote("v1".to_string(), true);
    msg.vote("v2".to_string(), true);
    msg.vote("v1".to_string(), false);
    assert_eq!(msg.voters, vec!["v2".to_string(), "v1".to_string()]);
    assert_eq!(msg.ballots, vec![true, false]);
    assert_eq!(msg.votes, (1, 1));
}

#[test]
fn changed_vote_replaces_the_earlier_one() {
    let mut msg = ChatMessage::new("agent1".to_string(), 7, "Test".to_string());
    msg.vote("voter1".to_string(), true);
    assert_eq!(msg.votes, (1, 0));
    msg.vote("voter1".to_string(), false);
    assert_eq!(msg.votes, (0, 1));
    assert_eq!(msg.voters, vec!["voter1".to_string()]);
    msg.vote("voter1".to_string(), false);
    assert_eq!(msg.votes, (0, 1));
    msg.vote("voter2".to_string(), true);
    msg.vote("voter3".to_string(), true);
    assert_eq!(msg.votes, (2, 1));
    let (a, d) = msg.votes;
    assert_eq!((a + d) as usize, msg.voters.len());
}

// ---------------------------------------------------------------- router

#[test]
fn router_test_general_channel_creation() {
    let mut router = MessageRouter::new(100, 1000);
    let channel_id = router.get_or_create_general_channel("General".to_string());
    let channel = router.get_channel(channel_id).unwrap();
    assert_eq!(channel.channel_type, ChannelType::General);
}

#[test]
fn router_test_private_channel_creation() {
    let mut router = MessageRouter::new(100, 1000);
    let channel_id = router.get_or_create_private_channel("agent1".to_string(), "agent2".to_string());
    let channel = router.get_channel(channel_id).unwrap();
    match channel.channel_type {
        ChannelType::Private(ref a1, ref a2) => {
            assert_eq!(a1, "agent1");
            assert_eq!(a2, "agent2");
        }
        _ => panic!("Expected Private channel"),
    }
}

#[test]
fn test_send_message() {
    let mut router = MessageRouter::new(100, 1000);
    let channel_id = router.get_or_create_general_channel("General".to_string());
    let message = router
        .send_message("agent1".to_string(), channel_id, "Hello!".to_string(), MessagePriority::Normal)
        .unwrap();
    assert_eq!(message.sender_id, "agent1");
    assert_eq!(message.content, "Hello!");
}

#[test]
fn test_join_leave_channel() {
    let mut router = MessageRouter::new(100, 1000);
    let channel_id = router.create_topic_channel("testing".to_string());
    router.join_channel(channel_id, "agent1".to_string()).unwrap();
    let channel = router.get_channel(channel_id).unwrap();
    assert!(channel.has_participant("agent1"));
    router.leave_channel(channel_id, "agent1").unwrap();
    let channel = router.get_channel(channel_id).unwrap();
    assert!(!channel.has_participant("agent1"));
}

#[test]
fn test_message_empty_content() {
    let mut router = MessageRouter::new(100, 1000);
    let channel_id = router.get_or_create_general_channel("General".to_string());
    let message = router.send_message("agent1".to_string(), channel_id, "".to_string(), MessagePriority::Normal);
    assert!(message.is_ok());
    assert_eq!(message.unwrap().content, "");
}

#[test]
fn test_message_large_content() {
    let mut router = MessageRouter::new(1000, 10000);
    let channel_id = router.get_or_create_general_channel("General".to_string());
    let large_content = "a".repeat(1_000_000);
    let message = router.send_message("agent1".to_string(), channel_id, large_content.clone(), MessagePriority::Normal);
    assert!(message.is_ok());
    assert_eq!(message.unwrap().content.len(), 1_000_000);
}

#[test]
fn test_topic_channel_single_participant() {
    let mut router = MessageRouter::new(100, 1000);
    let channel_id = router.create_topic_channel("solo".to_string());
    router.join_channel(channel_id, "lonely_agent".to_string()).unwrap();
    let channel = router.get_channel(channel_id).unwrap();
    assert!(channel.has_participant("lonely_agent"));
    assert_eq!(channel.participants.len(), 1);
}

#[test]
fn test_vote_from_non_participant() {
    let mut router = MessageRouter::new(100, 1000);
    let channel_id = router.create_topic_channel("exclusive".to_string());
    router.join_channel(channel_id, "agent1".to_string()).unwrap();
    let result = router.send_message("agent2".to_string(), channel_id, "Intruder message".to_string(), MessagePriority::Normal);
    assert!(result.is_err());
    assert!(matches!(result, Err(RouterError::Unauthorized)));
}

#[test]
fn test_send_to_inactive_channel() {
    let mut router = MessageRouter::new(100, 1000);
    let _channel_id = router.create_topic_channel("temp".to_string());
    let result = router.send_message("agent1".to_string(), new_id(), "Message to nowhere".to_string(), MessagePriority::Normal);
    assert!(result.is_err());
    assert!(matches!(result, Err(RouterError::ChannelNotFound)));
}

#[test]
fn test_get_nonexistent_channel() {
    let router = MessageRouter::new(100, 1000);
    assert!(router.get_channel(new_id()).is_none());
}

#[test]
fn test_broadcast_to_empty_channel() {
    let mut router = MessageRouter::new(100, 1000);
    let channel_id = router.create_topic_channel("empty".to_string());
    let result = router.send_message("agent1".to_string(), channel_id, "Hello?".to_string(), MessagePriority::Normal);
    assert!(result.is_err());
}

#[test]
fn test_duplicate_general_channel() {
    let mut router = MessageRouter::new(100, 1000);
    let channel_id_1 = router.get_or_create_general_channel("General".to_string());
    let channel_id_2 = router.get_or_create_general_channel("General".to_string());
    assert_eq!(channel_id_1, channel_id_2);
}

#[test]
fn test_private_channel_canonical_id() {
    let mut router = MessageRouter::new(100, 1000);
    let channel_id_1 = router.get_or_create_private_channel("alice".to_string(), "bob".to_string());
    let channel_id_2 = router.get_or_create_private_channel("bob".to_string(), "alice".to_string());
    assert_eq!(channel_id_1, channel_id_2);
}

#[test]
fn test_fuzz_random_message_sizes() {
    let mut rng = StdRng::seed_from_u64(42);
    let mut router = MessageRouter::new(10000, 100000);
    let channel_id = router.get_or_create_general_channel("General".to_string());
    for _iteration in 0..100 {
        let size = rng.gen_range(0..100000);
        let content = "x".repeat(size);
        let result = router.send_message("fuzzer".to_string(), channel_id, content, MessagePriority::Normal);
        assert!(result.is_ok(), "Message of size {} should succeed", size);
    }
}

#[test]
fn test_fuzz_random_join_leave() {
    let mut rng = StdRng::seed_from_u64(42);
    let mut router = MessageRouter::new(1000, 10000);
    let channel_id = router.create_topic_channel("chaos".to_string());
    let agents: Vec<String> = (0..20).map(|i| format!("agent_{}", i)).collect();
    for _iteration in 0..100 {
        let agent = &agents[rng.gen_range(0..agents.len())];
        if rng.gen_bool(0.5) {
            let _ = router.join_channel(channel_id, agent.clone());
        } else {
            let _ = router.leave_channel(channel_id, agent);
        }
    }
    assert!(router.get_channel(channel_id).is_some());
}

#[test]
fn test_fuzz_random_priorities() {
    let mut rng = StdRng::seed_from_u64(42);
    let mut router = MessageRouter::new(1000, 10000);
    let channel_id = router.get_or_create_general_channel("General".to_string());
    let priorities = [MessagePriority::Low, MessagePriority::Normal, MessagePriority::High, MessagePriority::Urgent];
    for _iteration in 0..100 {
        let priority = priorities[rng.gen_range(0..priorities.len())];
        let content = format!("Priority {:?}", priority);
        let result = router.send_message("priority_tester".to_string(), channel_id, content, priority);
        assert!(result.is_ok());
    }
}

#[test]
fn test_fuzz_concurrent_enqueue_dequeue() {
    let mut router = MessageRouter::new(10000, 100000);
    let channel_id = router.get_or_create_general_channel("General".to_string());
    let mut counter = 0;
    for i in 0..50 {
        for j in 0..100 {
            let content = format!("Task {} Message {}", i, j);
            let _ = router.send_message(format!("producer_{}", i), channel_id, content, MessagePriority::Normal);
            counter += 1;
        }
    }
    assert_eq!(counter, 5000);
}

#[test]
fn test_fuzz_random_sender_ids() {
    let mut rng = StdRng::seed_from_u64(42);
    let mut router = MessageRouter::new(1000, 10000);
    let channel_id = router.get_or_create_general_channel("General".to_string());
    let special_chars = vec![
        "@", "#", "$", "%", "^", "&", "*", "(", ")", "-", "+", "=", "[", "]", "{", "}", "|", "\\",
        ";", ":", "'", "\"", ",", ".", "<", ">", "/", "?", "~", "`", "!", " ", "\t", "\n",
    ];
    for _iteration in 0..100 {
        let length = rng.gen_range(1..50);
        let mut sender_id = String::new();
        for _ in 0..length {
            if rng.gen_bool(0.3) {
                sender_id.push_str(special_chars[rng.gen_range(0..special_chars.len())]);
            } else {
                sender_id.push((b'a' + rng.gen::<u8>() % 26) as char);
            }
        }
        let result = router.send_message(sender_id.clone(), channel_id, "Test".to_string(), MessagePriority::Normal);
        assert!(result.is_ok(), "Sender ID '{}' should work", sender_id);
    }
}

#[test]
fn test_fuzz_rapid_fire_burst() {
    let mut router = MessageRouter::new(100000, 1000000);
    let channel_id = router.get_or_create_general_channel("General".to_string());
    let start = std::time::Instant::now();
    for i in 0..1000 {
        router
            .send_message(format!("burst_agent_{}", i), channel_id, format!("Burst message {}", i), MessagePriority::Normal)
            .unwrap();
    }
    let elapsed = start.elapsed();
    println!("Sent 1000 messages in {:?}", elapsed);
    assert!(elapsed.as_secs() < 10);
}

#[test]
fn test_channel_name_special_characters() {
    let mut router = MessageRouter::new(100, 1000);
    for name in vec!["general-chat", "random_123", "🎉party🎉", "テスト", "канал"] {
        let channel_id = router.get_or_create_general_channel(name.to_string());
        let channel = router.get_channel(channel_id).unwrap();
        assert_eq!(channel.name, name);
    }
}

#[test]
fn test_agent_multiple_private_channels() {
    let mut router = MessageRouter::new(100, 1000);
    let ab = router.get_or_create_private_channel("alice".to_string(), "bob".to_string());
    let ac = router.get_or_create_private_channel("alice".to_string(), "charlie".to_string());
    let ad = router.get_or_create_private_channel("alice".to_string(), "dave".to_string());
    assert_ne!(ab, ac);
    assert_ne!(ab, ad);
    assert_ne!(ac, ad);
    assert!(router.get_channels_for_agent("alice").len() >= 3);
}

#[test]
fn test_broadcast_subscription() {
    let mut router = MessageRouter::new(100, 1000);
    let channel_id = router.get_or_create_general_channel("General".to_string());
    let mut rx = router.subscribe();
    router
        .send_message("sender".to_string(), channel_id, "Broadcast test".to_string(), MessagePriority::Normal)
        .unwrap();
    let received = rx.try_recv().unwrap();
    assert_eq!(received.content, "Broadcast test");
    // Refused messages are not broadcast.
    let topic = router.create_topic_channel("closed".to_string());
    assert!(router.send_message("sender".to_string(), topic, "no".to_string(), MessagePriority::Normal).is_err());
    assert!(rx.try_recv().is_err());
}

struct Refuser;

impl ChannelHandler for Refuser {
    fn handle_message(&self, _message: &ChatMessage) -> Result<(), ChannelError> {
        Err(ChannelError::HandlerError("refused".to_string()))
    }
    fn on_join(&self, _agent_id: &str) -> Result<(), ChannelError> {
        Err(ChannelError::Unauthorized)
    }
    fn on_leave(&self, _agent_id: &str) -> Result<(), ChannelError> {
        Ok(())
    }
}

#[test]
fn handlers_can_refuse() {
    let mut router = MessageRouter::new(10, 10);
    let general = router.get_or_create_general_channel("General".to_string());
    router.register_handler(general, Box::new(Refuser));
    let r = router.send_message("a".to_string(), general, "x".to_string(), MessagePriority::Normal);
    match r {
        Err(e) => assert_eq!(e.message(), "Handler error: Handler error: refused"),
        Ok(_) => panic!("expected a refusal"),
    }
    assert_eq!(router.queue_size(), 10);
    // The agent stays added though the handler objects.
    let r = router.join_channel(general, "b".to_string());
    assert!(matches!(r, Err(RouterError::HandlerError(ref s)) if s == "Agent not authorized for this channel"));
    assert!(router.get_channel(general).unwrap().has_participant("b"));
}

#[test]
fn queue_fills_and_drains_through_the_router() {
    let mut router = MessageRouter::new(2, 10);
    let general = router.get_or_create_general_channel("General".to_string());
    router.send_message("a".to_string(), general, "1".to_string(), MessagePriority::Low).unwrap();
    router.broadcast_to_general("b".to_string(), "2".to_string()).unwrap();
    assert_eq!(router.queue_size(), 0);
    let full = router.send_message("c".to_string(), general, "3".to_string(), MessagePriority::Urgent);
    match full {
        Err(e) => assert_eq!(e.message(), "Queue error: Queue is full"),
        Ok(_) => panic!("expected a full queue"),
    }
    assert_eq!(router.dequeue_message().unwrap().content, "2");
    assert_eq!(router.dequeue_message().unwrap().content, "1");
    assert!(matches!(router.dequeue_message(), Err(MessageQueueError::QueueEmpty)));
    assert_eq!(RouterError::ChannelNotFound.message(), "Channel not found");
    assert_eq!(RouterError::Unauthorized.message(), "Agent not authorized");
}

#[test]
fn channels_for_agent_and_document_channels() {
    let mut router = MessageRouter::new(10, 10);
    let general = router.get_or_create_general_channel("General".to_string());
    let doc = router.create_document_channel(5);
    router.join_channel(doc, "x".to_string()).unwrap();
    let ids: Vec<u128> = router.get_channels_for_agent("x").iter().map(|c| c.id).collect();
    assert!(ids.contains(&general));
    assert!(ids.contains(&doc));
    assert!(!router.get_channels_for_agent("y").iter().any(|c| c.id == doc));
    assert!(matches!(router.leave_channel(new_id(), "x"), Err(RouterError::ChannelNotFound)));
}

#[test]
fn leaving_after_joining_restores_the_list() {
    let mut channel = Channel::new_topic("t".to_string());
    channel.add_participant("a".to_string());
    channel.add_participant("b".to_string());
    let before = channel.participants.clone();
    channel.add_participant("c".to_string());
    channel.remove_participant("c");
    assert_eq!(channel.participants, before);
    assert_ne!(
        Channel::get_private_channel_id("ab", "c"),
        Channel::get_private_channel_id("a", "bc")
    );
}
