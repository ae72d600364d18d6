use conversations::error::ChatError;
use conversations::state::{Address, Conversation, Conversations, Message, MessageType};
use solana_program::pubkey::Pubkey;

fn conversation(date_created: u64, summary: &str, description: &str) -> Conversation {
    Conversation {
        wallet_address: Address::new(Pubkey::new_unique().to_bytes()),
        date_created,
        messages: vec![],
        content_summary: vec![summary.into()],
        description: description.into(),
    }
}

#[test]
fn test_conversation_addition() {
    let mut conversations = Conversations::new(3);
    let conv = Conversation {
        wallet_address: Address::new(Pubkey::new_unique().to_bytes()),
        date_created: 1625097600,
        messages: vec![],
        content_summary: vec!["test".into()],
        description: "Test description".into(),
    };

    assert_eq!(conversations.active_conversations, 0);
    assert!(conversations.add_conversation(conv.clone()).is_ok());
    assert_eq!(conversations.active_conversations, 1);
    assert!(conversations.is_initialized());
}

#[test]
fn test_conversation_removal() {
    let mut conversations = Conversations::new(3);
    let conv = Conversation {
        wallet_address: Address::new(Pubkey::new_unique().to_bytes()),
        date_created: 1625097600,
        messages: vec![],
        content_summary: vec!["test".into()],
        description: "Test description".into(),
    };

    conversations.add_conversation(conv).unwrap();
    assert_eq!(conversations.active_conversations, 1);

    assert!(conversations.remove_conversation(0).is_ok());
    assert_eq!(conversations.active_conversations, 0);
}

#[test]
fn test_full_capacity() {
    let mut conversations = Conversations::new(1);
    let conv1 = Conversation {
        wallet_address: Address::new(Pubkey::new_unique().to_bytes()),
        date_created: 1625097600,
        messages: vec![],
        content_summary: vec!["test1".into()],
        description: "Test description 1".into(),
    };

    let conv2 = Conversation {
        wallet_address: Address::new(Pubkey::new_unique().to_bytes()),
        date_created: 1625097601,
        messages: vec![],
        content_summary: vec!["test2".into()],
        description: "Test description 2".into(),
    };

    conversations.add_conversation(conv1).unwrap();
    assert_eq!(conversations.add_conversation(conv2).is_err(), true);
    assert_eq!(conversations.active_conversations, 1);
}

#[test]
fn new_store_is_empty_and_well_formed() {
    let store = Conversations::new(3);
    assert_eq!(store.conversations.len(), 3);
    assert!(store.conversations.iter().all(|s| s.is_none()));
    assert_eq!(store.max_conversations, 3);
    assert_eq!(store.active_conversations, 0);
    assert!(store.is_well_formed());
    assert!(!store.is_full());
    assert!(store.is_initialized());
}

#[test]
fn add_takes_the_lowest_empty_slot() {
    let mut store = Conversations::new(3);
    let a = conversation(1, "a", "first");
    let b = conversation(2, "b", "second");
    let c = conversation(3, "c", "third");
    assert_eq!(store.add_conversation(a.clone()), Ok(()));
    assert_eq!(store.conversations[0], Some(a.clone()));
    assert_eq!(store.conversations[1], None);
    assert_eq!(store.add_conversation(b.clone()), Ok(()));
    assert_eq!(store.conversations[1], Some(b.clone()));
    assert_eq!(store.remove_conversation(0), Ok(()));
    assert_eq!(store.conversations[0], None);
    assert_eq!(store.active_conversations, 1);
    assert_eq!(store.add_conversation(c.clone()), Ok(()));
    assert_eq!(store.conversations[0], Some(c));
    assert_eq!(store.conversations[1], Some(b));
    assert_eq!(store.conversations[2], None);
    assert_eq!(store.active_conversations, 2);
    assert!(store.is_well_formed());
}

#[test]
fn counter_follows_the_slots() {
    let mut store = Conversations::new(2);
    for round in 0..3u64 {
        assert!(store.add_conversation(conversation(round, "s", "d")).is_ok());
        assert!(store.is_well_formed());
        assert!(store.add_conversation(conversation(round, "s", "d")).is_ok());
        assert!(store.is_well_formed());
        assert!(store.is_full());
        assert_eq!(
            store.add_conversation(conversation(round, "s", "d")),
            Err(ChatError::CapacityError)
        );
        assert!(store.is_well_formed());
        assert!(store.remove_conversation(1).is_ok());
        assert!(store.remove_conversation(0).is_ok());
        assert!(store.is_well_formed());
        let occupied = store.conversations.iter().filter(|s| s.is_some()).count();
        assert_eq!(store.active_conversations, occupied);
        assert!(store.active_conversations <= store.max_conversations);
    }
}

#[test]
fn remove_twice_fails_the_second_time() {
    let mut store = Conversations::new(3);
    store.add_conversation(conversation(7, "s", "d")).unwrap();
    assert_eq!(store.remove_conversation(0), Ok(()));
    assert_eq!(store.active_conversations, 0);
    assert!(store.conversations[0].is_none());
    assert_eq!(store.remove_conversation(0), Err(ChatError::InvalidIndexError));
    assert_eq!(store.active_conversations, 0);
}

#[test]
fn remove_out_of_bounds_fails() {
    let mut store = Conversations::new(3);
    store.add_conversation(conversation(7, "s", "d")).unwrap();
    let before = store.clone();
    assert_eq!(store.remove_conversation(3), Err(ChatError::InvalidIndexError));
    assert_eq!(store.remove_conversation(1), Err(ChatError::InvalidIndexError));
    assert_eq!(store, before);
}

#[test]
fn store_without_capacity_refuses() {
    let mut store = Conversations::new(0);
    assert!(!store.is_initialized());
    assert!(store.is_full());
    assert_eq!(
        store.add_conversation(conversation(1, "s", "d")),
        Err(ChatError::CapacityError)
    );
    assert_eq!(store.active_conversations, 0);
}

#[test]
fn full_store_is_unchanged_by_a_refused_add() {
    let mut store = Conversations::new(1);
    store.add_conversation(conversation(1, "s", "d")).unwrap();
    let before = store.clone();
    assert_eq!(
        store.add_conversation(conversation(2, "t", "e")),
        Err(ChatError::CapacityError)
    );
    assert_eq!(store, before);
}

#[test]
fn empty_buffer_is_a_fresh_store() {
    let store = Conversations::from_account_info(&[]).unwrap();
    assert_eq!(store.max_conversations, 3);
    assert_eq!(store.active_conversations, 0);
    assert_eq!(store.conversations.len(), 3);
    assert!(store.conversations.iter().all(|s| s.is_none()));
    assert!(store.is_initialized());
    assert!(!store.is_full());
    assert!(store.is_well_formed());
    assert_eq!(store, Conversations::new(3));
}

#[test]
fn first_add_after_an_empty_buffer_fills_slot_zero() {
    let mut store = Conversations::from_account_info(&[]).unwrap();
    let conv = Conversation {
        wallet_address: Address::new([1u8; 32]),
        date_created: 1625097600,
        messages: vec![],
        content_summary: vec![],
        description: String::new(),
    };
    assert_eq!(store.add_conversation(conv.clone()), Ok(()));
    assert_eq!(store.active_conversations, 1);
    assert_eq!(store.conversations[0], Some(conv));
    assert_eq!(store.conversations[1], None);
    assert_eq!(store.conversations[2], None);
    assert!(store.is_well_formed());
}

#[test]
fn inconsistent_store_is_not_well_formed() {
    let mut store = Conversations::new(2);
    store.add_conversation(conversation(1, "s", "d")).unwrap();
    store.active_conversations = 2;
    assert!(!store.is_well_formed());
    store.active_conversations = 1;
    assert!(store.is_well_formed());
    store.max_conversations = 5;
    assert!(!store.is_well_formed());
}

#[test]
fn addresses_compare_by_bytes() {
    let a = Address::new([7u8; 32]);
    let mut other = [7u8; 32];
    assert!(a.same_as(&Address::new(other)));
    other[31] = 8;
    assert!(!a.same_as(&Address::new(other)));
    assert_eq!(a.to_bytes(), [7u8; 32]);
}

#[test]
fn messages_keep_their_fields() {
    let m = Message {
        sender: MessageType::Chat,
        text: "hello".into(),
        image_url: Some("u".into()),
        image_description: None,
    };
    assert_eq!(m.clone(), m);
    assert_ne!(m.sender, MessageType::User);
}
