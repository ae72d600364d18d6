use conversations::codec::{decode, encode};
use conversations::error::ChatError;
use conversations::instruction::{process_instruction, ChatInstruction, ChatMessageUser};
use conversations::processor::{
    process_create_conversation, process_reset_conversation, process_store_message,
    process_update_content_summary, store_conversation,
};
use conversations::state::{Address, Conversation, Conversations, Message, MessageType};

type WireMessage = (u8, String, Option<String>, Option<String>);

fn owner() -> Address {
    Address::new([3u8; 32])
}

fn program() -> Address {
    Address::new([5u8; 32])
}

fn create_payload(messages: Option<Vec<WireMessage>>) -> Vec<u8> {
    borsh::to_vec(&(
        0u8,
        owner().to_bytes(),
        "Test description".to_string(),
        vec!["test".to_string()],
        messages,
    ))
    .unwrap()
}

#[test]
fn unpack_create_conversation() {
    let payload = create_payload(Some(vec![(1u8, "hi".to_string(), None, Some("d".to_string()))]));
    assert_eq!(
        ChatInstruction::unpack(&payload),
        Some(ChatInstruction::CreateConversation {
            wallet_address: owner(),
            description: "Test description".into(),
            content_summary: vec!["test".into()],
            initial_messages: Some(vec![Message {
                sender: MessageType::Chat,
                text: "hi".into(),
                image_url: None,
                image_description: Some("d".into()),
            }]),
        })
    );
}

#[test]
fn unpack_store_message_and_reset() {
    let store = borsh::to_vec(&(1u8, 0u8, "text".to_string(), Some("u".to_string()), None::<String>))
        .unwrap();
    assert_eq!(
        ChatInstruction::unpack(&store),
        Some(ChatInstruction::StoreMessage {
            user: ChatMessageUser::User,
            text: "text".into(),
            image_url: Some("u".into()),
            image_description: None,
        })
    );
    let reset = borsh::to_vec(&(2u8, owner().to_bytes(), 2u8)).unwrap();
    assert_eq!(
        ChatInstruction::unpack(&reset),
        Some(ChatInstruction::ResetConversation { wallet_address: owner(), id: 2 })
    );
}

#[test]
fn unpack_refuses_malformed_payloads() {
    assert_eq!(ChatInstruction::unpack(&[]), None);
    assert_eq!(ChatInstruction::unpack(&[3]), None);
    assert_eq!(ChatInstruction::unpack(&[2, 0, 0]), None);
    let mut payload = create_payload(None);
    payload.push(0);
    assert_eq!(ChatInstruction::unpack(&payload), None);
    let cut = create_payload(None);
    assert_eq!(ChatInstruction::unpack(&cut[..cut.len() - 1]), None);
}

#[test]
fn create_conversation_fills_the_first_slot() {
    let (location, _) = conversations::address::derive(&owner(), &program()).unwrap();
    let data = encode(&Conversations::new(3)).unwrap();
    let out = process_instruction(
        &program(),
        &location,
        &program(),
        &data,
        &create_payload(None),
        1625097600,
    )
    .unwrap()
    .unwrap();
    let store = decode(&out).unwrap();
    assert_eq!(store.active_conversations, 1);
    assert_eq!(store.max_conversations, 3);
    assert_eq!(
        store.conversations[0],
        Some(Conversation {
            wallet_address: owner(),
            date_created: 1625097600,
            messages: vec![],
            content_summary: vec!["test".into()],
            description: "Test description".into(),
        })
    );
    assert_eq!(store.conversations[1], None);
    assert_eq!(store.conversations[2], None);
}

#[test]
fn create_conversation_at_another_location_is_refused() {
    let data = encode(&Conversations::new(3)).unwrap();
    let before = data.clone();
    let elsewhere = Address::new([8u8; 32]);
    assert_eq!(
        process_instruction(&program(), &elsewhere, &program(), &data, &create_payload(None), 1),
        Err(ChatError::AddressMismatch)
    );
    assert_eq!(data, before);
}

#[test]
fn create_conversation_under_another_authority_is_refused() {
    let (location, _) = conversations::address::derive(&owner(), &program()).unwrap();
    let data = encode(&Conversations::new(3)).unwrap();
    assert_eq!(
        process_instruction(&program(), &location, &owner(), &data, &create_payload(None), 1),
        Err(ChatError::AuthorityMismatch)
    );
}

#[test]
fn create_conversation_in_a_full_store_is_refused() {
    let (location, _) = conversations::address::derive(&owner(), &program()).unwrap();
    let mut data = encode(&Conversations::new(1)).unwrap();
    data = process_instruction(&program(), &location, &program(), &data, &create_payload(None), 1)
        .unwrap()
        .unwrap();
    assert_eq!(
        process_instruction(&program(), &location, &program(), &data, &create_payload(None), 2),
        Err(ChatError::CapacityError)
    );
}

#[test]
fn create_conversation_in_an_empty_account_fills_the_first_slot() {
    let (location, _) = conversations::address::derive(&owner(), &program()).unwrap();
    let out = process_instruction(&program(), &location, &program(), &[], &create_payload(None), 7)
        .unwrap()
        .unwrap();
    let mut expected = Conversations::new(3);
    expected
        .add_conversation(Conversation {
            wallet_address: owner(),
            date_created: 7,
            messages: vec![],
            content_summary: vec!["test".into()],
            description: "Test description".into(),
        })
        .unwrap();
    assert_eq!(out, encode(&expected).unwrap());
    let store = decode(&out).unwrap();
    assert_eq!(store.active_conversations, 1);
    assert_eq!(store.max_conversations, 3);
    assert!(store.conversations[0].is_some());
    assert_eq!(store.conversations[1], None);
    assert_eq!(store.conversations[2], None);
}

#[test]
fn create_conversation_on_malformed_data_is_refused() {
    let (location, _) = conversations::address::derive(&owner(), &program()).unwrap();
    assert_eq!(
        process_instruction(&program(), &location, &program(), &[1, 2, 3], &create_payload(None), 1),
        Err(ChatError::InvalidAccountData)
    );
}

#[test]
fn unknown_command_is_refused() {
    let (location, _) = conversations::address::derive(&owner(), &program()).unwrap();
    let data = encode(&Conversations::new(3)).unwrap();
    assert_eq!(
        process_instruction(&program(), &location, &program(), &data, &[9, 9, 9], 1),
        Err(ChatError::InvalidInstructionData)
    );
}

#[test]
fn other_commands_persist_nothing() {
    let data = encode(&Conversations::new(3)).unwrap();
    let reset = borsh::to_vec(&(2u8, owner().to_bytes(), 0u8)).unwrap();
    assert_eq!(
        process_instruction(&program(), &owner(), &owner(), &data, &reset, 1),
        Ok(None)
    );
    let store = borsh::to_vec(&(1u8, 1u8, "t".to_string(), None::<String>, None::<String>)).unwrap();
    assert_eq!(
        process_instruction(&program(), &owner(), &owner(), &data, &store, 1),
        Ok(None)
    );
    assert_eq!(process_reset_conversation(), Ok(()));
    assert_eq!(process_store_message(), Ok(()));
    assert_eq!(process_update_content_summary(), Ok(()));
}

#[test]
fn store_conversation_on_a_given_location() {
    let location = Address::new([6u8; 32]);
    let conv = Conversation {
        wallet_address: owner(),
        date_created: 5,
        messages: vec![],
        content_summary: vec![],
        description: "d".into(),
    };
    let data = encode(&Conversations::new(2)).unwrap();
    let out = store_conversation(
        &Some((location, 254)),
        &program(),
        &location,
        &program(),
        &data,
        conv.clone(),
    )
    .unwrap();
    let mut expected = Conversations::new(2);
    expected.add_conversation(conv.clone()).unwrap();
    assert_eq!(out, encode(&expected).unwrap());
    assert_eq!(
        store_conversation(&None, &program(), &location, &program(), &data, conv.clone()),
        Err(ChatError::AddressMismatch)
    );
    let (derived, _) = conversations::address::derive(&owner(), &program()).unwrap();
    assert_eq!(
        process_create_conversation(&program(), &derived, &program(), &data, conv, &owner()),
        Ok(encode(&expected).unwrap())
    );
}
