//! The handlers of the commands.

use vstd::prelude::*;
use crate::address::{check_account, program_address, validation};
use crate::codec::encode;
use crate::error::ChatError;
use crate::layout::{enc_store, encodable};
use crate::state::{
    Address, Conversation, ConversationView, Conversations, ConversationsView,
    DEFAULT_MAX_CONVERSATIONS, first_empty, fresh_store, lemma_first_empty_views, load_spec,
    slots_view,
};

verus! {

/// The store with `c` in its lowest empty slot; `None` where the counter has
/// reached the capacity or no slot is empty.
pub open spec fn add_spec(v: ConversationsView, c: ConversationView) -> Option<ConversationsView> {
    let i = first_empty(v.conversations);
    if v.active_conversations < v.max_conversations && i < v.conversations.len() {
        Some(
            ConversationsView {
                conversations: v.conversations.update(i, Some(c)),
                max_conversations: v.max_conversations,
                active_conversations: (v.active_conversations + 1) as usize,
            },
        )
    } else {
        None
    }
}

/// What creating a conversation comes to, given the derived location: the
/// bytes to persist, or the first failure among validation, buffer, capacity and
/// encoding.
pub open spec fn create_outcome(
    derived: Option<(Seq<u8>, u8)>,
    program: Seq<u8>,
    location: Seq<u8>,
    authority: Seq<u8>,
    data: Seq<u8>,
    c: ConversationView,
) -> Result<Seq<u8>, ChatError> {
    match validation(derived, program, location, authority) {
        Err(e) => Err(e),
        Ok(_) => match load_spec(data) {
            Err(e) => Err(e),
            Ok(v) => match add_spec(v, c) {
                None => Err(ChatError::CapacityError),
                Some(w) => if encodable(w) {
                    Ok(enc_store(w))
                } else {
                    Err(ChatError::EncodingError)
                },
            },
        },
    }
}

/// The first conversation of a fresh store goes into slot 0: the other
/// slots stay empty and the counter is 1.
pub proof fn lemma_first_add(c: ConversationView)
    ensures
        add_spec(fresh_store(), c) == Some(
            ConversationsView {
                conversations: fresh_store().conversations.update(0, Some(c)),
                max_conversations: DEFAULT_MAX_CONVERSATIONS,
                active_conversations: 1,
            },
        ),
{
    let slots = fresh_store().conversations;
    assert(slots.len() == 3);
    assert(slots[0] is None);
}

/// The value of a derived location.
pub open spec fn derived_view(derived: Option<(Address, u8)>) -> Option<(Seq<u8>, u8)> {
    match derived {
        Some(t) => Some((t.0@, t.1)),
        None => None,
    }
}

/// Whether the result `r` is the outcome `expected`.
pub open spec fn gives(r: Result<Vec<u8>, ChatError>, expected: Result<Seq<u8>, ChatError>) -> bool {
    match expected {
        Ok(bytes) => r matches Ok(b) && b@ == bytes,
        Err(e) => r matches Err(x) && x == e,
    }
}

/// Creates a conversation in the store of an account whose location was
/// already derived: validates the account, loads the store from the account's
/// bytes, adds the conversation and returns the bytes to persist. On any
/// failure nothing is returned to persist.
pub fn store_conversation(
    derived: &Option<(Address, u8)>,
    program_id: &Address,
    account_key: &Address,
    account_owner: &Address,
    account_data: &[u8],
    new_conversation: Conversation,
) -> (r: Result<Vec<u8>, ChatError>)
    ensures
        gives(
            r,
            create_outcome(
                derived_view(*derived),
                program_id@,
                account_key@,
                account_owner@,
                account_data@,
                new_conversation@,
            ),
        ),
{
    match check_account(derived, program_id, account_key, account_owner) {
        Err(e) => {
            return Err(e);
        },
        Ok(_) => {},
    }
    let mut user_data = match Conversations::from_account_info(account_data) {
        Ok(s) => s,
        Err(e) => {
            return Err(e);
        },
    };
    let ghost before = user_data;
    proof {
        lemma_first_empty_views(before.conversations@);
    }
    match user_data.add_conversation(new_conversation) {
        Err(e) => {
            return Err(e);
        },
        Ok(_) => {},
    }
    assert(slots_view(user_data.conversations@) =~= slots_view(before.conversations@).update(
        first_empty(before.conversations@),
        Some(new_conversation@),
    ));
    match encode(&user_data) {
        Some(bytes) => Ok(bytes),
        None => Err(ChatError::EncodingError),
    }
}

/// Creates a conversation for `user_wallet_address` in the account at
/// `account_key`, which `account_owner` controls and which holds
/// `account_data`.
pub fn process_create_conversation(
    program_id: &Address,
    account_key: &Address,
    account_owner: &Address,
    account_data: &[u8],
    new_conversation: Conversation,
    user_wallet_address: &Address,
) -> (r: Result<Vec<u8>, ChatError>)
    ensures
        gives(
            r,
            create_outcome(
                program_address(user_wallet_address@, program_id@),
                program_id@,
                account_key@,
                account_owner@,
                account_data@,
                new_conversation@,
            ),
        ),
{
    let derived = crate::address::derive(user_wallet_address, program_id);
    store_conversation(
        &derived,
        program_id,
        account_key,
        account_owner,
        account_data,
        new_conversation,
    )
}

/// Resetting a conversation changes nothing yet.
pub fn process_reset_conversation() -> (r: Result<(), ChatError>)
    ensures
        r is Ok,
{
    Ok(())
}

/// Storing a message changes nothing yet.
pub fn process_store_message() -> (r: Result<(), ChatError>)
    ensures
        r is Ok,
{
    Ok(())
}

/// Updating the content summary changes nothing yet.
pub fn process_update_content_summary() -> (r: Result<(), ChatError>)
    ensures
        r is Ok,
{
    Ok(())
}

} // verus!
