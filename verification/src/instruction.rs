//! The commands, their payload and their dispatch.

use vstd::prelude::*;
use crate::address::program_address;
use crate::codec::{read_address, read_messages, read_opt_text, read_text, read_texts, read_u8};
use crate::error::ChatError;
use crate::layout::{
    complete, message_parser, parse_address, parse_list, parse_opt_text, parse_text, parse_u8,
    text_parser,
};
use crate::processor::{
    create_outcome, process_create_conversation, process_reset_conversation,
    process_store_message,
};
use crate::state::{
    Address, Conversation, ConversationView, Message, MessageView, messages_view, text_view,
    texts_view,
};

verus! {

/// Who sends a message that is to be stored.
#[derive(Clone, Copy, Debug, PartialEq, Eq, Structural)]
pub enum ChatMessageUser {
    User,
    Chat,
}

/// A command, as its payload spells it.
#[derive(Clone, Debug, PartialEq, Eq)]
pub enum ChatInstruction {
    /// Starts a new conversation.
    CreateConversation {
        wallet_address: Address,
        description: String,
        content_summary: Vec<String>,
        initial_messages: Option<Vec<Message>>,
    },
    /// Stores a new message in a conversation.
    StoreMessage {
        user: ChatMessageUser,
        text: String,
        image_url: Option<String>,
        image_description: Option<String>,
    },
    /// Empties one slot.
    ResetConversation { wallet_address: Address, id: u8 },
}

/// The mathematical value of a command.
pub enum ChatInstructionView {
    CreateConversation {
        wallet_address: Seq<u8>,
        description: Seq<char>,
        content_summary: Seq<Seq<char>>,
        initial_messages: Option<Seq<MessageView>>,
    },
    StoreMessage {
        user: ChatMessageUser,
        text: Seq<char>,
        image_url: Option<Seq<char>>,
        image_description: Option<Seq<char>>,
    },
    ResetConversation { wallet_address: Seq<u8>, id: u8 },
}

/// The values of optional messages.
pub open spec fn opt_messages_view(o: Option<Vec<Message>>) -> Option<Seq<MessageView>> {
    match o {
        Some(v) => Some(messages_view(v@)),
        None => None,
    }
}

impl View for ChatInstruction {
    type V = ChatInstructionView;

    open spec fn view(&self) -> ChatInstructionView {
        match *self {
            ChatInstruction::CreateConversation {
                wallet_address,
                description,
                content_summary,
                initial_messages,
            } => ChatInstructionView::CreateConversation {
                wallet_address: wallet_address@,
                description: description@,
                content_summary: texts_view(content_summary@),
                initial_messages: opt_messages_view(initial_messages),
            },
            ChatInstruction::StoreMessage {
                user,
                text,
                image_url,
                image_description,
            } => ChatInstructionView::StoreMessage {
                user,
                text: text@,
                image_url: text_view(image_url),
                image_description: text_view(image_description),
            },
            ChatInstruction::ResetConversation {
                wallet_address,
                id,
            } => ChatInstructionView::ResetConversation { wallet_address: wallet_address@, id },
        }
    }
}

/// Reads a sender's byte, which must be 0 or 1.
pub open spec fn parse_user(b: Seq<u8>) -> Option<(ChatMessageUser, Seq<u8>)> {
    match parse_u8(b) {
        Some((tag, rest)) => if tag == 0 {
            Some((ChatMessageUser::User, rest))
        } else if tag == 1 {
            Some((ChatMessageUser::Chat, rest))
        } else {
            None
        },
        None => None,
    }
}

/// Reads a tag that must be 0 or 1 and, after 1, a sequence of messages.
pub open spec fn parse_opt_messages(b: Seq<u8>) -> Option<(Option<Seq<MessageView>>, Seq<u8>)> {
    match parse_u8(b) {
        Some((tag, rest)) => if tag == 0 {
            Some((None, rest))
        } else if tag == 1 {
            match parse_list(rest, message_parser()) {
                Some((v, rest2)) => Some((Some(v), rest2)),
                None => None,
            }
        } else {
            None
        },
        None => None,
    }
}

/// Reads the fields of a create command.
pub open spec fn parse_create(b: Seq<u8>) -> Option<(ChatInstructionView, Seq<u8>)> {
    match parse_address(b) {
        Some((wallet_address, r1)) => match parse_text(r1) {
            Some((description, r2)) => match parse_list(r2, text_parser()) {
                Some((content_summary, r3)) => match parse_opt_messages(r3) {
                    Some((initial_messages, r4)) => Some(
                        (
                            ChatInstructionView::CreateConversation {
                                wallet_address,
                                description,
                                content_summary,
                                initial_messages,
                            },
                            r4,
                        ),
                    ),
                    None => None,
                },
                None => None,
            },
            None => None,
        },
        None => None,
    }
}

/// Reads the fields of a store-message command.
pub open spec fn parse_store_message(b: Seq<u8>) -> Option<(ChatInstructionView, Seq<u8>)> {
    match parse_user(b) {
        Some((user, r1)) => match parse_text(r1) {
            Some((text, r2)) => match parse_opt_text(r2) {
                Some((image_url, r3)) => match parse_opt_text(r3) {
                    Some((image_description, r4)) => Some(
                        (
                            ChatInstructionView::StoreMessage {
                                user,
                                text,
                                image_url,
                                image_description,
                            },
                            r4,
                        ),
                    ),
                    None => None,
                },
                None => None,
            },
            None => None,
        },
        None => None,
    }
}

/// Reads the fields of a reset command.
pub open spec fn parse_reset(b: Seq<u8>) -> Option<(ChatInstructionView, Seq<u8>)> {
    match parse_address(b) {
        Some((wallet_address, r1)) => match parse_u8(r1) {
            Some((id, r2)) => Some(
                (ChatInstructionView::ResetConversation { wallet_address, id }, r2),
            ),
            None => None,
        },
        None => None,
    }
}

/// The command that a payload holds: a tag byte, the fields of the command
/// it names, and nothing after them.
pub open spec fn instruction_spec(b: Seq<u8>) -> Option<ChatInstructionView> {
    match parse_u8(b) {
        Some((tag, rest)) => complete(
            if tag == 0 {
                parse_create(rest)
            } else if tag == 1 {
                parse_store_message(rest)
            } else if tag == 2 {
                parse_reset(rest)
            } else {
                None
            },
        ),
        None => None,
    }
}

fn read_user(buf: &[u8], pos: usize) -> (r: Option<(ChatMessageUser, usize)>)
    requires
        pos <= buf@.len(),
    ensures
        match parse_user(buf@.skip(pos as int)) {
            Some((v, rest)) => r matches Some(t) && t.0 == v && t.1 <= buf@.len() && buf@.skip(
                t.1 as int,
            ) == rest,
            None => r is None,
        },
{
    match read_u8(buf, pos) {
        None => None,
        Some((tag, p)) => {
            if tag == 0 {
                Some((ChatMessageUser::User, p))
            } else if tag == 1 {
                Some((ChatMessageUser::Chat, p))
            } else {
                None
            }
        },
    }
}

fn read_opt_messages(buf: &[u8], pos: usize) -> (r: Option<(Option<Vec<Message>>, usize)>)
    requires
        pos <= buf@.len(),
    ensures
        match parse_opt_messages(buf@.skip(pos as int)) {
            Some((v, rest)) => r matches Some(t) && opt_messages_view(t.0) == v && t.1
                <= buf@.len() && buf@.skip(t.1 as int) == rest,
            None => r is None,
        },
{
    match read_u8(buf, pos) {
        None => None,
        Some((tag, p)) => {
            if tag == 0 {
                Some((None, p))
            } else if tag == 1 {
                match read_messages(buf, p) {
                    Some((v, p2)) => Some((Some(v), p2)),
                    None => None,
                }
            } else {
                None
            }
        },
    }
}

fn read_create(buf: &[u8], pos: usize) -> (r: Option<(ChatInstruction, usize)>)
    requires
        pos <= buf@.len(),
    ensures
        match parse_create(buf@.skip(pos as int)) {
            Some((v, rest)) => r matches Some(t) && t.0@ == v && t.1 <= buf@.len() && buf@.skip(
                t.1 as int,
            ) == rest,
            None => r is None,
        },
{
    let (wallet_address, p1) = match read_address(buf, pos) {
        Some(t) => t,
        None => { return None; },
    };
    let (description, p2) = match read_text(buf, p1) {
        Some(t) => t,
        None => { return None; },
    };
    let (content_summary, p3) = match read_texts(buf, p2) {
        Some(t) => t,
        None => { return None; },
    };
    let (initial_messages, p4) = match read_opt_messages(buf, p3) {
        Some(t) => t,
        None => { return None; },
    };
    Some(
        (
            ChatInstruction::CreateConversation {
                wallet_address,
                description,
                content_summary,
                initial_messages,
            },
            p4,
        ),
    )
}

fn read_store_message(buf: &[u8], pos: usize) -> (r: Option<(ChatInstruction, usize)>)
    requires
        pos <= buf@.len(),
    ensures
        match parse_store_message(buf@.skip(pos as int)) {
            Some((v, rest)) => r matches Some(t) && t.0@ == v && t.1 <= buf@.len() && buf@.skip(
                t.1 as int,
            ) == rest,
            None => r is None,
        },
{
    let (user, p1) = match read_user(buf, pos) {
        Some(t) => t,
        None => { return None; },
    };
    let (text, p2) = match read_text(buf, p1) {
        Some(t) => t,
        None => { return None; },
    };
    let (image_url, p3) = match read_opt_text(buf, p2) {
        Some(t) => t,
        None => { return None; },
    };
    let (image_description, p4) = match read_opt_text(buf, p3) {
        Some(t) => t,
        None => { return None; },
    };
    Some((ChatInstruction::StoreMessage { user, text, image_url, image_description }, p4))
}

fn read_reset(buf: &[u8], pos: usize) -> (r: Option<(ChatInstruction, usize)>)
    requires
        pos <= buf@.len(),
    ensures
        match parse_reset(buf@.skip(pos as int)) {
            Some((v, rest)) => r matches Some(t) && t.0@ == v && t.1 <= buf@.len() && buf@.skip(
                t.1 as int,
            ) == rest,
            None => r is None,
        },
{
    let (wallet_address, p1) = match read_address(buf, pos) {
        Some(t) => t,
        None => { return None; },
    };
    let (id, p2) = match read_u8(buf, p1) {
        Some(t) => t,
        None => { return None; },
    };
    Some((ChatInstruction::ResetConversation { wallet_address, id }, p2))
}

impl ChatInstruction {
    /// The command that a payload holds. There is none where the tag is
    /// unknown, a field is malformed or cut short, or bytes are left over.
    pub fn unpack(payload: &[u8]) -> (r: Option<ChatInstruction>)
        ensures
            match instruction_spec(payload@) {
                Some(v) => r matches Some(i) && i@ == v,
                None => r is None,
            },
    {
        assert(payload@.skip(0) =~= payload@);
        let (tag, p) = match read_u8(payload, 0) {
            Some(t) => t,
            None => { return None; },
        };
        let body = if tag == 0 {
            read_create(payload, p)
        } else if tag == 1 {
            read_store_message(payload, p)
        } else if tag == 2 {
            read_reset(payload, p)
        } else {
            None
        };
        match body {
            Some((instruction, end)) => {
                if end == payload.len() {
                    Some(instruction)
                } else {
                    None
                }
            },
            None => None,
        }
    }
}

/// The conversation that a create command asks for, made at the time `now`.
pub open spec fn new_conversation_spec(
    wallet_address: Seq<u8>,
    description: Seq<char>,
    content_summary: Seq<Seq<char>>,
    initial_messages: Option<Seq<MessageView>>,
    now: u64,
) -> ConversationView {
    ConversationView {
        wallet_address,
        date_created: now,
        messages: match initial_messages {
            Some(m) => m,
            None => Seq::empty(),
        },
        content_summary,
        description,
    }
}

/// What an invocation comes to: the bytes to persist, if the command
/// changes the store, or the failure that ends it.
pub open spec fn instruction_outcome(
    program: Seq<u8>,
    location: Seq<u8>,
    authority: Seq<u8>,
    data: Seq<u8>,
    payload: Seq<u8>,
    now: u64,
) -> Result<Option<Seq<u8>>, ChatError> {
    match instruction_spec(payload) {
        None => Err(ChatError::InvalidInstructionData),
        Some(
            ChatInstructionView::CreateConversation {
                wallet_address,
                description,
                content_summary,
                initial_messages,
            },
        ) => match create_outcome(
            program_address(wallet_address, program),
            program,
            location,
            authority,
            data,
            new_conversation_spec(
                wallet_address,
                description,
                content_summary,
                initial_messages,
                now,
            ),
        ) {
            Ok(bytes) => Ok(Some(bytes)),
            Err(e) => Err(e),
        },
        Some(_) => Ok(None),
    }
}

/// Decodes the payload and carries the command out on the account at
/// `account_key`, controlled by `account_owner` and holding `account_data`.
/// Returns the bytes to persist in the account, if any.
pub fn process_instruction(
    program_id: &Address,
    account_key: &Address,
    account_owner: &Address,
    account_data: &[u8],
    instruction_data: &[u8],
    now: u64,
) -> (r: Result<Option<Vec<u8>>, ChatError>)
    ensures
        match instruction_outcome(
            program_id@,
            account_key@,
            account_owner@,
            account_data@,
            instruction_data@,
            now,
        ) {
            Ok(Some(bytes)) => r matches Ok(Some(b)) && b@ == bytes,
            Ok(None) => r matches Ok(None),
            Err(e) => r matches Err(x) && x == e,
        },
{
    let instruction = match ChatInstruction::unpack(instruction_data) {
        Some(i) => i,
        None => {
            return Err(ChatError::InvalidInstructionData);
        },
    };
    match instruction {
        ChatInstruction::CreateConversation {
            wallet_address,
            description,
            content_summary,
            initial_messages,
        } => {
            let messages = match initial_messages {
                Some(m) => m,
                None => Vec::new(),
            };
            assert(initial_messages is None ==> messages_view(messages@) =~= Seq::empty());
            let new_conversation = Conversation {
                wallet_address,
                date_created: now,
                messages,
                content_summary,
                description,
            };
            match process_create_conversation(
                program_id,
                account_key,
                account_owner,
                account_data,
                new_conversation,
                &wallet_address,
            ) {
                Ok(bytes) => Ok(Some(bytes)),
                Err(e) => Err(e),
            }
        },
        ChatInstruction::StoreMessage { .. } => {
            match process_store_message() {
                Ok(_) => Ok(None),
                Err(e) => Err(e),
            }
        },
        ChatInstruction::ResetConversation { .. } => {
            match process_reset_conversation() {
                Ok(_) => Ok(None),
                Err(e) => Err(e),
            }
        },
    }
}

} // verus!
