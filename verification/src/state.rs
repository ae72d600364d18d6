//! The data model and the slot store.

use vstd::prelude::*;
use crate::codec::decode;
use crate::error::ChatError;
use crate::layout::{decode_spec, enc_store, encodable, lemma_round_trip};

verus! {

/// The capacity of a store that is made for a buffer with nothing in it.
pub const DEFAULT_MAX_CONVERSATIONS: usize = 3;

/// A 32-byte identity: an owner, a program or a storage location.
#[derive(Clone, Copy, Debug, PartialEq, Eq)]
pub struct Address {
    pub bytes: [u8; 32],
}

impl View for Address {
    type V = Seq<u8>;

    open spec fn view(&self) -> Seq<u8> {
        self.bytes@
    }
}

impl Address {
    /// The address of these bytes.
    pub fn new(bytes: [u8; 32]) -> (r: Address)
        ensures
            r.bytes == bytes,
            r@ == bytes@,
    {
        Address { bytes }
    }

    /// The bytes of the address.
    pub fn to_bytes(&self) -> (r: [u8; 32])
        ensures
            r == self.bytes,
    {
        self.bytes
    }

    /// Byte-wise equality of two addresses.
    pub fn same_as(&self, other: &Address) -> (r: bool)
        ensures
            r == (self@ == other@),
    {
        let mut i: usize = 0;
        while i < 32
            invariant
                i <= 32,
                forall|j: int| 0 <= j < i ==> self.bytes@[j] == other.bytes@[j],
            decreases 32 - i,
        {
            if self.bytes[i] != other.bytes[i] {
                return false;
            }
            i += 1;
        }
        assert(self.bytes@ =~= other.bytes@);
        true
    }
}

/// Who wrote a message.
#[derive(Clone, Copy, Debug, PartialEq, Eq, Structural)]
pub enum MessageType {
    User,
    Chat,
}

/// One message of a conversation.
#[derive(Clone, Debug, PartialEq, Eq)]
pub struct Message {
    pub sender: MessageType,
    pub text: String,
    pub image_url: Option<String>,
    pub image_description: Option<String>,
}

/// One conversation: its owner, the time it was made, and what was said.
#[derive(Clone, Debug, PartialEq, Eq)]
pub struct Conversation {
    pub wallet_address: Address,
    pub date_created: u64,
    pub messages: Vec<Message>,
    pub content_summary: Vec<String>,
    pub description: String,
}

/// The slot array of one owner.
#[derive(Clone, Debug, PartialEq, Eq)]
pub struct Conversations {
    pub conversations: Vec<Option<Conversation>>,
    pub max_conversations: usize,
    pub active_conversations: usize,
}

/// The mathematical value of a message.
pub struct MessageView {
    pub sender: MessageType,
    pub text: Seq<char>,
    pub image_url: Option<Seq<char>>,
    pub image_description: Option<Seq<char>>,
}

/// The mathematical value of a conversation.
pub struct ConversationView {
    pub wallet_address: Seq<u8>,
    pub date_created: u64,
    pub messages: Seq<MessageView>,
    pub content_summary: Seq<Seq<char>>,
    pub description: Seq<char>,
}

/// The mathematical value of a store.
pub struct ConversationsView {
    pub conversations: Seq<Option<ConversationView>>,
    pub max_conversations: usize,
    pub active_conversations: usize,
}

/// The value of an optional text.
pub open spec fn text_view(s: Option<String>) -> Option<Seq<char>> {
    match s {
        Some(t) => Some(t@),
        None => None,
    }
}

/// The value of a slot.
pub open spec fn slot_view(s: Option<Conversation>) -> Option<ConversationView> {
    match s {
        Some(c) => Some(c@),
        None => None,
    }
}

/// The values of texts.
pub open spec fn texts_view(texts: Seq<String>) -> Seq<Seq<char>> {
    texts.map_values(|s: String| s@)
}

/// The values of messages.
pub open spec fn messages_view(messages: Seq<Message>) -> Seq<MessageView> {
    messages.map_values(|m: Message| m@)
}

/// The values of slots.
pub open spec fn slots_view(slots: Seq<Option<Conversation>>) -> Seq<Option<ConversationView>> {
    slots.map_values(|s: Option<Conversation>| slot_view(s))
}

impl View for Message {
    type V = MessageView;

    open spec fn view(&self) -> MessageView {
        MessageView {
            sender: self.sender,
            text: self.text@,
            image_url: text_view(self.image_url),
            image_description: text_view(self.image_description),
        }
    }
}

impl View for Conversation {
    type V = ConversationView;

    open spec fn view(&self) -> ConversationView {
        ConversationView {
            wallet_address: self.wallet_address@,
            date_created: self.date_created,
            messages: messages_view(self.messages@),
            content_summary: texts_view(self.content_summary@),
            description: self.description@,
        }
    }
}

impl View for Conversations {
    type V = ConversationsView;

    open spec fn view(&self) -> ConversationsView {
        ConversationsView {
            conversations: slots_view(self.conversations@),
            max_conversations: self.max_conversations,
            active_conversations: self.active_conversations,
        }
    }
}

/// How many of the slots hold something.
pub open spec fn count_occupied<T>(slots: Seq<Option<T>>) -> nat
    decreases slots.len(),
{
    if slots.len() == 0 {
        0
    } else {
        count_occupied(slots.drop_last()) + if slots.last() is Some {
            1nat
        } else {
            0nat
        }
    }
}

/// The count never exceeds the number of slots, and reaches it exactly when
/// no slot is empty.
pub proof fn lemma_count_bounds<T>(slots: Seq<Option<T>>)
    ensures
        count_occupied(slots) <= slots.len(),
        count_occupied(slots) == slots.len() <==> forall|i: int|
            0 <= i < slots.len() ==> slots[i] is Some,
    decreases slots.len(),
{
    if slots.len() > 0 {
        let init = slots.drop_last();
        lemma_count_bounds(init);
        if count_occupied(slots) == slots.len() {
            assert forall|i: int| 0 <= i < slots.len() implies slots[i] is Some by {
                if i < init.len() {
                    assert(init[i] is Some);
                }
            }
        }
        if forall|i: int| 0 <= i < slots.len() ==> slots[i] is Some {
            assert forall|i: int| 0 <= i < init.len() implies init[i] is Some by {
                assert(slots[i] is Some);
            }
            assert(slots.last() is Some);
        }
    }
}

/// Writing one slot changes the count by what that slot gains or loses.
pub proof fn lemma_count_update<T>(slots: Seq<Option<T>>, i: int, v: Option<T>)
    requires
        0 <= i < slots.len(),
    ensures
        count_occupied(slots.update(i, v)) + (if slots[i] is Some {
            1nat
        } else {
            0nat
        }) == count_occupied(slots) + (if v is Some {
            1nat
        } else {
            0nat
        }),
    decreases slots.len(),
{
    let after = slots.update(i, v);
    if i == slots.len() - 1 {
        assert(after.drop_last() =~= slots.drop_last());
    } else {
        lemma_count_update(slots.drop_last(), i, v);
        assert(after.drop_last() =~= slots.drop_last().update(i, v));
    }
}

/// The count over views is the count over the slots themselves.
pub proof fn lemma_count_views(slots: Seq<Option<Conversation>>)
    ensures
        count_occupied(slots_view(slots)) == count_occupied(slots),
    decreases slots.len(),
{
    let views = slots_view(slots);
    if slots.len() > 0 {
        lemma_count_views(slots.drop_last());
        assert(views.drop_last() =~= slots_view(slots.drop_last()));
    }
}

/// The lowest empty slot, or the number of slots where none is empty.
pub open spec fn first_empty<T>(slots: Seq<Option<T>>) -> int
    decreases slots.len(),
{
    if slots.len() == 0 {
        0
    } else if slots[0] is None {
        0
    } else {
        1 + first_empty(slots.drop_first())
    }
}

/// `first_empty` names an empty slot with none before it, if there is one.
pub proof fn lemma_first_empty<T>(slots: Seq<Option<T>>)
    ensures
        0 <= first_empty(slots) <= slots.len(),
        first_empty(slots) < slots.len() ==> slots[first_empty(slots)] is None,
        forall|j: int| 0 <= j < first_empty(slots) ==> slots[j] is Some,
    decreases slots.len(),
{
    if slots.len() > 0 && slots[0] is Some {
        let tail = slots.drop_first();
        lemma_first_empty(tail);
        assert forall|j: int| 0 <= j < first_empty(slots) implies slots[j] is Some by {
            if j > 0 {
                assert(tail[j - 1] is Some);
            }
        }
    }
}

/// The lowest empty slot is the same over views.
pub proof fn lemma_first_empty_views(slots: Seq<Option<Conversation>>)
    ensures
        first_empty(slots_view(slots)) == first_empty(slots),
    decreases slots.len(),
{
    if slots.len() > 0 {
        lemma_first_empty_views(slots.drop_first());
        assert(slots_view(slots).drop_first() =~= slots_view(slots.drop_first()));
    }
}

/// The store that an empty buffer stands for: freshly initialized, with the
/// default capacity, every slot allocated and empty, nothing occupied.
pub open spec fn fresh_store() -> ConversationsView {
    ConversationsView {
        conversations: Seq::new(
            DEFAULT_MAX_CONVERSATIONS as nat,
            |i: int| None::<ConversationView>,
        ),
        max_conversations: DEFAULT_MAX_CONVERSATIONS,
        active_conversations: 0,
    }
}

/// The store that a buffer stands for.
pub open spec fn load_spec(data: Seq<u8>) -> Result<ConversationsView, ChatError> {
    if data.len() == 0 {
        Ok(fresh_store())
    } else {
        match decode_spec(data) {
            Some(v) => Ok(v),
            None => Err(ChatError::InvalidAccountData),
        }
    }
}

/// The invariant of a store's value.
pub open spec fn well_formed_view(v: ConversationsView) -> bool {
    &&& v.active_conversations == count_occupied(v.conversations)
    &&& v.active_conversations <= v.max_conversations
    &&& (v.conversations.len() == 0 || v.conversations.len() == v.max_conversations)
}

impl Conversations {
    /// The invariant: the counter is the number of occupied slots, it does not
    /// exceed the capacity, and the slots, once allocated, are as many as the
    /// capacity.
    pub open spec fn well_formed(&self) -> bool {
        &&& self.active_conversations == count_occupied(self.conversations@)
        &&& self.active_conversations <= self.max_conversations
        &&& (self.conversations@.len() == 0 || self.conversations@.len()
            == self.max_conversations)
    }

    /// A store of `max` empty slots.
    pub fn new(max: usize) -> (r: Conversations)
        ensures
            r.well_formed(),
            r.max_conversations == max,
            r.active_conversations == 0,
            r.conversations@.len() == max,
            forall|i: int| 0 <= i < max ==> r.conversations@[i] is None,
    {
        let mut slots: Vec<Option<Conversation>> = Vec::new();
        let mut i: usize = 0;
        while i < max
            invariant
                i <= max,
                slots@.len() == i,
                forall|j: int| 0 <= j < i ==> slots@[j] is None,
            decreases max - i,
        {
            slots.push(None);
            i += 1;
        }
        proof {
            lemma_count_bounds(slots@);
            lemma_count_none(slots@);
        }
        Conversations { conversations: slots, max_conversations: max, active_conversations: 0 }
    }

    /// The store that a buffer holds. An empty buffer gives a freshly
    /// initialized store: the default capacity, every slot empty. Any other
    /// buffer must hold exactly one store. The invariant holds of the result
    /// where it holds of the value that the buffer holds.
    pub fn from_account_info(data: &[u8]) -> (r: Result<Conversations, ChatError>)
        ensures
            match load_spec(data@) {
                Ok(v) => r matches Ok(s) && s@ == v && s.well_formed() == well_formed_view(v),
                Err(e) => r matches Err(x) && x == e,
            },
            data@.len() == 0 ==> (r matches Ok(s) && s.well_formed() && s.max_conversations
                == DEFAULT_MAX_CONVERSATIONS && s.active_conversations == 0
                && s.conversations@.len() == DEFAULT_MAX_CONVERSATIONS && forall|i: int|
                0 <= i < s.conversations@.len() ==> s.conversations@[i] is None),
    {
        if data.len() == 0 {
            let s = Conversations::new(DEFAULT_MAX_CONVERSATIONS);
            proof {
                s.lemma_well_formed_view();
            }
            assert(s@.conversations =~= fresh_store().conversations);
            return Ok(s);
        }
        match decode(data) {
            Some(s) => {
                proof {
                    s.lemma_well_formed_view();
                }
                Ok(s)
            },
            None => Err(ChatError::InvalidAccountData),
        }
    }

    /// The invariant of a store is the invariant of its value.
    pub proof fn lemma_well_formed_view(&self)
        ensures
            self.well_formed() == well_formed_view(self@),
    {
        lemma_count_views(self.conversations@);
    }

    /// Whether the counter has reached the capacity.
    pub fn is_full(&self) -> (r: bool)
        ensures
            r == (self.active_conversations == self.max_conversations),
    {
        self.active_conversations == self.max_conversations
    }

    /// Whether the slots are allocated.
    pub fn is_initialized(&self) -> (r: bool)
        ensures
            r == (self.conversations@.len() > 0),
    {
        self.conversations.len() > 0
    }

    /// Tests the invariant.
    pub fn is_well_formed(&self) -> (r: bool)
        ensures
            r == self.well_formed(),
    {
        let n = self.conversations.len();
        let mut count: usize = 0;
        let mut i: usize = 0;
        while i < n
            invariant
                i <= n,
                n == self.conversations@.len(),
                count == count_occupied(self.conversations@.take(i as int)),
                count <= i,
            decreases n - i,
        {
            proof {
                let next = self.conversations@.take(i + 1);
                assert(next.drop_last() =~= self.conversations@.take(i as int));
            }
            if self.conversations[i].is_some() {
                count += 1;
            }
            i += 1;
        }
        assert(self.conversations@.take(n as int) =~= self.conversations@);
        self.active_conversations == count && count <= self.max_conversations && (n == 0 || n
            == self.max_conversations)
    }

    /// Puts the conversation into the lowest empty slot. Fails, and changes
    /// nothing, exactly when the counter has reached the capacity or no slot
    /// is empty; in a well-formed store, exactly when no slot is empty.
    pub fn add_conversation(&mut self, conversation: Conversation) -> (r: Result<(), ChatError>)
        ensures
            r is Ok <==> old(self).active_conversations < old(self).max_conversations
                && first_empty(old(self).conversations@) < old(self).conversations@.len(),
            old(self).well_formed() ==> (r is Ok <==> exists|i: int|
                0 <= i < old(self).conversations@.len() && old(self).conversations@[i] is None),
            r is Ok ==> {
                let i = first_empty(old(self).conversations@);
                &&& 0 <= i < old(self).conversations@.len()
                &&& old(self).conversations@[i] is None
                &&& forall|j: int| 0 <= j < i ==> old(self).conversations@[j] is Some
                &&& final(self).conversations@ == old(self).conversations@.update(
                    i,
                    Some(conversation),
                )
                &&& final(self).active_conversations == old(self).active_conversations + 1
            },
            r is Err ==> r == Err::<(), ChatError>(ChatError::CapacityError) && *final(self)
                == *old(self),
            final(self).max_conversations == old(self).max_conversations,
            old(self).well_formed() ==> final(self).well_formed(),
    {
        proof {
            lemma_count_bounds(self.conversations@);
            lemma_first_empty(self.conversations@);
        }
        if self.active_conversations < self.max_conversations {
            let n = self.conversations.len();
            let mut i: usize = 0;
            assert(self.conversations@.skip(0) =~= self.conversations@);
            while i < n
                invariant
                    i <= n,
                    n == self.conversations@.len(),
                    *self == *old(self),
                    self.active_conversations < self.max_conversations,
                    forall|j: int| 0 <= j < i ==> self.conversations@[j] is Some,
                    first_empty(self.conversations@) == i + first_empty(
                        self.conversations@.skip(i as int),
                    ),
                decreases n - i,
            {
                proof {
                    let rest = self.conversations@.skip(i as int);
                    assert(rest[0] == self.conversations@[i as int]);
                    assert(rest.drop_first() =~= self.conversations@.skip(i + 1));
                }
                if self.conversations[i].is_none() {
                    proof {
                        lemma_count_update(self.conversations@, i as int, Some(conversation));
                    }
                    self.conversations.set(i, Some(conversation));
                    self.active_conversations = self.active_conversations + 1;
                    return Ok(());
                }
                i += 1;
            }
        }
        Err(ChatError::CapacityError)
    }

    /// Empties the slot at `index`. Fails, and changes nothing, exactly when
    /// the index names no slot or an empty one.
    pub fn remove_conversation(&mut self, index: usize) -> (r: Result<(), ChatError>)
        requires
            old(self).well_formed() || (index < old(self).conversations@.len() && old(
                self,
            ).conversations@[index as int] is Some ==> old(self).active_conversations > 0),
        ensures
            r is Ok <==> index < old(self).conversations@.len() && old(
                self,
            ).conversations@[index as int] is Some,
            r is Ok ==> {
                &&& final(self).conversations@ == old(self).conversations@.update(
                    index as int,
                    None,
                )
                &&& final(self).active_conversations == old(self).active_conversations - 1
            },
            r is Err ==> r == Err::<(), ChatError>(ChatError::InvalidIndexError) && *final(self)
                == *old(self),
            final(self).max_conversations == old(self).max_conversations,
            old(self).well_formed() ==> final(self).well_formed(),
    {
        if index < self.conversations.len() && self.conversations[index].is_some() {
            proof {
                lemma_count_update(self.conversations@, index as int, None);
                if self.well_formed() {
                    lemma_occupied_is_counted(*self, index as int);
                }
            }
            self.conversations.set(index, None);
            self.active_conversations = self.active_conversations - 1;
            return Ok(());
        }
        Err(ChatError::InvalidIndexError)
    }
}

/// Loading what was encoded gives the store back, and with it its
/// invariant: an encoding is never empty.
pub proof fn lemma_load_encoded(x: Conversations)
    requires
        encodable(x@),
    ensures
        load_spec(enc_store(x@)) == Ok::<ConversationsView, ChatError>(x@),
        enc_store(x@).len() >= 20,
{
    vstd::bytes::lemma_auto_spec_u32_to_from_le_bytes();
    vstd::bytes::lemma_auto_spec_u64_to_from_le_bytes();
    lemma_round_trip(x@);
}

/// In a well-formed store every occupied slot is counted: the counter is
/// positive wherever a slot can be emptied.
pub proof fn lemma_occupied_is_counted(store: Conversations, index: int)
    requires
        store.well_formed(),
        0 <= index < store.conversations@.len(),
        store.conversations@[index] is Some,
    ensures
        store.active_conversations > 0,
{
    lemma_count_update(store.conversations@, index, None);
}

/// Slots that are all empty count zero.
pub proof fn lemma_count_none<T>(slots: Seq<Option<T>>)
    requires
        forall|i: int| 0 <= i < slots.len() ==> slots[i] is None,
    ensures
        count_occupied(slots) == 0,
    decreases slots.len(),
{
    if slots.len() > 0 {
        lemma_count_none(slots.drop_last());
    }
}

} // verus!
