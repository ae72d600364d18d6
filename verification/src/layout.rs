//! The byte layout of a store: little-endian integers, sequences and texts
//! behind a 32-bit length, optional values behind a tag byte.

use vstd::prelude::*;
use vstd::bytes::*;
use vstd::utf8::*;
use crate::state::{ConversationView, ConversationsView, MessageType, MessageView};

verus! {

// ---------------------------------------------------------------- layout

/// A length, as the four bytes that stand before a sequence.
pub open spec fn enc_len(n: nat) -> Seq<u8> {
    spec_u32_to_le_bytes(n as u32)
}

/// A text: the length of its UTF-8 bytes, then the bytes.
pub open spec fn enc_text(s: Seq<char>) -> Seq<u8> {
    enc_len(encode_utf8(s).len()) + encode_utf8(s)
}

/// An optional text: the tag 0, or the tag 1 and the text.
pub open spec fn enc_opt_text(o: Option<Seq<char>>) -> Seq<u8> {
    match o {
        None => seq![0u8],
        Some(s) => seq![1u8] + enc_text(s),
    }
}

/// A sender: one byte, 0 for the user and 1 for the chat.
pub open spec fn enc_sender(t: MessageType) -> Seq<u8> {
    match t {
        MessageType::User => seq![0u8],
        MessageType::Chat => seq![1u8],
    }
}

/// A message: its four fields in the order of their declaration.
pub open spec fn enc_message(m: MessageView) -> Seq<u8> {
    enc_sender(m.sender) + enc_text(m.text) + enc_opt_text(m.image_url) + enc_opt_text(
        m.image_description,
    )
}

/// The items' encodings, one after the other.
pub open spec fn enc_items<T>(items: Seq<T>, enc: spec_fn(T) -> Seq<u8>) -> Seq<u8>
    decreases items.len(),
{
    if items.len() == 0 {
        Seq::empty()
    } else {
        enc(items[0]) + enc_items(items.drop_first(), enc)
    }
}

/// A sequence: the number of its items, then the items.
pub open spec fn enc_list<T>(items: Seq<T>, enc: spec_fn(T) -> Seq<u8>) -> Seq<u8> {
    enc_len(items.len()) + enc_items(items, enc)
}

/// `enc_text` as a value.
pub open spec fn text_encoder() -> spec_fn(Seq<char>) -> Seq<u8> {
    |s: Seq<char>| enc_text(s)
}

/// `enc_message` as a value.
pub open spec fn message_encoder() -> spec_fn(MessageView) -> Seq<u8> {
    |m: MessageView| enc_message(m)
}

/// `enc_slot` as a value.
pub open spec fn slot_encoder() -> spec_fn(Option<ConversationView>) -> Seq<u8> {
    |s: Option<ConversationView>| enc_slot(s)
}

/// A conversation: the 32 bytes of the owner, the time in eight bytes, the
/// messages, the summary and the description.
pub open spec fn enc_conversation(c: ConversationView) -> Seq<u8> {
    c.wallet_address + spec_u64_to_le_bytes(c.date_created) + enc_list(
        c.messages,
        message_encoder(),
    ) + enc_list(c.content_summary, text_encoder()) + enc_text(c.description)
}

/// A slot: the tag 0 where it is empty, else the tag 1 and the conversation.
pub open spec fn enc_slot(s: Option<ConversationView>) -> Seq<u8> {
    match s {
        None => seq![0u8],
        Some(c) => seq![1u8] + enc_conversation(c),
    }
}

/// The bytes of a whole store.
pub open spec fn enc_store(v: ConversationsView) -> Seq<u8> {
    enc_list(v.conversations, slot_encoder()) + spec_u64_to_le_bytes(v.max_conversations as u64)
        + spec_u64_to_le_bytes(v.active_conversations as u64)
}

// ------------------------------------------------------- what can be written

/// Whether the length of a text can be written in 32 bits.
pub open spec fn text_fits(s: Seq<char>) -> bool {
    encode_utf8(s).len() <= u32::MAX
}

/// Whether an optional text, if there is one, fits.
pub open spec fn opt_text_fits(o: Option<Seq<char>>) -> bool {
    match o {
        None => true,
        Some(s) => text_fits(s),
    }
}

/// Whether every text of a message fits.
pub open spec fn message_fits(m: MessageView) -> bool {
    text_fits(m.text) && opt_text_fits(m.image_url) && opt_text_fits(m.image_description)
}

/// Whether the owner has 32 bytes and every length in a conversation fits.
pub open spec fn conversation_fits(c: ConversationView) -> bool {
    &&& c.wallet_address.len() == 32
    &&& c.messages.len() <= u32::MAX
    &&& forall|i: int| 0 <= i < c.messages.len() ==> message_fits(#[trigger] c.messages[i])
    &&& c.content_summary.len() <= u32::MAX
    &&& forall|i: int|
        0 <= i < c.content_summary.len() ==> text_fits(#[trigger] c.content_summary[i])
    &&& text_fits(c.description)
}

/// Whether the conversation in a slot, if there is one, fits.
pub open spec fn slot_fits(s: Option<ConversationView>) -> bool {
    match s {
        None => true,
        Some(c) => conversation_fits(c),
    }
}

/// A store is encodable when every length in it fits in 32 bits.
pub open spec fn encodable(v: ConversationsView) -> bool {
    &&& v.conversations.len() <= u32::MAX
    &&& forall|i: int| 0 <= i < v.conversations.len() ==> slot_fits(#[trigger] v.conversations[i])
}

// --------------------------------------------------------------- reading

/// A parser's result with `prefix` put before the items it read.
pub open spec fn prepend<T>(prefix: Seq<T>, r: Option<(Seq<T>, Seq<u8>)>) -> Option<
    (Seq<T>, Seq<u8>),
> {
    match r {
        None => None,
        Some((items, rest)) => Some((prefix + items, rest)),
    }
}

/// Reads one byte.
pub open spec fn parse_u8(b: Seq<u8>) -> Option<(u8, Seq<u8>)> {
    if b.len() >= 1 {
        Some((b[0], b.skip(1)))
    } else {
        None
    }
}

/// Reads four bytes as a little-endian number.
pub open spec fn parse_u32(b: Seq<u8>) -> Option<(u32, Seq<u8>)> {
    if b.len() >= 4 {
        Some((spec_u32_from_le_bytes(b.take(4)), b.skip(4)))
    } else {
        None
    }
}

/// Reads eight bytes as a little-endian number.
pub open spec fn parse_u64(b: Seq<u8>) -> Option<(u64, Seq<u8>)> {
    if b.len() >= 8 {
        Some((spec_u64_from_le_bytes(b.take(8)), b.skip(8)))
    } else {
        None
    }
}

/// Reads eight bytes as a number that must fit the machine's word.
pub open spec fn parse_usize(b: Seq<u8>) -> Option<(usize, Seq<u8>)> {
    match parse_u64(b) {
        Some((v, rest)) => if v <= usize::MAX {
            Some((v as usize, rest))
        } else {
            None
        },
        None => None,
    }
}

/// Reads the 32 bytes of an address.
pub open spec fn parse_address(b: Seq<u8>) -> Option<(Seq<u8>, Seq<u8>)> {
    if b.len() >= 32 {
        Some((b.take(32), b.skip(32)))
    } else {
        None
    }
}

/// Reads a length and as many bytes, which must be well-formed UTF-8.
pub open spec fn parse_text(b: Seq<u8>) -> Option<(Seq<char>, Seq<u8>)> {
    match parse_u32(b) {
        Some((n, rest)) => if rest.len() >= n && valid_utf8(rest.take(n as int)) {
            Some((decode_utf8(rest.take(n as int)), rest.skip(n as int)))
        } else {
            None
        },
        None => None,
    }
}

/// Reads a tag that must be 0 or 1 and, after 1, a text.
pub open spec fn parse_opt_text(b: Seq<u8>) -> Option<(Option<Seq<char>>, Seq<u8>)> {
    match parse_u8(b) {
        Some((tag, rest)) => if tag == 0 {
            Some((None, rest))
        } else if tag == 1 {
            match parse_text(rest) {
                Some((s, rest2)) => Some((Some(s), rest2)),
                None => None,
            }
        } else {
            None
        },
        None => None,
    }
}

/// Reads a sender's byte, which must be 0 or 1.
pub open spec fn parse_sender(b: Seq<u8>) -> Option<(MessageType, Seq<u8>)> {
    match parse_u8(b) {
        Some((tag, rest)) => if tag == 0 {
            Some((MessageType::User, rest))
        } else if tag == 1 {
            Some((MessageType::Chat, rest))
        } else {
            None
        },
        None => None,
    }
}

/// Reads the four fields of a message.
pub open spec fn parse_message(b: Seq<u8>) -> Option<(MessageView, Seq<u8>)> {
    match parse_sender(b) {
        Some((sender, r1)) => match parse_text(r1) {
            Some((text, r2)) => match parse_opt_text(r2) {
                Some((image_url, r3)) => match parse_opt_text(r3) {
                    Some((image_description, r4)) => Some(
                        (MessageView { sender, text, image_url, image_description }, r4),
                    ),
                    None => None,
                },
                None => None,
            },
            None => None,
        },
        None => None,
    }
}

/// Reads `n` items, one after the other.
pub open spec fn parse_items<T>(
    n: nat,
    b: Seq<u8>,
    parse: spec_fn(Seq<u8>) -> Option<(T, Seq<u8>)>,
) -> Option<(Seq<T>, Seq<u8>)>
    decreases n,
{
    if n == 0 {
        Some((Seq::empty(), b))
    } else {
        match parse(b) {
            Some((x, rest)) => prepend(seq![x], parse_items((n - 1) as nat, rest, parse)),
            None => None,
        }
    }
}

/// Reads a number and as many items.
pub open spec fn parse_list<T>(
    b: Seq<u8>,
    parse: spec_fn(Seq<u8>) -> Option<(T, Seq<u8>)>,
) -> Option<(Seq<T>, Seq<u8>)> {
    match parse_u32(b) {
        Some((n, rest)) => parse_items(n as nat, rest, parse),
        None => None,
    }
}

/// `parse_text` as a value.
pub open spec fn text_parser() -> spec_fn(Seq<u8>) -> Option<(Seq<char>, Seq<u8>)> {
    |b: Seq<u8>| parse_text(b)
}

/// `parse_message` as a value.
pub open spec fn message_parser() -> spec_fn(Seq<u8>) -> Option<(MessageView, Seq<u8>)> {
    |b: Seq<u8>| parse_message(b)
}

/// `parse_slot` as a value.
pub open spec fn slot_parser() -> spec_fn(Seq<u8>) -> Option<(Option<ConversationView>, Seq<u8>)> {
    |b: Seq<u8>| parse_slot(b)
}

/// Reads the five fields of a conversation.
pub open spec fn parse_conversation(b: Seq<u8>) -> Option<(ConversationView, Seq<u8>)> {
    match parse_address(b) {
        Some((wallet_address, r1)) => match parse_u64(r1) {
            Some((date_created, r2)) => match parse_list(r2, message_parser()) {
                Some((messages, r3)) => match parse_list(r3, text_parser()) {
                    Some((content_summary, r4)) => match parse_text(r4) {
                        Some((description, r5)) => Some(
                            (
                                ConversationView {
                                    wallet_address,
                                    date_created,
                                    messages,
                                    content_summary,
                                    description,
                                },
                                r5,
                            ),
                        ),
                        None => None,
                    },
                    None => None,
                },
                None => None,
            },
            None => None,
        },
        None => None,
    }
}

/// Reads a tag that must be 0 or 1 and, after 1, a conversation.
pub open spec fn parse_slot(b: Seq<u8>) -> Option<(Option<ConversationView>, Seq<u8>)> {
    match parse_u8(b) {
        Some((tag, rest)) => if tag == 0 {
            Some((None, rest))
        } else if tag == 1 {
            match parse_conversation(rest) {
                Some((c, rest2)) => Some((Some(c), rest2)),
                None => None,
            }
        } else {
            None
        },
        None => None,
    }
}

/// Reads the slots, the capacity and the counter of a store.
pub open spec fn parse_store(b: Seq<u8>) -> Option<(ConversationsView, Seq<u8>)> {
    match parse_list(b, slot_parser()) {
        Some((conversations, r1)) => match parse_usize(r1) {
            Some((max_conversations, r2)) => match parse_usize(r2) {
                Some((active_conversations, r3)) => Some(
                    (
                        ConversationsView {
                            conversations,
                            max_conversations,
                            active_conversations,
                        },
                        r3,
                    ),
                ),
                None => None,
            },
            None => None,
        },
        None => None,
    }
}

/// What a parser read, where it left nothing over.
pub open spec fn complete<T>(r: Option<(T, Seq<u8>)>) -> Option<T> {
    match r {
        Some((v, rest)) => if rest.len() == 0 {
            Some(v)
        } else {
            None
        },
        None => None,
    }
}

/// The store that a buffer holds: the buffer parses as one store and nothing
/// is left over.
pub open spec fn decode_spec(b: Seq<u8>) -> Option<ConversationsView> {
    complete(parse_store(b))
}

// ------------------------------------------------- reading what was written

/// The two halves of a concatenation.
proof fn lemma_split(a: Seq<u8>, b: Seq<u8>)
    ensures
        (a + b).take(a.len() as int) == a,
        (a + b).skip(a.len() as int) == b,
{
    assert((a + b).take(a.len() as int) =~= a);
    assert((a + b).skip(a.len() as int) =~= b);
}

/// A byte is read back, whatever follows it.
proof fn lemma_parse_u8(v: u8, rest: Seq<u8>)
    ensures
        parse_u8(seq![v] + rest) == Some((v, rest)),
{
    lemma_split(seq![v], rest);
}

/// Four little-endian bytes are read back, whatever follows them.
proof fn lemma_parse_u32(v: u32, rest: Seq<u8>)
    ensures
        parse_u32(spec_u32_to_le_bytes(v) + rest) == Some((v, rest)),
{
    lemma_auto_spec_u32_to_from_le_bytes();
    lemma_split(spec_u32_to_le_bytes(v), rest);
}

/// Eight little-endian bytes are read back, whatever follows them.
proof fn lemma_parse_u64(v: u64, rest: Seq<u8>)
    ensures
        parse_u64(spec_u64_to_le_bytes(v) + rest) == Some((v, rest)),
{
    lemma_auto_spec_u64_to_from_le_bytes();
    lemma_split(spec_u64_to_le_bytes(v), rest);
}

/// A text that fits is read back, whatever follows it.
proof fn lemma_parse_text(s: Seq<char>, rest: Seq<u8>)
    requires
        text_fits(s),
    ensures
        parse_text(enc_text(s) + rest) == Some((s, rest)),
{
    let body = encode_utf8(s);
    assert(enc_text(s) + rest =~= enc_len(body.len()) + (body + rest));
    lemma_parse_u32(body.len() as u32, body + rest);
    lemma_split(body, rest);
    encode_utf8_valid_utf8(s);
    encode_utf8_decode_utf8(s);
}

/// An optional text that fits is read back, whatever follows it.
proof fn lemma_parse_opt_text(o: Option<Seq<char>>, rest: Seq<u8>)
    requires
        opt_text_fits(o),
    ensures
        parse_opt_text(enc_opt_text(o) + rest) == Some((o, rest)),
{
    match o {
        None => {
            lemma_parse_u8(0, rest);
        },
        Some(s) => {
            assert(enc_opt_text(o) + rest =~= seq![1u8] + (enc_text(s) + rest));
            lemma_parse_u8(1, enc_text(s) + rest);
            lemma_parse_text(s, rest);
        },
    }
}

/// A sender is read back, whatever follows it.
proof fn lemma_parse_sender(t: MessageType, rest: Seq<u8>)
    ensures
        parse_sender(enc_sender(t) + rest) == Some((t, rest)),
{
    match t {
        MessageType::User => lemma_parse_u8(0, rest),
        MessageType::Chat => lemma_parse_u8(1, rest),
    }
}

/// A message that fits is read back, whatever follows it.
proof fn lemma_parse_message(m: MessageView, rest: Seq<u8>)
    requires
        message_fits(m),
    ensures
        parse_message(enc_message(m) + rest) == Some((m, rest)),
{
    let r3 = enc_opt_text(m.image_description) + rest;
    let r2 = enc_opt_text(m.image_url) + r3;
    let r1 = enc_text(m.text) + r2;
    assert(enc_message(m) + rest =~= enc_sender(m.sender) + r1);
    lemma_parse_sender(m.sender, r1);
    lemma_parse_text(m.text, r2);
    lemma_parse_opt_text(m.image_url, r3);
    lemma_parse_opt_text(m.image_description, rest);
}

/// Writing one more item appends its encoding.
pub proof fn lemma_enc_items_push<T>(items: Seq<T>, x: T, enc: spec_fn(T) -> Seq<u8>)
    ensures
        enc_items(items.push(x), enc) == enc_items(items, enc) + enc(x),
    decreases items.len(),
{
    let all = items.push(x);
    if items.len() == 0 {
        assert(all.drop_first() =~= Seq::<T>::empty());
        assert(enc_items(all.drop_first(), enc) =~= Seq::<u8>::empty());
        assert(enc_items(items, enc) =~= Seq::<u8>::empty());
        assert(all[0] == x);
        assert(enc_items(all, enc) =~= enc_items(items, enc) + enc(x));
    } else {
        lemma_enc_items_push(items.drop_first(), x, enc);
        assert(all.drop_first() =~= items.drop_first().push(x));
        assert(all[0] == items[0]);
        assert(enc_items(all, enc) =~= enc_items(items, enc) + enc(x));
    }
}

/// Putting a prefix before an item and what follows it is putting the
/// prefix with that item before what follows.
pub proof fn lemma_prepend_push<T>(prefix: Seq<T>, x: T, r: Option<(Seq<T>, Seq<u8>)>)
    ensures
        prepend(prefix, prepend(seq![x], r)) == prepend(prefix.push(x), r),
{
    match r {
        None => {},
        Some((items, rest)) => {
            assert(prefix + (seq![x] + items) =~= prefix.push(x) + items);
        },
    }
}

/// Whether `parse` reads `x` back from what `enc` wrote, whatever follows.
pub open spec fn reads_back<T>(
    enc: spec_fn(T) -> Seq<u8>,
    parse: spec_fn(Seq<u8>) -> Option<(T, Seq<u8>)>,
    x: T,
) -> bool {
    forall|rest: Seq<u8>| #[trigger] parse(enc(x) + rest) == Some((x, rest))
}

/// Items that are each read back are read back one after the other.
proof fn lemma_parse_items<T>(
    items: Seq<T>,
    rest: Seq<u8>,
    enc: spec_fn(T) -> Seq<u8>,
    parse: spec_fn(Seq<u8>) -> Option<(T, Seq<u8>)>,
)
    requires
        forall|i: int| 0 <= i < items.len() ==> reads_back(enc, parse, #[trigger] items[i]),
    ensures
        parse_items(items.len(), enc_items(items, enc) + rest, parse) == Some((items, rest)),
    decreases items.len(),
{
    if items.len() == 0 {
        assert(enc_items(items, enc) + rest =~= rest);
    } else {
        let tail = items.drop_first();
        let after = enc_items(tail, enc) + rest;
        assert(enc_items(items, enc) + rest =~= enc(items[0]) + after);
        assert(reads_back(enc, parse, items[0]));
        assert(parse(enc(items[0]) + after) == Some((items[0], after)));
        assert forall|i: int| 0 <= i < tail.len() implies reads_back(
            enc,
            parse,
            #[trigger] tail[i],
        ) by {
            assert(tail[i] == items[i + 1]);
        }
        lemma_parse_items(tail, rest, enc, parse);
        assert(seq![items[0]] + tail =~= items);
    }
}

/// A sequence of items that are each read back is read back.
proof fn lemma_parse_list<T>(
    items: Seq<T>,
    rest: Seq<u8>,
    enc: spec_fn(T) -> Seq<u8>,
    parse: spec_fn(Seq<u8>) -> Option<(T, Seq<u8>)>,
)
    requires
        items.len() <= u32::MAX,
        forall|i: int| 0 <= i < items.len() ==> reads_back(enc, parse, #[trigger] items[i]),
    ensures
        parse_list(enc_list(items, enc) + rest, parse) == Some((items, rest)),
{
    let after = enc_items(items, enc) + rest;
    assert(enc_list(items, enc) + rest =~= enc_len(items.len()) + after);
    lemma_parse_u32(items.len() as u32, after);
    lemma_parse_items(items, rest, enc, parse);
}

/// A conversation that fits is read back, whatever follows it.
proof fn lemma_parse_conversation(c: ConversationView, rest: Seq<u8>)
    requires
        conversation_fits(c),
    ensures
        parse_conversation(enc_conversation(c) + rest) == Some((c, rest)),
{
    let r4 = enc_text(c.description) + rest;
    let r3 = enc_list(c.content_summary, text_encoder()) + r4;
    let r2 = enc_list(c.messages, message_encoder()) + r3;
    let r1 = spec_u64_to_le_bytes(c.date_created) + r2;
    assert(enc_conversation(c) + rest =~= c.wallet_address + r1);
    lemma_split(c.wallet_address, r1);
    lemma_parse_u64(c.date_created, r2);
    assert forall|i: int| 0 <= i < c.messages.len() implies reads_back(
        message_encoder(),
        message_parser(),
        #[trigger] c.messages[i],
    ) by {
        assert forall|r: Seq<u8>| #[trigger]
            message_parser()(message_encoder()(c.messages[i]) + r) == Some(
                (c.messages[i], r),
            ) by {
            lemma_parse_message(c.messages[i], r);
        }
    }
    lemma_parse_list(c.messages, r3, message_encoder(), message_parser());
    assert forall|i: int| 0 <= i < c.content_summary.len() implies reads_back(
        text_encoder(),
        text_parser(),
        #[trigger] c.content_summary[i],
    ) by {
        assert forall|r: Seq<u8>| #[trigger]
            text_parser()(text_encoder()(c.content_summary[i]) + r) == Some(
                (c.content_summary[i], r),
            ) by {
            lemma_parse_text(c.content_summary[i], r);
        }
    }
    lemma_parse_list(c.content_summary, r4, text_encoder(), text_parser());
    lemma_parse_text(c.description, rest);
}

/// A slot that fits is read back, whatever follows it.
proof fn lemma_parse_slot(s: Option<ConversationView>, rest: Seq<u8>)
    requires
        slot_fits(s),
    ensures
        parse_slot(enc_slot(s) + rest) == Some((s, rest)),
{
    match s {
        None => {
            lemma_parse_u8(0, rest);
        },
        Some(c) => {
            assert(enc_slot(s) + rest =~= seq![1u8] + (enc_conversation(c) + rest));
            lemma_parse_u8(1, enc_conversation(c) + rest);
            lemma_parse_conversation(c, rest);
        },
    }
}

/// An encodable store is read back, whatever follows it.
proof fn lemma_parse_store(v: ConversationsView, rest: Seq<u8>)
    requires
        encodable(v),
    ensures
        parse_store(enc_store(v) + rest) == Some((v, rest)),
{
    let r2 = spec_u64_to_le_bytes(v.active_conversations as u64) + rest;
    let r1 = spec_u64_to_le_bytes(v.max_conversations as u64) + r2;
    assert(enc_store(v) + rest =~= enc_list(v.conversations, slot_encoder()) + r1);
    assert forall|i: int| 0 <= i < v.conversations.len() implies reads_back(
        slot_encoder(),
        slot_parser(),
        #[trigger] v.conversations[i],
    ) by {
        assert forall|r: Seq<u8>| #[trigger]
            slot_parser()(slot_encoder()(v.conversations[i]) + r) == Some(
                (v.conversations[i], r),
            ) by {
            lemma_parse_slot(v.conversations[i], r);
        }
    }
    lemma_parse_list(v.conversations, r1, slot_encoder(), slot_parser());
    lemma_parse_u64(v.max_conversations as u64, r2);
    lemma_parse_u64(v.active_conversations as u64, rest);
}

/// Round trip: every store whose lengths fit the layout is what its own
/// encoding decodes to.
pub proof fn lemma_round_trip(v: ConversationsView)
    requires
        encodable(v),
    ensures
        decode_spec(enc_store(v)) == Some(v),
{
    lemma_parse_store(v, Seq::empty());
    assert(enc_store(v) + Seq::<u8>::empty() =~= enc_store(v));
}

/// A message whose lengths fit the layout is what its own encoding decodes to.
pub proof fn lemma_message_round_trip(m: MessageView)
    requires
        message_fits(m),
    ensures
        complete(parse_message(enc_message(m))) == Some(m),
{
    lemma_parse_message(m, Seq::empty());
    assert(enc_message(m) + Seq::<u8>::empty() =~= enc_message(m));
}

/// A conversation whose lengths fit the layout is what its own encoding
/// decodes to.
pub proof fn lemma_conversation_round_trip(c: ConversationView)
    requires
        conversation_fits(c),
    ensures
        complete(parse_conversation(enc_conversation(c))) == Some(c),
{
    lemma_parse_conversation(c, Seq::empty());
    assert(enc_conversation(c) + Seq::<u8>::empty() =~= enc_conversation(c));
}

} // verus!
