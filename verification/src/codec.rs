//! Encoding a store into bytes and decoding it from them.

use vstd::prelude::*;
use vstd::bytes::*;
use vstd::slice::*;
use vstd::utf8::*;
use crate::layout::{
    complete, conversation_fits, decode_spec, enc_conversation, enc_items, enc_list, enc_message,
    enc_opt_text, enc_slot, enc_store, enc_text, encodable, lemma_conversation_round_trip,
    lemma_enc_items_push, lemma_message_round_trip, lemma_prepend_push, lemma_round_trip,
    message_encoder, message_fits, message_parser, opt_text_fits, parse_address,
    parse_conversation, parse_items, parse_list, parse_message, parse_opt_text, parse_sender,
    parse_slot, parse_text, parse_u32, parse_u64, parse_u8, parse_usize, prepend, slot_encoder,
    slot_fits, slot_parser, text_encoder, text_fits, text_parser,
};
use crate::state::{
    Address, Conversation, ConversationView, Conversations, Message, MessageType, MessageView,
    messages_view, slot_view, slots_view, text_view, texts_view,
};

verus! {

/// `String::from_utf8` of std: the text that the bytes spell, where they are
/// well-formed UTF-8, and nothing where they are not.
#[verifier::external_body]
fn text_from_utf8(bytes: Vec<u8>) -> (r: Option<String>)
    ensures
        r is Some <==> valid_utf8(bytes@),
        r matches Some(s) ==> s@ == decode_utf8(bytes@),
{
    match String::from_utf8(bytes) {
        Ok(s) => Some(s),
        Err(_) => None,
    }
}

// --------------------------------------------------------------- writing

fn write_u8(out: &mut Vec<u8>, v: u8)
    ensures
        final(out)@ == old(out)@ + seq![v],
{
    out.push(v);
    assert(out@ =~= old(out)@ + seq![v]);
}

fn write_u32(out: &mut Vec<u8>, v: u32)
    ensures
        final(out)@ == old(out)@ + spec_u32_to_le_bytes(v),
{
    let mut b = u32_to_le_bytes(v);
    out.append(&mut b);
}

fn write_u64(out: &mut Vec<u8>, v: u64)
    ensures
        final(out)@ == old(out)@ + spec_u64_to_le_bytes(v),
{
    let mut b = u64_to_le_bytes(v);
    out.append(&mut b);
}

fn write_address(out: &mut Vec<u8>, a: &Address)
    ensures
        final(out)@ == old(out)@ + a@,
{
    let mut i: usize = 0;
    while i < 32
        invariant
            i <= 32,
            out@ == old(out)@ + a@.take(i as int),
        decreases 32 - i,
    {
        out.push(a.bytes[i]);
        assert(out@ =~= old(out)@ + a@.take(i + 1));
        i += 1;
    }
    assert(a@.take(32) =~= a@);
}

fn write_text(out: &mut Vec<u8>, s: &str) -> (ok: bool)
    ensures
        ok == text_fits(s@),
        ok ==> final(out)@ == old(out)@ + enc_text(s@),
{
    let b = s.as_bytes();
    if b.len() > 0xffff_ffff {
        return false;
    }
    write_u32(out, b.len() as u32);
    out.extend_from_slice(b);
    assert(out@ =~= old(out)@ + enc_text(s@));
    true
}

fn write_opt_text(out: &mut Vec<u8>, o: &Option<String>) -> (ok: bool)
    ensures
        ok == opt_text_fits(text_view(*o)),
        ok ==> final(out)@ == old(out)@ + enc_opt_text(text_view(*o)),
{
    match o {
        None => {
            write_u8(out, 0);
            true
        },
        Some(s) => {
            write_u8(out, 1);
            let ok = write_text(out, s.as_str());
            assert(ok ==> out@ =~= old(out)@ + enc_opt_text(text_view(*o)));
            ok
        },
    }
}

fn write_message(out: &mut Vec<u8>, m: &Message) -> (ok: bool)
    ensures
        ok == message_fits(m@),
        ok ==> final(out)@ == old(out)@ + enc_message(m@),
{
    match m.sender {
        MessageType::User => write_u8(out, 0),
        MessageType::Chat => write_u8(out, 1),
    }
    if !write_text(out, m.text.as_str()) {
        return false;
    }
    if !write_opt_text(out, &m.image_url) {
        return false;
    }
    if !write_opt_text(out, &m.image_description) {
        return false;
    }
    assert(out@ =~= old(out)@ + enc_message(m@));
    true
}

fn write_messages(out: &mut Vec<u8>, items: &Vec<Message>) -> (ok: bool)
    ensures
        ok == (items@.len() <= u32::MAX && forall|i: int|
            0 <= i < items@.len() ==> message_fits(#[trigger] messages_view(items@)[i])),
        ok ==> final(out)@ == old(out)@ + enc_list(messages_view(items@), message_encoder()),
{
    let n = items.len();
    if n > 0xffff_ffff {
        return false;
    }
    write_u32(out, n as u32);
    let ghost base = out@;
    let ghost views = messages_view(items@);
    assert(out@ =~= base + enc_items(views.take(0), message_encoder()));
    let mut i: usize = 0;
    while i < n
        invariant
            i <= n,
            n == items@.len(),
            views == messages_view(items@),
            out@ == base + enc_items(views.take(i as int), message_encoder()),
            forall|j: int| 0 <= j < i ==> message_fits(#[trigger] views[j]),
        decreases n - i,
    {
        if !write_message(out, &items[i]) {
            assert(!message_fits(views[i as int]));
            return false;
        }
        proof {
            lemma_enc_items_push(views.take(i as int), views[i as int], message_encoder());
            assert(views.take(i + 1) =~= views.take(i as int).push(views[i as int]));
            assert(out@ =~= base + enc_items(views.take(i + 1), message_encoder()));
        }
        i += 1;
    }
    assert(views.take(n as int) =~= views);
    assert(out@ =~= old(out)@ + enc_list(views, message_encoder()));
    true
}

fn write_texts(out: &mut Vec<u8>, items: &Vec<String>) -> (ok: bool)
    ensures
        ok == (items@.len() <= u32::MAX && forall|i: int|
            0 <= i < items@.len() ==> text_fits(#[trigger] texts_view(items@)[i])),
        ok ==> final(out)@ == old(out)@ + enc_list(texts_view(items@), text_encoder()),
{
    let n = items.len();
    if n > 0xffff_ffff {
        return false;
    }
    write_u32(out, n as u32);
    let ghost base = out@;
    let ghost views = texts_view(items@);
    assert(out@ =~= base + enc_items(views.take(0), text_encoder()));
    let mut i: usize = 0;
    while i < n
        invariant
            i <= n,
            n == items@.len(),
            views == texts_view(items@),
            out@ == base + enc_items(views.take(i as int), text_encoder()),
            forall|j: int| 0 <= j < i ==> text_fits(#[trigger] views[j]),
        decreases n - i,
    {
        if !write_text(out, items[i].as_str()) {
            assert(!text_fits(views[i as int]));
            return false;
        }
        proof {
            lemma_enc_items_push(views.take(i as int), views[i as int], text_encoder());
            assert(views.take(i + 1) =~= views.take(i as int).push(views[i as int]));
            assert(out@ =~= base + enc_items(views.take(i + 1), text_encoder()));
        }
        i += 1;
    }
    assert(views.take(n as int) =~= views);
    assert(out@ =~= old(out)@ + enc_list(views, text_encoder()));
    true
}

fn write_conversation(out: &mut Vec<u8>, c: &Conversation) -> (ok: bool)
    ensures
        ok == conversation_fits(c@),
        ok ==> final(out)@ == old(out)@ + enc_conversation(c@),
{
    write_address(out, &c.wallet_address);
    write_u64(out, c.date_created);
    if !write_messages(out, &c.messages) {
        return false;
    }
    if !write_texts(out, &c.content_summary) {
        return false;
    }
    if !write_text(out, c.description.as_str()) {
        return false;
    }
    assert(out@ =~= old(out)@ + enc_conversation(c@));
    true
}

fn write_slot(out: &mut Vec<u8>, s: &Option<Conversation>) -> (ok: bool)
    ensures
        ok == slot_fits(slot_view(*s)),
        ok ==> final(out)@ == old(out)@ + enc_slot(slot_view(*s)),
{
    match s {
        None => {
            write_u8(out, 0);
            true
        },
        Some(c) => {
            write_u8(out, 1);
            let ok = write_conversation(out, c);
            assert(ok ==> out@ =~= old(out)@ + enc_slot(slot_view(*s)));
            ok
        },
    }
}

fn write_slots(out: &mut Vec<u8>, items: &Vec<Option<Conversation>>) -> (ok: bool)
    ensures
        ok == (items@.len() <= u32::MAX && forall|i: int|
            0 <= i < items@.len() ==> slot_fits(#[trigger] slots_view(items@)[i])),
        ok ==> final(out)@ == old(out)@ + enc_list(slots_view(items@), slot_encoder()),
{
    let n = items.len();
    if n > 0xffff_ffff {
        return false;
    }
    write_u32(out, n as u32);
    let ghost base = out@;
    let ghost views = slots_view(items@);
    assert(out@ =~= base + enc_items(views.take(0), slot_encoder()));
    let mut i: usize = 0;
    while i < n
        invariant
            i <= n,
            n == items@.len(),
            views == slots_view(items@),
            out@ == base + enc_items(views.take(i as int), slot_encoder()),
            forall|j: int| 0 <= j < i ==> slot_fits(#[trigger] views[j]),
        decreases n - i,
    {
        if !write_slot(out, &items[i]) {
            assert(!slot_fits(views[i as int]));
            return false;
        }
        proof {
            lemma_enc_items_push(views.take(i as int), views[i as int], slot_encoder());
            assert(views.take(i + 1) =~= views.take(i as int).push(views[i as int]));
            assert(out@ =~= base + enc_items(views.take(i + 1), slot_encoder()));
        }
        i += 1;
    }
    assert(views.take(n as int) =~= views);
    assert(out@ =~= old(out)@ + enc_list(views, slot_encoder()));
    true
}

/// The bytes of a store. There are none exactly when some length in the
/// store does not fit in 32 bits.
pub fn encode(store: &Conversations) -> (r: Option<Vec<u8>>)
    ensures
        r is Some <==> encodable(store@),
        r matches Some(bytes) ==> bytes@ == enc_store(store@) && decode_spec(bytes@) == Some(
            store@,
        ),
{
    proof {
        if encodable(store@) {
            lemma_round_trip(store@);
        }
    }
    let mut out: Vec<u8> = Vec::new();
    if !write_slots(&mut out, &store.conversations) {
        return None;
    }
    write_u64(&mut out, store.max_conversations as u64);
    write_u64(&mut out, store.active_conversations as u64);
    assert(out@ =~= enc_store(store@));
    Some(out)
}

// --------------------------------------------------------------- reading

pub(crate) fn read_u8(buf: &[u8], pos: usize) -> (r: Option<(u8, usize)>)
    requires
        pos <= buf@.len(),
    ensures
        match parse_u8(buf@.skip(pos as int)) {
            Some((v, rest)) => r matches Some(t) && t.0 == v && t.1 <= buf@.len() && buf@.skip(
                t.1 as int,
            ) == rest,
            None => r is None,
        },
{
    if pos < buf.len() {
        assert(buf@.skip(pos as int).skip(1) =~= buf@.skip(pos + 1));
        Some((buf[pos], pos + 1))
    } else {
        None
    }
}

pub(crate) fn read_u32(buf: &[u8], pos: usize) -> (r: Option<(u32, usize)>)
    requires
        pos <= buf@.len(),
    ensures
        match parse_u32(buf@.skip(pos as int)) {
            Some((v, rest)) => r matches Some(t) && t.0 == v && t.1 <= buf@.len() && buf@.skip(
                t.1 as int,
            ) == rest,
            None => r is None,
        },
{
    if buf.len() - pos >= 4 {
        let s = slice_subrange(buf, pos, pos + 4);
        assert(s@ =~= buf@.skip(pos as int).take(4));
        assert(buf@.skip(pos as int).skip(4) =~= buf@.skip(pos + 4));
        Some((u32_from_le_bytes(s), pos + 4))
    } else {
        None
    }
}

pub(crate) fn read_u64(buf: &[u8], pos: usize) -> (r: Option<(u64, usize)>)
    requires
        pos <= buf@.len(),
    ensures
        match parse_u64(buf@.skip(pos as int)) {
            Some((v, rest)) => r matches Some(t) && t.0 == v && t.1 <= buf@.len() && buf@.skip(
                t.1 as int,
            ) == rest,
            None => r is None,
        },
{
    if buf.len() - pos >= 8 {
        let s = slice_subrange(buf, pos, pos + 8);
        assert(s@ =~= buf@.skip(pos as int).take(8));
        assert(buf@.skip(pos as int).skip(8) =~= buf@.skip(pos + 8));
        Some((u64_from_le_bytes(s), pos + 8))
    } else {
        None
    }
}

pub(crate) fn read_usize(buf: &[u8], pos: usize) -> (r: Option<(usize, usize)>)
    requires
        pos <= buf@.len(),
    ensures
        match parse_usize(buf@.skip(pos as int)) {
            Some((v, rest)) => r matches Some(t) && t.0 == v && t.1 <= buf@.len() && buf@.skip(
                t.1 as int,
            ) == rest,
            None => r is None,
        },
{
    match read_u64(buf, pos) {
        Some((v, p)) => {
            if v <= usize::MAX as u64 {
                Some((v as usize, p))
            } else {
                None
            }
        },
        None => None,
    }
}

pub(crate) fn read_address(buf: &[u8], pos: usize) -> (r: Option<(Address, usize)>)
    requires
        pos <= buf@.len(),
    ensures
        match parse_address(buf@.skip(pos as int)) {
            Some((v, rest)) => r matches Some(t) && t.0@ == v && t.1 <= buf@.len() && buf@.skip(
                t.1 as int,
            ) == rest,
            None => r is None,
        },
{
    let len = buf.len();
    if len - pos < 32 {
        return None;
    }
    let mut bytes = [0u8;32];
    let mut i: usize = 0;
    while i < 32
        invariant
            i <= 32,
            pos + 32 <= len,
            len == buf@.len(),
            forall|j: int| 0 <= j < i ==> bytes@[j] == buf@[pos + j],
        decreases 32 - i,
    {
        bytes[i] = buf[pos + i];
        i += 1;
    }
    assert(bytes@ =~= buf@.skip(pos as int).take(32));
    assert(buf@.skip(pos as int).skip(32) =~= buf@.skip(pos + 32));
    Some((Address::new(bytes), pos + 32))
}

pub(crate) fn read_text(buf: &[u8], pos: usize) -> (r: Option<(String, usize)>)
    requires
        pos <= buf@.len(),
    ensures
        match parse_text(buf@.skip(pos as int)) {
            Some((v, rest)) => r matches Some(t) && t.0@ == v && t.1 <= buf@.len() && buf@.skip(
                t.1 as int,
            ) == rest,
            None => r is None,
        },
{
    match read_u32(buf, pos) {
        None => None,
        Some((n, p)) => {
            let len = n as usize;
            if buf.len() - p < len {
                return None;
            }
            let bytes = slice_to_vec(slice_subrange(buf, p, p + len));
            assert(bytes@ =~= buf@.skip(p as int).take(n as int));
            assert(buf@.skip(p as int).skip(n as int) =~= buf@.skip(p + len));
            match text_from_utf8(bytes) {
                Some(s) => Some((s, p + len)),
                None => None,
            }
        },
    }
}

pub(crate) fn read_opt_text(buf: &[u8], pos: usize) -> (r: Option<(Option<String>, usize)>)
    requires
        pos <= buf@.len(),
    ensures
        match parse_opt_text(buf@.skip(pos as int)) {
            Some((v, rest)) => r matches Some(t) && text_view(t.0) == v && t.1 <= buf@.len()
                && buf@.skip(t.1 as int) == rest,
            None => r is None,
        },
{
    match read_u8(buf, pos) {
        None => None,
        Some((tag, p)) => {
            if tag == 0 {
                Some((None, p))
            } else if tag == 1 {
                match read_text(buf, p) {
                    Some((s, p2)) => Some((Some(s), p2)),
                    None => None,
                }
            } else {
                None
            }
        },
    }
}

pub(crate) fn read_sender(buf: &[u8], pos: usize) -> (r: Option<(MessageType, usize)>)
    requires
        pos <= buf@.len(),
    ensures
        match parse_sender(buf@.skip(pos as int)) {
            Some((v, rest)) => r matches Some(t) && t.0 == v && t.1 <= buf@.len() && buf@.skip(
                t.1 as int,
            ) == rest,
            None => r is None,
        },
{
    match read_u8(buf, pos) {
        None => None,
        Some((tag, p)) => {
            if tag == 0 {
                Some((MessageType::User, p))
            } else if tag == 1 {
                Some((MessageType::Chat, p))
            } else {
                None
            }
        },
    }
}

pub(crate) fn read_message(buf: &[u8], pos: usize) -> (r: Option<(Message, usize)>)
    requires
        pos <= buf@.len(),
    ensures
        match parse_message(buf@.skip(pos as int)) {
            Some((v, rest)) => r matches Some(t) && t.0@ == v && t.1 <= buf@.len() && buf@.skip(
                t.1 as int,
            ) == rest,
            None => r is None,
        },
{
    let (sender, p1) = match read_sender(buf, pos) {
        Some(t) => t,
        None => { return None; },
    };
    let (text, p2) = match read_text(buf, p1) {
        Some(t) => t,
        None => { return None; },
    };
    let (image_url, p3) = match read_opt_text(buf, p2) {
        Some(t) => t,
        None => { return None; },
    };
    let (image_description, p4) = match read_opt_text(buf, p3) {
        Some(t) => t,
        None => { return None; },
    };
    Some((Message { sender, text, image_url, image_description }, p4))
}

pub(crate) fn read_messages(buf: &[u8], pos: usize) -> (r: Option<(Vec<Message>, usize)>)
    requires
        pos <= buf@.len(),
    ensures
        match parse_list(buf@.skip(pos as int), message_parser()) {
            Some((v, rest)) => r matches Some(t) && messages_view(t.0@) == v && t.1 <= buf@.len()
                && buf@.skip(t.1 as int) == rest,
            None => r is None,
        },
{
    let (n, start) = match read_u32(buf, pos) {
        Some(t) => t,
        None => { return None; },
    };
    let mut out: Vec<Message> = Vec::new();
    let mut p: usize = start;
    let mut i: u32 = 0;
    let ghost whole = parse_items(n as nat, buf@.skip(start as int), message_parser());
    proof {
        match whole {
            Some((items, rest)) => {
                assert(messages_view(out@) + items =~= items);
            },
            None => {},
        }
    }
    while i < n
        invariant
            i <= n,
            p <= buf@.len(),
            whole == prepend(
                messages_view(out@),
                parse_items((n - i) as nat, buf@.skip(p as int), message_parser()),
            ),
            parse_list(buf@.skip(pos as int), message_parser()) == whole,
        decreases n - i,
    {
        match read_message(buf, p) {
            None => {
                assert(parse_items((n - i) as nat, buf@.skip(p as int), message_parser()) is None);
                return None;
            },
            Some((m, p2)) => {
                proof {
                    lemma_prepend_push(
                        messages_view(out@),
                        m@,
                        parse_items((n - i - 1) as nat, buf@.skip(p2 as int), message_parser()),
                    );
                    assert(messages_view(out@.push(m)) =~= messages_view(out@).push(m@));
                }
                out.push(m);
                p = p2;
                i += 1;
            },
        }
    }
    assert(messages_view(out@) + Seq::<MessageView>::empty() =~= messages_view(
        out@,
    ));
    Some((out, p))
}

pub(crate) fn read_texts(buf: &[u8], pos: usize) -> (r: Option<(Vec<String>, usize)>)
    requires
        pos <= buf@.len(),
    ensures
        match parse_list(buf@.skip(pos as int), text_parser()) {
            Some((v, rest)) => r matches Some(t) && texts_view(t.0@) == v && t.1 <= buf@.len()
                && buf@.skip(t.1 as int) == rest,
            None => r is None,
        },
{
    let (n, start) = match read_u32(buf, pos) {
        Some(t) => t,
        None => { return None; },
    };
    let mut out: Vec<String> = Vec::new();
    let mut p: usize = start;
    let mut i: u32 = 0;
    let ghost whole = parse_items(n as nat, buf@.skip(start as int), text_parser());
    proof {
        match whole {
            Some((items, rest)) => {
                assert(texts_view(out@) + items =~= items);
            },
            None => {},
        }
    }
    while i < n
        invariant
            i <= n,
            p <= buf@.len(),
            whole == prepend(
                texts_view(out@),
                parse_items((n - i) as nat, buf@.skip(p as int), text_parser()),
            ),
            parse_list(buf@.skip(pos as int), text_parser()) == whole,
        decreases n - i,
    {
        match read_text(buf, p) {
            None => {
                assert(parse_items((n - i) as nat, buf@.skip(p as int), text_parser()) is None);
                return None;
            },
            Some((s, p2)) => {
                proof {
                    lemma_prepend_push(
                        texts_view(out@),
                        s@,
                        parse_items((n - i - 1) as nat, buf@.skip(p2 as int), text_parser()),
                    );
                    assert(texts_view(out@.push(s)) =~= texts_view(out@).push(s@));
                }
                out.push(s);
                p = p2;
                i += 1;
            },
        }
    }
    assert(texts_view(out@) + Seq::<Seq<char>>::empty() =~= texts_view(out@));
    Some((out, p))
}

pub(crate) fn read_conversation(buf: &[u8], pos: usize) -> (r: Option<(Conversation, usize)>)
    requires
        pos <= buf@.len(),
    ensures
        match parse_conversation(buf@.skip(pos as int)) {
            Some((v, rest)) => r matches Some(t) && t.0@ == v && t.1 <= buf@.len() && buf@.skip(
                t.1 as int,
            ) == rest,
            None => r is None,
        },
{
    let (wallet_address, p1) = match read_address(buf, pos) {
        Some(t) => t,
        None => { return None; },
    };
    let (date_created, p2) = match read_u64(buf, p1) {
        Some(t) => t,
        None => { return None; },
    };
    let (messages, p3) = match read_messages(buf, p2) {
        Some(t) => t,
        None => { return None; },
    };
    let (content_summary, p4) = match read_texts(buf, p3) {
        Some(t) => t,
        None => { return None; },
    };
    let (description, p5) = match read_text(buf, p4) {
        Some(t) => t,
        None => { return None; },
    };
    Some(
        (Conversation { wallet_address, date_created, messages, content_summary, description }, p5),
    )
}

pub(crate) fn read_slot(buf: &[u8], pos: usize) -> (r: Option<(Option<Conversation>, usize)>)
    requires
        pos <= buf@.len(),
    ensures
        match parse_slot(buf@.skip(pos as int)) {
            Some((v, rest)) => r matches Some(t) && slot_view(t.0) == v && t.1 <= buf@.len()
                && buf@.skip(t.1 as int) == rest,
            None => r is None,
        },
{
    match read_u8(buf, pos) {
        None => None,
        Some((tag, p)) => {
            if tag == 0 {
                Some((None, p))
            } else if tag == 1 {
                match read_conversation(buf, p) {
                    Some((c, p2)) => Some((Some(c), p2)),
                    None => None,
                }
            } else {
                None
            }
        },
    }
}

pub(crate) fn read_slots(buf: &[u8], pos: usize) -> (r: Option<(Vec<Option<Conversation>>, usize)>)
    requires
        pos <= buf@.len(),
    ensures
        match parse_list(buf@.skip(pos as int), slot_parser()) {
            Some((v, rest)) => r matches Some(t) && slots_view(t.0@) == v && t.1 <= buf@.len()
                && buf@.skip(t.1 as int) == rest,
            None => r is None,
        },
{
    let (n, start) = match read_u32(buf, pos) {
        Some(t) => t,
        None => { return None; },
    };
    let mut out: Vec<Option<Conversation>> = Vec::new();
    let mut p: usize = start;
    let mut i: u32 = 0;
    let ghost whole = parse_items(n as nat, buf@.skip(start as int), slot_parser());
    proof {
        match whole {
            Some((items, rest)) => {
                assert(slots_view(out@) + items =~= items);
            },
            None => {},
        }
    }
    while i < n
        invariant
            i <= n,
            p <= buf@.len(),
            whole == prepend(
                slots_view(out@),
                parse_items((n - i) as nat, buf@.skip(p as int), slot_parser()),
            ),
            parse_list(buf@.skip(pos as int), slot_parser()) == whole,
        decreases n - i,
    {
        match read_slot(buf, p) {
            None => {
                assert(parse_items((n - i) as nat, buf@.skip(p as int), slot_parser()) is None);
                return None;
            },
            Some((s, p2)) => {
                proof {
                    lemma_prepend_push(
                        slots_view(out@),
                        slot_view(s),
                        parse_items((n - i - 1) as nat, buf@.skip(p2 as int), slot_parser()),
                    );
                    assert(slots_view(out@.push(s)) =~= slots_view(out@).push(slot_view(s)));
                }
                out.push(s);
                p = p2;
                i += 1;
            },
        }
    }
    assert(slots_view(out@) + Seq::<Option<ConversationView>>::empty()
        =~= slots_view(out@));
    Some((out, p))
}

/// The store that the buffer holds. There is none where the buffer does not
/// parse as one store, or where bytes are left over.
pub fn decode(buf: &[u8]) -> (r: Option<Conversations>)
    ensures
        match decode_spec(buf@) {
            Some(v) => r matches Some(s) && s@ == v,
            None => r is None,
        },
{
    assert(buf@.skip(0) =~= buf@);
    let (conversations, p1) = match read_slots(buf, 0) {
        Some(t) => t,
        None => { return None; },
    };
    let (max_conversations, p2) = match read_usize(buf, p1) {
        Some(t) => t,
        None => { return None; },
    };
    let (active_conversations, p3) = match read_usize(buf, p2) {
        Some(t) => t,
        None => { return None; },
    };
    if p3 != buf.len() {
        return None;
    }
    Some(Conversations { conversations, max_conversations, active_conversations })
}

/// The bytes of one message; none exactly when a text in it is longer than
/// 32 bits can say.
pub fn encode_message(m: &Message) -> (r: Option<Vec<u8>>)
    ensures
        r is Some <==> message_fits(m@),
        r matches Some(bytes) ==> bytes@ == enc_message(m@) && complete(parse_message(bytes@))
            == Some(m@),
{
    let mut out: Vec<u8> = Vec::new();
    if !write_message(&mut out, m) {
        return None;
    }
    proof {
        lemma_message_round_trip(m@);
    }
    assert(out@ =~= enc_message(m@));
    Some(out)
}

/// The message that the buffer holds, if it holds exactly one.
pub fn decode_message(buf: &[u8]) -> (r: Option<Message>)
    ensures
        match complete(parse_message(buf@)) {
            Some(v) => r matches Some(m) && m@ == v,
            None => r is None,
        },
{
    assert(buf@.skip(0) =~= buf@);
    match read_message(buf, 0) {
        Some((m, end)) => {
            if end == buf.len() {
                Some(m)
            } else {
                None
            }
        },
        None => None,
    }
}

/// The bytes of one conversation; none exactly when a length in it does not
/// fit in 32 bits.
pub fn encode_conversation(c: &Conversation) -> (r: Option<Vec<u8>>)
    ensures
        r is Some <==> conversation_fits(c@),
        r matches Some(bytes) ==> bytes@ == enc_conversation(c@) && complete(
            parse_conversation(bytes@),
        ) == Some(c@),
{
    let mut out: Vec<u8> = Vec::new();
    if !write_conversation(&mut out, c) {
        return None;
    }
    proof {
        lemma_conversation_round_trip(c@);
    }
    assert(out@ =~= enc_conversation(c@));
    Some(out)
}

/// The conversation that the buffer holds, if it holds exactly one.
pub fn decode_conversation(buf: &[u8]) -> (r: Option<Conversation>)
    ensures
        match complete(parse_conversation(buf@)) {
            Some(v) => r matches Some(c) && c@ == v,
            None => r is None,
        },
{
    assert(buf@.skip(0) =~= buf@);
    match read_conversation(buf, 0) {
        Some((c, end)) => {
            if end == buf.len() {
                Some(c)
            } else {
                None
            }
        },
        None => None,
    }
}

} // verus!
