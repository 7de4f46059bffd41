//! What a read buffer gives back of the bytes a packet was written as.
use vstd::prelude::*;
use crate::protocol::error::ProtocolError;
use crate::protocol::packets::connect::{
    connect_remaining_length, connect_variable_header, connect_well_formed, fields_bytes, opt_bytes, opt_len,
};
use crate::protocol::packets::packet::{lemma_packet_roundtrip, packet_well_formed};
use crate::protocol::packets::publish::{publish_body, publish_remaining_length};
use crate::protocol::packets::subscribe::subscribe_body;
use crate::protocol::packets::unsubscribe::unsubscribe_remaining_length;
use crate::protocol::packets::Packet;
use crate::protocol::utils::{
    be_bytes, length_prefixed, lemma_varint_len, lemma_varint_roundtrip, spec_encode_varint, MAX_VARIABLE_LENGTH,
};
use crate::server::buffer_manager::{decoded, frame_length};

verus! {

/// Bytes made of a first byte, the remaining-length field for `rl` and `rl` more bytes
/// frame exactly one packet, whatever follows them.
proof fn lemma_framed(w: Seq<u8>, rl: nat, body: Seq<u8>, rest: Seq<u8>)
    requires
        rl <= MAX_VARIABLE_LENGTH,
        body.len() == rl,
        w.len() >= 1,
        w.skip(1) == spec_encode_varint(rl) + body,
    ensures
        frame_length(w + rest) == Ok::<Option<int>, ProtocolError>(Some(w.len() as int)),
{
    lemma_varint_len(rl);
    lemma_varint_roundtrip(rl, body + rest);
    assert((w + rest).skip(1) =~= w.skip(1) + rest);
    assert(w.skip(1) + rest =~= spec_encode_varint(rl) + (body + rest));
    assert(w.len() == 1 + w.skip(1).len());
}

proof fn lemma_opt_bytes_len(f: Option<Seq<u8>>)
    ensures
        opt_bytes(f).len() == opt_len(f),
{
}

proof fn lemma_connect_framed<const MAX_TOPIC_NAME_LENGTH: usize, const MAX_PAYLOAD_SIZE: usize>(
    p: Packet<MAX_TOPIC_NAME_LENGTH, MAX_PAYLOAD_SIZE>,
    rest: Seq<u8>,
)
    requires
        p is Connect,
        packet_well_formed(p),
    ensures
        frame_length(p.wire_bytes() + rest) == Ok::<Option<int>, ProtocolError>(Some(p.wire_bytes().len() as int)),
{
    let w = p.wire_bytes();
    let m = p->Connect_0@;
    reveal(connect_well_formed);
    let rl = connect_remaining_length(m);
    let body = connect_variable_header(m.flags, m.keep_alive) + fields_bytes(
        m.client_id,
        m.will_topic,
        m.will_payload,
        m.username,
        m.password,
    );
    lemma_opt_bytes_len(m.will_topic);
    lemma_opt_bytes_len(m.will_payload);
    lemma_opt_bytes_len(m.username);
    lemma_opt_bytes_len(m.password);
    assert(body.len() == rl);
    assert(w.skip(1) =~= spec_encode_varint(rl as nat) + body);
    lemma_framed(w, rl as nat, body, rest);
}

proof fn lemma_publish_framed<const MAX_TOPIC_NAME_LENGTH: usize, const MAX_PAYLOAD_SIZE: usize>(
    p: Packet<MAX_TOPIC_NAME_LENGTH, MAX_PAYLOAD_SIZE>,
    rest: Seq<u8>,
)
    requires
        p is Publish,
        packet_well_formed(p),
    ensures
        frame_length(p.wire_bytes() + rest) == Ok::<Option<int>, ProtocolError>(Some(p.wire_bytes().len() as int)),
{
    let w = p.wire_bytes();
    let m = p->Publish_0@;
    let rl = publish_remaining_length(m);
    assert(publish_body(m).len() == rl);
    assert(w.skip(1) =~= spec_encode_varint(rl as nat) + publish_body(m));
    lemma_framed(w, rl as nat, publish_body(m), rest);
}

proof fn lemma_subscribe_framed<const MAX_TOPIC_NAME_LENGTH: usize, const MAX_PAYLOAD_SIZE: usize>(
    p: Packet<MAX_TOPIC_NAME_LENGTH, MAX_PAYLOAD_SIZE>,
    rest: Seq<u8>,
)
    requires
        p is Subscribe || p is Unsubscribe,
        packet_well_formed(p),
    ensures
        frame_length(p.wire_bytes() + rest) == Ok::<Option<int>, ProtocolError>(Some(p.wire_bytes().len() as int)),
{
    let w = p.wire_bytes();
    if let Packet::Subscribe(q) = p {
        let m = q@;
        let rl = 5 + m.topic_filter.len();
        assert(subscribe_body(m).len() == rl);
        assert(w.skip(1) =~= spec_encode_varint(rl as nat) + subscribe_body(m));
        lemma_framed(w, rl as nat, subscribe_body(m), rest);
    } else if let Packet::Unsubscribe(q) = p {
        let m = q@;
        let rl = unsubscribe_remaining_length(m);
        let body = be_bytes(m.packet_id as int) + length_prefixed(m.topic_filter);
        assert(body.len() == rl);
        assert(w.skip(1) =~= spec_encode_varint(rl as nat) + body);
        lemma_framed(w, rl as nat, body, rest);
    }
}

proof fn lemma_fixed_framed<const MAX_TOPIC_NAME_LENGTH: usize, const MAX_PAYLOAD_SIZE: usize>(
    p: Packet<MAX_TOPIC_NAME_LENGTH, MAX_PAYLOAD_SIZE>,
    rest: Seq<u8>,
)
    requires
        !(p is Connect || p is Publish || p is Subscribe || p is Unsubscribe),
    ensures
        frame_length(p.wire_bytes() + rest) == Ok::<Option<int>, ProtocolError>(Some(p.wire_bytes().len() as int)),
{
    let w = p.wire_bytes();
    reveal_with_fuel(spec_encode_varint, 2);
    if p is PingReq || p is PingResp || p is Disconnect {
        assert(w.skip(1) =~= spec_encode_varint(0) + Seq::<u8>::empty());
        lemma_framed(w, 0, Seq::<u8>::empty(), rest);
    } else if p is SubAck {
        assert(w.skip(1) =~= spec_encode_varint(3) + w.skip(2));
        lemma_framed(w, 3, w.skip(2), rest);
    } else {
        assert(w.skip(1) =~= spec_encode_varint(2) + w.skip(2));
        lemma_framed(w, 2, w.skip(2), rest);
    }
}

/// The bytes a well-formed packet is written as, followed by anything, are taken out of a
/// read buffer as that packet, and what followed is left in the buffer.
pub proof fn lemma_frame_roundtrip<const MAX_TOPIC_NAME_LENGTH: usize, const MAX_PAYLOAD_SIZE: usize>(
    p: Packet<MAX_TOPIC_NAME_LENGTH, MAX_PAYLOAD_SIZE>,
    rest: Seq<u8>,
)
    requires
        packet_well_formed(p),
    ensures
        decoded::<MAX_TOPIC_NAME_LENGTH, MAX_PAYLOAD_SIZE>(
            p.wire_bytes() + rest,
            Ok(Some(p)),
            rest,
        ),
{
    let w = p.wire_bytes();
    lemma_packet_roundtrip(p, Seq::<u8>::empty());
    assert(w + Seq::<u8>::empty() =~= w);
    if p is Connect {
        lemma_connect_framed(p, rest);
    } else if p is Publish {
        lemma_publish_framed(p, rest);
    } else if p is Subscribe || p is Unsubscribe {
        lemma_subscribe_framed(p, rest);
    } else {
        lemma_fixed_framed(p, rest);
    }
    assert((w + rest).take(w.len() as int) =~= w);
    assert((w + rest).skip(w.len() as int) =~= rest);
}

/// Whatever the read buffer gives back for the bytes of a well-formed packet followed by
/// anything is a packet read from exactly those bytes, and what followed them is what is
/// left in the buffer.
pub proof fn lemma_decoded_frame<const MAX_TOPIC_NAME_LENGTH: usize, const MAX_PAYLOAD_SIZE: usize>(
    p: Packet<MAX_TOPIC_NAME_LENGTH, MAX_PAYLOAD_SIZE>,
    rest: Seq<u8>,
    d: Result<Option<Packet<MAX_TOPIC_NAME_LENGTH, MAX_PAYLOAD_SIZE>>, ProtocolError>,
    left: Seq<u8>,
)
    requires
        packet_well_formed(p),
        decoded::<MAX_TOPIC_NAME_LENGTH, MAX_PAYLOAD_SIZE>(p.wire_bytes() + rest, d, left),
    ensures
        left == rest,
        d matches Ok(Some(q)) && Packet::<MAX_TOPIC_NAME_LENGTH, MAX_PAYLOAD_SIZE>::decodes_as(
            Ok(q),
            p.wire_bytes(),
        ),
{
    let w = p.wire_bytes();
    let bytes = w + rest;
    lemma_frame_roundtrip(p, rest);
    let t = frame_length(bytes)->Ok_0->Some_0;
    assert(bytes.skip(t).len() == rest.len());
    assert(t == w.len());
    assert(bytes.take(t) =~= w);
}

} // verus!
