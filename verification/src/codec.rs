//! The datagram codec.
//!
//! Every message is one self-describing byte string: a one-byte variant tag
//! followed by the variant's payload. An endpoint takes a fixed 19 bytes
//! (family flag, 16 little-endian IP bytes, 2 little-endian port bytes); a
//! peer list is prefixed with its 64-bit little-endian element count. The
//! encoding is lossless: decoding an encoded message yields the message back,
//! and decoding rejects every byte string that no message encodes to.

use vstd::bytes::*;
use vstd::prelude::*;
use vstd::seq_lib::*;
use vstd::slice::*;

use crate::addr::Addr;
use crate::message::{MessageView, NetworkMessage};

verus! {

/// Variant tag of `KeepAlive`.
pub const TAG_KEEP_ALIVE: u8 = 0;

/// Variant tag of `NewNode`.
pub const TAG_NEW_NODE: u8 = 1;

/// Variant tag of `RequestPeerList`.
pub const TAG_REQUEST_PEER_LIST: u8 = 2;

/// Variant tag of `PeerList`.
pub const TAG_PEER_LIST: u8 = 3;

/// Encoded size of one endpoint: flag byte, 16 IP bytes, 2 port bytes.
pub const ADDR_LEN: usize = 19;

/// The largest payload a single datagram may carry (64 KiB minus nothing):
/// callers hand the decoder at most one datagram's worth of bytes.
pub const MAX_DATAGRAM_LEN: usize = 65535;

/// Why a byte string was rejected by `decode`.
#[derive(Clone, Copy, PartialEq, Eq, Structural, Debug)]
pub enum DecodeError {
    /// The input holds no bytes at all.
    Empty,
    /// The first byte is not the tag of any known variant.
    UnknownTag,
    /// The tag is known but the rest is not a well-formed payload for it.
    Malformed,
}

/// The bytes of one endpoint.
pub open spec fn spec_encode_addr(a: Addr) -> Seq<u8> {
    seq![if a.is_v6 { 1u8 } else { 0u8 }] + spec_u128_to_le_bytes(a.ip) + spec_u16_to_le_bytes(
        a.port,
    )
}

/// The bytes of a list of endpoints, in order.
pub open spec fn spec_encode_peers(ps: Seq<Addr>) -> Seq<u8>
    decreases ps.len(),
{
    if ps.len() == 0 {
        Seq::empty()
    } else {
        spec_encode_addr(ps[0]) + spec_encode_peers(ps.drop_first())
    }
}

/// The bytes of a whole message.
pub open spec fn spec_encode(m: MessageView) -> Seq<u8> {
    match m {
        MessageView::KeepAlive => seq![TAG_KEEP_ALIVE],
        MessageView::NewNode { addr } => seq![TAG_NEW_NODE] + spec_encode_addr(addr),
        MessageView::RequestPeerList => seq![TAG_REQUEST_PEER_LIST],
        MessageView::PeerList { peers } => seq![TAG_PEER_LIST] + spec_u64_to_le_bytes(
            peers.len() as u64,
        ) + spec_encode_peers(peers),
    }
}

/// The endpoint a 19-byte string stands for, if any: the family flag must be
/// 0 or 1.
pub open spec fn spec_decode_addr(s: Seq<u8>) -> Option<Addr> {
    if s.len() == 19 && (s[0] == 0 || s[0] == 1) {
        Some(
            Addr {
                is_v6: s[0] == 1,
                ip: spec_u128_from_le_bytes(s.subrange(1, 17)),
                port: spec_u16_from_le_bytes(s.subrange(17, 19)),
            },
        )
    } else {
        None
    }
}

/// The list of `n` endpoints a byte string stands for, if it is exactly `n`
/// back-to-back endpoint encodings.
pub open spec fn spec_decode_peers(s: Seq<u8>, n: nat) -> Option<Seq<Addr>>
    decreases n,
{
    if n == 0 {
        if s.len() == 0 {
            Some(Seq::empty())
        } else {
            None
        }
    } else if s.len() < 19 {
        None
    } else {
        match spec_decode_addr(s.subrange(0, 19)) {
            Some(a) => match spec_decode_peers(s.subrange(19, s.len() as int), (n - 1) as nat) {
                Some(rest) => Some(seq![a] + rest),
                None => None,
            },
            None => None,
        }
    }
}

/// The message a byte string stands for, if any. Trailing bytes make the
/// string stand for nothing.
pub open spec fn spec_decode(s: Seq<u8>) -> Option<MessageView> {
    if s.len() == 0 {
        None
    } else if s[0] == TAG_KEEP_ALIVE {
        if s.len() == 1 {
            Some(MessageView::KeepAlive)
        } else {
            None
        }
    } else if s[0] == TAG_NEW_NODE {
        match spec_decode_addr(s.subrange(1, s.len() as int)) {
            Some(a) => Some(MessageView::NewNode { addr: a }),
            None => None,
        }
    } else if s[0] == TAG_REQUEST_PEER_LIST {
        if s.len() == 1 {
            Some(MessageView::RequestPeerList)
        } else {
            None
        }
    } else if s[0] == TAG_PEER_LIST {
        if s.len() >= 9 {
            match spec_decode_peers(
                s.subrange(9, s.len() as int),
                spec_u64_from_le_bytes(s.subrange(1, 9)) as nat,
            ) {
                Some(ps) => Some(MessageView::PeerList { peers: ps }),
                None => None,
            }
        } else {
            None
        }
    } else {
        None
    }
}

/// Which error an undecodable byte string is reported with.
pub open spec fn spec_classify(s: Seq<u8>) -> DecodeError {
    if s.len() == 0 {
        DecodeError::Empty
    } else if s[0] > TAG_PEER_LIST {
        DecodeError::UnknownTag
    } else {
        DecodeError::Malformed
    }
}

/// Appends the encoding of one endpoint.
fn push_addr(out: &mut Vec<u8>, a: &Addr)
    ensures
        final(out)@ == old(out)@ + spec_encode_addr(*a),
{
    if a.is_v6 {
        out.push(1u8);
    } else {
        out.push(0u8);
    }
    let mut ip = u128_to_le_bytes(a.ip);
    out.append(&mut ip);
    let mut port = u16_to_le_bytes(a.port);
    out.append(&mut port);
    proof {
        assert(out@ =~= old(out)@ + spec_encode_addr(*a));
    }
}

/// Encoding of a growing prefix: one more element appends its bytes.
proof fn lemma_encode_peers_take_step(s: Seq<Addr>, i: int)
    requires
        0 <= i < s.len(),
    ensures
        spec_encode_peers(s.take(i + 1)) == spec_encode_peers(s.take(i)) + spec_encode_addr(s[i]),
    decreases i,
{
    if i == 0 {
        assert(s.take(1).drop_first() =~= Seq::<Addr>::empty());
        assert(s.take(1)[0] == s[0]);
        assert(spec_encode_peers(s.take(1).drop_first()) == Seq::<u8>::empty());
        assert(spec_encode_peers(s.take(1)) == spec_encode_addr(s[0]) + Seq::<u8>::empty());
        assert(spec_encode_addr(s[0]) + Seq::<u8>::empty() =~= spec_encode_addr(s[0]));
        assert(s.take(0).len() == 0);
        assert(spec_encode_peers(s.take(0)) + spec_encode_addr(s[0]) =~= spec_encode_addr(s[0]));
    } else {
        let t = s.drop_first();
        lemma_encode_peers_take_step(t, i - 1);
        assert(s.take(i + 1).drop_first() =~= t.take(i));
        assert(s.take(i).drop_first() =~= t.take(i - 1));
        assert(s.take(i + 1)[0] == s[0]);
        assert(s.take(i)[0] == s[0]);
        assert(spec_encode_peers(s.take(i + 1)) == spec_encode_addr(s[0]) + spec_encode_peers(
            t.take(i),
        ));
        assert(spec_encode_peers(s.take(i)) == spec_encode_addr(s[0]) + spec_encode_peers(
            t.take(i - 1),
        ));
        assert(t[i - 1] == s[i]);
        assert(spec_encode_addr(s[0]) + (spec_encode_peers(t.take(i - 1)) + spec_encode_addr(s[i]))
            =~= (spec_encode_addr(s[0]) + spec_encode_peers(t.take(i - 1))) + spec_encode_addr(
            s[i],
        ));
    }
}

/// Encodes a message into the bytes of one datagram.
pub fn encode(msg: &NetworkMessage) -> (r: Vec<u8>)
    ensures
        r@ == spec_encode(msg@),
{
    let mut out: Vec<u8> = Vec::new();
    match msg {
        NetworkMessage::KeepAlive => {
            out.push(TAG_KEEP_ALIVE);
            proof {
                assert(out@ =~= spec_encode(msg@));
            }
        },
        NetworkMessage::NewNode { addr } => {
            out.push(TAG_NEW_NODE);
            push_addr(&mut out, addr);
            proof {
                assert(out@ =~= spec_encode(msg@));
            }
        },
        NetworkMessage::RequestPeerList => {
            out.push(TAG_REQUEST_PEER_LIST);
            proof {
                assert(out@ =~= spec_encode(msg@));
            }
        },
        NetworkMessage::PeerList { peers } => {
            out.push(TAG_PEER_LIST);
            let mut count = u64_to_le_bytes(peers.len() as u64);
            out.append(&mut count);
            let header = Ghost(out@);
            let mut i: usize = 0;
            while i < peers.len()
                invariant
                    0 <= i <= peers@.len(),
                    header@ == seq![TAG_PEER_LIST] + spec_u64_to_le_bytes(peers@.len() as u64),
                    out@ == header@ + spec_encode_peers(peers@.take(i as int)),
                decreases peers@.len() - i,
            {
                let a = peers[i];
                push_addr(&mut out, &a);
                proof {
                    lemma_encode_peers_take_step(peers@, i as int);
                }
                i = i + 1;
            }
            proof {
                assert(peers@.take(peers@.len() as int) =~= peers@);
                assert(out@ =~= spec_encode(msg@));
            }
        },
    }
    out
}

/// Decodes one endpoint from exactly 19 bytes.
fn decode_addr(s: &[u8]) -> (r: Result<Addr, DecodeError>)
    requires
        s@.len() == 19,
    ensures
        match r {
            Ok(a) => spec_decode_addr(s@) == Some(a),
            Err(e) => spec_decode_addr(s@) is None && e == DecodeError::Malformed,
        },
{
    let flag = *slice_index_get(s, 0);
    if flag > 1 {
        return Err(DecodeError::Malformed);
    }
    let ip = u128_from_le_bytes(slice_subrange(s, 1, 17));
    let port = u16_from_le_bytes(slice_subrange(s, 17, 19));
    Ok(Addr { is_v6: flag == 1, ip, port })
}

/// Decodes the bytes of one datagram back into a message.
///
/// Succeeds exactly on the byte strings that `spec_decode` accepts; every
/// other input is reported with the error `spec_classify` names, never
/// silently replaced by a default.
pub fn decode(bytes: &Vec<u8>) -> (r: Result<NetworkMessage, DecodeError>)
    ensures
        match r {
            Ok(m) => spec_decode(bytes@) == Some(m@),
            Err(e) => spec_decode(bytes@) is None && e == spec_classify(bytes@),
        },
{
    let n = bytes.len();
    if n == 0 {
        return Err(DecodeError::Empty);
    }
    let tag = bytes[0];
    if tag == TAG_KEEP_ALIVE {
        if n == 1 {
            Ok(NetworkMessage::KeepAlive)
        } else {
            Err(DecodeError::Malformed)
        }
    } else if tag == TAG_NEW_NODE {
        if n != 1 + ADDR_LEN {
            return Err(DecodeError::Malformed);
        }
        match decode_addr(slice_subrange(bytes.as_slice(), 1, 20)) {
            Ok(a) => Ok(NetworkMessage::NewNode { addr: a }),
            Err(e) => Err(e),
        }
    } else if tag == TAG_REQUEST_PEER_LIST {
        if n == 1 {
            Ok(NetworkMessage::RequestPeerList)
        } else {
            Err(DecodeError::Malformed)
        }
    } else if tag == TAG_PEER_LIST {
        decode_peer_list(bytes)
    } else {
        Err(DecodeError::UnknownTag)
    }
}

/// Decodes the payload of a `PeerList` datagram: the count, then exactly that
/// many endpoint encodings.
fn decode_peer_list(bytes: &Vec<u8>) -> (r: Result<NetworkMessage, DecodeError>)
    requires
        bytes@.len() >= 1,
        bytes@[0] == TAG_PEER_LIST,
    ensures
        match r {
            Ok(m) => spec_decode(bytes@) == Some(m@),
            Err(e) => spec_decode(bytes@) is None && e == DecodeError::Malformed,
        },
{
    let n = bytes.len();
    if n < 9 {
        return Err(DecodeError::Malformed);
    }
    let count = u64_from_le_bytes(slice_subrange(bytes.as_slice(), 1, 9));
    let rem = n - 9;
    if (count as u128) * (ADDR_LEN as u128) != (rem as u128) {
        proof {
            lemma_decode_peers_needs_exact_len(
                bytes@.subrange(9, bytes@.len() as int),
                count as nat,
            );
        }
        return Err(DecodeError::Malformed);
    }
    assert(count <= rem as u64);
    let total = count as usize;
    let ghost body = bytes@.subrange(9, bytes@.len() as int);
    let mut peers: Vec<Addr> = Vec::new();
    let mut i: usize = 0;
    while i < total
        invariant
            0 <= i <= total,
            peers@.len() == i,
            bytes@.len() == 9 + 19 * total,
            9 + 19 * total <= usize::MAX,
            bytes@[0] == TAG_PEER_LIST,
            spec_u64_from_le_bytes(bytes@.subrange(1, 9)) as nat == total as nat,
            body == bytes@.subrange(9, bytes@.len() as int),
            body.len() == 19 * total,
            forall|t: Seq<Addr>|
                spec_decode_peers(
                    bytes@.subrange(9 + 19 * (i as int), bytes@.len() as int),
                    (total - i) as nat,
                ) == Some(t) ==> spec_decode_peers(body, total as nat) == Some(peers@ + t),
            spec_decode_peers(
                bytes@.subrange(9 + 19 * (i as int), bytes@.len() as int),
                (total - i) as nat,
            ) is None ==> spec_decode_peers(body, total as nat) is None,
        decreases total - i,
    {
        let off = 9 + i * 19;
        let ghost suffix = bytes@.subrange(9 + 19 * (i as int), bytes@.len() as int);
        proof {
            assert(suffix.len() == 19 * (total - i));
            assert(suffix.subrange(0, 19) =~= bytes@.subrange(off as int, off as int + 19));
            assert(suffix.subrange(19, suffix.len() as int) =~= bytes@.subrange(
                9 + 19 * (i as int + 1),
                bytes@.len() as int,
            ));
        }
        match decode_addr(slice_subrange(bytes.as_slice(), off, off + 19)) {
            Ok(a) => {
                proof {
                    let rest = bytes@.subrange(9 + 19 * (i as int + 1), bytes@.len() as int);
                    assert forall|t2: Seq<Addr>|
                        spec_decode_peers(rest, (total - i - 1) as nat) == Some(t2) implies
                        spec_decode_peers(body, total as nat) == Some(peers@.push(a) + t2) by {
                        assert(spec_decode_peers(suffix, (total - i) as nat) == Some(
                            seq![a] + t2,
                        ));
                        assert(peers@ + (seq![a] + t2) =~= peers@.push(a) + t2);
                    }
                }
                peers.push(a);
            },
            Err(_) => {
                proof {
                    assert(spec_decode_peers(suffix, (total - i) as nat) is None);
                }
                return Err(DecodeError::Malformed);
            },
        }
        i = i + 1;
    }
    proof {
        assert(bytes@.subrange(9 + 19 * (total as int), bytes@.len() as int) =~= Seq::<
            u8,
        >::empty());
        assert(spec_decode_peers(
            bytes@.subrange(9 + 19 * (total as int), bytes@.len() as int),
            0,
        ) == Some(Seq::<Addr>::empty()));
        assert(peers@ + Seq::<Addr>::empty() =~= peers@);
        assert(spec_decode_peers(body, total as nat) == Some(peers@));
    }
    Ok(NetworkMessage::PeerList { peers })
}

/// A byte string that is not exactly `n` endpoint encodings long stands for
/// no list of `n` endpoints.
proof fn lemma_decode_peers_needs_exact_len(s: Seq<u8>, n: nat)
    requires
        s.len() != 19 * n,
    ensures
        spec_decode_peers(s, n) is None,
    decreases n,
{
    if n == 0 {
    } else if s.len() < 19 {
    } else {
        lemma_decode_peers_needs_exact_len(s.subrange(19, s.len() as int), (n - 1) as nat);
    }
}

/// Round trip for one endpoint: its 19 bytes decode back to it.
pub proof fn lemma_addr_round_trip(a: Addr)
    ensures
        spec_encode_addr(a).len() == 19,
        spec_decode_addr(spec_encode_addr(a)) == Some(a),
{
    lemma_auto_spec_u128_to_from_le_bytes();
    lemma_auto_spec_u16_to_from_le_bytes();
    let s = spec_encode_addr(a);
    assert(s.subrange(1, 17) =~= spec_u128_to_le_bytes(a.ip));
    assert(s.subrange(17, 19) =~= spec_u16_to_le_bytes(a.port));
    assert(s[0] == if a.is_v6 { 1u8 } else { 0u8 });
}

/// Round trip for a list of endpoints.
pub proof fn lemma_peers_round_trip(ps: Seq<Addr>)
    ensures
        spec_encode_peers(ps).len() == 19 * ps.len(),
        spec_decode_peers(spec_encode_peers(ps), ps.len()) == Some(ps),
    decreases ps.len(),
{
    if ps.len() == 0 {
    } else {
        lemma_addr_round_trip(ps[0]);
        lemma_peers_round_trip(ps.drop_first());
        let e = spec_encode_peers(ps);
        let head = spec_encode_addr(ps[0]);
        let tail = spec_encode_peers(ps.drop_first());
        assert(e.subrange(0, 19) =~= head);
        assert(e.subrange(19, e.len() as int) =~= tail);
        assert(spec_decode_peers(e, ps.len()) == Some(seq![ps[0]] + ps.drop_first()));
        assert(seq![ps[0]] + ps.drop_first() =~= ps);
    }
}

/// Round-trip codec: decoding the encoding of any message yields the message
/// back, for every variant and payload a datagram can carry.
pub proof fn lemma_round_trip(m: MessageView)
    requires
        m matches MessageView::PeerList { peers } ==> peers.len() <= u64::MAX,
    ensures
        spec_decode(spec_encode(m)) == Some(m),
{
    let s = spec_encode(m);
    match m {
        MessageView::KeepAlive => {
            assert(s.len() == 1 && s[0] == TAG_KEEP_ALIVE);
        },
        MessageView::NewNode { addr } => {
            lemma_addr_round_trip(addr);
            assert(s[0] == TAG_NEW_NODE);
            assert(s.subrange(1, s.len() as int) =~= spec_encode_addr(addr));
        },
        MessageView::RequestPeerList => {
            assert(s.len() == 1 && s[0] == TAG_REQUEST_PEER_LIST);
        },
        MessageView::PeerList { peers } => {
            lemma_auto_spec_u64_to_from_le_bytes();
            lemma_peers_round_trip(peers);
            let count = spec_u64_to_le_bytes(peers.len() as u64);
            let body = spec_encode_peers(peers);
            assert(s[0] == TAG_PEER_LIST);
            assert(s.len() == 9 + 19 * peers.len());
            assert(s.subrange(1, 9) =~= count);
            assert(s.subrange(9, s.len() as int) =~= body);
            assert(spec_u64_from_le_bytes(count) == peers.len() as u64);
            assert((peers.len() as u64) as nat == peers.len());
        },
    }
}

} // verus!
