//! Payload of the `HelloReply` frame: a one-entry map from the text key
//! `session_id` to the session id as an eight-byte unsigned integer, in
//! the concise binary object encoding.

use vstd::prelude::*;
use crate::frame::{
    be_bytes, lemma_be_round_trip, lemma_be_value_bound, lemma_bytes_of_be_value,
    lemma_pow256_values, push_be, read_be,
};

verus! {

/// The text key of the single map entry, as bytes.
pub open spec fn session_id_key() -> Seq<u8> {
    seq![0x73u8, 0x65, 0x73, 0x73, 0x69, 0x6f, 0x6e, 0x5f, 0x69, 0x64]
}

/// The payload bytes that carry `session_id`.
pub open spec fn hello_reply_bytes(session_id: u64) -> Seq<u8> {
    seq![0xa1u8, 0x6a] + session_id_key() + seq![0x1bu8] + be_bytes(session_id as nat, 8)
}

/// The session id that payload `p` carries, if it is a `HelloReply` payload.
pub open spec fn hello_reply_id(p: Seq<u8>) -> Option<u64> {
    if exists|id: u64| p == hello_reply_bytes(id) {
        Some(choose|id: u64| p == hello_reply_bytes(id))
    } else {
        None
    }
}

/// Distinct session ids give distinct payloads.
pub proof fn lemma_hello_reply_injective(a: u64, b: u64)
    requires
        hello_reply_bytes(a) == hello_reply_bytes(b),
    ensures
        a == b,
{
    lemma_pow256_values();
    lemma_be_round_trip(a as nat, 8);
    lemma_be_round_trip(b as nat, 8);
    assert(hello_reply_bytes(a).subrange(13, 21) =~= be_bytes(a as nat, 8));
    assert(hello_reply_bytes(b).subrange(13, 21) =~= be_bytes(b as nat, 8));
}

/// The payload for `id` is read back as `id`.
pub proof fn lemma_hello_reply_id(id: u64)
    ensures
        hello_reply_id(hello_reply_bytes(id)) == Some(id),
{
    let p = hello_reply_bytes(id);
    assert(exists|x: u64| p == hello_reply_bytes(x));
    let c = choose|x: u64| p == hello_reply_bytes(x);
    lemma_hello_reply_injective(c, id);
}

/// Length of a `HelloReply` payload.
pub const HELLO_REPLY_SIZE: usize = 21;

const KEY: [u8; 10] = [0x73, 0x65, 0x73, 0x73, 0x69, 0x6f, 0x6e, 0x5f, 0x69, 0x64];

/// Encodes the payload of a `HelloReply` carrying `session_id`.
pub fn encode_hello_reply(session_id: u64) -> (r: Vec<u8>)
    ensures
        r@ == hello_reply_bytes(session_id),
        r@.len() == HELLO_REPLY_SIZE,
{
    let mut out: Vec<u8> = Vec::new();
    out.push(0xa1);
    out.push(0x6a);
    let mut i: usize = 0;
    while i < 10
        invariant
            i <= 10,
            KEY@ == session_id_key(),
            out@ == seq![0xa1u8, 0x6a] + session_id_key().subrange(0, i as int),
        decreases 10 - i,
    {
        out.push(KEY[i]);
        i = i + 1;
        assert(out@ =~= seq![0xa1u8, 0x6a] + session_id_key().subrange(0, i as int));
    }
    out.push(0x1b);
    push_be(&mut out, session_id as u128, 8);
    proof {
        lemma_pow256_values();
        lemma_be_round_trip(session_id as nat, 8);
    }
    assert(out@ =~= hello_reply_bytes(session_id));
    out
}

/// The session id that a `HelloReply` payload carries, or `None` where the
/// bytes are not exactly such a payload.
pub fn decode_hello_reply(b: &[u8]) -> (r: Option<u64>)
    ensures
        r == hello_reply_id(b@),
{
    proof {
        lemma_pow256_values();
    }
    if b.len() != HELLO_REPLY_SIZE || b[0] != 0xa1 || b[1] != 0x6a || b[12] != 0x1b {
        proof {
            assert forall|id: u64| b@ != hello_reply_bytes(id) by {
                lemma_be_round_trip(id as nat, 8);
                if b@ == hello_reply_bytes(id) {
                    assert(b@[12] == hello_reply_bytes(id)[12]);
                }
            }
        }
        return None;
    }
    let mut i: usize = 0;
    while i < 10
        invariant
            i <= 10,
            b@.len() == HELLO_REPLY_SIZE,
            KEY@ == session_id_key(),
            forall|j: int| 0 <= j < i ==> b@[2 + j] == session_id_key()[j],
        decreases 10 - i,
    {
        if b[2 + i] != KEY[i] {
            proof {
                lemma_pow256_values();
                assert forall|id: u64| b@ != hello_reply_bytes(id) by {
                    lemma_be_round_trip(id as nat, 8);
                    if b@ == hello_reply_bytes(id) {
                        assert(b@[2 + i] == hello_reply_bytes(id)[2 + i]);
                    }
                }
            }
            return None;
        }
        i = i + 1;
    }
    let v = read_be(b, 13, 8);
    proof {
        lemma_be_value_bound(b@.subrange(13, 21));
        lemma_bytes_of_be_value(b@.subrange(13, 21));
        assert(b@ =~= hello_reply_bytes(v as u64));
        let c = choose|id: u64| b@ == hello_reply_bytes(id);
        lemma_hello_reply_injective(c, v as u64);
    }
    Some(v as u64)
}

} // verus!
