//! The sender-key data plane. For each group epoch every sender derives a
//! seed from the epoch secret; the seed starts a symmetric ratchet whose
//! message keys encrypt that sender's messages with XChaCha20-Poly1305,
//! the frame header serving as associated data.

use vstd::prelude::*;
use chacha20poly1305::aead::{Aead, KeyInit, Payload};
use crate::frame::{be_bytes, push_be, MAX_PAYLOAD_SIZE};

verus! {

/// HKDF-Expand with SHA-256 of pseudorandom key `prk` and context `info`,
/// 32 bytes long.
pub uninterp spec fn hkdf_expand_of(prk: Seq<u8>, info: Seq<u8>) -> Seq<u8>;

/// XChaCha20-Poly1305 sealing of `pt` under `key` and `nonce` with
/// associated data `ad`: the ciphertext followed by the 16-byte tag.
pub uninterp spec fn xchacha_seal_of(key: Seq<u8>, nonce: Seq<u8>, ad: Seq<u8>, pt: Seq<u8>) -> Seq<u8>;

/// Relies on hkdf's `Hkdf::<Sha256>::from_prk` (accepts a key of at least
/// 32 bytes) and `Hkdf::expand` (fills up to 255 * 32 bytes): RFC 5869
/// HKDF-Expand, a function of the key and the context alone.
#[verifier::external_body]
fn hkdf_expand(prk: &[u8], info: &[u8]) -> (r: [u8; 32])
    requires
        prk@.len() >= 32,
    ensures
        r@ == hkdf_expand_of(prk@, info@),
{
    let mut okm = [0u8; 32];
    if let Ok(hk) = hkdf::Hkdf::<sha2::Sha256>::from_prk(prk) {
        let _ = hk.expand(info, &mut okm);
    }
    okm
}

/// Relies on chacha20poly1305's `XChaCha20Poly1305` through
/// `KeyInit::new` and `Aead::encrypt`: the ciphertext, as long as the
/// plaintext, then a 16-byte tag; it fails only for plaintexts of 2^38
/// bytes or more.
#[verifier::external_body]
fn xchacha_seal(key: &[u8; 32], nonce: &[u8; 24], ad: &[u8], pt: &[u8]) -> (r: Vec<u8>)
    requires
        pt@.len() <= MAX_PAYLOAD_SIZE,
    ensures
        r@ == xchacha_seal_of(key@, nonce@, ad@, pt@),
        r@.len() == pt@.len() + 16,
{
    let cipher = chacha20poly1305::XChaCha20Poly1305::new(key.into());
    cipher.encrypt(nonce.into(), Payload { msg: pt, aad: ad }).unwrap_or_default()
}

/// Relies on chacha20poly1305's `Aead::decrypt` for `XChaCha20Poly1305`:
/// it checks the tag over the associated data and ciphertext and then
/// removes the keystream, so it returns `p` exactly when the input is the
/// sealing of `p` under the same key, nonce and associated data.
#[verifier::external_body]
fn xchacha_open(key: &[u8; 32], nonce: &[u8; 24], ad: &[u8], ct: &[u8]) -> (r: Option<Vec<u8>>)
    ensures
        r matches Some(p) ==> xchacha_seal_of(key@, nonce@, ad@, p@) == ct@,
        forall|p: Seq<u8>| p.len() <= MAX_PAYLOAD_SIZE && xchacha_seal_of(key@, nonce@, ad@, p) == ct@ ==> r is Some && r->Some_0@ == p,
{
    let cipher = chacha20poly1305::XChaCha20Poly1305::new(key.into());
    cipher.decrypt(nonce.into(), Payload { msg: ct, aad: ad }).ok()
}

/// Errors of the data plane.
#[derive(Debug, Clone, Copy, PartialEq, Eq, Structural)]
pub enum SenderKeyError {
    /// The ciphertext is not authentic under the expected key.
    DecryptionFailed,
    /// The message key for this counter is gone (used or out of window).
    StaleMessage,
    /// No ratchet exists for this sender.
    UnknownSender,
    /// The message belongs to another epoch.
    EpochMismatch { expected: u64, actual: u64 },
    /// The ratchet has no keys left.
    KeyDerivationFailed,
}

/// Bytes of the nonce that come from the random source.
pub const NONCE_RANDOM_SIZE: usize = 8;

/// Out-of-order window kept per sender.
pub const DEFAULT_WINDOW: u32 = 1024;

/// The context label of seed derivation, `lockframe/sender-key/v1`.
pub open spec fn sender_key_label() -> Seq<u8> {
    seq![
        108u8, 111, 99, 107, 102, 114, 97, 109, 101, 47, 115, 101, 110, 100, 101, 114, 45, 107, 101,
        121, 47, 118, 49,
    ]
}

const LABEL: [u8; 23] = [
    108, 111, 99, 107, 102, 114, 97, 109, 101, 47, 115, 101, 110, 100, 101, 114, 45, 107, 101, 121,
    47, 118, 49,
];

/// The derivation context of the seed of `sender` in `epoch`.
pub open spec fn sender_info(sender: u64, epoch: u64) -> Seq<u8> {
    sender_key_label() + be_bytes(sender as nat, 8) + be_bytes(epoch as nat, 8)
}

/// The seed of `sender`'s ratchet in `epoch`.
pub open spec fn seed_of(epoch_secret: Seq<u8>, sender: u64, epoch: u64) -> Seq<u8> {
    hkdf_expand_of(epoch_secret, sender_info(sender, epoch))
}

/// The context of message key `counter`: `mk` and the counter.
pub open spec fn message_info(counter: u32) -> Seq<u8> {
    seq![109u8, 107] + be_bytes(counter as nat, 4)
}

/// The context of the chain step: `ck`.
pub open spec fn chain_info() -> Seq<u8> {
    seq![99u8, 107]
}

/// The chain key after `n` steps from `seed`.
pub open spec fn chain_after(seed: Seq<u8>, n: nat) -> Seq<u8>
    decreases n,
{
    if n == 0 {
        seed
    } else {
        hkdf_expand_of(chain_after(seed, (n - 1) as nat), chain_info())
    }
}

/// Message key number `n` of the ratchet started from `seed`.
pub open spec fn message_key_of(seed: Seq<u8>, n: u32) -> Seq<u8> {
    hkdf_expand_of(chain_after(seed, n as nat), message_info(n))
}

/// The 24-byte nonce of message `counter`: twelve zero bytes, the counter
/// in four bytes, then the random bytes.
pub open spec fn nonce_of(counter: u32, random: Seq<u8>) -> Seq<u8> {
    Seq::new(12, |i: int| 0u8) + be_bytes(counter as nat, 4) + random
}

/// The derivation context of the seed of `sender` in `epoch`.
pub fn sender_key_info(sender_id: u64, epoch: u64) -> (r: Vec<u8>)
    ensures
        r@ == sender_info(sender_id, epoch),
{
    let mut out: Vec<u8> = Vec::new();
    let mut i: usize = 0;
    while i < 23
        invariant
            i <= 23,
            LABEL@ == sender_key_label(),
            out@ == sender_key_label().subrange(0, i as int),
        decreases 23 - i,
    {
        out.push(LABEL[i]);
        i = i + 1;
        assert(out@ =~= sender_key_label().subrange(0, i as int));
    }
    assert(sender_key_label().subrange(0, 23) =~= sender_key_label());
    push_be(&mut out, sender_id as u128, 8);
    push_be(&mut out, epoch as u128, 8);
    out
}

/// Derives the seed of `sender`'s ratchet in `epoch` from the epoch
/// secret.
pub fn derive_sender_key_seed(epoch_secret: &[u8], sender_id: u64, epoch: u64) -> (r: [u8; 32])
    requires
        epoch_secret@.len() >= 32,
    ensures
        r@ == seed_of(epoch_secret@, sender_id, epoch),
{
    let info = sender_key_info(sender_id, epoch);
    hkdf_expand(epoch_secret, info.as_slice())
}

/// A message key and the counter it belongs to.
#[derive(Debug, Clone, Copy, PartialEq, Eq)]
pub struct MessageKey {
    pub key: [u8; 32],
    pub counter: u32,
}

/// A symmetric ratchet: the current chain key and the counter of the next
/// message key. Earlier chain keys cannot be computed from it.
pub struct SymmetricRatchet {
    chain_key: [u8; 32],
    counter: u32,
    seed: Ghost<Seq<u8>>,
}

impl SymmetricRatchet {
    /// The seed the ratchet was started from.
    pub closed spec fn seed(&self) -> Seq<u8> {
        self.seed@
    }

    /// The counter of the next message key.
    pub closed spec fn next_counter(&self) -> u32 {
        self.counter
    }

    /// The chain key is the seed advanced `counter` times.
    pub closed spec fn wf(&self) -> bool {
        self.chain_key@ == chain_after(self.seed@, self.counter as nat)
    }

    /// A ratchet at counter 0 started from `seed`.
    pub fn new(seed: [u8; 32]) -> (r: SymmetricRatchet)
        ensures
            r.wf(),
            r.seed() == seed@,
            r.next_counter() == 0,
    {
        SymmetricRatchet { chain_key: seed, counter: 0, seed: Ghost(seed@) }
    }

    /// The counter of the next message key.
    pub fn counter(&self) -> (r: u32)
        ensures
            r == self.next_counter(),
    {
        self.counter
    }

    /// The next message key; the chain moves one step on. `None` once all
    /// counters are used.
    pub fn next_message_key(&mut self) -> (r: Option<MessageKey>)
        requires
            old(self).wf(),
        ensures
            final(self).wf(),
            final(self).seed() == old(self).seed(),
            old(self).next_counter() == u32::MAX ==> r is None && final(self).next_counter() == u32::MAX,
            old(self).next_counter() < u32::MAX ==> (r matches Some(k) && k.counter == old(self).next_counter()
                && k.key@ == message_key_of(old(self).seed(), k.counter)) && final(self).next_counter()
                == old(self).next_counter() + 1,
    {
        if self.counter == u32::MAX {
            return None;
        }
        let mut info: Vec<u8> = Vec::new();
        info.push(109u8);
        info.push(107u8);
        push_be(&mut info, self.counter as u128, 4);
        assert(info@ =~= message_info(self.counter));
        let key = hkdf_expand(&self.chain_key, info.as_slice());
        let mut step: Vec<u8> = Vec::new();
        step.push(99u8);
        step.push(107u8);
        assert(step@ =~= chain_info());
        let next = hkdf_expand(&self.chain_key, step.as_slice());
        let k = MessageKey { key, counter: self.counter };
        self.chain_key = next;
        self.counter = self.counter + 1;
        Some(k)
    }
}

/// A message encrypted under a sender key.
#[derive(Debug, Clone, PartialEq, Eq)]
pub struct EncryptedMessage {
    pub epoch: u64,
    pub sender_id: u64,
    pub counter: u32,
    pub nonce: [u8; 24],
    pub ciphertext: Vec<u8>,
}

/// Encrypts `plaintext` under message key `key`, binding `ad` (the frame
/// header) to it. The nonce is built from the key's counter and the eight
/// random bytes given.
pub fn encrypt_message(
    key: &MessageKey,
    epoch: u64,
    sender_id: u64,
    nonce_random: [u8; 8],
    plaintext: &[u8],
    ad: &[u8],
) -> (r: EncryptedMessage)
    requires
        plaintext@.len() <= MAX_PAYLOAD_SIZE,
    ensures
        r.epoch == epoch,
        r.sender_id == sender_id,
        r.counter == key.counter,
        r.nonce@ == nonce_of(key.counter, nonce_random@),
        r.ciphertext@ == xchacha_seal_of(key.key@, r.nonce@, ad@, plaintext@),
{
    let mut nonce = [0u8; 24];
    let c = key.counter;
    nonce[12] = (c / 0x100_0000) as u8;
    nonce[13] = ((c / 0x1_0000) % 256) as u8;
    nonce[14] = ((c / 0x100) % 256) as u8;
    nonce[15] = (c % 256) as u8;
    let mut i: usize = 0;
    while i < 8
        invariant
            i <= 8,
            nonce@.len() == 24,
            forall|k: int| 0 <= k < 12 ==> nonce@[k] == 0,
            nonce@[12] == (c / 0x100_0000) as u8,
            nonce@[13] == ((c / 0x1_0000) % 256) as u8,
            nonce@[14] == ((c / 0x100) % 256) as u8,
            nonce@[15] == (c % 256) as u8,
            forall|k: int| 0 <= k < i ==> nonce@[16 + k] == nonce_random@[k],
        decreases 8 - i,
    {
        nonce[16 + i] = nonce_random[i];
        i = i + 1;
    }
    proof {
        lemma_nonce_counter_bytes(c);
        assert(nonce@ =~= nonce_of(c, nonce_random@));
    }
    let ciphertext = xchacha_seal(&key.key, &nonce, ad, plaintext);
    EncryptedMessage { epoch, sender_id, counter: c, nonce, ciphertext }
}

proof fn lemma_nonce_counter_bytes(c: u32)
    ensures
        be_bytes(c as nat, 4) == seq![
            (c / 0x100_0000) as u8,
            ((c / 0x1_0000) % 256) as u8,
            ((c / 0x100) % 256) as u8,
            (c % 256) as u8,
        ],
{
    reveal_with_fuel(be_bytes, 5);
    let v = c as nat;
    assert(v / 256 / 256 / 256 == v / 0x100_0000) by (nonlinear_arith);
    assert(v / 256 / 256 == v / 0x1_0000) by (nonlinear_arith);
    assert(v / 0x100_0000 < 256) by (nonlinear_arith)
        requires
            v < 0x1_0000_0000,
    ;
    assert(v / 256 / 256 / 256 / 256 == 0) by (nonlinear_arith)
        requires
            v < 0x1_0000_0000,
    ;
    assert(be_bytes(c as nat, 4) =~= seq![
        (c / 0x100_0000) as u8,
        ((c / 0x1_0000) % 256) as u8,
        ((c / 0x100) % 256) as u8,
        (c % 256) as u8,
    ]);
}

/// What decrypting `ct` under `key`, `nonce` and `ad` may return: only a
/// plaintext that seals to `ct`, surely the plaintext whose sealing `ct`
/// is, and otherwise `DecryptionFailed`.
pub open spec fn opens_to(
    key: Seq<u8>,
    nonce: Seq<u8>,
    ad: Seq<u8>,
    ct: Seq<u8>,
    r: Result<Seq<u8>, SenderKeyError>,
) -> bool {
    &&& r matches Ok(p) ==> xchacha_seal_of(key, nonce, ad, p) == ct
    &&& forall|p: Seq<u8>|
        p.len() <= MAX_PAYLOAD_SIZE && xchacha_seal_of(key, nonce, ad, p) == ct ==> r == Ok::<
            Seq<u8>,
            SenderKeyError,
        >(p)
    &&& r is Err ==> r == Err::<Seq<u8>, SenderKeyError>(SenderKeyError::DecryptionFailed)
}

/// A decryption result as contracts see it.
pub open spec fn result_view(r: Result<Vec<u8>, SenderKeyError>) -> Result<Seq<u8>, SenderKeyError> {
    match r {
        Ok(p) => Ok(p@),
        Err(e) => Err(e),
    }
}

/// Decrypting what was encrypted gives the plaintext back, for every key,
/// nonce, associated data and plaintext within the frame limit.
pub proof fn lemma_round_trip(
    key: Seq<u8>,
    nonce: Seq<u8>,
    ad: Seq<u8>,
    pt: Seq<u8>,
    r: Result<Seq<u8>, SenderKeyError>,
)
    requires
        pt.len() <= MAX_PAYLOAD_SIZE,
        opens_to(key, nonce, ad, xchacha_seal_of(key, nonce, ad, pt), r),
    ensures
        r == Ok::<Seq<u8>, SenderKeyError>(pt),
{
}

/// Decrypts `msg` under message key `key` with associated data `ad`.
/// Succeeds exactly on authentic input: what it returns seals to the
/// ciphertext, and the sealing of any plaintext is opened to it.
pub fn decrypt_message(key: &MessageKey, msg: &EncryptedMessage, ad: &[u8]) -> (r: Result<Vec<u8>, SenderKeyError>)
    ensures
        opens_to(key.key@, msg.nonce@, ad@, msg.ciphertext@, result_view(r)),
{
    match xchacha_open(&key.key, &msg.nonce, ad, msg.ciphertext.as_slice()) {
        Some(p) => Ok(p),
        None => Err(SenderKeyError::DecryptionFailed),
    }
}

struct PeerRatchet {
    sender_id: u64,
    ratchet: SymmetricRatchet,
    skipped: Vec<MessageKey>,
}

/// A room's sender keys for one epoch: the client's own ratchet and one
/// receiving ratchet per sender heard from, with the keys of skipped
/// counters inside the out-of-order window.
pub struct SenderKeyStore {
    epoch: u64,
    epoch_secret: Vec<u8>,
    own_sender: u64,
    own: SymmetricRatchet,
    peers: Vec<PeerRatchet>,
}

/// Position of the first peer entry of `sender`.
spec fn peer_index(peers: Seq<PeerRatchet>, sender: u64, i: int) -> Option<int>
    decreases peers.len() - i,
{
    if i < 0 || i >= peers.len() {
        None
    } else if peers[i].sender_id == sender {
        Some(i)
    } else {
        peer_index(peers, sender, i + 1)
    }
}

proof fn lemma_peer_index_range(peers: Seq<PeerRatchet>, sender: u64, i: int)
    ensures
        peer_index(peers, sender, i) matches Some(k) ==> i <= k < peers.len() && peers[k].sender_id == sender,
        0 <= i && peer_index(peers, sender, i) is None ==> forall|k: int| i <= k < peers.len() ==> peers[k].sender_id != sender,
    decreases peers.len() - i,
{
    if 0 <= i < peers.len() && peers[i].sender_id != sender {
        lemma_peer_index_range(peers, sender, i + 1);
    }
}

spec fn peer_keys_ok(p: PeerRatchet, secret: Seq<u8>, epoch: u64) -> bool {
    &&& p.ratchet.wf()
    &&& p.ratchet.seed() == seed_of(secret, p.sender_id, epoch)
    &&& forall|k: int|
        0 <= k < p.skipped@.len() ==> (#[trigger] p.skipped@[k]).key@ == message_key_of(
            seed_of(secret, p.sender_id, epoch),
            p.skipped@[k].counter,
        ) && p.skipped@[k].counter < p.ratchet.next_counter()
}

spec fn peer_wf(p: PeerRatchet, secret: Seq<u8>, epoch: u64) -> bool {
    &&& peer_keys_ok(p, secret, epoch)
    &&& forall|k: int|
        0 <= k < p.skipped@.len() ==> p.ratchet.next_counter() - (#[trigger] p.skipped@[k]).counter
            <= DEFAULT_WINDOW
}

spec fn has_kept(p: PeerRatchet, counter: u32) -> bool {
    exists|j: int| 0 <= j < p.skipped@.len() && (#[trigger] p.skipped@[j]).counter == counter
}

fn copy_peer(p: &PeerRatchet) -> (r: PeerRatchet)
    ensures
        r.sender_id == p.sender_id,
        r.ratchet == p.ratchet,
        r.skipped@ == p.skipped@,
{
    let mut skipped: Vec<MessageKey> = Vec::new();
    let mut i: usize = 0;
    while i < p.skipped.len()
        invariant
            i <= p.skipped@.len(),
            skipped@ == p.skipped@.subrange(0, i as int),
        decreases p.skipped@.len() - i,
    {
        skipped.push(p.skipped[i]);
        i = i + 1;
        assert(skipped@ =~= p.skipped@.subrange(0, i as int));
    }
    assert(p.skipped@.subrange(0, i as int) =~= p.skipped@);
    let ratchet = SymmetricRatchet { chain_key: p.ratchet.chain_key, counter: p.ratchet.counter, seed: p.ratchet.seed };
    PeerRatchet { sender_id: p.sender_id, ratchet, skipped }
}

/// The key of `counter` from `peer`: a kept key for an earlier counter
/// (used once, then gone), or a new one after moving the ratchet forward
/// and keeping the skipped keys inside the window.
fn take_key(peer: &mut PeerRatchet, counter: u32, Ghost(secret): Ghost<Seq<u8>>, Ghost(epoch): Ghost<u64>) -> (r: Result<
    MessageKey,
    SenderKeyError,
>)
    requires
        peer_wf(*old(peer), secret, epoch),
    ensures
        peer_wf(*final(peer), secret, epoch),
        final(peer).sender_id == old(peer).sender_id,
        r matches Ok(k) ==> k.counter == counter && k.key@ == message_key_of(
            seed_of(secret, old(peer).sender_id, epoch),
            counter,
        ),
        old(peer).ratchet.next_counter() <= counter < u32::MAX ==> r is Ok,
        counter == u32::MAX && old(peer).ratchet.next_counter() <= counter ==> r is Err,
        counter < old(peer).ratchet.next_counter() ==> (r is Ok <==> has_kept(*old(peer), counter)),
        r is Err ==> r == Err::<MessageKey, SenderKeyError>(SenderKeyError::StaleMessage) && *final(peer) == *old(peer),
{
    let ghost seed = seed_of(secret, peer.sender_id, epoch);
    let next = peer.ratchet.counter();
    if counter < next {
        if next - counter > DEFAULT_WINDOW {
            return Err(SenderKeyError::StaleMessage);
        }
        let mut j: usize = 0;
        while j < peer.skipped.len()
            invariant
                j <= peer.skipped@.len(),
                *peer == *old(peer),
                peer_wf(*peer, secret, epoch),
                seed == seed_of(secret, peer.sender_id, epoch),
                forall|i: int| 0 <= i < j ==> (#[trigger] peer.skipped@[i]).counter != counter,
            decreases peer.skipped@.len() - j,
        {
            if peer.skipped[j].counter == counter {
                let ghost before = peer.skipped@;
                let k = peer.skipped.remove(j);
                assert(k == before[j as int]);
                assert forall|i: int| 0 <= i < peer.skipped@.len() implies (#[trigger] peer.skipped@[i]).key@
                    == message_key_of(seed, peer.skipped@[i].counter) && peer.skipped@[i].counter
                    < peer.ratchet.next_counter() && peer.ratchet.next_counter() - peer.skipped@[i].counter
                    <= DEFAULT_WINDOW by {
                    if i < j {
                        assert(peer.skipped@[i] == before[i]);
                    } else {
                        assert(peer.skipped@[i] == before[i + 1]);
                    }
                }
                return Ok(k);
            }
            j = j + 1;
        }
        return Err(SenderKeyError::StaleMessage);
    }
    if counter == u32::MAX {
        return Err(SenderKeyError::StaleMessage);
    }
    while peer.ratchet.counter() < counter
        invariant
            peer_keys_ok(*peer, secret, epoch),
            peer.sender_id == old(peer).sender_id,
            seed == seed_of(secret, peer.sender_id, epoch),
            peer.ratchet.next_counter() <= counter < u32::MAX,
        decreases counter - peer.ratchet.next_counter(),
    {
        let step = peer.ratchet.next_message_key();
        if let Some(k) = step {
            if counter - k.counter < DEFAULT_WINDOW {
                peer.skipped.push(k);
            }
        }
    }
    let last = peer.ratchet.next_message_key();
    let key = match last {
        Some(k) => k,
        None => {
            return Err(SenderKeyError::StaleMessage);
        },
    };
    let mut kept: Vec<MessageKey> = Vec::new();
    let mut j: usize = 0;
    while j < peer.skipped.len()
        invariant
            j <= peer.skipped@.len(),
            peer_keys_ok(*peer, secret, epoch),
            seed == seed_of(secret, peer.sender_id, epoch),
            peer.ratchet.next_counter() == counter + 1,
            forall|i: int| 0 <= i < kept@.len() ==> (#[trigger] kept@[i]).key@ == message_key_of(seed, kept@[i].counter)
                && kept@[i].counter < peer.ratchet.next_counter() && peer.ratchet.next_counter() - kept@[i].counter
                <= DEFAULT_WINDOW,
        decreases peer.skipped@.len() - j,
    {
        let e = peer.skipped[j];
        if counter - e.counter < DEFAULT_WINDOW {
            kept.push(e);
        }
        j = j + 1;
    }
    peer.skipped = kept;
    Ok(key)
}

impl SenderKeyStore {
    /// The epoch of the keys.
    pub closed spec fn epoch(&self) -> u64 {
        self.epoch
    }

    /// The epoch secret the keys derive from.
    pub closed spec fn secret(&self) -> Seq<u8> {
        self.epoch_secret@
    }

    /// The sender id of the client itself.
    pub closed spec fn own_sender(&self) -> u64 {
        self.own_sender
    }

    /// The counter of the next message the client sends.
    pub closed spec fn own_counter(&self) -> u32 {
        self.own.next_counter()
    }

    /// The counter of the next message expected from `sender`; below it,
    /// only keys kept in the window remain.
    pub closed spec fn peer_next(&self, sender: u64) -> u32 {
        match peer_index(self.peers@, sender, 0) {
            Some(i) => self.peers@[i].ratchet.next_counter(),
            None => 0,
        }
    }

    /// All ratchets derive from the epoch secret for their sender, and
    /// every kept key is that sender's key for its counter.
    pub closed spec fn wf(&self) -> bool {
        &&& self.epoch_secret@.len() >= 32
        &&& self.own.wf()
        &&& self.own.seed() == seed_of(self.epoch_secret@, self.own_sender, self.epoch)
        &&& forall|i: int| 0 <= i < self.peers@.len() ==> peer_wf(#[trigger] self.peers@[i], self.epoch_secret@, self.epoch)
    }

    /// Whether the store holds exactly the fresh state of `epoch` derived
    /// from `secret`: nothing of an earlier epoch remains.
    pub open spec fn is_fresh(&self, secret: Seq<u8>, epoch: u64, own_sender: u64) -> bool {
        &&& self.wf()
        &&& self.epoch() == epoch
        &&& self.secret() == secret
        &&& self.own_sender() == own_sender
        &&& self.own_counter() == 0
        &&& forall|s: u64| self.peer_next(s) == 0
    }

    /// The store of `epoch` derived from `epoch_secret`.
    pub fn new(epoch_secret: Vec<u8>, epoch: u64, own_sender: u64) -> (r: SenderKeyStore)
        requires
            epoch_secret@.len() >= 32,
        ensures
            r.is_fresh(epoch_secret@, epoch, own_sender),
    {
        let seed = derive_sender_key_seed(epoch_secret.as_slice(), own_sender, epoch);
        SenderKeyStore {
            epoch,
            epoch_secret,
            own_sender,
            own: SymmetricRatchet::new(seed),
            peers: Vec::new(),
        }
    }

    /// The current epoch.
    pub fn current_epoch(&self) -> (r: u64)
        ensures
            r == self.epoch(),
    {
        self.epoch
    }

    /// Moves to `new_epoch` with `new_secret`; every ratchet and kept key of
    /// the old epoch is dropped.
    pub fn advance_epoch(&mut self, new_secret: Vec<u8>, new_epoch: u64)
        requires
            new_secret@.len() >= 32,
        ensures
            final(self).is_fresh(new_secret@, new_epoch, old(self).own_sender()),
    {
        let own_sender = self.own_sender;
        *self = SenderKeyStore::new(new_secret, new_epoch, own_sender);
    }

    /// Encrypts `plaintext` with the client's next message key.
    pub fn encrypt(&mut self, plaintext: &[u8], ad: &[u8], nonce_random: [u8; 8]) -> (r: Result<
        EncryptedMessage,
        SenderKeyError,
    >)
        requires
            old(self).wf(),
            plaintext@.len() <= MAX_PAYLOAD_SIZE,
        ensures
            final(self).wf(),
            final(self).epoch() == old(self).epoch(),
            final(self).secret() == old(self).secret(),
            final(self).own_sender() == old(self).own_sender(),
            old(self).own_counter() == u32::MAX ==> r == Err::<EncryptedMessage, SenderKeyError>(
                SenderKeyError::KeyDerivationFailed,
            ),
            old(self).own_counter() < u32::MAX ==> (r matches Ok(m) && m.epoch == old(self).epoch()
                && m.sender_id == old(self).own_sender() && m.counter == old(self).own_counter()
                && m.nonce@ == nonce_of(m.counter, nonce_random@) && m.ciphertext@ == xchacha_seal_of(
                message_key_of(seed_of(old(self).secret(), old(self).own_sender(), old(self).epoch()), m.counter),
                m.nonce@,
                ad@,
                plaintext@,
            )) && final(self).own_counter() == old(self).own_counter() + 1,
    {
        match self.own.next_message_key() {
            Some(k) => Ok(encrypt_message(&k, self.epoch, self.own_sender, nonce_random, plaintext, ad)),
            None => Err(SenderKeyError::KeyDerivationFailed),
        }
    }

    fn find_peer(&self, sender: u64) -> (r: Option<usize>)
        ensures
            match r {
                Some(i) => peer_index(self.peers@, sender, 0) == Some(i as int) && i < self.peers@.len(),
                None => peer_index(self.peers@, sender, 0) is None,
            },
    {
        let mut i: usize = 0;
        while i < self.peers.len()
            invariant
                i <= self.peers@.len(),
                peer_index(self.peers@, sender, i as int) == peer_index(self.peers@, sender, 0),
            decreases self.peers@.len() - i,
        {
            if self.peers[i].sender_id == sender {
                return Some(i);
            }
            i = i + 1;
        }
        None
    }

    /// Whether a key for `counter` of `sender` was skipped over and is
    /// still kept inside the window.
    pub closed spec fn kept(&self, sender: u64, counter: u32) -> bool {
        match peer_index(self.peers@, sender, 0) {
            Some(i) => has_kept(self.peers@[i], counter),
            None => false,
        }
    }

    /// Whether a key for `counter` of `sender` can still be had: a fresh
    /// counter, or one whose key is kept.
    pub open spec fn key_available(&self, sender: u64, counter: u32) -> bool {
        (self.peer_next(sender) <= counter && counter < u32::MAX) || self.kept(sender, counter)
    }

    /// The receiving state: per sender heard from, the next counter and
    /// the counters of the kept keys.
    pub closed spec fn receive_state(&self) -> Seq<(u64, u32, Seq<u32>)> {
        self.peers@.map_values(
            |p: PeerRatchet| (p.sender_id, p.ratchet.next_counter(), p.skipped@.map_values(|k: MessageKey| k.counter)),
        )
    }

    /// Decrypts a message of another member (or an echo of one's own).
    /// Messages of another epoch fail with `EpochMismatch`; counters whose
    /// key was used or fell below the window fail with `StaleMessage`;
    /// input that is not authentic under the sender's key for its counter
    /// fails with `DecryptionFailed`. A failure changes nothing.
    pub fn decrypt(&mut self, msg: &EncryptedMessage, ad: &[u8]) -> (r: Result<Vec<u8>, SenderKeyError>)
        requires
            old(self).wf(),
        ensures
            final(self).wf(),
            final(self).epoch() == old(self).epoch(),
            final(self).secret() == old(self).secret(),
            final(self).own_sender() == old(self).own_sender(),
            final(self).own_counter() == old(self).own_counter(),
            r is Err ==> final(self).receive_state() == old(self).receive_state(),
            msg.epoch != old(self).epoch() ==> r == Err::<Vec<u8>, SenderKeyError>(
                SenderKeyError::EpochMismatch { expected: old(self).epoch(), actual: msg.epoch },
            ),
            r matches Ok(p) ==> xchacha_seal_of(
                message_key_of(seed_of(old(self).secret(), msg.sender_id, old(self).epoch()), msg.counter),
                msg.nonce@,
                ad@,
                p@,
            ) == msg.ciphertext@,
            msg.epoch == old(self).epoch() && !old(self).key_available(msg.sender_id, msg.counter) ==> r
                == Err::<Vec<u8>, SenderKeyError>(SenderKeyError::StaleMessage),
            msg.epoch == old(self).epoch() && msg.counter < old(self).peer_next(msg.sender_id) && old(self).peer_next(
                msg.sender_id,
            ) - msg.counter > DEFAULT_WINDOW ==> r == Err::<Vec<u8>, SenderKeyError>(SenderKeyError::StaleMessage),
            msg.epoch == old(self).epoch() && old(self).key_available(msg.sender_id, msg.counter) ==> forall|p: Seq<u8>|
                p.len() <= MAX_PAYLOAD_SIZE && xchacha_seal_of(
                    message_key_of(seed_of(old(self).secret(), msg.sender_id, old(self).epoch()), msg.counter),
                    msg.nonce@,
                    ad@,
                    p,
                ) == msg.ciphertext@ ==> r is Ok && r->Ok_0@ == p,
            msg.epoch == old(self).epoch() && old(self).key_available(msg.sender_id, msg.counter) && (forall|p: Seq<u8>|
                xchacha_seal_of(
                    message_key_of(seed_of(old(self).secret(), msg.sender_id, old(self).epoch()), msg.counter),
                    msg.nonce@,
                    ad@,
                    p,
                ) != msg.ciphertext@) ==> r == Err::<Vec<u8>, SenderKeyError>(SenderKeyError::DecryptionFailed),
    {
        if msg.epoch != self.epoch {
            return Err(SenderKeyError::EpochMismatch { expected: self.epoch, actual: msg.epoch });
        }
        proof {
            lemma_peer_index_range(self.peers@, msg.sender_id, 0);
        }
        let ghost secret = self.epoch_secret@;
        let ghost epoch = self.epoch;
        let ghost old_peers = self.peers@;
        let ghost pn = self.peer_next(msg.sender_id);
        let ghost kp = self.kept(msg.sender_id, msg.counter);
        let found = self.find_peer(msg.sender_id);
        let original = match found {
            Some(i) => self.peers.remove(i),
            None => {
                let seed = derive_sender_key_seed(self.epoch_secret.as_slice(), msg.sender_id, self.epoch);
                PeerRatchet { sender_id: msg.sender_id, ratchet: SymmetricRatchet::new(seed), skipped: Vec::new() }
            },
        };
        proof {
            if found is Some {
                assert(original == old_peers[found->Some_0 as int]);
            } else {
                assert(!has_kept(original, msg.counter));
            }
        }
        assert(peer_wf(original, secret, epoch));
        assert(pn == original.ratchet.next_counter());
        assert(kp == has_kept(original, msg.counter));
        assert(original.sender_id == msg.sender_id);
        proof {
            if kp {
                let j = choose|j: int| 0 <= j < original.skipped@.len() && (#[trigger] original.skipped@[j]).counter == msg.counter;
                assert(original.skipped@[j].counter < original.ratchet.next_counter());
            }
        }
        let mut work = copy_peer(&original);
        assert(peer_wf(work, secret, epoch));
        let key = take_key(&mut work, msg.counter, Ghost(secret), Ghost(epoch));
        let result = match key {
            Ok(k) => {
                let d = decrypt_message(&k, msg, ad);
                proof {
                    if d is Ok {
                        let p = d->Ok_0@;
                        assert(result_view(d) == Ok::<Seq<u8>, SenderKeyError>(p));
                        assert(xchacha_seal_of(k.key@, msg.nonce@, ad@, p) == msg.ciphertext@);
                    } else {
                        assert(result_view(d) is Err);
                        assert(d == Err::<Vec<u8>, SenderKeyError>(SenderKeyError::DecryptionFailed));
                    }
                }
                d
            },
            Err(e) => Err(e),
        };
        match found {
            Some(i) => {
                if result.is_ok() {
                    self.peers.insert(i, work);
                } else {
                    self.peers.insert(i, original);
                    assert(self.peers@ =~= old_peers);
                }
            },
            None => {
                if result.is_ok() {
                    self.peers.push(work);
                } else {
                    assert(self.peers@ =~= old_peers);
                }
            },
        }
        assert forall|i: int| 0 <= i < self.peers@.len() implies peer_wf(#[trigger] self.peers@[i], self.epoch_secret@, self.epoch) by {
        }
        proof {
            let mk = message_key_of(seed_of(secret, msg.sender_id, epoch), msg.counter);
            if (pn <= msg.counter && msg.counter < u32::MAX) || kp {
                assert(key is Ok);
                if result is Ok {
                    let p = result->Ok_0@;
                    assert(xchacha_seal_of(mk, msg.nonce@, ad@, p) == msg.ciphertext@);
                }
            }
        }
        result
    }
}

} // verus!
