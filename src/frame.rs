//! The wire frame: a fixed 128-byte big-endian header followed by an opaque
//! payload of `payload_length` bytes.

use vstd::prelude::*;
use vstd::arithmetic::div_mod::{lemma_mod_breakdown, lemma_small_mod};

verus! {

/// Size of the fixed frame header in bytes.
pub const HEADER_SIZE: usize = 128;

/// Magic number at the start of every header ("LKFR").
pub const MAGIC: u32 = 0x4C4B_4652;

/// The only protocol version understood.
pub const VERSION: u8 = 1;

/// Largest payload a frame may carry (16 MiB).
pub const MAX_PAYLOAD_SIZE: u32 = 0x0100_0000;

/// Number of reserved (zero) bytes at the end of the header.
pub const RESERVED_SIZE: usize = 68;

/// Errors of the frame codec.
#[derive(Debug, Clone, Copy, PartialEq, Eq, Structural)]
pub enum ProtocolError {
    /// The first four bytes are not the magic number.
    InvalidMagic,
    /// The version byte is not the supported version.
    UnsupportedVersion,
    /// The declared payload length exceeds 16 MiB.
    PayloadTooLarge,
    /// Fewer bytes than the header or the declared payload need.
    Truncated,
    /// The opcode is none of the known values.
    InvalidOpcode,
    /// A reserved byte is not zero.
    MalformedHeader,
}

/// Frame opcodes.
#[derive(Debug, Clone, Copy, PartialEq, Eq, Structural, Hash)]
pub enum Opcode {
    Hello,
    HelloReply,
    Goodbye,
    Ping,
    Pong,
    KeyPackageUpload,
    KeyPackageFetch,
    KeyPackageResponse,
    Proposal,
    Commit,
    Welcome,
    AppMessage,
    SyncRequest,
    SyncResponse,
}

/// The opcode that a 16-bit wire value denotes, if any.
pub open spec fn opcode_of(v: u16) -> Option<Opcode> {
    if v == 0x0001 {
        Some(Opcode::Hello)
    } else if v == 0x0002 {
        Some(Opcode::HelloReply)
    } else if v == 0x0003 {
        Some(Opcode::Goodbye)
    } else if v == 0x0004 {
        Some(Opcode::Ping)
    } else if v == 0x0005 {
        Some(Opcode::Pong)
    } else if v == 0x0010 {
        Some(Opcode::KeyPackageUpload)
    } else if v == 0x0011 {
        Some(Opcode::KeyPackageFetch)
    } else if v == 0x0012 {
        Some(Opcode::KeyPackageResponse)
    } else if v == 0x0013 {
        Some(Opcode::Proposal)
    } else if v == 0x0014 {
        Some(Opcode::Commit)
    } else if v == 0x0015 {
        Some(Opcode::Welcome)
    } else if v == 0x0020 {
        Some(Opcode::AppMessage)
    } else if v == 0x0030 {
        Some(Opcode::SyncRequest)
    } else if v == 0x0031 {
        Some(Opcode::SyncResponse)
    } else {
        None
    }
}

impl Opcode {
    /// The 16-bit wire value of the opcode.
    pub open spec fn code(self) -> u16 {
        match self {
            Opcode::Hello => 0x0001,
            Opcode::HelloReply => 0x0002,
            Opcode::Goodbye => 0x0003,
            Opcode::Ping => 0x0004,
            Opcode::Pong => 0x0005,
            Opcode::KeyPackageUpload => 0x0010,
            Opcode::KeyPackageFetch => 0x0011,
            Opcode::KeyPackageResponse => 0x0012,
            Opcode::Proposal => 0x0013,
            Opcode::Commit => 0x0014,
            Opcode::Welcome => 0x0015,
            Opcode::AppMessage => 0x0020,
            Opcode::SyncRequest => 0x0030,
            Opcode::SyncResponse => 0x0031,
        }
    }

    /// The 16-bit wire value of the opcode.
    pub fn to_u16(self) -> (r: u16)
        ensures
            r == self.code(),
    {
        match self {
            Opcode::Hello => 0x0001,
            Opcode::HelloReply => 0x0002,
            Opcode::Goodbye => 0x0003,
            Opcode::Ping => 0x0004,
            Opcode::Pong => 0x0005,
            Opcode::KeyPackageUpload => 0x0010,
            Opcode::KeyPackageFetch => 0x0011,
            Opcode::KeyPackageResponse => 0x0012,
            Opcode::Proposal => 0x0013,
            Opcode::Commit => 0x0014,
            Opcode::Welcome => 0x0015,
            Opcode::AppMessage => 0x0020,
            Opcode::SyncRequest => 0x0030,
            Opcode::SyncResponse => 0x0031,
        }
    }

    /// The opcode that a wire value denotes, or `None` for an unknown value.
    pub fn from_u16(v: u16) -> (r: Option<Opcode>)
        ensures
            r == opcode_of(v),
    {
        if v == 0x0001 {
            Some(Opcode::Hello)
        } else if v == 0x0002 {
            Some(Opcode::HelloReply)
        } else if v == 0x0003 {
            Some(Opcode::Goodbye)
        } else if v == 0x0004 {
            Some(Opcode::Ping)
        } else if v == 0x0005 {
            Some(Opcode::Pong)
        } else if v == 0x0010 {
            Some(Opcode::KeyPackageUpload)
        } else if v == 0x0011 {
            Some(Opcode::KeyPackageFetch)
        } else if v == 0x0012 {
            Some(Opcode::KeyPackageResponse)
        } else if v == 0x0013 {
            Some(Opcode::Proposal)
        } else if v == 0x0014 {
            Some(Opcode::Commit)
        } else if v == 0x0015 {
            Some(Opcode::Welcome)
        } else if v == 0x0020 {
            Some(Opcode::AppMessage)
        } else if v == 0x0030 {
            Some(Opcode::SyncRequest)
        } else if v == 0x0031 {
            Some(Opcode::SyncResponse)
        } else {
            None
        }
    }
}

/// Every opcode is read back from its own wire value.
pub proof fn lemma_opcode_round_trip(op: Opcode)
    ensures
        opcode_of(op.code()) == Some(op),
{
}

/// `256` raised to the power `n`.
pub open spec fn pow256(n: nat) -> nat
    decreases n,
{
    if n == 0 {
        1
    } else {
        256 * pow256((n - 1) as nat)
    }
}

/// The `n` low-order bytes of `v`, most significant first.
pub open spec fn be_bytes(v: nat, n: nat) -> Seq<u8>
    decreases n,
{
    if n == 0 {
        seq![]
    } else {
        be_bytes(v / 256, (n - 1) as nat).push((v % 256) as u8)
    }
}

/// The number that a big-endian byte sequence denotes.
pub open spec fn be_value(s: Seq<u8>) -> nat
    decreases s.len(),
{
    if s.len() == 0 {
        0
    } else {
        be_value(s.drop_last()) * 256 + s.last() as nat
    }
}

proof fn lemma_pow256_positive(n: nat)
    ensures
        pow256(n) > 0,
    decreases n,
{
    if n > 0 {
        lemma_pow256_positive((n - 1) as nat);
    }
}

proof fn lemma_pow256_monotonic(a: nat, b: nat)
    requires
        a <= b,
    ensures
        pow256(a) <= pow256(b),
    decreases b,
{
    if a < b {
        lemma_pow256_monotonic(a, (b - 1) as nat);
        lemma_pow256_positive((b - 1) as nat);
    }
}

proof fn lemma_be_bytes_len(v: nat, n: nat)
    ensures
        be_bytes(v, n).len() == n,
    decreases n,
{
    if n > 0 {
        lemma_be_bytes_len(v / 256, (n - 1) as nat);
    }
}

/// A big-endian sequence of `n` bytes denotes a number below `256^n`.
pub(crate) proof fn lemma_be_value_bound(s: Seq<u8>)
    ensures
        be_value(s) < pow256(s.len()),
    decreases s.len(),
{
    if s.len() > 0 {
        lemma_be_value_bound(s.drop_last());
        let p = pow256((s.len() - 1) as nat);
        assert(be_value(s.drop_last()) * 256 + (s.last() as nat) < 256 * p) by (nonlinear_arith)
            requires
                be_value(s.drop_last()) < p,
                (s.last() as nat) < 256,
        ;
    }
}

/// Reading back the `n` low-order bytes of `v` gives `v` modulo `256^n`.
proof fn lemma_be_value_of_bytes(v: nat, n: nat)
    ensures
        be_value(be_bytes(v, n)) == v % pow256(n),
    decreases n,
{
    lemma_be_bytes_len(v, n);
    if n > 0 {
        let prev = be_bytes(v / 256, (n - 1) as nat);
        lemma_be_value_of_bytes(v / 256, (n - 1) as nat);
        assert(be_bytes(v, n).drop_last() =~= prev);
        lemma_pow256_positive((n - 1) as nat);
        lemma_mod_breakdown(v as int, 256, pow256((n - 1) as nat) as int);
    } else {
        assert(v % 1 == 0);
    }
}

/// Writing the value of a byte sequence back gives the same sequence.
pub(crate) proof fn lemma_bytes_of_be_value(s: Seq<u8>)
    ensures
        be_bytes(be_value(s), s.len()) == s,
    decreases s.len(),
{
    if s.len() > 0 {
        let init = s.drop_last();
        lemma_bytes_of_be_value(init);
        let v = be_value(s);
        assert(v / 256 == be_value(init));
        assert(v % 256 == s.last() as nat);
        assert(be_bytes(v, s.len()) =~= s);
    } else {
        assert(be_bytes(be_value(s), 0) =~= s);
    }
}

proof fn lemma_pow256_15()
    ensures
        pow256(15) * 256 == 0x1_0000_0000_0000_0000_0000_0000_0000_0000,
{
    reveal_with_fuel(pow256, 16);
}

/// `n` zero bytes.
pub open spec fn zeros(n: nat) -> Seq<u8> {
    Seq::new(n, |i: int| 0u8)
}

/// The fixed-size header of a frame.
#[derive(Debug, Clone, Copy, PartialEq, Eq, Structural)]
pub struct FrameHeader {
    pub flags: u8,
    pub opcode: Opcode,
    pub room_id: u128,
    pub sender_id: u64,
    pub epoch: u64,
    pub log_index: u64,
    pub recipient_id: u64,
    pub payload_length: u32,
}

/// The result of parsing the first bytes of `b` as a header.
pub open spec fn parse_header(b: Seq<u8>) -> Result<FrameHeader, ProtocolError> {
    if b.len() < HEADER_SIZE {
        Err(ProtocolError::Truncated)
    } else if be_value(b.subrange(0, 4)) != MAGIC as nat {
        Err(ProtocolError::InvalidMagic)
    } else if b[4] != VERSION {
        Err(ProtocolError::UnsupportedVersion)
    } else if opcode_of(be_value(b.subrange(6, 8)) as u16) is None {
        Err(ProtocolError::InvalidOpcode)
    } else if be_value(b.subrange(56, 60)) > MAX_PAYLOAD_SIZE as nat {
        Err(ProtocolError::PayloadTooLarge)
    } else if exists|i: int| 60 <= i < 128 && b[i] != 0 {
        Err(ProtocolError::MalformedHeader)
    } else {
        Ok(
            FrameHeader {
                flags: b[5],
                opcode: opcode_of(be_value(b.subrange(6, 8)) as u16)->Some_0,
                room_id: be_value(b.subrange(8, 24)) as u128,
                sender_id: be_value(b.subrange(24, 32)) as u64,
                epoch: be_value(b.subrange(32, 40)) as u64,
                log_index: be_value(b.subrange(40, 48)) as u64,
                recipient_id: be_value(b.subrange(48, 56)) as u64,
                payload_length: be_value(b.subrange(56, 60)) as u32,
            },
        )
    }
}

impl FrameHeader {
    /// A header that can stand on the wire: its payload is within the limit.
    pub open spec fn wf(self) -> bool {
        self.payload_length <= MAX_PAYLOAD_SIZE
    }

    /// The 128 bytes of the header on the wire.
    pub open spec fn spec_bytes(self) -> Seq<u8> {
        be_bytes(MAGIC as nat, 4) + seq![VERSION, self.flags] + be_bytes(self.opcode.code() as nat, 2)
            + be_bytes(self.room_id as nat, 16) + be_bytes(self.sender_id as nat, 8)
            + be_bytes(self.epoch as nat, 8) + be_bytes(self.log_index as nat, 8)
            + be_bytes(self.recipient_id as nat, 8) + be_bytes(self.payload_length as nat, 4)
            + zeros(RESERVED_SIZE as nat)
    }

    /// A header with the given opcode and every other field zero.
    pub open spec fn spec_new(opcode: Opcode) -> FrameHeader {
        FrameHeader {
            flags: 0,
            opcode,
            room_id: 0,
            sender_id: 0,
            epoch: 0,
            log_index: 0,
            recipient_id: 0,
            payload_length: 0,
        }
    }

    /// A header with the given opcode and every other field zero.
    pub fn new(opcode: Opcode) -> (r: FrameHeader)
        ensures
            r == FrameHeader::spec_new(opcode),
            r.wf(),
    {
        FrameHeader {
            flags: 0,
            opcode,
            room_id: 0,
            sender_id: 0,
            epoch: 0,
            log_index: 0,
            recipient_id: 0,
            payload_length: 0,
        }
    }

    /// The opcode as its 16-bit wire value.
    pub fn opcode(&self) -> (r: u16)
        ensures
            r == self.opcode.code(),
    {
        self.opcode.to_u16()
    }

    /// The opcode of the header.
    pub fn opcode_enum(&self) -> (r: Option<Opcode>)
        ensures
            r == Some(self.opcode),
    {
        Some(self.opcode)
    }

    /// The declared payload length.
    pub fn payload_size(&self) -> (r: u32)
        ensures
            r == self.payload_length,
    {
        self.payload_length
    }

    /// Serializes the header into its 128 wire bytes.
    pub fn to_bytes(&self) -> (r: Vec<u8>)
        ensures
            r@ == self.spec_bytes(),
    {
        let mut out: Vec<u8> = Vec::new();
        push_be(&mut out, MAGIC as u128, 4);
        out.push(VERSION);
        out.push(self.flags);
        push_be(&mut out, self.opcode.to_u16() as u128, 2);
        push_be(&mut out, self.room_id, 16);
        push_be(&mut out, self.sender_id as u128, 8);
        push_be(&mut out, self.epoch as u128, 8);
        push_be(&mut out, self.log_index as u128, 8);
        push_be(&mut out, self.recipient_id as u128, 8);
        push_be(&mut out, self.payload_length as u128, 4);
        let mut i: usize = 0;
        let ghost base = out@;
        while i < RESERVED_SIZE
            invariant
                i <= RESERVED_SIZE,
                out@ == base + zeros(i as nat),
            decreases RESERVED_SIZE - i,
        {
            out.push(0u8);
            i = i + 1;
            assert(out@ =~= base + zeros(i as nat));
        }
        assert(out@ =~= self.spec_bytes());
        out
    }

    /// Parses a header from the first 128 bytes of `b`, checking magic,
    /// version, opcode, payload limit and reserved bytes in that order.
    pub fn from_bytes(b: &[u8]) -> (r: Result<FrameHeader, ProtocolError>)
        ensures
            r == parse_header(b@),
            r matches Ok(h) ==> h.wf(),
    {
        if b.len() < HEADER_SIZE {
            return Err(ProtocolError::Truncated);
        }
        let magic = read_be(b, 0, 4);
        if magic != MAGIC as u128 {
            return Err(ProtocolError::InvalidMagic);
        }
        if b[4] != VERSION {
            return Err(ProtocolError::UnsupportedVersion);
        }
        let code = read_be(b, 6, 2);
        proof {
            lemma_be_value_bound(b@.subrange(6, 8));
        }
        let opcode = match Opcode::from_u16(code as u16) {
            Some(op) => op,
            None => {
                return Err(ProtocolError::InvalidOpcode);
            },
        };
        let len = read_be(b, 56, 4);
        if len > MAX_PAYLOAD_SIZE as u128 {
            return Err(ProtocolError::PayloadTooLarge);
        }
        if !reserved_zero(b) {
            return Err(ProtocolError::MalformedHeader);
        }
        let room_id = read_be(b, 8, 16);
        let sender_id = read_be(b, 24, 8);
        let epoch = read_be(b, 32, 8);
        let log_index = read_be(b, 40, 8);
        let recipient_id = read_be(b, 48, 8);
        proof {
            lemma_be_value_bound(b@.subrange(24, 32));
            lemma_be_value_bound(b@.subrange(32, 40));
            lemma_be_value_bound(b@.subrange(40, 48));
            lemma_be_value_bound(b@.subrange(48, 56));
        }
        Ok(
            FrameHeader {
                flags: b[5],
                opcode,
                room_id,
                sender_id: sender_id as u64,
                epoch: epoch as u64,
                log_index: log_index as u64,
                recipient_id: recipient_id as u64,
                payload_length: len as u32,
            },
        )
    }
}

/// Whether the reserved bytes `b[60..128]` are all zero.
fn reserved_zero(b: &[u8]) -> (r: bool)
    requires
        b@.len() >= HEADER_SIZE,
    ensures
        r == (forall|j: int| 60 <= j < 128 ==> b@[j] == 0),
{
    let mut i: usize = 60;
    while i < HEADER_SIZE
        invariant
            60 <= i <= HEADER_SIZE,
            b@.len() >= HEADER_SIZE,
            forall|j: int| 60 <= j < i ==> b@[j] == 0,
        decreases HEADER_SIZE - i,
    {
        if b[i] != 0 {
            assert(b@[i as int] != 0);
            return false;
        }
        i = i + 1;
    }
    true
}

/// Appends the `n` low-order bytes of `v`, most significant first.
pub(crate) fn push_be(out: &mut Vec<u8>, v: u128, n: usize)
    requires
        n <= 16,
    ensures
        final(out)@ == old(out)@ + be_bytes(v as nat, n as nat),
    decreases n,
{
    if n == 0 {
        assert(old(out)@ + be_bytes(v as nat, 0) =~= old(out)@);
    } else {
        push_be(out, v / 256, n - 1);
        out.push((v % 256) as u8);
        assert(final(out)@ =~= old(out)@ + be_bytes(v as nat, n as nat));
    }
}

/// The big-endian number in `b[off .. off + n]`.
pub(crate) fn read_be(b: &[u8], off: usize, n: usize) -> (r: u128)
    requires
        n <= 16,
        off + n <= b@.len(),
    ensures
        r as nat == be_value(b@.subrange(off as int, off + n)),
{
    let mut acc: u128 = 0;
    let mut i: usize = 0;
    while i < n
        invariant
            i <= n <= 16,
            off + n <= b.len(),
            acc as nat == be_value(b@.subrange(off as int, off + i)),
        decreases n - i,
    {
        proof {
            let s = b@.subrange(off as int, off + i);
            lemma_be_value_bound(s);
            lemma_pow256_monotonic(i as nat, 15);
            lemma_pow256_15();
            assert(acc * 256 + b@[off + i] < 0x1_0000_0000_0000_0000_0000_0000_0000_0000) by (nonlinear_arith)
                requires
                    acc < pow256(15),
                    b@[off + i] < 256,
                    pow256(15) * 256 == 0x1_0000_0000_0000_0000_0000_0000_0000_0000,
            ;
            assert(b@.subrange(off as int, off + i + 1).drop_last() =~= s);
        }
        let byte = b[off + i];
        acc = acc * 256 + byte as u128;
        i = i + 1;
    }
    acc
}

/// A value below `256^n` is read back from its `n` bytes unchanged.
pub(crate) proof fn lemma_be_round_trip(v: nat, n: nat)
    requires
        v < pow256(n),
    ensures
        be_value(be_bytes(v, n)) == v,
        be_bytes(v, n).len() == n,
{
    lemma_be_value_of_bytes(v, n);
    lemma_be_bytes_len(v, n);
    lemma_small_mod(v, pow256(n));
}

pub(crate) proof fn lemma_pow256_values()
    ensures
        pow256(1) == 0x100,
        pow256(2) == 0x1_0000,
        pow256(4) == 0x1_0000_0000,
        pow256(8) == 0x1_0000_0000_0000_0000,
        pow256(16) == 0x1_0000_0000_0000_0000_0000_0000_0000_0000,
{
    reveal_with_fuel(pow256, 17);
}

/// Every well-formed header is parsed back from its own bytes.
pub proof fn lemma_header_round_trip(h: FrameHeader)
    requires
        h.wf(),
    ensures
        h.spec_bytes().len() == HEADER_SIZE,
        parse_header(h.spec_bytes()) == Ok::<FrameHeader, ProtocolError>(h),
{
    lemma_pow256_values();
    let b = h.spec_bytes();
    lemma_be_round_trip(MAGIC as nat, 4);
    lemma_be_round_trip(h.opcode.code() as nat, 2);
    lemma_be_round_trip(h.room_id as nat, 16);
    lemma_be_round_trip(h.sender_id as nat, 8);
    lemma_be_round_trip(h.epoch as nat, 8);
    lemma_be_round_trip(h.log_index as nat, 8);
    lemma_be_round_trip(h.recipient_id as nat, 8);
    lemma_be_round_trip(h.payload_length as nat, 4);
    assert(b.len() == HEADER_SIZE);
    assert(b.subrange(0, 4) =~= be_bytes(MAGIC as nat, 4));
    assert(b.subrange(6, 8) =~= be_bytes(h.opcode.code() as nat, 2));
    assert(b.subrange(8, 24) =~= be_bytes(h.room_id as nat, 16));
    assert(b.subrange(24, 32) =~= be_bytes(h.sender_id as nat, 8));
    assert(b.subrange(32, 40) =~= be_bytes(h.epoch as nat, 8));
    assert(b.subrange(40, 48) =~= be_bytes(h.log_index as nat, 8));
    assert(b.subrange(48, 56) =~= be_bytes(h.recipient_id as nat, 8));
    assert(b.subrange(56, 60) =~= be_bytes(h.payload_length as nat, 4));
    assert(b[4] == VERSION);
    assert(b[5] == h.flags);
    lemma_opcode_round_trip(h.opcode);
    assert forall|i: int| 60 <= i < 128 implies b[i] == 0 by {
        assert(b[i] == zeros(RESERVED_SIZE as nat)[i - 60]);
    }
}

/// A header that parses is exactly the first 128 bytes it was parsed from.
pub proof fn lemma_header_canonical(b: Seq<u8>)
    requires
        parse_header(b) is Ok,
    ensures
        parse_header(b)->Ok_0.spec_bytes() == b.subrange(0, HEADER_SIZE as int),
{
    lemma_pow256_values();
    let h = parse_header(b)->Ok_0;
    lemma_bytes_of_be_value(b.subrange(0, 4));
    lemma_bytes_of_be_value(b.subrange(6, 8));
    lemma_bytes_of_be_value(b.subrange(8, 24));
    lemma_bytes_of_be_value(b.subrange(24, 32));
    lemma_bytes_of_be_value(b.subrange(32, 40));
    lemma_bytes_of_be_value(b.subrange(40, 48));
    lemma_bytes_of_be_value(b.subrange(48, 56));
    lemma_bytes_of_be_value(b.subrange(56, 60));
    lemma_be_value_bound(b.subrange(6, 8));
    lemma_be_value_bound(b.subrange(8, 24));
    lemma_be_value_bound(b.subrange(24, 32));
    lemma_be_value_bound(b.subrange(32, 40));
    lemma_be_value_bound(b.subrange(40, 48));
    lemma_be_value_bound(b.subrange(48, 56));
    lemma_be_value_bound(b.subrange(56, 60));
    let code = be_value(b.subrange(6, 8)) as u16;
    assert(h.opcode.code() == code);
    assert(zeros(RESERVED_SIZE as nat) =~= b.subrange(60, 128));
    assert(h.spec_bytes() =~= b.subrange(0, HEADER_SIZE as int));
}

/// A header followed by its payload.
#[derive(Debug, Clone, PartialEq, Eq)]
pub struct Frame {
    pub header: FrameHeader,
    pub payload: Vec<u8>,
}

/// The result of parsing the frame at the start of `b`: its header and
/// payload bytes. Bytes after the frame are not read.
pub open spec fn parse_frame(b: Seq<u8>) -> Result<(FrameHeader, Seq<u8>), ProtocolError> {
    match parse_header(b) {
        Err(e) => Err(e),
        Ok(h) => if b.len() < HEADER_SIZE + h.payload_length {
            Err(ProtocolError::Truncated)
        } else {
            Ok((h, b.subrange(HEADER_SIZE as int, HEADER_SIZE + h.payload_length)))
        },
    }
}

impl View for Frame {
    type V = (FrameHeader, Seq<u8>);

    open spec fn view(&self) -> (FrameHeader, Seq<u8>) {
        (self.header, self.payload@)
    }
}

/// Whether a header and payload make a well-formed frame.
pub open spec fn frame_wf(f: (FrameHeader, Seq<u8>)) -> bool {
    f.0.wf() && f.1.len() == f.0.payload_length
}

impl Frame {
    /// A copy of the frame.
    pub fn duplicate(&self) -> (r: Frame)
        ensures
            r@ == self@,
    {
        let payload = self.payload.clone();
        assert(payload@ =~= self.payload@);
        Frame { header: self.header, payload }
    }

    /// The header's length field matches the payload, within the limit.
    pub open spec fn wf(&self) -> bool {
        self.header.wf() && self.payload@.len() == self.header.payload_length
    }

    /// The wire bytes of the frame.
    pub open spec fn spec_bytes(&self) -> Seq<u8> {
        self.header.spec_bytes() + self.payload@
    }

    /// A frame of `header` and `payload`, the header's length field set to
    /// the payload's length.
    pub fn new(header: FrameHeader, payload: Vec<u8>) -> (r: Frame)
        requires
            payload@.len() <= MAX_PAYLOAD_SIZE,
        ensures
            r.header == (FrameHeader { payload_length: payload@.len() as u32, ..header }),
            r.payload@ == payload@,
            r.wf(),
    {
        let len = payload.len() as u32;
        Frame { header: FrameHeader { payload_length: len, ..header }, payload }
    }

    /// Serializes the frame: 128 header bytes, then the payload.
    pub fn encode(&self) -> (r: Vec<u8>)
        requires
            self.wf(),
        ensures
            r@ == self.spec_bytes(),
            r@.len() == HEADER_SIZE + self.header.payload_length,
    {
        let mut out = self.header.to_bytes();
        proof {
            lemma_header_round_trip(self.header);
        }
        let mut i: usize = 0;
        let ghost base = out@;
        while i < self.payload.len()
            invariant
                i <= self.payload@.len(),
                out@ == base + self.payload@.subrange(0, i as int),
            decreases self.payload@.len() - i,
        {
            out.push(self.payload[i]);
            i = i + 1;
            assert(out@ =~= base + self.payload@.subrange(0, i as int));
        }
        assert(self.payload@.subrange(0, i as int) =~= self.payload@);
        out
    }

    /// Parses the frame at the start of `b`.
    pub fn decode(b: &[u8]) -> (r: Result<Frame, ProtocolError>)
        ensures
            match parse_frame(b@) {
                Ok((h, p)) => r matches Ok(f) && f.header == h && f.payload@ == p,
                Err(e) => r == Err::<Frame, ProtocolError>(e),
            },
            r matches Ok(f) ==> f.wf(),
    {
        let header = match FrameHeader::from_bytes(b) {
            Ok(h) => h,
            Err(e) => {
                return Err(e);
            },
        };
        let len = header.payload_length as usize;
        if b.len() - HEADER_SIZE < len {
            return Err(ProtocolError::Truncated);
        }
        let mut payload: Vec<u8> = Vec::new();
        let mut i: usize = 0;
        while i < len
            invariant
                i <= len,
                HEADER_SIZE + len <= b.len(),
                payload@ == b@.subrange(HEADER_SIZE as int, HEADER_SIZE + i),
            decreases len - i,
        {
            payload.push(b[HEADER_SIZE + i]);
            i = i + 1;
            assert(payload@ =~= b@.subrange(HEADER_SIZE as int, HEADER_SIZE + i));
        }
        Ok(Frame { header, payload })
    }
}

/// Every well-formed frame is decoded back from its own bytes, whatever
/// bytes follow it.
pub proof fn lemma_frame_round_trip(f: Frame, rest: Seq<u8>)
    requires
        f.wf(),
    ensures
        parse_frame(f.spec_bytes() + rest) == Ok::<(FrameHeader, Seq<u8>), ProtocolError>((f.header, f.payload@)),
{
    let b = f.spec_bytes() + rest;
    lemma_header_round_trip(f.header);
    assert(b.subrange(0, 4) =~= f.header.spec_bytes().subrange(0, 4));
    assert(b.subrange(6, 8) =~= f.header.spec_bytes().subrange(6, 8));
    assert(b.subrange(8, 24) =~= f.header.spec_bytes().subrange(8, 24));
    assert(b.subrange(24, 32) =~= f.header.spec_bytes().subrange(24, 32));
    assert(b.subrange(32, 40) =~= f.header.spec_bytes().subrange(32, 40));
    assert(b.subrange(40, 48) =~= f.header.spec_bytes().subrange(40, 48));
    assert(b.subrange(48, 56) =~= f.header.spec_bytes().subrange(48, 56));
    assert(b.subrange(56, 60) =~= f.header.spec_bytes().subrange(56, 60));
    assert(parse_header(b) == parse_header(f.header.spec_bytes()));
    assert(b.subrange(HEADER_SIZE as int, HEADER_SIZE + f.header.payload_length) =~= f.payload@);
}

} // verus!
