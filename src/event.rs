use vstd::prelude::*;

verus! {

/// Size in bytes of one event record as the probe writes it.
pub const RECORD_SIZE: usize = 96;

/// Byte offsets of the fields within a record.
pub const PID_OFFSET: usize = 0;
pub const STACK_ID_OFFSET: usize = 8;
pub const TIMESTAMP_OFFSET: usize = 16;
pub const EVENT_TYPE_OFFSET: usize = 24;
pub const DATA_LEN_OFFSET: usize = 25;
pub const DATA_OFFSET: usize = 26;

/// Capacity of the function-name buffer of a record.
pub const NAME_CAPACITY: usize = 64;

/// What a probe observed: a function was entered or exited.
#[derive(PartialEq, Eq, Structural, Clone, Copy, Debug)]
pub enum EventKind {
    Enter,
    Exit,
}

/// One probe observation: process id, call-path identifier, monotonic
/// timestamp in nanoseconds, event type (0 enter, 1 exit) and the function
/// name as a byte buffer of which the first `data_len` bytes are meaningful.
pub struct EbpfData {
    pub pid: u32,
    pub stack_id: u64,
    pub timestamp: u64,
    pub event_type: u8,
    pub data_len: u8,
    pub data: Vec<u8>,
}

/// The value of little-endian bytes.
pub open spec fn le_value(bytes: Seq<u8>) -> nat
    decreases bytes.len(),
{
    if bytes.len() == 0 {
        0
    } else {
        bytes[0] as nat + 256 * le_value(bytes.drop_first())
    }
}

pub open spec fn pow256(n: nat) -> nat
    decreases n,
{
    if n == 0 {
        1
    } else {
        256 * pow256((n - 1) as nat)
    }
}

/// The kind of an event type byte; other values name no kind.
pub open spec fn kind_of(event_type: u8) -> Option<EventKind> {
    if event_type == 0 {
        Some(EventKind::Enter)
    } else if event_type == 1 {
        Some(EventKind::Exit)
    } else {
        None
    }
}

/// The meaningful bytes of a name buffer: the first `len`, cut at the buffer's end.
pub open spec fn name_bytes(data: Seq<u8>, len: u8) -> Seq<u8> {
    if (len as int) <= data.len() {
        data.subrange(0, len as int)
    } else {
        data
    }
}

/// What a function name decodes to, invalid UTF-8 sequences replaced.
pub uninterp spec fn lossy_utf8(bytes: Seq<u8>) -> Seq<char>;

/// Relies on `String::from_utf8_lossy`: the result depends on the bytes alone,
/// is their decoding where they are valid UTF-8, and is empty for no bytes.
#[verifier::external_body]
fn decode_lossy(bytes: &[u8]) -> (r: String)
    ensures
        r@ == lossy_utf8(bytes@),
        vstd::utf8::valid_utf8(bytes@) ==> r@ == vstd::utf8::decode_utf8(bytes@),
        bytes@.len() == 0 ==> r@.len() == 0,
{
    String::from_utf8_lossy(bytes).into_owned()
}

/// Reads `n` little-endian bytes from `off`.
fn read_le(bytes: &[u8], off: usize, n: usize) -> (r: u64)
    requires
        n <= 8,
        off + n <= bytes@.len(),
    ensures
        r as nat == le_value(bytes@.subrange(off as int, off + n)),
        (r as nat) < pow256(n as nat),
{
    let len = bytes.len();
    assert(off + n <= len);
    let mut acc: u64 = 0;
    let mut i: usize = n;
    proof {
        assert(bytes@.subrange(off + i, off + n) =~= Seq::<u8>::empty());
        reveal_with_fuel(pow256, 9);
    }
    while i > 0
        invariant
            n <= 8,
            off + n <= bytes@.len(),
            off + n <= usize::MAX,
            i <= n,
            acc as nat == le_value(bytes@.subrange(off + i, off + n)),
            (acc as nat) < pow256((n - i) as nat),
            pow256(8) == 0x1_0000_0000_0000_0000,
        decreases i,
    {
        let ghost k = (n - i) as nat;
        proof {
            lemma_pow256_mono(k + 1, 8);
            assert(pow256(k + 1) == 256 * pow256(k));
        }
        let b = bytes[off + (i - 1)];
        assert(acc * 256 + b < pow256(k + 1)) by (nonlinear_arith)
            requires
                acc < pow256(k),
                b < 256,
                pow256(k + 1) == 256 * pow256(k),
        ;
        assert(bytes@.subrange(off + i - 1, off + n).drop_first() =~= bytes@.subrange(off + i, off + n));
        acc = acc * 256 + b as u64;
        i = i - 1;
    }
    acc
}

proof fn lemma_pow256_mono(a: nat, b: nat)
    requires
        a <= b,
    ensures
        pow256(a) <= pow256(b),
    decreases b,
{
    if a < b {
        lemma_pow256_mono(a, (b - 1) as nat);
    }
}

impl EbpfData {
    /// Decodes one little-endian record; `None` where fewer than
    /// `RECORD_SIZE` bytes are given.
    pub fn decode(bytes: &[u8]) -> (r: Option<EbpfData>)
        ensures
            r is None <==> bytes@.len() < RECORD_SIZE,
            r matches Some(e) ==> {
                &&& e.pid as nat == le_value(bytes@.subrange(0, 4))
                &&& e.stack_id as nat == le_value(bytes@.subrange(8, 16))
                &&& e.timestamp as nat == le_value(bytes@.subrange(16, 24))
                &&& e.event_type == bytes@[24]
                &&& e.data_len == bytes@[25]
                &&& e.data@ == bytes@.subrange(26, 90)
            },
    {
        if bytes.len() < RECORD_SIZE {
            return None;
        }
        proof {
            reveal_with_fuel(pow256, 5);
        }
        let pid = read_le(bytes, PID_OFFSET, 4) as u32;
        let stack_id = read_le(bytes, STACK_ID_OFFSET, 8);
        let timestamp = read_le(bytes, TIMESTAMP_OFFSET, 8);
        let mut data: Vec<u8> = Vec::new();
        let mut i: usize = 0;
        while i < NAME_CAPACITY
            invariant
                bytes@.len() >= RECORD_SIZE,
                i <= NAME_CAPACITY,
                data@ == bytes@.subrange(DATA_OFFSET as int, DATA_OFFSET + i),
            decreases NAME_CAPACITY - i,
        {
            data.push(bytes[DATA_OFFSET + i]);
            i = i + 1;
            assert(data@ =~= bytes@.subrange(DATA_OFFSET as int, DATA_OFFSET + i));
        }
        Some(
            EbpfData {
                pid,
                stack_id,
                timestamp,
                event_type: bytes[EVENT_TYPE_OFFSET],
                data_len: bytes[DATA_LEN_OFFSET],
                data,
            },
        )
    }

    /// The event's kind, if its type byte names one.
    pub fn kind(&self) -> (r: Option<EventKind>)
        ensures
            r == kind_of(self.event_type),
    {
        if self.event_type == 0 {
            Some(EventKind::Enter)
        } else if self.event_type == 1 {
            Some(EventKind::Exit)
        } else {
            None
        }
    }

    /// The function name, decoded permissively from its meaningful bytes.
    pub fn func_name(&self) -> (r: String)
        ensures
            r@ == lossy_utf8(name_bytes(self.data@, self.data_len)),
    {
        let len = self.data_len as usize;
        let end = if len <= self.data.len() {
            len
        } else {
            self.data.len()
        };
        let bytes = vstd::slice::slice_subrange(self.data.as_slice(), 0, end);
        assert(bytes@ =~= name_bytes(self.data@, self.data_len));
        decode_lossy(bytes)
    }
}

} // verus!
