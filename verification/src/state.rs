//! The persisted plugin state and its compact, versioned binary encoding.
//!
//! Layout (all integers little-endian): the magic `HMSC`, the version as a
//! `u32`, the history length as a `u32`, each history entry as a `u32` byte
//! length followed by its UTF-8 bytes, then a cycle flag byte; when the flag
//! is nonzero it is followed by the cycle index (`u32`), the cycle target
//! (length-prefixed string) and the 8 bytes of the cycle timestamp.

use vstd::prelude::*;
use vstd::bytes::*;
use vstd::utf8::*;
use crate::text::ids;

verus! {

/// The only version this encoding reads and the one a fresh state carries.
pub const CURRENT_VERSION: u32 = 2;

/// A cycle in progress through the most-recently-used order.
pub struct Cycle {
    /// Position of `target` in the order that the cycle walks.
    pub index: usize,
    /// The pane that the last cycle step selected.
    pub target: String,
    /// When the last cycle step happened: the bit pattern of the `f64`
    /// number of seconds since the Unix epoch.
    pub last_at: u64,
}

/// The persisted plugin state.
pub struct State {
    pub version: u32,
    /// Pane ids, most recently used first.
    pub history: Vec<String>,
    pub cycle: Option<Cycle>,
}

/// Mathematical model of a [`Cycle`].
pub struct CycleModel {
    pub index: usize,
    pub target: Seq<char>,
    pub last_at: u64,
}

/// Mathematical model of a [`State`].
pub struct StateModel {
    pub version: u32,
    pub history: Seq<Seq<char>>,
    pub cycle: Option<CycleModel>,
}

impl View for Cycle {
    type V = CycleModel;

    open spec fn view(&self) -> CycleModel {
        CycleModel { index: self.index, target: self.target@, last_at: self.last_at }
    }
}

pub open spec fn cycle_view(c: Option<Cycle>) -> Option<CycleModel> {
    match c {
        Some(c) => Some(c@),
        None => None,
    }
}

impl View for State {
    type V = StateModel;

    open spec fn view(&self) -> StateModel {
        StateModel { version: self.version, history: ids(self.history@), cycle: cycle_view(self.cycle) }
    }
}

/// The state of a fresh install.
pub open spec fn default_state() -> StateModel {
    StateModel { version: CURRENT_VERSION, history: Seq::empty(), cycle: None }
}

impl Default for State {
    fn default() -> (s: State)
        ensures
            s@ == default_state(),
    {
        let s = State { version: CURRENT_VERSION, history: Vec::new(), cycle: None };
        assert(ids(s.history@) =~= Seq::<Seq<char>>::empty());
        s
    }
}

/// Why a byte string is not a state file.
#[derive(Debug, PartialEq, Eq, Structural)]
pub enum DecodeError {
    /// Too short for the header, or the magic is wrong.
    BadMagic,
    /// The header carries a version other than [`CURRENT_VERSION`].
    UnsupportedVersion(u32),
    /// The bytes end in the middle of a field.
    Truncated,
    /// A string field is not well-formed UTF-8.
    InvalidUtf8,
}

// ---------------------------------------------------------------- encoding

/// The magic that opens every state file: `HMSC`.
pub open spec fn magic() -> Seq<u8> {
    seq![0x48u8, 0x4du8, 0x53u8, 0x43u8]
}

pub open spec fn le32(x: u32) -> Seq<u8> {
    spec_u32_to_le_bytes(x)
}

pub open spec fn le64(x: u64) -> Seq<u8> {
    spec_u64_to_le_bytes(x)
}

/// A string field: its UTF-8 byte length (truncated to 32 bits) and its bytes.
pub open spec fn encode_str(s: Seq<char>) -> Seq<u8> {
    le32(encode_utf8(s).len() as u32) + encode_utf8(s)
}

/// The string fields of `h`, in order.
pub open spec fn encode_strs(h: Seq<Seq<char>>) -> Seq<u8>
    decreases h.len(),
{
    if h.len() == 0 {
        Seq::empty()
    } else {
        encode_strs(h.drop_last()) + encode_str(h.last())
    }
}

/// The cycle flag and, for a cycle, its fields.
pub open spec fn encode_cycle(c: Option<CycleModel>) -> Seq<u8> {
    match c {
        None => seq![0u8],
        Some(c) => seq![1u8] + le32(c.index as u32) + encode_str(c.target) + le64(c.last_at),
    }
}

/// The bytes that [`to_bytes`] writes for a state.
pub open spec fn encode_state(s: StateModel) -> Seq<u8> {
    magic() + le32(s.version) + le32(s.history.len() as u32) + encode_strs(s.history)
        + encode_cycle(s.cycle)
}

// ---------------------------------------------------------------- decoding

pub open spec fn decode_u8_at(buf: Seq<u8>, pos: int) -> Result<(u8, int), DecodeError> {
    if pos + 1 > buf.len() {
        Err(DecodeError::Truncated)
    } else {
        Ok((buf[pos], pos + 1))
    }
}

pub open spec fn decode_u32_at(buf: Seq<u8>, pos: int) -> Result<(u32, int), DecodeError> {
    if pos + 4 > buf.len() {
        Err(DecodeError::Truncated)
    } else {
        Ok((spec_u32_from_le_bytes(buf.subrange(pos, pos + 4)), pos + 4))
    }
}

pub open spec fn decode_u64_at(buf: Seq<u8>, pos: int) -> Result<(u64, int), DecodeError> {
    if pos + 8 > buf.len() {
        Err(DecodeError::Truncated)
    } else {
        Ok((spec_u64_from_le_bytes(buf.subrange(pos, pos + 8)), pos + 8))
    }
}

pub open spec fn decode_str_at(buf: Seq<u8>, pos: int) -> Result<(Seq<char>, int), DecodeError> {
    match decode_u32_at(buf, pos) {
        Err(e) => Err(e),
        Ok((n, p)) => if p + n > buf.len() {
            Err(DecodeError::Truncated)
        } else if !valid_utf8(buf.subrange(p, p + n)) {
            Err(DecodeError::InvalidUtf8)
        } else {
            Ok((decode_utf8(buf.subrange(p, p + n)), p + n))
        },
    }
}

/// `n` string fields read one after the other from `pos`.
pub open spec fn decode_strs_at(buf: Seq<u8>, pos: int, n: nat) -> Result<
    (Seq<Seq<char>>, int),
    DecodeError,
>
    decreases n,
{
    if n == 0 {
        Ok((Seq::empty(), pos))
    } else {
        match decode_strs_at(buf, pos, (n - 1) as nat) {
            Err(e) => Err(e),
            Ok((h, p)) => match decode_str_at(buf, p) {
                Err(e) => Err(e),
                Ok((s, q)) => Ok((h.push(s), q)),
            },
        }
    }
}

pub open spec fn decode_cycle_at(buf: Seq<u8>, pos: int) -> Result<Option<CycleModel>, DecodeError> {
    match decode_u8_at(buf, pos) {
        Err(e) => Err(e),
        Ok((flag, p)) => if flag == 0 {
            Ok(None)
        } else {
            match decode_u32_at(buf, p) {
                Err(e) => Err(e),
                Ok((index, p2)) => match decode_str_at(buf, p2) {
                    Err(e) => Err(e),
                    Ok((target, p3)) => match decode_u64_at(buf, p3) {
                        Err(e) => Err(e),
                        Ok((at, _p4)) => Ok(
                            Some(CycleModel { index: index as usize, target, last_at: at }),
                        ),
                    },
                },
            }
        },
    }
}

/// What [`from_bytes`] makes of a byte string. Bytes after the cycle are ignored.
pub open spec fn decode_state(buf: Seq<u8>) -> Result<StateModel, DecodeError> {
    if buf.len() < 8 || buf.subrange(0, 4) != magic() {
        Err(DecodeError::BadMagic)
    } else {
        let version = spec_u32_from_le_bytes(buf.subrange(4, 8));
        if version != CURRENT_VERSION {
            Err(DecodeError::UnsupportedVersion(version))
        } else {
            match decode_u32_at(buf, 8) {
                Err(e) => Err(e),
                Ok((n, p)) => match decode_strs_at(buf, p, n as nat) {
                    Err(e) => Err(e),
                    Ok((h, q)) => match decode_cycle_at(buf, q) {
                        Err(e) => Err(e),
                        Ok(c) => Ok(StateModel { version, history: h, cycle: c }),
                    },
                },
            }
        }
    }
}


/// Once reading `k` string fields fails, reading more fails the same way.
proof fn lemma_strs_error_persists(buf: Seq<u8>, pos: int, k: nat, m: nat)
    requires
        k <= m,
        decode_strs_at(buf, pos, k) is Err,
    ensures
        decode_strs_at(buf, pos, m) == decode_strs_at(buf, pos, k),
    decreases m - k,
{
    if k < m {
        lemma_strs_error_persists(buf, pos, k, (m - 1) as nat);
    }
}

/// Whether every length and index of `s` fits the 32-bit fields of the encoding.
pub open spec fn fits_encoding(s: StateModel) -> bool {
    &&& s.history.len() <= u32::MAX
    &&& forall|i: int| 0 <= i < s.history.len() ==> encode_utf8(#[trigger] s.history[i]).len() <= u32::MAX
    &&& s.cycle matches Some(c) ==> c.index <= u32::MAX && encode_utf8(c.target).len() <= u32::MAX
}

/// A string field that `a` precedes decodes to its string.
proof fn lemma_decode_str(a: Seq<u8>, s: Seq<char>, b: Seq<u8>)
    requires
        encode_utf8(s).len() <= u32::MAX,
    ensures
        decode_str_at(a + encode_str(s) + b, a.len() as int) == Ok::<(Seq<char>, int), DecodeError>(
            (s, (a.len() + encode_str(s).len()) as int),
        ),
{
    let buf = a + encode_str(s) + b;
    let bytes = encode_utf8(s);
    let n = bytes.len() as u32;
    lemma_auto_spec_u32_to_from_le_bytes();
    let p = a.len() as int;
    assert(buf.subrange(p, p + 4) =~= le32(n));
    assert(buf.subrange(p + 4, p + 4 + n) =~= bytes);
    encode_utf8_valid_utf8(s);
    encode_utf8_decode_utf8(s);
}

/// The string fields of `h`, preceded by `a`, decode to `h`.
proof fn lemma_decode_strs(a: Seq<u8>, h: Seq<Seq<char>>, b: Seq<u8>)
    requires
        forall|i: int| 0 <= i < h.len() ==> encode_utf8(#[trigger] h[i]).len() <= u32::MAX,
    ensures
        decode_strs_at(a + encode_strs(h) + b, a.len() as int, h.len()) == Ok::<
            (Seq<Seq<char>>, int),
            DecodeError,
        >((h, (a.len() + encode_strs(h).len()) as int)),
    decreases h.len(),
{
    if h.len() > 0 {
        let init = h.drop_last();
        let x = h.last();
        assert(encode_utf8(h[h.len() - 1]).len() <= u32::MAX);
        assert forall|i: int| 0 <= i < init.len() implies encode_utf8(#[trigger] init[i]).len() <= u32::MAX by {
            assert(init[i] == h[i]);
        }
        let buf = a + encode_strs(h) + b;
        lemma_decode_strs(a, init, encode_str(x) + b);
        assert(buf =~= a + encode_strs(init) + (encode_str(x) + b));
        lemma_decode_str(a + encode_strs(init), x, b);
        assert(buf =~= (a + encode_strs(init)) + encode_str(x) + b);
        let p = (a.len() + encode_strs(init).len()) as int;
        assert(decode_strs_at(buf, a.len() as int, init.len()) == Ok::<(Seq<Seq<char>>, int), DecodeError>((init, p)));
        assert(decode_str_at(buf, p) == Ok::<(Seq<char>, int), DecodeError>((x, p + encode_str(x).len())));
        assert(init.len() == (h.len() - 1) as nat);
        assert(init.push(x) =~= h);
        assert(encode_strs(h) == encode_strs(init) + encode_str(x));
        assert(decode_strs_at(buf, a.len() as int, h.len()) == Ok::<(Seq<Seq<char>>, int), DecodeError>((init.push(x), p + encode_str(x).len())));
    } else {
        assert(encode_strs(h) =~= Seq::<u8>::empty());
        assert(h =~= Seq::<Seq<char>>::empty());
    }
}

/// Decoding what [`to_bytes`] wrote gives the state back, for any state of the
/// current version whose lengths and cycle index fit the 32-bit fields; bytes
/// that follow the encoding are ignored.
pub proof fn lemma_decode_encode(s: StateModel, rest: Seq<u8>)
    requires
        s.version == CURRENT_VERSION,
        fits_encoding(s),
    ensures
        decode_state(encode_state(s) + rest) == Ok::<StateModel, DecodeError>(s),
{
    lemma_auto_spec_u32_to_from_le_bytes();
    lemma_auto_spec_u64_to_from_le_bytes();
    let head = magic() + le32(s.version) + le32(s.history.len() as u32);
    let strs = encode_strs(s.history);
    let cyc = encode_cycle(s.cycle);
    let buf = encode_state(s) + rest;
    assert(buf =~= head + strs + (cyc + rest));
    assert(head.len() == 12);
    assert(buf.subrange(0, 4) =~= magic());
    assert(buf.subrange(4, 8) =~= le32(s.version));
    assert(buf.subrange(8, 12) =~= le32(s.history.len() as u32));
    lemma_decode_strs(head, s.history, cyc + rest);
    let q = (head.len() + strs.len()) as int;
    assert(buf =~= (head + strs) + cyc + rest);
    match s.cycle {
        None => {
            assert(buf[q] == 0u8);
        },
        Some(c) => {
            let pre = head + strs + seq![1u8];
            assert(buf[q] == 1u8);
            assert(buf.subrange(q + 1, q + 5) =~= le32(c.index as u32));
            let pre2 = pre + le32(c.index as u32);
            assert(buf =~= pre2 + encode_str(c.target) + (le64(c.last_at) + rest));
            lemma_decode_str(pre2, c.target, le64(c.last_at) + rest);
            let p3 = (pre2.len() + encode_str(c.target).len()) as int;
            assert(buf.subrange(p3, p3 + 8) =~= le64(c.last_at));
        },
    }
}

/// A state file that carries the magic and a version other than
/// [`CURRENT_VERSION`] is refused with that version, whatever follows the
/// header: it is never read with the current layout.
pub proof fn lemma_other_version_refused(v: u32, rest: Seq<u8>)
    requires
        v != CURRENT_VERSION,
    ensures
        decode_state(magic() + le32(v) + rest) == Err::<StateModel, DecodeError>(DecodeError::UnsupportedVersion(v)),
{
    lemma_auto_spec_u32_to_from_le_bytes();
    let buf = magic() + le32(v) + rest;
    assert(buf.subrange(0, 4) =~= magic());
    assert(buf.subrange(4, 8) =~= le32(v));
}

/// Any byte string of at least 8 bytes that starts with the magic and whose
/// header version is not [`CURRENT_VERSION`] is refused with that version.
pub proof fn lemma_header_version_refused(buf: Seq<u8>)
    requires
        buf.len() >= 8,
        buf.subrange(0, 4) == magic(),
        spec_u32_from_le_bytes(buf.subrange(4, 8)) != CURRENT_VERSION,
    ensures
        decode_state(buf) == Err::<StateModel, DecodeError>(
            DecodeError::UnsupportedVersion(spec_u32_from_le_bytes(buf.subrange(4, 8))),
        ),
{
}

/// A byte field that a prefix of `buf` still holds whole reads as in `buf`;
/// one that it cuts off reads as truncated.
proof fn lemma_prefix_u8(buf: Seq<u8>, pos: int, k: int)
    requires
        0 <= pos,
        0 <= k <= buf.len(),
        decode_u8_at(buf, pos) is Ok,
    ensures
        decode_u8_at(buf, pos)->Ok_0.1 <= k ==> decode_u8_at(buf.take(k), pos) == decode_u8_at(buf, pos),
        decode_u8_at(buf, pos)->Ok_0.1 > k ==> decode_u8_at(buf.take(k), pos) == Err::<(u8, int), DecodeError>(
            DecodeError::Truncated,
        ),
{
}

/// A `u32` field that a prefix of `buf` still holds whole reads as in
/// `buf`; one that it cuts off reads as truncated.
proof fn lemma_prefix_u32(buf: Seq<u8>, pos: int, k: int)
    requires
        0 <= pos,
        0 <= k <= buf.len(),
        decode_u32_at(buf, pos) is Ok,
    ensures
        decode_u32_at(buf, pos)->Ok_0.1 <= k ==> decode_u32_at(buf.take(k), pos) == decode_u32_at(buf, pos),
        decode_u32_at(buf, pos)->Ok_0.1 > k ==> decode_u32_at(buf.take(k), pos) == Err::<(u32, int), DecodeError>(
            DecodeError::Truncated,
        ),
{
    if pos + 4 <= k {
        assert(buf.take(k).subrange(pos, pos + 4) =~= buf.subrange(pos, pos + 4));
    }
}

/// A `u64` field that a prefix of `buf` still holds whole reads as in
/// `buf`; one that it cuts off reads as truncated.
proof fn lemma_prefix_u64(buf: Seq<u8>, pos: int, k: int)
    requires
        0 <= pos,
        0 <= k <= buf.len(),
        decode_u64_at(buf, pos) is Ok,
    ensures
        decode_u64_at(buf, pos)->Ok_0.1 <= k ==> decode_u64_at(buf.take(k), pos) == decode_u64_at(buf, pos),
        decode_u64_at(buf, pos)->Ok_0.1 > k ==> decode_u64_at(buf.take(k), pos) == Err::<(u64, int), DecodeError>(
            DecodeError::Truncated,
        ),
{
    if pos + 8 <= k {
        assert(buf.take(k).subrange(pos, pos + 8) =~= buf.subrange(pos, pos + 8));
    }
}

/// A string field that a prefix of `buf` still holds whole reads as in
/// `buf`; one that it cuts off reads as truncated.
proof fn lemma_prefix_str(buf: Seq<u8>, pos: int, k: int)
    requires
        0 <= pos,
        0 <= k <= buf.len(),
        decode_str_at(buf, pos) is Ok,
    ensures
        pos < decode_str_at(buf, pos)->Ok_0.1,
        decode_str_at(buf, pos)->Ok_0.1 <= k ==> decode_str_at(buf.take(k), pos) == decode_str_at(buf, pos),
        decode_str_at(buf, pos)->Ok_0.1 > k ==> decode_str_at(buf.take(k), pos) == Err::<(Seq<char>, int), DecodeError>(
            DecodeError::Truncated,
        ),
{
    lemma_prefix_u32(buf, pos, k);
    let (n, p) = decode_u32_at(buf, pos)->Ok_0;
    if p <= k && p + n <= k {
        assert(buf.take(k).subrange(p, p + n) =~= buf.subrange(p, p + n));
    }
}

/// `n` string fields that a prefix of `buf` still holds whole read as in
/// `buf`; once the prefix cuts one off, reading them is truncated.
proof fn lemma_prefix_strs(buf: Seq<u8>, pos: int, n: nat, k: int)
    requires
        0 <= pos <= k,
        0 <= k <= buf.len(),
        decode_strs_at(buf, pos, n) is Ok,
    ensures
        pos <= decode_strs_at(buf, pos, n)->Ok_0.1,
        decode_strs_at(buf, pos, n)->Ok_0.1 <= k ==> decode_strs_at(buf.take(k), pos, n) == decode_strs_at(
            buf,
            pos,
            n,
        ),
        decode_strs_at(buf, pos, n)->Ok_0.1 > k ==> decode_strs_at(buf.take(k), pos, n) == Err::<
            (Seq<Seq<char>>, int),
            DecodeError,
        >(DecodeError::Truncated),
    decreases n,
{
    if n > 0 {
        let m = (n - 1) as nat;
        lemma_prefix_strs(buf, pos, m, k);
        let p = decode_strs_at(buf, pos, m)->Ok_0.1;
        lemma_prefix_str(buf, p, k);
        if p > k {
            lemma_strs_error_persists(buf.take(k), pos, m, n);
        }
    }
}

/// Every strict prefix of what [`to_bytes`] writes, for a state that
/// [`lemma_decode_encode`] reads back, is refused: as too short for the
/// header when it ends within the first 8 bytes, and as truncated otherwise.
pub proof fn lemma_prefix_rejected(s: StateModel, k: int)
    requires
        s.version == CURRENT_VERSION,
        fits_encoding(s),
        0 <= k < encode_state(s).len(),
    ensures
        decode_state(encode_state(s).take(k)) == Err::<StateModel, DecodeError>(
            if k < 8 {
                DecodeError::BadMagic
            } else {
                DecodeError::Truncated
            },
        ),
{
    lemma_auto_spec_u32_to_from_le_bytes();
    lemma_auto_spec_u64_to_from_le_bytes();
    let buf = encode_state(s);
    let pre = buf.take(k);
    let head = magic() + le32(s.version) + le32(s.history.len() as u32);
    let strs = encode_strs(s.history);
    let cyc = encode_cycle(s.cycle);
    assert(buf =~= head + strs + cyc);
    assert(head.len() == 12);
    if k >= 8 {
        assert(pre.subrange(0, 4) =~= magic());
        assert(pre.subrange(4, 8) =~= le32(s.version));
        assert(buf.subrange(8, 12) =~= le32(s.history.len() as u32));
        lemma_prefix_u32(buf, 8, k);
        if k >= 12 {
            lemma_decode_strs(head, s.history, cyc);
            assert(head + strs + cyc == buf);
            let q = (head.len() + strs.len()) as int;
            lemma_prefix_strs(buf, 12, s.history.len(), k);
            if q <= k {
                lemma_prefix_u8(buf, q, k);
                match s.cycle {
                    None => {
                        assert(buf[q] == 0u8);
                    },
                    Some(c) => {
                        assert(buf[q] == 1u8);
                        assert(buf.subrange(q + 1, q + 5) =~= le32(c.index as u32));
                        lemma_prefix_u32(buf, q + 1, k);
                        let pre2 = head + strs + seq![1u8] + le32(c.index as u32);
                        assert(buf =~= pre2 + encode_str(c.target) + le64(c.last_at));
                        lemma_decode_str(pre2, c.target, le64(c.last_at));
                        lemma_prefix_str(buf, q + 5, k);
                        let p3 = (pre2.len() + encode_str(c.target).len()) as int;
                        assert(buf.subrange(p3, p3 + 8) =~= le64(c.last_at));
                        lemma_prefix_u64(buf, p3, k);
                    },
                }
            }
        }
    }
}

// ---------------------------------------------------------------- exec

/// `std::str::from_utf8`: the string that `bytes` encode, when they are
/// well-formed UTF-8, and `None` otherwise.
#[verifier::external_body]
fn utf8_to_string(bytes: &[u8]) -> (res: Option<String>)
    ensures
        res is Some <==> valid_utf8(bytes@),
        res matches Some(s) ==> s@ == decode_utf8(bytes@),
{
    std::str::from_utf8(bytes).ok().map(|s| s.to_string())
}

fn append_bytes(buf: &mut Vec<u8>, bytes: &[u8])
    ensures
        final(buf)@ == old(buf)@ + bytes@,
{
    let mut i: usize = 0;
    while i < bytes.len()
        invariant
            i <= bytes@.len(),
            buf@ == old(buf)@ + bytes@.take(i as int),
        decreases bytes@.len() - i,
    {
        buf.push(bytes[i]);
        assert(bytes@.take(i + 1) =~= bytes@.take(i as int).push(bytes@[i as int]));
        i = i + 1;
    }
    assert(bytes@.take(bytes@.len() as int) =~= bytes@);
}

fn write_u32(buf: &mut Vec<u8>, value: u32)
    ensures
        final(buf)@ == old(buf)@ + le32(value),
{
    let bytes = u32_to_le_bytes(value);
    append_bytes(buf, bytes.as_slice());
}

fn write_u8(buf: &mut Vec<u8>, value: u8)
    ensures
        final(buf)@ == old(buf)@.push(value),
{
    buf.push(value);
}

fn write_string(buf: &mut Vec<u8>, value: &str)
    ensures
        final(buf)@ == old(buf)@ + encode_str(value@),
{
    let bytes = value.as_bytes();
    #[verifier::truncate]
    let len = bytes.len() as u32;
    write_u32(buf, len);
    append_bytes(buf, bytes);
    assert(buf@ =~= old(buf)@ + encode_str(value@));
}

/// Encodes `state` in the state file format.
pub fn to_bytes(state: &State) -> (buf: Vec<u8>)
    ensures
        buf@ == encode_state(state@),
{
    let mut buf: Vec<u8> = Vec::new();
    buf.push(0x48u8);
    buf.push(0x4du8);
    buf.push(0x53u8);
    buf.push(0x43u8);
    assert(buf@ =~= magic());
    write_u32(&mut buf, state.version);
    write_u32(&mut buf, state.history.len() as u32);
    let ghost head = buf@;
    let ghost h = ids(state.history@);
    let mut i: usize = 0;
    while i < state.history.len()
        invariant
            i <= state.history@.len(),
            h == ids(state.history@),
            buf@ == head + encode_strs(h.take(i as int)),
        decreases state.history@.len() - i,
    {
        write_string(&mut buf, state.history[i].as_str());
        assert(h.take(i + 1).drop_last() =~= h.take(i as int));
        i = i + 1;
    }
    assert(h.take(state.history@.len() as int) =~= h);
    let ghost mid = buf@;
    match &state.cycle {
        Some(cycle) => {
            write_u8(&mut buf, 1);
            write_u32(&mut buf, cycle.index as u32);
            write_string(&mut buf, cycle.target.as_str());
            let at = u64_to_le_bytes(cycle.last_at);
            append_bytes(&mut buf, at.as_slice());
            assert(buf@ =~= mid + encode_cycle(cycle_view(state.cycle)));
        },
        None => {
            write_u8(&mut buf, 0);
            assert(buf@ =~= mid + encode_cycle(cycle_view(state.cycle)));
        },
    }
    assert(buf@ =~= encode_state(state@));
    buf
}

fn read_u32(buf: &[u8], pos: &mut usize) -> (res: Result<u32, DecodeError>)
    requires
        *old(pos) <= buf@.len(),
    ensures
        match decode_u32_at(buf@, *old(pos) as int) {
            Ok((v, p)) => res == Ok::<u32, DecodeError>(v) && *final(pos) == p,
            Err(e) => res == Err::<u32, DecodeError>(e),
        },
{
    if buf.len() - *pos < 4 {
        return Err(DecodeError::Truncated);
    }
    let field = vstd::slice::slice_subrange(buf, *pos, *pos + 4);
    let value = u32_from_le_bytes(field);
    *pos = *pos + 4;
    Ok(value)
}

fn read_u8(buf: &[u8], pos: &mut usize) -> (res: Result<u8, DecodeError>)
    requires
        *old(pos) <= buf@.len(),
    ensures
        match decode_u8_at(buf@, *old(pos) as int) {
            Ok((v, p)) => res == Ok::<u8, DecodeError>(v) && *final(pos) == p,
            Err(e) => res == Err::<u8, DecodeError>(e),
        },
{
    if *pos >= buf.len() {
        return Err(DecodeError::Truncated);
    }
    let value = buf[*pos];
    *pos = *pos + 1;
    Ok(value)
}

fn read_u64(buf: &[u8], pos: &mut usize) -> (res: Result<u64, DecodeError>)
    requires
        *old(pos) <= buf@.len(),
    ensures
        match decode_u64_at(buf@, *old(pos) as int) {
            Ok((v, p)) => res == Ok::<u64, DecodeError>(v) && *final(pos) == p,
            Err(e) => res == Err::<u64, DecodeError>(e),
        },
{
    if buf.len() - *pos < 8 {
        return Err(DecodeError::Truncated);
    }
    let field = vstd::slice::slice_subrange(buf, *pos, *pos + 8);
    let value = u64_from_le_bytes(field);
    *pos = *pos + 8;
    Ok(value)
}

fn read_string(buf: &[u8], pos: &mut usize) -> (res: Result<String, DecodeError>)
    requires
        *old(pos) <= buf@.len(),
    ensures
        match decode_str_at(buf@, *old(pos) as int) {
            Ok((v, p)) => res matches Ok(s) && s@ == v && *final(pos) == p,
            Err(e) => res == Err::<String, DecodeError>(e),
        },
{
    let len = read_u32(buf, pos)? as usize;
    if len > buf.len() - *pos {
        return Err(DecodeError::Truncated);
    }
    let field = vstd::slice::slice_subrange(buf, *pos, *pos + len);
    match utf8_to_string(field) {
        Some(s) => {
            *pos = *pos + len;
            Ok(s)
        },
        None => Err(DecodeError::InvalidUtf8),
    }
}

/// Decodes a state file; see [`decode_state`] for what each input gives.
#[verifier::loop_isolation(false)]
pub fn from_bytes(buf: &[u8]) -> (res: Result<State, DecodeError>)
    ensures
        match decode_state(buf@) {
            Ok(m) => res matches Ok(s) && s@ == m,
            Err(e) => res == Err::<State, DecodeError>(e),
        },
{
    if buf.len() < 8 || buf[0] != 0x48u8 || buf[1] != 0x4du8 || buf[2] != 0x53u8 || buf[3] != 0x43u8 {
        proof {
            if buf@.len() >= 8 {
                assert(buf@.subrange(0, 4)[0] == buf@[0]);
                assert(buf@.subrange(0, 4)[1] == buf@[1]);
                assert(buf@.subrange(0, 4)[2] == buf@[2]);
                assert(buf@.subrange(0, 4)[3] == buf@[3]);
            }
        }
        return Err(DecodeError::BadMagic);
    }
    assert(buf@.subrange(0, 4) =~= magic());
    let mut pos: usize = 4;
    let version = read_u32(buf, &mut pos)?;
    if version != CURRENT_VERSION {
        return Err(DecodeError::UnsupportedVersion(version));
    }
    let history_len = read_u32(buf, &mut pos)? as usize;
    let ghost start = pos as int;
    let mut history: Vec<String> = Vec::new();
    assert(ids(history@) =~= Seq::<Seq<char>>::empty());
    let mut i: usize = 0;
    while i < history_len
        invariant
            i <= history_len,
            pos <= buf@.len(),
            decode_strs_at(buf@, start, i as nat) == Ok::<(Seq<Seq<char>>, int), DecodeError>(
                (ids(history@), pos as int),
            ),
        decreases history_len - i,
    {
        let ghost before = ids(history@);
        proof {
            if decode_strs_at(buf@, start, (i + 1) as nat) is Err {
                lemma_strs_error_persists(buf@, start, (i + 1) as nat, history_len as nat);
            }
        }
        let s = read_string(buf, &mut pos)?;
        history.push(s);
        assert(ids(history@) =~= before.push(s@));
        i = i + 1;
    }
    let has_cycle = read_u8(buf, &mut pos)?;
    let cycle = if has_cycle != 0 {
        let index = read_u32(buf, &mut pos)? as usize;
        let target = read_string(buf, &mut pos)?;
        let last_at = read_u64(buf, &mut pos)?;
        Some(Cycle { index, target, last_at })
    } else {
        None
    };
    Ok(State { version, history, cycle })
}

/// The state that a state file's bytes hold: the decoded state, or a fresh
/// one when they are not a state file of the current version.
pub fn load_state(buf: &[u8]) -> (s: State)
    ensures
        match decode_state(buf@) {
            Ok(m) => s@ == m,
            Err(_) => s@ == default_state(),
        },
{
    match from_bytes(buf) {
        Ok(s) => s,
        Err(_) => State::default(),
    }
}

} // verus!
