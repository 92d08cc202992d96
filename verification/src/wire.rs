//! The byte layout of Solana transactions: compact-u16 lengths, locating the recent
//! blockhash in a message, telling a signed wire transaction from a bare message,
//! and decoding the text forms a transaction arrives in.

use vstd::prelude::*;
use crate::codecs::{
    base58_decode, base58_decoded, base64_decoded, base64_standard_decode,
    base64_url_safe_no_pad_decode,
};

verus! {

/// Why transaction bytes could not be read.
#[derive(Debug, Clone, PartialEq, Eq)]
pub enum WireError {
    /// "Unexpected end of bytes reading compact-u16"
    CompactEnd,
    /// "compact-u16 overflow": a third byte still asked for more.
    CompactOverflow,
    /// "Transaction message is empty"
    EmptyMessage,
    /// "Versioned transaction message too short for header"
    VersionedTooShort,
    /// "Transaction message too short to contain account key count"
    NoAccountCount,
    /// The account keys and blockhash run past the end of the message.
    MessageTooShort { account_count: u16, required: usize, len: usize },
    /// "Transaction payload is empty"
    EmptyPayload,
    /// Neither a signed wire transaction nor a bare message; the payload length and
    /// its first (up to 16) bytes.
    UnknownFormat { len: usize, first_bytes: Vec<u8> },
    /// The text is neither base58 nor base64; its length in bytes.
    NotBase58OrBase64 { len: usize },
    /// Instruction data that is neither base58 nor base64.
    UndecodableInstructionData(String),
}

pub enum WireErrorView {
    CompactEnd,
    CompactOverflow,
    EmptyMessage,
    VersionedTooShort,
    NoAccountCount,
    MessageTooShort(int, int, int),
    EmptyPayload,
    UnknownFormat(int, Seq<u8>),
    NotBase58OrBase64(int),
    UndecodableInstructionData(Seq<char>),
}

impl View for WireError {
    type V = WireErrorView;

    open spec fn view(&self) -> WireErrorView {
        match *self {
            WireError::CompactEnd => WireErrorView::CompactEnd,
            WireError::CompactOverflow => WireErrorView::CompactOverflow,
            WireError::EmptyMessage => WireErrorView::EmptyMessage,
            WireError::VersionedTooShort => WireErrorView::VersionedTooShort,
            WireError::NoAccountCount => WireErrorView::NoAccountCount,
            WireError::MessageTooShort { account_count, required, len } => WireErrorView::MessageTooShort(
                account_count as int,
                required as int,
                len as int,
            ),
            WireError::EmptyPayload => WireErrorView::EmptyPayload,
            WireError::UnknownFormat { len, first_bytes } => WireErrorView::UnknownFormat(
                len as int,
                first_bytes@,
            ),
            WireError::NotBase58OrBase64 { len } => WireErrorView::NotBase58OrBase64(len as int),
            WireError::UndecodableInstructionData(s) => WireErrorView::UndecodableInstructionData(s@),
        }
    }
}

/// The compact-u16 encoding of `v`: seven bits per byte, low bits first, the high
/// bit set on every byte but the last.
pub open spec fn compact_u16(v: nat) -> Seq<u8>
    decreases v,
{
    if v < 128 {
        seq![v as u8]
    } else {
        seq![(v % 128 + 128) as u8] + compact_u16(v / 128)
    }
}

/// Reading a compact-u16 at `off`: the value and the number of bytes it took.
/// A third byte contributes its two low bits (the rest fall outside 16 bits) and
/// must end the number.
pub open spec fn read_compact(bytes: Seq<u8>, off: int) -> Result<(int, int), WireErrorView> {
    if off >= bytes.len() {
        Err(WireErrorView::CompactEnd)
    } else if bytes[off] < 128 {
        Ok((bytes[off] as int, 1))
    } else if off + 1 >= bytes.len() {
        Err(WireErrorView::CompactEnd)
    } else {
        let v1 = bytes[off] % 128 + (bytes[off + 1] % 128) * 128;
        if bytes[off + 1] < 128 {
            Ok((v1, 2))
        } else if off + 2 >= bytes.len() {
            Err(WireErrorView::CompactEnd)
        } else if bytes[off + 2] < 128 {
            Ok((v1 + (bytes[off + 2] % 4) * 16384, 3))
        } else {
            Err(WireErrorView::CompactOverflow)
        }
    }
}

/// Writes a Solana compact-u16 into a byte buffer.
pub fn write_compact_u16(buf: &mut Vec<u8>, val: u16)
    ensures
        final(buf)@ == old(buf)@ + compact_u16(val as nat),
{
    let ghost start = buf@;
    let mut v: u16 = val;
    while v >= 128
        invariant
            start + compact_u16(val as nat) == buf@ + compact_u16(v as nat),
        decreases v,
    {
        let ghost before = buf@;
        let low = (v % 128) as u8;
        buf.push(low + 128);
        assert(before + compact_u16(v as nat) =~= buf@ + compact_u16((v / 128) as nat));
        v = v / 128;
    }
    let ghost before = buf@;
    buf.push(v as u8);
    assert(before + compact_u16(v as nat) =~= buf@);
}

/// Reads a Solana compact-u16 at `offset`; gives the value and the bytes consumed.
pub fn read_compact_u16(bytes: &[u8], offset: usize) -> (r: Result<(u16, usize), WireError>)
    ensures
        match r {
            Ok((v, n)) => read_compact(bytes@, offset as int) == Ok::<(int, int), WireErrorView>(
                (v as int, n as int),
            ),
            Err(e) => read_compact(bytes@, offset as int) == Err::<(int, int), WireErrorView>(e@),
        },
{
    if offset >= bytes.len() {
        return Err(WireError::CompactEnd);
    }
    let b0 = bytes[offset];
    if b0 < 128 {
        return Ok((b0 as u16, 1));
    }
    if offset + 1 >= bytes.len() {
        return Err(WireError::CompactEnd);
    }
    let b1 = bytes[offset + 1];
    let v1: u16 = (b0 % 128) as u16 + ((b1 % 128) as u16) * 128;
    if b1 < 128 {
        return Ok((v1, 2));
    }
    if offset + 2 >= bytes.len() {
        return Err(WireError::CompactEnd);
    }
    let b2 = bytes[offset + 2];
    if b2 < 128 {
        Ok((v1 + ((b2 % 4) as u16) * 16384, 3))
    } else {
        Err(WireError::CompactOverflow)
    }
}

/// Reading back what `write_compact_u16` wrote gives the value and its length,
/// whatever follows it.
pub proof fn lemma_compact_u16_roundtrip(v: u16, rest: Seq<u8>)
    ensures
        read_compact(compact_u16(v as nat) + rest, 0) == Ok::<(int, int), WireErrorView>(
            (v as int, compact_u16(v as nat).len() as int),
        ),
{
    let b = compact_u16(v as nat) + rest;
    if v >= 128 {
        let w = (v / 128) as nat;
        assert(compact_u16(v as nat) == seq![(v % 128 + 128) as u8] + compact_u16(w));
        if w >= 128 {
            let x = w / 128;
            assert(compact_u16(w) == seq![(w % 128 + 128) as u8] + compact_u16(x));
            assert(x < 4);
            assert(compact_u16(x) == seq![x as u8]);
            assert(b[0] == (v % 128 + 128) as u8);
            assert(b[1] == (w % 128 + 128) as u8);
            assert(b[2] == x as u8);
            assert(v as int == v % 128 + (w % 128) * 128 + x * 16384);
        } else {
            assert(compact_u16(w) == seq![w as u8]);
            assert(b[0] == (v % 128 + 128) as u8);
            assert(b[1] == w as u8);
        }
    } else {
        assert(b[0] == v as u8);
    }
}

/// Where the account keys end and the recent blockhash starts in a message, legacy
/// or versioned (a first byte with its high bit set is a version prefix).
pub open spec fn blockhash_position(m: Seq<u8>) -> Result<int, WireErrorView> {
    if m.len() == 0 {
        Err(WireErrorView::EmptyMessage)
    } else if m[0] >= 128 && m.len() < 4 {
        Err(WireErrorView::VersionedTooShort)
    } else {
        let count_at: int = if m[0] >= 128 {
            4
        } else {
            3
        };
        if count_at >= m.len() {
            Err(WireErrorView::NoAccountCount)
        } else {
            match read_compact(m, count_at) {
                Err(e) => Err(e),
                Ok((count, len)) => {
                    let end = count_at + len + 32 * count;
                    if end + 32 > m.len() {
                        Err(WireErrorView::MessageTooShort(count, end + 32, m.len() as int))
                    } else {
                        Ok(end)
                    }
                },
            }
        }
    }
}

/// Returns the byte offset where account keys end and blockhash starts.
/// Supports both legacy and versioned message formats.
pub fn blockhash_offset(message: &[u8]) -> (r: Result<usize, WireError>)
    ensures
        match r {
            Ok(n) => blockhash_position(message@) == Ok::<int, WireErrorView>(n as int),
            Err(e) => blockhash_position(message@) == Err::<int, WireErrorView>(e@),
        },
{
    if message.len() == 0 {
        return Err(WireError::EmptyMessage);
    }
    let header_start: usize = if message[0] >= 128 {
        if message.len() < 4 {
            return Err(WireError::VersionedTooShort);
        }
        1
    } else {
        0
    };
    let account_count_offset = header_start + 3;
    if account_count_offset >= message.len() {
        return Err(WireError::NoAccountCount);
    }
    let (account_count, ac_len) = match read_compact_u16(message, account_count_offset) {
        Ok(p) => p,
        Err(e) => {
            return Err(e);
        },
    };
    let accounts_end = account_count_offset + ac_len + (account_count as usize) * 32;
    if accounts_end + 32 > message.len() {
        return Err(
            WireError::MessageTooShort {
                account_count,
                required: accounts_end + 32,
                len: message.len(),
            },
        );
    }
    Ok(accounts_end)
}

/// Whether every byte of `s` is below `n`.
pub open spec fn all_below(s: Seq<u8>, n: int) -> bool {
    forall|j: int| 0 <= j < s.len() ==> #[trigger] s[j] < n
}

/// Where `count` compiled instructions read from `off` end: each is a program index
/// below `n`, a compact-u16 count of account indices each below `n`, a compact-u16
/// data length and the data; nothing when they do not all fit in `m`.
pub open spec fn instructions_end(m: Seq<u8>, off: int, count: int, n: int) -> Option<int>
    decreases count,
{
    if count <= 0 {
        Some(off)
    } else if off < 0 || off >= m.len() || m[off] >= n {
        None
    } else {
        match read_compact(m, off + 1) {
            Err(_) => None,
            Ok((k, kl)) => {
                let io = off + 1 + kl;
                if io + k > m.len() || !all_below(m.subrange(io, io + k), n) {
                    None
                } else {
                    match read_compact(m, io + k) {
                        Err(_) => None,
                        Ok((d, dl)) => if io + k + dl + d > m.len() {
                            None
                        } else {
                            instructions_end(m, io + k + dl + d, count - 1, n)
                        },
                    }
                }
            },
        }
    }
}

/// Whether `m` is a whole legacy message: header, account keys, blockhash, and a
/// compiled instruction section whose indices name accounts and which ends at the
/// last byte.
pub open spec fn is_whole_legacy_message(m: Seq<u8>) -> bool {
    &&& m.len() > 0
    &&& m[0] < 128
    &&& match blockhash_position(m) {
        Err(_) => false,
        Ok(end) => match read_compact(m, 3) {
            Err(_) => false,
            Ok((n, _)) => match read_compact(m, end + 32) {
                Err(_) => false,
                Ok((c, cl)) => instructions_end(m, end + 32 + cl, c, n) == Some(m.len() as int),
            },
        },
    }
}

/// The message inside transaction bytes. Bytes that make a whole legacy message are
/// that message; otherwise they are tried as a signed wire transaction (a compact-u16
/// count of 64-byte signatures, then the message), then as a bare message, where what
/// is taken must have a readable blockhash position.
pub open spec fn message_of(tx: Seq<u8>) -> Result<Seq<u8>, WireErrorView> {
    if tx.len() == 0 {
        Err(WireErrorView::EmptyPayload)
    } else if is_whole_legacy_message(tx) {
        Ok(tx)
    } else {
        match signed_reading(tx) {
            Some(m) => Ok(m),
            None => if blockhash_position(tx) is Ok {
                Ok(tx)
            } else {
                Err(
                    WireErrorView::UnknownFormat(
                        tx.len() as int,
                        tx.take(if tx.len() < 16 {
                            tx.len() as int
                        } else {
                            16
                        }),
                    ),
                )
            },
        }
    }
}

/// The message of `tx` read as a signed wire transaction: what follows a nonzero
/// compact-u16 count of 64-byte signatures, when it has a readable blockhash position.
pub open spec fn signed_reading(tx: Seq<u8>) -> Option<Seq<u8>> {
    match read_compact(tx, 0) {
        Ok((count, len)) => if count > 0 && len + 64 * count < tx.len() && blockhash_position(
            tx.skip(len + 64 * count),
        ) is Ok {
            Some(tx.skip(len + 64 * count))
        } else {
            None
        },
        Err(_) => None,
    }
}

/// A copy of `v[from..to]`.
pub fn copy_range(v: &[u8], from: usize, to: usize) -> (r: Vec<u8>)
    requires
        from <= to <= v@.len(),
    ensures
        r@ == v@.subrange(from as int, to as int),
{
    let mut out: Vec<u8> = Vec::new();
    let mut i = from;
    while i < to
        invariant
            from <= i <= to <= v@.len(),
            out@ == v@.subrange(from as int, i as int),
        decreases to - i,
    {
        out.push(v[i]);
        i += 1;
        assert(out@ =~= v@.subrange(from as int, i as int));
    }
    out
}

fn bytes_below(m: &[u8], from: usize, k: usize, n: u16) -> (r: bool)
    requires
        from <= m@.len(),
        k <= m@.len() - from,
    ensures
        r == all_below(m@.subrange(from as int, from + k), n as int),
{
    let len = m.len();
    let mut j: usize = 0;
    while j < k
        invariant
            len == m@.len(),
            from + k <= len,
            from <= m@.len(),
            k <= m@.len() - from,
            from + k <= m@.len(),
            j <= k,
            forall|i: int| 0 <= i < j ==> #[trigger] m@.subrange(from as int, from + k)[i] < n,
        decreases k - j,
    {
        if (m[from + j] as u16) >= n {
            assert(m@.subrange(from as int, from + k)[j as int] == m@[from + j]);
            return false;
        }
        assert(m@.subrange(from as int, from + k)[j as int] == m@[from + j]);
        j += 1;
    }
    true
}

/// Whether `count` compiled instructions read from `off` end exactly at the end of `m`
/// (see `instructions_end`).
fn instructions_fill(m: &[u8], off: usize, count: u16, n: u16) -> (r: bool)
    requires
        off <= m@.len(),
    ensures
        r == (instructions_end(m@, off as int, count as int, n as int) == Some(m@.len() as int)),
{
    let len = m.len();
    let mut at = off;
    let mut left = count;
    while left > 0
        invariant
            at <= len == m@.len(),
            instructions_end(m@, at as int, left as int, n as int) == instructions_end(
                m@,
                off as int,
                count as int,
                n as int,
            ),
        decreases left,
    {
        if at >= len || (m[at] as u16) >= n {
            return false;
        }
        let (k, kl) = match read_compact_u16(m, at + 1) {
            Ok(p) => p,
            Err(_) => {
                return false;
            },
        };
        let io = at + 1 + kl;
        if (k as usize) > len - io {
            return false;
        }
        if !bytes_below(m, io, k as usize, n) {
            return false;
        }
        let ko = io + k as usize;
        let (d, dl) = match read_compact_u16(m, ko) {
            Ok(p) => p,
            Err(_) => {
                return false;
            },
        };
        let de = ko + dl;
        if (d as usize) > len - de {
            return false;
        }
        at = de + d as usize;
        left = left - 1;
    }
    at == len
}

/// Whether the bytes make a whole legacy message (see `is_whole_legacy_message`).
pub fn whole_legacy_message(m: &[u8]) -> (r: bool)
    ensures
        r == is_whole_legacy_message(m@),
{
    if m.len() == 0 || m[0] >= 128 {
        return false;
    }
    let end = match blockhash_offset(m) {
        Ok(e) => e,
        Err(_) => {
            return false;
        },
    };
    let (n, _) = match read_compact_u16(m, 3) {
        Ok(p) => p,
        Err(_) => {
            return false;
        },
    };
    let io = end + 32;
    let (c, cl) = match read_compact_u16(m, io) {
        Ok(p) => p,
        Err(_) => {
            return false;
        },
    };
    instructions_fill(m, io + cl, c, n)
}

/// The message of `tx_bytes` read as a signed wire transaction (see `signed_reading`).
fn signed_candidate(tx_bytes: &[u8]) -> (r: Option<Vec<u8>>)
    ensures
        match r {
            Some(m) => signed_reading(tx_bytes@) == Some(m@),
            None => signed_reading(tx_bytes@) is None,
        },
{
    let n = tx_bytes.len();
    match read_compact_u16(tx_bytes, 0) {
        Ok((sig_count, sig_count_len)) => {
            if sig_count > 0 {
                let sigs_end = sig_count_len + (sig_count as usize) * 64;
                if sigs_end < n {
                    let candidate = copy_range(tx_bytes, sigs_end, n);
                    assert(candidate@ =~= tx_bytes@.skip(sigs_end as int));
                    if blockhash_offset(candidate.as_slice()).is_ok() {
                        return Some(candidate);
                    }
                }
            }
            None
        },
        Err(_) => None,
    }
}

/// The message inside a payload that is either a signed wire transaction or a bare
/// message (see `message_of`).
pub fn extract_message_bytes(tx_bytes: &[u8]) -> (r: Result<Vec<u8>, WireError>)
    ensures
        match r {
            Ok(m) => message_of(tx_bytes@) == Ok::<Seq<u8>, WireErrorView>(m@),
            Err(e) => message_of(tx_bytes@) == Err::<Seq<u8>, WireErrorView>(e@),
        },
{
    let n = tx_bytes.len();
    if n == 0 {
        return Err(WireError::EmptyPayload);
    }
    if whole_legacy_message(tx_bytes) {
        let whole = copy_range(tx_bytes, 0, n);
        assert(whole@ =~= tx_bytes@);
        return Ok(whole);
    }
    if let Some(candidate) = signed_candidate(tx_bytes) {
        return Ok(candidate);
    }
    if blockhash_offset(tx_bytes).is_ok() {
        let whole = copy_range(tx_bytes, 0, n);
        assert(whole@ =~= tx_bytes@);
        return Ok(whole);
    }
    let shown: usize = if n < 16 {
        n
    } else {
        16
    };
    let first_bytes = copy_range(tx_bytes, 0, shown);
    assert(first_bytes@ =~= tx_bytes@.take(shown as int));
    Err(WireError::UnknownFormat { len: n, first_bytes })
}

/// The bytes of a transaction given as text: base58 first, then standard base64,
/// then URL-safe base64 without padding; the first that decodes to at least one byte.
pub open spec fn transaction_bytes_of(s: Seq<char>, byte_len: int) -> Result<Seq<u8>, WireErrorView> {
    if base58_decoded(s) matches Some(b) && b.len() > 0 {
        Ok(base58_decoded(s).unwrap())
    } else if base64_decoded(false, s) matches Some(b) && b.len() > 0 {
        Ok(base64_decoded(false, s).unwrap())
    } else if base64_decoded(true, s) matches Some(b) && b.len() > 0 {
        Ok(base64_decoded(true, s).unwrap())
    } else {
        Err(WireErrorView::NotBase58OrBase64(byte_len))
    }
}

/// Decodes an encoded transaction string (see `transaction_bytes_of`).
pub fn decode_transaction_bytes(encoded: &str) -> (r: Result<Vec<u8>, WireError>)
    ensures
        match r {
            Ok(b) => transaction_bytes_of(encoded@, encoded.len() as int) == Ok::<
                Seq<u8>,
                WireErrorView,
            >(b@),
            Err(e) => transaction_bytes_of(encoded@, encoded.len() as int) == Err::<
                Seq<u8>,
                WireErrorView,
            >(e@),
        },
{
    if let Some(bytes) = base58_decode(encoded) {
        if bytes.len() > 0 {
            return Ok(bytes);
        }
    }
    if let Some(bytes) = base64_standard_decode(encoded) {
        if bytes.len() > 0 {
            return Ok(bytes);
        }
    }
    if let Some(bytes) = base64_url_safe_no_pad_decode(encoded) {
        if bytes.len() > 0 {
            return Ok(bytes);
        }
    }
    Err(WireError::NotBase58OrBase64 { len: encoded.len() })
}

/// The bytes of instruction data given as text: nothing for empty text, else base58,
/// else standard base64.
pub open spec fn instruction_data_of(s: Seq<char>) -> Result<Seq<u8>, WireErrorView> {
    if s.len() == 0 {
        Ok(Seq::<u8>::empty())
    } else if base58_decoded(s) is Some {
        Ok(base58_decoded(s).unwrap())
    } else if base64_decoded(false, s) is Some {
        Ok(base64_decoded(false, s).unwrap())
    } else {
        Err(WireErrorView::UndecodableInstructionData(s))
    }
}

/// Decodes instruction data that may be base58 or base64 encoded.
pub fn decode_instruction_data(encoded: &str) -> (r: Result<Vec<u8>, WireError>)
    ensures
        match r {
            Ok(b) => instruction_data_of(encoded@) == Ok::<Seq<u8>, WireErrorView>(b@),
            Err(e) => instruction_data_of(encoded@) == Err::<Seq<u8>, WireErrorView>(e@),
        },
{
    if encoded.is_empty() {
        return Ok(Vec::new());
    }
    if let Some(b) = base58_decode(encoded) {
        return Ok(b);
    }
    if let Some(b) = base64_standard_decode(encoded) {
        return Ok(b);
    }
    Err(WireError::UndecodableInstructionData(encoded.to_owned()))
}

} // verus!
