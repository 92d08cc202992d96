//! Compiling instructions into a binary Solana legacy message: the deduplicated
//! account table in canonical order, the header, the account keys, the recent
//! blockhash and the compiled instructions.

use vstd::prelude::*;
use crate::codecs::{base58_decode, base58_decoded};
use crate::wire::{compact_u16, write_compact_u16};

verus! {

/// An account as the table holds it: key, signer, writable.
pub type Entry = (Seq<char>, bool, bool);

pub open spec fn entry_of(e: (String, bool, bool)) -> Entry {
    (e.0@, e.1, e.2)
}

pub open spec fn entries(v: Seq<(String, bool, bool)>) -> Seq<Entry> {
    v.map_values(|e: (String, bool, bool)| entry_of(e))
}

/// The first position of key `k` in `t`, or -1.
pub open spec fn key_position(t: Seq<Entry>, k: Seq<char>) -> int
    decreases t.len(),
{
    if t.len() == 0 {
        -1
    } else if t[0].0 == k {
        0
    } else {
        let p = key_position(t.drop_first(), k);
        if p < 0 {
            -1
        } else {
            p + 1
        }
    }
}

/// Adds an account: a new key goes at the end; a key already there keeps its place
/// and gains the signer and writable flags given.
pub open spec fn add_entry(t: Seq<Entry>, e: Entry) -> Seq<Entry> {
    let p = key_position(t, e.0);
    if p < 0 {
        t.push(e)
    } else {
        t.update(p, (e.0, t[p].1 || e.1, t[p].2 || e.2))
    }
}

pub open spec fn add_entries(t: Seq<Entry>, es: Seq<Entry>) -> Seq<Entry>
    decreases es.len(),
{
    if es.len() == 0 {
        t
    } else {
        add_entries(add_entry(t, es[0]), es.drop_first())
    }
}

/// Instruction data: bytes, or text that decoded to none.
#[derive(Debug, Clone, PartialEq, Eq)]
pub enum InstructionData {
    Bytes(Vec<u8>),
    Undecodable(String),
}

/// One instruction to compile: its program, its accounts in order as
/// (key, signer, writable), and its data.
#[derive(Debug, Clone, PartialEq, Eq)]
pub struct MessageInstruction {
    pub program_id: String,
    pub keys: Vec<(String, bool, bool)>,
    pub data: InstructionData,
}

/// An instruction as values: program key, accounts, and data (or the text that did not decode).
pub struct InstructionView {
    pub program_id: Seq<char>,
    pub keys: Seq<Entry>,
    pub data: Result<Seq<u8>, Seq<char>>,
}

impl View for MessageInstruction {
    type V = InstructionView;

    open spec fn view(&self) -> InstructionView {
        InstructionView {
            program_id: self.program_id@,
            keys: entries(self.keys@),
            data: match self.data {
                InstructionData::Bytes(d) => Ok(d@),
                InstructionData::Undecodable(s) => Err(s@),
            },
        }
    }
}

pub open spec fn views(ixs: Seq<MessageInstruction>) -> Seq<InstructionView> {
    ixs.map_values(|ix: MessageInstruction| ix@)
}

/// The table after adding each instruction's accounts and then its program
/// (a read-only non-signer).
pub open spec fn add_instructions(t: Seq<Entry>, ixs: Seq<InstructionView>) -> Seq<Entry>
    decreases ixs.len(),
{
    if ixs.len() == 0 {
        t
    } else {
        add_instructions(
            add_entry(add_entries(t, ixs[0].keys), (ixs[0].program_id, false, false)),
            ixs.drop_first(),
        )
    }
}

/// The deduplicated account table: the fee payer (a writable signer) first, then
/// every account and program in the order met.
pub open spec fn account_table(fee_payer: Seq<char>, ixs: Seq<InstructionView>) -> Seq<Entry> {
    add_instructions(seq![(fee_payer, true, true)], ixs)
}

/// The canonical rank: writable signers, read-only signers, writable non-signers,
/// read-only non-signers.
pub open spec fn rank(e: Entry) -> int {
    if e.1 && e.2 {
        0
    } else if e.1 {
        1
    } else if e.2 {
        2
    } else {
        3
    }
}

pub open spec fn in_rank(c: int) -> spec_fn(Entry) -> bool {
    |e: Entry| rank(e) == c
}

/// The table in canonical order: the fee payer stays first, the rest are stably
/// sorted by rank.
pub open spec fn canonical(t: Seq<Entry>) -> Seq<Entry> {
    let rest = t.drop_first();
    seq![t[0]] + rest.filter(in_rank(0)) + rest.filter(in_rank(1)) + rest.filter(in_rank(2))
        + rest.filter(in_rank(3))
}

pub open spec fn is_signer_entry() -> spec_fn(Entry) -> bool {
    |e: Entry| e.1
}

pub open spec fn is_readonly_signer_entry() -> spec_fn(Entry) -> bool {
    |e: Entry| e.1 && !e.2
}

pub open spec fn is_readonly_unsigned_entry() -> spec_fn(Entry) -> bool {
    |e: Entry| !e.1 && !e.2
}

/// The 3-byte message header: signers, read-only signers, read-only non-signers
/// (each count kept to its low byte).
pub open spec fn header(c: Seq<Entry>) -> Seq<u8> {
    seq![
        (c.filter(is_signer_entry()).len() % 256) as u8,
        (c.filter(is_readonly_signer_entry()).len() % 256) as u8,
        (c.filter(is_readonly_unsigned_entry()).len() % 256) as u8,
    ]
}

/// Why a message could not be compiled.
#[derive(Debug, Clone, PartialEq, Eq)]
pub enum MessageError {
    /// An account key that is not base58.
    InvalidPubkey(String),
    /// An account key that decodes, but not to 32 bytes.
    PubkeyLength { pubkey: String, len: usize },
    /// A key that the account table does not hold.
    AccountNotFound(String),
    /// Instruction data that did not decode.
    UndecodableInstructionData(String),
}

pub enum MessageErrorView {
    InvalidPubkey(Seq<char>),
    PubkeyLength(Seq<char>, int),
    AccountNotFound(Seq<char>),
    UndecodableInstructionData(Seq<char>),
}

impl View for MessageError {
    type V = MessageErrorView;

    open spec fn view(&self) -> MessageErrorView {
        match *self {
            MessageError::InvalidPubkey(s) => MessageErrorView::InvalidPubkey(s@),
            MessageError::PubkeyLength { pubkey, len } => MessageErrorView::PubkeyLength(
                pubkey@,
                len as int,
            ),
            MessageError::AccountNotFound(s) => MessageErrorView::AccountNotFound(s@),
            MessageError::UndecodableInstructionData(s) => MessageErrorView::UndecodableInstructionData(s@),
        }
    }
}

/// The 32 bytes of each key in table order.
pub open spec fn key_bytes(c: Seq<Entry>) -> Result<Seq<u8>, MessageErrorView>
    decreases c.len(),
{
    if c.len() == 0 {
        Ok(Seq::<u8>::empty())
    } else {
        match base58_decoded(c[0].0) {
            None => Err(MessageErrorView::InvalidPubkey(c[0].0)),
            Some(b) => if b.len() != 32 {
                Err(MessageErrorView::PubkeyLength(c[0].0, b.len() as int))
            } else {
                match key_bytes(c.drop_first()) {
                    Ok(rest) => Ok(b + rest),
                    Err(e) => Err(e),
                }
            },
        }
    }
}

/// The table position of each key, as one byte each.
pub open spec fn key_indices(c: Seq<Entry>, keys: Seq<Entry>) -> Result<Seq<u8>, MessageErrorView>
    decreases keys.len(),
{
    if keys.len() == 0 {
        Ok(Seq::<u8>::empty())
    } else if key_position(c, keys[0].0) < 0 {
        Err(MessageErrorView::AccountNotFound(keys[0].0))
    } else {
        match key_indices(c, keys.drop_first()) {
            Ok(rest) => Ok(seq![(key_position(c, keys[0].0) % 256) as u8] + rest),
            Err(e) => Err(e),
        }
    }
}

/// A compiled instruction: program index, account count and indices, data length and data.
pub open spec fn instruction_bytes(c: Seq<Entry>, ix: InstructionView) -> Result<Seq<u8>, MessageErrorView> {
    let p = key_position(c, ix.program_id);
    if p < 0 {
        Err(MessageErrorView::AccountNotFound(ix.program_id))
    } else {
        match key_indices(c, ix.keys) {
            Err(e) => Err(e),
            Ok(idx) => match ix.data {
                Err(s) => Err(MessageErrorView::UndecodableInstructionData(s)),
                Ok(d) => Ok(
                    seq![(p % 256) as u8] + compact_u16((ix.keys.len() % 65536) as nat) + idx
                        + compact_u16((d.len() % 65536) as nat) + d,
                ),
            },
        }
    }
}

pub open spec fn instructions_bytes(c: Seq<Entry>, ixs: Seq<InstructionView>) -> Result<Seq<u8>, MessageErrorView>
    decreases ixs.len(),
{
    if ixs.len() == 0 {
        Ok(Seq::<u8>::empty())
    } else {
        match instruction_bytes(c, ixs[0]) {
            Err(e) => Err(e),
            Ok(b) => match instructions_bytes(c, ixs.drop_first()) {
                Ok(rest) => Ok(b + rest),
                Err(e) => Err(e),
            },
        }
    }
}

/// The legacy message: header, key count and keys, blockhash, instruction count and
/// compiled instructions, over the canonical account table.
pub open spec fn message_bytes(fee_payer: Seq<char>, ixs: Seq<InstructionView>, blockhash: Seq<u8>) -> Result<Seq<u8>, MessageErrorView> {
    let c = canonical(account_table(fee_payer, ixs));
    match key_bytes(c) {
        Err(e) => Err(e),
        Ok(kb) => match instructions_bytes(c, ixs) {
            Err(e) => Err(e),
            Ok(ib) => Ok(
                header(c) + compact_u16((c.len() % 65536) as nat) + kb + blockhash + compact_u16(
                    (ixs.len() % 65536) as nat,
                ) + ib,
            ),
        },
    }
}

proof fn lemma_key_position_scan(t: Seq<Entry>, k: Seq<char>, i: int)
    requires
        0 <= i <= t.len(),
        forall|j: int| 0 <= j < i ==> #[trigger] t[j].0 != k,
    ensures
        i < t.len() && t[i].0 == k ==> key_position(t, k) == i,
        i == t.len() ==> key_position(t, k) == -1,
    decreases i,
{
    if i > 0 {
        assert forall|j: int| 0 <= j < i - 1 implies #[trigger] t.drop_first()[j].0 != k by {
            assert(t.drop_first()[j] == t[j + 1]);
        }
        lemma_key_position_scan(t.drop_first(), k, i - 1);
    }
}

/// A key's position is -1 or the index of an entry holding that key.
pub proof fn lemma_key_position_valid(t: Seq<Entry>, k: Seq<char>)
    ensures
        -1 <= key_position(t, k) < t.len(),
        key_position(t, k) >= 0 ==> t[key_position(t, k)].0 == k,
    decreases t.len(),
{
    if t.len() > 0 && t[0].0 != k {
        lemma_key_position_valid(t.drop_first(), k);
    }
}

fn find_key(table: &Vec<(String, bool, bool)>, key: &String) -> (r: Option<usize>)
    ensures
        match r {
            Some(i) => i as int == key_position(entries(table@), key@) && i < table@.len(),
            None => key_position(entries(table@), key@) == -1,
        },
{
    let n = table.len();
    let mut i: usize = 0;
    while i < n
        invariant
            n == table@.len(),
            i <= n,
            forall|j: int| 0 <= j < i ==> #[trigger] entries(table@)[j].0 != key@,
        decreases n - i,
    {
        if table[i].0 == *key {
            proof {
                lemma_key_position_scan(entries(table@), key@, i as int);
            }
            return Some(i);
        }
        i += 1;
    }
    proof {
        lemma_key_position_scan(entries(table@), key@, n as int);
    }
    None
}

fn add_account(table: &mut Vec<(String, bool, bool)>, key: &String, signer: bool, writable: bool)
    ensures
        entries(final(table)@) == add_entry(entries(old(table)@), (key@, signer, writable)),
{
    let ghost t = entries(table@);
    match find_key(table, key) {
        Some(idx) => {
            let s = table[idx].1 || signer;
            let w = table[idx].2 || writable;
            table.set(idx, (key.clone(), s, w));
            assert(entries(table@) =~= t.update(idx as int, (key@, t[idx as int].1 || signer, t[idx as int].2 || writable)));
        },
        None => {
            table.push((key.clone(), signer, writable));
            assert(entries(table@) =~= t.push((key@, signer, writable)));
        },
    }
}

proof fn lemma_add_entry_len(t: Seq<Entry>, e: Entry)
    ensures
        add_entry(t, e).len() >= t.len(),
        t.len() > 0 ==> add_entry(t, e)[0].0 == t[0].0,
{
    lemma_key_position_valid(t, e.0);
}

/// Builds the account table in order of first appearance.
fn build_table(fee_payer: &str, ixs: &[MessageInstruction]) -> (r: Vec<(String, bool, bool)>)
    ensures
        entries(r@) == account_table(fee_payer@, views(ixs@)),
        r@.len() > 0,
{
    let mut table: Vec<(String, bool, bool)> = Vec::new();
    table.push((fee_payer.to_owned(), true, true));
    let ghost first = table@[0].0@;
    assert(entries(table@) =~= seq![(fee_payer@, true, true)]);
    let n = ixs.len();
    let mut i: usize = 0;
    assert(views(ixs@).skip(0) =~= views(ixs@));
    while i < n
        invariant
            n == ixs@.len(),
            i <= n,
            table@.len() > 0,
            add_instructions(entries(table@), views(ixs@).skip(i as int)) == account_table(
                fee_payer@,
                views(ixs@),
            ),
        decreases n - i,
    {
        let ix = &ixs[i];
        let ghost before = entries(table@);
        let m = ix.keys.len();
        let mut j: usize = 0;
        assert(entries(ix.keys@).skip(0) =~= entries(ix.keys@));
        while j < m
            invariant
                m == ix.keys@.len(),
                j <= m,
                table@.len() > 0,
                add_entries(entries(table@), entries(ix.keys@).skip(j as int)) == add_entries(
                    before,
                    entries(ix.keys@),
                ),
            decreases m - j,
        {
            let ghost mid = entries(table@);
            proof {
                lemma_add_entry_len(mid, entry_of(ix.keys@[j as int]));
                assert(entries(ix.keys@).skip(j as int).drop_first() =~= entries(ix.keys@).skip(
                    j + 1,
                ));
            }
            add_account(&mut table, &ix.keys[j].0, ix.keys[j].1, ix.keys[j].2);
            j += 1;
        }
        assert(entries(ix.keys@).skip(m as int) =~= Seq::<Entry>::empty());
        proof {
            lemma_add_entry_len(entries(table@), (ix.program_id@, false, false));
            assert(views(ixs@).skip(i as int).drop_first() =~= views(ixs@).skip(i + 1));
            assert(views(ixs@).skip(i as int)[0] == ix@);
        }
        add_account(&mut table, &ix.program_id, false, false);
        i += 1;
    }
    assert(views(ixs@).skip(n as int) =~= Seq::<InstructionView>::empty());
    table
}

fn rank_of(signer: bool, writable: bool) -> (r: u8)
    ensures
        r as int == rank(("".view(), signer, writable)),
{
    if signer && writable {
        0
    } else if signer {
        1
    } else if writable {
        2
    } else {
        3
    }
}

/// Appends the accounts after the first whose rank is `c`, in order.
fn append_rank(out: &mut Vec<(String, bool, bool)>, table: &Vec<(String, bool, bool)>, c: u8)
    requires
        table@.len() > 0,
    ensures
        entries(final(out)@) == entries(old(out)@) + entries(table@).drop_first().filter(
            in_rank(c as int),
        ),
{
    let ghost start = entries(out@);
    let ghost rest = entries(table@).drop_first();
    let n = table.len();
    let mut k: usize = 1;
    assert(rest.take(0) =~= Seq::<Entry>::empty());
    proof {
        reveal(Seq::filter);
    }
    assert(rest.take(0).filter(in_rank(c as int)) =~= Seq::<Entry>::empty());
    assert(start + Seq::<Entry>::empty() =~= start);
    while k < n
        invariant
            n == table@.len(),
            1 <= k <= n,
            rest == entries(table@).drop_first(),
            entries(out@) == start + rest.take(k - 1).filter(in_rank(c as int)),
        decreases n - k,
    {
        let e = &table[k];
        proof {
            assert(rest[k - 1] == entry_of(table@[k as int]));
            assert(rest.take(k as int) =~= rest.take(k - 1).push(rest[k - 1]));
            rest.take(k - 1).lemma_filter_push(rest[k - 1], in_rank(c as int));
        }
        let ghost before = out@;
        if rank_of(e.1, e.2) == c {
            assert(in_rank(c as int)(rest[k - 1]));
            out.push((e.0.clone(), e.1, e.2));
            assert(entries(out@) =~= entries(before).push(rest[k - 1]));
            assert(entries(out@) =~= start + rest.take(k as int).filter(in_rank(c as int)));
        } else {
            assert(!in_rank(c as int)(rest[k - 1]));
        }
        k += 1;
    }
    assert(rest.take(n - 1) =~= rest);
}

fn canonical_order(table: &Vec<(String, bool, bool)>) -> (r: Vec<(String, bool, bool)>)
    requires
        table@.len() > 0,
    ensures
        entries(r@) == canonical(entries(table@)),
{
    let mut out: Vec<(String, bool, bool)> = Vec::new();
    out.push((table[0].0.clone(), table[0].1, table[0].2));
    assert(entries(out@) =~= seq![entries(table@)[0]]);
    append_rank(&mut out, table, 0);
    append_rank(&mut out, table, 1);
    append_rank(&mut out, table, 2);
    append_rank(&mut out, table, 3);
    out
}

/// How many entries satisfy `pred`, counted with `test`.
fn count_filter(c: &Vec<(String, bool, bool)>, which: u8) -> (r: usize)
    requires
        which < 3,
    ensures
        r == entries(c@).filter(
            if which == 0 {
                is_signer_entry()
            } else if which == 1 {
                is_readonly_signer_entry()
            } else {
                is_readonly_unsigned_entry()
            },
        ).len(),
{
    let ghost p = if which == 0 {
        is_signer_entry()
    } else if which == 1 {
        is_readonly_signer_entry()
    } else {
        is_readonly_unsigned_entry()
    };
    let ghost s = entries(c@);
    let n = c.len();
    let mut count: usize = 0;
    let mut k: usize = 0;
    proof {
        reveal(Seq::filter);
        assert(s.take(0) =~= Seq::<Entry>::empty());
    }
    while k < n
        invariant
            n == c@.len(),
            k <= n,
            s == entries(c@),
            count == s.take(k as int).filter(p).len(),
            count <= k,
            p == (if which == 0 {
                is_signer_entry()
            } else if which == 1 {
                is_readonly_signer_entry()
            } else {
                is_readonly_unsigned_entry()
            }),
        decreases n - k,
    {
        let e = &c[k];
        let hit = if which == 0 {
            e.1
        } else if which == 1 {
            e.1 && !e.2
        } else {
            !e.1 && !e.2
        };
        proof {
            assert(s[k as int] == entry_of(c@[k as int]));
            assert(s.take(k + 1) =~= s.take(k as int).push(s[k as int]));
            s.take(k as int).lemma_filter_push(s[k as int], p);
        }
        if hit {
            count += 1;
        }
        k += 1;
    }
    assert(s.take(n as int) =~= s);
    count
}

/// Result accumulation: `whole` is what `done` followed by `rest` gives.
pub open spec fn continues(whole: Result<Seq<u8>, MessageErrorView>, done: Seq<u8>, rest: Result<Seq<u8>, MessageErrorView>) -> bool {
    whole == match rest {
        Ok(r) => Ok(done + r),
        Err(e) => Err::<Seq<u8>, MessageErrorView>(e),
    }
}

fn keys_section(c: &Vec<(String, bool, bool)>) -> (r: Result<Vec<u8>, MessageError>)
    ensures
        match r {
            Ok(b) => key_bytes(entries(c@)) == Ok::<Seq<u8>, MessageErrorView>(b@),
            Err(e) => key_bytes(entries(c@)) == Err::<Seq<u8>, MessageErrorView>(e@),
        },
{
    let ghost s = entries(c@);
    let n = c.len();
    let mut out: Vec<u8> = Vec::new();
    let mut k: usize = 0;
    assert(s.skip(0) =~= s);
    proof {
        match key_bytes(s) {
            Ok(r) => {
                assert(out@ + r =~= r);
            },
            Err(_) => {},
        }
    }
    while k < n
        invariant
            n == c@.len(),
            k <= n,
            s == entries(c@),
            continues(key_bytes(s), out@, key_bytes(s.skip(k as int))),
        decreases n - k,
    {
        let key = &c[k].0;
        proof {
            assert(s.skip(k as int)[0] == entry_of(c@[k as int]));
            assert(s.skip(k as int).drop_first() =~= s.skip(k + 1));
        }
        match base58_decode(key.as_str()) {
            None => {
                return Err(MessageError::InvalidPubkey(key.clone()));
            },
            Some(b) => {
                if b.len() != 32 {
                    return Err(MessageError::PubkeyLength { pubkey: key.clone(), len: b.len() });
                }
                let ghost before = out@;
                crate::borsh::append_bytes(&mut out, b.as_slice());
                proof {
                    match key_bytes(s.skip(k + 1)) {
                        Ok(r) => {
                            assert(before + (b@ + r) =~= out@ + r);
                        },
                        Err(_) => {},
                    }
                }
            },
        }
        k += 1;
    }
    assert(s.skip(n as int) =~= Seq::<Entry>::empty());
    assert(out@ + Seq::<u8>::empty() =~= out@);
    Ok(out)
}

fn indices_section(c: &Vec<(String, bool, bool)>, keys: &Vec<(String, bool, bool)>) -> (r: Result<Vec<u8>, MessageError>)
    ensures
        match r {
            Ok(b) => key_indices(entries(c@), entries(keys@)) == Ok::<Seq<u8>, MessageErrorView>(b@),
            Err(e) => key_indices(entries(c@), entries(keys@)) == Err::<Seq<u8>, MessageErrorView>(e@),
        },
{
    let ghost t = entries(c@);
    let ghost s = entries(keys@);
    let n = keys.len();
    let mut out: Vec<u8> = Vec::new();
    let mut k: usize = 0;
    assert(s.skip(0) =~= s);
    proof {
        match key_indices(t, s) {
            Ok(r) => {
                assert(out@ + r =~= r);
            },
            Err(_) => {},
        }
    }
    while k < n
        invariant
            n == keys@.len(),
            k <= n,
            s == entries(keys@),
            t == entries(c@),
            continues(key_indices(t, s), out@, key_indices(t, s.skip(k as int))),
        decreases n - k,
    {
        let key = &keys[k].0;
        proof {
            assert(s.skip(k as int)[0] == entry_of(keys@[k as int]));
            assert(s.skip(k as int).drop_first() =~= s.skip(k + 1));
        }
        match find_key(c, key) {
            None => {
                return Err(MessageError::AccountNotFound(key.clone()));
            },
            Some(i) => {
                let ghost before = out@;
                out.push((i % 256) as u8);
                proof {
                    match key_indices(t, s.skip(k + 1)) {
                        Ok(r) => {
                            assert(before + (seq![(i % 256) as u8] + r) =~= out@ + r);
                        },
                        Err(_) => {},
                    }
                }
            },
        }
        k += 1;
    }
    assert(s.skip(n as int) =~= Seq::<Entry>::empty());
    assert(out@ + Seq::<u8>::empty() =~= out@);
    Ok(out)
}

fn instruction_section(c: &Vec<(String, bool, bool)>, ix: &MessageInstruction) -> (r: Result<Vec<u8>, MessageError>)
    ensures
        match r {
            Ok(b) => instruction_bytes(entries(c@), ix@) == Ok::<Seq<u8>, MessageErrorView>(b@),
            Err(e) => instruction_bytes(entries(c@), ix@) == Err::<Seq<u8>, MessageErrorView>(e@),
        },
{
    let p = match find_key(c, &ix.program_id) {
        None => {
            return Err(MessageError::AccountNotFound(ix.program_id.clone()));
        },
        Some(p) => p,
    };
    let idx = match indices_section(c, &ix.keys) {
        Err(e) => {
            return Err(e);
        },
        Ok(idx) => idx,
    };
    match &ix.data {
        InstructionData::Undecodable(s) => Err(MessageError::UndecodableInstructionData(s.clone())),
        InstructionData::Bytes(d) => {
            let mut out: Vec<u8> = Vec::new();
            out.push((p % 256) as u8);
            write_compact_u16(&mut out, (ix.keys.len() % 65536) as u16);
            crate::borsh::append_bytes(&mut out, idx.as_slice());
            write_compact_u16(&mut out, (d.len() % 65536) as u16);
            crate::borsh::append_bytes(&mut out, d.as_slice());
            assert(out@ =~= seq![(p % 256) as u8] + compact_u16((ix@.keys.len() % 65536) as nat)
                + idx@ + compact_u16((d@.len() % 65536) as nat) + d@);
            Ok(out)
        },
    }
}

fn instructions_section(c: &Vec<(String, bool, bool)>, ixs: &[MessageInstruction]) -> (r: Result<Vec<u8>, MessageError>)
    ensures
        match r {
            Ok(b) => instructions_bytes(entries(c@), views(ixs@)) == Ok::<Seq<u8>, MessageErrorView>(b@),
            Err(e) => instructions_bytes(entries(c@), views(ixs@)) == Err::<Seq<u8>, MessageErrorView>(e@),
        },
{
    let ghost t = entries(c@);
    let ghost s = views(ixs@);
    let n = ixs.len();
    let mut out: Vec<u8> = Vec::new();
    let mut k: usize = 0;
    assert(s.skip(0) =~= s);
    proof {
        match instructions_bytes(t, s) {
            Ok(r) => {
                assert(out@ + r =~= r);
            },
            Err(_) => {},
        }
    }
    while k < n
        invariant
            n == ixs@.len(),
            k <= n,
            s == views(ixs@),
            t == entries(c@),
            continues(instructions_bytes(t, s), out@, instructions_bytes(t, s.skip(k as int))),
        decreases n - k,
    {
        proof {
            assert(s.skip(k as int)[0] == ixs@[k as int]@);
            assert(s.skip(k as int).drop_first() =~= s.skip(k + 1));
        }
        match instruction_section(c, &ixs[k]) {
            Err(e) => {
                return Err(e);
            },
            Ok(b) => {
                let ghost before = out@;
                crate::borsh::append_bytes(&mut out, b.as_slice());
                proof {
                    match instructions_bytes(t, s.skip(k + 1)) {
                        Ok(r) => {
                            assert(before + (b@ + r) =~= out@ + r);
                        },
                        Err(_) => {},
                    }
                }
            },
        }
        k += 1;
    }
    assert(s.skip(n as int) =~= Seq::<InstructionView>::empty());
    assert(out@ + Seq::<u8>::empty() =~= out@);
    Ok(out)
}

/// Compiles the instructions into a binary legacy message with the given recent
/// blockhash (see `message_bytes`).
pub fn compile_message(fee_payer: &str, ixs: &[MessageInstruction], blockhash: &[u8; 32]) -> (r: Result<Vec<u8>, MessageError>)
    ensures
        match r {
            Ok(m) => message_bytes(fee_payer@, views(ixs@), blockhash@) == Ok::<Seq<u8>, MessageErrorView>(m@),
            Err(e) => message_bytes(fee_payer@, views(ixs@), blockhash@) == Err::<Seq<u8>, MessageErrorView>(e@),
        },
{
    let table = build_table(fee_payer, ixs);
    let all = canonical_order(&table);
    let ghost c = entries(all@);
    let num_signers = count_filter(&all, 0);
    let num_ro_signed = count_filter(&all, 1);
    let num_ro_unsigned = count_filter(&all, 2);
    let kb = match keys_section(&all) {
        Err(e) => {
            return Err(e);
        },
        Ok(kb) => kb,
    };
    let ib = match instructions_section(&all, ixs) {
        Err(e) => {
            return Err(e);
        },
        Ok(ib) => ib,
    };
    let mut msg: Vec<u8> = Vec::new();
    msg.push((num_signers % 256) as u8);
    msg.push((num_ro_signed % 256) as u8);
    msg.push((num_ro_unsigned % 256) as u8);
    assert(msg@ =~= header(c));
    write_compact_u16(&mut msg, (all.len() % 65536) as u16);
    crate::borsh::append_bytes(&mut msg, kb.as_slice());
    crate::borsh::append_bytes(&mut msg, blockhash.as_slice());
    write_compact_u16(&mut msg, (ixs.len() % 65536) as u16);
    crate::borsh::append_bytes(&mut msg, ib.as_slice());
    Ok(msg)
}

/// A key whose position is -1 occurs nowhere.
pub proof fn lemma_key_absent(t: Seq<Entry>, k: Seq<char>)
    requires
        key_position(t, k) < 0,
    ensures
        forall|i: int| 0 <= i < t.len() ==> #[trigger] t[i].0 != k,
    decreases t.len(),
{
    if t.len() > 0 {
        lemma_key_absent(t.drop_first(), k);
        assert forall|i: int| 0 <= i < t.len() implies #[trigger] t[i].0 != k by {
            if i > 0 {
                assert(t[i] == t.drop_first()[i - 1]);
            }
        }
    }
}

/// A key found at `i` has a position.
pub proof fn lemma_key_found(t: Seq<Entry>, k: Seq<char>, i: int)
    requires
        0 <= i < t.len(),
        t[i].0 == k,
    ensures
        key_position(t, k) >= 0,
    decreases i,
{
    if i > 0 && t[0].0 != k {
        lemma_key_found(t.drop_first(), k, i - 1);
    }
}

} // verus!
