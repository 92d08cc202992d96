//! Properties that hold across the library's functions.

use vstd::prelude::*;
use crate::codecs::{base58_decoded, base64_decoded};
use crate::config::{
    default_api_base, default_rpc, display_text, effective_api_base, effective_rpc, masked,
    merged_field, normalized, opt_view, Config,
};
use vstd::utf8::encode_utf8;
use crate::crypto::decompresses_to_point;
use crate::message::{
    account_table, add_entries, add_entry, add_instructions, canonical, header, in_rank,
    instruction_bytes, instructions_bytes, is_signer_entry, key_bytes, key_indices, key_position,
    message_bytes, rank, Entry, InstructionView, MessageErrorView,
};
use crate::wire::{compact_u16, lemma_compact_u16_roundtrip};
use crate::solana::{
    bump_search, json_instructions, message_to_sign, pda_hash, unsigned_instruction, unsigned_message,
    zero_blockhash, KeyJson, SolanaErrorView, TxJson,
};
use crate::text::{is_space, trim, trim_end, trim_start};
use crate::interactive::{explorer_link, reset_answers, reset_applied};
use crate::idl::{seed_resolution, seeds_resolution, IdlArg, IdlSeed};
use crate::values::ArgValue;
use crate::wire::{
    all_below, blockhash_position, instructions_end, is_whole_legacy_message, message_of, read_compact,
    instruction_data_of, transaction_bytes_of, WireErrorView,
};

verus! {

/// A signed wire transaction (one signature, then the message) gives its message
/// back. Stated where the transaction's bytes do not themselves make a whole legacy
/// message, which is read first.
pub proof fn lemma_signed_wire_message(signature: Seq<u8>, message: Seq<u8>)
    requires
        signature.len() == 64,
        blockhash_position(message) is Ok,
        !is_whole_legacy_message(seq![1u8] + signature + message),
    ensures
        message_of(seq![1u8] + signature + message) == Ok::<Seq<u8>, WireErrorView>(message),
{
    let tx = seq![1u8] + signature + message;
    assert(tx[0] == 1u8);
    assert(read_compact(tx, 0) == Ok::<(int, int), WireErrorView>((1, 1)));
    assert(tx.skip(65) =~= message);
}

/// Text that base58-decodes to a non-empty payload is read as that payload.
pub proof fn lemma_base58_transaction_text(s: Seq<char>, payload: Seq<u8>, byte_len: int)
    requires
        base58_decoded(s) == Some(payload),
        payload.len() > 0,
    ensures
        transaction_bytes_of(s, byte_len) == Ok::<Seq<u8>, WireErrorView>(payload),
{
}

/// The bump found is the highest one whose hash is off the curve: every higher bump
/// gives a curve point; and when none is found, every bump does.
pub proof fn lemma_bump_is_highest(seeds: Seq<Seq<u8>>, program: Seq<u8>, from: int)
    requires
        from <= 255,
    ensures
        match bump_search(seeds, program, from) {
            Some(b) => b <= from && !decompresses_to_point(pda_hash(seeds, b, program)) && forall|c: int|
                b < c <= from ==> decompresses_to_point(#[trigger] pda_hash(seeds, c as u8, program)),
            None => forall|c: int| 0 <= c <= from ==> decompresses_to_point(#[trigger] pda_hash(seeds, c as u8, program)),
        },
    decreases from + 1,
{
    if from >= 0 {
        lemma_bump_is_highest(seeds, program, from - 1);
    }
}

proof fn lemma_add_entry_keeps_first(t: Seq<Entry>, e: Entry, fee: Seq<char>)
    requires
        t.len() > 0,
        t[0] == (fee, true, true),
    ensures
        add_entry(t, e).len() > 0,
        add_entry(t, e)[0] == (fee, true, true),
{
    crate::message::lemma_key_position_valid(t, e.0);
}

proof fn lemma_add_entries_keeps_first(t: Seq<Entry>, es: Seq<Entry>, fee: Seq<char>)
    requires
        t.len() > 0,
        t[0] == (fee, true, true),
    ensures
        add_entries(t, es).len() > 0,
        add_entries(t, es)[0] == (fee, true, true),
    decreases es.len(),
{
    if es.len() > 0 {
        lemma_add_entry_keeps_first(t, es[0], fee);
        lemma_add_entries_keeps_first(add_entry(t, es[0]), es.drop_first(), fee);
    }
}

proof fn lemma_add_instructions_keeps_first(t: Seq<Entry>, ixs: Seq<InstructionView>, fee: Seq<char>)
    requires
        t.len() > 0,
        t[0] == (fee, true, true),
    ensures
        add_instructions(t, ixs).len() > 0,
        add_instructions(t, ixs)[0] == (fee, true, true),
    decreases ixs.len(),
{
    if ixs.len() > 0 {
        lemma_add_entries_keeps_first(t, ixs[0].keys, fee);
        let t1 = add_entries(t, ixs[0].keys);
        lemma_add_entry_keeps_first(t1, (ixs[0].program_id, false, false), fee);
        lemma_add_instructions_keeps_first(
            add_entry(t1, (ixs[0].program_id, false, false)),
            ixs.drop_first(),
            fee,
        );
    }
}

/// The fee payer heads the compiled account table, as a writable signer, whatever
/// the instructions say of it.
pub proof fn lemma_fee_payer_first(fee_payer: Seq<char>, ixs: Seq<InstructionView>)
    ensures
        account_table(fee_payer, ixs).len() > 0,
        canonical(account_table(fee_payer, ixs))[0] == (fee_payer, true, true),
{
    lemma_add_instructions_keeps_first(seq![(fee_payer, true, true)], ixs, fee_payer);
}

proof fn lemma_rank_partition(s: Seq<Entry>)
    ensures
        s.filter(in_rank(0)).len() + s.filter(in_rank(1)).len() + s.filter(in_rank(2)).len()
            + s.filter(in_rank(3)).len() == s.len(),
    decreases s.len(),
{
    reveal(Seq::filter);
    if s.len() > 0 {
        lemma_rank_partition(s.drop_last());
    }
}

/// Canonical ordering only rearranges the table: the fee payer stays first, the
/// length is kept, every entry is still there, and after the fee payer the ranks
/// never decrease (writable signers, read-only signers, writable non-signers,
/// read-only non-signers).
pub proof fn lemma_canonical_order(t: Seq<Entry>)
    requires
        t.len() > 0,
    ensures
        canonical(t).len() == t.len(),
        canonical(t)[0] == t[0],
        forall|i: int| 0 <= i < t.len() ==> canonical(t).contains(#[trigger] t[i]),
        forall|i: int, j: int|
            1 <= i < j < t.len() ==> rank(#[trigger] canonical(t)[i]) <= rank(#[trigger] canonical(t)[j]),
{
    broadcast use vstd::seq_lib::group_filter_ensures;

    let rest = t.drop_first();
    lemma_rank_partition(rest);
    let f0 = rest.filter(in_rank(0));
    let f1 = rest.filter(in_rank(1));
    let f2 = rest.filter(in_rank(2));
    let f3 = rest.filter(in_rank(3));
    let c = canonical(t);
    let a = 1 + f0.len();
    let b = a + f1.len();
    let d = b + f2.len();
    assert(c =~= seq![t[0]] + f0 + f1 + f2 + f3);
    assert forall|i: int| 1 <= i < t.len() implies rank(#[trigger] c[i]) == (if i < a {
        0int
    } else if i < b {
        1int
    } else if i < d {
        2int
    } else {
        3int
    }) by {
        if i < a {
            assert(c[i] == f0[i - 1]);
            assert(in_rank(0)(f0[i - 1]));
        } else if i < b {
            assert(c[i] == f1[i - a]);
            assert(in_rank(1)(f1[i - a]));
        } else if i < d {
            assert(c[i] == f2[i - b]);
            assert(in_rank(2)(f2[i - b]));
        } else {
            assert(c[i] == f3[i - d]);
            assert(in_rank(3)(f3[i - d]));
        }
    }
    assert forall|i: int| 0 <= i < t.len() implies c.contains(#[trigger] t[i]) by {
        if i == 0 {
            assert(c[0] == t[0]);
        } else {
            let e = t[i];
            assert(rest[i - 1] == e);
            let k = rank(e);
            let f = rest.filter(in_rank(k));
            assert(in_rank(k)(rest[i - 1]));
            assert(f.contains(rest[i - 1]));
            let p = choose|p: int| 0 <= p < f.len() && f[p] == e;
            if k == 0 {
                assert(c[1 + p] == e);
            } else if k == 1 {
                assert(c[a + p] == e);
            } else if k == 2 {
                assert(c[b + p] == e);
            } else {
                assert(c[d + p] == e);
            }
        }
    }
}

/// No key occurs twice in the table.
pub open spec fn distinct_keys(t: Seq<Entry>) -> bool {
    forall|i: int, j: int| 0 <= i < j < t.len() ==> #[trigger] t[i].0 != #[trigger] t[j].0
}

proof fn lemma_add_entry_distinct(t: Seq<Entry>, e: Entry)
    requires
        distinct_keys(t),
    ensures
        distinct_keys(add_entry(t, e)),
        forall|i: int| 0 <= i < t.len() ==> #[trigger] add_entry(t, e)[i].0 == t[i].0,
        add_entry(t, e).len() >= t.len(),
        key_position(add_entry(t, e), e.0) >= 0,
{
    crate::message::lemma_key_position_valid(t, e.0);
    let p = key_position(t, e.0);
    let u = add_entry(t, e);
    if p < 0 {
        crate::message::lemma_key_absent(t, e.0);
        assert forall|i: int, j: int| 0 <= i < j < u.len() implies #[trigger] u[i].0 != #[trigger] u[j].0 by {
            if j == t.len() {
                assert(u[j].0 == e.0);
                assert(u[i] == t[i]);
            }
        }
        crate::message::lemma_key_found(u, e.0, t.len() as int);
    } else {
        assert forall|i: int, j: int| 0 <= i < j < u.len() implies #[trigger] u[i].0 != #[trigger] u[j].0 by {
            assert(u[i].0 == t[i].0);
            assert(u[j].0 == t[j].0);
        }
        crate::message::lemma_key_found(u, e.0, p);
    }
}

proof fn lemma_add_entries_distinct(t: Seq<Entry>, es: Seq<Entry>)
    requires
        distinct_keys(t),
    ensures
        distinct_keys(add_entries(t, es)),
    decreases es.len(),
{
    if es.len() > 0 {
        lemma_add_entry_distinct(t, es[0]);
        lemma_add_entries_distinct(add_entry(t, es[0]), es.drop_first());
    }
}

proof fn lemma_add_instructions_distinct(t: Seq<Entry>, ixs: Seq<InstructionView>)
    requires
        distinct_keys(t),
    ensures
        distinct_keys(add_instructions(t, ixs)),
    decreases ixs.len(),
{
    if ixs.len() > 0 {
        lemma_add_entries_distinct(t, ixs[0].keys);
        let t1 = add_entries(t, ixs[0].keys);
        lemma_add_entry_distinct(t1, (ixs[0].program_id, false, false));
        lemma_add_instructions_distinct(add_entry(t1, (ixs[0].program_id, false, false)), ixs.drop_first());
    }
}

/// The account table holds each key once.
pub proof fn lemma_account_table_distinct(fee_payer: Seq<char>, ixs: Seq<InstructionView>)
    ensures
        distinct_keys(account_table(fee_payer, ixs)),
{
    lemma_add_instructions_distinct(seq![(fee_payer, true, true)], ixs);
}

/// Merging a configuration that sets nothing leaves every field as it was.
pub proof fn lemma_merge_nothing(old: Option<String>)
    ensures
        merged_field(old, None) == opt_view(old),
{
}

/// Merging the same update a second time changes nothing: a field that the first
/// merge left as `once` is left as it was by merging the same value again.
pub proof fn lemma_merge_idempotent(old: Option<String>, new: Option<String>, once: Option<String>)
    requires
        opt_view(once) == merged_field(old, new),
    ensures
        merged_field(once, new) == merged_field(old, new),
{
}

proof fn lemma_trim_start_shape(s: Seq<char>)
    ensures
        trim_start(s).len() == 0 || !is_space(trim_start(s)[0]),
        trim_start(s) =~= s.skip(s.len() - trim_start(s).len()),
        trim_start(s).len() <= s.len(),
    decreases s.len(),
{
    if s.len() > 0 && is_space(s[0]) {
        lemma_trim_start_shape(s.drop_first());
        assert(s.drop_first().skip(s.drop_first().len() - trim_start(s.drop_first()).len()) =~= s.skip(
            s.len() - trim_start(s).len(),
        ));
    } else {
        assert(s.skip(0) =~= s);
    }
}

proof fn lemma_trim_end_shape(s: Seq<char>)
    ensures
        trim_end(s).len() == 0 || !is_space(trim_end(s).last()),
        trim_end(s) =~= s.take(trim_end(s).len() as int),
        trim_end(s).len() <= s.len(),
    decreases s.len(),
{
    if s.len() > 0 && is_space(s.last()) {
        lemma_trim_end_shape(s.drop_last());
        assert(s.drop_last().take(trim_end(s.drop_last()).len() as int) =~= s.take(
            trim_end(s).len() as int,
        ));
    } else {
        assert(s.take(s.len() as int) =~= s);
    }
}

/// Trimming twice is trimming once.
pub proof fn lemma_trim_idempotent(s: Seq<char>)
    ensures
        trim(trim(s)) == trim(s),
{
    let a = trim_start(s);
    lemma_trim_start_shape(s);
    let t = trim_end(a);
    lemma_trim_end_shape(a);
    if t.len() > 0 {
        assert(t[0] == a[0]);
        assert(trim_start(t) == t);
        assert(trim_end(t) == t);
    } else {
        assert(trim_start(t) == t);
        assert(trim_end(t) == t);
    }
}

/// Normalizing a normalized value changes nothing, so merging the same value twice
/// gives what merging it once gave.
pub proof fn lemma_normalized_idempotent(v: Option<Seq<char>>)
    ensures
        normalized(normalized(v)) == normalized(v),
{
    if let Some(s) = v {
        lemma_trim_idempotent(s);
    }
}

/// What follows a prefix reads at the prefix's end as it reads on its own.
pub proof fn lemma_read_compact_shift(p: Seq<u8>, s: Seq<u8>)
    ensures
        read_compact(p + s, p.len() as int) == read_compact(s, 0),
{
    let b = p + s;
    let o = p.len() as int;
    if s.len() > 0 {
        assert(b[o] == s[0]);
    }
    if s.len() > 1 {
        assert(b[o + 1] == s[1]);
    }
    if s.len() > 2 {
        assert(b[o + 2] == s[2]);
    }
}

proof fn lemma_key_bytes_len(c: Seq<Entry>)
    requires
        key_bytes(c) is Ok,
    ensures
        key_bytes(c)->Ok_0.len() == 32 * c.len(),
    decreases c.len(),
{
    if c.len() > 0 {
        lemma_key_bytes_len(c.drop_first());
    }
}

/// In a compiled message, the blockhash position that signing reads is where the
/// blockhash was written (for fewer than 128 signers, so that the first header
/// byte does not read as a version prefix, and fewer than 65536 accounts).
#[verifier::spinoff_prover]
#[verifier::rlimit(40)]
pub proof fn lemma_compiled_blockhash_position(fee_payer: Seq<char>, ixs: Seq<InstructionView>, blockhash: Seq<u8>)
    requires
        message_bytes(fee_payer, ixs, blockhash) is Ok,
        blockhash.len() == 32,
        canonical(account_table(fee_payer, ixs)).len() < 65536,
        canonical(account_table(fee_payer, ixs)).filter(is_signer_entry()).len() < 128,
    ensures
        ({
            let m = message_bytes(fee_payer, ixs, blockhash)->Ok_0;
            let n = canonical(account_table(fee_payer, ixs)).len();
            let off: int = (3 + compact_u16(n).len() + 32 * n) as int;
            &&& blockhash_position(m) == Ok::<int, WireErrorView>(off)
            &&& m.subrange(off, off + 32) == blockhash
        }),
{
    let c = canonical(account_table(fee_payer, ixs));
    let n = c.len();
    let kb = key_bytes(c)->Ok_0;
    let ib = instructions_bytes(c, ixs)->Ok_0;
    let h = header(c);
    let cn = compact_u16((n % 65536) as nat);
    let ci = compact_u16((ixs.len() % 65536) as nat);
    let m = message_bytes(fee_payer, ixs, blockhash)->Ok_0;
    assert(n % 65536 == n);
    assert(m == h + cn + kb + blockhash + ci + ib);
    lemma_key_bytes_len(c);
    let rest = kb + blockhash + ci + ib;
    assert(m =~= h + (cn + rest));
    lemma_read_compact_shift(h, cn + rest);
    lemma_compact_u16_roundtrip(n as u16, rest);
    assert(m[0] == h[0]);
    assert(h[0] == (c.filter(is_signer_entry()).len() % 256) as u8);
    let off: int = (3 + cn.len() + 32 * n) as int;
    assert(m.subrange(off, off + 32) =~= blockhash);
}


/// An instruction whose account list and data lengths fit a compact-u16.
pub open spec fn fits_u16(ix: InstructionView) -> bool {
    &&& ix.keys.len() < 65536
    &&& match ix.data {
        Ok(d) => d.len() < 65536,
        Err(_) => true,
    }
}

/// Instructions whose count, account lists and data lengths fit a compact-u16.
pub open spec fn within_u16_lengths(ixs: Seq<InstructionView>) -> bool {
    &&& ixs.len() < 65536
    &&& forall|i: int| 0 <= i < ixs.len() ==> fits_u16(#[trigger] ixs[i])
}

proof fn lemma_key_indices_shape(c: Seq<Entry>, keys: Seq<Entry>)
    requires
        key_indices(c, keys) is Ok,
    ensures
        key_indices(c, keys)->Ok_0.len() == keys.len(),
        all_below(key_indices(c, keys)->Ok_0, c.len() as int),
    decreases keys.len(),
{
    if keys.len() > 0 {
        lemma_key_indices_shape(c, keys.drop_first());
        crate::message::lemma_key_position_valid(c, keys[0].0);
        let p = key_position(c, keys[0].0);
        let rest = key_indices(c, keys.drop_first())->Ok_0;
        let r = key_indices(c, keys)->Ok_0;
        assert(r == seq![(p % 256) as u8] + rest);
        assert forall|j: int| 0 <= j < r.len() implies #[trigger] r[j] < c.len() by {
            if j > 0 {
                assert(r[j] == rest[j - 1]);
            }
        }
    }
}

/// One compiled instruction followed by `rest`: reading it moves past its bytes.
#[verifier::spinoff_prover]
#[verifier::rlimit(40)]
proof fn lemma_instruction_step(pre: Seq<u8>, pb: u8, idx: Seq<u8>, d: Seq<u8>, rest: Seq<u8>, count: int, n: int)
    requires
        pb < n,
        all_below(idx, n),
        idx.len() < 65536,
        d.len() < 65536,
        count > 0,
    ensures
        instructions_end(
            pre + (seq![pb] + compact_u16(idx.len()) + idx + compact_u16(d.len()) + d) + rest,
            pre.len() as int,
            count,
            n,
        ) == instructions_end(
            pre + (seq![pb] + compact_u16(idx.len()) + idx + compact_u16(d.len()) + d) + rest,
            (pre.len() + (seq![pb] + compact_u16(idx.len()) + idx + compact_u16(d.len()) + d).len()) as int,
            count - 1,
            n,
        ),
{
    let ck = compact_u16(idx.len());
    let cd = compact_u16(d.len());
    let b0 = seq![pb] + ck + idx + cd + d;
    let m = pre + b0 + rest;
    let off = pre.len() as int;
    let k = idx.len() as int;
    assert(m[off] == pb);
    let pre1 = pre + seq![pb];
    assert(m =~= pre1 + (ck + (idx + cd + d + rest)));
    lemma_read_compact_shift(pre1, ck + (idx + cd + d + rest));
    lemma_compact_u16_roundtrip(idx.len() as u16, idx + cd + d + rest);
    assert(read_compact(m, off + 1) == Ok::<(int, int), WireErrorView>((k, ck.len() as int)));
    let io = off + 1 + ck.len();
    assert(m.subrange(io, io + k) =~= idx);
    assert(all_below(m.subrange(io, io + k), n));
    let pre2 = pre1 + ck + idx;
    assert(pre2.len() == io + k);
    assert(m =~= pre2 + (cd + (d + rest)));
    lemma_read_compact_shift(pre2, cd + (d + rest));
    lemma_compact_u16_roundtrip(d.len() as u16, d + rest);
    assert(read_compact(m, io + k) == Ok::<(int, int), WireErrorView>((d.len() as int, cd.len() as int)));
    assert(io + k + cd.len() + d.len() == off + b0.len());
    assert(io + k + cd.len() + d.len() <= m.len());
}

#[verifier::spinoff_prover]
proof fn lemma_instructions_fill(c: Seq<Entry>, ixs: Seq<InstructionView>, pre: Seq<u8>)
    requires
        instructions_bytes(c, ixs) is Ok,
        forall|i: int| 0 <= i < ixs.len() ==> fits_u16(#[trigger] ixs[i]),
    ensures
        instructions_end(pre + instructions_bytes(c, ixs)->Ok_0, pre.len() as int, ixs.len() as int, c.len() as int)
            == Some((pre.len() + instructions_bytes(c, ixs)->Ok_0.len()) as int),
    decreases ixs.len(),
{
    let ib = instructions_bytes(c, ixs)->Ok_0;
    if ixs.len() > 0 {
        let ix = ixs[0];
        assert(fits_u16(ixs[0]));
        let b0 = instruction_bytes(c, ix)->Ok_0;
        let rest_ixs = ixs.drop_first();
        let rest = instructions_bytes(c, rest_ixs)->Ok_0;
        assert(ib == b0 + rest);
        let p = key_position(c, ix.program_id);
        crate::message::lemma_key_position_valid(c, ix.program_id);
        let idx = key_indices(c, ix.keys)->Ok_0;
        lemma_key_indices_shape(c, ix.keys);
        let d = ix.data->Ok_0;
        assert(ix.keys.len() % 65536 == ix.keys.len());
        assert(d.len() % 65536 == d.len());
        let pb: u8 = (p % 256) as u8;
        assert(b0 == seq![pb] + compact_u16(idx.len()) + idx + compact_u16(d.len()) + d);
        lemma_instruction_step(pre, pb, idx, d, rest, ixs.len() as int, c.len() as int);
        assert(pre + ib =~= (pre + b0) + rest);
        assert forall|i: int| 0 <= i < rest_ixs.len() implies fits_u16(#[trigger] rest_ixs[i]) by {
            assert(rest_ixs[i] == ixs[i + 1]);
        }
        lemma_instructions_fill(c, rest_ixs, pre + b0);
    }
}

#[verifier::spinoff_prover]
proof fn lemma_compiled_count(fee_payer: Seq<char>, ixs: Seq<InstructionView>, blockhash: Seq<u8>)
    requires
        message_bytes(fee_payer, ixs, blockhash) is Ok,
        canonical(account_table(fee_payer, ixs)).len() < 65536,
    ensures
        read_compact(message_bytes(fee_payer, ixs, blockhash)->Ok_0, 3) == Ok::<(int, int), WireErrorView>(
            (
                canonical(account_table(fee_payer, ixs)).len() as int,
                compact_u16(canonical(account_table(fee_payer, ixs)).len()).len() as int,
            ),
        ),
{
    let c = canonical(account_table(fee_payer, ixs));
    let n = c.len();
    lemma_message_parts(fee_payer, ixs, blockhash, blockhash);
    let h = header(c);
    let cn = compact_u16((n % 65536) as nat);
    let tail = key_bytes(c)->Ok_0 + blockhash + message_parts(fee_payer, ixs).1;
    assert(n % 65536 == n);
    assert(message_bytes(fee_payer, ixs, blockhash)->Ok_0 =~= h + (cn + tail));
    lemma_read_compact_shift(h, cn + tail);
    lemma_compact_u16_roundtrip(n as u16, tail);
}

#[verifier::spinoff_prover]
proof fn lemma_compiled_instructions(fee_payer: Seq<char>, ixs: Seq<InstructionView>, blockhash: Seq<u8>)
    requires
        message_bytes(fee_payer, ixs, blockhash) is Ok,
        canonical(account_table(fee_payer, ixs)).len() < 65536,
        within_u16_lengths(ixs),
    ensures
        ({
            let m = message_bytes(fee_payer, ixs, blockhash)->Ok_0;
            let at: int = (message_parts(fee_payer, ixs).0.len() + blockhash.len()) as int;
            &&& read_compact(m, at) == Ok::<(int, int), WireErrorView>(
                (ixs.len() as int, compact_u16(ixs.len()).len() as int),
            )
            &&& instructions_end(
                m,
                at + compact_u16(ixs.len()).len(),
                ixs.len() as int,
                canonical(account_table(fee_payer, ixs)).len() as int,
            ) == Some(m.len() as int)
        }),
{
    let c = canonical(account_table(fee_payer, ixs));
    lemma_message_parts(fee_payer, ixs, blockhash, blockhash);
    let pre = message_parts(fee_payer, ixs).0 + blockhash;
    let ci = compact_u16((ixs.len() % 65536) as nat);
    let ib = instructions_bytes(c, ixs)->Ok_0;
    assert(ixs.len() % 65536 == ixs.len());
    let m = message_bytes(fee_payer, ixs, blockhash)->Ok_0;
    assert(m =~= pre + (ci + ib));
    lemma_read_compact_shift(pre, ci + ib);
    lemma_compact_u16_roundtrip(ixs.len() as u16, ib);
    assert(m =~= (pre + ci) + ib);
    lemma_instructions_fill(c, ixs, pre + ci);
}

/// A compiled message is a whole legacy message (fewer than 128 signers and 65536
/// accounts, and instruction counts and lengths that fit a compact-u16), so reading it
/// back keeps it whole.
#[verifier::spinoff_prover]
pub proof fn lemma_compiled_message_is_whole(fee_payer: Seq<char>, ixs: Seq<InstructionView>, blockhash: Seq<u8>)
    requires
        message_bytes(fee_payer, ixs, blockhash) is Ok,
        blockhash.len() == 32,
        canonical(account_table(fee_payer, ixs)).len() < 65536,
        canonical(account_table(fee_payer, ixs)).filter(is_signer_entry()).len() < 128,
        within_u16_lengths(ixs),
    ensures
        is_whole_legacy_message(message_bytes(fee_payer, ixs, blockhash)->Ok_0),
        message_of(message_bytes(fee_payer, ixs, blockhash)->Ok_0) == Ok::<Seq<u8>, WireErrorView>(
            message_bytes(fee_payer, ixs, blockhash)->Ok_0,
        ),
{
    lemma_compiled_blockhash_position(fee_payer, ixs, blockhash);
    lemma_compiled_count(fee_payer, ixs, blockhash);
    lemma_compiled_instructions(fee_payer, ixs, blockhash);
    lemma_parts_len(fee_payer, ixs);
    lemma_compiled_first_byte(fee_payer, ixs, blockhash);
    let c = canonical(account_table(fee_payer, ixs));
    let n = c.len();
    let m = message_bytes(fee_payer, ixs, blockhash)->Ok_0;
    let end: int = (3 + compact_u16(n).len() + 32 * n) as int;
    lemma_whole_from_parts(
        m,
        end,
        n as int,
        compact_u16(n).len() as int,
        ixs.len() as int,
        compact_u16(ixs.len()).len() as int,
    );
}

#[verifier::spinoff_prover]
proof fn lemma_compiled_first_byte(fee_payer: Seq<char>, ixs: Seq<InstructionView>, blockhash: Seq<u8>)
    requires
        message_bytes(fee_payer, ixs, blockhash) is Ok,
        canonical(account_table(fee_payer, ixs)).filter(is_signer_entry()).len() < 128,
    ensures
        message_bytes(fee_payer, ixs, blockhash)->Ok_0.len() > 0,
        message_bytes(fee_payer, ixs, blockhash)->Ok_0[0] < 128,
{
    let c = canonical(account_table(fee_payer, ixs));
    lemma_message_parts(fee_payer, ixs, blockhash, blockhash);
    let h = header(c);
    assert(message_parts(fee_payer, ixs).0[0] == h[0]);
    assert(h[0] == (c.filter(is_signer_entry()).len() % 256) as u8);
}

proof fn lemma_whole_from_parts(m: Seq<u8>, end: int, n: int, nl: int, count: int, cl: int)
    requires
        m.len() > 0,
        m[0] < 128,
        blockhash_position(m) == Ok::<int, WireErrorView>(end),
        read_compact(m, 3) == Ok::<(int, int), WireErrorView>((n, nl)),
        read_compact(m, end + 32) == Ok::<(int, int), WireErrorView>((count, cl)),
        instructions_end(m, end + 32 + cl, count, n) == Some(m.len() as int),
    ensures
        is_whole_legacy_message(m),
        message_of(m) == Ok::<Seq<u8>, WireErrorView>(m),
{
}

proof fn lemma_splice(p: Seq<u8>, z: Seq<u8>, q: Seq<u8>, b: Seq<u8>)
    requires
        z.len() == 32,
    ensures
        (p + z + q).take(p.len() as int) + b + (p + z + q).skip(p.len() as int + 32) == p + b + q,
{
    assert((p + z + q).take(p.len() as int) =~= p);
    assert((p + z + q).skip(p.len() as int + 32) =~= q);
}

proof fn lemma_message_parts(fee_payer: Seq<char>, ixs: Seq<InstructionView>, z: Seq<u8>, b: Seq<u8>)
    requires
        message_bytes(fee_payer, ixs, z) is Ok,
    ensures
        message_bytes(fee_payer, ixs, z) == Ok::<Seq<u8>, MessageErrorView>(
            message_parts(fee_payer, ixs).0 + z + message_parts(fee_payer, ixs).1,
        ),
        message_bytes(fee_payer, ixs, b) == Ok::<Seq<u8>, MessageErrorView>(
            message_parts(fee_payer, ixs).0 + b + message_parts(fee_payer, ixs).1,
        ),
{
    let c = canonical(account_table(fee_payer, ixs));
    let h = header(c);
    let cn = compact_u16((c.len() % 65536) as nat);
    let kb = key_bytes(c)->Ok_0;
    let ci = compact_u16((ixs.len() % 65536) as nat);
    let ib = instructions_bytes(c, ixs)->Ok_0;
    assert(h + cn + kb + z + ci + ib =~= (h + cn + kb) + z + (ci + ib));
    assert(h + cn + kb + b + ci + ib =~= (h + cn + kb) + b + (ci + ib));
}

proof fn lemma_sign_patches(m: Seq<u8>, b: Seq<u8>, off: int)
    requires
        message_of(m) == Ok::<Seq<u8>, WireErrorView>(m),
        blockhash_position(m) == Ok::<int, WireErrorView>(off),
    ensures
        message_to_sign(None::<TxJson>, m, b) == Ok::<Seq<u8>, SolanaErrorView>(m.take(off) + b + m.skip(off + 32)),
{
}

/// Signing an unsigned message, built with the zeroed blockhash placeholder, under a
/// fresh blockhash signs exactly the message compiled with that blockhash: the
/// placeholder is found and replaced, nothing else moves. Stated for fewer than 128
/// signers and 65536 accounts, and instruction counts and lengths that fit a
/// compact-u16.
#[verifier::spinoff_prover]
pub proof fn lemma_placeholder_replaced(fee_payer: Seq<char>, ixs: Seq<InstructionView>, blockhash: Seq<u8>)
    requires
        message_bytes(fee_payer, ixs, zero_blockhash()) is Ok,
        blockhash.len() == 32,
        canonical(account_table(fee_payer, ixs)).len() < 65536,
        canonical(account_table(fee_payer, ixs)).filter(is_signer_entry()).len() < 128,
        within_u16_lengths(ixs),
    ensures
        message_bytes(fee_payer, ixs, blockhash) is Ok,
        message_to_sign(None::<TxJson>, message_bytes(fee_payer, ixs, zero_blockhash())->Ok_0, blockhash)
            == Ok::<Seq<u8>, SolanaErrorView>(message_bytes(fee_payer, ixs, blockhash)->Ok_0),
{
    let z = zero_blockhash();
    let m0 = message_bytes(fee_payer, ixs, z)->Ok_0;
    let (p, q) = message_parts(fee_payer, ixs);
    lemma_compiled_message_is_whole(fee_payer, ixs, z);
    lemma_message_parts(fee_payer, ixs, z, blockhash);
    lemma_compiled_blockhash_position(fee_payer, ixs, z);
    lemma_parts_len(fee_payer, ixs);
    lemma_sign_patches(m0, blockhash, p.len() as int);
    lemma_splice(p, z, q, blockhash);
}

/// What `encode_unsigned_message` produces can go straight to signing: read back, the
/// payload is the unsigned message itself, and signing it under a fresh blockhash
/// signs the same instruction compiled with that blockhash. Stated for fewer than 128
/// signers and 65536 accounts, and account lists and data shorter than 65536.
pub proof fn lemma_unsigned_message_signs(
    fee_payer: Seq<char>,
    program_id: Seq<char>,
    accounts: Seq<(String, bool, bool)>,
    data: Seq<u8>,
    blockhash: Seq<u8>,
)
    requires
        unsigned_message(fee_payer, program_id, accounts, data) is Ok,
        blockhash.len() == 32,
        accounts.len() < 65536,
        data.len() < 65536,
        canonical(account_table(fee_payer, seq![unsigned_instruction(program_id, accounts, data)])).len() < 65536,
        canonical(account_table(fee_payer, seq![unsigned_instruction(program_id, accounts, data)])).filter(
            is_signer_entry(),
        ).len() < 128,
    ensures
        message_of(unsigned_message(fee_payer, program_id, accounts, data)->Ok_0) == Ok::<Seq<u8>, WireErrorView>(
            unsigned_message(fee_payer, program_id, accounts, data)->Ok_0,
        ),
        message_to_sign(None::<TxJson>, unsigned_message(fee_payer, program_id, accounts, data)->Ok_0, blockhash)
            == Ok::<Seq<u8>, SolanaErrorView>(
            message_bytes(fee_payer, seq![unsigned_instruction(program_id, accounts, data)], blockhash)->Ok_0,
        ),
{
    let ixs = seq![unsigned_instruction(program_id, accounts, data)];
    assert(fits_u16(ixs[0]));
    assert(within_u16_lengths(ixs));
    lemma_compiled_message_is_whole(fee_payer, ixs, zero_blockhash());
    lemma_placeholder_replaced(fee_payer, ixs, blockhash);
}

proof fn lemma_parts_len(fee_payer: Seq<char>, ixs: Seq<InstructionView>)
    requires
        key_bytes(canonical(account_table(fee_payer, ixs))) is Ok,
        canonical(account_table(fee_payer, ixs)).len() < 65536,
    ensures
        message_parts(fee_payer, ixs).0.len() == 3 + compact_u16(canonical(account_table(fee_payer, ixs)).len()).len()
            + 32 * canonical(account_table(fee_payer, ixs)).len(),
{
    let c = canonical(account_table(fee_payer, ixs));
    lemma_key_bytes_len(c);
    assert(c.len() % 65536 == c.len());
}

/// The bytes of a compiled message before and after its blockhash.
spec fn message_parts(fee_payer: Seq<char>, ixs: Seq<InstructionView>) -> (Seq<u8>, Seq<u8>) {
    let c = canonical(account_table(fee_payer, ixs));
    (
        header(c) + compact_u16((c.len() % 65536) as nat) + key_bytes(c)->Ok_0,
        compact_u16((ixs.len() % 65536) as nat) + instructions_bytes(c, ixs)->Ok_0,
    )
}

/// A compact-u16 written after any prefix and followed by anything reads back, at the
/// prefix's end, as the value written and the number of bytes written: one byte
/// below 0x80, two below 0x4000, three otherwise.
pub proof fn lemma_compact_u16_after_prefix(prefix: Seq<u8>, v: u16, rest: Seq<u8>)
    ensures
        read_compact(prefix + compact_u16(v as nat) + rest, prefix.len() as int) == Ok::<(int, int), WireErrorView>(
            (v as int, compact_u16(v as nat).len() as int),
        ),
        (prefix + compact_u16(v as nat) + rest).take(prefix.len() as int) == prefix,
        1 <= compact_u16(v as nat).len() <= 3,
        compact_u16(v as nat).len() == 1 <==> v < 0x80,
        compact_u16(v as nat).len() == 2 <==> 0x80 <= v < 0x4000,
{
    let c = compact_u16(v as nat);
    assert(prefix + c + rest =~= prefix + (c + rest));
    lemma_read_compact_shift(prefix, c + rest);
    lemma_compact_u16_roundtrip(v, rest);
    assert((prefix + c + rest).take(prefix.len() as int) =~= prefix);
    if v >= 128 {
        let w = (v / 128) as nat;
        assert(c == seq![(v % 128 + 128) as u8] + compact_u16(w));
        if w >= 128 {
            let x = w / 128;
            assert(compact_u16(w) == seq![(w % 128 + 128) as u8] + compact_u16(x));
            assert(x < 4);
            assert(compact_u16(x) == seq![x as u8]);
        } else {
            assert(compact_u16(w) == seq![w as u8]);
        }
    } else {
        assert(c == seq![v as u8]);
    }
}

proof fn lemma_seed_resolution_grows(
    seed: IdlSeed,
    args: Seq<IdlArg>,
    accounts: Map<Seq<char>, String>,
    values: Map<Seq<char>, ArgValue>,
    more_accounts: Map<Seq<char>, String>,
    more_values: Map<Seq<char>, ArgValue>,
)
    requires
        seed_resolution(seed, args, accounts, values) is Some,
        accounts.submap_of(more_accounts),
        values.submap_of(more_values),
    ensures
        seed_resolution(seed, args, more_accounts, more_values) == seed_resolution(seed, args, accounts, values),
{
    if let Some(p) = seed.path {
        if accounts.contains_key(p@) {
            assert(more_accounts.contains_key(p@) && more_accounts[p@] == accounts[p@]);
        }
        if values.contains_key(p@) {
            assert(more_values.contains_key(p@) && more_values[p@] == values[p@]);
        }
    }
}

/// Collecting more accounts or argument values never un-resolves a PDA or changes
/// its seeds: seeds resolved from some values resolve to the same bytes from any
/// values that keep those.
pub proof fn lemma_seeds_resolution_stable(
    seeds: Seq<IdlSeed>,
    args: Seq<IdlArg>,
    accounts: Map<Seq<char>, String>,
    values: Map<Seq<char>, ArgValue>,
    more_accounts: Map<Seq<char>, String>,
    more_values: Map<Seq<char>, ArgValue>,
)
    requires
        seeds_resolution(seeds, args, accounts, values) is Some,
        accounts.submap_of(more_accounts),
        values.submap_of(more_values),
    ensures
        seeds_resolution(seeds, args, more_accounts, more_values) == seeds_resolution(seeds, args, accounts, values),
{
    assert forall|i: int| 0 <= i < seeds.len() implies #[trigger] seed_resolution(seeds[i], args, more_accounts, more_values)
        == seed_resolution(seeds[i], args, accounts, values) by {
        assert(seed_resolution(seeds[i], args, accounts, values) is Some);
        lemma_seed_resolution_grows(seeds[i], args, accounts, values, more_accounts, more_values);
    }
    assert(forall|i: int| 0 <= i < seeds.len() ==> (#[trigger] seed_resolution(seeds[i], args, more_accounts, more_values)) is Some);
    assert(Seq::new(seeds.len(), |i: int| seed_resolution(seeds[i], args, more_accounts, more_values).unwrap())
        =~= Seq::new(seeds.len(), |i: int| seed_resolution(seeds[i], args, accounts, values).unwrap()));
}

/// Whether each stored text field is already trimmed and non-empty, as merging
/// and resetting store them.
pub open spec fn stored_normalized(c: Config) -> bool {
    &&& normalized(opt_view(c.project_id)) == opt_view(c.project_id)
    &&& normalized(opt_view(c.rpc_url)) == opt_view(c.rpc_url)
    &&& normalized(opt_view(c.keypair_path)) == opt_view(c.keypair_path)
    &&& normalized(opt_view(c.api_base_url)) == opt_view(c.api_base_url)
    &&& normalized(opt_view(c.idl_path)) == opt_view(c.idl_path)
}

proof fn lemma_defaults_normalized()
    ensures
        normalized(Some(default_rpc())) == Some(default_rpc()),
        normalized(Some(default_api_base())) == Some(default_api_base()),
{
    reveal_strlit("https://api.mainnet-beta.solana.com");
    reveal_strlit("https://api.orquestra.build");
    let r = default_rpc();
    let b = default_api_base();
    assert(!is_space(r[0]) && !is_space(r.last()));
    assert(trim_start(r) == r);
    assert(trim_end(r) == r);
    assert(!is_space(b[0]) && !is_space(b.last()));
    assert(trim_start(b) == b);
    assert(trim_end(b) == b);
}

/// Resetting the configuration and pressing Enter at every prompt keeps the current
/// values: the fields as stored, the API key, and the RPC URL and API base in effect
/// (the defaults written out where they were unset). Stated for a configuration whose
/// fields are stored trimmed and non-empty, as `config set` and `config reset` store them.
pub proof fn lemma_reset_with_defaults_keeps_values(before: Config, after: Config)
    requires
        stored_normalized(before),
        reset_applied(before, after, reset_answers(before), Seq::<char>::empty()),
    ensures
        opt_view(after.project_id) == opt_view(before.project_id),
        after.api_key == before.api_key,
        effective_rpc(after) == effective_rpc(before),
        opt_view(after.keypair_path) == opt_view(before.keypair_path),
        effective_api_base(after) == effective_api_base(before),
        opt_view(after.idl_path) == opt_view(before.idl_path),
{
    lemma_defaults_normalized();
    assert(trim(Seq::<char>::empty()) =~= Seq::<char>::empty());
}


/// Whether two secrets show the same when masked: both at most 8 bytes and equally
/// long, or both longer, with the same first four and last four bytes.
pub open spec fn same_visible_part(a: Seq<char>, b: Seq<char>) -> bool {
    let x = encode_utf8(a);
    let y = encode_utf8(b);
    ||| x.len() == y.len() && x.len() <= 8
    ||| x.len() > 8 && y.len() > 8 && x.take(4) == y.take(4) && x.skip(x.len() - 4) == y.skip(y.len() - 4)
}

/// The hidden part of the API key has no effect on the shown configuration: two
/// configurations that differ only in API keys with the same visible part show the same.
pub proof fn lemma_display_ignores_masked_part(c1: Config, c2: Config, k1: String, k2: String)
    requires
        c1.project_id == c2.project_id,
        c1.rpc_url == c2.rpc_url,
        c1.keypair_path == c2.keypair_path,
        c1.api_base_url == c2.api_base_url,
        c1.idl_path == c2.idl_path,
        c1.api_key == Some(k1),
        c2.api_key == Some(k2),
        same_visible_part(k1@, k2@),
    ensures
        display_text(c1) == display_text(c2),
{
    let x = encode_utf8(k1@);
    let y = encode_utf8(k2@);
    if x.len() <= 8 {
        assert(masked(k1@) =~= masked(k2@));
    } else {
        assert(x.subrange(0, 4) =~= x.take(4));
        assert(y.subrange(0, 4) =~= y.take(4));
        assert(x.subrange(x.len() - 4, x.len() as int) =~= x.skip(x.len() - 4));
        assert(y.subrange(y.len() - 4, y.len() as int) =~= y.skip(y.len() - 4));
        assert(masked(k1@) == masked(k2@));
    }
}


/// Which property of an account a law speaks of: 1 its signer flag, 2 its writable
/// flag, anything else merely that it is there.
pub open spec fn flag(e: Entry, which: int) -> bool {
    if which == 1 {
        e.1
    } else if which == 2 {
        e.2
    } else {
        true
    }
}

/// Whether some entry of `s` has key `k` and the property `which` (see `flag`).
pub open spec fn has_flag(s: Seq<Entry>, k: Seq<char>, which: int) -> bool {
    exists|j: int| #![trigger s[j]] 0 <= j < s.len() && s[j].0 == k && flag(s[j], which)
}

/// Every account occurrence of the instructions, in order: each instruction's
/// accounts with their flags, then its program as a read-only non-signer.
pub open spec fn instruction_occurrences(ixs: Seq<InstructionView>) -> Seq<Entry>
    decreases ixs.len(),
{
    if ixs.len() == 0 {
        Seq::empty()
    } else {
        ixs[0].keys + seq![(ixs[0].program_id, false, false)] + instruction_occurrences(ixs.drop_first())
    }
}

/// Every account occurrence of a message: the fee payer as a writable signer, then
/// those of the instructions.
pub open spec fn account_occurrences(fee_payer: Seq<char>, ixs: Seq<InstructionView>) -> Seq<Entry> {
    seq![(fee_payer, true, true)] + instruction_occurrences(ixs)
}

proof fn lemma_has_flag_concat(a: Seq<Entry>, b: Seq<Entry>, k: Seq<char>, w: int)
    ensures
        has_flag(a + b, k, w) <==> has_flag(a, k, w) || has_flag(b, k, w),
{
    let c = a + b;
    if has_flag(c, k, w) {
        let j = choose|j: int| #![trigger c[j]] 0 <= j < c.len() && c[j].0 == k && flag(c[j], w);
        if j < a.len() {
            assert(c[j] == a[j]);
        } else {
            assert(c[j] == b[j - a.len()]);
        }
    }
    if has_flag(a, k, w) {
        let j = choose|j: int| #![trigger a[j]] 0 <= j < a.len() && a[j].0 == k && flag(a[j], w);
        assert(c[j] == a[j]);
    }
    if has_flag(b, k, w) {
        let j = choose|j: int| #![trigger b[j]] 0 <= j < b.len() && b[j].0 == k && flag(b[j], w);
        assert(c[a.len() + j] == b[j]);
    }
}

proof fn lemma_add_entry_flags(t: Seq<Entry>, e: Entry, k: Seq<char>, w: int)
    ensures
        has_flag(add_entry(t, e), k, w) <==> has_flag(t, k, w) || (e.0 == k && flag(e, w)),
{
    crate::message::lemma_key_position_valid(t, e.0);
    let p = key_position(t, e.0);
    let u = add_entry(t, e);
    if p < 0 {
        assert(u == t.push(e));
        lemma_has_flag_concat(t, seq![e], k, w);
        assert(t.push(e) =~= t + seq![e]);
        if e.0 == k && flag(e, w) {
            assert(seq![e][0] == e);
        }
        if has_flag(seq![e], k, w) {
            assert(seq![e][0] == e);
        }
    } else {
        let ne = (e.0, t[p].1 || e.1, t[p].2 || e.2);
        assert(u == t.update(p, ne));
        assert(flag(ne, w) == (flag(t[p], w) || flag(e, w)));
        if has_flag(u, k, w) {
            let j = choose|j: int| #![trigger u[j]] 0 <= j < u.len() && u[j].0 == k && flag(u[j], w);
            if j != p {
                assert(u[j] == t[j]);
            } else if flag(t[p], w) {
                assert(t[p].0 == k);
            }
        }
        if has_flag(t, k, w) {
            let j = choose|j: int| #![trigger t[j]] 0 <= j < t.len() && t[j].0 == k && flag(t[j], w);
            if j != p {
                assert(u[j] == t[j]);
            } else {
                assert(u[p] == ne);
            }
        }
        if e.0 == k && flag(e, w) {
            assert(u[p] == ne);
        }
    }
}

proof fn lemma_add_entries_flags(t: Seq<Entry>, es: Seq<Entry>, k: Seq<char>, w: int)
    ensures
        has_flag(add_entries(t, es), k, w) <==> has_flag(t, k, w) || has_flag(es, k, w),
    decreases es.len(),
{
    if es.len() > 0 {
        lemma_add_entry_flags(t, es[0], k, w);
        lemma_add_entries_flags(add_entry(t, es[0]), es.drop_first(), k, w);
        assert(es =~= seq![es[0]] + es.drop_first());
        lemma_has_flag_concat(seq![es[0]], es.drop_first(), k, w);
        if has_flag(seq![es[0]], k, w) {
            assert(seq![es[0]][0] == es[0]);
        }
        if es[0].0 == k && flag(es[0], w) {
            assert(seq![es[0]][0] == es[0]);
        }
    } else {
        assert(!has_flag(es, k, w));
    }
}

proof fn lemma_add_instructions_flags(t: Seq<Entry>, ixs: Seq<InstructionView>, k: Seq<char>, w: int)
    ensures
        has_flag(add_instructions(t, ixs), k, w) <==> has_flag(t, k, w) || has_flag(
            instruction_occurrences(ixs),
            k,
            w,
        ),
    decreases ixs.len(),
{
    if ixs.len() > 0 {
        let prog: Entry = (ixs[0].program_id, false, false);
        let t1 = add_entries(t, ixs[0].keys);
        lemma_add_entries_flags(t, ixs[0].keys, k, w);
        lemma_add_entry_flags(t1, prog, k, w);
        lemma_add_instructions_flags(add_entry(t1, prog), ixs.drop_first(), k, w);
        let occ = instruction_occurrences(ixs);
        let rest = instruction_occurrences(ixs.drop_first());
        lemma_has_flag_concat(ixs[0].keys + seq![prog], rest, k, w);
        lemma_has_flag_concat(ixs[0].keys, seq![prog], k, w);
        if has_flag(seq![prog], k, w) {
            assert(seq![prog][0] == prog);
        }
        if prog.0 == k && flag(prog, w) {
            assert(seq![prog][0] == prog);
        }
    } else {
        assert(!has_flag(instruction_occurrences(ixs), k, w));
    }
}

proof fn lemma_distinct_flag(t: Seq<Entry>, j: int, w: int)
    requires
        distinct_keys(t),
        0 <= j < t.len(),
    ensures
        has_flag(t, t[j].0, w) == flag(t[j], w),
{
    if has_flag(t, t[j].0, w) {
        let i = choose|i: int| #![trigger t[i]] 0 <= i < t.len() && t[i].0 == t[j].0 && flag(t[i], w);
        if i < j {
            assert(t[i].0 != t[j].0);
        } else if i > j {
            assert(t[j].0 != t[i].0);
        }
    }
}

proof fn lemma_canonical_members(t: Seq<Entry>)
    requires
        t.len() > 0,
    ensures
        forall|i: int| 0 <= i < canonical(t).len() ==> t.contains(#[trigger] canonical(t)[i]),
{
    broadcast use vstd::seq_lib::group_filter_ensures;

    let rest = t.drop_first();
    let f0 = rest.filter(in_rank(0));
    let f1 = rest.filter(in_rank(1));
    let f2 = rest.filter(in_rank(2));
    let f3 = rest.filter(in_rank(3));
    let c = canonical(t);
    assert(c =~= seq![t[0]] + f0 + f1 + f2 + f3);
    assert forall|i: int| 0 <= i < c.len() implies t.contains(#[trigger] c[i]) by {
        let x = c[i];
        if i == 0 {
            assert(t[0] == x);
        } else {
            let a = 1 + f0.len();
            let b = a + f1.len();
            let d = b + f2.len();
            if i < a {
                assert(x == f0[i - 1]);
                assert(f0.contains(x));
                rest.lemma_filter_contains_rev(in_rank(0), x);
            } else if i < b {
                assert(x == f1[i - a]);
                assert(f1.contains(x));
                rest.lemma_filter_contains_rev(in_rank(1), x);
            } else if i < d {
                assert(x == f2[i - b]);
                assert(f2.contains(x));
                rest.lemma_filter_contains_rev(in_rank(2), x);
            } else {
                assert(x == f3[i - d]);
                assert(f3.contains(x));
                rest.lemma_filter_contains_rev(in_rank(3), x);
            }
            let q = choose|q: int| 0 <= q < rest.len() && rest[q] == x;
            assert(t[q + 1] == x);
        }
    }
}

/// Repeated accounts are merged by OR-ing their flags: in the compiled account table
/// a key is present iff it occurs among the fee payer, the instruction accounts and
/// the programs, and its entry is a signer (writable) iff at least one of its
/// occurrences is a signer (writable).
pub proof fn lemma_account_flags_merged(fee_payer: Seq<char>, ixs: Seq<InstructionView>, k: Seq<char>)
    ensures
        has_flag(canonical(account_table(fee_payer, ixs)), k, 0) == has_flag(account_occurrences(fee_payer, ixs), k, 0),
        forall|i: int| #![trigger canonical(account_table(fee_payer, ixs))[i]]
            0 <= i < canonical(account_table(fee_payer, ixs)).len() ==> {
                let e = canonical(account_table(fee_payer, ixs))[i];
                &&& e.1 == has_flag(account_occurrences(fee_payer, ixs), e.0, 1)
                &&& e.2 == has_flag(account_occurrences(fee_payer, ixs), e.0, 2)
            },
{
    let t = account_table(fee_payer, ixs);
    let c = canonical(t);
    let occ = account_occurrences(fee_payer, ixs);
    let start: Seq<Entry> = seq![(fee_payer, true, true)];
    assert(start[0] == (fee_payer, true, true));
    lemma_account_table_distinct(fee_payer, ixs);
    lemma_fee_payer_first(fee_payer, ixs);
    lemma_canonical_members(t);
    lemma_canonical_order(t);
    assert forall|w: int, key: Seq<char>| has_flag(t, key, w) == has_flag(occ, key, w) by {
        lemma_add_instructions_flags(start, ixs, key, w);
        lemma_has_flag_concat(start, instruction_occurrences(ixs), key, w);
    }
    // Presence: the canonical table holds the same entries as the table.
    if has_flag(c, k, 0) {
        let i = choose|i: int| #![trigger c[i]] 0 <= i < c.len() && c[i].0 == k && flag(c[i], 0);
        assert(t.contains(c[i]));
        let q = choose|q: int| 0 <= q < t.len() && t[q] == c[i];
        assert(flag(t[q], 0));
    }
    if has_flag(t, k, 0) {
        let q = choose|q: int| #![trigger t[q]] 0 <= q < t.len() && t[q].0 == k && flag(t[q], 0);
        assert(c.contains(t[q]));
        let i = choose|i: int| 0 <= i < c.len() && c[i] == t[q];
        assert(flag(c[i], 0));
    }
    assert forall|i: int| #![trigger c[i]] 0 <= i < c.len() implies c[i].1 == has_flag(occ, c[i].0, 1)
        && c[i].2 == has_flag(occ, c[i].0, 2) by {
        assert(t.contains(c[i]));
        let q = choose|q: int| 0 <= q < t.len() && t[q] == c[i];
        lemma_distinct_flag(t, q, 1);
        lemma_distinct_flag(t, q, 2);
    }
}


/// Instruction data text is read as base58 first: text that base58-decodes gives its
/// base58 bytes, and standard base64 is read only from text that is not base58.
pub proof fn lemma_instruction_data_base58_first(s: Seq<char>)
    ensures
        s.len() == 0 ==> instruction_data_of(s) == Ok::<Seq<u8>, WireErrorView>(Seq::empty()),
        s.len() > 0 && base58_decoded(s) is Some ==> instruction_data_of(s) == Ok::<Seq<u8>, WireErrorView>(
            base58_decoded(s).unwrap(),
        ),
        s.len() > 0 && base58_decoded(s) is None && base64_decoded(false, s) is Some ==> instruction_data_of(s)
            == Ok::<Seq<u8>, WireErrorView>(base64_decoded(false, s).unwrap()),
{
}

/// A JSON transaction's instructions are compiled one for one, in order: the i-th has
/// the i-th JSON instruction's program, its accounts with their flags in order, and its
/// data (the base58 bytes of the data text where it is base58).
pub proof fn lemma_json_instructions_in_order(tx: TxJson)
    ensures
        json_instructions(tx).len() == tx.instructions@.len(),
        forall|i: int| #![trigger json_instructions(tx)[i]] 0 <= i < tx.instructions@.len() ==> {
            let ix = tx.instructions@[i];
            let v = json_instructions(tx)[i];
            &&& v.program_id == ix.program_id@
            &&& v.keys == ix.keys@.map_values(|k: KeyJson| (k.pubkey@, k.is_signer, k.is_writable))
            &&& (ix.data@.len() > 0 && base58_decoded(ix.data@) is Some) ==> v.data == Ok::<Seq<u8>, Seq<char>>(
                base58_decoded(ix.data@).unwrap(),
            )
        },
{
    assert forall|i: int| #![trigger json_instructions(tx)[i]] 0 <= i < tx.instructions@.len() implies {
        let ix = tx.instructions@[i];
        let v = json_instructions(tx)[i];
        &&& v.program_id == ix.program_id@
        &&& v.keys == ix.keys@.map_values(|k: KeyJson| (k.pubkey@, k.is_signer, k.is_writable))
        &&& (ix.data@.len() > 0 && base58_decoded(ix.data@) is Some) ==> v.data == Ok::<Seq<u8>, Seq<char>>(
            base58_decoded(ix.data@).unwrap(),
        )
    } by {
        let ix = tx.instructions@[i];
        assert(json_instructions(tx)[i] == crate::solana::json_instruction(ix));
        assert(crate::solana::key_json_entries(ix.keys@) =~= ix.keys@.map_values(
            |k: KeyJson| (k.pubkey@, k.is_signer, k.is_writable),
        ));
        lemma_instruction_data_base58_first(ix.data@);
    }
}

#[verifier::spinoff_prover]
proof fn lemma_compiled_instruction_count(fee_payer: Seq<char>, ixs: Seq<InstructionView>, blockhash: Seq<u8>)
    requires
        message_bytes(fee_payer, ixs, blockhash) is Ok,
        ixs.len() < 65536,
    ensures
        read_compact(
            message_bytes(fee_payer, ixs, blockhash)->Ok_0,
            (message_parts(fee_payer, ixs).0.len() + blockhash.len()) as int,
        ) == Ok::<(int, int), WireErrorView>((ixs.len() as int, compact_u16(ixs.len()).len() as int)),
{
    let c = canonical(account_table(fee_payer, ixs));
    lemma_message_parts(fee_payer, ixs, blockhash, blockhash);
    let pre = message_parts(fee_payer, ixs).0 + blockhash;
    let ci = compact_u16((ixs.len() % 65536) as nat);
    let ib = instructions_bytes(c, ixs)->Ok_0;
    assert(ixs.len() % 65536 == ixs.len());
    let m = message_bytes(fee_payer, ixs, blockhash)->Ok_0;
    assert(m =~= pre + (ci + ib));
    lemma_read_compact_shift(pre, ci + ib);
    lemma_compact_u16_roundtrip(ixs.len() as u16, ib);
}

/// The message compiled from a JSON transaction says it holds as many instructions
/// as the JSON transaction has: the instruction count read after the blockhash is the
/// number of JSON instructions (fewer than 128 signers and 65536 accounts and
/// instructions).
pub proof fn lemma_json_message_instruction_count(tx: TxJson, blockhash: Seq<u8>)
    requires
        message_bytes(tx.fee_payer@, json_instructions(tx), blockhash) is Ok,
        blockhash.len() == 32,
        canonical(account_table(tx.fee_payer@, json_instructions(tx))).len() < 65536,
        canonical(account_table(tx.fee_payer@, json_instructions(tx))).filter(is_signer_entry()).len() < 128,
        tx.instructions@.len() < 65536,
    ensures
        ({
            let m = message_bytes(tx.fee_payer@, json_instructions(tx), blockhash)->Ok_0;
            &&& blockhash_position(m) is Ok
            &&& read_compact(m, blockhash_position(m)->Ok_0 + 32) == Ok::<(int, int), WireErrorView>(
                (tx.instructions@.len() as int, compact_u16(tx.instructions@.len()).len() as int),
            )
        }),
{
    let ixs = json_instructions(tx);
    lemma_json_instructions_in_order(tx);
    lemma_compiled_blockhash_position(tx.fee_payer@, ixs, blockhash);
    lemma_parts_len(tx.fee_payer@, ixs);
    lemma_message_parts(tx.fee_payer@, ixs, blockhash, blockhash);
    lemma_compiled_instruction_count(tx.fee_payer@, ixs, blockhash);
}

/// The explorer link names the cluster for every network but mainnet-beta: off
/// mainnet-beta it is the mainnet link followed by `?cluster=` and the network.
pub proof fn lemma_explorer_cluster(signature: Seq<char>, network: Seq<char>)
    ensures
        explorer_link(signature, "mainnet-beta"@) == "https://explorer.solana.com/tx/"@ + signature,
        network != "mainnet-beta"@ ==> explorer_link(signature, network) == explorer_link(
            signature,
            "mainnet-beta"@,
        ) + "?cluster="@ + network,
{
}

} // verus!
