//! The decisions behind the interactive commands: which network an RPC URL names,
//! how typed input becomes an argument value, which account pays the fee, how the
//! IDL mode fills accounts, which PDA accounts are offered, and how the labels read.

use vstd::prelude::*;
use crate::api::{Instruction, PdaAccount, PdaSeed};
use crate::codecs::{base58_decode, base58_decoded, lowercase, to_lowercase};
use crate::config::{effective_api_base, effective_rpc, normalized, opt_view, Config};
use crate::idl::{
    arg_type_name, arg_type_of, copy_bytes, opt_string_view, seed_description, seeds_resolution,
    IdlAccount, IdlInstruction, IdlSeed, SolanaIdl,
};
use crate::borsh::{
    args_encoding, borsh_encode_args, build_instruction_data, seed_bytes_from_value, seed_encoding,
    ArgsError, ArgsErrorView, ValueError, ValueErrorView,
};
use crate::numbers::parse_integer;
use crate::codecs::base58_encoded;
use crate::message::{MessageError, MessageErrorView};
use crate::solana::{
    encode_unsigned_message, find_program_address, program_address, unsigned_message, SolanaError,
    SolanaErrorView,
};
use crate::strmap::StrMap;
use crate::text::{contains_seq, contains_str, join, str_eq, string_views, trim_str};
use crate::values::{is_true_word, true_word, ArgValue};

verus! {

/// The network an RPC URL names: `devnet` or `testnet` where the URL says so, else `mainnet-beta`.
pub open spec fn network_of(rpc: Seq<char>) -> Seq<char> {
    if contains_seq(rpc, "devnet"@) {
        "devnet"@
    } else if contains_seq(rpc, "testnet"@) {
        "testnet"@
    } else {
        "mainnet-beta"@
    }
}

/// Determines the network from the RPC URL (see `network_of`).
pub fn infer_network(rpc: &str) -> (r: String)
    ensures
        r@ == network_of(rpc@),
{
    if contains_str(rpc, "devnet") {
        String::from_str("devnet")
    } else if contains_str(rpc, "testnet") {
        String::from_str("testnet")
    } else {
        String::from_str("mainnet-beta")
    }
}

/// The explorer page of a transaction; off mainnet it names the cluster.
pub open spec fn explorer_link(signature: Seq<char>, network: Seq<char>) -> Seq<char> {
    if network == "mainnet-beta"@ {
        "https://explorer.solana.com/tx/"@ + signature
    } else {
        "https://explorer.solana.com/tx/"@ + signature + "?cluster="@ + network
    }
}

pub fn explorer_url(signature: &str, network: &str) -> (r: String)
    ensures
        r@ == explorer_link(signature@, network@),
{
    let mut out = String::from_str("https://explorer.solana.com/tx/");
    out.append(signature);
    if !str_eq(network, "mainnet-beta") {
        out.append("?cluster=");
        out.append(network);
    }
    out
}

/// The text trimmed, or nothing when only whitespace is left.
pub fn non_empty(s: String) -> (r: Option<String>)
    ensures
        opt_view(r) == normalized(Some(s@)),
{
    crate::config::normalize_optional(Some(s))
}

/// Whether a (lowercased) type hint names an integer type.
pub open spec fn integer_hint(t: Seq<char>) -> bool {
    contains_seq(t, "u8"@) || contains_seq(t, "u16"@) || contains_seq(t, "u32"@) || contains_seq(
        t,
        "u64"@,
    ) || contains_seq(t, "u128"@) || contains_seq(t, "i8"@) || contains_seq(t, "i16"@)
        || contains_seq(t, "i32"@) || contains_seq(t, "i64"@) || contains_seq(t, "i128"@)
}

/// `v` is what typed input `raw` becomes for the lowercased type hint `t`: integer
/// types take an unsigned, then a signed 64-bit reading; `bool` types take the true
/// words; anything else stays text.
pub open spec fn coerced(raw: Seq<char>, t: Seq<char>, v: ArgValue) -> bool {
    let u = parse_integer(raw, false, 0, u64::MAX as int);
    let i = parse_integer(raw, true, i64::MIN as int, i64::MAX as int);
    if integer_hint(t) && u is Some {
        v == ArgValue::UInt(u.unwrap() as u64)
    } else if integer_hint(t) && i is Some {
        if i.unwrap() >= 0 {
            v == ArgValue::UInt(i.unwrap() as u64)
        } else {
            v == ArgValue::NegInt(i.unwrap() as i64)
        }
    } else if contains_seq(t, "bool"@) {
        v == ArgValue::Bool(is_true_word(lowercase(raw)))
    } else {
        v matches ArgValue::Text(s) && s@ == raw
    }
}

/// Turns typed input into a value for the lowercased type hint `lowered` (see `coerced`).
pub fn coerce_value_lowered(raw: &str, lowered: &str) -> (r: ArgValue)
    ensures
        coerced(raw@, lowered@, r),
{
    let numeric = contains_str(lowered, "u8") || contains_str(lowered, "u16") || contains_str(
        lowered,
        "u32",
    ) || contains_str(lowered, "u64") || contains_str(lowered, "u128") || contains_str(
        lowered,
        "i8",
    ) || contains_str(lowered, "i16") || contains_str(lowered, "i32") || contains_str(
        lowered,
        "i64",
    ) || contains_str(lowered, "i128");
    if numeric {
        if let Some(n) = crate::numbers::parse_u64(raw) {
            return ArgValue::UInt(n);
        }
        if let Some(n) = crate::numbers::parse_i64(raw) {
            return ArgValue::from_i64(n);
        }
    }
    if contains_str(lowered, "bool") {
        let lower = to_lowercase(raw);
        return ArgValue::Bool(true_word(lower.as_str()));
    }
    ArgValue::Text(raw.to_owned())
}

/// Parses typed input as the JSON value its IDL type hint calls for, the hint
/// compared in lowercase (see `coerced`).
pub fn coerce_value(raw: &str, ty: &str) -> (r: ArgValue)
    ensures
        coerced(raw@, lowercase(ty@), r),
{
    let lowered = to_lowercase(ty);
    coerce_value_lowered(raw, lowered.as_str())
}

/// Whether an account entered by hand can pay the fee: a signer, or an account
/// whose name mentions an authority or a payer.
pub open spec fn payer_like(name: Seq<char>, is_signer: bool) -> bool {
    is_signer || contains_seq(lowercase(name), "authority"@) || contains_seq(lowercase(name), "payer"@)
}

pub fn is_fee_payer_candidate(name: &str, is_signer: bool) -> (r: bool)
    ensures
        r == payer_like(name@, is_signer),
{
    if is_signer {
        return true;
    }
    let lower = to_lowercase(name);
    contains_str(lower.as_str(), "authority") || contains_str(lower.as_str(), "payer")
}

/// The flag suffix of an account prompt, such as ` [mut, signer]`.
pub open spec fn flags_text(is_mut: bool, is_signer: bool, is_optional: bool) -> Seq<char> {
    let flags = (if is_mut { seq!["mut"@] } else { Seq::<Seq<char>>::empty() }) + (if is_signer {
        seq!["signer"@]
    } else {
        Seq::<Seq<char>>::empty()
    }) + (if is_optional {
        seq!["optional"@]
    } else {
        Seq::<Seq<char>>::empty()
    });
    if flags.len() == 0 {
        Seq::<char>::empty()
    } else {
        " ["@ + join(flags, ", "@) + "]"@
    }
}

pub fn account_flags(is_mut: bool, is_signer: bool, is_optional: bool) -> (r: String)
    ensures
        r@ == flags_text(is_mut, is_signer, is_optional),
{
    let mut flags: Vec<String> = Vec::new();
    if is_mut {
        flags.push(String::from_str("mut"));
    }
    if is_signer {
        flags.push(String::from_str("signer"));
    }
    if is_optional {
        flags.push(String::from_str("optional"));
    }
    let ghost want = (if is_mut { seq!["mut"@] } else { Seq::<Seq<char>>::empty() }) + (if is_signer {
        seq!["signer"@]
    } else {
        Seq::<Seq<char>>::empty()
    }) + (if is_optional {
        seq!["optional"@]
    } else {
        Seq::<Seq<char>>::empty()
    });
    assert(string_views(flags@) =~= want);
    if flags.len() == 0 {
        String::new()
    } else {
        let mut out = String::from_str(" [");
        let joined = crate::text::join_strings(&flags, ", ");
        out.append(joined.as_str());
        out.append("]");
        out
    }
}

/// What the IDL mode does for the next account of an instruction.
#[derive(Debug, Clone, PartialEq, Eq)]
pub enum AccountStep {
    /// The IDL fixes the address (system program, token program, ...).
    Fixed(String),
    /// The address was derived from PDA seeds already collected.
    Derived(String),
    /// Ask the user; carries why derivation failed when it was tried and failed.
    Prompt(Option<SolanaError>),
}

pub enum AccountStepView {
    Fixed(Seq<char>),
    Derived(Seq<char>),
    Prompt(Option<SolanaErrorView>),
}

impl View for AccountStep {
    type V = AccountStepView;

    open spec fn view(&self) -> AccountStepView {
        match *self {
            AccountStep::Fixed(s) => AccountStepView::Fixed(s@),
            AccountStep::Derived(s) => AccountStepView::Derived(s@),
            AccountStep::Prompt(e) => AccountStepView::Prompt(
                match e {
                    Some(x) => Some(x@),
                    None => None,
                },
            ),
        }
    }
}

/// The step for an account: its fixed address; else, for a PDA whose seeds are all
/// available, the derived address (or a prompt with the derivation error); else a prompt.
pub open spec fn account_step(acc: IdlAccount, ix: IdlInstruction, accounts: Map<Seq<char>, String>, values: Map<Seq<char>, ArgValue>, program_id: Seq<char>) -> AccountStepView {
    match acc.address {
        Some(a) => AccountStepView::Fixed(a@),
        None => match acc.pda {
            Some(p) => match seeds_resolution(p.seeds@, ix.args@, accounts, values) {
                Some(sb) => match program_address(sb, program_id) {
                    Ok((addr, _)) => AccountStepView::Derived(addr),
                    Err(e) => AccountStepView::Prompt(Some(e)),
                },
                None => AccountStepView::Prompt(None),
            },
            None => AccountStepView::Prompt(None),
        },
    }
}

/// The accounts collected so far for an instruction in IDL mode, in IDL order as
/// (name, pubkey, signer, writable), the same by name, and the fee payer chosen so far.
#[derive(Debug, Clone, PartialEq, Eq)]
pub struct AccountCollection {
    pub accounts: Vec<(String, String, bool, bool)>,
    pub by_name: StrMap<String>,
    pub fee_payer: String,
}

impl AccountCollection {
    pub open spec fn wf(self) -> bool {
        self.by_name.wf()
    }

    /// Nothing collected, no fee payer.
    pub fn new() -> (r: Self)
        ensures
            r.wf(),
            r.accounts@.len() == 0,
            r.by_name.view() == Map::<Seq<char>, String>::empty(),
            r.fee_payer@.len() == 0,
    {
        AccountCollection { accounts: Vec::new(), by_name: StrMap::new(), fee_payer: String::new() }
    }

    /// What to do for the account `acc` of `ix` (see `account_step`).
    pub fn next_step(&self, ix: &IdlInstruction, acc: &IdlAccount, args: &StrMap<ArgValue>, program_id: &str) -> (r: AccountStep)
        requires
            self.wf(),
            args.wf(),
        ensures
            r@ == account_step(*acc, *ix, self.by_name.view(), args.view(), program_id@),
    {
        if let Some(fixed) = &acc.address {
            return AccountStep::Fixed(fixed.clone());
        }
        if let Some(pda) = &acc.pda {
            match crate::idl::resolve_pda_seeds(pda, ix, &self.by_name, args) {
                Some(seed_bytes) => {
                    assert(seed_bytes@.map_values(|b: Vec<u8>| b@) =~= crate::solana::seed_views(seed_bytes@));
                    return match find_program_address(seed_bytes.as_slice(), program_id) {
                        Ok((addr, _)) => AccountStep::Derived(addr),
                        Err(e) => AccountStep::Prompt(Some(e)),
                    };
                },
                None => {
                    return AccountStep::Prompt(None);
                },
            }
        }
        AccountStep::Prompt(None)
    }

    /// Records the address of `acc` (see `record_account`).
    pub fn record(&mut self, acc: &IdlAccount, pubkey: String, prompted: bool)
        requires
            old(self).wf(),
        ensures
            final(self).wf(),
            final(self).accounts@.len() == old(self).accounts@.len() + 1,
            forall|k: int| 0 <= k < old(self).accounts@.len() ==> #[trigger] final(self).accounts@[k] == old(self).accounts@[k],
            final(self).accounts@.last().0@ == acc.name@,
            final(self).accounts@.last().1 == pubkey,
            final(self).accounts@.last().2 == acc.signer,
            final(self).accounts@.last().3 == acc.writable,
            final(self).by_name.view() == old(self).by_name.view().insert(acc.name@, pubkey),
            final(self).fee_payer@ == if prompted && old(self).fee_payer@.len() == 0 && payer_like(acc.name@, acc.signer) {
                pubkey@
            } else {
                old(self).fee_payer@
            },
    {
        self.record_account(&acc.name, acc.signer, acc.writable, pubkey, prompted)
    }

    /// Records the address of the account called `name`; an address the user typed
    /// becomes the fee payer when none is chosen yet and the account can pay (see
    /// `payer_like`).
    pub fn record_account(&mut self, name: &String, signer: bool, writable: bool, pubkey: String, prompted: bool)
        requires
            old(self).wf(),
        ensures
            final(self).wf(),
            final(self).accounts@.len() == old(self).accounts@.len() + 1,
            forall|k: int| 0 <= k < old(self).accounts@.len() ==> #[trigger] final(self).accounts@[k] == old(self).accounts@[k],
            final(self).accounts@.last().0@ == name@,
            final(self).accounts@.last().1 == pubkey,
            final(self).accounts@.last().2 == signer,
            final(self).accounts@.last().3 == writable,
            final(self).by_name.view() == old(self).by_name.view().insert(name@, pubkey),
            final(self).fee_payer@ == if prompted && old(self).fee_payer@.len() == 0 && payer_like(name@, signer) {
                pubkey@
            } else {
                old(self).fee_payer@
            },
    {
        if prompted && self.fee_payer.as_str().is_empty() && is_fee_payer_candidate(name.as_str(), signer) {
            self.fee_payer = pubkey.clone();
        }
        self.accounts.push((name.clone(), pubkey.clone(), signer, writable));
        self.by_name.insert(name.clone(), pubkey);
    }
}

/// The positions of the first occurrence of each name.
pub open spec fn first_indices(names: Seq<Seq<char>>) -> Seq<int>
    decreases names.len(),
{
    if names.len() == 0 {
        Seq::empty()
    } else if exists|j: int| 0 <= j < names.len() - 1 && #[trigger] names[j] == names.last() {
        first_indices(names.drop_last())
    } else {
        first_indices(names.drop_last()).push(names.len() - 1)
    }
}

/// Whether one of the first `k` names is `x`.
pub open spec fn among_first(v: Seq<Seq<char>>, k: int, x: Seq<char>) -> bool {
    exists|j: int| 0 <= j < k && #[trigger] v[j] == x
}

/// Whether some string in `seen` holds `x`.
pub open spec fn has_name(seen: Seq<String>, x: Seq<char>) -> bool {
    exists|m: int| 0 <= m < seen.len() && #[trigger] seen[m]@ == x
}

fn contains_name(seen: &Vec<String>, name: &String) -> (r: bool)
    ensures
        r == has_name(seen@, name@),
{
    let mut i: usize = 0;
    while i < seen.len()
        invariant
            i <= seen@.len(),
            forall|m: int| 0 <= m < i ==> #[trigger] seen@[m]@ != name@,
        decreases seen@.len() - i,
    {
        if seen[i] == *name {
            return true;
        }
        i += 1;
    }
    false
}

/// The positions of the first occurrence of each name, in order (deduplication by name).
pub fn first_by_name(names: &Vec<String>) -> (r: Vec<usize>)
    ensures
        r@.map_values(|i: usize| i as int) == first_indices(string_views(names@)),
{
    let ghost v = string_views(names@);
    let mut seen: Vec<String> = Vec::new();
    let mut out: Vec<usize> = Vec::new();
    let mut k: usize = 0;
    assert(v.take(0) =~= Seq::<Seq<char>>::empty());
    assert(out@.map_values(|i: usize| i as int) =~= Seq::<int>::empty());
    while k < names.len()
        invariant
            k <= names@.len(),
            v == string_views(names@),
            out@.map_values(|i: usize| i as int) == first_indices(v.take(k as int)),
            forall|j: int| 0 <= j < k ==> has_name(seen@, #[trigger] v[j]),
            forall|m: int| 0 <= m < seen@.len() ==> among_first(v, k as int, #[trigger] seen@[m]@),
        decreases names@.len() - k,
    {
        let ghost t = v.take(k + 1);
        assert(t.drop_last() =~= v.take(k as int));
        assert(t.last() == v[k as int]);
        let name = &names[k];
        let ghost before = out@;
        let ghost seen_before = seen@;
        if contains_name(&seen, name) {
            proof {
                let m = choose|m: int| 0 <= m < seen@.len() && #[trigger] seen@[m]@ == name@;
                assert(among_first(v, k as int, seen@[m]@));
                let j = choose|j: int| 0 <= j < k && #[trigger] v[j] == seen@[m]@;
                assert(t[j] == t.last());
            }
        } else {
            proof {
                assert forall|j: int| 0 <= j < t.len() - 1 implies #[trigger] t[j] != t.last() by {
                    assert(t[j] == v[j]);
                    assert(has_name(seen@, v[j]));
                }
            }
            out.push(k);
            assert(out@.map_values(|i: usize| i as int) =~= before.map_values(|i: usize| i as int).push(k as int));
            seen.push(name.clone());
            proof {
                assert forall|j: int| 0 <= j < k implies has_name(seen@, #[trigger] v[j]) by {
                    let m = choose|m: int| 0 <= m < seen_before.len() && #[trigger] seen_before[m]@ == v[j];
                    assert(seen@[m] == seen_before[m]);
                }
                assert(seen@[seen@.len() - 1]@ == v[k as int]);
                assert forall|m: int| 0 <= m < seen@.len() implies among_first(v, k + 1, #[trigger] seen@[m]@) by {
                    if m < seen_before.len() {
                        assert(seen@[m] == seen_before[m]);
                        assert(among_first(v, k as int, seen_before[m]@));
                        let j = choose|j: int| 0 <= j < k && #[trigger] v[j] == seen_before[m]@;
                        assert(v[j] == seen@[m]@);
                    } else {
                        assert(v[k as int] == seen@[m]@);
                    }
                }
            }
        }
        proof {
            assert(has_name(seen@, v[k as int]));
            assert forall|m: int| 0 <= m < seen@.len() implies among_first(v, k + 1, #[trigger] seen@[m]@) by {
                if m < seen_before.len() {
                    assert(among_first(v, k as int, seen_before[m]@));
                    let j = choose|j: int| 0 <= j < k && #[trigger] v[j] == seen_before[m]@;
                    assert(v[j] == seen@[m]@);
                } else {
                    assert(v[k as int] == seen@[m]@);
                }
            }
        }
        k += 1;
    }
    assert(v.take(names@.len() as int) =~= v);
    out
}

/// The first position holding `name` (`Iterator::position`).
pub fn find_name(names: &Vec<String>, name: &str) -> (r: Option<usize>)
    ensures
        match r {
            Some(i) => i < names@.len() && names@[i as int]@ == name@ && forall|j: int| 0 <= j < i ==> #[trigger] names@[j]@ != name@,
            None => forall|j: int| 0 <= j < names@.len() ==> #[trigger] names@[j]@ != name@,
        },
{
    let target = name.to_owned();
    let mut i: usize = 0;
    while i < names.len()
        invariant
            i <= names@.len(),
            target@ == name@,
            forall|j: int| 0 <= j < i ==> #[trigger] names@[j]@ != name@,
        decreases names@.len() - i,
    {
        if names[i] == target {
            return Some(i);
        }
        i += 1;
    }
    None
}

/// The instruction called `name`, by position.
pub fn find_instruction(ixs: &Vec<Instruction>, name: &str) -> (r: Option<usize>)
    ensures
        match r {
            Some(i) => i < ixs@.len() && ixs@[i as int].name@ == name@ && forall|j: int| 0 <= j < i ==> #[trigger] ixs@[j].name@ != name@,
            None => forall|j: int| 0 <= j < ixs@.len() ==> #[trigger] ixs@[j].name@ != name@,
        },
{
    let mut i: usize = 0;
    while i < ixs.len()
        invariant
            i <= ixs@.len(),
            forall|j: int| 0 <= j < i ==> #[trigger] ixs@[j].name@ != name@,
        decreases ixs@.len() - i,
    {
        if str_eq(ixs[i].name.as_str(), name) {
            return Some(i);
        }
        i += 1;
    }
    None
}

/// The (instruction, account) positions of every IDL account with a PDA definition, in order.
pub open spec fn pda_positions_of(ixs: Seq<IdlInstruction>) -> Seq<(int, int)>
    decreases ixs.len(),
{
    if ixs.len() == 0 {
        Seq::empty()
    } else {
        pda_positions_of(ixs.drop_last()) + pda_positions_in(ixs.len() - 1, ixs.last().accounts@)
    }
}

pub open spec fn pda_positions_in(i: int, accs: Seq<IdlAccount>) -> Seq<(int, int)>
    decreases accs.len(),
{
    if accs.len() == 0 {
        Seq::empty()
    } else if accs.last().pda is Some {
        pda_positions_in(i, accs.drop_last()).push((i, accs.len() - 1))
    } else {
        pda_positions_in(i, accs.drop_last())
    }
}

pub open spec fn position_views(v: Seq<(usize, usize)>) -> Seq<(int, int)> {
    v.map_values(|p: (usize, usize)| (p.0 as int, p.1 as int))
}

/// Where the PDA accounts of an IDL are, as (instruction, account) positions.
pub fn pda_positions(idl: &SolanaIdl) -> (r: Vec<(usize, usize)>)
    ensures
        position_views(r@) == pda_positions_of(idl.instructions@),
{
    let ghost ixs = idl.instructions@;
    let mut out: Vec<(usize, usize)> = Vec::new();
    let mut i: usize = 0;
    assert(ixs.take(0) =~= Seq::<IdlInstruction>::empty());
    assert(position_views(out@) =~= Seq::<(int, int)>::empty());
    while i < idl.instructions.len()
        invariant
            i <= ixs.len(),
            ixs == idl.instructions@,
            position_views(out@) == pda_positions_of(ixs.take(i as int)),
        decreases ixs.len() - i,
    {
        let accs = &idl.instructions[i].accounts;
        let ghost start = position_views(out@);
        let mut k: usize = 0;
        assert(accs@.take(0) =~= Seq::<IdlAccount>::empty());
        assert(start + pda_positions_in(i as int, accs@.take(0)) =~= start);
        while k < accs.len()
            invariant
                k <= accs@.len(),
                position_views(out@) == start + pda_positions_in(i as int, accs@.take(k as int)),
            decreases accs@.len() - k,
        {
            let ghost t = accs@.take(k + 1);
            assert(t.drop_last() =~= accs@.take(k as int));
            assert(t.last() == accs@[k as int]);
            if accs[k].pda.is_some() {
                let ghost before = out@;
                out.push((i, k));
                assert(position_views(out@) =~= position_views(before).push((i as int, k as int)));
            }
            k += 1;
        }
        proof {
            assert(accs@.take(accs@.len() as int) =~= accs@);
            assert(ixs.take(i + 1).drop_last() =~= ixs.take(i as int));
            assert(ixs.take(i + 1).last() == idl.instructions@[i as int]);
        }
        i += 1;
    }
    assert(ixs.take(ixs.len() as int) =~= ixs);
    out
}

/// The names of the argument seeds of a PDA account (kind `arg`), `?` where unnamed.
pub open spec fn arg_seed_names(seeds: Seq<PdaSeed>) -> Seq<Seq<char>>
    decreases seeds.len(),
{
    if seeds.len() == 0 {
        Seq::empty()
    } else if seeds.last().kind@ == "arg"@ {
        arg_seed_names(seeds.drop_last()).push(
            match seeds.last().name {
                Some(n) => n@,
                None => "?"@,
            },
        )
    } else {
        arg_seed_names(seeds.drop_last())
    }
}

/// A label with its seed names, such as `vault (owner, id)`, or the bare name when there are none.
pub open spec fn labelled(name: Seq<char>, names: Seq<Seq<char>>) -> Seq<char> {
    if names.len() == 0 {
        name
    } else {
        name + " ("@ + join(names, ", "@) + ")"@
    }
}

fn label_with(name: &String, names: &Vec<String>) -> (r: String)
    ensures
        r@ == labelled(name@, string_views(names@)),
{
    if names.len() == 0 {
        name.clone()
    } else {
        let mut out = name.clone();
        out.append(" (");
        let joined = crate::text::join_strings(names, ", ");
        out.append(joined.as_str());
        out.append(")");
        out
    }
}

/// How a PDA account is offered in API mode: its account name and its argument seeds.
pub fn pda_account_label(p: &PdaAccount) -> (r: String)
    ensures
        r@ == labelled(p.account@, arg_seed_names(p.seeds@)),
{
    let mut names: Vec<String> = Vec::new();
    let mut i: usize = 0;
    assert(p.seeds@.take(0) =~= Seq::<PdaSeed>::empty());
    assert(string_views(names@) =~= Seq::<Seq<char>>::empty());
    while i < p.seeds.len()
        invariant
            i <= p.seeds@.len(),
            string_views(names@) == arg_seed_names(p.seeds@.take(i as int)),
        decreases p.seeds@.len() - i,
    {
        let ghost t = p.seeds@.take(i + 1);
        assert(t.drop_last() =~= p.seeds@.take(i as int));
        assert(t.last() == p.seeds@[i as int]);
        let sd = &p.seeds[i];
        if str_eq(sd.kind.as_str(), "arg") {
            let n = match &sd.name {
                Some(n) => n.clone(),
                None => String::from_str("?"),
            };
            let ghost before = names@;
            names.push(n);
            assert(string_views(names@) =~= string_views(before).push(n@));
        }
        i += 1;
    }
    assert(p.seeds@.take(p.seeds@.len() as int) =~= p.seeds@);
    label_with(&p.account, &names)
}

/// The paths of the non-constant seeds of an IDL account's PDA.
pub open spec fn idl_seed_paths(seeds: Seq<IdlSeed>) -> Seq<Seq<char>>
    decreases seeds.len(),
{
    if seeds.len() == 0 {
        Seq::empty()
    } else if seeds.last().kind@ != "const"@ && seeds.last().path is Some {
        idl_seed_paths(seeds.drop_last()).push(seeds.last().path.unwrap()@)
    } else {
        idl_seed_paths(seeds.drop_last())
    }
}

/// How a PDA account is offered in IDL mode: its name and the paths of its non-constant seeds.
pub fn idl_pda_label(acc: &IdlAccount) -> (r: String)
    ensures
        r@ == labelled(
            acc.name@,
            match acc.pda {
                Some(p) => idl_seed_paths(p.seeds@),
                None => Seq::<Seq<char>>::empty(),
            },
        ),
{
    let mut names: Vec<String> = Vec::new();
    assert(string_views(names@) =~= Seq::<Seq<char>>::empty());
    if let Some(p) = &acc.pda {
        let mut i: usize = 0;
        assert(p.seeds@.take(0) =~= Seq::<IdlSeed>::empty());
        while i < p.seeds.len()
            invariant
                i <= p.seeds@.len(),
                string_views(names@) == idl_seed_paths(p.seeds@.take(i as int)),
            decreases p.seeds@.len() - i,
        {
            let ghost t = p.seeds@.take(i + 1);
            assert(t.drop_last() =~= p.seeds@.take(i as int));
            assert(t.last() == p.seeds@[i as int]);
            let sd = &p.seeds[i];
            if !str_eq(sd.kind.as_str(), "const") {
                if let Some(path) = &sd.path {
                    let ghost before = names@;
                    names.push(path.clone());
                    assert(string_views(names@) =~= string_views(before).push(path@));
                }
            }
            i += 1;
        }
        assert(p.seeds@.take(p.seeds@.len() as int) =~= p.seeds@);
    }
    label_with(&acc.name, &names)
}

/// Whether API mode asks for a seed's value: argument and account seeds.
pub fn is_prompted_seed(seed: &PdaSeed) -> (r: bool)
    ensures
        r == (seed.kind@ == "arg"@ || seed.kind@ == "account"@),
{
    str_eq(seed.kind.as_str(), "arg") || str_eq(seed.kind.as_str(), "account")
}

/// The name and type that API mode shows when asking for a seed's value: the seed's
/// name (or `value`), and `publicKey` for account seeds, else its type (or `string`).
pub fn seed_prompt(seed: &PdaSeed) -> (r: (String, String))
    ensures
        r.0@ == match seed.name {
            Some(n) => n@,
            None => "value"@,
        },
        r.1@ == if seed.kind@ == "account"@ {
            "publicKey"@
        } else {
            match seed.ty {
                Some(t) => t@,
                None => "string"@,
            }
        },
{
    let name = match &seed.name {
        Some(n) => n.clone(),
        None => String::from_str("value"),
    };
    let ty = if str_eq(seed.kind.as_str(), "account") {
        String::from_str("publicKey")
    } else {
        match &seed.ty {
            Some(t) => t.clone(),
            None => String::from_str("string"),
        }
    };
    (name, ty)
}

/// What the PDA finder of IDL mode needs for one seed.
#[derive(Debug, Clone, PartialEq, Eq)]
pub enum SeedInput {
    /// A constant seed and its bytes (none when the IDL gives no value).
    Constant(Vec<u8>),
    /// An argument seed: ask for a value of the argument's type.
    Argument { name: String, ty: String },
    /// An account seed: ask for a public key.
    Account { name: String },
    /// A seed kind the finder does not know ("Unknown seed kind '{kind}' in IDL").
    UnknownKind(String),
}

/// What to ask for a seed of `ix`: constant bytes; for an argument, its path (or
/// `value`) and that argument's type; for an account, its path (or `account`).
pub fn seed_input(seed: &IdlSeed, ix: &IdlInstruction) -> (r: SeedInput)
    ensures
        seed.kind@ == "const"@ ==> (r matches SeedInput::Constant(b) && b@ == match seed.value {
            Some(v) => v@,
            None => Seq::<u8>::empty(),
        }),
        seed.kind@ != "const"@ && seed.kind@ == "arg"@ ==> (r matches SeedInput::Argument { name, ty } && name@ == match seed.path {
            Some(p) => p@,
            None => "value"@,
        } && ty@ == arg_type_name(ix.args@, name@)),
        seed.kind@ != "const"@ && seed.kind@ != "arg"@ && seed.kind@ == "account"@ ==> (r matches SeedInput::Account { name } && name@ == match seed.path {
            Some(p) => p@,
            None => "account"@,
        }),
        seed.kind@ != "const"@ && seed.kind@ != "arg"@ && seed.kind@ != "account"@ ==> (r matches SeedInput::UnknownKind(k) && k@ == seed.kind@),
{
    if str_eq(seed.kind.as_str(), "const") {
        match &seed.value {
            Some(v) => SeedInput::Constant(copy_bytes(v.as_slice())),
            None => SeedInput::Constant(Vec::new()),
        }
    } else if str_eq(seed.kind.as_str(), "arg") {
        let name = match &seed.path {
            Some(p) => p.clone(),
            None => String::from_str("value"),
        };
        let ty = arg_type_of(&ix.args, name.as_str());
        SeedInput::Argument { name, ty }
    } else if str_eq(seed.kind.as_str(), "account") {
        let name = match &seed.path {
            Some(p) => p.clone(),
            None => String::from_str("account"),
        };
        SeedInput::Account { name }
    } else {
        SeedInput::UnknownKind(seed.kind.clone())
    }
}

/// The seed bytes of a typed argument value: the input read as its type hint (see
/// `coerced`), then encoded as a raw seed of that type (see `seed_encoding`).
pub fn arg_seed_bytes(raw: &str, ty: &str) -> (r: Result<Vec<u8>, ValueError>)
    ensures
        exists|v: ArgValue| coerced(raw@, lowercase(ty@), v) && crate::borsh::bytes_outcome(
            r,
            seed_encoding(v, lowercase(ty@), ty@),
        ),
{
    let v = coerce_value(raw, ty);
    seed_bytes_from_value(&v, ty)
}

/// Why a typed public key is not a seed.
#[derive(Debug, Clone, PartialEq, Eq)]
pub enum AccountSeedError {
    /// "Invalid pubkey for seed": the text.
    InvalidPubkey(String),
    /// "Pubkey must decode to 32 bytes"
    PubkeyLength,
}

/// The seed bytes of a typed public key: its base58 bytes, which must be 32.
pub fn account_seed_bytes(raw: &str) -> (r: Result<Vec<u8>, AccountSeedError>)
    ensures
        match base58_decoded(raw@) {
            None => r matches Err(AccountSeedError::InvalidPubkey(s)) && s@ == raw@,
            Some(b) => if b.len() == 32 {
                r matches Ok(v) && v@ == b
            } else {
                r == Err::<Vec<u8>, AccountSeedError>(AccountSeedError::PubkeyLength)
            },
        },
{
    match base58_decode(raw) {
        None => Err(AccountSeedError::InvalidPubkey(raw.to_owned())),
        Some(b) => if b.len() == 32 {
            Ok(b)
        } else {
            Err(AccountSeedError::PubkeyLength)
        },
    }
}

/// How an instruction is offered in API mode: its name, and ` — ` and its first doc line when it has one.
pub fn instruction_label(ix: &Instruction) -> (r: String)
    ensures
        r@ == if ix.docs@.len() > 0 {
            ix.name@ + " — "@ + ix.docs@[0]@
        } else {
            ix.name@
        },
{
    let mut out = ix.name.clone();
    if ix.docs.len() > 0 {
        out.append(" — ");
        out.append(ix.docs[0].as_str());
    }
    out
}

/// The arguments of an instruction as listed in IDL mode: `name: type` joined by
/// commas, or `(no args)`.
pub open spec fn args_text(ix: Instruction) -> Seq<char> {
    if ix.args@.len() == 0 {
        "(no args)"@
    } else {
        join(
            ix.args@.map_values(
                |a: crate::api::InstructionArg|
                    a.name@ + ": "@ + match a.ty {
                        crate::api::IdlType::Simple(s) => s@,
                        crate::api::IdlType::Complex(s) => s@,
                    },
            ),
            ", "@,
        )
    }
}

pub fn args_summary(ix: &Instruction) -> (r: String)
    ensures
        r@ == args_text(*ix),
{
    if ix.args.len() == 0 {
        return String::from_str("(no args)");
    }
    let mut parts: Vec<String> = Vec::new();
    let mut i: usize = 0;
    while i < ix.args.len()
        invariant
            i <= ix.args@.len(),
            string_views(parts@) == ix.args@.take(i as int).map_values(
                |a: crate::api::InstructionArg|
                    a.name@ + ": "@ + match a.ty {
                        crate::api::IdlType::Simple(s) => s@,
                        crate::api::IdlType::Complex(s) => s@,
                    },
            ),
        decreases ix.args@.len() - i,
    {
        let a = &ix.args[i];
        let mut part = a.name.clone();
        part.append(": ");
        let ty = a.ty.to_display_string();
        part.append(ty.as_str());
        let ghost before = parts@;
        parts.push(part);
        assert(string_views(parts@) =~= string_views(before).push(part@));
        assert(ix.args@.take(i + 1) =~= ix.args@.take(i as int).push(*a));
        i += 1;
    }
    assert(ix.args@.take(ix.args@.len() as int) =~= ix.args@);
    crate::text::join_strings(&parts, ", ")
}

/// The text of an optional value, empty when unset.
pub open spec fn answer_text(v: Option<String>) -> Seq<char> {
    match v {
        Some(s) => s@,
        None => Seq::<char>::empty(),
    }
}

/// The answers `config reset` offers as defaults, in prompt order: program id, RPC
/// URL, keypair path, API base URL, IDL path. The current values, with the RPC URL
/// and API base in effect (the defaults where unset).
pub open spec fn reset_answers(c: Config) -> (Seq<char>, Seq<char>, Seq<char>, Seq<char>, Seq<char>) {
    (answer_text(c.project_id), effective_rpc(c), answer_text(c.keypair_path), effective_api_base(c), answer_text(c.idl_path))
}

/// `after` is what `config reset` makes of `before` from the answers (program id,
/// RPC URL, keypair path, API base URL, IDL path) and the API key answer: empty
/// answers clear a field, others are trimmed; an empty API key answer keeps the key,
/// any other replaces it as typed.
pub open spec fn reset_applied(
    before: Config,
    after: Config,
    answers: (Seq<char>, Seq<char>, Seq<char>, Seq<char>, Seq<char>),
    api_key: Seq<char>,
) -> bool {
    &&& opt_view(after.project_id) == normalized(Some(answers.0))
    &&& api_key.len() == 0 ==> after.api_key == before.api_key
    &&& api_key.len() > 0 ==> opt_view(after.api_key) == Some(api_key)
    &&& opt_view(after.rpc_url) == normalized(Some(answers.1))
    &&& opt_view(after.keypair_path) == normalized(Some(answers.2))
    &&& opt_view(after.api_base_url) == normalized(Some(answers.3))
    &&& opt_view(after.idl_path) == normalized(Some(answers.4))
}

/// Applies what `config reset` collected (see `reset_applied`).
pub fn apply_config_reset(config: &mut Config, project_id: String, api_key: String, rpc_url: String, keypair_path: String, api_base: String, idl_path: String)
    ensures
        reset_applied(*old(config), *final(config), (project_id@, rpc_url@, keypair_path@, api_base@, idl_path@), api_key@),
        api_key@.len() > 0 ==> final(config).api_key == Some(api_key),
{
    config.project_id = non_empty(project_id);
    if !api_key.as_str().is_empty() {
        config.api_key = Some(api_key);
    }
    config.rpc_url = non_empty(rpc_url);
    config.keypair_path = non_empty(keypair_path);
    config.api_base_url = non_empty(api_base);
    config.idl_path = non_empty(idl_path);
}

/// The answers `config reset` offers as defaults (see `reset_answers`).
pub fn reset_defaults(config: &Config) -> (r: (String, String, String, String, String))
    ensures
        (r.0@, r.1@, r.2@, r.3@, r.4@) == reset_answers(*config),
{
    let project = match &config.project_id {
        Some(s) => s.clone(),
        None => String::new(),
    };
    let rpc = match &config.rpc_url {
        Some(s) => s.clone(),
        None => String::from_str(crate::config::default_rpc_str()),
    };
    let keypair = match &config.keypair_path {
        Some(s) => s.clone(),
        None => String::new(),
    };
    let base = match &config.api_base_url {
        Some(s) => s.clone(),
        None => String::from_str(crate::config::default_api_base_str()),
    };
    let idl = match &config.idl_path {
        Some(s) => s.clone(),
        None => String::new(),
    };
    (project, rpc, keypair, base, idl)
}


/// Why IDL mode could not build a transaction.
#[derive(Debug, Clone, PartialEq, Eq)]
pub enum BuildError {
    /// The arguments could not be encoded.
    Args(ArgsError),
    /// The message could not be compiled.
    Message(MessageError),
}

pub enum BuildErrorView {
    Args(ArgsErrorView),
    Message(MessageErrorView),
}

impl View for BuildError {
    type V = BuildErrorView;

    open spec fn view(&self) -> BuildErrorView {
        match *self {
            BuildError::Args(e) => BuildErrorView::Args(e@),
            BuildError::Message(e) => BuildErrorView::Message(e@),
        }
    }
}

/// The accounts collected in IDL order as (pubkey, signer, writable).
pub open spec fn account_triples(accounts: Seq<(String, String, bool, bool)>) -> Seq<(String, bool, bool)> {
    accounts.map_values(|a: (String, String, bool, bool)| (a.1, a.2, a.3))
}

/// The unsigned message that IDL mode builds for `ix`: its discriminator and the
/// Borsh encoding of the argument values as instruction data, the collected accounts
/// in IDL order, the fee payer and the program (see `unsigned_message`).
pub open spec fn idl_transaction(
    ix: IdlInstruction,
    values: Map<Seq<char>, ArgValue>,
    accounts: Seq<(String, String, bool, bool)>,
    fee_payer: Seq<char>,
    program_id: Seq<char>,
) -> Result<Seq<u8>, BuildErrorView> {
    match args_encoding(ix.args@, values) {
        Err(e) => Err(BuildErrorView::Args(e)),
        Ok(a) => match unsigned_message(fee_payer, program_id, account_triples(accounts), ix.discriminator@ + a) {
            Err(e) => Err(BuildErrorView::Message(e)),
            Ok(m) => Ok(m),
        },
    }
}

/// Builds the unsigned transaction of IDL mode as base58 text (see `idl_transaction`).
pub fn build_idl_transaction(
    ix: &IdlInstruction,
    args: &StrMap<ArgValue>,
    accounts: &Vec<(String, String, bool, bool)>,
    fee_payer: &str,
    program_id: &str,
) -> (r: Result<String, BuildError>)
    requires
        args.wf(),
    ensures
        match r {
            Ok(s) => exists|m: Seq<u8>|
                idl_transaction(*ix, args.view(), accounts@, fee_payer@, program_id@) == Ok::<Seq<u8>, BuildErrorView>(m)
                    && s@ == base58_encoded(m) && base58_decoded(s@) == Some(m),
            Err(e) => idl_transaction(*ix, args.view(), accounts@, fee_payer@, program_id@) == Err::<
                Seq<u8>,
                BuildErrorView,
            >(e@),
        },
{
    let arg_bytes = match borsh_encode_args(ix.args.as_slice(), args) {
        Ok(b) => b,
        Err(e) => {
            return Err(BuildError::Args(e));
        },
    };
    let data = build_instruction_data(ix.discriminator.as_slice(), arg_bytes.as_slice());
    let mut triples: Vec<(String, bool, bool)> = Vec::new();
    let mut i: usize = 0;
    while i < accounts.len()
        invariant
            i <= accounts@.len(),
            triples@ == account_triples(accounts@).take(i as int),
        decreases accounts@.len() - i,
    {
        let a = &accounts[i];
        triples.push((a.1.clone(), a.2, a.3));
        proof {
            assert(triples@ =~= account_triples(accounts@).take(i + 1));
        }
        i += 1;
    }
    assert(triples@ =~= account_triples(accounts@));
    match encode_unsigned_message(fee_payer, program_id, triples.as_slice(), data.as_slice()) {
        Ok(s) => Ok(s),
        Err(e) => Err(BuildError::Message(e)),
    }
}

} // verus!
