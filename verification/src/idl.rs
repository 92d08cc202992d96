//! Local Solana/Anchor IDL files: their contents, and the instructions and PDA
//! accounts that the command line reads from them.

use vstd::prelude::*;
use vstd::utf8::{decode_utf8, valid_utf8};
use crate::api::{IdlType, Instruction, InstructionAccount, InstructionArg, PdaAccount, PdaDefinition, PdaSeed};
use crate::borsh::{seed_bytes_from_value, seed_encoding};
use crate::codecs::{base58_decode, base58_decoded, lowercase, string_from_utf8};
use crate::numbers::{decimal, decimal_of};
use crate::strmap::StrMap;
use crate::text::{push_char, str_eq};
use crate::values::ArgValue;

verus! {

/// Top-level Solana/Anchor IDL file (native JSON format).
#[derive(Debug, Clone, PartialEq, Eq)]
pub struct SolanaIdl {
    pub address: String,
    pub instructions: Vec<IdlInstruction>,
}

#[derive(Debug, Clone, PartialEq, Eq)]
pub struct IdlInstruction {
    pub name: String,
    pub discriminator: Vec<u8>,
    pub accounts: Vec<IdlAccount>,
    pub args: Vec<IdlArg>,
}

#[derive(Debug, Clone, PartialEq, Eq)]
pub struct IdlAccount {
    pub name: String,
    pub writable: bool,
    pub signer: bool,
    /// Hardcoded program address (e.g. system_program, token_program).
    pub address: Option<String>,
    /// PDA definition — when present this account can be auto-derived.
    pub pda: Option<IdlPda>,
}

#[derive(Debug, PartialEq, Eq)]
pub struct IdlPda {
    pub seeds: Vec<IdlSeed>,
}

#[derive(Debug, PartialEq, Eq)]
pub struct IdlSeed {
    /// "const" | "arg" | "account"
    pub kind: String,
    /// Raw byte array for `const` seeds.
    pub value: Option<Vec<u8>>,
    /// Arg name or account name for `arg` / `account` seeds.
    pub path: Option<String>,
    /// Optional program override, kept as its JSON text; derivation does not use it.
    pub program: Option<String>,
}

#[derive(Debug, Clone, PartialEq, Eq)]
pub struct IdlArg {
    pub name: String,
    pub ty: IdlType,
}

/// A seed as values: kind, constant bytes, path, program.
pub type SeedView = (Seq<char>, Option<Seq<u8>>, Option<Seq<char>>, Option<Seq<char>>);

pub open spec fn opt_bytes_view(v: Option<Vec<u8>>) -> Option<Seq<u8>> {
    match v {
        Some(b) => Some(b@),
        None => None,
    }
}

pub open spec fn opt_string_view(v: Option<String>) -> Option<Seq<char>> {
    match v {
        Some(s) => Some(s@),
        None => None,
    }
}

impl View for IdlSeed {
    type V = SeedView;

    open spec fn view(&self) -> SeedView {
        (self.kind@, opt_bytes_view(self.value), opt_string_view(self.path), opt_string_view(self.program))
    }
}

impl View for IdlPda {
    type V = Seq<SeedView>;

    open spec fn view(&self) -> Seq<SeedView> {
        self.seeds@.map_values(|s: IdlSeed| s@)
    }
}

/// A copy of `v`.
pub fn copy_bytes(v: &[u8]) -> (r: Vec<u8>)
    ensures
        r@ == v@,
{
    let mut out: Vec<u8> = Vec::new();
    let mut i: usize = 0;
    while i < v.len()
        invariant
            i <= v@.len(),
            out@ == v@.take(i as int),
        decreases v@.len() - i,
    {
        out.push(v[i]);
        i += 1;
        assert(out@ =~= v@.take(i as int));
    }
    assert(out@ =~= v@);
    out
}

fn copy_opt_string(v: &Option<String>) -> (r: Option<String>)
    ensures
        r == *v,
{
    match v {
        Some(s) => Some(s.clone()),
        None => None,
    }
}

impl Clone for IdlSeed {
    fn clone(&self) -> (r: Self)
        ensures
            r@ == self@,
    {
        IdlSeed {
            kind: self.kind.clone(),
            value: match &self.value {
                Some(b) => Some(copy_bytes(b.as_slice())),
                None => None,
            },
            path: copy_opt_string(&self.path),
            program: copy_opt_string(&self.program),
        }
    }
}

impl Clone for IdlPda {
    fn clone(&self) -> (r: Self)
        ensures
            r@ == self@,
    {
        let mut seeds: Vec<IdlSeed> = Vec::new();
        let mut i: usize = 0;
        while i < self.seeds.len()
            invariant
                i <= self.seeds@.len(),
                seeds@.len() == i,
                forall|k: int| 0 <= k < i ==> #[trigger] seeds@[k]@ == self.seeds@[k]@,
            decreases self.seeds@.len() - i,
        {
            seeds.push(self.seeds[i].clone());
            i += 1;
        }
        let r = IdlPda { seeds };
        assert(r@ =~= self@);
        r
    }
}

/// `r` is `ix` as the interactive prompts take it: same name, no docs, the same
/// arguments, and each account with its flags, never optional, carrying its PDA seeds.
pub open spec fn converted_instruction(ix: IdlInstruction, r: Instruction) -> bool {
    &&& r.name@ == ix.name@
    &&& r.docs@.len() == 0
    &&& r.args@.len() == ix.args@.len()
    &&& forall|j: int| 0 <= j < ix.args@.len() ==> #[trigger] r.args@[j].name@ == ix.args@[j].name@
        && r.args@[j].ty == ix.args@[j].ty
    &&& r.accounts@.len() == ix.accounts@.len()
    &&& forall|j: int| 0 <= j < ix.accounts@.len() ==> converted_account(ix.accounts@[j], #[trigger] r.accounts@[j])
}

pub open spec fn converted_account(a: IdlAccount, r: InstructionAccount) -> bool {
    &&& r.name@ == a.name@
    &&& r.is_mut == a.writable
    &&& r.is_signer == a.signer
    &&& !r.is_optional
    &&& match a.pda {
        None => r.pda is None,
        Some(p) => r.pda matches Some(PdaDefinition::Idl(q)) && q@ == p@,
    }
}

fn convert_instruction(ix: &IdlInstruction) -> (r: Instruction)
    ensures
        converted_instruction(*ix, r),
{
    let mut args: Vec<InstructionArg> = Vec::new();
    let mut j: usize = 0;
    while j < ix.args.len()
        invariant
            j <= ix.args@.len(),
            args@.len() == j,
            forall|k: int| 0 <= k < j ==> #[trigger] args@[k].name@ == ix.args@[k].name@
                && args@[k].ty == ix.args@[k].ty,
        decreases ix.args@.len() - j,
    {
        let a = &ix.args[j];
        let ty = match &a.ty {
            IdlType::Simple(t) => IdlType::Simple(t.clone()),
            IdlType::Complex(t) => IdlType::Complex(t.clone()),
        };
        assert(ty == a.ty);
        let ghost before = args@;
        args.push(InstructionArg { name: a.name.clone(), ty });
        assert(forall|k: int| 0 <= k < j ==> args@[k] == before[k]);
        j += 1;
    }
    let mut accounts: Vec<InstructionAccount> = Vec::new();
    let mut k: usize = 0;
    while k < ix.accounts.len()
        invariant
            k <= ix.accounts@.len(),
            accounts@.len() == k,
            forall|m: int| 0 <= m < k ==> converted_account(ix.accounts@[m], #[trigger] accounts@[m]),
        decreases ix.accounts@.len() - k,
    {
        let a = &ix.accounts[k];
        let pda = match &a.pda {
            Some(p) => Some(PdaDefinition::Idl(p.clone())),
            None => None,
        };
        accounts.push(
            InstructionAccount {
                name: a.name.clone(),
                is_mut: a.writable,
                is_signer: a.signer,
                is_optional: false,
                pda,
            },
        );
        k += 1;
    }
    Instruction { name: ix.name.clone(), docs: Vec::new(), args, accounts }
}

/// Converts an IDL to the instruction list used by the interactive prompts.
pub fn idl_to_instructions(idl: &SolanaIdl) -> (r: Vec<Instruction>)
    ensures
        r@.len() == idl.instructions@.len(),
        forall|i: int| 0 <= i < r@.len() ==> converted_instruction(idl.instructions@[i], #[trigger] r@[i]),
{
    let mut out: Vec<Instruction> = Vec::new();
    let mut i: usize = 0;
    while i < idl.instructions.len()
        invariant
            i <= idl.instructions@.len(),
            out@.len() == i,
            forall|k: int| 0 <= k < i ==> converted_instruction(idl.instructions@[k], #[trigger] out@[k]),
        decreases idl.instructions@.len() - i,
    {
        out.push(convert_instruction(&idl.instructions[i]));
        i += 1;
    }
    out
}

/// The Debug text of a byte vector: `[1, 2, 3]`.
pub open spec fn byte_list_text(v: Seq<u8>) -> Seq<char> {
    seq!['['] + byte_items_text(v) + seq![']']
}

pub open spec fn byte_items_text(v: Seq<u8>) -> Seq<char>
    decreases v.len(),
{
    if v.len() == 0 {
        Seq::<char>::empty()
    } else if v.len() == 1 {
        decimal(v[0] as nat)
    } else {
        byte_items_text(v.drop_last()) + ", "@ + decimal(v.last() as nat)
    }
}

/// Formats bytes as `[1, 2, 3]`.
pub fn byte_list_string(v: &[u8]) -> (r: String)
    ensures
        r@ == byte_list_text(v@),
{
    let mut out = String::new();
    push_char(&mut out, '[');
    let mut i: usize = 0;
    while i < v.len()
        invariant
            i <= v@.len(),
            out@ == seq!['['] + byte_items_text(v@.take(i as int)),
        decreases v@.len() - i,
    {
        let ghost before = out@;
        if i > 0 {
            out.append(", ");
        }
        let d = decimal_of(v[i] as u128);
        out.append(d.as_str());
        proof {
            let t = v@.take(i + 1);
            assert(t.drop_last() =~= v@.take(i as int));
            assert(t.last() == v@[i as int]);
            if i == 0 {
                assert(v@.take(0) =~= Seq::<u8>::empty());
                assert(out@ =~= seq!['['] + byte_items_text(t));
            } else {
                assert(out@ =~= seq!['['] + byte_items_text(t));
            }
        }
        i += 1;
    }
    assert(v@.take(v@.len() as int) =~= v@);
    push_char(&mut out, ']');
    out
}

/// How a constant seed is described: its bytes as UTF-8 text, else their Debug list.
pub open spec fn seed_description(v: Seq<u8>) -> Seq<char> {
    if valid_utf8(v) {
        decode_utf8(v)
    } else {
        byte_list_text(v)
    }
}

/// The type name of the first argument called `path`: its plain type, or `string`
/// when there is no such argument or its type is complex.
pub open spec fn arg_type_name(args: Seq<IdlArg>, path: Seq<char>) -> Seq<char>
    decreases args.len(),
{
    if args.len() == 0 {
        "string"@
    } else if args[0].name@ == path {
        match args[0].ty {
            IdlType::Simple(t) => t@,
            IdlType::Complex(_) => "string"@,
        }
    } else {
        arg_type_name(args.drop_first(), path)
    }
}

/// The type hint of the first argument called `path`, for listing: its plain type,
/// `string` for a complex type, nothing when there is no such argument.
pub open spec fn arg_type_hint(args: Seq<IdlArg>, path: Seq<char>) -> Option<Seq<char>>
    decreases args.len(),
{
    if args.len() == 0 {
        None
    } else if args[0].name@ == path {
        match args[0].ty {
            IdlType::Simple(t) => Some(t@),
            IdlType::Complex(_) => Some("string"@),
        }
    } else {
        arg_type_hint(args.drop_first(), path)
    }
}

fn find_arg(args: &Vec<IdlArg>, path: &str) -> (r: Option<usize>)
    ensures
        match r {
            Some(i) => i < args@.len() && args@[i as int].name@ == path@ && (forall|k: int|
                0 <= k < i ==> #[trigger] args@[k].name@ != path@),
            None => forall|k: int| 0 <= k < args@.len() ==> #[trigger] args@[k].name@ != path@,
        },
{
    let mut i: usize = 0;
    while i < args.len()
        invariant
            i <= args@.len(),
            forall|k: int| 0 <= k < i ==> #[trigger] args@[k].name@ != path@,
        decreases args@.len() - i,
    {
        if str_eq(args[i].name.as_str(), path) {
            return Some(i);
        }
        i += 1;
    }
    None
}

proof fn lemma_arg_lookup(args: Seq<IdlArg>, path: Seq<char>, i: int)
    requires
        0 <= i <= args.len(),
        forall|k: int| 0 <= k < i ==> #[trigger] args[k].name@ != path,
    ensures
        i < args.len() && args[i].name@ == path ==> arg_type_name(args, path) == match args[i].ty {
            IdlType::Simple(t) => t@,
            IdlType::Complex(_) => "string"@,
        } && arg_type_hint(args, path) == Some(
            match args[i].ty {
                IdlType::Simple(t) => t@,
                IdlType::Complex(_) => "string"@,
            },
        ),
        i == args.len() ==> arg_type_name(args, path) == "string"@ && arg_type_hint(args, path) is None,
    decreases i,
{
    if i > 0 {
        assert forall|k: int| 0 <= k < i - 1 implies #[trigger] args.drop_first()[k].name@ != path by {
            assert(args.drop_first()[k] == args[k + 1]);
        }
        lemma_arg_lookup(args.drop_first(), path, i - 1);
    }
}

/// The type name of the first argument called `path` (see `arg_type_name`).
pub fn arg_type_of(args: &Vec<IdlArg>, path: &str) -> (r: String)
    ensures
        r@ == arg_type_name(args@, path@),
{
    match find_arg(args, path) {
        Some(i) => {
            proof {
                lemma_arg_lookup(args@, path@, i as int);
            }
            match &args[i].ty {
                IdlType::Simple(t) => t.clone(),
                IdlType::Complex(_) => String::from_str("string"),
            }
        },
        None => {
            proof {
                lemma_arg_lookup(args@, path@, args@.len() as int);
            }
            String::from_str("string")
        },
    }
}

/// The type hint of a seed for listing: `publicKey` for account seeds, the
/// argument's type for arg seeds (see `arg_type_hint`), nothing otherwise.
pub open spec fn seed_type_hint(seed: IdlSeed, args: Seq<IdlArg>) -> Option<Seq<char>> {
    if seed.kind@ == "account"@ {
        Some("publicKey"@)
    } else if seed.kind@ == "arg"@ {
        match seed.path {
            Some(p) => arg_type_hint(args, p@),
            None => None,
        }
    } else {
        None
    }
}

/// A seed as the PDA listing holds it: kind, description, name, type hint.
pub type PdaSeedView = (Seq<char>, Option<Seq<char>>, Option<Seq<char>>, Option<Seq<char>>);

pub open spec fn pda_seed_view(s: PdaSeed) -> PdaSeedView {
    (s.kind@, opt_string_view(s.description), opt_string_view(s.name), opt_string_view(s.ty))
}

/// An IDL seed as listed.
pub open spec fn listed_seed(seed: IdlSeed, args: Seq<IdlArg>) -> PdaSeedView {
    (
        seed.kind@,
        match seed.value {
            Some(v) => Some(seed_description(v@)),
            None => None,
        },
        opt_string_view(seed.path),
        seed_type_hint(seed, args),
    )
}

/// A PDA account as listed: instruction, account, seeds.
pub type PdaAccountView = (Seq<char>, Seq<char>, Seq<PdaSeedView>);

pub open spec fn pda_account_view(a: PdaAccount) -> PdaAccountView {
    (a.instruction@, a.account@, a.seeds@.map_values(|s: PdaSeed| pda_seed_view(s)))
}

pub open spec fn listed_account(ix: IdlInstruction, acc: IdlAccount) -> PdaAccountView {
    (
        ix.name@,
        acc.name@,
        acc.pda.unwrap().seeds@.map_values(|s: IdlSeed| listed_seed(s, ix.args@)),
    )
}

/// The PDA accounts of one instruction's account list, in order.
pub open spec fn listed_accounts(ix: IdlInstruction, accs: Seq<IdlAccount>) -> Seq<PdaAccountView>
    decreases accs.len(),
{
    if accs.len() == 0 {
        Seq::empty()
    } else if accs.last().pda is Some {
        listed_accounts(ix, accs.drop_last()).push(listed_account(ix, accs.last()))
    } else {
        listed_accounts(ix, accs.drop_last())
    }
}

/// Every account with a PDA definition, over all instructions in order.
pub open spec fn listed_pdas(ixs: Seq<IdlInstruction>) -> Seq<PdaAccountView>
    decreases ixs.len(),
{
    if ixs.len() == 0 {
        Seq::empty()
    } else {
        listed_pdas(ixs.drop_last()) + listed_accounts(ixs.last(), ixs.last().accounts@)
    }
}

pub open spec fn pda_views(v: Seq<PdaAccount>) -> Seq<PdaAccountView> {
    v.map_values(|a: PdaAccount| pda_account_view(a))
}

fn list_seed(seed: &IdlSeed, args: &Vec<IdlArg>) -> (r: PdaSeed)
    ensures
        pda_seed_view(r) == listed_seed(*seed, args@),
{
    let description = match &seed.value {
        Some(v) => match string_from_utf8(copy_bytes(v.as_slice())) {
            Some(text) => Some(text),
            None => Some(byte_list_string(v.as_slice())),
        },
        None => None,
    };
    let ty = if str_eq(seed.kind.as_str(), "account") {
        Some(String::from_str("publicKey"))
    } else if str_eq(seed.kind.as_str(), "arg") {
        match &seed.path {
            Some(p) => match find_arg(args, p.as_str()) {
                Some(i) => {
                    proof {
                        lemma_arg_lookup(args@, p@, i as int);
                    }
                    match &args[i].ty {
                        IdlType::Simple(t) => Some(t.clone()),
                        IdlType::Complex(_) => Some(String::from_str("string")),
                    }
                },
                None => {
                    proof {
                        lemma_arg_lookup(args@, p@, args@.len() as int);
                    }
                    None
                },
            },
            None => None,
        }
    } else {
        None
    };
    let path = match &seed.path {
        Some(p) => Some(p.clone()),
        None => None,
    };
    PdaSeed { kind: seed.kind.clone(), description, name: path, ty }
}

/// Builds the list of PDA accounts used by the PDA finder in file mode: each IDL
/// account that carries a PDA definition, in IDL order.
pub fn idl_to_pda_accounts(idl: &SolanaIdl) -> (r: Vec<PdaAccount>)
    ensures
        pda_views(r@) == listed_pdas(idl.instructions@),
{
    let mut result: Vec<PdaAccount> = Vec::new();
    let ghost ixs = idl.instructions@;
    let mut i: usize = 0;
    assert(ixs.take(0) =~= Seq::<IdlInstruction>::empty());
    assert(pda_views(result@) =~= Seq::<PdaAccountView>::empty());
    while i < idl.instructions.len()
        invariant
            i <= ixs.len(),
            ixs == idl.instructions@,
            pda_views(result@) == listed_pdas(ixs.take(i as int)),
        decreases ixs.len() - i,
    {
        let ix = &idl.instructions[i];
        let ghost start = pda_views(result@);
        let mut k: usize = 0;
        assert(ix.accounts@.take(0) =~= Seq::<IdlAccount>::empty());
        assert(start + listed_accounts(*ix, ix.accounts@.take(0)) =~= start);
        while k < ix.accounts.len()
            invariant
                k <= ix.accounts@.len(),
                pda_views(result@) == start + listed_accounts(*ix, ix.accounts@.take(k as int)),
            decreases ix.accounts@.len() - k,
        {
            let acc = &ix.accounts[k];
            let ghost accs = ix.accounts@.take(k + 1);
            assert(accs.drop_last() =~= ix.accounts@.take(k as int));
            assert(accs.last() == *acc);
            if let Some(pda) = &acc.pda {
                let mut seeds: Vec<PdaSeed> = Vec::new();
                let mut j: usize = 0;
                while j < pda.seeds.len()
                    invariant
                        j <= pda.seeds@.len(),
                        seeds@.map_values(|s: PdaSeed| pda_seed_view(s)) == pda.seeds@.take(j as int).map_values(
                            |s: IdlSeed| listed_seed(s, ix.args@),
                        ),
                    decreases pda.seeds@.len() - j,
                {
                    let sd = list_seed(&pda.seeds[j], &ix.args);
                    let ghost before = seeds@;
                    seeds.push(sd);
                    assert(seeds@.map_values(|s: PdaSeed| pda_seed_view(s)) =~= before.map_values(
                        |s: PdaSeed| pda_seed_view(s),
                    ).push(pda_seed_view(sd)));
                    assert(pda.seeds@.take(j + 1).map_values(|s: IdlSeed| listed_seed(s, ix.args@))
                        =~= pda.seeds@.take(j as int).map_values(|s: IdlSeed| listed_seed(s, ix.args@)).push(
                        listed_seed(pda.seeds@[j as int], ix.args@),
                    ));
                    j += 1;
                }
                assert(pda.seeds@.take(pda.seeds@.len() as int) =~= pda.seeds@);
                let entry = PdaAccount { instruction: ix.name.clone(), account: acc.name.clone(), seeds };
                let ghost before = result@;
                result.push(entry);
                assert(pda_views(result@) =~= pda_views(before).push(pda_account_view(entry)));
                assert(pda_account_view(entry) == listed_account(*ix, *acc));
            }
            k += 1;
        }
        proof {
            assert(ix.accounts@.take(ix.accounts@.len() as int) =~= ix.accounts@);
            assert(ixs.take(i + 1).drop_last() =~= ixs.take(i as int));
            assert(ixs.take(i + 1).last() == *ix);
        }
        i += 1;
    }
    assert(ixs.take(ixs.len() as int) =~= ixs);
    result
}

/// The bytes of one seed from the values collected so far, or nothing when a value is
/// missing or does not encode: `const` seeds give their bytes, `arg` seeds the raw
/// encoding of the argument's value as its IDL type, `account` seeds the 32 bytes of
/// the account's base58 key.
pub open spec fn seed_resolution(seed: IdlSeed, args: Seq<IdlArg>, accounts: Map<Seq<char>, String>, values: Map<Seq<char>, ArgValue>) -> Option<Seq<u8>> {
    if seed.kind@ == "const"@ {
        opt_bytes_view(seed.value)
    } else if seed.kind@ == "arg"@ {
        match seed.path {
            None => None,
            Some(p) => if !values.contains_key(p@) {
                None
            } else {
                let ty = arg_type_name(args, p@);
                match seed_encoding(values[p@], lowercase(ty), ty) {
                    Ok(b) => Some(b),
                    Err(_) => None,
                }
            },
        }
    } else if seed.kind@ == "account"@ {
        match seed.path {
            None => None,
            Some(p) => if !accounts.contains_key(p@) {
                None
            } else {
                match base58_decoded(accounts[p@]@) {
                    Some(b) => if b.len() == 32 {
                        Some(b)
                    } else {
                        None
                    },
                    None => None,
                }
            },
        }
    } else {
        None
    }
}

/// All seeds resolved, in order, or nothing when any one is not yet available.
pub open spec fn seeds_resolution(seeds: Seq<IdlSeed>, args: Seq<IdlArg>, accounts: Map<Seq<char>, String>, values: Map<Seq<char>, ArgValue>) -> Option<Seq<Seq<u8>>> {
    if forall|i: int| 0 <= i < seeds.len() ==> (#[trigger] seed_resolution(seeds[i], args, accounts, values)) is Some {
        Some(Seq::new(seeds.len(), |i: int| seed_resolution(seeds[i], args, accounts, values).unwrap()))
    } else {
        None
    }
}

fn resolve_seed(seed: &IdlSeed, ix: &IdlInstruction, collected_accounts: &StrMap<String>, collected_args: &StrMap<ArgValue>) -> (r: Option<Vec<u8>>)
    requires
        collected_accounts.wf(),
        collected_args.wf(),
    ensures
        opt_bytes_view(r) == seed_resolution(*seed, ix.args@, collected_accounts.view(), collected_args.view()),
{
    if str_eq(seed.kind.as_str(), "const") {
        match &seed.value {
            Some(v) => Some(copy_bytes(v.as_slice())),
            None => None,
        }
    } else if str_eq(seed.kind.as_str(), "arg") {
        let path = match &seed.path {
            Some(p) => p,
            None => {
                return None;
            },
        };
        let val = match collected_args.get(path.as_str()) {
            Some(v) => v,
            None => {
                return None;
            },
        };
        let ty = arg_type_of(&ix.args, path.as_str());
        match seed_bytes_from_value(val, ty.as_str()) {
            Ok(b) => Some(b),
            Err(_) => None,
        }
    } else if str_eq(seed.kind.as_str(), "account") {
        let path = match &seed.path {
            Some(p) => p,
            None => {
                return None;
            },
        };
        let pubkey_str = match collected_accounts.get(path.as_str()) {
            Some(v) => v,
            None => {
                return None;
            },
        };
        match base58_decode(pubkey_str.as_str()) {
            Some(b) => if b.len() != 32 {
                None
            } else {
                Some(b)
            },
            None => None,
        }
    } else {
        None
    }
}

/// Resolves all seeds of a PDA definition into raw byte strings; nothing when any
/// seed value is not yet available (see `seeds_resolution`).
///
/// `collected_accounts`: account name to base58 pubkey collected so far.
/// `collected_args`: arg name to value collected so far.
pub fn resolve_pda_seeds(pda: &IdlPda, ix: &IdlInstruction, collected_accounts: &StrMap<String>, collected_args: &StrMap<ArgValue>) -> (r: Option<Vec<Vec<u8>>>)
    requires
        collected_accounts.wf(),
        collected_args.wf(),
    ensures
        match r {
            Some(v) => seeds_resolution(pda.seeds@, ix.args@, collected_accounts.view(), collected_args.view())
                == Some(v@.map_values(|b: Vec<u8>| b@)),
            None => seeds_resolution(pda.seeds@, ix.args@, collected_accounts.view(), collected_args.view()) is None,
        },
{
    let ghost accts = collected_accounts.view();
    let ghost vals = collected_args.view();
    let mut seeds: Vec<Vec<u8>> = Vec::new();
    let mut i: usize = 0;
    while i < pda.seeds.len()
        invariant
            i <= pda.seeds@.len(),
            collected_accounts.wf(),
            collected_args.wf(),
            accts == collected_accounts.view(),
            vals == collected_args.view(),
            seeds@.len() == i,
            forall|k: int| 0 <= k < i ==> (#[trigger] seed_resolution(pda.seeds@[k], ix.args@, accts, vals)) == Some(seeds@[k]@),
        decreases pda.seeds@.len() - i,
    {
        match resolve_seed(&pda.seeds[i], ix, collected_accounts, collected_args) {
            Some(b) => {
                seeds.push(b);
            },
            None => {
                assert(seed_resolution(pda.seeds@[i as int], ix.args@, accts, vals) is None);
                return None;
            },
        }
        i += 1;
    }
    assert(seeds@.map_values(|b: Vec<u8>| b@) =~= Seq::new(
        pda.seeds@.len(),
        |k: int| seed_resolution(pda.seeds@[k], ix.args@, accts, vals).unwrap(),
    ));
    Some(seeds)
}

/// Describes constant seed bytes: as UTF-8 text where they are valid, else as their
/// Debug list (see `seed_description`).
pub fn describe_bytes(v: &[u8]) -> (r: String)
    ensures
        r@ == seed_description(v@),
{
    match string_from_utf8(copy_bytes(v)) {
        Some(text) => text,
        None => byte_list_string(v),
    }
}

} // verus!
