//! Program-derived addresses, the unsigned message the IDL mode builds, keypairs,
//! and the byte work of signing and simulating transactions.

use vstd::prelude::*;
use crate::codecs::{base58_decode, base58_decoded, base58_encode, base58_encoded, json_byte_array, parse_json_byte_array};
use crate::crypto::{decompresses_to_point, ed25519_sign, ed25519_signature, is_on_curve, sha256, sha256_digest};
use crate::message::{
    compile_message, entries, message_bytes, views, InstructionData, InstructionView,
    MessageError, MessageErrorView, MessageInstruction,
};
use crate::wire::{
    blockhash_offset, blockhash_position, decode_instruction_data, extract_message_bytes,
    instruction_data_of, message_of, WireError, WireErrorView,
};

verus! {

/// Why a Solana operation failed.
#[derive(Debug, Clone, PartialEq, Eq)]
pub enum SolanaError {
    /// "Invalid program ID base58"
    InvalidProgramId(String),
    /// "Program ID must be 32 bytes"
    ProgramIdLength,
    /// "Could not find a valid program-derived address (all bumps exhausted)"
    NoValidBump,
    /// The message could not be compiled.
    Message(MessageError),
    /// The transaction bytes could not be read.
    Wire(WireError),
    /// "Keypair file is not a valid JSON byte array"
    KeypairNotJson,
    /// "Keypair file must contain exactly 64 bytes"; the count found.
    KeypairLength(usize),
    /// "Invalid blockhash base58"
    InvalidBlockhash,
    /// "Blockhash must be 32 bytes"
    BlockhashLength,
}

pub enum SolanaErrorView {
    InvalidProgramId(Seq<char>),
    ProgramIdLength,
    NoValidBump,
    Message(MessageErrorView),
    Wire(WireErrorView),
    KeypairNotJson,
    KeypairLength(int),
    InvalidBlockhash,
    BlockhashLength,
}

impl View for SolanaError {
    type V = SolanaErrorView;

    open spec fn view(&self) -> SolanaErrorView {
        match *self {
            SolanaError::InvalidProgramId(s) => SolanaErrorView::InvalidProgramId(s@),
            SolanaError::ProgramIdLength => SolanaErrorView::ProgramIdLength,
            SolanaError::NoValidBump => SolanaErrorView::NoValidBump,
            SolanaError::Message(e) => SolanaErrorView::Message(e@),
            SolanaError::Wire(e) => SolanaErrorView::Wire(e@),
            SolanaError::KeypairNotJson => SolanaErrorView::KeypairNotJson,
            SolanaError::KeypairLength(n) => SolanaErrorView::KeypairLength(n as int),
            SolanaError::InvalidBlockhash => SolanaErrorView::InvalidBlockhash,
            SolanaError::BlockhashLength => SolanaErrorView::BlockhashLength,
        }
    }
}

/// The bytes of "ProgramDerivedAddress".
pub open spec fn pda_marker() -> Seq<u8> {
    seq![
        80u8, 114u8, 111u8, 103u8, 114u8, 97u8, 109u8, 68u8, 101u8, 114u8, 105u8, 118u8, 101u8,
        100u8, 65u8, 100u8, 100u8, 114u8, 101u8, 115u8, 115u8,
    ]
}

/// The seeds one after another.
pub open spec fn concat_all(seeds: Seq<Seq<u8>>) -> Seq<u8>
    decreases seeds.len(),
{
    if seeds.len() == 0 {
        Seq::<u8>::empty()
    } else {
        concat_all(seeds.drop_last()) + seeds.last()
    }
}

pub open spec fn seed_views(seeds: Seq<Vec<u8>>) -> Seq<Seq<u8>> {
    seeds.map_values(|s: Vec<u8>| s@)
}

/// SHA-256 over the seeds, the bump byte, the program id and "ProgramDerivedAddress".
pub open spec fn pda_hash(seeds: Seq<Seq<u8>>, bump: u8, program: Seq<u8>) -> Seq<u8> {
    sha256_digest(concat_all(seeds) + seq![bump] + program + pda_marker())
}

/// The highest bump from `from` down to 0 whose hash is not a curve point.
pub open spec fn bump_search(seeds: Seq<Seq<u8>>, program: Seq<u8>, from: int) -> Option<u8>
    decreases from + 1,
{
    if from < 0 {
        None
    } else if !decompresses_to_point(pda_hash(seeds, from as u8, program)) {
        Some(from as u8)
    } else {
        bump_search(seeds, program, from - 1)
    }
}

/// The program-derived address of `seeds` under the program whose base58 id is `program_id`:
/// its base58 text and its bump.
pub open spec fn program_address(seeds: Seq<Seq<u8>>, program_id: Seq<char>) -> Result<(Seq<char>, u8), SolanaErrorView> {
    match base58_decoded(program_id) {
        None => Err(SolanaErrorView::InvalidProgramId(program_id)),
        Some(p) => if p.len() != 32 {
            Err(SolanaErrorView::ProgramIdLength)
        } else {
            match bump_search(seeds, p, 255) {
                Some(b) => Ok((base58_encoded(pda_hash(seeds, b, p)), b)),
                None => Err(SolanaErrorView::NoValidBump),
            }
        },
    }
}

fn to_array32(v: &[u8]) -> (r: [u8; 32])
    requires
        v@.len() == 32,
    ensures
        r@ == v@,
{
    let mut arr = [0u8; 32];
    let mut i: usize = 0;
    while i < 32
        invariant
            i <= 32,
            v@.len() == 32,
            forall|k: int| 0 <= k < i ==> arr@[k] == v@[k],
        decreases 32 - i,
    {
        arr[i] = v[i];
        i += 1;
    }
    assert(arr@ =~= v@);
    arr
}

fn to_array64(v: &[u8]) -> (r: [u8; 64])
    requires
        v@.len() == 64,
    ensures
        r@ == v@,
{
    let mut arr = [0u8; 64];
    let mut i: usize = 0;
    while i < 64
        invariant
            i <= 64,
            v@.len() == 64,
            forall|k: int| 0 <= k < i ==> arr@[k] == v@[k],
        decreases 64 - i,
    {
        arr[i] = v[i];
        i += 1;
    }
    assert(arr@ =~= v@);
    arr
}

/// Solana `create_program_address`: SHA-256 of the seeds, the program id and
/// "ProgramDerivedAddress", kept only when it is not a point on the Ed25519 curve.
pub fn create_program_address(seeds: &[Vec<u8>], bump: u8, program_id: &[u8; 32]) -> (r: Option<[u8; 32]>)
    ensures
        match r {
            Some(a) => a@ == pda_hash(seed_views(seeds@), bump, program_id@) && !decompresses_to_point(a@),
            None => decompresses_to_point(pda_hash(seed_views(seeds@), bump, program_id@)),
        },
{
    let ghost sv = seed_views(seeds@);
    let mut data: Vec<u8> = Vec::new();
    let mut i: usize = 0;
    assert(sv.take(0) =~= Seq::<Seq<u8>>::empty());
    while i < seeds.len()
        invariant
            i <= seeds@.len(),
            sv == seed_views(seeds@),
            data@ == concat_all(sv.take(i as int)),
        decreases seeds@.len() - i,
    {
        crate::borsh::append_bytes(&mut data, seeds[i].as_slice());
        proof {
            assert(sv.take(i + 1).drop_last() =~= sv.take(i as int));
            assert(sv.take(i + 1).last() == seeds@[i as int]@);
        }
        i += 1;
    }
    assert(sv.take(seeds@.len() as int) =~= sv);
    data.push(bump);
    crate::borsh::append_bytes(&mut data, program_id.as_slice());
    let marker: [u8; 21] = [
        80, 114, 111, 103, 114, 97, 109, 68, 101, 114, 105, 118, 101, 100, 65, 100, 100, 114, 101,
        115, 115,
    ];
    crate::borsh::append_bytes(&mut data, marker.as_slice());
    assert(marker@ =~= pda_marker());
    assert(data@ =~= concat_all(sv) + seq![bump] + program_id@ + pda_marker());
    let hash = sha256(data.as_slice());
    if is_on_curve(&hash) {
        None
    } else {
        Some(hash)
    }
}

/// Finds a valid program-derived address by trying bumps from 255 down to 0;
/// gives its base58 text and the bump (see `program_address`).
pub fn find_program_address(seeds: &[Vec<u8>], program_id_b58: &str) -> (r: Result<(String, u8), SolanaError>)
    ensures
        match r {
            Ok((a, b)) => program_address(seed_views(seeds@), program_id_b58@) == Ok::<(Seq<char>, u8), SolanaErrorView>((a@, b)),
            Err(e) => program_address(seed_views(seeds@), program_id_b58@) == Err::<(Seq<char>, u8), SolanaErrorView>(e@),
        },
{
    let prog_bytes = match base58_decode(program_id_b58) {
        None => {
            return Err(SolanaError::InvalidProgramId(program_id_b58.to_owned()));
        },
        Some(b) => b,
    };
    if prog_bytes.len() != 32 {
        return Err(SolanaError::ProgramIdLength);
    }
    let prog = to_array32(prog_bytes.as_slice());
    let ghost sv = seed_views(seeds@);
    let mut bump: u16 = 256;
    while bump > 0
        invariant
            bump <= 256,
            prog@ == prog_bytes@,
            base58_decoded(program_id_b58@) == Some(prog_bytes@),
            sv == seed_views(seeds@),
            bump_search(sv, prog@, 255) == bump_search(sv, prog@, bump - 1),
        decreases bump,
    {
        let b = (bump - 1) as u8;
        if let Some(addr) = create_program_address(seeds, b, &prog) {
            assert(bump_search(sv, prog@, b as int) == Some(b));
            let sl = addr.as_slice();
            assert(sl@ == pda_hash(sv, b, prog@));
            let text = base58_encode(sl);
            assert(base58_decoded(program_id_b58@) == Some(prog@));
            assert(bump_search(sv, prog@, 255) == Some(b));
            assert(program_address(sv, program_id_b58@) == Ok::<(Seq<char>, u8), SolanaErrorView>((text@, b)));
            return Ok((text, b));
        }
        bump -= 1;
    }
    Err(SolanaError::NoValidBump)
}

/// The instruction that `encode_unsigned_message` compiles.
pub open spec fn unsigned_instruction(program_id: Seq<char>, accounts: Seq<(String, bool, bool)>, data: Seq<u8>) -> InstructionView {
    InstructionView { program_id, keys: entries(accounts), data: Ok(data) }
}

/// Thirty-two zero bytes: the blockhash placeholder.
pub open spec fn zero_blockhash() -> Seq<u8> {
    Seq::new(32, |i: int| 0u8)
}

/// The binary legacy message of one instruction, with a zeroed recent-blockhash placeholder.
pub open spec fn unsigned_message(fee_payer: Seq<char>, program_id: Seq<char>, accounts: Seq<(String, bool, bool)>, data: Seq<u8>) -> Result<Seq<u8>, MessageErrorView> {
    message_bytes(fee_payer, seq![unsigned_instruction(program_id, accounts, data)], zero_blockhash())
}

fn copy_accounts(accounts: &[(String, bool, bool)]) -> (r: Vec<(String, bool, bool)>)
    ensures
        r@ == accounts@,
{
    let mut out: Vec<(String, bool, bool)> = Vec::new();
    let mut i: usize = 0;
    while i < accounts.len()
        invariant
            i <= accounts@.len(),
            out@ == accounts@.take(i as int),
        decreases accounts@.len() - i,
    {
        let a = &accounts[i];
        out.push((a.0.clone(), a.1, a.2));
        i += 1;
        assert(out@ =~= accounts@.take(i as int));
    }
    assert(out@ =~= accounts@);
    out
}

/// Builds the binary legacy message of one instruction with a zeroed recent-blockhash
/// placeholder: the fee payer first, then the accounts and the program,
/// deduplicated and in canonical order (see `unsigned_message`).
pub fn unsigned_message_bytes(fee_payer: &str, program_id: &str, accounts: &[(String, bool, bool)], instruction_data: &[u8]) -> (r: Result<Vec<u8>, MessageError>)
    ensures
        match r {
            Ok(m) => unsigned_message(fee_payer@, program_id@, accounts@, instruction_data@) == Ok::<Seq<u8>, MessageErrorView>(m@),
            Err(e) => unsigned_message(fee_payer@, program_id@, accounts@, instruction_data@) == Err::<Seq<u8>, MessageErrorView>(e@),
        },
{
    let ix = MessageInstruction {
        program_id: program_id.to_owned(),
        keys: copy_accounts(accounts),
        data: InstructionData::Bytes(crate::idl::copy_bytes(instruction_data)),
    };
    let ixs = vec![ix];
    assert(views(ixs@) =~= seq![unsigned_instruction(program_id@, accounts@, instruction_data@)]);
    let zeros = [0u8; 32];
    assert(zeros@ =~= zero_blockhash());
    compile_message(fee_payer, ixs.as_slice(), &zeros)
}

/// The unsigned message as base58 text, ready to hand to signing (see `unsigned_message`).
pub fn encode_unsigned_message(fee_payer: &str, program_id: &str, accounts: &[(String, bool, bool)], instruction_data: &[u8]) -> (r: Result<String, MessageError>)
    ensures
        match r {
            Ok(s) => exists|m: Seq<u8>| unsigned_message(fee_payer@, program_id@, accounts@, instruction_data@) == Ok::<Seq<u8>, MessageErrorView>(m)
                && s@ == base58_encoded(m) && base58_decoded(s@) == Some(m),
            Err(e) => unsigned_message(fee_payer@, program_id@, accounts@, instruction_data@) == Err::<Seq<u8>, MessageErrorView>(e@),
        },
{
    match unsigned_message_bytes(fee_payer, program_id, accounts, instruction_data) {
        Ok(m) => Ok(base58_encode(m.as_slice())),
        Err(e) => Err(e),
    }
}

/// The 64 keypair bytes from the text of a keypair file (a JSON byte array).
pub open spec fn keypair_of(text: Seq<char>) -> Result<Seq<u8>, SolanaErrorView> {
    match json_byte_array(text) {
        None => Err(SolanaErrorView::KeypairNotJson),
        Some(b) => if b.len() != 64 {
            Err(SolanaErrorView::KeypairLength(b.len() as int))
        } else {
            Ok(b)
        },
    }
}

/// Reads a keypair from the text of a keypair file: a JSON array of exactly 64 bytes.
pub fn keypair_from_json(content: &str) -> (r: Result<[u8; 64], SolanaError>)
    ensures
        match r {
            Ok(k) => keypair_of(content@) == Ok::<Seq<u8>, SolanaErrorView>(k@),
            Err(e) => keypair_of(content@) == Err::<Seq<u8>, SolanaErrorView>(e@),
        },
{
    match parse_json_byte_array(content) {
        None => Err(SolanaError::KeypairNotJson),
        Some(b) => if b.len() != 64 {
            Err(SolanaError::KeypairLength(b.len()))
        } else {
            Ok(to_array64(b.as_slice()))
        },
    }
}

/// The base58 public key of a keypair: its last 32 bytes.
pub fn pubkey_of_keypair(keypair: &[u8; 64]) -> (r: String)
    ensures
        r@ == base58_encoded(keypair@.subrange(32, 64)),
{
    let public = crate::wire::copy_range(keypair.as_slice(), 32, 64);
    base58_encode(public.as_slice())
}

/// Ed25519 signature of `message` with the secret seed (the first 32 keypair bytes).
pub fn sign_message(keypair: &[u8; 64], message: &[u8]) -> (r: [u8; 64])
    ensures
        r@ == ed25519_signature(keypair@.subrange(0, 32), message@),
{
    let seed_bytes = crate::wire::copy_range(keypair.as_slice(), 0, 32);
    let seed = to_array32(seed_bytes.as_slice());
    ed25519_sign(&seed, message)
}

/// A transaction in the Orquestra build API's JSON form.
#[derive(Debug, Clone, PartialEq, Eq)]
pub struct TxJson {
    pub fee_payer: String,
    pub recent_blockhash: String,
    pub instructions: Vec<IxJson>,
}

#[derive(Debug, Clone, PartialEq, Eq)]
pub struct IxJson {
    pub program_id: String,
    pub keys: Vec<KeyJson>,
    /// Instruction data, base58 or base64.
    pub data: String,
}

#[derive(Debug, Clone, PartialEq, Eq)]
pub struct KeyJson {
    pub pubkey: String,
    pub is_signer: bool,
    pub is_writable: bool,
}

pub open spec fn key_json_entries(keys: Seq<KeyJson>) -> Seq<(Seq<char>, bool, bool)> {
    keys.map_values(|k: KeyJson| (k.pubkey@, k.is_signer, k.is_writable))
}

/// A JSON instruction as the compiler sees it: its data decoded, or the text that did not decode.
pub open spec fn json_instruction(ix: IxJson) -> InstructionView {
    InstructionView {
        program_id: ix.program_id@,
        keys: key_json_entries(ix.keys@),
        data: match instruction_data_of(ix.data@) {
            Ok(b) => Ok(b),
            Err(_) => Err(ix.data@),
        },
    }
}

pub open spec fn json_instructions(tx: TxJson) -> Seq<InstructionView> {
    tx.instructions@.map_values(|ix: IxJson| json_instruction(ix))
}

fn to_message_instruction(ix: &IxJson) -> (r: MessageInstruction)
    ensures
        r@ == json_instruction(*ix),
{
    let mut keys: Vec<(String, bool, bool)> = Vec::new();
    let mut i: usize = 0;
    while i < ix.keys.len()
        invariant
            i <= ix.keys@.len(),
            entries(keys@) == key_json_entries(ix.keys@).take(i as int),
        decreases ix.keys@.len() - i,
    {
        let k = &ix.keys[i];
        let ghost before = keys@;
        keys.push((k.pubkey.clone(), k.is_signer, k.is_writable));
        assert(entries(keys@) =~= entries(before).push((k.pubkey@, k.is_signer, k.is_writable)));
        assert(key_json_entries(ix.keys@).take(i + 1) =~= key_json_entries(ix.keys@).take(
            i as int,
        ).push((k.pubkey@, k.is_signer, k.is_writable)));
        i += 1;
    }
    assert(key_json_entries(ix.keys@).take(ix.keys@.len() as int) =~= key_json_entries(ix.keys@));
    let data = match decode_instruction_data(ix.data.as_str()) {
        Ok(b) => InstructionData::Bytes(b),
        Err(_) => InstructionData::Undecodable(ix.data.clone()),
    };
    MessageInstruction { program_id: ix.program_id.clone(), keys, data }
}

/// Builds the canonical legacy message from the JSON form, with the given fresh
/// blockhash (see `message_bytes`).
pub fn build_message_from_json(tx: &TxJson, fresh_blockhash: &[u8; 32]) -> (r: Result<Vec<u8>, MessageError>)
    ensures
        match r {
            Ok(m) => message_bytes(tx.fee_payer@, json_instructions(*tx), fresh_blockhash@) == Ok::<Seq<u8>, MessageErrorView>(m@),
            Err(e) => message_bytes(tx.fee_payer@, json_instructions(*tx), fresh_blockhash@) == Err::<Seq<u8>, MessageErrorView>(e@),
        },
{
    let mut ixs: Vec<MessageInstruction> = Vec::new();
    let mut i: usize = 0;
    while i < tx.instructions.len()
        invariant
            i <= tx.instructions@.len(),
            views(ixs@) == json_instructions(*tx).take(i as int),
        decreases tx.instructions@.len() - i,
    {
        let mi = to_message_instruction(&tx.instructions[i]);
        let ghost before = ixs@;
        let ghost v = mi@;
        ixs.push(mi);
        assert(views(ixs@) =~= views(before).push(v));
        assert(json_instructions(*tx).take(i + 1) =~= json_instructions(*tx).take(i as int).push(
            json_instruction(tx.instructions@[i as int]),
        ));
        i += 1;
    }
    assert(json_instructions(*tx).take(tx.instructions@.len() as int) =~= json_instructions(*tx));
    compile_message(tx.fee_payer.as_str(), ixs.as_slice(), fresh_blockhash)
}

/// The message to sign: compiled from the JSON form with the fresh blockhash where
/// the payload was JSON, else the message inside the payload with its blockhash
/// replaced by the fresh one.
pub open spec fn message_to_sign(json: Option<TxJson>, tx_bytes: Seq<u8>, blockhash: Seq<u8>) -> Result<Seq<u8>, SolanaErrorView> {
    match json {
        Some(t) => match message_bytes(t.fee_payer@, json_instructions(t), blockhash) {
            Ok(m) => Ok(m),
            Err(e) => Err(SolanaErrorView::Message(e)),
        },
        None => match message_of(tx_bytes) {
            Err(e) => Err(SolanaErrorView::Wire(e)),
            Ok(m) => match blockhash_position(m) {
                Err(e) => Err(SolanaErrorView::Wire(e)),
                Ok(off) => Ok(m.take(off) + blockhash + m.skip(off + 32)),
            },
        },
    }
}

/// The signed wire transaction: a signature count of one, the signature, the message.
pub open spec fn signed_wire(keypair: Seq<u8>, message: Seq<u8>) -> Seq<u8> {
    seq![1u8] + ed25519_signature(keypair.subrange(0, 32), message) + message
}

/// The message to sign (see `message_to_sign`).
pub fn message_for_signing(json: &Option<TxJson>, tx_bytes: &[u8], blockhash: &[u8; 32]) -> (r: Result<Vec<u8>, SolanaError>)
    ensures
        match r {
            Ok(m) => message_to_sign(*json, tx_bytes@, blockhash@) == Ok::<Seq<u8>, SolanaErrorView>(m@),
            Err(e) => message_to_sign(*json, tx_bytes@, blockhash@) == Err::<Seq<u8>, SolanaErrorView>(e@),
        },
{
    match json {
        Some(t) => match build_message_from_json(t, blockhash) {
            Ok(m) => Ok(m),
            Err(e) => Err(SolanaError::Message(e)),
        },
        None => {
            let msg = match extract_message_bytes(tx_bytes) {
                Ok(m) => m,
                Err(e) => {
                    return Err(SolanaError::Wire(e));
                },
            };
            let accounts_end = match blockhash_offset(msg.as_slice()) {
                Ok(n) => n,
                Err(e) => {
                    return Err(SolanaError::Wire(e));
                },
            };
            let mut out = crate::wire::copy_range(msg.as_slice(), 0, accounts_end);
            crate::borsh::append_bytes(&mut out, blockhash.as_slice());
            let tail = crate::wire::copy_range(msg.as_slice(), accounts_end + 32, msg.len());
            crate::borsh::append_bytes(&mut out, tail.as_slice());
            assert(out@ =~= msg@.take(accounts_end as int) + blockhash@ + msg@.skip(accounts_end + 32));
            Ok(out)
        },
    }
}

/// Signs a transaction and gives it as base58 wire text: the message comes from
/// the JSON form when the payload parsed as JSON (`json`), else from the payload
/// bytes, with the fresh blockhash in place; it is signed with the keypair.
pub fn signed_transaction(json: &Option<TxJson>, tx_bytes: &[u8], keypair: &[u8; 64], blockhash: &[u8; 32]) -> (r: Result<String, SolanaError>)
    ensures
        match r {
            Ok(s) => exists|m: Seq<u8>| message_to_sign(*json, tx_bytes@, blockhash@) == Ok::<Seq<u8>, SolanaErrorView>(m)
                && s@ == base58_encoded(signed_wire(keypair@, m)),
            Err(e) => message_to_sign(*json, tx_bytes@, blockhash@) == Err::<Seq<u8>, SolanaErrorView>(e@),
        },
{
    let message = match message_for_signing(json, tx_bytes, blockhash) {
        Ok(m) => m,
        Err(e) => {
            return Err(e);
        },
    };
    let sig = sign_message(keypair, message.as_slice());
    let mut signed: Vec<u8> = Vec::new();
    signed.push(1u8);
    crate::borsh::append_bytes(&mut signed, sig.as_slice());
    crate::borsh::append_bytes(&mut signed, message.as_slice());
    assert(signed@ =~= signed_wire(keypair@, message@));
    Ok(base58_encode(signed.as_slice()))
}

/// The message to simulate: compiled from the JSON form with a zeroed blockhash,
/// else the message inside the payload as it stands.
pub open spec fn message_to_simulate(json: Option<TxJson>, tx_bytes: Seq<u8>) -> Result<Seq<u8>, SolanaErrorView> {
    match json {
        Some(t) => match message_bytes(t.fee_payer@, json_instructions(t), zero_blockhash()) {
            Ok(m) => Ok(m),
            Err(e) => Err(SolanaErrorView::Message(e)),
        },
        None => match message_of(tx_bytes) {
            Err(e) => Err(SolanaErrorView::Wire(e)),
            Ok(m) => Ok(m),
        },
    }
}

/// The wire transaction to simulate, as base58 text: a signature count of one, a
/// zeroed signature, and the message (see `message_to_simulate`).
pub fn simulation_transaction(json: &Option<TxJson>, tx_bytes: &[u8]) -> (r: Result<String, SolanaError>)
    ensures
        match r {
            Ok(s) => exists|m: Seq<u8>| message_to_simulate(*json, tx_bytes@) == Ok::<Seq<u8>, SolanaErrorView>(m)
                && s@ == base58_encoded(seq![1u8] + Seq::new(64, |i: int| 0u8) + m),
            Err(e) => message_to_simulate(*json, tx_bytes@) == Err::<Seq<u8>, SolanaErrorView>(e@),
        },
{
    let message = match json {
        Some(t) => {
            let zeros = [0u8; 32];
            assert(zeros@ =~= zero_blockhash());
            match build_message_from_json(t, &zeros) {
                Ok(m) => m,
                Err(e) => {
                    return Err(SolanaError::Message(e));
                },
            }
        },
        None => match extract_message_bytes(tx_bytes) {
            Ok(m) => m,
            Err(e) => {
                return Err(SolanaError::Wire(e));
            },
        },
    };
    let mut wire: Vec<u8> = Vec::new();
    wire.push(1u8);
    let zero_sig = [0u8; 64];
    crate::borsh::append_bytes(&mut wire, zero_sig.as_slice());
    crate::borsh::append_bytes(&mut wire, message.as_slice());
    assert(wire@ =~= seq![1u8] + Seq::new(64, |i: int| 0u8) + message@);
    Ok(base58_encode(wire.as_slice()))
}

/// The 32 bytes of a base58 blockhash.
pub open spec fn blockhash_of(text: Seq<char>) -> Result<Seq<u8>, SolanaErrorView> {
    match base58_decoded(text) {
        None => Err(SolanaErrorView::InvalidBlockhash),
        Some(b) => if b.len() != 32 {
            Err(SolanaErrorView::BlockhashLength)
        } else {
            Ok(b)
        },
    }
}

/// Reads a base58 blockhash, which must be 32 bytes.
pub fn blockhash_from_base58(text: &str) -> (r: Result<[u8; 32], SolanaError>)
    ensures
        match r {
            Ok(b) => blockhash_of(text@) == Ok::<Seq<u8>, SolanaErrorView>(b@),
            Err(e) => blockhash_of(text@) == Err::<Seq<u8>, SolanaErrorView>(e@),
        },
{
    match base58_decode(text) {
        None => Err(SolanaError::InvalidBlockhash),
        Some(b) => if b.len() != 32 {
            Err(SolanaError::BlockhashLength)
        } else {
            Ok(to_array32(b.as_slice()))
        },
    }
}

} // verus!
