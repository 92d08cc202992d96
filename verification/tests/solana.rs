use ed25519_dalek::Verifier;
use orquestra_cli::message::MessageError;
use orquestra_cli::solana::{
    blockhash_from_base58, build_message_from_json, create_program_address,
    encode_unsigned_message, find_program_address, keypair_from_json, message_for_signing,
    pubkey_of_keypair, sign_message, signed_transaction, simulation_transaction,
    unsigned_message_bytes, IxJson, KeyJson, SolanaError, TxJson,
};
use orquestra_cli::wire::{blockhash_offset, decode_transaction_bytes, WireError};

const SYSTEM_PROGRAM: &str = "11111111111111111111111111111111";
/// The key whose bytes are 0, 1, ..., 31.
const COUNTING_KEY: &str = "1thX6LZfHDZZKUs92febYZhYRcXddmzfzF2NvTkPNE";
/// The public key of the secret seed 1, 2, ..., 32.
const FEE_PAYER: &str = "9C6hybhQ6Aycep9jaUnP6uL9ZYvDjUp1aSkFWPUFJtpj";
/// Thirty-two bytes of 7.
const PROGRAM: &str = "US517G5965aydkZ46HS38QLi7UQiSojurfbQfKCELFx";
/// Thirty-two bytes of 9.
const OTHER_SIGNER: &str = "cGfHiC6Kgg3FpFZvgwGcswsCRtp4aBP2fzuXRQPizuN";

fn hex(s: &str) -> Vec<u8> {
    (0..s.len()).step_by(2).map(|i| u8::from_str_radix(&s[i..i + 2], 16).unwrap()).collect()
}

fn key(s: &str) -> Vec<u8> {
    bs58::decode(s).into_vec().unwrap()
}

fn keypair() -> [u8; 64] {
    let mut k = [0u8; 64];
    for i in 0..32 {
        k[i] = (i + 1) as u8;
    }
    k[32..].copy_from_slice(&key(FEE_PAYER));
    k
}

fn keypair_json() -> String {
    let items: Vec<String> = keypair().iter().map(|b| b.to_string()).collect();
    format!("[{}]", items.join(","))
}

fn counting_bytes() -> Vec<u8> {
    (0..32).collect()
}

#[test]
fn program_address_with_top_bump() {
    assert_eq!(
        find_program_address(&[b"hello".to_vec()], SYSTEM_PROGRAM),
        Ok(("2PjSSVURwJV4o9wz1BDVwwddvcUCuF1NKFpcQBF9emYJ".to_string(), 255))
    );
    assert_eq!(
        find_program_address(&[b"vault".to_vec()], COUNTING_KEY),
        Ok(("7grij68mNp2ZHSqim8k1LMin5UfTgxpCxzNY3BNPTNbW".to_string(), 255))
    );
}

#[test]
fn program_address_skips_bumps_on_the_curve() {
    assert_eq!(
        find_program_address(&[], COUNTING_KEY),
        Ok(("BGiu2NdLBburqTtfgFQfGSSxtVCEWktuCFJArCZR6Hv7".to_string(), 254))
    );
    assert_eq!(
        find_program_address(&[vec![0]], COUNTING_KEY),
        Ok(("FwR5BUdnj8C8VFaAVrSBLTse4853L7FLVSrTDwsz8mTm".to_string(), 252))
    );
}

#[test]
fn bump_is_the_highest_off_curve() {
    let program: [u8; 32] = counting_bytes().try_into().unwrap();
    let seeds = vec![vec![0u8]];
    for bump in 253..=255u8 {
        assert_eq!(create_program_address(&seeds, bump, &program), None);
    }
    let found = create_program_address(&seeds, 252, &program).unwrap();
    assert_eq!(bs58::encode(found).into_string(), "FwR5BUdnj8C8VFaAVrSBLTse4853L7FLVSrTDwsz8mTm");
}

#[test]
fn program_address_hashes_seed_concatenation() {
    // Seeds are concatenated before hashing, so the split does not matter.
    assert_eq!(
        find_program_address(&[b"a".to_vec(), b"bc".to_vec()], COUNTING_KEY),
        find_program_address(&[b"abc".to_vec()], COUNTING_KEY)
    );
    let program: [u8; 32] = counting_bytes().try_into().unwrap();
    assert_eq!(
        create_program_address(&[b"vault".to_vec()], 255, &program).map(|a| a.to_vec()),
        Some(hex("635bfdb3df78a5ce5bf3f9836262cf3ea275725ba9f475f5058c2aa1c76589d5"))
    );
}

#[test]
fn program_address_errors() {
    assert_eq!(
        find_program_address(&[], "0OIl"),
        Err(SolanaError::InvalidProgramId("0OIl".to_string()))
    );
    assert_eq!(find_program_address(&[], "2"), Err(SolanaError::ProgramIdLength));
}

#[test]
fn keypair_from_json_reads_64_bytes() {
    assert_eq!(keypair_from_json(&keypair_json()), Ok(keypair()));
    assert_eq!(keypair_from_json(" [1, 2, 3] "), Err(SolanaError::KeypairLength(3)));
    assert_eq!(keypair_from_json("not json"), Err(SolanaError::KeypairNotJson));
    assert_eq!(keypair_from_json("[256]"), Err(SolanaError::KeypairNotJson));
}

#[test]
fn public_key_is_the_last_half() {
    assert_eq!(pubkey_of_keypair(&keypair()), FEE_PAYER);
}

#[test]
fn signing_matches_rfc8032_vector() {
    let mut k = [0u8; 64];
    k[..32].copy_from_slice(&hex("9d61b19deffd5a60ba844af492ec2cc44449c5697b326919703bac031cae7f60"));
    k[32..].copy_from_slice(&hex("d75a980182b10ab7d54bfed3c964073a0ee172f3daa62325af021a68f707511a"));
    assert_eq!(
        sign_message(&k, b"").to_vec(),
        hex("e5564300c360ac729086e2cc806e828a84877f1eb8e5d974d873e065224901555fb8821590a33bacc61e39701cf9b46bd25bf5f0595bbe24655141438e7a100b")
    );
    assert_eq!(pubkey_of_keypair(&k), "FVen3X669xLzsi6N2V91DoiyzHzg1uAgqiT8jZ9nS96Z");
}

#[test]
fn signing_uses_the_secret_half() {
    assert_eq!(
        sign_message(&keypair(), b"orquestra").to_vec(),
        hex("c27429554e03bcac793322212820813615dd8df4e06f6d615c63ffbdf7eb011a698f74ef0851a654ef27e194c30524c0480ca047e42b95a24f454579f02bf006")
    );
}

#[test]
fn blockhash_from_base58_cases() {
    assert_eq!(blockhash_from_base58(SYSTEM_PROGRAM), Ok([0u8; 32]));
    assert_eq!(blockhash_from_base58(COUNTING_KEY).map(|b| b.to_vec()), Ok(counting_bytes()));
    assert_eq!(blockhash_from_base58("0"), Err(SolanaError::InvalidBlockhash));
    assert_eq!(blockhash_from_base58("2"), Err(SolanaError::BlockhashLength));
}

/// The message that one instruction of `PROGRAM` over the given accounts compiles to.
fn one_instruction_message(blockhash: &[u8]) -> Vec<u8> {
    // Accounts: fee payer (writable signer), OTHER_SIGNER (read-only signer),
    // COUNTING_KEY (writable), PROGRAM (read-only).
    let mut m = vec![2, 1, 1, 4];
    m.extend(key(FEE_PAYER));
    m.extend(key(OTHER_SIGNER));
    m.extend(key(COUNTING_KEY));
    m.extend(key(PROGRAM));
    m.extend_from_slice(blockhash);
    m.extend([1, 3, 3, 2, 1, 0, 3, 1, 2, 3]);
    m
}

fn sample_accounts() -> Vec<(String, bool, bool)> {
    vec![
        (COUNTING_KEY.to_string(), false, true),
        (OTHER_SIGNER.to_string(), true, false),
        (FEE_PAYER.to_string(), true, true),
    ]
}

#[test]
fn unsigned_message_is_canonical_with_zero_blockhash() {
    let m = unsigned_message_bytes(FEE_PAYER, PROGRAM, &sample_accounts(), &[1, 2, 3]).unwrap();
    assert_eq!(m, one_instruction_message(&[0u8; 32]));
    let text = encode_unsigned_message(FEE_PAYER, PROGRAM, &sample_accounts(), &[1, 2, 3]).unwrap();
    assert_eq!(bs58::decode(&text).into_vec().unwrap(), m);
}

#[test]
fn compiled_message_blockhash_is_where_signing_looks() {
    let m = unsigned_message_bytes(FEE_PAYER, PROGRAM, &sample_accounts(), &[1, 2, 3]).unwrap();
    // Header (3), account count (1), four keys (128).
    assert_eq!(blockhash_offset(&m), Ok(132));
    assert_eq!(m[132..164].to_vec(), vec![0u8; 32]);
}

#[test]
fn unsigned_message_merges_flags_of_repeated_accounts() {
    let accounts = vec![
        (COUNTING_KEY.to_string(), false, false),
        (COUNTING_KEY.to_string(), true, false),
    ];
    let m = unsigned_message_bytes(FEE_PAYER, PROGRAM, &accounts, &[]).unwrap();
    let mut want = vec![2, 1, 1, 3];
    want.extend(key(FEE_PAYER));
    want.extend(key(COUNTING_KEY));
    want.extend(key(PROGRAM));
    want.extend([0u8; 32]);
    want.extend([1, 2, 2, 1, 1, 0]);
    assert_eq!(m, want);
}

#[test]
fn unsigned_message_errors() {
    let bad = vec![("0OIl".to_string(), false, true)];
    assert_eq!(
        encode_unsigned_message(FEE_PAYER, PROGRAM, &bad, &[]),
        Err(MessageError::InvalidPubkey("0OIl".to_string()))
    );
    let short = vec![("2".to_string(), false, true)];
    assert_eq!(
        encode_unsigned_message(FEE_PAYER, PROGRAM, &short, &[]),
        Err(MessageError::PubkeyLength { pubkey: "2".to_string(), len: 1 })
    );
}

fn sample_json(data: &str) -> TxJson {
    TxJson {
        fee_payer: FEE_PAYER.to_string(),
        recent_blockhash: SYSTEM_PROGRAM.to_string(),
        instructions: vec![IxJson {
            program_id: PROGRAM.to_string(),
            keys: vec![
                KeyJson { pubkey: COUNTING_KEY.to_string(), is_signer: false, is_writable: true },
                KeyJson { pubkey: OTHER_SIGNER.to_string(), is_signer: true, is_writable: false },
                KeyJson { pubkey: FEE_PAYER.to_string(), is_signer: true, is_writable: true },
            ],
            data: data.to_string(),
        }],
    }
}

#[test]
fn json_transaction_compiles_with_fresh_blockhash() {
    let bh = [0x22u8; 32];
    assert_eq!(build_message_from_json(&sample_json("Ldp"), &bh), Ok(one_instruction_message(&bh)));
    // Base64 data decodes too.
    assert_eq!(build_message_from_json(&sample_json("AQID"), &bh), Ok(one_instruction_message(&bh)));
}

#[test]
fn json_transaction_errors() {
    assert_eq!(
        build_message_from_json(&sample_json("!!"), &[0; 32]),
        Err(MessageError::UndecodableInstructionData("!!".to_string()))
    );
    let mut tx = sample_json("");
    tx.fee_payer = "2".to_string();
    assert_eq!(
        build_message_from_json(&tx, &[0; 32]),
        Err(MessageError::PubkeyLength { pubkey: "2".to_string(), len: 1 })
    );
}

#[test]
fn json_message_for_signing() {
    let bh = [5u8; 32];
    assert_eq!(
        message_for_signing(&Some(sample_json("Ldp")), &[], &bh),
        Ok(one_instruction_message(&bh))
    );
    assert_eq!(
        message_for_signing(&Some(sample_json("!!")), &[], &bh),
        Err(SolanaError::Message(MessageError::UndecodableInstructionData("!!".to_string())))
    );
}

#[test]
fn wire_payload_gets_fresh_blockhash() {
    let old = [0x33u8; 32];
    let fresh = [0x44u8; 32];
    let message = one_instruction_message(&old);
    let mut tx = vec![2u8];
    tx.extend([0u8; 128]);
    tx.extend_from_slice(&message);
    assert_eq!(message_for_signing(&None, &tx, &fresh), Ok(one_instruction_message(&fresh)));
    assert_eq!(
        message_for_signing(&None, &[], &fresh),
        Err(SolanaError::Wire(WireError::EmptyPayload))
    );
}

#[test]
fn signing_an_unsigned_message_replaces_the_placeholder() {
    // Only the fee payer signs, so the bare message is not misread as a wire
    // transaction.
    let accounts = vec![(COUNTING_KEY.to_string(), false, true)];
    let text = encode_unsigned_message(FEE_PAYER, PROGRAM, &accounts, &[1, 2, 3]).unwrap();
    let payload = decode_transaction_bytes(&text).unwrap();
    let fresh = [0x5au8; 32];
    let signed = signed_transaction(&None, &payload, &keypair(), &fresh).unwrap();
    let wire = bs58::decode(&signed).into_vec().unwrap();
    assert_eq!(wire[0], 1);
    let message = wire[65..].to_vec();

    let json = TxJson {
        fee_payer: FEE_PAYER.to_string(),
        recent_blockhash: SYSTEM_PROGRAM.to_string(),
        instructions: vec![IxJson {
            program_id: PROGRAM.to_string(),
            keys: vec![KeyJson {
                pubkey: COUNTING_KEY.to_string(),
                is_signer: false,
                is_writable: true,
            }],
            data: "Ldp".to_string(),
        }],
    };
    assert_eq!(build_message_from_json(&json, &fresh), Ok(message.clone()));
    assert_eq!(wire[1..65].to_vec(), sign_message(&keypair(), &message).to_vec());

    let public: [u8; 32] = key(FEE_PAYER).try_into().unwrap();
    let vk = ed25519_dalek::VerifyingKey::from_bytes(&public).unwrap();
    let sig_bytes: [u8; 64] = wire[1..65].try_into().unwrap();
    let sig = ed25519_dalek::Signature::from_bytes(&sig_bytes);
    assert!(vk.verify(&message, &sig).is_ok());
}

#[test]
fn signed_json_transaction() {
    let bh = [0x11u8; 32];
    let signed = signed_transaction(&Some(sample_json("Ldp")), &[], &keypair(), &bh).unwrap();
    let wire = bs58::decode(&signed).into_vec().unwrap();
    let message = one_instruction_message(&bh);
    let mut want = vec![1u8];
    want.extend(sign_message(&keypair(), &message));
    want.extend(message);
    assert_eq!(wire, want);
}

#[test]
fn simulation_uses_zero_signature() {
    let message = one_instruction_message(&[0u8; 32]);
    let sim = simulation_transaction(&Some(sample_json("Ldp")), &[]).unwrap();
    let mut want = vec![1u8];
    want.extend([0u8; 64]);
    want.extend(message.clone());
    assert_eq!(bs58::decode(&sim).into_vec().unwrap(), want);

    let mut tx = vec![1u8];
    tx.extend([9u8; 64]);
    tx.extend(one_instruction_message(&[3u8; 32]));
    let sim = simulation_transaction(&None, &tx).unwrap();
    let mut want = vec![1u8];
    want.extend([0u8; 64]);
    want.extend(one_instruction_message(&[3u8; 32]));
    assert_eq!(bs58::decode(&sim).into_vec().unwrap(), want);
}

#[test]
fn signing_a_message_without_accounts_replaces_the_placeholder() {
    // Only the fee payer and the program: the payload also has a readable blockhash
    // position from byte 65 on, yet it is read whole and its placeholder replaced.
    let text = encode_unsigned_message(FEE_PAYER, PROGRAM, &[], &[1, 2, 3]).unwrap();
    let payload = decode_transaction_bytes(&text).unwrap();
    assert_eq!(payload[0], 1);
    let fresh = [0x77u8; 32];
    let signed = signed_transaction(&None, &payload, &keypair(), &fresh).unwrap();
    let wire = bs58::decode(&signed).into_vec().unwrap();
    let json = TxJson {
        fee_payer: FEE_PAYER.to_string(),
        recent_blockhash: SYSTEM_PROGRAM.to_string(),
        instructions: vec![IxJson { program_id: PROGRAM.to_string(), keys: vec![], data: "Ldp".to_string() }],
    };
    assert_eq!(build_message_from_json(&json, &fresh), Ok(wire[65..].to_vec()));
    assert_eq!(message_for_signing(&None, &payload, &fresh), Ok(wire[65..].to_vec()));
}
