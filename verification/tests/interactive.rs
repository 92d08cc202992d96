use orquestra_cli::api::{IdlType, Instruction, InstructionArg, PdaAccount, PdaSeed};
use orquestra_cli::borsh::ValueError;
use orquestra_cli::config::Config;
use orquestra_cli::idl::{IdlAccount, IdlArg, IdlInstruction, IdlPda, IdlSeed, SolanaIdl};
use orquestra_cli::interactive::{
    account_flags, account_seed_bytes, apply_config_reset, arg_seed_bytes, args_summary,
    coerce_value, explorer_url, find_instruction, find_name, first_by_name, idl_pda_label,
    infer_network, instruction_label, is_fee_payer_candidate, is_prompted_seed, non_empty,
    pda_account_label, pda_positions, reset_defaults, seed_input, seed_prompt, AccountCollection,
    AccountSeedError, AccountStep, SeedInput, build_idl_transaction, BuildError,
};
use orquestra_cli::solana::SolanaError;
use orquestra_cli::strmap::StrMap;
use orquestra_cli::values::ArgValue;

const PROGRAM: &str = "1thX6LZfHDZZKUs92febYZhYRcXddmzfzF2NvTkPNE";
const AUTHORITY: &str = "9C6hybhQ6Aycep9jaUnP6uL9ZYvDjUp1aSkFWPUFJtpj";
const SYSTEM_PROGRAM: &str = "11111111111111111111111111111111";

fn s(x: &str) -> String {
    x.to_string()
}

fn seed(kind: &str, value: Option<Vec<u8>>, path: Option<&str>) -> IdlSeed {
    IdlSeed { kind: s(kind), value, path: path.map(s), program: None }
}

fn account(name: &str, writable: bool, signer: bool) -> IdlAccount {
    IdlAccount { name: s(name), writable, signer, address: None, pda: None }
}

fn vault_account() -> IdlAccount {
    let mut vault = account("vault", true, false);
    vault.pda = Some(IdlPda {
        seeds: vec![
            seed("const", Some(b"vault".to_vec()), None),
            seed("account", None, Some("authority")),
            seed("arg", None, Some("id")),
        ],
    });
    vault
}

fn init_instruction() -> IdlInstruction {
    let mut system = account("system_program", false, false);
    system.address = Some(s(SYSTEM_PROGRAM));
    IdlInstruction {
        name: s("initialize"),
        discriminator: vec![1, 2, 3, 4, 5, 6, 7, 8],
        accounts: vec![account("authority", true, true), vault_account(), system],
        args: vec![IdlArg { name: s("id"), ty: IdlType::Simple(s("u64")) }],
    }
}

#[test]
fn network_from_rpc_url() {
    assert_eq!(infer_network("https://api.devnet.solana.com"), "devnet");
    assert_eq!(infer_network("https://api.testnet.solana.com"), "testnet");
    assert_eq!(infer_network("https://api.mainnet-beta.solana.com"), "mainnet-beta");
    assert_eq!(infer_network("http://localhost:8899"), "mainnet-beta");
    // devnet is checked first.
    assert_eq!(infer_network("https://devnet-and-testnet.example"), "devnet");
}

#[test]
fn explorer_links() {
    assert_eq!(explorer_url("abc", "mainnet-beta"), "https://explorer.solana.com/tx/abc");
    assert_eq!(explorer_url("abc", "devnet"), "https://explorer.solana.com/tx/abc?cluster=devnet");
}

#[test]
fn non_empty_trims() {
    assert_eq!(non_empty(s("  x ")), Some(s("x")));
    assert_eq!(non_empty(s("   ")), None);
    assert_eq!(non_empty(s("")), None);
}

#[test]
fn typed_input_becomes_values() {
    assert_eq!(coerce_value("42", "u64"), ArgValue::UInt(42));
    assert_eq!(coerce_value("-5", "i32"), ArgValue::NegInt(-5));
    assert_eq!(coerce_value("-0", "i32"), ArgValue::UInt(0));
    assert_eq!(coerce_value("+7", "U8"), ArgValue::UInt(7));
    assert_eq!(coerce_value("abc", "u64"), ArgValue::Text(s("abc")));
    assert_eq!(coerce_value("18446744073709551616", "u128"), ArgValue::Text(s("18446744073709551616")));
    assert_eq!(coerce_value("YES", "bool"), ArgValue::Bool(true));
    assert_eq!(coerce_value("nope", "Bool"), ArgValue::Bool(false));
    assert_eq!(coerce_value("hello", "string"), ArgValue::Text(s("hello")));
    assert_eq!(coerce_value("12", "publicKey"), ArgValue::Text(s("12")));
}

#[test]
fn fee_payer_candidates() {
    assert!(is_fee_payer_candidate("anything", true));
    assert!(is_fee_payer_candidate("mintAuthority", false));
    assert!(is_fee_payer_candidate("PAYER", false));
    assert!(!is_fee_payer_candidate("vault", false));
}

#[test]
fn account_flag_suffixes() {
    assert_eq!(account_flags(false, false, false), "");
    assert_eq!(account_flags(true, false, false), " [mut]");
    assert_eq!(account_flags(true, true, true), " [mut, signer, optional]");
    assert_eq!(account_flags(false, true, true), " [signer, optional]");
}

#[test]
fn account_steps_in_idl_mode() {
    let ix = init_instruction();
    let mut args = StrMap::new();
    args.insert(s("id"), ArgValue::UInt(7));
    let mut c = AccountCollection::new();

    // The authority has no fixed address or PDA: ask for it.
    assert_eq!(c.next_step(&ix, &ix.accounts[0], &args, PROGRAM), AccountStep::Prompt(None));
    // The vault cannot be derived before the authority is known.
    assert_eq!(c.next_step(&ix, &ix.accounts[1], &args, PROGRAM), AccountStep::Prompt(None));
    c.record(&ix.accounts[0], s(AUTHORITY), true);
    assert_eq!(c.fee_payer, AUTHORITY);
    assert_eq!(
        c.next_step(&ix, &ix.accounts[1], &args, PROGRAM),
        AccountStep::Derived(s("C8yFpbm3htQ9R8X33UU3B7DiMT7oCbGaTDLUxvWv4XSX"))
    );
    assert_eq!(
        c.next_step(&ix, &ix.accounts[2], &args, PROGRAM),
        AccountStep::Fixed(s(SYSTEM_PROGRAM))
    );
    // A bad program id is reported instead of a derived address.
    assert_eq!(
        c.next_step(&ix, &ix.accounts[1], &args, "2"),
        AccountStep::Prompt(Some(SolanaError::ProgramIdLength))
    );
}

#[test]
fn recording_accounts_keeps_order_and_first_payer() {
    let mut c = AccountCollection::new();
    c.record(&account("vault", true, false), s("V"), true);
    assert_eq!(c.fee_payer, "");
    c.record(&account("authority", false, false), s("A"), false);
    assert_eq!(c.fee_payer, "");
    c.record(&account("owner", true, true), s("O"), true);
    assert_eq!(c.fee_payer, "O");
    c.record(&account("payer", true, true), s("P"), true);
    assert_eq!(c.fee_payer, "O");
    assert_eq!(c.accounts, vec![
        (s("vault"), s("V"), false, true),
        (s("authority"), s("A"), false, false),
        (s("owner"), s("O"), true, true),
        (s("payer"), s("P"), true, true),
    ]);
    assert_eq!(c.by_name.get("authority"), Some(&s("A")));
    assert_eq!(c.by_name.len(), 4);
}

#[test]
fn first_occurrence_positions() {
    let names = vec![s("a"), s("b"), s("a"), s("c"), s("b")];
    assert_eq!(first_by_name(&names), vec![0, 1, 3]);
    assert_eq!(first_by_name(&vec![]), Vec::<usize>::new());
    assert_eq!(find_name(&names, "b"), Some(1));
    assert_eq!(find_name(&names, "z"), None);
}

fn api_instruction(name: &str, docs: Vec<String>, args: Vec<InstructionArg>) -> Instruction {
    Instruction { name: s(name), docs, args, accounts: vec![] }
}

#[test]
fn instruction_labels_and_lookup() {
    let with_docs = api_instruction("deposit", vec![s("Deposit funds"), s("second")], vec![]);
    let bare = api_instruction("withdraw", vec![], vec![]);
    assert_eq!(instruction_label(&with_docs), "deposit — Deposit funds");
    assert_eq!(instruction_label(&bare), "withdraw");
    let ixs = vec![with_docs, bare];
    assert_eq!(find_instruction(&ixs, "withdraw"), Some(1));
    assert_eq!(find_instruction(&ixs, "swap"), None);
}

#[test]
fn argument_summaries() {
    let ix = api_instruction("x", vec![], vec![
        InstructionArg { name: s("amount"), ty: IdlType::Simple(s("u64")) },
        InstructionArg { name: s("data"), ty: IdlType::Complex(s("{\"vec\":\"u8\"}")) },
    ]);
    assert_eq!(args_summary(&ix), "amount: u64, data: {\"vec\":\"u8\"}");
    assert_eq!(args_summary(&api_instruction("y", vec![], vec![])), "(no args)");
}

#[test]
fn pda_positions_in_order() {
    let mut close = init_instruction();
    close.name = s("close");
    close.accounts = vec![vault_account(), account("x", false, false), vault_account()];
    let idl = SolanaIdl { address: s(PROGRAM), instructions: vec![init_instruction(), close] };
    assert_eq!(pda_positions(&idl), vec![(0, 1), (1, 0), (1, 2)]);
}

#[test]
fn pda_labels() {
    let p = PdaAccount {
        instruction: s("init"),
        account: s("vault"),
        seeds: vec![
            PdaSeed { kind: s("const"), description: Some(s("vault")), name: None, ty: None },
            PdaSeed { kind: s("arg"), description: None, name: Some(s("id")), ty: Some(s("u64")) },
            PdaSeed { kind: s("arg"), description: None, name: None, ty: None },
            PdaSeed { kind: s("account"), description: None, name: Some(s("owner")), ty: None },
        ],
    };
    assert_eq!(pda_account_label(&p), "vault (id, ?)");
    let plain = PdaAccount { instruction: s("i"), account: s("cfg"), seeds: vec![] };
    assert_eq!(pda_account_label(&plain), "cfg");
    assert_eq!(idl_pda_label(&vault_account()), "vault (authority, id)");
    assert_eq!(idl_pda_label(&account("plain", false, false)), "plain");
}

#[test]
fn seed_prompts_in_api_mode() {
    let arg = PdaSeed { kind: s("arg"), description: None, name: Some(s("id")), ty: Some(s("u64")) };
    let acc = PdaSeed { kind: s("account"), description: None, name: None, ty: Some(s("x")) };
    let konst = PdaSeed { kind: s("const"), description: None, name: None, ty: None };
    assert!(is_prompted_seed(&arg));
    assert!(is_prompted_seed(&acc));
    assert!(!is_prompted_seed(&konst));
    assert_eq!(seed_prompt(&arg), (s("id"), s("u64")));
    assert_eq!(seed_prompt(&acc), (s("value"), s("publicKey")));
    assert_eq!(seed_prompt(&konst), (s("value"), s("string")));
}

#[test]
fn seed_inputs_in_idl_mode() {
    let ix = init_instruction();
    assert_eq!(seed_input(&seed("const", Some(vec![1, 2]), None), &ix), SeedInput::Constant(vec![1, 2]));
    assert_eq!(seed_input(&seed("const", None, None), &ix), SeedInput::Constant(vec![]));
    assert_eq!(seed_input(&seed("arg", None, Some("id")), &ix), SeedInput::Argument {
        name: s("id"),
        ty: s("u64")
    });
    assert_eq!(seed_input(&seed("arg", None, None), &ix), SeedInput::Argument {
        name: s("value"),
        ty: s("string")
    });
    assert_eq!(seed_input(&seed("account", None, None), &ix), SeedInput::Account { name: s("account") });
    assert_eq!(seed_input(&seed("weird", None, None), &ix), SeedInput::UnknownKind(s("weird")));
}

#[test]
fn typed_seed_values() {
    assert_eq!(arg_seed_bytes("7", "u64"), Ok(vec![7, 0, 0, 0, 0, 0, 0, 0]));
    assert_eq!(arg_seed_bytes("alice", "string"), Ok(b"alice".to_vec()));
    assert_eq!(arg_seed_bytes("x", "u16"), Err(ValueError::Expected(s("u16"))));
    assert_eq!(account_seed_bytes(SYSTEM_PROGRAM), Ok(vec![0; 32]));
    assert_eq!(account_seed_bytes("0"), Err(AccountSeedError::InvalidPubkey(s("0"))));
    assert_eq!(account_seed_bytes("2"), Err(AccountSeedError::PubkeyLength));
}

#[test]
fn config_reset_answers() {
    let mut c = Config {
        project_id: Some(s("p")),
        api_key: Some(s("old")),
        rpc_url: None,
        keypair_path: Some(s("k")),
        api_base_url: None,
        idl_path: None,
    };
    assert_eq!(reset_defaults(&c), (
        s("p"),
        s("https://api.mainnet-beta.solana.com"),
        s("k"),
        s("https://api.orquestra.build"),
        s("")
    ));
    apply_config_reset(&mut c, s(" q "), s(""), s("https://api.devnet.solana.com"), s(""), s(" "), s("idl.json"));
    assert_eq!(c, Config {
        project_id: Some(s("q")),
        api_key: Some(s("old")),
        rpc_url: Some(s("https://api.devnet.solana.com")),
        keypair_path: None,
        api_base_url: None,
        idl_path: Some(s("idl.json")),
    });
    apply_config_reset(&mut c, s(""), s(" new key "), s(""), s(""), s(""), s(""));
    assert_eq!(c.api_key, Some(s(" new key ")));
    assert_eq!(c.project_id, None);
}

#[test]
fn recording_accounts_by_name_in_api_mode() {
    let mut c = AccountCollection::new();
    c.record_account(&s("mint"), false, true, s("M"), true);
    c.record_account(&s("mintAuthority"), false, false, s("A"), true);
    c.record_account(&s("mint"), false, true, s("M2"), true);
    assert_eq!(c.fee_payer, "A");
    assert_eq!(c.by_name.get("mint"), Some(&s("M2")));
    assert_eq!(c.by_name.len(), 2);
    assert_eq!(c.accounts.len(), 3);
}

#[test]
fn reset_with_every_default_keeps_the_effective_values() {
    let before = Config {
        project_id: Some(s("prog")),
        api_key: Some(s("secret")),
        rpc_url: None,
        keypair_path: Some(s("/k.json")),
        api_base_url: None,
        idl_path: None,
    };
    let (p, r, k, b, i) = reset_defaults(&before);
    let mut after = before.clone();
    apply_config_reset(&mut after, p, s(""), r, k, b, i);
    assert_eq!(after.project_id, before.project_id);
    assert_eq!(after.api_key, before.api_key);
    assert_eq!(after.rpc(), before.rpc());
    assert_eq!(after.api_base(), before.api_base());
    assert_eq!(after.api_base(), "https://api.orquestra.build");
    assert_eq!(after.keypair_path, before.keypair_path);
    assert_eq!(after.idl_path, None);
}

#[test]
fn idl_transaction_is_discriminator_args_and_accounts() {
    let ix = init_instruction();
    let mut args = StrMap::new();
    args.insert(s("id"), ArgValue::UInt(7));
    let accounts = vec![
        (s("authority"), s(AUTHORITY), true, true),
        (s("vault"), s("C8yFpbm3htQ9R8X33UU3B7DiMT7oCbGaTDLUxvWv4XSX"), false, true),
        (s("system_program"), s(SYSTEM_PROGRAM), false, false),
    ];
    let text = build_idl_transaction(&ix, &args, &accounts, AUTHORITY, PROGRAM).unwrap();
    let mut data = vec![1, 2, 3, 4, 5, 6, 7, 8];
    data.extend([7, 0, 0, 0, 0, 0, 0, 0]);
    let triples: Vec<(String, bool, bool)> = accounts.iter().map(|a| (a.1.clone(), a.2, a.3)).collect();
    assert_eq!(
        Ok(text),
        orquestra_cli::solana::encode_unsigned_message(AUTHORITY, PROGRAM, &triples, &data).map_err(BuildError::Message)
    );
}

#[test]
fn idl_transaction_errors() {
    let ix = init_instruction();
    let empty: StrMap<ArgValue> = StrMap::new();
    assert_eq!(
        build_idl_transaction(&ix, &empty, &vec![], AUTHORITY, PROGRAM),
        Err(BuildError::Args(orquestra_cli::borsh::ArgsError::MissingValue(s("id"))))
    );
    let mut args = StrMap::new();
    args.insert(s("id"), ArgValue::UInt(1));
    let bad = vec![(s("authority"), s("0OIl"), true, true)];
    assert_eq!(
        build_idl_transaction(&ix, &args, &bad, AUTHORITY, PROGRAM),
        Err(BuildError::Message(orquestra_cli::message::MessageError::InvalidPubkey(s("0OIl"))))
    );
}
