use orquestra_cli::api::{IdlType, InstructionAccount, InstructionArg, PdaAccount, PdaDefinition, PdaSeed};
use orquestra_cli::idl::{
    arg_type_of, byte_list_string, describe_bytes, idl_to_instructions, idl_to_pda_accounts,
    resolve_pda_seeds, IdlAccount, IdlArg, IdlInstruction, IdlPda, IdlSeed, SolanaIdl,
};
use orquestra_cli::strmap::StrMap;
use orquestra_cli::values::ArgValue;

const PROGRAM: &str = "1thX6LZfHDZZKUs92febYZhYRcXddmzfzF2NvTkPNE";
const AUTHORITY: &str = "9C6hybhQ6Aycep9jaUnP6uL9ZYvDjUp1aSkFWPUFJtpj";
const SYSTEM_PROGRAM: &str = "11111111111111111111111111111111";

fn seed(kind: &str, value: Option<Vec<u8>>, path: Option<&str>) -> IdlSeed {
    IdlSeed { kind: kind.to_string(), value, path: path.map(|p| p.to_string()), program: None }
}

fn vault_pda() -> IdlPda {
    IdlPda {
        seeds: vec![
            seed("const", Some(b"vault".to_vec()), None),
            seed("account", None, Some("authority")),
            seed("arg", None, Some("id")),
        ],
    }
}

fn account(name: &str, writable: bool, signer: bool) -> IdlAccount {
    IdlAccount { name: name.to_string(), writable, signer, address: None, pda: None }
}

fn sample_idl() -> SolanaIdl {
    let mut vault = account("vault", true, false);
    vault.pda = Some(vault_pda());
    let mut system = account("system_program", false, false);
    system.address = Some(SYSTEM_PROGRAM.to_string());
    let init = IdlInstruction {
        name: "initialize".to_string(),
        discriminator: vec![175, 175, 109, 31, 13, 152, 155, 237],
        accounts: vec![vault, account("authority", true, true), system],
        args: vec![
            IdlArg { name: "id".to_string(), ty: IdlType::Simple("u64".to_string()) },
            IdlArg { name: "meta".to_string(), ty: IdlType::Complex("{\"vec\":\"u8\"}".to_string()) },
        ],
    };
    let mut config = account("config", false, false);
    config.pda = Some(IdlPda { seeds: vec![seed("const", Some(vec![0xff, 0x00]), None)] });
    let close = IdlInstruction {
        name: "close".to_string(),
        discriminator: vec![],
        accounts: vec![account("authority", false, true), config],
        args: vec![],
    };
    SolanaIdl { address: PROGRAM.to_string(), instructions: vec![init, close] }
}

#[test]
fn instructions_from_idl() {
    let ixs = idl_to_instructions(&sample_idl());
    assert_eq!(ixs.len(), 2);
    let init = &ixs[0];
    assert_eq!(init.name, "initialize");
    assert!(init.docs.is_empty());
    assert_eq!(init.args, vec![
        InstructionArg { name: "id".to_string(), ty: IdlType::Simple("u64".to_string()) },
        InstructionArg { name: "meta".to_string(), ty: IdlType::Complex("{\"vec\":\"u8\"}".to_string()) },
    ]);
    assert_eq!(init.accounts[0], InstructionAccount {
        name: "vault".to_string(),
        is_mut: true,
        is_signer: false,
        is_optional: false,
        pda: Some(PdaDefinition::Idl(vault_pda())),
    });
    assert_eq!(init.accounts[1], InstructionAccount {
        name: "authority".to_string(),
        is_mut: true,
        is_signer: true,
        is_optional: false,
        pda: None,
    });
    assert_eq!(init.accounts[2].pda, None);
    assert_eq!(ixs[1].name, "close");
    assert!(ixs[1].args.is_empty());
}

#[test]
fn pda_accounts_from_idl() {
    let pdas = idl_to_pda_accounts(&sample_idl());
    assert_eq!(pdas, vec![
        PdaAccount {
            instruction: "initialize".to_string(),
            account: "vault".to_string(),
            seeds: vec![
                PdaSeed { kind: "const".to_string(), description: Some("vault".to_string()), name: None, ty: None },
                PdaSeed {
                    kind: "account".to_string(),
                    description: None,
                    name: Some("authority".to_string()),
                    ty: Some("publicKey".to_string()),
                },
                PdaSeed {
                    kind: "arg".to_string(),
                    description: None,
                    name: Some("id".to_string()),
                    ty: Some("u64".to_string()),
                },
            ],
        },
        PdaAccount {
            instruction: "close".to_string(),
            account: "config".to_string(),
            seeds: vec![PdaSeed {
                kind: "const".to_string(),
                description: Some("[255, 0]".to_string()),
                name: None,
                ty: None,
            }],
        },
    ]);
}

#[test]
fn pda_seed_types_for_unknown_and_complex_args() {
    let mut acc = account("state", true, false);
    acc.pda = Some(IdlPda {
        seeds: vec![seed("arg", None, Some("meta")), seed("arg", None, Some("nope")), seed("other", None, None)],
    });
    let ix = IdlInstruction {
        name: "set".to_string(),
        discriminator: vec![],
        accounts: vec![acc],
        args: vec![IdlArg { name: "meta".to_string(), ty: IdlType::Complex("{}".to_string()) }],
    };
    let pdas = idl_to_pda_accounts(&SolanaIdl { address: PROGRAM.to_string(), instructions: vec![ix] });
    let tys: Vec<Option<String>> = pdas[0].seeds.iter().map(|s| s.ty.clone()).collect();
    assert_eq!(tys, vec![Some("string".to_string()), None, None]);
}

#[test]
fn describe_bytes_text_or_list() {
    assert_eq!(describe_bytes(b"vault"), "vault");
    assert_eq!(describe_bytes(&[]), "");
    assert_eq!(describe_bytes(&[0xff, 0x00]), "[255, 0]");
    assert_eq!(byte_list_string(&[]), "[]");
    assert_eq!(byte_list_string(&[1, 22, 255]), "[1, 22, 255]");
}

#[test]
fn arg_types_by_name() {
    let args = sample_idl().instructions[0].args.clone();
    assert_eq!(arg_type_of(&args, "id"), "u64");
    assert_eq!(arg_type_of(&args, "meta"), "string");
    assert_eq!(arg_type_of(&args, "missing"), "string");
}

fn collected() -> (StrMap<String>, StrMap<ArgValue>) {
    let mut accounts = StrMap::new();
    accounts.insert("authority".to_string(), AUTHORITY.to_string());
    let mut args = StrMap::new();
    args.insert("id".to_string(), ArgValue::UInt(7));
    (accounts, args)
}

#[test]
fn seeds_resolve_once_collected() {
    let idl = sample_idl();
    let ix = &idl.instructions[0];
    let (accounts, args) = collected();
    let seeds = resolve_pda_seeds(&vault_pda(), ix, &accounts, &args).unwrap();
    assert_eq!(seeds, vec![
        b"vault".to_vec(),
        bs58::decode(AUTHORITY).into_vec().unwrap(),
        vec![7, 0, 0, 0, 0, 0, 0, 0],
    ]);
}

#[test]
fn seeds_wait_for_missing_values() {
    let idl = sample_idl();
    let ix = &idl.instructions[0];
    let (accounts, args) = collected();
    let empty_accounts: StrMap<String> = StrMap::new();
    let empty_args: StrMap<ArgValue> = StrMap::new();
    assert_eq!(resolve_pda_seeds(&vault_pda(), ix, &empty_accounts, &args), None);
    assert_eq!(resolve_pda_seeds(&vault_pda(), ix, &accounts, &empty_args), None);
}

#[test]
fn seeds_that_do_not_encode_resolve_to_nothing() {
    let idl = sample_idl();
    let ix = &idl.instructions[0];
    let (_, args) = collected();
    let mut bad_accounts = StrMap::new();
    bad_accounts.insert("authority".to_string(), "2".to_string());
    assert_eq!(resolve_pda_seeds(&vault_pda(), ix, &bad_accounts, &args), None);
    let (accounts, _) = collected();
    let mut bad_args = StrMap::new();
    bad_args.insert("id".to_string(), ArgValue::Text("seven".to_string()));
    assert_eq!(resolve_pda_seeds(&vault_pda(), ix, &accounts, &bad_args), None);
    let unknown = IdlPda { seeds: vec![seed("mystery", None, Some("x"))] };
    assert_eq!(resolve_pda_seeds(&unknown, ix, &accounts, &args), None);
    let valueless = IdlPda { seeds: vec![seed("const", None, None)] };
    assert_eq!(resolve_pda_seeds(&valueless, ix, &accounts, &args), None);
}

#[test]
fn arg_seed_of_untyped_arg_is_its_string() {
    let ix = IdlInstruction { name: "x".to_string(), discriminator: vec![], accounts: vec![], args: vec![] };
    let pda = IdlPda { seeds: vec![seed("arg", None, Some("label"))] };
    let accounts: StrMap<String> = StrMap::new();
    let mut args = StrMap::new();
    args.insert("label".to_string(), ArgValue::Text("alice".to_string()));
    assert_eq!(resolve_pda_seeds(&pda, &ix, &accounts, &args), Some(vec![b"alice".to_vec()]));
}

#[test]
fn empty_pda_resolves_to_no_seeds() {
    let ix = IdlInstruction { name: "x".to_string(), discriminator: vec![], accounts: vec![], args: vec![] };
    let accounts: StrMap<String> = StrMap::new();
    let args: StrMap<ArgValue> = StrMap::new();
    assert_eq!(resolve_pda_seeds(&IdlPda { seeds: vec![] }, &ix, &accounts, &args), Some(vec![]));
}

#[test]
fn more_collected_values_keep_resolved_seeds() {
    let idl = sample_idl();
    let ix = &idl.instructions[0];
    let (mut accounts, mut args) = collected();
    let before = resolve_pda_seeds(&vault_pda(), ix, &accounts, &args);
    assert!(before.is_some());
    accounts.insert("payer".to_string(), SYSTEM_PROGRAM.to_string());
    args.insert("other".to_string(), ArgValue::Bool(true));
    assert_eq!(resolve_pda_seeds(&vault_pda(), ix, &accounts, &args), before);
}
