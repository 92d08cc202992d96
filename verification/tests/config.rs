use orquestra_cli::api::{
    instruction_list, instruction_of, search_result, ApiEndpoint, BuildResponse, IdlType,
    Instruction, InstructionDetailResponse, InstructionsListResponse, SearchPagination,
    SearchProject, SearchResponse,
};
use orquestra_cli::cli::{parse_kv_pairs, ConfigSetArgs, KvError};
use orquestra_cli::config::{mask_secret, normalize_optional, Config, ConfigError};
use orquestra_cli::strmap::StrMap;

fn some(s: &str) -> Option<String> {
    Some(s.to_string())
}

fn strings(items: &[&str]) -> Vec<String> {
    items.iter().map(|s| s.to_string()).collect()
}

fn instruction(name: &str) -> Instruction {
    Instruction { name: name.to_string(), docs: vec![], args: vec![], accounts: vec![] }
}

#[test]
fn mask_secret_short_values_are_all_stars() {
    assert_eq!(mask_secret(""), "");
    assert_eq!(mask_secret("abc"), "***");
    assert_eq!(mask_secret("12345678"), "********");
}

#[test]
fn mask_secret_keeps_four_at_each_end() {
    assert_eq!(mask_secret("123456789"), "1234***6789");
    assert_eq!(mask_secret("sk_live_abcdefgh"), "sk_l***efgh");
}

#[test]
fn normalize_optional_trims_and_clears() {
    assert_eq!(normalize_optional(None), None);
    assert_eq!(normalize_optional(some("  ~/id.json \n")), some("~/id.json"));
    assert_eq!(normalize_optional(some(" \t ")), None);
    assert_eq!(normalize_optional(some("")), None);
}

#[test]
fn normalizing_twice_is_normalizing_once() {
    for v in [None, some(""), some(" a "), some("a b"), some("\tx\n")] {
        let once = normalize_optional(v);
        assert_eq!(normalize_optional(once.clone()), once);
    }
}

#[test]
fn merge_overrides_only_given_fields() {
    let mut c = Config {
        project_id: some("old-program"),
        api_key: some("old-key"),
        rpc_url: some("https://rpc.old"),
        keypair_path: None,
        api_base_url: None,
        idl_path: some("idl.json"),
    };
    let update = Config {
        project_id: some("  new-program "),
        api_key: None,
        rpc_url: some("   "),
        keypair_path: some("/home/me/id.json  "),
        api_base_url: None,
        idl_path: None,
    };
    c.merge(update);
    assert_eq!(c, Config {
        project_id: some("new-program"),
        api_key: some("old-key"),
        rpc_url: None,
        keypair_path: some("/home/me/id.json"),
        api_base_url: None,
        idl_path: some("idl.json"),
    });
}

#[test]
fn merging_nothing_changes_nothing() {
    let before = Config {
        project_id: some("p"),
        api_key: some(" spaced "),
        rpc_url: None,
        keypair_path: some("k"),
        api_base_url: some("b"),
        idl_path: None,
    };
    let mut c = before.clone();
    c.merge(Config::default());
    assert_eq!(c, before);
}

#[test]
fn merging_twice_equals_merging_once() {
    let update = Config {
        project_id: some(" p "),
        api_key: some("\t"),
        rpc_url: some("https://api.devnet.solana.com"),
        keypair_path: None,
        api_base_url: None,
        idl_path: some("x.json "),
    };
    let mut once = Config::default();
    once.merge(update.clone());
    let mut twice = once.clone();
    twice.merge(update);
    assert_eq!(once, twice);
}

#[test]
fn defaults_apply_when_unset() {
    let c = Config::default();
    assert_eq!(c.api_base(), "https://api.orquestra.build");
    assert_eq!(c.rpc(), "https://api.mainnet-beta.solana.com");
    assert_eq!(c.require_project_id(), Err(ConfigError::ProjectIdNotSet));
    assert_eq!(c.optional_api_key(), None);
}

#[test]
fn configured_values_win() {
    let c = Config {
        project_id: some("prog"),
        api_key: some("key"),
        rpc_url: some("http://localhost:8899"),
        keypair_path: None,
        api_base_url: some("http://localhost:3000"),
        idl_path: None,
    };
    assert_eq!(c.api_base(), "http://localhost:3000");
    assert_eq!(c.rpc(), "http://localhost:8899");
    assert_eq!(c.require_project_id(), Ok("prog"));
    assert_eq!(c.optional_api_key(), Some("key"));
}

#[test]
fn display_of_empty_config() {
    assert_eq!(
        Config::default().display(),
        "program_id  : (not set)\napi_key     : (not set)\nrpc_url     : https://api.mainnet-beta.solana.com\nkeypair_path: (not set)\napi_base_url: https://api.orquestra.build\nidl_path    : (not set)"
    );
}

#[test]
fn display_masks_the_api_key() {
    let c = Config {
        project_id: some("Prog1111"),
        api_key: some("abcdefghijkl"),
        rpc_url: some("https://api.devnet.solana.com"),
        keypair_path: some("/k.json"),
        api_base_url: None,
        idl_path: some("/idl.json"),
    };
    assert_eq!(
        c.display(),
        "program_id  : Prog1111\napi_key     : abcd***ijkl\nrpc_url     : https://api.devnet.solana.com\nkeypair_path: /k.json\napi_base_url: https://api.orquestra.build\nidl_path    : /idl.json"
    );
}

#[test]
fn config_set_arguments_map_to_fields() {
    let args = ConfigSetArgs {
        project_id: some("p"),
        api_key: None,
        rpc: some("r"),
        keypair: some("k"),
        api_base: None,
        idl: some("i"),
    };
    assert_eq!(args.into_config(), Config {
        project_id: some("p"),
        api_key: None,
        rpc_url: some("r"),
        keypair_path: some("k"),
        api_base_url: None,
        idl_path: some("i"),
    });
}

fn get(m: &StrMap<String>, k: &str) -> Option<String> {
    m.get(k).cloned()
}

#[test]
fn kv_pairs_split_at_first_equals_and_trim() {
    let m = parse_kv_pairs(&strings(&[" owner = abc ", "memo=a=b", "empty="])).unwrap();
    assert_eq!(m.len(), 3);
    assert_eq!(get(&m, "owner"), some("abc"));
    assert_eq!(get(&m, "memo"), some("a=b"));
    assert_eq!(get(&m, "empty"), some(""));
    assert_eq!(get(&m, " owner "), None);
}

#[test]
fn kv_pairs_later_pair_wins() {
    let m = parse_kv_pairs(&strings(&["a=1", "b=2", "a=3"])).unwrap();
    assert_eq!(m.len(), 2);
    assert_eq!(get(&m, "a"), some("3"));
    assert_eq!(get(&m, "b"), some("2"));
}

#[test]
fn kv_pairs_empty_input() {
    let m = parse_kv_pairs(&[]).unwrap();
    assert_eq!(m.len(), 0);
}

#[test]
fn kv_pairs_reject_pair_without_equals() {
    assert_eq!(
        parse_kv_pairs(&strings(&["a=1", "oops", "b"])).map(|m| m.len()),
        Err(KvError::InvalidPair("oops".to_string()))
    );
}

#[test]
fn endpoint_joins_base_and_path() {
    let e = ApiEndpoint::new("https://api.orquestra.build///", Some("k".to_string()));
    assert_eq!(e.base_url, "https://api.orquestra.build");
    assert_eq!(e.api_key, some("k"));
    assert_eq!(e.url("/api/programs/x"), "https://api.orquestra.build/api/programs/x");
    assert_eq!(e.url("//search"), "https://api.orquestra.build/search");
    assert_eq!(e.url(""), "https://api.orquestra.build/");
    let bare = ApiEndpoint::new("http://h", None);
    assert_eq!(bare.url("a/b/"), "http://h/a/b/");
}

#[test]
fn build_response_prefers_serialized_transaction() {
    let mut r = BuildResponse {
        transaction: "json-form".to_string(),
        serialized_transaction: some("wire-form"),
        message: None,
        estimated_fee: Some(5000),
    };
    assert_eq!(r.preferred_transaction(), "wire-form");
    r.serialized_transaction = None;
    assert_eq!(r.preferred_transaction(), "json-form");
}

#[test]
fn instruction_list_falls_back_to_data() {
    let direct = InstructionsListResponse {
        instructions: vec![instruction("a")],
        data: Some(vec![instruction("b")]),
    };
    assert_eq!(direct.into_list(), vec![instruction("a")]);
    let wrapped = InstructionsListResponse { instructions: vec![], data: Some(vec![instruction("b")]) };
    assert_eq!(wrapped.into_list(), vec![instruction("b")]);
    let none = InstructionsListResponse { instructions: vec![], data: None };
    assert_eq!(none.into_list(), vec![]);
}

#[test]
fn instruction_detail_falls_back_to_root() {
    let wrapped = InstructionDetailResponse { instruction: Some(instruction("a")), root: Some(instruction("b")) };
    assert_eq!(wrapped.into_instruction(), Some(instruction("a")));
    let root = InstructionDetailResponse { instruction: None, root: Some(instruction("b")) };
    assert_eq!(root.into_instruction(), Some(instruction("b")));
    let none = InstructionDetailResponse { instruction: None, root: None };
    assert_eq!(none.into_instruction(), None);
}

#[test]
fn idl_type_display_and_default() {
    assert_eq!(IdlType::Simple("u64".to_string()).to_display_string(), "u64");
    assert_eq!(IdlType::Complex("{\"vec\":\"u8\"}".to_string()).to_display_string(), "{\"vec\":\"u8\"}");
    assert_eq!(IdlType::default(), IdlType::Simple("unknown".to_string()));
}

#[test]
fn instruction_list_prefers_a_non_empty_structured_body() {
    let structured = InstructionsListResponse { instructions: vec![], data: Some(vec![instruction("a")]) };
    assert_eq!(instruction_list(Some(structured), Some(vec![instruction("b")])), Some(vec![instruction("a")]));
    let empty = InstructionsListResponse { instructions: vec![], data: None };
    assert_eq!(instruction_list(Some(empty), Some(vec![instruction("b")])), Some(vec![instruction("b")]));
    assert_eq!(instruction_list(None, Some(vec![])), Some(vec![]));
    assert_eq!(instruction_list(None, None), None);
}

#[test]
fn instruction_of_a_body() {
    let wrapped = InstructionDetailResponse { instruction: Some(instruction("a")), root: None };
    assert_eq!(instruction_of(Some(wrapped), Some(instruction("c"))), Some(instruction("a")));
    let bare = InstructionDetailResponse { instruction: None, root: Some(instruction("b")) };
    assert_eq!(instruction_of(Some(bare), Some(instruction("c"))), Some(instruction("b")));
    let neither = InstructionDetailResponse { instruction: None, root: None };
    assert_eq!(instruction_of(Some(neither), Some(instruction("c"))), Some(instruction("c")));
    assert_eq!(instruction_of(None, None), None);
}

fn project(name: &str) -> SearchProject {
    SearchProject {
        id: name.to_string(),
        name: name.to_string(),
        program_id: "11111111111111111111111111111111".to_string(),
        description: None,
        category: None,
        tags: None,
        username: None,
        match_type: None,
    }
}

#[test]
fn search_result_of_a_body() {
    let wrapped = SearchResponse {
        projects: vec![project("a")],
        pagination: Some(SearchPagination { total: 1, page: 1, total_pages: 1 }),
    };
    assert_eq!(search_result(Some(wrapped.clone()), Some(vec![project("b")])), Some(wrapped));
    assert_eq!(
        search_result(None, Some(vec![project("b")])),
        Some(SearchResponse { projects: vec![project("b")], pagination: None })
    );
    assert_eq!(search_result(None, None), None);
}

#[test]
fn display_does_not_depend_on_the_hidden_part_of_the_key() {
    let with_key = |k: &str| Config {
        project_id: some("p"),
        api_key: some(k),
        rpc_url: None,
        keypair_path: None,
        api_base_url: None,
        idl_path: None,
    };
    assert_eq!(with_key("abcdXXXXwxyz").display(), with_key("abcdYYYYYYYYYYwxyz").display());
    assert_eq!(with_key("short").display(), with_key("other").display());
    assert_ne!(with_key("short").display(), with_key("shorter").display());
}
