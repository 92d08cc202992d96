//! The command surface: the commands and options the command line accepts, and
//! how `KEY=VALUE` pairs and `config set` options become values.

use vstd::prelude::*;
use crate::config::Config;
use crate::strmap::StrMap;
use crate::text::{char_position, split_once_char, trim, trim_str};

verus! {

#[derive(Debug, Clone, PartialEq, Eq)]
pub struct Cli {
    pub command: Option<Commands>,
}

#[derive(Debug, Clone, PartialEq, Eq)]
pub enum Commands {
    /// List all instructions for the configured program
    List,
    /// Interactively run an instruction (select from list or specify name)
    Run {
        /// Instruction name to run directly (skips selection menu)
        instruction: Option<String>,
    },
    /// Find and derive program-derived addresses (PDAs)
    Pda {
        /// PDA account name to derive directly (skips selection menu)
        account: Option<String>,
    },
    /// Sign and send a base58-encoded serialized transaction
    Sign {
        /// Base58-encoded serialized transaction
        tx: String,
    },
    /// Search for programs on orquestra
    Search {
        /// Search query (prompts interactively if omitted)
        query: Option<String>,
    },
    /// Manage CLI configuration
    Config { action: ConfigAction },
}

#[derive(Debug, Clone, PartialEq, Eq)]
pub enum ConfigAction {
    /// Set one or more config values
    SetValues(ConfigSetArgs),
    /// Show current config (API key is masked)
    Show,
    /// Interactively reset config values to defaults or clear them
    Reset,
}

#[derive(Debug, Clone, PartialEq, Eq)]
pub struct ConfigSetArgs {
    /// Orquestra project ID (Solana program address)
    pub project_id: Option<String>,
    /// Orquestra API key (X-API-Key header)
    pub api_key: Option<String>,
    /// Solana RPC URL
    pub rpc: Option<String>,
    /// Path to Solana keypair JSON file
    pub keypair: Option<String>,
    /// Orquestra API base URL
    pub api_base: Option<String>,
    /// Path to a local Solana IDL JSON file (enables offline/file mode)
    pub idl: Option<String>,
}

impl ConfigSetArgs {
    /// The configuration that `config set` merges: each option into its field.
    pub fn into_config(self) -> (r: Config)
        ensures
            r.project_id == self.project_id,
            r.api_key == self.api_key,
            r.rpc_url == self.rpc,
            r.keypair_path == self.keypair,
            r.api_base_url == self.api_base,
            r.idl_path == self.idl,
    {
        Config {
            project_id: self.project_id,
            api_key: self.api_key,
            rpc_url: self.rpc,
            keypair_path: self.keypair,
            api_base_url: self.api_base,
            idl_path: self.idl,
        }
    }
}

/// A `KEY=VALUE` pair without `=`.
#[derive(Debug, Clone, PartialEq, Eq)]
pub enum KvError {
    /// "Invalid key=value pair: '{pair}'. Expected format: KEY=VALUE"
    InvalidPair(String),
}

/// The map of `KEY=VALUE` pairs, split at the first `=`, key and value trimmed, a
/// later pair overriding an earlier one; or the first pair without `=`.
pub open spec fn kv_pairs(pairs: Seq<Seq<char>>) -> Result<Map<Seq<char>, Seq<char>>, Seq<char>>
    decreases pairs.len(),
{
    if pairs.len() == 0 {
        Ok(Map::empty())
    } else {
        match kv_pairs(pairs.drop_last()) {
            Err(e) => Err(e),
            Ok(m) => {
                let p = pairs.last();
                let i = char_position(p, '=');
                if i < 0 {
                    Err(p)
                } else {
                    Ok(m.insert(trim(p.take(i)), trim(p.skip(i + 1))))
                }
            },
        }
    }
}

/// The map with its string values taken as characters.
pub open spec fn string_map_view(m: Map<Seq<char>, String>) -> Map<Seq<char>, Seq<char>> {
    Map::new(|k: Seq<char>| m.contains_key(k), |k: Seq<char>| m[k]@)
}

/// Parses `KEY=VALUE` pairs into a map (see `kv_pairs`).
pub fn parse_kv_pairs(pairs: &[String]) -> (r: Result<StrMap<String>, KvError>)
    ensures
        match r {
            Ok(m) => m.wf() && kv_pairs(crate::text::string_views(pairs@)) == Ok::<
                Map<Seq<char>, Seq<char>>,
                Seq<char>,
            >(string_map_view(m.view())),
            Err(KvError::InvalidPair(p)) => kv_pairs(crate::text::string_views(pairs@)) == Err::<
                Map<Seq<char>, Seq<char>>,
                Seq<char>,
            >(p@),
        },
{
    let ghost v = crate::text::string_views(pairs@);
    let mut map: StrMap<String> = StrMap::new();
    let mut i: usize = 0;
    assert(v.take(0) =~= Seq::<Seq<char>>::empty());
    assert(string_map_view(map.view()) =~= Map::<Seq<char>, Seq<char>>::empty());
    while i < pairs.len()
        invariant
            i <= pairs@.len(),
            v == crate::text::string_views(pairs@),
            map.wf(),
            kv_pairs(v.take(i as int)) == Ok::<Map<Seq<char>, Seq<char>>, Seq<char>>(
                string_map_view(map.view()),
            ),
        decreases pairs@.len() - i,
    {
        let pair = &pairs[i];
        let ghost t = v.take(i + 1);
        assert(t.drop_last() =~= v.take(i as int));
        assert(t.last() == pair@);
        match split_once_char(pair.as_str(), '=') {
            None => {
                assert(kv_pairs(t) == Err::<Map<Seq<char>, Seq<char>>, Seq<char>>(pair@));
                proof {
                    lemma_kv_error_stays(v, i + 1);
                }
                return Err(KvError::InvalidPair(pair.clone()));
            },
            Some((k, val)) => {
                let key = trim_str(k.as_str());
                let value = trim_str(val.as_str());
                let ghost before = map.view();
                map.insert(key, value);
                assert(string_map_view(map.view()) =~= string_map_view(before).insert(key@, value@));
            },
        }
        i += 1;
    }
    assert(v.take(pairs@.len() as int) =~= v);
    Ok(map)
}

proof fn lemma_kv_error_stays(v: Seq<Seq<char>>, k: int)
    requires
        0 <= k <= v.len(),
        kv_pairs(v.take(k)) is Err,
    ensures
        kv_pairs(v) == kv_pairs(v.take(k)),
    decreases v.len() - k,
{
    if k < v.len() {
        assert(v.take(k + 1).drop_last() =~= v.take(k));
        lemma_kv_error_stays(v, k + 1);
    } else {
        assert(v.take(k) =~= v);
    }
}

} // verus!
