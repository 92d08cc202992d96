//! The command line's configuration: its fields, how `config set` merges new values
//! into it, the defaults it falls back on, and how it is shown.

use vstd::prelude::*;
use vstd::utf8::{decode_utf8, encode_utf8, encode_utf8_decode_utf8, is_char_boundary};
use crate::text::{push_char, trim, trim_str};

verus! {

/// The Orquestra API used when none is configured.
pub open spec fn default_api_base() -> Seq<char> {
    "https://api.orquestra.build"@
}

/// The Solana RPC used when none is configured.
pub open spec fn default_rpc() -> Seq<char> {
    "https://api.mainnet-beta.solana.com"@
}

pub fn default_api_base_str() -> (r: &'static str)
    ensures
        r@ == default_api_base(),
{
    "https://api.orquestra.build"
}

pub fn default_rpc_str() -> (r: &'static str)
    ensures
        r@ == default_rpc(),
{
    "https://api.mainnet-beta.solana.com"
}

#[derive(Debug, Clone, PartialEq, Eq)]
pub struct Config {
    pub project_id: Option<String>,
    pub api_key: Option<String>,
    pub rpc_url: Option<String>,
    pub keypair_path: Option<String>,
    pub api_base_url: Option<String>,
    /// Path to a local Solana IDL JSON file (enables offline/file mode)
    pub idl_path: Option<String>,
}

impl Default for Config {
    /// A configuration with nothing set.
    fn default() -> (r: Self)
        ensures
            r.project_id is None,
            r.api_key is None,
            r.rpc_url is None,
            r.keypair_path is None,
            r.api_base_url is None,
            r.idl_path is None,
    {
        Config {
            project_id: None,
            api_key: None,
            rpc_url: None,
            keypair_path: None,
            api_base_url: None,
            idl_path: None,
        }
    }
}

pub open spec fn opt_view(v: Option<String>) -> Option<Seq<char>> {
    match v {
        Some(s) => Some(s@),
        None => None,
    }
}

/// A value trimmed of surrounding whitespace, and cleared when nothing is left.
pub open spec fn normalized(v: Option<Seq<char>>) -> Option<Seq<char>> {
    match v {
        None => None,
        Some(s) => if trim(s).len() == 0 {
            None
        } else {
            Some(trim(s))
        },
    }
}

/// The field after a merge: a given value, normalized, replaces the old one.
pub open spec fn merged_field(old: Option<String>, new: Option<String>) -> Option<Seq<char>> {
    if new is Some {
        normalized(opt_view(new))
    } else {
        opt_view(old)
    }
}

/// Trims a value and clears it when nothing is left.
pub fn normalize_optional(value: Option<String>) -> (r: Option<String>)
    ensures
        opt_view(r) == normalized(opt_view(value)),
{
    match value {
        None => None,
        Some(s) => {
            let trimmed = trim_str(s.as_str());
            if trimmed.as_str().is_empty() {
                None
            } else {
                Some(trimmed)
            }
        },
    }
}

/// The API base URL in effect: the configured one, else the default.
pub open spec fn effective_api_base(c: Config) -> Seq<char> {
    match c.api_base_url {
        Some(s) => s@,
        None => default_api_base(),
    }
}

/// The RPC URL in effect: the configured one, else the default.
pub open spec fn effective_rpc(c: Config) -> Seq<char> {
    match c.rpc_url {
        Some(s) => s@,
        None => default_rpc(),
    }
}

/// The text shown for an unset value.
pub open spec fn not_set() -> Seq<char> {
    "(not set)"@
}

pub open spec fn or_not_set(v: Option<String>) -> Seq<char> {
    match v {
        Some(s) => s@,
        None => not_set(),
    }
}

/// Whether `mask_secret` can cut the secret: short secrets are starred whole; longer
/// ones are cut after their first four and before their last four bytes, which must
/// fall between characters.
pub open spec fn maskable(s: Seq<char>) -> bool {
    let b = encode_utf8(s);
    b.len() <= 8 || (is_char_boundary(b, 4) && is_char_boundary(b, b.len() - 4))
}

/// A secret as shown: one `*` per byte when it has at most 8 bytes, else its first
/// four bytes, `***`, and its last four bytes.
pub open spec fn masked(s: Seq<char>) -> Seq<char> {
    let b = encode_utf8(s);
    if b.len() <= 8 {
        Seq::new(b.len(), |i: int| '*')
    } else {
        decode_utf8(b.subrange(0, 4)) + "***"@ + decode_utf8(b.subrange(b.len() - 4, b.len() as int))
    }
}

/// Masks a secret for display (see `masked`).
pub fn mask_secret(s: &str) -> (r: String)
    requires
        maskable(s@),
    ensures
        r@ == masked(s@),
{
    let len = s.as_bytes().len();
    if len <= 8 {
        let mut out = String::new();
        let mut i: usize = 0;
        while i < len
            invariant
                i <= len,
                out@ == Seq::new(i as nat, |k: int| '*'),
            decreases len - i,
        {
            push_char(&mut out, '*');
            i += 1;
            assert(out@ =~= Seq::new(i as nat, |k: int| '*'));
        }
        out
    } else {
        let (head, _) = s.split_at(4);
        let (_, tail) = s.split_at(len - 4);
        proof {
            encode_utf8_decode_utf8(head@);
            encode_utf8_decode_utf8(tail@);
        }
        let mut out = head.to_owned();
        out.append("***");
        out.append(tail);
        out
    }
}

/// Why a required setting is missing.
#[derive(Debug, Clone, PartialEq, Eq)]
pub enum ConfigError {
    /// "project_id not set — run: orquestra config set --project-id <id>"
    ProjectIdNotSet,
}

/// The configuration as `config show` prints it, the API key masked.
pub open spec fn display_text(c: Config) -> Seq<char> {
    "program_id  : "@ + or_not_set(c.project_id) + "\napi_key     : "@ + match c.api_key {
        Some(k) => masked(k@),
        None => not_set(),
    } + "\nrpc_url     : "@ + match c.rpc_url {
        Some(s) => s@,
        None => default_rpc(),
    } + "\nkeypair_path: "@ + or_not_set(c.keypair_path) + "\napi_base_url: "@ + match c.api_base_url {
        Some(s) => s@,
        None => default_api_base(),
    } + "\nidl_path    : "@ + or_not_set(c.idl_path)
}

fn text_or<'a>(v: &'a Option<String>, fallback: &'a str) -> (r: &'a str)
    ensures
        r@ == match *v {
            Some(s) => s@,
            None => fallback@,
        },
{
    match v {
        Some(s) => s.as_str(),
        None => fallback,
    }
}

impl Config {
    /// Merges the fields that `other` sets into `self`, each trimmed and cleared when empty.
    pub fn merge(&mut self, other: Config)
        ensures
            opt_view(final(self).project_id) == merged_field(old(self).project_id, other.project_id),
            opt_view(final(self).api_key) == merged_field(old(self).api_key, other.api_key),
            opt_view(final(self).rpc_url) == merged_field(old(self).rpc_url, other.rpc_url),
            opt_view(final(self).keypair_path) == merged_field(old(self).keypair_path, other.keypair_path),
            opt_view(final(self).api_base_url) == merged_field(old(self).api_base_url, other.api_base_url),
            opt_view(final(self).idl_path) == merged_field(old(self).idl_path, other.idl_path),
    {
        if other.project_id.is_some() {
            self.project_id = normalize_optional(other.project_id);
        }
        if other.api_key.is_some() {
            self.api_key = normalize_optional(other.api_key);
        }
        if other.rpc_url.is_some() {
            self.rpc_url = normalize_optional(other.rpc_url);
        }
        if other.keypair_path.is_some() {
            self.keypair_path = normalize_optional(other.keypair_path);
        }
        if other.api_base_url.is_some() {
            self.api_base_url = normalize_optional(other.api_base_url);
        }
        if other.idl_path.is_some() {
            self.idl_path = normalize_optional(other.idl_path);
        }
    }

    /// The API base URL, or the default.
    pub fn api_base(&self) -> (r: &str)
        ensures
            r@ == effective_api_base(*self),
    {
        text_or(&self.api_base_url, default_api_base_str())
    }

    /// The RPC URL, or the default.
    pub fn rpc(&self) -> (r: &str)
        ensures
            r@ == effective_rpc(*self),
    {
        text_or(&self.rpc_url, default_rpc_str())
    }

    /// Shows the configuration, masking the API key (see `display_text`).
    pub fn display(&self) -> (r: String)
        requires
            self.api_key matches Some(k) ==> maskable(k@),
        ensures
            r@ == display_text(*self),
    {
        let masked_key = match &self.api_key {
            Some(k) => mask_secret(k.as_str()),
            None => String::from_str("(not set)"),
        };
        let mut out = String::from_str("program_id  : ");
        out.append(text_or(&self.project_id, "(not set)"));
        out.append("\napi_key     : ");
        out.append(masked_key.as_str());
        out.append("\nrpc_url     : ");
        out.append(self.rpc());
        out.append("\nkeypair_path: ");
        out.append(text_or(&self.keypair_path, "(not set)"));
        out.append("\napi_base_url: ");
        out.append(self.api_base());
        out.append("\nidl_path    : ");
        out.append(text_or(&self.idl_path, "(not set)"));
        out
    }

    /// The configured program address, required by API mode.
    pub fn require_project_id(&self) -> (r: Result<&str, ConfigError>)
        ensures
            match self.project_id {
                Some(s) => r matches Ok(t) && t@ == s@,
                None => r == Err::<&str, ConfigError>(ConfigError::ProjectIdNotSet),
            },
    {
        match &self.project_id {
            Some(s) => Ok(s.as_str()),
            None => Err(ConfigError::ProjectIdNotSet),
        }
    }

    /// The API key, when one is configured.
    pub fn optional_api_key(&self) -> (r: Option<&str>)
        ensures
            match self.api_key {
                Some(s) => r matches Some(t) && t@ == s@,
                None => r is None,
            },
    {
        match &self.api_key {
            Some(s) => Some(s.as_str()),
            None => None,
        }
    }
}

} // verus!
