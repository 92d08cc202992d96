//! The data that the Orquestra API exchanges, and how requests are addressed.

use vstd::prelude::*;
use crate::idl::IdlPda;
use crate::strmap::StrMap;
use crate::values::ArgValue;

verus! {

/// The type of an instruction argument as an IDL writes it.
#[derive(Debug, Clone, PartialEq, Eq)]
pub enum IdlType {
    /// A type written as a plain string, such as `u64`.
    Simple(String),
    /// Any other type description, kept as its JSON text.
    Complex(String),
}

impl IdlType {
    /// The text shown for this type: the type name, or the JSON text of a complex type.
    pub fn to_display_string(&self) -> (r: String)
        ensures
            r@ == match *self {
                IdlType::Simple(s) => s@,
                IdlType::Complex(s) => s@,
            },
    {
        match self {
            IdlType::Simple(s) => s.clone(),
            IdlType::Complex(s) => s.clone(),
        }
    }
}

impl Default for IdlType {
    /// A type that the IDL left out reads as `unknown`.
    fn default() -> (r: Self)
        ensures
            r matches IdlType::Simple(s) && s@ == "unknown"@,
    {
        IdlType::Simple(String::from_str("unknown"))
    }
}

#[derive(Debug, Clone, PartialEq, Eq)]
pub struct InstructionArg {
    pub name: String,
    pub ty: IdlType,
}

/// What an instruction account says of its address derivation.
#[derive(Debug, Clone, PartialEq, Eq)]
pub enum PdaDefinition {
    /// The seeds of a local IDL file.
    Idl(IdlPda),
    /// The definition as the API sent it, kept as its JSON text.
    Json(String),
}

#[derive(Debug, Clone, PartialEq, Eq)]
pub struct InstructionAccount {
    pub name: String,
    pub is_mut: bool,
    pub is_signer: bool,
    pub is_optional: bool,
    pub pda: Option<PdaDefinition>,
}

#[derive(Debug, Clone, PartialEq, Eq)]
pub struct Instruction {
    pub name: String,
    pub docs: Vec<String>,
    pub args: Vec<InstructionArg>,
    pub accounts: Vec<InstructionAccount>,
}

/// Project lookup: GET /api/projects/by-program/{programAddress}
#[derive(Debug, Clone, PartialEq, Eq)]
pub struct ProjectByProgramResponse {
    pub project: ProjectInfo,
}

#[derive(Debug, Clone, PartialEq, Eq)]
pub struct ProjectInfo {
    pub id: String,
    pub name: String,
    pub program_id: String,
}

/// Response from GET /api/{projectId}/instructions
#[derive(Debug, Clone, PartialEq, Eq)]
pub struct InstructionsListResponse {
    pub instructions: Vec<Instruction>,
    pub data: Option<Vec<Instruction>>,
}

impl InstructionsListResponse {
    /// The instruction list: `instructions` where it is not empty, else `data`, else none.
    pub fn into_list(self) -> (r: Vec<Instruction>)
        ensures
            self.instructions@.len() > 0 ==> r@ == self.instructions@,
            self.instructions@.len() == 0 ==> r@ == match self.data {
                Some(d) => d@,
                None => Seq::<Instruction>::empty(),
            },
    {
        if self.instructions.len() > 0 {
            self.instructions
        } else {
            match self.data {
                Some(d) => d,
                None => Vec::new(),
            }
        }
    }
}

/// The instructions a list response holds: `instructions` where it is not empty, else `data`.
pub open spec fn listed_instructions(r: InstructionsListResponse) -> Seq<Instruction> {
    if r.instructions@.len() > 0 {
        r.instructions@
    } else {
        match r.data {
            Some(d) => d@,
            None => Seq::<Instruction>::empty(),
        }
    }
}

/// The instruction list of a response body: the structured form where the body
/// parsed as one and it lists instructions, else the body read as a bare list.
pub fn instruction_list(structured: Option<InstructionsListResponse>, direct: Option<Vec<Instruction>>) -> (r: Option<Vec<Instruction>>)
    ensures
        (structured matches Some(s) && listed_instructions(s).len() > 0) ==> (r matches Some(v) && v@
            == listed_instructions(structured.unwrap())),
        !(structured matches Some(s) && listed_instructions(s).len() > 0) ==> r == direct,
{
    if let Some(s) = structured {
        let list = s.into_list();
        if list.len() > 0 {
            return Some(list);
        }
    }
    direct
}

/// Response from GET /api/programs/{id}/instructions/{name}
#[derive(Debug, Clone, PartialEq, Eq)]
pub struct InstructionDetailResponse {
    pub instruction: Option<Instruction>,
    pub root: Option<Instruction>,
}

impl InstructionDetailResponse {
    /// The wrapped instruction, else the instruction at the root of the response.
    pub fn into_instruction(self) -> (r: Option<Instruction>)
        ensures
            r == match self.instruction {
                Some(ix) => Some(ix),
                None => self.root,
            },
    {
        match self.instruction {
            Some(ix) => Some(ix),
            None => self.root,
        }
    }
}

/// The instruction of a response body: the one the detail form holds where the body
/// parsed as one, else the body read as a bare instruction.
pub fn instruction_of(detail: Option<InstructionDetailResponse>, direct: Option<Instruction>) -> (r: Option<Instruction>)
    ensures
        r == match detail {
            Some(d) => match d.instruction {
                Some(ix) => Some(ix),
                None => match d.root {
                    Some(ix) => Some(ix),
                    None => direct,
                },
            },
            None => direct,
        },
{
    match detail {
        Some(d) => match d.into_instruction() {
            Some(ix) => Some(ix),
            None => direct,
        },
        None => direct,
    }
}

/// PDA list: GET /api/{id}/pda
#[derive(Debug, Clone, PartialEq, Eq)]
pub struct PdaListResponse {
    pub pda_accounts: Vec<PdaAccount>,
}

#[derive(Debug, Clone, PartialEq, Eq)]
pub struct PdaAccount {
    pub instruction: String,
    pub account: String,
    pub seeds: Vec<PdaSeed>,
}

#[derive(Debug, Clone, PartialEq, Eq)]
pub struct PdaSeed {
    pub kind: String,
    /// Constant label (present on "const" seeds)
    pub description: Option<String>,
    /// Argument name (present on "arg" seeds)
    pub name: Option<String>,
    /// Argument type hint, e.g. "string", "u64"
    pub ty: Option<String>,
}

/// POST /api/{id}/pda/derive — request body
#[derive(Debug, Clone, PartialEq, Eq)]
pub struct DeriveRequest {
    pub instruction: String,
    pub account: String,
    pub seed_values: StrMap<String>,
}

/// POST /api/{id}/pda/derive — response
#[derive(Debug, Clone, PartialEq, Eq)]
pub struct DeriveResponse {
    pub pda: String,
    pub bump: u8,
    pub program_id: String,
    pub seeds: Vec<DerivedSeed>,
}

#[derive(Debug, Clone, PartialEq, Eq)]
pub struct DerivedSeed {
    pub kind: String,
    pub description: Option<String>,
    pub name: Option<String>,
    pub value: Option<String>,
    pub hex: String,
}

/// Search: GET /api/projects?search={query}
#[derive(Debug, Clone, PartialEq, Eq)]
pub struct SearchProject {
    pub id: String,
    pub name: String,
    pub program_id: String,
    pub description: Option<String>,
    pub category: Option<String>,
    pub tags: Option<String>,
    pub username: Option<String>,
    pub match_type: Option<String>,
}

#[derive(Debug, Clone, PartialEq, Eq)]
pub struct SearchPagination {
    pub total: u64,
    pub page: u64,
    pub total_pages: u64,
}

#[derive(Debug, Clone, PartialEq, Eq)]
pub struct SearchResponse {
    pub projects: Vec<SearchProject>,
    pub pagination: Option<SearchPagination>,
}

/// The search result of a response body: the wrapped form where the body parsed as
/// one, else the body read as a bare list of projects, without pagination.
pub fn search_result(wrapped: Option<SearchResponse>, direct: Option<Vec<SearchProject>>) -> (r: Option<SearchResponse>)
    ensures
        wrapped is Some ==> r == wrapped,
        wrapped is None ==> match direct {
            Some(list) => r matches Some(x) && x.projects == list && x.pagination is None,
            None => r is None,
        },
{
    match wrapped {
        Some(w) => Some(w),
        None => match direct {
            Some(list) => Some(SearchResponse { projects: list, pagination: None }),
            None => None,
        },
    }
}

/// POST body for /build
#[derive(Debug, Clone, PartialEq, Eq)]
pub struct BuildRequest {
    pub accounts: StrMap<String>,
    pub args: StrMap<ArgValue>,
    pub fee_payer: String,
    pub network: String,
}

/// Response from POST .../build
#[derive(Debug, Clone, PartialEq, Eq)]
pub struct BuildResponse {
    pub transaction: String,
    pub serialized_transaction: Option<String>,
    pub message: Option<String>,
    pub estimated_fee: Option<u64>,
}

impl BuildResponse {
    /// The transaction to sign: `serializedTransaction` where the API sent one, else `transaction`.
    pub fn preferred_transaction(&self) -> (r: &str)
        ensures
            r@ == match self.serialized_transaction {
                Some(s) => s@,
                None => self.transaction@,
            },
    {
        match &self.serialized_transaction {
            Some(s) => s.as_str(),
            None => self.transaction.as_str(),
        }
    }
}

/// `s` without trailing `c` characters (`str::trim_end_matches`).
pub open spec fn strip_trailing(s: Seq<char>, c: char) -> Seq<char>
    decreases s.len(),
{
    if s.len() > 0 && s.last() == c {
        strip_trailing(s.drop_last(), c)
    } else {
        s
    }
}

/// `s` without leading `c` characters (`str::trim_start_matches`).
pub open spec fn strip_leading(s: Seq<char>, c: char) -> Seq<char>
    decreases s.len(),
{
    if s.len() > 0 && s[0] == c {
        strip_leading(s.drop_first(), c)
    } else {
        s
    }
}

proof fn lemma_strip_trailing_take(s: Seq<char>, c: char, j: int)
    requires
        0 <= j <= s.len(),
        forall|k: int| j <= k < s.len() ==> #[trigger] s[k] == c,
    ensures
        strip_trailing(s, c) == strip_trailing(s.take(j), c),
    decreases s.len() - j,
{
    if j < s.len() {
        lemma_strip_trailing_take(s.drop_last(), c, j);
        assert(s.drop_last().take(j) =~= s.take(j));
    } else {
        assert(s.take(j) =~= s);
    }
}

proof fn lemma_strip_leading_skip(s: Seq<char>, c: char, i: int)
    requires
        0 <= i <= s.len(),
        forall|k: int| 0 <= k < i ==> #[trigger] s[k] == c,
    ensures
        strip_leading(s, c) == strip_leading(s.skip(i), c),
    decreases i,
{
    if i > 0 {
        lemma_strip_leading_skip(s.drop_first(), c, i - 1);
        assert(s.drop_first().skip(i - 1) =~= s.skip(i));
    } else {
        assert(s.skip(0) =~= s);
    }
}

/// Where API requests go: the base URL without trailing slashes, and the optional API key.
#[derive(Debug, Clone, PartialEq, Eq)]
pub struct ApiEndpoint {
    pub base_url: String,
    pub api_key: Option<String>,
}

impl ApiEndpoint {
    /// The endpoint for `base_url`, trailing slashes removed, sending `api_key` where given.
    pub fn new(base_url: &str, api_key: Option<String>) -> (r: Self)
        ensures
            r.base_url@ == strip_trailing(base_url@, '/'),
            r.api_key == api_key,
    {
        let cs = crate::text::chars_of(base_url);
        let mut j = cs.len();
        while j > 0 && cs[j - 1] == '/'
            invariant
                j <= cs@.len(),
                cs@ == base_url@,
                forall|k: int| j <= k < cs@.len() ==> #[trigger] cs@[k] == '/',
            decreases j,
        {
            j -= 1;
        }
        proof {
            lemma_strip_trailing_take(base_url@, '/', j as int);
            if j > 0 {
                assert(base_url@.take(j as int).last() == cs@[j - 1]);
            } else {
                assert(base_url@.take(0) =~= Seq::<char>::empty());
            }
        }
        let base = crate::text::string_from_chars(&cs, 0, j);
        assert(base@ =~= base_url@.take(j as int));
        ApiEndpoint { base_url: base, api_key }
    }

    /// The full URL of `path`: the base, one `/`, and the path without leading slashes.
    pub fn url(&self, path: &str) -> (r: String)
        ensures
            r@ == self.base_url@ + seq!['/'] + strip_leading(path@, '/'),
    {
        let cs = crate::text::chars_of(path);
        let n = cs.len();
        let mut i: usize = 0;
        while i < n && cs[i] == '/'
            invariant
                i <= n,
                n == cs@.len(),
                cs@ == path@,
                forall|k: int| 0 <= k < i ==> #[trigger] cs@[k] == '/',
            decreases n - i,
        {
            i += 1;
        }
        proof {
            lemma_strip_leading_skip(path@, '/', i as int);
            assert(cs@.subrange(i as int, n as int) =~= path@.skip(i as int));
        }
        let rest = crate::text::string_from_chars(&cs, i, n);
        let mut r = self.base_url.clone();
        crate::text::push_char(&mut r, '/');
        r.append(rest.as_str());
        r
    }
}

} // verus!
