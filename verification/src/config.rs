//! Configuration model: the settings of the proxy, their defaults, the
//! checks a loaded configuration must pass, account de-duplication and the
//! model registry.
//!
//! Reading and writing `config.toml` happens outside this module; what it
//! holds is everything that is decided about the values.

use vstd::prelude::*;
use vstd::hash_map::StringHashMap;
use vstd::string::StringSliceAdditionalSpecFns;
use vstd::utf8::{encode_utf8, decode_utf8, is_char_boundary, encode_utf8_decode_utf8};
use crate::text::{views, str_trim, str_to_lowercase, str_lowercase, trim_spec, usize_to_decimal, decimal_spec};

verus! {

// ── Outside types carried by `ConfigError` ──────────────────────────────

#[verifier::external_type_specification]
#[verifier::external_body]
pub struct ExIoError(std::io::Error);

#[verifier::external_type_specification]
#[verifier::external_body]
pub struct ExTomlDeError(toml::de::Error);

#[verifier::external_type_specification]
#[verifier::external_body]
pub struct ExTomlSerError(toml::ser::Error);

/// `std::io::Error::new(ErrorKind::NotFound, msg)`: an I/O error of kind
/// "not found" carrying `msg`. The error is opaque here; nothing is claimed
/// about it.
#[verifier::external_body]
fn io_not_found(msg: String) -> std::io::Error {
    std::io::Error::new(std::io::ErrorKind::NotFound, msg)
}

/// Errors met while loading a configuration.
#[derive(Debug)]
pub enum ConfigError {
    Io(std::io::Error),
    Toml(toml::de::Error),
    Validation(String),
    Cli(String),
    TomlSerialization(toml::ser::Error),
}

// ── Data ────────────────────────────────────────────────────────────────

/// Root of the application configuration.
#[derive(Debug, Clone)]
pub struct Config {
    /// DeepSeek core settings (accounts, client identity, models).
    pub ds_core: DsCoreSection,
    /// HTTP server settings.
    pub server: ServerConfig,
    /// Optional proxy, used to get past the WAF.
    pub proxy: ProxyConfig,
    /// Admin panel settings.
    pub admin: AdminConfig,
    /// API keys managed by the admin panel.
    pub api_keys: Vec<ApiKeyEntry>,
}

/// The `[ds_core]` section.
#[derive(Debug, Clone)]
pub struct DsCoreSection {
    /// Account pool (may be empty).
    pub accounts: Vec<Account>,
    /// API base address.
    pub api_base: String,
    /// Full URL of the WASM file used for the proof of work.
    pub wasm_url: String,
    /// `User-Agent` header.
    pub user_agent: String,
    /// `X-Client-Version` header.
    pub client_version: String,
    /// `X-Client-Platform` header.
    pub client_platform: String,
    /// `X-Client-Locale` header.
    pub client_locale: String,
    /// Model types; each is exposed as the model id `deepseek-<type>`.
    pub model_types: Vec<String>,
    /// Input token limit per model type (aligned by index).
    pub max_input_tokens: Vec<u32>,
    /// Output token limit per model type (aligned by index).
    pub max_output_tokens: Vec<u32>,
    /// Input character limit per model type (aligned by index).
    pub input_character_limits: Vec<u32>,
    /// Model aliases, aligned by index with `model_types`.
    pub model_aliases: Vec<String>,
    /// Extra tool-call tags.
    pub tool_call: ToolCallTagConfig,
}

/// Admin panel settings.
#[derive(Debug, Clone)]
pub struct AdminConfig {
    /// bcrypt hash of the admin password.
    pub password_hash: String,
    /// JWT signing secret.
    pub jwt_secret: String,
    /// Time of the latest JWT issue (older tokens are revoked).
    pub jwt_issued_at: u64,
    /// Old password when changing it (never persisted).
    pub old_password: String,
    /// New password when changing it (never persisted).
    pub new_password: String,
}

/// One API key.
#[derive(Debug, Clone)]
pub struct ApiKeyEntry {
    pub key: String,
    pub description: String,
}

/// One account: e-mail, or mobile number with area code.
#[derive(Debug, Clone)]
pub struct Account {
    pub email: String,
    pub mobile: String,
    pub area_code: String,
    pub password: String,
}

/// Proxy settings.
#[derive(Debug, Clone)]
pub struct ProxyConfig {
    /// Proxy URL, such as `http://127.0.0.1:7890`.
    pub url: Option<String>,
}

/// Extra tool-call tags, besides the built-in ones.
#[derive(Debug, Clone)]
pub struct ToolCallTagConfig {
    pub extra_starts: Vec<String>,
    pub extra_ends: Vec<String>,
}

/// HTTP server settings.
#[derive(Debug, Clone)]
pub struct ServerConfig {
    pub host: String,
    pub port: u16,
    /// Allowed CORS origins.
    pub cors_origins: Vec<String>,
}

// ── Default values ──────────────────────────────────────────────────────

pub open spec fn default_tool_call_starts_spec() -> Seq<Seq<char>> {
    seq!["<|tool_call_begin|>"@, "<tool_calls>"@, "<tool_call>"@]
}

pub open spec fn default_tool_call_ends_spec() -> Seq<Seq<char>> {
    seq!["<|tool_call_end|>"@, "</tool_calls>"@, "</tool_call>"@]
}

pub open spec fn default_model_types_spec() -> Seq<Seq<char>> {
    seq!["default"@, "expert"@, "vision"@]
}

pub open spec fn default_max_input_tokens_spec() -> Seq<u32> {
    seq![1_048_576u32, 1_048_576u32, 1_048_576u32]
}

pub open spec fn default_max_output_tokens_spec() -> Seq<u32> {
    seq![384_000u32, 384_000u32, 384_000u32]
}

pub open spec fn default_input_character_limits_spec() -> Seq<u32> {
    seq![2_621_440u32, 163_840u32, 2_621_440u32]
}

pub open spec fn default_api_base_spec() -> Seq<char> {
    "https://chat.deepseek.com/api/v0"@
}

pub open spec fn default_wasm_url_spec() -> Seq<char> {
    "https://fe-static.deepseek.com/chat/static/sha3_wasm_bg.7b9ca65ddd.wasm"@
}

pub open spec fn default_user_agent_spec() -> Seq<char> {
    "DeepSeek/2.1.1 Android/35"@
}

pub open spec fn default_client_version_spec() -> Seq<char> {
    "2.0.0"@
}

pub open spec fn default_client_platform_spec() -> Seq<char> {
    "android"@
}

pub open spec fn default_client_locale_spec() -> Seq<char> {
    "zh_CN"@
}

pub open spec fn default_cors_origins_spec() -> Seq<Seq<char>> {
    seq!["http://localhost:22217"@]
}

/// Builds a vector of owned strings from three literals.
fn three_strings(a: &str, b: &str, c: &str) -> (res: Vec<String>)
    ensures
        views(res@) == seq![a@, b@, c@],
{
    let mut v: Vec<String> = Vec::new();
    v.push(String::from_str(a));
    v.push(String::from_str(b));
    v.push(String::from_str(c));
    assert(views(v@) =~= seq![a@, b@, c@]);
    v
}

/// Builds a vector of three numbers.
fn three_numbers(a: u32, b: u32, c: u32) -> (res: Vec<u32>)
    ensures
        res@ == seq![a, b, c],
{
    let mut v: Vec<u32> = Vec::new();
    v.push(a);
    v.push(b);
    v.push(c);
    assert(v@ =~= seq![a, b, c]);
    v
}

/// Default extra start tags for tool calls.
pub fn default_tool_call_starts() -> (res: Vec<String>)
    ensures
        views(res@) == default_tool_call_starts_spec(),
{
    three_strings("<|tool_call_begin|>", "<tool_calls>", "<tool_call>")
}

/// Default extra end tags for tool calls.
pub fn default_tool_call_ends() -> (res: Vec<String>)
    ensures
        views(res@) == default_tool_call_ends_spec(),
{
    three_strings("<|tool_call_end|>", "</tool_calls>", "</tool_call>")
}

/// Default model types.
pub fn default_model_types() -> (res: Vec<String>)
    ensures
        views(res@) == default_model_types_spec(),
{
    three_strings("default", "expert", "vision")
}

/// Default input token limits, one per default model type.
pub fn default_max_input_tokens() -> (res: Vec<u32>)
    ensures
        res@ == default_max_input_tokens_spec(),
{
    three_numbers(1_048_576, 1_048_576, 1_048_576)
}

/// Default output token limits, one per default model type.
pub fn default_max_output_tokens() -> (res: Vec<u32>)
    ensures
        res@ == default_max_output_tokens_spec(),
{
    three_numbers(384_000, 384_000, 384_000)
}

/// Default input character limits, one per default model type.
pub fn default_input_character_limits() -> (res: Vec<u32>)
    ensures
        res@ == default_input_character_limits_spec(),
{
    three_numbers(2_621_440, 163_840, 2_621_440)
}

/// Default API base address.
pub fn default_api_base() -> (res: String)
    ensures
        res@ == default_api_base_spec(),
{
    String::from_str("https://chat.deepseek.com/api/v0")
}

/// Default URL of the proof-of-work WASM file.
pub fn default_wasm_url() -> (res: String)
    ensures
        res@ == default_wasm_url_spec(),
{
    String::from_str("https://fe-static.deepseek.com/chat/static/sha3_wasm_bg.7b9ca65ddd.wasm")
}

/// Default `User-Agent`.
pub fn default_user_agent() -> (res: String)
    ensures
        res@ == default_user_agent_spec(),
{
    String::from_str("DeepSeek/2.1.1 Android/35")
}

/// Default `X-Client-Version`.
pub fn default_client_version() -> (res: String)
    ensures
        res@ == default_client_version_spec(),
{
    String::from_str("2.0.0")
}

/// Default `X-Client-Platform`.
pub fn default_client_platform() -> (res: String)
    ensures
        res@ == default_client_platform_spec(),
{
    String::from_str("android")
}

/// Default `X-Client-Locale`.
pub fn default_client_locale() -> (res: String)
    ensures
        res@ == default_client_locale_spec(),
{
    String::from_str("zh_CN")
}

/// Default CORS origins.
pub fn default_cors_origins() -> (res: Vec<String>)
    ensures
        views(res@) == default_cors_origins_spec(),
{
    let mut v: Vec<String> = Vec::new();
    v.push(String::from_str("http://localhost:22217"));
    assert(views(v@) =~= default_cors_origins_spec());
    v
}

/// The tool-call tags hold the default extra tags.
pub open spec fn is_default_tool_call(t: ToolCallTagConfig) -> bool {
    &&& views(t.extra_starts@) == default_tool_call_starts_spec()
    &&& views(t.extra_ends@) == default_tool_call_ends_spec()
}

/// The core section holds every default value and no account or alias.
pub open spec fn is_default_core(c: DsCoreSection) -> bool {
    &&& c.accounts@.len() == 0
    &&& c.api_base@ == default_api_base_spec()
    &&& c.wasm_url@ == default_wasm_url_spec()
    &&& c.user_agent@ == default_user_agent_spec()
    &&& c.client_version@ == default_client_version_spec()
    &&& c.client_platform@ == default_client_platform_spec()
    &&& c.client_locale@ == default_client_locale_spec()
    &&& views(c.model_types@) == default_model_types_spec()
    &&& c.max_input_tokens@ == default_max_input_tokens_spec()
    &&& c.max_output_tokens@ == default_max_output_tokens_spec()
    &&& c.input_character_limits@ == default_input_character_limits_spec()
    &&& c.model_aliases@.len() == 0
    &&& is_default_tool_call(c.tool_call)
}

/// The admin settings are all empty.
pub open spec fn is_default_admin(a: AdminConfig) -> bool {
    &&& a.password_hash@.len() == 0
    &&& a.jwt_secret@.len() == 0
    &&& a.jwt_issued_at == 0
    &&& a.old_password@.len() == 0
    &&& a.new_password@.len() == 0
}

impl Default for ToolCallTagConfig {
    fn default() -> (res: Self)
        ensures
            is_default_tool_call(res),
    {
        ToolCallTagConfig {
            extra_starts: default_tool_call_starts(),
            extra_ends: default_tool_call_ends(),
        }
    }
}

impl Default for DsCoreSection {
    fn default() -> (res: Self)
        ensures
            is_default_core(res),
    {
        DsCoreSection {
            accounts: Vec::new(),
            api_base: default_api_base(),
            wasm_url: default_wasm_url(),
            user_agent: default_user_agent(),
            client_version: default_client_version(),
            client_platform: default_client_platform(),
            client_locale: default_client_locale(),
            model_types: default_model_types(),
            max_input_tokens: default_max_input_tokens(),
            max_output_tokens: default_max_output_tokens(),
            input_character_limits: default_input_character_limits(),
            model_aliases: Vec::new(),
            tool_call: ToolCallTagConfig::default(),
        }
    }
}

impl Default for AdminConfig {
    fn default() -> (res: Self)
        ensures
            is_default_admin(res),
    {
        AdminConfig {
            password_hash: String::new(),
            jwt_secret: String::new(),
            jwt_issued_at: 0,
            old_password: String::new(),
            new_password: String::new(),
        }
    }
}

impl Default for ProxyConfig {
    fn default() -> (res: Self)
        ensures
            res.url is None,
    {
        ProxyConfig { url: None }
    }
}

// ── Model registry ──────────────────────────────────────────────────────

/// The registry key of a model type: `deepseek-<type>`, lower-cased.
pub open spec fn model_id_key(ty: Seq<char>) -> Seq<char> {
    str_lowercase("deepseek-"@ + ty)
}

/// The registry key of an alias: trimmed, then lower-cased.
pub open spec fn alias_key(alias: Seq<char>) -> Seq<char> {
    str_lowercase(trim_spec(alias))
}

/// The registry after the first `n` model types were inserted in order:
/// `ids[i]` maps to `types[i]`, then `aliases[i]` does too when it exists
/// and is not empty; a later insertion of a key replaces an earlier one.
pub open spec fn registry_upto(
    types: Seq<String>,
    ids: Seq<Seq<char>>,
    aliases: Seq<Seq<char>>,
    n: nat,
) -> Map<Seq<char>, String>
    decreases n,
{
    if n == 0 {
        Map::empty()
    } else {
        let i = n - 1;
        let m = registry_upto(types, ids, aliases, (n - 1) as nat).insert(ids[i], types[i]);
        if i < aliases.len() && aliases[i].len() > 0 {
            m.insert(aliases[i], types[i])
        } else {
            m
        }
    }
}

/// The registry keys of the model types of `c`.
pub open spec fn model_id_keys(c: DsCoreSection) -> Seq<Seq<char>> {
    Seq::new(c.model_types@.len(), |i: int| model_id_key(c.model_types@[i]@))
}

/// The registry keys of the aliases of `c` that stand at the index of a
/// model type.
pub open spec fn alias_keys(c: DsCoreSection) -> Seq<Seq<char>> {
    let n = if c.model_aliases@.len() < c.model_types@.len() {
        c.model_aliases@.len()
    } else {
        c.model_types@.len()
    };
    Seq::new(n, |i: int| alias_key(c.model_aliases@[i]@))
}

/// The model registry of a core section.
pub open spec fn model_registry_spec(c: DsCoreSection) -> Map<Seq<char>, String> {
    registry_upto(c.model_types@, model_id_keys(c), alias_keys(c), c.model_types@.len())
}

/// Builds the registry from given keys: `ids[i]` maps to `types[i]`, and
/// so does `aliases[i]` when it is not empty; later entries win.
pub fn registry_from_keys(types: &Vec<String>, ids: &Vec<String>, aliases: &Vec<String>) -> (res:
    StringHashMap<String>)
    requires
        ids@.len() == types@.len(),
    ensures
        res@ == registry_upto(types@, views(ids@), views(aliases@), types@.len()),
{
    let mut map: StringHashMap<String> = StringHashMap::new();
    let n = types.len();
    let mut i: usize = 0;
    while i < n
        invariant
            n == types@.len(),
            n == ids@.len(),
            0 <= i <= n,
            map@ == registry_upto(types@, views(ids@), views(aliases@), i as nat),
        decreases n - i,
    {
        map.insert(ids[i].clone(), types[i].clone());
        if i < aliases.len() && !aliases[i].as_str().is_empty() {
            map.insert(aliases[i].clone(), types[i].clone());
        }
        i = i + 1;
    }
    map
}

impl DsCoreSection {
    /// Builds the registry from OpenAI model ids (and aliases) to model
    /// types: `deepseek-<type>` lower-cased for each type, and each
    /// non-empty alias, trimmed and lower-cased, for the type at its index.
    #[must_use]
    pub fn model_registry(&self) -> (res: StringHashMap<String>)
        ensures
            res@ == model_registry_spec(*self),
            forall|i: int, k: Seq<char>|
                0 <= i < self.model_types@.len() && #[trigger] inserts_key(*self, i, k)
                    ==> res@.contains_key(k),
            forall|i: int, k: Seq<char>|
                0 <= i < self.model_types@.len() && #[trigger] inserts_key(*self, i, k) && (forall|
                    j: int,
                | i < j < self.model_types@.len() ==> !inserts_key(*self, j, k)) ==> res@[k]
                    == self.model_types@[i],
            forall|k: Seq<char>|
                #[trigger] res@.contains_key(k) ==> exists|i: int|
                    0 <= i < self.model_types@.len() && inserts_key(*self, i, k) && res@[k]
                        == self.model_types@[i],
    {
        let n = self.model_types.len();
        let mut ids: Vec<String> = Vec::new();
        let mut aliases: Vec<String> = Vec::new();
        let mut i: usize = 0;
        while i < n
            invariant
                n == self.model_types@.len(),
                0 <= i <= n,
                views(ids@) == model_id_keys(*self).take(i as int),
                views(aliases@) == alias_keys(*self).take(
                    if (i as int) < self.model_aliases@.len() { i as int } else { self.model_aliases@.len() as int },
                ),
            decreases n - i,
        {
            let ghost ids_before = ids@;
            let ghost aliases_before = aliases@;
            let mut id = String::from_str("deepseek-");
            id.append(self.model_types[i].as_str());
            let key = str_to_lowercase(id.as_str());
            assert(key@ == model_id_key(self.model_types@[i as int]@));
            ids.push(key);
            assert(views(ids@) =~= views(ids_before).push(model_id_key(self.model_types@[i as int]@)));
            if i < self.model_aliases.len() {
                let alias = str_to_lowercase(str_trim(self.model_aliases[i].as_str()));
                assert(alias@ == alias_key(self.model_aliases@[i as int]@));
                aliases.push(alias);
                assert(views(aliases@) =~= views(aliases_before).push(
                    alias_key(self.model_aliases@[i as int]@),
                ));
            }
            proof {
                assert(views(ids@) =~= model_id_keys(*self).take(i as int + 1));
                assert(views(aliases@) =~= alias_keys(*self).take(
                    if (i as int + 1) < self.model_aliases@.len() { i as int + 1 } else { self.model_aliases@.len() as int },
                ));
            }
            i = i + 1;
        }
        proof {
            assert(views(ids@) =~= model_id_keys(*self));
            assert(views(aliases@) =~= alias_keys(*self));
        }
        let res = registry_from_keys(&self.model_types, &ids, &aliases);
        proof {
            assert forall|i: int, k: Seq<char>|
                0 <= i < self.model_types@.len() && #[trigger] inserts_key(*self, i, k) implies res@.contains_key(k) && ((forall|j: int|
                    i < j < self.model_types@.len() ==> !inserts_key(*self, j, k))
                    ==> res@[k] == self.model_types@[i]) by {
                lemma_registry_has_inserted_keys(*self, i, k);
            }
            assert forall|k: Seq<char>| #[trigger] res@.contains_key(k) implies exists|
                i: int,
            |
                0 <= i < self.model_types@.len() && inserts_key(*self, i, k) && res@[k] == self.model_types@[i] by {
                lemma_registry_entries_come_from_models(*self, k);
                let i = choose|i: int|
                    0 <= i < self.model_types@.len() && model_registry_spec(*self)[k]
                        == self.model_types@[i] && (k == model_id_key(self.model_types@[i]@) || (i
                        < self.model_aliases@.len() && k == alias_key(self.model_aliases@[i]@)
                        && k.len() > 0));
                assert(inserts_key(*self, i, k));
            }
        }
        res
    }
}

/// A key present after `m` insertion rounds is still present after `n >= m`.
proof fn lemma_registry_keeps_keys(
    types: Seq<String>,
    ids: Seq<Seq<char>>,
    aliases: Seq<Seq<char>>,
    m: nat,
    n: nat,
    k: Seq<char>,
)
    requires
        m <= n,
        registry_upto(types, ids, aliases, m).contains_key(k),
    ensures
        registry_upto(types, ids, aliases, n).contains_key(k),
    decreases n - m,
{
    if m < n {
        lemma_registry_keeps_keys(types, ids, aliases, m, (n - 1) as nat, k);
    }
}

/// Every key after `n` rounds was inserted by one of the first `n` model
/// types, under its id or under its non-empty alias, and maps to that type.
proof fn lemma_registry_upto_origin(
    types: Seq<String>,
    ids: Seq<Seq<char>>,
    aliases: Seq<Seq<char>>,
    n: nat,
    k: Seq<char>,
)
    requires
        registry_upto(types, ids, aliases, n).contains_key(k),
    ensures
        exists|i: int|
            0 <= i < n && registry_upto(types, ids, aliases, n)[k] == types[i] && (k == ids[i] || (i
                < aliases.len() && k == aliases[i] && k.len() > 0)),
    decreases n,
{
    let i = n - 1;
    let prev = registry_upto(types, ids, aliases, (n - 1) as nat);
    if i < aliases.len() && aliases[i].len() > 0 && k == aliases[i] {
        assert(registry_upto(types, ids, aliases, n)[k] == types[i]);
    } else if k == ids[i] {
        assert(registry_upto(types, ids, aliases, n)[k] == types[i]);
    } else {
        assert(prev.contains_key(k));
        assert(registry_upto(types, ids, aliases, n)[k] == prev[k]);
        lemma_registry_upto_origin(types, ids, aliases, (n - 1) as nat, k);
        let j = choose|j: int|
            0 <= j < n - 1 && prev[k] == types[j] && (k == ids[j] || (j < aliases.len() && k
                == aliases[j] && k.len() > 0));
        assert(0 <= j < n);
    }
}

/// Model type `j` of `c` inserts key `k`: `k` is its id, or its alias is
/// present and trims and lower-cases to the non-empty `k`.
pub open spec fn inserts_key(c: DsCoreSection, j: int, k: Seq<char>) -> bool {
    ||| model_id_key(c.model_types@[j]@) == k
    ||| (j < c.model_aliases@.len() && alias_key(c.model_aliases@[j]@) == k && k.len() > 0)
}

/// Round `j` of `registry_upto` inserts `k`.
pub open spec fn round_inserts(ids: Seq<Seq<char>>, aliases: Seq<Seq<char>>, j: int, k: Seq<char>) -> bool {
    ids[j] == k || (j < aliases.len() && aliases[j] == k && k.len() > 0)
}

/// A key inserted at round `i` and at no later round before `m` maps to
/// `types[i]` after `m` rounds.
proof fn lemma_registry_last_insert_wins(
    types: Seq<String>,
    ids: Seq<Seq<char>>,
    aliases: Seq<Seq<char>>,
    i: int,
    m: nat,
    k: Seq<char>,
)
    requires
        0 <= i < m,
        round_inserts(ids, aliases, i, k),
        forall|j: int| i < j < m ==> !round_inserts(ids, aliases, j, k),
    ensures
        registry_upto(types, ids, aliases, m).contains_key(k),
        registry_upto(types, ids, aliases, m)[k] == types[i],
    decreases m,
{
    if m > i + 1 {
        lemma_registry_last_insert_wins(types, ids, aliases, i, (m - 1) as nat, k);
        assert(!round_inserts(ids, aliases, m - 1, k));
    }
}

/// The round keys of the registry of `c` are the ids and trimmed,
/// lower-cased aliases of its model types.
proof fn lemma_round_inserts_is_inserts_key(c: DsCoreSection, j: int, k: Seq<char>)
    requires
        0 <= j < c.model_types@.len(),
    ensures
        round_inserts(model_id_keys(c), alias_keys(c), j, k) == inserts_key(c, j, k),
{
}

/// Every key a model type inserts (its id, or its non-empty trimmed,
/// lower-cased alias) is in the registry; it maps to that type unless a
/// later model type inserts the same key.
pub proof fn lemma_registry_has_inserted_keys(c: DsCoreSection, i: int, k: Seq<char>)
    requires
        0 <= i < c.model_types@.len(),
        inserts_key(c, i, k),
    ensures
        model_registry_spec(c).contains_key(k),
        (forall|j: int| i < j < c.model_types@.len() ==> !inserts_key(c, j, k))
            ==> model_registry_spec(c)[k] == c.model_types@[i],
{
    let n = c.model_types@.len();
    lemma_round_inserts_is_inserts_key(c, i, k);
    let ids = model_id_keys(c);
    let aliases = alias_keys(c);
    assert(registry_upto(c.model_types@, ids, aliases, (i + 1) as nat).contains_key(k)) by {
        lemma_registry_last_insert_wins(c.model_types@, ids, aliases, i, (i + 1) as nat, k);
    }
    lemma_registry_keeps_keys(c.model_types@, ids, aliases, (i + 1) as nat, n, k);
    if forall|j: int| i < j < n ==> !inserts_key(c, j, k) {
        assert forall|j: int| i < j < n implies !round_inserts(ids, aliases, j, k) by {
            lemma_round_inserts_is_inserts_key(c, j, k);
        }
        lemma_registry_last_insert_wins(c.model_types@, ids, aliases, i, n, k);
    }
}

/// Every non-empty trimmed, lower-cased alias given at the index of a
/// model type is a key of the registry.
pub proof fn lemma_registry_has_every_alias(c: DsCoreSection, i: int)
    requires
        0 <= i < c.model_types@.len(),
        i < c.model_aliases@.len(),
        alias_key(c.model_aliases@[i]@).len() > 0,
    ensures
        model_registry_spec(c).contains_key(alias_key(c.model_aliases@[i]@)),
{
    lemma_registry_has_inserted_keys(c, i, alias_key(c.model_aliases@[i]@));
}

/// Every model type is reachable in the registry under its id
/// `deepseek-<type>` (lower-cased).
pub proof fn lemma_registry_has_every_model_id(c: DsCoreSection, i: int)
    requires
        0 <= i < c.model_types@.len(),
    ensures
        model_registry_spec(c).contains_key(model_id_key(c.model_types@[i]@)),
{
    let types = c.model_types@;
    assert(registry_upto(types, model_id_keys(c), alias_keys(c), (i + 1) as nat).contains_key(
        model_id_key(types[i]@),
    ));
    lemma_registry_keeps_keys(
        types,
        model_id_keys(c),
        alias_keys(c),
        (i + 1) as nat,
        types.len(),
        model_id_key(types[i]@),
    );
}

/// Every registry entry maps the id of a model type, or a non-empty alias
/// given at the same index, to that model type; empty aliases add nothing.
pub proof fn lemma_registry_entries_come_from_models(c: DsCoreSection, k: Seq<char>)
    requires
        model_registry_spec(c).contains_key(k),
    ensures
        exists|i: int|
            0 <= i < c.model_types@.len() && model_registry_spec(c)[k] == c.model_types@[i] && (k
                == model_id_key(c.model_types@[i]@) || (i < c.model_aliases@.len() && k
                == alias_key(c.model_aliases@[i]@) && k.len() > 0)),
{
    lemma_registry_upto_origin(c.model_types@, model_id_keys(c), alias_keys(c), c.model_types@.len(), k);
    let i = choose|i: int|
        0 <= i < c.model_types@.len() && model_registry_spec(c)[k] == c.model_types@[i] && (k
            == model_id_keys(c)[i] || (i < alias_keys(c).len() && k == alias_keys(c)[i] && k.len()
            > 0));
    assert(0 <= i < c.model_types@.len());
}

// ── Account de-duplication ──────────────────────────────────────────────

/// The identity of an account: its e-mail, or its mobile number when the
/// e-mail is empty.
pub open spec fn account_key(a: Account) -> Seq<char> {
    if a.email@.len() == 0 {
        a.mobile@
    } else {
        a.email@
    }
}

/// Some account of `s` has key `k`.
pub open spec fn has_account_key(s: Seq<Account>, k: Seq<char>) -> bool {
    exists|j: int| 0 <= j < s.len() && account_key(s[j]) == k
}

/// The accounts of `s` in order, each kept only if no earlier account has
/// the same key.
pub open spec fn dedup_by_key(s: Seq<Account>) -> Seq<Account>
    decreases s.len(),
{
    if s.len() == 0 {
        s
    } else {
        let init = dedup_by_key(s.drop_last());
        if has_account_key(s.drop_last(), account_key(s.last())) {
            init
        } else {
            init.push(s.last())
        }
    }
}

/// No two accounts of `s` share a key.
pub open spec fn keys_distinct(s: Seq<Account>) -> bool {
    forall|a: int, b: int|
        0 <= a < b < s.len() ==> account_key(#[trigger] s[a]) != account_key(#[trigger] s[b])
}

/// De-duplication keeps exactly the keys present in the input.
pub proof fn lemma_dedup_same_keys(s: Seq<Account>, k: Seq<char>)
    ensures
        has_account_key(dedup_by_key(s), k) == has_account_key(s, k),
    decreases s.len(),
{
    if s.len() > 0 {
        let init = s.drop_last();
        lemma_dedup_same_keys(init, k);
        let d = dedup_by_key(s);
        let di = dedup_by_key(init);
        if has_account_key(s, k) {
            let j = choose|j: int| 0 <= j < s.len() && account_key(s[j]) == k;
            if j < s.len() - 1 {
                assert(account_key(init[j]) == k);
                assert(has_account_key(di, k));
                let t = choose|t: int| 0 <= t < di.len() && account_key(di[t]) == k;
                assert(d[t] == di[t]);
            } else if has_account_key(init, account_key(s.last())) {
                assert(has_account_key(di, k));
                let t = choose|t: int| 0 <= t < di.len() && account_key(di[t]) == k;
                assert(d[t] == di[t]);
            } else {
                assert(d[di.len() as int] == s.last());
            }
        }
        if has_account_key(d, k) {
            let t = choose|t: int| 0 <= t < d.len() && account_key(d[t]) == k;
            if t < di.len() {
                assert(d[t] == di[t]);
                assert(has_account_key(di, k));
                let j = choose|j: int| 0 <= j < init.len() && account_key(init[j]) == k;
                assert(s[j] == init[j]);
            } else {
                assert(d[t] == s.last());
                assert(s[s.len() - 1] == s.last());
            }
        }
    }
}

/// After de-duplication no two accounts share a key.
pub proof fn lemma_dedup_keys_distinct(s: Seq<Account>)
    ensures
        keys_distinct(dedup_by_key(s)),
    decreases s.len(),
{
    if s.len() > 0 {
        let init = s.drop_last();
        lemma_dedup_keys_distinct(init);
        let d = dedup_by_key(s);
        let di = dedup_by_key(init);
        if !has_account_key(init, account_key(s.last())) {
            assert forall|a: int, b: int| 0 <= a < b < d.len() implies account_key(
                #[trigger] d[a],
            ) != account_key(#[trigger] d[b]) by {
                if b == di.len() {
                    lemma_dedup_same_keys(init, account_key(s.last()));
                    assert(d[a] == di[a]);
                    if account_key(d[a]) == account_key(d[b]) {
                        assert(has_account_key(di, account_key(s.last())));
                    }
                } else {
                    assert(d[a] == di[a]);
                    assert(d[b] == di[b]);
                }
            }
        }
    }
}

/// A sequence whose keys are already distinct is left unchanged.
proof fn lemma_dedup_distinct_unchanged(s: Seq<Account>)
    requires
        keys_distinct(s),
    ensures
        dedup_by_key(s) == s,
    decreases s.len(),
{
    if s.len() > 0 {
        let init = s.drop_last();
        assert(keys_distinct(init)) by {
            assert forall|a: int, b: int| 0 <= a < b < init.len() implies account_key(
                #[trigger] init[a],
            ) != account_key(#[trigger] init[b]) by {
                assert(init[a] == s[a]);
                assert(init[b] == s[b]);
            }
        }
        lemma_dedup_distinct_unchanged(init);
        if has_account_key(init, account_key(s.last())) {
            let j = choose|j: int| 0 <= j < init.len() && account_key(init[j]) == account_key(s.last());
            assert(s[j] == init[j]);
            assert(s[s.len() - 1] == s.last());
            assert(false);
        }
        assert(init.push(s.last()) =~= s);
    }
}

/// De-duplicating twice gives what de-duplicating once gives.
pub proof fn lemma_dedup_idempotent(s: Seq<Account>)
    ensures
        dedup_by_key(dedup_by_key(s)) == dedup_by_key(s),
{
    lemma_dedup_keys_distinct(s);
    lemma_dedup_distinct_unchanged(dedup_by_key(s));
}

/// Position `j` of `s` holds the first account with its key.
pub open spec fn first_occurrence(s: Seq<Account>, j: int) -> bool {
    &&& 0 <= j < s.len()
    &&& forall|i: int| 0 <= i < j ==> account_key(#[trigger] s[i]) != account_key(s[j])
}

/// `r` lists, in input order, accounts of `s` that each stand at the first
/// position of their key.
pub open spec fn first_occurrences_in_order(s: Seq<Account>, r: Seq<Account>) -> bool {
    exists|idx: Seq<int>|
        #![trigger idx.len()]
        idx.len() == r.len() && (forall|t: int|
            0 <= t < r.len() ==> first_occurrence(s, #[trigger] idx[t]) && r[t] == s[idx[t]])
            && (forall|a: int, b: int| 0 <= a < b < r.len() ==> #[trigger] idx[a] < #[trigger] idx[b])
}

/// De-duplication keeps first occurrences only, in input order: together
/// with `lemma_dedup_same_keys` and `lemma_dedup_keys_distinct`, the first
/// account of every key and nothing else.
pub proof fn lemma_dedup_keeps_first_occurrences(s: Seq<Account>)
    ensures
        first_occurrences_in_order(s, dedup_by_key(s)),
    decreases s.len(),
{
    let d = dedup_by_key(s);
    if s.len() == 0 {
        let idx = Seq::<int>::empty();
        assert(idx.len() == d.len());
    } else {
        let init = s.drop_last();
        let di = dedup_by_key(init);
        lemma_dedup_keeps_first_occurrences(init);
        let idx0 = choose|idx: Seq<int>|
            #![trigger idx.len()]
            idx.len() == di.len() && (forall|t: int|
                0 <= t < di.len() ==> first_occurrence(init, #[trigger] idx[t]) && di[t] == init[idx[t]])
                && (forall|a: int, b: int| 0 <= a < b < di.len() ==> #[trigger] idx[a] < #[trigger] idx[b]);
        assert forall|t: int| 0 <= t < di.len() implies first_occurrence(s, #[trigger] idx0[t])
            && di[t] == s[idx0[t]] by {
            let j = idx0[t];
            assert(first_occurrence(init, j));
            assert forall|i: int| 0 <= i < j implies account_key(#[trigger] s[i]) != account_key(s[j]) by {
                assert(s[i] == init[i]);
                assert(init[i] == s[i]);
            }
            assert(s[j] == init[j]);
        }
        if has_account_key(init, account_key(s.last())) {
            assert(d == di);
            assert(idx0.len() == d.len());
        } else {
            let idx = idx0.push(s.len() - 1);
            assert(first_occurrence(s, s.len() - 1)) by {
                assert forall|i: int| 0 <= i < s.len() - 1 implies account_key(#[trigger] s[i])
                    != account_key(s[s.len() - 1]) by {
                    assert(s[i] == init[i]);
                    if account_key(s[i]) == account_key(s[s.len() - 1]) {
                        assert(has_account_key(init, account_key(s.last())));
                    }
                }
            }
            assert forall|t: int| 0 <= t < d.len() implies first_occurrence(s, #[trigger] idx[t])
                && d[t] == s[idx[t]] by {
                if t < di.len() {
                    assert(idx[t] == idx0[t]);
                    assert(d[t] == di[t]);
                } else {
                    assert(idx[t] == s.len() - 1);
                }
            }
            assert forall|a: int, b: int| 0 <= a < b < d.len() implies #[trigger] idx[a] < #[trigger] idx[b] by {
                if b < di.len() {
                    assert(idx[a] == idx0[a]);
                    assert(idx[b] == idx0[b]);
                } else {
                    assert(idx[a] == idx0[a]);
                    assert(first_occurrence(init, idx0[a]));
                }
            }
            assert(idx.len() == d.len());
        }
    }
}

/// Every account kept by de-duplication is an account of the input.
pub proof fn lemma_dedup_keeps_only_input(s: Seq<Account>, t: int)
    requires
        0 <= t < dedup_by_key(s).len(),
    ensures
        exists|j: int| 0 <= j < s.len() && s[j] == dedup_by_key(s)[t],
    decreases s.len(),
{
    let init = s.drop_last();
    let di = dedup_by_key(init);
    if t < di.len() {
        lemma_dedup_keeps_only_input(init, t);
        let j = choose|j: int| 0 <= j < init.len() && init[j] == di[t];
        assert(s[j] == init[j]);
    } else {
        assert(s[s.len() - 1] == dedup_by_key(s)[t]);
    }
}

/// The key of an account: its e-mail, or its mobile number if the e-mail
/// is empty.
fn account_key_of(a: &Account) -> (k: &String)
    ensures
        k@ == account_key(*a),
{
    if a.email.as_str().is_empty() {
        &a.mobile
    } else {
        &a.email
    }
}

/// Whether some account of `list` has key `key`.
fn contains_account_key(list: &Vec<Account>, key: &String) -> (res: bool)
    ensures
        res == has_account_key(list@, key@),
{
    let n = list.len();
    let mut j: usize = 0;
    while j < n
        invariant
            n == list@.len(),
            0 <= j <= n,
            forall|t: int| 0 <= t < j ==> account_key(#[trigger] list@[t]) != key@,
        decreases n - j,
    {
        if *account_key_of(&list[j]) == *key {
            return true;
        }
        j = j + 1;
    }
    false
}

/// `a` and `b` agree on everything but the account pool.
pub open spec fn same_except_accounts(a: Config, b: Config) -> bool {
    &&& a.server == b.server
    &&& a.proxy == b.proxy
    &&& a.admin == b.admin
    &&& a.api_keys == b.api_keys
    &&& a.ds_core.api_base == b.ds_core.api_base
    &&& a.ds_core.wasm_url == b.ds_core.wasm_url
    &&& a.ds_core.user_agent == b.ds_core.user_agent
    &&& a.ds_core.client_version == b.ds_core.client_version
    &&& a.ds_core.client_platform == b.ds_core.client_platform
    &&& a.ds_core.client_locale == b.ds_core.client_locale
    &&& a.ds_core.model_types == b.ds_core.model_types
    &&& a.ds_core.max_input_tokens == b.ds_core.max_input_tokens
    &&& a.ds_core.max_output_tokens == b.ds_core.max_output_tokens
    &&& a.ds_core.input_character_limits == b.ds_core.input_character_limits
    &&& a.ds_core.model_aliases == b.ds_core.model_aliases
    &&& a.ds_core.tool_call == b.ds_core.tool_call
}

impl Config {
    /// Removes accounts whose key (e-mail, else mobile number) was already
    /// seen, keeping the first occurrence of each key.
    pub fn dedup_accounts(&mut self)
        ensures
            final(self).ds_core.accounts@ == dedup_by_key(old(self).ds_core.accounts@),
            same_except_accounts(*final(self), *old(self)),
            keys_distinct(final(self).ds_core.accounts@),
            forall|k: Seq<char>|
                #![trigger has_account_key(final(self).ds_core.accounts@, k)]
                has_account_key(final(self).ds_core.accounts@, k) == has_account_key(
                    old(self).ds_core.accounts@,
                    k,
                ),
            first_occurrences_in_order(old(self).ds_core.accounts@, final(self).ds_core.accounts@),
    {
        proof {
            lemma_dedup_keys_distinct(old(self).ds_core.accounts@);
            lemma_dedup_keeps_first_occurrences(old(self).ds_core.accounts@);
            assert forall|k: Seq<char>| has_account_key(dedup_by_key(old(self).ds_core.accounts@), k)
                == has_account_key(old(self).ds_core.accounts@, k) by {
                lemma_dedup_same_keys(old(self).ds_core.accounts@, k);
            }
        }
        let mut rest: Vec<Account> = Vec::new();
        std::mem::swap(&mut rest, &mut self.ds_core.accounts);
        let ghost orig = rest@;
        let n = rest.len();
        let mut kept: Vec<Account> = Vec::new();
        let mut i: usize = 0;
        assert(orig.take(0) =~= Seq::<Account>::empty());
        while i < n
            invariant
                n == orig.len(),
                0 <= i <= n,
                rest@ == orig.skip(i as int),
                kept@ == dedup_by_key(orig.take(i as int)),
            decreases n - i,
        {
            let a = rest.remove(0);
            proof {
                assert(a == orig[i as int]);
                assert(rest@ =~= orig.skip(i as int + 1));
                let pre = orig.take(i as int + 1);
                assert(pre.drop_last() =~= orig.take(i as int));
                assert(pre.last() == a);
                lemma_dedup_same_keys(orig.take(i as int), account_key(a));
            }
            let seen = contains_account_key(&kept, account_key_of(&a));
            if !seen {
                kept.push(a);
            }
            i = i + 1;
        }
        assert(orig.take(n as int) =~= orig);
        self.ds_core.accounts = kept;
    }
}

// ── Validation ──────────────────────────────────────────────────────────

/// The keys of the configured API keys, in order.
pub open spec fn api_key_views(c: Config) -> Seq<Seq<char>> {
    c.api_keys@.map_values(|e: ApiKeyEntry| e.key@)
}

/// `keys[i]` equals some earlier key.
pub open spec fn repeats_earlier(keys: Seq<Seq<char>>, i: int) -> bool {
    exists|j: int| 0 <= j < i && keys[j] == keys[i]
}

/// `d` is the first position whose key equals an earlier one.
pub open spec fn is_first_repeat(keys: Seq<Seq<char>>, d: int) -> bool {
    &&& 0 <= d < keys.len()
    &&& repeats_earlier(keys, d)
    &&& forall|e: int| 0 <= e < d ==> !repeats_earlier(keys, e)
}

/// Some key occurs twice.
pub open spec fn has_repeat(keys: Seq<Seq<char>>) -> bool {
    exists|d: int| 0 <= d < keys.len() && repeats_earlier(keys, d)
}

/// The first position whose key equals an earlier one.
pub open spec fn first_repeat_index(keys: Seq<Seq<char>>) -> int {
    choose|d: int| is_first_repeat(keys, d)
}

/// The start of `key` shown in a duplicate-key message: its first 12 bytes
/// when it is longer than that, else the whole key.
pub open spec fn key_prefix_spec(key: Seq<char>) -> Seq<char> {
    if encode_utf8(key).len() > 12 {
        decode_utf8(encode_utf8(key).subrange(0, 12))
    } else {
        key
    }
}

/// The message for a repeated API key.
pub open spec fn duplicate_key_message(key: Seq<char>) -> Seq<char> {
    "API key 重复: "@ + key_prefix_spec(key) + "..."@
}

/// The message for a limit list whose length differs from the number of
/// model types; `lead` names the list.
pub open spec fn length_mismatch_message(lead: Seq<char>, len: nat, n: nat) -> Seq<char> {
    lead + decimal_spec(len) + ")必须与 model_types 长度("@ + decimal_spec(n) + ")一致"@
}

/// What validation decides for `c`: `Ok` or the message of the first
/// failed check.
pub open spec fn validate_spec(c: Config) -> Result<(), Seq<char>> {
    let n = c.ds_core.model_types@.len();
    let keys = api_key_views(c);
    if n == 0 {
        Err("model_types 不能为空"@)
    } else if c.ds_core.max_input_tokens@.len() != n {
        Err(length_mismatch_message("max_input_tokens 长度("@, c.ds_core.max_input_tokens@.len(), n))
    } else if c.ds_core.max_output_tokens@.len() != n {
        Err(length_mismatch_message("max_output_tokens 长度("@, c.ds_core.max_output_tokens@.len(), n))
    } else if c.ds_core.input_character_limits@.len() != n {
        Err(
            length_mismatch_message(
                "input_character_limits 长度("@,
                c.ds_core.input_character_limits@.len(),
                n,
            ),
        )
    } else if has_repeat(keys) {
        Err(duplicate_key_message(keys[first_repeat_index(keys)]))
    } else {
        Ok(())
    }
}

/// The inputs on which validation cannot cut the 12-byte prefix of the
/// first repeated API key: that prefix would end inside a character.
pub open spec fn validate_cuts_inside_char(c: Config) -> bool {
    let n = c.ds_core.model_types@.len();
    let keys = api_key_views(c);
    &&& n != 0
    &&& c.ds_core.max_input_tokens@.len() == n
    &&& c.ds_core.max_output_tokens@.len() == n
    &&& c.ds_core.input_character_limits@.len() == n
    &&& has_repeat(keys)
    &&& encode_utf8(keys[first_repeat_index(keys)]).len() > 12
    &&& !is_char_boundary(encode_utf8(keys[first_repeat_index(keys)]), 12)
}

/// `Result` of validation matches the decision of `validate_spec`.
pub open spec fn validation_agrees(res: Result<(), ConfigError>, spec: Result<(), Seq<char>>) -> bool {
    match spec {
        Ok(()) => res is Ok,
        Err(m) => res matches Err(ConfigError::Validation(s)) && s@ == m,
    }
}

/// Every limit list has one entry per model type, and there is at least one.
pub open spec fn limits_aligned(c: Config) -> bool {
    let n = c.ds_core.model_types@.len();
    &&& n > 0
    &&& c.ds_core.max_input_tokens@.len() == n
    &&& c.ds_core.max_output_tokens@.len() == n
    &&& c.ds_core.input_character_limits@.len() == n
}

/// No two API keys are equal.
pub open spec fn api_keys_distinct(c: Config) -> bool {
    forall|a: int, b: int|
        0 <= a < b < c.api_keys@.len() ==> #[trigger] c.api_keys@[a].key@
            != #[trigger] c.api_keys@[b].key@
}

/// Validation accepts exactly the configurations with aligned limit lists
/// and distinct API keys; nothing else (aliases, accounts, server, proxy,
/// admin) is looked at.
pub proof fn lemma_validation_accepts_exactly(c: Config)
    ensures
        validate_spec(c) is Ok <==> (limits_aligned(c) && api_keys_distinct(c)),
{
    let keys = api_key_views(c);
    if limits_aligned(c) && api_keys_distinct(c) {
        if has_repeat(keys) {
            let d = choose|d: int| 0 <= d < keys.len() && repeats_earlier(keys, d);
            let j = choose|j: int| 0 <= j < d && keys[j] == keys[d];
            assert(keys[j] == c.api_keys@[j].key@);
            assert(keys[d] == c.api_keys@[d].key@);
            assert(false);
        }
    }
    if validate_spec(c) is Ok {
        lemma_valid_config_aligned(c);
    }
}

/// The first repeat is unique.
proof fn lemma_first_repeat_unique(keys: Seq<Seq<char>>, d: int)
    requires
        is_first_repeat(keys, d),
    ensures
        first_repeat_index(keys) == d,
{
    let c = first_repeat_index(keys);
    assert(is_first_repeat(keys, c));
    if c < d {
        assert(!repeats_earlier(keys, c));
    } else if d < c {
        assert(!repeats_earlier(keys, d));
    }
}

/// The message for a limit list of length `len` that should have `n`
/// entries.
fn length_mismatch(lead: &str, len: usize, n: usize) -> (res: String)
    ensures
        res@ == length_mismatch_message(lead@, len as nat, n as nat),
{
    let mut m = String::from_str(lead);
    m.append(usize_to_decimal(len).as_str());
    m.append(")必须与 model_types 长度(");
    m.append(usize_to_decimal(n).as_str());
    m.append(")一致");
    m
}

/// The start of `key` shown in a duplicate-key message.
fn key_prefix(key: &String) -> (res: &str)
    requires
        encode_utf8(key@).len() > 12 ==> is_char_boundary(encode_utf8(key@), 12),
    ensures
        res@ == key_prefix_spec(key@),
{
    let s = key.as_str();
    let byte_len = s.as_bytes().len();
    if byte_len > 12 {
        let (p, _) = s.split_at(12);
        proof {
            encode_utf8_decode_utf8(p@);
            assert(s@ == key@);
            assert(p.spec_bytes() =~= encode_utf8(key@).subrange(0, 12));
            assert(p@ == decode_utf8(encode_utf8(p@)));
        }
        p
    } else {
        s
    }
}

impl Config {
    /// The position of the first API key that repeats an earlier one.
    fn first_repeated_key(&self) -> (res: Option<usize>)
        ensures
            match res {
                Some(d) => is_first_repeat(api_key_views(*self), d as int),
                None => !has_repeat(api_key_views(*self)),
            },
    {
        let ghost keys = api_key_views(*self);
        let m = self.api_keys.len();
        let mut i: usize = 0;
        while i < m
            invariant
                m == self.api_keys@.len(),
                keys == api_key_views(*self),
                keys.len() == m,
                0 <= i <= m,
                forall|e: int| 0 <= e < i ==> !repeats_earlier(keys, e),
            decreases m - i,
        {
            let mut j: usize = 0;
            while j < i
                invariant
                    m == self.api_keys@.len(),
                    keys == api_key_views(*self),
                    keys.len() == m,
                    0 <= j <= i < m,
                    forall|e: int| 0 <= e < i ==> !repeats_earlier(keys, e),
                    forall|t: int| 0 <= t < j ==> keys[t] != keys[i as int],
                decreases i - j,
            {
                if self.api_keys[j].key == self.api_keys[i].key {
                    assert(keys[j as int] == keys[i as int]);
                    return Some(i);
                }
                j = j + 1;
            }
            i = i + 1;
        }
        proof {
            if has_repeat(keys) {
                let d = choose|d: int| 0 <= d < keys.len() && repeats_earlier(keys, d);
                assert(!repeats_earlier(keys, d));
            }
        }
        None
    }

    /// Whether validation would have to cut the 12-byte prefix of the first
    /// repeated API key inside a character (the one input it refuses).
    pub fn validation_would_panic(&self) -> (res: bool)
        ensures
            res == validate_cuts_inside_char(*self),
    {
        let n = self.ds_core.model_types.len();
        if n == 0 || self.ds_core.max_input_tokens.len() != n
            || self.ds_core.max_output_tokens.len() != n
            || self.ds_core.input_character_limits.len() != n {
            return false;
        }
        match self.first_repeated_key() {
            None => false,
            Some(i) => {
                proof {
                    lemma_first_repeat_unique(api_key_views(*self), i as int);
                    assert(api_key_views(*self)[i as int] == self.api_keys@[i as int].key@);
                }
                let s = self.api_keys[i].key.as_str();
                s.as_bytes().len() > 12 && !s.is_char_boundary(12)
            },
        }
    }

    /// Checks that at least one model type is configured, that every limit
    /// list has one entry per model type, and that no API key is repeated.
    pub fn validate(&self) -> (res: Result<(), ConfigError>)
        requires
            !validate_cuts_inside_char(*self),
        ensures
            validation_agrees(res, validate_spec(*self)),
            res is Ok <==> (limits_aligned(*self) && api_keys_distinct(*self)),
            self.ds_core.model_types@.len() == 0 ==> (res matches Err(ConfigError::Validation(m)) && m@
                == "model_types 不能为空"@),
            (self.ds_core.model_types@.len() > 0 && self.ds_core.max_input_tokens@.len()
                != self.ds_core.model_types@.len()) ==> (res matches Err(ConfigError::Validation(m))
                && m@ == "max_input_tokens 长度("@ + decimal_spec(self.ds_core.max_input_tokens@.len())
                + ")必须与 model_types 长度("@ + decimal_spec(self.ds_core.model_types@.len())
                + ")一致"@),
            forall|d: int|
                limits_aligned(*self) && #[trigger] is_first_repeat(api_key_views(*self), d) ==> (res matches Err(
                    ConfigError::Validation(m),
                ) && m@ == "API key 重复: "@ + key_prefix_spec(self.api_keys@[d].key@) + "..."@),
    {
        proof {
            lemma_validation_accepts_exactly(*self);
            assert forall|d: int|
                limits_aligned(*self) && #[trigger] is_first_repeat(api_key_views(*self), d) implies validate_spec(*self)
                == Err::<(), Seq<char>>("API key 重复: "@ + key_prefix_spec(self.api_keys@[d].key@) + "..."@) by {
                lemma_first_repeat_unique(api_key_views(*self), d);
                assert(api_key_views(*self)[d] == self.api_keys@[d].key@);
            }
        }
        let n = self.ds_core.model_types.len();
        if n == 0 {
            return Err(ConfigError::Validation(String::from_str("model_types 不能为空")));
        }
        if self.ds_core.max_input_tokens.len() != n {
            return Err(
                ConfigError::Validation(
                    length_mismatch("max_input_tokens 长度(", self.ds_core.max_input_tokens.len(), n),
                ),
            );
        }
        if self.ds_core.max_output_tokens.len() != n {
            return Err(
                ConfigError::Validation(
                    length_mismatch("max_output_tokens 长度(", self.ds_core.max_output_tokens.len(), n),
                ),
            );
        }
        if self.ds_core.input_character_limits.len() != n {
            return Err(
                ConfigError::Validation(
                    length_mismatch(
                        "input_character_limits 长度(",
                        self.ds_core.input_character_limits.len(),
                        n,
                    ),
                ),
            );
        }
        match self.first_repeated_key() {
            Some(i) => {
                proof {
                    lemma_first_repeat_unique(api_key_views(*self), i as int);
                    assert(api_key_views(*self)[i as int] == self.api_keys@[i as int].key@);
                }
                let mut msg = String::from_str("API key 重复: ");
                msg.append(key_prefix(&self.api_keys[i].key));
                msg.append("...");
                Err(ConfigError::Validation(msg))
            },
            None => Ok(()),
        }
    }
}

/// Validation reads neither the account pool nor anything outside the
/// model lists and API keys.
proof fn lemma_validation_ignores_accounts(a: Config, b: Config)
    requires
        same_except_accounts(a, b),
    ensures
        validate_spec(a) == validate_spec(b),
        validate_cuts_inside_char(a) == validate_cuts_inside_char(b),
{
    assert(api_key_views(a) =~= api_key_views(b));
}

/// A configuration that passes validation has at least one model type and
/// exactly one input-token, output-token and character limit per type.
pub proof fn lemma_valid_config_aligned(c: Config)
    requires
        validate_spec(c) is Ok,
    ensures
        c.ds_core.model_types@.len() > 0,
        c.ds_core.max_input_tokens@.len() == c.ds_core.model_types@.len(),
        c.ds_core.max_output_tokens@.len() == c.ds_core.model_types@.len(),
        c.ds_core.input_character_limits@.len() == c.ds_core.model_types@.len(),
        forall|a: int, b: int|
            0 <= a < b < c.api_keys@.len() ==> #[trigger] c.api_keys@[a].key@
                != #[trigger] c.api_keys@[b].key@,
{
    let keys = api_key_views(c);
    assert forall|a: int, b: int| 0 <= a < b < c.api_keys@.len() implies #[trigger] c.api_keys@[a].key@
        != #[trigger] c.api_keys@[b].key@ by {
        if c.api_keys@[a].key@ == c.api_keys@[b].key@ {
            assert(keys[a] == keys[b]);
            assert(repeats_earlier(keys, b));
            assert(has_repeat(keys));
        }
    }
}

// ── Loading ─────────────────────────────────────────────────────────────

/// The configuration written on first start when no file exists: default
/// core settings, listening on `0.0.0.0:7860` for any origin, no proxy,
/// empty admin settings and no API keys.
pub open spec fn is_first_run_default(c: Config) -> bool {
    &&& is_default_core(c.ds_core)
    &&& c.server.host@ == "0.0.0.0"@
    &&& c.server.port == 7860
    &&& views(c.server.cors_origins@) == seq!["*"@]
    &&& c.proxy.url is None
    &&& is_default_admin(c.admin)
    &&& c.api_keys@.len() == 0
}

/// The configuration written on first start passes validation.
pub proof fn lemma_first_run_default_is_valid(c: Config)
    requires
        is_first_run_default(c),
    ensures
        validate_spec(c) == Ok::<(), Seq<char>>(()),
        !validate_cuts_inside_char(c),
{
    assert(views(c.ds_core.model_types@).len() == 3);
    assert(!has_repeat(api_key_views(c)));
}

/// The path given with `-c` in `args[i..]`, where `found` is what the
/// arguments before `i` gave; `None` when a `-c` has no path after it.
/// Each `-c` takes the next argument as its path; a later one wins.
pub open spec fn cli_config_path(args: Seq<Seq<char>>, i: int, found: Option<Seq<char>>) -> Option<
    Option<Seq<char>>,
>
    decreases args.len() - i,
{
    if i >= args.len() {
        Some(found)
    } else if args[i] == "-c"@ {
        if i + 1 < args.len() {
            cli_config_path(args, i + 2, Some(args[i + 1]))
        } else {
            None
        }
    } else {
        cli_config_path(args, i + 1, found)
    }
}

/// No argument from index `i` on is `-c`.
pub open spec fn no_flag_from(args: Seq<Seq<char>>, i: int) -> bool {
    forall|k: int| i <= k < args.len() ==> #[trigger] args[k] != "-c"@
}

/// From index `i` on, no `-c` is directly followed by another `-c`.
pub open spec fn no_flag_as_path(args: Seq<Seq<char>>, i: int) -> bool {
    forall|k: int| i <= k && k + 1 < args.len() && #[trigger] args[k] == "-c"@ ==> args[k + 1] != "-c"@
}

/// What reading the arguments from `i` on gives, in terms of the arguments
/// themselves: an error only when the last argument is `-c`; a path only
/// when it directly follows a `-c` (with no `-c` after that path) or was
/// already found and no `-c` follows; no path only when there is no `-c`.
pub proof fn lemma_cli_path_follows_flag(args: Seq<Seq<char>>, i: int, found: Option<Seq<char>>)
    requires
        0 <= i,
    ensures
        match cli_config_path(args, i, found) {
            None => i <= args.len() - 1 && args.last() == "-c"@,
            Some(Some(p)) => (exists|j: int|
                i <= j && j + 1 < args.len() && #[trigger] args[j] == "-c"@ && p == args[j + 1]
                    && no_flag_from(args, j + 2)) || (found == Some(p) && no_flag_from(args, i)),
            Some(None) => found is None && no_flag_from(args, i),
        },
    decreases args.len() - i,
{
    if i >= args.len() {
    } else if args[i] == "-c"@ {
        if i + 1 < args.len() {
            lemma_cli_path_follows_flag(args, i + 2, Some(args[i + 1]));
            match cli_config_path(args, i + 2, Some(args[i + 1])) {
                Some(Some(p)) => {
                    if !(exists|j: int|
                        i + 2 <= j && j + 1 < args.len() && #[trigger] args[j] == "-c"@ && p == args[j
                            + 1] && no_flag_from(args, j + 2)) {
                        assert(i <= i && i + 1 < args.len() && args[i] == "-c"@ && p == args[i + 1]
                            && no_flag_from(args, i + 2));
                    }
                },
                _ => {},
            }
        }
    } else {
        lemma_cli_path_follows_flag(args, i + 1, found);
    }
}

/// When no `-c` serves as the path of another, the path is the argument
/// right after the last `-c`, and a `-c` in last position is an error.
pub proof fn lemma_cli_last_flag_wins(args: Seq<Seq<char>>, i: int, found: Option<Seq<char>>, j: int)
    requires
        0 <= i <= j < args.len(),
        args[j] == "-c"@,
        no_flag_from(args, j + 1),
        no_flag_as_path(args, i),
    ensures
        j + 1 < args.len() ==> cli_config_path(args, i, found) == Some(Some(args[j + 1])),
        j + 1 == args.len() ==> cli_config_path(args, i, found) is None,
    decreases args.len() - i,
{
    if args[i] == "-c"@ {
        if i + 1 < args.len() {
            if i == j {
                lemma_cli_no_flag(args, i + 2, Some(args[i + 1]));
            } else {
                assert(args[i + 1] != "-c"@);
                assert(j != i + 1);
                lemma_cli_last_flag_wins(args, i + 2, Some(args[i + 1]), j);
            }
        }
    } else {
        lemma_cli_last_flag_wins(args, i + 1, found, j);
    }
}

/// Without any `-c` from `i` on, the path already found is the answer.
pub proof fn lemma_cli_no_flag(args: Seq<Seq<char>>, i: int, found: Option<Seq<char>>)
    requires
        0 <= i,
        no_flag_from(args, i),
    ensures
        cli_config_path(args, i, found) == Some(found),
    decreases args.len() - i,
{
    if i < args.len() {
        assert(args[i] != "-c"@);
        lemma_cli_no_flag(args, i + 1, found);
    }
}

/// The characters of an optional string.
pub open spec fn opt_view(o: Option<String>) -> Option<Seq<char>> {
    match o {
        Some(s) => Some(s@),
        None => None,
    }
}

/// The path of the configuration file: the `-c` path, else the path from
/// the environment, else `config.toml`.
pub open spec fn resolved_path_spec(cli: Option<Seq<char>>, env: Option<Seq<char>>) -> Seq<char> {
    match cli {
        Some(p) => p,
        None => match env {
            Some(p) => p,
            None => "config.toml"@,
        },
    }
}

impl Config {
    /// Finishes loading a parsed configuration: removes repeated accounts,
    /// then validates.
    pub fn from_parsed(config: Config) -> (res: Result<Config, ConfigError>)
        requires
            !validate_cuts_inside_char(config),
        ensures
            validate_spec(config) is Ok ==> (res matches Ok(c) && c.ds_core.accounts@ == dedup_by_key(
                config.ds_core.accounts@,
            ) && same_except_accounts(c, config)),
            validate_spec(config) matches Err(m) ==> (res matches Err(ConfigError::Validation(s))
                && s@ == m),
            res is Ok <==> (limits_aligned(config) && api_keys_distinct(config)),
    {
        proof {
            lemma_validation_accepts_exactly(config);
        }
        let mut config = config;
        let ghost before = config;
        config.dedup_accounts();
        proof {
            lemma_validation_ignores_accounts(config, before);
        }
        match config.validate() {
            Ok(()) => Ok(config),
            Err(e) => Err(e),
        }
    }

    /// The configuration written on first start.
    pub fn first_run_default() -> (res: Config)
        ensures
            is_first_run_default(res),
    {
        let mut cors: Vec<String> = Vec::new();
        cors.push(String::from_str("*"));
        assert(views(cors@) =~= seq!["*"@]);
        Config {
            ds_core: DsCoreSection::default(),
            server: ServerConfig { host: String::from_str("0.0.0.0"), port: 7860, cors_origins: cors },
            proxy: ProxyConfig::default(),
            admin: AdminConfig::default(),
            api_keys: Vec::new(),
        }
    }

    /// Reads the `-c <path>` option from the command line (`args[0]` is the
    /// program name and is skipped). A `-c` without a path is an error.
    pub fn parse_config_args(args: &Vec<String>) -> (res: Result<Option<String>, ConfigError>)
        ensures
            match cli_config_path(views(args@), 1, None) {
                None => res matches Err(ConfigError::Cli(m)) && m@ == "-c 参数需要指定路径"@,
                Some(p) => res matches Ok(o) && opt_view(o) == p,
            },
            res matches Ok(Some(p)) ==> exists|j: int|
                1 <= j && j + 1 < args@.len() && #[trigger] views(args@)[j] == "-c"@ && p@
                    == views(args@)[j + 1] && no_flag_from(views(args@), j + 2),
            res matches Ok(None) ==> no_flag_from(views(args@), 1),
            res is Err ==> 2 <= args@.len() && views(args@).last() == "-c"@,
            no_flag_from(views(args@), 1) ==> res matches Ok(None),
            forall|j: int|
                1 <= j < args@.len() && #[trigger] views(args@)[j] == "-c"@ && no_flag_from(
                    views(args@),
                    j + 1,
                ) && no_flag_as_path(views(args@), 1) ==> (j + 1 < args@.len() ==> (res matches Ok(
                    Some(p),
                ) && p@ == views(args@)[j + 1])) && (j + 1 == args@.len() ==> res is Err),
    {
        proof {
            let a = views(args@);
            lemma_cli_path_follows_flag(a, 1, None);
            if no_flag_from(a, 1) {
                lemma_cli_no_flag(a, 1, None);
            }
            assert forall|j: int|
                1 <= j < args@.len() && #[trigger] a[j] == "-c"@ && no_flag_from(a, j + 1)
                    && no_flag_as_path(a, 1) implies (j + 1 < args@.len() ==> cli_config_path(a, 1, None)
                == Some(Some(a[j + 1]))) && (j + 1 == args@.len() ==> cli_config_path(a, 1, None) is None) by {
                lemma_cli_last_flag_wins(a, 1, None, j);
            }
        }
        let ghost all = views(args@);
        let flag = String::from_str("-c");
        let n = args.len();
        let mut path: Option<String> = None;
        let mut i: usize = 1;
        while i < n
            invariant
                n == args@.len(),
                all == views(args@),
                flag@ == "-c"@,
                1 <= i,
                cli_config_path(all, 1, None) == cli_config_path(all, i as int, opt_view(path)),
            decreases n - i,
        {
            if args[i] == flag {
                if i + 1 < n {
                    path = Some(args[i + 1].clone());
                    i = i + 2;
                } else {
                    return Err(ConfigError::Cli(String::from_str("-c 参数需要指定路径")));
                }
            } else {
                i = i + 1;
            }
        }
        Ok(path)
    }

    /// The path of the configuration file: the `-c` path, else the path
    /// from the environment, else `config.toml`.
    pub fn resolve_config_path(cli: Option<String>, env: Option<String>) -> (res: String)
        ensures
            res@ == resolved_path_spec(opt_view(cli), opt_view(env)),
    {
        match cli {
            Some(p) => p,
            None => match env {
                Some(p) => p,
                None => String::from_str("config.toml"),
            },
        }
    }

    /// What to do when the configuration file at `path` does not exist: an
    /// error when the path was given explicitly with `-c`, otherwise the
    /// first-run default configuration (which the caller then saves).
    pub fn when_file_missing(explicit: bool, path: &str) -> (res: Result<Config, ConfigError>)
        ensures
            explicit ==> res matches Err(ConfigError::Io(_)),
            !explicit ==> (res matches Ok(c) && is_first_run_default(c)),
    {
        if explicit {
            let mut msg = String::from_str("指定配置文件不存在: ");
            msg.append(path);
            Err(ConfigError::Io(io_not_found(msg)))
        } else {
            Ok(Config::first_run_default())
        }
    }
}

/// A configuration accepted by loading holds no two accounts with the same
/// e-mail (or, without e-mail, the same mobile number).
pub proof fn lemma_loaded_accounts_distinct(config: Config, loaded: Config)
    requires
        loaded.ds_core.accounts@ == dedup_by_key(config.ds_core.accounts@),
    ensures
        keys_distinct(loaded.ds_core.accounts@),
{
    lemma_dedup_keys_distinct(config.ds_core.accounts@);
}

} // verus!
