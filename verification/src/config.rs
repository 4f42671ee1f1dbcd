//! Persistent MineGraph settings: defaults and access by key name.
//!
//! The sample bias is a floating-point setting; it is held here as the bit
//! pattern of its `f64`, and read and written as text by the caller.

use vstd::prelude::*;

use crate::text::{decimal, decimal_string, parse_u32, parse_u32_spec};

verus! {

/// Persistent MineGraph configuration.
#[derive(Clone, Debug)]
pub struct MineGraphConfig {
    /// Server URL for submissions and leaderboard sync.
    pub server_url: String,
    /// Default search strategy.
    pub strategy: String,
    /// Default Ramsey parameter k.
    pub k: u32,
    /// Default Ramsey parameter ell.
    pub ell: u32,
    /// Default target vertex count.
    pub n: u32,
    /// Default beam width.
    pub beam_width: u32,
    /// Default max depth.
    pub max_depth: u32,
    /// Bit pattern of the `f64` sample bias for leaderboard seeding.
    pub sample_bias_bits: u64,
    /// Path to the signing key (relative to the config dir or absolute).
    pub signing_key: Option<String>,
}

/// Default server URL.
pub fn default_server_url() -> (s: String)
    ensures
        s@ == "http://localhost:3001"@,
{
    String::from_str("http://localhost:3001")
}

/// Default search strategy.
pub fn default_strategy() -> (s: String)
    ensures
        s@ == "tree2"@,
{
    String::from_str("tree2")
}

/// Default Ramsey parameter k.
pub fn default_k() -> (k: u32)
    ensures
        k == 5,
{
    5
}

/// Default Ramsey parameter ell.
pub fn default_ell() -> (ell: u32)
    ensures
        ell == 5,
{
    5
}

/// Default target vertex count.
pub fn default_n() -> (n: u32)
    ensures
        n == 25,
{
    25
}

/// Default beam width.
pub fn default_beam_width() -> (w: u32)
    ensures
        w == 80,
{
    80
}

/// Default max depth.
pub fn default_max_depth() -> (d: u32)
    ensures
        d == 12,
{
    12
}

/// Bit pattern of the `f64` value `0.8`, the default sample bias.
pub fn default_sample_bias_bits() -> (b: u64)
    ensures
        b == 0x3FE9_9999_9999_999A,
{
    0x3FE9_9999_9999_999A
}

impl Default for MineGraphConfig {
    /// The default settings.
    fn default() -> (c: Self)
        ensures
            c.server_url@ == "http://localhost:3001"@,
            c.strategy@ == "tree2"@,
            c.k == 5,
            c.ell == 5,
            c.n == 25,
            c.beam_width == 80,
            c.max_depth == 12,
            c.sample_bias_bits == 0x3FE9_9999_9999_999A,
            c.signing_key is None,
    {
        MineGraphConfig {
            server_url: default_server_url(),
            strategy: default_strategy(),
            k: default_k(),
            ell: default_ell(),
            n: default_n(),
            beam_width: default_beam_width(),
            max_depth: default_max_depth(),
            sample_bias_bits: default_sample_bias_bits(),
            signing_key: None,
        }
    }
}

/// Why a setting could not be changed.
#[derive(Clone, Debug, PartialEq, Eq)]
pub enum ConfigError {
    /// No setting has this name.
    UnknownKey(String),
    /// The named integer setting was given a value that is not a `u32`.
    NotAnInteger(String),
    /// The named setting holds a float, which the caller parses.
    FloatSetting(String),
}

/// The value of a setting.
#[derive(Clone, Debug, PartialEq, Eq)]
pub enum ConfigValue {
    /// A setting shown as this text.
    Text(String),
    /// A float setting, by the bit pattern of its `f64`.
    FloatBits(u64),
}

/// Names of the integer settings.
pub open spec fn is_integer_key(key: Seq<char>) -> bool {
    key == "k"@ || key == "ell"@ || key == "n"@ || key == "beam_width"@ || key == "max_depth"@
}

/// Names of the settings held as text.
pub open spec fn is_text_key(key: Seq<char>) -> bool {
    key == "server_url"@ || key == "strategy"@ || key == "signing_key"@
}

/// `new` is `old` with setting `key` set from the text `value` (whose
/// integer reading, for an integer setting, is `v`).
pub open spec fn config_after_set(
    old: MineGraphConfig,
    new: MineGraphConfig,
    key: Seq<char>,
    value: Seq<char>,
    v: u32,
) -> bool {
    &&& new.server_url@ == if key == "server_url"@ { value } else { old.server_url@ }
    &&& new.strategy@ == if key == "strategy"@ { value } else { old.strategy@ }
    &&& if key == "signing_key"@ {
        new.signing_key is Some && new.signing_key->0@ == value
    } else {
        new.signing_key == old.signing_key
    }
    &&& new.sample_bias_bits == old.sample_bias_bits
    &&& new.k == if key == "k"@ { v } else { old.k }
    &&& new.ell == if key == "ell"@ { v } else { old.ell }
    &&& new.n == if key == "n"@ { v } else { old.n }
    &&& new.beam_width == if key == "beam_width"@ { v } else { old.beam_width }
    &&& new.max_depth == if key == "max_depth"@ { v } else { old.max_depth }
}

/// The setting names are pairwise different.
proof fn lemma_key_names_distinct()
    ensures
        "server_url"@ != "strategy"@,
        "server_url"@ != "signing_key"@,
        "server_url"@ != "sample_bias"@,
        "server_url"@ != "k"@,
        "server_url"@ != "ell"@,
        "server_url"@ != "n"@,
        "server_url"@ != "beam_width"@,
        "server_url"@ != "max_depth"@,
        "strategy"@ != "signing_key"@,
        "strategy"@ != "sample_bias"@,
        "strategy"@ != "k"@,
        "strategy"@ != "ell"@,
        "strategy"@ != "n"@,
        "strategy"@ != "beam_width"@,
        "strategy"@ != "max_depth"@,
        "signing_key"@ != "sample_bias"@,
        "signing_key"@ != "k"@,
        "signing_key"@ != "ell"@,
        "signing_key"@ != "n"@,
        "signing_key"@ != "beam_width"@,
        "signing_key"@ != "max_depth"@,
        "sample_bias"@ != "k"@,
        "sample_bias"@ != "ell"@,
        "sample_bias"@ != "n"@,
        "sample_bias"@ != "beam_width"@,
        "sample_bias"@ != "max_depth"@,
        "k"@ != "ell"@,
        "k"@ != "n"@,
        "k"@ != "beam_width"@,
        "k"@ != "max_depth"@,
        "ell"@ != "n"@,
        "ell"@ != "beam_width"@,
        "ell"@ != "max_depth"@,
        "n"@ != "beam_width"@,
        "n"@ != "max_depth"@,
        "beam_width"@ != "max_depth"@,
{
    reveal_strlit("server_url");
    reveal_strlit("strategy");
    reveal_strlit("signing_key");
    reveal_strlit("sample_bias");
    reveal_strlit("k");
    reveal_strlit("ell");
    reveal_strlit("n");
    reveal_strlit("beam_width");
    reveal_strlit("max_depth");
    assert("server_url"@.len() != "strategy"@.len());
    assert("server_url"@.len() != "signing_key"@.len());
    assert("server_url"@.len() != "sample_bias"@.len());
    assert("server_url"@.len() != "k"@.len());
    assert("server_url"@.len() != "ell"@.len());
    assert("server_url"@.len() != "n"@.len());
    assert("server_url"@[0] != "beam_width"@[0]);
    assert("server_url"@.len() != "max_depth"@.len());
    assert("strategy"@.len() != "signing_key"@.len());
    assert("strategy"@.len() != "sample_bias"@.len());
    assert("strategy"@.len() != "k"@.len());
    assert("strategy"@.len() != "ell"@.len());
    assert("strategy"@.len() != "n"@.len());
    assert("strategy"@.len() != "beam_width"@.len());
    assert("strategy"@.len() != "max_depth"@.len());
    assert("signing_key"@[1] != "sample_bias"@[1]);
    assert("signing_key"@.len() != "k"@.len());
    assert("signing_key"@.len() != "ell"@.len());
    assert("signing_key"@.len() != "n"@.len());
    assert("signing_key"@.len() != "beam_width"@.len());
    assert("signing_key"@.len() != "max_depth"@.len());
    assert("sample_bias"@.len() != "k"@.len());
    assert("sample_bias"@.len() != "ell"@.len());
    assert("sample_bias"@.len() != "n"@.len());
    assert("sample_bias"@.len() != "beam_width"@.len());
    assert("sample_bias"@.len() != "max_depth"@.len());
    assert("k"@.len() != "ell"@.len());
    assert("k"@[0] != "n"@[0]);
    assert("k"@.len() != "beam_width"@.len());
    assert("k"@.len() != "max_depth"@.len());
    assert("ell"@.len() != "n"@.len());
    assert("ell"@.len() != "beam_width"@.len());
    assert("ell"@.len() != "max_depth"@.len());
    assert("n"@.len() != "beam_width"@.len());
    assert("n"@.len() != "max_depth"@.len());
    assert("beam_width"@.len() != "max_depth"@.len());
}

fn key_is(key: &str, name: &str) -> (b: bool)
    ensures
        b == (key@ == name@),
{
    let a = String::from_str(key);
    let b = String::from_str(name);
    a == b
}

/// Sets a setting by name from its text value.
pub fn set_value(cfg: &mut MineGraphConfig, key: &str, value: &str) -> (r: Result<(), ConfigError>)
    ensures
        r is Ok <==> is_text_key(key@) || (is_integer_key(key@) && parse_u32_spec(value@) is Some),
        r is Ok ==> config_after_set(
            *old(cfg),
            *final(cfg),
            key@,
            value@,
            if is_integer_key(key@) { parse_u32_spec(value@)->0 } else { 0 },
        ),
        r is Err ==> *final(cfg) == *old(cfg),
        r matches Err(ConfigError::NotAnInteger(k)) ==> k@ == key@,
        r matches Err(ConfigError::UnknownKey(k)) ==> k@ == key@,
        r matches Err(ConfigError::FloatSetting(k)) ==> k@ == key@,
        is_integer_key(key@) && parse_u32_spec(value@) is None ==> r is Err && r->Err_0 is NotAnInteger,
        key@ == "sample_bias"@ ==> r is Err && r->Err_0 is FloatSetting,
        !(is_text_key(key@) || is_integer_key(key@) || key@ == "sample_bias"@) ==> r is Err
            && r->Err_0 is UnknownKey,
{
    proof {
        lemma_key_names_distinct();
    }
    if key_is(key, "server_url") {
        cfg.server_url = String::from_str(value);
        return Ok(());
    }
    if key_is(key, "strategy") {
        cfg.strategy = String::from_str(value);
        return Ok(());
    }
    if key_is(key, "signing_key") {
        cfg.signing_key = Some(String::from_str(value));
        return Ok(());
    }
    if key_is(key, "sample_bias") {
        return Err(ConfigError::FloatSetting(String::from_str(key)));
    }
    let is_k = key_is(key, "k");
    let is_ell = key_is(key, "ell");
    let is_n = key_is(key, "n");
    let is_bw = key_is(key, "beam_width");
    let is_md = key_is(key, "max_depth");
    if !(is_k || is_ell || is_n || is_bw || is_md) {
        return Err(ConfigError::UnknownKey(String::from_str(key)));
    }
    match parse_u32(value) {
        Some(v) => {
            if is_k {
                cfg.k = v;
            } else if is_ell {
                cfg.ell = v;
            } else if is_n {
                cfg.n = v;
            } else if is_bw {
                cfg.beam_width = v;
            } else {
                cfg.max_depth = v;
            }
            Ok(())
        },
        None => Err(ConfigError::NotAnInteger(String::from_str(key))),
    }
}

/// The text a setting shows: integers in decimal, the signing key only
/// when set; `None` for the float setting and for unknown names.
pub open spec fn setting_text(cfg: MineGraphConfig, key: Seq<char>) -> Option<Seq<char>> {
    if key == "server_url"@ {
        Some(cfg.server_url@)
    } else if key == "strategy"@ {
        Some(cfg.strategy@)
    } else if key == "k"@ {
        Some(decimal(cfg.k as nat))
    } else if key == "ell"@ {
        Some(decimal(cfg.ell as nat))
    } else if key == "n"@ {
        Some(decimal(cfg.n as nat))
    } else if key == "beam_width"@ {
        Some(decimal(cfg.beam_width as nat))
    } else if key == "max_depth"@ {
        Some(decimal(cfg.max_depth as nat))
    } else if key == "signing_key"@ {
        match cfg.signing_key {
            Some(p) => Some(p@),
            None => None,
        }
    } else {
        None
    }
}

/// The value of a setting by name; `None` for an unknown name or an unset
/// signing key.
pub fn get_value(cfg: &MineGraphConfig, key: &str) -> (r: Option<ConfigValue>)
    ensures
        key@ == "sample_bias"@ ==> r == Some(ConfigValue::FloatBits(cfg.sample_bias_bits)),
        key@ != "sample_bias"@ ==> match setting_text(*cfg, key@) {
            Some(t) => r is Some && r->0 is Text && r->0->Text_0@ == t,
            None => r is None,
        },
{
    proof {
        lemma_key_names_distinct();
    }
    if key_is(key, "server_url") {
        Some(ConfigValue::Text(cfg.server_url.clone()))
    } else if key_is(key, "strategy") {
        Some(ConfigValue::Text(cfg.strategy.clone()))
    } else if key_is(key, "k") {
        Some(ConfigValue::Text(decimal_string(cfg.k as u64)))
    } else if key_is(key, "ell") {
        Some(ConfigValue::Text(decimal_string(cfg.ell as u64)))
    } else if key_is(key, "n") {
        Some(ConfigValue::Text(decimal_string(cfg.n as u64)))
    } else if key_is(key, "beam_width") {
        Some(ConfigValue::Text(decimal_string(cfg.beam_width as u64)))
    } else if key_is(key, "max_depth") {
        Some(ConfigValue::Text(decimal_string(cfg.max_depth as u64)))
    } else if key_is(key, "sample_bias") {
        Some(ConfigValue::FloatBits(cfg.sample_bias_bits))
    } else if key_is(key, "signing_key") {
        match &cfg.signing_key {
            Some(p) => Some(ConfigValue::Text(p.clone())),
            None => None,
        }
    } else {
        None
    }
}

/// Writing a setting and reading it back gives the value written (an
/// integer in its decimal form), and leaves every other setting as it was.
pub proof fn lemma_set_then_get(
    old: MineGraphConfig,
    new: MineGraphConfig,
    key: Seq<char>,
    value: Seq<char>,
)
    requires
        is_text_key(key) || (is_integer_key(key) && parse_u32_spec(value) is Some),
        config_after_set(
            old,
            new,
            key,
            value,
            if is_integer_key(key) { parse_u32_spec(value)->0 } else { 0 },
        ),
    ensures
        setting_text(new, key) == Some(
            if is_integer_key(key) {
                decimal(parse_u32_spec(value)->0 as nat)
            } else {
                value
            },
        ),
        forall|other: Seq<char>| other != key ==> #[trigger] setting_text(new, other) == setting_text(old, other),
        new.sample_bias_bits == old.sample_bias_bits,
{
    lemma_key_names_distinct();
}

} // verus!
