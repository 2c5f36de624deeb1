//! Runtime configuration, materialised once on start-up from the
//! environment. Required values fail fast with a descriptive error so a
//! misconfigured server never boots half-working. Reading the process
//! environment happens in the server, which hands the values in.

use vstd::prelude::*;

use crate::text::{
    Strip, chars_of, parse_u16, parse_u16_exec, push_text, string_of, trim_range, trim_ws,
};

verus! {

/// All runtime configuration.
#[derive(Debug, Clone)]
pub struct Config {
    pub host: String,
    pub port: u16,
    pub db_path: String,
    pub library_dir: String,
    pub token: String,
    pub hibi_base: String,
    pub hibi_api_key: String,
    pub openrouter_api_key: String,
    pub llm_model: String,
    pub wanikani_api_key: String,
}

/// The configuration variables as found in the environment: each one's
/// value when it is set (to valid Unicode).
#[derive(Debug, Clone)]
pub struct EnvVars {
    pub nuku_host: Option<String>,
    pub nuku_port: Option<String>,
    pub nuku_db_path: Option<String>,
    pub nuku_library_dir: Option<String>,
    pub nuku_token: Option<String>,
    pub hibi_api_base: Option<String>,
    pub hibi_api_key: Option<String>,
    pub openrouter_api_key: Option<String>,
    pub nuku_llm_model: Option<String>,
    pub wanikani_api_key: Option<String>,
}

/// Why the environment gives no configuration.
#[derive(Debug)]
pub enum ConfigError {
    /// A variable is set to text its type does not parse from.
    InvalidValue { key: &'static str, value: String },
    /// A required variable is unset or blank.
    MissingVar(&'static str),
}

/// The value of a variable, or `default` when unset.
pub open spec fn or_default(v: Option<String>, default: Seq<char>) -> Seq<char> {
    match v {
        Some(s) => s@,
        None => default,
    }
}

/// A required variable is set to something other than whitespace.
pub open spec fn present(v: Option<String>) -> bool {
    match v {
        Some(s) => trim_ws(s@).len() > 0,
        None => false,
    }
}

/// The port: `8787` when unset, else the variable parsed as a `u16`.
pub open spec fn port_of(v: Option<String>) -> Option<int> {
    match v {
        Some(s) => parse_u16(s@),
        None => Some(8787),
    }
}

/// The name of the first required variable, in the order they are read,
/// that is unset or blank.
pub open spec fn first_missing(e: EnvVars) -> Option<Seq<char>> {
    if !present(e.nuku_token) {
        Some("NUKU_TOKEN"@)
    } else if !present(e.hibi_api_key) {
        Some("HIBI_API_KEY"@)
    } else if !present(e.openrouter_api_key) {
        Some("OPENROUTER_API_KEY"@)
    } else if !present(e.wanikani_api_key) {
        Some("WANIKANI_API_KEY"@)
    } else {
        None
    }
}

fn text_or(v: &Option<String>, default: &str) -> (r: String)
    ensures
        r@ == or_default(*v, default@),
{
    match v {
        Some(s) => s.clone(),
        None => default.to_owned(),
    }
}

fn is_present(v: &Option<String>) -> (r: bool)
    ensures
        r == present(*v),
{
    match v {
        Some(s) => {
            let cs = chars_of(s.as_str());
            let (a, b) = trim_range(cs.as_slice(), 0, cs.len(), Strip::Whitespace);
            assert(cs@.subrange(0, cs@.len() as int) =~= cs@);
            a < b
        },
        None => false,
    }
}

fn require(v: &Option<String>, key: &'static str) -> (r: Result<String, ConfigError>)
    ensures
        match r {
            Ok(s) => present(*v) && (*v matches Some(x) && s@ == x@),
            Err(ConfigError::MissingVar(k)) => !present(*v) && k == key,
            Err(_) => false,
        },
{
    if is_present(v) {
        match v {
            Some(s) => Ok(s.clone()),
            None => Err(ConfigError::MissingVar(key)),
        }
    } else {
        Err(ConfigError::MissingVar(key))
    }
}

impl Config {
    /// The configuration the environment `vars` gives: defaults for the
    /// optional variables, the port parsed, the required ones checked,
    /// the first problem in reading order reported.
    pub fn from_env(vars: &EnvVars) -> (r: Result<Config, ConfigError>)
        ensures
            r is Ok <==> (port_of(vars.nuku_port) is Some && first_missing(*vars) is None),
            r matches Ok(c) ==> {
                &&& c.host@ == or_default(vars.nuku_host, "0.0.0.0"@)
                &&& port_of(vars.nuku_port) == Some(c.port as int)
                &&& c.db_path@ == or_default(vars.nuku_db_path, "backend/data/dev.db"@)
                &&& c.library_dir@ == or_default(vars.nuku_library_dir, "/srv/hibi-nuku/library"@)
                &&& vars.nuku_token matches Some(t) && c.token@ == t@
                &&& c.hibi_base@ == or_default(vars.hibi_api_base, "https://hibi-api.vercel.app"@)
                &&& vars.hibi_api_key matches Some(t) && c.hibi_api_key@ == t@
                &&& vars.openrouter_api_key matches Some(t) && c.openrouter_api_key@ == t@
                &&& c.llm_model@ == or_default(vars.nuku_llm_model, "openai/gpt-4o"@)
                &&& vars.wanikani_api_key matches Some(t) && c.wanikani_api_key@ == t@
            },
            r matches Err(ConfigError::InvalidValue { key, value }) ==> (port_of(vars.nuku_port) is None
                && key@ == "NUKU_PORT"@ && (vars.nuku_port matches Some(v) && value@ == v@)),
            r matches Err(ConfigError::MissingVar(key)) ==> (port_of(vars.nuku_port) is Some
                && first_missing(*vars) == Some(key@)),
    {
        let host = text_or(&vars.nuku_host, "0.0.0.0");
        let port: u16 = match &vars.nuku_port {
            Some(v) => {
                let cs = chars_of(v.as_str());
                match parse_u16_exec(cs.as_slice(), 0, cs.len()) {
                    Some(p) => {
                        assert(cs@.subrange(0, cs@.len() as int) =~= cs@);
                        p
                    },
                    None => {
                        assert(cs@.subrange(0, cs@.len() as int) =~= cs@);
                        return Err(ConfigError::InvalidValue { key: "NUKU_PORT", value: v.clone() });
                    },
                }
            },
            None => 8787,
        };
        let db_path = text_or(&vars.nuku_db_path, "backend/data/dev.db");
        let library_dir = text_or(&vars.nuku_library_dir, "/srv/hibi-nuku/library");
        let token = match require(&vars.nuku_token, "NUKU_TOKEN") {
            Ok(t) => t,
            Err(e) => {
                return Err(e);
            },
        };
        let hibi_base = text_or(&vars.hibi_api_base, "https://hibi-api.vercel.app");
        let hibi_api_key = match require(&vars.hibi_api_key, "HIBI_API_KEY") {
            Ok(t) => t,
            Err(e) => {
                return Err(e);
            },
        };
        let openrouter_api_key = match require(&vars.openrouter_api_key, "OPENROUTER_API_KEY") {
            Ok(t) => t,
            Err(e) => {
                return Err(e);
            },
        };
        let llm_model = text_or(&vars.nuku_llm_model, "openai/gpt-4o");
        let wanikani_api_key = match require(&vars.wanikani_api_key, "WANIKANI_API_KEY") {
            Ok(t) => t,
            Err(e) => {
                return Err(e);
            },
        };
        Ok(
            Config {
                host,
                port,
                db_path,
                library_dir,
                token,
                hibi_base,
                hibi_api_key,
                openrouter_api_key,
                llm_model,
                wanikani_api_key,
            },
        )
    }
}

impl ConfigError {
    /// The error's message.
    pub fn message(&self) -> (r: String)
        ensures
            r@ == match *self {
                ConfigError::InvalidValue { key, value } => "invalid value for "@ + key@ + ": "@
                    + value@,
                ConfigError::MissingVar(key) => "missing required env var: "@ + key@,
            },
    {
        let mut v: Vec<char> = Vec::new();
        match self {
            ConfigError::InvalidValue { key, value } => {
                push_text(&mut v, "invalid value for ");
                push_text(&mut v, key);
                push_text(&mut v, ": ");
                push_text(&mut v, value.as_str());
            },
            ConfigError::MissingVar(key) => {
                push_text(&mut v, "missing required env var: ");
                push_text(&mut v, key);
            },
        }
        string_of(v.as_slice())
    }
}

} // verus!
