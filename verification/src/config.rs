//! Runtime configuration.

use vstd::prelude::*;
use vstd::string::*;

use crate::text::number::{decimal, lemma_decimal_read_back, parse_u32, parsed_number};

verus! {

broadcast use {
    vstd::string::group_string_axioms,
    vstd::seq_lib::group_seq_properties,
};

/// The longest reply, unless the environment says otherwise.
pub const DEFAULT_MAX_TOKENS: u32 = 16_000;

/// Where Qdrant is, unless the environment says otherwise.
pub const DEFAULT_QDRANT_URL: &'static str = "http://localhost:6334";

/// The environment variables that the configuration is read from; those that
/// are not set, or that are no text, are absent.
#[derive(Debug)]
pub struct Environment {
    pub anthropic_api_key: Option<String>,
    pub voyage_api_key: Option<String>,
    pub claus_model: Option<String>,
    pub claus_max_tokens: Option<String>,
    pub qdrant_url: Option<String>,
}

/// Runtime configuration loaded from environment variables (via `.env` or the
/// shell).
#[derive(Debug)]
pub struct Config {
    pub anthropic_api_key: String,
    pub voyage_api_key: Option<String>,
    pub model: String,
    pub max_tokens: u32,
    pub qdrant_url: String,
}

/// The text of a variable, or a default.
pub open spec fn variable_or(value: Option<String>, default: Seq<char>) -> Seq<char> {
    match value {
        Some(v) => v@,
        None => default,
    }
}

fn text_or(value: Option<String>, default: &str) -> (text: String)
    ensures
        text@ == variable_or(value, default@),
{
    match value {
        Some(v) => v,
        None => default.to_owned(),
    }
}

/// The number of a variable, or the default where it is absent or no number
/// that fits.
pub open spec fn tokens_or_default(value: Option<String>) -> int {
    match value {
        Some(v) => match parsed_number(v@) {
            Some(n) => if n <= u32::MAX {
                n as int
            } else {
                DEFAULT_MAX_TOKENS as int
            },
            None => DEFAULT_MAX_TOKENS as int,
        },
        None => DEFAULT_MAX_TOKENS as int,
    }
}

impl Config {
    /// The configuration that an environment gives. Only the key of the
    /// Messages API must be there; an empty embeddings key counts as none, and
    /// `default_model` is used unless the environment names a model.
    pub fn from_env(env: Environment, default_model: &str) -> (res: Result<Config, String>)
        ensures
            match res {
                Ok(config) => {
                    &&& env.anthropic_api_key == Some(config.anthropic_api_key)
                    &&& config.voyage_api_key == match env.voyage_api_key {
                        Some(key) => if key@.len() == 0 {
                            None
                        } else {
                            Some(key)
                        },
                        None => None,
                    }
                    &&& config.model@ == variable_or(env.claus_model, default_model@)
                    &&& config.max_tokens == tokens_or_default(env.claus_max_tokens)
                    &&& config.qdrant_url@ == variable_or(env.qdrant_url, DEFAULT_QDRANT_URL@)
                },
                Err(error) => {
                    &&& env.anthropic_api_key is None
                    &&& error@ == "ANTHROPIC_API_KEY is not set"@
                },
            },
    {
        let anthropic_api_key: String = match env.anthropic_api_key {
            Some(key) => key,
            None => {
                return Err("ANTHROPIC_API_KEY is not set".to_owned());
            },
        };
        let voyage_api_key: Option<String> = match env.voyage_api_key {
            Some(key) => if key.as_str().is_empty() {
                None
            } else {
                Some(key)
            },
            None => None,
        };
        let max_tokens: u32 = match env.claus_max_tokens {
            Some(text) => match parse_u32(text.as_str()) {
                Some(n) => n,
                None => DEFAULT_MAX_TOKENS,
            },
            None => DEFAULT_MAX_TOKENS,
        };
        Ok(
            Config {
                anthropic_api_key,
                voyage_api_key,
                model: text_or(env.claus_model, default_model),
                max_tokens,
                qdrant_url: text_or(env.qdrant_url, DEFAULT_QDRANT_URL),
            },
        )
    }

    /// The key for embeddings, or the words for there being none.
    pub fn embedding_key(&self) -> (res: Result<String, String>)
        ensures
            match res {
                Ok(key) => self.voyage_api_key matches Some(k) && key@ == k@,
                Err(error) => {
                    &&& self.voyage_api_key is None
                    &&& error@ == "VOYAGE_API_KEY is not set (required for embeddings)"@
                },
            },
    {
        match &self.voyage_api_key {
            Some(key) => Ok(key.clone()),
            None => Err("VOYAGE_API_KEY is not set (required for embeddings)".to_owned()),
        }
    }
}

/// A limit that the environment gives counts if it is a number that fits, as
/// that number; else it is sixteen thousand.
pub proof fn law_limit_is_read_or_default(value: Option<String>, n: nat)
    ensures
        value matches Some(v) ==> (v@ == decimal(n) && n <= u32::MAX ==> tokens_or_default(value)
            == n),
        value matches Some(v) ==> (v@ == decimal(n) && n > u32::MAX ==> tokens_or_default(value)
            == 16_000),
        value matches Some(v) ==> (parsed_number(v@) is None ==> tokens_or_default(value)
            == 16_000),
        value is None ==> tokens_or_default(value) == 16_000,
{
    lemma_decimal_read_back(n);
}

/// A variable that is set gives its text, whatever the default is.
pub proof fn law_set_variables_count(value: String, default: Seq<char>)
    ensures
        variable_or(Some(value), default) == value@,
        variable_or(None, default) == default,
{
}

/// The configuration is that of the environment: what is set there counts as it
/// is, an empty key for embeddings is none, and the key of the Messages API is
/// the only thing that must be set.
pub proof fn law_environment_is_the_configuration(
    env: Environment,
    default_model: &str,
    res: Result<Config, String>,
)
    requires
        call_ensures(Config::from_env, (env, default_model), res),
    ensures
        res is Ok <==> env.anthropic_api_key is Some,
        res matches Ok(config) ==> {
            &&& env.anthropic_api_key == Some(config.anthropic_api_key)
            &&& env.voyage_api_key is None ==> config.voyage_api_key is None
            &&& env.voyage_api_key matches Some(key) ==> (if key@.len() == 0 {
                config.voyage_api_key is None
            } else {
                config.voyage_api_key == Some(key)
            })
            &&& env.claus_model matches Some(model) ==> config.model@ == model@
            &&& env.claus_model is None ==> config.model@ == default_model@
            &&& env.qdrant_url matches Some(url) ==> config.qdrant_url@ == url@
            &&& env.qdrant_url is None ==> config.qdrant_url@ == "http://localhost:6334"@
            &&& config.max_tokens == tokens_or_default(env.claus_max_tokens)
        },
{
}

} // verus!
