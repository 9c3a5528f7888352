//! The whole-number settings of a tree and how they are read from a YAML
//! document.

use vstd::prelude::*;
use yaml_rust::Yaml;

verus! {

/// A parsed YAML node. Nothing of its contents is visible to proofs.
#[verifier::external_type_specification]
#[verifier::external_body]
pub struct ExYaml(yaml_rust::Yaml);

/// Why a set of settings was turned down.
#[derive(Clone, Copy, Debug, PartialEq, Eq)]
pub enum ConfigError {
    /// A field is missing, is not an integer, is negative where a count is
    /// asked for, or does not fit the machine's word.
    ConfigMalformed,
    /// Fewer than two branches per iteration: a fan has no spacing then.
    DegenerateParameters,
}

/// How far to grow the tree and how wide each fan is.
#[derive(Clone, Copy, Debug, PartialEq, Eq)]
pub struct Config {
    pub iterations: usize,
    pub branches_per_iteration: usize,
}

/// What `document[key].as_i64()` yields: the integer stored under the string
/// key `key` if `document` is a hash that has such an entry and the entry is
/// an integer, and `None` otherwise.
pub uninterp spec fn integer_entry(document: Yaml, key: Seq<char>) -> Option<i64>;

/// The settings that two looked-up fields stand for, or the reason they are
/// turned down.
pub open spec fn config_of(iterations: Option<i64>, branches: Option<i64>) -> Result<
    Config,
    ConfigError,
> {
    match (iterations, branches) {
        (Some(i), Some(b)) => {
            if i < 0 || i > usize::MAX || b > usize::MAX {
                Err(ConfigError::ConfigMalformed)
            } else if b < 2 {
                Err(ConfigError::DegenerateParameters)
            } else {
                Ok(Config { iterations: i as usize, branches_per_iteration: b as usize })
            }
        },
        _ => Err(ConfigError::ConfigMalformed),
    }
}

/// Looks `key` up with `Yaml`'s string index and reads the entry with
/// `Yaml::as_i64`. The index yields a bad-value node, never a panic, where the
/// document is no hash or lacks the key, and `as_i64` yields `None` for
/// anything but an integer node. The contract only names that outcome.
#[verifier::external_body]
fn read_integer(document: &Yaml, key: &str) -> (value: Option<i64>)
    ensures
        value == integer_entry(*document, key@),
{
    document[key].as_i64()
}

impl Config {
    /// Whether these settings can drive a tree: at least two branches per fan.
    pub open spec fn valid(self) -> bool {
        self.branches_per_iteration >= 2
    }

    /// Checks two looked-up fields and turns them into settings.
    pub fn from_fields(iterations: Option<i64>, branches: Option<i64>) -> (result: Result<
        Config,
        ConfigError,
    >)
        ensures
            result == config_of(iterations, branches),
            result is Ok ==> result->Ok_0.valid(),
    {
        match (iterations, branches) {
            (Some(i), Some(b)) => {
                let limit: i128 = usize::MAX as i128;
                if i < 0 || i as i128 > limit || b as i128 > limit {
                    Err(ConfigError::ConfigMalformed)
                } else if b < 2 {
                    Err(ConfigError::DegenerateParameters)
                } else {
                    Ok(Config { iterations: i as usize, branches_per_iteration: b as usize })
                }
            },
            _ => Err(ConfigError::ConfigMalformed),
        }
    }

    /// Reads `iterations` and `branches_per_iteration` from a YAML hash.
    pub fn from_yaml(document: &Yaml) -> (result: Result<Config, ConfigError>)
        ensures
            result == config_of(
                integer_entry(*document, "iterations"@),
                integer_entry(*document, "branches_per_iteration"@),
            ),
            result is Ok ==> result->Ok_0.valid(),
    {
        let iterations = read_integer(document, "iterations");
        let branches = read_integer(document, "branches_per_iteration");
        Config::from_fields(iterations, branches)
    }
}

} // verus!
