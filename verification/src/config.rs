//! Configuration decisions: choosing the kube context, and reading the
//! current context out of a parsed kube configuration.
//!
//! Locating, reading and parsing the configuration file are the embedding
//! program's work; the decisions about its content are made here.

use vstd::prelude::*;
use vstd::string::StringExecFns;

verus! {

/// Why configuration loading failed.
#[derive(Debug)]
pub enum ConfigError {
    MissingKubeConfig(String),
    InvalidContext(String),
}

impl ConfigError {
    /// The failure, spelled out for display.
    pub fn message(&self) -> (r: String)
        ensures
            match self {
                ConfigError::MissingKubeConfig(p) => r@ == "Kube config file not found: "@ + p@,
                ConfigError::InvalidContext(c) => r@ == "Invalid context: "@ + c@,
            },
    {
        match self {
            ConfigError::MissingKubeConfig(p) => {
                let mut s = String::from_str("Kube config file not found: ");
                s.append(p.as_str());
                s
            },
            ConfigError::InvalidContext(c) => {
                let mut s = String::from_str("Invalid context: ");
                s.append(c.as_str());
                s
            },
        }
    }
}

/// Picks the kube context: an explicitly given context always wins, then the
/// configuration's current context; with neither, configuration fails.
pub fn resolve_context(cli_context: Option<String>, current_context: Option<String>) -> (r: Result<
    String,
    ConfigError,
>)
    ensures
        cli_context matches Some(c) ==> r == Ok::<String, ConfigError>(c),
        cli_context is None ==> (current_context matches Some(c) ==> r == Ok::<String, ConfigError>(
            c,
        )),
        cli_context is None && current_context is None ==> (r matches Err(e) && (
        e matches ConfigError::InvalidContext(m) && m@
            == "Ensure a context is provided or selected in your kube configuration"@)),
{
    match cli_context {
        Some(c) => Ok(c),
        None => match current_context {
            Some(c) => Ok(c),
            None => Err(
                ConfigError::InvalidContext(
                    String::from_str(
                        "Ensure a context is provided or selected in your kube configuration",
                    ),
                ),
            ),
        },
    }
}

/// A parsed kube configuration, reduced to its top-level mapping: each key
/// with its scalar value, or `None` where the value is not a scalar, in
/// document order. Repeated keys resolve to the last occurrence, as a map
/// built by insertion would.
pub struct KubeConfig {
    pub entries: Vec<(String, Option<String>)>,
}

impl KubeConfig {
    pub fn new(entries: Vec<(String, Option<String>)>) -> (r: KubeConfig)
        ensures
            r.entries == entries,
    {
        KubeConfig { entries }
    }

    /// The `current-context` entry's scalar value, when present.
    pub fn get_current_context(&self) -> (r: Option<String>)
        ensures
            match r {
                Some(s) => exists|i: int|
                    0 <= i < self.entries@.len() && (#[trigger] self.entries@[i]).0@
                        == "current-context"@ && (self.entries@[i].1 matches Some(v) && s@ == v@)
                        && (forall|j: int|
                        i < j < self.entries@.len() ==> (#[trigger] self.entries@[j]).0@
                            != "current-context"@),
                None => forall|i: int|
                    0 <= i < self.entries@.len() && (#[trigger] self.entries@[i]).0@
                        == "current-context"@ ==> (self.entries@[i].1 is None || exists|j: int|
                        i < j < self.entries@.len() && (#[trigger] self.entries@[j]).0@
                            == "current-context"@),
            },
    {
        let key = String::from_str("current-context");
        let n = self.entries.len();
        let mut i: usize = n;
        while i > 0
            invariant
                n == self.entries@.len(),
                i <= n,
                key@ == "current-context"@,
                forall|j: int|
                    i <= j < n ==> (#[trigger] self.entries@[j]).0@ != "current-context"@,
            decreases i,
        {
            i = i - 1;
            if self.entries[i].0 == key {
                match &self.entries[i].1 {
                    Some(v) => {
                        return Some(v.clone());
                    },
                    None => {
                        return None;
                    },
                }
            }
        }
        None
    }
}

} // verus!
