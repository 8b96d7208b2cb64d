//! The configuration that plugins ask for.

use crate::id::{valid_id, Id, IdError};
use crate::order::{outcome, view_of};
use crate::protocol::{compact_text, write_compact};
use crate::text::join_two;
use vstd::prelude::*;

verus! {

/// The value that `starbase_utils::json::merge` makes of two values.
pub uninterp spec fn merged_value(
    prev: serde_json::Value,
    next: serde_json::Value,
) -> serde_json::Value;

/// `starbase_utils::json::merge` puts a value over another, which depends on the two alone:
/// objects are merged field by field, and anything else is replaced.
#[verifier::external_body]
fn merge_values(prev: &serde_json::Value, next: &serde_json::Value) -> (merged: serde_json::Value)
    ensures
        merged == merged_value(*prev, *next),
{
    starbase_utils::json::merge(prev, next)
}

/// Why a plugin gets no configuration.
pub enum ConfigFault {
    InvalidId { id: Seq<char> },
    NoToolchain { id: Seq<char> },
    NoExtension { id: Seq<char> },
}

/// Why a plugin gets no configuration.
#[derive(Debug)]
pub enum ConfigError {
    /// The text is no identifier.
    InvalidId { text: String },
    /// There is no such toolchain.
    NoToolchain { id: Id },
    /// There is no such extension.
    NoExtension { id: Id },
}

impl View for ConfigError {
    type V = ConfigFault;

    open spec fn view(&self) -> ConfigFault {
        match self {
            ConfigError::InvalidId { text } => ConfigFault::InvalidId { id: text@ },
            ConfigError::NoToolchain { id } => ConfigFault::NoToolchain { id: id@ },
            ConfigError::NoExtension { id } => ConfigFault::NoExtension { id: id@ },
        }
    }
}

/// What a plugin is told when it gets no configuration.
pub open spec fn config_message(fault: ConfigFault) -> Seq<char> {
    match fault {
        ConfigFault::InvalidId { id } => "Invalid format for "@ + id
            + ", may only contain alpha-numeric characters, dashes (-), slashes (/), underscores (_), and periods (.)."@,
        ConfigFault::NoToolchain { id } =>
            "Unable to load toolchain configuration. Toolchain "@ + id + " does not exist."@,
        ConfigFault::NoExtension { id } =>
            "Unable to load extension configuration. Extension "@ + id + " does not exist."@,
    }
}

impl ConfigError {
    /// What the error reports to a plugin.
    pub fn message(&self) -> (text: String)
        ensures
            text@ == config_message(self@),
    {
        match self {
            ConfigError::InvalidId { text } => (IdError { id: text.clone() }).message(),
            ConfigError::NoToolchain { id } => join_two(
                "Unable to load toolchain configuration. Toolchain ",
                id.as_str(),
                " does not exist.",
            ),
            ConfigError::NoExtension { id } => join_two(
                "Unable to load extension configuration. Extension ",
                id.as_str(),
                " does not exist.",
            ),
        }
    }
}

/// Of which toolchain a plugin asks for the configuration, and for which project.
pub struct ConfigRequestView {
    pub toolchain: Seq<char>,
    pub project: Option<Seq<char>>,
}

/// Of which toolchain a plugin asks for the configuration, and for which project.
#[derive(Debug)]
pub struct ConfigRequest {
    pub toolchain: Id,
    pub project: Option<Id>,
}

impl View for ConfigRequest {
    type V = ConfigRequestView;

    open spec fn view(&self) -> ConfigRequestView {
        ConfigRequestView { toolchain: self.toolchain@, project: view_of(self.project) }
    }
}

/// What a plugin asks for. A project that is missing may come as an empty text.
pub open spec fn config_request(toolchain: Seq<char>, project: Option<Seq<char>>) -> Result<
    ConfigRequestView,
    ConfigFault,
> {
    if !valid_id(toolchain) {
        Err(ConfigFault::InvalidId { id: toolchain })
    } else if project is None || project->0.len() == 0 {
        Ok(ConfigRequestView { toolchain, project: None })
    } else if !valid_id(project->0) {
        Err(ConfigFault::InvalidId { id: project->0 })
    } else {
        Ok(ConfigRequestView { toolchain, project })
    }
}

/// What a plugin asks for.
pub fn parse_config_request(toolchain: &str, project: Option<&str>) -> (request: Result<
    ConfigRequest,
    ConfigError,
>)
    ensures
        outcome(request) == config_request(toolchain@, view_of(project)),
{
    let toolchain = match Id::new(toolchain) {
        Ok(id) => id,
        Err(error) => {
            return Err(ConfigError::InvalidId { text: error.id });
        },
    };
    if let Some(project) = project {
        if !project.is_empty() {
            return match Id::new(project) {
                Ok(id) => Ok(ConfigRequest { toolchain, project: Some(id) }),
                Err(error) => Err(ConfigError::InvalidId { text: error.id }),
            };
        }
    }
    Ok(ConfigRequest { toolchain, project: None })
}

/// A value behind a reference that may be missing.
pub open spec fn referred<A>(value: Option<&A>) -> Option<A> {
    match value {
        Some(value) => Some(*value),
        None => None,
    }
}

/// The text of the configuration of a toolchain: that of the workspace, with that of a
/// project, where one is asked for, put over it.
pub open spec fn toolchain_config_text(
    request: ConfigRequestView,
    root: Option<serde_json::Value>,
    own: serde_json::Value,
) -> Result<Seq<char>, ConfigFault> {
    match root {
        None => Err(ConfigFault::NoToolchain { id: request.toolchain }),
        Some(config) => Ok(
            compact_text(
                if request.project is Some {
                    merged_value(config, own)
                } else {
                    config
                },
            ),
        ),
    }
}

/// The text of the configuration of a toolchain.
pub fn load_toolchain_config_by_id(
    request: &ConfigRequest,
    root: Option<&serde_json::Value>,
    own: &serde_json::Value,
) -> (text: Result<String, ConfigError>)
    ensures
        outcome(text) == toolchain_config_text(request@, referred(root), *own),
{
    match root {
        None => Err(ConfigError::NoToolchain { id: request.toolchain.clone() }),
        Some(config) => match &request.project {
            Some(_) => Ok(write_compact(&merge_values(config, own))),
            None => Ok(write_compact(config)),
        },
    }
}

/// The text of the configuration of an extension.
pub open spec fn extension_config_text(extension: Seq<char>, config: Option<serde_json::Value>) -> Result<
    Seq<char>,
    ConfigFault,
> {
    match config {
        None => Err(ConfigFault::NoExtension { id: extension }),
        Some(config) => Ok(compact_text(config)),
    }
}

/// The text of the configuration of an extension.
pub fn load_extension_config_by_id(extension: &Id, config: Option<&serde_json::Value>) -> (text:
    Result<String, ConfigError>)
    ensures
        outcome(text) == extension_config_text(extension@, referred(config)),
{
    match config {
        None => Err(ConfigError::NoExtension { id: extension.clone() }),
        Some(config) => Ok(write_compact(config)),
    }
}

} // verus!
