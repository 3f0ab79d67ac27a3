//! Error values of the plugin system and of the AI model layer.
use vstd::prelude::*;
use vstd::string::StringExecFns;

verus! {

/// Errors that can occur during plugin execution.
#[derive(Debug)]
pub enum PluginError {
    /// The plugin failed to execute.
    ExecutionFailed(String),
    /// The parameters provided to the plugin were invalid.
    InvalidParameters(String),
    /// A required file was not found.
    FileNotFound(String),
}

impl PluginError {
    /// An `ExecutionFailed` error carrying `s`.
    pub fn execution_failed(s: &str) -> (e: PluginError)
        ensures
            e matches PluginError::ExecutionFailed(m) && m@ == s@,
    {
        PluginError::ExecutionFailed(s.to_owned())
    }

    /// An `InvalidParameters` error carrying `s`.
    pub fn invalid_parameters(s: &str) -> (e: PluginError)
        ensures
            e matches PluginError::InvalidParameters(m) && m@ == s@,
    {
        PluginError::InvalidParameters(s.to_owned())
    }

    /// A `FileNotFound` error carrying `s`.
    pub fn file_not_found(s: &str) -> (e: PluginError)
        ensures
            e matches PluginError::FileNotFound(m) && m@ == s@,
    {
        PluginError::FileNotFound(s.to_owned())
    }
}

/// Errors that can occur during AI model operations.
#[derive(Debug)]
pub enum AiError {
    /// Failed to load the model file.
    ModelLoadFailed(String),
    /// Failed during inference/processing.
    InferenceFailed(String),
    /// Invalid input provided to the model.
    InvalidInput(String),
    /// The requested model was not found in the registry.
    ModelNotFound(String),
    /// Configuration error.
    ConfigError(String),
    /// Generic/other error.
    Other(String),
}

/// The text that an `AiError` displays: a fixed prefix per kind, then the message.
pub open spec fn ai_error_text(e: AiError) -> Seq<char> {
    match e {
        AiError::ModelLoadFailed(m) => "Model load failed: "@ + m@,
        AiError::InferenceFailed(m) => "Inference failed: "@ + m@,
        AiError::InvalidInput(m) => "Invalid input: "@ + m@,
        AiError::ModelNotFound(m) => "Model not found: "@ + m@,
        AiError::ConfigError(m) => "Configuration error: "@ + m@,
        AiError::Other(m) => "Error: "@ + m@,
    }
}

impl AiError {
    /// A model load failure carrying `msg`.
    pub fn model_load_failed(msg: &str) -> (e: AiError)
        ensures
            e matches AiError::ModelLoadFailed(m) && m@ == msg@,
    {
        AiError::ModelLoadFailed(msg.to_owned())
    }

    /// An inference failure carrying `msg`.
    pub fn inference_failed(msg: &str) -> (e: AiError)
        ensures
            e matches AiError::InferenceFailed(m) && m@ == msg@,
    {
        AiError::InferenceFailed(msg.to_owned())
    }

    /// An invalid-input error carrying `msg`.
    pub fn invalid_input(msg: &str) -> (e: AiError)
        ensures
            e matches AiError::InvalidInput(m) && m@ == msg@,
    {
        AiError::InvalidInput(msg.to_owned())
    }

    /// A model-not-found error carrying the model `name`.
    pub fn model_not_found(name: &str) -> (e: AiError)
        ensures
            e matches AiError::ModelNotFound(m) && m@ == name@,
    {
        AiError::ModelNotFound(name.to_owned())
    }

    /// A configuration error carrying `msg`.
    pub fn config_error(msg: &str) -> (e: AiError)
        ensures
            e matches AiError::ConfigError(m) && m@ == msg@,
    {
        AiError::ConfigError(msg.to_owned())
    }

    /// A generic error carrying `msg`.
    pub fn other(msg: &str) -> (e: AiError)
        ensures
            e matches AiError::Other(m) && m@ == msg@,
    {
        AiError::Other(msg.to_owned())
    }

    /// The human-readable text of the error.
    pub fn message(&self) -> (s: String)
        ensures
            s@ == ai_error_text(*self),
    {
        match self {
            AiError::ModelLoadFailed(m) => String::from_str("Model load failed: ").concat(m.as_str()),
            AiError::InferenceFailed(m) => String::from_str("Inference failed: ").concat(m.as_str()),
            AiError::InvalidInput(m) => String::from_str("Invalid input: ").concat(m.as_str()),
            AiError::ModelNotFound(m) => String::from_str("Model not found: ").concat(m.as_str()),
            AiError::ConfigError(m) => String::from_str("Configuration error: ").concat(m.as_str()),
            AiError::Other(m) => String::from_str("Error: ").concat(m.as_str()),
        }
    }
}

} // verus!
