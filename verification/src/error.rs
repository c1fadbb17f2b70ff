use vstd::prelude::*;

verus! {

/// Why processing an image failed.  Each variant carries the path or the
/// message of the failure that caused it.
#[derive(Debug, PartialEq, Eq)]
pub enum ProcessorError {
    InputFileNotFound(String),
    ParamsFileNotFound(String),
    PluginNotFound(String),
    ImageLoadError(String),
    ImageSaveError(String),
    PluginLoadError(String),
    ParamsReadError(String),
}

/// The text that the error's message starts with.
pub open spec fn message_prefix(e: ProcessorError) -> Seq<char> {
    match e {
        ProcessorError::InputFileNotFound(_) => "Input file not found: "@,
        ProcessorError::ParamsFileNotFound(_) => "Parameters file not found: "@,
        ProcessorError::PluginNotFound(_) => "Plugin not found: "@,
        ProcessorError::ImageLoadError(_) => "Failed to load image: "@,
        ProcessorError::ImageSaveError(_) => "Failed to save image: "@,
        ProcessorError::PluginLoadError(_) => "Plugin loading error: "@,
        ProcessorError::ParamsReadError(_) => "Failed to read parameters file: "@,
    }
}

/// The path or message that the error carries.
pub open spec fn detail(e: ProcessorError) -> Seq<char> {
    match e {
        ProcessorError::InputFileNotFound(d) => d@,
        ProcessorError::ParamsFileNotFound(d) => d@,
        ProcessorError::PluginNotFound(d) => d@,
        ProcessorError::ImageLoadError(d) => d@,
        ProcessorError::ImageSaveError(d) => d@,
        ProcessorError::PluginLoadError(d) => d@,
        ProcessorError::ParamsReadError(d) => d@,
    }
}

impl ProcessorError {
    /// The human-readable message of the error: a fixed text for its kind,
    /// followed by the path or message it carries.
    pub fn message(&self) -> (res: String)
        ensures
            res@ == message_prefix(*self) + detail(*self),
    {
        let (prefix, d) = match self {
            ProcessorError::InputFileNotFound(d) => ("Input file not found: ", d),
            ProcessorError::ParamsFileNotFound(d) => ("Parameters file not found: ", d),
            ProcessorError::PluginNotFound(d) => ("Plugin not found: ", d),
            ProcessorError::ImageLoadError(d) => ("Failed to load image: ", d),
            ProcessorError::ImageSaveError(d) => ("Failed to save image: ", d),
            ProcessorError::PluginLoadError(d) => ("Plugin loading error: ", d),
            ProcessorError::ParamsReadError(d) => ("Failed to read parameters file: ", d),
        };
        let mut res = String::from_str(prefix);
        res.append(d.as_str());
        res
    }
}

} // verus!
