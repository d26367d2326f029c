//! The options that a run is configured with.

use crate::generator::GeneratorSettings;
use vstd::prelude::*;

verus! {

/// The options of one run, as the command line gives them.
#[derive(Debug, Clone)]
pub struct Cli {
    /// URL or file path of the description to read.
    pub openapi_path: Option<String>,
    /// Directory that the scripts are written to.
    pub output: String,
    /// Write scripts for the POSIX shell instead of the Windows shell.
    pub bash: bool,
    /// Keep no log and collect no telemetry.
    pub no_logging: bool,
    /// Skip the statistics report on the description.
    pub skip_validation: bool,
    /// Authorization header to send with every request.
    pub authorization_header: Option<String>,
    /// Content type to send with every request.
    pub content_type: String,
    /// Base URL to use in place of the one that the description declares.
    pub base_url: Option<String>,
}

impl Cli {
    /// The settings that the scripts of this run are generated with.
    pub fn generator_settings(&self) -> (settings: GeneratorSettings)
        ensures
            settings.authorization_header == self.authorization_header,
            settings.content_type == self.content_type,
            settings.base_url == self.base_url,
            settings.generate_bash_scripts == self.bash,
    {
        GeneratorSettings {
            authorization_header: self.authorization_header.clone(),
            content_type: self.content_type.clone(),
            base_url: self.base_url.clone(),
            generate_bash_scripts: self.bash,
        }
    }
}

} // verus!
