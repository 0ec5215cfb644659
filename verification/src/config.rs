//! Application configuration values.
//!
//! The configuration is plain data; reading it from an embedded document
//! is the caller's concern, falling back to these defaults.

use vstd::prelude::*;

verus! {

/// Endpoints and model choice of the surrounding application.
#[derive(Debug, Clone)]
pub struct AppConfig {
    pub litellm_base_url: String,
    pub website_url: String,
    pub default_model: String,
}

impl AppConfig {
    /// The built-in configuration.
    pub fn default() -> (r: AppConfig)
        ensures
            r.litellm_base_url@ == "https://milo-litellm.up.railway.app"@,
            r.website_url@ == "https://milomilo.work"@,
            r.default_model@ == "gpt-4o-mini"@,
    {
        AppConfig {
            litellm_base_url: String::from_str("https://milo-litellm.up.railway.app"),
            website_url: String::from_str("https://milomilo.work"),
            default_model: String::from_str("gpt-4o-mini"),
        }
    }
}

} // verus!
