//! Application settings and where they come from.

use vstd::prelude::*;

verus! {

/// General window settings.
#[derive(Debug, Clone, Copy, PartialEq, Eq, Structural)]
pub struct AppConfigGeneralOptions {
    pub application_width: i32,
    pub application_height: i32,
}

impl Default for AppConfigGeneralOptions {
    /// A 1024 by 768 window.
    fn default() -> (r: Self)
        ensures
            r.application_width == 1024,
            r.application_height == 768,
    {
        AppConfigGeneralOptions { application_width: 1024, application_height: 768 }
    }
}

/// All application settings, one table per section.
#[allow(non_snake_case)]
#[derive(Debug, Clone, Copy, PartialEq, Eq, Structural)]
pub struct AppConfig {
    pub General: AppConfigGeneralOptions,
}

impl Default for AppConfig {
    fn default() -> (r: Self)
        ensures
            r.General.application_width == 1024,
            r.General.application_height == 768,
    {
        AppConfig { General: AppConfigGeneralOptions::default() }
    }
}

/// Where settings are loaded from and saved to.
pub trait AppConfigProvider {
    fn get_config() -> AppConfig;

    fn save(config: &AppConfig);
}

} // verus!
