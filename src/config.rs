//! Per-widget settings, as read from the configuration file.

use vstd::prelude::*;

verus! {

/// Formats and fonts of the clock panel.
#[derive(Debug)]
pub struct ClockConfig {
    pub time_format: String,
    pub date_format: String,
    pub time_font: String,
    pub date_font: String,
}

/// Font and location of the weather panel.
#[derive(Debug)]
pub struct WeatherConfig {
    pub font: String,
    pub location: String,
}

/// Settings of the workspace panel (it has none yet).
#[derive(Debug, Default)]
pub struct WorkspacesConfig {}

/// The whole configuration.
#[derive(Debug)]
pub struct Config {
    pub clock: ClockConfig,
    pub weather: WeatherConfig,
    pub workspaces: WorkspacesConfig,
}

} // verus!
