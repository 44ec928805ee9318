//! Application configuration.
//!
//! The configuration is persisted as JSON by the driver layer; the decisions
//! about its content — the default controlled root, the application state a
//! configuration implies — are made here.

use vstd::prelude::*;
use vstd::string::*;
use crate::paths::join_spec;

verus! {

/// The persisted application configuration: where the controlled root
/// directory lives, and whether the application has never completed setup.
pub struct AppConfig {
    pub soul_path: String,
    pub first_run: bool,
}

/// The state the UI starts in, given the configuration and whether the seed
/// file exists in the controlled root.
pub open spec fn app_state_spec(first_run: bool, seed_exists: bool) -> Seq<char> {
    if first_run {
        "setup"@
    } else if seed_exists {
        "ready"@
    } else {
        "founding"@
    }
}

impl AppConfig {
    pub fn new(soul_path: String, first_run: bool) -> (r: AppConfig)
        ensures
            r.soul_path@ == soul_path@,
            r.first_run == first_run,
    {
        AppConfig { soul_path, first_run }
    }

    /// The configuration before any was persisted: first run, with the
    /// controlled root defaulting to `Soul` under the home directory, or
    /// under the current directory when no home directory is known.
    pub fn initial(home_dir: Option<&str>) -> (r: AppConfig)
        ensures
            r.first_run,
            r.soul_path@ == (match home_dir {
                Some(h) => join_spec(h@, "Soul"@),
                None => join_spec("."@, "Soul"@),
            }),
    {
        let base = match home_dir {
            Some(h) => h,
            None => ".",
        };
        AppConfig { soul_path: crate::paths::join_path(base, "Soul"), first_run: true }
    }

    pub fn is_first_run(&self) -> (r: bool)
        ensures
            r == self.first_run,
    {
        self.first_run
    }

    /// The application state, as `app_state_spec` describes; whether the
    /// seed file exists is the driver layer's lookup.
    pub fn app_state(&self, seed_exists: bool) -> (r: &'static str)
        ensures
            r@ == app_state_spec(self.first_run, seed_exists),
    {
        if self.first_run {
            "setup"
        } else if seed_exists {
            "ready"
        } else {
            "founding"
        }
    }
}

/// Where the configuration file is persisted, under the platform's
/// configuration directory.
pub fn config_file_path(config_dir: &str) -> (r: String)
    ensures
        r@ == join_spec(config_dir@, "com.projectsoul.soulosnew/config.json"@),
{
    crate::paths::join_path(config_dir, "com.projectsoul.soulosnew/config.json")
}

} // verus!
