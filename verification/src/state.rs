//! The configuration the running shell works with, replaced on `reload`.
use vstd::prelude::*;
use crate::config::shell::ShellConfig;

verus! {

/// The shell's current configuration.
pub struct AppState {
    config: ShellConfig,
}

impl AppState {
    /// The configuration in use.
    pub closed spec fn current(self) -> ShellConfig {
        self.config
    }

    pub fn new(cfg: ShellConfig) -> (s: AppState)
        ensures
            s.current() == cfg,
    {
        AppState { config: cfg }
    }

    /// The configuration in use.
    pub fn config(&self) -> (r: &ShellConfig)
        ensures
            *r == self.current(),
    {
        &self.config
    }

    /// Puts a newly loaded configuration in use: what [`AppState::config`]
    /// gives from then on.
    pub fn reload(&mut self, cfg: ShellConfig)
        ensures
            final(self).current() == cfg,
    {
        self.config = cfg;
    }
}

} // verus!
