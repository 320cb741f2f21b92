//! Hot-reload decisions: when a file is read again, and whether what was read
//! is put in place.

use vstd::prelude::*;
use crate::config::Config;
use crate::text::same_text;

verus! {

/// The modification time of a file at its last successful reload.
#[derive(Debug, Clone, Copy)]
pub struct ReloadGate {
    pub last: Option<u128>,
}

/// What becomes of a reload.
#[derive(Debug, Clone, Copy, PartialEq, Eq, Structural)]
pub struct Settled {
    /// The new configuration is put in place.
    pub apply: bool,
    /// The new API keys are put in place.
    pub swap_keys: bool,
}

impl ReloadGate {
    /// A file is read again unless its modification time is that of the last
    /// successful reload, or cannot be told.
    pub open spec fn opens(self, mtime: Option<u128>) -> bool {
        mtime is Some && self.last != mtime
    }

    /// Nothing has been reloaded yet.
    pub fn new() -> (r: ReloadGate)
        ensures
            r.last is None,
    {
        ReloadGate { last: None }
    }

    /// Whether a file is read again.
    pub fn should_reload(&self, mtime: Option<u128>) -> (r: bool)
        ensures
            r == self.opens(mtime),
    {
        match mtime {
            Some(t) => match self.last {
                Some(l) => l != t,
                None => true,
            },
            None => false,
        }
    }

    /// What becomes of a reload of the configuration. `valid` tells whether
    /// the new configuration was accepted; `keys` whether the API keys could
    /// be read, where their path has changed.
    pub open spec fn config_settled(self, mtime: u128, valid: bool, keys: Option<bool>) -> (
        ReloadGate,
        Settled,
    ) {
        if valid && keys != Some(false) {
            (
                ReloadGate { last: Some(mtime) },
                Settled { apply: true, swap_keys: keys == Some(true) },
            )
        } else {
            (self, Settled { apply: false, swap_keys: false })
        }
    }

    /// Settles a reload of the configuration: all of it is put in place or
    /// nothing, and only a success is remembered.
    pub fn handle_config_reload(&mut self, mtime: u128, valid: bool, keys: Option<bool>) -> (r:
        Settled)
        ensures
            (*final(self), r) == old(self).config_settled(mtime, valid, keys),
    {
        let keys_failed = match keys {
            Some(ok) => !ok,
            None => false,
        };
        if !valid || keys_failed {
            return Settled { apply: false, swap_keys: false };
        }
        self.last = Some(mtime);
        Settled { apply: true, swap_keys: keys.is_some() }
    }

    /// Settles a reload of the API keys. Tells whether they are put in place.
    pub fn handle_apikeys_reload(&mut self, mtime: u128, valid: bool) -> (r: bool)
        ensures
            r == valid,
            *final(self) == (if valid {
                ReloadGate { last: Some(mtime) }
            } else {
                *old(self)
            }),
    {
        if valid {
            self.last = Some(mtime);
        }
        valid
    }
}

/// Whether the listen address differs, which takes a restart.
pub fn listen_changed(old_config: &Config, new_config: &Config) -> (r: bool)
    ensures
        r == (old_config.server.listen@ != new_config.server.listen@),
{
    !same_text(old_config.server.listen.as_str(), new_config.server.listen.as_str())
}

/// Whether the path of the API keys differs, so that they are read anew.
pub fn keys_path_changed(old_config: &Config, new_config: &Config) -> (r: bool)
    ensures
        r == (old_config.apikeys_file@ != new_config.apikeys_file@),
{
    !same_text(old_config.apikeys_file.as_str(), new_config.apikeys_file.as_str())
}

/// A rejected reload leaves everything as it was and is tried again on the
/// next event, even if the file has not changed since.
pub proof fn law_rejected_reload_is_retried(
    gate: ReloadGate,
    mtime: u128,
    valid: bool,
    keys: Option<bool>,
)
    requires
        gate.opens(Some(mtime)),
        !valid || keys == Some(false),
    ensures
        gate.config_settled(mtime, valid, keys) == (gate, Settled { apply: false, swap_keys: false }),
        gate.config_settled(mtime, valid, keys).0.opens(Some(mtime)),
{
}

/// A configuration that was accepted is put in place, unless it names another
/// file of API keys that cannot be read; those keys are put in place with it,
/// and only where their path has changed.
pub proof fn law_accepted_reload_is_applied(gate: ReloadGate, mtime: u128, keys: Option<bool>)
    ensures
        keys is None ==> gate.config_settled(mtime, true, keys).1 == (Settled {
            apply: true,
            swap_keys: false,
        }),
        keys == Some(true) ==> gate.config_settled(mtime, true, keys).1 == (Settled {
            apply: true,
            swap_keys: true,
        }),
        gate.opens(Some(mtime)) <==> gate.last != Some(mtime),
        !gate.opens(None),
{
}

/// A successful reload is not repeated for the same version of the file.
pub proof fn law_applied_reload_is_not_repeated(
    gate: ReloadGate,
    mtime: u128,
    valid: bool,
    keys: Option<bool>,
)
    requires
        gate.config_settled(mtime, valid, keys).1.apply,
    ensures
        !gate.config_settled(mtime, valid, keys).0.opens(Some(mtime)),
        valid,
{
}

} // verus!
