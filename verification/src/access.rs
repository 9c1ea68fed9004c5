//! Who may do what: the admin, the moderators and the safety switches.

use vstd::prelude::*;

use crate::env::{Env, EnvView};
use crate::error::HubError;
use crate::types::Address;

verus! {

/// An entry, or a default where it was never written.
pub open spec fn value_or<T>(entry: Option<T>, default: T) -> T {
    match entry {
        Some(value) => value,
        None => default,
    }
}

/// The entry under a key, or a default where it was never written.
pub open spec fn entry_or<K, V>(entries: Map<K, V>, key: K, default: V) -> V {
    if entries.contains_key(key) {
        entries[key]
    } else {
        default
    }
}

/// Whether `who` has moderator privileges.
pub open spec fn moderates(env: EnvView, who: Address) -> bool {
    entry_or(env.persistent.moderators, who, false)
}

/// Only the admin passes.
pub open spec fn admin_check(env: EnvView, who: Address) -> Result<(), HubError> {
    match env.instance.admin {
        None => Err(HubError::NotInitialized),
        Some(admin) => if admin == who {
            Ok(())
        } else {
            Err(HubError::OnlyAdmin)
        },
    }
}

/// Only the admin and the moderators pass.
pub open spec fn staff_check(env: EnvView, who: Address) -> Result<(), HubError> {
    match env.instance.admin {
        None => Err(HubError::NotInitialized),
        Some(admin) => if admin == who || moderates(env, who) {
            Ok(())
        } else {
            Err(HubError::OnlyModeratorOrAdmin)
        },
    }
}

/// Nobody passes while the protocol is frozen.
pub open spec fn pause_check(env: EnvView) -> Result<(), HubError> {
    if value_or(env.instance.is_paused, false) {
        Err(HubError::ContractPaused)
    } else {
        Ok(())
    }
}

/// The protocol token, once there is one.
pub open spec fn token_check(env: EnvView) -> Result<Address, HubError> {
    match env.instance.protocol_token {
        None => Err(HubError::NotInitialized),
        Some(token) => Ok(token),
    }
}

/// Refuses everyone but the admin.
pub fn assert_only_admin(env: &Env, who: &Address) -> (result: Result<(), HubError>)
    ensures
        result == admin_check(env@, *who),
{
    match env.instance.admin {
        None => Err(HubError::NotInitialized),
        Some(admin) => if admin == *who {
            Ok(())
        } else {
            Err(HubError::OnlyAdmin)
        },
    }
}

/// Whether `who` has moderator privileges.
pub fn is_moderator(env: &Env, who: &Address) -> (result: bool)
    ensures
        result == moderates(env@, *who),
{
    match env.persistent.moderators.get(*who) {
        Some(enabled) => *enabled,
        None => false,
    }
}

/// Refuses everyone but the admin and the moderators.
pub fn assert_moderator_or_admin(env: &Env, who: &Address) -> (result: Result<(), HubError>)
    ensures
        result == staff_check(env@, *who),
{
    match env.instance.admin {
        None => Err(HubError::NotInitialized),
        Some(admin) => if admin == *who || is_moderator(env, who) {
            Ok(())
        } else {
            Err(HubError::OnlyModeratorOrAdmin)
        },
    }
}

/// Refuses everyone while the protocol is frozen.
pub fn assert_not_paused(env: &Env) -> (result: Result<(), HubError>)
    ensures
        result == pause_check(env@),
{
    if env.instance.is_paused.unwrap_or(false) {
        Err(HubError::ContractPaused)
    } else {
        Ok(())
    }
}

/// The token used for staking.
pub fn protocol_token(env: &Env) -> (result: Result<Address, HubError>)
    ensures
        result == token_check(env@),
{
    match env.instance.protocol_token {
        None => Err(HubError::NotInitialized),
        Some(token) => Ok(token),
    }
}

} // verus!
