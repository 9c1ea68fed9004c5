//! Who can change the contract, and when nobody can.

use vstd::prelude::*;

use crate::access::{moderates, value_or};
use crate::admin::{
    add_moderator_env, add_moderator_result, emergency_env, moderator_count, remove_moderator_env,
};
use crate::env::{Effect, EnvView, Instance};
use crate::error::HubError;
use crate::laws::calls::{actor, after, refusal, Call};
use crate::markets::{create_result, toggle_env};
use crate::settlement::claim_result;
use crate::types::Address;

verus! {

/// The protocol can be set up only once: with an admin on record every further
/// attempt is refused and changes nothing.
pub proof fn law_initialize_once(env: EnvView, call: Call)
    requires
        env.instance.admin is Some,
        call is Initialize,
    ensures
        refusal(env, call) == Some(HubError::AlreadyInitialized),
        after(env, call) == env,
{
}

/// No call replaces or removes the admin or the protocol token once they are on
/// record.
pub proof fn law_admin_and_token_are_fixed(env: EnvView, call: Call)
    requires
        env.instance.admin is Some,
    ensures
        after(env, call).instance.admin == env.instance.admin,
        after(env, call).instance.protocol_token == env.instance.protocol_token,
{
}

/// A refused call leaves the storage as it was. All it has asked of the host
/// are the authorisation and the stake of its actor.
pub proof fn law_refused_call_changes_nothing(env: EnvView, call: Call)
    requires
        refusal(env, call) is Some,
    ensures
        after(env, call).instance == env.instance,
        after(env, call).persistent == env.persistent,
        forall|i: int|
            env.effects.len() <= i < after(env, call).effects.len() ==> (#[trigger] after(
                env,
                call,
            ).effects[i] == Effect::RequireAuth(actor(call)) || (call is BuyShares && after(
                env,
                call,
            ).effects[i] is TransferFrom)),
{
}

/// No call forgets what was asked of the host before, and none touches the
/// clock or the address of the contract.
pub proof fn law_requests_only_grow(env: EnvView, call: Call)
    ensures
        env.effects.is_prefix_of(after(env, call).effects),
        after(env, call).timestamp == env.timestamp,
        after(env, call).contract == env.contract,
{
}

/// A call that is not refused asks the host, before anything else, to require
/// that its actor authorised it.
pub proof fn law_accepted_call_is_authorised(env: EnvView, call: Call)
    requires
        refusal(env, call) is None,
    ensures
        after(env, call).effects.len() > env.effects.len(),
        after(env, call).effects[env.effects.len() as int] == Effect::RequireAuth(actor(call)),
{
    let first = Effect::RequireAuth(actor(call));
    let earlier = env.effects;
    assert forall|requests: Seq<Effect>| requests.len() > 0 && requests[0] == first implies (
    #[trigger] (earlier + requests))[earlier.len() as int] == first by {}
    if call is Initialize || call is CreatePredictions || call is BuyShares {
        assert(after(env, call).effects[earlier.len() as int] == first);
    } else if call is ResolvePrediction || call is Claim || call is ToggleMarketStatus {
        assert(after(env, call).effects[earlier.len() as int] == first);
    } else if call is AddModerator || call is RemoveModerator || call is RemoveAllPredictions {
        assert(after(env, call).effects[earlier.len() as int] == first);
    } else {
        assert(after(env, call).effects[earlier.len() as int] == first);
    }
}

/// Whether a call is open to everyone.
pub open spec fn public_call(call: Call) -> bool {
    call is Initialize || call is BuyShares || call is Claim
}

/// Whether a call is open to the moderators.
pub open spec fn staff_call(call: Call) -> bool {
    call is CreatePredictions || call is ResolvePrediction || call is ToggleMarketStatus
}

/// Only the admin and the moderators can create, resolve and toggle markets.
pub proof fn law_only_staff_runs_markets(env: EnvView, call: Call)
    requires
        staff_call(call),
        refusal(env, call) is None,
    ensures
        env.instance.admin == Some(actor(call)) || moderates(env, actor(call)),
        env.instance.admin is Some,
{
}

/// Everything else that is not open to everyone is for the admin alone.
pub proof fn law_only_admin_administers(env: EnvView, call: Call)
    requires
        !public_call(call),
        !staff_call(call),
        refusal(env, call) is None,
    ensures
        env.instance.admin == Some(actor(call)),
{
}

// ------------------------------------------------------------
//  Moderators
// ------------------------------------------------------------
/// Once added, an address moderates; once removed, it does not; nobody else is
/// affected.
pub proof fn law_moderators_are_as_last_set(
    env: EnvView,
    admin: Address,
    moderator: Address,
    other: Address,
)
    requires
        env.instance.admin == Some(admin),
        other != moderator,
    ensures
        add_moderator_result(env, admin, moderator) is Ok ==> moderates(
            add_moderator_env(env, admin, moderator),
            moderator,
        ),
        !moderates(remove_moderator_env(env, admin, moderator), moderator),
        moderates(add_moderator_env(env, admin, moderator), other) == moderates(env, other),
        moderates(remove_moderator_env(env, admin, moderator), other) == moderates(env, other),
{
}

/// Adding a moderator twice is the same as adding it once, and removing one
/// who was just added takes the count back to where it was.
pub proof fn law_moderator_count_is_restored(env: EnvView, admin: Address, moderator: Address)
    requires
        env.instance.admin == Some(admin),
        !moderates(env, moderator),
        moderator_count(env) < u32::MAX,
    ensures
        ({
            let added = add_moderator_env(env, admin, moderator);
            let again = add_moderator_env(added, admin, moderator);
            let removed = remove_moderator_env(added, admin, moderator);
            &&& moderator_count(added) == moderator_count(env) + 1
            &&& moderator_count(again) == moderator_count(added)
            &&& again.persistent == added.persistent
            &&& moderator_count(removed) == moderator_count(env)
        }),
{
}

/// An address that was just added as a moderator may create markets.
pub proof fn law_new_moderator_may_create(
    env: EnvView,
    admin: Address,
    moderator: Address,
    title: String,
    choices: Seq<String>,
    end_time: u64,
)
    requires
        add_moderator_result(env, admin, moderator) is Ok,
        create_result(env, admin, title, choices, end_time) is Ok,
    ensures
        create_result(
            add_moderator_env(env, admin, moderator),
            moderator,
            title,
            choices,
            end_time,
        ) == create_result(env, admin, title, choices, end_time),
{
}

// ------------------------------------------------------------
//  Safety switches
// ------------------------------------------------------------
/// While the protocol is frozen nobody creates, bets, resolves or claims.
pub proof fn law_frozen_protocol_refuses(env: EnvView, call: Call)
    requires
        value_or(env.instance.is_paused, false),
        call is CreatePredictions || call is BuyShares || call is ResolvePrediction
            || call is Claim,
    ensures
        refusal(env, call) == Some(HubError::ContractPaused),
        after(env, call) == env,
{
}

/// Each of the three other switches stops its own kind of call.
pub proof fn law_switches_refuse(env: EnvView, call: Call)
    requires
        !value_or(env.instance.is_paused, false),
    ensures
        call is CreatePredictions && value_or(env.instance.market_creation_paused, false)
            ==> refusal(env, call) == Some(HubError::MarketCreationPaused),
        call is BuyShares && value_or(env.instance.betting_paused, false) ==> refusal(env, call)
            == Some(HubError::BettingPaused),
        call is ResolvePrediction && value_or(env.instance.resolution_paused, false) ==> refusal(
            env,
            call,
        ) == Some(HubError::ResolutionPaused),
{
}

/// None of the three stops a claim: short of a frozen protocol what is owed is
/// paid.
pub proof fn law_claims_ignore_switches(
    env: EnvView,
    user: Address,
    market_id: u32,
    market_creation_paused: Option<bool>,
    betting_paused: Option<bool>,
    resolution_paused: Option<bool>,
)
    ensures
        claim_result(
            EnvView {
                instance: Instance {
                    market_creation_paused,
                    betting_paused,
                    resolution_paused,
                    ..env.instance
                },
                ..env
            },
            user,
            market_id,
        ) == claim_result(env, user, market_id),
{
}

/// Freezing and resuming leaves everything else as it was, and the protocol
/// is not frozen afterwards.
pub proof fn law_unpause_undoes_pause(env: EnvView, admin: Address)
    requires
        env.instance.admin == Some(admin),
    ensures
        ({
            let resumed = emergency_env(emergency_env(env, admin, true), admin, false);
            &&& value_or(emergency_env(env, admin, true).instance.is_paused, false)
            &&& resumed.instance == Instance { is_paused: Some(false), ..env.instance }
            &&& resumed.persistent == env.persistent
        }),
{
}

/// Toggling a market twice leaves the storage as it was.
pub proof fn law_toggle_twice_restores(env: EnvView, who: Address, market_id: u32)
    ensures
        toggle_env(toggle_env(env, who, market_id), who, market_id).persistent == env.persistent,
        toggle_env(toggle_env(env, who, market_id), who, market_id).instance == env.instance,
{
    let once = toggle_env(env, who, market_id);
    let twice = toggle_env(once, who, market_id);
    assert(twice.persistent.predictions =~= env.persistent.predictions);
}

} // verus!
