//! Every call that can change the contract, as one type.

use vstd::prelude::*;

use crate::access::admin_check;
use crate::admin::{
    add_moderator_env, add_moderator_result, emergency_env, pause_betting_env,
    pause_market_creation_env, pause_resolution_env, remove_all_env, remove_moderator_env,
    set_betting_limits_env, set_betting_limits_result, set_fee_recipient_env, set_platform_fee_env,
    set_platform_fee_result, upgrade_env,
};
use crate::betting::{buy_shares_env, buy_shares_result};
use crate::env::EnvView;
use crate::error::HubError;
use crate::markets::{create_env, create_result, toggle_env, toggle_result};
use crate::settlement::{claim_env, claim_result, resolve_env, resolve_result};
use crate::setup::{initialize_env, initialize_result};
use crate::types::Address;

verus! {

/// A call of the contract, with its arguments.
pub enum Call {
    Initialize {
        admin: Address,
        fee_recipient: Address,
        token: Address,
        platform_fee: i128,
        min_market_duration: u64,
        max_market_duration: u64,
        resolution_window: u64,
        min_bet_amount: i128,
        max_bet_amount: i128,
    },
    CreatePredictions {
        creator: Address,
        title: String,
        description: String,
        choices: Seq<String>,
        category: String,
        end_time: u64,
        market_type: u32,
        image_url: String,
    },
    BuyShares { user: Address, market_id: u32, choice: u32, amount: i128 },
    ResolvePrediction { resolver: Address, market_id: u32, winning_choice: u32 },
    Claim { user: Address, market_id: u32 },
    AddModerator { admin: Address, moderator: Address },
    RemoveModerator { admin: Address, moderator: Address },
    SetFeeRecipient { admin: Address, recipient: Address },
    SetPlatformFee { admin: Address, platform_fee: i128 },
    SetBettingLimits { admin: Address, min_bet: i128, max_bet: i128 },
    ToggleMarketStatus { who: Address, market_id: u32 },
    EmergencyPause { admin: Address },
    EmergencyUnpause { admin: Address },
    PauseMarketCreation { admin: Address, paused: bool },
    PauseBetting { admin: Address, paused: bool },
    PauseResolution { admin: Address, paused: bool },
    RemoveAllPredictions { admin: Address },
    Upgrade { admin: Address, new_wasm_hash: [u8; 32] },
}

/// The address in whose name a call is made.
pub open spec fn actor(call: Call) -> Address {
    match call {
        Call::Initialize { admin, .. } => admin,
        Call::CreatePredictions { creator, .. } => creator,
        Call::BuyShares { user, .. } => user,
        Call::ResolvePrediction { resolver, .. } => resolver,
        Call::Claim { user, .. } => user,
        Call::AddModerator { admin, .. } => admin,
        Call::RemoveModerator { admin, .. } => admin,
        Call::SetFeeRecipient { admin, .. } => admin,
        Call::SetPlatformFee { admin, .. } => admin,
        Call::SetBettingLimits { admin, .. } => admin,
        Call::ToggleMarketStatus { who, .. } => who,
        Call::EmergencyPause { admin } => admin,
        Call::EmergencyUnpause { admin } => admin,
        Call::PauseMarketCreation { admin, .. } => admin,
        Call::PauseBetting { admin, .. } => admin,
        Call::PauseResolution { admin, .. } => admin,
        Call::RemoveAllPredictions { admin } => admin,
        Call::Upgrade { admin, .. } => admin,
    }
}

/// Whether a call is refused, and why.
pub open spec fn refusal(env: EnvView, call: Call) -> Option<HubError> {
    match call {
        Call::Initialize { platform_fee, min_bet_amount, max_bet_amount, .. } => initialize_result(
            env,
            platform_fee,
            min_bet_amount,
            max_bet_amount,
        ).err(),
        Call::CreatePredictions { creator, title, choices, end_time, .. } => create_result(
            env,
            creator,
            title,
            choices,
            end_time,
        ).err(),
        Call::BuyShares { user, market_id, choice, amount } => buy_shares_result(
            env,
            market_id,
            choice,
            amount,
        ).err(),
        Call::ResolvePrediction { resolver, market_id, winning_choice } => resolve_result(
            env,
            resolver,
            market_id,
            winning_choice,
        ).err(),
        Call::Claim { user, market_id } => claim_result(env, user, market_id).err(),
        Call::AddModerator { admin, moderator } => add_moderator_result(
            env,
            admin,
            moderator,
        ).err(),
        Call::SetPlatformFee { admin, platform_fee } => set_platform_fee_result(
            env,
            admin,
            platform_fee,
        ).err(),
        Call::SetBettingLimits { admin, min_bet, max_bet } => set_betting_limits_result(
            env,
            admin,
            min_bet,
            max_bet,
        ).err(),
        Call::ToggleMarketStatus { who, market_id } => toggle_result(env, who, market_id).err(),
        _ => admin_check(env, actor(call)).err(),
    }
}

/// The world after a call.
pub open spec fn after(env: EnvView, call: Call) -> EnvView {
    match call {
        Call::Initialize {
            admin,
            fee_recipient,
            token,
            platform_fee,
            min_market_duration,
            max_market_duration,
            resolution_window,
            min_bet_amount,
            max_bet_amount,
        } => initialize_env(
            env,
            admin,
            fee_recipient,
            token,
            platform_fee,
            min_market_duration,
            max_market_duration,
            resolution_window,
            min_bet_amount,
            max_bet_amount,
        ),
        Call::CreatePredictions {
            creator,
            title,
            description,
            choices,
            category,
            end_time,
            market_type,
            image_url,
        } => create_env(
            env,
            creator,
            title,
            description,
            choices,
            category,
            end_time,
            market_type,
            image_url,
        ),
        Call::BuyShares { user, market_id, choice, amount } => buy_shares_env(
            env,
            user,
            market_id,
            choice,
            amount,
        ),
        Call::ResolvePrediction { resolver, market_id, winning_choice } => resolve_env(
            env,
            resolver,
            market_id,
            winning_choice,
        ),
        Call::Claim { user, market_id } => claim_env(env, user, market_id),
        Call::AddModerator { admin, moderator } => add_moderator_env(env, admin, moderator),
        Call::RemoveModerator { admin, moderator } => remove_moderator_env(env, admin, moderator),
        Call::SetFeeRecipient { admin, recipient } => set_fee_recipient_env(env, admin, recipient),
        Call::SetPlatformFee { admin, platform_fee } => set_platform_fee_env(
            env,
            admin,
            platform_fee,
        ),
        Call::SetBettingLimits { admin, min_bet, max_bet } => set_betting_limits_env(
            env,
            admin,
            min_bet,
            max_bet,
        ),
        Call::ToggleMarketStatus { who, market_id } => toggle_env(env, who, market_id),
        Call::EmergencyPause { admin } => emergency_env(env, admin, true),
        Call::EmergencyUnpause { admin } => emergency_env(env, admin, false),
        Call::PauseMarketCreation { admin, paused } => pause_market_creation_env(
            env,
            admin,
            paused,
        ),
        Call::PauseBetting { admin, paused } => pause_betting_env(env, admin, paused),
        Call::PauseResolution { admin, paused } => pause_resolution_env(env, admin, paused),
        Call::RemoveAllPredictions { admin } => remove_all_env(env, admin),
        Call::Upgrade { admin, new_wasm_hash } => upgrade_env(env, admin, new_wasm_hash),
    }
}

/// The same world at another time.
pub open spec fn at(env: EnvView, now: u64) -> EnvView {
    EnvView { timestamp: now, ..env }
}

} // verus!
