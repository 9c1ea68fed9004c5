//! Setting the protocol up.

use vstd::prelude::*;

use crate::env::{instance_write, Effect, Env, EnvView, Instance};
use crate::error::HubError;
use crate::events::{Event, Initialized};
use crate::hub::PredictionHub;
use crate::money::{valid_fee, FEE_DENOMINATOR};
use crate::types::{Address, DataKey};

verus! {

/// What [`PredictionHub::initialize`] answers.
pub open spec fn initialize_result(
    env: EnvView,
    platform_fee: i128,
    min_bet_amount: i128,
    max_bet_amount: i128,
) -> Result<(), HubError> {
    if env.instance.admin is Some {
        Err(HubError::AlreadyInitialized)
    } else if !valid_fee(platform_fee) {
        Err(HubError::InvalidFee)
    } else if min_bet_amount < 0 {
        Err(HubError::InvalidMinBet)
    } else if max_bet_amount < min_bet_amount {
        Err(HubError::InvalidMaxBet)
    } else {
        Ok(())
    }
}

/// What is asked of the host when the protocol is set up, in order.
pub open spec fn initialize_requests(admin: Address, token: Address) -> Seq<Effect> {
    seq![
        Effect::RequireAuth(admin),
        instance_write(DataKey::Admin),
        instance_write(DataKey::FeeRecipient),
        instance_write(DataKey::ProtocolToken),
        instance_write(DataKey::PlatformFee),
        instance_write(DataKey::MinMarketDuration),
        instance_write(DataKey::MaxMarketDuration),
        instance_write(DataKey::ResolutionWindow),
        instance_write(DataKey::MinBetAmount),
        instance_write(DataKey::MaxBetAmount),
        instance_write(DataKey::PredictionCount),
        instance_write(DataKey::TotalValueLocked),
        Effect::Publish(Event::Initialized(Initialized { admin, token })),
    ]
}

/// The world after [`PredictionHub::initialize`].
pub open spec fn initialize_env(
    env: EnvView,
    admin: Address,
    fee_recipient: Address,
    token: Address,
    platform_fee: i128,
    min_market_duration: u64,
    max_market_duration: u64,
    resolution_window: u64,
    min_bet_amount: i128,
    max_bet_amount: i128,
) -> EnvView {
    if initialize_result(env, platform_fee, min_bet_amount, max_bet_amount) is Err {
        env
    } else {
        EnvView {
            instance: Instance {
                admin: Some(admin),
                fee_recipient: Some(fee_recipient),
                protocol_token: Some(token),
                platform_fee: Some(platform_fee),
                min_market_duration: Some(min_market_duration),
                max_market_duration: Some(max_market_duration),
                resolution_window: Some(resolution_window),
                min_bet_amount: Some(min_bet_amount),
                max_bet_amount: Some(max_bet_amount),
                prediction_count: Some(0),
                total_value_locked: Some(0),
                ..env.instance
            },
            ..env
        }.asking(initialize_requests(admin, token))
    }
}

impl PredictionHub {
    /// Initializes the protocol. Must be called exactly once, right after
    /// deployment. The `admin` must authorise the call.
    pub fn initialize(
        env: &mut Env,
        admin: Address,
        fee_recipient: Address,
        token: Address,
        platform_fee: i128,
        min_market_duration: u64,
        max_market_duration: u64,
        resolution_window: u64,
        min_bet_amount: i128,
        max_bet_amount: i128,
    ) -> (result: Result<(), HubError>)
        ensures
            result == initialize_result(old(env)@, platform_fee, min_bet_amount, max_bet_amount),
            final(env)@ == initialize_env(
                old(env)@,
                admin,
                fee_recipient,
                token,
                platform_fee,
                min_market_duration,
                max_market_duration,
                resolution_window,
                min_bet_amount,
                max_bet_amount,
            ),
    {
        if env.instance.admin.is_some() {
            return Err(HubError::AlreadyInitialized);
        }
        if platform_fee < 0 || platform_fee >= FEE_DENOMINATOR {
            return Err(HubError::InvalidFee);
        }
        if min_bet_amount < 0 {
            return Err(HubError::InvalidMinBet);
        }
        if max_bet_amount < min_bet_amount {
            return Err(HubError::InvalidMaxBet);
        }
        env.ask(Effect::RequireAuth(admin));

        env.instance.admin = Some(admin);
        env.instance_set(DataKey::Admin);
        env.instance.fee_recipient = Some(fee_recipient);
        env.instance_set(DataKey::FeeRecipient);
        env.instance.protocol_token = Some(token);
        env.instance_set(DataKey::ProtocolToken);
        env.instance.platform_fee = Some(platform_fee);
        env.instance_set(DataKey::PlatformFee);
        env.instance.min_market_duration = Some(min_market_duration);
        env.instance_set(DataKey::MinMarketDuration);
        env.instance.max_market_duration = Some(max_market_duration);
        env.instance_set(DataKey::MaxMarketDuration);
        env.instance.resolution_window = Some(resolution_window);
        env.instance_set(DataKey::ResolutionWindow);
        env.instance.min_bet_amount = Some(min_bet_amount);
        env.instance_set(DataKey::MinBetAmount);
        env.instance.max_bet_amount = Some(max_bet_amount);
        env.instance_set(DataKey::MaxBetAmount);
        env.instance.prediction_count = Some(0);
        env.instance_set(DataKey::PredictionCount);
        env.instance.total_value_locked = Some(0);
        env.instance_set(DataKey::TotalValueLocked);

        env.ask(Effect::Publish(Event::Initialized(Initialized { admin, token })));
        Ok(())
    }
}

} // verus!
