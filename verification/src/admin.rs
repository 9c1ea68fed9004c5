//! Administration: moderators, fees, limits, safety switches.

use vstd::prelude::*;

use crate::access::{admin_check, assert_only_admin, entry_or, is_moderator, moderates, value_or};
use crate::env::{instance_write, persistent_write, Effect, Env, EnvView, Instance, PersistentView};
use crate::error::HubError;
use crate::events::{
    EmergencyPaused, Event, FeeRecipientUpdated, ModeratorUpdated, PlatformFeeUpdated,
};
use crate::hub::PredictionHub;
use crate::money::{valid_fee, FEE_DENOMINATOR};
use crate::types::{Activity, Address, DataKey, UserMarketKey};

verus! {

// ------------------------------------------------------------
//  Moderators
// ------------------------------------------------------------
/// The number of moderators on record.
pub open spec fn moderator_count(env: EnvView) -> u32 {
    value_or(env.instance.moderator_count, 0)
}

/// The event that tells of a moderator's standing.
pub open spec fn moderator_event(moderator: Address, enabled: bool) -> Effect {
    Effect::Publish(Event::ModeratorUpdated(ModeratorUpdated { moderator, enabled }))
}

/// What [`PredictionHub::add_moderator`] answers.
pub open spec fn add_moderator_result(env: EnvView, admin: Address, moderator: Address) -> Result<
    (),
    HubError,
> {
    if admin_check(env, admin) is Err {
        admin_check(env, admin)
    } else if !moderates(env, moderator) && moderator_count(env) == u32::MAX {
        Err(HubError::Overflow)
    } else {
        Ok(())
    }
}

/// The world after [`PredictionHub::add_moderator`].
pub open spec fn add_moderator_env(env: EnvView, admin: Address, moderator: Address) -> EnvView {
    let enabled = PersistentView {
        moderators: env.persistent.moderators.insert(moderator, true),
        ..env.persistent
    };
    if admin_check(env, admin) is Err {
        env
    } else if add_moderator_result(env, admin, moderator) is Err {
        env.asking(seq![Effect::RequireAuth(admin)])
    } else if moderates(env, moderator) {
        EnvView { persistent: enabled, ..env }.asking(
            seq![
                Effect::RequireAuth(admin),
                persistent_write(DataKey::Moderator(moderator)),
                moderator_event(moderator, true),
            ],
        )
    } else {
        EnvView {
            instance: Instance {
                moderator_count: Some((moderator_count(env) + 1) as u32),
                ..env.instance
            },
            persistent: enabled,
            ..env
        }.asking(
            seq![
                Effect::RequireAuth(admin),
                instance_write(DataKey::ModeratorCount),
                persistent_write(DataKey::Moderator(moderator)),
                moderator_event(moderator, true),
            ],
        )
    }
}

/// The world after [`PredictionHub::remove_moderator`].
pub open spec fn remove_moderator_env(env: EnvView, admin: Address, moderator: Address) -> EnvView {
    if admin_check(env, admin) is Err {
        env
    } else if moderates(env, moderator) {
        EnvView {
            instance: Instance {
                moderator_count: Some(
                    if moderator_count(env) == 0 {
                        0
                    } else {
                        (moderator_count(env) - 1) as u32
                    },
                ),
                ..env.instance
            },
            persistent: PersistentView {
                moderators: env.persistent.moderators.remove(moderator),
                ..env.persistent
            },
            ..env
        }.asking(
            seq![
                Effect::RequireAuth(admin),
                instance_write(DataKey::ModeratorCount),
                Effect::RemovePersistent { key: DataKey::Moderator(moderator) },
                moderator_event(moderator, false),
            ],
        )
    } else {
        env.asking(seq![Effect::RequireAuth(admin), moderator_event(moderator, false)])
    }
}

// ------------------------------------------------------------
//  Settings
// ------------------------------------------------------------
/// The world after the admin changed the instance entries, and what that took.
pub open spec fn settings_env(
    env: EnvView,
    admin: Address,
    instance: Instance,
    requests: Seq<Effect>,
) -> EnvView {
    if admin_check(env, admin) is Err {
        env
    } else {
        EnvView { instance, ..env }.asking(seq![Effect::RequireAuth(admin)] + requests)
    }
}

/// The world after [`PredictionHub::set_fee_recipient`].
pub open spec fn set_fee_recipient_env(env: EnvView, admin: Address, recipient: Address) -> EnvView {
    settings_env(
        env,
        admin,
        Instance { fee_recipient: Some(recipient), ..env.instance },
        seq![
            instance_write(DataKey::FeeRecipient),
            Effect::Publish(Event::FeeRecipientUpdated(FeeRecipientUpdated { recipient })),
        ],
    )
}

/// What [`PredictionHub::set_platform_fee`] answers.
pub open spec fn set_platform_fee_result(env: EnvView, admin: Address, platform_fee: i128) -> Result<
    (),
    HubError,
> {
    if admin_check(env, admin) is Err {
        admin_check(env, admin)
    } else if !valid_fee(platform_fee) {
        Err(HubError::InvalidFee)
    } else {
        Ok(())
    }
}

/// The world after [`PredictionHub::set_platform_fee`].
pub open spec fn set_platform_fee_env(env: EnvView, admin: Address, platform_fee: i128) -> EnvView {
    if set_platform_fee_result(env, admin, platform_fee) is Err {
        settings_env(env, admin, env.instance, Seq::empty())
    } else {
        settings_env(
            env,
            admin,
            Instance { platform_fee: Some(platform_fee), ..env.instance },
            seq![
                instance_write(DataKey::PlatformFee),
                Effect::Publish(Event::PlatformFeeUpdated(PlatformFeeUpdated { platform_fee })),
            ],
        )
    }
}

/// What [`PredictionHub::set_betting_limits`] answers.
pub open spec fn set_betting_limits_result(
    env: EnvView,
    admin: Address,
    min_bet: i128,
    max_bet: i128,
) -> Result<(), HubError> {
    if admin_check(env, admin) is Err {
        admin_check(env, admin)
    } else if min_bet < 0 {
        Err(HubError::InvalidMinBet)
    } else if max_bet < min_bet {
        Err(HubError::InvalidMaxBet)
    } else {
        Ok(())
    }
}

/// The world after [`PredictionHub::set_betting_limits`].
pub open spec fn set_betting_limits_env(
    env: EnvView,
    admin: Address,
    min_bet: i128,
    max_bet: i128,
) -> EnvView {
    if set_betting_limits_result(env, admin, min_bet, max_bet) is Err {
        settings_env(env, admin, env.instance, Seq::empty())
    } else {
        settings_env(
            env,
            admin,
            Instance {
                min_bet_amount: Some(min_bet),
                max_bet_amount: Some(max_bet),
                ..env.instance
            },
            seq![instance_write(DataKey::MinBetAmount), instance_write(DataKey::MaxBetAmount)],
        )
    }
}

/// The world after [`PredictionHub::emergency_pause`] (`paused`) or
/// [`PredictionHub::emergency_unpause`] (not `paused`).
pub open spec fn emergency_env(env: EnvView, admin: Address, paused: bool) -> EnvView {
    settings_env(
        env,
        admin,
        Instance { is_paused: Some(paused), ..env.instance },
        seq![
            instance_write(DataKey::IsPaused),
            Effect::Publish(Event::EmergencyPaused(EmergencyPaused { paused })),
        ],
    )
}

/// The world after [`PredictionHub::pause_market_creation`].
pub open spec fn pause_market_creation_env(env: EnvView, admin: Address, paused: bool) -> EnvView {
    settings_env(
        env,
        admin,
        Instance { market_creation_paused: Some(paused), ..env.instance },
        seq![instance_write(DataKey::MarketCreationPaused)],
    )
}

/// The world after [`PredictionHub::pause_betting`].
pub open spec fn pause_betting_env(env: EnvView, admin: Address, paused: bool) -> EnvView {
    settings_env(
        env,
        admin,
        Instance { betting_paused: Some(paused), ..env.instance },
        seq![instance_write(DataKey::BettingPaused)],
    )
}

/// The world after [`PredictionHub::pause_resolution`].
pub open spec fn pause_resolution_env(env: EnvView, admin: Address, paused: bool) -> EnvView {
    settings_env(
        env,
        admin,
        Instance { resolution_paused: Some(paused), ..env.instance },
        seq![instance_write(DataKey::ResolutionPaused)],
    )
}

/// The world after [`PredictionHub::upgrade`].
pub open spec fn upgrade_env(env: EnvView, admin: Address, new_wasm_hash: [u8; 32]) -> EnvView {
    settings_env(env, admin, env.instance, seq![Effect::UpdateWasm { new_wasm_hash }])
}

// ------------------------------------------------------------
//  Starting over
// ------------------------------------------------------------
/// The ids that have been given out.
pub open spec fn known_ids(count: u32) -> Set<u32> {
    Set::new(|id: u32| 1 <= id <= count)
}

/// The analytics trail of a market, oldest entry first.
pub open spec fn trail_of(persistent: PersistentView, id: u32) -> Seq<Activity> {
    entry_or(persistent.market_analytics, id, Seq::empty())
}

/// Whether `user` has a stake in a trail.
pub open spec fn names(trail: Seq<Activity>, user: Address) -> bool {
    exists|i: int| 0 <= i < trail.len() && (#[trigger] trail[i]).user == user
}

/// The bets that the trails of the markets `1`, ..., `count` tell of.
pub open spec fn bets_in_trails(persistent: PersistentView, count: u32) -> Set<UserMarketKey> {
    Set::new(
        |key: UserMarketKey|
            1 <= key.market_id <= count && names(trail_of(persistent, key.market_id), key.user),
    )
}

/// The users that the trails of the markets `1`, ..., `count` tell of.
pub open spec fn users_in_trails(persistent: PersistentView, count: u32) -> Set<Address> {
    Set::new(
        |user: Address|
            exists|id: u32| 1 <= id <= count && #[trigger] names(trail_of(persistent, id), user),
    )
}

/// The requests that delete the records of the bettors in a trail: for each
/// stake the user's bets on the market and the user's list of markets.
pub open spec fn bettor_removals(trail: Seq<Activity>, id: u32) -> Seq<Effect>
    decreases trail.len(),
{
    if trail.len() == 0 {
        Seq::empty()
    } else {
        let user = trail.last().user;
        bettor_removals(trail.drop_last(), id) + seq![
            Effect::RemovePersistent { key: DataKey::UserBets(UserMarketKey { user, market_id: id }) },
            Effect::RemovePersistent { key: DataKey::UserMarketIds(user) },
        ]
    }
}

/// The requests that delete everything on record about one market itself.
pub open spec fn market_removal(id: u32) -> Seq<Effect> {
    seq![
        Effect::RemovePersistent { key: DataKey::Prediction(id) },
        Effect::RemovePersistent { key: DataKey::MarketAnalytics(id) },
        Effect::RemovePersistent { key: DataKey::MarketLiquidity(id) },
        Effect::RemovePersistent { key: DataKey::PayoutPool(id) },
    ]
}

/// The requests that delete the markets `1`, `2`, ..., `count`, in that order,
/// each after the records of those who bet on it.
pub open spec fn removal_requests(persistent: PersistentView, count: nat) -> Seq<Effect>
    decreases count,
{
    if count == 0 {
        Seq::empty()
    } else {
        removal_requests(persistent, (count - 1) as nat) + bettor_removals(
            trail_of(persistent, count as u32),
            count as u32,
        ) + market_removal(count as u32)
    }
}

/// The entries without everything on record about the markets `1`, ..., `count`
/// and about those who bet on them.
pub open spec fn markets_removed(persistent: PersistentView, count: u32) -> PersistentView {
    PersistentView {
        predictions: persistent.predictions.remove_keys(known_ids(count)),
        user_bets: persistent.user_bets.remove_keys(bets_in_trails(persistent, count)),
        user_market_ids: persistent.user_market_ids.remove_keys(
            users_in_trails(persistent, count),
        ),
        market_analytics: persistent.market_analytics.remove_keys(known_ids(count)),
        market_liquidity: persistent.market_liquidity.remove_keys(known_ids(count)),
        payout_pool: persistent.payout_pool.remove_keys(known_ids(count)),
        ..persistent
    }
}

/// The entries without the records of the bettors in a trail of market `id`.
pub open spec fn bettors_removed(
    persistent: PersistentView,
    trail: Seq<Activity>,
    id: u32,
) -> PersistentView {
    PersistentView {
        user_bets: persistent.user_bets.remove_keys(
            Set::new(|key: UserMarketKey| key.market_id == id && names(trail, key.user)),
        ),
        user_market_ids: persistent.user_market_ids.remove_keys(
            Set::new(|user: Address| names(trail, user)),
        ),
        ..persistent
    }
}

/// One more market removed is its bettors removed, and it.
proof fn lemma_one_more_removed(persistent: PersistentView, id: u32)
    requires
        1 <= id,
    ensures
        ({
            let earlier = markets_removed(persistent, (id - 1) as u32);
            let trail = trail_of(persistent, id);
            let without = bettors_removed(earlier, trail, id);
            &&& trail_of(earlier, id) == trail
            &&& markets_removed(persistent, id) == PersistentView {
                predictions: without.predictions.remove(id),
                market_analytics: without.market_analytics.remove(id),
                market_liquidity: without.market_liquidity.remove(id),
                payout_pool: without.payout_pool.remove(id),
                ..without
            }
        }),
{
    let before = (id - 1) as u32;
    let earlier = markets_removed(persistent, before);
    let trail = trail_of(persistent, id);
    let without = bettors_removed(earlier, trail, id);
    let now = markets_removed(persistent, id);
    assert(without.predictions.remove(id) =~= now.predictions);
    assert(without.market_analytics.remove(id) =~= now.market_analytics);
    assert(without.market_liquidity.remove(id) =~= now.market_liquidity);
    assert(without.payout_pool.remove(id) =~= now.payout_pool);
    assert(without.user_bets =~= now.user_bets);
    assert forall|user: Address|
        users_in_trails(persistent, id).contains(user) <==> users_in_trails(
            persistent,
            before,
        ).contains(user) || names(trail, user) by {
        if users_in_trails(persistent, before).contains(user) {
            let other = choose|other: u32|
                1 <= other <= before && #[trigger] names(trail_of(persistent, other), user);
            assert(1 <= other <= id && names(trail_of(persistent, other), user));
        }
        if names(trail, user) {
            assert(1 <= id <= id && names(trail_of(persistent, id), user));
        }
        if users_in_trails(persistent, id).contains(user) {
            let other = choose|other: u32|
                1 <= other <= id && #[trigger] names(trail_of(persistent, other), user);
            assert(other != id ==> 1 <= other <= before && names(
                trail_of(persistent, other),
                user,
            ));
        }
    }
    assert(without.user_market_ids =~= now.user_market_ids);
}

/// One more stake names one more user.
proof fn lemma_names_push(trail: Seq<Activity>, n: int, user: Address)
    requires
        0 <= n < trail.len(),
    ensures
        names(trail.take(n + 1), user) <==> names(trail.take(n), user) || trail[n].user == user,
{
    if names(trail.take(n), user) {
        let i = choose|i: int| 0 <= i < n && (#[trigger] trail.take(n)[i]).user == user;
        assert(trail.take(n + 1)[i].user == user);
    }
    if trail[n].user == user {
        assert(trail.take(n + 1)[n].user == user);
    }
    if names(trail.take(n + 1), user) {
        let i = choose|i: int| 0 <= i < n + 1 && (#[trigger] trail.take(n + 1)[i]).user == user;
        assert(i < n ==> trail.take(n)[i].user == user);
    }
}

/// Deletes the records of everyone who has a stake in `trail`.
fn remove_bettors(env: &mut Env, trail: &Vec<Activity>, id: u32)
    ensures
        final(env)@ == (EnvView {
            persistent: bettors_removed(old(env)@.persistent, trail@, id),
            ..old(env)@
        }).asking(bettor_removals(trail@, id)),
{
    let ghost before = env@;
    let mut n: usize = 0;
    proof {
        assert(bettors_removed(before.persistent, trail@.take(0), id) =~= before.persistent);
        assert(before.asking(bettor_removals(trail@.take(0), id)) =~= before);
    }
    while n < trail.len()
        invariant
            n <= trail.len(),
            env@ == (EnvView {
                persistent: bettors_removed(before.persistent, trail@.take(n as int), id),
                ..before
            }).asking(bettor_removals(trail@.take(n as int), id)),
        decreases trail.len() - n,
    {
        let user = trail[n].user;
        let key = UserMarketKey { user, market_id: id };
        env.persistent.user_bets.remove(key);
        env.ask(Effect::RemovePersistent { key: DataKey::UserBets(key) });
        env.persistent.user_market_ids.remove(user);
        env.ask(Effect::RemovePersistent { key: DataKey::UserMarketIds(user) });
        proof {
            let earlier = bettors_removed(before.persistent, trail@.take(n as int), id);
            let now = bettors_removed(before.persistent, trail@.take(n + 1), id);
            assert forall|other: Address|
                names(trail@.take(n + 1), other) <==> names(trail@.take(n as int), other) || user
                    == other by {
                lemma_names_push(trail@, n as int, other);
            }
            assert(earlier.user_bets.remove(key) =~= now.user_bets);
            assert(earlier.user_market_ids.remove(user) =~= now.user_market_ids);
            assert(trail@.take(n + 1).drop_last() =~= trail@.take(n as int));
            assert(trail@.take(n + 1).last() == trail@[n as int]);
        }
        n = n + 1;
    }
    proof {
        assert(trail@.take(n as int) =~= trail@);
    }
}

/// The world after [`PredictionHub::remove_all_predictions`].
pub open spec fn remove_all_env(env: EnvView, admin: Address) -> EnvView {
    let count = value_or(env.instance.prediction_count, 0);
    if admin_check(env, admin) is Err {
        env
    } else {
        EnvView {
            instance: Instance {
                prediction_count: Some(0),
                total_value_locked: Some(0),
                ..env.instance
            },
            persistent: markets_removed(env.persistent, count),
            ..env
        }.asking(
            seq![Effect::RequireAuth(admin)] + removal_requests(env.persistent, count as nat) + seq![
                instance_write(DataKey::PredictionCount),
                instance_write(DataKey::TotalValueLocked),
            ],
        )
    }
}

impl PredictionHub {
    /// Grants moderator privileges to `moderator`. Admin only.
    pub fn add_moderator(env: &mut Env, admin: Address, moderator: Address) -> (result: Result<
        (),
        HubError,
    >)
        ensures
            result == add_moderator_result(old(env)@, admin, moderator),
            final(env)@ == add_moderator_env(old(env)@, admin, moderator),
    {
        assert_only_admin(env, &admin)?;
        env.ask(Effect::RequireAuth(admin));
        if !is_moderator(env, &moderator) {
            let count: u32 = env.instance.moderator_count.unwrap_or(0);
            if count == u32::MAX {
                return Err(HubError::Overflow);
            }
            env.instance.moderator_count = Some(count + 1);
            env.instance_set(DataKey::ModeratorCount);
        }
        env.persistent.moderators.set(moderator, true);
        env.persistent_set(DataKey::Moderator(moderator));
        env.ask(
            Effect::Publish(Event::ModeratorUpdated(ModeratorUpdated { moderator, enabled: true })),
        );
        Ok(())
    }

    /// Revokes moderator privileges from `moderator`. Admin only.
    pub fn remove_moderator(env: &mut Env, admin: Address, moderator: Address) -> (result: Result<
        (),
        HubError,
    >)
        ensures
            result == admin_check(old(env)@, admin),
            final(env)@ == remove_moderator_env(old(env)@, admin, moderator),
    {
        assert_only_admin(env, &admin)?;
        env.ask(Effect::RequireAuth(admin));
        if is_moderator(env, &moderator) {
            let count: u32 = env.instance.moderator_count.unwrap_or(0);
            env.instance.moderator_count = Some(count.saturating_sub(1));
            env.instance_set(DataKey::ModeratorCount);
            env.persistent.moderators.remove(moderator);
            env.ask(Effect::RemovePersistent { key: DataKey::Moderator(moderator) });
        }
        env.ask(
            Effect::Publish(
                Event::ModeratorUpdated(ModeratorUpdated { moderator, enabled: false }),
            ),
        );
        Ok(())
    }

    /// Updates the address that receives protocol fees. Admin only.
    pub fn set_fee_recipient(env: &mut Env, admin: Address, recipient: Address) -> (result: Result<
        (),
        HubError,
    >)
        ensures
            result == admin_check(old(env)@, admin),
            final(env)@ == set_fee_recipient_env(old(env)@, admin, recipient),
    {
        assert_only_admin(env, &admin)?;
        env.ask(Effect::RequireAuth(admin));
        env.instance.fee_recipient = Some(recipient);
        env.instance_set(DataKey::FeeRecipient);
        env.ask(Effect::Publish(Event::FeeRecipientUpdated(FeeRecipientUpdated { recipient })));
        Ok(())
    }

    /// Updates the platform fee in basis points. Admin only.
    pub fn set_platform_fee(env: &mut Env, admin: Address, platform_fee: i128) -> (result: Result<
        (),
        HubError,
    >)
        ensures
            result == set_platform_fee_result(old(env)@, admin, platform_fee),
            final(env)@ == set_platform_fee_env(old(env)@, admin, platform_fee),
    {
        assert_only_admin(env, &admin)?;
        env.ask(Effect::RequireAuth(admin));
        if platform_fee < 0 || platform_fee >= FEE_DENOMINATOR {
            return Err(HubError::InvalidFee);
        }
        env.instance.platform_fee = Some(platform_fee);
        env.instance_set(DataKey::PlatformFee);
        env.ask(Effect::Publish(Event::PlatformFeeUpdated(PlatformFeeUpdated { platform_fee })));
        Ok(())
    }

    /// Updates the minimum and maximum stake accepted per bet. Admin only.
    pub fn set_betting_limits(env: &mut Env, admin: Address, min_bet: i128, max_bet: i128) -> (result:
        Result<(), HubError>)
        ensures
            result == set_betting_limits_result(old(env)@, admin, min_bet, max_bet),
            final(env)@ == set_betting_limits_env(old(env)@, admin, min_bet, max_bet),
    {
        assert_only_admin(env, &admin)?;
        env.ask(Effect::RequireAuth(admin));
        if min_bet < 0 {
            return Err(HubError::InvalidMinBet);
        }
        if max_bet < min_bet {
            return Err(HubError::InvalidMaxBet);
        }
        env.instance.min_bet_amount = Some(min_bet);
        env.instance_set(DataKey::MinBetAmount);
        env.instance.max_bet_amount = Some(max_bet);
        env.instance_set(DataKey::MaxBetAmount);
        Ok(())
    }

    /// Freezes the whole protocol: nobody creates, bets, resolves or claims until
    /// it is resumed. Admin only.
    pub fn emergency_pause(env: &mut Env, admin: Address) -> (result: Result<(), HubError>)
        ensures
            result == admin_check(old(env)@, admin),
            final(env)@ == emergency_env(old(env)@, admin, true),
    {
        assert_only_admin(env, &admin)?;
        env.ask(Effect::RequireAuth(admin));
        env.instance.is_paused = Some(true);
        env.instance_set(DataKey::IsPaused);
        env.ask(Effect::Publish(Event::EmergencyPaused(EmergencyPaused { paused: true })));
        Ok(())
    }

    /// Resumes the protocol. Admin only.
    pub fn emergency_unpause(env: &mut Env, admin: Address) -> (result: Result<(), HubError>)
        ensures
            result == admin_check(old(env)@, admin),
            final(env)@ == emergency_env(old(env)@, admin, false),
    {
        assert_only_admin(env, &admin)?;
        env.ask(Effect::RequireAuth(admin));
        env.instance.is_paused = Some(false);
        env.instance_set(DataKey::IsPaused);
        env.ask(Effect::Publish(Event::EmergencyPaused(EmergencyPaused { paused: false })));
        Ok(())
    }

    /// Pauses / resumes market creation. Admin only.
    pub fn pause_market_creation(env: &mut Env, admin: Address, paused: bool) -> (result: Result<
        (),
        HubError,
    >)
        ensures
            result == admin_check(old(env)@, admin),
            final(env)@ == pause_market_creation_env(old(env)@, admin, paused),
    {
        assert_only_admin(env, &admin)?;
        env.ask(Effect::RequireAuth(admin));
        env.instance.market_creation_paused = Some(paused);
        env.instance_set(DataKey::MarketCreationPaused);
        Ok(())
    }

    /// Pauses / resumes betting. Admin only.
    pub fn pause_betting(env: &mut Env, admin: Address, paused: bool) -> (result: Result<
        (),
        HubError,
    >)
        ensures
            result == admin_check(old(env)@, admin),
            final(env)@ == pause_betting_env(old(env)@, admin, paused),
    {
        assert_only_admin(env, &admin)?;
        env.ask(Effect::RequireAuth(admin));
        env.instance.betting_paused = Some(paused);
        env.instance_set(DataKey::BettingPaused);
        Ok(())
    }

    /// Pauses / resumes market resolution. Admin only.
    pub fn pause_resolution(env: &mut Env, admin: Address, paused: bool) -> (result: Result<
        (),
        HubError,
    >)
        ensures
            result == admin_check(old(env)@, admin),
            final(env)@ == pause_resolution_env(old(env)@, admin, paused),
    {
        assert_only_admin(env, &admin)?;
        env.ask(Effect::RequireAuth(admin));
        env.instance.resolution_paused = Some(paused);
        env.instance_set(DataKey::ResolutionPaused);
        Ok(())
    }

    /// Removes every market and resets the protocol counters. Admin only.
    /// Intended for testnets only: claims become impossible afterwards. The bets
    /// go with the markets, so that none of them counts for a later market.
    pub fn remove_all_predictions(env: &mut Env, admin: Address) -> (result: Result<(), HubError>)
        ensures
            result == admin_check(old(env)@, admin),
            final(env)@ == remove_all_env(old(env)@, admin),
    {
        assert_only_admin(env, &admin)?;
        env.ask(Effect::RequireAuth(admin));
        let count: u32 = env.instance.prediction_count.unwrap_or(0);
        let ghost before = env@;
        let mut removed: u32 = 0;
        proof {
            assert(markets_removed(before.persistent, 0) =~= before.persistent);
        }
        while removed < count
            invariant
                removed <= count,
                env@ == (EnvView {
                    persistent: markets_removed(before.persistent, removed),
                    ..before
                }).asking(removal_requests(before.persistent, removed as nat)),
            decreases count - removed,
        {
            let id: u32 = removed + 1;
            proof {
                lemma_one_more_removed(before.persistent, id);
            }
            let trail: Vec<Activity> = PredictionHub::get_market_activity(env, id);
            remove_bettors(env, &trail, id);
            env.persistent.predictions.remove(id);
            env.ask(Effect::RemovePersistent { key: DataKey::Prediction(id) });
            env.persistent.market_analytics.remove(id);
            env.ask(Effect::RemovePersistent { key: DataKey::MarketAnalytics(id) });
            env.persistent.market_liquidity.remove(id);
            env.ask(Effect::RemovePersistent { key: DataKey::MarketLiquidity(id) });
            env.persistent.payout_pool.remove(id);
            env.ask(Effect::RemovePersistent { key: DataKey::PayoutPool(id) });
            proof {
                assert(removal_requests(before.persistent, id as nat) == removal_requests(
                    before.persistent,
                    removed as nat,
                ) + bettor_removals(trail@, id) + market_removal(id));
            }
            removed = id;
        }
        env.instance.prediction_count = Some(0);
        env.instance_set(DataKey::PredictionCount);
        env.instance.total_value_locked = Some(0);
        env.instance_set(DataKey::TotalValueLocked);
        Ok(())
    }

    /// Upgrades the contract wasm. Admin only.
    pub fn upgrade(env: &mut Env, admin: Address, new_wasm_hash: [u8; 32]) -> (result: Result<
        (),
        HubError,
    >)
        ensures
            result == admin_check(old(env)@, admin),
            final(env)@ == upgrade_env(old(env)@, admin, new_wasm_hash),
    {
        assert_only_admin(env, &admin)?;
        env.ask(Effect::RequireAuth(admin));
        env.ask(Effect::UpdateWasm { new_wasm_hash });
        Ok(())
    }
}

} // verus!
