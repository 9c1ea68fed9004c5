//! Every reason for which a call is refused, and that nothing changes then.

use prediction_hub::{
    Address, Choice, Effect, Env, HubError, Market, PredictionHub, UserBet, UserMarketKey,
};

const ADMIN: Address = Address::Account { high: 0, low: 1 };
const RECIPIENT: Address = Address::Account { high: 0, low: 2 };
const USER: Address = Address::Account { high: 0, low: 3 };
const STRANGER: Address = Address::Account { high: 0, low: 4 };
const TOKEN: Address = Address::Contract { high: 0, low: 1 };
const HUB: Address = Address::Contract { high: 0, low: 2 };

fn deployed() -> Env {
    Env::new(HUB, 1_000)
}

fn initialize(
    env: &mut Env,
    platform_fee: i128,
    durations: (u64, u64),
    limits: (i128, i128),
) -> Result<(), HubError> {
    PredictionHub::initialize(
        env,
        ADMIN,
        RECIPIENT,
        TOKEN,
        platform_fee,
        durations.0,
        durations.1,
        0,
        limits.0,
        limits.1,
    )
}

fn hub() -> Env {
    let mut env = deployed();
    assert_eq!(initialize(&mut env, 500, (0, 0), (0, 0)), Ok(()));
    env.effects.clear();
    env
}

fn create(env: &mut Env, who: Address, title: &str, n: usize, end_time: u64) -> Result<u32, HubError> {
    let mut choices = Vec::new();
    for i in 0..n {
        choices.push(format!("choice {}", i));
    }
    PredictionHub::create_predictions(
        env,
        who,
        title.to_string(),
        "".to_string(),
        choices,
        "".to_string(),
        end_time,
        0,
        "".to_string(),
    )
}

fn market() -> Env {
    let mut env = hub();
    assert_eq!(create(&mut env, ADMIN, "title", 2, 2_000), Ok(1));
    env.effects.clear();
    env
}

fn stored_market(choices: Vec<i128>, winning_choice: Option<u32>, is_resolved: bool) -> Market {
    let mut list = Vec::new();
    for staked_amount in choices {
        list.push(Choice { label: "".to_string(), staked_amount });
    }
    Market {
        market_id: 1,
        creator: ADMIN,
        title: "title".to_string(),
        description: "".to_string(),
        category: "".to_string(),
        choices: list,
        end_time: 2_000,
        is_open: !is_resolved,
        is_resolved,
        winning_choice,
        total_pool: 0,
        market_type: 0,
        image_url: "".to_string(),
    }
}

fn stored_bet(choice: u32, amount: i128) -> UserBet {
    UserBet { market_id: 1, choice, choice_label: "".to_string(), amount, claimed: false }
}

const KEY: UserMarketKey = UserMarketKey { user: USER, market_id: 1 };

// ------------------------------------------------------------
//  Setting up
// ------------------------------------------------------------

#[test]
fn nothing_works_before_initialisation() {
    let mut env = deployed();
    assert_eq!(create(&mut env, ADMIN, "title", 1, 2_000), Err(HubError::NotInitialized));
    assert_eq!(
        PredictionHub::add_moderator(&mut env, ADMIN, USER),
        Err(HubError::NotInitialized),
    );
    assert_eq!(PredictionHub::get_admin(&env), Err(HubError::NotInitialized));
    assert_eq!(PredictionHub::get_fee_recipient(&env), Err(HubError::NotInitialized));
    assert_eq!(PredictionHub::get_protocol_token(&env), Err(HubError::NotInitialized));
    assert_eq!(PredictionHub::get_platform_fee(&env), 0);
    assert_eq!(PredictionHub::get_betting_restrictions(&env), (0, 0));
    assert!(env.effects.is_empty());
}

#[test]
fn initialisation_checks_its_arguments() {
    let mut env = deployed();
    assert_eq!(initialize(&mut env, -1, (0, 0), (0, 0)), Err(HubError::InvalidFee));
    assert_eq!(initialize(&mut env, 10_000, (0, 0), (0, 0)), Err(HubError::InvalidFee));
    assert_eq!(initialize(&mut env, 0, (0, 0), (-1, 0)), Err(HubError::InvalidMinBet));
    assert_eq!(initialize(&mut env, 0, (0, 0), (2, 1)), Err(HubError::InvalidMaxBet));
    assert_eq!(env.instance.admin, None);
    assert!(env.effects.is_empty());
    assert_eq!(initialize(&mut env, 9_999, (0, 0), (1, 1)), Ok(()));
    assert_eq!(initialize(&mut env, -1, (0, 0), (0, 0)), Err(HubError::AlreadyInitialized));
    assert_eq!(PredictionHub::get_betting_restrictions(&env), (1, 1));
}

// ------------------------------------------------------------
//  Creating
// ------------------------------------------------------------

#[test]
fn market_terms_are_checked() {
    let mut env = hub();
    assert_eq!(create(&mut env, STRANGER, "", 0, 0), Err(HubError::OnlyModeratorOrAdmin));
    assert!(env.effects.is_empty());
    assert_eq!(create(&mut env, ADMIN, "", 0, 0), Err(HubError::TitleRequired));
    assert_eq!(env.effects, vec![Effect::RequireAuth(ADMIN)]);
    assert_eq!(create(&mut env, ADMIN, "t", 0, 0), Err(HubError::InvalidChoiceCount));
    assert_eq!(create(&mut env, ADMIN, "t", 33, 0), Err(HubError::InvalidChoiceCount));
    assert_eq!(create(&mut env, ADMIN, "t", 32, 1_000), Err(HubError::EndTimeNotInFuture));
    assert_eq!(PredictionHub::get_prediction_count(&env), 0);
    assert_eq!(create(&mut env, ADMIN, "t", 32, 1_001), Ok(1));
    assert_eq!(create(&mut env, ADMIN, "t", 1, u64::MAX), Ok(2));
}

#[test]
fn market_duration_is_limited() {
    let mut env = deployed();
    assert_eq!(initialize(&mut env, 0, (100, 200), (0, 0)), Ok(()));
    assert_eq!(create(&mut env, ADMIN, "t", 1, 1_099), Err(HubError::DurationTooShort));
    assert_eq!(create(&mut env, ADMIN, "t", 1, 1_100), Ok(1));
    assert_eq!(create(&mut env, ADMIN, "t", 1, 1_200), Ok(2));
    assert_eq!(create(&mut env, ADMIN, "t", 1, 1_201), Err(HubError::DurationTooLong));
}

#[test]
fn market_ids_run_out() {
    let mut env = hub();
    env.instance.prediction_count = Some(u32::MAX - 1);
    assert_eq!(create(&mut env, ADMIN, "t", 1, 2_000), Ok(u32::MAX));
    assert_eq!(create(&mut env, ADMIN, "t", 1, 2_000), Err(HubError::Overflow));
}

#[test]
fn creation_can_be_paused() {
    let mut env = hub();
    assert_eq!(PredictionHub::pause_market_creation(&mut env, ADMIN, true), Ok(()));
    assert_eq!(create(&mut env, ADMIN, "t", 1, 2_000), Err(HubError::MarketCreationPaused));
    assert_eq!(PredictionHub::emergency_pause(&mut env, ADMIN), Ok(()));
    assert_eq!(create(&mut env, ADMIN, "t", 1, 2_000), Err(HubError::ContractPaused));
    assert_eq!(PredictionHub::emergency_unpause(&mut env, ADMIN), Ok(()));
    assert_eq!(PredictionHub::pause_market_creation(&mut env, ADMIN, false), Ok(()));
    assert_eq!(create(&mut env, ADMIN, "t", 1, 2_000), Ok(1));
}

// ------------------------------------------------------------
//  Betting
// ------------------------------------------------------------

#[test]
fn stakes_are_checked() {
    let mut env = market();
    let mut buy = |id, choice, amount| PredictionHub::buy_shares(&mut env, USER, id, choice, amount);
    assert_eq!(buy(1, 0, 0), Err(HubError::AmountNotPositive));
    assert_eq!(buy(1, 0, -5), Err(HubError::AmountNotPositive));
    assert_eq!(buy(2, 0, 5), Err(HubError::MarketNotFound));
    assert_eq!(buy(0, 0, 5), Err(HubError::MarketNotFound));
    assert_eq!(buy(1, 2, 5), Err(HubError::InvalidChoice));
    assert_eq!(buy(1, 1, 5), Ok(()));
    assert_eq!(PredictionHub::get_total_value_locked(&env), 5);
}

#[test]
fn stakes_have_limits() {
    let mut env = market();
    assert_eq!(PredictionHub::set_betting_limits(&mut env, ADMIN, 10, 20), Ok(()));
    let mut buy = |amount| PredictionHub::buy_shares(&mut env, USER, 1, 0, amount);
    assert_eq!(buy(9), Err(HubError::AmountBelowMinimum));
    assert_eq!(buy(10), Ok(()));
    assert_eq!(buy(20), Ok(()));
    assert_eq!(buy(21), Err(HubError::AmountAboveMaximum));
    // A maximum of zero is no limit.
    assert_eq!(PredictionHub::set_betting_limits(&mut env, ADMIN, 0, 0), Ok(()));
    assert_eq!(PredictionHub::buy_shares(&mut env, USER, 1, 0, 1_000_000), Ok(()));
    assert_eq!(PredictionHub::get_betting_restrictions(&env), (0, 0));
}

#[test]
fn betting_ends_with_the_market() {
    let mut env = market();
    env.timestamp = 1_999;
    assert!(PredictionHub::is_market_open_for_betting(&env, 1));
    assert_eq!(PredictionHub::buy_shares(&mut env, USER, 1, 0, 5), Ok(()));
    env.timestamp = 2_000;
    assert!(!PredictionHub::is_market_open_for_betting(&env, 1));
    assert_eq!(
        PredictionHub::buy_shares(&mut env, USER, 1, 0, 5),
        Err(HubError::MarketEnded),
    );
    env.timestamp = 1_000;
    assert_eq!(PredictionHub::toggle_market_status(&mut env, ADMIN, 1), Ok(()));
    assert_eq!(
        PredictionHub::buy_shares(&mut env, USER, 1, 0, 5),
        Err(HubError::MarketClosed),
    );
    assert_eq!(PredictionHub::resolve_prediction(&mut env, ADMIN, 1, 0), Ok(()));
    assert_eq!(
        PredictionHub::buy_shares(&mut env, USER, 1, 0, 5),
        Err(HubError::MarketClosed),
    );
    // Opened again by hand, a resolved market still takes no stakes.
    assert_eq!(PredictionHub::toggle_market_status(&mut env, ADMIN, 1), Ok(()));
    assert_eq!(
        PredictionHub::buy_shares(&mut env, USER, 1, 0, 5),
        Err(HubError::MarketResolved),
    );
    assert!(!PredictionHub::is_market_open_for_betting(&env, 1));
    assert!(!PredictionHub::is_market_open_for_betting(&env, 2));
}

#[test]
fn betting_can_be_paused() {
    let mut env = market();
    assert_eq!(PredictionHub::pause_betting(&mut env, ADMIN, true), Ok(()));
    assert!(!PredictionHub::is_market_open_for_betting(&env, 1));
    assert_eq!(
        PredictionHub::buy_shares(&mut env, USER, 1, 0, 5),
        Err(HubError::BettingPaused),
    );
    assert_eq!(PredictionHub::pause_betting(&mut env, ADMIN, false), Ok(()));
    assert_eq!(PredictionHub::emergency_pause(&mut env, ADMIN), Ok(()));
    assert!(!PredictionHub::is_market_open_for_betting(&env, 1));
    assert_eq!(
        PredictionHub::buy_shares(&mut env, USER, 1, 0, 5),
        Err(HubError::ContractPaused),
    );
}

#[test]
fn a_stake_that_overflows_is_pulled_but_not_recorded() {
    let mut env = market();
    env.instance.max_bet_amount = None;
    assert_eq!(PredictionHub::buy_shares(&mut env, USER, 1, 0, i128::MAX), Ok(()));
    env.effects.clear();
    assert_eq!(PredictionHub::buy_shares(&mut env, USER, 1, 0, 1), Err(HubError::Overflow));
    assert_eq!(
        env.effects,
        vec![
            Effect::RequireAuth(USER),
            Effect::TransferFrom { token: TOKEN, spender: HUB, from: USER, to: HUB, amount: 1 },
        ],
    );
    assert_eq!(PredictionHub::get_total_value_locked(&env), i128::MAX);
    assert_eq!(PredictionHub::get_bet_count_for_market(&env, USER, 1), 1);
    assert_eq!(PredictionHub::get_market_activity(&env, 1).len(), 1);
    // Only the second choice has room, the pool has not.
    assert_eq!(PredictionHub::buy_shares(&mut env, USER, 1, 1, 1), Err(HubError::Overflow));
}

#[test]
fn a_stake_needs_a_token() {
    let mut env = market();
    env.instance.protocol_token = None;
    assert_eq!(
        PredictionHub::buy_shares(&mut env, USER, 1, 0, 5),
        Err(HubError::NotInitialized),
    );
    assert_eq!(env.effects, vec![Effect::RequireAuth(USER)]);
}

// ------------------------------------------------------------
//  Resolving
// ------------------------------------------------------------

#[test]
fn resolving_is_checked() {
    let mut env = market();
    assert_eq!(
        PredictionHub::resolve_prediction(&mut env, STRANGER, 1, 0),
        Err(HubError::OnlyModeratorOrAdmin),
    );
    assert!(env.effects.is_empty());
    assert_eq!(
        PredictionHub::resolve_prediction(&mut env, ADMIN, 2, 0),
        Err(HubError::MarketNotFound),
    );
    assert_eq!(
        PredictionHub::resolve_prediction(&mut env, ADMIN, 1, 2),
        Err(HubError::InvalidChoice),
    );
    assert_eq!(PredictionHub::pause_resolution(&mut env, ADMIN, true), Ok(()));
    assert_eq!(
        PredictionHub::resolve_prediction(&mut env, ADMIN, 1, 0),
        Err(HubError::ResolutionPaused),
    );
    assert_eq!(PredictionHub::pause_resolution(&mut env, ADMIN, false), Ok(()));
    assert_eq!(PredictionHub::emergency_pause(&mut env, ADMIN), Ok(()));
    assert_eq!(
        PredictionHub::resolve_prediction(&mut env, ADMIN, 1, 0),
        Err(HubError::ContractPaused),
    );
    assert_eq!(PredictionHub::emergency_unpause(&mut env, ADMIN), Ok(()));
    assert_eq!(PredictionHub::resolve_prediction(&mut env, ADMIN, 1, 1), Ok(()));
    assert_eq!(
        PredictionHub::resolve_prediction(&mut env, ADMIN, 1, 0),
        Err(HubError::MarketAlreadyResolved),
    );
    assert_eq!(PredictionHub::get_prediction(&env, 1).unwrap().winning_choice, Some(1));
}

#[test]
fn a_fee_that_overflows_is_refused() {
    let mut env = market();
    env.instance.max_bet_amount = None;
    assert_eq!(PredictionHub::buy_shares(&mut env, USER, 1, 0, i128::MAX), Ok(()));
    assert_eq!(
        PredictionHub::resolve_prediction(&mut env, ADMIN, 1, 0),
        Err(HubError::Overflow),
    );
    // Without a winning stake there is no fee to compute.
    assert_eq!(PredictionHub::resolve_prediction(&mut env, ADMIN, 1, 1), Ok(()));
    assert_eq!(PredictionHub::claim(&mut env, USER, 1), Ok(i128::MAX));
}

#[test]
fn a_fee_needs_a_recipient() {
    let mut env = market();
    assert_eq!(PredictionHub::buy_shares(&mut env, USER, 1, 0, 100), Ok(()));
    env.instance.fee_recipient = None;
    assert_eq!(
        PredictionHub::resolve_prediction(&mut env, ADMIN, 1, 0),
        Err(HubError::NotInitialized),
    );
    assert_eq!(PredictionHub::get_market_status(&env, 1), Ok((true, false)));
}

// ------------------------------------------------------------
//  Claiming
// ------------------------------------------------------------

#[test]
fn claims_are_checked() {
    let mut env = market();
    assert_eq!(PredictionHub::buy_shares(&mut env, USER, 1, 0, 100), Ok(()));
    env.effects.clear();
    assert_eq!(PredictionHub::claim(&mut env, USER, 2), Err(HubError::MarketNotFound));
    assert_eq!(PredictionHub::claim(&mut env, USER, 1), Err(HubError::MarketNotResolved));
    assert!(env.effects.is_empty());
    assert_eq!(PredictionHub::resolve_prediction(&mut env, ADMIN, 1, 0), Ok(()));
    env.effects.clear();
    assert_eq!(PredictionHub::claim(&mut env, STRANGER, 1), Err(HubError::NoBets));
    assert_eq!(env.effects, vec![Effect::RequireAuth(STRANGER)]);
}

#[test]
fn claims_wait_while_the_protocol_is_frozen() {
    let mut env = market();
    assert_eq!(PredictionHub::buy_shares(&mut env, USER, 1, 0, 100), Ok(()));
    assert_eq!(PredictionHub::resolve_prediction(&mut env, ADMIN, 1, 0), Ok(()));
    assert_eq!(PredictionHub::emergency_pause(&mut env, ADMIN), Ok(()));
    env.effects.clear();
    assert_eq!(PredictionHub::claim(&mut env, USER, 1), Err(HubError::ContractPaused));
    assert_eq!(
        PredictionHub::collect_winnings(&mut env, USER, 1),
        Err(HubError::ContractPaused),
    );
    // The freeze comes before every other reason.
    assert_eq!(PredictionHub::claim(&mut env, USER, 2), Err(HubError::ContractPaused));
    assert!(env.effects.is_empty());
    assert!(!PredictionHub::get_user_bets(&env, USER, 1)[0].claimed);
    assert_eq!(PredictionHub::get_user_claimable_amount(&env, USER), Ok(95));

    // The other switches do not stop claims.
    assert_eq!(PredictionHub::pause_betting(&mut env, ADMIN, true), Ok(()));
    assert_eq!(PredictionHub::pause_resolution(&mut env, ADMIN, true), Ok(()));
    assert_eq!(PredictionHub::pause_market_creation(&mut env, ADMIN, true), Ok(()));
    assert_eq!(PredictionHub::emergency_unpause(&mut env, ADMIN), Ok(()));
    assert_eq!(PredictionHub::claim(&mut env, USER, 1), Ok(95));
}

#[test]
fn a_market_without_a_winning_choice_pays_nothing() {
    let mut env = hub();
    env.persistent.predictions.set(1, stored_market(vec![5], None, true));
    env.persistent.user_bets.set(KEY, vec![stored_bet(0, 5)]);
    env.persistent.user_market_ids.set(USER, vec![1]);
    assert_eq!(PredictionHub::claim(&mut env, USER, 1), Err(HubError::NoWinningChoice));
    assert_eq!(PredictionHub::get_user_claimable_amount(&env, USER), Ok(0));
}

#[test]
fn a_winning_choice_out_of_range_is_refused() {
    let mut env = hub();
    env.persistent.predictions.set(1, stored_market(vec![5], Some(1), true));
    env.persistent.user_bets.set(KEY, vec![stored_bet(0, 5)]);
    env.persistent.user_market_ids.set(USER, vec![1]);
    assert_eq!(PredictionHub::claim(&mut env, USER, 1), Err(HubError::ChoiceOutOfRange));
    assert_eq!(
        PredictionHub::get_user_claimable_amount(&env, USER),
        Err(HubError::ChoiceOutOfRange),
    );
}

#[test]
fn an_empty_list_of_bets_is_no_bets() {
    let mut env = hub();
    env.persistent.predictions.set(1, stored_market(vec![5], Some(0), true));
    env.persistent.user_bets.set(KEY, Vec::new());
    assert_eq!(PredictionHub::claim(&mut env, USER, 1), Err(HubError::NoBets));
}

#[test]
fn a_claim_that_overflows_is_refused() {
    let mut env = hub();
    env.persistent.predictions.set(1, stored_market(vec![5], Some(0), true));
    env.persistent.payout_pool.set(1, i128::MAX);
    env.persistent.user_bets.set(KEY, vec![stored_bet(0, 2)]);
    env.persistent.user_market_ids.set(USER, vec![1]);
    assert_eq!(PredictionHub::claim(&mut env, USER, 1), Err(HubError::Overflow));
    assert_eq!(
        PredictionHub::get_user_claimable_amount(&env, USER),
        Err(HubError::Overflow),
    );
    assert!(!PredictionHub::get_user_bets(&env, USER, 1)[0].claimed);
}

#[test]
fn a_payout_needs_a_token() {
    let mut env = market();
    assert_eq!(PredictionHub::buy_shares(&mut env, USER, 1, 0, 100), Ok(()));
    assert_eq!(PredictionHub::buy_shares(&mut env, STRANGER, 1, 1, 100), Ok(()));
    assert_eq!(PredictionHub::resolve_prediction(&mut env, ADMIN, 1, 0), Ok(()));
    env.instance.protocol_token = None;
    assert_eq!(PredictionHub::claim(&mut env, USER, 1), Err(HubError::NotInitialized));
    // Nothing is due, so no token is needed.
    assert_eq!(PredictionHub::claim(&mut env, STRANGER, 1), Ok(0));
}

// ------------------------------------------------------------
//  Queries and administration
// ------------------------------------------------------------

#[test]
fn queries_for_what_is_not_there() {
    let env = market();
    assert_eq!(PredictionHub::get_prediction(&env, 2), Err(HubError::MarketNotFound));
    assert_eq!(PredictionHub::get_market_status(&env, 2), Err(HubError::MarketNotFound));
    assert_eq!(
        PredictionHub::get_choice_and_bet(&env, USER, 1, 0),
        Err(HubError::BetNotFound),
    );
    assert!(PredictionHub::get_user_bets(&env, USER, 1).is_empty());
    assert!(PredictionHub::get_market_activity(&env, 2).is_empty());
    assert_eq!(PredictionHub::get_market_liquidity(&env, 2), 0);
    assert_eq!(PredictionHub::get_payout_pool(&env, 2), 0);
    assert_eq!(PredictionHub::get_user_claimable_amount(&env, USER), Ok(0));
}

#[test]
fn only_the_admin_administers() {
    let mut env = market();
    let refused = Err(HubError::OnlyAdmin);
    assert_eq!(PredictionHub::add_moderator(&mut env, STRANGER, USER), refused);
    assert_eq!(PredictionHub::remove_moderator(&mut env, STRANGER, USER), refused);
    assert_eq!(PredictionHub::set_fee_recipient(&mut env, STRANGER, USER), refused);
    assert_eq!(PredictionHub::set_platform_fee(&mut env, STRANGER, 1), refused);
    assert_eq!(PredictionHub::set_betting_limits(&mut env, STRANGER, 1, 2), refused);
    assert_eq!(PredictionHub::emergency_pause(&mut env, STRANGER), refused);
    assert_eq!(PredictionHub::emergency_unpause(&mut env, STRANGER), refused);
    assert_eq!(PredictionHub::pause_market_creation(&mut env, STRANGER, true), refused);
    assert_eq!(PredictionHub::pause_betting(&mut env, STRANGER, true), refused);
    assert_eq!(PredictionHub::pause_resolution(&mut env, STRANGER, true), refused);
    assert_eq!(PredictionHub::remove_all_predictions(&mut env, STRANGER), refused);
    assert_eq!(PredictionHub::upgrade(&mut env, STRANGER, [0; 32]), refused);
    assert_eq!(
        PredictionHub::toggle_market_status(&mut env, STRANGER, 1),
        Err(HubError::OnlyModeratorOrAdmin),
    );
    assert!(env.effects.is_empty());
    assert_eq!(PredictionHub::get_prediction_count(&env), 1);

    // A moderator runs markets, but does not administer.
    assert_eq!(PredictionHub::add_moderator(&mut env, ADMIN, USER), Ok(()));
    assert_eq!(PredictionHub::toggle_market_status(&mut env, USER, 1), Ok(()));
    assert_eq!(PredictionHub::set_platform_fee(&mut env, USER, 1), refused);
}

#[test]
fn settings_are_checked() {
    let mut env = market();
    assert_eq!(
        PredictionHub::set_platform_fee(&mut env, ADMIN, 10_000),
        Err(HubError::InvalidFee),
    );
    assert_eq!(PredictionHub::set_platform_fee(&mut env, ADMIN, -1), Err(HubError::InvalidFee));
    assert_eq!(
        PredictionHub::set_betting_limits(&mut env, ADMIN, -1, 5),
        Err(HubError::InvalidMinBet),
    );
    assert_eq!(
        PredictionHub::set_betting_limits(&mut env, ADMIN, 6, 5),
        Err(HubError::InvalidMaxBet),
    );
    assert_eq!(PredictionHub::get_platform_fee(&env), 500);
    assert_eq!(PredictionHub::get_betting_restrictions(&env), (0, 0));
    assert_eq!(
        PredictionHub::toggle_market_status(&mut env, ADMIN, 2),
        Err(HubError::MarketNotFound),
    );
}

#[test]
fn the_count_of_moderators_is_bounded() {
    let mut env = hub();
    env.instance.moderator_count = Some(u32::MAX);
    assert_eq!(PredictionHub::add_moderator(&mut env, ADMIN, USER), Err(HubError::Overflow));
    assert!(!PredictionHub::is_moderator(&env, USER));
    env.instance.moderator_count = Some(0);
    env.persistent.moderators.set(USER, true);
    assert_eq!(PredictionHub::remove_moderator(&mut env, ADMIN, USER), Ok(()));
    assert_eq!(PredictionHub::get_moderator_count(&env), 0);
}

#[test]
fn every_reason_has_its_text() {
    assert_eq!(HubError::NotInitialized.message(), "not initialized");
    assert_eq!(HubError::AlreadyInitialized.message(), "already initialized");
    assert_eq!(HubError::OnlyModeratorOrAdmin.message(), "only moderator or admin");
    assert_eq!(HubError::EndTimeNotInFuture.message(), "end time must be in the future");
    assert_eq!(HubError::MarketAlreadyResolved.message(), "market already resolved");
    assert_eq!(HubError::BetNotFound.message(), "bet not found");
}
