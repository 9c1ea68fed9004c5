//! The laws of the protocol, each on concrete values.

use prediction_hub::money::{checked_sum, compute_fee, compute_share, saturating_difference};
use prediction_hub::settlement::{compute_worth, Verdict};
use prediction_hub::{Address, Effect, Env, HubError, PredictionHub, Table, UserBet};

const ADMIN: Address = Address::Account { high: 1, low: 1 };
const RECIPIENT: Address = Address::Account { high: 1, low: 2 };
const ANN: Address = Address::Account { high: 1, low: 3 };
const BOB: Address = Address::Account { high: 1, low: 4 };
const TOKEN: Address = Address::Contract { high: 1, low: 1 };
const HUB: Address = Address::Contract { high: 1, low: 2 };

fn hub() -> Env {
    let mut env = Env::new(HUB, 1_000);
    assert_eq!(
        PredictionHub::initialize(&mut env, ADMIN, RECIPIENT, TOKEN, 100, 0, 0, 0, 0, 0),
        Ok(()),
    );
    env
}

fn create(env: &mut Env) -> u32 {
    PredictionHub::create_predictions(
        env,
        ADMIN,
        "title".to_string(),
        "about".to_string(),
        vec!["a".to_string(), "b".to_string(), "c".to_string()],
        "any".to_string(),
        2_000,
        0,
        "".to_string(),
    )
    .unwrap()
}

fn buy(env: &mut Env, user: Address, market_id: u32, choice: u32, amount: i128) {
    assert_eq!(PredictionHub::buy_shares(env, user, market_id, choice, amount), Ok(()));
}

/// What the requests so far have brought to the contract.
fn received(env: &Env) -> i128 {
    let mut total = 0;
    for effect in env.effects.iter() {
        match effect {
            Effect::TransferFrom { to, amount, .. } if *to == HUB => total += amount,
            Effect::Transfer { from, amount, .. } if *from == HUB => total -= amount,
            _ => {}
        }
    }
    total
}

// ------------------------------------------------------------
//  Shares and fees
// ------------------------------------------------------------

#[test]
fn shares_are_proportional_and_rounded_down() {
    assert_eq!(compute_share(100, 950, 300), Ok(316));
    assert_eq!(compute_share(200, 950, 300), Ok(633));
    assert_eq!(compute_share(300, 950, 300), Ok(950));
    assert_eq!(compute_share(0, 950, 300), Ok(0));
    assert_eq!(compute_share(1, 2, 3), Ok(0));
    // Division rounds toward zero.
    assert_eq!(compute_share(-1, 5, 2), Ok(-2));
    assert_eq!(compute_share(1, 5, -2), Ok(-2));
    assert_eq!(compute_share(i128::MAX, 2, 1), Err(HubError::Overflow));
    assert_eq!(compute_share(i128::MIN, 1, -1), Err(HubError::Overflow));
}

#[test]
fn fees_are_basis_points_of_the_pool() {
    assert_eq!(compute_fee(600, 600, 500), Ok(30));
    assert_eq!(compute_fee(1_000, 1, 1), Ok(0));
    assert_eq!(compute_fee(10_000, 1, 1), Ok(1));
    assert_eq!(compute_fee(19_999, 1, 9_999), Ok(19_997));
    assert_eq!(compute_fee(600, 0, 500), Ok(0));
    assert_eq!(compute_fee(0, 5, 500), Ok(0));
    assert_eq!(compute_fee(600, 600, 0), Ok(0));
    // Never more than the pool.
    assert_eq!(compute_fee(600, 600, 20_000), Ok(600));
    assert_eq!(compute_fee(i128::MAX, 1, 2), Err(HubError::Overflow));
}

#[test]
fn amounts_add_up_within_bounds() {
    assert_eq!(checked_sum(2, 3), Ok(5));
    assert_eq!(checked_sum(i128::MAX, 1), Err(HubError::Overflow));
    assert_eq!(checked_sum(i128::MIN, -1), Err(HubError::Overflow));
    assert_eq!(saturating_difference(5, 7), -2);
    assert_eq!(saturating_difference(i128::MIN, 1), i128::MIN);
    assert_eq!(saturating_difference(i128::MAX, -1), i128::MAX);
}

#[test]
fn a_bet_is_worth_what_the_verdict_says() {
    let bet = UserBet {
        market_id: 1,
        choice: 0,
        choice_label: "a".to_string(),
        amount: 10,
        claimed: false,
    };
    let won = Verdict { winning_choice: 0, winners_total: 20, payout_pool: 90 };
    let lost = Verdict { winning_choice: 1, winners_total: 20, payout_pool: 90 };
    let void = Verdict { winning_choice: 1, winners_total: 0, payout_pool: 90 };
    assert_eq!(compute_worth(&bet, &won), Ok(45));
    assert_eq!(compute_worth(&bet, &lost), Ok(0));
    assert_eq!(compute_worth(&bet, &void), Ok(10));
    let huge = Verdict { winning_choice: 0, winners_total: 20, payout_pool: i128::MAX };
    assert_eq!(compute_worth(&bet, &huge), Err(HubError::Overflow));
}

#[test]
fn splitting_a_stake_wins_no_more() {
    // 7 out of 10 winning, 99 to share: one stake of 7 against 3 and 4.
    let whole = compute_share(7, 99, 10).unwrap();
    let parts = compute_share(3, 99, 10).unwrap() + compute_share(4, 99, 10).unwrap();
    assert_eq!(whole, 69);
    assert_eq!(parts, 68);
}

// ------------------------------------------------------------
//  Books
// ------------------------------------------------------------

#[test]
fn pools_are_the_sums_of_the_stakes() {
    let mut env = hub();
    let first = create(&mut env);
    let second = create(&mut env);
    buy(&mut env, ANN, first, 0, 10);
    buy(&mut env, BOB, first, 2, 20);
    buy(&mut env, ANN, first, 0, 30);
    buy(&mut env, BOB, second, 1, 40);
    let market = PredictionHub::get_prediction(&env, first).unwrap();
    let staked: Vec<i128> = market.choices.iter().map(|choice| choice.staked_amount).collect();
    assert_eq!(staked, vec![40, 0, 20]);
    assert_eq!(market.total_pool, 60);
    assert_eq!(PredictionHub::get_market_liquidity(&env, first), 60);
    assert_eq!(PredictionHub::get_total_value_locked(&env), 100);
    assert_eq!(received(&env), 100);

    assert_eq!(PredictionHub::resolve_prediction(&mut env, ADMIN, first, 2), Ok(()));
    assert_eq!(PredictionHub::get_market_liquidity(&env, first), 0);
    assert_eq!(PredictionHub::get_total_value_locked(&env), 40);
    assert_eq!(PredictionHub::get_payout_pool(&env, first), 60);
}

#[test]
fn a_stake_leaves_others_alone() {
    let mut env = hub();
    let first = create(&mut env);
    let second = create(&mut env);
    buy(&mut env, ANN, first, 0, 10);
    let before = PredictionHub::get_prediction(&env, second);
    buy(&mut env, ANN, first, 1, 10);
    assert_eq!(PredictionHub::get_prediction(&env, second), before);
    assert!(PredictionHub::get_user_bets(&env, BOB, first).is_empty());
    assert!(PredictionHub::get_user_bets(&env, ANN, second).is_empty());
    assert_eq!(PredictionHub::get_prediction(&env, first).unwrap().choices[0].staked_amount, 10);
}

#[test]
fn removed_bets_do_not_count_for_new_markets() {
    let mut env = hub();
    let market_id = create(&mut env);
    let second = create(&mut env);
    buy(&mut env, ANN, market_id, 1, 500);
    buy(&mut env, ANN, second, 0, 20);
    buy(&mut env, BOB, second, 0, 30);
    assert_eq!(PredictionHub::remove_all_predictions(&mut env, ADMIN), Ok(()));
    assert!(PredictionHub::get_user_bets(&env, ANN, market_id).is_empty());
    assert!(PredictionHub::get_user_bets(&env, BOB, second).is_empty());

    // Ids start over, and the old bets are gone for good.
    assert_eq!(create(&mut env), market_id);
    assert!(PredictionHub::get_all_bets_for_user(&env, ANN).is_empty());
    buy(&mut env, BOB, market_id, 0, 40);
    assert_eq!(PredictionHub::resolve_prediction(&mut env, ADMIN, market_id, 2), Ok(()));
    env.effects.clear();
    assert_eq!(PredictionHub::claim(&mut env, ANN, market_id), Err(HubError::NoBets));
    assert_eq!(env.effects, vec![Effect::RequireAuth(ANN)]);
    assert_eq!(PredictionHub::get_user_claimable_amount(&env, ANN), Ok(0));
    // A bet made since the removal is paid.
    assert_eq!(PredictionHub::claim(&mut env, BOB, market_id), Ok(40));
}

#[test]
fn trails_and_lists_are_in_order() {
    let mut env = hub();
    let (first, second, third) = (create(&mut env), create(&mut env), create(&mut env));
    let moves = [(1_100, second), (1_200, first), (1_200, second), (1_500, third), (1_900, first)];
    for (now, market_id) in moves {
        env.timestamp = now;
        buy(&mut env, ANN, market_id, 0, 1);
    }
    let times: Vec<u64> = PredictionHub::get_market_activity(&env, first)
        .iter()
        .map(|activity| activity.timestamp)
        .collect();
    assert_eq!(times, vec![1_200, 1_900]);
    let ids: Vec<u32> = PredictionHub::get_all_bets_for_user(&env, ANN)
        .iter()
        .map(|market| market.market_id)
        .collect();
    assert_eq!(ids, vec![second, first, third]);
    assert_eq!(
        PredictionHub::get_user_general_predictions(&env, ANN),
        PredictionHub::get_user_predictions(&env, ANN),
    );
}

// ------------------------------------------------------------
//  Claims
// ------------------------------------------------------------

#[test]
fn claims_are_independent_of_their_order() {
    let outcome = |first: Address, second: Address| -> (i128, i128, i128) {
        let mut env = hub();
        let market_id = create(&mut env);
        buy(&mut env, ANN, market_id, 1, 333);
        buy(&mut env, BOB, market_id, 1, 667);
        buy(&mut env, ANN, market_id, 0, 77);
        assert_eq!(PredictionHub::resolve_prediction(&mut env, ADMIN, market_id, 1), Ok(()));
        let one = PredictionHub::claim(&mut env, first, market_id).unwrap();
        let other = PredictionHub::claim(&mut env, second, market_id).unwrap();
        (one, other, received(&env))
    };
    let (ann, bob, left) = outcome(ANN, BOB);
    assert_eq!(outcome(BOB, ANN), (bob, ann, left));
    // 1077 in the pool, 10 the fee: 1067 over 1000.
    assert_eq!((ann, bob, left), (355, 711, 1));
}

#[test]
fn a_bet_is_paid_once_whatever_happens_between() {
    let mut env = hub();
    let market_id = create(&mut env);
    buy(&mut env, ANN, market_id, 1, 100);
    buy(&mut env, BOB, market_id, 0, 50);
    assert_eq!(PredictionHub::resolve_prediction(&mut env, ADMIN, market_id, 1), Ok(()));
    assert_eq!(PredictionHub::claim(&mut env, ANN, market_id), Ok(149));
    let other = create(&mut env);
    buy(&mut env, ANN, other, 0, 10);
    assert_eq!(PredictionHub::set_platform_fee(&mut env, ADMIN, 0), Ok(()));
    assert_eq!(PredictionHub::toggle_market_status(&mut env, ADMIN, market_id), Ok(()));
    assert_eq!(PredictionHub::claim(&mut env, BOB, market_id), Ok(0));
    let before = PredictionHub::get_user_bets(&env, ANN, market_id);
    env.effects.clear();
    assert_eq!(PredictionHub::claim(&mut env, ANN, market_id), Ok(0));
    assert_eq!(env.effects.len(), 3);
    assert_eq!(PredictionHub::get_user_bets(&env, ANN, market_id), before);
    assert_eq!(PredictionHub::get_payout_pool(&env, market_id), 149);
}

#[test]
fn claims_use_up_the_pool_but_for_rounding() {
    let mut env = hub();
    let market_id = create(&mut env);
    for (user, amount) in [(ANN, 1), (BOB, 1), (ANN, 1), (BOB, 4)] {
        buy(&mut env, user, market_id, 0, amount);
    }
    buy(&mut env, ANN, market_id, 1, 3);
    assert_eq!(PredictionHub::resolve_prediction(&mut env, ADMIN, market_id, 0), Ok(()));
    assert_eq!(PredictionHub::get_payout_pool(&env, market_id), 10);
    // 10 over 7: each single unit gets 1, the stake of 4 gets 5.
    assert_eq!(PredictionHub::get_user_claimable_amount(&env, ANN), Ok(2));
    assert_eq!(PredictionHub::claim(&mut env, BOB, market_id), Ok(6));
    assert_eq!(PredictionHub::get_user_claimable_amount(&env, ANN), Ok(2));
    assert_eq!(PredictionHub::claim(&mut env, ANN, market_id), Ok(2));
    // Two units are left, less than the four winning bets.
    assert_eq!(received(&env), 2);
}

#[test]
fn a_lone_winner_takes_the_pool() {
    let mut env = hub();
    let market_id = create(&mut env);
    buy(&mut env, ANN, market_id, 1, 30);
    buy(&mut env, ANN, market_id, 1, 70);
    buy(&mut env, BOB, market_id, 0, 900);
    assert_eq!(PredictionHub::resolve_prediction(&mut env, ADMIN, market_id, 1), Ok(()));
    assert_eq!(PredictionHub::get_payout_pool(&env, market_id), 990);
    assert_eq!(PredictionHub::claim(&mut env, ANN, market_id), Ok(990));
    assert_eq!(received(&env), 0);
}

#[test]
fn resolution_is_final() {
    let mut env = hub();
    let market_id = create(&mut env);
    buy(&mut env, ANN, market_id, 1, 100);
    assert_eq!(PredictionHub::resolve_prediction(&mut env, ADMIN, market_id, 1), Ok(()));
    assert_eq!(
        PredictionHub::resolve_prediction(&mut env, ADMIN, market_id, 0),
        Err(HubError::MarketAlreadyResolved),
    );
    assert_eq!(PredictionHub::set_platform_fee(&mut env, ADMIN, 5_000), Ok(()));
    assert_eq!(PredictionHub::toggle_market_status(&mut env, ADMIN, market_id), Ok(()));
    let market = PredictionHub::get_prediction(&env, market_id).unwrap();
    assert!(market.is_resolved);
    assert_eq!(market.winning_choice, Some(1));
    assert_eq!(PredictionHub::get_payout_pool(&env, market_id), 99);
    assert_eq!(PredictionHub::claim(&mut env, ANN, market_id), Ok(99));
}

#[test]
fn a_stake_of_the_contract_itself_brings_nothing() {
    // Such a stake is recorded although no tokens come in.
    let mut env = hub();
    let market_id = create(&mut env);
    env.effects.clear();
    buy(&mut env, HUB, market_id, 0, 50);
    assert_eq!(
        env.effects[1],
        Effect::TransferFrom { token: TOKEN, spender: HUB, from: HUB, to: HUB, amount: 50 },
    );
    assert_eq!(PredictionHub::get_total_value_locked(&env), 50);
}

// ------------------------------------------------------------
//  Authority and switches
// ------------------------------------------------------------

#[test]
fn moderators_come_and_go() {
    let mut env = hub();
    assert_eq!(PredictionHub::add_moderator(&mut env, ADMIN, ANN), Ok(()));
    assert_eq!(PredictionHub::add_moderator(&mut env, ADMIN, ANN), Ok(()));
    assert_eq!(PredictionHub::get_moderator_count(&env), 1);
    assert_eq!(PredictionHub::add_moderator(&mut env, ADMIN, BOB), Ok(()));
    assert_eq!(PredictionHub::get_moderator_count(&env), 2);
    assert_eq!(PredictionHub::remove_moderator(&mut env, ADMIN, ANN), Ok(()));
    assert_eq!(PredictionHub::remove_moderator(&mut env, ADMIN, ANN), Ok(()));
    assert_eq!(PredictionHub::get_moderator_count(&env), 1);
    assert!(!PredictionHub::is_moderator(&env, ANN));
    assert!(PredictionHub::is_moderator(&env, BOB));
}

#[test]
fn toggling_twice_restores_a_market() {
    let mut env = hub();
    let market_id = create(&mut env);
    let before = PredictionHub::get_prediction(&env, market_id);
    assert_eq!(PredictionHub::toggle_market_status(&mut env, ADMIN, market_id), Ok(()));
    assert_eq!(PredictionHub::get_market_status(&env, market_id), Ok((false, false)));
    assert_eq!(PredictionHub::toggle_market_status(&mut env, ADMIN, market_id), Ok(()));
    assert_eq!(PredictionHub::get_prediction(&env, market_id), before);
}

#[test]
fn admin_and_token_are_fixed() {
    let mut env = hub();
    assert_eq!(
        PredictionHub::initialize(&mut env, BOB, BOB, BOB, 0, 0, 0, 0, 0, 0),
        Err(HubError::AlreadyInitialized),
    );
    assert_eq!(PredictionHub::remove_all_predictions(&mut env, ADMIN), Ok(()));
    assert_eq!(PredictionHub::get_admin(&env), Ok(ADMIN));
    assert_eq!(PredictionHub::get_protocol_token(&env), Ok(TOKEN));
}

#[test]
fn new_markets_get_the_next_id() {
    let mut env = hub();
    assert_eq!(create(&mut env), 1);
    assert_eq!(create(&mut env), 2);
    assert_eq!(create(&mut env), 3);
    let listed: Vec<u32> =
        PredictionHub::get_all_predictions(&env).iter().map(|market| market.market_id).collect();
    assert_eq!(listed, vec![1, 2, 3]);
    assert!(PredictionHub::is_market_open_for_betting(&env, 3));
    let market = PredictionHub::get_prediction(&env, 2).unwrap();
    assert_eq!(market.creator, ADMIN);
    assert_eq!(market.description, "about");
    assert_eq!(market.category, "any");
    assert_eq!(market.choices[2].label, "c");
    assert_eq!(market.end_time, 2_000);
}

// ------------------------------------------------------------
//  Tables
// ------------------------------------------------------------

#[test]
fn tables_keep_the_latest_value() {
    let mut table: Table<u32, i128> = Table::new();
    assert_eq!(table.get(1), None);
    table.set(1, 10);
    table.set(2, 20);
    table.set(1, 30);
    assert_eq!(table.get(1), Some(&30));
    assert_eq!(table.get(2), Some(&20));
    table.remove(1);
    assert_eq!(table.get(1), None);
    assert_eq!(table.get(2), Some(&20));
    table.remove(3);
    assert_eq!(table.get(2), Some(&20));
}
