//! The protocol end to end, against a token that keeps balances and allowances.

use prediction_hub::{
    Activity, Address, BetPlaced, DataKey, Effect, EmergencyPaused, Env, Event,
    FeeRecipientUpdated, HubError, Initialized, Market, MarketCreated, MarketResolved,
    MarketToggled, ModeratorUpdated, PlatformFeeUpdated, PredictionHub, UserMarketKey,
    WinningsClaimed,
};

// ============================================================
//  A host with a token
// ============================================================

/// A deployed hub, the token it works with, and the host between them.
struct World {
    env: Env,
    contract: Address,
    token: Address,
    admin: Address,
    fee_recipient: Address,
    balances: Vec<(Address, i128)>,
    allowances: Vec<(Address, Address, i128)>,
}

fn account(n: u128) -> Address {
    Address::Account { high: 7, low: n }
}

fn contract(n: u128) -> Address {
    Address::Contract { high: 9, low: n }
}

impl World {
    fn balance(&self, who: Address) -> i128 {
        match self.balances.iter().find(|entry| entry.0 == who) {
            Some(entry) => entry.1,
            None => 0,
        }
    }

    fn set_balance(&mut self, who: Address, amount: i128) {
        self.balances.retain(|entry| entry.0 != who);
        self.balances.push((who, amount));
    }

    fn allowance(&self, from: Address, spender: Address) -> i128 {
        match self.allowances.iter().find(|entry| entry.0 == from && entry.1 == spender) {
            Some(entry) => entry.2,
            None => 0,
        }
    }

    fn approve(&mut self, from: Address, spender: Address, amount: i128) {
        self.allowances.retain(|entry| entry.0 != from || entry.1 != spender);
        self.allowances.push((from, spender, amount));
    }

    fn move_balance(&mut self, from: Address, to: Address, amount: i128) {
        let from_balance = self.balance(from);
        assert!(from_balance >= amount, "insufficient balance");
        self.set_balance(from, from_balance - amount);
        let to_balance = self.balance(to);
        self.set_balance(to, to_balance + amount);
    }

    /// Mints `amount` to `user` and approves the hub to pull it as a stake.
    fn fund_and_approve(&mut self, user: Address, amount: i128) {
        let balance = self.balance(user);
        self.set_balance(user, balance + amount);
        self.approve(user, self.contract, amount);
    }

    /// Makes one call and serves what it asks of the token.
    fn call<T>(
        &mut self,
        run: impl FnOnce(&mut Env) -> Result<T, HubError>,
    ) -> Result<T, HubError> {
        self.env.effects.clear();
        let result = run(&mut self.env);
        if result.is_ok() {
            let mut moves: Vec<(Option<Address>, Address, Address, i128)> = Vec::new();
            for effect in self.env.effects.iter() {
                match effect {
                    Effect::TransferFrom { token, spender, from, to, amount } => {
                        assert_eq!(*token, self.token);
                        moves.push((Some(*spender), *from, *to, *amount));
                    }
                    Effect::Transfer { token, from, to, amount } => {
                        assert_eq!(*token, self.token);
                        assert_eq!(*from, self.contract);
                        moves.push((None, *from, *to, *amount));
                    }
                    _ => {}
                }
            }
            for (spender, from, to, amount) in moves {
                if let Some(spender) = spender {
                    let allowance = self.allowance(from, spender);
                    assert!(allowance >= amount, "insufficient allowance");
                    self.approve(from, spender, allowance - amount);
                }
                self.move_balance(from, to, amount);
            }
        }
        result
    }

    /// The events of the latest call.
    fn last_events(&self) -> Vec<&Event> {
        let mut events = Vec::new();
        for effect in self.env.effects.iter() {
            if let Effect::Publish(event) = effect {
                events.push(event);
            }
        }
        events
    }

    /// The addresses whose authorisation the latest call required.
    fn last_auths(&self) -> Vec<Address> {
        let mut auths = Vec::new();
        for effect in self.env.effects.iter() {
            if let Effect::RequireAuth(who) = effect {
                auths.push(*who);
            }
        }
        auths
    }

    fn buy(&mut self, user: Address, market_id: u32, choice: u32, amount: i128) {
        self.fund_and_approve(user, amount);
        let result = self.call(|env| PredictionHub::buy_shares(env, user, market_id, choice, amount));
        assert_eq!(result, Ok(()));
    }

    /// Creates a two-choice market ending one hour after the current ledger
    /// time and returns its id.
    fn create_market(&mut self, creator: Address) -> u32 {
        let end_time = self.env.timestamp + 3_600;
        self.call(|env| {
            PredictionHub::create_predictions(
                env,
                creator,
                "Will BTC close above 100k?".to_string(),
                "Resolves on the 1st of next month.".to_string(),
                vec!["Yes".to_string(), "No".to_string()],
                "crypto".to_string(),
                end_time,
                1,
                "https://example.com/btc.png".to_string(),
            )
        })
        .unwrap()
    }
}

/// Deploys the token and the hub, then initialises the hub.
fn setup() -> World {
    let mut world = World {
        env: Env::new(contract(1), 1_000),
        contract: contract(1),
        token: contract(2),
        admin: account(1),
        fee_recipient: account(2),
        balances: Vec::new(),
        allowances: Vec::new(),
    };
    let (admin, fee_recipient, token) = (world.admin, world.fee_recipient, world.token);
    let result = world.call(|env| {
        PredictionHub::initialize(env, admin, fee_recipient, token, 500, 0, 0, 0, 0, 0)
    });
    assert_eq!(result, Ok(()));
    world
}

// ============================================================
//  Tests
// ============================================================

#[test]
fn test_initialize_sets_state() {
    let world = setup();
    let env = &world.env;

    assert_eq!(PredictionHub::get_admin(env), Ok(world.admin));
    assert_eq!(PredictionHub::get_fee_recipient(env), Ok(world.fee_recipient));
    assert_eq!(PredictionHub::get_protocol_token(env), Ok(world.token));
    assert_eq!(PredictionHub::get_platform_fee(env), 500);
    assert_eq!(PredictionHub::get_prediction_count(env), 0);
    assert_eq!(PredictionHub::get_total_value_locked(env), 0);
    assert_eq!(PredictionHub::get_moderator_count(env), 0);
    assert!(!PredictionHub::is_paused(env));
}

#[test]
fn test_initialize_twice_panics() {
    let mut world = setup();
    let (admin, fee_recipient, token) = (world.admin, world.fee_recipient, world.token);

    let result = world.call(|env| {
        PredictionHub::initialize(env, admin, fee_recipient, token, 500, 0, 0, 0, 0, 0)
    });
    assert!(result.is_err());
    assert_eq!(result, Err(HubError::AlreadyInitialized));
}

#[test]
fn test_create_market_requires_moderator() {
    let mut world = setup();
    let stranger = account(10);
    let end_time = world.env.timestamp + 3_600;

    let result = world.call(|env| {
        PredictionHub::create_predictions(
            env,
            stranger,
            "Unauthorised".to_string(),
            "nope".to_string(),
            vec!["Yes".to_string()],
            "general".to_string(),
            end_time,
            0,
            "".to_string(),
        )
    });
    assert!(result.is_err());
    assert_eq!(result, Err(HubError::OnlyModeratorOrAdmin));
}

#[test]
fn test_moderator_can_create_market() {
    let mut world = setup();
    let admin = world.admin;
    let moderator = account(10);

    world.call(|env| PredictionHub::add_moderator(env, admin, moderator)).unwrap();
    assert!(PredictionHub::is_moderator(&world.env, moderator));
    assert_eq!(PredictionHub::get_moderator_count(&world.env), 1);

    let market_id = world.create_market(moderator);
    assert_eq!(market_id, 1);
    assert_eq!(PredictionHub::get_prediction_count(&world.env), 1);

    let market = PredictionHub::get_prediction(&world.env, market_id).unwrap();
    assert_eq!(market.market_id, 1);
    assert_eq!(market.choices.len(), 2);
    assert!(market.is_open);
    assert!(!market.is_resolved);
    assert_eq!(market.market_type, 1);
    assert_eq!(market.total_pool, 0);
    assert_eq!(PredictionHub::get_all_crypto_predictions(&world.env).len(), 1);
    assert_eq!(PredictionHub::get_all_open_markets(&world.env).len(), 1);

    world.call(|env| PredictionHub::remove_moderator(env, admin, moderator)).unwrap();
    assert!(!PredictionHub::is_moderator(&world.env, moderator));
    assert_eq!(PredictionHub::get_moderator_count(&world.env), 0);
}

#[test]
fn test_betting_pulls_stake_and_records_activity() {
    let mut world = setup();
    let admin = world.admin;
    let user = account(10);

    let market_id = world.create_market(admin);
    world.fund_and_approve(user, 1_000);
    world.call(|env| PredictionHub::buy_shares(env, user, market_id, 0, 600)).unwrap();

    // The stake moved from the user to the contract.
    assert_eq!(world.balance(user), 400);
    assert_eq!(world.balance(world.contract), 600);

    let env = &world.env;
    let market = PredictionHub::get_prediction(env, market_id).unwrap();
    assert_eq!(market.total_pool, 600);
    assert_eq!(market.choices[0].staked_amount, 600);
    assert_eq!(PredictionHub::get_market_liquidity(env, market_id), 600);
    assert_eq!(PredictionHub::get_total_value_locked(env), 600);
    assert_eq!(PredictionHub::get_all_bets_for_user(env, user).len(), 1);
    assert_eq!(PredictionHub::get_bet_count_for_market(env, user, market_id), 1);

    let bet = PredictionHub::get_choice_and_bet(env, user, market_id, 0).unwrap();
    assert_eq!(bet.choice, 0);
    assert_eq!(bet.amount, 600);
    assert!(!bet.claimed);
    assert_eq!(PredictionHub::get_market_activity(env, market_id).len(), 1);
    assert!(PredictionHub::is_market_open_for_betting(env, market_id));
}

// ============================================================
//  Event tests
// ============================================================

#[test]
fn test_initialize_emits_event() {
    let world = setup();

    assert_eq!(
        world.last_events(),
        vec![&Event::Initialized(Initialized { admin: world.admin, token: world.token })],
    );
}

#[test]
fn test_create_market_emits_event() {
    let mut world = setup();
    let admin = world.admin;
    let end_time = world.env.timestamp + 3_600;

    let market_id = world.create_market(admin);

    assert_eq!(
        world.last_events(),
        vec![&Event::MarketCreated(MarketCreated {
            market_id,
            creator: admin,
            title: "Will BTC close above 100k?".to_string(),
            end_time,
            market_type: 1,
        })],
    );
    assert_eq!(PredictionHub::get_prediction_count(&world.env), 1);
}

#[test]
fn test_bet_and_claim_emit_events() {
    let mut world = setup();
    let admin = world.admin;
    let user = account(10);

    let market_id = world.create_market(admin);

    world.fund_and_approve(user, 1_000);
    world.call(|env| PredictionHub::buy_shares(env, user, market_id, 0, 600)).unwrap();
    assert_eq!(
        world.last_events(),
        vec![&Event::BetPlaced(BetPlaced { market_id, user, choice: 0, amount: 600 })],
    );

    world.call(|env| PredictionHub::resolve_prediction(env, admin, market_id, 0)).unwrap();
    assert_eq!(
        world.last_events(),
        vec![&Event::MarketResolved(MarketResolved {
            market_id,
            resolver: admin,
            winning_choice: 0,
            payout_pool: 570,
        })],
    );

    // 600 staked on the winning choice, minus the 5% (500 bps) protocol fee.
    assert_eq!(PredictionHub::get_payout_pool(&world.env, market_id), 570);
    let payout = world.call(|env| PredictionHub::claim(env, user, market_id));
    assert_eq!(payout, Ok(570));
    assert_eq!(
        world.last_events(),
        vec![&Event::WinningsClaimed(WinningsClaimed { market_id, user, amount: 570 })],
    );
    assert_eq!(world.balance(user), 970);
    assert_eq!(world.balance(world.fee_recipient), 30);
    assert_eq!(world.balance(world.contract), 0);
}

#[test]
fn test_admin_actions_emit_events() {
    let mut world = setup();
    let admin = world.admin;
    let moderator = account(10);
    let new_recipient = account(11);
    let market_id = world.create_market(admin);

    world.call(|env| PredictionHub::add_moderator(env, admin, moderator)).unwrap();
    assert_eq!(
        world.last_events(),
        vec![&Event::ModeratorUpdated(ModeratorUpdated { moderator, enabled: true })],
    );

    world.call(|env| PredictionHub::remove_moderator(env, admin, moderator)).unwrap();
    assert_eq!(
        world.last_events(),
        vec![&Event::ModeratorUpdated(ModeratorUpdated { moderator, enabled: false })],
    );

    world.call(|env| PredictionHub::set_platform_fee(env, admin, 250)).unwrap();
    assert_eq!(
        world.last_events(),
        vec![&Event::PlatformFeeUpdated(PlatformFeeUpdated { platform_fee: 250 })],
    );

    world.call(|env| PredictionHub::set_fee_recipient(env, admin, new_recipient)).unwrap();
    assert_eq!(
        world.last_events(),
        vec![&Event::FeeRecipientUpdated(FeeRecipientUpdated { recipient: new_recipient })],
    );

    world.call(|env| PredictionHub::toggle_market_status(env, admin, market_id)).unwrap();
    assert_eq!(
        world.last_events(),
        vec![&Event::MarketToggled(MarketToggled { market_id, is_open: false })],
    );

    world.call(|env| PredictionHub::emergency_pause(env, admin)).unwrap();
    assert_eq!(
        world.last_events(),
        vec![&Event::EmergencyPaused(EmergencyPaused { paused: true })],
    );

    world.call(|env| PredictionHub::emergency_unpause(env, admin)).unwrap();
    assert_eq!(
        world.last_events(),
        vec![&Event::EmergencyPaused(EmergencyPaused { paused: false })],
    );

    // The resulting state matches the events that were emitted.
    assert!(!PredictionHub::is_moderator(&world.env, moderator));
    assert_eq!(PredictionHub::get_platform_fee(&world.env), 250);
    assert_eq!(PredictionHub::get_fee_recipient(&world.env), Ok(new_recipient));
    assert!(!PredictionHub::is_paused(&world.env));
    assert!(!PredictionHub::is_market_open_for_betting(&world.env, market_id));
}

#[test]
fn test_resolve_without_winners_refunds_and_charges_no_fee() {
    let mut world = setup();
    let admin = world.admin;
    let user = account(10);

    let market_id = world.create_market(admin);
    world.fund_and_approve(user, 500);
    world.call(|env| PredictionHub::buy_shares(env, user, market_id, 1, 500)).unwrap();

    // Nobody backed choice 0, so no winnings are paid out and no fee is taken.
    world.call(|env| PredictionHub::resolve_prediction(env, admin, market_id, 0)).unwrap();
    assert_eq!(PredictionHub::get_payout_pool(&world.env, market_id), 500);

    // The lone backer of choice 1 is refunded in full.
    let refund = world.call(|env| PredictionHub::collect_winnings(env, user, market_id));
    assert_eq!(refund, Ok(500));
    assert_eq!(world.balance(user), 500);
    assert_eq!(world.balance(world.fee_recipient), 0);
    assert_eq!(PredictionHub::get_total_value_locked(&world.env), 0);
}

// ============================================================
//  Payouts
// ============================================================

#[test]
fn winners_share_the_pool_in_proportion() {
    let mut world = setup();
    let admin = world.admin;
    let (ann, bob, cid) = (account(10), account(11), account(12));
    let market_id = world.create_market(admin);
    world.buy(ann, market_id, 0, 100);
    world.buy(bob, market_id, 0, 200);
    world.buy(cid, market_id, 1, 700);
    world.call(|env| PredictionHub::resolve_prediction(env, admin, market_id, 0)).unwrap();

    // 1000 in the pool, 50 of it the fee; 950 over 300 winning.
    assert_eq!(PredictionHub::get_payout_pool(&world.env, market_id), 950);
    assert_eq!(world.balance(world.fee_recipient), 50);
    assert_eq!(PredictionHub::get_user_claimable_amount(&world.env, ann), Ok(316));
    assert_eq!(PredictionHub::get_user_claimable_amount(&world.env, bob), Ok(633));
    assert_eq!(PredictionHub::get_user_claimable_amount(&world.env, cid), Ok(0));

    assert_eq!(world.call(|env| PredictionHub::claim(env, ann, market_id)), Ok(316));
    assert_eq!(PredictionHub::get_user_claimable_amount(&world.env, bob), Ok(633));
    assert_eq!(world.call(|env| PredictionHub::claim(env, bob, market_id)), Ok(633));
    assert_eq!(world.call(|env| PredictionHub::claim(env, cid, market_id)), Ok(0));
    assert_eq!(world.balance(ann), 316);
    assert_eq!(world.balance(bob), 633);
    assert_eq!(world.balance(cid), 0);

    // What the rounding left stays in the contract.
    assert_eq!(world.balance(world.contract), 1);
}

#[test]
fn second_claim_pays_nothing() {
    let mut world = setup();
    let admin = world.admin;
    let user = account(10);
    let market_id = world.create_market(admin);
    world.buy(user, market_id, 0, 600);
    world.call(|env| PredictionHub::resolve_prediction(env, admin, market_id, 0)).unwrap();

    assert_eq!(world.call(|env| PredictionHub::claim(env, user, market_id)), Ok(570));
    assert_eq!(PredictionHub::get_user_claimable_amount(&world.env, user), Ok(0));
    assert!(PredictionHub::get_user_bets(&world.env, user, market_id)[0].claimed);
    assert_eq!(world.call(|env| PredictionHub::claim(env, user, market_id)), Ok(0));
    assert_eq!(
        world.last_events(),
        vec![&Event::WinningsClaimed(WinningsClaimed { market_id, user, amount: 0 })],
    );
    assert_eq!(world.balance(user), 570);
}

#[test]
fn a_claim_collects_every_stake_of_the_user() {
    let mut world = setup();
    let admin = world.admin;
    let (ann, bob) = (account(10), account(11));
    let market_id = world.create_market(admin);
    world.buy(ann, market_id, 0, 10);
    world.buy(ann, market_id, 1, 20);
    world.buy(ann, market_id, 0, 30);
    world.buy(bob, market_id, 1, 40);
    world.call(|env| PredictionHub::set_platform_fee(env, admin, 0)).unwrap();
    world.call(|env| PredictionHub::resolve_prediction(env, admin, market_id, 0)).unwrap();
    assert_eq!(PredictionHub::get_payout_pool(&world.env, market_id), 100);

    assert_eq!(world.call(|env| PredictionHub::claim(env, ann, market_id)), Ok(100));
    let bets = PredictionHub::get_user_bets(&world.env, ann, market_id);
    assert_eq!(bets.len(), 3);
    assert!(bets[0].claimed);
    assert!(!bets[1].claimed);
    assert!(bets[2].claimed);
    assert_eq!(world.balance(world.contract), 0);
}

#[test]
fn a_share_that_rounds_to_nothing_stays_unclaimed() {
    let mut world = setup();
    let admin = world.admin;
    let user = account(10);
    let market_id = world.create_market(admin);
    world.buy(user, market_id, 0, 1);
    world.call(|env| PredictionHub::set_platform_fee(env, admin, 9_999)).unwrap();
    world.call(|env| PredictionHub::resolve_prediction(env, admin, market_id, 0)).unwrap();

    // The fee of 9999/10000 rounds down to nothing, so the stake comes back.
    assert_eq!(PredictionHub::get_payout_pool(&world.env, market_id), 1);

    let other = account(11);
    let second = world.create_market(admin);
    world.buy(user, second, 0, 1);
    world.buy(other, second, 0, 19_999);
    world.call(|env| PredictionHub::resolve_prediction(env, admin, second, 0)).unwrap();
    assert_eq!(PredictionHub::get_payout_pool(&world.env, second), 2);
    assert_eq!(world.call(|env| PredictionHub::claim(env, user, second)), Ok(0));
    assert!(!PredictionHub::get_user_bets(&world.env, user, second)[0].claimed);
    assert_eq!(world.call(|env| PredictionHub::claim(env, other, second)), Ok(1));
}

#[test]
fn claimable_amount_spans_markets() {
    let mut world = setup();
    let admin = world.admin;
    let user = account(10);
    let (won, refunded, open) =
        (world.create_market(admin), world.create_market(admin), world.create_market(admin));
    world.buy(user, won, 0, 600);
    world.buy(user, refunded, 1, 40);
    world.buy(user, open, 0, 5);
    world.call(|env| PredictionHub::resolve_prediction(env, admin, won, 0)).unwrap();
    world.call(|env| PredictionHub::resolve_prediction(env, admin, refunded, 0)).unwrap();

    assert_eq!(PredictionHub::get_user_claimable_amount(&world.env, user), Ok(610));
    assert_eq!(world.call(|env| PredictionHub::claim(env, user, refunded)), Ok(40));
    assert_eq!(PredictionHub::get_user_claimable_amount(&world.env, user), Ok(570));
}

#[test]
fn tokens_held_cover_what_is_owed() {
    let mut world = setup();
    let admin = world.admin;
    let (ann, bob) = (account(10), account(11));
    let first = world.create_market(admin);
    let second = world.create_market(admin);
    world.buy(ann, first, 0, 333);
    world.buy(bob, first, 1, 334);
    world.buy(ann, second, 1, 17);
    assert_eq!(world.balance(world.contract), 684);
    assert_eq!(PredictionHub::get_total_value_locked(&world.env), 684);

    world.call(|env| PredictionHub::resolve_prediction(env, admin, first, 1)).unwrap();
    // 667 * 500 / 10000 = 33.
    assert_eq!(world.balance(world.fee_recipient), 33);
    assert_eq!(PredictionHub::get_total_value_locked(&world.env), 17);
    assert_eq!(PredictionHub::get_market_liquidity(&world.env, first), 0);
    assert_eq!(world.balance(world.contract), 651);
    assert_eq!(world.call(|env| PredictionHub::claim(env, bob, first)), Ok(634));
    assert_eq!(world.balance(world.contract), 17);
    assert_eq!(PredictionHub::get_market_liquidity(&world.env, second), 17);
}

// ============================================================
//  Records and listings
// ============================================================

#[test]
fn stakes_are_recorded_in_order() {
    let mut world = setup();
    let admin = world.admin;
    let (ann, bob) = (account(10), account(11));
    let market_id = world.create_market(admin);
    world.buy(ann, market_id, 0, 5);
    world.env.timestamp = 1_500;
    world.buy(bob, market_id, 1, 7);
    world.buy(ann, market_id, 1, 9);

    assert_eq!(
        PredictionHub::get_market_activity(&world.env, market_id),
        vec![
            Activity { user: ann, choice: 0, amount: 5, timestamp: 1_000 },
            Activity { user: bob, choice: 1, amount: 7, timestamp: 1_500 },
            Activity { user: ann, choice: 1, amount: 9, timestamp: 1_500 },
        ],
    );
    assert_eq!(PredictionHub::get_bet_count_for_market(&world.env, ann, market_id), 2);
    assert_eq!(PredictionHub::get_bet_count_for_market(&world.env, bob, market_id), 1);
    let bet = PredictionHub::get_choice_and_bet(&world.env, ann, market_id, 1).unwrap();
    assert_eq!(bet.market_id, market_id);
    assert_eq!(bet.choice, 1);
    assert_eq!(bet.choice_label, "No");
    assert_eq!(bet.amount, 9);

    // A user is listed once per market, however often the user bets.
    assert_eq!(PredictionHub::get_all_bets_for_user(&world.env, ann).len(), 1);
    let market = PredictionHub::get_prediction(&world.env, market_id).unwrap();
    assert_eq!(market.choices[0].staked_amount, 5);
    assert_eq!(market.choices[1].staked_amount, 16);
    assert_eq!(market.total_pool, 21);
}

#[test]
fn place_bet_is_buy_shares() {
    let mut world = setup();
    let admin = world.admin;
    let user = account(10);
    let market_id = world.create_market(admin);
    world.fund_and_approve(user, 50);
    world.call(|env| PredictionHub::place_bet(env, user, market_id, 1, 50)).unwrap();
    assert_eq!(world.last_auths(), vec![user]);
    assert_eq!(
        world.last_events(),
        vec![&Event::BetPlaced(BetPlaced { market_id, user, choice: 1, amount: 50 })],
    );
    assert_eq!(world.balance(world.contract), 50);
}

#[test]
fn markets_are_listed_by_type_and_stage() {
    let mut world = setup();
    let admin = world.admin;
    let user = account(10);
    let kinds: [u32; 4] = [0, 1, 2, 3];
    for kind in kinds {
        let end_time = 2_000 + kind as u64;
        let result = world.call(|env| {
            PredictionHub::create_predictions(
                env,
                admin,
                "title".to_string(),
                "".to_string(),
                vec!["only".to_string()],
                "".to_string(),
                end_time,
                kind,
                "".to_string(),
            )
        });
        assert_eq!(result, Ok(kind + 1));
        world.buy(user, kind + 1, 0, 10);
    }
    let env = &world.env;
    let ids = |markets: Vec<Market>| -> Vec<u32> {
        markets.iter().map(|market| market.market_id).collect()
    };
    assert_eq!(ids(PredictionHub::get_all_predictions(env)), vec![1, 2, 3, 4]);
    assert_eq!(ids(PredictionHub::get_all_general_predictions(env)), vec![1]);
    assert_eq!(ids(PredictionHub::get_all_crypto_predictions(env)), vec![2]);
    assert_eq!(ids(PredictionHub::get_all_sports_predictions(env)), vec![3]);
    assert_eq!(ids(PredictionHub::get_user_predictions(env, user)), vec![1, 2, 3, 4]);
    assert_eq!(ids(PredictionHub::get_user_general_predictions(env, user)), vec![1]);
    assert_eq!(ids(PredictionHub::get_user_crypto_predictions(env, user)), vec![2]);
    assert_eq!(ids(PredictionHub::get_user_sports_predictions(env, user)), vec![3]);
    assert_eq!(ids(PredictionHub::get_user_predictions(env, account(11))), Vec::<u32>::new());

    world.call(|env| PredictionHub::resolve_prediction(env, admin, 2, 0)).unwrap();
    world.call(|env| PredictionHub::toggle_market_status(env, admin, 4)).unwrap();
    world.env.timestamp = 2_000;
    let env = &world.env;
    // Market 1 ends at 2000: it is locked from that moment on.
    assert_eq!(ids(PredictionHub::get_all_locked_markets(env)), vec![1]);
    assert_eq!(ids(PredictionHub::get_all_resolved_markets(env)), vec![2]);
    assert_eq!(ids(PredictionHub::get_all_open_markets(env)), vec![3]);
    assert_eq!(PredictionHub::get_market_status(env, 1), Ok((true, false)));
    assert_eq!(PredictionHub::get_market_status(env, 2), Ok((false, true)));
    assert_eq!(PredictionHub::get_market_status(env, 4), Ok((false, false)));
}

#[test]
fn removal_leaves_no_market_and_no_claim() {
    let mut world = setup();
    let admin = world.admin;
    let user = account(10);
    let market_id = world.create_market(admin);
    world.create_market(admin);
    world.buy(user, market_id, 0, 600);
    world.call(|env| PredictionHub::resolve_prediction(env, admin, market_id, 0)).unwrap();
    world.call(|env| PredictionHub::remove_all_predictions(env, admin)).unwrap();

    assert_eq!(PredictionHub::get_prediction_count(&world.env), 0);
    assert_eq!(PredictionHub::get_total_value_locked(&world.env), 0);
    assert_eq!(PredictionHub::get_payout_pool(&world.env, market_id), 0);
    assert!(PredictionHub::get_all_predictions(&world.env).is_empty());
    assert!(PredictionHub::get_market_activity(&world.env, market_id).is_empty());
    assert_eq!(
        world.call(|env| PredictionHub::claim(env, user, market_id)),
        Err(HubError::MarketNotFound),
    );
    assert_eq!(PredictionHub::get_user_claimable_amount(&world.env, user), Ok(0));
    // The bets go with the markets, and the tokens stay where they are.
    assert_eq!(PredictionHub::get_bet_count_for_market(&world.env, user, market_id), 0);
    assert!(PredictionHub::get_all_bets_for_user(&world.env, user).is_empty());
    assert_eq!(world.create_market(admin), 1);
    assert_eq!(PredictionHub::get_bet_count_for_market(&world.env, user, market_id), 0);
    world.call(|env| PredictionHub::resolve_prediction(env, admin, market_id, 1)).unwrap();
    assert_eq!(
        world.call(|env| PredictionHub::claim(env, user, market_id)),
        Err(HubError::NoBets),
    );
    assert_eq!(world.balance(user), 0);
    assert_eq!(world.balance(world.contract), 570);
}

// ============================================================
//  What is asked of the host
// ============================================================

#[test]
fn every_call_requires_the_callers_authorisation() {
    let mut world = setup();
    let admin = world.admin;
    assert_eq!(world.last_auths(), vec![admin]);
    let (moderator, user) = (account(10), account(11));
    world.call(|env| PredictionHub::add_moderator(env, admin, moderator)).unwrap();
    assert_eq!(world.last_auths(), vec![admin]);
    let market_id = world.create_market(moderator);
    assert_eq!(world.last_auths(), vec![moderator]);
    world.buy(user, market_id, 0, 10);
    assert_eq!(world.last_auths(), vec![user]);
    world.call(|env| PredictionHub::resolve_prediction(env, moderator, market_id, 0)).unwrap();
    assert_eq!(world.last_auths(), vec![moderator]);
    world.call(|env| PredictionHub::claim(env, user, market_id)).unwrap();
    assert_eq!(world.last_auths(), vec![user]);
    world.call(|env| PredictionHub::pause_betting(env, admin, true)).unwrap();
    assert_eq!(world.last_auths(), vec![admin]);
}

#[test]
fn writes_extend_the_life_of_entries() {
    let mut world = setup();
    let admin = world.admin;
    world.call(|env| PredictionHub::set_betting_limits(env, admin, 1, 2)).unwrap();
    assert_eq!(
        world.env.effects,
        vec![
            Effect::RequireAuth(admin),
            Effect::SetInstance {
                key: DataKey::MinBetAmount,
                ttl_threshold: 100,
                ttl_extend: 5_000_000,
            },
            Effect::SetInstance {
                key: DataKey::MaxBetAmount,
                ttl_threshold: 100,
                ttl_extend: 5_000_000,
            },
        ],
    );
    let moderator = account(10);
    world.call(|env| PredictionHub::add_moderator(env, admin, moderator)).unwrap();
    assert_eq!(
        world.env.effects[2],
        Effect::SetPersistent {
            key: DataKey::Moderator(moderator),
            ttl_threshold: 100,
            ttl_extend: 5_000_000,
        },
    );
    world.call(|env| PredictionHub::remove_moderator(env, admin, moderator)).unwrap();
    assert_eq!(
        world.env.effects[2],
        Effect::RemovePersistent { key: DataKey::Moderator(moderator) },
    );
}

#[test]
fn upgrade_asks_for_the_new_code() {
    let mut world = setup();
    let admin = world.admin;
    world.call(|env| PredictionHub::upgrade(env, admin, [7; 32])).unwrap();
    assert_eq!(
        world.env.effects,
        vec![Effect::RequireAuth(admin), Effect::UpdateWasm { new_wasm_hash: [7; 32] }],
    );
    assert_eq!(
        world.call(|env| PredictionHub::upgrade(env, account(9), [7; 32])),
        Err(HubError::OnlyAdmin),
    );
    assert!(world.env.effects.is_empty());
}

#[test]
fn a_stake_is_pulled_before_it_is_recorded() {
    let mut world = setup();
    let admin = world.admin;
    let user = account(10);
    let market_id = world.create_market(admin);
    world.buy(user, market_id, 0, 10);
    assert_eq!(
        world.env.effects[1],
        Effect::TransferFrom {
            token: world.token,
            spender: world.contract,
            from: user,
            to: world.contract,
            amount: 10,
        },
    );
    assert_eq!(world.env.effects.len(), 9);
}

fn instance_write(key: DataKey) -> Effect {
    Effect::SetInstance { key, ttl_threshold: 100, ttl_extend: 5_000_000 }
}

fn persistent_write(key: DataKey) -> Effect {
    Effect::SetPersistent { key, ttl_threshold: 100, ttl_extend: 5_000_000 }
}

#[test]
fn every_changed_entry_is_written() {
    let mut world = setup();
    let (admin, hub, token, recipient) =
        (world.admin, world.contract, world.token, world.fee_recipient);
    let user = account(10);
    let market_id = world.create_market(admin);
    assert_eq!(world.env.effects[0], Effect::RequireAuth(admin));
    assert_eq!(world.env.effects[1], persistent_write(DataKey::Prediction(1)));
    assert_eq!(world.env.effects[2], persistent_write(DataKey::MarketAnalytics(1)));
    assert_eq!(world.env.effects[3], instance_write(DataKey::PredictionCount));
    assert_eq!(world.env.effects.len(), 5);

    world.buy(user, market_id, 0, 600);
    let bets = DataKey::UserBets(UserMarketKey { user, market_id });
    assert_eq!(world.env.effects[2], persistent_write(bets));
    assert_eq!(world.env.effects[3], persistent_write(DataKey::UserMarketIds(user)));
    assert_eq!(world.env.effects[4], persistent_write(DataKey::MarketAnalytics(1)));
    assert_eq!(world.env.effects[5], persistent_write(DataKey::MarketLiquidity(1)));
    assert_eq!(world.env.effects[6], instance_write(DataKey::TotalValueLocked));
    assert_eq!(world.env.effects[7], persistent_write(DataKey::Prediction(1)));

    // The list of the user's markets is written with the first bet only.
    world.buy(user, market_id, 0, 400);
    assert_eq!(world.env.effects[3], persistent_write(DataKey::MarketAnalytics(1)));
    assert_eq!(world.env.effects.len(), 8);

    world.call(|env| PredictionHub::resolve_prediction(env, admin, market_id, 0)).unwrap();
    assert_eq!(
        world.env.effects,
        vec![
            Effect::RequireAuth(admin),
            persistent_write(DataKey::Prediction(1)),
            persistent_write(DataKey::PayoutPool(1)),
            persistent_write(DataKey::MarketLiquidity(1)),
            instance_write(DataKey::TotalValueLocked),
            Effect::Transfer { token, from: hub, to: recipient, amount: 50 },
            Effect::Publish(Event::MarketResolved(MarketResolved {
                market_id,
                resolver: admin,
                winning_choice: 0,
                payout_pool: 950,
            })),
        ],
    );

    world.call(|env| PredictionHub::claim(env, user, market_id)).unwrap();
    assert_eq!(
        world.env.effects,
        vec![
            Effect::RequireAuth(user),
            persistent_write(bets),
            Effect::Transfer { token, from: hub, to: user, amount: 950 },
            Effect::Publish(Event::WinningsClaimed(WinningsClaimed {
                market_id,
                user,
                amount: 950,
            })),
        ],
    );

    world.call(|env| PredictionHub::remove_all_predictions(env, admin)).unwrap();
    assert_eq!(
        world.env.effects,
        vec![
            Effect::RequireAuth(admin),
            // Once for each of the two stakes in the trail.
            Effect::RemovePersistent { key: bets },
            Effect::RemovePersistent { key: DataKey::UserMarketIds(user) },
            Effect::RemovePersistent { key: bets },
            Effect::RemovePersistent { key: DataKey::UserMarketIds(user) },
            Effect::RemovePersistent { key: DataKey::Prediction(1) },
            Effect::RemovePersistent { key: DataKey::MarketAnalytics(1) },
            Effect::RemovePersistent { key: DataKey::MarketLiquidity(1) },
            Effect::RemovePersistent { key: DataKey::PayoutPool(1) },
            instance_write(DataKey::PredictionCount),
            instance_write(DataKey::TotalValueLocked),
        ],
    );
}
