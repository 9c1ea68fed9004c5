//! Creating markets, and opening and closing them.

use vstd::prelude::*;

use crate::access::{
    assert_moderator_or_admin, assert_not_paused, pause_check, staff_check, value_or,
};
use crate::env::{instance_write, persistent_write, Effect, Env, EnvView, Instance, PersistentView};
use crate::error::HubError;
use crate::events::{Event, MarketCreated, MarketToggled};
use crate::hub::PredictionHub;
use crate::types::{Activity, Address, Choice, DataKey, Market, MarketView};

verus! {

/// Upper bound on the number of choices supported per market.
pub const MAX_CHOICES: u32 = 32;

/// Who may create a market, and when: settled before the creator is asked to
/// authorise.
pub open spec fn creator_check(env: EnvView, creator: Address) -> Result<(), HubError> {
    if pause_check(env) is Err {
        pause_check(env)
    } else if value_or(env.instance.market_creation_paused, false) {
        Err(HubError::MarketCreationPaused)
    } else {
        staff_check(env, creator)
    }
}

/// What must hold of the new market. A duration limit of zero is no limit.
pub open spec fn terms_check(
    env: EnvView,
    title: String,
    choices: Seq<String>,
    end_time: u64,
) -> Result<(), HubError> {
    let min_duration = value_or(env.instance.min_market_duration, 0);
    let max_duration = value_or(env.instance.max_market_duration, 0);
    let duration = end_time - env.timestamp;
    if title@.len() == 0 {
        Err(HubError::TitleRequired)
    } else if choices.len() == 0 || choices.len() > MAX_CHOICES {
        Err(HubError::InvalidChoiceCount)
    } else if duration <= 0 {
        Err(HubError::EndTimeNotInFuture)
    } else if min_duration > 0 && duration < min_duration {
        Err(HubError::DurationTooShort)
    } else if max_duration > 0 && duration > max_duration {
        Err(HubError::DurationTooLong)
    } else if value_or(env.instance.prediction_count, 0) == u32::MAX {
        Err(HubError::Overflow)
    } else {
        Ok(())
    }
}

/// The id of the next market.
pub open spec fn next_market_id(env: EnvView) -> u32 {
    (value_or(env.instance.prediction_count, 0) + 1) as u32
}

/// What [`PredictionHub::create_predictions`] answers: the id of the market.
pub open spec fn create_result(
    env: EnvView,
    creator: Address,
    title: String,
    choices: Seq<String>,
    end_time: u64,
) -> Result<u32, HubError> {
    if creator_check(env, creator) is Err {
        Err(creator_check(env, creator)->Err_0)
    } else if terms_check(env, title, choices, end_time) is Err {
        Err(terms_check(env, title, choices, end_time)->Err_0)
    } else {
        Ok(next_market_id(env))
    }
}

/// A choice nobody has staked on yet.
pub open spec fn fresh_choice(label: String) -> Choice {
    Choice { label, staked_amount: 0 }
}

/// A market nobody has staked on yet.
pub open spec fn fresh_market(
    market_id: u32,
    creator: Address,
    title: String,
    description: String,
    choices: Seq<String>,
    category: String,
    end_time: u64,
    market_type: u32,
    image_url: String,
) -> MarketView {
    MarketView {
        market_id,
        creator,
        title,
        description,
        category,
        choices: choices.map_values(|label: String| fresh_choice(label)),
        end_time,
        is_open: true,
        is_resolved: false,
        winning_choice: None,
        total_pool: 0,
        market_type,
        image_url,
    }
}

/// The storage after `market` is added.
pub open spec fn market_added(env: EnvView, market: MarketView) -> EnvView {
    EnvView {
        instance: Instance { prediction_count: Some(market.market_id), ..env.instance },
        persistent: PersistentView {
            predictions: env.persistent.predictions.insert(market.market_id, market),
            market_analytics: env.persistent.market_analytics.insert(
                market.market_id,
                Seq::empty(),
            ),
            ..env.persistent
        },
        ..env
    }
}

/// What is asked of the host when `market` is added, in order.
pub open spec fn creation_requests(market: MarketView) -> Seq<Effect> {
    seq![
        Effect::RequireAuth(market.creator),
        persistent_write(DataKey::Prediction(market.market_id)),
        persistent_write(DataKey::MarketAnalytics(market.market_id)),
        instance_write(DataKey::PredictionCount),
        Effect::Publish(
            Event::MarketCreated(
                MarketCreated {
                    market_id: market.market_id,
                    creator: market.creator,
                    title: market.title,
                    end_time: market.end_time,
                    market_type: market.market_type,
                },
            ),
        ),
    ]
}

/// The world after [`PredictionHub::create_predictions`].
pub open spec fn create_env(
    env: EnvView,
    creator: Address,
    title: String,
    description: String,
    choices: Seq<String>,
    category: String,
    end_time: u64,
    market_type: u32,
    image_url: String,
) -> EnvView {
    let market = fresh_market(
        next_market_id(env),
        creator,
        title,
        description,
        choices,
        category,
        end_time,
        market_type,
        image_url,
    );
    if creator_check(env, creator) is Err {
        env
    } else if terms_check(env, title, choices, end_time) is Err {
        env.asking(seq![Effect::RequireAuth(creator)])
    } else {
        market_added(env, market).asking(creation_requests(market))
    }
}

/// What [`PredictionHub::toggle_market_status`] answers.
pub open spec fn toggle_result(env: EnvView, who: Address, market_id: u32) -> Result<(), HubError> {
    if staff_check(env, who) is Err {
        staff_check(env, who)
    } else if !env.persistent.predictions.contains_key(market_id) {
        Err(HubError::MarketNotFound)
    } else {
        Ok(())
    }
}

/// The world after [`PredictionHub::toggle_market_status`].
pub open spec fn toggle_env(env: EnvView, who: Address, market_id: u32) -> EnvView {
    if staff_check(env, who) is Err {
        env
    } else if !env.persistent.predictions.contains_key(market_id) {
        env.asking(seq![Effect::RequireAuth(who)])
    } else {
        let market = env.persistent.predictions[market_id];
        EnvView {
            persistent: PersistentView {
                predictions: env.persistent.predictions.insert(
                    market_id,
                    MarketView { is_open: !market.is_open, ..market },
                ),
                ..env.persistent
            },
            ..env
        }.asking(
            seq![
                Effect::RequireAuth(who),
                persistent_write(DataKey::Prediction(market_id)),
                Effect::Publish(
                    Event::MarketToggled(MarketToggled { market_id, is_open: !market.is_open }),
                ),
            ],
        )
    }
}

/// Refuses a market whose terms are not acceptable.
fn assert_terms(env: &Env, title: &String, choices: &Vec<String>, end_time: u64) -> (result: Result<
    (),
    HubError,
>)
    ensures
        result == terms_check(env@, *title, choices@, end_time),
{
    if title.as_str().is_empty() {
        return Err(HubError::TitleRequired);
    }
    if choices.is_empty() || choices.len() > MAX_CHOICES as usize {
        return Err(HubError::InvalidChoiceCount);
    }
    let now: u64 = env.timestamp;
    if end_time <= now {
        return Err(HubError::EndTimeNotInFuture);
    }
    let min_duration: u64 = env.instance.min_market_duration.unwrap_or(0);
    let max_duration: u64 = env.instance.max_market_duration.unwrap_or(0);
    let duration: u64 = end_time - now;
    if min_duration > 0 && duration < min_duration {
        return Err(HubError::DurationTooShort);
    }
    if max_duration > 0 && duration > max_duration {
        return Err(HubError::DurationTooLong);
    }
    if env.instance.prediction_count.unwrap_or(0) == u32::MAX {
        return Err(HubError::Overflow);
    }
    Ok(())
}

/// The choices of a new market, in the order of their labels.
fn fresh_choices(labels: &Vec<String>) -> (choices: Vec<Choice>)
    ensures
        choices@ == labels@.map_values(|label: String| fresh_choice(label)),
{
    let mut choices: Vec<Choice> = Vec::new();
    let mut i: usize = 0;
    while i < labels.len()
        invariant
            i <= labels.len(),
            choices.len() == i,
            forall|j: int| 0 <= j < i ==> #[trigger] choices@[j] == fresh_choice(labels@[j]),
        decreases labels.len() - i,
    {
        choices.push(Choice { label: labels[i].clone(), staked_amount: 0 });
        i = i + 1;
    }
    choices
}

impl PredictionHub {
    /// Creates a new prediction market and returns its id. Only moderators and
    /// the admin may create markets.
    pub fn create_predictions(
        env: &mut Env,
        creator: Address,
        title: String,
        description: String,
        choices: Vec<String>,
        category: String,
        end_time: u64,
        market_type: u32,
        image_url: String,
    ) -> (result: Result<u32, HubError>)
        ensures
            result == create_result(old(env)@, creator, title, choices@, end_time),
            final(env)@ == create_env(
                old(env)@,
                creator,
                title,
                description,
                choices@,
                category,
                end_time,
                market_type,
                image_url,
            ),
    {
        assert_not_paused(env)?;
        if env.instance.market_creation_paused.unwrap_or(false) {
            return Err(HubError::MarketCreationPaused);
        }
        assert_moderator_or_admin(env, &creator)?;
        env.ask(Effect::RequireAuth(creator));
        assert_terms(env, &title, &choices, end_time)?;

        let count: u32 = env.instance.prediction_count.unwrap_or(0) + 1;
        let market_choices: Vec<Choice> = fresh_choices(&choices);
        let event_title = title.clone();
        let market = Market {
            market_id: count,
            creator,
            title,
            description,
            category,
            choices: market_choices,
            end_time,
            is_open: true,
            is_resolved: false,
            winning_choice: None,
            total_pool: 0,
            market_type,
            image_url,
        };

        env.persistent.predictions.set(count, market);
        env.persistent_set(DataKey::Prediction(count));
        let empty_activity: Vec<Activity> = Vec::new();
        env.persistent.market_analytics.set(count, empty_activity);
        env.persistent_set(DataKey::MarketAnalytics(count));
        env.instance.prediction_count = Some(count);
        env.instance_set(DataKey::PredictionCount);

        env.ask(
            Effect::Publish(
                Event::MarketCreated(
                    MarketCreated {
                        market_id: count,
                        creator,
                        title: event_title,
                        end_time,
                        market_type,
                    },
                ),
            ),
        );
        Ok(count)
    }

    /// Opens or closes an individual market. Moderator or admin only.
    pub fn toggle_market_status(env: &mut Env, who: Address, market_id: u32) -> (result: Result<
        (),
        HubError,
    >)
        ensures
            result == toggle_result(old(env)@, who, market_id),
            final(env)@ == toggle_env(old(env)@, who, market_id),
    {
        assert_moderator_or_admin(env, &who)?;
        env.ask(Effect::RequireAuth(who));
        let mut market: Market = match env.persistent.predictions.get(market_id) {
            Some(market) => market.clone(),
            None => {
                return Err(HubError::MarketNotFound);
            },
        };
        let is_open = !market.is_open;
        market.is_open = is_open;
        env.persistent.predictions.set(market_id, market);
        env.persistent_set(DataKey::Prediction(market_id));
        env.ask(Effect::Publish(Event::MarketToggled(MarketToggled { market_id, is_open })));
        Ok(())
    }
}

} // verus!
