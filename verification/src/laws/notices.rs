//! What off-chain consumers learn of the calls.

use vstd::prelude::*;

use crate::admin::removal_requests;
use crate::betting::bet_requests;
use crate::env::{instance_write, Effect, EnvView};
use crate::events::{
    BetPlaced, EmergencyPaused, Event, FeeRecipientUpdated, Initialized, MarketCreated,
    MarketResolved, MarketToggled, ModeratorUpdated, PlatformFeeUpdated, WinningsClaimed,
};
use crate::laws::calls::{actor, after, refusal, Call};
use crate::laws::solvency::{lemma_removal_only_removes, requests_of};
use crate::queries::prediction_count;
use crate::settlement::{claim_requests, claim_result, resolution_requests};
use crate::types::DataKey;

verus! {

/// The event that tells of an accepted call, where there is one.
pub open spec fn notice(env: EnvView, call: Call) -> Option<Event> {
    match call {
        Call::Initialize { admin, token, .. } => Some(
            Event::Initialized(Initialized { admin, token }),
        ),
        Call::CreatePredictions { creator, title, end_time, market_type, .. } => Some(
            Event::MarketCreated(
                MarketCreated {
                    market_id: (prediction_count(env) + 1) as u32,
                    creator,
                    title,
                    end_time,
                    market_type,
                },
            ),
        ),
        Call::BuyShares { user, market_id, choice, amount } => Some(
            Event::BetPlaced(BetPlaced { market_id, user, choice, amount }),
        ),
        Call::ResolvePrediction { resolver, market_id, winning_choice } => Some(
            Event::MarketResolved(
                MarketResolved {
                    market_id,
                    resolver,
                    winning_choice,
                    payout_pool: after(env, call).persistent.payout_pool[market_id],
                },
            ),
        ),
        Call::Claim { user, market_id } => Some(
            Event::WinningsClaimed(
                WinningsClaimed {
                    market_id,
                    user,
                    amount: claim_result(env, user, market_id)->Ok_0,
                },
            ),
        ),
        Call::AddModerator { moderator, .. } => Some(
            Event::ModeratorUpdated(ModeratorUpdated { moderator, enabled: true }),
        ),
        Call::RemoveModerator { moderator, .. } => Some(
            Event::ModeratorUpdated(ModeratorUpdated { moderator, enabled: false }),
        ),
        Call::SetFeeRecipient { recipient, .. } => Some(
            Event::FeeRecipientUpdated(FeeRecipientUpdated { recipient }),
        ),
        Call::SetPlatformFee { platform_fee, .. } => Some(
            Event::PlatformFeeUpdated(PlatformFeeUpdated { platform_fee }),
        ),
        Call::ToggleMarketStatus { market_id, .. } => Some(
            Event::MarketToggled(
                MarketToggled {
                    market_id,
                    is_open: after(env, call).persistent.predictions[market_id].is_open,
                },
            ),
        ),
        Call::EmergencyPause { .. } => Some(
            Event::EmergencyPaused(EmergencyPaused { paused: true }),
        ),
        Call::EmergencyUnpause { .. } => Some(
            Event::EmergencyPaused(EmergencyPaused { paused: false }),
        ),
        _ => None,
    }
}

/// Whether a list of requests publishes `event` at its end and nothing before.
pub open spec fn publishes_last(requests: Seq<Effect>, event: Event) -> bool {
    &&& requests.len() > 0
    &&& requests.last() == Effect::Publish(event)
    &&& publishes_nothing(requests.drop_last())
}

/// Whether a list of requests publishes nothing.
pub open spec fn publishes_nothing(requests: Seq<Effect>) -> bool {
    forall|i: int| 0 <= i < requests.len() ==> !(#[trigger] requests[i] is Publish)
}

/// An accepted call publishes the event that tells of it, once everything else
/// is done, and no other event. Calls without such an event publish nothing.
pub proof fn law_accepted_call_is_published(env: EnvView, call: Call)
    requires
        refusal(env, call) is None,
    ensures
        match notice(env, call) {
            Some(event) => publishes_last(requests_of(env, call), event),
            None => publishes_nothing(requests_of(env, call)),
        },
{
    let requests = requests_of(env, call);
    if call is RemoveAllPredictions {
        let removals = removal_requests(env.persistent, prediction_count(env) as nat);
        lemma_removal_only_removes(env.persistent, prediction_count(env) as nat);
        assert(requests =~= seq![Effect::RequireAuth(actor(call))] + removals + seq![
            instance_write(DataKey::PredictionCount),
            instance_write(DataKey::TotalValueLocked),
        ]);
        assert forall|i: int| 0 <= i < requests.len() implies !(#[trigger] requests[i] is Publish) by {
            if 1 <= i < 1 + removals.len() {
                assert(requests[i] == removals[i - 1]);
            }
        }
    } else if call is BuyShares {
        assert(requests =~= bet_requests(
            env,
            call->BuyShares_user,
            call->BuyShares_market_id,
            call->BuyShares_choice,
            call->BuyShares_amount,
        ));
    } else if call is ResolvePrediction {
        assert(requests =~= resolution_requests(
            env,
            call->resolver,
            call->ResolvePrediction_market_id,
            call->winning_choice,
        ));
    } else if call is Claim {
        assert(requests =~= claim_requests(env, call->Claim_user, call->Claim_market_id));
    } else if call is Initialize || call is CreatePredictions || call is ToggleMarketStatus {
        assert(publishes_last(requests, notice(env, call)->Some_0));
    } else if call is AddModerator || call is RemoveModerator {
        assert(publishes_last(requests, notice(env, call)->Some_0));
    } else {
    }
}

/// A refused call publishes nothing.
pub proof fn law_refused_call_is_silent(env: EnvView, call: Call)
    requires
        refusal(env, call) is Some,
    ensures
        publishes_nothing(requests_of(env, call)),
{
}

} // verus!
