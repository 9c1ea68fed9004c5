//! The world a call sees and what it asks of it: the contract's own ledger
//! entries, the ledger clock, and the list of requests to the host.

use vstd::prelude::*;

use crate::events::Event;
use crate::table::Table;
use crate::types::{Activity, Address, DataKey, Market, MarketView, UserBet, UserMarketKey};

verus! {

/// A write extends the life of an entry that has fewer ledgers than this left ...
pub const TTL_THRESHOLD: u32 = 100;

/// ... to this many ledgers.
pub const TTL_EXTEND: u32 = 5_000_000;

/// The entries that live in the contract instance. `None` means that the entry
/// was never written.
#[derive(Clone, Copy, Debug, PartialEq, Eq, Structural)]
pub struct Instance {
    pub admin: Option<Address>,
    pub moderator_count: Option<u32>,
    pub prediction_count: Option<u32>,
    pub total_value_locked: Option<i128>,
    pub fee_recipient: Option<Address>,
    pub platform_fee: Option<i128>,
    pub protocol_token: Option<Address>,
    pub is_paused: Option<bool>,
    pub market_creation_paused: Option<bool>,
    pub betting_paused: Option<bool>,
    pub resolution_paused: Option<bool>,
    pub min_market_duration: Option<u64>,
    pub max_market_duration: Option<u64>,
    pub resolution_window: Option<u64>,
    pub min_bet_amount: Option<i128>,
    pub max_bet_amount: Option<i128>,
}

impl Instance {
    /// The instance entries of a contract that has not been initialised.
    pub open spec fn empty() -> Instance {
        Instance {
            admin: None,
            moderator_count: None,
            prediction_count: None,
            total_value_locked: None,
            fee_recipient: None,
            platform_fee: None,
            protocol_token: None,
            is_paused: None,
            market_creation_paused: None,
            betting_paused: None,
            resolution_paused: None,
            min_market_duration: None,
            max_market_duration: None,
            resolution_window: None,
            min_bet_amount: None,
            max_bet_amount: None,
        }
    }

    /// The instance entries of a contract that has not been initialised.
    pub fn new() -> (instance: Instance)
        ensures
            instance == Instance::empty(),
    {
        Instance {
            admin: None,
            moderator_count: None,
            prediction_count: None,
            total_value_locked: None,
            fee_recipient: None,
            platform_fee: None,
            protocol_token: None,
            is_paused: None,
            market_creation_paused: None,
            betting_paused: None,
            resolution_paused: None,
            min_market_duration: None,
            max_market_duration: None,
            resolution_window: None,
            min_bet_amount: None,
            max_bet_amount: None,
        }
    }
}

/// The entries with a life of their own, one table per family of keys.
#[derive(Debug)]
pub struct Persistent {
    pub moderators: Table<Address, bool>,
    pub predictions: Table<u32, Market>,
    pub user_bets: Table<UserMarketKey, Vec<UserBet>>,
    pub user_market_ids: Table<Address, Vec<u32>>,
    pub market_analytics: Table<u32, Vec<Activity>>,
    pub market_liquidity: Table<u32, i128>,
    pub payout_pool: Table<u32, i128>,
}

/// The value of [`Persistent`].
#[verifier::ext_equal]
pub struct PersistentView {
    pub moderators: Map<Address, bool>,
    pub predictions: Map<u32, MarketView>,
    pub user_bets: Map<UserMarketKey, Seq<UserBet>>,
    pub user_market_ids: Map<Address, Seq<u32>>,
    pub market_analytics: Map<u32, Seq<Activity>>,
    pub market_liquidity: Map<u32, i128>,
    pub payout_pool: Map<u32, i128>,
}

impl View for Persistent {
    type V = PersistentView;

    open spec fn view(&self) -> PersistentView {
        PersistentView {
            moderators: self.moderators@,
            predictions: self.predictions@,
            user_bets: self.user_bets@,
            user_market_ids: self.user_market_ids@,
            market_analytics: self.market_analytics@,
            market_liquidity: self.market_liquidity@,
            payout_pool: self.payout_pool@,
        }
    }
}

impl PersistentView {
    /// No entries at all.
    pub open spec fn empty() -> PersistentView {
        PersistentView {
            moderators: Map::empty(),
            predictions: Map::empty(),
            user_bets: Map::empty(),
            user_market_ids: Map::empty(),
            market_analytics: Map::empty(),
            market_liquidity: Map::empty(),
            payout_pool: Map::empty(),
        }
    }
}

impl Persistent {
    /// No entries at all.
    pub fn new() -> (persistent: Persistent)
        ensures
            persistent@ == PersistentView::empty(),
    {
        Persistent {
            moderators: Table::new(),
            predictions: Table::new(),
            user_bets: Table::new(),
            user_market_ids: Table::new(),
            market_analytics: Table::new(),
            market_liquidity: Table::new(),
            payout_pool: Table::new(),
        }
    }
}

/// A request to the host, in the order in which the host is to serve them.
/// The host aborts the whole call when it refuses an authorisation or when the
/// token contract refuses a transfer.
#[derive(Debug, PartialEq, Eq)]
pub enum Effect {
    /// Require that the address authorised this call.
    RequireAuth(Address),
    /// Let the token move `amount` from `from` to `to` on the allowance of `spender`.
    TransferFrom { token: Address, spender: Address, from: Address, to: Address, amount: i128 },
    /// Let the token move `amount` from `from` to `to`.
    Transfer { token: Address, from: Address, to: Address, amount: i128 },
    /// Store an instance entry and extend the life of the instance.
    SetInstance { key: DataKey, ttl_threshold: u32, ttl_extend: u32 },
    /// Store a persistent entry and extend its life.
    SetPersistent { key: DataKey, ttl_threshold: u32, ttl_extend: u32 },
    /// Delete a persistent entry.
    RemovePersistent { key: DataKey },
    /// Publish an event.
    Publish(Event),
    /// Replace the code of the contract.
    UpdateWasm { new_wasm_hash: [u8; 32] },
}

/// The request that goes with a write of an instance entry.
pub open spec fn instance_write(key: DataKey) -> Effect {
    Effect::SetInstance { key, ttl_threshold: TTL_THRESHOLD, ttl_extend: TTL_EXTEND }
}

/// The request that goes with a write of a persistent entry.
pub open spec fn persistent_write(key: DataKey) -> Effect {
    Effect::SetPersistent { key, ttl_threshold: TTL_THRESHOLD, ttl_extend: TTL_EXTEND }
}

/// What a call reads and writes.
#[derive(Debug)]
pub struct Env {
    pub instance: Instance,
    pub persistent: Persistent,
    /// The time of the current ledger.
    pub timestamp: u64,
    /// The address of this contract.
    pub contract: Address,
    /// What has been asked of the host so far.
    pub effects: Vec<Effect>,
}

/// The value of [`Env`].
#[verifier::ext_equal]
pub struct EnvView {
    pub instance: Instance,
    pub persistent: PersistentView,
    pub timestamp: u64,
    pub contract: Address,
    pub effects: Seq<Effect>,
}

impl View for Env {
    type V = EnvView;

    open spec fn view(&self) -> EnvView {
        EnvView {
            instance: self.instance,
            persistent: self.persistent@,
            timestamp: self.timestamp,
            contract: self.contract,
            effects: self.effects@,
        }
    }
}

impl EnvView {
    /// The same storage, with more asked of the host.
    pub open spec fn asking(self, requests: Seq<Effect>) -> EnvView {
        EnvView { effects: self.effects + requests, ..self }
    }
}

impl Env {
    /// The world of a contract that has not been initialised.
    pub fn new(contract: Address, timestamp: u64) -> (env: Env)
        ensures
            env@ == (EnvView {
                instance: Instance::empty(),
                persistent: PersistentView::empty(),
                timestamp,
                contract,
                effects: Seq::empty(),
            }),
    {
        Env {
            instance: Instance::new(),
            persistent: Persistent::new(),
            timestamp,
            contract,
            effects: Vec::new(),
        }
    }

    /// Asks one thing of the host.
    pub fn ask(&mut self, request: Effect)
        ensures
            final(self)@ == old(self)@.asking(seq![request]),
            final(self).persistent == old(self).persistent,
    {
        self.effects.push(request);
    }

    /// Asks the host to store the instance entry `key`.
    pub fn instance_set(&mut self, key: DataKey)
        ensures
            final(self)@ == old(self)@.asking(seq![instance_write(key)]),
            final(self).persistent == old(self).persistent,
    {
        self.ask(
            Effect::SetInstance { key, ttl_threshold: TTL_THRESHOLD, ttl_extend: TTL_EXTEND },
        );
    }

    /// Asks the host to store the persistent entry `key`.
    pub fn persistent_set(&mut self, key: DataKey)
        ensures
            final(self)@ == old(self)@.asking(seq![persistent_write(key)]),
            final(self).persistent == old(self).persistent,
    {
        self.ask(
            Effect::SetPersistent { key, ttl_threshold: TTL_THRESHOLD, ttl_extend: TTL_EXTEND },
        );
    }
}

} // verus!
