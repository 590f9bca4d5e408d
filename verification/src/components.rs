use vstd::prelude::*;
use spacetimedb::Identity;
use crate::table::KeyedRow;

verus! {

/// A player character, owned by one client identity.
pub struct PlayerComponent {
    pub entity_id: u64,
    pub owner_id: Identity,
    pub username: String,
    pub creation_time: u64,
}

pub struct PlayerView {
    pub entity_id: u64,
    pub owner_id: Identity,
    pub username: Seq<char>,
    pub creation_time: u64,
}

impl View for PlayerComponent {
    type V = PlayerView;

    open spec fn view(&self) -> PlayerView {
        PlayerView {
            entity_id: self.entity_id,
            owner_id: self.owner_id,
            username: self.username@,
            creation_time: self.creation_time,
        }
    }
}

impl KeyedRow for PlayerComponent {
    open spec fn key_of(v: PlayerView) -> u64 {
        v.entity_id
    }

    fn row_key(&self) -> (k: u64) {
        self.entity_id
    }
}

/// Whether a player is signed in.
#[derive(Clone, Copy, Debug, PartialEq, Eq, Structural)]
pub struct PlayerLoginComponent {
    pub entity_id: u64,
    pub logged_in: bool,
}

impl View for PlayerLoginComponent {
    type V = PlayerLoginComponent;

    open spec fn view(&self) -> PlayerLoginComponent {
        *self
    }
}

impl KeyedRow for PlayerLoginComponent {
    open spec fn key_of(v: PlayerLoginComponent) -> u64 {
        v.entity_id
    }

    fn row_key(&self) -> (k: u64) {
        self.entity_id
    }
}

/// The animation state of a player or a creature.
#[derive(Clone, Copy, Debug, PartialEq, Eq, Structural)]
pub struct AnimationComponent {
    pub entity_id: u64,
    pub moving: bool,
    pub action_target_entity_id: u64,
}

impl View for AnimationComponent {
    type V = AnimationComponent;

    open spec fn view(&self) -> AnimationComponent {
        *self
    }
}

impl KeyedRow for AnimationComponent {
    open spec fn key_of(v: AnimationComponent) -> u64 {
        v.entity_id
    }

    fn row_key(&self) -> (k: u64) {
        self.entity_id
    }
}

/// A creature roaming the world.
pub struct NpcComponent {
    pub entity_id: u64,
    pub model: String,
    pub next_action: u64,
}

pub struct NpcView {
    pub entity_id: u64,
    pub model: Seq<char>,
    pub next_action: u64,
}

impl View for NpcComponent {
    type V = NpcView;

    open spec fn view(&self) -> NpcView {
        NpcView { entity_id: self.entity_id, model: self.model@, next_action: self.next_action }
    }
}

impl KeyedRow for NpcComponent {
    open spec fn key_of(v: NpcView) -> u64 {
        v.entity_id
    }

    fn row_key(&self) -> (k: u64) {
        self.entity_id
    }
}

/// A harvestable resource node.
#[derive(Clone, Copy, Debug, PartialEq, Eq, Structural)]
pub struct ResourceComponent {
    pub entity_id: u64,
    pub health: u8,
    pub resource_id: u8,
    pub max_health: u8,
    pub item_yield_id: u8,
    pub item_yield_quantity: u8,
}

impl View for ResourceComponent {
    type V = ResourceComponent;

    open spec fn view(&self) -> ResourceComponent {
        *self
    }
}

impl KeyedRow for ResourceComponent {
    open spec fn key_of(v: ResourceComponent) -> u64 {
        v.entity_id
    }

    fn row_key(&self) -> (k: u64) {
        self.entity_id
    }
}

/// A trade between two players, with one offer inventory for each.
#[derive(Clone, Copy, Debug, PartialEq, Eq, Structural)]
pub struct TradeSessionComponent {
    pub entity_id: u64,
    pub initiator_entity_id: u64,
    pub acceptor_entity_id: u64,
    pub acceptor_offer_inventory_entity_id: u64,
    pub initiator_offer_inventory_entity_id: u64,
    pub approved_by_initiator: bool,
    pub approved_by_acceptor: bool,
}

impl View for TradeSessionComponent {
    type V = TradeSessionComponent;

    open spec fn view(&self) -> TradeSessionComponent {
        *self
    }
}

impl KeyedRow for TradeSessionComponent {
    open spec fn key_of(v: TradeSessionComponent) -> u64 {
        v.entity_id
    }

    fn row_key(&self) -> (k: u64) {
        self.entity_id
    }
}

/// Marks a player as taking part in a trade session.
#[derive(Clone, Copy, Debug, PartialEq, Eq, Structural)]
pub struct ActiveTradeComponent {
    pub entity_id: u64,
    pub trade_session_entity_id: u64,
}

impl View for ActiveTradeComponent {
    type V = ActiveTradeComponent;

    open spec fn view(&self) -> ActiveTradeComponent {
        *self
    }
}

impl KeyedRow for ActiveTradeComponent {
    open spec fn key_of(v: ActiveTradeComponent) -> u64 {
        v.entity_id
    }

    fn row_key(&self) -> (k: u64) {
        self.entity_id
    }
}

/// Server-wide counters, one row per version; the entity counter of version 0
/// numbers trade sessions.
#[derive(Clone, Copy, Debug, PartialEq, Eq, Structural)]
pub struct ServerGlobals {
    pub version: u32,
    pub entity_id_counter: u64,
}

impl View for ServerGlobals {
    type V = ServerGlobals;

    open spec fn view(&self) -> ServerGlobals {
        *self
    }
}

impl KeyedRow for ServerGlobals {
    open spec fn key_of(v: ServerGlobals) -> u64 {
        v.version as u64
    }

    fn row_key(&self) -> (k: u64) {
        self.version as u64
    }
}

/// A chat line sent by a player.
pub struct PlayerChatMessage {
    pub player_id: u64,
    pub msg_time: u64,
    pub message: String,
}

pub struct ChatMessageView {
    pub player_id: u64,
    pub msg_time: u64,
    pub message: Seq<char>,
}

impl View for PlayerChatMessage {
    type V = ChatMessageView;

    open spec fn view(&self) -> ChatMessageView {
        ChatMessageView { player_id: self.player_id, msg_time: self.msg_time, message: self.message@ }
    }
}

} // verus!
