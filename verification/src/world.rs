use vstd::prelude::*;
use spacetimedb::Identity;
use crate::components::{
    ActiveTradeComponent, AnimationComponent, ChatMessageView, NpcComponent, NpcView,
    PlayerChatMessage, PlayerComponent, PlayerLoginComponent, PlayerView, ResourceComponent,
    ServerGlobals, TradeSessionComponent,
};
use crate::inventory::{counts_positive, pockets_wf, slots_unique, InventoryComponent, InventoryView, Pocket};
use crate::platform::same_identity;
use crate::table::Table;

verus! {

/// Why a reducer refused a request.
#[derive(Clone, Copy, Debug, PartialEq, Eq, Structural)]
pub enum ReducerError {
    /// The source slot index is not below the inventory size.
    InvalidSourcePocket(u32),
    /// The destination slot index is not below the inventory size.
    InvalidDestPocket(u32),
    /// The caller's identity does not own the player.
    NotPlayerOwner,
    /// The player may not modify that inventory.
    InventoryNotAllowed,
    /// The inventory refused the items.
    AddToInventoryFailed,
    /// The current time lies before the Unix epoch.
    NoCreationTime,
    /// The current time lies before the Unix epoch.
    NoMessageTime,
    /// The player's inventory refused to give up the traded items.
    RemoveFromPlayerInventoryFailed,
    /// The trade offer refused the items.
    AddToTradeWindowFailed,
    /// The trade offer refused to give up the items.
    RemoveFromTradeInventoryFailed,
    /// The player's inventory refused the items taken back from the trade.
    AddToPlayerInventoryFailed,
    /// The player is neither side of its trade session.
    NotInTradeSession,
}

/// The state of every table the game logic reads or writes, and the last
/// value drawn from each auto-increment sequence.
pub struct WorldView {
    pub players: Map<u64, PlayerView>,
    pub logins: Map<u64, PlayerLoginComponent>,
    pub inventories: Map<u64, InventoryView>,
    pub trades: Map<u64, TradeSessionComponent>,
    pub active_trades: Map<u64, ActiveTradeComponent>,
    pub resources: Map<u64, ResourceComponent>,
    pub animations: Map<u64, AnimationComponent>,
    pub npcs: Map<u64, NpcView>,
    pub globals: Map<u64, ServerGlobals>,
    pub chat: Seq<ChatMessageView>,
    pub player_seq: u64,
    pub npc_seq: u64,
    pub inventory_seq: u64,
}

impl WorldView {
    /// The world with `inv` stored under its own id.
    pub open spec fn with_inventory(self, inv: InventoryView) -> WorldView {
        WorldView { inventories: self.inventories.insert(inv.entity_id, inv), ..self }
    }

    /// The world with the pockets of inventory `id` replaced.
    pub open spec fn with_pockets(self, id: u64, pockets: Seq<Pocket>) -> WorldView {
        self.with_inventory(InventoryView { entity_id: id, pockets })
    }

    /// Some player is owned by `owner`.
    pub open spec fn owner_has_player(self, owner: Identity) -> bool {
        exists|k: u64| self.players.contains_key(k) && #[trigger] self.players[k].owner_id == owner
    }

    /// The id of the player owned by `owner`.
    pub open spec fn player_of_owner(self, owner: Identity) -> u64 {
        choose|k: u64| self.players.contains_key(k) && #[trigger] self.players[k].owner_id == owner
    }

    /// Some player goes by `username`.
    pub open spec fn username_taken(self, username: Seq<char>) -> bool {
        exists|k: u64| self.players.contains_key(k) && #[trigger] self.players[k].username == username
    }

}

/// Owners and usernames are unique among players.
pub open spec fn players_distinct(players: Map<u64, PlayerView>) -> bool {
    forall|k1: u64, k2: u64|
        #![trigger players[k1], players[k2]]
        players.contains_key(k1) && players.contains_key(k2) && k1 != k2 ==> {
            &&& players[k1].owner_id != players[k2].owner_id
            &&& players[k1].username != players[k2].username
        }
}

/// Every row is stored under its own key.
pub open spec fn keys_match(w: WorldView) -> bool {
    &&& forall|k: u64| #[trigger] w.players.contains_key(k) ==> w.players[k].entity_id == k
    &&& forall|k: u64| #[trigger] w.logins.contains_key(k) ==> w.logins[k].entity_id == k
    &&& forall|k: u64| #[trigger] w.inventories.contains_key(k) ==> w.inventories[k].entity_id == k
    &&& forall|k: u64| #[trigger] w.trades.contains_key(k) ==> w.trades[k].entity_id == k
    &&& forall|k: u64| #[trigger] w.active_trades.contains_key(k) ==> w.active_trades[k].entity_id == k
    &&& forall|k: u64| #[trigger] w.resources.contains_key(k) ==> w.resources[k].entity_id == k
    &&& forall|k: u64| #[trigger] w.animations.contains_key(k) ==> w.animations[k].entity_id == k
    &&& forall|k: u64| #[trigger] w.npcs.contains_key(k) ==> w.npcs[k].entity_id == k
    &&& forall|k: u64| #[trigger] w.globals.contains_key(k) ==> w.globals[k].version as u64 == k
}

impl WorldView {
    /// What holds of every world state: unique owners and usernames, one
    /// pocket per inventory slot, and rows stored under their own keys.
    pub open spec fn valid(self) -> bool {
        &&& players_distinct(self.players)
        &&& inventories_wf(self.inventories)
        &&& keys_match(self)
    }
}

/// Every inventory keeps one pocket per slot, each with a positive count.
pub open spec fn inventories_wf(inventories: Map<u64, InventoryView>) -> bool {
    forall|k: u64| #[trigger] inventories.contains_key(k) ==> pockets_wf(inventories[k].pockets)
}

/// The game's tables.
pub struct World {
    players: Table<PlayerComponent>,
    logins: Table<PlayerLoginComponent>,
    inventories: Table<InventoryComponent>,
    trades: Table<TradeSessionComponent>,
    active_trades: Table<ActiveTradeComponent>,
    resources: Table<ResourceComponent>,
    animations: Table<AnimationComponent>,
    npcs: Table<NpcComponent>,
    globals: Table<ServerGlobals>,
    chat: Vec<PlayerChatMessage>,
    player_seq: u64,
    npc_seq: u64,
    inventory_seq: u64,
}

impl View for World {
    type V = WorldView;

    closed spec fn view(&self) -> WorldView {
        WorldView {
            players: self.players@,
            logins: self.logins@,
            inventories: self.inventories@,
            trades: self.trades@,
            active_trades: self.active_trades@,
            resources: self.resources@,
            animations: self.animations@,
            npcs: self.npcs@,
            globals: self.globals@,
            chat: self.chat@.map_values(|m: PlayerChatMessage| m@),
            player_seq: self.player_seq,
            npc_seq: self.npc_seq,
            inventory_seq: self.inventory_seq,
        }
    }
}

impl World {
    /// Every table keeps its keys unique, owners and usernames are unique
    /// among players, and every inventory keeps one pocket per slot.
    pub closed spec fn wf(&self) -> bool {
        &&& self.players.wf()
        &&& self.logins.wf()
        &&& self.inventories.wf()
        &&& self.trades.wf()
        &&& self.active_trades.wf()
        &&& self.resources.wf()
        &&& self.animations.wf()
        &&& self.npcs.wf()
        &&& self.globals.wf()
        &&& players_distinct(self.players@)
        &&& inventories_wf(self.inventories@)
    }

    /// A well-formed world is valid.
    pub proof fn lemma_valid(&self)
        requires
            self.wf(),
        ensures
            self@.valid(),
    {
        let w = self@;
        assert forall|k: u64| #[trigger] w.players.contains_key(k) implies w.players[k].entity_id == k by {
            self.players.lemma_key_of_row(k);
        }
        assert forall|k: u64| #[trigger] w.logins.contains_key(k) implies w.logins[k].entity_id == k by {
            self.logins.lemma_key_of_row(k);
        }
        assert forall|k: u64| #[trigger] w.inventories.contains_key(k) implies w.inventories[k].entity_id
            == k by {
            self.inventories.lemma_key_of_row(k);
        }
        assert forall|k: u64| #[trigger] w.trades.contains_key(k) implies w.trades[k].entity_id == k by {
            self.trades.lemma_key_of_row(k);
        }
        assert forall|k: u64| #[trigger] w.active_trades.contains_key(k) implies w.active_trades[k].entity_id
            == k by {
            self.active_trades.lemma_key_of_row(k);
        }
        assert forall|k: u64| #[trigger] w.resources.contains_key(k) implies w.resources[k].entity_id
            == k by {
            self.resources.lemma_key_of_row(k);
        }
        assert forall|k: u64| #[trigger] w.animations.contains_key(k) implies w.animations[k].entity_id
            == k by {
            self.animations.lemma_key_of_row(k);
        }
        assert forall|k: u64| #[trigger] w.npcs.contains_key(k) implies w.npcs[k].entity_id == k by {
            self.npcs.lemma_key_of_row(k);
        }
        assert forall|k: u64| #[trigger] w.globals.contains_key(k) implies w.globals[k].version as u64
            == k by {
            self.globals.lemma_key_of_row(k);
        }
    }

    /// A world whose tables are all empty and whose sequences are at zero.
    pub fn new() -> (w: World)
        ensures
            w.wf(),
            w@.players.is_empty(),
            w@.logins.is_empty(),
            w@.inventories.is_empty(),
            w@.trades.is_empty(),
            w@.active_trades.is_empty(),
            w@.resources.is_empty(),
            w@.animations.is_empty(),
            w@.npcs.is_empty(),
            w@.globals.is_empty(),
            w@.chat.len() == 0,
            w@.player_seq == 0,
            w@.npc_seq == 0,
            w@.inventory_seq == 0,
    {
        let w = World {
            players: Table::new(),
            logins: Table::new(),
            inventories: Table::new(),
            trades: Table::new(),
            active_trades: Table::new(),
            resources: Table::new(),
            animations: Table::new(),
            npcs: Table::new(),
            globals: Table::new(),
            chat: Vec::new(),
            player_seq: 0,
            npc_seq: 0,
            inventory_seq: 0,
        };
        assert(w@.chat =~= Seq::<ChatMessageView>::empty());
        w
    }

    /// Whether owners and usernames are unique among the players.
    fn check_players(players: &Table<PlayerComponent>) -> (r: bool)
        requires
            players.wf(),
        ensures
            r == (forall|k1: u64, k2: u64|
                #![trigger players@[k1], players@[k2]]
                players@.contains_key(k1) && players@.contains_key(k2) && k1 != k2 ==> {
                    &&& players@[k1].owner_id != players@[k2].owner_id
                    &&& players@[k1].username != players@[k2].username
                }),
    {
        let ghost s = players.entries();
        let n = players.len();
        let mut i: usize = 0;
        while i < n
            invariant
                players.wf(),
                s == players.entries(),
                n == s.len(),
                i <= n,
                forall|a: int, b: int|
                    #![trigger s[a], s[b]]
                    0 <= a < i && 0 <= b < n && a != b ==> s[a].owner_id != s[b].owner_id
                        && s[a].username != s[b].username,
            decreases n - i,
        {
            let mut j: usize = 0;
            while j < n
                invariant
                    players.wf(),
                    s == players.entries(),
                    n == s.len(),
                    i < n,
                    j <= n,
                    forall|b: int|
                        #![trigger s[b]]
                        0 <= b < j && b != i ==> s[i as int].owner_id != s[b].owner_id
                            && s[i as int].username != s[b].username,
                decreases n - j,
            {
                if j != i {
                    let pi = players.row_at(i);
                    let pj = players.row_at(j);
                    if same_identity(&pi.owner_id, &pj.owner_id) || pi.username == pj.username {
                        proof {
                            players.lemma_entry_in_view(i as int);
                            players.lemma_entry_in_view(j as int);
                            let k1 = s[i as int].entity_id;
                            let k2 = s[j as int].entity_id;
                            assert(k1 != k2);
                            assert(players@[k1] == s[i as int] && players@[k2] == s[j as int]);
                        }
                        return false;
                    }
                }
                j += 1;
            }
            i += 1;
        }
        proof {
            assert forall|k1: u64, k2: u64|
                #![trigger players@[k1], players@[k2]]
                players@.contains_key(k1) && players@.contains_key(k2) && k1 != k2 implies {
                    &&& players@[k1].owner_id != players@[k2].owner_id
                    &&& players@[k1].username != players@[k2].username
                } by {
                players.lemma_view_key_stored(k1);
                players.lemma_view_key_stored(k2);
                let a = choose|a: int| 0 <= a < s.len() && #[trigger] s[a].entity_id == k1;
                let b = choose|b: int| 0 <= b < s.len() && #[trigger] s[b].entity_id == k2;
                players.lemma_entry_in_view(a);
                players.lemma_entry_in_view(b);
            }
        }
        true
    }

    /// Whether every inventory keeps one pocket per slot, each with a positive count.
    fn check_inventories(inventories: &Table<InventoryComponent>) -> (r: bool)
        requires
            inventories.wf(),
        ensures
            r == (forall|k: u64| #[trigger]
                inventories@.contains_key(k) ==> pockets_wf(inventories@[k].pockets)),
    {
        let ghost s = inventories.entries();
        let n = inventories.len();
        let mut i: usize = 0;
        while i < n
            invariant
                inventories.wf(),
                s == inventories.entries(),
                n == s.len(),
                i <= n,
                forall|a: int| 0 <= a < i ==> pockets_wf(#[trigger] s[a].pockets),
            decreases n - i,
        {
            let inv = inventories.row_at(i);
            if !(Self::slots_distinct(&inv.pockets) && Self::counts_all_positive(&inv.pockets)) {
                proof {
                    inventories.lemma_entry_in_view(i as int);
                    let k = s[i as int].entity_id;
                    assert(inventories@[k] == s[i as int]);
                }
                return false;
            }
            i += 1;
        }
        proof {
            assert forall|k: u64| #[trigger]
                inventories@.contains_key(k) implies pockets_wf(inventories@[k].pockets) by {
                inventories.lemma_view_key_stored(k);
                let a = choose|a: int| 0 <= a < s.len() && #[trigger] s[a].entity_id == k;
                inventories.lemma_entry_in_view(a);
            }
        }
        true
    }

    fn counts_all_positive(pockets: &Vec<Pocket>) -> (r: bool)
        ensures
            r == counts_positive(pockets@),
    {
        let mut i: usize = 0;
        while i < pockets.len()
            invariant
                i <= pockets.len(),
                forall|a: int| 0 <= a < i ==> #[trigger] pockets@[a].item_count > 0,
            decreases pockets.len() - i,
        {
            if pockets[i].item_count <= 0 {
                return false;
            }
            i += 1;
        }
        true
    }

    fn slots_distinct(pockets: &Vec<Pocket>) -> (r: bool)
        ensures
            r == slots_unique(pockets@),
    {
        let n = pockets.len();
        let mut i: usize = 0;
        while i < n
            invariant
                n == pockets@.len(),
                i <= n,
                forall|a: int, b: int|
                    #![trigger pockets@[a], pockets@[b]]
                    0 <= a < i && 0 <= b < n && a != b ==> pockets@[a].pocket_idx
                        != pockets@[b].pocket_idx,
            decreases n - i,
        {
            let mut j: usize = 0;
            while j < n
                invariant
                    n == pockets@.len(),
                    i < n,
                    j <= n,
                    forall|b: int|
                        #![trigger pockets@[b]]
                        0 <= b < j && b != i ==> pockets@[i as int].pocket_idx != pockets@[b].pocket_idx,
                decreases n - j,
            {
                if j != i && pockets[i].pocket_idx == pockets[j].pocket_idx {
                    return false;
                }
                j += 1;
            }
            i += 1;
        }
        true
    }

    /// A world made of the given tables and sequence values, or `None` when
    /// two players share an owner or a username, or an inventory holds two
    /// pockets in one slot or a pocket without a positive count.
    pub fn assemble(
        players: Table<PlayerComponent>,
        logins: Table<PlayerLoginComponent>,
        inventories: Table<InventoryComponent>,
        trades: Table<TradeSessionComponent>,
        active_trades: Table<ActiveTradeComponent>,
        resources: Table<ResourceComponent>,
        animations: Table<AnimationComponent>,
        npcs: Table<NpcComponent>,
        globals: Table<ServerGlobals>,
        chat: Vec<PlayerChatMessage>,
        player_seq: u64,
        npc_seq: u64,
        inventory_seq: u64,
    ) -> (r: Option<World>)
        requires
            players.wf(),
            logins.wf(),
            inventories.wf(),
            trades.wf(),
            active_trades.wf(),
            resources.wf(),
            animations.wf(),
            npcs.wf(),
            globals.wf(),
        ensures
            r matches Some(w) ==> {
                &&& w.wf()
                &&& w@ == (WorldView {
                    players: players@,
                    logins: logins@,
                    inventories: inventories@,
                    trades: trades@,
                    active_trades: active_trades@,
                    resources: resources@,
                    animations: animations@,
                    npcs: npcs@,
                    globals: globals@,
                    chat: chat@.map_values(|m: PlayerChatMessage| m@),
                    player_seq,
                    npc_seq,
                    inventory_seq,
                })
            },
            r is None <==> !(forall|k1: u64, k2: u64|
                #![trigger players@[k1], players@[k2]]
                players@.contains_key(k1) && players@.contains_key(k2) && k1 != k2 ==> {
                    &&& players@[k1].owner_id != players@[k2].owner_id
                    &&& players@[k1].username != players@[k2].username
                }) || !(forall|k: u64| #[trigger]
                inventories@.contains_key(k) ==> pockets_wf(inventories@[k].pockets)),
    {
        if !Self::check_players(&players) || !Self::check_inventories(&inventories) {
            return None;
        }
        Some(
            World {
                players,
                logins,
                inventories,
                trades,
                active_trades,
                resources,
                animations,
                npcs,
                globals,
                chat,
                player_seq,
                npc_seq,
                inventory_seq,
            },
        )
    }

    pub fn players(&self) -> (r: &Table<PlayerComponent>)
        requires
            self.wf(),
        ensures
            r.wf(),
            r@ == self@.players,
    {
        &self.players
    }

    /// The login rows in storage order.
    pub closed spec fn login_rows(&self) -> Seq<PlayerLoginComponent> {
        self.logins.entries()
    }

    /// The creature rows in storage order.
    pub closed spec fn npc_rows(&self) -> Seq<NpcView> {
        self.npcs.entries()
    }

    pub fn logins(&self) -> (r: &Table<PlayerLoginComponent>)
        requires
            self.wf(),
        ensures
            r.wf(),
            r@ == self@.logins,
            r.entries() == self.login_rows(),
    {
        &self.logins
    }

    pub fn inventories(&self) -> (r: &Table<InventoryComponent>)
        requires
            self.wf(),
        ensures
            r.wf(),
            r@ == self@.inventories,
    {
        &self.inventories
    }

    pub fn trades(&self) -> (r: &Table<TradeSessionComponent>)
        requires
            self.wf(),
        ensures
            r.wf(),
            r@ == self@.trades,
    {
        &self.trades
    }

    pub fn active_trades(&self) -> (r: &Table<ActiveTradeComponent>)
        requires
            self.wf(),
        ensures
            r.wf(),
            r@ == self@.active_trades,
    {
        &self.active_trades
    }

    pub fn resources(&self) -> (r: &Table<ResourceComponent>)
        requires
            self.wf(),
        ensures
            r.wf(),
            r@ == self@.resources,
    {
        &self.resources
    }

    pub fn animations(&self) -> (r: &Table<AnimationComponent>)
        requires
            self.wf(),
        ensures
            r.wf(),
            r@ == self@.animations,
    {
        &self.animations
    }

    pub fn npcs(&self) -> (r: &Table<NpcComponent>)
        requires
            self.wf(),
        ensures
            r.wf(),
            r@ == self@.npcs,
            r.entries() == self.npc_rows(),
    {
        &self.npcs
    }

    pub fn globals(&self) -> (r: &Table<ServerGlobals>)
        requires
            self.wf(),
        ensures
            r.wf(),
            r@ == self@.globals,
    {
        &self.globals
    }

    pub fn chat(&self) -> (r: &Vec<PlayerChatMessage>)
        ensures
            r@.map_values(|m: PlayerChatMessage| m@) == self@.chat,
    {
        &self.chat
    }

    /// The last value drawn from the player, creature and inventory id
    /// sequences.
    pub fn sequences(&self) -> (r: (u64, u64, u64))
        ensures
            r == (self@.player_seq, self@.npc_seq, self@.inventory_seq),
    {
        (self.player_seq, self.npc_seq, self.inventory_seq)
    }

    /// Whether some player goes by `username`.
    pub fn username_taken(&self, username: &String) -> (r: bool)
        requires
            self.wf(),
        ensures
            r == self@.username_taken(username@),
    {
        let ghost s = self.players.entries();
        let n = self.players.len();
        let mut i: usize = 0;
        while i < n
            invariant
                self.wf(),
                s == self.players.entries(),
                n == s.len(),
                i <= n,
                forall|a: int| 0 <= a < i ==> (#[trigger] s[a]).username != username@,
            decreases n - i,
        {
            let p = self.players.row_at(i);
            if p.username == *username {
                proof {
                    self.players.lemma_entry_in_view(i as int);
                    let k = p.entity_id;
                    assert(self@.players.contains_key(k) && self@.players[k].username == username@);
                }
                return true;
            }
            i += 1;
        }
        proof {
            if self@.username_taken(username@) {
                let k = choose|k: u64| self@.players.contains_key(k) && #[trigger] self@.players[k].username == username@;
                self.players.lemma_view_key_stored(k);
                let a = choose|a: int| 0 <= a < s.len() && #[trigger] s[a].entity_id == k;
                self.players.lemma_entry_in_view(a);
            }
        }
        false
    }

    /// The player owned by `owner`, if any.
    pub fn player_by_owner(&self, owner: &Identity) -> (r: Option<&PlayerComponent>)
        requires
            self.wf(),
        ensures
            r is Some <==> self@.owner_has_player(*owner),
            r matches Some(p) ==> p.entity_id == self@.player_of_owner(*owner) && self@.players[p.entity_id]
                == p@,
    {
        let ghost s = self.players.entries();
        let n = self.players.len();
        let mut i: usize = 0;
        while i < n
            invariant
                self.wf(),
                s == self.players.entries(),
                n == s.len(),
                i <= n,
                forall|a: int| 0 <= a < i ==> (#[trigger] s[a]).owner_id != *owner,
            decreases n - i,
        {
            let p = self.players.row_at(i);
            if same_identity(&p.owner_id, owner) {
                proof {
                    self.players.lemma_entry_in_view(i as int);
                    let k = p.entity_id;
                    assert(self@.players[k] == s[i as int]);
                    assert(self@.players.contains_key(k) && self@.players[k].owner_id == *owner);
                    assert(self@.owner_has_player(*owner));
                    let c = self@.player_of_owner(*owner);
                    if c != k {
                        assert(self@.players[c].owner_id != self@.players[k].owner_id);
                    }
                }
                return Some(p);
            }
            i += 1;
        }
        proof {
            if self@.owner_has_player(*owner) {
                let k = self@.player_of_owner(*owner);
                self.players.lemma_view_key_stored(k);
                let a = choose|a: int| 0 <= a < s.len() && #[trigger] s[a].entity_id == k;
                self.players.lemma_entry_in_view(a);
            }
        }
        None
    }
}


/// Row-level reads and writes. Each one keeps the world well formed and
/// changes only the table it names.
impl World {
    pub fn player(&self, id: u64) -> (r: Option<&PlayerComponent>)
        requires
            self.wf(),
        ensures
            r is Some <==> self@.players.contains_key(id),
            r matches Some(p) ==> p@ == self@.players[id] && p.entity_id == id,
    {
        proof {
            if self.players@.contains_key(id) {
                self.players.lemma_key_of_row(id);
            }
        }
        self.players.find(id)
    }

    /// Stores a new player under `player.entity_id`; its id, owner and
    /// username must all be unused.
    pub fn insert_player(&mut self, player: PlayerComponent)
        requires
            old(self).wf(),
            !old(self)@.players.contains_key(player.entity_id),
            !old(self)@.owner_has_player(player.owner_id),
            !old(self)@.username_taken(player.username@),
        ensures
            final(self).wf(),
            final(self)@ == (WorldView {
                players: old(self)@.players.insert(player.entity_id, player@),
                ..old(self)@
            }),
    {
        let ghost old_players = self@.players;
        self.players.insert(player);
        proof {
            assert forall|k1: u64, k2: u64|
                #![trigger self@.players[k1], self@.players[k2]]
                self@.players.contains_key(k1) && self@.players.contains_key(k2) && k1 != k2 implies {
                    &&& self@.players[k1].owner_id != self@.players[k2].owner_id
                    &&& self@.players[k1].username != self@.players[k2].username
                } by {
                if k1 != player.entity_id && k2 != player.entity_id {
                    assert(old_players[k1] == self@.players[k1]);
                    assert(old_players[k2] == self@.players[k2]);
                } else if k1 == player.entity_id {
                    assert(old_players.contains_key(k2));
                } else {
                    assert(old_players.contains_key(k1));
                }
            }
        }
    }

    pub fn login(&self, id: u64) -> (r: Option<PlayerLoginComponent>)
        requires
            self.wf(),
        ensures
            r is Some <==> self@.logins.contains_key(id),
            r matches Some(l) ==> l == self@.logins[id] && l.entity_id == id,
    {
        proof {
            if self.logins@.contains_key(id) {
                self.logins.lemma_key_of_row(id);
            }
        }
        match self.logins.find(id) {
            Some(l) => Some(*l),
            None => None,
        }
    }

    /// Stores a login row; another row under its id must be absent or equal.
    pub fn insert_login(&mut self, row: PlayerLoginComponent)
        requires
            old(self).wf(),
            !old(self)@.logins.contains_key(row.entity_id) || old(self)@.logins[row.entity_id] == row,
        ensures
            final(self).wf(),
            final(self)@ == (WorldView { logins: old(self)@.logins.insert(row.entity_id, row), ..old(self)@ }),
    {
        self.logins.insert(row);
    }

    /// Replaces the login row under `row.entity_id`, which must exist.
    pub fn update_login(&mut self, row: PlayerLoginComponent)
        requires
            old(self).wf(),
            old(self)@.logins.contains_key(row.entity_id),
        ensures
            final(self).wf(),
            final(self)@ == (WorldView { logins: old(self)@.logins.insert(row.entity_id, row), ..old(self)@ }),
    {
        self.logins.update(row);
    }

    pub fn inventory(&self, id: u64) -> (r: Option<&InventoryComponent>)
        requires
            self.wf(),
        ensures
            r is Some <==> self@.inventories.contains_key(id),
            r matches Some(inv) ==> inv@ == self@.inventories[id] && inv.entity_id == id && inv.wf(),
    {
        proof {
            if self.inventories@.contains_key(id) {
                self.inventories.lemma_key_of_row(id);
            }
        }
        self.inventories.find(id)
    }

    /// Removes inventory `id` from the world and hands it out.
    pub fn take_inventory(&mut self, id: u64) -> (r: Option<InventoryComponent>)
        requires
            old(self).wf(),
        ensures
            final(self).wf(),
            r is Some <==> old(self)@.inventories.contains_key(id),
            r matches Some(inv) ==> inv@ == old(self)@.inventories[id] && inv.entity_id == id && inv.wf(),
            final(self)@ == (WorldView { inventories: old(self)@.inventories.remove(id), ..old(self)@ }),
    {
        proof {
            if self.inventories@.contains_key(id) {
                self.inventories.lemma_key_of_row(id);
            }
        }
        self.inventories.take(id)
    }

    /// Stores an inventory under its id; another inventory under that id must
    /// be absent or equal.
    pub fn insert_inventory(&mut self, inv: InventoryComponent)
        requires
            old(self).wf(),
            inv.wf(),
            !old(self)@.inventories.contains_key(inv.entity_id) || old(self)@.inventories[inv.entity_id]
                == inv@,
        ensures
            final(self).wf(),
            final(self)@ == old(self)@.with_inventory(inv@),
    {
        self.inventories.insert(inv);
    }

    /// Replaces the inventory under `inv.entity_id`, which must exist.
    pub fn update_inventory(&mut self, inv: InventoryComponent)
        requires
            old(self).wf(),
            inv.wf(),
            old(self)@.inventories.contains_key(inv.entity_id),
        ensures
            final(self).wf(),
            final(self)@ == old(self)@.with_inventory(inv@),
    {
        self.inventories.update(inv);
    }

    /// Deletes inventory `id`; tells whether it existed.
    pub fn delete_inventory(&mut self, id: u64) -> (r: bool)
        requires
            old(self).wf(),
        ensures
            final(self).wf(),
            r == old(self)@.inventories.contains_key(id),
            final(self)@ == (WorldView { inventories: old(self)@.inventories.remove(id), ..old(self)@ }),
    {
        self.inventories.delete(id)
    }

    pub fn trade(&self, id: u64) -> (r: Option<TradeSessionComponent>)
        requires
            self.wf(),
        ensures
            r is Some <==> self@.trades.contains_key(id),
            r matches Some(t) ==> t == self@.trades[id] && t.entity_id == id,
    {
        proof {
            if self.trades@.contains_key(id) {
                self.trades.lemma_key_of_row(id);
            }
        }
        match self.trades.find(id) {
            Some(t) => Some(*t),
            None => None,
        }
    }

    /// Stores a trade session; another one under its id must be absent or
    /// equal.
    pub fn insert_trade(&mut self, row: TradeSessionComponent)
        requires
            old(self).wf(),
            !old(self)@.trades.contains_key(row.entity_id) || old(self)@.trades[row.entity_id] == row,
        ensures
            final(self).wf(),
            final(self)@ == (WorldView { trades: old(self)@.trades.insert(row.entity_id, row), ..old(self)@ }),
    {
        self.trades.insert(row);
    }

    /// Replaces the trade session under `row.entity_id`, which must exist.
    pub fn update_trade(&mut self, row: TradeSessionComponent)
        requires
            old(self).wf(),
            old(self)@.trades.contains_key(row.entity_id),
        ensures
            final(self).wf(),
            final(self)@ == (WorldView { trades: old(self)@.trades.insert(row.entity_id, row), ..old(self)@ }),
    {
        self.trades.update(row);
    }

    pub fn delete_trade(&mut self, id: u64) -> (r: bool)
        requires
            old(self).wf(),
        ensures
            final(self).wf(),
            r == old(self)@.trades.contains_key(id),
            final(self)@ == (WorldView { trades: old(self)@.trades.remove(id), ..old(self)@ }),
    {
        self.trades.delete(id)
    }

    pub fn active_trade(&self, id: u64) -> (r: Option<ActiveTradeComponent>)
        requires
            self.wf(),
        ensures
            r is Some <==> self@.active_trades.contains_key(id),
            r matches Some(t) ==> t == self@.active_trades[id] && t.entity_id == id,
    {
        proof {
            if self.active_trades@.contains_key(id) {
                self.active_trades.lemma_key_of_row(id);
            }
        }
        match self.active_trades.find(id) {
            Some(t) => Some(*t),
            None => None,
        }
    }

    /// Stores an active-trade marker; another one under its id must be absent
    /// or equal.
    pub fn insert_active_trade(&mut self, row: ActiveTradeComponent)
        requires
            old(self).wf(),
            !old(self)@.active_trades.contains_key(row.entity_id) || old(self)@.active_trades[row.entity_id]
                == row,
        ensures
            final(self).wf(),
            final(self)@ == (WorldView {
                active_trades: old(self)@.active_trades.insert(row.entity_id, row),
                ..old(self)@
            }),
    {
        self.active_trades.insert(row);
    }

    pub fn delete_active_trade(&mut self, id: u64) -> (r: bool)
        requires
            old(self).wf(),
        ensures
            final(self).wf(),
            r == old(self)@.active_trades.contains_key(id),
            final(self)@ == (WorldView { active_trades: old(self)@.active_trades.remove(id), ..old(self)@ }),
    {
        self.active_trades.delete(id)
    }

    pub fn resource(&self, id: u64) -> (r: Option<ResourceComponent>)
        requires
            self.wf(),
        ensures
            r is Some <==> self@.resources.contains_key(id),
            r matches Some(t) ==> t == self@.resources[id] && t.entity_id == id,
    {
        proof {
            if self.resources@.contains_key(id) {
                self.resources.lemma_key_of_row(id);
            }
        }
        match self.resources.find(id) {
            Some(t) => Some(*t),
            None => None,
        }
    }

    /// Replaces the resource under `row.entity_id`, which must exist.
    pub fn update_resource(&mut self, row: ResourceComponent)
        requires
            old(self).wf(),
            old(self)@.resources.contains_key(row.entity_id),
        ensures
            final(self).wf(),
            final(self)@ == (WorldView { resources: old(self)@.resources.insert(row.entity_id, row), ..old(self)@ }),
    {
        self.resources.update(row);
    }

    pub fn delete_resource(&mut self, id: u64) -> (r: bool)
        requires
            old(self).wf(),
        ensures
            final(self).wf(),
            r == old(self)@.resources.contains_key(id),
            final(self)@ == (WorldView { resources: old(self)@.resources.remove(id), ..old(self)@ }),
    {
        self.resources.delete(id)
    }

    pub fn animation(&self, id: u64) -> (r: Option<AnimationComponent>)
        requires
            self.wf(),
        ensures
            r is Some <==> self@.animations.contains_key(id),
            r matches Some(t) ==> t == self@.animations[id] && t.entity_id == id,
    {
        proof {
            if self.animations@.contains_key(id) {
                self.animations.lemma_key_of_row(id);
            }
        }
        match self.animations.find(id) {
            Some(t) => Some(*t),
            None => None,
        }
    }

    /// Stores an animation row; another one under its id must be absent or
    /// equal.
    pub fn insert_animation(&mut self, row: AnimationComponent)
        requires
            old(self).wf(),
            !old(self)@.animations.contains_key(row.entity_id) || old(self)@.animations[row.entity_id] == row,
        ensures
            final(self).wf(),
            final(self)@ == (WorldView { animations: old(self)@.animations.insert(row.entity_id, row), ..old(self)@ }),
    {
        self.animations.insert(row);
    }

    /// Replaces the animation row under `row.entity_id`, which must exist.
    pub fn update_animation_row(&mut self, row: AnimationComponent)
        requires
            old(self).wf(),
            old(self)@.animations.contains_key(row.entity_id),
        ensures
            final(self).wf(),
            final(self)@ == (WorldView { animations: old(self)@.animations.insert(row.entity_id, row), ..old(self)@ }),
    {
        self.animations.update(row);
    }

    pub fn delete_animation(&mut self, id: u64) -> (r: bool)
        requires
            old(self).wf(),
        ensures
            final(self).wf(),
            r == old(self)@.animations.contains_key(id),
            final(self)@ == (WorldView { animations: old(self)@.animations.remove(id), ..old(self)@ }),
    {
        self.animations.delete(id)
    }

    pub fn npc(&self, id: u64) -> (r: Option<&NpcComponent>)
        requires
            self.wf(),
        ensures
            r is Some <==> self@.npcs.contains_key(id),
            r matches Some(n) ==> n@ == self@.npcs[id] && n.entity_id == id,
    {
        proof {
            if self.npcs@.contains_key(id) {
                self.npcs.lemma_key_of_row(id);
            }
        }
        self.npcs.find(id)
    }

    /// Removes creature `id` from the world and hands it out.
    pub fn take_npc(&mut self, id: u64) -> (r: Option<NpcComponent>)
        requires
            old(self).wf(),
        ensures
            final(self).wf(),
            r is Some <==> old(self)@.npcs.contains_key(id),
            r matches Some(n) ==> n@ == old(self)@.npcs[id] && n.entity_id == id,
            final(self)@ == (WorldView { npcs: old(self)@.npcs.remove(id), ..old(self)@ }),
    {
        proof {
            if self.npcs@.contains_key(id) {
                self.npcs.lemma_key_of_row(id);
            }
        }
        self.npcs.take(id)
    }

    /// Stores a creature; another one under its id must be absent or equal.
    pub fn insert_npc(&mut self, row: NpcComponent)
        requires
            old(self).wf(),
            !old(self)@.npcs.contains_key(row.entity_id) || old(self)@.npcs[row.entity_id] == row@,
        ensures
            final(self).wf(),
            final(self)@ == (WorldView { npcs: old(self)@.npcs.insert(row.entity_id, row@), ..old(self)@ }),
    {
        self.npcs.insert(row);
    }

    pub fn delete_npc(&mut self, id: u64) -> (r: bool)
        requires
            old(self).wf(),
        ensures
            final(self).wf(),
            r == old(self)@.npcs.contains_key(id),
            final(self)@ == (WorldView { npcs: old(self)@.npcs.remove(id), ..old(self)@ }),
    {
        self.npcs.delete(id)
    }

    /// Stores a globals row; another one of its version must be absent or
    /// equal.
    pub fn insert_globals(&mut self, row: ServerGlobals)
        requires
            old(self).wf(),
            !old(self)@.globals.contains_key(row.version as u64) || old(self)@.globals[row.version as u64]
                == row,
        ensures
            final(self).wf(),
            final(self)@ == (WorldView {
                globals: old(self)@.globals.insert(row.version as u64, row),
                ..old(self)@
            }),
    {
        self.globals.insert(row);
    }

    /// Adds a chat line at the end. The table holds a set of rows: a line
    /// identical to one already stored is not stored a second time.
    pub fn insert_chat(&mut self, row: PlayerChatMessage)
        ensures
            final(self).wf() == old(self).wf(),
            final(self)@ == (WorldView {
                chat: if old(self)@.chat.contains(row@) {
                    old(self)@.chat
                } else {
                    old(self)@.chat.push(row@)
                },
                ..old(self)@
            }),
    {
        let mut i: usize = 0;
        while i < self.chat.len()
            invariant
                i <= self.chat.len(),
                self.chat@ == old(self).chat@,
                forall|j: int| 0 <= j < i ==> #[trigger] self.chat@[j]@ != row@,
            decreases self.chat.len() - i,
        {
            let m = &self.chat[i];
            if m.player_id == row.player_id && m.msg_time == row.msg_time && m.message == row.message {
                assert(self@.chat[i as int] == row@);
                return;
            }
            i += 1;
        }
        let ghost old_chat = self@.chat;
        assert(!old_chat.contains(row@)) by {
            if old_chat.contains(row@) {
                let j = choose|j: int| 0 <= j < old_chat.len() && old_chat[j] == row@;
                assert(self.chat@[j]@ == row@);
            }
        }
        self.chat.push(row);
        assert(self@.chat =~= old_chat.push(row@));
    }

    /// The globals row of `version`.
    pub fn server_globals(&self, version: u64) -> (r: Option<ServerGlobals>)
        requires
            self.wf(),
        ensures
            r is Some <==> self@.globals.contains_key(version),
            r matches Some(g) ==> g == self@.globals[version] && g.version as u64 == version,
    {
        proof {
            if self.globals@.contains_key(version) {
                self.globals.lemma_key_of_row(version);
            }
        }
        match self.globals.find(version) {
            Some(g) => Some(*g),
            None => None,
        }
    }

    /// Replaces the globals row of `row.version`, which must exist.
    pub fn update_globals(&mut self, row: ServerGlobals)
        requires
            old(self).wf(),
            old(self)@.globals.contains_key(row.version as u64),
        ensures
            final(self).wf(),
            final(self)@ == (WorldView {
                globals: old(self)@.globals.insert(row.version as u64, row),
                ..old(self)@
            }),
    {
        self.globals.update(row);
    }

    /// Draws the next value of the player id sequence.
    pub fn next_player_id(&mut self) -> (r: u64)
        requires
            old(self)@.player_seq < u64::MAX,
        ensures
            final(self).wf() == old(self).wf(),
            r == old(self)@.player_seq + 1,
            final(self)@ == (WorldView { player_seq: r, ..old(self)@ }),
    {
        self.player_seq = self.player_seq + 1;
        self.player_seq
    }

    /// Draws the next value of the creature id sequence.
    pub fn next_npc_id(&mut self) -> (r: u64)
        requires
            old(self)@.npc_seq < u64::MAX,
        ensures
            final(self).wf() == old(self).wf(),
            r == old(self)@.npc_seq + 1,
            final(self)@ == (WorldView { npc_seq: r, ..old(self)@ }),
    {
        self.npc_seq = self.npc_seq + 1;
        self.npc_seq
    }

    /// Draws the next value of the inventory id sequence.
    pub fn next_inventory_id(&mut self) -> (r: u64)
        requires
            old(self)@.inventory_seq < u64::MAX,
        ensures
            final(self).wf() == old(self).wf(),
            r == old(self)@.inventory_seq + 1,
            final(self)@ == (WorldView { inventory_seq: r, ..old(self)@ }),
    {
        self.inventory_seq = self.inventory_seq + 1;
        self.inventory_seq
    }
}

} // verus!
