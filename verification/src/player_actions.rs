use vstd::prelude::*;
use spacetimedb::Identity;
use crate::components::{
    AnimationComponent, PlayerChatMessage, PlayerComponent, PlayerLoginComponent, ResourceComponent,
    ServerGlobals,
};
use crate::inventory::{
    add_items, has_pocket, pocket_at, with_pocket, without_pocket, InventoryComponent, InventoryView,
    Pocket,
};
use crate::platform::same_identity;
use crate::trade::{cancel_outcome, cancel_requires, cancel_trade_session_with_participant};
use crate::world::{ReducerError, World, WorldView};

verus! {

/// Whole milliseconds since the Unix epoch of the instant `micros`
/// microseconds after it; `None` for an instant before the epoch.
fn millis_since_unix_epoch(micros: i64) -> (r: Option<u64>)
    ensures
        r == (if micros >= 0 { Some((micros / 1000) as u64) } else { None::<u64> }),
{
    if micros >= 0 {
        Some((micros / 1000) as u64)
    } else {
        None
    }
}

/// `r` and the world after a call agree with `outcome`: an `Ok` world is the
/// new state, an error leaves the world as it was (the database rolls back a
/// reducer that fails).
pub open spec fn applied<T>(
    r: Result<T, ReducerError>,
    before: WorldView,
    after: WorldView,
    outcome: Result<WorldView, ReducerError>,
) -> bool {
    match outcome {
        Ok(w) => r is Ok && after == w,
        Err(e) => r == Err::<T, ReducerError>(e) && after == before,
    }
}

/// Inventory `iid` is one of the two offers of the trade session that player
/// `pid` takes part in, as one of its sides.
pub open spec fn inventory_in_players_trade(w: WorldView, pid: u64, iid: u64) -> bool {
    &&& w.active_trades.contains_key(pid)
    &&& w.trades.contains_key(w.active_trades[pid].trade_session_entity_id)
    &&& {
        let s = w.trades[w.active_trades[pid].trade_session_entity_id];
        &&& s.initiator_entity_id == pid || s.acceptor_entity_id == pid
        &&& iid == s.initiator_offer_inventory_entity_id || iid == s.acceptor_offer_inventory_entity_id
    }
}

/// The pockets after dragging the pocket in slot `src` onto slot `dst`: onto an
/// empty slot it moves, onto the same kind of item it stacks, onto another kind
/// of item the two swap slots.
pub open spec fn moved_pockets(s: Seq<Pocket>, src: u32, dst: u32) -> Seq<Pocket> {
    let sp = pocket_at(s, src).unwrap();
    match pocket_at(s, dst) {
        None => with_pocket(without_pocket(s, src), Pocket { pocket_idx: dst, ..sp }),
        Some(dp) => {
            if sp.item_id == dp.item_id {
                with_pocket(
                    without_pocket(s, src),
                    Pocket { item_count: (dp.item_count + sp.item_count) as i32, ..dp },
                )
            } else {
                with_pocket(
                    with_pocket(
                        without_pocket(without_pocket(s, src), dst),
                        Pocket { pocket_idx: dst, ..sp },
                    ),
                    Pocket { pocket_idx: src, ..dp },
                )
            }
        },
    }
}

/// Stacking the two pockets, when they hold the same kind of item, stays
/// within `i32`.
pub open spec fn stack_fits(s: Seq<Pocket>, src: u32, dst: u32) -> bool {
    match (pocket_at(s, src), pocket_at(s, dst)) {
        (Some(a), Some(b)) => a.item_id == b.item_id ==> i32::MIN <= a.item_count + b.item_count
            <= i32::MAX,
        _ => true,
    }
}

/// The request passes every check and reaches the inventory.
pub open spec fn move_or_swap_reaches_edit(
    w: WorldView,
    sender: Identity,
    max_slots: u32,
    player_entity_id: u64,
    inventory_entity_id: u64,
    src: u32,
    dst: u32,
) -> bool {
    &&& src < max_slots
    &&& dst < max_slots
    &&& src != dst
    &&& w.players[player_entity_id].owner_id == sender
    &&& (inventory_entity_id == player_entity_id || inventory_in_players_trade(w, player_entity_id, inventory_entity_id))
}

/// The player exists once the slot checks pass, and the inventory, its source
/// pocket and room for a stack exist once the edit is reached.
pub open spec fn move_or_swap_requires(
    w: WorldView,
    sender: Identity,
    max_slots: u32,
    player_entity_id: u64,
    inventory_entity_id: u64,
    src: u32,
    dst: u32,
) -> bool {
    &&& (src < max_slots && dst < max_slots && src != dst) ==> w.players.contains_key(player_entity_id)
    &&& move_or_swap_reaches_edit(w, sender, max_slots, player_entity_id, inventory_entity_id, src, dst)
        ==> {
        &&& w.inventories.contains_key(inventory_entity_id)
        &&& has_pocket(w.inventories[inventory_entity_id].pockets, src)
        &&& stack_fits(w.inventories[inventory_entity_id].pockets, src, dst)
    }
}

pub open spec fn move_or_swap_outcome(
    w: WorldView,
    sender: Identity,
    max_slots: u32,
    player_entity_id: u64,
    inventory_entity_id: u64,
    src: u32,
    dst: u32,
) -> Result<WorldView, ReducerError> {
    if src >= max_slots {
        Err(ReducerError::InvalidSourcePocket(src))
    } else if dst >= max_slots {
        Err(ReducerError::InvalidDestPocket(dst))
    } else if src == dst {
        Ok(w)
    } else if w.players[player_entity_id].owner_id != sender {
        Err(ReducerError::NotPlayerOwner)
    } else if inventory_entity_id != player_entity_id && !inventory_in_players_trade(
        w,
        player_entity_id,
        inventory_entity_id,
    ) {
        Err(ReducerError::InventoryNotAllowed)
    } else {
        Ok(
            w.with_pockets(
                inventory_entity_id,
                moved_pockets(w.inventories[inventory_entity_id].pockets, src, dst),
            ),
        )
    }
}

/// Replaces inventory `id` (taken out of the world before) by `inv`.
proof fn lemma_put_back(w: WorldView, id: u64, inv: InventoryView)
    requires
        inv.entity_id == id,
    ensures
        (WorldView { inventories: w.inventories.remove(id), ..w }).with_inventory(inv)
            == w.with_inventory(inv),
{
    assert(w.inventories.remove(id).insert(id, inv) =~= w.inventories.insert(id, inv));
}

/// Drags the pocket in slot `source_pocket_idx` of an inventory onto slot
/// `dest_pocket_idx`: it moves to an empty slot, stacks onto the same kind of
/// item, or swaps with another kind of item. The player must be owned by
/// `sender`; an inventory other than the player's own may be edited only when
/// it is an offer of the trade session the player takes part in.
pub fn move_or_swap_inventory_slot(
    world: &mut World,
    sender: &Identity,
    max_slots: u32,
    player_entity_id: u64,
    inventory_entity_id: u64,
    source_pocket_idx: u32,
    dest_pocket_idx: u32,
) -> (r: Result<(), ReducerError>)
    requires
        old(world).wf(),
        move_or_swap_requires(
            old(world)@,
            *sender,
            max_slots,
            player_entity_id,
            inventory_entity_id,
            source_pocket_idx,
            dest_pocket_idx,
        ),
    ensures
        final(world).wf(),
        applied(
            r,
            old(world)@,
            final(world)@,
            move_or_swap_outcome(
                old(world)@,
                *sender,
                max_slots,
                player_entity_id,
                inventory_entity_id,
                source_pocket_idx,
                dest_pocket_idx,
            ),
        ),
{
    if source_pocket_idx >= max_slots {
        return Err(ReducerError::InvalidSourcePocket(source_pocket_idx));
    }
    if dest_pocket_idx >= max_slots {
        return Err(ReducerError::InvalidDestPocket(dest_pocket_idx));
    }
    if source_pocket_idx == dest_pocket_idx {
        return Ok(());
    }
    let player = world.player(player_entity_id).unwrap();
    if !same_identity(&player.owner_id, sender) {
        return Err(ReducerError::NotPlayerOwner);
    }
    if inventory_entity_id != player_entity_id {
        let mut valid = false;
        if let Some(active_trade) = world.active_trade(player_entity_id) {
            if let Some(session) = world.trade(active_trade.trade_session_entity_id) {
                valid = (session.initiator_entity_id == player_entity_id || session.acceptor_entity_id
                    == player_entity_id) && (inventory_entity_id == session.initiator_offer_inventory_entity_id
                    || inventory_entity_id == session.acceptor_offer_inventory_entity_id);
            }
        }
        if !valid {
            return Err(ReducerError::InventoryNotAllowed);
        }
    }
    let ghost w = world@;
    let ghost s = w.inventories[inventory_entity_id].pockets;
    let mut inventory = world.take_inventory(inventory_entity_id).unwrap();
    let mut source_pocket = inventory.get_pocket(source_pocket_idx).unwrap();
    let dest_pocket = inventory.get_pocket(dest_pocket_idx);
    match dest_pocket {
        None => {
            inventory.delete_pocket(source_pocket_idx);
            source_pocket.pocket_idx = dest_pocket_idx;
            inventory.set_pocket(source_pocket);
        },
        Some(dest) => {
            let mut dest_pocket = dest;
            if source_pocket.item_id == dest_pocket.item_id {
                dest_pocket.item_count = dest_pocket.item_count + source_pocket.item_count;
                inventory.delete_pocket(source_pocket_idx);
                inventory.set_pocket(dest_pocket);
            } else {
                inventory.delete_pocket(source_pocket_idx);
                inventory.delete_pocket(dest_pocket_idx);
                dest_pocket.pocket_idx = source_pocket_idx;
                source_pocket.pocket_idx = dest_pocket_idx;
                inventory.set_pocket(source_pocket);
                inventory.set_pocket(dest_pocket);
            }
        },
    }
    proof {
        assert(inventory.pockets@ == moved_pockets(s, source_pocket_idx, dest_pocket_idx));
        lemma_put_back(w, inventory_entity_id, inventory@);
    }
    world.insert_inventory(inventory);
    Ok(())
}

/// The slot asked for: a negative index asks for none.
pub open spec fn slot_choice(pocket_idx: i32) -> Option<u32> {
    if pocket_idx < 0 {
        None
    } else {
        Some(pocket_idx as u32)
    }
}

pub open spec fn add_item_outcome(
    w: WorldView,
    max_slots: u32,
    entity_id: u64,
    item_id: u32,
    pocket_idx: i32,
    item_count: i32,
) -> Result<WorldView, ReducerError> {
    match add_items(w.inventories[entity_id].pockets, item_id, item_count, slot_choice(pocket_idx), max_slots) {
        Some(t) => Ok(w.with_pockets(entity_id, t)),
        None => Err(ReducerError::AddToInventoryFailed),
    }
}

/// Adds items to, or with a negative count removes items from, the inventory
/// of player `entity_id`: into slot `pocket_idx`, or when it is negative into
/// the slot already holding that kind of item or the first empty one.
pub fn add_item_to_inventory(
    world: &mut World,
    max_slots: u32,
    entity_id: u64,
    item_id: u32,
    pocket_idx: i32,
    item_count: i32,
) -> (r: Result<(), ReducerError>)
    requires
        old(world).wf(),
        old(world)@.players.contains_key(entity_id),
        old(world)@.inventories.contains_key(entity_id),
    ensures
        final(world).wf(),
        applied(
            r,
            old(world)@,
            final(world)@,
            add_item_outcome(old(world)@, max_slots, entity_id, item_id, pocket_idx, item_count),
        ),
{
    let _player = world.player(entity_id).unwrap();
    let ghost w = world@;
    let mut inventory = world.take_inventory(entity_id).unwrap();
    let index = if pocket_idx < 0 {
        None
    } else {
        Some(pocket_idx as u32)
    };
    if !inventory.add(item_id, item_count, index, max_slots) {
        proof {
            assert(w.inventories.remove(entity_id).insert(entity_id, inventory@) =~= w.inventories);
        }
        world.insert_inventory(inventory);
        return Err(ReducerError::AddToInventoryFailed);
    }
    proof {
        lemma_put_back(w, entity_id, inventory@);
    }
    world.insert_inventory(inventory);
    Ok(())
}

/// Sets the animation state of player `entity_id`.
pub fn update_animation(world: &mut World, entity_id: u64, moving: bool, action_target_entity_id: u64) -> (r:
    Result<(), ReducerError>)
    requires
        old(world).wf(),
        old(world)@.players.contains_key(entity_id),
        old(world)@.animations.contains_key(entity_id),
    ensures
        final(world).wf(),
        r is Ok,
        final(world)@ == (WorldView {
            animations: old(world)@.animations.insert(
                entity_id,
                AnimationComponent { entity_id, moving, action_target_entity_id },
            ),
            ..old(world)@
        }),
{
    let _player = world.player(entity_id).unwrap();
    world.update_animation_row(AnimationComponent { entity_id, moving, action_target_entity_id });
    Ok(())
}

/// The empty inventory `id`.
pub open spec fn empty_inventory(id: u64) -> InventoryView {
    InventoryView { entity_id: id, pockets: Seq::empty() }
}

/// With a creation time, a new player can be stored: its id is free, its owner
/// and username are unused, and an inventory under its id is absent or empty.
pub open spec fn create_player_requires(w: WorldView, sender: Identity, timestamp_micros: i64, username: Seq<
    char,
>) -> bool {
    timestamp_micros >= 0 ==> {
        let id = (w.player_seq + 1) as u64;
        &&& w.player_seq < u64::MAX
        &&& !w.players.contains_key(id)
        &&& !w.owner_has_player(sender)
        &&& !w.username_taken(username)
        &&& (!w.inventories.contains_key(id) || w.inventories[id] == empty_inventory(id))
    }
}

pub open spec fn create_player_outcome(
    w: WorldView,
    sender: Identity,
    timestamp_micros: i64,
    username: Seq<char>,
) -> Result<WorldView, ReducerError> {
    if timestamp_micros < 0 {
        Err(ReducerError::NoCreationTime)
    } else {
        let id = (w.player_seq + 1) as u64;
        let player = crate::components::PlayerView {
            entity_id: id,
            owner_id: sender,
            username,
            creation_time: (timestamp_micros / 1000) as u64,
        };
        Ok(
            WorldView {
                players: w.players.insert(id, player),
                inventories: w.inventories.insert(id, empty_inventory(id)),
                player_seq: id,
                ..w
            },
        )
    }
}

/// Creates a player owned by `sender`, with the next player id, the current
/// time in milliseconds as creation time, and an empty inventory. Returns the
/// new player's id.
pub fn create_new_player(world: &mut World, sender: &Identity, timestamp_micros: i64, username: String) -> (r:
    Result<u64, ReducerError>)
    requires
        old(world).wf(),
        create_player_requires(old(world)@, *sender, timestamp_micros, username@),
    ensures
        final(world).wf(),
        applied(r, old(world)@, final(world)@, create_player_outcome(old(world)@, *sender, timestamp_micros, username@)),
        r matches Ok(id) ==> id == old(world)@.player_seq + 1,
{
    let creation_time = match millis_since_unix_epoch(timestamp_micros) {
        Some(t) => t,
        None => {
            return Err(ReducerError::NoCreationTime);
        },
    };
    let entity_id = world.next_player_id();
    let ghost uname = username@;
    world.insert_player(PlayerComponent { entity_id, owner_id: *sender, username, creation_time });
    let inventory = InventoryComponent::new(entity_id);
    proof {
        assert(inventory@ =~= empty_inventory(entity_id));
    }
    world.insert_inventory(inventory);
    Ok(entity_id)
}

/// The chat line of player `player_id` sent at `timestamp_micros`.
pub open spec fn chat_line(timestamp_micros: i64, player_id: u64, message: Seq<char>) -> crate::components::ChatMessageView {
    crate::components::ChatMessageView { player_id, msg_time: (timestamp_micros / 1000) as u64, message }
}

/// The line is appended to the chat table, unless the very same line (same
/// player, millisecond and text) is stored already: the table holds a set of
/// rows.
pub open spec fn player_chat_outcome(w: WorldView, timestamp_micros: i64, player_id: u64, message: Seq<char>) -> Result<
    WorldView,
    ReducerError,
> {
    if timestamp_micros < 0 {
        Err(ReducerError::NoMessageTime)
    } else {
        let line = chat_line(timestamp_micros, player_id, message);
        Ok(
            WorldView {
                chat: if w.chat.contains(line) {
                    w.chat
                } else {
                    w.chat.push(line)
                },
                ..w
            },
        )
    }
}

/// Records a chat line of player `player_id`, stamped with the current time in
/// milliseconds.
pub fn player_chat(world: &mut World, timestamp_micros: i64, player_id: u64, message: String) -> (r: Result<
    (),
    ReducerError,
>)
    requires
        old(world).wf(),
    ensures
        final(world).wf(),
        applied(r, old(world)@, final(world)@, player_chat_outcome(old(world)@, timestamp_micros, player_id, message@)),
{
    let msg_time = match millis_since_unix_epoch(timestamp_micros) {
        Some(t) => t,
        None => {
            return Err(ReducerError::NoMessageTime);
        },
    };
    world.insert_chat(PlayerChatMessage { player_id, msg_time, message });
    Ok(())
}

/// The caller has a player; a stored login state differs from the one asked
/// for; signing out can close the player's trade session.
pub open spec fn update_login_requires(w: WorldView, sender: Identity, logged_in: bool) -> bool {
    &&& w.owner_has_player(sender)
    &&& {
        let pid = w.player_of_owner(sender);
        w.logins.contains_key(pid) ==> {
            &&& w.logins[pid].logged_in != logged_in
            &&& !logged_in ==> cancel_requires(w, pid)
        }
    }
}

pub open spec fn update_login_outcome(w: WorldView, sender: Identity, max_slots: u32, logged_in: bool) -> WorldView {
    let pid = w.player_of_owner(sender);
    let row = PlayerLoginComponent { entity_id: pid, logged_in };
    if w.logins.contains_key(pid) {
        let w1 = if !logged_in {
            cancel_outcome(w, pid, max_slots)
        } else {
            w
        };
        WorldView { logins: w1.logins.insert(pid, row), ..w1 }
    } else {
        WorldView { logins: w.logins.insert(pid, row), ..w }
    }
}

/// Records whether the caller's player is signed in; signing out ends its
/// trade session.
pub fn player_update_login_state(world: &mut World, sender: &Identity, max_slots: u32, logged_in: bool) -> (r:
    Result<(), ReducerError>)
    requires
        old(world).wf(),
        update_login_requires(old(world)@, *sender, logged_in),
    ensures
        final(world).wf(),
        r is Ok,
        final(world)@ == update_login_outcome(old(world)@, *sender, max_slots, logged_in),
{
    let player_entity_id = world.player_by_owner(sender).unwrap().entity_id;
    if let Some(_login_state) = world.login(player_entity_id) {
        if !logged_in {
            cancel_trade_session_with_participant(world, max_slots, player_entity_id);
        }
        world.update_login(PlayerLoginComponent { entity_id: player_entity_id, logged_in });
        return Ok(());
    }
    world.insert_login(PlayerLoginComponent { entity_id: player_entity_id, logged_in });
    Ok(())
}

/// The caller's player is signed in.
pub open spec fn signed_in(w: WorldView, sender: Identity) -> bool {
    &&& w.owner_has_player(sender)
    &&& w.logins.contains_key(w.player_of_owner(sender))
    &&& w.logins[w.player_of_owner(sender)].logged_in
}

pub open spec fn disconnect_outcome(w: WorldView, sender: Identity, max_slots: u32) -> WorldView {
    if signed_in(w, sender) {
        let pid = w.player_of_owner(sender);
        let w1 = cancel_outcome(w, pid, max_slots);
        WorldView { logins: w1.logins.insert(pid, PlayerLoginComponent { entity_id: pid, logged_in: false }), ..w1 }
    } else {
        w
    }
}

/// A client that leaves while signed in is signed out, and its player's trade
/// session is closed.
pub fn identity_disconnected(world: &mut World, sender: &Identity, max_slots: u32) -> (r: Result<(), ReducerError>)
    requires
        old(world).wf(),
        signed_in(old(world)@, *sender) ==> cancel_requires(old(world)@, old(world)@.player_of_owner(*sender)),
    ensures
        final(world).wf(),
        r is Ok,
        final(world)@ == disconnect_outcome(old(world)@, *sender, max_slots),
{
    if let Some(player) = world.player_by_owner(sender) {
        let player_entity_id = player.entity_id;
        if let Some(login_state) = world.login(player_entity_id) {
            if login_state.logged_in {
                cancel_trade_session_with_participant(world, max_slots, player_entity_id);
                world.update_login(PlayerLoginComponent { entity_id: player_entity_id, logged_in: false });
            }
        }
    }
    Ok(())
}

/// The player, the resource and the player's inventory exist, and a resource
/// whose yield was collected has health left to lose.
pub open spec fn extract_requires(w: WorldView, max_slots: u32, entity_id: u64, resource_entity_id: u64) -> bool {
    &&& w.players.contains_key(entity_id)
    &&& w.resources.contains_key(resource_entity_id)
    &&& w.inventories.contains_key(entity_id)
    &&& {
        let res = w.resources[resource_entity_id];
        add_item_outcome(w, max_slots, entity_id, res.item_yield_id as u32, -1i32, res.item_yield_quantity as i32)
            is Ok ==> res.health >= 1
    }
}

pub open spec fn extract_outcome(w: WorldView, max_slots: u32, entity_id: u64, resource_entity_id: u64) -> Result<
    WorldView,
    ReducerError,
> {
    let res = w.resources[resource_entity_id];
    match add_item_outcome(w, max_slots, entity_id, res.item_yield_id as u32, -1i32, res.item_yield_quantity as i32) {
        Err(e) => Err(e),
        Ok(w1) => {
            let health = (res.health - 1) as u8;
            if health == 0 {
                Ok(WorldView { resources: w1.resources.remove(resource_entity_id), ..w1 })
            } else {
                Ok(
                    WorldView {
                        resources: w1.resources.insert(resource_entity_id, ResourceComponent { health, ..res }),
                        ..w1
                    },
                )
            }
        },
    }
}

/// Player `entity_id` harvests a resource: its yield goes into the player's
/// inventory and the resource loses one health point, disappearing at zero.
pub fn extract(world: &mut World, max_slots: u32, entity_id: u64, resource_entity_id: u64) -> (r: Result<
    (),
    ReducerError,
>)
    requires
        old(world).wf(),
        extract_requires(old(world)@, max_slots, entity_id, resource_entity_id),
    ensures
        final(world).wf(),
        applied(r, old(world)@, final(world)@, extract_outcome(old(world)@, max_slots, entity_id, resource_entity_id)),
{
    let _player = world.player(entity_id).unwrap();
    let mut resource = world.resource(resource_entity_id).unwrap();
    match add_item_to_inventory(
        world,
        max_slots,
        entity_id,
        resource.item_yield_id as u32,
        -1,
        resource.item_yield_quantity as i32,
    ) {
        Ok(()) => {},
        Err(e) => {
            return Err(e);
        },
    }
    resource.health = resource.health - 1;
    if resource.health == 0 {
        world.delete_resource(resource_entity_id);
    } else {
        world.update_resource(resource);
    }
    Ok(())
}

/// Without a config row yet, stores the server globals of version 0 with the
/// entity counter at zero; with one, changes nothing.
pub fn init(world: &mut World, config_present: bool) -> (r: Result<(), ReducerError>)
    requires
        old(world).wf(),
        !config_present ==> (!old(world)@.globals.contains_key(0) || old(world)@.globals[0] == (ServerGlobals {
            version: 0,
            entity_id_counter: 0,
        })),
    ensures
        final(world).wf(),
        r is Ok,
        final(world)@ == (if config_present {
            old(world)@
        } else {
            WorldView {
                globals: old(world)@.globals.insert(0, ServerGlobals { version: 0, entity_id_counter: 0 }),
                ..old(world)@
            }
        }),
{
    if config_present {
        return Ok(());
    }
    world.insert_globals(ServerGlobals { version: 0, entity_id_counter: 0 });
    Ok(())
}

/// Whether `move_or_swap_inventory_slot` can run on these arguments: every
/// row it must find is there.
pub fn move_or_swap_is_defined(
    world: &World,
    sender: &Identity,
    max_slots: u32,
    player_entity_id: u64,
    inventory_entity_id: u64,
    source_pocket_idx: u32,
    dest_pocket_idx: u32,
) -> (r: bool)
    requires
        world.wf(),
    ensures
        r == move_or_swap_requires(
            world@,
            *sender,
            max_slots,
            player_entity_id,
            inventory_entity_id,
            source_pocket_idx,
            dest_pocket_idx,
        ),
{
    if source_pocket_idx >= max_slots || dest_pocket_idx >= max_slots || source_pocket_idx == dest_pocket_idx {
        return true;
    }
    let player = match world.player(player_entity_id) {
        Some(p) => p,
        None => {
            return false;
        },
    };
    if !same_identity(&player.owner_id, sender) {
        return true;
    }
    if inventory_entity_id != player_entity_id {
        let mut valid = false;
        if let Some(active_trade) = world.active_trade(player_entity_id) {
            if let Some(session) = world.trade(active_trade.trade_session_entity_id) {
                valid = (session.initiator_entity_id == player_entity_id || session.acceptor_entity_id
                    == player_entity_id) && (inventory_entity_id == session.initiator_offer_inventory_entity_id
                    || inventory_entity_id == session.acceptor_offer_inventory_entity_id);
            }
        }
        if !valid {
            return true;
        }
    }
    let inventory = match world.inventory(inventory_entity_id) {
        Some(inv) => inv,
        None => {
            return false;
        },
    };
    match (inventory.get_pocket(source_pocket_idx), inventory.get_pocket(dest_pocket_idx)) {
        (Some(a), Some(b)) => {
            a.item_id != b.item_id || (i32::MIN as i64 <= a.item_count as i64 + b.item_count as i64
                && a.item_count as i64 + b.item_count as i64 <= i32::MAX as i64)
        },
        (Some(_), None) => true,
        _ => false,
    }
}

/// Whether `create_new_player` can run on these arguments: the new player's
/// id, owner and username are free.
pub fn create_new_player_is_defined(world: &World, sender: &Identity, timestamp_micros: i64, username: &String) -> (r:
    bool)
    requires
        world.wf(),
    ensures
        r == create_player_requires(world@, *sender, timestamp_micros, username@),
{
    if timestamp_micros < 0 {
        return true;
    }
    let (player_seq, _, _) = world.sequences();
    if player_seq == u64::MAX {
        return false;
    }
    let id = player_seq + 1;
    if world.player(id).is_some() || world.player_by_owner(sender).is_some() || world.username_taken(username) {
        return false;
    }
    match world.inventory(id) {
        Some(inv) => {
            proof {
                if inv.pockets@.len() == 0 {
                    assert(inv@.pockets =~= Seq::<Pocket>::empty());
                    assert(inv@ == empty_inventory(id));
                }
            }
            inv.pockets.len() == 0
        },
        None => true,
    }
}

/// Whether `player_update_login_state` can run on these arguments.
pub fn update_login_is_defined(world: &World, sender: &Identity, logged_in: bool) -> (r: bool)
    requires
        world.wf(),
    ensures
        r == update_login_requires(world@, *sender, logged_in),
{
    let player_entity_id = match world.player_by_owner(sender) {
        Some(p) => p.entity_id,
        None => {
            return false;
        },
    };
    match world.login(player_entity_id) {
        Some(login_state) => login_state.logged_in != logged_in && (logged_in
            || crate::trade::cancel_is_defined(world, player_entity_id)),
        None => true,
    }
}

/// Whether `identity_disconnected` can run on these arguments.
pub fn disconnect_is_defined(world: &World, sender: &Identity) -> (r: bool)
    requires
        world.wf(),
    ensures
        r == (signed_in(world@, *sender) ==> cancel_requires(world@, world@.player_of_owner(*sender))),
{
    if let Some(player) = world.player_by_owner(sender) {
        if let Some(login_state) = world.login(player.entity_id) {
            if login_state.logged_in {
                return crate::trade::cancel_is_defined(world, player.entity_id);
            }
        }
    }
    true
}

/// Whether `extract` can run on these arguments.
pub fn extract_is_defined(world: &World, max_slots: u32, entity_id: u64, resource_entity_id: u64) -> (r: bool)
    requires
        world.wf(),
    ensures
        r == extract_requires(world@, max_slots, entity_id, resource_entity_id),
{
    if world.player(entity_id).is_none() {
        return false;
    }
    let resource = match world.resource(resource_entity_id) {
        Some(res) => res,
        None => {
            return false;
        },
    };
    let mut copy = match world.inventory(entity_id) {
        Some(inv) => inv.duplicate(),
        None => {
            return false;
        },
    };
    let added = copy.add(resource.item_yield_id as u32, resource.item_yield_quantity as i32, None, max_slots);
    !added || resource.health >= 1
}

} // verus!
