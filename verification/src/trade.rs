use vstd::prelude::*;
use spacetimedb::Identity;
use crate::components::{ActiveTradeComponent, ServerGlobals, TradeSessionComponent};
use crate::inventory::{
    add_all, add_items, has_pocket, merge_pockets, pocket_at, pocket_items, InventoryComponent, Pocket,
};
use crate::platform::same_identity;
use crate::player_actions::{applied, empty_inventory};
use crate::world::{ReducerError, World, WorldView};

verus! {

/// Sessions and active-trade markers agree both ways: every marker points at
/// a stored session that names its player as one side, and both sides of
/// every stored session carry a marker pointing back at it.
pub open spec fn trades_consistent(w: WorldView) -> bool {
    &&& forall|p: u64| #[trigger]
        w.active_trades.contains_key(p) ==> {
            let sid = w.active_trades[p].trade_session_entity_id;
            &&& w.trades.contains_key(sid)
            &&& (w.trades[sid].initiator_entity_id == p || w.trades[sid].acceptor_entity_id == p)
        }
    &&& forall|sid: u64| #[trigger]
        w.trades.contains_key(sid) ==> {
            let s = w.trades[sid];
            &&& w.active_trades.contains_key(s.initiator_entity_id)
            &&& w.active_trades[s.initiator_entity_id].trade_session_entity_id == sid
            &&& w.active_trades.contains_key(s.acceptor_entity_id)
            &&& w.active_trades[s.acceptor_entity_id].trade_session_entity_id == sid
        }
}

/// The session, its two players' inventories and its two offer inventories
/// exist.
pub open spec fn close_requires(w: WorldView, session_entity_id: u64) -> bool {
    &&& w.trades.contains_key(session_entity_id)
    &&& {
        let s = w.trades[session_entity_id];
        &&& w.inventories.contains_key(s.initiator_offer_inventory_entity_id)
        &&& w.inventories.contains_key(s.initiator_entity_id)
        &&& w.inventories.contains_key(s.acceptor_offer_inventory_entity_id)
        &&& w.inventories.contains_key(s.acceptor_entity_id)
    }
}

/// Each player's inventory can take, pocket by pocket, everything the other
/// side offers.
pub open spec fn exchange_fits(w: WorldView, session_entity_id: u64, max_slots: u32) -> bool {
    let s = w.trades[session_entity_id];
    &&& add_all(
        w.inventories[s.acceptor_entity_id].pockets,
        pocket_items(w.inventories[s.initiator_offer_inventory_entity_id].pockets),
        max_slots,
    ) is Some
    &&& add_all(
        w.inventories[s.initiator_entity_id].pockets,
        pocket_items(w.inventories[s.acceptor_offer_inventory_entity_id].pockets),
        max_slots,
    ) is Some
}

/// The offers change hands: the close is a success and both sides have room
/// for what they receive.
pub open spec fn exchanges(w: WorldView, session_entity_id: u64, max_slots: u32, success: bool) -> bool {
    success && exchange_fits(w, session_entity_id, max_slots)
}

/// Who receives the initiator's offer: the acceptor when the offers change
/// hands, the initiator itself otherwise.
pub open spec fn initiator_offer_receiver(w: WorldView, session_entity_id: u64, max_slots: u32, success: bool) -> u64 {
    let s = w.trades[session_entity_id];
    if exchanges(w, session_entity_id, max_slots, success) {
        s.acceptor_entity_id
    } else {
        s.initiator_entity_id
    }
}

/// Who receives the acceptor's offer: the initiator when the offers change
/// hands, the acceptor itself otherwise.
pub open spec fn acceptor_offer_receiver(w: WorldView, session_entity_id: u64, max_slots: u32, success: bool) -> u64 {
    let s = w.trades[session_entity_id];
    if exchanges(w, session_entity_id, max_slots, success) {
        s.initiator_entity_id
    } else {
        s.acceptor_entity_id
    }
}

/// The initiator's offer is added, pocket by pocket, to the inventory of its
/// receiver, then the acceptor's offer to the inventory of its receiver; a
/// pocket that does not fit is lost. Then the session, both players'
/// active-trade markers and both offer inventories are deleted.
pub open spec fn close_outcome(w: WorldView, session_entity_id: u64, max_slots: u32, success: bool) -> WorldView {
    let s = w.trades[session_entity_id];
    let ri = initiator_offer_receiver(w, session_entity_id, max_slots, success);
    let ra = acceptor_offer_receiver(w, session_entity_id, max_slots, success);
    let w1 = w.with_pockets(
        ri,
        merge_pockets(w.inventories[ri].pockets, w.inventories[s.initiator_offer_inventory_entity_id].pockets, max_slots),
    );
    let w2 = w1.with_pockets(
        ra,
        merge_pockets(w1.inventories[ra].pockets, w1.inventories[s.acceptor_offer_inventory_entity_id].pockets, max_slots),
    );
    WorldView {
        trades: w2.trades.remove(s.entity_id),
        active_trades: w2.active_trades.remove(s.initiator_entity_id).remove(s.acceptor_entity_id),
        inventories: w2.inventories.remove(s.initiator_offer_inventory_entity_id).remove(
            s.acceptor_offer_inventory_entity_id,
        ),
        ..w2
    }
}

/// Adds the offer inventory `offer_id` into inventory `receiver_id`.
fn hand_over_offer(world: &mut World, max_slots: u32, offer_id: u64, receiver_id: u64)
    requires
        old(world).wf(),
        old(world)@.inventories.contains_key(offer_id),
        old(world)@.inventories.contains_key(receiver_id),
    ensures
        final(world).wf(),
        final(world)@ == old(world)@.with_pockets(
            receiver_id,
            merge_pockets(
                old(world)@.inventories[receiver_id].pockets,
                old(world)@.inventories[offer_id].pockets,
                max_slots,
            ),
        ),
{
    let ghost w = world@;
    let offer = world.inventory(offer_id).unwrap().duplicate();
    let mut player_inventory = world.take_inventory(receiver_id).unwrap();
    player_inventory.combine(&offer, max_slots);
    proof {
        assert(w.inventories.remove(receiver_id).insert(receiver_id, player_inventory@) =~= w.inventories.insert(
            receiver_id,
            player_inventory@,
        ));
    }
    world.insert_inventory(player_inventory);
}

/// Whether each player of the session can take everything the other side
/// offers.
fn exchange_check(world: &World, max_slots: u32, session: &TradeSessionComponent) -> (r: bool)
    requires
        world.wf(),
        close_requires(world@, session.entity_id),
        *session == world@.trades[session.entity_id],
    ensures
        r == exchange_fits(world@, session.entity_id, max_slots),
{
    let initiator_offer = world.inventory(session.initiator_offer_inventory_entity_id).unwrap();
    let acceptor = world.inventory(session.acceptor_entity_id).unwrap();
    if acceptor.can_hold(&initiator_offer.pocket_items(), max_slots) {
        let acceptor_offer = world.inventory(session.acceptor_offer_inventory_entity_id).unwrap();
        let initiator = world.inventory(session.initiator_entity_id).unwrap();
        initiator.can_hold(&acceptor_offer.pocket_items(), max_slots)
    } else {
        false
    }
}

/// Ends a trade session. With `success`, and when each player has room for
/// everything the other side offers, each offer goes to the other player;
/// otherwise each offer goes back to the player who made it. Then everything
/// belonging to the session is deleted.
pub fn close_trade_session(world: &mut World, max_slots: u32, session_entity_id: u64, success: bool)
    requires
        old(world).wf(),
        close_requires(old(world)@, session_entity_id),
    ensures
        final(world).wf(),
        final(world)@ == close_outcome(old(world)@, session_entity_id, max_slots, success),
{
    let ghost w = world@;
    let session = world.trade(session_entity_id).unwrap();
    let can_trade = success && exchange_check(world, max_slots, &session);
    let (initiator_offer_to, acceptor_offer_to) = if can_trade {
        (session.acceptor_entity_id, session.initiator_entity_id)
    } else {
        (session.initiator_entity_id, session.acceptor_entity_id)
    };
    assert(initiator_offer_to == initiator_offer_receiver(w, session_entity_id, max_slots, success));
    assert(acceptor_offer_to == acceptor_offer_receiver(w, session_entity_id, max_slots, success));
    hand_over_offer(world, max_slots, session.initiator_offer_inventory_entity_id, initiator_offer_to);
    hand_over_offer(world, max_slots, session.acceptor_offer_inventory_entity_id, acceptor_offer_to);
    world.delete_trade(session.entity_id);
    world.delete_active_trade(session.initiator_entity_id);
    world.delete_active_trade(session.acceptor_entity_id);
    world.delete_inventory(session.initiator_offer_inventory_entity_id);
    world.delete_inventory(session.acceptor_offer_inventory_entity_id);
}

/// A trade session of the player can be closed.
pub open spec fn cancel_requires(w: WorldView, participant_entity_id: u64) -> bool {
    w.active_trades.contains_key(participant_entity_id) ==> close_requires(
        w,
        w.active_trades[participant_entity_id].trade_session_entity_id,
    )
}

pub open spec fn cancel_outcome(w: WorldView, participant_entity_id: u64, max_slots: u32) -> WorldView {
    if w.active_trades.contains_key(participant_entity_id) {
        close_outcome(w, w.active_trades[participant_entity_id].trade_session_entity_id, max_slots, false)
    } else {
        w
    }
}

/// Closes, unsuccessfully, the trade session the player takes part in, if any.
pub fn cancel_trade_session_with_participant(world: &mut World, max_slots: u32, participant_entity_id: u64)
    requires
        old(world).wf(),
        cancel_requires(old(world)@, participant_entity_id),
    ensures
        final(world).wf(),
        final(world)@ == cancel_outcome(old(world)@, participant_entity_id, max_slots),
{
    if let Some(active_session) = world.active_trade(participant_entity_id) {
        close_trade_session(world, max_slots, active_session.trade_session_entity_id, false);
    }
}

/// The session row a new trade starts with: nobody has approved yet.
pub open spec fn new_session(
    entity_id: u64,
    initiator_entity_id: u64,
    acceptor_entity_id: u64,
    initiator_offer_inventory_entity_id: u64,
    acceptor_offer_inventory_entity_id: u64,
) -> TradeSessionComponent {
    TradeSessionComponent {
        entity_id,
        initiator_entity_id,
        acceptor_entity_id,
        acceptor_offer_inventory_entity_id,
        initiator_offer_inventory_entity_id,
        approved_by_initiator: false,
        approved_by_acceptor: false,
    }
}

/// The id a new session gets: one past the entity counter of the globals
/// row of version 0.
pub open spec fn next_session_id(w: WorldView) -> u64 {
    (w.globals[0].entity_id_counter + 1) as u64
}

/// Neither player trades yet and the caller owns the initiator.
pub open spec fn initiate_reaches_insert(
    w: WorldView,
    sender: Identity,
    initiator_entity_id: u64,
    acceptor_entity_id: u64,
) -> bool {
    &&& !w.active_trades.contains_key(initiator_entity_id)
    &&& !w.active_trades.contains_key(acceptor_entity_id)
    &&& w.players[initiator_entity_id].owner_id == sender
}

/// Both players exist; the rows a new session needs can be stored: the
/// globals row of version 0 exists and its counter can grow, the new session
/// id is free (or already holds this very row), and two more inventory ids
/// are free (or hold empty inventories).
pub open spec fn initiate_requires(
    w: WorldView,
    sender: Identity,
    initiator_entity_id: u64,
    acceptor_entity_id: u64,
) -> bool {
    &&& w.players.contains_key(initiator_entity_id)
    &&& w.players.contains_key(acceptor_entity_id)
    &&& initiate_reaches_insert(w, sender, initiator_entity_id, acceptor_entity_id) ==> {
        let a = (w.inventory_seq + 1) as u64;
        let b = (w.inventory_seq + 2) as u64;
        let sid = next_session_id(w);
        &&& w.globals.contains_key(0)
        &&& w.globals[0].entity_id_counter < u64::MAX
        &&& w.inventory_seq < u64::MAX - 1
        &&& !w.trades.contains_key(sid) || w.trades[sid] == new_session(
            sid,
            initiator_entity_id,
            acceptor_entity_id,
            a,
            b,
        )
        &&& !w.inventories.contains_key(a) || w.inventories[a] == empty_inventory(a)
        &&& !w.inventories.contains_key(b) || w.inventories[b] == empty_inventory(b)
    }
}

/// When either player already trades nothing changes; when the caller does
/// not own the initiator the request is refused; otherwise the globals'
/// counter moves on to the new session id, the session is stored under it
/// with two new empty offer inventories (the initiator's first), and both
/// players get a marker pointing at it.
pub open spec fn initiate_outcome(
    w: WorldView,
    sender: Identity,
    initiator_entity_id: u64,
    acceptor_entity_id: u64,
) -> Result<WorldView, ReducerError> {
    if w.active_trades.contains_key(initiator_entity_id) || w.active_trades.contains_key(acceptor_entity_id) {
        Ok(w)
    } else if w.players[initiator_entity_id].owner_id != sender {
        Err(ReducerError::NotPlayerOwner)
    } else {
        let a = (w.inventory_seq + 1) as u64;
        let b = (w.inventory_seq + 2) as u64;
        let sid = next_session_id(w);
        Ok(
            WorldView {
                globals: w.globals.insert(0, ServerGlobals { entity_id_counter: sid, ..w.globals[0] }),
                trades: w.trades.insert(sid, new_session(sid, initiator_entity_id, acceptor_entity_id, a, b)),
                active_trades: w.active_trades.insert(
                    acceptor_entity_id,
                    ActiveTradeComponent { entity_id: acceptor_entity_id, trade_session_entity_id: sid },
                ).insert(
                    initiator_entity_id,
                    ActiveTradeComponent { entity_id: initiator_entity_id, trade_session_entity_id: sid },
                ),
                inventories: w.inventories.insert(a, empty_inventory(a)).insert(b, empty_inventory(b)),
                inventory_seq: b,
                ..w
            },
        )
    }
}

/// Opens a trade session between two players who are not trading yet: the
/// session row under a fresh id, an active-trade marker on each player and
/// two empty offer inventories. The caller must own the initiator.
pub fn initiate_trade_session(
    world: &mut World,
    sender: &Identity,
    initiator_entity_id: u64,
    acceptor_entity_id: u64,
) -> (r: Result<(), ReducerError>)
    requires
        old(world).wf(),
        initiate_requires(old(world)@, *sender, initiator_entity_id, acceptor_entity_id),
    ensures
        final(world).wf(),
        applied(
            r,
            old(world)@,
            final(world)@,
            initiate_outcome(old(world)@, *sender, initiator_entity_id, acceptor_entity_id),
        ),
{
    let ghost w = world@;
    let initiator = world.player(initiator_entity_id).unwrap();
    let _acceptor = world.player(acceptor_entity_id).unwrap();
    if world.active_trade(initiator_entity_id).is_some() {
        return Ok(());
    }
    if world.active_trade(acceptor_entity_id).is_some() {
        return Ok(());
    }
    if !same_identity(&initiator.owner_id, sender) {
        return Err(ReducerError::NotPlayerOwner);
    }
    let mut globals = world.server_globals(0).unwrap();
    globals.entity_id_counter = globals.entity_id_counter + 1;
    let session_entity_id = globals.entity_id_counter;
    world.update_globals(globals);
    let initiator_offer_id = world.next_inventory_id();
    let acceptor_offer_id = world.next_inventory_id();
    let trade_session = TradeSessionComponent {
        entity_id: session_entity_id,
        initiator_entity_id,
        acceptor_entity_id,
        initiator_offer_inventory_entity_id: initiator_offer_id,
        acceptor_offer_inventory_entity_id: acceptor_offer_id,
        approved_by_acceptor: false,
        approved_by_initiator: false,
    };
    world.insert_trade(trade_session);
    world.insert_active_trade(
        ActiveTradeComponent {
            entity_id: acceptor_entity_id,
            trade_session_entity_id: trade_session.entity_id,
        },
    );
    world.insert_active_trade(
        ActiveTradeComponent {
            entity_id: initiator_entity_id,
            trade_session_entity_id: trade_session.entity_id,
        },
    );
    let initiator_offer = InventoryComponent::new(initiator_offer_id);
    assert(initiator_offer@ =~= empty_inventory(initiator_offer_id));
    world.insert_inventory(initiator_offer);
    let acceptor_offer = InventoryComponent::new(acceptor_offer_id);
    assert(acceptor_offer@ =~= empty_inventory(acceptor_offer_id));
    world.insert_inventory(acceptor_offer);
    proof {
        let w2 = initiate_outcome(w, *sender, initiator_entity_id, acceptor_entity_id).unwrap();
        assert(world@.globals =~= w2.globals);
        assert(world@.trades =~= w2.trades);
        assert(world@.active_trades =~= w2.active_trades);
        assert(world@.inventories =~= w2.inventories);
    }
    Ok(())
}

/// The session the participant takes part in.
pub open spec fn session_of(w: WorldView, participant_entity_id: u64) -> TradeSessionComponent {
    w.trades[w.active_trades[participant_entity_id].trade_session_entity_id]
}

/// The id of the offer inventory of the participant's side.
pub open spec fn offer_of(w: WorldView, participant_entity_id: u64) -> u64 {
    let s = session_of(w, participant_entity_id);
    if s.initiator_entity_id == participant_entity_id {
        s.initiator_offer_inventory_entity_id
    } else {
        s.acceptor_offer_inventory_entity_id
    }
}

/// The participant's session with both approvals withdrawn.
pub open spec fn unapproved(w: WorldView, participant_entity_id: u64) -> WorldView {
    let s = session_of(w, participant_entity_id);
    WorldView {
        trades: w.trades.insert(
            s.entity_id,
            TradeSessionComponent { approved_by_acceptor: false, approved_by_initiator: false, ..s },
        ),
        ..w
    }
}

/// The player exists and is in a session that exists.
pub open spec fn in_session(w: WorldView, participant_entity_id: u64) -> bool {
    &&& w.players.contains_key(participant_entity_id)
    &&& w.active_trades.contains_key(participant_entity_id)
    &&& w.trades.contains_key(w.active_trades[participant_entity_id].trade_session_entity_id)
}

/// Moving the items of slot `src` of inventory `from` (of `from_slots`
/// slots) to slot `dst` of inventory `to` (of `to_slots` slots): `Err(e1)`
/// when `from` refuses to give them up, `Err(e2)` when `to` refuses them.
pub open spec fn transfer(
    w: WorldView,
    from: u64,
    src: u32,
    from_slots: u32,
    to: u64,
    dst: u32,
    to_slots: u32,
    e1: ReducerError,
    e2: ReducerError,
) -> Result<WorldView, ReducerError> {
    let p = pocket_at(w.inventories[from].pockets, src).unwrap();
    match add_items(w.inventories[from].pockets, p.item_id, (-p.item_count) as i32, Some(src), from_slots) {
        None => Err(e1),
        Some(t1) => {
            let w2 = w.with_pockets(from, t1);
            match add_items(w2.inventories[to].pockets, p.item_id, p.item_count, Some(dst), to_slots) {
                None => Err(e2),
                Some(t2) => Ok(w2.with_pockets(to, t2)),
            }
        },
    }
}

/// Inventory `from` exists with a pocket in slot `src` whose count can be
/// negated; once it gave the items up, inventory `to` exists.
pub open spec fn transfer_requires(w: WorldView, from: u64, src: u32, from_slots: u32, to: u64) -> bool {
    &&& w.inventories.contains_key(from)
    &&& has_pocket(w.inventories[from].pockets, src)
    &&& {
        let p = pocket_at(w.inventories[from].pockets, src).unwrap();
        &&& p.item_count != i32::MIN
        &&& match add_items(w.inventories[from].pockets, p.item_id, (-p.item_count) as i32, Some(src), from_slots) {
            Some(t1) => w.with_pockets(from, t1).inventories.contains_key(to),
            None => true,
        }
    }
}

/// Moves the items of slot `src` of inventory `from` to slot `dst` of
/// inventory `to`.
fn transfer_items(
    world: &mut World,
    from: u64,
    src: u32,
    from_slots: u32,
    to: u64,
    dst: u32,
    to_slots: u32,
    e1: ReducerError,
    e2: ReducerError,
) -> (r: Result<(), ReducerError>)
    requires
        old(world).wf(),
        transfer_requires(old(world)@, from, src, from_slots, to),
    ensures
        final(world).wf(),
        applied(
            r,
            old(world)@,
            final(world)@,
            transfer(old(world)@, from, src, from_slots, to, dst, to_slots, e1, e2),
        ),
{
    let ghost w = world@;
    let saved = world.inventory(from).unwrap().duplicate();
    let mut source = world.take_inventory(from).unwrap();
    let pocket = source.get_pocket(src).unwrap();
    if !source.add(pocket.item_id, -pocket.item_count, Some(src), from_slots) {
        proof {
            assert(w.inventories.remove(from).insert(from, source@) =~= w.inventories);
        }
        world.insert_inventory(source);
        return Err(e1);
    }
    proof {
        assert(w.inventories.remove(from).insert(from, source@) =~= w.inventories.insert(from, source@));
    }
    world.insert_inventory(source);
    let ghost w2 = world@;
    let mut target = world.take_inventory(to).unwrap();
    if !target.add(pocket.item_id, pocket.item_count, Some(dst), to_slots) {
        proof {
            assert(w2.inventories.remove(to).insert(to, target@) =~= w2.inventories);
        }
        world.insert_inventory(target);
        // A failed reducer leaves no trace: give `from` its items back.
        world.update_inventory(saved);
        proof {
            assert(world@.inventories =~= w.inventories);
        }
        return Err(e2);
    }
    proof {
        assert(w2.inventories.remove(to).insert(to, target@) =~= w2.inventories.insert(to, target@));
    }
    world.insert_inventory(target);
    Ok(())
}

pub open spec fn add_to_trade_requires(w: WorldView, max_slots: u32, participant_entity_id: u64, src: u32) -> bool {
    &&& in_session(w, participant_entity_id)
    &&& transfer_requires(
        unapproved(w, participant_entity_id),
        participant_entity_id,
        src,
        max_slots,
        offer_of(w, participant_entity_id),
    )
}

/// Both approvals are withdrawn, then the pocket in slot `src` of the
/// player's inventory (of `max_slots` slots) moves to slot `dst` of the
/// player's offer (of `trading_slots` slots).
pub open spec fn add_to_trade_outcome(
    w: WorldView,
    max_slots: u32,
    trading_slots: u32,
    participant_entity_id: u64,
    src: u32,
    dst: u32,
) -> Result<WorldView, ReducerError> {
    transfer(
        unapproved(w, participant_entity_id),
        participant_entity_id,
        src,
        max_slots,
        offer_of(w, participant_entity_id),
        dst,
        trading_slots,
        ReducerError::RemoveFromPlayerInventoryFailed,
        ReducerError::AddToTradeWindowFailed,
    )
}

/// Withdraws both approvals of the participant's session; returns the session
/// as it was, to put back if the reducer fails.
fn withdraw_approvals(world: &mut World, participant_entity_id: u64) -> (r: TradeSessionComponent)
    requires
        old(world).wf(),
        in_session(old(world)@, participant_entity_id),
    ensures
        final(world).wf(),
        final(world)@ == unapproved(old(world)@, participant_entity_id),
        r == session_of(old(world)@, participant_entity_id),
        r.entity_id == old(world)@.active_trades[participant_entity_id].trade_session_entity_id,
{
    let active_session = world.active_trade(participant_entity_id).unwrap();
    let saved = world.trade(active_session.trade_session_entity_id).unwrap();
    let mut session = saved;
    session.approved_by_acceptor = false;
    session.approved_by_initiator = false;
    world.update_trade(session);
    saved
}

/// Puts back a session saved by `withdraw_approvals`.
fn restore_session(world: &mut World, session: TradeSessionComponent, Ghost(w): Ghost<WorldView>, participant_entity_id: u64)
    requires
        old(world).wf(),
        in_session(w, participant_entity_id),
        session == session_of(w, participant_entity_id),
        session.entity_id == w.active_trades[participant_entity_id].trade_session_entity_id,
        old(world)@ == unapproved(w, participant_entity_id),
    ensures
        final(world).wf(),
        final(world)@ == w,
{
    world.update_trade(session);
    proof {
        assert(world@.trades =~= w.trades);
    }
}

/// The participant moves the pocket in slot `source_pocket_id` of its
/// inventory to slot `dest_pocket_id` of its trade offer; both approvals of
/// the session are withdrawn. An inventory has `max_slots` slots, an offer
/// `trading_slots`.
pub fn add_to_trade(
    world: &mut World,
    max_slots: u32,
    trading_slots: u32,
    participant_entity_id: u64,
    source_pocket_id: u32,
    dest_pocket_id: u32,
) -> (r: Result<(), ReducerError>)
    requires
        old(world).wf(),
        add_to_trade_requires(old(world)@, max_slots, participant_entity_id, source_pocket_id),
    ensures
        final(world).wf(),
        applied(
            r,
            old(world)@,
            final(world)@,
            add_to_trade_outcome(
                old(world)@,
                max_slots,
                trading_slots,
                participant_entity_id,
                source_pocket_id,
                dest_pocket_id,
            ),
        ),
{
    let ghost w = world@;
    let _participant = world.player(participant_entity_id).unwrap();
    let session = withdraw_approvals(world, participant_entity_id);
    let offer_inventory_entity_id = if session.initiator_entity_id == participant_entity_id {
        session.initiator_offer_inventory_entity_id
    } else {
        session.acceptor_offer_inventory_entity_id
    };
    match transfer_items(
        world,
        participant_entity_id,
        source_pocket_id,
        max_slots,
        offer_inventory_entity_id,
        dest_pocket_id,
        trading_slots,
        ReducerError::RemoveFromPlayerInventoryFailed,
        ReducerError::AddToTradeWindowFailed,
    ) {
        Ok(()) => Ok(()),
        Err(e) => {
            restore_session(world, session, Ghost(w), participant_entity_id);
            Err(e)
        },
    }
}

pub open spec fn remove_from_trade_requires(
    w: WorldView,
    trading_slots: u32,
    participant_entity_id: u64,
    src: u32,
) -> bool {
    &&& in_session(w, participant_entity_id)
    &&& transfer_requires(
        unapproved(w, participant_entity_id),
        offer_of(w, participant_entity_id),
        src,
        trading_slots,
        participant_entity_id,
    )
}

/// Both approvals are withdrawn, then the pocket in slot `src` of the
/// player's offer (of `trading_slots` slots) moves back to slot `dst` of the
/// player's inventory (of `max_slots` slots).
pub open spec fn remove_from_trade_outcome(
    w: WorldView,
    max_slots: u32,
    trading_slots: u32,
    participant_entity_id: u64,
    src: u32,
    dst: u32,
) -> Result<WorldView, ReducerError> {
    transfer(
        unapproved(w, participant_entity_id),
        offer_of(w, participant_entity_id),
        src,
        trading_slots,
        participant_entity_id,
        dst,
        max_slots,
        ReducerError::RemoveFromTradeInventoryFailed,
        ReducerError::AddToPlayerInventoryFailed,
    )
}

/// The participant takes the pocket in slot `source_pocket_id` of its trade
/// offer back into slot `dest_pocket_id` of its inventory; both approvals of
/// the session are withdrawn. An inventory has `max_slots` slots, an offer
/// `trading_slots`.
pub fn remove_from_trade(
    world: &mut World,
    max_slots: u32,
    trading_slots: u32,
    participant_entity_id: u64,
    source_pocket_id: u32,
    dest_pocket_id: u32,
) -> (r: Result<(), ReducerError>)
    requires
        old(world).wf(),
        remove_from_trade_requires(old(world)@, trading_slots, participant_entity_id, source_pocket_id),
    ensures
        final(world).wf(),
        applied(
            r,
            old(world)@,
            final(world)@,
            remove_from_trade_outcome(
                old(world)@,
                max_slots,
                trading_slots,
                participant_entity_id,
                source_pocket_id,
                dest_pocket_id,
            ),
        ),
{
    let ghost w = world@;
    let _participant = world.player(participant_entity_id).unwrap();
    let session = withdraw_approvals(world, participant_entity_id);
    let offer_inventory_entity_id = if session.initiator_entity_id == participant_entity_id {
        session.initiator_offer_inventory_entity_id
    } else {
        session.acceptor_offer_inventory_entity_id
    };
    match transfer_items(
        world,
        offer_inventory_entity_id,
        source_pocket_id,
        trading_slots,
        participant_entity_id,
        dest_pocket_id,
        max_slots,
        ReducerError::RemoveFromTradeInventoryFailed,
        ReducerError::AddToPlayerInventoryFailed,
    ) {
        Ok(()) => Ok(()),
        Err(e) => {
            restore_session(world, session, Ghost(w), participant_entity_id);
            Err(e)
        },
    }
}

/// The session after the participant flips its own approval, or `None` when
/// it is neither side of it.
pub open spec fn toggled(s: TradeSessionComponent, participant_entity_id: u64) -> Option<TradeSessionComponent> {
    if s.acceptor_entity_id == participant_entity_id {
        Some(TradeSessionComponent { approved_by_acceptor: !s.approved_by_acceptor, ..s })
    } else if s.initiator_entity_id == participant_entity_id {
        Some(TradeSessionComponent { approved_by_initiator: !s.approved_by_initiator, ..s })
    } else {
        None
    }
}

/// The world with the participant's session replaced by `s`.
pub open spec fn with_session(w: WorldView, participant_entity_id: u64, s: TradeSessionComponent) -> WorldView {
    WorldView {
        trades: w.trades.insert(w.active_trades[participant_entity_id].trade_session_entity_id, s),
        ..w
    }
}

pub open spec fn toggle_requires(w: WorldView, participant_entity_id: u64) -> bool {
    &&& in_session(w, participant_entity_id)
    &&& match toggled(session_of(w, participant_entity_id), participant_entity_id) {
        Some(s) => s.approved_by_acceptor && s.approved_by_initiator ==> close_requires(
            with_session(w, participant_entity_id, s),
            w.active_trades[participant_entity_id].trade_session_entity_id,
        ),
        None => true,
    }
}

pub open spec fn toggle_outcome(w: WorldView, max_slots: u32, participant_entity_id: u64) -> Result<
    WorldView,
    ReducerError,
> {
    match toggled(session_of(w, participant_entity_id), participant_entity_id) {
        None => Err(ReducerError::NotInTradeSession),
        Some(s) => {
            let w1 = with_session(w, participant_entity_id, s);
            if s.approved_by_acceptor && s.approved_by_initiator {
                Ok(close_outcome(w1, w.active_trades[participant_entity_id].trade_session_entity_id, max_slots, true))
            } else {
                Ok(w1)
            }
        },
    }
}

/// The participant flips its approval of its trade session; once both sides
/// approve, the session is closed.
pub fn toggle_accept_trade(world: &mut World, max_slots: u32, participant_entity_id: u64) -> (r: Result<
    (),
    ReducerError,
>)
    requires
        old(world).wf(),
        toggle_requires(old(world)@, participant_entity_id),
    ensures
        final(world).wf(),
        applied(r, old(world)@, final(world)@, toggle_outcome(old(world)@, max_slots, participant_entity_id)),
{
    let _participant = world.player(participant_entity_id).unwrap();
    let active_session = world.active_trade(participant_entity_id).unwrap();
    let mut session = world.trade(active_session.trade_session_entity_id).unwrap();
    if session.acceptor_entity_id == participant_entity_id {
        session.approved_by_acceptor = !session.approved_by_acceptor;
    } else if session.initiator_entity_id == participant_entity_id {
        session.approved_by_initiator = !session.approved_by_initiator;
    } else {
        return Err(ReducerError::NotInTradeSession);
    }
    let close_session = session.approved_by_acceptor && session.approved_by_initiator;
    world.update_trade(session);
    if close_session {
        close_trade_session(world, max_slots, active_session.trade_session_entity_id, true);
    }
    Ok(())
}

/// The participant walks away from its trade session, which is closed.
pub fn refuse_trade(world: &mut World, max_slots: u32, participant_entity_id: u64) -> (r: Result<
    (),
    ReducerError,
>)
    requires
        old(world).wf(),
        old(world)@.players.contains_key(participant_entity_id),
        cancel_requires(old(world)@, participant_entity_id),
    ensures
        final(world).wf(),
        r is Ok,
        final(world)@ == cancel_outcome(old(world)@, participant_entity_id, max_slots),
{
    let _participant = world.player(participant_entity_id).unwrap();
    cancel_trade_session_with_participant(world, max_slots, participant_entity_id);
    Ok(())
}

/// Whether `close_trade_session` can run on this session.
pub fn close_is_defined(world: &World, session_entity_id: u64) -> (r: bool)
    requires
        world.wf(),
    ensures
        r == close_requires(world@, session_entity_id),
{
    match world.trade(session_entity_id) {
        Some(s) => world.inventory(s.initiator_offer_inventory_entity_id).is_some() && world.inventory(
            s.initiator_entity_id,
        ).is_some() && world.inventory(s.acceptor_offer_inventory_entity_id).is_some() && world.inventory(
            s.acceptor_entity_id,
        ).is_some(),
        None => false,
    }
}

/// Whether `cancel_trade_session_with_participant` can run for this player.
pub fn cancel_is_defined(world: &World, participant_entity_id: u64) -> (r: bool)
    requires
        world.wf(),
    ensures
        r == cancel_requires(world@, participant_entity_id),
{
    match world.active_trade(participant_entity_id) {
        Some(a) => close_is_defined(world, a.trade_session_entity_id),
        None => true,
    }
}

/// Whether `refuse_trade` can run for this player.
pub fn refuse_is_defined(world: &World, participant_entity_id: u64) -> (r: bool)
    requires
        world.wf(),
    ensures
        r == (world@.players.contains_key(participant_entity_id) && cancel_requires(world@, participant_entity_id)),
{
    world.player(participant_entity_id).is_some() && cancel_is_defined(world, participant_entity_id)
}

/// Whether `initiate_trade_session` can run on these arguments.
pub fn initiate_is_defined(world: &World, sender: &Identity, initiator_entity_id: u64, acceptor_entity_id: u64) -> (r:
    bool)
    requires
        world.wf(),
    ensures
        r == initiate_requires(world@, *sender, initiator_entity_id, acceptor_entity_id),
{
    let initiator = match world.player(initiator_entity_id) {
        Some(p) => p,
        None => {
            return false;
        },
    };
    if world.player(acceptor_entity_id).is_none() {
        return false;
    }
    if world.active_trade(initiator_entity_id).is_some() || world.active_trade(acceptor_entity_id).is_some()
        || !same_identity(&initiator.owner_id, sender) {
        return true;
    }
    let globals = match world.server_globals(0) {
        Some(g) => g,
        None => {
            return false;
        },
    };
    if globals.entity_id_counter == u64::MAX {
        return false;
    }
    let (_, _, inventory_seq) = world.sequences();
    if inventory_seq >= u64::MAX - 1 {
        return false;
    }
    let session_entity_id = globals.entity_id_counter + 1;
    let fresh = TradeSessionComponent {
        entity_id: session_entity_id,
        initiator_entity_id,
        acceptor_entity_id,
        acceptor_offer_inventory_entity_id: inventory_seq + 2,
        initiator_offer_inventory_entity_id: inventory_seq + 1,
        approved_by_initiator: false,
        approved_by_acceptor: false,
    };
    match world.trade(session_entity_id) {
        Some(existing) => {
            if existing != fresh {
                return false;
            }
        },
        None => {},
    }
    empty_or_absent(world, inventory_seq + 1) && empty_or_absent(world, inventory_seq + 2)
}

/// Inventory `id` is absent or empty.
fn empty_or_absent(world: &World, id: u64) -> (r: bool)
    requires
        world.wf(),
    ensures
        r == (!world@.inventories.contains_key(id) || world@.inventories[id] == empty_inventory(id)),
{
    match world.inventory(id) {
        Some(inv) => {
            proof {
                if inv.pockets@.len() == 0 {
                    assert(inv@.pockets =~= Seq::<Pocket>::empty());
                    assert(inv@ == empty_inventory(id));
                }
            }
            inv.pockets.len() == 0
        },
        None => true,
    }
}

/// Whether the player is in a session that exists.
fn in_session_check(world: &World, participant_entity_id: u64) -> (r: Option<TradeSessionComponent>)
    requires
        world.wf(),
    ensures
        r is Some <==> in_session(world@, participant_entity_id),
        r matches Some(s) ==> s == session_of(world@, participant_entity_id),
{
    if world.player(participant_entity_id).is_none() {
        return None;
    }
    match world.active_trade(participant_entity_id) {
        Some(a) => world.trade(a.trade_session_entity_id),
        None => None,
    }
}

/// Whether moving the pocket in slot `src` of inventory `from` towards
/// inventory `to` can run.
fn transfer_is_defined(world: &World, from: u64, src: u32, from_slots: u32, to: u64) -> (r: bool)
    requires
        world.wf(),
    ensures
        r == transfer_requires(world@, from, src, from_slots, to),
{
    let inventory = match world.inventory(from) {
        Some(inv) => inv,
        None => {
            return false;
        },
    };
    let pocket = match inventory.get_pocket(src) {
        Some(p) => p,
        None => {
            return false;
        },
    };
    if pocket.item_count == i32::MIN {
        return false;
    }
    let mut copy = inventory.duplicate();
    if copy.add(pocket.item_id, -pocket.item_count, Some(src), from_slots) {
        to == from || world.inventory(to).is_some()
    } else {
        true
    }
}

/// Whether `add_to_trade` can run on these arguments.
pub fn add_to_trade_is_defined(world: &World, max_slots: u32, participant_entity_id: u64, src: u32) -> (r: bool)
    requires
        world.wf(),
    ensures
        r == add_to_trade_requires(world@, max_slots, participant_entity_id, src),
{
    match in_session_check(world, participant_entity_id) {
        Some(s) => {
            let offer = if s.initiator_entity_id == participant_entity_id {
                s.initiator_offer_inventory_entity_id
            } else {
                s.acceptor_offer_inventory_entity_id
            };
            proof {
                assert(unapproved(world@, participant_entity_id).inventories == world@.inventories);
            }
            transfer_is_defined(world, participant_entity_id, src, max_slots, offer)
        },
        None => false,
    }
}

/// Whether `remove_from_trade` can run on these arguments.
pub fn remove_from_trade_is_defined(world: &World, trading_slots: u32, participant_entity_id: u64, src: u32) -> (r:
    bool)
    requires
        world.wf(),
    ensures
        r == remove_from_trade_requires(world@, trading_slots, participant_entity_id, src),
{
    match in_session_check(world, participant_entity_id) {
        Some(s) => {
            let offer = if s.initiator_entity_id == participant_entity_id {
                s.initiator_offer_inventory_entity_id
            } else {
                s.acceptor_offer_inventory_entity_id
            };
            proof {
                assert(unapproved(world@, participant_entity_id).inventories == world@.inventories);
            }
            transfer_is_defined(world, offer, src, trading_slots, participant_entity_id)
        },
        None => false,
    }
}

/// Whether `toggle_accept_trade` can run for this player.
pub fn toggle_is_defined(world: &World, participant_entity_id: u64) -> (r: bool)
    requires
        world.wf(),
    ensures
        r == toggle_requires(world@, participant_entity_id),
{
    match in_session_check(world, participant_entity_id) {
        Some(s) => {
            let approved_by_acceptor = if s.acceptor_entity_id == participant_entity_id {
                !s.approved_by_acceptor
            } else {
                s.approved_by_acceptor
            };
            let approved_by_initiator = if s.acceptor_entity_id != participant_entity_id
                && s.initiator_entity_id == participant_entity_id {
                !s.approved_by_initiator
            } else {
                s.approved_by_initiator
            };
            if (s.acceptor_entity_id != participant_entity_id && s.initiator_entity_id != participant_entity_id)
                || !(approved_by_acceptor && approved_by_initiator) {
                return true;
            }
            world.inventory(s.initiator_offer_inventory_entity_id).is_some() && world.inventory(
                s.initiator_entity_id,
            ).is_some() && world.inventory(s.acceptor_offer_inventory_entity_id).is_some() && world.inventory(
                s.acceptor_entity_id,
            ).is_some()
        },
        None => false,
    }
}

} // verus!
