use vstd::prelude::*;
use spacetimedb::Identity;
use crate::components::{PlayerLoginComponent, TradeSessionComponent};
use crate::inventory::{
    add_all, has_pocket, item_total, lemma_pocket_at_idx, lemma_pocket_pos, lemma_with_pocket,
    lemma_without_pocket, pocket_at, pocket_items, slots_unique, with_pocket, without_pocket, Pocket,
};
use crate::laws::{law_add_items_counts, law_merge_keeps_items_when_room, lemma_merge_slots_unique};
use crate::player_actions::{
    disconnect_outcome, signed_in, update_login_outcome, update_login_requires,
};
use crate::trade::{
    acceptor_offer_receiver, add_to_trade_outcome, add_to_trade_requires, cancel_outcome, cancel_requires,
    close_outcome, close_requires, exchange_fits, exchanges, initiate_outcome, initiate_reaches_insert,
    initiate_requires, initiator_offer_receiver, next_session_id, offer_of, remove_from_trade_outcome,
    remove_from_trade_requires, session_of, toggle_outcome, toggle_requires, toggled, trades_consistent,
    transfer, transfer_requires, unapproved, with_session,
};
use crate::world::{inventories_wf, keys_match, ReducerError, WorldView};

verus! {

/// Replacing a session by a row with the same id and the same two sides
/// keeps the world valid and sessions and markers consistent.
proof fn lemma_session_replaced(w: WorldView, sid: u64, s2: TradeSessionComponent)
    requires
        w.trades.contains_key(sid),
        s2.entity_id == sid,
        s2.initiator_entity_id == w.trades[sid].initiator_entity_id,
        s2.acceptor_entity_id == w.trades[sid].acceptor_entity_id,
    ensures
        w.valid() ==> (WorldView { trades: w.trades.insert(sid, s2), ..w }).valid(),
        trades_consistent(w) ==> trades_consistent(WorldView { trades: w.trades.insert(sid, s2), ..w }),
{
    let w2 = WorldView { trades: w.trades.insert(sid, s2), ..w };
    if trades_consistent(w) {
        assert forall|p: u64| #[trigger] w2.active_trades.contains_key(p) implies ({
            let t = w2.active_trades[p].trade_session_entity_id;
            &&& w2.trades.contains_key(t)
            &&& (w2.trades[t].initiator_entity_id == p || w2.trades[t].acceptor_entity_id == p)
        }) by {
            assert(w.active_trades.contains_key(p));
        }
        assert forall|t: u64| #[trigger] w2.trades.contains_key(t) implies ({
            let s = w2.trades[t];
            &&& w2.active_trades.contains_key(s.initiator_entity_id)
            &&& w2.active_trades[s.initiator_entity_id].trade_session_entity_id == t
            &&& w2.active_trades.contains_key(s.acceptor_entity_id)
            &&& w2.active_trades[s.acceptor_entity_id].trade_session_entity_id == t
        }) by {
            assert(w.trades.contains_key(t));
        }
    }
}

/// Closing a trade session deletes the session, both players' active-trade
/// markers and both offer inventories; it touches no other table than
/// inventories, sessions and markers; the world stays valid, and sessions and
/// markers stay consistent.
pub proof fn law_close_ends_session(w: WorldView, session_entity_id: u64, max_slots: u32, success: bool)
    requires
        w.valid(),
        close_requires(w, session_entity_id),
    ensures
        ({
            let w2 = close_outcome(w, session_entity_id, max_slots, success);
            let s = w.trades[session_entity_id];
            &&& !w2.trades.contains_key(session_entity_id)
            &&& !w2.active_trades.contains_key(s.initiator_entity_id)
            &&& !w2.active_trades.contains_key(s.acceptor_entity_id)
            &&& !w2.inventories.contains_key(s.initiator_offer_inventory_entity_id)
            &&& !w2.inventories.contains_key(s.acceptor_offer_inventory_entity_id)
            &&& w2.players == w.players && w2.logins == w.logins && w2.resources == w.resources
            &&& w2.animations == w.animations && w2.npcs == w.npcs && w2.chat == w.chat
            &&& w2.globals == w.globals
            &&& w2.valid()
            &&& trades_consistent(w) ==> trades_consistent(w2)
        }),
{
    let sid = session_entity_id;
    let s = w.trades[sid];
    let ri = initiator_offer_receiver(w, sid, max_slots, success);
    let ra = acceptor_offer_receiver(w, sid, max_slots, success);
    let w1 = w.with_pockets(
        ri,
        merge_pockets_of(w, ri, s.initiator_offer_inventory_entity_id, max_slots),
    );
    lemma_merge_slots_unique(
        w.inventories[ri].pockets,
        w.inventories[s.initiator_offer_inventory_entity_id].pockets,
        max_slots,
    );
    assert(inventories_wf(w1.inventories)) by {
        assert forall|k: u64| #[trigger] w1.inventories.contains_key(k) implies slots_unique(
            w1.inventories[k].pockets,
        ) by {
            if k != ri {
                assert(w.inventories.contains_key(k));
            }
        }
    }
    lemma_merge_slots_unique(
        w1.inventories[ra].pockets,
        w1.inventories[s.acceptor_offer_inventory_entity_id].pockets,
        max_slots,
    );
    let w2 = close_outcome(w, sid, max_slots, success);
    assert(keys_match(w2));
    assert(inventories_wf(w2.inventories)) by {
        assert forall|k: u64| #[trigger] w2.inventories.contains_key(k) implies slots_unique(
            w2.inventories[k].pockets,
        ) by {
            if k != ra {
                assert(w1.inventories.contains_key(k));
            }
        }
    }
    if trades_consistent(w) {
        assert(w.trades.contains_key(sid));
        assert(w.active_trades[s.initiator_entity_id].trade_session_entity_id == sid);
        assert(w.active_trades[s.acceptor_entity_id].trade_session_entity_id == sid);
        assert forall|p: u64| #[trigger] w2.active_trades.contains_key(p) implies ({
            let t = w2.active_trades[p].trade_session_entity_id;
            &&& w2.trades.contains_key(t)
            &&& (w2.trades[t].initiator_entity_id == p || w2.trades[t].acceptor_entity_id == p)
        }) by {
            assert(w.active_trades.contains_key(p));
            let t = w.active_trades[p].trade_session_entity_id;
            assert(w.trades.contains_key(t));
            if t == sid {
                assert(p == s.initiator_entity_id || p == s.acceptor_entity_id);
            }
        }
        assert forall|t: u64| #[trigger] w2.trades.contains_key(t) implies ({
            let s2 = w2.trades[t];
            &&& w2.active_trades.contains_key(s2.initiator_entity_id)
            &&& w2.active_trades[s2.initiator_entity_id].trade_session_entity_id == t
            &&& w2.active_trades.contains_key(s2.acceptor_entity_id)
            &&& w2.active_trades[s2.acceptor_entity_id].trade_session_entity_id == t
        }) by {
            assert(w.trades.contains_key(t));
            assert(t != sid);
        }
    }
}

/// The pockets of inventory `to` with the pockets of inventory `from` added.
pub open spec fn merge_pockets_of(w: WorldView, to: u64, from: u64, max_slots: u32) -> Seq<Pocket> {
    crate::inventory::merge_pockets(w.inventories[to].pockets, w.inventories[from].pockets, max_slots)
}

/// The two players' inventories and the two offers are four distinct
/// inventories.
pub open spec fn four_distinct(w: WorldView, session_entity_id: u64) -> bool {
    let s = w.trades[session_entity_id];
    &&& s.initiator_entity_id != s.acceptor_entity_id
    &&& s.initiator_entity_id != s.initiator_offer_inventory_entity_id
    &&& s.initiator_entity_id != s.acceptor_offer_inventory_entity_id
    &&& s.acceptor_entity_id != s.initiator_offer_inventory_entity_id
    &&& s.acceptor_entity_id != s.acceptor_offer_inventory_entity_id
}

/// A successful close, where each player has room for everything the other
/// side offers, hands every item over: for every kind, the acceptor gains
/// what the initiator offered and the initiator gains what the acceptor
/// offered.
pub proof fn law_close_exchanges_offers(w: WorldView, session_entity_id: u64, max_slots: u32, k: u32)
    requires
        w.valid(),
        close_requires(w, session_entity_id),
        four_distinct(w, session_entity_id),
        exchange_fits(w, session_entity_id, max_slots),
    ensures
        ({
            let s = w.trades[session_entity_id];
            let w2 = close_outcome(w, session_entity_id, max_slots, true);
            &&& item_total(w2.inventories[s.acceptor_entity_id].pockets, k) == item_total(
                w.inventories[s.acceptor_entity_id].pockets,
                k,
            ) + item_total(w.inventories[s.initiator_offer_inventory_entity_id].pockets, k)
            &&& item_total(w2.inventories[s.initiator_entity_id].pockets, k) == item_total(
                w.inventories[s.initiator_entity_id].pockets,
                k,
            ) + item_total(w.inventories[s.acceptor_offer_inventory_entity_id].pockets, k)
        }),
{
    let s = w.trades[session_entity_id];
    assert(w.inventories.contains_key(s.acceptor_entity_id));
    assert(w.inventories.contains_key(s.initiator_entity_id));
    law_merge_keeps_items_when_room(
        w.inventories[s.acceptor_entity_id].pockets,
        w.inventories[s.initiator_offer_inventory_entity_id].pockets,
        max_slots,
        k,
    );
    law_merge_keeps_items_when_room(
        w.inventories[s.initiator_entity_id].pockets,
        w.inventories[s.acceptor_offer_inventory_entity_id].pockets,
        max_slots,
        k,
    );
}

/// A close where the offers do not change hands (it is not a success, or a
/// player lacks room for what the other side offers) gives each player back
/// every item it had put on offer, as long as each has room for its own
/// offer.
pub proof fn law_close_returns_offers(w: WorldView, session_entity_id: u64, max_slots: u32, success: bool, k: u32)
    requires
        w.valid(),
        close_requires(w, session_entity_id),
        four_distinct(w, session_entity_id),
        !exchanges(w, session_entity_id, max_slots, success),
        ({
            let s = w.trades[session_entity_id];
            &&& add_all(
                w.inventories[s.initiator_entity_id].pockets,
                pocket_items(w.inventories[s.initiator_offer_inventory_entity_id].pockets),
                max_slots,
            ) is Some
            &&& add_all(
                w.inventories[s.acceptor_entity_id].pockets,
                pocket_items(w.inventories[s.acceptor_offer_inventory_entity_id].pockets),
                max_slots,
            ) is Some
        }),
    ensures
        ({
            let s = w.trades[session_entity_id];
            let w2 = close_outcome(w, session_entity_id, max_slots, success);
            &&& item_total(w2.inventories[s.initiator_entity_id].pockets, k) == item_total(
                w.inventories[s.initiator_entity_id].pockets,
                k,
            ) + item_total(w.inventories[s.initiator_offer_inventory_entity_id].pockets, k)
            &&& item_total(w2.inventories[s.acceptor_entity_id].pockets, k) == item_total(
                w.inventories[s.acceptor_entity_id].pockets,
                k,
            ) + item_total(w.inventories[s.acceptor_offer_inventory_entity_id].pockets, k)
        }),
{
    let s = w.trades[session_entity_id];
    assert(w.inventories.contains_key(s.acceptor_entity_id));
    assert(w.inventories.contains_key(s.initiator_entity_id));
    law_merge_keeps_items_when_room(
        w.inventories[s.initiator_entity_id].pockets,
        w.inventories[s.initiator_offer_inventory_entity_id].pockets,
        max_slots,
        k,
    );
    law_merge_keeps_items_when_room(
        w.inventories[s.acceptor_entity_id].pockets,
        w.inventories[s.acceptor_offer_inventory_entity_id].pockets,
        max_slots,
        k,
    );
}

/// Closing the session of a player in a consistent world leaves that player
/// without an active-trade marker, and the world valid and consistent.
pub proof fn law_cancel_leaves_no_trade(w: WorldView, participant_entity_id: u64, max_slots: u32)
    requires
        w.valid(),
        trades_consistent(w),
        cancel_requires(w, participant_entity_id),
    ensures
        !cancel_outcome(w, participant_entity_id, max_slots).active_trades.contains_key(participant_entity_id),
        cancel_outcome(w, participant_entity_id, max_slots).valid(),
        trades_consistent(cancel_outcome(w, participant_entity_id, max_slots)),
        cancel_outcome(w, participant_entity_id, max_slots).logins == w.logins,
        cancel_outcome(w, participant_entity_id, max_slots).players == w.players,
{
    if w.active_trades.contains_key(participant_entity_id) {
        law_close_ends_session(w, w.active_trades[participant_entity_id].trade_session_entity_id, max_slots, false);
    }
}

/// Signing out a player that had a login state leaves it signed out and out of
/// any trade; signing in leaves it signed in.
pub proof fn law_login_state_recorded(w: WorldView, sender: Identity, max_slots: u32, logged_in: bool)
    requires
        w.valid(),
        trades_consistent(w),
        update_login_requires(w, sender, logged_in),
    ensures
        ({
            let pid = w.player_of_owner(sender);
            let w2 = update_login_outcome(w, sender, max_slots, logged_in);
            &&& w2.logins[pid] == PlayerLoginComponent { entity_id: pid, logged_in }
            &&& (!logged_in && w.logins.contains_key(pid)) ==> !w2.active_trades.contains_key(pid)
            &&& w2.valid()
            &&& trades_consistent(w2)
        }),
{
    let pid = w.player_of_owner(sender);
    if w.logins.contains_key(pid) && !logged_in {
        law_cancel_leaves_no_trade(w, pid, max_slots);
    }
}

/// A client that disconnects while signed in leaves its player signed out and
/// out of any trade.
pub proof fn law_disconnect_signs_out(w: WorldView, sender: Identity, max_slots: u32)
    requires
        w.valid(),
        trades_consistent(w),
        signed_in(w, sender),
        cancel_requires(w, w.player_of_owner(sender)),
    ensures
        ({
            let pid = w.player_of_owner(sender);
            let w2 = disconnect_outcome(w, sender, max_slots);
            &&& !w2.logins[pid].logged_in
            &&& !w2.active_trades.contains_key(pid)
            &&& w2.valid()
            &&& trades_consistent(w2)
        }),
{
    law_cancel_leaves_no_trade(w, w.player_of_owner(sender), max_slots);
}

/// Opening a trade session keeps the world valid and sessions and markers
/// consistent, whatever the outcome (a refusal leaves the world as it was).
/// When neither player was trading and the caller owns the initiator, the new
/// session has an id no stored session had, names both players, is approved
/// by nobody, both players' markers point at it, and its two offers are
/// distinct, stored and empty.
pub proof fn law_initiate_keeps_trades_consistent(w: WorldView, sender: Identity, initiator: u64, acceptor: u64)
    requires
        w.valid(),
        trades_consistent(w),
        initiate_requires(w, sender, initiator, acceptor),
    ensures
        initiate_outcome(w, sender, initiator, acceptor) matches Ok(w2) ==> w2.valid() && trades_consistent(w2),
        initiate_reaches_insert(w, sender, initiator, acceptor) ==> {
            let w2 = initiate_outcome(w, sender, initiator, acceptor).unwrap();
            let sid = next_session_id(w);
            let s = w2.trades[sid];
            &&& !w.trades.contains_key(sid)
            &&& w2.trades.contains_key(sid)
            &&& w2.active_trades[initiator].trade_session_entity_id == sid
            &&& w2.active_trades[acceptor].trade_session_entity_id == sid
            &&& s.initiator_entity_id == initiator && s.acceptor_entity_id == acceptor
            &&& !s.approved_by_initiator && !s.approved_by_acceptor
            &&& s.initiator_offer_inventory_entity_id != s.acceptor_offer_inventory_entity_id
            &&& w2.inventories.contains_key(s.initiator_offer_inventory_entity_id)
            &&& w2.inventories.contains_key(s.acceptor_offer_inventory_entity_id)
            &&& w2.inventories[s.initiator_offer_inventory_entity_id].pockets.len() == 0
            &&& w2.inventories[s.acceptor_offer_inventory_entity_id].pockets.len() == 0
        },
{
    if initiate_reaches_insert(w, sender, initiator, acceptor) {
        let w2 = initiate_outcome(w, sender, initiator, acceptor).unwrap();
        let sid = next_session_id(w);
        let a = (w.inventory_seq + 1) as u64;
        let b = (w.inventory_seq + 2) as u64;
        if w.trades.contains_key(sid) {
            assert(w.trades[sid].initiator_entity_id == initiator);
            assert(w.active_trades.contains_key(initiator));
        }
        assert(w.globals[0].version as u64 == 0);
        assert(keys_match(w2));
        assert(inventories_wf(w2.inventories)) by {
            assert forall|k: u64| #[trigger] w2.inventories.contains_key(k) implies slots_unique(
                w2.inventories[k].pockets,
            ) by {
                if k != a && k != b {
                    assert(w.inventories.contains_key(k));
                }
            }
        }
        assert forall|p: u64| #[trigger] w2.active_trades.contains_key(p) implies ({
            let t = w2.active_trades[p].trade_session_entity_id;
            &&& w2.trades.contains_key(t)
            &&& (w2.trades[t].initiator_entity_id == p || w2.trades[t].acceptor_entity_id == p)
        }) by {
            if p != initiator && p != acceptor {
                assert(w.active_trades.contains_key(p));
                let t = w.active_trades[p].trade_session_entity_id;
                assert(w.trades.contains_key(t));
            }
        }
        assert forall|t: u64| #[trigger] w2.trades.contains_key(t) implies ({
            let s2 = w2.trades[t];
            &&& w2.active_trades.contains_key(s2.initiator_entity_id)
            &&& w2.active_trades[s2.initiator_entity_id].trade_session_entity_id == t
            &&& w2.active_trades.contains_key(s2.acceptor_entity_id)
            &&& w2.active_trades[s2.acceptor_entity_id].trade_session_entity_id == t
        }) by {
            if t != sid {
                assert(w.trades.contains_key(t));
                let s2 = w.trades[t];
                assert(w.active_trades.contains_key(s2.initiator_entity_id));
                assert(w.active_trades.contains_key(s2.acceptor_entity_id));
            }
        }
    }
}

/// Moving a pocket from one inventory to another neither creates nor
/// destroys items: for every kind, the two inventories hold together what
/// they held before; no other inventory changes.
pub proof fn law_transfer_keeps_items(
    w: WorldView,
    from: u64,
    src: u32,
    from_slots: u32,
    to: u64,
    dst: u32,
    to_slots: u32,
    e1: ReducerError,
    e2: ReducerError,
    k: u32,
)
    requires
        w.valid(),
        from != to,
        transfer_requires(w, from, src, from_slots, to),
        transfer(w, from, src, from_slots, to, dst, to_slots, e1, e2) is Ok,
    ensures
        ({
            let w2 = transfer(w, from, src, from_slots, to, dst, to_slots, e1, e2).unwrap();
            &&& item_total(w2.inventories[from].pockets, k) + item_total(w2.inventories[to].pockets, k)
                == item_total(w.inventories[from].pockets, k) + item_total(w.inventories[to].pockets, k)
            &&& forall|id: u64| id != from && id != to ==> #[trigger] w2.inventories[id] == w.inventories[id]
            &&& w2.inventories.dom() == w.inventories.dom()
            &&& w2.valid()
            &&& w2.trades == w.trades && w2.active_trades == w.active_trades
        }),
{
    let sf = w.inventories[from].pockets;
    let p = pocket_at(sf, src).unwrap();
    let c = (-p.item_count) as i32;
    law_add_items_counts(sf, p.item_id, c, Some(src), from_slots, k);
    let t1 = crate::inventory::add_items(sf, p.item_id, c, Some(src), from_slots).unwrap();
    let w1 = w.with_pockets(from, t1);
    let st = w1.inventories[to].pockets;
    assert(st == w.inventories[to].pockets);
    law_add_items_counts(st, p.item_id, p.item_count, Some(dst), to_slots, k);
    let w2 = transfer(w, from, src, from_slots, to, dst, to_slots, e1, e2).unwrap();
    assert(w2.inventories.dom() =~= w.inventories.dom());
    assert forall|id: u64| #[trigger] w2.inventories.contains_key(id) implies slots_unique(
        w2.inventories[id].pockets,
    ) by {
        if id != from && id != to {
            assert(w.inventories.contains_key(id));
        }
    }
}

/// Putting items on offer withdraws both approvals, keeps sessions and
/// markers consistent and, when the offer is not the player's own inventory,
/// keeps for every kind the items that the player's inventory and offer hold
/// together.
pub proof fn law_add_to_trade_keeps_items(
    w: WorldView,
    max_slots: u32,
    trading_slots: u32,
    participant: u64,
    src: u32,
    dst: u32,
    k: u32,
)
    requires
        w.valid(),
        add_to_trade_requires(w, max_slots, participant, src),
        add_to_trade_outcome(w, max_slots, trading_slots, participant, src, dst) is Ok,
        offer_of(w, participant) != participant,
    ensures
        ({
            let w2 = add_to_trade_outcome(w, max_slots, trading_slots, participant, src, dst).unwrap();
            let offer = offer_of(w, participant);
            let sid = w.active_trades[participant].trade_session_entity_id;
            &&& item_total(w2.inventories[participant].pockets, k) + item_total(w2.inventories[offer].pockets, k)
                == item_total(w.inventories[participant].pockets, k) + item_total(w.inventories[offer].pockets, k)
            &&& !w2.trades[sid].approved_by_initiator && !w2.trades[sid].approved_by_acceptor
            &&& w2.valid()
            &&& trades_consistent(w) ==> trades_consistent(w2)
        }),
{
    let sid = w.active_trades[participant].trade_session_entity_id;
    let s = w.trades[sid];
    lemma_session_replaced(
        w,
        sid,
        TradeSessionComponent { approved_by_acceptor: false, approved_by_initiator: false, ..s },
    );
    let w1 = unapproved(w, participant);
    law_transfer_keeps_items(
        w1,
        participant,
        src,
        max_slots,
        offer_of(w, participant),
        dst,
        trading_slots,
        ReducerError::RemoveFromPlayerInventoryFailed,
        ReducerError::AddToTradeWindowFailed,
        k,
    );
}

/// Taking items back from an offer withdraws both approvals, keeps sessions
/// and markers consistent and, when the offer is not the player's own
/// inventory, keeps for every kind the items that the player's inventory and
/// offer hold together.
pub proof fn law_remove_from_trade_keeps_items(
    w: WorldView,
    max_slots: u32,
    trading_slots: u32,
    participant: u64,
    src: u32,
    dst: u32,
    k: u32,
)
    requires
        w.valid(),
        remove_from_trade_requires(w, trading_slots, participant, src),
        remove_from_trade_outcome(w, max_slots, trading_slots, participant, src, dst) is Ok,
        offer_of(w, participant) != participant,
    ensures
        ({
            let w2 = remove_from_trade_outcome(w, max_slots, trading_slots, participant, src, dst).unwrap();
            let offer = offer_of(w, participant);
            let sid = w.active_trades[participant].trade_session_entity_id;
            &&& item_total(w2.inventories[participant].pockets, k) + item_total(w2.inventories[offer].pockets, k)
                == item_total(w.inventories[participant].pockets, k) + item_total(w.inventories[offer].pockets, k)
            &&& !w2.trades[sid].approved_by_initiator && !w2.trades[sid].approved_by_acceptor
            &&& w2.valid()
            &&& trades_consistent(w) ==> trades_consistent(w2)
        }),
{
    let sid = w.active_trades[participant].trade_session_entity_id;
    let s = w.trades[sid];
    lemma_session_replaced(
        w,
        sid,
        TradeSessionComponent { approved_by_acceptor: false, approved_by_initiator: false, ..s },
    );
    let w1 = unapproved(w, participant);
    law_transfer_keeps_items(
        w1,
        offer_of(w, participant),
        src,
        trading_slots,
        participant,
        dst,
        max_slots,
        ReducerError::RemoveFromTradeInventoryFailed,
        ReducerError::AddToPlayerInventoryFailed,
        k,
    );
}

/// Putting the pocket of slot `x` on offer in an empty slot `y` and then
/// taking it back from `y` into `x` succeeds and restores both inventories:
/// the offer is exactly as it was, every slot of the player's inventory reads
/// as before, and neither side has approved.
pub proof fn law_remove_undoes_add(
    w: WorldView,
    max_slots: u32,
    trading_slots: u32,
    participant: u64,
    x: u32,
    y: u32,
    j: u32,
)
    requires
        w.valid(),
        add_to_trade_requires(w, max_slots, participant, x),
        add_to_trade_outcome(w, max_slots, trading_slots, participant, x, y) is Ok,
        offer_of(w, participant) != participant,
        !has_pocket(w.inventories[offer_of(w, participant)].pockets, y),
    ensures
        ({
            let w1 = add_to_trade_outcome(w, max_slots, trading_slots, participant, x, y).unwrap();
            let o = offer_of(w, participant);
            let sid = w.active_trades[participant].trade_session_entity_id;
            &&& offer_of(w1, participant) == o
            &&& remove_from_trade_requires(w1, trading_slots, participant, y)
            &&& remove_from_trade_outcome(w1, max_slots, trading_slots, participant, y, x) is Ok
            &&& {
                let w2 = remove_from_trade_outcome(w1, max_slots, trading_slots, participant, y, x).unwrap();
                &&& w2.inventories[o] == w.inventories[o]
                &&& pocket_at(w2.inventories[participant].pockets, j) == pocket_at(
                    w.inventories[participant].pockets,
                    j,
                )
                &&& !w2.trades[sid].approved_by_initiator && !w2.trades[sid].approved_by_acceptor
            }
        }),
{
    let o = offer_of(w, participant);
    let sid = w.active_trades[participant].trade_session_entity_id;
    let w0 = unapproved(w, participant);
    let sp = w.inventories[participant].pockets;
    let so = w.inventories[o].pockets;
    assert(w.inventories.contains_key(participant));
    assert(slots_unique(sp));
    let p = pocket_at(sp, x).unwrap();
    lemma_pocket_at_idx(sp, x);
    let c = p.item_count;
    // The first step empties slot `x` of the player's inventory.
    let t1 = without_pocket(sp, x);
    lemma_without_pocket(sp, x);
    let w0b = w0.with_pockets(participant, t1);
    assert(w0b.inventories[o].pockets == so);
    // The second step stores the pocket in the empty slot `y` of the offer.
    let q = Pocket { pocket_idx: y, item_id: p.item_id, item_count: c };
    assert(w.inventories.contains_key(o)) by {
        assert(w0b.inventories.contains_key(o));
    }
    assert(slots_unique(so));
    let o1 = with_pocket(so, q);
    lemma_with_pocket(so, q);
    let w1 = add_to_trade_outcome(w, max_slots, trading_slots, participant, x, y).unwrap();
    assert(w1 == w0b.with_pockets(o, o1));
    assert(c > 0);
    // Taking it back.
    assert(session_of(w1, participant).initiator_entity_id == session_of(w, participant).initiator_entity_id);
    assert(offer_of(w1, participant) == o);
    let w3 = unapproved(w1, participant);
    assert(w3.inventories == w1.inventories);
    assert(pocket_at(o1, y) == Some(q));
    lemma_pocket_pos(o1, so.len() as int);
    assert(without_pocket(o1, y) =~= so);
    let w4 = w3.with_pockets(o, so);
    assert(w4.inventories[participant].pockets == t1);
    let q2 = Pocket { pocket_idx: x, item_id: p.item_id, item_count: c };
    lemma_with_pocket(t1, q2);
    let w2 = remove_from_trade_outcome(w1, max_slots, trading_slots, participant, y, x).unwrap();
    assert(w2 == w4.with_pockets(participant, with_pocket(t1, q2)));
    assert(w.inventories[o].entity_id == o);
    if j != x {
        assert(pocket_at(with_pocket(t1, q2), j) == pocket_at(t1, j));
    }
}

/// Flipping an approval keeps the world valid and sessions and markers
/// consistent; once both sides approve, the session is gone, along with both
/// markers.
pub proof fn law_toggle_closes_when_both_approve(w: WorldView, max_slots: u32, participant: u64)
    requires
        w.valid(),
        trades_consistent(w),
        toggle_requires(w, participant),
        toggle_outcome(w, max_slots, participant) is Ok,
    ensures
        ({
            let w2 = toggle_outcome(w, max_slots, participant).unwrap();
            let sid = w.active_trades[participant].trade_session_entity_id;
            let s = toggled(session_of(w, participant), participant).unwrap();
            &&& w2.valid()
            &&& trades_consistent(w2)
            &&& (s.approved_by_acceptor && s.approved_by_initiator) ==> {
                &&& !w2.trades.contains_key(sid)
                &&& !w2.active_trades.contains_key(participant)
            }
            &&& !(s.approved_by_acceptor && s.approved_by_initiator) ==> w2.trades[sid] == s
        }),
{
    let sid = w.active_trades[participant].trade_session_entity_id;
    let s = toggled(session_of(w, participant), participant).unwrap();
    lemma_session_replaced(w, sid, s);
    let w1 = with_session(w, participant, s);
    if s.approved_by_acceptor && s.approved_by_initiator {
        law_close_ends_session(w1, sid, max_slots, true);
    }
}

/// The approval flag of the participant's own side of session `s`.
pub open spec fn own_approval(s: TradeSessionComponent, participant: u64) -> bool {
    if s.acceptor_entity_id == participant {
        s.approved_by_acceptor
    } else {
        s.approved_by_initiator
    }
}

/// The approval flag of the other side of session `s`.
pub open spec fn other_approval(s: TradeSessionComponent, participant: u64) -> bool {
    if s.acceptor_entity_id == participant {
        s.approved_by_initiator
    } else {
        s.approved_by_acceptor
    }
}

/// While the other side has not approved, a player flipping its approval
/// twice succeeds both times and leaves the world exactly as it was.
pub proof fn law_toggle_twice_restores(w: WorldView, max_slots: u32, participant: u64)
    requires
        w.valid(),
        toggle_requires(w, participant),
        session_of(w, participant).initiator_entity_id == participant || session_of(w, participant).acceptor_entity_id
            == participant,
        !other_approval(session_of(w, participant), participant),
    ensures
        toggle_outcome(w, max_slots, participant) is Ok,
        toggle_requires(toggle_outcome(w, max_slots, participant).unwrap(), participant),
        toggle_outcome(toggle_outcome(w, max_slots, participant).unwrap(), max_slots, participant) == Ok::<
            WorldView,
            ReducerError,
        >(w),
{
    let sid = w.active_trades[participant].trade_session_entity_id;
    let s = session_of(w, participant);
    let s1 = toggled(s, participant).unwrap();
    let w1 = with_session(w, participant, s1);
    assert(toggle_outcome(w, max_slots, participant) == Ok::<WorldView, ReducerError>(w1));
    assert(session_of(w1, participant) == s1);
    assert(toggled(s1, participant) == Some(s));
    let w2 = with_session(w1, participant, s);
    assert(w2.trades =~= w.trades);
    assert(w2 == w);
}

/// When the other side has approved already and the participant has not, the
/// participant's approval closes the trade exactly as a successful close of
/// the session approved by both sides.
pub proof fn law_toggle_completes_trade(w: WorldView, max_slots: u32, participant: u64)
    requires
        w.valid(),
        toggle_requires(w, participant),
        session_of(w, participant).initiator_entity_id == participant || session_of(w, participant).acceptor_entity_id
            == participant,
        !own_approval(session_of(w, participant), participant),
        other_approval(session_of(w, participant), participant),
    ensures
        ({
            let s = session_of(w, participant);
            let sid = w.active_trades[participant].trade_session_entity_id;
            let both = TradeSessionComponent { approved_by_initiator: true, approved_by_acceptor: true, ..s };
            toggle_outcome(w, max_slots, participant) == Ok::<WorldView, ReducerError>(
                close_outcome(with_session(w, participant, both), sid, max_slots, true),
            )
        }),
{
    let s = session_of(w, participant);
    let both = TradeSessionComponent { approved_by_initiator: true, approved_by_acceptor: true, ..s };
    assert(toggled(s, participant) == Some(both));
}

} // verus!
