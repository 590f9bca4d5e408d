use vstd::prelude::*;
use spacetimedb::Identity;
use crate::inventory::{
    add_all, add_at, add_items, has_pocket, is_first_free, is_lowest_holder, item_total, lemma_pocket_at_idx,
    lemma_total_with_pocket, lemma_total_without_pocket, lemma_with_pocket, lemma_without_pocket, merge_pockets,
    pocket_at, pocket_items, slots_unique, with_pocket, without_pocket, Pocket, counts_positive,
};
use crate::player_actions::{
    create_player_outcome, create_player_requires, extract_outcome, extract_requires, move_or_swap_outcome,
    move_or_swap_requires, moved_pockets,
};
use crate::world::{inventories_wf, players_distinct, WorldView};

verus! {

proof fn lemma_add_at_counts(s: Seq<Pocket>, item_id: u32, count: i32, idx: u32, max_slots: u32, k: u32)
    requires
        slots_unique(s),
        add_at(s, item_id, count, idx, max_slots) is Some,
    ensures
        slots_unique(add_at(s, item_id, count, idx, max_slots).unwrap()),
        counts_positive(s) ==> counts_positive(add_at(s, item_id, count, idx, max_slots).unwrap()),
        item_total(add_at(s, item_id, count, idx, max_slots).unwrap(), k) == item_total(s, k) + (if k
            == item_id {
            count as int
        } else {
            0
        }),
{
    match pocket_at(s, idx) {
        Some(p) => {
            let total = p.item_count + count;
            if total == 0 {
                lemma_without_pocket(s, idx);
                lemma_total_without_pocket(s, idx, k);
            } else {
                let q = Pocket { item_count: total as i32, ..p };
                lemma_with_pocket(s, q);
                lemma_total_with_pocket(s, q, k);
            }
        },
        None => {
            let q = Pocket { pocket_idx: idx, item_id, item_count: count };
            lemma_with_pocket(s, q);
            lemma_total_with_pocket(s, q, k);
        },
    }
}

/// Adding items keeps one pocket per slot, each with a positive count,
/// changes the total of the kind added by exactly the count added, and leaves
/// every other kind's total as it was.
pub proof fn law_add_items_counts(
    s: Seq<Pocket>,
    item_id: u32,
    count: i32,
    index: Option<u32>,
    max_slots: u32,
    k: u32,
)
    requires
        slots_unique(s),
        add_items(s, item_id, count, index, max_slots) is Some,
    ensures
        slots_unique(add_items(s, item_id, count, index, max_slots).unwrap()),
        counts_positive(s) ==> counts_positive(add_items(s, item_id, count, index, max_slots).unwrap()),
        item_total(add_items(s, item_id, count, index, max_slots).unwrap(), k) == item_total(s, k) + (if k
            == item_id {
            count as int
        } else {
            0
        }),
{
    match index {
        Some(idx) => lemma_add_at_counts(s, item_id, count, idx, max_slots, k),
        None => {
            if crate::inventory::holds_item(s, item_id) {
                let idx = choose|idx: u32| is_lowest_holder(s, item_id, idx);
                lemma_add_at_counts(s, item_id, count, idx, max_slots, k);
            } else {
                let idx = choose|idx: u32| is_first_free(s, idx, max_slots);
                lemma_add_at_counts(s, item_id, count, idx, max_slots, k);
            }
        },
    }
}

/// Dragging a pocket onto another slot of the same inventory neither creates
/// nor destroys items: every kind's total stays the same, and the inventory
/// still holds one pocket per slot.
pub proof fn law_moved_pockets_keep_items(s: Seq<Pocket>, src: u32, dst: u32, k: u32)
    requires
        slots_unique(s),
        has_pocket(s, src),
        src != dst,
        crate::player_actions::stack_fits(s, src, dst),
    ensures
        slots_unique(moved_pockets(s, src, dst)),
        item_total(moved_pockets(s, src, dst), k) == item_total(s, k),
{
    let sp = pocket_at(s, src).unwrap();
    let s1 = without_pocket(s, src);
    lemma_without_pocket(s, src);
    lemma_total_without_pocket(s, src, k);
    match pocket_at(s, dst) {
        None => {
            let q = Pocket { pocket_idx: dst, ..sp };
            assert(pocket_at(s1, dst) == pocket_at(s, dst));
            lemma_with_pocket(s1, q);
            lemma_total_with_pocket(s1, q, k);
        },
        Some(dp) => {
            assert(pocket_at(s1, dst) == Some(dp));
            if sp.item_id == dp.item_id {
                let q = Pocket { item_count: (dp.item_count + sp.item_count) as i32, ..dp };
                lemma_with_pocket(s1, q);
                lemma_total_with_pocket(s1, q, k);
            } else {
                let s2 = without_pocket(s1, dst);
                lemma_without_pocket(s1, dst);
                lemma_total_without_pocket(s1, dst, k);
                let q1 = Pocket { pocket_idx: dst, ..sp };
                let s3 = with_pocket(s2, q1);
                assert(pocket_at(s2, dst) == None::<Pocket>);
                lemma_with_pocket(s2, q1);
                lemma_total_with_pocket(s2, q1, k);
                let q2 = Pocket { pocket_idx: src, ..dp };
                assert(pocket_at(s2, src) == None::<Pocket>);
                assert(pocket_at(s3, src) == pocket_at(s2, src));
                lemma_with_pocket(s3, q2);
                lemma_total_with_pocket(s3, q2, k);
            }
        },
    }
}

/// A successful move or swap between inventory slots changes only that
/// inventory, keeps every kind's item total in it, and keeps every inventory
/// at one pocket per slot.
pub proof fn law_move_or_swap_keeps_items(
    w: WorldView,
    sender: Identity,
    max_slots: u32,
    player_entity_id: u64,
    inventory_entity_id: u64,
    src: u32,
    dst: u32,
    k: u32,
)
    requires
        inventories_wf(w.inventories),
        move_or_swap_requires(w, sender, max_slots, player_entity_id, inventory_entity_id, src, dst),
        move_or_swap_outcome(w, sender, max_slots, player_entity_id, inventory_entity_id, src, dst) is Ok,
    ensures
        ({
            let w2 = move_or_swap_outcome(
                w,
                sender,
                max_slots,
                player_entity_id,
                inventory_entity_id,
                src,
                dst,
            ).unwrap();
            &&& inventories_wf(w2.inventories)
            &&& w2.inventories.dom() == w.inventories.dom()
            &&& forall|id: u64| #[trigger]
                w.inventories.contains_key(id) ==> item_total(w2.inventories[id].pockets, k)
                    == item_total(w.inventories[id].pockets, k)
            &&& w2.players == w.players && w2.trades == w.trades && w2.active_trades == w.active_trades
        }),
{
    let w2 = move_or_swap_outcome(w, sender, max_slots, player_entity_id, inventory_entity_id, src, dst).unwrap();
    if src != dst {
        let s = w.inventories[inventory_entity_id].pockets;
        law_moved_pockets_keep_items(s, src, dst, k);
        assert(w2.inventories.dom() =~= w.inventories.dom());
        assert forall|id: u64| #[trigger] w2.inventories.contains_key(id) implies slots_unique(
            w2.inventories[id].pockets,
        ) by {
            if id != inventory_entity_id {
                assert(w.inventories.contains_key(id));
            }
        }
    }
}


/// Adding pockets one by one keeps one pocket per slot, each with a positive
/// count.
pub proof fn lemma_merge_slots_unique(s: Seq<Pocket>, others: Seq<Pocket>, max_slots: u32)
    requires
        slots_unique(s),
    ensures
        slots_unique(merge_pockets(s, others, max_slots)),
        counts_positive(s) ==> counts_positive(merge_pockets(s, others, max_slots)),
    decreases others.len(),
{
    if others.len() > 0 {
        lemma_merge_slots_unique(s, others.drop_last(), max_slots);
        let prev = merge_pockets(s, others.drop_last(), max_slots);
        let p = others.last();
        if add_items(prev, p.item_id, p.item_count, None, max_slots) is Some {
            law_add_items_counts(prev, p.item_id, p.item_count, None, max_slots, 0);
        }
    }
}

/// Harvesting puts the resource's yield into the player's inventory and takes
/// one health point from the resource, which disappears at zero.
pub proof fn law_extract_harvests(w: WorldView, max_slots: u32, entity_id: u64, resource_entity_id: u64)
    requires
        w.valid(),
        extract_requires(w, max_slots, entity_id, resource_entity_id),
        extract_outcome(w, max_slots, entity_id, resource_entity_id) is Ok,
    ensures
        ({
            let w2 = extract_outcome(w, max_slots, entity_id, resource_entity_id).unwrap();
            let res = w.resources[resource_entity_id];
            &&& item_total(w2.inventories[entity_id].pockets, res.item_yield_id as u32) == item_total(
                w.inventories[entity_id].pockets,
                res.item_yield_id as u32,
            ) + res.item_yield_quantity
            &&& res.health == 1 ==> !w2.resources.contains_key(resource_entity_id)
            &&& res.health > 1 ==> w2.resources[resource_entity_id].health == res.health - 1
            &&& w2.valid()
        }),
{
    let res = w.resources[resource_entity_id];
    let s = w.inventories[entity_id].pockets;
    law_add_items_counts(
        s,
        res.item_yield_id as u32,
        res.item_yield_quantity as i32,
        None,
        max_slots,
        res.item_yield_id as u32,
    );
    let w2 = extract_outcome(w, max_slots, entity_id, resource_entity_id).unwrap();
    assert forall|id: u64| #[trigger] w2.inventories.contains_key(id) implies slots_unique(
        w2.inventories[id].pockets,
    ) by {
        if id != entity_id {
            assert(w.inventories.contains_key(id));
        }
    }
}

/// Every stored resource has at least one health point.
pub open spec fn resources_alive(w: WorldView) -> bool {
    forall|id: u64| #[trigger] w.resources.contains_key(id) ==> w.resources[id].health >= 1
}

/// Harvesting keeps every stored resource alive: one that reaches zero
/// health is deleted, and health never goes below zero.
pub proof fn law_extract_keeps_resources_alive(w: WorldView, max_slots: u32, entity_id: u64, resource_entity_id: u64)
    requires
        extract_requires(w, max_slots, entity_id, resource_entity_id),
        resources_alive(w),
    ensures
        extract_outcome(w, max_slots, entity_id, resource_entity_id) matches Ok(w2) ==> resources_alive(w2),
{
    if let Ok(w2) = extract_outcome(w, max_slots, entity_id, resource_entity_id) {
        assert forall|id: u64| #[trigger] w2.resources.contains_key(id) implies w2.resources[id].health >= 1 by {
            if id != resource_entity_id {
                assert(w.resources.contains_key(id));
            }
        }
    }
}

/// A new player is the one its owner finds, and starts with an empty
/// inventory; the world stays valid.
pub proof fn law_created_player_found_by_owner(w: WorldView, sender: Identity, timestamp_micros: i64, username: Seq<char>)
    requires
        w.valid(),
        create_player_requires(w, sender, timestamp_micros, username),
        create_player_outcome(w, sender, timestamp_micros, username) is Ok,
    ensures
        ({
            let w2 = create_player_outcome(w, sender, timestamp_micros, username).unwrap();
            let id = (w.player_seq + 1) as u64;
            &&& w2.owner_has_player(sender)
            &&& w2.player_of_owner(sender) == id
            &&& w2.players[id].username == username
            &&& w2.inventories[id].pockets.len() == 0
            &&& w2.valid()
        }),
{
    let w2 = create_player_outcome(w, sender, timestamp_micros, username).unwrap();
    let id = (w.player_seq + 1) as u64;
    assert(w2.players.contains_key(id) && w2.players[id].owner_id == sender);
    assert(w2.owner_has_player(sender));
    let c = w2.player_of_owner(sender);
    assert(players_distinct(w2.players)) by {
        assert forall|k1: u64, k2: u64|
            #![trigger w2.players[k1], w2.players[k2]]
            w2.players.contains_key(k1) && w2.players.contains_key(k2) && k1 != k2 implies {
                &&& w2.players[k1].owner_id != w2.players[k2].owner_id
                &&& w2.players[k1].username != w2.players[k2].username
            } by {
            if k1 == id {
                assert(w.players.contains_key(k2));
                assert(w.players[k2] == w2.players[k2]);
            } else if k2 == id {
                assert(w.players.contains_key(k1));
                assert(w.players[k1] == w2.players[k1]);
            } else {
                assert(w.players[k1] == w2.players[k1]);
                assert(w.players[k2] == w2.players[k2]);
            }
        }
    }
    if c != id {
        assert(w2.players[c].owner_id != w2.players[id].owner_id);
    }
    assert forall|k: u64| #[trigger] w2.inventories.contains_key(k) implies slots_unique(
        w2.inventories[k].pockets,
    ) by {
        if k != id {
            assert(w.inventories.contains_key(k));
        }
    }
}

/// A negative count takes items out of a slot: from a slot holding at least
/// that many items of the kind, the request succeeds, the slot keeps what is
/// left (and is emptied when nothing is left), and the kind's total drops by
/// exactly that many.
pub proof fn law_negative_count_removes(s: Seq<Pocket>, item_id: u32, n: i32, idx: u32, max_slots: u32)
    requires
        slots_unique(s),
        counts_positive(s),
        idx < max_slots,
        0 < n,
        pocket_at(s, idx) matches Some(p) && p.item_id == item_id && n <= p.item_count,
    ensures
        add_items(s, item_id, -n as i32, Some(idx), max_slots) is Some,
        ({
            let p = pocket_at(s, idx).unwrap();
            let t = add_items(s, item_id, -n as i32, Some(idx), max_slots).unwrap();
            &&& pocket_at(t, idx) == (if n == p.item_count {
                None::<Pocket>
            } else {
                Some(Pocket { item_count: (p.item_count - n) as i32, ..p })
            })
            &&& item_total(t, item_id) == item_total(s, item_id) - n
            &&& slots_unique(t) && counts_positive(t)
        }),
{
    let p = pocket_at(s, idx).unwrap();
    lemma_add_at_counts(s, item_id, -n as i32, idx, max_slots, item_id);
    if n == p.item_count {
        lemma_without_pocket(s, idx);
    } else {
        lemma_with_pocket(s, Pocket { item_count: (p.item_count - n) as i32, ..p });
        lemma_pocket_at_idx(s, idx);
    }
}

/// Taking back, from the same slot, items that were just added restores the
/// pockets exactly.
pub proof fn law_add_then_take_back(s: Seq<Pocket>, item_id: u32, count: i32, idx: u32, max_slots: u32)
    requires
        slots_unique(s),
        counts_positive(s),
        count > 0,
        add_items(s, item_id, count, Some(idx), max_slots) is Some,
    ensures
        add_items(
            add_items(s, item_id, count, Some(idx), max_slots).unwrap(),
            item_id,
            -count as i32,
            Some(idx),
            max_slots,
        ) == Some(s),
{
    let t = add_items(s, item_id, count, Some(idx), max_slots).unwrap();
    match pocket_at(s, idx) {
        Some(p) => {
            let pos = crate::inventory::pocket_pos(s, idx);
            let q = Pocket { item_count: (p.item_count + count) as i32, ..p };
            lemma_with_pocket(s, q);
            assert(t == s.update(pos, q));
            crate::inventory::lemma_pocket_pos(t, pos);
            assert(t.update(pos, p) =~= s);
        },
        None => {
            let q = Pocket { pocket_idx: idx, item_id, item_count: count };
            lemma_with_pocket(s, q);
            assert(t == s.push(q));
            crate::inventory::lemma_pocket_pos(t, s.len() as int);
            assert(t.remove(s.len() as int) =~= s);
        },
    }
}

/// What each slot holds after dragging slot `src` onto slot `dst`.
pub open spec fn moved_slot(s: Seq<Pocket>, src: u32, dst: u32, j: u32) -> Option<Pocket> {
    let sp = pocket_at(s, src).unwrap();
    match pocket_at(s, dst) {
        None => if j == dst {
            Some(Pocket { pocket_idx: dst, ..sp })
        } else if j == src {
            None
        } else {
            pocket_at(s, j)
        },
        Some(dp) => if sp.item_id == dp.item_id {
            if j == dst {
                Some(Pocket { item_count: (dp.item_count + sp.item_count) as i32, ..dp })
            } else if j == src {
                None
            } else {
                pocket_at(s, j)
            }
        } else {
            if j == dst {
                Some(Pocket { pocket_idx: dst, ..sp })
            } else if j == src {
                Some(Pocket { pocket_idx: src, ..dp })
            } else {
                pocket_at(s, j)
            }
        },
    }
}

/// Dragging slot `src` onto slot `dst` empties `src` and fills `dst` when
/// `dst` was empty, stacks `src` onto `dst` for the same kind of item, and
/// swaps the two otherwise; every other slot reads as before.
pub proof fn lemma_moved_slots(s: Seq<Pocket>, src: u32, dst: u32)
    requires
        slots_unique(s),
        has_pocket(s, src),
        src != dst,
    ensures
        slots_unique(moved_pockets(s, src, dst)),
        forall|j: u32| #[trigger] pocket_at(moved_pockets(s, src, dst), j) == moved_slot(s, src, dst, j),
{
    let sp = pocket_at(s, src).unwrap();
    let s1 = without_pocket(s, src);
    lemma_without_pocket(s, src);
    match pocket_at(s, dst) {
        None => {
            let q = Pocket { pocket_idx: dst, ..sp };
            lemma_with_pocket(s1, q);
        },
        Some(dp) => {
            if sp.item_id == dp.item_id {
                let q = Pocket { item_count: (dp.item_count + sp.item_count) as i32, ..dp };
                assert(pocket_at(s1, dst) == Some(dp));
                lemma_with_pocket(s1, q);
            } else {
                let s2 = without_pocket(s1, dst);
                lemma_without_pocket(s1, dst);
                let q1 = Pocket { pocket_idx: dst, ..sp };
                let s3 = with_pocket(s2, q1);
                lemma_with_pocket(s2, q1);
                let q2 = Pocket { pocket_idx: src, ..dp };
                lemma_with_pocket(s3, q2);
            }
        },
    }
}

/// Dragging a pocket onto an empty slot or onto another kind of item, and
/// then dragging it back, leaves every slot as it was.
pub proof fn law_move_back_restores_slots(s: Seq<Pocket>, src: u32, dst: u32, j: u32)
    requires
        slots_unique(s),
        has_pocket(s, src),
        src != dst,
        pocket_at(s, dst) matches Some(dp) ==> dp.item_id != pocket_at(s, src).unwrap().item_id,
    ensures
        pocket_at(moved_pockets(moved_pockets(s, src, dst), dst, src), j) == pocket_at(s, j),
{
    let m = moved_pockets(s, src, dst);
    lemma_moved_slots(s, src, dst);
    assert(pocket_at(m, dst) == moved_slot(s, src, dst, dst));
    assert(pocket_at(m, src) == moved_slot(s, src, dst, src));
    lemma_moved_slots(m, dst, src);
    assert(pocket_at(moved_pockets(m, dst, src), j) == moved_slot(m, dst, src, j));
    if j != src && j != dst {
        assert(pocket_at(m, j) == moved_slot(s, src, dst, j));
    }
    lemma_pocket_at_idx(s, src);
    if pocket_at(s, dst) is Some {
        lemma_pocket_at_idx(s, dst);
    }
}

/// When an inventory can take every pocket of `others` in turn, adding them
/// loses nothing: each kind's total grows by what `others` held of it.
pub proof fn law_merge_keeps_items_when_room(s: Seq<Pocket>, others: Seq<Pocket>, max_slots: u32, k: u32)
    requires
        slots_unique(s),
        add_all(s, pocket_items(others), max_slots) is Some,
    ensures
        merge_pockets(s, others, max_slots) == add_all(s, pocket_items(others), max_slots).unwrap(),
        item_total(merge_pockets(s, others, max_slots), k) == item_total(s, k) + item_total(others, k),
    decreases others.len(),
{
    if others.len() > 0 {
        let init = others.drop_last();
        assert(pocket_items(others).drop_last() =~= pocket_items(init));
        law_merge_keeps_items_when_room(s, init, max_slots, k);
        lemma_merge_slots_unique(s, init, max_slots);
        let prev = merge_pockets(s, init, max_slots);
        let p = others.last();
        assert(pocket_items(others).last() == (p.item_id, p.item_count));
        law_add_items_counts(prev, p.item_id, p.item_count, None, max_slots, k);
    }
}

} // verus!
