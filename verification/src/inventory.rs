use vstd::prelude::*;
use crate::table::KeyedRow;

verus! {

/// A stack of `item_count` items of kind `item_id` held in slot `pocket_idx`.
#[derive(Clone, Copy, Debug, PartialEq, Eq, Structural)]
pub struct Pocket {
    pub pocket_idx: u32,
    pub item_id: u32,
    pub item_count: i32,
}

/// No two pockets occupy the same slot.
pub open spec fn slots_unique(s: Seq<Pocket>) -> bool {
    forall|i: int, j: int|
        #![trigger s[i], s[j]]
        0 <= i < s.len() && 0 <= j < s.len() && i != j ==> s[i].pocket_idx != s[j].pocket_idx
}

/// Every pocket holds a positive number of items.
pub open spec fn counts_positive(s: Seq<Pocket>) -> bool {
    forall|i: int| 0 <= i < s.len() ==> #[trigger] s[i].item_count > 0
}

/// One pocket per slot, each holding a positive number of items.
pub open spec fn pockets_wf(s: Seq<Pocket>) -> bool {
    &&& slots_unique(s)
    &&& counts_positive(s)
}

/// Some pocket occupies slot `idx`.
pub open spec fn has_pocket(s: Seq<Pocket>, idx: u32) -> bool {
    exists|i: int| 0 <= i < s.len() && #[trigger] s[i].pocket_idx == idx
}

/// Position, in storage order, of the pocket in slot `idx`.
pub open spec fn pocket_pos(s: Seq<Pocket>, idx: u32) -> int {
    choose|i: int| 0 <= i < s.len() && #[trigger] s[i].pocket_idx == idx
}

/// The pocket in slot `idx`, if any.
pub open spec fn pocket_at(s: Seq<Pocket>, idx: u32) -> Option<Pocket> {
    if has_pocket(s, idx) {
        Some(s[pocket_pos(s, idx)])
    } else {
        None
    }
}

/// Stores `p`: it replaces the pocket in its slot in place, or is appended.
pub open spec fn with_pocket(s: Seq<Pocket>, p: Pocket) -> Seq<Pocket> {
    if has_pocket(s, p.pocket_idx) {
        s.update(pocket_pos(s, p.pocket_idx), p)
    } else {
        s.push(p)
    }
}

/// Removes the pocket in slot `idx`, keeping the order of the others.
pub open spec fn without_pocket(s: Seq<Pocket>, idx: u32) -> Seq<Pocket> {
    if has_pocket(s, idx) {
        s.remove(pocket_pos(s, idx))
    } else {
        s
    }
}

/// Slot `idx` is the lowest slot that holds items of kind `item_id`.
pub open spec fn is_lowest_holder(s: Seq<Pocket>, item_id: u32, idx: u32) -> bool {
    &&& exists|i: int| 0 <= i < s.len() && #[trigger] s[i].pocket_idx == idx && s[i].item_id == item_id
    &&& forall|i: int| 0 <= i < s.len() && #[trigger] s[i].item_id == item_id ==> idx <= s[i].pocket_idx
}

/// Some pocket holds items of kind `item_id`.
pub open spec fn holds_item(s: Seq<Pocket>, item_id: u32) -> bool {
    exists|i: int| 0 <= i < s.len() && #[trigger] s[i].item_id == item_id
}

/// Slot `idx` is the lowest empty slot below `max_slots`.
pub open spec fn is_first_free(s: Seq<Pocket>, idx: u32, max_slots: u32) -> bool {
    &&& idx < max_slots
    &&& !has_pocket(s, idx)
    &&& forall|j: u32| j < idx ==> #[trigger] has_pocket(s, j)
}

/// Adding `count` items of kind `item_id` to slot `idx` (a negative count
/// takes items out). `None` when refused: the slot is out of range, holds
/// another kind of item, would go below zero or above `i32::MAX`, or is empty
/// and nothing positive is added. A stack that reaches zero is removed.
pub open spec fn add_at(s: Seq<Pocket>, item_id: u32, count: i32, idx: u32, max_slots: u32) -> Option<
    Seq<Pocket>,
> {
    if idx >= max_slots {
        None
    } else {
        match pocket_at(s, idx) {
            Some(p) => {
                let total = p.item_count + count;
                if p.item_id != item_id || total < 0 || total > i32::MAX {
                    None
                } else if total == 0 {
                    Some(without_pocket(s, idx))
                } else {
                    Some(with_pocket(s, Pocket { item_count: total as i32, ..p }))
                }
            },
            None => {
                if count <= 0 {
                    None
                } else {
                    Some(with_pocket(s, Pocket { pocket_idx: idx, item_id, item_count: count }))
                }
            },
        }
    }
}

/// Adding items to slot `index`, or, without a slot, to the lowest slot that
/// already holds that kind of item, else to the lowest empty slot.
pub open spec fn add_items(
    s: Seq<Pocket>,
    item_id: u32,
    count: i32,
    index: Option<u32>,
    max_slots: u32,
) -> Option<Seq<Pocket>> {
    match index {
        Some(idx) => add_at(s, item_id, count, idx, max_slots),
        None => {
            if holds_item(s, item_id) {
                add_at(
                    s,
                    item_id,
                    count,
                    choose|idx: u32| is_lowest_holder(s, item_id, idx),
                    max_slots,
                )
            } else if count > 0 && exists|idx: u32| is_first_free(s, idx, max_slots) {
                add_at(
                    s,
                    item_id,
                    count,
                    choose|idx: u32| is_first_free(s, idx, max_slots),
                    max_slots,
                )
            } else {
                None
            }
        },
    }
}

/// Adding every `(item_id, count)` pair in turn, each to its own stack or the
/// lowest empty slot; `None` as soon as one is refused.
pub open spec fn add_all(s: Seq<Pocket>, items: Seq<(u32, i32)>, max_slots: u32) -> Option<
    Seq<Pocket>,
>
    decreases items.len(),
{
    if items.len() == 0 {
        Some(s)
    } else {
        match add_all(s, items.drop_last(), max_slots) {
            Some(t) => add_items(t, items.last().0, items.last().1, None, max_slots),
            None => None,
        }
    }
}

/// Adding the contents of the pockets `others` in turn, each to its own stack
/// or the lowest empty slot; a pocket that is refused is left out.
pub open spec fn merge_pockets(s: Seq<Pocket>, others: Seq<Pocket>, max_slots: u32) -> Seq<Pocket>
    decreases others.len(),
{
    if others.len() == 0 {
        s
    } else {
        let prev = merge_pockets(s, others.drop_last(), max_slots);
        match add_items(prev, others.last().item_id, others.last().item_count, None, max_slots) {
            Some(t) => t,
            None => prev,
        }
    }
}

/// The `(item_id, item_count)` pair of each pocket, in storage order.
pub open spec fn pocket_items(s: Seq<Pocket>) -> Seq<(u32, i32)> {
    s.map_values(|p: Pocket| (p.item_id, p.item_count))
}

/// How many items of kind `item_id` the pockets hold together.
pub open spec fn item_total(s: Seq<Pocket>, item_id: u32) -> int
    decreases s.len(),
{
    if s.len() == 0 {
        0
    } else {
        item_total(s.drop_last(), item_id) + (if s.last().item_id == item_id {
            s.last().item_count as int
        } else {
            0
        })
    }
}

pub proof fn lemma_pocket_pos(s: Seq<Pocket>, i: int)
    requires
        slots_unique(s),
        0 <= i < s.len(),
    ensures
        has_pocket(s, s[i].pocket_idx),
        pocket_pos(s, s[i].pocket_idx) == i,
        pocket_at(s, s[i].pocket_idx) == Some(s[i]),
{
    assert(has_pocket(s, s[i].pocket_idx));
    let j = pocket_pos(s, s[i].pocket_idx);
    assert(s[j].pocket_idx == s[i].pocket_idx);
}

/// Storing a pocket keeps slots unique; reading its slot gives it back, and
/// every other slot reads as before.
pub proof fn lemma_with_pocket(s: Seq<Pocket>, p: Pocket)
    requires
        slots_unique(s),
    ensures
        slots_unique(with_pocket(s, p)),
        pocket_at(with_pocket(s, p), p.pocket_idx) == Some(p),
        forall|j: u32| j != p.pocket_idx ==> #[trigger] pocket_at(with_pocket(s, p), j) == pocket_at(s, j),
        with_pocket(s, p).len() == s.len() + (if has_pocket(s, p.pocket_idx) { 0int } else { 1int }),
{
    let t = with_pocket(s, p);
    if has_pocket(s, p.pocket_idx) {
        let k = pocket_pos(s, p.pocket_idx);
        assert(slots_unique(t)) by {
            assert forall|a: int, b: int|
                #![trigger t[a], t[b]]
                0 <= a < t.len() && 0 <= b < t.len() && a != b implies t[a].pocket_idx
                != t[b].pocket_idx by {
                assert(t[a].pocket_idx == s[a].pocket_idx);
                assert(t[b].pocket_idx == s[b].pocket_idx);
            }
        }
        lemma_pocket_pos(t, k);
        assert forall|j: u32| j != p.pocket_idx implies #[trigger] pocket_at(t, j) == pocket_at(s, j) by {
            if has_pocket(s, j) {
                let a = pocket_pos(s, j);
                assert(a != k);
                assert(t[a] == s[a]);
                lemma_pocket_pos(t, a);
            }
            if has_pocket(t, j) {
                let a = pocket_pos(t, j);
                assert(a != k);
                assert(t[a] == s[a]);
                lemma_pocket_pos(s, a);
            }
        }
    } else {
        assert(slots_unique(t)) by {
            assert forall|a: int, b: int|
                #![trigger t[a], t[b]]
                0 <= a < t.len() && 0 <= b < t.len() && a != b implies t[a].pocket_idx
                != t[b].pocket_idx by {
                if a < s.len() && b < s.len() {
                    assert(t[a] == s[a] && t[b] == s[b]);
                } else if a < s.len() {
                    assert(t[a] == s[a]);
                } else {
                    assert(t[b] == s[b]);
                }
            }
        }
        lemma_pocket_pos(t, s.len() as int);
        assert forall|j: u32| j != p.pocket_idx implies #[trigger] pocket_at(t, j) == pocket_at(s, j) by {
            if has_pocket(s, j) {
                let a = pocket_pos(s, j);
                assert(t[a] == s[a]);
                lemma_pocket_pos(t, a);
            }
            if has_pocket(t, j) {
                let a = pocket_pos(t, j);
                assert(a != s.len());
                assert(t[a] == s[a]);
                lemma_pocket_pos(s, a);
            }
        }
    }
}

proof fn lemma_remove_shift(s: Seq<Pocket>, k: int, a: int)
    requires
        0 <= k < s.len(),
        0 <= a < s.len() - 1,
    ensures
        s.remove(k)[a] == s[if a < k { a } else { a + 1 }],
{
}

proof fn lemma_without_pocket_unique(s: Seq<Pocket>, idx: u32)
    requires
        slots_unique(s),
        has_pocket(s, idx),
    ensures
        slots_unique(s.remove(pocket_pos(s, idx))),
        !has_pocket(s.remove(pocket_pos(s, idx)), idx),
{
    let k = pocket_pos(s, idx);
    let t = s.remove(k);
    assert forall|a: int, b: int|
        #![trigger t[a], t[b]]
        0 <= a < t.len() && 0 <= b < t.len() && a != b implies t[a].pocket_idx != t[b].pocket_idx by {
        lemma_remove_shift(s, k, a);
        lemma_remove_shift(s, k, b);
    }
    if has_pocket(t, idx) {
        let a = pocket_pos(t, idx);
        lemma_remove_shift(s, k, a);
    }
}

proof fn lemma_without_pocket_other(s: Seq<Pocket>, idx: u32, j: u32)
    requires
        slots_unique(s),
        has_pocket(s, idx),
        j != idx,
        slots_unique(s.remove(pocket_pos(s, idx))),
    ensures
        pocket_at(s.remove(pocket_pos(s, idx)), j) == pocket_at(s, j),
{
    let k = pocket_pos(s, idx);
    let t = s.remove(k);
    if has_pocket(s, j) {
        let a = pocket_pos(s, j);
        assert(a != k);
        let a1 = if a < k { a } else { a - 1 };
        lemma_remove_shift(s, k, a1);
        lemma_pocket_pos(t, a1);
    }
    if has_pocket(t, j) {
        let a = pocket_pos(t, j);
        lemma_remove_shift(s, k, a);
        lemma_pocket_pos(s, if a < k { a } else { a + 1 });
    }
}

/// Removing a slot keeps slots unique; it then reads as empty, and every other
/// slot reads as before.
pub proof fn lemma_without_pocket(s: Seq<Pocket>, idx: u32)
    requires
        slots_unique(s),
    ensures
        slots_unique(without_pocket(s, idx)),
        pocket_at(without_pocket(s, idx), idx) == None::<Pocket>,
        forall|j: u32| j != idx ==> #[trigger] pocket_at(without_pocket(s, idx), j) == pocket_at(s, j),
        without_pocket(s, idx).len() == s.len() - (if has_pocket(s, idx) { 1int } else { 0int }),
{
    if has_pocket(s, idx) {
        lemma_without_pocket_unique(s, idx);
        assert forall|j: u32| j != idx implies #[trigger] pocket_at(without_pocket(s, idx), j)
            == pocket_at(s, j) by {
            lemma_without_pocket_other(s, idx, j);
        }
    }
}

/// An inventory: the pockets of a player or of a trade offer.
pub struct InventoryComponent {
    pub entity_id: u64,
    pub pockets: Vec<Pocket>,
}

pub struct InventoryView {
    pub entity_id: u64,
    pub pockets: Seq<Pocket>,
}

impl View for InventoryComponent {
    type V = InventoryView;

    open spec fn view(&self) -> InventoryView {
        InventoryView { entity_id: self.entity_id, pockets: self.pockets@ }
    }
}

impl KeyedRow for InventoryComponent {
    open spec fn key_of(v: InventoryView) -> u64 {
        v.entity_id
    }

    fn row_key(&self) -> (k: u64) {
        self.entity_id
    }
}

impl InventoryComponent {
    /// No two pockets occupy the same slot, and each holds a positive number
    /// of items.
    pub open spec fn wf(&self) -> bool {
        pockets_wf(self.pockets@)
    }

    /// An inventory with no pockets.
    pub fn new(entity_id: u64) -> (r: Self)
        ensures
            r.entity_id == entity_id,
            r.pockets@ == Seq::<Pocket>::empty(),
            r.wf(),
    {
        InventoryComponent { entity_id, pockets: Vec::new() }
    }

    fn position(&self, idx: u32) -> (r: Option<usize>)
        requires
            self.wf(),
        ensures
            r is Some <==> has_pocket(self.pockets@, idx),
            r matches Some(i) ==> i == pocket_pos(self.pockets@, idx) && i < self.pockets.len(),
    {
        let mut i: usize = 0;
        while i < self.pockets.len()
            invariant
                self.wf(),
                i <= self.pockets.len(),
                forall|j: int| 0 <= j < i ==> #[trigger] self.pockets@[j].pocket_idx != idx,
            decreases self.pockets.len() - i,
        {
            if self.pockets[i].pocket_idx == idx {
                proof {
                    lemma_pocket_pos(self.pockets@, i as int);
                }
                return Some(i);
            }
            i += 1;
        }
        None
    }

    /// The pocket in slot `pocket_idx`, if any.
    pub fn get_pocket(&self, pocket_idx: u32) -> (r: Option<Pocket>)
        requires
            self.wf(),
        ensures
            r == pocket_at(self.pockets@, pocket_idx),
    {
        match self.position(pocket_idx) {
            Some(i) => Some(self.pockets[i]),
            None => None,
        }
    }

    /// Stores `pocket`, which holds a positive count, in its slot, replacing
    /// what was there.
    pub fn set_pocket(&mut self, pocket: Pocket)
        requires
            old(self).wf(),
            pocket.item_count > 0,
        ensures
            final(self).wf(),
            final(self).entity_id == old(self).entity_id,
            final(self).pockets@ == with_pocket(old(self).pockets@, pocket),
    {
        proof {
            lemma_with_pocket(self.pockets@, pocket);
        }
        match self.position(pocket.pocket_idx) {
            Some(i) => {
                self.pockets.set(i, pocket);
            },
            None => {
                self.pockets.push(pocket);
            },
        }
    }

    /// Empties slot `pocket_idx`, returning the pocket that was there.
    pub fn delete_pocket(&mut self, pocket_idx: u32) -> (r: Option<Pocket>)
        requires
            old(self).wf(),
        ensures
            final(self).wf(),
            final(self).entity_id == old(self).entity_id,
            r == pocket_at(old(self).pockets@, pocket_idx),
            final(self).pockets@ == without_pocket(old(self).pockets@, pocket_idx),
    {
        proof {
            lemma_without_pocket(self.pockets@, pocket_idx);
        }
        match self.position(pocket_idx) {
            Some(i) => Some(self.pockets.remove(i)),
            None => None,
        }
    }
}


/// At most one slot is the lowest holder of a kind of item.
pub proof fn lemma_lowest_holder_unique(s: Seq<Pocket>, item_id: u32, a: u32, b: u32)
    requires
        is_lowest_holder(s, item_id, a),
        is_lowest_holder(s, item_id, b),
    ensures
        a == b,
{
    let i = choose|i: int| 0 <= i < s.len() && #[trigger] s[i].pocket_idx == a && s[i].item_id == item_id;
    let j = choose|j: int| 0 <= j < s.len() && #[trigger] s[j].pocket_idx == b && s[j].item_id == item_id;
    assert(a <= s[j].pocket_idx);
    assert(b <= s[i].pocket_idx);
}

/// At most one slot is the lowest empty one.
pub proof fn lemma_first_free_unique(s: Seq<Pocket>, a: u32, b: u32, max_slots: u32)
    requires
        is_first_free(s, a, max_slots),
        is_first_free(s, b, max_slots),
    ensures
        a == b,
{
    if a < b {
        assert(has_pocket(s, a));
    }
    if b < a {
        assert(has_pocket(s, b));
    }
}

impl InventoryComponent {
    /// Whether slot `pocket_idx` is occupied.
    pub fn has_pocket(&self, pocket_idx: u32) -> (r: bool)
        requires
            self.wf(),
        ensures
            r == has_pocket(self.pockets@, pocket_idx),
    {
        self.position(pocket_idx).is_some()
    }

    /// The lowest slot holding items of kind `item_id`, if any.
    fn lowest_holder(&self, item_id: u32) -> (r: Option<u32>)
        ensures
            r is Some <==> holds_item(self.pockets@, item_id),
            r matches Some(idx) ==> is_lowest_holder(self.pockets@, item_id, idx),
    {
        let mut best: Option<u32> = None;
        let mut i: usize = 0;
        while i < self.pockets.len()
            invariant
                i <= self.pockets.len(),
                best is None <==> forall|j: int| 0 <= j < i ==> #[trigger] self.pockets@[j].item_id != item_id,
                best matches Some(b) ==> {
                    &&& exists|j: int|
                        0 <= j < i && #[trigger] self.pockets@[j].pocket_idx == b && self.pockets@[j].item_id
                            == item_id
                    &&& forall|j: int|
                        0 <= j < i && #[trigger] self.pockets@[j].item_id == item_id ==> b
                            <= self.pockets@[j].pocket_idx
                },
            decreases self.pockets.len() - i,
        {
            let p = self.pockets[i];
            if p.item_id == item_id {
                match best {
                    Some(b) => {
                        if p.pocket_idx < b {
                            best = Some(p.pocket_idx);
                        }
                    },
                    None => {
                        best = Some(p.pocket_idx);
                    },
                }
            }
            i += 1;
        }
        best
    }

    /// The lowest empty slot below `max_slots`, if any.
    fn first_free(&self, max_slots: u32) -> (r: Option<u32>)
        requires
            self.wf(),
        ensures
            r is Some <==> exists|idx: u32| is_first_free(self.pockets@, idx, max_slots),
            r matches Some(idx) ==> is_first_free(self.pockets@, idx, max_slots),
    {
        let mut j: u32 = 0;
        while j < max_slots
            invariant
                self.wf(),
                j <= max_slots,
                forall|k: u32| k < j ==> #[trigger] has_pocket(self.pockets@, k),
            decreases max_slots - j,
        {
            if !self.has_pocket(j) {
                assert(is_first_free(self.pockets@, j, max_slots));
                return Some(j);
            }
            j += 1;
        }
        proof {
            assert forall|idx: u32| !is_first_free(self.pockets@, idx, max_slots) by {
                if idx < max_slots {
                    assert(has_pocket(self.pockets@, idx));
                }
            }
        }
        None
    }

    fn add_at_slot(&mut self, item_id: u32, item_count: i32, idx: u32, max_slots: u32) -> (r: bool)
        requires
            old(self).wf(),
        ensures
            final(self).wf(),
            final(self).entity_id == old(self).entity_id,
            r == add_at(old(self).pockets@, item_id, item_count, idx, max_slots) is Some,
            r ==> final(self).pockets@ == add_at(
                old(self).pockets@,
                item_id,
                item_count,
                idx,
                max_slots,
            ).unwrap(),
            !r ==> final(self).pockets@ == old(self).pockets@,
    {
        if idx >= max_slots {
            return false;
        }
        match self.get_pocket(idx) {
            Some(p) => {
                let total: i64 = p.item_count as i64 + item_count as i64;
                if p.item_id != item_id || total < 0 || total > i32::MAX as i64 {
                    return false;
                }
                if total == 0 {
                    self.delete_pocket(idx);
                } else {
                    self.set_pocket(Pocket { item_count: total as i32, ..p });
                }
                true
            },
            None => {
                if item_count <= 0 {
                    return false;
                }
                self.set_pocket(Pocket { pocket_idx: idx, item_id, item_count });
                true
            },
        }
    }

    /// Adds `item_count` items of kind `item_id` (a negative count takes items
    /// out) to slot `index`, or, without a slot, to the lowest slot already
    /// holding that kind of item, else to the lowest empty slot below
    /// `max_slots`. Tells whether the items were added; when not, nothing
    /// changes.
    pub fn add(&mut self, item_id: u32, item_count: i32, index: Option<u32>, max_slots: u32) -> (r:
        bool)
        requires
            old(self).wf(),
        ensures
            final(self).wf(),
            final(self).entity_id == old(self).entity_id,
            r == add_items(old(self).pockets@, item_id, item_count, index, max_slots) is Some,
            r ==> final(self).pockets@ == add_items(
                old(self).pockets@,
                item_id,
                item_count,
                index,
                max_slots,
            ).unwrap(),
            !r ==> final(self).pockets@ == old(self).pockets@,
    {
        let ghost s = self.pockets@;
        let idx = match index {
            Some(i) => i,
            None => match self.lowest_holder(item_id) {
                Some(i) => {
                    proof {
                        let c = choose|c: u32| is_lowest_holder(s, item_id, c);
                        lemma_lowest_holder_unique(s, item_id, i, c);
                    }
                    i
                },
                None => {
                    if item_count <= 0 {
                        return false;
                    }
                    match self.first_free(max_slots) {
                        Some(i) => {
                            proof {
                                let c = choose|c: u32| is_first_free(s, c, max_slots);
                                lemma_first_free_unique(s, i, c, max_slots);
                            }
                            i
                        },
                        None => {
                            return false;
                        },
                    }
                },
            },
        };
        self.add_at_slot(item_id, item_count, idx, max_slots)
    }

    /// A copy of this inventory.
    pub fn duplicate(&self) -> (r: Self)
        ensures
            r@ == self@,
    {
        let mut pockets: Vec<Pocket> = Vec::new();
        let mut i: usize = 0;
        while i < self.pockets.len()
            invariant
                i <= self.pockets.len(),
                pockets@ == self.pockets@.take(i as int),
            decreases self.pockets.len() - i,
        {
            pockets.push(self.pockets[i]);
            i += 1;
            assert(pockets@ =~= self.pockets@.take(i as int));
        }
        assert(self.pockets@.take(i as int) =~= self.pockets@);
        InventoryComponent { entity_id: self.entity_id, pockets }
    }

    /// The `(item_id, item_count)` pair of each pocket, in storage order.
    pub fn pocket_items(&self) -> (r: Vec<(u32, i32)>)
        ensures
            r@ == pocket_items(self.pockets@),
    {
        let mut items: Vec<(u32, i32)> = Vec::new();
        let mut i: usize = 0;
        while i < self.pockets.len()
            invariant
                i <= self.pockets.len(),
                items@ == pocket_items(self.pockets@.take(i as int)),
            decreases self.pockets.len() - i,
        {
            let p = self.pockets[i];
            items.push((p.item_id, p.item_count));
            i += 1;
            assert(items@ =~= pocket_items(self.pockets@.take(i as int)));
        }
        assert(self.pockets@.take(i as int) =~= self.pockets@);
        items
    }

    /// Whether every `(item_id, item_count)` pair of `items`, added in turn
    /// without a slot, would be accepted. The inventory itself is not changed.
    pub fn can_hold(&self, items: &Vec<(u32, i32)>, max_slots: u32) -> (r: bool)
        requires
            self.wf(),
        ensures
            r == add_all(self.pockets@, items@, max_slots) is Some,
    {
        let mut copy = self.duplicate();
        let mut ok = true;
        let mut i: usize = 0;
        while i < items.len()
            invariant
                copy.wf(),
                i <= items.len(),
                ok ==> add_all(self.pockets@, items@.take(i as int), max_slots) == Some(copy.pockets@),
                !ok ==> add_all(self.pockets@, items@.take(i as int), max_slots) is None,
            decreases items.len() - i,
        {
            assert(items@.take(i + 1).drop_last() =~= items@.take(i as int));
            if ok {
                let (item_id, item_count) = items[i];
                ok = copy.add(item_id, item_count, None, max_slots);
            }
            i += 1;
        }
        assert(items@.take(i as int) =~= items@);
        ok
    }

    /// Adds the contents of each pocket of `other`, in turn and without a
    /// slot, to this inventory; a pocket that is refused is left out.
    pub fn combine(&mut self, other: &InventoryComponent, max_slots: u32)
        requires
            old(self).wf(),
        ensures
            final(self).wf(),
            final(self).entity_id == old(self).entity_id,
            final(self).pockets@ == merge_pockets(old(self).pockets@, other.pockets@, max_slots),
    {
        let ghost s = self.pockets@;
        let mut i: usize = 0;
        while i < other.pockets.len()
            invariant
                self.wf(),
                self.entity_id == old(self).entity_id,
                i <= other.pockets.len(),
                s == old(self).pockets@,
                self.pockets@ == merge_pockets(s, other.pockets@.take(i as int), max_slots),
            decreases other.pockets.len() - i,
        {
            assert(other.pockets@.take(i + 1).drop_last() =~= other.pockets@.take(i as int));
            let p = other.pockets[i];
            self.add(p.item_id, p.item_count, None, max_slots);
            i += 1;
        }
        assert(other.pockets@.take(i as int) =~= other.pockets@);
    }
}


/// What one pocket adds to the total of kind `item_id`.
pub open spec fn share(p: Pocket, item_id: u32) -> int {
    if p.item_id == item_id {
        p.item_count as int
    } else {
        0
    }
}

pub proof fn lemma_total_push(s: Seq<Pocket>, p: Pocket, item_id: u32)
    ensures
        item_total(s.push(p), item_id) == item_total(s, item_id) + share(p, item_id),
{
    assert(s.push(p).drop_last() =~= s);
}

pub proof fn lemma_total_update(s: Seq<Pocket>, i: int, p: Pocket, item_id: u32)
    requires
        0 <= i < s.len(),
    ensures
        item_total(s.update(i, p), item_id) == item_total(s, item_id) - share(s[i], item_id) + share(
            p,
            item_id,
        ),
    decreases s.len(),
{
    let t = s.update(i, p);
    if i == s.len() - 1 {
        assert(t.drop_last() =~= s.drop_last());
    } else {
        assert(t.drop_last() =~= s.drop_last().update(i, p));
        lemma_total_update(s.drop_last(), i, p, item_id);
    }
}

pub proof fn lemma_total_remove(s: Seq<Pocket>, i: int, item_id: u32)
    requires
        0 <= i < s.len(),
    ensures
        item_total(s.remove(i), item_id) == item_total(s, item_id) - share(s[i], item_id),
    decreases s.len(),
{
    let t = s.remove(i);
    if i == s.len() - 1 {
        assert(t =~= s.drop_last());
    } else {
        assert(t.drop_last() =~= s.drop_last().remove(i));
        assert(t.last() == s.last());
        lemma_total_remove(s.drop_last(), i, item_id);
    }
}

/// Storing a pocket changes each total by what it brings minus what the slot
/// held before.
pub proof fn lemma_total_with_pocket(s: Seq<Pocket>, p: Pocket, item_id: u32)
    requires
        slots_unique(s),
    ensures
        item_total(with_pocket(s, p), item_id) == item_total(s, item_id) + share(p, item_id) - (match pocket_at(
            s,
            p.pocket_idx,
        ) {
            Some(q) => share(q, item_id),
            None => 0,
        }),
{
    if has_pocket(s, p.pocket_idx) {
        lemma_total_update(s, pocket_pos(s, p.pocket_idx), p, item_id);
    } else {
        lemma_total_push(s, p, item_id);
    }
}

/// Emptying a slot takes what it held out of each total.
pub proof fn lemma_total_without_pocket(s: Seq<Pocket>, idx: u32, item_id: u32)
    requires
        slots_unique(s),
    ensures
        item_total(without_pocket(s, idx), item_id) == item_total(s, item_id) - (match pocket_at(s, idx) {
            Some(q) => share(q, item_id),
            None => 0,
        }),
{
    if has_pocket(s, idx) {
        lemma_total_remove(s, pocket_pos(s, idx), item_id);
    }
}

/// A pocket read from a slot carries that slot's index.
pub proof fn lemma_pocket_at_idx(s: Seq<Pocket>, idx: u32)
    requires
        has_pocket(s, idx),
    ensures
        pocket_at(s, idx).unwrap().pocket_idx == idx,
{
}

} // verus!
