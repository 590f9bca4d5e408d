use vstd::prelude::*;
use crate::components::{AnimationComponent, NpcComponent, NpcView, PlayerLoginComponent};
use rand_chacha::ChaCha8Rng;
use crate::platform::{random_i32, random_index, random_u64};
use crate::world::{World, WorldView};

verus! {

/// Sets the animation state of creature `entity_id`.
pub fn update_npc_animation(
    world: &mut World,
    timestamp: u64,
    entity_id: u64,
    moving: bool,
    action_target_entity_id: u64,
)
    requires
        old(world).wf(),
        old(world)@.npcs.contains_key(entity_id),
        old(world)@.animations.contains_key(entity_id),
    ensures
        final(world).wf(),
        final(world)@ == (WorldView {
            animations: old(world)@.animations.insert(
                entity_id,
                AnimationComponent { entity_id, moving, action_target_entity_id },
            ),
            ..old(world)@
        }),
{
    let _npc = world.npc(entity_id).unwrap();
    world.update_animation_row(AnimationComponent { entity_id, moving, action_target_entity_id });
}

/// The world with the next action of creature `entity_id` due at `next_action`.
pub open spec fn with_next_action(w: WorldView, entity_id: u64, next_action: u64) -> WorldView {
    WorldView {
        npcs: w.npcs.insert(entity_id, NpcView { next_action, ..w.npcs[entity_id] }),
        ..w
    }
}

/// Schedules the next action of creature `entity_id` once a move of
/// `duration` milliseconds that starts at `timestamp` is over.
pub fn move_npc(world: &mut World, timestamp: u64, entity_id: u64, duration: u64)
    requires
        old(world).wf(),
        old(world)@.npcs.contains_key(entity_id),
        timestamp + duration <= u64::MAX,
    ensures
        final(world).wf(),
        final(world)@ == with_next_action(old(world)@, entity_id, (timestamp + duration) as u64),
{
    let ghost w = world@;
    let mut npc = world.take_npc(entity_id).unwrap();
    npc.next_action = timestamp + duration;
    proof {
        assert(w.npcs.remove(entity_id).insert(entity_id, npc@) =~= w.npcs.insert(entity_id, npc@));
    }
    world.insert_npc(npc);
}

/// A creature with nothing to react to stops moving if it was, and waits
/// `delay` milliseconds from `timestamp` before its next action.
pub open spec fn idle_outcome(w: WorldView, timestamp: u64, entity_id: u64, delay: u64) -> WorldView {
    let w1 = if w.animations[entity_id].moving {
        WorldView {
            animations: w.animations.insert(
                entity_id,
                AnimationComponent { entity_id, moving: false, action_target_entity_id: 0 },
            ),
            ..w
        }
    } else {
        w
    };
    with_next_action(w1, entity_id, (timestamp + delay) as u64)
}

/// Creature `entity_id` idles: it stops moving if it was, and its next action
/// is due `delay` milliseconds after `timestamp`.
pub fn idle_npc(world: &mut World, timestamp: u64, entity_id: u64, delay: u64)
    requires
        old(world).wf(),
        old(world)@.npcs.contains_key(entity_id),
        old(world)@.animations.contains_key(entity_id),
        timestamp + delay <= u64::MAX,
    ensures
        final(world).wf(),
        final(world)@ == idle_outcome(old(world)@, timestamp, entity_id, delay),
        final(world)@.animations.contains_key(entity_id),
        !final(world)@.animations[entity_id].moving,
        !old(world)@.animations[entity_id].moving ==> final(world)@.animations == old(world)@.animations,
        final(world)@.npcs[entity_id].next_action == timestamp + delay,
{
    let npc_animation = world.animation(entity_id).unwrap();
    if npc_animation.moving {
        update_npc_animation(world, timestamp, entity_id, false, 0);
    }
    move_npc(world, timestamp, entity_id, delay);
}

/// After a creature idles it is not moving: a moving creature's animation
/// stops (with no target), a creature that was not moving keeps its animation
/// row as it was, and no other animation changes; its next action is due
/// `delay` milliseconds after `timestamp` and no other creature changes.
/// Idling twice in a row with the same arguments is the same as idling once.
pub proof fn law_idle_stops_moving(w: WorldView, timestamp: u64, entity_id: u64, delay: u64)
    requires
        w.npcs.contains_key(entity_id),
        w.animations.contains_key(entity_id),
        timestamp + delay <= u64::MAX,
    ensures
        ({
            let w2 = idle_outcome(w, timestamp, entity_id, delay);
            &&& w2.animations.contains_key(entity_id)
            &&& !w2.animations[entity_id].moving
            &&& w.animations[entity_id].moving ==> w2.animations[entity_id] == (AnimationComponent {
                entity_id,
                moving: false,
                action_target_entity_id: 0,
            })
            &&& !w.animations[entity_id].moving ==> w2.animations == w.animations
            &&& forall|k: u64| k != entity_id ==> #[trigger] w2.animations.contains_key(k) == w.animations.contains_key(k)
                && w2.animations[k] == w.animations[k]
            &&& w2.npcs.dom() == w.npcs.dom()
            &&& w2.npcs[entity_id].next_action == timestamp + delay
            &&& w2.npcs[entity_id].model == w.npcs[entity_id].model
            &&& forall|k: u64| k != entity_id ==> #[trigger] w2.npcs[k] == w.npcs[k]
            &&& idle_outcome(w2, timestamp, entity_id, delay) == w2
        }),
{
    let w2 = idle_outcome(w, timestamp, entity_id, delay);
    assert(w2.npcs.dom() =~= w.npcs.dom());
    let w3 = idle_outcome(w2, timestamp, entity_id, delay);
    assert(w3.npcs =~= w2.npcs);
    assert(w3.animations =~= w2.animations);
}

/// The creature row a spawn stores.
pub open spec fn spawned_npc(entity_id: u64, timestamp: u64) -> NpcView {
    NpcView { entity_id, model: "Rabbit"@, next_action: timestamp }
}

/// The next creature id is free, and an animation row under it is absent or
/// the resting one.
pub open spec fn spawn_requires(w: WorldView) -> bool {
    let id = (w.npc_seq + 1) as u64;
    &&& w.npc_seq < u64::MAX
    &&& !w.npcs.contains_key(id)
    &&& (!w.animations.contains_key(id) || w.animations[id] == (AnimationComponent {
        entity_id: id,
        moving: false,
        action_target_entity_id: 0,
    }))
}

pub open spec fn spawn_outcome(w: WorldView, timestamp: u64) -> WorldView {
    let id = (w.npc_seq + 1) as u64;
    WorldView {
        npcs: w.npcs.insert(id, spawned_npc(id, timestamp)),
        animations: w.animations.insert(
            id,
            AnimationComponent { entity_id: id, moving: false, action_target_entity_id: 0 },
        ),
        npc_seq: id,
        ..w
    }
}

/// Spawns a rabbit whose first action is due at `timestamp`, resting, with
/// the next creature id; returns that id.
pub fn spawn_npc(world: &mut World, timestamp: u64) -> (r: u64)
    requires
        old(world).wf(),
        spawn_requires(old(world)@),
    ensures
        final(world).wf(),
        r == old(world)@.npc_seq + 1,
        final(world)@ == spawn_outcome(old(world)@, timestamp),
{
    let entity_id = world.next_npc_id();
    let model = "Rabbit".to_owned();
    world.insert_npc(NpcComponent { entity_id, model, next_action: timestamp });
    world.insert_animation(AnimationComponent { entity_id, moving: false, action_target_entity_id: 0 });
    entity_id
}

/// Removes each creature of `ids`, with its animation row.
pub fn despawn_npcs(world: &mut World, ids: &Vec<u64>)
    requires
        old(world).wf(),
    ensures
        final(world).wf(),
        final(world)@ == (WorldView {
            npcs: old(world)@.npcs.remove_keys(ids@.to_set()),
            animations: old(world)@.animations.remove_keys(ids@.to_set()),
            ..old(world)@
        }),
{
    let ghost w = world@;
    let mut i: usize = 0;
    proof {
        assert(ids@.take(0).to_set() =~= Set::<u64>::empty());
        assert(w.npcs.remove_keys(Set::<u64>::empty()) =~= w.npcs);
        assert(w.animations.remove_keys(Set::<u64>::empty()) =~= w.animations);
    }
    while i < ids.len()
        invariant
            world.wf(),
            i <= ids.len(),
            world@ == (WorldView {
                npcs: w.npcs.remove_keys(ids@.take(i as int).to_set()),
                animations: w.animations.remove_keys(ids@.take(i as int).to_set()),
                ..w
            }),
        decreases ids.len() - i,
    {
        let ghost before = world@;
        let id = ids[i];
        world.delete_npc(id);
        world.delete_animation(id);
        proof {
            let t = ids@.take(i as int);
            let t1 = ids@.take(i + 1);
            assert(t1 =~= t.push(id));
            t.lemma_push_to_set_commute(id);
            assert(before.npcs.remove(id) =~= w.npcs.remove_keys(t1.to_set()));
            assert(before.animations.remove(id) =~= w.animations.remove_keys(t1.to_set()));
        }
        i += 1;
    }
    assert(ids@.take(i as int) =~= ids@);
}

/// The ids of the signed-in players among the login rows `s`, in order.
pub open spec fn signed_in_ids(s: Seq<PlayerLoginComponent>) -> Seq<u64>
    decreases s.len(),
{
    if s.len() == 0 {
        Seq::empty()
    } else if s.last().logged_in {
        signed_in_ids(s.drop_last()).push(s.last().entity_id)
    } else {
        signed_in_ids(s.drop_last())
    }
}

/// The ids of the signed-in players, in the order the login rows are stored.
pub fn logged_in_players(world: &World) -> (r: Vec<u64>)
    requires
        world.wf(),
    ensures
        r@ == signed_in_ids(world.login_rows()),
{
    let logins = world.logins();
    let ghost s = logins.entries();
    let mut ids: Vec<u64> = Vec::new();
    let mut i: usize = 0;
    while i < logins.len()
        invariant
            s == logins.entries(),
            i <= s.len(),
            ids@ == signed_in_ids(s.take(i as int)),
        decreases s.len() - i,
    {
        assert(s.take(i + 1).drop_last() =~= s.take(i as int));
        let login = logins.row_at(i);
        if login.logged_in {
            ids.push(login.entity_id);
        }
        i += 1;
    }
    assert(s.take(i as int) =~= s);
    ids
}

/// The ids of the creatures among `s` whose next action is due by
/// `timestamp`, in order.
pub open spec fn due_ids(s: Seq<NpcView>, timestamp: u64) -> Seq<u64>
    decreases s.len(),
{
    if s.len() == 0 {
        Seq::empty()
    } else if s.last().next_action <= timestamp {
        due_ids(s.drop_last(), timestamp).push(s.last().entity_id)
    } else {
        due_ids(s.drop_last(), timestamp)
    }
}

/// The ids of the creatures whose next action is due by `timestamp`, in the
/// order the creature rows are stored.
pub fn npcs_due(world: &World, timestamp: u64) -> (r: Vec<u64>)
    requires
        world.wf(),
    ensures
        r@ == due_ids(world.npc_rows(), timestamp),
{
    let npcs = world.npcs();
    let ghost s = npcs.entries();
    let mut ids: Vec<u64> = Vec::new();
    let mut i: usize = 0;
    while i < npcs.len()
        invariant
            s == npcs.entries(),
            i <= s.len(),
            ids@ == due_ids(s.take(i as int), timestamp),
        decreases s.len() - i,
    {
        assert(s.take(i + 1).drop_last() =~= s.take(i as int));
        let npc = npcs.row_at(i);
        if npc.next_action <= timestamp {
            ids.push(npc.entity_id);
        }
        i += 1;
    }
    assert(s.take(i as int) =~= s);
    ids
}

/// The signed-in player at position `index` among the signed-in players, in
/// the order the login rows are stored; `None` when there are not that many.
pub fn anchor_at(world: &World, index: usize) -> (r: Option<u64>)
    requires
        world.wf(),
    ensures
        r == (if index < signed_in_ids(world.login_rows()).len() {
            Some(signed_in_ids(world.login_rows())[index as int])
        } else {
            None::<u64>
        }),
{
    let players = logged_in_players(world);
    if index < players.len() {
        Some(players[index])
    } else {
        None
    }
}

/// The player around which a creature spawns: the signed-in player at an
/// index drawn at random; `None` when nobody is signed in.
pub fn choose_spawn_anchor(world: &World, rng: &mut ChaCha8Rng) -> (r: Option<u64>)
    requires
        world.wf(),
    ensures
        r is None <==> signed_in_ids(world.login_rows()).len() == 0,
        r is Some ==> exists|i: int|
            0 <= i < signed_in_ids(world.login_rows()).len() && r == Some(
                #[trigger] signed_in_ids(world.login_rows())[i],
            ),
{
    let players = logged_in_players(world);
    if players.len() == 0 {
        return None;
    }
    let index = random_index(rng, players.len());
    let r = anchor_at(world, index);
    assert(r == Some(signed_in_ids(world.login_rows())[index as int]));
    r
}

/// What a creature due to act does next.
#[derive(Clone, Copy, Debug, PartialEq, Eq, Structural)]
pub enum NpcAction {
    /// Flee from the players nearby.
    ReactToThreat,
    /// Walk a short way in a random direction.
    Wander,
    /// Stand still for this many milliseconds.
    Rest(u64),
}

/// The action of a creature given whether it is threatened, a roll and a
/// delay: a threatened creature reacts to the threat; otherwise a roll of 0
/// makes it wander, any other roll makes it rest for `delay` milliseconds.
pub open spec fn npc_action_of(threatened: bool, roll: i32, delay: u64) -> NpcAction {
    if threatened {
        NpcAction::ReactToThreat
    } else if roll == 0 {
        NpcAction::Wander
    } else {
        NpcAction::Rest(delay)
    }
}

/// Decides a creature's action from whether it is threatened, a roll and a
/// delay.
pub fn npc_action(threatened: bool, roll: i32, delay: u64) -> (r: NpcAction)
    ensures
        r == npc_action_of(threatened, roll, delay),
{
    if threatened {
        NpcAction::ReactToThreat
    } else if roll == 0 {
        NpcAction::Wander
    } else {
        NpcAction::Rest(delay)
    }
}

/// The action of a creature due to act: a threatened one reacts to the
/// threat without drawing; otherwise a roll is drawn in `0..40` and, unless
/// it is 0, a resting delay in `100..300` milliseconds.
pub fn choose_npc_action(rng: &mut ChaCha8Rng, threatened: bool) -> (r: NpcAction)
    ensures
        exists|roll: i32, delay: u64|
            #![trigger npc_action_of(threatened, roll, delay)]
            0 <= roll < 40 && 100 <= delay < 300 && r == npc_action_of(threatened, roll, delay),
{
    if threatened {
        let r = npc_action(true, 0, 100);
        assert(r == npc_action_of(threatened, 0, 100));
        return r;
    }
    let roll = random_i32(rng, 0, 40);
    if roll == 0 {
        let r = npc_action(false, roll, 100);
        assert(r == npc_action_of(threatened, roll, 100));
        r
    } else {
        let delay = random_u64(rng, 100, 300);
        let r = npc_action(false, roll, delay);
        assert(r == npc_action_of(threatened, roll, delay));
        r
    }
}

} // verus!
