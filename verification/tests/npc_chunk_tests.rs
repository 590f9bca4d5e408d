use game_server::npcs::{anchor_at, choose_npc_action, choose_spawn_anchor, npc_action, NpcAction};
use rand::SeedableRng;
use rand_chacha::ChaCha8Rng;
use game_server::chunks::{chunks_to_generate, ChunkPosition, MAX_CHUNKS_PER_CALL};
use game_server::components::{AnimationComponent, NpcComponent, PlayerLoginComponent};
use game_server::npcs::{despawn_npcs, idle_npc, logged_in_players, move_npc, npcs_due, spawn_npc, update_npc_animation};
use game_server::table::Table;
use game_server::world::World;

fn cp(x: i32, y: i32) -> ChunkPosition {
    ChunkPosition { x, y }
}

fn npc(entity_id: u64, next_action: u64) -> NpcComponent {
    NpcComponent { entity_id, model: "Rabbit".to_string(), next_action }
}

fn anim(entity_id: u64, moving: bool) -> AnimationComponent {
    AnimationComponent { entity_id, moving, action_target_entity_id: 0 }
}

fn build(npcs: Vec<NpcComponent>, animations: Vec<AnimationComponent>, logins: Vec<PlayerLoginComponent>) -> World {
    World::assemble(
        Table::new(),
        Table::from_vec(logins).unwrap(),
        Table::new(),
        Table::new(),
        Table::new(),
        Table::new(),
        Table::from_vec(animations).unwrap(),
        Table::from_vec(npcs).unwrap(),
        Table::new(),
        vec![],
        0,
        5,
        0,
    )
    .unwrap()
}

#[test]
fn spawn_npc_adds_resting_rabbit() {
    let mut w = build(vec![], vec![], vec![]);
    let id = spawn_npc(&mut w, 1000);
    assert_eq!(id, 6);
    let n = w.npc(6).unwrap();
    assert_eq!(n.model, "Rabbit");
    assert_eq!(n.next_action, 1000);
    assert_eq!(w.animation(6), Some(anim(6, false)));
    assert_eq!(w.sequences().1, 6);
}

#[test]
fn move_and_idle_schedule_next_action() {
    let mut w = build(vec![npc(1, 0)], vec![anim(1, true)], vec![]);
    move_npc(&mut w, 500, 1, 300);
    assert_eq!(w.npc(1).unwrap().next_action, 800);
    idle_npc(&mut w, 900, 1, 150);
    assert_eq!(w.npc(1).unwrap().next_action, 1050);
    assert_eq!(w.animation(1), Some(anim(1, false)));
    update_npc_animation(&mut w, 1000, 1, true, 4);
    assert_eq!(w.animation(1), Some(AnimationComponent { entity_id: 1, moving: true, action_target_entity_id: 4 }));
}

#[test]
fn despawn_removes_creatures_and_animations() {
    let mut w = build(vec![npc(1, 0), npc(2, 0), npc(3, 0)], vec![anim(1, false), anim(3, true)], vec![]);
    despawn_npcs(&mut w, &vec![1, 3, 3, 8]);
    assert!(w.npc(1).is_none() && w.npc(3).is_none());
    assert!(w.npc(2).is_some());
    assert!(w.animation(1).is_none() && w.animation(3).is_none());
}

#[test]
fn lists_follow_storage_order() {
    let w = build(
        vec![npc(4, 10), npc(2, 50), npc(9, 30)],
        vec![],
        vec![
            PlayerLoginComponent { entity_id: 7, logged_in: true },
            PlayerLoginComponent { entity_id: 3, logged_in: false },
            PlayerLoginComponent { entity_id: 5, logged_in: true },
        ],
    );
    assert_eq!(logged_in_players(&w), vec![7, 5]);
    assert_eq!(npcs_due(&w, 30), vec![4, 9]);
    assert_eq!(npcs_due(&w, 5), Vec::<u64>::new());
}

#[test]
fn chunks_around_one_player_are_the_lowest_twenty() {
    let r = chunks_to_generate(&vec![cp(0, 0)], &vec![]);
    assert_eq!(r.len(), MAX_CHUNKS_PER_CALL);
    let expected: Vec<ChunkPosition> = (-8..8).map(|y| cp(-8, y)).chain((-8..-4).map(|y| cp(-7, y))).collect();
    assert_eq!(r, expected);
}

#[test]
fn chunks_skip_existing_ones() {
    let existing: Vec<ChunkPosition> = (-8..8).map(|y| cp(-8, y)).collect();
    let r = chunks_to_generate(&vec![cp(0, 0)], &existing);
    let expected: Vec<ChunkPosition> = (-8..8).map(|y| cp(-7, y)).chain((-8..-4).map(|y| cp(-6, y))).collect();
    assert_eq!(r, expected);
}

#[test]
fn chunks_when_few_are_missing() {
    let mut existing = Vec::new();
    for x in -8..8 {
        for y in -8..8 {
            if !(x == 3 && (y == 1 || y == -2)) {
                existing.push(cp(x, y));
            }
        }
    }
    let r = chunks_to_generate(&vec![cp(0, 0), cp(1, 1)], &existing);
    assert_eq!(r.len(), MAX_CHUNKS_PER_CALL);
    assert_eq!(r[0], cp(-7, 8));
    let r = chunks_to_generate(&vec![cp(0, 0)], &existing);
    assert_eq!(r, vec![cp(3, -2), cp(3, 1)]);
    assert!(chunks_to_generate(&vec![], &existing).is_empty());
}

#[test]
fn repeated_passes_generate_every_chunk_once() {
    // one player: a square of 16 by 16 chunks, 256 in all
    let players = vec![cp(0, 0)];
    let mut existing: Vec<ChunkPosition> = vec![];
    let mut passes = 0;
    loop {
        let r = chunks_to_generate(&players, &existing);
        if r.is_empty() {
            break;
        }
        for c in &r {
            assert!(!existing.contains(c));
        }
        existing.extend(r);
        passes += 1;
    }
    assert_eq!(passes, (256 + MAX_CHUNKS_PER_CALL - 1) / MAX_CHUNKS_PER_CALL);
    assert_eq!(existing.len(), 256);
    assert!(chunks_to_generate(&players, &existing).is_empty());
}

#[test]
fn spawn_anchor_is_a_signed_in_player() {
    let w = build(
        vec![],
        vec![],
        vec![
            PlayerLoginComponent { entity_id: 7, logged_in: true },
            PlayerLoginComponent { entity_id: 3, logged_in: false },
            PlayerLoginComponent { entity_id: 5, logged_in: true },
        ],
    );
    for seed in 0..50u64 {
        let mut rng = ChaCha8Rng::seed_from_u64(seed);
        let id = choose_spawn_anchor(&w, &mut rng).unwrap();
        assert!(id == 7 || id == 5);
    }
    let nobody = build(vec![], vec![], vec![PlayerLoginComponent { entity_id: 3, logged_in: false }]);
    let mut rng = ChaCha8Rng::seed_from_u64(1);
    assert_eq!(choose_spawn_anchor(&nobody, &mut rng), None);
}

#[test]
fn anchor_is_picked_by_index() {
    let w = build(
        vec![],
        vec![],
        vec![
            PlayerLoginComponent { entity_id: 7, logged_in: true },
            PlayerLoginComponent { entity_id: 3, logged_in: false },
            PlayerLoginComponent { entity_id: 5, logged_in: true },
        ],
    );
    assert_eq!(anchor_at(&w, 0), Some(7));
    assert_eq!(anchor_at(&w, 1), Some(5));
    assert_eq!(anchor_at(&w, 2), None);
}

#[test]
fn npc_action_follows_roll_and_delay() {
    assert_eq!(npc_action(true, 0, 150), NpcAction::ReactToThreat);
    assert_eq!(npc_action(true, 7, 150), NpcAction::ReactToThreat);
    assert_eq!(npc_action(false, 0, 150), NpcAction::Wander);
    assert_eq!(npc_action(false, 7, 150), NpcAction::Rest(150));
    assert_eq!(npc_action(false, 39, 299), NpcAction::Rest(299));
}

#[test]
fn npc_action_choice() {
    let mut rng = ChaCha8Rng::seed_from_u64(3);
    assert_eq!(choose_npc_action(&mut rng, true), NpcAction::ReactToThreat);
    let mut wanders = 0;
    for _ in 0..2000 {
        match choose_npc_action(&mut rng, false) {
            NpcAction::ReactToThreat => panic!("not threatened"),
            NpcAction::Wander => wanders += 1,
            NpcAction::Rest(d) => assert!((100..300).contains(&d)),
        }
    }
    assert!(wanders > 0 && wanders < 200);
}

#[test]
fn empty_world_has_no_rows() {
    let w = World::new();
    assert!(w.npc(1).is_none());
    assert!(logged_in_players(&w).is_empty());
    assert_eq!(w.sequences(), (0, 0, 0));
}
