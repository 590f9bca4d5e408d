use game_server::player_actions::{
    create_new_player_is_defined, disconnect_is_defined, extract_is_defined, move_or_swap_is_defined,
    update_login_is_defined,
};
use game_server::components::{
    ActiveTradeComponent, AnimationComponent, NpcComponent, PlayerChatMessage, PlayerComponent,
    PlayerLoginComponent, ResourceComponent, ServerGlobals, TradeSessionComponent,
};
use game_server::inventory::{InventoryComponent, Pocket};
use game_server::player_actions::{
    add_item_to_inventory, create_new_player, extract, identity_disconnected, init,
    move_or_swap_inventory_slot, player_chat, player_update_login_state, update_animation,
};
use game_server::table::Table;
use game_server::world::{ReducerError, World};
use spacetimedb::Identity;

fn ident(n: u8) -> Identity {
    Identity::from_byte_array([n; 32])
}

fn pocket(pocket_idx: u32, item_id: u32, item_count: i32) -> Pocket {
    Pocket { pocket_idx, item_id, item_count }
}

fn player(entity_id: u64, owner: u8, name: &str) -> PlayerComponent {
    PlayerComponent { entity_id, owner_id: ident(owner), username: name.to_string(), creation_time: 0 }
}

struct Rows {
    players: Vec<PlayerComponent>,
    logins: Vec<PlayerLoginComponent>,
    inventories: Vec<InventoryComponent>,
    trades: Vec<TradeSessionComponent>,
    active_trades: Vec<ActiveTradeComponent>,
    resources: Vec<ResourceComponent>,
    animations: Vec<AnimationComponent>,
}

fn rows() -> Rows {
    Rows {
        players: vec![player(1, 1, "alice"), player(2, 2, "bob")],
        logins: vec![],
        inventories: vec![
            InventoryComponent { entity_id: 1, pockets: vec![pocket(0, 10, 5), pocket(1, 11, 3)] },
            InventoryComponent { entity_id: 2, pockets: vec![] },
        ],
        trades: vec![],
        active_trades: vec![],
        resources: vec![],
        animations: vec![],
    }
}

fn build(r: Rows, player_seq: u64) -> World {
    World::assemble(
        Table::from_vec(r.players).unwrap(),
        Table::from_vec(r.logins).unwrap(),
        Table::from_vec(r.inventories).unwrap(),
        Table::from_vec(r.trades).unwrap(),
        Table::from_vec(r.active_trades).unwrap(),
        Table::from_vec(r.resources).unwrap(),
        Table::from_vec(r.animations).unwrap(),
        Table::from_vec(Vec::<NpcComponent>::new()).unwrap(),
        Table::from_vec(Vec::<ServerGlobals>::new()).unwrap(),
        Vec::<PlayerChatMessage>::new(),
        player_seq,
        0,
        100,
    )
    .unwrap()
}

fn pockets_of(w: &World, id: u64) -> Vec<Pocket> {
    w.inventory(id).unwrap().pockets.clone()
}

#[test]
fn assemble_refuses_shared_owner_or_bad_inventory() {
    let mut r = rows();
    r.players.push(player(3, 1, "carol"));
    assert!(World::assemble(
        Table::from_vec(r.players).unwrap(),
        Table::new(),
        Table::new(),
        Table::new(),
        Table::new(),
        Table::new(),
        Table::new(),
        Table::new(),
        Table::new(),
        vec![],
        0,
        0,
        0
    )
    .is_none());
    let bad = vec![InventoryComponent { entity_id: 1, pockets: vec![pocket(0, 1, 1), pocket(0, 2, 1)] }];
    assert!(World::assemble(
        Table::new(),
        Table::new(),
        Table::from_vec(bad).unwrap(),
        Table::new(),
        Table::new(),
        Table::new(),
        Table::new(),
        Table::new(),
        Table::new(),
        vec![],
        0,
        0,
        0
    )
    .is_none());
    let empty_pocket = vec![InventoryComponent { entity_id: 1, pockets: vec![pocket(0, 1, 0)] }];
    assert!(World::assemble(
        Table::new(),
        Table::new(),
        Table::from_vec(empty_pocket).unwrap(),
        Table::new(),
        Table::new(),
        Table::new(),
        Table::new(),
        Table::new(),
        Table::new(),
        vec![],
        0,
        0,
        0
    )
    .is_none());
    assert!(Table::from_vec(vec![player(1, 1, "a"), player(1, 2, "b")]).is_none());
}

#[test]
fn move_or_swap_slot_errors() {
    let mut w = build(rows(), 2);
    assert_eq!(move_or_swap_inventory_slot(&mut w, &ident(1), 30, 1, 1, 30, 0), Err(ReducerError::InvalidSourcePocket(30)));
    assert_eq!(move_or_swap_inventory_slot(&mut w, &ident(1), 30, 1, 1, 0, 31), Err(ReducerError::InvalidDestPocket(31)));
    assert_eq!(move_or_swap_inventory_slot(&mut w, &ident(1), 30, 1, 1, 0, 0), Ok(()));
    assert_eq!(move_or_swap_inventory_slot(&mut w, &ident(2), 30, 1, 1, 0, 4), Err(ReducerError::NotPlayerOwner));
    assert_eq!(move_or_swap_inventory_slot(&mut w, &ident(1), 30, 1, 2, 0, 4), Err(ReducerError::InventoryNotAllowed));
    assert_eq!(pockets_of(&w, 1), vec![pocket(0, 10, 5), pocket(1, 11, 3)]);
}

#[test]
fn move_to_empty_slot() {
    let mut w = build(rows(), 2);
    assert_eq!(move_or_swap_inventory_slot(&mut w, &ident(1), 30, 1, 1, 0, 4), Ok(()));
    assert_eq!(pockets_of(&w, 1), vec![pocket(1, 11, 3), pocket(4, 10, 5)]);
}

#[test]
fn move_onto_same_item_stacks() {
    let mut r = rows();
    r.inventories[0].pockets.push(pocket(2, 10, 7));
    let mut w = build(r, 2);
    assert_eq!(move_or_swap_inventory_slot(&mut w, &ident(1), 30, 1, 1, 0, 2), Ok(()));
    assert_eq!(pockets_of(&w, 1), vec![pocket(1, 11, 3), pocket(2, 10, 12)]);
}

#[test]
fn move_onto_other_item_swaps() {
    let mut w = build(rows(), 2);
    assert_eq!(move_or_swap_inventory_slot(&mut w, &ident(1), 30, 1, 1, 0, 1), Ok(()));
    assert_eq!(pockets_of(&w, 1), vec![pocket(1, 10, 5), pocket(0, 11, 3)]);
}

#[test]
fn trading_player_may_edit_another_inventory() {
    let mut r = rows();
    r.inventories.push(InventoryComponent { entity_id: 50, pockets: vec![pocket(0, 3, 3)] });
    r.trades.push(TradeSessionComponent {
        entity_id: 9,
        initiator_entity_id: 1,
        acceptor_entity_id: 2,
        acceptor_offer_inventory_entity_id: 51,
        initiator_offer_inventory_entity_id: 50,
        approved_by_initiator: false,
        approved_by_acceptor: false,
    });
    r.active_trades.push(ActiveTradeComponent { entity_id: 1, trade_session_entity_id: 9 });
    let mut w = build(r, 2);
    assert_eq!(move_or_swap_inventory_slot(&mut w, &ident(1), 30, 1, 50, 0, 2), Ok(()));
    assert_eq!(pockets_of(&w, 50), vec![pocket(2, 3, 3)]);
}

#[test]
fn trading_player_may_not_edit_an_inventory_outside_its_trade() {
    let mut r = rows();
    r.trades.push(TradeSessionComponent {
        entity_id: 9,
        initiator_entity_id: 1,
        acceptor_entity_id: 2,
        acceptor_offer_inventory_entity_id: 51,
        initiator_offer_inventory_entity_id: 50,
        approved_by_initiator: false,
        approved_by_acceptor: false,
    });
    r.active_trades.push(ActiveTradeComponent { entity_id: 1, trade_session_entity_id: 9 });
    let mut w = build(r, 2);
    // inventory 2 belongs to the other player, not to the session
    let before = pockets_of(&w, 2);
    assert_eq!(move_or_swap_inventory_slot(&mut w, &ident(1), 30, 1, 2, 0, 3), Err(ReducerError::InventoryNotAllowed));
    assert_eq!(pockets_of(&w, 2), before);
}

#[test]
fn add_item_to_inventory_adds_and_refuses() {
    let mut w = build(rows(), 2);
    assert_eq!(add_item_to_inventory(&mut w, 30, 1, 10, -1, 4), Ok(()));
    assert_eq!(pockets_of(&w, 1), vec![pocket(0, 10, 9), pocket(1, 11, 3)]);
    assert_eq!(add_item_to_inventory(&mut w, 30, 1, 12, 5, 2), Ok(()));
    assert_eq!(w.inventory(1).unwrap().get_pocket(5), Some(pocket(5, 12, 2)));
    assert_eq!(add_item_to_inventory(&mut w, 30, 1, 12, 0, 2), Err(ReducerError::AddToInventoryFailed));
    assert_eq!(add_item_to_inventory(&mut w, 30, 1, 10, -1, -9), Ok(()));
    assert_eq!(w.inventory(1).unwrap().get_pocket(0), None);
}

#[test]
fn negative_count_takes_items_out_of_a_slot() {
    let mut w = build(rows(), 2);
    assert_eq!(add_item_to_inventory(&mut w, 30, 1, 11, 1, -2), Ok(()));
    assert_eq!(w.inventory(1).unwrap().get_pocket(1), Some(pocket(1, 11, 1)));
    assert_eq!(add_item_to_inventory(&mut w, 30, 1, 11, 1, -1), Ok(()));
    assert_eq!(w.inventory(1).unwrap().get_pocket(1), None);
    assert_eq!(add_item_to_inventory(&mut w, 30, 1, 11, 1, -1), Err(ReducerError::AddToInventoryFailed));
    assert_eq!(pockets_of(&w, 1), vec![pocket(0, 10, 5)]);
}

#[test]
fn update_animation_sets_row() {
    let mut r = rows();
    r.animations.push(AnimationComponent { entity_id: 1, moving: false, action_target_entity_id: 0 });
    let mut w = build(r, 2);
    assert_eq!(update_animation(&mut w, 1, true, 42), Ok(()));
    assert_eq!(w.animation(1), Some(AnimationComponent { entity_id: 1, moving: true, action_target_entity_id: 42 }));
}

#[test]
fn create_new_player_takes_next_id_and_time_in_millis() {
    let mut w = build(rows(), 2);
    let id = create_new_player(&mut w, &ident(3), 1_700_000_123_456, "carol".to_string()).unwrap();
    assert_eq!(id, 3);
    let p = w.player(3).unwrap();
    assert_eq!(p.creation_time, 1_700_000_123);
    assert_eq!(p.username, "carol");
    assert_eq!(w.player_by_owner(&ident(3)).unwrap().entity_id, 3);
    assert!(w.inventory(3).unwrap().pockets.is_empty());
    assert_eq!(w.sequences().0, 3);
}

#[test]
fn create_new_player_before_epoch_fails() {
    let mut w = build(rows(), 2);
    assert_eq!(create_new_player(&mut w, &ident(3), -1, "carol".to_string()), Err(ReducerError::NoCreationTime));
    assert!(w.player(3).is_none());
    assert_eq!(w.sequences().0, 2);
}

#[test]
fn player_by_owner_distinguishes_identities() {
    let w = build(rows(), 2);
    assert_eq!(w.player_by_owner(&ident(2)).unwrap().entity_id, 2);
    assert!(w.player_by_owner(&ident(9)).is_none());
}

#[test]
fn player_chat_records_message() {
    let mut w = build(rows(), 2);
    assert_eq!(player_chat(&mut w, 5_999, 1, "hi".to_string()), Ok(()));
    assert_eq!(w.chat().len(), 1);
    assert_eq!(w.chat()[0].msg_time, 5);
    assert_eq!(w.chat()[0].message, "hi");
    assert_eq!(w.chat()[0].player_id, 1);
    assert_eq!(player_chat(&mut w, -5, 1, "late".to_string()), Err(ReducerError::NoMessageTime));
    assert_eq!(w.chat().len(), 1);
    // the table holds a set of rows: the very same line is stored once
    assert_eq!(player_chat(&mut w, 5_200, 1, "hi".to_string()), Ok(()));
    assert_eq!(w.chat().len(), 1);
    assert_eq!(player_chat(&mut w, 6_000, 1, "hi".to_string()), Ok(()));
    assert_eq!(w.chat().len(), 2);
    assert_eq!(w.chat()[1].msg_time, 6);
}

fn trading_rows() -> Rows {
    let mut r = rows();
    r.inventories.push(InventoryComponent { entity_id: 50, pockets: vec![pocket(0, 3, 3)] });
    r.inventories.push(InventoryComponent { entity_id: 51, pockets: vec![pocket(0, 4, 4)] });
    r.trades.push(TradeSessionComponent {
        entity_id: 9,
        initiator_entity_id: 1,
        acceptor_entity_id: 2,
        acceptor_offer_inventory_entity_id: 51,
        initiator_offer_inventory_entity_id: 50,
        approved_by_initiator: true,
        approved_by_acceptor: false,
    });
    r.active_trades.push(ActiveTradeComponent { entity_id: 1, trade_session_entity_id: 9 });
    r.active_trades.push(ActiveTradeComponent { entity_id: 2, trade_session_entity_id: 9 });
    r
}

#[test]
fn signing_out_ends_the_trade() {
    let mut r = trading_rows();
    r.logins.push(PlayerLoginComponent { entity_id: 1, logged_in: true });
    let mut w = build(r, 2);
    assert_eq!(player_update_login_state(&mut w, &ident(1), 30, false), Ok(()));
    assert_eq!(w.login(1), Some(PlayerLoginComponent { entity_id: 1, logged_in: false }));
    assert!(w.active_trade(1).is_none());
    assert!(w.active_trade(2).is_none());
    assert!(w.trade(9).is_none());
    assert!(w.inventory(50).is_none());
    assert!(w.inventory(51).is_none());
    assert_eq!(pockets_of(&w, 1), vec![pocket(0, 10, 5), pocket(1, 11, 3), pocket(2, 3, 3)]);
    assert_eq!(pockets_of(&w, 2), vec![pocket(0, 4, 4)]);
}

#[test]
fn first_login_state_is_stored() {
    let mut w = build(trading_rows(), 2);
    assert_eq!(player_update_login_state(&mut w, &ident(2), 30, true), Ok(()));
    assert_eq!(w.login(2), Some(PlayerLoginComponent { entity_id: 2, logged_in: true }));
    assert!(w.active_trade(2).is_some());
}

#[test]
fn disconnect_signs_out_and_ends_trade() {
    let mut r = trading_rows();
    r.logins.push(PlayerLoginComponent { entity_id: 2, logged_in: true });
    let mut w = build(r, 2);
    assert_eq!(identity_disconnected(&mut w, &ident(2), 30), Ok(()));
    assert_eq!(w.login(2), Some(PlayerLoginComponent { entity_id: 2, logged_in: false }));
    assert!(w.trade(9).is_none());
    // a second disconnect changes nothing
    assert_eq!(identity_disconnected(&mut w, &ident(2), 30), Ok(()));
    assert_eq!(identity_disconnected(&mut w, &ident(7), 30), Ok(()));
    assert_eq!(w.login(2), Some(PlayerLoginComponent { entity_id: 2, logged_in: false }));
}

fn resource(health: u8) -> ResourceComponent {
    ResourceComponent { entity_id: 70, health, resource_id: 1, max_health: 5, item_yield_id: 10, item_yield_quantity: 2 }
}

#[test]
fn extract_yields_and_wears_resource() {
    let mut r = rows();
    r.resources.push(resource(2));
    let mut w = build(r, 2);
    assert_eq!(extract(&mut w, 30, 1, 70), Ok(()));
    assert_eq!(w.inventory(1).unwrap().get_pocket(0), Some(pocket(0, 10, 7)));
    assert_eq!(w.resource(70).unwrap().health, 1);
    assert_eq!(extract(&mut w, 30, 1, 70), Ok(()));
    assert!(w.resource(70).is_none());
    assert_eq!(w.inventory(1).unwrap().get_pocket(0), Some(pocket(0, 10, 9)));
}

#[test]
fn extract_into_full_inventory_fails() {
    let mut r = rows();
    r.resources.push(ResourceComponent { item_yield_id: 99, ..resource(3) });
    let mut w = build(r, 2);
    assert_eq!(extract(&mut w, 2, 1, 70), Err(ReducerError::AddToInventoryFailed));
    assert_eq!(w.resource(70).unwrap().health, 3);
}

#[test]
fn init_stores_globals_once() {
    let mut w = build(rows(), 2);
    assert_eq!(init(&mut w, true), Ok(()));
    assert!(w.globals().find(0).is_none());
    assert_eq!(init(&mut w, false), Ok(()));
    assert_eq!(w.globals().find(0), Some(&ServerGlobals { version: 0, entity_id_counter: 0 }));
}

#[test]
fn checks_tell_when_a_player_call_can_run() {
    let mut r = rows();
    r.inventories[0].pockets.push(pocket(2, 10, i32::MAX));
    r.resources.push(resource(0));
    r.logins.push(PlayerLoginComponent { entity_id: 1, logged_in: true });
    let w = build(r, 2);
    assert!(move_or_swap_is_defined(&w, &ident(1), 30, 1, 1, 0, 4));
    assert!(!move_or_swap_is_defined(&w, &ident(1), 30, 1, 1, 5, 4));
    assert!(!move_or_swap_is_defined(&w, &ident(1), 30, 1, 1, 0, 2));
    assert!(!move_or_swap_is_defined(&w, &ident(1), 30, 9, 1, 0, 2));
    assert!(move_or_swap_is_defined(&w, &ident(1), 30, 9, 1, 0, 0));
    assert!(create_new_player_is_defined(&w, &ident(3), 5, &"carol".to_string()));
    assert!(!create_new_player_is_defined(&w, &ident(3), 5, &"bob".to_string()));
    assert!(!create_new_player_is_defined(&w, &ident(2), 5, &"carol".to_string()));
    assert!(create_new_player_is_defined(&w, &ident(2), -5, &"bob".to_string()));
    assert!(update_login_is_defined(&w, &ident(1), false));
    assert!(!update_login_is_defined(&w, &ident(1), true));
    assert!(update_login_is_defined(&w, &ident(2), true));
    assert!(!update_login_is_defined(&w, &ident(5), true));
    assert!(disconnect_is_defined(&w, &ident(1)));
    assert!(!extract_is_defined(&w, 30, 1, 70));
    assert!(!extract_is_defined(&w, 30, 1, 71));
}

#[test]
fn moving_back_restores_every_slot() {
    let mut w = build(rows(), 2);
    assert_eq!(move_or_swap_inventory_slot(&mut w, &ident(1), 30, 1, 1, 0, 1), Ok(()));
    assert_eq!(move_or_swap_inventory_slot(&mut w, &ident(1), 30, 1, 1, 1, 0), Ok(()));
    let inv = w.inventory(1).unwrap();
    assert_eq!(inv.get_pocket(0), Some(pocket(0, 10, 5)));
    assert_eq!(inv.get_pocket(1), Some(pocket(1, 11, 3)));
    assert_eq!(move_or_swap_inventory_slot(&mut w, &ident(1), 30, 1, 1, 0, 7), Ok(()));
    assert_eq!(move_or_swap_inventory_slot(&mut w, &ident(1), 30, 1, 1, 7, 0), Ok(()));
    let inv = w.inventory(1).unwrap();
    assert_eq!(inv.get_pocket(0), Some(pocket(0, 10, 5)));
    assert_eq!(inv.get_pocket(7), None);
    assert_eq!(inv.pockets.len(), 2);
}
