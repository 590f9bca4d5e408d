use game_server::trade::{
    add_to_trade_is_defined, cancel_is_defined, close_is_defined, initiate_is_defined, refuse_is_defined,
    remove_from_trade_is_defined, toggle_is_defined,
};
use game_server::components::{
    ActiveTradeComponent, AnimationComponent, NpcComponent, PlayerChatMessage, PlayerComponent,
    PlayerLoginComponent, ResourceComponent, ServerGlobals, TradeSessionComponent,
};
use game_server::inventory::{InventoryComponent, Pocket};
use game_server::table::Table;
use game_server::trade::{
    add_to_trade, cancel_trade_session_with_participant, close_trade_session, initiate_trade_session,
    refuse_trade, remove_from_trade, toggle_accept_trade,
};
use game_server::world::{ReducerError, World};
use spacetimedb::Identity;

fn ident(n: u8) -> Identity {
    Identity::from_byte_array([n; 32])
}

fn pocket(pocket_idx: u32, item_id: u32, item_count: i32) -> Pocket {
    Pocket { pocket_idx, item_id, item_count }
}

fn player(entity_id: u64, owner: u8, name: &str) -> PlayerComponent {
    PlayerComponent { entity_id, owner_id: ident(owner), username: name.to_string(), creation_time: 0 }
}

fn session(approved_by_initiator: bool, approved_by_acceptor: bool) -> TradeSessionComponent {
    TradeSessionComponent {
        entity_id: 9,
        initiator_entity_id: 1,
        acceptor_entity_id: 2,
        acceptor_offer_inventory_entity_id: 51,
        initiator_offer_inventory_entity_id: 50,
        approved_by_initiator,
        approved_by_acceptor,
    }
}

fn build(
    inventories: Vec<InventoryComponent>,
    trades: Vec<TradeSessionComponent>,
    active_trades: Vec<ActiveTradeComponent>,
) -> World {
    build_with_globals(inventories, trades, active_trades, vec![ServerGlobals { version: 0, entity_id_counter: 7 }])
}

fn build_with_globals(
    inventories: Vec<InventoryComponent>,
    trades: Vec<TradeSessionComponent>,
    active_trades: Vec<ActiveTradeComponent>,
    globals: Vec<ServerGlobals>,
) -> World {
    World::assemble(
        Table::from_vec(vec![player(1, 1, "alice"), player(2, 2, "bob"), player(3, 3, "carol")]).unwrap(),
        Table::from_vec(Vec::<PlayerLoginComponent>::new()).unwrap(),
        Table::from_vec(inventories).unwrap(),
        Table::from_vec(trades).unwrap(),
        Table::from_vec(active_trades).unwrap(),
        Table::from_vec(Vec::<ResourceComponent>::new()).unwrap(),
        Table::from_vec(Vec::<AnimationComponent>::new()).unwrap(),
        Table::from_vec(Vec::<NpcComponent>::new()).unwrap(),
        Table::from_vec(globals).unwrap(),
        Vec::<PlayerChatMessage>::new(),
        3,
        0,
        100,
    )
    .unwrap()
}

fn inventories() -> Vec<InventoryComponent> {
    vec![
        InventoryComponent { entity_id: 1, pockets: vec![pocket(0, 10, 5), pocket(1, 11, 3)] },
        InventoryComponent { entity_id: 2, pockets: vec![pocket(0, 20, 2)] },
        InventoryComponent { entity_id: 3, pockets: vec![] },
        InventoryComponent { entity_id: 50, pockets: vec![] },
        InventoryComponent { entity_id: 51, pockets: vec![pocket(4, 20, 1)] },
    ]
}

fn in_trade(approved_by_initiator: bool, approved_by_acceptor: bool) -> World {
    build(
        inventories(),
        vec![session(approved_by_initiator, approved_by_acceptor)],
        vec![
            ActiveTradeComponent { entity_id: 1, trade_session_entity_id: 9 },
            ActiveTradeComponent { entity_id: 2, trade_session_entity_id: 9 },
        ],
    )
}

fn pockets_of(w: &World, id: u64) -> Vec<Pocket> {
    w.inventory(id).unwrap().pockets.clone()
}

#[test]
fn initiate_opens_a_session() {
    let mut w = build(inventories(), vec![], vec![]);
    assert_eq!(initiate_trade_session(&mut w, &ident(1), 1, 2), Ok(()));
    let s = w.trade(8).unwrap();
    assert_eq!(s.initiator_entity_id, 1);
    assert_eq!(s.acceptor_entity_id, 2);
    assert!(!s.approved_by_initiator && !s.approved_by_acceptor);
    assert_eq!(s.initiator_offer_inventory_entity_id, 101);
    assert_eq!(s.acceptor_offer_inventory_entity_id, 102);
    assert_eq!(w.active_trade(1), Some(ActiveTradeComponent { entity_id: 1, trade_session_entity_id: 8 }));
    assert_eq!(w.active_trade(2), Some(ActiveTradeComponent { entity_id: 2, trade_session_entity_id: 8 }));
    assert!(w.inventory(101).unwrap().pockets.is_empty());
    assert!(w.inventory(102).unwrap().pockets.is_empty());
    assert_eq!(w.sequences().2, 102);
    assert_eq!(w.server_globals(0), Some(ServerGlobals { version: 0, entity_id_counter: 8 }));
}

#[test]
fn sessions_get_distinct_ids() {
    let mut w = build(inventories(), vec![], vec![]);
    assert_eq!(initiate_trade_session(&mut w, &ident(1), 1, 2), Ok(()));
    assert_eq!(refuse_trade(&mut w, 30, 1), Ok(()));
    assert!(w.trade(8).is_none());
    assert_eq!(initiate_trade_session(&mut w, &ident(3), 3, 1), Ok(()));
    let s = w.trade(9).unwrap();
    assert_eq!((s.initiator_entity_id, s.acceptor_entity_id), (3, 1));
    assert_eq!((s.initiator_offer_inventory_entity_id, s.acceptor_offer_inventory_entity_id), (103, 104));
    assert_eq!(w.active_trade(1), Some(ActiveTradeComponent { entity_id: 1, trade_session_entity_id: 9 }));
}

#[test]
fn initiate_does_nothing_while_trading() {
    let mut w = in_trade(false, false);
    assert_eq!(initiate_trade_session(&mut w, &ident(3), 3, 2), Ok(()));
    assert!(w.active_trade(3).is_none());
    assert!(w.trade(8).is_none());
    assert_eq!(w.sequences().2, 100);
    assert_eq!(w.server_globals(0), Some(ServerGlobals { version: 0, entity_id_counter: 7 }));
}

#[test]
fn initiate_needs_the_initiator_owner() {
    let mut w = build(inventories(), vec![], vec![]);
    assert_eq!(initiate_trade_session(&mut w, &ident(2), 1, 2), Err(ReducerError::NotPlayerOwner));
    assert!(w.trade(8).is_none());
}

#[test]
fn add_to_trade_moves_pocket_and_withdraws_approvals() {
    let mut w = in_trade(true, true);
    assert_eq!(add_to_trade(&mut w, 30, 18, 1, 0, 2), Ok(()));
    assert_eq!(pockets_of(&w, 1), vec![pocket(1, 11, 3)]);
    assert_eq!(pockets_of(&w, 50), vec![pocket(2, 10, 5)]);
    let s = w.trade(9).unwrap();
    assert!(!s.approved_by_initiator && !s.approved_by_acceptor);
}

#[test]
fn add_to_trade_failures_roll_back() {
    let mut w = in_trade(true, false);
    assert_eq!(add_to_trade(&mut w, 1, 18, 1, 1, 0), Err(ReducerError::RemoveFromPlayerInventoryFailed));
    // the initiator's offer holds another kind of item in slot 4
    let mut invs = inventories();
    invs[3].pockets.push(pocket(4, 77, 1));
    let mut w = build(
        invs,
        vec![session(true, false)],
        vec![ActiveTradeComponent { entity_id: 1, trade_session_entity_id: 9 }],
    );
    assert_eq!(add_to_trade(&mut w, 30, 18, 1, 0, 4), Err(ReducerError::AddToTradeWindowFailed));
    assert_eq!(pockets_of(&w, 1), vec![pocket(0, 10, 5), pocket(1, 11, 3)]);
    assert_eq!(pockets_of(&w, 50), vec![pocket(4, 77, 1)]);
    assert_eq!(w.trade(9), Some(session(true, false)));
}

#[test]
fn remove_from_trade_returns_pocket() {
    let mut w = in_trade(false, true);
    assert_eq!(remove_from_trade(&mut w, 30, 18, 2, 4, 0), Ok(()));
    assert!(pockets_of(&w, 51).is_empty());
    assert_eq!(pockets_of(&w, 2), vec![pocket(0, 20, 3)]);
    assert!(!w.trade(9).unwrap().approved_by_acceptor);
}

#[test]
fn remove_from_trade_failure_rolls_back() {
    let mut w = in_trade(false, true);
    assert_eq!(remove_from_trade(&mut w, 30, 3, 2, 4, 0), Err(ReducerError::RemoveFromTradeInventoryFailed));
    let mut w = build(
        vec![
            InventoryComponent { entity_id: 1, pockets: vec![pocket(0, 10, 5)] },
            InventoryComponent { entity_id: 2, pockets: vec![pocket(0, 30, 2)] },
            InventoryComponent { entity_id: 50, pockets: vec![] },
            InventoryComponent { entity_id: 51, pockets: vec![pocket(4, 20, 1)] },
        ],
        vec![session(true, true)],
        vec![ActiveTradeComponent { entity_id: 2, trade_session_entity_id: 9 }],
    );
    assert_eq!(remove_from_trade(&mut w, 30, 18, 2, 4, 0), Err(ReducerError::AddToPlayerInventoryFailed));
    assert_eq!(pockets_of(&w, 51), vec![pocket(4, 20, 1)]);
    assert_eq!(w.trade(9), Some(session(true, true)));
}

#[test]
fn toggle_flips_own_approval() {
    let mut w = in_trade(false, false);
    assert_eq!(toggle_accept_trade(&mut w, 30, 2), Ok(()));
    assert_eq!(w.trade(9), Some(session(false, true)));
    assert_eq!(toggle_accept_trade(&mut w, 30, 2), Ok(()));
    assert_eq!(w.trade(9), Some(session(false, false)));
    assert_eq!(toggle_accept_trade(&mut w, 30, 1), Ok(()));
    assert_eq!(w.trade(9), Some(session(true, false)));
}

#[test]
fn both_approvals_close_the_session() {
    let mut w = in_trade(true, false);
    assert_eq!(toggle_accept_trade(&mut w, 30, 2), Ok(()));
    assert!(w.trade(9).is_none());
    assert!(w.active_trade(1).is_none() && w.active_trade(2).is_none());
    assert!(w.inventory(50).is_none() && w.inventory(51).is_none());
    // the acceptor's offer goes to the initiator, the initiator's empty
    // offer to the acceptor
    assert_eq!(pockets_of(&w, 1), vec![pocket(0, 10, 5), pocket(1, 11, 3), pocket(2, 20, 1)]);
    assert_eq!(pockets_of(&w, 2), vec![pocket(0, 20, 2)]);
}

#[test]
fn toggle_by_outsider_is_refused() {
    let mut w = build(
        inventories(),
        vec![session(false, false)],
        vec![ActiveTradeComponent { entity_id: 3, trade_session_entity_id: 9 }],
    );
    assert_eq!(toggle_accept_trade(&mut w, 30, 3), Err(ReducerError::NotInTradeSession));
    assert_eq!(w.trade(9), Some(session(false, false)));
}

#[test]
fn refuse_and_cancel_close_the_session() {
    let mut w = in_trade(false, false);
    assert_eq!(refuse_trade(&mut w, 30, 1), Ok(()));
    assert!(w.trade(9).is_none());
    let mut w = in_trade(false, false);
    cancel_trade_session_with_participant(&mut w, 30, 3);
    assert!(w.trade(9).is_some());
    cancel_trade_session_with_participant(&mut w, 30, 2);
    assert!(w.trade(9).is_none());
}

fn count(w: &World, id: u64, item_id: u32) -> i32 {
    w.inventory(id).unwrap().pockets.iter().filter(|p| p.item_id == item_id).map(|p| p.item_count).sum()
}

fn two_offers() -> World {
    World::assemble(
        Table::from_vec(vec![player(1, 1, "alice"), player(2, 2, "bob")]).unwrap(),
        Table::from_vec(Vec::<PlayerLoginComponent>::new()).unwrap(),
        Table::from_vec(vec![
            InventoryComponent { entity_id: 1, pockets: vec![] },
            InventoryComponent { entity_id: 2, pockets: vec![] },
            InventoryComponent { entity_id: 11, pockets: vec![pocket(0, 5, 3)] },
            InventoryComponent { entity_id: 12, pockets: vec![pocket(0, 7, 1)] },
        ])
        .unwrap(),
        Table::from_vec(vec![TradeSessionComponent {
            entity_id: 10,
            initiator_entity_id: 1,
            acceptor_entity_id: 2,
            acceptor_offer_inventory_entity_id: 12,
            initiator_offer_inventory_entity_id: 11,
            approved_by_initiator: true,
            approved_by_acceptor: true,
        }])
        .unwrap(),
        Table::from_vec(vec![
            ActiveTradeComponent { entity_id: 1, trade_session_entity_id: 10 },
            ActiveTradeComponent { entity_id: 2, trade_session_entity_id: 10 },
        ])
        .unwrap(),
        Table::from_vec(Vec::<ResourceComponent>::new()).unwrap(),
        Table::from_vec(Vec::<AnimationComponent>::new()).unwrap(),
        Table::from_vec(Vec::<NpcComponent>::new()).unwrap(),
        Table::from_vec(vec![ServerGlobals { version: 0, entity_id_counter: 10 }]).unwrap(),
        Vec::<PlayerChatMessage>::new(),
        2,
        0,
        12,
    )
    .unwrap()
}

#[test]
fn successful_close_exchanges_offers() {
    let mut w = two_offers();
    close_trade_session(&mut w, 30, 10, true);
    assert_eq!(count(&w, 1, 7), 1);
    assert_eq!(count(&w, 1, 5), 0);
    assert_eq!(count(&w, 2, 5), 3);
    assert_eq!(count(&w, 2, 7), 0);
    assert!(w.trade(10).is_none());
    assert!(w.active_trade(1).is_none() && w.active_trade(2).is_none());
    assert!(w.inventory(11).is_none() && w.inventory(12).is_none());
}

#[test]
fn unsuccessful_close_refunds_offers() {
    let mut w = two_offers();
    close_trade_session(&mut w, 30, 10, false);
    assert_eq!(pockets_of(&w, 1), vec![pocket(0, 5, 3)]);
    assert_eq!(pockets_of(&w, 2), vec![pocket(0, 7, 1)]);
    assert!(w.trade(10).is_none());
}

#[test]
fn close_without_room_for_the_exchange_refunds_offers() {
    // with a single slot, player 1 already holding another kind of item has
    // no room for the acceptor's offer, so each offer goes back
    let mut w = two_offers();
    let mut inv = w.inventory(1).unwrap().duplicate();
    inv.pockets.push(pocket(0, 9, 1));
    w.update_inventory(inv);
    close_trade_session(&mut w, 1, 10, true);
    assert_eq!(pockets_of(&w, 1), vec![pocket(0, 9, 1)]);
    assert_eq!(pockets_of(&w, 2), vec![pocket(0, 7, 1)]);
}

#[test]
fn an_offer_has_trading_slots() {
    let mut w = in_trade(false, false);
    assert_eq!(add_to_trade(&mut w, 30, 2, 1, 0, 2), Err(ReducerError::AddToTradeWindowFailed));
    assert_eq!(pockets_of(&w, 1), vec![pocket(0, 10, 5), pocket(1, 11, 3)]);
    assert_eq!(add_to_trade(&mut w, 30, 2, 1, 0, 1), Ok(()));
    assert_eq!(pockets_of(&w, 50), vec![pocket(1, 10, 5)]);
}

#[test]
fn taking_back_what_was_offered_restores_both_inventories() {
    let mut w = in_trade(true, true);
    assert_eq!(add_to_trade(&mut w, 30, 18, 1, 0, 3), Ok(()));
    assert_eq!(remove_from_trade(&mut w, 30, 18, 1, 3, 0), Ok(()));
    let mut mine = pockets_of(&w, 1);
    mine.sort_by_key(|p| p.pocket_idx);
    assert_eq!(mine, vec![pocket(0, 10, 5), pocket(1, 11, 3)]);
    assert!(pockets_of(&w, 50).is_empty());
    assert_eq!(w.trade(9), Some(session(false, false)));
}

#[test]
fn toggling_twice_restores_the_session() {
    let mut w = in_trade(false, false);
    assert_eq!(toggle_accept_trade(&mut w, 30, 1), Ok(()));
    assert_eq!(toggle_accept_trade(&mut w, 30, 1), Ok(()));
    assert_eq!(w.trade(9), Some(session(false, false)));
    assert_eq!(pockets_of(&w, 1), vec![pocket(0, 10, 5), pocket(1, 11, 3)]);
}

#[test]
fn checks_tell_when_a_trade_call_can_run() {
    let w = in_trade(true, false);
    assert!(close_is_defined(&w, 9));
    assert!(!close_is_defined(&w, 8));
    assert!(cancel_is_defined(&w, 1));
    assert!(cancel_is_defined(&w, 3));
    assert!(refuse_is_defined(&w, 2));
    assert!(!refuse_is_defined(&w, 4));
    assert!(add_to_trade_is_defined(&w, 30, 1, 0));
    assert!(!add_to_trade_is_defined(&w, 30, 1, 7));
    assert!(!add_to_trade_is_defined(&w, 30, 3, 0));
    assert!(remove_from_trade_is_defined(&w, 18, 2, 4));
    assert!(!remove_from_trade_is_defined(&w, 18, 1, 0));
    assert!(toggle_is_defined(&w, 2));
    assert!(initiate_is_defined(&w, &ident(3), 3, 2));
    let fresh = build(inventories(), vec![], vec![]);
    assert!(initiate_is_defined(&fresh, &ident(1), 1, 2));
    assert!(!initiate_is_defined(&fresh, &ident(1), 1, 9));
    // a session that was just opened can be traded on and closed
    let mut w = build(inventories(), vec![], vec![]);
    assert_eq!(initiate_trade_session(&mut w, &ident(1), 1, 2), Ok(()));
    assert!(add_to_trade_is_defined(&w, 30, 1, 0));
    assert!(close_is_defined(&w, 8));
    // without the globals row no session can be opened
    let bare = build_with_globals(inventories(), vec![], vec![], vec![]);
    assert!(!initiate_is_defined(&bare, &ident(1), 1, 2));
}

#[test]
fn closing_returns_every_offered_item_when_there_is_room() {
    let mut invs = inventories();
    invs[3].pockets = vec![pocket(0, 10, 2), pocket(1, 12, 4)];
    let mut w = build(
        invs,
        vec![session(false, false)],
        vec![
            ActiveTradeComponent { entity_id: 1, trade_session_entity_id: 9 },
            ActiveTradeComponent { entity_id: 2, trade_session_entity_id: 9 },
        ],
    );
    close_trade_session(&mut w, 30, 9, false);
    assert_eq!(pockets_of(&w, 1), vec![pocket(0, 10, 7), pocket(1, 11, 3), pocket(2, 12, 4)]);
    assert_eq!(pockets_of(&w, 2), vec![pocket(0, 20, 3)]);
}

#[test]
fn closing_drops_what_does_not_fit() {
    let mut invs = inventories();
    invs[3].pockets = vec![pocket(0, 12, 4)];
    let mut w = build(invs, vec![session(false, false)], vec![]);
    close_trade_session(&mut w, 2, 9, false);
    assert_eq!(pockets_of(&w, 1), vec![pocket(0, 10, 5), pocket(1, 11, 3)]);
    assert!(w.inventory(50).is_none());
}
