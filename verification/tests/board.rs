use deep_sea::deep_sea::{DeepSea, DiveDirection, Position, Tile};
use deep_sea::error::DeepSeaError;
use deep_sea::solver::TreasureDecision;
use deep_sea::treasure::Treasure;

#[test]
fn test_advance_position() {
    assert!(matches!(
        Position::WaitingToDive.advance(DiveDirection::Down),
        Ok(Position::Diving(0))
    ));
    assert!(Position::WaitingToDive.advance(DiveDirection::Up).is_err());
    assert!(Position::ReturnedToSubmarine
        .advance(DiveDirection::Down)
        .is_err());
    assert!(Position::ReturnedToSubmarine
        .advance(DiveDirection::Up)
        .is_err());

    assert!(matches!(
        Position::Diving(10).advance(DiveDirection::Down),
        Ok(Position::Diving(11))
    ));
    assert!(matches!(
        Position::Diving(8).advance(DiveDirection::Up),
        Ok(Position::Diving(7))
    ));
    assert!(matches!(
        Position::Diving(0).advance(DiveDirection::Up),
        Ok(Position::ReturnedToSubmarine)
    ));
}

#[test]
fn test_advance_error_kinds() {
    assert_eq!(
        Position::WaitingToDive.advance(DiveDirection::Up),
        Err(DeepSeaError::Internal)
    );
    assert_eq!(
        Position::ReturnedToSubmarine.advance(DiveDirection::Up),
        Err(DeepSeaError::Internal)
    );
}

#[test]
fn test_init() {
    let deep_sea = DeepSea::new(vec![Tile::Empty], 1);

    let player = &deep_sea.players()[0];
    assert_eq!(player.direction(), DiveDirection::Down);
    assert_eq!(player.position(), Position::WaitingToDive);
    assert!(player.held_treasures().is_empty());
    assert!(!deep_sea.occupied_tiles().contains(0));
    assert_eq!(deep_sea.oxygen(), 25);
    assert_eq!(deep_sea.player_idx(), 0);
}

#[test]
fn test_move_player() {
    let mut deep_sea = DeepSea::new(vec![Tile::Empty], 1);

    deep_sea.move_player(DiveDirection::Down, 1).unwrap();
    let player = &deep_sea.players()[0];
    assert_eq!(player.direction(), DiveDirection::Down);
    assert_eq!(player.position(), Position::Diving(0));
    assert!(player.held_treasures().is_empty());
    assert!(deep_sea.occupied_tiles().contains(0));
}

#[test]
fn test_leapfrog_player() {
    let mut deep_sea = DeepSea::new((0..3).map(|_| Tile::Empty).collect(), 2);

    deep_sea.move_player(DiveDirection::Down, 2).unwrap();
    assert_eq!(deep_sea.players()[0].position(), Position::Diving(1));
    assert!(deep_sea.occupied_tiles().contains(1));

    deep_sea.next_player();

    deep_sea.move_player(DiveDirection::Down, 2).unwrap();
    assert_eq!(deep_sea.players()[1].position(), Position::Diving(2));
    assert!(deep_sea.occupied_tiles().contains(2));
}

#[test]
fn test_move_player_twice() {
    let mut deep_sea = DeepSea::new((0..3).map(|_| Tile::Empty).collect(), 1);

    deep_sea.move_player(DiveDirection::Down, 2).unwrap();
    assert_eq!(deep_sea.players()[0].position(), Position::Diving(1));
    assert!(deep_sea.occupied_tiles().contains(1));

    deep_sea.next_player();

    deep_sea.move_player(DiveDirection::Down, 1).unwrap();
    assert_eq!(deep_sea.players()[0].position(), Position::Diving(2));
    assert!(!deep_sea.occupied_tiles().contains(1));
    assert!(deep_sea.occupied_tiles().contains(2));
}

#[test]
fn test_take_treasure() {
    let mut deep_sea = DeepSea::new(vec![Tile::Treasure(Treasure::One)], 1);

    deep_sea.move_player(DiveDirection::Down, 1).unwrap();
    assert_eq!(deep_sea.players()[0].position(), Position::Diving(0));
    assert!(deep_sea.players()[0].held_treasures().is_empty());

    deep_sea.take_treasure(TreasureDecision::Ignore).unwrap();
    assert_eq!(deep_sea.path()[0], Tile::Treasure(Treasure::One));
    assert!(deep_sea.players()[0].held_treasures().is_empty());

    deep_sea.take_treasure(TreasureDecision::Take).unwrap();
    assert_eq!(deep_sea.path()[0], Tile::Empty);
    assert_eq!(deep_sea.players()[0].held_treasures(), &[Treasure::One]);

    assert!(deep_sea.take_treasure(TreasureDecision::Take).is_err());

    assert!(deep_sea
        .take_treasure(TreasureDecision::Return(Treasure::Four))
        .is_err());
    deep_sea
        .take_treasure(TreasureDecision::Return(Treasure::One))
        .unwrap();
    assert_eq!(deep_sea.path()[0], Tile::Treasure(Treasure::One));
    assert!(deep_sea.players()[0].held_treasures().is_empty());
}

#[test]
fn test_take_treasure_error_kinds() {
    let mut deep_sea = DeepSea::new(vec![Tile::Empty], 1);
    deep_sea.move_player(DiveDirection::Down, 1).unwrap();
    assert_eq!(
        deep_sea.take_treasure(TreasureDecision::Take),
        Err(DeepSeaError::AgentError)
    );
    assert_eq!(
        deep_sea.take_treasure(TreasureDecision::Return(Treasure::One)),
        Err(DeepSeaError::AgentError)
    );
}

#[test]
fn test_return_removes_requested_kind() {
    let mut deep_sea = DeepSea::new(
        vec![Tile::Treasure(Treasure::One), Tile::Treasure(Treasure::Two)],
        1,
    );
    deep_sea.move_player(DiveDirection::Down, 1).unwrap();
    deep_sea.take_treasure(TreasureDecision::Take).unwrap();
    // one held treasure: a raw total of two leaves one step of budget
    deep_sea.move_player(DiveDirection::Down, 2).unwrap();
    deep_sea.take_treasure(TreasureDecision::Take).unwrap();
    assert_eq!(
        deep_sea.players()[0].held_treasures(),
        &[Treasure::One, Treasure::Two]
    );

    // tile 1 is now empty; put the second kind back
    deep_sea
        .take_treasure(TreasureDecision::Return(Treasure::Two))
        .unwrap();
    assert_eq!(deep_sea.players()[0].held_treasures(), &[Treasure::One]);
    assert_eq!(deep_sea.path()[1], Tile::Treasure(Treasure::Two));
}

#[test]
fn test_move_up_from_waiting_fails() {
    let mut deep_sea = DeepSea::new(vec![Tile::Empty, Tile::Empty], 1);
    assert_eq!(
        deep_sea.move_player(DiveDirection::Up, 2),
        Err(DeepSeaError::Internal)
    );
    // the failed move changes nothing
    assert_eq!(deep_sea.players()[0].position(), Position::WaitingToDive);
}

#[test]
fn test_land_on_second_tile() {
    // a raw dice total of two with no cargo: one unit to enter the path,
    // one to advance a tile
    let mut deep_sea = DeepSea::new((0..3).map(|_| Tile::Empty).collect(), 1);
    deep_sea.move_player(DiveDirection::Down, 2).unwrap();
    assert_eq!(deep_sea.players()[0].position(), Position::Diving(1));
}

#[test]
fn test_stop_at_last_tile() {
    // the scan cannot run past the last path index, whatever the budget
    let mut deep_sea = DeepSea::new((0..3).map(|_| Tile::Empty).collect(), 1);
    deep_sea.move_player(DiveDirection::Down, 6).unwrap();
    assert_eq!(deep_sea.players()[0].position(), Position::Diving(2));
}

#[test]
fn test_cargo_slows_movement() {
    let mut deep_sea = DeepSea::new(
        vec![
            Tile::Treasure(Treasure::One),
            Tile::Empty,
            Tile::Empty,
            Tile::Empty,
        ],
        1,
    );
    deep_sea.move_player(DiveDirection::Down, 1).unwrap();
    deep_sea.take_treasure(TreasureDecision::Take).unwrap();
    // raw total 3, one treasure held: effective budget 2
    deep_sea.move_player(DiveDirection::Down, 3).unwrap();
    assert_eq!(deep_sea.players()[0].position(), Position::Diving(2));
}

#[test]
fn test_surface_from_last_tile() {
    // the stop at the last path index applies to downward moves only: a
    // diver standing there can still swim up
    let mut deep_sea = DeepSea::new((0..3).map(|_| Tile::Empty).collect(), 1);
    deep_sea.move_player(DiveDirection::Down, 6).unwrap();
    assert_eq!(deep_sea.players()[0].position(), Position::Diving(2));

    deep_sea.move_player(DiveDirection::Up, 1).unwrap();
    assert_eq!(deep_sea.players()[0].position(), Position::Diving(1));
    assert!(!deep_sea.occupied_tiles().contains(2));
    assert!(deep_sea.occupied_tiles().contains(1));

    deep_sea.move_player(DiveDirection::Up, 6).unwrap();
    assert_eq!(
        deep_sea.players()[0].position(),
        Position::ReturnedToSubmarine
    );
    assert!(!deep_sea.occupied_tiles().contains(1));
}

#[test]
fn test_return_to_submarine_consumes_roll() {
    let mut deep_sea = DeepSea::new((0..3).map(|_| Tile::Empty).collect(), 1);
    deep_sea.move_player(DiveDirection::Down, 1).unwrap();
    assert_eq!(deep_sea.players()[0].position(), Position::Diving(0));
    // any leftover budget is discarded once the diver surfaces
    deep_sea.move_player(DiveDirection::Up, 6).unwrap();
    assert_eq!(
        deep_sea.players()[0].position(),
        Position::ReturnedToSubmarine
    );
    assert!(!deep_sea.occupied_tiles().contains(0));
}

#[test]
fn test_done() {
    let mut deep_sea = DeepSea::new(vec![Tile::Treasure(Treasure::One), Tile::Empty], 1);
    assert!(!deep_sea.done());

    // every player returned ends the game
    deep_sea.move_player(DiveDirection::Down, 1).unwrap();
    assert!(!deep_sea.done());
    deep_sea.move_player(DiveDirection::Up, 1).unwrap();
    assert!(deep_sea.done());
}

#[test]
fn test_done_on_empty_oxygen() {
    let mut deep_sea = DeepSea::new(vec![Tile::Treasure(Treasure::One)], 1);
    deep_sea.move_player(DiveDirection::Down, 1).unwrap();
    deep_sea.take_treasure(TreasureDecision::Take).unwrap();
    // one held treasure burns one oxygen per turn; the pool starts at 25
    for _ in 0..24 {
        deep_sea.take_oxygen();
        assert!(!deep_sea.done());
    }
    deep_sea.take_oxygen();
    assert_eq!(deep_sea.oxygen(), 0);
    assert!(deep_sea.done());
    // the pool is floored at zero
    deep_sea.take_oxygen();
    assert_eq!(deep_sea.oxygen(), 0);
}

#[test]
fn test_next_player_rotation() {
    let mut deep_sea = DeepSea::new(vec![Tile::Empty], 3);
    assert_eq!(deep_sea.player_idx(), 0);
    deep_sea.next_player();
    assert_eq!(deep_sea.player_idx(), 1);
    deep_sea.next_player();
    assert_eq!(deep_sea.player_idx(), 2);
    deep_sea.next_player();
    assert_eq!(deep_sea.player_idx(), 0);
}
