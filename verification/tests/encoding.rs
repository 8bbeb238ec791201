use deep_sea::bitset::OccupiedTiles;
use deep_sea::deep_sea::{DeepSea, DiveDirection, Position, Tile};
use deep_sea::deep_sea_vectorization::{
    dive_direction_enum_unpack, position_enum_unpack, raw_state_action_vector,
    treasure_enum_unpack, DeepSeaAction, DeepSeaState, DeepSeaStateActionPair, Path, Player,
    DEEP_SEA_ACTION_COUNT, PLAYER_DIM,
};
use deep_sea::solver::TreasureDecision;
use deep_sea::treasure::Treasure;
use deep_sea::vectorization::{convert_cells, DataType, Unpackable};
use rand::Rng;

fn to_f64(cells: &[u16]) -> ndarray::Array1<f64> {
    ndarray::Array1::from(cells.iter().map(|&c| c as f64).collect::<Vec<f64>>())
}

fn to_f32(cells: &[u16]) -> ndarray::Array1<f32> {
    ndarray::Array1::from(cells.iter().map(|&c| c as f32).collect::<Vec<f32>>())
}

#[test]
fn test_tiles_vectorization() {
    let tiles: Vec<Tile> = (0..8)
        .map(|_| Tile::Treasure(Treasure::One))
        .chain((0..8).map(|_| Tile::Treasure(Treasure::Two)))
        .chain((0..8).map(|_| Tile::Treasure(Treasure::Three)))
        .chain((0..8).map(|_| Tile::Treasure(Treasure::Four)))
        .collect();
    let tiles_size = &[tiles.unpacked_size()];
    let tiles_f32_ndarray = to_f32(&tiles.unpack());
    assert_eq!(tiles_f32_ndarray.shape(), tiles_size);
}

#[test]
fn test_path_vectorization() {
    let tiles: Vec<Tile> = (0..1)
        .map(|_| Tile::Treasure(Treasure::One))
        .chain((0..1).map(|_| Tile::Treasure(Treasure::Two)))
        .chain((0..1).map(|_| Tile::Treasure(Treasure::Three)))
        .chain((0..1).map(|_| Tile::Treasure(Treasure::Four)))
        .collect();
    let mut occupied_tiles = OccupiedTiles::new();
    let occupied_idx = 3;
    occupied_tiles.insert(occupied_idx);
    let path = Path {
        tiles: tiles.clone(),
        occupied: occupied_tiles,
    };
    let path_size = &[path.unpacked_size()];
    let path_f64_ndarray = to_f64(&path.unpack());
    assert_eq!(path_f64_ndarray.shape(), path_size);
    for (i, tile) in tiles.iter().enumerate() {
        assert_eq!(
            path_f64_ndarray[[2 * i]],
            tile.unpack()[0] as f64
        );
        assert_eq!(
            path_f64_ndarray[[2 * i + 1]],
            f64::from(i == occupied_idx)
        );
    }
}

#[test]
fn test_direction_vectorization() {
    let direction = DiveDirection::Up;
    let direction_size = &[direction.unpacked_size()];
    let direction_f32_ndarray = to_f32(&direction.unpack());
    assert_eq!(direction_f32_ndarray.shape(), direction_size);
    assert_eq!(direction_f32_ndarray[[0]], 1.0);
}

#[test]
fn test_position_vectorization() {
    let position = Position::Diving(40);
    let position_size = &[position.unpacked_size()];
    let position_f64_ndarray = to_f64(&position.unpack());
    assert_eq!(position_f64_ndarray.shape(), position_size);
}

#[test]
fn test_player_vectorization() {
    let deep_sea = DeepSea::new(vec![], 1);
    let player = Player::of_board(&deep_sea.players()[0]);
    let player_size = &[player.unpacked_size()];
    let cells = player.unpack();
    let player_i32_ndarray =
        ndarray::Array1::from(cells.iter().map(|&c| c as i32).collect::<Vec<i32>>());
    assert_eq!(player_i32_ndarray.shape(), player_size);
}

#[test]
fn test_players_vectorization() {
    let players = vec![
        Player {
            direction: DiveDirection::Up,
            position: Position::Diving(5),
            held_treasures: vec![Treasure::One, Treasure::Four],
        },
        Player {
            direction: DiveDirection::Down,
            position: Position::ReturnedToSubmarine,
            held_treasures: vec![Treasure::Three],
        },
    ];
    let players_size = &[players.unpacked_size()];
    let players_f32_ndarray = to_f32(&players.unpack());
    assert_eq!(players_f32_ndarray.shape(), players_size);
    // Player1: Up.
    assert_eq!(players_f32_ndarray[[0]], 1.0);
    // Depth, and has_started / finished flags.
    assert_eq!(players_f32_ndarray[[1]], 5.0);
    assert_eq!(players_f32_ndarray[[2]], 0.0);
    assert_eq!(players_f32_ndarray[[3]], 0.0);
    // Held treasures.
    assert_eq!(players_f32_ndarray[[4]], 1.0);
    assert_eq!(players_f32_ndarray[[5]], 4.0);
    for i in 0..8 {
        assert_eq!(players_f32_ndarray[[6 + i]], 0.0);
    }
    // Player2: Down (technically impossible since returned).
    let player_two_idx = players_size[0] / 2;
    assert_eq!(players_f32_ndarray[[player_two_idx]], 0.0);
    // Returned.
    assert_eq!(players_f32_ndarray[[player_two_idx + 1]], 0.0);
    assert_eq!(players_f32_ndarray[[player_two_idx + 2]], 0.0);
    assert_eq!(players_f32_ndarray[[player_two_idx + 3]], 1.0);
    // Treasures.
    assert_eq!(players_f32_ndarray[[player_two_idx + 4]], 3.0);
    for i in 0..9 {
        assert_eq!(players_f32_ndarray[[player_two_idx + 5 + i]], 0.0);
    }
}

#[test]
fn test_action_vectorization() {
    let deep_sea_action = DeepSeaAction::from(TreasureDecision::Return(Treasure::Two));
    let deep_sea_action_size = &[deep_sea_action.unpacked_size()];
    let deep_sea_action_vec = to_f64(&deep_sea_action.unpack());
    assert_eq!(deep_sea_action_vec.shape(), deep_sea_action_size);
    // 0 -> Ignore, 1 -> Take, 2 -> Return(One), 3 -> Return(Two).
    for i in 0..DEEP_SEA_ACTION_COUNT {
        match i {
            3 => assert_eq!(deep_sea_action_vec[[i]], 1.0),
            _ => assert_eq!(deep_sea_action_vec[[i]], 0.0),
        }
    }
}

#[test]
fn test_state_action_vectorization() {
    let deep_sea_state = DeepSeaState::default();
    let state_action = DeepSeaStateActionPair {
        state: &deep_sea_state,
        action: &DeepSeaAction::DiveDirection(DiveDirection::Down),
    };
    let state_action_size = &[state_action.unpacked_size()];
    let state_action_f32_ndarray = to_f32(&state_action.unpack());
    assert_eq!(state_action_f32_ndarray.shape(), state_action_size);
}

#[test]
fn test_action_one_hot_all() {
    let actions = vec![
        (DeepSeaAction::TreasureDecision(TreasureDecision::Ignore), 0),
        (DeepSeaAction::TreasureDecision(TreasureDecision::Take), 1),
        (
            DeepSeaAction::TreasureDecision(TreasureDecision::Return(Treasure::One)),
            2,
        ),
        (
            DeepSeaAction::TreasureDecision(TreasureDecision::Return(Treasure::Two)),
            3,
        ),
        (
            DeepSeaAction::TreasureDecision(TreasureDecision::Return(Treasure::Three)),
            4,
        ),
        (
            DeepSeaAction::TreasureDecision(TreasureDecision::Return(Treasure::Four)),
            5,
        ),
        (DeepSeaAction::DiveDirection(DiveDirection::Down), 6),
        (DeepSeaAction::DiveDirection(DiveDirection::Up), 7),
    ];
    for (action, hot) in actions {
        let cells = action.unpack();
        assert_eq!(cells.len(), DEEP_SEA_ACTION_COUNT);
        for (i, &c) in cells.iter().enumerate() {
            assert_eq!(c, if i == hot { 1 } else { 0 });
        }
    }
}

#[test]
fn test_default_path_encodes_two_cells_per_tile() {
    let state = DeepSeaState::default();
    assert_eq!(state.path.tiles.len(), 32);
    assert_eq!(state.path.unpacked_size(), 64);
    assert_eq!(state.path.unpack().len(), 64);
}

#[test]
fn test_default_state_width() {
    let state = DeepSeaState::default();
    let expected = 64 + 6 * PLAYER_DIM + 1;
    assert_eq!(state.unpacked_size(), expected);
    assert_eq!(state.unpack().len(), expected);
    // the final cell is the oxygen pool
    assert_eq!(state.unpack()[expected - 1], 25);
}

#[test]
fn test_produced_equals_declared_for_sample_values() {
    let tile = Tile::Treasure(Treasure::Three);
    assert_eq!(tile.unpack().len(), tile.unpacked_size());
    let pos = Position::WaitingToDive;
    assert_eq!(pos.unpack().len(), pos.unpacked_size());
    let player = Player {
        direction: DiveDirection::Up,
        position: Position::Diving(2),
        held_treasures: vec![Treasure::Two; 10],
    };
    assert_eq!(player.unpack().len(), player.unpacked_size());
    let action = DeepSeaAction::TreasureDecision(TreasureDecision::Take);
    assert_eq!(action.unpack().len(), action.unpacked_size());
}

#[test]
fn test_produced_equals_declared_random_values() {
    let mut rng = rand::rng();
    let kinds = [
        Treasure::One,
        Treasure::Two,
        Treasure::Three,
        Treasure::Four,
    ];
    for _ in 0..50 {
        let n: usize = rng.random_range(0..20);
        let tiles: Vec<Tile> = (0..n)
            .map(|_| {
                if rng.random_bool(0.3) {
                    Tile::Empty
                } else {
                    Tile::Treasure(kinds[rng.random_range(0..4)])
                }
            })
            .collect();
        let mut occupied = OccupiedTiles::new();
        for i in 0..n {
            if rng.random_bool(0.3) {
                occupied.insert(i);
            }
        }
        let path = Path { tiles, occupied };
        assert_eq!(path.unpack().len(), path.unpacked_size());

        let players: Vec<Player> = (0..rng.random_range(0..6))
            .map(|_| Player {
                direction: if rng.random_bool(0.5) {
                    DiveDirection::Down
                } else {
                    DiveDirection::Up
                },
                position: match rng.random_range(0..3) {
                    0 => Position::WaitingToDive,
                    1 => Position::Diving(rng.random_range(0..100)),
                    _ => Position::ReturnedToSubmarine,
                },
                held_treasures: (0..rng.random_range(0..=10))
                    .map(|_| kinds[rng.random_range(0..4)])
                    .collect(),
            })
            .collect();
        assert_eq!(players.unpack().len(), players.unpacked_size());

        let state = DeepSeaState {
            path,
            players,
            oxygen: rng.random_range(0..=25),
        };
        assert_eq!(state.unpack().len(), state.unpacked_size());

        let action = if rng.random_bool(0.5) {
            DeepSeaAction::TreasureDecision(match rng.random_range(0..3) {
                0 => TreasureDecision::Ignore,
                1 => TreasureDecision::Take,
                _ => TreasureDecision::Return(kinds[rng.random_range(0..4)]),
            })
        } else {
            DeepSeaAction::DiveDirection(if rng.random_bool(0.5) {
                DiveDirection::Down
            } else {
                DiveDirection::Up
            })
        };
        assert_eq!(action.unpack().len(), action.unpacked_size());

        let pair = DeepSeaStateActionPair {
            state: &state,
            action: &action,
        };
        assert_eq!(pair.unpack().len(), pair.unpacked_size());
    }
}

#[test]
fn test_convert_cells_types() {
    let cells: Vec<u16> = vec![0, 1, 5, 40000];
    let as_i64: Vec<i64> = convert_cells(&cells);
    assert_eq!(as_i64, vec![0i64, 1, 5, 40000]);
    let as_u32: Vec<u32> = convert_cells(&cells);
    assert_eq!(as_u32, vec![0u32, 1, 5, 40000]);
    assert_eq!(<u16 as DataType>::zero(), 0);
    assert_eq!(<i64 as DataType>::one(), 1);
    assert_eq!(<u32 as DataType>::from_bool(true), 1);
}

#[test]
fn test_enum_unpack_values() {
    assert_eq!(treasure_enum_unpack::<u32>(&Treasure::Three), 3);
    assert_eq!(treasure_enum_unpack::<u16>(&Treasure::One), 1);
    assert_eq!(dive_direction_enum_unpack::<u16>(&DiveDirection::Up), 1);
    assert_eq!(
        position_enum_unpack::<i32>(&Position::Diving(7)),
        vec![7, 0, 0]
    );
    assert_eq!(
        position_enum_unpack::<i32>(&Position::WaitingToDive),
        vec![0, 1, 0]
    );
    assert_eq!(
        position_enum_unpack::<i32>(&Position::ReturnedToSubmarine),
        vec![0, 0, 1]
    );
}

#[test]
fn test_raw_state_action_vector() {
    let mut board = DeepSea::new(
        vec![Tile::Treasure(Treasure::One), Tile::Empty, Tile::Empty],
        2,
    );
    board.move_player(DiveDirection::Down, 1).unwrap();
    board.next_player();
    let action = DeepSeaAction::DiveDirection(DiveDirection::Down);
    let v = raw_state_action_vector(&board, &action);
    assert_eq!(v.len(), 2 * 3 + 2 * PLAYER_DIM + 1 + DEEP_SEA_ACTION_COUNT);
    // tile 0 holds the cheapest treasure and is occupied by player 0
    assert_eq!(v[0], 1);
    assert_eq!(v[1], 1);
    // the acting player (player 1) comes first: still waiting to dive
    assert_eq!(v[6], 0);
    assert_eq!(v[6 + 1], 0);
    assert_eq!(v[6 + 2], 1);
    assert_eq!(v[6 + 3], 0);
    // the rotated second player is diving at index 0
    assert_eq!(v[6 + PLAYER_DIM + 2], 0);
    // oxygen cell then the one-hot action
    assert_eq!(v[6 + 2 * PLAYER_DIM], 25);
    assert_eq!(v[6 + 2 * PLAYER_DIM + 1 + 6], 1);
}
