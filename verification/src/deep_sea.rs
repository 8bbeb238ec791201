use vstd::prelude::*;

use itertools::Itertools;

use crate::bitset::{occupied_set, OccupiedTiles};
use crate::error::{DeepSeaError, DeepSeaResult};
use crate::solver::TreasureDecision;
use crate::treasure::Treasure;

verus! {

/// One cell of the path: empty, or holding a single treasure.
#[derive(Clone, Copy, Debug, PartialEq, Eq, Hash, Structural)]
pub enum Tile {
    Empty,
    Treasure(Treasure),
}

/// The direction a diver is moving along the path.
#[derive(Clone, Copy, Debug, PartialEq, Eq, Hash, Structural)]
pub enum DiveDirection {
    Down,
    Up,
}

/// Where a diver currently is: still on the submarine, at a path index,
/// or back on the submarine for good.
#[derive(Clone, Copy, Debug, PartialEq, Eq, Hash, Structural)]
pub enum Position {
    /// Index into the path.
    Diving(usize),
    WaitingToDive,
    ReturnedToSubmarine,
}

/// The successor of a position under one step in `direction`, or `None`
/// when the transition is illegal: surfacing before the first dive, or any
/// move after returning to the submarine.
pub open spec fn spec_advance(p: Position, direction: DiveDirection) -> Option<Position> {
    match (p, direction) {
        (Position::Diving(i), DiveDirection::Up) => if i == 0 {
            Some(Position::ReturnedToSubmarine)
        } else {
            Some(Position::Diving((i - 1) as usize))
        },
        (Position::Diving(i), DiveDirection::Down) => if i < usize::MAX {
            Some(Position::Diving((i + 1) as usize))
        } else {
            None
        },
        (Position::WaitingToDive, DiveDirection::Down) => Some(Position::Diving(0)),
        (Position::WaitingToDive, DiveDirection::Up) => None,
        (Position::ReturnedToSubmarine, _) => None,
    }
}

impl Position {
    /// The path index when diving, `None` otherwise.
    pub fn as_diving(&self) -> (r: Option<usize>)
        ensures
            r == (match *self {
                Position::Diving(i) => Some(i),
                _ => None::<usize>,
            }),
    {
        if let Position::Diving(index) = self {
            Some(*index)
        } else {
            None
        }
    }

    /// One step of the position state machine. Illegal transitions fail
    /// with an internal error.
    pub fn advance(&self, direction: DiveDirection) -> (r: DeepSeaResult<Position>)
        requires
            !(*self matches Position::Diving(i) && direction == DiveDirection::Down && i
                == usize::MAX),
        ensures
            r == (match spec_advance(*self, direction) {
                Some(p) => Ok::<Position, DeepSeaError>(p),
                None => Err::<Position, DeepSeaError>(DeepSeaError::Internal),
            }),
    {
        match (self, direction) {
            (Position::Diving(0), DiveDirection::Up) => Ok(Position::ReturnedToSubmarine),
            (Position::Diving(index), DiveDirection::Up) => Ok(Position::Diving(*index - 1)),
            (Position::Diving(index), DiveDirection::Down) => Ok(Position::Diving(*index + 1)),
            (Position::WaitingToDive, DiveDirection::Down) => Ok(Position::Diving(0)),
            (Position::WaitingToDive, DiveDirection::Up) => Err(DeepSeaError::Internal),
            (Position::ReturnedToSubmarine, _) => Err(DeepSeaError::Internal),
        }
    }
}

/// The spec-level image of a `Player`.
pub struct PlayerView {
    pub direction: DiveDirection,
    pub position: Position,
    pub held_treasures: Seq<Treasure>,
}

/// One diver: the direction it is committed to, its position, and the
/// ordered list of treasures it carries.
#[derive(Clone, Debug)]
pub struct Player {
    direction: DiveDirection,
    position: Position,
    held_treasures: Vec<Treasure>,
}

impl View for Player {
    type V = PlayerView;

    closed spec fn view(&self) -> PlayerView {
        PlayerView {
            direction: self.direction,
            position: self.position,
            held_treasures: self.held_treasures@,
        }
    }
}

impl Player {
    fn new() -> (r: Self)
        ensures
            r@.direction == DiveDirection::Down,
            r@.position == Position::WaitingToDive,
            r@.held_treasures == Seq::<Treasure>::empty(),
    {
        Self {
            direction: DiveDirection::Down,
            position: Position::WaitingToDive,
            held_treasures: Vec::new(),
        }
    }

    pub fn direction(&self) -> (r: DiveDirection)
        ensures
            r == self@.direction,
    {
        self.direction
    }

    pub fn position(&self) -> (r: Position)
        ensures
            r == self@.position,
    {
        self.position
    }

    pub fn held_treasures(&self) -> (r: &[Treasure])
        ensures
            r@ == self@.held_treasures,
    {
        self.held_treasures.as_slice()
    }
}

/// Whether `p`, when diving, stands on a tile of `occ`.
pub open spec fn spec_occupied(occ: Set<usize>, p: Position) -> bool {
    match p {
        Position::Diving(i) => occ.contains(i),
        Position::WaitingToDive | Position::ReturnedToSubmarine => false,
    }
}

/// Whether every player has returned to the submarine.
pub open spec fn all_returned(players: Seq<PlayerView>) -> bool {
    forall|i: int|
        0 <= i < players.len() ==> (#[trigger] players[i]).position
            == Position::ReturnedToSubmarine
}

/// The path index of a diving position; unspecified input positions map
/// to index 0.
pub open spec fn spec_diving_index(p: Position) -> usize {
    match p {
        Position::Diving(i) => i,
        _ => 0,
    }
}

/// Whether two treasures are of the same kind.
fn treasure_eq(a: Treasure, b: Treasure) -> (r: bool)
    ensures
        r == (a == b),
{
    a == b
}

/// Relies on itertools' find_position: it returns the position and value
/// of the first element satisfying the predicate, here equality with `t`,
/// scanning front to back.
#[verifier::external_body]
fn find_treasure_position(held: &Vec<Treasure>, t: Treasure) -> (r: Option<usize>)
    ensures
        match r {
            Some(i) => i < held@.len() && held@[i as int] == t && (forall|j: int|
                0 <= j < i ==> held@[j] != t),
            None => forall|j: int| 0 <= j < held@.len() ==> held@[j] != t,
        },
{
    held.iter().find_position(|x| treasure_eq(**x, t)).map(|(i, _)| i)
}

/// Whether `p`, when diving, stands on an index of a path of length
/// `len`. Non-diving positions are always in range.
pub open spec fn pos_in_range(len: nat, p: Position) -> bool {
    match p {
        Position::Diving(i) => i < len,
        Position::WaitingToDive | Position::ReturnedToSubmarine => true,
    }
}

/// Termination measure for a movement scan: the number of one-tile steps
/// left before the scan must hit a boundary of the path.
pub open spec fn move_measure(len: nat, cur: Position, dir: DiveDirection) -> int {
    match cur {
        Position::Diving(i) => if dir == DiveDirection::Down {
            len - 1 - i
        } else {
            i + 1
        },
        Position::WaitingToDive => if dir == DiveDirection::Down {
            len as int
        } else {
            0
        },
        Position::ReturnedToSubmarine => 0,
    }
}

/// The landing position of a movement scan, or `None` when the scan would
/// attempt an illegal transition.
///
/// Starting from candidate position `cur` with last landed position
/// `landed` and `budget` steps left, the scan repeatedly advances one
/// step in `dir`. A step onto a free tile consumes one unit of budget and
/// becomes the new landed position; an occupied tile is passed through
/// for free. The scan stops when the budget is exhausted, the diver has
/// returned to the submarine, or — moving down — the candidate reaches
/// the last path index, beyond which there is nowhere to go.
pub open spec fn move_steps(
    len: nat,
    occ: Set<usize>,
    dir: DiveDirection,
    cur: Position,
    landed: Position,
    budget: nat,
) -> Option<Position>
    decreases move_measure(len, cur, dir),
{
    if !(budget > 0 && cur != Position::ReturnedToSubmarine) {
        Some(landed)
    } else if len == 0 || !pos_in_range(len, cur) {
        None
    } else if dir == DiveDirection::Down && cur == Position::Diving((len - 1) as usize) {
        Some(landed)
    } else {
        match spec_advance(cur, dir) {
            None => None,
            Some(c) => if spec_occupied(occ, c) {
                move_steps(len, occ, dir, c, landed, budget)
            } else {
                move_steps(len, occ, dir, c, c, (budget - 1) as nat)
            },
        }
    }
}

/// Any landing position a movement scan returns is either the landed
/// position the scan started from, or an in-range position on a free
/// tile.
pub proof fn lemma_move_steps_props(
    len: nat,
    occ: Set<usize>,
    dir: DiveDirection,
    cur: Position,
    landed: Position,
    budget: nat,
)
    ensures
        match move_steps(len, occ, dir, cur, landed, budget) {
            Some(p) => p == landed || (pos_in_range(len, p) && !spec_occupied(occ, p)),
            None => true,
        },
    decreases move_measure(len, cur, dir),
{
    if !(budget > 0 && cur != Position::ReturnedToSubmarine) {
    } else if len == 0 || !pos_in_range(len, cur) {
    } else if dir == DiveDirection::Down && cur == Position::Diving((len - 1) as usize) {
    } else {
        match spec_advance(cur, dir) {
            None => {},
            Some(c) => if spec_occupied(occ, c) {
                lemma_move_steps_props(len, occ, dir, c, landed, budget);
            } else {
                lemma_move_steps_props(len, occ, dir, c, c, (budget - 1) as nat);
            },
        }
    }
}

/// A board transformation that moves nobody and leaves the occupied set
/// alone preserves well-formedness.
proof fn lemma_wf_same_positions(v: DeepSeaView, nv: DeepSeaView)
    requires
        v.wf(),
        nv.path.len() == v.path.len(),
        nv.players.len() == v.players.len(),
        forall|i: int|
            0 <= i < v.players.len() ==> (#[trigger] nv.players[i]).position
                == v.players[i].position,
        nv.player_idx == v.player_idx,
        nv.occupied_tiles == v.occupied_tiles,
    ensures
        nv.wf(),
{
    assert forall|t: usize| nv.occupied_tiles.contains(t) implies exists|i: int|
        0 <= i < nv.players.len() && (#[trigger] nv.players[i]).position == Position::Diving(
            t,
        ) by {
        let w = choose|i: int|
            0 <= i < v.players.len() && (#[trigger] v.players[i]).position == Position::Diving(t);
        assert(nv.players[w].position == Position::Diving(t));
    }
    assert forall|t: usize|
        (exists|i: int|
            0 <= i < nv.players.len() && (#[trigger] nv.players[i]).position == Position::Diving(
                t,
            )) implies nv.occupied_tiles.contains(t) by {
        let w = choose|i: int|
            0 <= i < nv.players.len() && (#[trigger] nv.players[i]).position == Position::Diving(
                t,
            );
        assert(v.players[w].position == Position::Diving(t));
    }
}

/// Committing a movement result preserves well-formedness: the landing
/// position is either the mover's own starting tile or a free in-range
/// tile, so vacating the old tile and occupying the new one keeps the
/// occupied set exactly the set of tiles players dive on.
proof fn lemma_wf_after_move(v: DeepSeaView, direction: DiveDirection, np: Position,
    nv: DeepSeaView)
    requires
        v.wf(),
        v.players.len() > 0,
        np == v.players[v.player_idx].position || (pos_in_range(v.path.len(), np)
            && !spec_occupied(v.occupied_tiles, np)),
        nv == (DeepSeaView {
            players: v.players.update(
                v.player_idx,
                PlayerView { direction, position: np, ..v.players[v.player_idx] },
            ),
            occupied_tiles: ({
                let occ1 = match v.players[v.player_idx].position {
                    Position::Diving(i) => v.occupied_tiles.remove(i),
                    _ => v.occupied_tiles,
                };
                match np {
                    Position::Diving(j) => occ1.insert(j),
                    _ => occ1,
                }
            }),
            ..v
        }),
    ensures
        nv.wf(),
{
    let idx = v.player_idx;
    let sp = v.players[idx].position;
    let occ1 = match sp {
        Position::Diving(i) => v.occupied_tiles.remove(i),
        _ => v.occupied_tiles,
    };

    assert forall|i: int| 0 <= i < nv.players.len() implies match (
    #[trigger] nv.players[i]).position {
        Position::Diving(d) => d < nv.path.len(),
        _ => true,
    } by {
        if i != idx {
            assert(nv.players[i] == v.players[i]);
        }
    }

    assert forall|i: int, j: int|
        0 <= i < nv.players.len() && 0 <= j < nv.players.len() && i != j implies match (
    (#[trigger] nv.players[i]).position,
    (#[trigger] nv.players[j]).position,
    ) {
        (Position::Diving(a), Position::Diving(b)) => a != b,
        _ => true,
    } by {
        if i != idx && j != idx {
            assert(nv.players[i] == v.players[i]);
            assert(nv.players[j] == v.players[j]);
        } else {
            let o = if i == idx {
                j
            } else {
                i
            };
            assert(nv.players[o] == v.players[o]);
            assert(nv.players[idx].position == np);
            match (np, v.players[o].position) {
                (Position::Diving(a), Position::Diving(b)) => {
                    if np == sp {
                        // old pairwise uniqueness between idx and o
                        assert(match (v.players[idx].position, v.players[o].position) {
                            (Position::Diving(x), Position::Diving(y)) => x != y,
                            _ => true,
                        });
                    } else {
                        // the other diver's tile is occupied, the landing tile is not
                        assert(0 <= o < v.players.len() && v.players[o].position
                            == Position::Diving(b));
                        assert(v.occupied_tiles.contains(b));
                        assert(!v.occupied_tiles.contains(a));
                    }
                },
                _ => {},
            }
        }
    }

    assert forall|t: usize| nv.occupied_tiles.contains(t) implies exists|i: int|
        0 <= i < nv.players.len() && (#[trigger] nv.players[i]).position == Position::Diving(
            t,
        ) by {
        if np == Position::Diving(t) {
            assert(nv.players[idx].position == Position::Diving(t));
        } else {
            // t survived the removal, so its diver is someone else
            assert(occ1.contains(t));
            assert(v.occupied_tiles.contains(t));
            let w = choose|i: int|
                0 <= i < v.players.len() && (#[trigger] v.players[i]).position
                    == Position::Diving(t);
            assert(sp matches Position::Diving(si) ==> t != si);
            assert(w != idx);
            assert(nv.players[w] == v.players[w]);
            assert(nv.players[w].position == Position::Diving(t));
        }
    }

    assert forall|t: usize|
        (exists|i: int|
            0 <= i < nv.players.len() && (#[trigger] nv.players[i]).position == Position::Diving(
                t,
            )) implies nv.occupied_tiles.contains(t) by {
        let w = choose|i: int|
            0 <= i < nv.players.len() && (#[trigger] nv.players[i]).position == Position::Diving(
                t,
            );
        if w == idx {
            assert(np == Position::Diving(t));
            assert(nv.occupied_tiles.contains(t));
        } else {
            assert(nv.players[w] == v.players[w]);
            assert(v.players[w].position == Position::Diving(t));
            assert(v.occupied_tiles.contains(t));
            if let Position::Diving(si) = sp {
                // old uniqueness between w and the mover
                assert(match (v.players[w].position, v.players[idx].position) {
                    (Position::Diving(x), Position::Diving(y)) => x != y,
                    _ => true,
                });
                assert(t != si);
            }
            assert(occ1.contains(t));
            assert(nv.occupied_tiles.contains(t));
        }
    }

    assert forall|t: usize| nv.occupied_tiles.contains(t) <==> exists|i: int|
        0 <= i < nv.players.len() && (#[trigger] nv.players[i]).position == Position::Diving(t) by {
    }
}

/// The spec-level image of a `DeepSea` board.
pub struct DeepSeaView {
    pub path: Seq<Tile>,
    pub players: Seq<PlayerView>,
    pub player_idx: int,
    pub oxygen: u32,
    pub occupied_tiles: Set<usize>,
}

impl DeepSeaView {
    /// Well-formedness of a board: the turn index is in range, every
    /// diving player stands on a path index, no two players share a tile,
    /// and the occupied set is exactly the set of tiles players dive on.
    pub open spec fn wf(self) -> bool {
        &&& self.players.len() > 0 ==> 0 <= self.player_idx < self.players.len()
        &&& self.players.len() == 0 ==> self.player_idx == 0
        &&& forall|i: int|
            0 <= i < self.players.len() ==> match (#[trigger] self.players[i]).position {
                Position::Diving(d) => d < self.path.len(),
                _ => true,
            }
        &&& forall|i: int, j: int|
            0 <= i < self.players.len() && 0 <= j < self.players.len() && i != j ==> match (
            (#[trigger] self.players[i]).position,
            (#[trigger] self.players[j]).position,
            ) {
                (Position::Diving(a), Position::Diving(b)) => a != b,
                _ => true,
            }
        &&& forall|t: usize|
            self.occupied_tiles.contains(t) <==> exists|i: int|
                0 <= i < self.players.len() && (#[trigger] self.players[i]).position
                    == Position::Diving(t)
    }

    /// The game is over once the oxygen pool is empty or every player has
    /// returned to the submarine.
    pub open spec fn spec_done(self) -> bool {
        self.oxygen == 0 || all_returned(self.players)
    }
}

/// `Take` on a tile holding treasure `t` moves `t` into the acting
/// player's held list and empties the tile. The board stays well formed
/// and the player still stands on the same, now-empty tile, so the
/// contract of `take_treasure` maps a second `Take` there to an agent
/// error.
pub proof fn lemma_take_then_take_fails(v: DeepSeaView, t: Treasure)
    requires
        v.wf(),
        v.players.len() > 0,
        v.players[v.player_idx].position matches Position::Diving(_),
        v.path[spec_diving_index(v.players[v.player_idx].position) as int] == Tile::Treasure(t),
    ensures
        ({
            let idx = v.player_idx;
            let p = v.players[idx];
            let ti = spec_diving_index(p.position) as int;
            // the board right after `Take`
            let v1 = DeepSeaView {
                path: v.path.update(ti, Tile::Empty),
                players: v.players.update(
                    idx,
                    PlayerView { held_treasures: p.held_treasures.push(t), ..p },
                ),
                ..v
            };
            &&& v1.players[idx].held_treasures == p.held_treasures.push(t)
            &&& v1.path[ti] == Tile::Empty
            &&& v1.wf()
            &&& v1.player_idx == idx
            &&& v1.players[idx].position == p.position
        }),
{
    let idx = v.player_idx;
    let p = v.players[idx];
    let ti = spec_diving_index(p.position) as int;
    let v1 = DeepSeaView {
        path: v.path.update(ti, Tile::Empty),
        players: v.players.update(
            idx,
            PlayerView { held_treasures: p.held_treasures.push(t), ..p },
        ),
        ..v
    };
    assert(forall|i: int|
        0 <= i < v.players.len() ==> (#[trigger] v1.players[i]).position == v.players[i].position);
    lemma_wf_same_positions(v, v1);
}

/// `Return(t)` exactly undoes `Take(t)`: after taking treasure `t` from
/// the tile the acting player stands on, returning a treasure of kind
/// `t` is accepted, removes the instance that was just taken, and
/// restores both the tile and the held list to their pre-take values.
///
/// This holds whenever the player did not already hold a treasure of
/// kind `t`; otherwise the return puts back the earlier-held instance
/// and the held list may come back in a different order.
pub proof fn lemma_return_undoes_take(v: DeepSeaView, t: Treasure)
    requires
        v.wf(),
        v.players.len() > 0,
        v.players[v.player_idx].position matches Position::Diving(_),
        v.path[spec_diving_index(v.players[v.player_idx].position) as int] == Tile::Treasure(t),
        !v.players[v.player_idx].held_treasures.contains(t),
    ensures
        ({
            let idx = v.player_idx;
            let p = v.players[idx];
            let ti = spec_diving_index(p.position) as int;
            // the board right after `Take`
            let v1 = DeepSeaView {
                path: v.path.update(ti, Tile::Empty),
                players: v.players.update(
                    idx,
                    PlayerView { held_treasures: p.held_treasures.push(t), ..p },
                ),
                ..v
            };
            let p1 = v1.players[idx];
            // `Return(t)` is accepted afterwards ...
            &&& v1.path[ti] == Tile::Empty
            &&& p1.held_treasures.contains(t)
            // ... and whichever index the first held instance of `t` has,
            // removing it and refilling the tile restores the board
            &&& forall|i: int|
                0 <= i < p1.held_treasures.len() && #[trigger] p1.held_treasures[i] == t && (
                forall|j: int| 0 <= j < i ==> p1.held_treasures[j] != t) ==> (DeepSeaView {
                    path: v1.path.update(ti, Tile::Treasure(t)),
                    players: v1.players.update(
                        idx,
                        PlayerView { held_treasures: p1.held_treasures.remove(i), ..p1 },
                    ),
                    ..v1
                }) == v
        }),
{
    let idx = v.player_idx;
    let p = v.players[idx];
    let ti = spec_diving_index(p.position) as int;
    let held = p.held_treasures;
    let v1 = DeepSeaView {
        path: v.path.update(ti, Tile::Empty),
        players: v.players.update(idx, PlayerView { held_treasures: held.push(t), ..p }),
        ..v
    };
    let p1 = v1.players[idx];
    assert(p1.held_treasures == held.push(t));
    assert(p1.held_treasures[held.len() as int] == t);
    assert(p1.held_treasures.contains(t));
    assert forall|i: int|
        0 <= i < p1.held_treasures.len() && #[trigger] p1.held_treasures[i] == t && (forall|
        j: int|
            0 <= j < i ==> p1.held_treasures[j] != t) implies (DeepSeaView {
            path: v1.path.update(ti, Tile::Treasure(t)),
            players: v1.players.update(
                idx,
                PlayerView { held_treasures: p1.held_treasures.remove(i), ..p1 },
            ),
            ..v1
        }) == v by {
        // the first instance of `t` must be the one that was pushed
        if i < held.len() {
            assert(held[i] == t);
            assert(held.contains(t));
            assert(false);
        }
        assert(i == held.len());
        assert(p1.held_treasures.remove(i) =~= held);
        assert(v1.path.update(ti, Tile::Treasure(t)) =~= v.path);
        assert(PlayerView { held_treasures: p1.held_treasures.remove(i), ..p1 } == p);
        assert(v1.players.update(
            idx,
            PlayerView { held_treasures: p1.held_treasures.remove(i), ..p1 },
        ) =~= v.players);
    }
}

/// The aggregate game board: the path of tiles, the players, whose turn
/// it is, the shared oxygen pool, and the set of occupied path indices.
pub struct DeepSea {
    path: Vec<Tile>,
    players: Vec<Player>,
    player_idx: usize,
    oxygen: u32,
    occupied_tiles: OccupiedTiles,
}

impl View for DeepSea {
    type V = DeepSeaView;

    closed spec fn view(&self) -> DeepSeaView {
        DeepSeaView {
            path: self.path@,
            players: self.players@.map_values(|p: Player| p@),
            player_idx: self.player_idx as int,
            oxygen: self.oxygen,
            occupied_tiles: occupied_set(self.occupied_tiles),
        }
    }
}

impl DeepSea {
    /// Initial value of the shared oxygen pool.
    pub const OXYGEN: u32 = 25;

    /// A fresh board: the given path, `num_players` players waiting to
    /// dive, the turn at player 0, a full oxygen pool, and no tile
    /// occupied.
    pub fn new(path: Vec<Tile>, num_players: usize) -> (r: Self)
        ensures
            r@.path == path@,
            r@.players.len() == num_players,
            forall|i: int|
                0 <= i < num_players ==> (#[trigger] r@.players[i]) == (PlayerView {
                    direction: DiveDirection::Down,
                    position: Position::WaitingToDive,
                    held_treasures: Seq::<Treasure>::empty(),
                }),
            r@.player_idx == 0,
            r@.oxygen == Self::OXYGEN,
            r@.occupied_tiles == Set::<usize>::empty(),
            r@.wf(),
    {
        let path_len = path.len();
        let mut players: Vec<Player> = Vec::new();
        let mut i: usize = 0;
        while i < num_players
            invariant
                i <= num_players,
                players@.len() == i,
                forall|j: int|
                    0 <= j < i ==> (#[trigger] players@[j])@ == (PlayerView {
                        direction: DiveDirection::Down,
                        position: Position::WaitingToDive,
                        held_treasures: Seq::<Treasure>::empty(),
                    }),
            decreases num_players - i,
        {
            players.push(Player::new());
            i += 1;
        }
        let r = Self {
            path,
            players,
            player_idx: 0,
            oxygen: Self::OXYGEN,
            occupied_tiles: OccupiedTiles::with_capacity(path_len),
        };
        proof {
            assert(r@.players =~= players@.map_values(|p: Player| p@));
        }
        r
    }

    pub fn path(&self) -> (r: &[Tile])
        ensures
            r@ == self@.path,
    {
        self.path.as_slice()
    }

    pub fn players(&self) -> (r: &[Player])
        ensures
            r@.map_values(|p: Player| p@) == self@.players,
    {
        self.players.as_slice()
    }

    pub fn player_idx(&self) -> (r: usize)
        ensures
            r == self@.player_idx,
    {
        self.player_idx
    }

    pub fn oxygen(&self) -> (r: u32)
        ensures
            r == self@.oxygen,
    {
        self.oxygen
    }

    pub fn occupied_tiles(&self) -> (r: &OccupiedTiles)
        ensures
            occupied_set(*r) == self@.occupied_tiles,
    {
        &self.occupied_tiles
    }

    /// Whether `position`, when diving, stands on an occupied tile.
    fn occupied(&self, position: Position) -> (r: bool)
        ensures
            r == spec_occupied(self@.occupied_tiles, position),
    {
        match position {
            Position::Diving(index) => self.occupied_tiles.contains(index),
            Position::ReturnedToSubmarine | Position::WaitingToDive => false,
        }
    }

    /// The game is over once the oxygen pool is empty or every player has
    /// returned to the submarine.
    pub fn done(&self) -> (r: bool)
        ensures
            r == self@.spec_done(),
    {
        if self.oxygen == 0 {
            return true;
        }
        let mut i: usize = 0;
        while i < self.players.len()
            invariant
                i <= self.players@.len(),
                self@.oxygen != 0,
                forall|j: int|
                    0 <= j < i ==> (#[trigger] self.players@[j])@.position
                        == Position::ReturnedToSubmarine,
            decreases self.players@.len() - i,
        {
            proof {
                assert(self@.players[i as int] == self.players@[i as int]@);
            }
            if !matches!(self.players[i].position(), Position::ReturnedToSubmarine) {
                assert(self@.players[i as int].position != Position::ReturnedToSubmarine);
                assert(!all_returned(self@.players));
                return false;
            }
            i += 1;
        }
        assert(all_returned(self@.players));
        true
    }

    /// Before moving, the acting player burns oxygen equal to the number
    /// of treasures it carries, floored at zero.
    pub fn take_oxygen(&mut self)
        requires
            old(self)@.wf(),
            old(self)@.players.len() > 0,
            old(self)@.players[old(self)@.player_idx].held_treasures.len() <= u32::MAX,
        ensures
            final(self)@ == (DeepSeaView { oxygen: final(self)@.oxygen, ..old(self)@ }),
            final(self)@.oxygen == ({
                let held = old(self)@.players[old(self)@.player_idx].held_treasures.len() as u32;
                if old(self)@.oxygen >= held {
                    (old(self)@.oxygen - held) as u32
                } else {
                    0u32
                }
            }),
            final(self)@.oxygen <= old(self)@.oxygen,
            final(self)@.wf(),
    {
        let held = self.players[self.player_idx].held_treasures().len() as u32;
        self.oxygen = if self.oxygen >= held {
            self.oxygen - held
        } else {
            0
        };
    }

    /// Whether `position` is the last index of the path.
    fn at_end(&self, position: Position) -> (r: bool)
        requires
            self@.path.len() > 0,
        ensures
            r == (position == Position::Diving((self@.path.len() - 1) as usize)),
    {
        position == Position::Diving(self.path.len() - 1)
    }

    /// Vacate the tile `position` stands on, if any.
    fn leave_tile(&mut self, position: Position)
        ensures
            final(self)@ == (DeepSeaView {
                occupied_tiles: match position {
                    Position::Diving(i) => old(self)@.occupied_tiles.remove(i),
                    _ => old(self)@.occupied_tiles,
                },
                ..old(self)@
            }),
    {
        match position {
            Position::Diving(index) => {
                self.occupied_tiles.remove(index);
            },
            Position::WaitingToDive | Position::ReturnedToSubmarine => {
                proof {
                    assert(self@ =~= old(self)@);
                }
            },
        }
    }

    /// Mark the tile `position` stands on occupied, if any.
    fn enter_tile(&mut self, position: Position)
        ensures
            final(self)@ == (DeepSeaView {
                occupied_tiles: match position {
                    Position::Diving(i) => old(self)@.occupied_tiles.insert(i),
                    _ => old(self)@.occupied_tiles,
                },
                ..old(self)@
            }),
    {
        match position {
            Position::Diving(index) => {
                self.occupied_tiles.insert(index);
            },
            Position::WaitingToDive | Position::ReturnedToSubmarine => {
                proof {
                    assert(self@ =~= old(self)@);
                }
            },
        }
    }

    /// Move the acting player in `direction` with the given raw dice
    /// total. Carrying treasures reduces the effective step budget one
    /// for one; occupied tiles are passed through without consuming
    /// budget; a downward scan stops at the last path index. On success
    /// the player's direction and landing position are committed and the
    /// occupied set is updated; an illegal transition fails with an
    /// internal error and leaves the board unchanged.
    #[verifier::loop_isolation(false)]
    pub fn move_player(&mut self, direction: DiveDirection, dice_roll: u32) -> (r: DeepSeaResult)
        requires
            old(self)@.wf(),
            old(self)@.players.len() > 0,
            old(self)@.players[old(self)@.player_idx].held_treasures.len() <= u32::MAX,
            direction == DiveDirection::Down ==> old(self)@.path.len() > 0 || dice_roll <= old(
                self,
            )@.players[old(self)@.player_idx].held_treasures.len() || old(self)@.players[old(
                self,
            )@.player_idx].position == Position::ReturnedToSubmarine,
        ensures
            ({
                let v = old(self)@;
                let p = v.players[v.player_idx];
                let held = p.held_treasures.len() as u32;
                let budget = if dice_roll >= held {
                    (dice_roll - held) as u32
                } else {
                    0u32
                };
                match move_steps(
                    v.path.len(),
                    v.occupied_tiles,
                    direction,
                    p.position,
                    p.position,
                    budget as nat,
                ) {
                    None => r == Err::<(), DeepSeaError>(DeepSeaError::Internal) && final(self)@
                        == v,
                    Some(np) => r == Ok::<(), DeepSeaError>(()) && final(self)@ == (DeepSeaView {
                        players: v.players.update(
                            v.player_idx,
                            PlayerView { direction, position: np, ..p },
                        ),
                        occupied_tiles: ({
                            let occ1 = match p.position {
                                Position::Diving(i) => v.occupied_tiles.remove(i),
                                _ => v.occupied_tiles,
                            };
                            match np {
                                Position::Diving(j) => occ1.insert(j),
                                _ => occ1,
                            }
                        }),
                        ..v
                    }),
                }
            }),
            final(self)@.wf(),
    {
        let ghost v = self@;
        let idx = self.player_idx;
        let held_count = self.players[idx].held_treasures().len() as u32;
        let start = self.players[idx].position();
        let ghost plen = v.path.len();
        let ghost occ = v.occupied_tiles;
        let ghost budget0 = if dice_roll >= held_count {
            (dice_roll - held_count) as u32
        } else {
            0u32
        };

        let mut dice: u32 = if dice_roll >= held_count {
            dice_roll - held_count
        } else {
            0
        };
        let mut cur = start;
        let mut landed = start;

        proof {
            assert(pos_in_range(plen, start));
        }

        while dice > 0 && cur != Position::ReturnedToSubmarine && !(direction
            == DiveDirection::Down && self.at_end(cur))
            invariant
                self == old(self),
                pos_in_range(plen, cur),
                pos_in_range(plen, landed),
                direction == DiveDirection::Down ==> plen > 0 || dice == 0 || cur
                    == Position::ReturnedToSubmarine,
                move_steps(plen, occ, direction, cur, landed, dice as nat) == move_steps(
                    plen,
                    occ,
                    direction,
                    start,
                    start,
                    budget0 as nat,
                ),
            decreases move_measure(plen, cur, direction),
        {
            proof {
                assert(self.path.len() <= usize::MAX);
                assert(plen <= usize::MAX);
            }
            let stepped = match cur.advance(direction) {
                Ok(p) => p,
                Err(e) => {
                    proof {
                        assert(move_steps(plen, occ, direction, cur, landed, dice as nat)
                            is None);
                    }
                    return Err(e);
                },
            };
            if !self.occupied(stepped) {
                dice = dice - 1;
                landed = stepped;
            }
            cur = stepped;
        }

        proof {
            assert(move_steps(plen, occ, direction, cur, landed, dice as nat) == Some(landed));
            lemma_move_steps_props(plen, occ, direction, start, start, budget0 as nat);
        }

        let prev = self.players[idx].position();
        self.leave_tile(prev);
        self.enter_tile(landed);
        let p = &mut self.players[idx];
        p.direction = direction;
        p.position = landed;

        proof {
            let nv = self@;
            let np = landed;
            assert(nv.players =~= v.players.update(
                idx as int,
                PlayerView { direction, position: np, ..v.players[idx as int] },
            ));
            lemma_wf_after_move(v, direction, np, nv);
        }
        Ok(())
    }

    /// Carry out the acting player's treasure decision on the tile it
    /// stands on. `Take` moves the tile's treasure into the player's held
    /// list and empties the tile; `Return(t)` puts the first held
    /// treasure of kind `t` back onto the empty tile; `Ignore` does
    /// nothing. A semantically invalid request fails with an agent error
    /// and leaves the board unchanged.
    pub fn take_treasure(&mut self, treasure: TreasureDecision) -> (r: DeepSeaResult)
        requires
            old(self)@.wf(),
            old(self)@.players.len() > 0,
            old(self)@.players[old(self)@.player_idx].position matches Position::Diving(_),
        ensures
            ({
                let v = old(self)@;
                let idx = v.player_idx;
                let p = v.players[idx];
                let ti = spec_diving_index(p.position) as int;
                match treasure {
                    TreasureDecision::Ignore => r == Ok::<(), DeepSeaError>(()) && final(self)@
                        == v,
                    TreasureDecision::Take => match v.path[ti] {
                        Tile::Treasure(t) => r == Ok::<(), DeepSeaError>(()) && final(self)@ == (
                        DeepSeaView {
                            path: v.path.update(ti, Tile::Empty),
                            players: v.players.update(
                                idx,
                                PlayerView { held_treasures: p.held_treasures.push(t), ..p },
                            ),
                            ..v
                        }),
                        Tile::Empty => r == Err::<(), DeepSeaError>(DeepSeaError::AgentError)
                            && final(self)@ == v,
                    },
                    TreasureDecision::Return(t) => if v.path[ti] != Tile::Empty {
                        r == Err::<(), DeepSeaError>(DeepSeaError::AgentError) && final(self)@ == v
                    } else if p.held_treasures.contains(t) {
                        r == Ok::<(), DeepSeaError>(()) && exists|i: int|
                            0 <= i < p.held_treasures.len() && #[trigger] p.held_treasures[i] == t
                                && (forall|j: int| 0 <= j < i ==> p.held_treasures[j] != t)
                                && final(self)@ == (DeepSeaView {
                                path: v.path.update(ti, Tile::Treasure(t)),
                                players: v.players.update(
                                    idx,
                                    PlayerView {
                                        held_treasures: p.held_treasures.remove(i),
                                        ..p
                                    },
                                ),
                                ..v
                            })
                    } else {
                        r == Err::<(), DeepSeaError>(DeepSeaError::AgentError) && final(self)@ == v
                    },
                }
            }),
            final(self)@.wf(),
    {
        let ghost v = self@;
        let idx = self.player_idx;
        let tile_idx = self.players[idx].position().as_diving().unwrap();
        proof {
            assert(tile_idx < v.path.len());
        }
        match treasure {
            TreasureDecision::Take => {
                if let Tile::Treasure(t) = self.path[tile_idx] {
                    let p = &mut self.players[idx];
                    p.held_treasures.push(t);
                    self.path[tile_idx] = Tile::Empty;
                    proof {
                        assert(self@.players =~= v.players.update(
                            idx as int,
                            PlayerView {
                                held_treasures: v.players[idx as int].held_treasures.push(t),
                                ..v.players[idx as int]
                            },
                        ));
                        lemma_wf_same_positions(v, self@);
                    }
                    Ok(())
                } else {
                    Err(DeepSeaError::AgentError)
                }
            },
            TreasureDecision::Return(t) => {
                if self.path[tile_idx] != Tile::Empty {
                    Err(DeepSeaError::AgentError)
                } else {
                    match find_treasure_position(&self.players[idx].held_treasures, t) {
                        Some(treasure_idx) => {
                            let p = &mut self.players[idx];
                            p.held_treasures.remove(treasure_idx);
                            self.path[tile_idx] = Tile::Treasure(t);
                            proof {
                                let held = v.players[idx as int].held_treasures;
                                assert(held.contains(t)) by {
                                    assert(held[treasure_idx as int] == t);
                                }
                                assert(self@.players =~= v.players.update(
                                    idx as int,
                                    PlayerView {
                                        held_treasures: held.remove(treasure_idx as int),
                                        ..v.players[idx as int]
                                    },
                                ));
                                lemma_wf_same_positions(v, self@);
                            }
                            Ok(())
                        },
                        None => {
                            proof {
                                assert(!v.players[idx as int].held_treasures.contains(t));
                            }
                            Err(DeepSeaError::AgentError)
                        },
                    }
                }
            },
            TreasureDecision::Ignore => Ok(()),
        }
    }

    /// Rotate the turn to the next player.
    pub fn next_player(&mut self)
        requires
            old(self)@.wf(),
            old(self)@.players.len() > 0,
        ensures
            final(self)@ == (DeepSeaView {
                player_idx: (old(self)@.player_idx + 1) % (old(self)@.players.len() as int),
                ..old(self)@
            }),
            final(self)@.wf(),
    {
        let n = self.players.len();
        proof {
            assert(old(self)@.player_idx < old(self)@.players.len());
        }
        self.player_idx = (self.player_idx + 1) % n;
    }
}

} // verus!
