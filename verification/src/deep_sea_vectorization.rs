use vstd::prelude::*;

use crate::bitset::{occupied_set, OccupiedTiles};
use crate::deep_sea::{self, DiveDirection, PlayerView, Position, Tile};
use crate::solver::TreasureDecision;
use crate::treasure::{Treasure, MAX_NUM_TREASURES, TREASURE_COUNT};
use crate::vectorization::{
    lemma_seq_cells_unit, lemma_seq_width_uniform, seq_cells, DataType, Unpackable,
};

verus! {

/// Number of treasure-decision variants: ignore, take, and one return
/// variant per treasure kind.
pub const TREASURE_DECISION_COUNT: usize = 2 + TREASURE_COUNT;

/// Number of cells a position encodes to.
pub const POSITION_COUNT: usize = 3;

/// Number of dive-direction variants.
pub const DIVE_DIRECTION_COUNT: usize = 2;

/// Width of the action one-hot encoding: one slot per treasure decision
/// followed by one per dive direction.
pub const DEEP_SEA_ACTION_COUNT: usize = TREASURE_DECISION_COUNT + DIVE_DIRECTION_COUNT;

/// Fixed width of a player encoding: direction, position, and the held
/// list zero-padded to its maximum capacity.
pub const PLAYER_DIM: usize = 1 + POSITION_COUNT + MAX_NUM_TREASURES;

/// The cell of a treasure kind: its ordinal plus one, reserving zero for
/// "none".
pub open spec fn treasure_cell(t: Treasure) -> u16 {
    (t.ord() + 1) as u16
}

/// The cell of a dive direction: its raw ordinal.
pub open spec fn direction_cell(d: DiveDirection) -> u16 {
    match d {
        DiveDirection::Down => 0,
        DiveDirection::Up => 1,
    }
}

/// The cell of a tile: zero when empty, else the treasure cell.
pub open spec fn tile_cell(t: Tile) -> u16 {
    match t {
        Tile::Empty => 0,
        Tile::Treasure(tr) => treasure_cell(tr),
    }
}

/// The three cells of a position: depth (or zero), a waiting flag, and a
/// returned flag.
pub open spec fn position_cells(p: Position) -> Seq<u16> {
    seq![
        match p {
            Position::Diving(depth) => depth as u16,
            _ => 0,
        },
        if p == Position::WaitingToDive {
            1u16
        } else {
            0u16
        },
        if p == Position::ReturnedToSubmarine {
            1u16
        } else {
            0u16
        },
    ]
}

impl Unpackable for Treasure {
    open spec fn cells(&self) -> Seq<u16> {
        seq![treasure_cell(*self)]
    }

    open spec fn width(&self) -> nat {
        1
    }

    open spec fn encodable(&self) -> bool {
        true
    }

    proof fn lemma_cells_match_width(&self) {
    }

    fn unpack(&self) -> (v: Vec<u16>) {
        let c: u16 = match self {
            Treasure::One => 1,
            Treasure::Two => 2,
            Treasure::Three => 3,
            Treasure::Four => 4,
        };
        let mut v: Vec<u16> = Vec::new();
        v.push(c);
        proof {
            assert(v@ =~= self.cells());
        }
        v
    }

    fn unpacked_size(&self) -> (n: usize) {
        1
    }
}

impl Unpackable for DiveDirection {
    open spec fn cells(&self) -> Seq<u16> {
        seq![direction_cell(*self)]
    }

    open spec fn width(&self) -> nat {
        1
    }

    open spec fn encodable(&self) -> bool {
        true
    }

    proof fn lemma_cells_match_width(&self) {
    }

    fn unpack(&self) -> (v: Vec<u16>) {
        let c: u16 = match self {
            DiveDirection::Down => 0,
            DiveDirection::Up => 1,
        };
        let mut v: Vec<u16> = Vec::new();
        v.push(c);
        proof {
            assert(v@ =~= self.cells());
        }
        v
    }

    fn unpacked_size(&self) -> (n: usize) {
        1
    }
}

impl Unpackable for Position {
    open spec fn cells(&self) -> Seq<u16> {
        position_cells(*self)
    }

    open spec fn width(&self) -> nat {
        POSITION_COUNT as nat
    }

    /// A diving depth must fit in a cell.
    open spec fn encodable(&self) -> bool {
        match *self {
            Position::Diving(depth) => depth <= u16::MAX,
            _ => true,
        }
    }

    proof fn lemma_cells_match_width(&self) {
    }

    fn unpack(&self) -> (v: Vec<u16>) {
        let depth_cell: u16 = match self {
            Position::Diving(depth) => *depth as u16,
            _ => 0,
        };
        let mut v: Vec<u16> = Vec::new();
        v.push(depth_cell);
        v.push(
            if *self == Position::WaitingToDive {
                1
            } else {
                0
            },
        );
        v.push(
            if *self == Position::ReturnedToSubmarine {
                1
            } else {
                0
            },
        );
        proof {
            assert(v@ =~= self.cells());
        }
        v
    }

    fn unpacked_size(&self) -> (n: usize) {
        POSITION_COUNT
    }
}

impl Unpackable for Tile {
    open spec fn cells(&self) -> Seq<u16> {
        seq![tile_cell(*self)]
    }

    open spec fn width(&self) -> nat {
        1
    }

    open spec fn encodable(&self) -> bool {
        true
    }

    proof fn lemma_cells_match_width(&self) {
    }

    fn unpack(&self) -> (v: Vec<u16>) {
        let c: u16 = match self {
            Tile::Empty => 0,
            Tile::Treasure(Treasure::One) => 1,
            Tile::Treasure(Treasure::Two) => 2,
            Tile::Treasure(Treasure::Three) => 3,
            Tile::Treasure(Treasure::Four) => 4,
        };
        let mut v: Vec<u16> = Vec::new();
        v.push(c);
        proof {
            assert(v@ =~= self.cells());
        }
        v
    }

    fn unpacked_size(&self) -> (n: usize) {
        1
    }
}

/// Alternating merge of two cell sequences, starting with `a`; when one
/// runs out the rest of the other follows.
pub open spec fn interleave_spec(a: Seq<u16>, b: Seq<u16>) -> Seq<u16>
    decreases a.len() + b.len(),
{
    if a.len() == 0 {
        b
    } else if b.len() == 0 {
        a
    } else {
        seq![a[0], b[0]] + interleave_spec(a.drop_first(), b.drop_first())
    }
}

/// Interleaving equal-length sequences pairs them index by index.
proof fn lemma_interleave_equal_len(a: Seq<u16>, b: Seq<u16>)
    requires
        a.len() == b.len(),
    ensures
        interleave_spec(a, b).len() == 2 * a.len(),
        forall|i: int|
            0 <= i < 2 * a.len() ==> interleave_spec(a, b)[i] == (if i % 2 == 0 {
                a[i / 2]
            } else {
                b[i / 2]
            }),
    decreases a.len(),
{
    if a.len() > 0 {
        lemma_interleave_equal_len(a.drop_first(), b.drop_first());
        assert forall|i: int| 0 <= i < 2 * a.len() implies interleave_spec(a, b)[i] == (if i % 2
            == 0 {
            a[i / 2]
        } else {
            b[i / 2]
        }) by {
            if i >= 2 {
                assert(interleave_spec(a, b)[i] == interleave_spec(
                    a.drop_first(),
                    b.drop_first(),
                )[i - 2]);
                assert((i - 2) / 2 == i / 2 - 1);
                assert((i - 2) % 2 == i % 2);
                assert(a.drop_first()[i / 2 - 1] == a[i / 2]);
                assert(b.drop_first()[i / 2 - 1] == b[i / 2]);
            }
        }
    }
}

/// Relies on itertools' interleave: it alternates elements from the two
/// iterators, starting with the first, and yields the rest of the longer
/// one once the shorter runs out.
#[verifier::external_body]
fn interleave_cells(a: &Vec<u16>, b: &Vec<u16>) -> (r: Vec<u16>)
    ensures
        r@ == interleave_spec(a@, b@),
{
    itertools::interleave(a.iter().copied(), b.iter().copied()).collect()
}

/// The interleaved encoding of a path: for each index, the tile's cell
/// followed by its occupancy flag.
pub open spec fn path_cells(tiles: Seq<Tile>, occ: Set<usize>) -> Seq<u16> {
    Seq::new(
        (2 * tiles.len()) as nat,
        |i: int|
            if i % 2 == 0 {
                tile_cell(tiles[i / 2])
            } else if occ.contains((i / 2) as usize) {
                1u16
            } else {
                0u16
            },
    )
}

fn tile_to_cell(t: Tile) -> (c: u16)
    ensures
        c == tile_cell(t),
{
    match t {
        Tile::Empty => 0,
        Tile::Treasure(Treasure::One) => 1,
        Tile::Treasure(Treasure::Two) => 2,
        Tile::Treasure(Treasure::Three) => 3,
        Tile::Treasure(Treasure::Four) => 4,
    }
}

/// Produce the interleaved path encoding from its parts.
fn unpack_path_parts(tiles: &[Tile], occupied: &OccupiedTiles) -> (r: Vec<u16>)
    ensures
        r@ == path_cells(tiles@, occupied_set(*occupied)),
{
    let n = tiles.len();
    let mut tile_cells: Vec<u16> = Vec::new();
    let mut i: usize = 0;
    while i < n
        invariant
            i <= n,
            n == tiles@.len(),
            tile_cells@.len() == i,
            forall|j: int| 0 <= j < i ==> tile_cells@[j] == tile_cell(tiles@[j]),
        decreases n - i,
    {
        tile_cells.push(tile_to_cell(tiles[i]));
        i += 1;
    }
    let mut flags: Vec<u16> = Vec::new();
    let mut k: usize = 0;
    while k < n
        invariant
            k <= n,
            n == tiles@.len(),
            flags@.len() == k,
            forall|j: int|
                0 <= j < k ==> flags@[j] == (if occupied_set(*occupied).contains(j as usize) {
                    1u16
                } else {
                    0u16
                }),
        decreases n - k,
    {
        flags.push(
            if occupied.contains(k) {
                1
            } else {
                0
            },
        );
        k += 1;
    }
    let r = interleave_cells(&tile_cells, &flags);
    proof {
        lemma_interleave_equal_len(tile_cells@, flags@);
        assert(r@ =~= path_cells(tiles@, occupied_set(*occupied)));
    }
    r
}

/// A read-only snapshot of the path: its tiles and which indices are
/// occupied by divers.
pub struct Path {
    pub tiles: Vec<Tile>,
    pub occupied: OccupiedTiles,
}

impl Unpackable for Path {
    open spec fn cells(&self) -> Seq<u16> {
        path_cells(self.tiles@, occupied_set(self.occupied))
    }

    open spec fn width(&self) -> nat {
        2 * self.tiles@.len()
    }

    open spec fn encodable(&self) -> bool {
        2 * self.tiles@.len() <= usize::MAX
    }

    proof fn lemma_cells_match_width(&self) {
    }

    fn unpack(&self) -> (v: Vec<u16>) {
        unpack_path_parts(self.tiles.as_slice(), &self.occupied)
    }

    fn unpacked_size(&self) -> (n: usize) {
        2 * self.tiles.len()
    }
}

/// The held-treasure cells of a player: one cell per treasure, in
/// order.
pub open spec fn held_cells(s: Seq<Treasure>) -> Seq<u16> {
    s.map_values(|t: Treasure| treasure_cell(t))
}

/// The full player encoding from its mathematical view: direction,
/// position, and held treasures, zero-padded up to `PLAYER_DIM`.
pub open spec fn player_view_cells(p: PlayerView) -> Seq<u16> {
    let filled = seq![direction_cell(p.direction)] + position_cells(p.position) + held_cells(
        p.held_treasures,
    );
    filled + Seq::new(
        if filled.len() <= PLAYER_DIM {
            (PLAYER_DIM - filled.len()) as nat
        } else {
            0
        },
        |_i: int| 0u16,
    )
}

/// A read-only snapshot of one diver for the encoder.
#[derive(Clone, Debug)]
pub struct Player {
    pub direction: DiveDirection,
    pub position: Position,
    pub held_treasures: Vec<Treasure>,
}

impl Player {
    /// A player that has not started: heading down, waiting to dive,
    /// holding nothing.
    pub fn new() -> (r: Self)
        ensures
            r.direction == DiveDirection::Down,
            r.position == Position::WaitingToDive,
            r.held_treasures@ == Seq::<Treasure>::empty(),
    {
        Self {
            direction: DiveDirection::Down,
            position: Position::WaitingToDive,
            held_treasures: Vec::new(),
        }
    }

    /// The encoder's snapshot of a live board player.
    pub fn of_board(p: &deep_sea::Player) -> (r: Self)
        ensures
            r.direction == p@.direction,
            r.position == p@.position,
            r.held_treasures@ == p@.held_treasures,
    {
        let held = p.held_treasures();
        let mut held_treasures: Vec<Treasure> = Vec::new();
        let mut i: usize = 0;
        while i < held.len()
            invariant
                i <= held@.len(),
                held@ == p@.held_treasures,
                held_treasures@ =~= held@.take(i as int),
            decreases held@.len() - i,
        {
            held_treasures.push(held[i]);
            proof {
                assert(held@.take(i + 1) =~= held@.take(i as int).push(held@[i as int]));
            }
            i += 1;
        }
        proof {
            assert(held@.take(held@.len() as int) =~= held@);
        }
        Self { direction: p.direction(), position: p.position(), held_treasures }
    }
}

impl Default for Player {
    fn default() -> (r: Self)
        ensures
            r.direction == DiveDirection::Down,
            r.position == Position::WaitingToDive,
            r.held_treasures@ == Seq::<Treasure>::empty(),
    {
        Self::new()
    }
}

impl Unpackable for Player {
    open spec fn cells(&self) -> Seq<u16> {
        player_view_cells(
            PlayerView {
                direction: self.direction,
                position: self.position,
                held_treasures: self.held_treasures@,
            },
        )
    }

    open spec fn width(&self) -> nat {
        PLAYER_DIM as nat
    }

    /// The diving depth must fit in a cell and the held list must be
    /// within its reserved capacity.
    open spec fn encodable(&self) -> bool {
        &&& self.position.encodable()
        &&& self.held_treasures@.len() <= MAX_NUM_TREASURES
    }

    proof fn lemma_cells_match_width(&self) {
    }

    #[verifier::loop_isolation(false)]
    fn unpack(&self) -> (v: Vec<u16>) {
        let mut out = self.direction.unpack();
        let mut pos = self.position.unpack();
        out.append(&mut pos);
        proof {
            lemma_seq_cells_unit(self.held_treasures@);
            assert(seq_cells(self.held_treasures@) =~= held_cells(self.held_treasures@));
        }
        let mut held = self.held_treasures.unpack();
        out.append(&mut held);
        let ghost base = seq![direction_cell(self.direction)] + position_cells(self.position)
            + held_cells(self.held_treasures@);
        proof {
            assert(out@ =~= base);
        }
        while out.len() < PLAYER_DIM
            invariant
                base.len() <= out@.len(),
                out@.len() <= PLAYER_DIM,
                out@ == base + Seq::new((out@.len() - base.len()) as nat, |_i: int| 0u16),
            decreases PLAYER_DIM - out@.len(),
        {
            out.push(0);
            proof {
                assert(out@ =~= base + Seq::new((out@.len() - base.len()) as nat, |_i: int| 0u16));
            }
        }
        proof {
            assert(out@ =~= self.cells());
        }
        out
    }

    fn unpacked_size(&self) -> (n: usize) {
        PLAYER_DIM
    }
}

/// An action taken against the board: either a treasure decision or a
/// dive-direction choice.
pub enum DeepSeaAction {
    TreasureDecision(TreasureDecision),
    DiveDirection(DiveDirection),
}

impl From<TreasureDecision> for DeepSeaAction {
    fn from(td: TreasureDecision) -> (r: Self) {
        DeepSeaAction::TreasureDecision(td)
    }
}

impl vstd::std_specs::convert::FromSpecImpl<TreasureDecision> for DeepSeaAction {
    open spec fn obeys_from_spec() -> bool {
        true
    }

    open spec fn from_spec(td: TreasureDecision) -> Self {
        DeepSeaAction::TreasureDecision(td)
    }
}

impl From<DiveDirection> for DeepSeaAction {
    fn from(dd: DiveDirection) -> (r: Self) {
        DeepSeaAction::DiveDirection(dd)
    }
}

impl vstd::std_specs::convert::FromSpecImpl<DiveDirection> for DeepSeaAction {
    open spec fn obeys_from_spec() -> bool {
        true
    }

    open spec fn from_spec(dd: DiveDirection) -> Self {
        DeepSeaAction::DiveDirection(dd)
    }
}

/// The one-hot index of an action: the treasure decisions come first
/// (ignore, take, then one slot per returnable kind), the dive
/// directions after.
pub open spec fn action_hot_index(a: DeepSeaAction) -> int {
    match a {
        DeepSeaAction::TreasureDecision(td) => match td {
            TreasureDecision::Ignore => 0,
            TreasureDecision::Take => 1,
            TreasureDecision::Return(t) => 2 + t.ord(),
        },
        DeepSeaAction::DiveDirection(dd) => TREASURE_DECISION_COUNT + direction_cell(dd),
    }
}

impl Unpackable for DeepSeaAction {
    open spec fn cells(&self) -> Seq<u16> {
        Seq::new(
            DEEP_SEA_ACTION_COUNT as nat,
            |i: int|
                if i == action_hot_index(*self) {
                    1u16
                } else {
                    0u16
                },
        )
    }

    open spec fn width(&self) -> nat {
        DEEP_SEA_ACTION_COUNT as nat
    }

    open spec fn encodable(&self) -> bool {
        true
    }

    proof fn lemma_cells_match_width(&self) {
    }

    fn unpack(&self) -> (v: Vec<u16>) {
        let hot: usize = match self {
            DeepSeaAction::TreasureDecision(td) => match td {
                TreasureDecision::Ignore => 0,
                TreasureDecision::Take => 1,
                TreasureDecision::Return(t) => 2 + (match t {
                    Treasure::One => 0usize,
                    Treasure::Two => 1,
                    Treasure::Three => 2,
                    Treasure::Four => 3,
                }),
            },
            DeepSeaAction::DiveDirection(dd) => TREASURE_DECISION_COUNT + (match dd {
                DiveDirection::Down => 0usize,
                DiveDirection::Up => 1,
            }),
        };
        let mut v: Vec<u16> = Vec::new();
        let mut i: usize = 0;
        while i < DEEP_SEA_ACTION_COUNT
            invariant
                i <= DEEP_SEA_ACTION_COUNT,
                v@.len() == i,
                hot == action_hot_index(*self),
                forall|j: int|
                    0 <= j < i ==> v@[j] == (if j == action_hot_index(*self) {
                        1u16
                    } else {
                        0u16
                    }),
            decreases DEEP_SEA_ACTION_COUNT - i,
        {
            v.push(
                if i == hot {
                    1
                } else {
                    0
                },
            );
            i += 1;
        }
        proof {
            assert(v@ =~= self.cells());
        }
        v
    }

    fn unpacked_size(&self) -> (n: usize) {
        DEEP_SEA_ACTION_COUNT
    }
}

/// One-hot law: every action encodes with exactly one cell equal to
/// one, at its designated index, and zeros everywhere else.
pub proof fn lemma_action_one_hot(a: DeepSeaAction)
    ensures
        0 <= action_hot_index(a) < DEEP_SEA_ACTION_COUNT,
        a.cells()[action_hot_index(a)] == 1,
        forall|i: int|
            0 <= i < DEEP_SEA_ACTION_COUNT && i != action_hot_index(a) ==> a.cells()[i] == 0,
{
}

/// A read-only snapshot of the whole game for the encoder: the path,
/// the players, and the oxygen left.
pub struct DeepSeaState {
    pub path: Path,
    pub players: Vec<Player>,
    pub oxygen: u16,
}

impl Unpackable for DeepSeaState {
    /// Path cells, then player cells, then one oxygen cell.
    open spec fn cells(&self) -> Seq<u16> {
        self.path.cells() + self.players.cells() + seq![self.oxygen]
    }

    open spec fn width(&self) -> nat {
        self.path.width() + self.players.width() + 1
    }

    open spec fn encodable(&self) -> bool {
        &&& self.path.encodable()
        &&& self.players.encodable()
        &&& self.width() <= usize::MAX
    }

    proof fn lemma_cells_match_width(&self) {
        self.path.lemma_cells_match_width();
        self.players.lemma_cells_match_width();
    }

    fn unpack(&self) -> (v: Vec<u16>) {
        let mut out = self.path.unpack();
        let mut ps = self.players.unpack();
        out.append(&mut ps);
        out.push(self.oxygen);
        proof {
            assert(out@ =~= self.cells());
        }
        out
    }

    fn unpacked_size(&self) -> (n: usize) {
        self.path.unpacked_size() + self.players.unpacked_size() + 1
    }
}

/// The kind of treasure the standard opening path holds at index `i`:
/// eight tiles of each kind, cheapest first.
pub open spec fn default_path_kind(i: int) -> Treasure {
    if i < 8 {
        Treasure::One
    } else if i < 16 {
        Treasure::Two
    } else if i < 24 {
        Treasure::Three
    } else {
        Treasure::Four
    }
}

impl Default for DeepSeaState {
    /// The standard opening snapshot: a 32-tile path holding eight
    /// tiles of each treasure kind in ascending order, six unstarted
    /// players, no tile occupied, and a full oxygen pool.
    fn default() -> (r: Self)
        ensures
            r.path.tiles@.len() == 32,
            forall|i: int|
                0 <= i < 32 ==> (#[trigger] r.path.tiles@[i]) == Tile::Treasure(
                    default_path_kind(i),
                ),
            occupied_set(r.path.occupied) == Set::<usize>::empty(),
            r.players@.len() == 6,
            forall|i: int|
                0 <= i < 6 ==> (#[trigger] r.players@[i]).direction == DiveDirection::Down
                    && r.players@[i].position == Position::WaitingToDive
                    && r.players@[i].held_treasures@.len() == 0,
            r.oxygen == deep_sea::DeepSea::OXYGEN as u16,
            r.encodable(),
    {
        let mut tiles: Vec<Tile> = Vec::new();
        let mut i: usize = 0;
        while i < 32
            invariant
                i <= 32,
                tiles@.len() == i,
                forall|j: int|
                    0 <= j < i ==> (#[trigger] tiles@[j]) == Tile::Treasure(default_path_kind(j)),
            decreases 32 - i,
        {
            let kind = if i < 8 {
                Treasure::One
            } else if i < 16 {
                Treasure::Two
            } else if i < 24 {
                Treasure::Three
            } else {
                Treasure::Four
            };
            tiles.push(Tile::Treasure(kind));
            i += 1;
        }
        let mut players: Vec<Player> = Vec::new();
        let mut k: usize = 0;
        while k < 6
            invariant
                k <= 6,
                players@.len() == k,
                forall|j: int|
                    0 <= j < k ==> (#[trigger] players@[j]).direction == DiveDirection::Down
                        && players@[j].position == Position::WaitingToDive
                        && players@[j].held_treasures@.len() == 0,
            decreases 6 - k,
        {
            players.push(Player::new());
            k += 1;
        }
        let r = Self {
            path: Path { tiles, occupied: OccupiedTiles::new() },
            players,
            oxygen: deep_sea::DeepSea::OXYGEN as u16,
        };
        proof {
            lemma_seq_width_uniform(r.players@, PLAYER_DIM as nat);
        }
        r
    }
}

/// A state snapshot paired with the action taken against it: the unit
/// fed to downstream learning consumers.
pub struct DeepSeaStateActionPair<'a> {
    pub state: &'a DeepSeaState,
    pub action: &'a DeepSeaAction,
}

impl<'a> Unpackable for DeepSeaStateActionPair<'a> {
    /// The state encoding followed by the action encoding.
    open spec fn cells(&self) -> Seq<u16> {
        self.state.cells() + self.action.cells()
    }

    open spec fn width(&self) -> nat {
        self.state.width() + self.action.width()
    }

    open spec fn encodable(&self) -> bool {
        &&& self.state.encodable()
        &&& self.width() <= usize::MAX
    }

    proof fn lemma_cells_match_width(&self) {
        self.state.lemma_cells_match_width();
        self.action.lemma_cells_match_width();
    }

    fn unpack(&self) -> (v: Vec<u16>) {
        let mut out = self.state.unpack();
        let mut act = self.action.unpack();
        out.append(&mut act);
        proof {
            assert(out@ =~= self.cells());
        }
        out
    }

    fn unpacked_size(&self) -> (n: usize) {
        self.state.unpacked_size() + self.action.unpacked_size()
    }
}

/// Encodes a treasure kind as its cell: the ordinal plus one, reserving
/// zero for "none".
pub fn treasure_enum_unpack<T: DataType>(treasure: &Treasure) -> (r: T)
    ensures
        r == T::from_u16_spec(treasure_cell(*treasure)),
{
    let c: u16 = match treasure {
        Treasure::One => 1,
        Treasure::Two => 2,
        Treasure::Three => 3,
        Treasure::Four => 4,
    };
    T::from_u16(c)
}

/// Encodes a dive direction as its raw ordinal.
pub fn dive_direction_enum_unpack<T: DataType>(dive_direction: &DiveDirection) -> (r: T)
    ensures
        r == T::from_u16_spec(direction_cell(*dive_direction)),
{
    let c: u16 = match dive_direction {
        DiveDirection::Down => 0,
        DiveDirection::Up => 1,
    };
    T::from_u16(c)
}

/// Encodes a position as its three cells: depth (or zero), a waiting
/// flag, and a returned flag.
pub fn position_enum_unpack<T: DataType>(position: &Position) -> (r: Vec<T>)
    requires
        position.encodable(),
    ensures
        r@ == position.cells().map_values(|c: u16| T::from_u16_spec(c)),
{
    let cells = position.unpack();
    let r = crate::vectorization::convert_cells::<T>(&cells);
    proof {
        assert(r@ =~= position.cells().map_values(|c: u16| T::from_u16_spec(c)));
    }
    r
}

/// The concatenated player encodings of a sequence of player views.
pub open spec fn players_cells(s: Seq<PlayerView>) -> Seq<u16>
    decreases s.len(),
{
    if s.len() == 0 {
        Seq::<u16>::empty()
    } else {
        player_view_cells(s[0]) + players_cells(s.drop_first())
    }
}

/// Appending one player appends its cells.
proof fn lemma_players_cells_push(s: Seq<PlayerView>, x: PlayerView)
    ensures
        players_cells(s.push(x)) == players_cells(s) + player_view_cells(x),
    decreases s.len(),
{
    if s.len() == 0 {
        assert(s.push(x).drop_first() =~= s);
        assert(s.push(x)[0] == x);
        assert(players_cells(s.push(x)) =~= players_cells(s) + player_view_cells(x));
    } else {
        assert(s.push(x).drop_first() =~= s.drop_first().push(x));
        lemma_players_cells_push(s.drop_first(), x);
        assert(player_view_cells(s[0]) + (players_cells(s.drop_first()) + player_view_cells(x))
            =~= (player_view_cells(s[0]) + players_cells(s.drop_first())) + player_view_cells(x));
    }
}

/// The flat numeric image of a live board together with an action: the
/// interleaved path cells, the players' encodings rotated so the acting
/// player comes first, one oxygen cell, and the action's one-hot cells.
#[verifier::loop_isolation(false)]
pub fn raw_state_action_vector(
    deep_sea: &deep_sea::DeepSea,
    deep_sea_action: &DeepSeaAction,
) -> (r: Vec<u16>)
    requires
        deep_sea@.wf(),
        deep_sea@.players.len() > 0,
        deep_sea@.oxygen <= u16::MAX,
        deep_sea@.path.len() <= u16::MAX,
        forall|i: int|
            0 <= i < deep_sea@.players.len() ==> (
            #[trigger] deep_sea@.players[i]).held_treasures.len() <= MAX_NUM_TREASURES,
        2 * deep_sea@.path.len() + deep_sea@.players.len() * (PLAYER_DIM as int) + 1 + (
        DEEP_SEA_ACTION_COUNT as int) <= usize::MAX,
    ensures
        r@ == path_cells(deep_sea@.path, deep_sea@.occupied_tiles) + players_cells(
            deep_sea@.players.subrange(deep_sea@.player_idx, deep_sea@.players.len() as int)
                + deep_sea@.players.subrange(0, deep_sea@.player_idx),
        ) + seq![deep_sea@.oxygen as u16] + deep_sea_action.cells(),
{
    let mut out = unpack_path_parts(deep_sea.path(), deep_sea.occupied_tiles());
    let players = deep_sea.players();
    let n = players.len();
    let idx = deep_sea.player_idx();
    let ghost rot = deep_sea@.players.subrange(idx as int, n as int) + deep_sea@.players.subrange(
        0,
        idx as int,
    );
    let ghost path_part = path_cells(deep_sea@.path, deep_sea@.occupied_tiles);

    let mut k: usize = 0;
    while k < n
        invariant
            k <= n,
            out@ == path_part + players_cells(rot.take(k as int)),
        decreases n - k,
    {
        proof {
            assert(players@.map_values(|p: deep_sea::Player| p@) == deep_sea@.players);
            assert(n == deep_sea@.players.len());
            assert(idx < n);
            assert(n * (PLAYER_DIM as int) <= usize::MAX);
            assert(2 * n <= n * (PLAYER_DIM as int)) by (nonlinear_arith)
                requires n >= 1;
            assert(idx + k < 2 * n);
        }
        let i = if idx + k < n {
            idx + k
        } else {
            idx + k - n
        };
        proof {
            assert(players@.map_values(|p: deep_sea::Player| p@) == deep_sea@.players);
            assert(players@[i as int]@ == deep_sea@.players[i as int]);
            assert(rot[k as int] == deep_sea@.players[i as int]);
        }
        let snapshot = Player::of_board(&players[i]);
        proof {
            assert(snapshot.encodable());
        }
        let mut cs = snapshot.unpack();
        out.append(&mut cs);
        proof {
            assert(snapshot.cells() == player_view_cells(rot[k as int]));
            assert(rot.take(k + 1) =~= rot.take(k as int).push(rot[k as int]));
            lemma_players_cells_push(rot.take(k as int), rot[k as int]);
            assert(out@ =~= path_part + players_cells(rot.take(k + 1)));
        }
        k += 1;
    }
    proof {
        assert(rot.take(rot.len() as int) =~= rot);
    }
    out.push(deep_sea.oxygen() as u16);
    let mut act = deep_sea_action.unpack();
    out.append(&mut act);
    proof {
        assert(out@ =~= path_part + players_cells(rot) + seq![deep_sea@.oxygen as u16]
            + deep_sea_action.cells());
    }
    out
}

} // verus!
