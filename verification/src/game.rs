//! The board model: cells, walls ("edges"), corner joints, scores.

use vstd::prelude::*;

verus! {

/// One of the three parties that can click walls and own cells.
#[derive(Clone, Copy, Debug, PartialEq, Eq, Structural)]
pub enum Player {
    Player1,
    Player2,
    CPU,
}

impl Player {
    /// The adversary of a party in the one-human-versus-CPU framing.
    /// Only `Player1` and `CPU` take part in that framing.
    pub fn opponent(&self) -> (r: Player)
        requires
            *self != Player::Player2,
        ensures
            *self == Player::Player1 ==> r == Player::CPU,
            *self == Player::CPU ==> r == Player::Player1,
    {
        match self {
            Player::Player1 => Player::CPU,
            Player::CPU => Player::Player1,
            Player::Player2 => Player::Player1,
        }
    }
}

/// Difficulty levels offered to the player; each maps to one policy.
#[derive(Clone, Copy, Debug, PartialEq, Eq, Structural)]
pub enum Difficulty {
    Easy,
    Medium,
    Hard,
}

/// Why a click was rejected.
#[derive(Clone, Copy, Debug, PartialEq, Eq, Structural)]
pub enum ClickError {
    /// The edge address lies outside the valid range for its parity.
    InvalidCoordinates,
    /// The edge had already been clicked; re-clicking is an error.
    AlreadyClicked,
}

/// Score summary; `winner` is only filled in by [`Board::get_statistics`].
#[derive(Debug, PartialEq)]
pub struct GameStatistics {
    pub player1_points: usize,
    pub player2_points: usize,
    pub cpu_points: usize,
    pub winner: Option<Player>,
}

impl Clone for GameStatistics {
    fn clone(&self) -> (r: Self)
        ensures
            r == *self,
    {
        GameStatistics {
            player1_points: self.player1_points,
            player2_points: self.player2_points,
            cpu_points: self.cpu_points,
            winner: self.winner,
        }
    }
}

impl Default for GameStatistics {
    fn default() -> (r: Self)
        ensures
            r == (GameStatistics {
                player1_points: 0,
                player2_points: 0,
                cpu_points: 0,
                winner: None,
            }),
    {
        GameStatistics { player1_points: 0, player2_points: 0, cpu_points: 0, winner: None }
    }
}

/// One box of the grid; `counter` is the number of its four bounding
/// walls that are clicked, and `owner` is set exactly when it reaches 4.
#[derive(Clone, Copy, Debug)]
pub struct Cell {
    pub id: (usize, usize),
    pub counter: usize,
    pub owner: Option<Player>,
}

impl Cell {
    pub fn new(row: usize, col: usize) -> (r: Self)
        ensures
            r == (Cell { id: (row, col), counter: 0, owner: None }),
    {
        Cell { id: (row, col), counter: 0, owner: None }
    }
}

/// Which side of a joint a wall lies on.
#[derive(Clone, Copy, Debug, PartialEq, Eq, Structural)]
pub enum Direction {
    North,
    East,
    South,
    West,
}

/// A grid corner; tracks which of the four walls meeting there are clicked.
#[derive(Clone, Copy, Debug)]
pub struct Joint {
    pub id: (usize, usize),
    pub north_wall_clicked: bool,
    pub east_wall_clicked: bool,
    pub south_wall_clicked: bool,
    pub west_wall_clicked: bool,
}

/// The 4-bit rendering mask of a joint: north is worth 8, east 4,
/// south 2 and west 1.
pub open spec fn joint_mask_spec(j: Joint) -> int {
    (if j.north_wall_clicked { 8int } else { 0int })
        + (if j.east_wall_clicked { 4int } else { 0int })
        + (if j.south_wall_clicked { 2int } else { 0int })
        + (if j.west_wall_clicked { 1int } else { 0int })
}

impl Joint {
    pub fn new(row: usize, col: usize) -> (r: Self)
        ensures
            r == (Joint {
                id: (row, col),
                north_wall_clicked: false,
                east_wall_clicked: false,
                south_wall_clicked: false,
                west_wall_clicked: false,
            }),
    {
        Joint {
            id: (row, col),
            north_wall_clicked: false,
            east_wall_clicked: false,
            south_wall_clicked: false,
            west_wall_clicked: false,
        }
    }

    /// Record that the wall on the given side of this joint is clicked.
    pub fn set_wall_clicked(&mut self, direction: Direction)
        ensures
            *final(self) == (match direction {
                Direction::North => Joint { north_wall_clicked: true, ..*old(self) },
                Direction::East => Joint { east_wall_clicked: true, ..*old(self) },
                Direction::South => Joint { south_wall_clicked: true, ..*old(self) },
                Direction::West => Joint { west_wall_clicked: true, ..*old(self) },
            }),
    {
        match direction {
            Direction::North => self.north_wall_clicked = true,
            Direction::East => self.east_wall_clicked = true,
            Direction::South => self.south_wall_clicked = true,
            Direction::West => self.west_wall_clicked = true,
        }
    }

    /// The 4-bit mask (north = 8, east = 4, south = 2, west = 1) used to
    /// pick the joint sprite when rendering.
    pub fn get_joint_mask(&self) -> (r: usize)
        ensures
            r == joint_mask_spec(*self),
    {
        let mut mask: usize = 0;
        if self.north_wall_clicked {
            mask = mask + 8;
        }
        if self.east_wall_clicked {
            mask = mask + 4;
        }
        if self.south_wall_clicked {
            mask = mask + 2;
        }
        if self.west_wall_clicked {
            mask = mask + 1;
        }
        mask
    }
}

/// The abstract value of a [`Wall`]: the same data with the vectors
/// replaced by sequences.
pub ghost struct WallV {
    pub id: (usize, usize),
    pub is_clicked: bool,
    pub adjacent_cells: Seq<(usize, usize)>,
    pub adjacent_joints: Seq<(Direction, usize, usize)>,
}

/// A clickable edge of the grid.  Even rows hold horizontal walls,
/// odd rows vertical ones.  The adjacency lists are fixed at
/// construction; only `is_clicked` ever changes, and only from
/// `false` to `true`.
#[derive(Debug)]
pub struct Wall {
    pub id: (usize, usize),
    pub is_clicked: bool,
    pub adjacent_cells: Vec<(usize, usize)>,
    pub adjacent_joints: Vec<(Direction, usize, usize)>,
}

impl View for Wall {
    type V = WallV;

    open spec fn view(&self) -> WallV {
        WallV {
            id: self.id,
            is_clicked: self.is_clicked,
            adjacent_cells: self.adjacent_cells@,
            adjacent_joints: self.adjacent_joints@,
        }
    }
}

/// Copy a list of coordinate pairs element by element.
fn copy_coords(v: &Vec<(usize, usize)>) -> (r: Vec<(usize, usize)>)
    ensures
        r@ == v@,
{
    let mut r: Vec<(usize, usize)> = Vec::new();
    let mut i: usize = 0;
    while i < v.len()
        invariant
            i <= v@.len(),
            r@ == v@.subrange(0, i as int),
        decreases v@.len() - i,
    {
        r.push(v[i]);
        i = i + 1;
        proof {
            assert(r@ =~= v@.subrange(0, i as int));
        }
    }
    proof {
        assert(r@ =~= v@);
    }
    r
}

/// Copy a list of tagged joint coordinates element by element.
fn copy_joint_refs(v: &Vec<(Direction, usize, usize)>) -> (r: Vec<(Direction, usize, usize)>)
    ensures
        r@ == v@,
{
    let mut r: Vec<(Direction, usize, usize)> = Vec::new();
    let mut i: usize = 0;
    while i < v.len()
        invariant
            i <= v@.len(),
            r@ == v@.subrange(0, i as int),
        decreases v@.len() - i,
    {
        r.push(v[i]);
        i = i + 1;
        proof {
            assert(r@ =~= v@.subrange(0, i as int));
        }
    }
    proof {
        assert(r@ =~= v@);
    }
    r
}

impl Clone for Wall {
    fn clone(&self) -> (r: Self)
        ensures
            r@ == self@,
    {
        Wall {
            id: self.id,
            is_clicked: self.is_clicked,
            adjacent_cells: copy_coords(&self.adjacent_cells),
            adjacent_joints: copy_joint_refs(&self.adjacent_joints),
        }
    }
}

impl Wall {
    pub fn new(row: usize, col: usize) -> (r: Self)
        ensures
            r@ == (WallV {
                id: (row, col),
                is_clicked: false,
                adjacent_cells: Seq::<(usize, usize)>::empty(),
                adjacent_joints: Seq::<(Direction, usize, usize)>::empty(),
            }),
    {
        let r = Wall {
            id: (row, col),
            is_clicked: false,
            adjacent_cells: Vec::new(),
            adjacent_joints: Vec::new(),
        };
        proof {
            assert(r.adjacent_cells@ =~= Seq::<(usize, usize)>::empty());
            assert(r.adjacent_joints@ =~= Seq::<(Direction, usize, usize)>::empty());
        }
        r
    }

    /// Replace the list of cells this wall bounds.
    pub fn adjacent_to(self, cell_ids: &[(usize, usize)]) -> (r: Self)
        ensures
            r@ == (WallV { adjacent_cells: cell_ids@, ..self@ }),
    {
        let mut cells: Vec<(usize, usize)> = Vec::new();
        let mut i: usize = 0;
        while i < cell_ids.len()
            invariant
                i <= cell_ids@.len(),
                cells@ == cell_ids@.subrange(0, i as int),
            decreases cell_ids@.len() - i,
        {
            cells.push(cell_ids[i]);
            i = i + 1;
            proof {
                assert(cells@ =~= cell_ids@.subrange(0, i as int));
            }
        }
        proof {
            assert(cells@ =~= cell_ids@);
        }
        Wall { adjacent_cells: cells, ..self }
    }

    /// Add one joint, tagged with the side of it that this wall covers.
    pub fn with_joint(self, direction: Direction, row: usize, col: usize) -> (r: Self)
        ensures
            r@ == (WallV {
                adjacent_joints: self@.adjacent_joints.push((direction, row, col)),
                ..self@
            }),
    {
        let mut joints = self.adjacent_joints;
        joints.push((direction, row, col));
        Wall { adjacent_joints: joints, ..self }
    }
}

/// The abstract value of a [`Board`]: all grids as sequences.
pub ghost struct BoardV {
    pub width: int,
    pub height: int,
    pub cells: Seq<Seq<Cell>>,
    pub joints: Seq<Seq<Joint>>,
    pub walls: Seq<Seq<WallV>>,
    pub statistics: GameStatistics,
}

/// The cells adjacent to the wall at `(r, c)` on a `width` by `height`
/// board, clipped to the board bounds: the cells above and below a
/// horizontal wall, left and right of a vertical one.
pub open spec fn wall_cells_spec(width: int, height: int, r: int, c: int) -> Seq<(usize, usize)> {
    if r % 2 == 0 {
        (if r >= 2 {
            seq![(((r - 2) / 2) as usize, c as usize)]
        } else {
            Seq::<(usize, usize)>::empty()
        }) + (if r < 2 * height {
            seq![((r / 2) as usize, c as usize)]
        } else {
            Seq::<(usize, usize)>::empty()
        })
    } else {
        (if c >= 1 {
            seq![((r / 2) as usize, (c - 1) as usize)]
        } else {
            Seq::<(usize, usize)>::empty()
        }) + (if c < width {
            seq![((r / 2) as usize, c as usize)]
        } else {
            Seq::<(usize, usize)>::empty()
        })
    }
}

/// The joints at the two ends of the wall at `(r, c)`, tagged with the
/// side of the joint that the wall covers.
pub open spec fn wall_joints_spec(r: int, c: int) -> Seq<(Direction, usize, usize)> {
    if r % 2 == 0 {
        seq![
            (Direction::East, (r / 2) as usize, c as usize),
            (Direction::West, (r / 2) as usize, (c + 1) as usize),
        ]
    } else {
        seq![
            (Direction::South, (r / 2) as usize, c as usize),
            (Direction::North, (r / 2 + 1) as usize, c as usize),
        ]
    }
}

/// 1 if the wall at `(r, c)` is clicked, else 0.
pub open spec fn wall_bit(v: BoardV, r: int, c: int) -> int {
    if v.walls[r][c].is_clicked {
        1int
    } else {
        0int
    }
}

/// How many cells a player owns in one row of cells.
pub open spec fn row_owned(row: Seq<Cell>, p: Player) -> int
    decreases row.len(),
{
    if row.len() == 0 {
        0int
    } else {
        row_owned(row.drop_last(), p) + (if row.last().owner == Some(p) {
            1int
        } else {
            0int
        })
    }
}

/// How many cells a player owns on the whole board.
pub open spec fn owned_count(cells: Seq<Seq<Cell>>, p: Player) -> int
    decreases cells.len(),
{
    if cells.len() == 0 {
        0int
    } else {
        owned_count(cells.drop_last(), p) + row_owned(cells.last(), p)
    }
}

impl BoardV {
    /// Wall coordinates are doubled: row `2i` holds the horizontal
    /// walls above cell row `i`, row `2i + 1` the vertical walls
    /// through it.  Horizontal rows have `width` walls, vertical rows
    /// `width + 1`.
    pub open spec fn wall_row_len(self, r: int) -> int {
        if r % 2 == 0 {
            self.width
        } else {
            self.width + 1
        }
    }

    pub open spec fn valid_wall(self, r: int, c: int) -> bool {
        &&& 0 <= r <= 2 * self.height
        &&& 0 <= c < self.wall_row_len(r)
    }

    pub open spec fn valid_cell(self, i: int, j: int) -> bool {
        &&& 0 <= i < self.height
        &&& 0 <= j < self.width
    }

    pub open spec fn valid_joint(self, a: int, b: int) -> bool {
        &&& 0 <= a <= self.height
        &&& 0 <= b <= self.width
    }

    pub open spec fn clicked(self, r: int, c: int) -> bool {
        self.walls[r][c].is_clicked
    }

    /// The number of clicked walls among the four that bound cell `(i, j)`.
    pub open spec fn cell_wall_count(self, i: int, j: int) -> int {
        wall_bit(self, 2 * i, j) + wall_bit(self, 2 * i + 2, j) + wall_bit(self, 2 * i + 1, j)
            + wall_bit(self, 2 * i + 1, j + 1)
    }

    /// Whether wall `(r, c)` is one of the four walls bounding cell `(i, j)`.
    pub open spec fn wall_touches_cell(self, r: int, c: int, i: int, j: int) -> bool {
        ||| (r == 2 * i && c == j)
        ||| (r == 2 * i + 2 && c == j)
        ||| (r == 2 * i + 1 && (c == j || c == j + 1))
    }

    /// The cells adjacent to wall `(r, c)`, in construction order:
    /// 1 on the board boundary, 2 in the interior.
    pub open spec fn expected_cells(self, r: int, c: int) -> Seq<(usize, usize)> {
        wall_cells_spec(self.width, self.height, r, c)
    }

    /// The joints adjacent to wall `(r, c)`, each tagged with the side
    /// of the joint that the wall covers.
    pub open spec fn expected_joints(self, r: int, c: int) -> Seq<(Direction, usize, usize)> {
        wall_joints_spec(r, c)
    }

    /// Grid dimensions and machine-size bounds.
    pub open spec fn wf_dims(self) -> bool {
        &&& 1 <= self.width <= isize::MAX
        &&& 1 <= self.height <= isize::MAX
        &&& self.width * self.height <= usize::MAX
        &&& self.cells.len() == self.height
        &&& forall|i: int| 0 <= i < self.height ==> (#[trigger] self.cells[i]).len() == self.width
        &&& self.joints.len() == self.height + 1
        &&& forall|a: int|
            0 <= a <= self.height ==> (#[trigger] self.joints[a]).len() == self.width + 1
        &&& self.walls.len() == 2 * self.height + 1
        &&& forall|r: int|
            0 <= r <= 2 * self.height ==> (#[trigger] self.walls[r]).len() == self.wall_row_len(r)
    }

    /// Identities and adjacency lists are exactly what construction set up.
    pub open spec fn wf_shape(self) -> bool {
        &&& self.wf_dims()
        &&& forall|i: int, j: int|
            self.valid_cell(i, j) ==> (#[trigger] self.cells[i][j]).id == (i as usize, j as usize)
        &&& forall|a: int, b: int|
            self.valid_joint(a, b) ==> (#[trigger] self.joints[a][b]).id == (
            a as usize,
            b as usize,
            )
        &&& forall|r: int, c: int|
            self.valid_wall(r, c) ==> (#[trigger] self.walls[r][c]).id == (r as usize, c as usize)
        &&& forall|r: int, c: int|
            self.valid_wall(r, c) ==> (#[trigger] self.walls[r][c]).adjacent_cells
                == self.expected_cells(r, c)
        &&& forall|r: int, c: int|
            self.valid_wall(r, c) ==> (#[trigger] self.walls[r][c]).adjacent_joints
                == self.expected_joints(r, c)
    }

    /// Every cell's counter equals the number of its clicked walls.
    pub open spec fn wf_counters(self) -> bool {
        forall|i: int, j: int|
            self.valid_cell(i, j) ==> (#[trigger] self.cells[i][j]).counter == self.cell_wall_count(
                i,
                j,
            )
    }

    /// Every joint flag mirrors the clicked state of the wall on that side.
    pub open spec fn wf_joints(self) -> bool {
        forall|a: int, b: int|
            self.valid_joint(a, b) ==> {
                let joint = #[trigger] self.joints[a][b];
                &&& joint.north_wall_clicked == (a >= 1 && self.clicked(2 * a - 1, b))
                &&& joint.south_wall_clicked == (a < self.height && self.clicked(2 * a + 1, b))
                &&& joint.east_wall_clicked == (b < self.width && self.clicked(2 * a, b))
                &&& joint.west_wall_clicked == (b >= 1 && self.clicked(2 * a, b - 1))
            }
    }

    /// A cell is owned exactly when all four of its walls are clicked.
    pub open spec fn wf_owners(self) -> bool {
        forall|i: int, j: int|
            self.valid_cell(i, j) ==> ((#[trigger] self.cells[i][j]).owner.is_some()
                <==> self.cells[i][j].counter == 4)
    }

    /// The stored points equal the number of cells each player owns;
    /// the stored winner is only computed on demand.
    pub open spec fn wf_stats(self) -> bool {
        &&& self.statistics.player1_points == owned_count(self.cells, Player::Player1)
        &&& self.statistics.player2_points == owned_count(self.cells, Player::Player2)
        &&& self.statistics.cpu_points == owned_count(self.cells, Player::CPU)
        &&& self.statistics.winner is None
    }

    /// Full well-formedness: every reachable board satisfies this.
    pub open spec fn wf(self) -> bool {
        &&& self.wf_shape()
        &&& self.wf_counters()
        &&& self.wf_joints()
        &&& self.wf_owners()
        &&& self.wf_stats()
    }

    /// Terminal condition: every wall is clicked.
    pub open spec fn all_clicked(self) -> bool {
        forall|r: int, c: int| self.valid_wall(r, c) ==> #[trigger] self.clicked(r, c)
    }

    /// Clicking wall `(r, c)` would bring cell `(i, j)` to four clicked
    /// walls, completing the box.
    pub open spec fn completes_cell(self, r: int, c: int, i: int, j: int) -> bool {
        &&& self.valid_cell(i, j)
        &&& self.wall_touches_cell(r, c, i, j)
        &&& self.cells[i][j].counter == 3
    }

    /// Clicking wall `(r, c)` completes at least one box, which earns
    /// the mover another turn.
    pub open spec fn completes_any(self, r: int, c: int) -> bool {
        exists|i: int, j: int| self.completes_cell(r, c, i, j)
    }

    /// How many boxes (0, 1 or 2) clicking wall `(r, c)` completes.
    pub open spec fn completed_delta(self, r: int, c: int) -> int {
        let s = self.expected_cells(r, c);
        (if self.completes_cell(r, c, s[0].0 as int, s[0].1 as int) {
            1int
        } else {
            0int
        }) + (if s.len() > 1 && self.completes_cell(r, c, s[1].0 as int, s[1].1 as int) {
            1int
        } else {
            0int
        })
    }
}

/// The authoritative game state: grids of cells, walls and joints,
/// plus the running scores.
#[derive(Debug)]
pub struct Board {
    pub width: usize,
    pub height: usize,
    pub cells: Vec<Vec<Cell>>,
    pub joints: Vec<Vec<Joint>>,
    pub walls: Vec<Vec<Wall>>,
    pub statistics: GameStatistics,
}

impl View for Board {
    type V = BoardV;

    open spec fn view(&self) -> BoardV {
        BoardV {
            width: self.width as int,
            height: self.height as int,
            cells: self.cells@.map_values(|row: Vec<Cell>| row@),
            joints: self.joints@.map_values(|row: Vec<Joint>| row@),
            walls: self.walls@.map_values(|row: Vec<Wall>| row@.map_values(|w: Wall| w@)),
            statistics: self.statistics,
        }
    }
}

/// Copy one row of cells.
fn clone_cell_row(v: &Vec<Cell>) -> (r: Vec<Cell>)
    ensures
        r@ == v@,
{
    let mut r: Vec<Cell> = Vec::new();
    let mut i: usize = 0;
    while i < v.len()
        invariant
            i <= v@.len(),
            r@ == v@.subrange(0, i as int),
        decreases v@.len() - i,
    {
        r.push(v[i]);
        i = i + 1;
        proof {
            assert(r@ =~= v@.subrange(0, i as int));
        }
    }
    proof {
        assert(r@ =~= v@);
    }
    r
}

/// Copy the grid of cells.
fn clone_cell_grid(v: &Vec<Vec<Cell>>) -> (r: Vec<Vec<Cell>>)
    ensures
        r@.len() == v@.len(),
        forall|i: int| 0 <= i < v@.len() ==> (#[trigger] r@[i])@ == v@[i]@,
{
    let mut r: Vec<Vec<Cell>> = Vec::new();
    let mut i: usize = 0;
    while i < v.len()
        invariant
            i <= v@.len(),
            r@.len() == i,
            forall|k: int| 0 <= k < i as int ==> (#[trigger] r@[k])@ == v@[k]@,
        decreases v@.len() - i,
    {
        r.push(clone_cell_row(&v[i]));
        i = i + 1;
    }
    r
}

/// Copy one row of joints.
fn clone_joint_row(v: &Vec<Joint>) -> (r: Vec<Joint>)
    ensures
        r@ == v@,
{
    let mut r: Vec<Joint> = Vec::new();
    let mut i: usize = 0;
    while i < v.len()
        invariant
            i <= v@.len(),
            r@ == v@.subrange(0, i as int),
        decreases v@.len() - i,
    {
        r.push(v[i]);
        i = i + 1;
        proof {
            assert(r@ =~= v@.subrange(0, i as int));
        }
    }
    proof {
        assert(r@ =~= v@);
    }
    r
}

/// Copy the grid of joints.
fn clone_joint_grid(v: &Vec<Vec<Joint>>) -> (r: Vec<Vec<Joint>>)
    ensures
        r@.len() == v@.len(),
        forall|i: int| 0 <= i < v@.len() ==> (#[trigger] r@[i])@ == v@[i]@,
{
    let mut r: Vec<Vec<Joint>> = Vec::new();
    let mut i: usize = 0;
    while i < v.len()
        invariant
            i <= v@.len(),
            r@.len() == i,
            forall|k: int| 0 <= k < i as int ==> (#[trigger] r@[k])@ == v@[k]@,
        decreases v@.len() - i,
    {
        r.push(clone_joint_row(&v[i]));
        i = i + 1;
    }
    r
}

/// Copy one row of walls, value by value.
fn clone_wall_row(v: &Vec<Wall>) -> (r: Vec<Wall>)
    ensures
        r@.len() == v@.len(),
        forall|i: int| 0 <= i < v@.len() ==> (#[trigger] r@[i])@ == v@[i]@,
{
    let mut r: Vec<Wall> = Vec::new();
    let mut i: usize = 0;
    while i < v.len()
        invariant
            i <= v@.len(),
            r@.len() == i,
            forall|k: int| 0 <= k < i as int ==> (#[trigger] r@[k])@ == v@[k]@,
        decreases v@.len() - i,
    {
        r.push(v[i].clone());
        i = i + 1;
    }
    r
}

/// Copy the grid of walls.
fn clone_wall_grid(v: &Vec<Vec<Wall>>) -> (r: Vec<Vec<Wall>>)
    ensures
        r@.len() == v@.len(),
        forall|i: int| 0 <= i < v@.len() ==> (#[trigger] r@[i])@.len() == v@[i]@.len(),
        forall|i: int, j: int|
            0 <= i < v@.len() && 0 <= j < v@[i]@.len() ==> #[trigger] r@[i]@[j]@ == v@[i]@[j]@,
{
    let mut r: Vec<Vec<Wall>> = Vec::new();
    let mut i: usize = 0;
    while i < v.len()
        invariant
            i <= v@.len(),
            r@.len() == i,
            forall|k: int| 0 <= k < i as int ==> (#[trigger] r@[k])@.len() == v@[k]@.len(),
            forall|k: int, j: int|
                0 <= k < i as int && 0 <= j < v@[k]@.len() ==> #[trigger] r@[k]@[j]@
                    == v@[k]@[j]@,
        decreases v@.len() - i,
    {
        r.push(clone_wall_row(&v[i]));
        i = i + 1;
    }
    r
}

impl Clone for Board {
    /// A full independent copy; search branches clone the board so
    /// that no two branches share mutable state.
    fn clone(&self) -> (r: Self)
        ensures
            r@ == self@,
    {
        let r = Board {
            width: self.width,
            height: self.height,
            cells: clone_cell_grid(&self.cells),
            joints: clone_joint_grid(&self.joints),
            walls: clone_wall_grid(&self.walls),
            statistics: self.statistics.clone(),
        };
        proof {
            assert(r@.cells =~~= self@.cells);
            assert(r@.joints =~~= self@.joints);
            assert(r@.walls =~~= self@.walls);
        }
        r
    }
}

/// The six glyphs of one horizontal wall column: a separating space
/// and five `X`s (clicked) or dashes (not clicked).
pub open spec fn hwall_glyphs(clicked: bool) -> Seq<char> {
    if clicked {
        " XXXXX"@
    } else {
        " -----"@
    }
}

/// The glyph of one vertical wall: `X` clicked, `|` not.
pub open spec fn vwall_glyph(clicked: bool) -> Seq<char> {
    if clicked {
        "X"@
    } else {
        "|"@
    }
}

/// The five glyphs of one cell: the owner's letter or spaces.
pub open spec fn cell_glyphs(owner: Option<Player>) -> Seq<char> {
    match owner {
        Some(Player::Player1) => "AAAAA"@,
        Some(Player::Player2) => "BBBBB"@,
        Some(Player::CPU) => "CCCCC"@,
        None => "     "@,
    }
}

/// The first `n` columns of the line for horizontal wall row `r`.
pub open spec fn hline_prefix(v: BoardV, r: int, n: int) -> Seq<char>
    decreases n,
{
    if n <= 0 {
        Seq::<char>::empty()
    } else {
        hline_prefix(v, r, n - 1) + hwall_glyphs(v.clicked(r, n - 1))
    }
}

/// One column of a vertical line: the wall glyph and, inside the
/// board, the glyphs of the cell to its right.
pub open spec fn vline_seg(v: BoardV, r: int, c: int) -> Seq<char> {
    vwall_glyph(v.clicked(r, c)) + (if c < v.width {
        cell_glyphs(v.cells[r / 2][c].owner)
    } else {
        Seq::<char>::empty()
    })
}

/// The first `n` columns of one line for vertical wall row `r`.
pub open spec fn vline_prefix(v: BoardV, r: int, n: int) -> Seq<char>
    decreases n,
{
    if n <= 0 {
        Seq::<char>::empty()
    } else {
        vline_prefix(v, r, n - 1) + vline_seg(v, r, n - 1)
    }
}

/// The first `k` of the five identical lines for vertical wall row `r`.
pub open spec fn vblock_prefix(v: BoardV, r: int, k: int) -> Seq<char>
    decreases k,
{
    if k <= 0 {
        Seq::<char>::empty()
    } else {
        vblock_prefix(v, r, k - 1) + vline_prefix(v, r, v.width + 1) + "\n"@
    }
}

/// The text of one wall row: one glyph line for a horizontal row,
/// five identical lines for a vertical row.
pub open spec fn row_text(v: BoardV, r: int) -> Seq<char> {
    if r % 2 == 0 {
        hline_prefix(v, r, v.width) + "\n"@
    } else {
        vblock_prefix(v, r, REPEAT_COUNT as int)
    }
}

/// The text of the first `n` wall rows.
pub open spec fn text_prefix(v: BoardV, n: int) -> Seq<char>
    decreases n,
{
    if n <= 0 {
        Seq::<char>::empty()
    } else {
        text_prefix(v, n - 1) + row_text(v, n - 1)
    }
}

/// The full text dump of a board: the glyph grid of spec-fixed shape,
/// one newline-terminated line per horizontal wall row and five per
/// vertical wall row.
pub open spec fn text_spec(v: BoardV) -> Seq<char> {
    text_prefix(v, 2 * v.height + 1)
}

impl Board {
    /// The text dump of the board, exactly [`text_spec`]: one line of
    /// run-length glyphs per horizontal wall row (`XXXXX` clicked,
    /// `-----` not), five identical lines per vertical wall row (`X`
    /// clicked, `|` not), and five owner letters (`A`, `B`, `C`) or
    /// spaces per cell.
    #[verifier::rlimit(100)]
    pub fn to_text(&self) -> (r: String)
        requires
            self.wf(),
        ensures
            r@ == text_spec(self@),
    {
        let ghost v = self@;
        let mut s = String::new();
        let mut row: usize = 0;
        while row < 2 * self.height + 1
            invariant
                self.wf(),
                v == self@,
                row <= 2 * self@.height + 1,
                s@ == text_prefix(v, row as int),
            decreases 2 * self@.height + 1 - row,
        {
            proof {
                assert(self.walls@.len() == v.walls.len());
                assert(self.walls@[row as int]@.len() == v.walls[row as int].len());
            }
            if row % 2 == 0 {
                let mut col: usize = 0;
                while col < self.width
                    invariant
                        self.wf(),
                        v == self@,
                        row < 2 * self@.height + 1,
                        row % 2 == 0,
                        col <= self@.width,
                        s@ == text_prefix(v, row as int) + hline_prefix(
                            v,
                            row as int,
                            col as int,
                        ),
                    decreases self@.width - col,
                {
                    proof {
                        assert(self.walls@.len() == v.walls.len());
                        assert(self.walls@[row as int]@.len() == v.walls[row as int].len());
                        assert(self.walls@[row as int]@[col as int]@ == v.walls[row as int][col
                            as int]);
                    }
                    if self.walls[row][col].is_clicked {
                        s.append(" XXXXX");
                    } else {
                        s.append(" -----");
                    }
                    col = col + 1;
                    proof {
                        assert(s@ =~= text_prefix(v, row as int) + hline_prefix(
                            v,
                            row as int,
                            col as int,
                        ));
                    }
                }
                s.append("\n");
                proof {
                    assert(s@ =~= text_prefix(v, row as int + 1));
                }
            } else {
                let mut repeat: usize = 0;
                while repeat < REPEAT_COUNT
                    invariant
                        self.wf(),
                        v == self@,
                        row < 2 * self@.height + 1,
                        row % 2 == 1,
                        repeat <= REPEAT_COUNT,
                        s@ == text_prefix(v, row as int) + vblock_prefix(
                            v,
                            row as int,
                            repeat as int,
                        ),
                    decreases REPEAT_COUNT - repeat,
                {
                    let mut col: usize = 0;
                    while col < self.width + 1
                        invariant
                            self.wf(),
                            v == self@,
                            row < 2 * self@.height + 1,
                            row % 2 == 1,
                            repeat < REPEAT_COUNT,
                            col <= self@.width + 1,
                            s@ == text_prefix(v, row as int) + vblock_prefix(
                                v,
                                row as int,
                                repeat as int,
                            ) + vline_prefix(v, row as int, col as int),
                        decreases self@.width + 1 - col,
                    {
                        proof {
                            assert(self.walls@.len() == v.walls.len());
                            assert(self.walls@[row as int]@.len() == v.walls[row as int].len());
                            assert(self.walls@[row as int]@[col as int]@ == v.walls[row as int][col
                                as int]);
                            assert(self.cells@.len() == v.cells.len());
                            if col < self.width {
                                assert(self.cells@[row as int / 2]@.len() == v.cells[row as int
                                    / 2].len());
                                assert(self.cells@[row as int / 2]@[col as int] == v.cells[row
                                    as int / 2][col as int]);
                            }
                        }
                        if self.walls[row][col].is_clicked {
                            s.append("X");
                        } else {
                            s.append("|");
                        }
                        if col < self.width {
                            match self.cells[row / 2][col].owner {
                                Some(Player::Player1) => s.append("AAAAA"),
                                Some(Player::Player2) => s.append("BBBBB"),
                                Some(Player::CPU) => s.append("CCCCC"),
                                None => s.append("     "),
                            }
                        }
                        col = col + 1;
                        proof {
                            assert(s@ =~= text_prefix(v, row as int) + vblock_prefix(
                                v,
                                row as int,
                                repeat as int,
                            ) + vline_prefix(v, row as int, col as int));
                        }
                    }
                    s.append("\n");
                    repeat = repeat + 1;
                    proof {
                        assert(s@ =~= text_prefix(v, row as int) + vblock_prefix(
                            v,
                            row as int,
                            repeat as int,
                        ));
                    }
                }
                proof {
                    assert(s@ =~= text_prefix(v, row as int + 1));
                }
            }
            row = row + 1;
        }
        s
    }
}

/// True when the five bytes starting at `base` all equal `glyph`.
fn run_of(line: &Vec<u8>, base: usize, glyph: u8) -> (r: bool)
    requires
        base + REPEAT_COUNT <= line@.len(),
{
    let n = line.len();
    let mut k: usize = 0;
    let mut all: bool = true;
    while k < REPEAT_COUNT
        invariant
            n == line@.len(),
            base + REPEAT_COUNT <= n,
            k <= REPEAT_COUNT,
        decreases REPEAT_COUNT - k,
    {
        if line[base + k] != glyph {
            all = false;
        }
        k = k + 1;
    }
    all
}

impl Board {
    /// Decode a text dump produced by [`Board::to_text`].
    ///
    /// The board size is read off the line shape, the clicked walls
    /// are replayed in scan order to rebuild the counters and joint
    /// flags, the owner letters are applied with their points, and the
    /// result is checked to be a state that play can reach and to
    /// re-encode to the input (with its trailing newline restored if
    /// the input lacked one); any malformed shape or unreachable state
    /// is rejected.
    #[verifier::rlimit(100)]
    pub fn from_text(text: &str) -> (r: Result<Board, ParseError>)
        ensures
            r matches Ok(b) ==> b.wf() && (text@ == text_spec(b@) || text@ + "\n"@ == text_spec(
                b@,
            )),
            text@.len() == 0 <==> r == Err::<Board, ParseError>(ParseError::EmptyInput),
    {
        let bytes_slice = text.as_bytes();
        let mut bytes: Vec<u8> = Vec::new();
        let mut bi: usize = 0;
        while bi < bytes_slice.len()
            invariant
                bi <= bytes_slice@.len(),
                bytes@ == bytes_slice@.subrange(0, bi as int),
            decreases bytes_slice@.len() - bi,
        {
            bytes.push(bytes_slice[bi]);
            bi = bi + 1;
            proof {
                assert(bytes@ =~= bytes_slice@.subrange(0, bi as int));
            }
        }
        proof {
            assert(bytes@ =~= bytes_slice@);
        }
        if bytes.len() == 0 {
            proof {
                assert(text@.len() == 0) by {
                    if text@.len() > 0 {
                        assert(vstd::utf8::encode_utf8(text@).len() > 0);
                    }
                }
            }
            return Err(ParseError::EmptyInput);
        }
        proof {
            assert(text@.len() != 0) by {
                if text@.len() == 0 {
                    assert(vstd::utf8::encode_utf8(text@) =~= Seq::<u8>::empty());
                }
            }
        }

        // Cut the text into lines and keep, of every block of six, the
        // horizontal line and the first of the five vertical copies.
        let mut rows: Vec<Vec<u8>> = Vec::new();
        let mut line: Vec<u8> = Vec::new();
        let mut line_idx: usize = 0;
        let mut i: usize = 0;
        while i < bytes.len()
            invariant
                i <= bytes@.len(),
                line_idx <= i,
            decreases bytes@.len() - i,
        {
            let b = bytes[i];
            if b == 10 {
                if line_idx % 6 < 2 {
                    rows.push(line);
                } else {
                    let _ = line;
                }
                line = Vec::new();
                if line_idx < usize::MAX {
                    line_idx = line_idx + 1;
                }
            } else {
                line.push(b);
            }
            i = i + 1;
        }
        if line.len() > 0 && line_idx % 6 < 2 {
            rows.push(line);
        }

        // The shape determines the board size.
        if rows.len() < 3 || rows.len() % 2 == 0 {
            return Err(ParseError::BadShape);
        }
        let height = rows.len() / 2;
        let first_len = rows[0].len();
        if first_len == 0 || first_len % 6 != 0 {
            return Err(ParseError::BadShape);
        }
        let width = first_len / 6;
        if height > ((isize::MAX as usize) - 1) / 2 || width > (usize::MAX - 1) / 6 {
            return Err(ParseError::BadShape);
        }
        let cells_cap = usize::MAX / height;
        if width > cells_cap {
            return Err(ParseError::BadShape);
        }
        proof {
            vstd::arithmetic::div_mod::lemma_fundamental_div_mod(usize::MAX as int, height as int);
            vstd::arithmetic::div_mod::lemma_mod_bound(usize::MAX as int, height as int);
            assert(width * height <= usize::MAX) by (nonlinear_arith)
                requires
                    width as int <= cells_cap as int,
                    height as int >= 1,
                    usize::MAX as int == (height as int) * (cells_cap as int) + (usize::MAX as int
                        % height as int),
                    0 <= usize::MAX as int % height as int,
            ;
        }
        let mut r: usize = 0;
        while r < rows.len()
            invariant
                text@.len() != 0,
                width <= (usize::MAX - 1) / 6,
                rows@.len() == 2 * height + 1,
                r <= rows@.len(),
                forall|k: int|
                    0 <= k < r as int ==> (#[trigger] rows@[k])@.len() == (if k % 2 == 0 {
                        6 * width as int
                    } else {
                        6 * width + 1
                    }),
            decreases rows@.len() - r,
        {
            let expected = if r % 2 == 0 {
                6 * width
            } else {
                6 * width + 1
            };
            if rows[r].len() != expected {
                return Err(ParseError::BadShape);
            }
            r = r + 1;
        }

        let mut board = Board::new(width, height);

        // Replay the clicked walls in scan order.
        let mut wr: usize = 0;
        while wr < rows.len()
            invariant
                width <= (usize::MAX - 1) / 6,
                rows@.len() == 2 * height + 1,
                forall|k: int|
                    0 <= k < rows@.len() ==> (#[trigger] rows@[k])@.len() == (if k % 2 == 0 {
                        6 * width as int
                    } else {
                        6 * width + 1
                    }),
                wr <= rows@.len(),
                board@.wf_shape(),
                board@.wf_counters(),
                board@.wf_joints(),
                board@.width == width,
                board@.height == height,
                board.statistics == (GameStatistics {
                    player1_points: 0,
                    player2_points: 0,
                    cpu_points: 0,
                    winner: None,
                }),
                forall|x: int, y: int|
                    board@.valid_cell(x, y) ==> (#[trigger] board@.cells[x][y]).owner is None,
            decreases rows@.len() - wr,
        {
            let line = &rows[wr];
            let mut c: usize = 0;
            let row_walls = if wr % 2 == 0 {
                width
            } else {
                width + 1
            };
            while c < row_walls
                invariant
                    width <= (usize::MAX - 1) / 6,
                    rows@.len() == 2 * height + 1,
                    wr < rows@.len(),
                    row_walls == (if wr % 2 == 0 {
                        width as int
                    } else {
                        width + 1
                    }),
                    line == rows@[wr as int],
                    line@.len() == (if wr % 2 == 0 {
                        6 * width as int
                    } else {
                        6 * width + 1
                    }),
                    c <= row_walls,
                    board@.wf_shape(),
                    board@.wf_counters(),
                    board@.wf_joints(),
                    board@.width == width,
                    board@.height == height,
                    board.statistics == (GameStatistics {
                        player1_points: 0,
                        player2_points: 0,
                        cpu_points: 0,
                        winner: None,
                    }),
                    forall|x: int, y: int|
                        board@.valid_cell(x, y) ==> (#[trigger] board@.cells[x][y]).owner is None,
                decreases row_walls - c,
            {
                let clicked = if wr % 2 == 0 {
                    run_of(line, 6 * c + 1, 88)
                } else {
                    line[6 * c] == 88
                };
                if clicked {
                    proof {
                        assert(board@.valid_wall(wr as int, c as int));
                        assert(board.walls@.len() == board@.walls.len());
                        assert(board.walls@[wr as int]@.len() == board@.walls[wr as int].len());
                    }
                    if !board.walls[wr][c].is_clicked {
                        board.apply_wall_click(wr, c);
                    }
                }
                c = c + 1;
            }
            wr = wr + 1;
        }

        // Apply the owner letters with their points; reject letters on
        // boxes that are not closed.
        proof {
            lemma_row_owned_none_is_zero(board@.cells, Player::Player1);
            lemma_row_owned_none_is_zero(board@.cells, Player::Player2);
            lemma_row_owned_none_is_zero(board@.cells, Player::CPU);
        }
        let mut cb: usize = 0;
        while cb < height
            invariant
                width <= (usize::MAX - 1) / 6,
                rows@.len() == 2 * height + 1,
                forall|k: int|
                    0 <= k < rows@.len() ==> (#[trigger] rows@[k])@.len() == (if k % 2 == 0 {
                        6 * width as int
                    } else {
                        6 * width + 1
                    }),
                cb <= height,
                text@.len() != 0,
                board@.wf_shape(),
                board@.wf_counters(),
                board@.wf_joints(),
                board@.width == width,
                board@.height == height,
                board@.statistics.player1_points == owned_count(board@.cells, Player::Player1),
                board@.statistics.player2_points == owned_count(board@.cells, Player::Player2),
                board@.statistics.cpu_points == owned_count(board@.cells, Player::CPU),
                board@.statistics.winner is None,
            decreases height - cb,
        {
            let orow = 2 * cb + 1;
            let line = &rows[orow];
            let cell_row = cb;
            let mut c: usize = 0;
            while c < width
                invariant
                    text@.len() != 0,
                    width <= (usize::MAX - 1) / 6,
                    rows@.len() == 2 * height + 1,
                    cb < height,
                    orow == 2 * cb + 1,
                    cell_row == cb,
                    line == rows@[orow as int],
                    line@.len() == 6 * width + 1,
                    c <= width,
                    board@.wf_shape(),
                    board@.wf_counters(),
                    board@.wf_joints(),
                    board@.width == width,
                    board@.height == height,
                    board@.statistics.player1_points == owned_count(
                        board@.cells,
                        Player::Player1,
                    ),
                    board@.statistics.player2_points == owned_count(
                        board@.cells,
                        Player::Player2,
                    ),
                    board@.statistics.cpu_points == owned_count(board@.cells, Player::CPU),
                    board@.statistics.winner is None,
                decreases width - c,
            {
                let owner = if run_of(line, 6 * c + 1, 65) {
                    Some(Player::Player1)
                } else if run_of(line, 6 * c + 1, 66) {
                    Some(Player::Player2)
                } else if run_of(line, 6 * c + 1, 67) {
                    Some(Player::CPU)
                } else {
                    None
                };
                if let Some(player) = owner {
                    proof {
                        assert(board@.valid_cell(cell_row as int, c as int));
                        assert(board.cells@.len() == board@.cells.len());
                        assert(board.cells@[cell_row as int]@.len() == board@.cells[cell_row
                            as int].len());
                    }
                    if board.cells[cell_row][c].counter != 4 {
                        return Err(ParseError::InvalidState);
                    }
                    if board.cells[cell_row][c].owner.is_some() {
                        return Err(ParseError::InvalidState);
                    }
                    board.set_owner_and_score(cell_row, c, player);
                }
                c = c + 1;
            }
            cb = cb + 1;
        }

        // The dump must describe a reachable state: a box is owned
        // exactly when it is closed.
        let mut vi: usize = 0;
        while vi < height
            invariant
                text@.len() != 0,
                vi <= height,
                board@.wf_shape(),
                board@.wf_counters(),
                board@.wf_joints(),
                board@.width == width,
                board@.height == height,
                board@.statistics.player1_points == owned_count(board@.cells, Player::Player1),
                board@.statistics.player2_points == owned_count(board@.cells, Player::Player2),
                board@.statistics.cpu_points == owned_count(board@.cells, Player::CPU),
                board@.statistics.winner is None,
                forall|x: int, y: int|
                    board@.valid_cell(x, y) && x < vi as int ==> ((
                    #[trigger] board@.cells[x][y]).owner.is_some() <==> board@.cells[x][y].counter
                        == 4),
            decreases height - vi,
        {
            let mut vj: usize = 0;
            while vj < width
                invariant
                    text@.len() != 0,
                    vi < height,
                    vj <= width,
                    board@.wf_shape(),
                    board@.wf_counters(),
                    board@.wf_joints(),
                    board@.width == width,
                    board@.height == height,
                    board@.statistics.player1_points == owned_count(
                        board@.cells,
                        Player::Player1,
                    ),
                    board@.statistics.player2_points == owned_count(
                        board@.cells,
                        Player::Player2,
                    ),
                    board@.statistics.cpu_points == owned_count(board@.cells, Player::CPU),
                    board@.statistics.winner is None,
                    forall|x: int, y: int|
                        board@.valid_cell(x, y) && x < vi as int ==> ((
                        #[trigger] board@.cells[x][y]).owner.is_some()
                            <==> board@.cells[x][y].counter == 4),
                    forall|y: int|
                        0 <= y < vj as int ==> ((
                        #[trigger] board@.cells[vi as int][y]).owner.is_some()
                            <==> board@.cells[vi as int][y].counter == 4),
                decreases width - vj,
            {
                proof {
                    assert(board@.valid_cell(vi as int, vj as int));
                    assert(board.cells@.len() == board@.cells.len());
                    assert(board.cells@[vi as int]@.len() == board@.cells[vi as int].len());
                    assert(board.cells@[vi as int]@[vj as int] == board@.cells[vi as int][vj
                        as int]);
                }
                let cell = &board.cells[vi][vj];
                if cell.owner.is_some() != (cell.counter == 4) {
                    return Err(ParseError::InvalidState);
                }
                vj = vj + 1;
            }
            vi = vi + 1;
        }
        proof {
            assert(board.wf());
        }

        // The dump must re-encode to the input, so a successful decode
        // and the encoder agree glyph for glyph.
        let out = board.to_text();
        let owned = text.to_owned();
        let mut with_newline = text.to_owned();
        with_newline.append("\n");
        if out == owned || out == with_newline {
            Ok(board)
        } else {
            Err(ParseError::BadShape)
        }
    }
}

/// The winner under the one-human-versus-CPU rule: `Player2` wins
/// outright when ahead of `Player1`; otherwise `Player1` and the CPU
/// are compared, a tie between them standing as no winner.
pub open spec fn winner_spec(p1: int, p2: int, cpu: int) -> Option<Player> {
    if p1 < p2 {
        Some(Player::Player2)
    } else if p1 > cpu {
        Some(Player::Player1)
    } else if p1 < cpu {
        Some(Player::CPU)
    } else {
        None
    }
}

/// Compare `Player1`'s points against the CPU's: the larger side wins,
/// a tie stands.
pub fn compare_with_cpu(player1_points: usize, cpu_points: usize) -> (r: Option<Player>)
    ensures
        player1_points > cpu_points ==> r == Some(Player::Player1),
        player1_points < cpu_points ==> r == Some(Player::CPU),
        player1_points == cpu_points ==> r is None,
{
    if player1_points > cpu_points {
        Some(Player::Player1)
    } else if player1_points < cpu_points {
        Some(Player::CPU)
    } else {
        None
    }
}

/// Why a text dump could not be decoded into a board.
#[derive(Clone, Copy, Debug, PartialEq, Eq, Structural)]
pub enum ParseError {
    /// The input string is empty.
    EmptyInput,
    /// The lines do not form the glyph grid of any board size.
    BadShape,
    /// The glyphs describe a state no play can reach, such as an
    /// owner on a box that is not closed.
    InvalidState,
}

/// How often each logical glyph column is repeated in the text dump.
pub const REPEAT_COUNT: usize = 5;

/// The four bits of a joint mask as a string of `0`s and `1`s, north
/// first (8), then east (4), south (2) and west (1).
pub open spec fn bit_mask_spec(n: int) -> Seq<char> {
    (if (n / 8) % 2 == 1 {
        "1"@
    } else {
        "0"@
    }) + (if (n / 4) % 2 == 1 {
        "1"@
    } else {
        "0"@
    }) + (if (n / 2) % 2 == 1 {
        "1"@
    } else {
        "0"@
    }) + (if n % 2 == 1 {
        "1"@
    } else {
        "0"@
    })
}

/// Render a joint mask as four binary digits, used to pick the sprite
/// file for a crossroads tile.
pub fn get_bit_mask(n: usize) -> (r: String)
    ensures
        r@ == bit_mask_spec(n as int),
{
    let mut s = String::new();
    if (n / 8) % 2 == 1 {
        s.append("1");
    } else {
        s.append("0");
    }
    if (n / 4) % 2 == 1 {
        s.append("1");
    } else {
        s.append("0");
    }
    if (n / 2) % 2 == 1 {
        s.append("1");
    } else {
        s.append("0");
    }
    if n % 2 == 1 {
        s.append("1");
    } else {
        s.append("0");
    }
    s
}

/// Clip a candidate cell coordinate to the board: `Some` exactly when
/// it lies inside the `width` by `height` grid.
pub fn check_coordinates(width: isize, height: isize, row: isize, col: isize) -> (r: Option<
    (usize, usize),
>)
    ensures
        r is Some <==> (0 <= row < height && 0 <= col < width),
        r is Some ==> r == Some((row as usize, col as usize)),
{
    if 0 <= row && row < height && 0 <= col && col < width {
        return Some((row as usize, col as usize));
    }
    None
}

/// Build the wall at `(row, col)` with its adjacency lists.
#[verifier::loop_isolation(false)]
fn make_wall(width: usize, height: usize, row: usize, col: usize) -> (r: Wall)
    requires
        1 <= width <= isize::MAX,
        1 <= height,
        2 * height + 1 <= isize::MAX,
        row <= 2 * height,
        col < (if row % 2 == 0 {
            width as int
        } else {
            width + 1
        }),
    ensures
        r@.id == (row, col),
        !r@.is_clicked,
        r@.adjacent_cells == wall_cells_spec(width as int, height as int, row as int, col as int),
        r@.adjacent_joints == wall_joints_spec(row as int, col as int),
{
    let w = width as isize;
    let h = height as isize;
    let half = row / 2;
    let wall = Wall::new(row, col);
    let mut adjacent_cells: Vec<(usize, usize)> = Vec::new();
    if row % 2 == 0 {
        if let Some(id) = check_coordinates(w, h, half as isize - 1, col as isize) {
            adjacent_cells.push(id);
        }
        if let Some(id) = check_coordinates(w, h, half as isize, col as isize) {
            adjacent_cells.push(id);
        }
        proof {
            assert(adjacent_cells@ =~= wall_cells_spec(
                width as int,
                height as int,
                row as int,
                col as int,
            ));
        }
        let wall = wall.adjacent_to(adjacent_cells.as_slice()).with_joint(
            Direction::East,
            half,
            col,
        ).with_joint(Direction::West, half, col + 1);
        proof {
            assert(wall@.adjacent_joints =~= wall_joints_spec(row as int, col as int));
        }
        wall
    } else {
        if let Some(id) = check_coordinates(w, h, half as isize, col as isize - 1) {
            adjacent_cells.push(id);
        }
        if let Some(id) = check_coordinates(w, h, half as isize, col as isize) {
            adjacent_cells.push(id);
        }
        proof {
            assert(adjacent_cells@ =~= wall_cells_spec(
                width as int,
                height as int,
                row as int,
                col as int,
            ));
        }
        let wall = wall.adjacent_to(adjacent_cells.as_slice()).with_joint(
            Direction::South,
            half,
            col,
        ).with_joint(Direction::North, half + 1, col);
        proof {
            assert(wall@.adjacent_joints =~= wall_joints_spec(row as int, col as int));
        }
        wall
    }
}

impl Board {
    /// Abbreviation for the well-formedness of the abstract value.
    pub open spec fn wf(&self) -> bool {
        self@.wf()
    }

    /// Mark one unclicked wall as clicked and raise the counters of
    /// its one or two adjacent cells.
    #[verifier::rlimit(60)]
    fn click_flag_and_counters(&mut self, row: usize, col: usize)
        requires
            old(self)@.wf_shape(),
            old(self)@.wf_counters(),
            old(self)@.valid_wall(row as int, col as int),
            !old(self)@.clicked(row as int, col as int),
        ensures
            final(self).width == old(self).width,
            final(self).height == old(self).height,
            final(self).joints == old(self).joints,
            final(self).statistics == old(self).statistics,
            final(self)@.walls.len() == old(self)@.walls.len(),
            forall|r2: int|
                0 <= r2 < old(self)@.walls.len() ==> (#[trigger] final(self)@.walls[r2]).len()
                    == old(self)@.walls[r2].len(),
            forall|r2: int, c2: int|
                old(self)@.valid_wall(r2, c2) && !(r2 == row as int && c2 == col as int)
                    ==> #[trigger] final(self)@.walls[r2][c2] == old(self)@.walls[r2][c2],
            final(self)@.walls[row as int][col as int] == (WallV {
                is_clicked: true,
                ..old(self)@.walls[row as int][col as int]
            }),
            final(self)@.cells.len() == old(self)@.cells.len(),
            forall|i: int|
                0 <= i < old(self)@.cells.len() ==> (#[trigger] final(self)@.cells[i]).len()
                    == old(self)@.cells[i].len(),
            forall|i: int, j: int|
                old(self)@.valid_cell(i, j) ==> #[trigger] final(self)@.cells[i][j] == (Cell {
                    counter: (old(self)@.cells[i][j].counter + (if old(
                        self,
                    )@.wall_touches_cell(row as int, col as int, i, j) {
                        1int
                    } else {
                        0int
                    })) as usize,
                    ..old(self)@.cells[i][j]
                }),
    {
        let ghost v0 = self@;
        proof {
            lemma_expected_cells_valid(v0, row as int, col as int);
        }
        let adj = copy_coords(&self.walls[row][col].adjacent_cells);
        self.walls[row][col].is_clicked = true;
        proof {
            let v1 = self@;
            assert(forall|r2: int, c2: int|
                v0.valid_wall(r2, c2) && !(r2 == row as int && c2 == col as int)
                    ==> #[trigger] v1.walls[r2][c2] == v0.walls[r2][c2]);
            assert(v1.walls[row as int][col as int] == (WallV {
                is_clicked: true,
                ..v0.walls[row as int][col as int]
            }));
            assert(v1.cells =~~= v0.cells);
        }

        // A wall bounds one or two cells and they are distinct, so each
        // of their counters rises by exactly one.
        let (ci0, cj0) = adj[0];
        proof {
            assert(adj@[0] == v0.expected_cells(row as int, col as int)[0]);
            assert(v0.cells[ci0 as int][cj0 as int].counter <= 3) by {
                assert(v0.wall_touches_cell(row as int, col as int, ci0 as int, cj0 as int));
            }
        }
        self.cells[ci0][cj0].counter = self.cells[ci0][cj0].counter + 1;
        if adj.len() > 1 {
            let (ci1, cj1) = adj[1];
            proof {
                assert(adj@[1] == v0.expected_cells(row as int, col as int)[1]);
                assert(v0.wall_touches_cell(row as int, col as int, ci1 as int, cj1 as int));
                assert((ci1, cj1) != (ci0, cj0));
                assert(self@.cells[ci1 as int][cj1 as int] == v0.cells[ci1 as int][cj1 as int]);
                assert(v0.cells[ci1 as int][cj1 as int].counter <= 3);
            }
            self.cells[ci1][cj1].counter = self.cells[ci1][cj1].counter + 1;
        }
        proof {
            lemma_cells_bump_characterization(v0, self@.cells, row as int, col as int);
        }
    }

    /// Raise the flags of the two joints at the ends of wall
    /// `(row, col)`, each on the side the wall covers.
    #[verifier::rlimit(60)]
    fn click_joints(&mut self, row: usize, col: usize)
        requires
            old(self)@.wf_shape(),
            old(self)@.valid_wall(row as int, col as int),
        ensures
            final(self).width == old(self).width,
            final(self).height == old(self).height,
            final(self).cells == old(self).cells,
            final(self).walls == old(self).walls,
            final(self).statistics == old(self).statistics,
            final(self)@.joints.len() == old(self)@.joints.len(),
            forall|a: int|
                0 <= a < old(self)@.joints.len() ==> (#[trigger] final(self)@.joints[a]).len()
                    == old(self)@.joints[a].len(),
            ({
                let j0 = wall_joints_spec(row as int, col as int)[0];
                let j1 = wall_joints_spec(row as int, col as int)[1];
                &&& forall|a: int, b: int|
                    old(self)@.valid_joint(a, b) && !(a == j0.1 as int && b == j0.2 as int) && !(a
                        == j1.1 as int && b == j1.2 as int) ==> #[trigger] final(self)@.joints[a][b]
                        == old(self)@.joints[a][b]
                &&& final(self)@.joints[j0.1 as int][j0.2 as int] == joint_with_flag(
                    old(self)@.joints[j0.1 as int][j0.2 as int],
                    j0.0,
                )
                &&& final(self)@.joints[j1.1 as int][j1.2 as int] == joint_with_flag(
                    old(self)@.joints[j1.1 as int][j1.2 as int],
                    j1.0,
                )
            }),
    {
        let ghost v0 = self@;
        proof {
            assert(v0.wf_dims());
            assert(self.walls@.len() == v0.walls.len());
            assert(self.walls@[row as int]@.len() == v0.walls[row as int].len());
            assert(self.walls@[row as int]@[col as int]@ == v0.walls[row as int][col as int]);
        }
        let joint_list = copy_joint_refs(&self.walls[row][col].adjacent_joints);
        proof {
            assert(joint_list@ == wall_joints_spec(row as int, col as int));
        }
        let (d0, a0, b0) = joint_list[0];
        let (d1, a1, b1) = joint_list[1];
        proof {
            assert(self.joints@.len() == v0.joints.len());
            assert(forall|a: int|
                0 <= a < v0.joints.len() ==> (#[trigger] self.joints@[a])@.len()
                    == v0.joints[a].len());
            assert(v0.valid_joint(a0 as int, b0 as int));
            assert(v0.valid_joint(a1 as int, b1 as int));
            assert((a0, b0) != (a1, b1));
        }
        self.joints[a0][b0].set_wall_clicked(d0);
        self.joints[a1][b1].set_wall_clicked(d1);
    }

    /// Give cell `(i, j)` to `player` and credit the point.
    #[verifier::rlimit(60)]
    fn set_owner_and_score(&mut self, i: usize, j: usize, player: Player)
        requires
            old(self)@.wf_dims(),
            old(self)@.valid_cell(i as int, j as int),
            old(self)@.cells[i as int][j as int].owner is None,
            old(self)@.statistics.player1_points == owned_count(old(self)@.cells, Player::Player1),
            old(self)@.statistics.player2_points == owned_count(old(self)@.cells, Player::Player2),
            old(self)@.statistics.cpu_points == owned_count(old(self)@.cells, Player::CPU),
        ensures
            final(self).width == old(self).width,
            final(self).height == old(self).height,
            final(self).walls == old(self).walls,
            final(self).joints == old(self).joints,
            final(self)@.cells.len() == old(self)@.cells.len(),
            forall|x: int|
                0 <= x < old(self)@.cells.len() ==> (#[trigger] final(self)@.cells[x]).len()
                    == old(self)@.cells[x].len(),
            forall|x: int, y: int|
                old(self)@.valid_cell(x, y) && !(x == i as int && y == j as int)
                    ==> #[trigger] final(self)@.cells[x][y] == old(self)@.cells[x][y],
            final(self)@.cells[i as int][j as int] == (Cell {
                owner: Some(player),
                ..old(self)@.cells[i as int][j as int]
            }),
            final(self)@.statistics.player1_points == owned_count(
                final(self)@.cells,
                Player::Player1,
            ),
            final(self)@.statistics.player2_points == owned_count(
                final(self)@.cells,
                Player::Player2,
            ),
            final(self)@.statistics.cpu_points == owned_count(final(self)@.cells, Player::CPU),
            final(self)@.statistics.winner == old(self)@.statistics.winner,
            final(self)@.statistics.player1_points == old(self)@.statistics.player1_points + (
            if player == Player::Player1 {
                1int
            } else {
                0int
            }),
            final(self)@.statistics.player2_points == old(self)@.statistics.player2_points + (
            if player == Player::Player2 {
                1int
            } else {
                0int
            }),
            final(self)@.statistics.cpu_points == old(self)@.statistics.cpu_points + (
            if player == Player::CPU {
                1int
            } else {
                0int
            }),
    {
        let ghost v0 = self@;
        proof {
            assert(self.cells@.len() == v0.cells.len());
            assert(forall|x: int|
                0 <= x < v0.cells.len() ==> (#[trigger] self.cells@[x])@.len()
                    == v0.cells[x].len());
        }
        self.cells[i][j].owner = Some(player);
        proof {
            let vf = self@;
            let old_row = v0.cells[i as int];
            let new_cell = Cell { owner: Some(player), ..v0.cells[i as int][j as int] };
            let new_row = old_row.update(j as int, new_cell);
            assert(vf.cells =~~= v0.cells.update(i as int, new_row));
            lemma_owned_update(v0.cells, i as int, new_row, Player::Player1);
            lemma_owned_update(v0.cells, i as int, new_row, Player::Player2);
            lemma_owned_update(v0.cells, i as int, new_row, Player::CPU);
            lemma_row_owned_update(old_row, j as int, new_cell, Player::Player1);
            lemma_row_owned_update(old_row, j as int, new_cell, Player::Player2);
            lemma_row_owned_update(old_row, j as int, new_cell, Player::CPU);
            lemma_owned_le(vf.cells, v0.width, Player::Player1);
            lemma_owned_le(vf.cells, v0.width, Player::Player2);
            lemma_owned_le(vf.cells, v0.width, Player::CPU);
            assert(v0.cells.len() * v0.width == v0.height * v0.width) by (nonlinear_arith)
                requires
                    v0.cells.len() == v0.height,
            ;
            assert(v0.height * v0.width == v0.width * v0.height) by (nonlinear_arith);
        }
        match player {
            Player::Player1 => {
                self.statistics.player1_points = self.statistics.player1_points + 1;
            },
            Player::Player2 => {
                self.statistics.player2_points = self.statistics.player2_points + 1;
            },
            Player::CPU => {
                self.statistics.cpu_points = self.statistics.cpu_points + 1;
            },
        }
    }

    /// Mark one unclicked wall as clicked and propagate the change to
    /// the counters of its adjacent cells and the flags of its two
    /// joints.  Ownership and scores are settled by the caller.
    #[verifier::rlimit(60)]
    fn apply_wall_click(&mut self, row: usize, col: usize)
        requires
            old(self)@.wf_shape(),
            old(self)@.wf_counters(),
            old(self)@.wf_joints(),
            old(self)@.valid_wall(row as int, col as int),
            !old(self)@.clicked(row as int, col as int),
        ensures
            final(self)@.wf_shape(),
            final(self)@.wf_counters(),
            final(self)@.wf_joints(),
            final(self)@.statistics == old(self)@.statistics,
            click_step_rel(old(self)@, final(self)@, row as int, col as int),
            forall|r2: int, c2: int|
                old(self)@.valid_wall(r2, c2) ==> (#[trigger] final(self)@.clicked(r2, c2)) == (
                old(self)@.clicked(r2, c2) || (r2 == row as int && c2 == col as int)),
    {
        let ghost v0 = self@;
        self.click_flag_and_counters(row, col);
        self.click_joints(row, col);
        proof {
            let vf = self@;
            lemma_wf_counters_preserved(v0, vf, row as int, col as int);
            lemma_wf_joints_preserved(v0, vf, row as int, col as int);
        }
    }

    /// Apply one click by `player` on the wall at `(row, col)`.
    ///
    /// Fails with `InvalidCoordinates` if the address is out of range
    /// for its parity, with `AlreadyClicked` if the wall was clicked
    /// before; in both cases the board is left untouched.  On success
    /// the wall is clicked, the counters of its one or two adjacent
    /// cells rise, the joint flags follow, every cell that reaches four
    /// clicked walls goes to `player` with a point, and the result is
    /// `true` exactly when that happened: the mover moves again.
    pub fn click_wall(&mut self, row: usize, col: usize, player: Player) -> (r: Result<
        bool,
        ClickError,
    >)
        requires
            old(self).wf(),
        ensures
            final(self).wf(),
            final(self)@.width == old(self)@.width,
            final(self)@.height == old(self)@.height,
            old(self)@.statistics.player1_points <= final(self)@.statistics.player1_points,
            old(self)@.statistics.player2_points <= final(self)@.statistics.player2_points,
            old(self)@.statistics.cpu_points <= final(self)@.statistics.cpu_points,
            !old(self)@.valid_wall(row as int, col as int) ==> r == Err::<bool, ClickError>(
                ClickError::InvalidCoordinates,
            ) && *final(self) == *old(self),
            old(self)@.valid_wall(row as int, col as int) && old(self)@.clicked(
                row as int,
                col as int,
            ) ==> r == Err::<bool, ClickError>(ClickError::AlreadyClicked) && *final(self) == *old(
                self,
            ),
            old(self)@.valid_wall(row as int, col as int) && !old(self)@.clicked(
                row as int,
                col as int,
            ) ==> {
                &&& r == Ok::<bool, ClickError>(
                    old(self)@.completes_any(row as int, col as int),
                )
                &&& forall|r2: int, c2: int|
                    old(self)@.valid_wall(r2, c2) ==> (#[trigger] final(self)@.clicked(r2, c2))
                        == (old(self)@.clicked(r2, c2) || (r2 == row as int && c2 == col as int))
                &&& forall|i: int, j: int|
                    old(self)@.valid_cell(i, j) ==> (#[trigger] final(self)@.cells[i][j]).owner
                        == (if old(self)@.completes_cell(row as int, col as int, i, j) {
                        Some(player)
                    } else {
                        old(self)@.cells[i][j].owner
                    })
                &&& final(self)@.statistics.player1_points
                    == old(self)@.statistics.player1_points + (if player == Player::Player1 {
                    old(self)@.completed_delta(row as int, col as int)
                } else {
                    0int
                })
                &&& final(self)@.statistics.player2_points
                    == old(self)@.statistics.player2_points + (if player == Player::Player2 {
                    old(self)@.completed_delta(row as int, col as int)
                } else {
                    0int
                })
                &&& final(self)@.statistics.cpu_points == old(self)@.statistics.cpu_points + (
                if player == Player::CPU {
                    old(self)@.completed_delta(row as int, col as int)
                } else {
                    0int
                })
                &&& final(self)@.statistics == click_stats_spec(
                    old(self)@,
                    row as int,
                    col as int,
                    player,
                )
            },
    {
        let ghost v0 = self@;
        if row > 2 * self.height || (row % 2 == 0 && col >= self.width) || col > self.width {
            return Err(ClickError::InvalidCoordinates);
        }
        proof {
            assert(v0.valid_wall(row as int, col as int));
        }
        if self.walls[row][col].is_clicked {
            return Err(ClickError::AlreadyClicked);
        }
        let additional_move = self.click_unclicked(row, col, player);
        Ok(additional_move)
    }

    /// The successful part of a click: the wall is known to be valid
    /// and not yet clicked.
    #[verifier::rlimit(100)]
    fn click_unclicked(&mut self, row: usize, col: usize, player: Player) -> (b: bool)
        requires
            old(self).wf(),
            old(self)@.valid_wall(row as int, col as int),
            !old(self)@.clicked(row as int, col as int),
        ensures
            final(self).wf(),
            final(self)@.width == old(self)@.width,
            final(self)@.height == old(self)@.height,
            b == old(self)@.completes_any(row as int, col as int),
            forall|r2: int, c2: int|
                old(self)@.valid_wall(r2, c2) ==> (#[trigger] final(self)@.clicked(r2, c2)) == (
                old(self)@.clicked(r2, c2) || (r2 == row as int && c2 == col as int)),
            forall|i: int, j: int|
                old(self)@.valid_cell(i, j) ==> (#[trigger] final(self)@.cells[i][j]).owner == (
                if old(self)@.completes_cell(row as int, col as int, i, j) {
                    Some(player)
                } else {
                    old(self)@.cells[i][j].owner
                }),
            old(self)@.statistics.player1_points <= final(self)@.statistics.player1_points,
            old(self)@.statistics.player2_points <= final(self)@.statistics.player2_points,
            old(self)@.statistics.cpu_points <= final(self)@.statistics.cpu_points,
            final(self)@.statistics.player1_points == old(self)@.statistics.player1_points + (
            if player == Player::Player1 {
                old(self)@.completed_delta(row as int, col as int)
            } else {
                0int
            }),
            final(self)@.statistics.player2_points == old(self)@.statistics.player2_points + (
            if player == Player::Player2 {
                old(self)@.completed_delta(row as int, col as int)
            } else {
                0int
            }),
            final(self)@.statistics.cpu_points == old(self)@.statistics.cpu_points + (if player
                == Player::CPU {
                old(self)@.completed_delta(row as int, col as int)
            } else {
                0int
            }),
            final(self)@.statistics == click_stats_spec(old(self)@, row as int, col as int, player),
    {
        let ghost v0 = self@;
        let adj = copy_coords(&self.walls[row][col].adjacent_cells);
        proof {
            lemma_expected_cells_valid(v0, row as int, col as int);
            assert(adj@ == v0.expected_cells(row as int, col as int));
        }
        self.apply_wall_click(row, col);
        let (ci0, cj0) = adj[0];
        let have_second = adj.len() > 1;
        let (ci1, cj1) = if have_second {
            adj[1]
        } else {
            (0, 0)
        };
        self.settle_boxes(ci0, cj0, have_second, ci1, cj1, player, Ghost(v0), Ghost(row as int), Ghost(col as int))
    }

    /// Give every box the click completed to the mover.  The one or
    /// two candidate cells are the wall's adjacency list.
    #[verifier::rlimit(100)]
    fn settle_boxes(
        &mut self,
        ci0: usize,
        cj0: usize,
        have_second: bool,
        ci1: usize,
        cj1: usize,
        player: Player,
        Ghost(v0): Ghost<BoardV>,
        Ghost(row): Ghost<int>,
        Ghost(col): Ghost<int>,
    ) -> (b: bool)
        requires
            v0.wf(),
            v0.valid_wall(row, col),
            !v0.clicked(row, col),
            click_step_rel(v0, old(self)@, row, col),
            old(self)@.wf_shape(),
            old(self)@.wf_counters(),
            old(self)@.wf_joints(),
            (ci0, cj0) == v0.expected_cells(row, col)[0],
            have_second == (v0.expected_cells(row, col).len() > 1),
            have_second ==> (ci1, cj1) == v0.expected_cells(row, col)[1],
        ensures
            final(self).wf(),
            final(self)@.width == v0.width,
            final(self)@.height == v0.height,
            b == v0.completes_any(row, col),
            final(self)@.walls == old(self)@.walls,
            forall|i: int, j: int|
                v0.valid_cell(i, j) ==> (#[trigger] final(self)@.cells[i][j]).owner == (
                if v0.completes_cell(row, col, i, j) {
                    Some(player)
                } else {
                    v0.cells[i][j].owner
                }),
            v0.statistics.player1_points <= final(self)@.statistics.player1_points,
            v0.statistics.player2_points <= final(self)@.statistics.player2_points,
            v0.statistics.cpu_points <= final(self)@.statistics.cpu_points,
            final(self)@.statistics.player1_points == v0.statistics.player1_points + (if player
                == Player::Player1 {
                v0.completed_delta(row, col)
            } else {
                0int
            }),
            final(self)@.statistics.player2_points == v0.statistics.player2_points + (if player
                == Player::Player2 {
                v0.completed_delta(row, col)
            } else {
                0int
            }),
            final(self)@.statistics.cpu_points == v0.statistics.cpu_points + (if player
                == Player::CPU {
                v0.completed_delta(row, col)
            } else {
                0int
            }),
            final(self)@.statistics == click_stats_spec(v0, row, col, player),
    {
        let ghost v1 = self@;
        proof {
            lemma_expected_cells_valid(v0, row, col);
            lemma_owned_congruence(v1.cells, v0.cells, Player::Player1);
            lemma_owned_congruence(v1.cells, v0.cells, Player::Player2);
            lemma_owned_congruence(v1.cells, v0.cells, Player::CPU);
            assert(v0.wall_touches_cell(row, col, ci0 as int, cj0 as int));
            assert(v1.cells[ci0 as int][cj0 as int].counter == v0.cells[ci0 as int][cj0
                as int].counter + 1);
        }
        let mut additional_move = false;
        let ghost settled0 = v1.cells[ci0 as int][cj0 as int].counter == 4;
        if self.cells[ci0][cj0].counter == 4 {
            proof {
                assert(v0.cells[ci0 as int][cj0 as int].counter == 3);
                assert(v1.cells[ci0 as int][cj0 as int].owner is None);
            }
            self.set_owner_and_score(ci0, cj0, player);
            additional_move = true;
        }
        let ghost v2 = self@;
        let ghost settled1 = false;
        if have_second {
            proof {
                assert(v0.wall_touches_cell(row, col, ci1 as int, cj1 as int));
                assert((ci1, cj1) != (ci0, cj0));
                assert(v2.cells[ci1 as int][cj1 as int] == v1.cells[ci1 as int][cj1 as int]);
            }
            if self.cells[ci1][cj1].counter == 4 {
                proof {
                    settled1 = true;
                    assert(v0.cells[ci1 as int][cj1 as int].counter == 3);
                    assert(v2.cells[ci1 as int][cj1 as int].owner is None);
                }
                self.set_owner_and_score(ci1, cj1, player);
                additional_move = true;
            }
        }
        proof {
            let vf = self@;
            let s = v0.expected_cells(row, col);
            assert(vf.statistics.player1_points == owned_count(vf.cells, Player::Player1)
                && vf.statistics.player2_points == owned_count(vf.cells, Player::Player2)
                && vf.statistics.cpu_points == owned_count(vf.cells, Player::CPU));
            assert forall|i: int, j: int| v0.valid_cell(i, j) implies #[trigger] vf.cells[i][j]
                == (if settled0 && i == s[0].0 as int && j == s[0].1 as int {
                Cell { owner: Some(player), ..v1.cells[i][j] }
            } else if settled1 && s.len() > 1 && i == s[1].0 as int && j == s[1].1 as int {
                Cell { owner: Some(player), ..v1.cells[i][j] }
            } else {
                v1.cells[i][j]
            }) by {
                assert(v2.cells[i][j] == (if settled0 && i == s[0].0 as int && j == s[0].1
                    as int {
                    Cell { owner: Some(player), ..v1.cells[i][j] }
                } else {
                    v1.cells[i][j]
                }));
            }
            assert(settle_rel(v0, v1, vf, row, col, player, settled0, settled1));
            lemma_click_wf(v0, v1, vf, row, col, player, settled0, settled1);
            lemma_click_owners(v0, v1, vf, row, col, player, settled0, settled1);
            lemma_click_completes(v0, v1, row, col, settled0, settled1);
            assert(vf.statistics == click_stats_spec(v0, row, col, player));
        }
        additional_move
    }

    /// True exactly when every wall is clicked: the sole terminal
    /// condition of the game.
    pub fn all_is_clicked(&self) -> (r: bool)
        requires
            self.wf(),
        ensures
            r == self@.all_clicked(),
    {
        let mut row: usize = 0;
        while row < self.walls.len()
            invariant
                self.wf(),
                row <= self.walls@.len(),
                forall|r2: int, c2: int|
                    self@.valid_wall(r2, c2) && r2 < row as int ==> #[trigger] self@.clicked(
                        r2,
                        c2,
                    ),
            decreases self.walls@.len() - row,
        {
            let mut col: usize = 0;
            while col < self.walls[row].len()
                invariant
                    self.wf(),
                    row < self.walls@.len(),
                    col <= self.walls@[row as int]@.len(),
                    forall|r2: int, c2: int|
                        self@.valid_wall(r2, c2) && r2 < row as int ==> #[trigger] self@.clicked(
                            r2,
                            c2,
                        ),
                    forall|c2: int|
                        0 <= c2 < col as int ==> #[trigger] self@.clicked(row as int, c2),
                decreases self.walls@[row as int]@.len() - col,
            {
                proof {
                    assert(self@.walls.len() == self.walls@.len());
                    assert(self@.walls[row as int].len() == self.walls@[row as int]@.len());
                    assert(self@.walls[row as int][col as int] == self.walls@[row as int]@[col
                        as int]@);
                }
                if !self.walls[row][col].is_clicked {
                    proof {
                        assert(self@.valid_wall(row as int, col as int));
                        assert(!self@.clicked(row as int, col as int));
                    }
                    return false;
                }
                col = col + 1;
            }
            row = row + 1;
        }
        true
    }

    /// The current scores together with the winner they determine.
    ///
    /// The winner rule is deliberately asymmetric, as the game mode
    /// demands: `Player2` wins outright when ahead of `Player1`, and
    /// only `Player1` and the CPU have a tiebreak path between them.
    pub fn get_statistics(&self) -> (r: GameStatistics)
        ensures
            r.player1_points == self@.statistics.player1_points,
            r.player2_points == self@.statistics.player2_points,
            r.cpu_points == self@.statistics.cpu_points,
            r.winner == winner_spec(
                self@.statistics.player1_points as int,
                self@.statistics.player2_points as int,
                self@.statistics.cpu_points as int,
            ),
    {
        let player1_points = self.statistics.player1_points;
        let player2_points = self.statistics.player2_points;
        let cpu_points = self.statistics.cpu_points;
        let winner = if player1_points < player2_points {
            Some(Player::Player2)
        } else {
            compare_with_cpu(player1_points, cpu_points)
        };
        GameStatistics { player1_points, player2_points, cpu_points, winner }
    }

    /// A fresh `width` by `height` board: no wall clicked, no cell
    /// owned, all scores zero.
    #[verifier::loop_isolation(false)]
    pub fn new(width: usize, height: usize) -> (r: Self)
        requires
            1 <= width <= isize::MAX,
            1 <= height,
            2 * height + 1 <= isize::MAX,
            width * height <= usize::MAX,
        ensures
            r.wf(),
            r@.width == width,
            r@.height == height,
            forall|wr: int, wc: int| r@.valid_wall(wr, wc) ==> !#[trigger] r@.clicked(wr, wc),
            forall|i: int, j: int|
                r@.valid_cell(i, j) ==> (#[trigger] r@.cells[i][j]).owner is None,
            r@.statistics == (GameStatistics {
                player1_points: 0,
                player2_points: 0,
                cpu_points: 0,
                winner: None,
            }),
    {
        let mut cells: Vec<Vec<Cell>> = Vec::new();
        let mut i: usize = 0;
        while i < height
            invariant
                i <= height,
                cells@.len() == i,
                forall|a: int|
                    0 <= a < i as int ==> (#[trigger] cells@[a])@.len() == width as int,
                forall|a: int, b: int|
                    0 <= a < i as int && 0 <= b < width as int ==> #[trigger] cells@[a]@[b] == (
                    Cell { id: (a as usize, b as usize), counter: 0, owner: None }),
            decreases height - i,
        {
            let mut row: Vec<Cell> = Vec::new();
            let mut j: usize = 0;
            while j < width
                invariant
                    j <= width,
                    row@.len() == j,
                    forall|b: int|
                        0 <= b < j as int ==> #[trigger] row@[b] == (Cell {
                            id: (i, b as usize),
                            counter: 0,
                            owner: None,
                        }),
                decreases width - j,
            {
                row.push(Cell::new(i, j));
                j = j + 1;
            }
            cells.push(row);
            i = i + 1;
        }

        let mut joints: Vec<Vec<Joint>> = Vec::new();
        let mut a: usize = 0;
        while a < height + 1
            invariant
                a <= height + 1,
                joints@.len() == a,
                forall|x: int|
                    0 <= x < a as int ==> (#[trigger] joints@[x])@.len() == width + 1,
                forall|x: int, y: int|
                    0 <= x < a as int && 0 <= y <= width as int ==> #[trigger] joints@[x]@[y] == (
                    Joint {
                        id: (x as usize, y as usize),
                        north_wall_clicked: false,
                        east_wall_clicked: false,
                        south_wall_clicked: false,
                        west_wall_clicked: false,
                    }),
            decreases height + 1 - a,
        {
            let mut row: Vec<Joint> = Vec::new();
            let mut b: usize = 0;
            while b < width + 1
                invariant
                    b <= width + 1,
                    row@.len() == b,
                    forall|y: int|
                        0 <= y < b as int ==> #[trigger] row@[y] == (Joint {
                            id: (a, y as usize),
                            north_wall_clicked: false,
                            east_wall_clicked: false,
                            south_wall_clicked: false,
                            west_wall_clicked: false,
                        }),
                decreases width + 1 - b,
            {
                row.push(Joint::new(a, b));
                b = b + 1;
            }
            joints.push(row);
            a = a + 1;
        }

        let mut walls: Vec<Vec<Wall>> = Vec::new();
        let mut r: usize = 0;
        while r < 2 * height + 1
            invariant
                r <= 2 * height + 1,
                walls@.len() == r,
                forall|x: int|
                    0 <= x < r as int ==> (#[trigger] walls@[x])@.len() == (if x % 2 == 0 {
                        width as int
                    } else {
                        width + 1
                    }),
                forall|x: int, y: int|
                    0 <= x < r as int && 0 <= y < (if x % 2 == 0 {
                        width as int
                    } else {
                        width + 1
                    }) ==> {
                        let wv = (#[trigger] walls@[x]@[y])@;
                        &&& wv.id == (x as usize, y as usize)
                        &&& !wv.is_clicked
                        &&& wv.adjacent_cells == wall_cells_spec(
                            width as int,
                            height as int,
                            x,
                            y,
                        )
                        &&& wv.adjacent_joints == wall_joints_spec(x, y)
                    },
            decreases 2 * height + 1 - r,
        {
            let row_len = if r % 2 == 0 {
                width
            } else {
                width + 1
            };
            let mut row: Vec<Wall> = Vec::new();
            let mut c: usize = 0;
            while c < row_len
                invariant
                    c <= row_len,
                    row@.len() == c,
                    forall|y: int|
                        0 <= y < c as int ==> {
                            let wv = (#[trigger] row@[y])@;
                            &&& wv.id == (r as usize, y as usize)
                            &&& !wv.is_clicked
                            &&& wv.adjacent_cells == wall_cells_spec(
                                width as int,
                                height as int,
                                r as int,
                                y,
                            )
                            &&& wv.adjacent_joints == wall_joints_spec(r as int, y)
                        },
                decreases row_len - c,
            {
                row.push(make_wall(width, height, r, c));
                c = c + 1;
            }
            walls.push(row);
            r = r + 1;
        }

        let board = Board {
            width,
            height,
            cells,
            joints,
            walls,
            statistics: GameStatistics::default(),
        };
        proof {
            lemma_row_owned_none_is_zero(board@.cells, Player::Player1);
            lemma_row_owned_none_is_zero(board@.cells, Player::Player2);
            lemma_row_owned_none_is_zero(board@.cells, Player::CPU);
        }
        board
    }
}

/// A wall's adjacency list holds exactly the cells that have this wall
/// among their four bounding walls.
pub proof fn lemma_touch_iff_adjacent(v: BoardV, r: int, c: int, i: int, j: int)
    requires
        v.wf_dims(),
        v.valid_wall(r, c),
        v.valid_cell(i, j),
    ensures
        v.expected_cells(r, c).contains((i as usize, j as usize)) <==> v.wall_touches_cell(
            r,
            c,
            i,
            j,
        ),
{
    let s = v.expected_cells(r, c);
    let x = (i as usize, j as usize);
    if v.wall_touches_cell(r, c, i, j) {
        if r == 2 * i && c == j {
            assert(r < 2 * v.height);
            assert(s.last() == x);
        } else if r == 2 * i + 2 && c == j {
            assert(r >= 2);
            assert(s[0] == x);
        } else {
            assert(r == 2 * i + 1);
            if c == j {
                assert(c < v.width);
                assert(s.last() == x);
            } else {
                assert(c == j + 1);
                assert(c >= 1);
                assert(s[0] == x);
            }
        }
        assert(s.contains(x));
    }
    if s.contains(x) {
        let k = choose|k: int| 0 <= k < s.len() && s[k] == x;
        assert(s[k] == x);
        assert(v.wall_touches_cell(r, c, i, j));
    }
}

/// The four walls bounding a cell have pairwise distinct coordinates,
/// so a single click changes a cell's clicked-wall count by at most one.
proof fn lemma_cell_count_after_click(old_v: BoardV, new_v: BoardV, r: int, c: int, i: int, j: int)
    requires
        old_v.wf_dims(),
        old_v.valid_wall(r, c),
        !old_v.clicked(r, c),
        old_v.valid_cell(i, j),
        new_v.width == old_v.width,
        new_v.height == old_v.height,
        new_v.walls.len() == old_v.walls.len(),
        forall|r2: int|
            0 <= r2 < old_v.walls.len() ==> (#[trigger] new_v.walls[r2]).len()
                == old_v.walls[r2].len(),
        forall|r2: int, c2: int|
            old_v.valid_wall(r2, c2) ==> (#[trigger] new_v.walls[r2][c2]).is_clicked == (
            old_v.walls[r2][c2].is_clicked || (r2 == r && c2 == c)),
    ensures
        new_v.cell_wall_count(i, j) == old_v.cell_wall_count(i, j) + (if old_v.wall_touches_cell(
            r,
            c,
            i,
            j,
        ) {
            1int
        } else {
            0int
        }),
{
    assert(old_v.valid_wall(2 * i, j));
    assert(old_v.valid_wall(2 * i + 2, j));
    assert(old_v.valid_wall(2 * i + 1, j));
    assert(old_v.valid_wall(2 * i + 1, j + 1));
}

/// Changing one cell of a row shifts a player's per-row owned count by
/// the difference the change makes for that player.
proof fn lemma_row_owned_update(row: Seq<Cell>, k: int, nc: Cell, p: Player)
    requires
        0 <= k < row.len(),
    ensures
        row_owned(row.update(k, nc), p) == row_owned(row, p) - (if row[k].owner == Some(p) {
            1int
        } else {
            0int
        }) + (if nc.owner == Some(p) {
            1int
        } else {
            0int
        }),
    decreases row.len(),
{
    let updated = row.update(k, nc);
    if k == row.len() - 1 {
        assert(updated.drop_last() =~= row.drop_last());
        assert(updated.last() == nc);
    } else {
        assert(updated.drop_last() =~= row.drop_last().update(k, nc));
        assert(updated.last() == row.last());
        lemma_row_owned_update(row.drop_last(), k, nc, p);
    }
}

/// Changing one row of the grid shifts a player's owned count by the
/// difference between the new and the old row.
proof fn lemma_owned_update(cells: Seq<Seq<Cell>>, i: int, nr: Seq<Cell>, p: Player)
    requires
        0 <= i < cells.len(),
    ensures
        owned_count(cells.update(i, nr), p) == owned_count(cells, p) - row_owned(cells[i], p)
            + row_owned(nr, p),
    decreases cells.len(),
{
    let updated = cells.update(i, nr);
    if i == cells.len() - 1 {
        assert(updated.drop_last() =~= cells.drop_last());
        assert(updated.last() == nr);
    } else {
        assert(updated.drop_last() =~= cells.drop_last().update(i, nr));
        assert(updated.last() == cells.last());
        lemma_owned_update(cells.drop_last(), i, nr, p);
    }
}

/// Owned counts depend only on the owner fields.
proof fn lemma_row_owned_congruence(r1: Seq<Cell>, r2: Seq<Cell>, p: Player)
    requires
        r1.len() == r2.len(),
        forall|j: int| 0 <= j < r1.len() ==> (#[trigger] r1[j]).owner == r2[j].owner,
    ensures
        row_owned(r1, p) == row_owned(r2, p),
    decreases r1.len(),
{
    if r1.len() > 0 {
        lemma_row_owned_congruence(r1.drop_last(), r2.drop_last(), p);
    }
}

/// Owned counts depend only on the owner fields.
proof fn lemma_owned_congruence(c1: Seq<Seq<Cell>>, c2: Seq<Seq<Cell>>, p: Player)
    requires
        c1.len() == c2.len(),
        forall|i: int| 0 <= i < c1.len() ==> (#[trigger] c1[i]).len() == c2[i].len(),
        forall|i: int, j: int|
            0 <= i < c1.len() && 0 <= j < (#[trigger] c1[i]).len() ==> (#[trigger] c1[i][j]).owner
                == c2[i][j].owner,
    ensures
        owned_count(c1, p) == owned_count(c2, p),
    decreases c1.len(),
{
    if c1.len() > 0 {
        lemma_owned_congruence(c1.drop_last(), c2.drop_last(), p);
        lemma_row_owned_congruence(c1.last(), c2.last(), p);
    }
}

/// A player's per-row owned count is at most the row length.
proof fn lemma_row_owned_le(row: Seq<Cell>, p: Player)
    ensures
        0 <= row_owned(row, p) <= row.len(),
    decreases row.len(),
{
    if row.len() > 0 {
        lemma_row_owned_le(row.drop_last(), p);
    }
}

/// A player's owned count is at most the number of cells.
proof fn lemma_owned_le(cells: Seq<Seq<Cell>>, w: int, p: Player)
    requires
        forall|i: int| 0 <= i < cells.len() ==> (#[trigger] cells[i]).len() == w,
    ensures
        0 <= owned_count(cells, p) <= cells.len() * w,
    decreases cells.len(),
{
    if cells.len() > 0 {
        lemma_owned_le(cells.drop_last(), w, p);
        lemma_row_owned_le(cells.last(), p);
        assert(cells.len() * w == (cells.len() - 1) * w + w) by (nonlinear_arith);
    }
}

/// The number of unclicked walls in one wall row.
pub open spec fn row_unclicked(row: Seq<WallV>) -> int
    decreases row.len(),
{
    if row.len() == 0 {
        0int
    } else {
        row_unclicked(row.drop_last()) + (if row.last().is_clicked {
            0int
        } else {
            1int
        })
    }
}

/// The number of unclicked walls on the board: the measure that every
/// forward simulation of the game decreases.
pub open spec fn unclicked_total(walls: Seq<Seq<WallV>>) -> int
    decreases walls.len(),
{
    if walls.len() == 0 {
        0int
    } else {
        unclicked_total(walls.drop_last()) + row_unclicked(walls.last())
    }
}

proof fn lemma_row_unclicked_congr(r1: Seq<WallV>, r2: Seq<WallV>)
    requires
        r1.len() == r2.len(),
        forall|j: int| 0 <= j < r1.len() ==> (#[trigger] r1[j]).is_clicked == r2[j].is_clicked,
    ensures
        row_unclicked(r1) == row_unclicked(r2),
    decreases r1.len(),
{
    if r1.len() > 0 {
        lemma_row_unclicked_congr(r1.drop_last(), r2.drop_last());
    }
}

proof fn lemma_row_unclicked_nonneg(row: Seq<WallV>)
    ensures
        0 <= row_unclicked(row) <= row.len(),
    decreases row.len(),
{
    if row.len() > 0 {
        lemma_row_unclicked_nonneg(row.drop_last());
    }
}

proof fn lemma_row_unclicked_one_click(r1: Seq<WallV>, r2: Seq<WallV>, c: int)
    requires
        r1.len() == r2.len(),
        0 <= c < r1.len(),
        forall|j: int|
            0 <= j < r1.len() && j != c ==> (#[trigger] r1[j]).is_clicked == r2[j].is_clicked,
        !r1[c].is_clicked,
        r2[c].is_clicked,
    ensures
        row_unclicked(r2) == row_unclicked(r1) - 1,
    decreases r1.len(),
{
    if c == r1.len() - 1 {
        lemma_row_unclicked_congr(r1.drop_last(), r2.drop_last());
    } else {
        lemma_row_unclicked_one_click(r1.drop_last(), r2.drop_last(), c);
    }
}

/// Clicking one previously unclicked wall lowers the number of
/// unclicked walls by exactly one.
pub proof fn lemma_unclicked_one_click(w1: Seq<Seq<WallV>>, w2: Seq<Seq<WallV>>, r: int, c: int)
    requires
        w1.len() == w2.len(),
        forall|r2: int| 0 <= r2 < w1.len() ==> (#[trigger] w2[r2]).len() == w1[r2].len(),
        0 <= r < w1.len(),
        0 <= c < w1[r].len(),
        forall|r2: int, c2: int|
            0 <= r2 < w1.len() && 0 <= c2 < (#[trigger] w1[r2]).len() && !(r2 == r && c2 == c)
                ==> (#[trigger] w2[r2][c2]).is_clicked == w1[r2][c2].is_clicked,
        !w1[r][c].is_clicked,
        w2[r][c].is_clicked,
    ensures
        unclicked_total(w2) == unclicked_total(w1) - 1,
    decreases w1.len(),
{
    if r == w1.len() - 1 {
        lemma_unclicked_congr(w1.drop_last(), w2.drop_last());
        lemma_row_unclicked_one_click(w1.last(), w2.last(), c);
    } else {
        lemma_unclicked_one_click(w1.drop_last(), w2.drop_last(), r, c);
        lemma_row_unclicked_congr(w1.last(), w2.last());
    }
}

/// A successful click lowers the number of unclicked walls by one.
pub proof fn lemma_click_decreases_unclicked(v0: BoardV, v1: BoardV, row: int, col: int)
    requires
        v0.wf(),
        v1.wf(),
        v1.width == v0.width,
        v1.height == v0.height,
        v0.valid_wall(row, col),
        !v0.clicked(row, col),
        forall|r2: int, c2: int|
            v0.valid_wall(r2, c2) ==> (#[trigger] v1.clicked(r2, c2)) == (v0.clicked(r2, c2) || (
            r2 == row && c2 == col)),
    ensures
        unclicked_total(v1.walls) == unclicked_total(v0.walls) - 1,
{
    assert forall|r2: int, c2: int|
        0 <= r2 < v0.walls.len() && 0 <= c2 < (#[trigger] v0.walls[r2]).len() && !(r2 == row && c2
            == col) implies (#[trigger] v1.walls[r2][c2]).is_clicked
        == v0.walls[r2][c2].is_clicked by {
        assert(v0.valid_wall(r2, c2));
        assert(v1.clicked(r2, c2) == (v0.clicked(r2, c2) || (r2 == row && c2 == col)));
    }
    assert(v1.clicked(row, col));
    assert(v0.walls[row].len() == v0.wall_row_len(row));
    lemma_unclicked_one_click(v0.walls, v1.walls, row, col);
}

/// The number of unclicked walls depends only on the clicked flags.
pub proof fn lemma_unclicked_congr(w1: Seq<Seq<WallV>>, w2: Seq<Seq<WallV>>)
    requires
        w1.len() == w2.len(),
        forall|r2: int| 0 <= r2 < w1.len() ==> (#[trigger] w2[r2]).len() == w1[r2].len(),
        forall|r2: int, c2: int|
            0 <= r2 < w1.len() && 0 <= c2 < (#[trigger] w1[r2]).len()
                ==> (#[trigger] w2[r2][c2]).is_clicked == w1[r2][c2].is_clicked,
    ensures
        unclicked_total(w2) == unclicked_total(w1),
    decreases w1.len(),
{
    if w1.len() > 0 {
        lemma_unclicked_congr(w1.drop_last(), w2.drop_last());
        lemma_row_unclicked_congr(w1.last(), w2.last());
    }
}

/// The number of unclicked walls is never negative.
pub proof fn lemma_unclicked_nonneg(walls: Seq<Seq<WallV>>)
    ensures
        0 <= unclicked_total(walls),
    decreases walls.len(),
{
    if walls.len() > 0 {
        lemma_unclicked_nonneg(walls.drop_last());
        lemma_row_unclicked_nonneg(walls.last());
    }
}

/// The number of cells in one row whose boxes are complete.
pub open spec fn row_completed(row: Seq<Cell>) -> int
    decreases row.len(),
{
    if row.len() == 0 {
        0int
    } else {
        row_completed(row.drop_last()) + (if row.last().counter == 4 {
            1int
        } else {
            0int
        })
    }
}

/// The number of cells on the board whose counter has reached four.
pub open spec fn completed_cells(cells: Seq<Seq<Cell>>) -> int
    decreases cells.len(),
{
    if cells.len() == 0 {
        0int
    } else {
        completed_cells(cells.drop_last()) + row_completed(cells.last())
    }
}

proof fn lemma_row_conservation(row: Seq<Cell>)
    requires
        forall|j: int|
            0 <= j < row.len() ==> ((#[trigger] row[j]).owner.is_some() <==> row[j].counter == 4),
    ensures
        row_owned(row, Player::Player1) + row_owned(row, Player::Player2) + row_owned(
            row,
            Player::CPU,
        ) == row_completed(row),
    decreases row.len(),
{
    if row.len() > 0 {
        lemma_row_conservation(row.drop_last());
        let c = row.last();
        if c.owner.is_some() {
            assert(c.owner == Some(Player::Player1) || c.owner == Some(Player::Player2)
                || c.owner == Some(Player::CPU));
        }
    }
}

proof fn lemma_grid_conservation(cells: Seq<Seq<Cell>>)
    requires
        forall|i: int, j: int|
            0 <= i < cells.len() && 0 <= j < (#[trigger] cells[i]).len() ==> ((
            #[trigger] cells[i][j]).owner.is_some() <==> cells[i][j].counter == 4),
    ensures
        owned_count(cells, Player::Player1) + owned_count(cells, Player::Player2) + owned_count(
            cells,
            Player::CPU,
        ) == completed_cells(cells),
    decreases cells.len(),
{
    if cells.len() > 0 {
        lemma_grid_conservation(cells.drop_last());
        lemma_row_conservation(cells.last());
    }
}

/// Score conservation: on every well-formed board the three point
/// totals add up to the number of cells whose counter has reached
/// four, and that sum never exceeds the number of cells.  Together
/// with the contract of `click_wall`, whose score change is exactly
/// the number of boxes the click completes, the sum can never
/// decrease over any sequence of valid clicks.
pub proof fn lemma_score_conservation(v: BoardV)
    requires
        v.wf(),
    ensures
        v.statistics.player1_points + v.statistics.player2_points + v.statistics.cpu_points
            == completed_cells(v.cells),
        completed_cells(v.cells) <= v.width * v.height,
{
    lemma_grid_conservation(v.cells);
    lemma_completed_le(v.cells, v.width);
    assert(v.cells.len() * v.width == v.width * v.height) by (nonlinear_arith)
        requires
            v.cells.len() == v.height,
    ;
}

proof fn lemma_row_completed_le(row: Seq<Cell>)
    ensures
        0 <= row_completed(row) <= row.len(),
    decreases row.len(),
{
    if row.len() > 0 {
        lemma_row_completed_le(row.drop_last());
    }
}

proof fn lemma_completed_le(cells: Seq<Seq<Cell>>, w: int)
    requires
        forall|i: int| 0 <= i < cells.len() ==> (#[trigger] cells[i]).len() == w,
    ensures
        0 <= completed_cells(cells) <= cells.len() * w,
    decreases cells.len(),
{
    if cells.len() > 0 {
        lemma_completed_le(cells.drop_last(), w);
        lemma_row_completed_le(cells.last());
        assert(cells.len() * w == (cells.len() - 1) * w + w) by (nonlinear_arith);
    }
}

/// Every neighbour of an unclicked wall still has room on its counter.
/// Clicking a wall raises the counter of every cell it touches by one.
pub proof fn lemma_click_raises_touched_counter(
    v0: BoardV,
    v1: BoardV,
    r: int,
    c: int,
    i: int,
    j: int,
)
    requires
        v0.wf(),
        v1.wf(),
        v1.width == v0.width,
        v1.height == v0.height,
        v0.valid_wall(r, c),
        !v0.clicked(r, c),
        v0.valid_cell(i, j),
        v0.wall_touches_cell(r, c, i, j),
        forall|r2: int, c2: int|
            v0.valid_wall(r2, c2) ==> (#[trigger] v1.clicked(r2, c2)) == (v0.clicked(r2, c2) || (
            r2 == r && c2 == c)),
    ensures
        v1.cells[i][j].counter == v0.cells[i][j].counter + 1,
{
    assert forall|r2: int, c2: int|
        0 <= r2 < v0.walls.len() && 0 <= c2 < (#[trigger] v0.walls[r2]).len() implies (
    #[trigger] v1.walls[r2][c2]).is_clicked == (v0.walls[r2][c2].is_clicked || (r2 == r && c2
        == c)) by {
        assert(v0.valid_wall(r2, c2));
        assert(v1.clicked(r2, c2) == (v0.clicked(r2, c2) || (r2 == r && c2 == c)));
    }
    lemma_cell_count_after_click(v0, v1, r, c, i, j);
}

/// A cell whose counter stands at three still has one unclicked wall.
pub proof fn lemma_count3_cell_has_unclicked_wall(v: BoardV, i: int, j: int)
    requires
        v.wf(),
        v.valid_cell(i, j),
        v.cells[i][j].counter == 3,
    ensures
        exists|r: int, c: int|
            v.valid_wall(r, c) && !(#[trigger] v.clicked(r, c)) && v.wall_touches_cell(r, c, i, j),
{
    assert(v.cell_wall_count(i, j) == 3);
    assert(v.valid_wall(2 * i, j));
    assert(v.valid_wall(2 * i + 2, j));
    assert(v.valid_wall(2 * i + 1, j));
    assert(v.valid_wall(2 * i + 1, j + 1));
    if !v.clicked(2 * i, j) {
        assert(v.wall_touches_cell(2 * i, j, i, j));
    } else if !v.clicked(2 * i + 2, j) {
        assert(v.wall_touches_cell(2 * i + 2, j, i, j));
    } else if !v.clicked(2 * i + 1, j) {
        assert(v.wall_touches_cell(2 * i + 1, j, i, j));
    } else {
        assert(!v.clicked(2 * i + 1, j + 1));
        assert(v.wall_touches_cell(2 * i + 1, j + 1, i, j));
    }
}

/// A click that completes some box scores at least one point.
pub proof fn lemma_completes_delta_pos(v: BoardV, r: int, c: int)
    requires
        v.wf(),
        v.valid_wall(r, c),
        !v.clicked(r, c),
        v.completes_any(r, c),
    ensures
        v.completed_delta(r, c) >= 1,
{
    lemma_expected_cells_valid(v, r, c);
    let s = v.expected_cells(r, c);
    let (i, j) = choose|i: int, j: int| v.completes_cell(r, c, i, j);
    lemma_touch_iff_adjacent(v, r, c, i, j);
    assert(s.contains((i as usize, j as usize)));
    let k = choose|k: int| 0 <= k < s.len() && s[k] == (i as usize, j as usize);
    assert(k == 0 || k == 1);
}

pub proof fn lemma_unclicked_neighbor_counter(v: BoardV, r: int, c: int, i: int, j: int)
    requires
        v.wf(),
        v.valid_wall(r, c),
        !v.clicked(r, c),
        v.valid_cell(i, j),
        v.wall_touches_cell(r, c, i, j),
    ensures
        v.cells[i][j].counter <= 3,
{
}

/// A joint with the flag for one side raised.
pub open spec fn joint_with_flag(j: Joint, d: Direction) -> Joint {
    match d {
        Direction::North => Joint { north_wall_clicked: true, ..j },
        Direction::East => Joint { east_wall_clicked: true, ..j },
        Direction::South => Joint { south_wall_clicked: true, ..j },
        Direction::West => Joint { west_wall_clicked: true, ..j },
    }
}

/// A cell with its counter raised by one.
pub open spec fn cell_with_bump(c: Cell) -> Cell {
    Cell { counter: (c.counter + 1) as usize, ..c }
}

/// Clicking one wall and raising the flags of its two joints keeps
/// every joint flag equal to the clicked state of the wall on its side.
proof fn lemma_wf_joints_preserved(v0: BoardV, vf: BoardV, row: int, col: int)
    requires
        v0.wf_dims(),
        v0.wf_joints(),
        v0.valid_wall(row, col),
        vf.width == v0.width,
        vf.height == v0.height,
        vf.walls.len() == v0.walls.len(),
        forall|r2: int|
            0 <= r2 < v0.walls.len() ==> (#[trigger] vf.walls[r2]).len() == v0.walls[r2].len(),
        forall|r2: int, c2: int|
            v0.valid_wall(r2, c2) ==> (#[trigger] vf.clicked(r2, c2)) == (v0.clicked(r2, c2) || (
            r2 == row && c2 == col)),
        vf.joints.len() == v0.joints.len(),
        forall|a: int|
            0 <= a < v0.joints.len() ==> (#[trigger] vf.joints[a]).len() == v0.joints[a].len(),
        ({
            let j0 = wall_joints_spec(row, col)[0];
            let j1 = wall_joints_spec(row, col)[1];
            &&& forall|a: int, b: int|
                v0.valid_joint(a, b) && !(a == j0.1 as int && b == j0.2 as int) && !(a == j1.1 as int
                    && b == j1.2 as int) ==> #[trigger] vf.joints[a][b] == v0.joints[a][b]
            &&& vf.joints[j0.1 as int][j0.2 as int] == joint_with_flag(
                v0.joints[j0.1 as int][j0.2 as int],
                j0.0,
            )
            &&& vf.joints[j1.1 as int][j1.2 as int] == joint_with_flag(
                v0.joints[j1.1 as int][j1.2 as int],
                j1.0,
            )
        }),
    ensures
        vf.wf_joints(),
{
    let j0 = wall_joints_spec(row, col)[0];
    let j1 = wall_joints_spec(row, col)[1];
    assert forall|a: int, b: int| vf.valid_joint(a, b) implies {
        let joint = #[trigger] vf.joints[a][b];
        &&& joint.north_wall_clicked == (a >= 1 && vf.clicked(2 * a - 1, b))
        &&& joint.south_wall_clicked == (a < vf.height && vf.clicked(2 * a + 1, b))
        &&& joint.east_wall_clicked == (b < vf.width && vf.clicked(2 * a, b))
        &&& joint.west_wall_clicked == (b >= 1 && vf.clicked(2 * a, b - 1))
    } by {
        assert(v0.valid_joint(a, b));
        if a >= 1 {
            assert(v0.valid_wall(2 * a - 1, b));
        }
        if a < v0.height {
            assert(v0.valid_wall(2 * a + 1, b));
        }
        if b < v0.width {
            assert(v0.valid_wall(2 * a, b));
        }
        if b >= 1 {
            assert(v0.valid_wall(2 * a, b - 1));
        }
        if row % 2 == 0 {
            assert(j0 == (Direction::East, (row / 2) as usize, col as usize));
            assert(j1 == (Direction::West, (row / 2) as usize, (col + 1) as usize));
        } else {
            assert(j0 == (Direction::South, (row / 2) as usize, col as usize));
            assert(j1 == (Direction::North, (row / 2 + 1) as usize, col as usize));
        }
    }
}

/// Clicking one wall and raising the counters of exactly the cells it
/// touches keeps every counter equal to its clicked-wall count.
proof fn lemma_wf_counters_preserved(v0: BoardV, vf: BoardV, row: int, col: int)
    requires
        v0.wf_dims(),
        v0.wf_counters(),
        v0.valid_wall(row, col),
        !v0.clicked(row, col),
        vf.width == v0.width,
        vf.height == v0.height,
        vf.walls.len() == v0.walls.len(),
        forall|r2: int|
            0 <= r2 < v0.walls.len() ==> (#[trigger] vf.walls[r2]).len() == v0.walls[r2].len(),
        forall|r2: int, c2: int|
            v0.valid_wall(r2, c2) ==> (#[trigger] vf.walls[r2][c2]).is_clicked == (
            v0.walls[r2][c2].is_clicked || (r2 == row && c2 == col)),
        vf.cells.len() == v0.cells.len(),
        forall|i: int|
            0 <= i < v0.cells.len() ==> (#[trigger] vf.cells[i]).len() == v0.cells[i].len(),
        forall|i: int, j: int|
            v0.valid_cell(i, j) ==> #[trigger] vf.cells[i][j] == (Cell {
                counter: (v0.cells[i][j].counter + (if v0.wall_touches_cell(row, col, i, j) {
                    1int
                } else {
                    0int
                })) as usize,
                ..v0.cells[i][j]
            }),
    ensures
        vf.wf_counters(),
{
    assert forall|i: int, j: int| vf.valid_cell(i, j) implies (#[trigger] vf.cells[i][j]).counter
        == vf.cell_wall_count(i, j) by {
        lemma_cell_count_after_click(v0, vf, row, col, i, j);
        assert(v0.cells[i][j].counter <= 3 || !v0.wall_touches_cell(row, col, i, j)) by {
            if v0.wall_touches_cell(row, col, i, j) {
                assert(v0.cell_wall_count(i, j) <= 3);
            }
        }
    }
}

/// After raising the counters of the one or two distinct adjacency-list
/// cells, every cell's counter has risen exactly by whether the clicked
/// wall touches it.
proof fn lemma_cells_bump_characterization(
    v0: BoardV,
    cells2: Seq<Seq<Cell>>,
    row: int,
    col: int,
)
    requires
        v0.wf_dims(),
        v0.valid_wall(row, col),
        cells2.len() == v0.cells.len(),
        forall|i: int|
            0 <= i < v0.cells.len() ==> (#[trigger] cells2[i]).len() == v0.cells[i].len(),
        ({
            let s = v0.expected_cells(row, col);
            &&& forall|i: int, j: int|
                v0.valid_cell(i, j) && (i as usize, j as usize) != s[0] && (s.len() > 1 ==> (
                i as usize,
                j as usize,
                ) != s[1]) ==> #[trigger] cells2[i][j] == v0.cells[i][j]
            &&& cells2[s[0].0 as int][s[0].1 as int] == cell_with_bump(
                v0.cells[s[0].0 as int][s[0].1 as int],
            )
            &&& (s.len() > 1 ==> cells2[s[1].0 as int][s[1].1 as int] == cell_with_bump(
                v0.cells[s[1].0 as int][s[1].1 as int],
            ))
        }),
    ensures
        forall|i: int, j: int|
            v0.valid_cell(i, j) ==> #[trigger] cells2[i][j] == (Cell {
                counter: (v0.cells[i][j].counter + (if v0.wall_touches_cell(row, col, i, j) {
                    1int
                } else {
                    0int
                })) as usize,
                ..v0.cells[i][j]
            }),
{
    let s = v0.expected_cells(row, col);
    lemma_expected_cells_valid(v0, row, col);
    assert forall|i: int, j: int| v0.valid_cell(i, j) implies #[trigger] cells2[i][j] == (Cell {
        counter: (v0.cells[i][j].counter + (if v0.wall_touches_cell(row, col, i, j) {
            1int
        } else {
            0int
        })) as usize,
        ..v0.cells[i][j]
    }) by {
        lemma_touch_iff_adjacent(v0, row, col, i, j);
        if v0.wall_touches_cell(row, col, i, j) {
            assert(s.contains((i as usize, j as usize)));
            let k = choose|k: int| 0 <= k < s.len() && s[k] == (i as usize, j as usize);
            assert(k == 0 || k == 1);
        } else {
            assert(!s.contains((i as usize, j as usize)));
            assert(s[0] != (i as usize, j as usize));
            if s.len() > 1 {
                assert(s[1] != (i as usize, j as usize));
            }
        }
    }
}

/// The scores after a click by `player` on wall `(r, c)`: the mover
/// gains one point per box the click completes, the others nothing.
pub open spec fn click_stats_spec(v: BoardV, r: int, c: int, player: Player) -> GameStatistics {
    match player {
        Player::Player1 => GameStatistics {
            player1_points: (v.statistics.player1_points + v.completed_delta(r, c)) as usize,
            ..v.statistics
        },
        Player::Player2 => GameStatistics {
            player2_points: (v.statistics.player2_points + v.completed_delta(r, c)) as usize,
            ..v.statistics
        },
        Player::CPU => GameStatistics {
            cpu_points: (v.statistics.cpu_points + v.completed_delta(r, c)) as usize,
            ..v.statistics
        },
    }
}

/// The relation between a board and the same board right after one
/// wall click: the flag is set, the counters of touched cells rose by
/// one, ownership and scores are untouched.
pub open spec fn click_step_rel(v0: BoardV, v1: BoardV, row: int, col: int) -> bool {
    &&& v1.width == v0.width
    &&& v1.height == v0.height
    &&& v1.statistics == v0.statistics
    &&& v1.joints.len() == v0.joints.len()
    &&& forall|a: int|
        0 <= a < v0.joints.len() ==> (#[trigger] v1.joints[a]).len() == v0.joints[a].len()
    &&& v1.walls.len() == v0.walls.len()
    &&& forall|r2: int|
        0 <= r2 < v0.walls.len() ==> (#[trigger] v1.walls[r2]).len() == v0.walls[r2].len()
    &&& forall|r2: int, c2: int|
        v0.valid_wall(r2, c2) && !(r2 == row && c2 == col) ==> #[trigger] v1.walls[r2][c2]
            == v0.walls[r2][c2]
    &&& v1.walls[row][col] == (WallV { is_clicked: true, ..v0.walls[row][col] })
    &&& v1.cells.len() == v0.cells.len()
    &&& forall|i: int|
        0 <= i < v0.cells.len() ==> (#[trigger] v1.cells[i]).len() == v0.cells[i].len()
    &&& forall|i: int, j: int|
        v0.valid_cell(i, j) ==> #[trigger] v1.cells[i][j] == (Cell {
            counter: (v0.cells[i][j].counter + (if v0.wall_touches_cell(row, col, i, j) {
                1int
            } else {
                0int
            })) as usize,
            ..v0.cells[i][j]
        })
}

/// The relation between the board right after a click and the same
/// board once the completed boxes have been given to the mover.
pub open spec fn settle_rel(
    v0: BoardV,
    v1: BoardV,
    vf: BoardV,
    row: int,
    col: int,
    player: Player,
    settled0: bool,
    settled1: bool,
) -> bool {
    let s = v0.expected_cells(row, col);
    &&& settled0 == (v1.cells[s[0].0 as int][s[0].1 as int].counter == 4)
    &&& settled1 == (s.len() > 1 && v1.cells[s[1].0 as int][s[1].1 as int].counter == 4)
    &&& vf.width == v1.width
    &&& vf.height == v1.height
    &&& vf.walls == v1.walls
    &&& vf.joints == v1.joints
    &&& vf.cells.len() == v1.cells.len()
    &&& forall|i: int|
        0 <= i < v1.cells.len() ==> (#[trigger] vf.cells[i]).len() == v1.cells[i].len()
    &&& forall|i: int, j: int|
        v0.valid_cell(i, j) ==> #[trigger] vf.cells[i][j] == (if settled0 && i == s[0].0 as int
            && j == s[0].1 as int {
            Cell { owner: Some(player), ..v1.cells[i][j] }
        } else if settled1 && s.len() > 1 && i == s[1].0 as int && j == s[1].1 as int {
            Cell { owner: Some(player), ..v1.cells[i][j] }
        } else {
            v1.cells[i][j]
        })
}

/// After settlement the board is well formed again, provided the
/// scores were kept in step with the ownership changes.
#[verifier::rlimit(100)]
proof fn lemma_click_wf(
    v0: BoardV,
    v1: BoardV,
    vf: BoardV,
    row: int,
    col: int,
    player: Player,
    settled0: bool,
    settled1: bool,
)
    requires
        v0.wf(),
        v0.valid_wall(row, col),
        !v0.clicked(row, col),
        click_step_rel(v0, v1, row, col),
        v1.wf_shape(),
        v1.wf_counters(),
        v1.wf_joints(),
        settle_rel(v0, v1, vf, row, col, player, settled0, settled1),
        vf.statistics.player1_points == owned_count(vf.cells, Player::Player1),
        vf.statistics.player2_points == owned_count(vf.cells, Player::Player2),
        vf.statistics.cpu_points == owned_count(vf.cells, Player::CPU),
        vf.statistics.winner is None,
    ensures
        vf.wf(),
{
    lemma_expected_cells_valid(v0, row, col);
    assert(vf.wf_shape());
    assert(vf.wf_counters()) by {
        assert(forall|i: int, j: int|
            vf.valid_cell(i, j) ==> (#[trigger] vf.cells[i][j]).counter
                == v1.cells[i][j].counter);
    }
    assert(vf.wf_joints());
    assert(vf.wf_owners()) by {
        assert forall|i: int, j: int| vf.valid_cell(i, j) implies ((
        #[trigger] vf.cells[i][j]).owner.is_some() <==> vf.cells[i][j].counter == 4) by {
            lemma_touch_iff_adjacent(v0, row, col, i, j);
        }
    }
}

/// After settlement each cell is owned by the mover exactly when this
/// click completed it, and otherwise keeps its old owner.
#[verifier::rlimit(100)]
proof fn lemma_click_owners(
    v0: BoardV,
    v1: BoardV,
    vf: BoardV,
    row: int,
    col: int,
    player: Player,
    settled0: bool,
    settled1: bool,
)
    requires
        v0.wf(),
        v0.valid_wall(row, col),
        !v0.clicked(row, col),
        click_step_rel(v0, v1, row, col),
        settle_rel(v0, v1, vf, row, col, player, settled0, settled1),
    ensures
        forall|i: int, j: int|
            v0.valid_cell(i, j) ==> (#[trigger] vf.cells[i][j]).owner == (
            if v0.completes_cell(row, col, i, j) {
                Some(player)
            } else {
                v0.cells[i][j].owner
            }),
{
    let s = v0.expected_cells(row, col);
    lemma_expected_cells_valid(v0, row, col);
    assert forall|i: int, j: int| v0.valid_cell(i, j) implies (#[trigger] vf.cells[i][j]).owner
        == (if v0.completes_cell(row, col, i, j) {
        Some(player)
    } else {
        v0.cells[i][j].owner
    }) by {
        lemma_touch_iff_adjacent(v0, row, col, i, j);
        if v0.wall_touches_cell(row, col, i, j) {
            assert(s.contains((i as usize, j as usize)));
            let k = choose|k: int| 0 <= k < s.len() && s[k] == (i as usize, j as usize);
            assert(k == 0 || k == 1);
        } else {
            assert(s[0] != (i as usize, j as usize));
            if s.len() > 1 {
                assert(s[1] != (i as usize, j as usize));
            }
        }
    }
}

/// The two settlement flags line up with the specification: one of
/// them is raised exactly when the click completes a box, and their
/// sum is the number of boxes the click completes.
#[verifier::rlimit(100)]
proof fn lemma_click_completes(
    v0: BoardV,
    v1: BoardV,
    row: int,
    col: int,
    settled0: bool,
    settled1: bool,
)
    requires
        v0.wf(),
        v0.valid_wall(row, col),
        !v0.clicked(row, col),
        click_step_rel(v0, v1, row, col),
        ({
            let s = v0.expected_cells(row, col);
            &&& settled0 == (v1.cells[s[0].0 as int][s[0].1 as int].counter == 4)
            &&& settled1 == (s.len() > 1 && v1.cells[s[1].0 as int][s[1].1 as int].counter == 4)
        }),
    ensures
        (settled0 || settled1) == v0.completes_any(row, col),
        v0.completed_delta(row, col) == (if settled0 {
            1int
        } else {
            0int
        }) + (if settled1 {
            1int
        } else {
            0int
        }),
{
    let s = v0.expected_cells(row, col);
    lemma_expected_cells_valid(v0, row, col);
    if settled0 {
        assert(v0.completes_cell(row, col, s[0].0 as int, s[0].1 as int));
    }
    if settled1 {
        assert(v0.completes_cell(row, col, s[1].0 as int, s[1].1 as int));
    }
    if v0.completes_any(row, col) {
        let (i, j) = choose|i: int, j: int| v0.completes_cell(row, col, i, j);
        lemma_touch_iff_adjacent(v0, row, col, i, j);
        assert(s.contains((i as usize, j as usize)));
        let k = choose|k: int| 0 <= k < s.len() && s[k] == (i as usize, j as usize);
        assert(k == 0 || k == 1);
        assert(settled0 || settled1);
    }
}

/// A wall's adjacency list holds only valid cells, each touched by the
/// wall, with no duplicates, and it is never empty.
pub proof fn lemma_expected_cells_valid(v: BoardV, r: int, c: int)
    requires
        v.wf_dims(),
        v.valid_wall(r, c),
    ensures
        1 <= v.expected_cells(r, c).len() <= 2,
        forall|k: int|
            0 <= k < v.expected_cells(r, c).len() ==> {
                let cell = #[trigger] v.expected_cells(r, c)[k];
                &&& v.valid_cell(cell.0 as int, cell.1 as int)
                &&& v.wall_touches_cell(r, c, cell.0 as int, cell.1 as int)
            },
        v.expected_cells(r, c).len() == 2 ==> v.expected_cells(r, c)[0] != v.expected_cells(
            r,
            c,
        )[1],
{
}

/// On a board where no cell is owned, every player's owned count is zero.
proof fn lemma_row_owned_none_is_zero(cells: Seq<Seq<Cell>>, p: Player)
    requires
        forall|i: int, j: int|
            0 <= i < cells.len() && 0 <= j < (#[trigger] cells[i]).len() ==> (#[trigger] cells[i][j]).owner is None,
    ensures
        owned_count(cells, p) == 0,
    decreases cells.len(),
{
    if cells.len() > 0 {
        lemma_row_owned_none_is_zero(cells.drop_last(), p);
        lemma_one_row_owned_none_is_zero(cells.last(), p);
    }
}

proof fn lemma_one_row_owned_none_is_zero(row: Seq<Cell>, p: Player)
    requires
        forall|j: int| 0 <= j < row.len() ==> (#[trigger] row[j]).owner is None,
    ensures
        row_owned(row, p) == 0,
    decreases row.len(),
{
    if row.len() > 0 {
        lemma_one_row_owned_none_is_zero(row.drop_last(), p);
    }
}

} // verus!
