//! The seven piece shapes, their spawn placement, and quarter-turn rotation.
use rand::Rng;
use vstd::prelude::*;

verus! {

/// The seven basic piece kinds.
#[derive(Clone, Copy, Debug, PartialEq, Eq, Structural)]
pub enum Tetramino {
    I,
    J,
    L,
    O,
    S,
    T,
    Z,
}

/// A piece on the board: a square occupancy grid, its color and the board
/// position (column, row) of the grid's top-left cell.
#[derive(Debug)]
pub struct FallingPiece {
    pub color: u8,
    pub piece_grid: Vec<Vec<bool>>,
    pub xpos: i16,
    pub ypos: i16,
}

/// The rows of a grid, each row as a sequence.
pub open spec fn grid_view(g: Seq<Vec<bool>>) -> Seq<Seq<bool>> {
    Seq::new(g.len(), |i: int| g[i]@)
}

pub open spec fn is_square(g: Seq<Seq<bool>>) -> bool {
    forall|i: int| 0 <= i < g.len() ==> (#[trigger] g[i]).len() == g.len()
}

/// The grid occupies at least one cell.
pub open spec fn has_cell(g: Seq<Seq<bool>>) -> bool {
    exists|i: int, j: int| 0 <= i < g.len() && 0 <= j < g[i].len() && #[trigger] g[i][j]
}

/// The color tags of the seven pieces.
pub open spec fn is_piece_color(c: u8) -> bool {
    31 <= c <= 37
}

/// The grid turned a quarter turn clockwise: the cell at (i, j) moves to
/// (j, n - 1 - i).
pub open spec fn rotated(g: Seq<Seq<bool>>) -> Seq<Seq<bool>> {
    Seq::new(g.len(), |i: int| Seq::new(g.len(), |j: int| g[g.len() - 1 - j][i]))
}

pub open spec fn kind_grid(t: Tetramino) -> Seq<Seq<bool>> {
    match t {
        Tetramino::I => seq![
            seq![false, false, false, false],
            seq![true, true, true, true],
            seq![false, false, false, false],
            seq![false, false, false, false],
        ],
        Tetramino::J => seq![
            seq![true, false, false],
            seq![true, true, true],
            seq![false, false, false],
        ],
        Tetramino::L => seq![
            seq![false, false, true],
            seq![true, true, true],
            seq![false, false, false],
        ],
        Tetramino::O => seq![seq![true, true], seq![true, true]],
        Tetramino::S => seq![
            seq![false, true, true],
            seq![true, true, false],
            seq![false, false, false],
        ],
        Tetramino::T => seq![
            seq![false, true, false],
            seq![true, true, true],
            seq![false, false, false],
        ],
        Tetramino::Z => seq![
            seq![true, true, false],
            seq![false, true, true],
            seq![false, false, false],
        ],
    }
}

pub open spec fn kind_color(t: Tetramino) -> u8 {
    match t {
        Tetramino::I => 36,
        Tetramino::J => 34,
        Tetramino::L => 33,
        Tetramino::O => 37,
        Tetramino::S => 32,
        Tetramino::T => 35,
        Tetramino::Z => 31,
    }
}

/// Spawn column: the wide I and O start one column further right.
pub open spec fn kind_xpos(t: Tetramino) -> i16 {
    match t {
        Tetramino::I | Tetramino::O => 4,
        _ => 3,
    }
}

pub open spec fn kind_of_index(n: u8) -> Tetramino {
    if n == 0 {
        Tetramino::I
    } else if n == 1 {
        Tetramino::J
    } else if n == 2 {
        Tetramino::L
    } else if n == 3 {
        Tetramino::O
    } else if n == 4 {
        Tetramino::S
    } else if n == 5 {
        Tetramino::T
    } else {
        Tetramino::Z
    }
}

impl FallingPiece {
    pub open spec fn grid(&self) -> Seq<Seq<bool>> {
        grid_view(self.piece_grid@)
    }

    /// A piece of one of the catalog's shapes, positioned where the board's
    /// collision rules can have left it.
    pub open spec fn wf(&self) -> bool {
        &&& 2 <= self.grid().len() <= 4
        &&& is_square(self.grid())
        &&& has_cell(self.grid())
        &&& is_piece_color(self.color)
        &&& -3 <= self.xpos <= 9
        &&& 0 <= self.ypos <= 19
    }

    /// The piece of kind `t` as it appears at the top of the board.
    pub open spec fn is_spawn_of(&self, t: Tetramino) -> bool {
        &&& self.grid() == kind_grid(t)
        &&& self.color == kind_color(t)
        &&& self.xpos == kind_xpos(t)
        &&& self.ypos == 0
    }
}


/// Relies on rand's thread-local generator and `Rng::gen_range`: a value in
/// the inclusive range 0 to 6, each equally likely.
#[verifier::external_body]
fn random_kind_index() -> (r: u8)
    ensures
        r <= 6,
{
    rand::thread_rng().gen_range(0..=6u8)
}

impl Tetramino {
    /// The kind numbered `n` in the order I, J, L, O, S, T, Z; any number
    /// past 5 gives Z.
    pub fn from_index(n: u8) -> (t: Tetramino)
        ensures
            t == kind_of_index(n),
    {
        match n {
            0 => Tetramino::I,
            1 => Tetramino::J,
            2 => Tetramino::L,
            3 => Tetramino::O,
            4 => Tetramino::S,
            5 => Tetramino::T,
            _ => Tetramino::Z,
        }
    }
}

proof fn lemma_grid_literal(v: Vec<Vec<bool>>, g: Seq<Seq<bool>>)
    requires
        v@.len() == g.len(),
        forall|i: int| 0 <= i < g.len() ==> (#[trigger] v@[i])@ == g[i],
    ensures
        grid_view(v@) == g,
{
    assert(grid_view(v@) =~= g);
}

impl FallingPiece {
    /// The piece of kind `t` at its spawn position on row 0.
    pub fn of_kind(t: Tetramino) -> (p: FallingPiece)
        ensures
            p.is_spawn_of(t),
            p.wf(),
    {
        let ypos: i16 = 0;
        match t {
            Tetramino::I => {
                let piece_grid = vec![
                    vec![false, false, false, false],
                    vec![true, true, true, true],
                    vec![false, false, false, false],
                    vec![false, false, false, false],
                ];
                proof {
                    lemma_grid_literal(piece_grid, kind_grid(t));
                    assert(kind_grid(t)[1][0]);
                }
                FallingPiece { xpos: 4, ypos, color: 36, piece_grid }
            },
            Tetramino::J => {
                let piece_grid = vec![
                    vec![true, false, false],
                    vec![true, true, true],
                    vec![false, false, false],
                ];
                proof {
                    lemma_grid_literal(piece_grid, kind_grid(t));
                    assert(kind_grid(t)[1][0]);
                }
                FallingPiece { xpos: 3, ypos, color: 34, piece_grid }
            },
            Tetramino::L => {
                let piece_grid = vec![
                    vec![false, false, true],
                    vec![true, true, true],
                    vec![false, false, false],
                ];
                proof {
                    lemma_grid_literal(piece_grid, kind_grid(t));
                    assert(kind_grid(t)[1][0]);
                }
                FallingPiece { xpos: 3, ypos, color: 33, piece_grid }
            },
            Tetramino::O => {
                let piece_grid = vec![vec![true, true], vec![true, true]];
                proof {
                    lemma_grid_literal(piece_grid, kind_grid(t));
                    assert(kind_grid(t)[1][0]);
                }
                FallingPiece { xpos: 4, ypos, color: 37, piece_grid }
            },
            Tetramino::S => {
                let piece_grid = vec![
                    vec![false, true, true],
                    vec![true, true, false],
                    vec![false, false, false],
                ];
                proof {
                    lemma_grid_literal(piece_grid, kind_grid(t));
                    assert(kind_grid(t)[1][0]);
                }
                FallingPiece { xpos: 3, ypos, color: 32, piece_grid }
            },
            Tetramino::T => {
                let piece_grid = vec![
                    vec![false, true, false],
                    vec![true, true, true],
                    vec![false, false, false],
                ];
                proof {
                    lemma_grid_literal(piece_grid, kind_grid(t));
                    assert(kind_grid(t)[1][0]);
                }
                FallingPiece { xpos: 3, ypos, color: 35, piece_grid }
            },
            Tetramino::Z => {
                let piece_grid = vec![
                    vec![true, true, false],
                    vec![false, true, true],
                    vec![false, false, false],
                ];
                proof {
                    lemma_grid_literal(piece_grid, kind_grid(t));
                    assert(kind_grid(t)[1][1]);
                }
                FallingPiece { xpos: 3, ypos, color: 31, piece_grid }
            },
        }
    }

    /// A piece of a kind drawn uniformly at random, at its spawn position.
    pub fn new() -> (p: FallingPiece)
        ensures
            exists|t: Tetramino| #[trigger] p.is_spawn_of(t),
            p.wf(),
    {
        let n = random_kind_index();
        FallingPiece::of_kind(Tetramino::from_index(n))
    }
}

/// The grid turned a quarter turn clockwise (see `rotated`).
pub fn rotate_grid(piece_grid: &Vec<Vec<bool>>) -> (r: Vec<Vec<bool>>)
    requires
        is_square(grid_view(piece_grid@)),
    ensures
        grid_view(r@) == rotated(grid_view(piece_grid@)),
{
    let ghost g = grid_view(piece_grid@);
    let grid_size = piece_grid.len();
    let mut rotated_grid: Vec<Vec<bool>> = Vec::new();
    let mut i: usize = 0;
    while i < grid_size
        invariant
            g == grid_view(piece_grid@),
            grid_size == g.len(),
            is_square(g),
            i <= grid_size,
            rotated_grid@.len() == i,
            forall|a: int| 0 <= a < i ==> (#[trigger] rotated_grid@[a])@ == rotated(g)[a],
        decreases grid_size - i,
    {
        let mut row: Vec<bool> = Vec::new();
        let mut j: usize = 0;
        while j < grid_size
            invariant
                g == grid_view(piece_grid@),
                grid_size == g.len(),
                is_square(g),
                i < grid_size,
                j <= grid_size,
                row@.len() == j,
                forall|b: int| 0 <= b < j ==> #[trigger] row@[b] == g[grid_size - 1 - b][i as int],
            decreases grid_size - j,
        {
            let src = grid_size - 1 - j;
            assert(g[src as int] == piece_grid@[src as int]@);
            assert(g[src as int].len() == grid_size);
            row.push(piece_grid[src][i]);
            j += 1;
        }
        assert(row@ =~= rotated(g)[i as int]);
        rotated_grid.push(row);
        i += 1;
    }
    assert(grid_view(rotated_grid@) =~= rotated(g));
    rotated_grid
}

/// A quarter turn keeps a grid square and of the same size.
pub proof fn lemma_rotated_square(g: Seq<Seq<bool>>)
    ensures
        is_square(rotated(g)),
        rotated(g).len() == g.len(),
{
}

/// A quarter turn keeps an occupied cell: the cell at (i, j) lands on
/// (j, n - 1 - i).
pub proof fn lemma_rotated_has_cell(g: Seq<Seq<bool>>)
    requires
        is_square(g),
        has_cell(g),
    ensures
        has_cell(rotated(g)),
{
    let (i, j) = choose|i: int, j: int| 0 <= i < g.len() && 0 <= j < g[i].len() && #[trigger] g[i][j];
    let r = rotated(g);
    assert(r[j][g.len() - 1 - i]);
}

/// Four quarter turns give back the grid one started with.
pub proof fn lemma_rotate_four(g: Seq<Seq<bool>>)
    requires
        is_square(g),
    ensures
        rotated(rotated(rotated(rotated(g)))) == g,
{
    let n = g.len();
    let r1 = rotated(g);
    let r2 = rotated(r1);
    let r3 = rotated(r2);
    let r4 = rotated(r3);
    assert forall|i: int| 0 <= i < n implies #[trigger] r4[i] =~= g[i] by {
        assert forall|j: int| 0 <= j < n implies r4[i][j] == g[i][j] by {
            assert(r4[i][j] == r3[n - 1 - j][i]);
            assert(r3[n - 1 - j][i] == r2[n - 1 - i][n - 1 - j]);
            assert(r2[n - 1 - i][n - 1 - j] == r1[j][n - 1 - i]);
            assert(r1[j][n - 1 - i] == g[i][j]);
        }
    }
    assert(r4 =~= g);
}

} // verus!
