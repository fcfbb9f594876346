//! State of a running game and its transitions: moves, rotation, gravity,
//! landing and line clearing.
use crate::board::{
    blocked, board_colors_ok, board_view, cleared, collides_at, completed_count, covers, empty_row,
    fused, kept_rows, lemma_fit_bounds, lemma_fused_colors, lemma_kept_colors, lemma_kept_count,
    row_colors_ok, row_full, rows_of, Board,
};
use crate::piece::{
    is_piece_color, is_square, lemma_rotated_has_cell, lemma_rotated_square, rotate_grid, rotated,
    FallingPiece, Tetramino,
};
use vstd::prelude::*;

verus! {

/// State of a game: the settled blocks, the falling piece, the preview of
/// the next piece, the score and whether the game is over.
pub struct Game {
    pub blocks: Board,
    pub current_piece: FallingPiece,
    pub next_piece: FallingPiece,
    pub score: u64,
    pub tickrate_ms: u64,
    pub game_over: bool,
}

/// The game with its falling piece moved to row `y`.
pub open spec fn at_row(g: Game, y: int) -> Game {
    Game { current_piece: FallingPiece { ypos: y as i16, ..g.current_piece }, ..g }
}

/// The row where the falling piece comes to rest when it keeps falling from
/// row `y`: the first row from which one more row down collides.
pub open spec fn rest_row(b: Board, g: Seq<Seq<bool>>, x: int, y: int) -> int
    decreases 20 - y,
{
    if y >= 19 || collides_at(b, g, x, y + 1) {
        y
    } else {
        rest_row(b, g, x, y + 1)
    }
}

/// What a gravity step does when the piece cannot fall: on the top row the
/// game is over and nothing else changes; below it the piece is fused into
/// the board, complete rows are cleared and counted, and the next piece
/// becomes the falling one.
pub open spec fn lands(pre: Game, post: Game) -> bool {
    if pre.current_piece.ypos == 0 {
        post == Game { game_over: true, ..pre }
    } else {
        let b = fused(pre.blocks, pre.current_piece);
        &&& board_view(post.blocks) == cleared(b)
        &&& post.score == pre.score + completed_count(b)
        &&& post.current_piece == pre.next_piece
        &&& exists|t: Tetramino| #[trigger] post.next_piece.is_spawn_of(t)
        &&& post.tickrate_ms == pre.tickrate_ms
        &&& post.game_over == pre.game_over
    }
}

/// The falling piece collides one row down.
pub open spec fn blocked_below(g: Game) -> bool {
    collides_at(
        g.blocks,
        g.current_piece.grid(),
        g.current_piece.xpos as int,
        g.current_piece.ypos + 1,
    )
}

/// The game after a sideways move by `dx` columns: unchanged when the moved
/// piece would collide.
pub open spec fn shifted(pre: Game, dx: int) -> Game {
    let p = pre.current_piece;
    if collides_at(pre.blocks, p.grid(), p.xpos + dx, p.ypos as int) {
        pre
    } else {
        Game { current_piece: FallingPiece { xpos: (p.xpos + dx) as i16, ..p }, ..pre }
    }
}

/// `post` is `pre` after a rotation attempt: unchanged when the turned piece
/// would collide, else the same but for the piece's grid, turned.
pub open spec fn turned(pre: Game, post: Game) -> bool {
    let p = pre.current_piece;
    if collides_at(pre.blocks, rotated(p.grid()), p.xpos as int, p.ypos as int) {
        post == pre
    } else {
        &&& post == Game { current_piece: post.current_piece, ..pre }
        &&& post.current_piece.grid() == rotated(p.grid())
        &&& post.current_piece.color == p.color
        &&& post.current_piece.xpos == p.xpos
        &&& post.current_piece.ypos == p.ypos
    }
}

/// The commands a player can give.
#[derive(Clone, Copy, Debug, PartialEq, Eq, Structural)]
pub enum Command {
    MoveLeft,
    MoveRight,
    Rotate,
    HardDrop,
    Quit,
}

/// The key bindings (ASCII): j and l move, i rotates, k drops, q quits.
pub open spec fn key_command(key: u8) -> Option<Command> {
    if key == 0x71 {
        Some(Command::Quit)
    } else if key == 0x6a {
        Some(Command::MoveLeft)
    } else if key == 0x6c {
        Some(Command::MoveRight)
    } else if key == 0x69 {
        Some(Command::Rotate)
    } else if key == 0x6b {
        Some(Command::HardDrop)
    } else {
        None
    }
}

impl Command {
    /// The command bound to a key, if any; other keys are ignored.
    pub fn from_key(key: u8) -> (c: Option<Command>)
        ensures
            c == key_command(key),
    {
        match key {
            0x71 => Some(Command::Quit),
            0x6a => Some(Command::MoveLeft),
            0x6c => Some(Command::MoveRight),
            0x69 => Some(Command::Rotate),
            0x6b => Some(Command::HardDrop),
            _ => None,
        }
    }
}

/// The cell shown at (r, c): the falling piece's color where it covers the
/// cell, else the board's.
pub open spec fn shown(g: Game, r: int, c: int) -> u8 {
    if covers(g.current_piece, r, c) {
        g.current_piece.color
    } else {
        g.blocks[r][c]
    }
}

impl Game {
    /// The pieces are well formed, the board holds only piece colors, and the
    /// falling piece overlaps nothing once it has left the top row.
    pub open spec fn wf(&self) -> bool {
        &&& self.current_piece.wf()
        &&& self.next_piece.wf()
        &&& self.next_piece.ypos == 0
        &&& board_colors_ok(self.blocks)
        &&& self.current_piece.ypos > 0 ==> !collides_at(
            self.blocks,
            self.current_piece.grid(),
            self.current_piece.xpos as int,
            self.current_piece.ypos as int,
        )
    }

    /// A new game: an empty board, two pieces drawn at random, no score, and
    /// gravity every 250 ms.
    pub fn new() -> (g: Game)
        ensures
            g.wf(),
            forall|r: int, c: int| 0 <= r < 20 && 0 <= c < 10 ==> #[trigger] g.blocks[r][c] == 0,
            exists|t: Tetramino| #[trigger] g.current_piece.is_spawn_of(t),
            exists|t: Tetramino| #[trigger] g.next_piece.is_spawn_of(t),
            g.score == 0,
            g.tickrate_ms == 250,
            !g.game_over,
    {
        let current_piece = FallingPiece::new();
        let next_piece = FallingPiece::new();
        let g = Game {
            blocks: [[0u8; 10]; 20],
            score: 0,
            current_piece,
            next_piece,
            tickrate_ms: 250,
            game_over: false,
        };
        assert(g.next_piece == next_piece);
        g
    }

    /// Whether enough time has passed since the last gravity step for the
    /// next one.
    pub fn tick_due(&self, elapsed_ms: u64) -> (r: bool)
        ensures
            r == (elapsed_ms >= self.tickrate_ms),
    {
        elapsed_ms >= self.tickrate_ms
    }

    /// Carry out a player command. Quitting ends the game loop and is no
    /// change of state.
    pub fn apply(&mut self, cmd: Command)
        requires
            old(self).wf(),
            old(self).score <= u64::MAX - 20,
        ensures
            final(self).wf(),
            match cmd {
                Command::MoveLeft => *final(self) == shifted(*old(self), -1),
                Command::MoveRight => *final(self) == shifted(*old(self), 1),
                Command::Rotate => turned(*old(self), *final(self)),
                Command::HardDrop => lands(
                    at_row(
                        *old(self),
                        rest_row(
                            old(self).blocks,
                            old(self).current_piece.grid(),
                            old(self).current_piece.xpos as int,
                            old(self).current_piece.ypos as int,
                        ),
                    ),
                    *final(self),
                ),
                Command::Quit => *final(self) == *old(self),
            },
    {
        match cmd {
            Command::MoveLeft => self.move_piece(false),
            Command::MoveRight => self.move_piece(true),
            Command::Rotate => self.attempt_rotatation(),
            Command::HardDrop => self.hard_drop(),
            Command::Quit => {},
        }
    }

    /// The cells to show: the board with the falling piece drawn over it.
    pub fn draw(&self) -> (cells: Board)
        requires
            self.current_piece.wf(),
        ensures
            forall|r: int, c: int| 0 <= r < 20 && 0 <= c < 10 ==> #[trigger] cells[r][c] == shown(*self, r, c),
    {
        let ghost p = self.current_piece;
        let ghost g = p.grid();
        let mut cells: Board = self.blocks;
        let n = self.current_piece.piece_grid.len();
        let x = self.current_piece.xpos;
        let y = self.current_piece.ypos;
        let color = self.current_piece.color;
        let mut i: usize = 0;
        while i < n
            invariant
                p == self.current_piece,
                g == p.grid(),
                p.wf(),
                n == g.len(),
                x == p.xpos,
                y == p.ypos,
                color == p.color,
                i <= n,
                forall|r: int, c: int|
                    0 <= r < 20 && 0 <= c < 10 ==> #[trigger] cells[r][c] == if covers(p, r, c) && r - y < i {
                        color
                    } else {
                        self.blocks[r][c]
                    },
            decreases n - i,
        {
            let mut j: usize = 0;
            while j < n
                invariant
                    p == self.current_piece,
                    g == p.grid(),
                    p.wf(),
                    n == g.len(),
                    x == p.xpos,
                    y == p.ypos,
                    color == p.color,
                    i < n,
                    j <= n,
                    forall|r: int, c: int|
                        0 <= r < 20 && 0 <= c < 10 ==> #[trigger] cells[r][c] == if covers(p, r, c) && (r - y < i
                            || (r - y == i && c - x < j)) {
                            color
                        } else {
                            self.blocks[r][c]
                        },
                decreases n - j,
            {
                assert(g[i as int] == self.current_piece.piece_grid@[i as int]@);
                assert(g[i as int].len() == n);
                let r: usize = (y as usize) + i;
                let c: i32 = x as i32 + j as i32;
                if self.current_piece.piece_grid[i][j] && r < 20 && 0 <= c && c < 10 {
                    cells[r][c as usize] = color;
                }
                j += 1;
            }
            i += 1;
        }
        cells
    }

    /// Whether `piece`, moved by `xoffset` columns and `yoffset` rows, would
    /// have an occupied cell below the board, beside it, or on a filled cell.
    pub fn offset_position_collides(&self, piece: &FallingPiece, xoffset: i16, yoffset: usize) -> (r: bool)
        requires
            piece.wf(),
        ensures
            r == collides_at(
                self.blocks,
                piece.grid(),
                piece.xpos as int + xoffset as int,
                piece.ypos as int + yoffset as int,
            ),
    {
        let ghost g = piece.grid();
        let ghost x: int = piece.xpos as int + xoffset as int;
        let ghost y: int = piece.ypos as int + yoffset as int;
        let n = piece.piece_grid.len();
        if yoffset > 20 {
            proof {
                let (i, j) = choose|i: int, j: int|
                    0 <= i < g.len() && 0 <= j < g[i].len() && #[trigger] g[i][j];
                assert(blocked(self.blocks, y + i, x + j));
            }
            return true;
        }
        let nextx: i32 = piece.xpos as i32 + xoffset as i32;
        let nexty: usize = piece.ypos as usize + yoffset;
        let mut i: usize = 0;
        while i < n
            invariant
                g == piece.grid(),
                n == g.len(),
                is_square(g),
                n <= 4,
                x == nextx,
                y == nexty,
                x == piece.xpos as int + xoffset as int,
                y == piece.ypos as int + yoffset as int,
                nexty <= 40,
                -32768 - 3 <= nextx <= 32767 + 9,
                i <= n,
                forall|a: int, b: int| 0 <= a < i && 0 <= b < n && #[trigger] g[a][b] ==> !blocked(self.blocks, y + a, x + b),
            decreases n - i,
        {
            let row = &piece.piece_grid[i];
            assert(row@ == g[i as int]);
            let mut j: usize = 0;
            while j < n
                invariant
                    g == piece.grid(),
                    n == g.len(),
                    is_square(g),
                    n <= 4,
                    x == nextx,
                    y == nexty,
                    x == piece.xpos as int + xoffset as int,
                    y == piece.ypos as int + yoffset as int,
                    nexty <= 40,
                    -32768 - 3 <= nextx <= 32767 + 9,
                    i < n,
                    j <= n,
                    row@ == g[i as int],
                    forall|a: int, b: int| 0 <= a < i && 0 <= b < n && #[trigger] g[a][b] ==> !blocked(self.blocks, y + a, x + b),
                    forall|b: int| 0 <= b < j && #[trigger] g[i as int][b] ==> !blocked(self.blocks, y + i, x + b),
                decreases n - j,
            {
                if row[j] {
                    let r: usize = nexty + i;
                    let c: i32 = nextx + j as i32;
                    if r > 19 || c < 0 || c > 9 || self.blocks[r][c as usize] != 0 {
                        assert(g[i as int].len() == n);
                        assert(g[i as int][j as int]);
                        assert(blocked(self.blocks, y + i, x + j));
                        return true;
                    }
                }
                j += 1;
            }
            i += 1;
        }
        false
    }

    /// Move the falling piece one column left (`false`) or right (`true`),
    /// unless it would collide there; a blocked move changes nothing.
    pub fn move_piece(&mut self, direction: bool)
        requires
            old(self).wf(),
        ensures
            final(self).wf(),
            *final(self) == shifted(*old(self), if direction { 1 } else { -1 }),
    {
        match direction {
            false => {
                if !self.offset_position_collides(&self.current_piece, -1, 0) {
                    proof {
                        let p = self.current_piece;
                        lemma_fit_bounds(self.blocks, p.grid(), p.xpos - 1, p.ypos as int);
                    }
                    self.current_piece.xpos = self.current_piece.xpos - 1;
                }
            },
            true => {
                if !self.offset_position_collides(&self.current_piece, 1, 0) {
                    proof {
                        let p = self.current_piece;
                        lemma_fit_bounds(self.blocks, p.grid(), p.xpos + 1, p.ypos as int);
                    }
                    self.current_piece.xpos = self.current_piece.xpos + 1;
                }
            },
        }
    }

    /// Turn the falling piece a quarter turn clockwise in place, unless the
    /// turned piece would collide; then nothing changes.
    pub fn attempt_rotatation(&mut self)
        requires
            old(self).wf(),
        ensures
            final(self).wf(),
            turned(*old(self), *final(self)),
    {
        let rotated_piece = FallingPiece {
            color: self.current_piece.color,
            piece_grid: rotate_grid(&self.current_piece.piece_grid),
            xpos: self.current_piece.xpos,
            ypos: self.current_piece.ypos,
        };
        proof {
            let g = self.current_piece.grid();
            lemma_rotated_square(g);
            lemma_rotated_has_cell(g);
        }
        if !self.offset_position_collides(&rotated_piece, 0, 0) {
            self.current_piece = rotated_piece;
        }
    }



    /// One gravity step. Returns `false` when the piece moved down a row, and
    /// `true` when it could not: then it landed, or on the top row the game
    /// is over.
    pub fn step(&mut self) -> (landed: bool)
        requires
            old(self).wf(),
            old(self).score <= u64::MAX - 20,
        ensures
            final(self).wf(),
            landed == blocked_below(*old(self)),
            final(self).game_over == (old(self).game_over || (landed && old(self).current_piece.ypos == 0)),
            landed ==> lands(*old(self), *final(self)),
            !landed ==> *final(self) == at_row(*old(self), old(self).current_piece.ypos + 1),
    {
        if self.offset_position_collides(&self.current_piece, 0, 1) {
            if self.current_piece.ypos == 0 {
                self.game_over = true;
                assert(*self == Game { game_over: true, ..*old(self) });
                return true;
            }
            self.fuse_block();
            proof {
                lemma_fused_colors(old(self).blocks, old(self).current_piece);
            }
            self.handle_completed_lines();
            let mut promoted = FallingPiece::new();
            let ghost fresh = promoted;
            std::mem::swap(&mut promoted, &mut self.next_piece);
            self.current_piece = promoted;
            assert(self.next_piece == fresh);
            assert(exists|t: Tetramino| #[trigger] fresh.is_spawn_of(t));
            true
        } else {
            proof {
                let p = self.current_piece;
                lemma_fit_bounds(self.blocks, p.grid(), p.xpos as int, p.ypos + 1);
            }
            self.current_piece.ypos = self.current_piece.ypos + 1;
            proof {
                assert(*self == at_row(*old(self), old(self).current_piece.ypos + 1));
            }
            false
        }
    }

    /// Let the piece fall until it lands (or the game ends), all at once.
    pub fn hard_drop(&mut self)
        requires
            old(self).wf(),
            old(self).score <= u64::MAX - 20,
        ensures
            final(self).wf(),
            lands(
                at_row(
                    *old(self),
                    rest_row(
                        old(self).blocks,
                        old(self).current_piece.grid(),
                        old(self).current_piece.xpos as int,
                        old(self).current_piece.ypos as int,
                    ),
                ),
                *final(self),
            ),
    {
        let ghost pre = *self;
        let ghost rest = rest_row(
            pre.blocks,
            pre.current_piece.grid(),
            pre.current_piece.xpos as int,
            pre.current_piece.ypos as int,
        );
        let mut landed = false;
        while !landed
            invariant
                self.wf(),
                !landed ==> self.score <= u64::MAX - 20,
                !landed ==> *self == at_row(pre, self.current_piece.ypos as int),
                !landed ==> rest == rest_row(
                    pre.blocks,
                    pre.current_piece.grid(),
                    pre.current_piece.xpos as int,
                    self.current_piece.ypos as int,
                ),
                landed ==> lands(at_row(pre, rest), *self),
            decreases (if landed { 0int } else { 21 - self.current_piece.ypos }),
        {
            let ghost before = *self;
            landed = self.step();
            proof {
                let y = before.current_piece.ypos as int;
                let g = pre.current_piece.grid();
                let x = pre.current_piece.xpos as int;
                if landed {
                    assert(rest_row(pre.blocks, g, x, y) == y);
                } else {
                    lemma_fit_bounds(before.blocks, g, x, y + 1);
                    assert(at_row(before, y + 1) == at_row(pre, y + 1));
                }
            }
        }
    }

    /// Count the complete rows into the score, take them out, drop the rows
    /// above them, and fill the top with empty rows.
    pub fn handle_completed_lines(&mut self)
        requires
            old(self).score <= u64::MAX - 20,
        ensures
            board_view(final(self).blocks) == cleared(board_view(old(self).blocks)),
            final(self).score == old(self).score + completed_count(board_view(old(self).blocks)),
            board_colors_ok(old(self).blocks) ==> board_colors_ok(final(self).blocks),
            final(self).current_piece == old(self).current_piece,
            final(self).next_piece == old(self).next_piece,
            final(self).tickrate_ms == old(self).tickrate_ms,
            final(self).game_over == old(self).game_over,
    {
        let ghost rows = board_view(self.blocks);
        let mut kept: Vec<[u8; 10]> = Vec::new();
        let mut completed: usize = 0;
        let mut i: usize = 0;
        while i < 20
            invariant
                rows == board_view(self.blocks),
                i <= 20,
                rows_of(kept@) == kept_rows(rows.subrange(0, i as int)),
                completed == completed_count(rows.subrange(0, i as int)),
                completed <= i,
            decreases 20 - i,
        {
            let row = self.blocks[i];
            proof {
                let front = rows.subrange(0, i as int + 1);
                assert(front.drop_last() =~= rows.subrange(0, i as int));
                assert(front.last() == row@);
            }
            if row_full(&row) {
                completed += 1;
            } else {
                kept.push(row);
                proof {
                    assert(rows_of(kept@) =~= kept_rows(rows.subrange(0, i as int)).push(row@));
                }
            }
            i += 1;
        }
        proof {
            assert(rows.subrange(0, 20) =~= rows);
            lemma_kept_count(rows);
            if board_colors_ok(self.blocks) {
                assert forall|r: int| 0 <= r < rows.len() implies row_colors_ok(#[trigger] rows[r]) by {
                    assert forall|c: int| 0 <= c < rows[r].len() implies #[trigger] rows[r][c] == 0
                        || is_piece_color(rows[r][c]) by {
                        assert(rows[r][c] == self.blocks[r][c]);
                    }
                }
                lemma_kept_colors(rows);
            }
        }
        self.score = self.score + completed as u64;
        let mut blocks: Board = [[0u8; 10]; 20];
        let n = kept.len();
        let mut k: usize = 0;
        while k < n
            invariant
                n == kept@.len(),
                n + completed == 20,
                rows_of(kept@) == kept_rows(rows),
                k <= n,
                forall|r: int| 0 <= r < 20 && !(completed <= r < completed + k) ==> #[trigger] blocks[r]@ == empty_row(),
                forall|r: int| completed <= r < completed + k ==> #[trigger] blocks[r]@ == kept@[r - completed]@,
            decreases n - k,
        {
            blocks[completed + k] = kept[k];
            proof {
                assert forall|r: int| 0 <= r < 20 && !(completed <= r < completed + k + 1) implies #[trigger] blocks[r]@ == empty_row() by {}
            }
            k += 1;
        }
        proof {
            let c = cleared(rows);
            assert forall|r: int| 0 <= r < 20 implies #[trigger] board_view(blocks)[r] == c[r] by {
                if r < completed {
                    assert(blocks[r]@ =~= empty_row());
                } else {
                    assert(c[r] == kept_rows(rows)[r - completed]);
                    assert(rows_of(kept@)[r - completed] == kept@[r - completed]@);
                }
            }
            assert(board_view(blocks) =~= c);
            if board_colors_ok(old(self).blocks) {
                assert forall|r: int, c: int| 0 <= r < 20 && 0 <= c < 10 implies #[trigger] blocks[r][c] == 0
                    || is_piece_color(blocks[r][c]) by {
                    assert(blocks[r][c] == board_view(blocks)[r][c]);
                    if r >= completed {
                        assert(board_view(blocks)[r] == kept_rows(rows)[r - completed]);
                        assert(row_colors_ok(kept_rows(rows)[r - completed]));
                    }
                }
            }
        }
        self.blocks = blocks;
    }

    /// Write the falling piece's occupied cells into the board in its color.
    /// The piece must fit where it stands, so no filled cell is overwritten.
    pub fn fuse_block(&mut self)
        requires
            old(self).wf(),
            !collides_at(
                old(self).blocks,
                old(self).current_piece.grid(),
                old(self).current_piece.xpos as int,
                old(self).current_piece.ypos as int,
            ),
        ensures
            board_view(final(self).blocks) == fused(old(self).blocks, old(self).current_piece),
            forall|r: int, c: int|
                0 <= r < 20 && 0 <= c < 10 && old(self).blocks[r][c] != 0 ==> #[trigger] final(self).blocks[r][c]
                    == old(self).blocks[r][c],
            board_colors_ok(final(self).blocks),
            final(self).current_piece == old(self).current_piece,
            final(self).next_piece == old(self).next_piece,
            final(self).score == old(self).score,
            final(self).tickrate_ms == old(self).tickrate_ms,
            final(self).game_over == old(self).game_over,
    {
        let ghost p = self.current_piece;
        let ghost b0 = self.blocks;
        let ghost g = p.grid();
        let n = self.current_piece.piece_grid.len();
        let x = self.current_piece.xpos;
        let y = self.current_piece.ypos;
        let color = self.current_piece.color;
        let mut i: usize = 0;
        while i < n
            invariant
                p == self.current_piece,
                g == p.grid(),
                p.wf(),
                n == g.len(),
                x == p.xpos,
                y == p.ypos,
                color == p.color,
                !collides_at(b0, g, x as int, y as int),
                i <= n,
                forall|r: int, c: int|
                    0 <= r < 20 && 0 <= c < 10 ==> #[trigger] self.blocks[r][c] == if covers(p, r, c) && r - y < i {
                        color
                    } else {
                        b0[r][c]
                    },
                self.next_piece == old(self).next_piece,
                self.score == old(self).score,
                self.tickrate_ms == old(self).tickrate_ms,
                self.game_over == old(self).game_over,
            decreases n - i,
        {
            let mut j: usize = 0;
            while j < n
                invariant
                    p == self.current_piece,
                    g == p.grid(),
                    p.wf(),
                    n == g.len(),
                    x == p.xpos,
                    y == p.ypos,
                    color == p.color,
                    !collides_at(b0, g, x as int, y as int),
                    i < n,
                    j <= n,
                    forall|r: int, c: int|
                        0 <= r < 20 && 0 <= c < 10 ==> #[trigger] self.blocks[r][c] == if covers(p, r, c) && (r - y < i
                            || (r - y == i && c - x < j)) {
                            color
                        } else {
                            b0[r][c]
                        },
                    self.next_piece == old(self).next_piece,
                    self.score == old(self).score,
                    self.tickrate_ms == old(self).tickrate_ms,
                    self.game_over == old(self).game_over,
                decreases n - j,
            {
                assert(g[i as int] == self.current_piece.piece_grid@[i as int]@);
                assert(g[i as int].len() == n);
                if self.current_piece.piece_grid[i][j] {
                    assert(g[i as int][j as int]);
                    assert(!blocked(b0, y + i, x + j));
                    let r: usize = (y as usize) + i;
                    let c: usize = (x as i32 + j as i32) as usize;
                    self.blocks[r][c] = color;
                }
                j += 1;
            }
            i += 1;
        }
        proof {
            assert forall|r: int| 0 <= r < 20 implies #[trigger] board_view(self.blocks)[r] =~= fused(b0, p)[r] by {
                assert forall|c: int| 0 <= c < 10 implies board_view(self.blocks)[r][c] == fused(b0, p)[r][c] by {
                    assert(self.blocks[r][c] == board_view(self.blocks)[r][c]);
                }
            }
            assert(board_view(self.blocks) =~= fused(b0, p));
            assert forall|r: int, c: int| 0 <= r < 20 && 0 <= c < 10 && b0[r][c] != 0 implies #[trigger] self.blocks[r][c] == b0[r][c] by {
                if covers(p, r, c) {
                    assert(g[r - y][c - x]);
                    assert(blocked(b0, y + (r - y), x + (c - x)));
                }
            }
        }
    }
}

/// A landing writes only empty cells: every filled cell of the board keeps
/// its color once the falling piece is fused in.
pub proof fn lemma_landing_keeps_filled(g: Game)
    requires
        g.wf(),
        g.current_piece.ypos > 0,
    ensures
        forall|r: int, c: int|
            0 <= r < 20 && 0 <= c < 10 && g.blocks[r][c] != 0 ==> #[trigger] fused(g.blocks, g.current_piece)[r][c]
                == g.blocks[r][c],
{
    let p = g.current_piece;
    let x = p.xpos as int;
    let y = p.ypos as int;
    assert forall|r: int, c: int|
        0 <= r < 20 && 0 <= c < 10 && g.blocks[r][c] != 0 implies #[trigger] fused(g.blocks, p)[r][c]
            == g.blocks[r][c] by {
        if covers(p, r, c) {
            assert(p.grid()[r - y][c - x]);
            assert(blocked(g.blocks, y + (r - y), x + (c - x)));
        }
    }
}

} // verus!
