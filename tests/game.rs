use tetris::game::{Command, Game};
use tetris::piece::{rotate_grid, FallingPiece, Tetramino};

fn game_with(current: Tetramino, next: Tetramino) -> Game {
    Game {
        blocks: [[0u8; 10]; 20],
        current_piece: FallingPiece::of_kind(current),
        next_piece: FallingPiece::of_kind(next),
        score: 0,
        tickrate_ms: 250,
        game_over: false,
    }
}

fn o_at(x: i16, y: i16) -> FallingPiece {
    let mut p = FallingPiece::of_kind(Tetramino::O);
    p.xpos = x;
    p.ypos = y;
    p
}

#[test]
fn collides_on_the_walls_and_floor() {
    let g = game_with(Tetramino::O, Tetramino::T);
    let p = o_at(4, 0);
    assert!(!g.offset_position_collides(&p, 0, 0));
    assert!(!g.offset_position_collides(&p, 4, 18));
    assert!(g.offset_position_collides(&p, -5, 0));
    assert!(g.offset_position_collides(&p, 5, 0));
    assert!(g.offset_position_collides(&p, 0, 19));
    assert!(g.offset_position_collides(&p, 0, 1000));
}

#[test]
fn collides_on_a_filled_cell() {
    let mut g = game_with(Tetramino::O, Tetramino::T);
    g.blocks[5][5] = 31;
    let p = o_at(4, 3);
    assert!(!g.offset_position_collides(&p, 0, 0));
    assert!(g.offset_position_collides(&p, 0, 1));
    assert!(g.offset_position_collides(&p, 0, 2));
    assert!(!g.offset_position_collides(&p, 0, 3));
    assert!(!g.offset_position_collides(&p, -2, 1));
    assert!(g.offset_position_collides(&p, 1, 1));
}

#[test]
fn empty_grid_cells_do_not_collide() {
    let g = game_with(Tetramino::I, Tetramino::T);
    let mut p = FallingPiece::of_kind(Tetramino::I);
    // the occupied row is grid row 1; rows 0, 2 and 3 are empty
    p.xpos = 6;
    p.ypos = 0;
    assert!(!g.offset_position_collides(&p, 0, 18));
    assert!(g.offset_position_collides(&p, 0, 19));
    assert!(g.offset_position_collides(&p, 1, 0));
}

#[test]
fn rotate_grid_turns_clockwise() {
    let g = vec![
        vec![true, true, false],
        vec![false, false, false],
        vec![false, false, true],
    ];
    let r = rotate_grid(&g);
    assert_eq!(
        r,
        vec![
            vec![false, false, true],
            vec![false, false, true],
            vec![true, false, false],
        ]
    );
}

#[test]
fn rotate_grid_four_times_is_identity() {
    for t in [
        Tetramino::I,
        Tetramino::J,
        Tetramino::L,
        Tetramino::O,
        Tetramino::S,
        Tetramino::T,
        Tetramino::Z,
    ] {
        let g = FallingPiece::of_kind(t).piece_grid;
        let r = rotate_grid(&rotate_grid(&rotate_grid(&rotate_grid(&g))));
        assert_eq!(r, g);
        if t != Tetramino::O {
            assert_ne!(rotate_grid(&g), g);
        }
    }
}

#[test]
fn rotate_i_grid_gives_vertical_bar() {
    let g = FallingPiece::of_kind(Tetramino::I).piece_grid;
    let r = rotate_grid(&g);
    for row in 0..4 {
        for col in 0..4 {
            assert_eq!(r[row][col], col == 2);
        }
    }
}

#[test]
fn move_left_when_blocked_keeps_position() {
    let mut g = game_with(Tetramino::O, Tetramino::T);
    g.current_piece = o_at(0, 5);
    g.move_piece(false);
    assert_eq!(g.current_piece.xpos, 0);
    assert_eq!(g.current_piece.ypos, 5);
    g.move_piece(false);
    assert_eq!(g.current_piece.xpos, 0);
    g.move_piece(true);
    assert_eq!(g.current_piece.xpos, 1);
}

#[test]
fn move_blocked_by_filled_cell() {
    let mut g = game_with(Tetramino::O, Tetramino::T);
    g.blocks[6][3] = 33;
    g.current_piece = o_at(4, 5);
    g.move_piece(false);
    assert_eq!(g.current_piece.xpos, 4);
    g.move_piece(true);
    assert_eq!(g.current_piece.xpos, 5);
    g.current_piece = o_at(8, 5);
    g.move_piece(true);
    assert_eq!(g.current_piece.xpos, 8);
}

#[test]
fn fuse_writes_color_and_keeps_other_cells() {
    let mut g = game_with(Tetramino::T, Tetramino::O);
    g.blocks[19][4] = 31;
    g.current_piece.xpos = 3;
    g.current_piece.ypos = 17;
    // T occupies (17,4), (18,3), (18,4), (18,5)
    g.fuse_block();
    assert_eq!(g.blocks[17][4], 35);
    assert_eq!(g.blocks[18][3], 35);
    assert_eq!(g.blocks[18][4], 35);
    assert_eq!(g.blocks[18][5], 35);
    assert_eq!(g.blocks[19][4], 31);
    assert_eq!(g.blocks[17][3], 0);
    assert_eq!(g.blocks[19][3], 0);
}

#[test]
fn two_complete_rows_score_two_and_shift() {
    let mut g = game_with(Tetramino::T, Tetramino::O);
    for c in 0..10 {
        g.blocks[17][c] = 32;
        g.blocks[19][c] = 33;
    }
    g.blocks[18][2] = 34;
    g.blocks[16][7] = 35;
    g.handle_completed_lines();
    assert_eq!(g.score, 2);
    assert_eq!(g.blocks[19][2], 34);
    assert_eq!(g.blocks[18][7], 35);
    let filled: usize = g.blocks.iter().flatten().filter(|v| **v != 0).count();
    assert_eq!(filled, 2);
    assert!(g.blocks[0].iter().all(|v| *v == 0));
}

#[test]
fn no_complete_rows_changes_nothing() {
    let mut g = game_with(Tetramino::T, Tetramino::O);
    for c in 0..9 {
        g.blocks[19][c] = 31;
    }
    let before = g.blocks;
    g.handle_completed_lines();
    assert_eq!(g.score, 0);
    assert_eq!(g.blocks, before);
}

#[test]
fn all_rows_complete_empties_board() {
    let mut g = game_with(Tetramino::T, Tetramino::O);
    g.blocks = [[36u8; 10]; 20];
    g.score = 5;
    g.handle_completed_lines();
    assert_eq!(g.score, 25);
    assert_eq!(g.blocks, [[0u8; 10]; 20]);
}

#[test]
fn step_moves_down_one_row() {
    let mut g = game_with(Tetramino::O, Tetramino::T);
    assert!(!g.step());
    assert_eq!(g.current_piece.ypos, 1);
    assert_eq!(g.current_piece.xpos, 4);
    assert!(!g.game_over);
}

#[test]
fn game_over_when_spawn_blocked_below() {
    let mut g = game_with(Tetramino::O, Tetramino::T);
    g.blocks[2][5] = 31;
    assert!(g.step());
    assert!(g.game_over);
    assert_eq!(g.current_piece.ypos, 0);
    assert_eq!(g.blocks[0][4], 0);
    assert_eq!(g.score, 0);
}

#[test]
fn no_game_over_when_landing_below_top() {
    let mut g = game_with(Tetramino::O, Tetramino::T);
    g.blocks[3][5] = 31;
    assert!(!g.step());
    assert!(g.step());
    assert!(!g.game_over);
    assert_eq!(g.blocks[1][4], 37);
    assert_eq!(g.blocks[2][5], 37);
    assert_eq!(g.current_piece.color, 35);
    assert_eq!(g.current_piece.ypos, 0);
}

#[test]
fn o_piece_lands_on_floor() {
    let mut g = game_with(Tetramino::O, Tetramino::T);
    assert_eq!(g.current_piece.xpos, 4);
    assert_eq!(g.current_piece.ypos, 0);
    let mut ticks = 0;
    while !g.step() {
        ticks += 1;
    }
    assert_eq!(ticks, 18);
    for r in 0..20 {
        for c in 0..10 {
            let inside = (r == 18 || r == 19) && (c == 4 || c == 5);
            assert_eq!(g.blocks[r][c], if inside { 37 } else { 0 });
        }
    }
    assert_eq!(g.score, 0);
    assert!(!g.game_over);
    assert_eq!(g.current_piece.color, 35);
}

#[test]
fn filling_last_gap_clears_bottom_row() {
    let mut g = game_with(Tetramino::I, Tetramino::T);
    for c in 1..10 {
        g.blocks[19][c] = 31;
    }
    g.blocks[18][5] = 32;
    g.attempt_rotatation();
    // vertical bar in grid column 2
    for _ in 0..8 {
        g.move_piece(false);
    }
    assert_eq!(g.current_piece.xpos, -2);
    g.hard_drop();
    assert_eq!(g.score, 1);
    assert_eq!(g.blocks[0], [0u8; 10]);
    assert_eq!(g.blocks[19], [36, 0, 0, 0, 0, 32, 0, 0, 0, 0]);
    assert_eq!(g.blocks[18][0], 36);
    assert_eq!(g.blocks[17][0], 36);
    assert_eq!(g.blocks[16][0], 0);
    assert_eq!(g.current_piece.color, 35);
}

#[test]
fn rotation_against_right_wall() {
    let mut g = game_with(Tetramino::I, Tetramino::T);
    g.current_piece.xpos = 6;
    g.current_piece.ypos = 5;
    let horizontal = g.current_piece.piece_grid.clone();
    // the horizontal bar spans columns 6 to 9; turned it stands in column 8
    g.attempt_rotatation();
    let vertical = rotate_grid(&horizontal);
    assert_eq!(g.current_piece.piece_grid, vertical);
    g.move_piece(true);
    assert_eq!(g.current_piece.xpos, 7);
    g.move_piece(true);
    assert_eq!(g.current_piece.xpos, 7);
    // turned again it would span columns 7 to 10
    g.attempt_rotatation();
    assert_eq!(g.current_piece.piece_grid, vertical);
    assert_eq!(g.current_piece.xpos, 7);
    assert_eq!(g.current_piece.ypos, 5);
}

#[test]
fn rotation_rejected_by_filled_cell() {
    let mut g = game_with(Tetramino::T, Tetramino::O);
    g.current_piece.ypos = 5;
    g.blocks[7][4] = 31;
    let before = g.current_piece.piece_grid.clone();
    g.attempt_rotatation();
    assert_eq!(g.current_piece.piece_grid, before);
    g.blocks[7][4] = 0;
    g.attempt_rotatation();
    assert_eq!(g.current_piece.piece_grid, rotate_grid(&before));
}

#[test]
fn hard_drop_lands_at_once() {
    let mut g = game_with(Tetramino::T, Tetramino::O);
    g.blocks[10][4] = 31;
    g.apply(Command::HardDrop);
    assert_eq!(g.blocks[8][4], 35);
    assert_eq!(g.blocks[9][3], 35);
    assert_eq!(g.blocks[9][4], 35);
    assert_eq!(g.blocks[9][5], 35);
    assert_eq!(g.current_piece.color, 37);
    assert_eq!(g.current_piece.ypos, 0);
    assert!(!g.game_over);
}

#[test]
fn hard_drop_on_blocked_spawn_ends_game() {
    let mut g = game_with(Tetramino::T, Tetramino::O);
    g.blocks[2][4] = 31;
    g.hard_drop();
    assert!(g.game_over);
    assert_eq!(g.blocks[1][4], 0);
}

#[test]
fn apply_moves_rotates_and_quits() {
    let mut g = game_with(Tetramino::T, Tetramino::O);
    g.apply(Command::MoveLeft);
    assert_eq!(g.current_piece.xpos, 2);
    g.apply(Command::MoveRight);
    g.apply(Command::MoveRight);
    assert_eq!(g.current_piece.xpos, 4);
    let before = g.current_piece.piece_grid.clone();
    g.apply(Command::Rotate);
    assert_eq!(g.current_piece.piece_grid, rotate_grid(&before));
    g.apply(Command::Quit);
    assert_eq!(g.current_piece.xpos, 4);
    assert_eq!(g.current_piece.ypos, 0);
}

#[test]
fn keys_map_to_commands() {
    assert_eq!(Command::from_key(b'q'), Some(Command::Quit));
    assert_eq!(Command::from_key(b'j'), Some(Command::MoveLeft));
    assert_eq!(Command::from_key(b'l'), Some(Command::MoveRight));
    assert_eq!(Command::from_key(b'i'), Some(Command::Rotate));
    assert_eq!(Command::from_key(b'k'), Some(Command::HardDrop));
    assert_eq!(Command::from_key(b'x'), None);
    assert_eq!(Command::from_key(0), None);
}

#[test]
fn tick_due_after_tickrate() {
    let g = game_with(Tetramino::T, Tetramino::O);
    assert!(!g.tick_due(0));
    assert!(!g.tick_due(249));
    assert!(g.tick_due(250));
    assert!(g.tick_due(900));
}

#[test]
fn draw_overlays_falling_piece() {
    let mut g = game_with(Tetramino::S, Tetramino::O);
    g.blocks[19][0] = 31;
    let cells = g.draw();
    // S occupies (0,4), (0,5), (1,3), (1,4)
    assert_eq!(cells[0][4], 32);
    assert_eq!(cells[0][5], 32);
    assert_eq!(cells[1][3], 32);
    assert_eq!(cells[1][4], 32);
    assert_eq!(cells[0][3], 0);
    assert_eq!(cells[19][0], 31);
    let filled: usize = cells.iter().flatten().filter(|v| **v != 0).count();
    assert_eq!(filled, 5);
    assert_eq!(g.blocks[0][4], 0);
}

#[test]
fn new_game_is_empty() {
    let g = Game::new();
    assert_eq!(g.blocks, [[0u8; 10]; 20]);
    assert_eq!(g.score, 0);
    assert_eq!(g.tickrate_ms, 250);
    assert!(!g.game_over);
    assert_eq!(g.current_piece.ypos, 0);
    assert_eq!(g.next_piece.ypos, 0);
}
