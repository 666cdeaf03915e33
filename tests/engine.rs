use gomoku::board::{gen_moves, side_opp, square_make, Color, List, Move, Pos, MOVE_CAP};
use gomoku::eval::{
    eval, SCORE_FACING_DOUBLE, SCORE_FACING_FOUR_THREE, SCORE_FACING_OPEN_FOUR, SCORE_THREAT,
};
use gomoku::pattern::{check_pattern5, check_patterndead4, check_patternlive3, check_patternlive4};
use gomoku::search::{pos_is_draw, pos_is_end, pos_is_winner, search, search_real, EVAL_INF};

fn sq(fl: i32, rk: i32) -> Move {
    square_make(fl, rk)
}

/// Plays the stones of `black` and `white` alternately, Black first.
fn play(black: &[Move], white: &[Move]) -> Pos {
    let mut pos = Pos::new();
    for i in 0..black.len() {
        pos.do_move(black[i]);
        if i < white.len() {
            pos.do_move(white[i]);
        }
    }
    pos
}

fn far_white() -> Vec<Move> {
    vec![sq(0, 0), sq(14, 0), sq(0, 14), sq(14, 14), sq(7, 0), sq(0, 7)]
}

#[test]
fn new_position_is_empty_with_black_to_move() {
    let pos = Pos::new();
    assert_eq!(pos.turn(), Color::Black);
    assert_eq!(pos.count(Color::Empty), 225);
    assert_eq!(pos.count(Color::Black), 0);
    assert_eq!(pos.count(Color::White), 0);
    assert!(pos.can_play(sq(0, 0)));
    assert!(pos.can_play(sq(14, 14)));
    assert!(!pos.can_play(15));
    assert!(!pos.can_play(240));
    assert_eq!(pos.cell(15), Color::Border);
    assert_eq!(pos.cell(sq(3, 4)), Color::Empty);
}

#[test]
fn init_resets_a_played_position() {
    let mut pos = play(&[sq(1, 7), sq(2, 2)], &[sq(3, 3)]);
    assert_eq!(pos.turn(), Color::White);
    pos.init();
    assert_eq!(pos.turn(), Color::Black);
    assert_eq!(pos.count(Color::Empty), 225);
}

#[test]
fn square_make_uses_padded_stride() {
    assert_eq!(square_make(0, 0), 0);
    assert_eq!(square_make(1, 7), 113);
    assert_eq!(square_make(14, 14), 238);
}

#[test]
fn side_opp_swaps_sides() {
    assert_eq!(side_opp(Color::Black), Color::White);
    assert_eq!(side_opp(Color::White), Color::Black);
}

#[test]
fn do_move_flips_turn_and_fills_one_cell() {
    let mut pos = Pos::new();
    pos.do_move(sq(1, 7));
    assert_eq!(pos.turn(), Color::White);
    assert_eq!(pos.cell(sq(1, 7)), Color::Black);
    assert!(!pos.can_play(sq(1, 7)));
    assert_eq!(pos.count(Color::Black), 1);
    assert_eq!(pos.count(Color::Empty), 224);
    pos.do_move(sq(2, 7));
    assert_eq!(pos.turn(), Color::Black);
    assert_eq!(pos.cell(sq(2, 7)), Color::White);
    assert_eq!(pos.count(Color::White), 1);
    assert_eq!(pos.count(Color::Empty), 223);
}

#[test]
fn list_add_get_clear() {
    let mut list = List::new();
    assert_eq!(list.size(), 0);
    list.add(5);
    list.add(9);
    assert_eq!(list.size(), 2);
    assert_eq!(list.get(0), 5);
    assert_eq!(list.get(1), 9);
    list.clear();
    assert_eq!(list.size(), 0);
}

#[test]
fn list_shuffle_keeps_the_moves() {
    let mut list = List::new();
    for m in 0..40 {
        list.add(m * 3);
    }
    list.shuffle();
    assert_eq!(list.size(), 40);
    let mut got: Vec<Move> = (0..40).map(|i| list.get(i)).collect();
    let want: Vec<Move> = (0..40).map(|m| m * 3).collect();
    // Forty moves come back in their original order once in 40! shuffles.
    assert_ne!(got, want);
    got.sort();
    assert_eq!(got, want);
}

#[test]
fn gen_moves_lists_empty_cells_in_scan_order() {
    let mut list = List::new();
    let pos = Pos::new();
    gen_moves(&mut list, &pos);
    assert_eq!(list.size() as usize, MOVE_CAP);
    assert_eq!(list.get(0), 0);
    assert_eq!(list.get(14), 14);
    assert_eq!(list.get(15), 16);
    assert_eq!(list.get(224), 238);
    let pos = play(&[sq(0, 0)], &[sq(1, 0)]);
    gen_moves(&mut list, &pos);
    assert_eq!(list.size(), 223);
    assert_eq!(list.get(0), 2);
}

fn assert_five_after_fifth(black: [Move; 5]) {
    let white = [sq(0, 14), sq(14, 0), sq(4, 13), sq(12, 1), sq(7, 14)];
    let mut pos = Pos::new();
    for i in 0..5 {
        assert!(!pos_is_winner(&pos));
        pos.do_move(black[i]);
        if i < 4 {
            assert!(!pos_is_winner(&pos));
            pos.do_move(white[i]);
        }
    }
    assert!(pos_is_winner(&pos));
    assert!(check_pattern5(&pos, Color::Black));
    assert!(!check_pattern5(&pos, Color::White));
    assert!(pos_is_end(&pos));
    assert!(!pos_is_draw(&pos));
}

#[test]
fn five_in_a_row_wins_horizontally() {
    assert_five_after_fifth([sq(3, 4), sq(4, 4), sq(5, 4), sq(6, 4), sq(7, 4)]);
    assert_five_after_fifth([sq(10, 9), sq(11, 9), sq(12, 9), sq(13, 9), sq(14, 9)]);
    assert_five_after_fifth([sq(0, 0), sq(1, 0), sq(2, 0), sq(3, 0), sq(4, 0)]);
}

#[test]
fn five_in_a_row_wins_vertically() {
    assert_five_after_fifth([sq(9, 2), sq(9, 3), sq(9, 4), sq(9, 5), sq(9, 6)]);
    assert_five_after_fifth([sq(2, 10), sq(2, 11), sq(2, 12), sq(2, 13), sq(2, 14)]);
}

#[test]
fn five_in_a_row_wins_diagonally() {
    assert_five_after_fifth([sq(2, 8), sq(3, 9), sq(4, 10), sq(5, 11), sq(6, 12)]);
    assert_five_after_fifth([sq(10, 10), sq(11, 11), sq(12, 12), sq(13, 13), sq(14, 14)]);
}

#[test]
fn five_in_a_row_wins_anti_diagonally() {
    assert_five_after_fifth([sq(12, 3), sq(11, 4), sq(10, 5), sq(9, 6), sq(8, 7)]);
    assert_five_after_fifth([sq(4, 10), sq(3, 11), sq(2, 12), sq(1, 13), sq(0, 14)]);
}

#[test]
fn a_run_across_the_row_end_does_not_win() {
    let pos = play(
        &[sq(12, 3), sq(13, 3), sq(14, 3), sq(0, 4), sq(1, 4)],
        &[sq(0, 14), sq(14, 0), sq(4, 13), sq(12, 1)],
    );
    assert!(!pos_is_winner(&pos));
    let pos = play(
        &[sq(2, 0), sq(1, 1), sq(0, 2), sq(14, 2), sq(13, 3)],
        &[sq(0, 14), sq(14, 14), sq(4, 13), sq(12, 10)],
    );
    assert!(!pos_is_winner(&pos));
}

#[test]
fn four_in_a_row_is_not_a_win() {
    let pos = play(&[sq(3, 4), sq(4, 4), sq(5, 4), sq(6, 4)], &[sq(0, 14), sq(14, 0), sq(4, 13)]);
    assert!(!pos_is_winner(&pos));
    assert!(!pos_is_end(&pos));
}

fn draw_color(fl: i32, rk: i32) -> Color {
    if ((fl / 2) + rk) % 2 == 0 {
        Color::Black
    } else {
        Color::White
    }
}

#[test]
fn a_full_board_without_five_is_a_draw() {
    let mut black: Vec<Move> = Vec::new();
    let mut white: Vec<Move> = Vec::new();
    for rk in 0..15 {
        for fl in 0..15 {
            if draw_color(fl, rk) == Color::Black {
                black.push(sq(fl, rk));
            } else {
                white.push(sq(fl, rk));
            }
        }
    }
    assert_eq!(black.len(), 113);
    assert_eq!(white.len(), 112);
    let last = black.pop().unwrap();
    let mut pos = play(&black, &white);
    assert!(!pos_is_draw(&pos));
    assert!(!pos_is_end(&pos));
    pos.do_move(last);
    assert_eq!(pos.count(Color::Empty), 0);
    assert!(!pos_is_winner(&pos));
    assert!(!check_pattern5(&pos, Color::White));
    assert!(pos_is_draw(&pos));
    assert!(pos_is_end(&pos));
}

#[test]
fn open_four_is_detected_and_scored() {
    let black = [sq(5, 7), sq(6, 7), sq(7, 7), sq(8, 7)];
    let white = far_white();
    // Black to move with its own open four.
    let pos = play(&black, &white[..4]);
    assert_eq!(pos.turn(), Color::Black);
    assert!(check_patternlive4(&pos, Color::Black));
    assert!(!check_patternlive4(&pos, Color::White));
    assert_eq!(check_patterndead4(&pos, Color::Black), 2);
    assert_eq!(eval(&pos), SCORE_THREAT);
    assert_eq!(eval(&pos), 2560);
    // White to move against it.
    let pos = play(&black, &white[..3]);
    assert_eq!(pos.turn(), Color::White);
    assert!(check_patternlive4(&pos, Color::Black));
    assert_eq!(eval(&pos), SCORE_FACING_OPEN_FOUR);
    assert_eq!(eval(&pos), -4096);
}

#[test]
fn edge_four_is_closed_not_open() {
    let pos = play(
        &[sq(0, 7), sq(1, 7), sq(2, 7), sq(3, 7)],
        &[sq(14, 0), sq(14, 14), sq(7, 0), sq(10, 12)],
    );
    assert!(!check_patternlive4(&pos, Color::Black));
    assert_eq!(check_patterndead4(&pos, Color::Black), 1);
    assert_eq!(eval(&pos), 2560);
}

#[test]
fn two_closed_fours_of_the_opponent() {
    let pos = play(
        &[sq(0, 3), sq(1, 3), sq(2, 3), sq(3, 3), sq(0, 10), sq(1, 10), sq(2, 10), sq(3, 10)],
        &[sq(14, 0), sq(14, 14), sq(7, 0), sq(10, 12), sq(12, 5), sq(9, 1), sq(5, 13)],
    );
    assert_eq!(pos.turn(), Color::White);
    assert_eq!(check_patterndead4(&pos, Color::Black), 2);
    assert_eq!(eval(&pos), SCORE_FACING_DOUBLE);
    assert_eq!(eval(&pos), -2048);
}

#[test]
fn closed_four_and_open_three_of_the_opponent() {
    let pos = play(
        &[sq(0, 3), sq(1, 3), sq(2, 3), sq(3, 3), sq(5, 10), sq(6, 10), sq(7, 10)],
        &[sq(14, 0), sq(14, 14), sq(7, 0), sq(10, 12), sq(12, 5), sq(9, 1)],
    );
    assert_eq!(pos.turn(), Color::White);
    assert_eq!(check_patterndead4(&pos, Color::Black), 1);
    assert_eq!(check_patternlive3(&pos, Color::Black), 1);
    assert_eq!(eval(&pos), SCORE_FACING_FOUR_THREE);
    assert_eq!(eval(&pos), -3048);
}

#[test]
fn two_open_threes() {
    let black = [sq(5, 3), sq(6, 3), sq(7, 3), sq(5, 10), sq(6, 10), sq(7, 10)];
    let white = [sq(14, 0), sq(14, 14), sq(0, 7), sq(10, 12), sq(12, 5), sq(2, 1)];
    let pos = play(&black, &white);
    assert_eq!(pos.turn(), Color::Black);
    assert_eq!(check_patternlive3(&pos, Color::Black), 2);
    assert_eq!(eval(&pos), 2560);
    let pos = play(&black, &white[..5]);
    assert_eq!(pos.turn(), Color::White);
    assert_eq!(eval(&pos), -2048);
}

#[test]
fn single_threes_are_quiet() {
    let pos = play(&[sq(5, 3), sq(6, 3), sq(7, 3)], &[sq(14, 0), sq(14, 14), sq(0, 7)]);
    assert_eq!(check_patternlive3(&pos, Color::Black), 1);
    assert_eq!(eval(&pos), 0);
    let pos = play(&[sq(5, 3), sq(6, 3), sq(8, 3)], &[sq(14, 0), sq(14, 14), sq(0, 7)]);
    assert_eq!(check_patternlive3(&pos, Color::Black), 1);
    assert_eq!(eval(&pos), 0);
    assert_eq!(eval(&Pos::new()), 0);
}

#[test]
fn depth_one_search_takes_the_winning_move() {
    let pos = play(
        &[sq(0, 7), sq(1, 7), sq(2, 7), sq(3, 7)],
        &[sq(14, 0), sq(14, 14), sq(7, 0), sq(10, 12)],
    );
    assert_eq!(pos.turn(), Color::Black);
    let mut endgame = false;
    let mv = search(&pos, 1, 0, &mut endgame);
    assert_eq!(mv, sq(4, 7));
    assert!(!endgame);
    assert!(pos.can_play(mv));
}

#[test]
fn search_returns_an_empty_square() {
    let pos = play(&[sq(1, 7)], &[]);
    let mut endgame = false;
    let mv = search(&pos, 1, 0, &mut endgame);
    assert!(mv >= 0);
    assert!(pos.can_play(mv));
    assert_ne!(mv, sq(1, 7));
}

#[test]
fn search_switches_to_endgame_when_few_cells_are_empty() {
    let mut black: Vec<Move> = Vec::new();
    let mut white: Vec<Move> = Vec::new();
    for rk in 0..15 {
        for fl in 0..15 {
            if draw_color(fl, rk) == Color::Black {
                black.push(sq(fl, rk));
            } else {
                white.push(sq(fl, rk));
            }
        }
    }
    // Leave the last two cells of each colour empty: four empties, Black to move.
    black.truncate(111);
    white.truncate(110);
    let pos = play(&black, &white);
    assert_eq!(pos.turn(), Color::White);
    let pos = {
        let mut p = pos;
        let w = white_extra();
        p.do_move(w);
        p
    };
    assert_eq!(pos.count(Color::Empty), 3);
    let mut endgame = false;
    let mv = search(&pos, 1, 8, &mut endgame);
    assert!(endgame);
    assert!(pos.can_play(mv));
}

fn white_extra() -> Move {
    let mut whites: Vec<Move> = Vec::new();
    for rk in 0..15 {
        for fl in 0..15 {
            if draw_color(fl, rk) == Color::White {
                whites.push(sq(fl, rk));
            }
        }
    }
    whites[110]
}

#[test]
fn search_real_scores_terminal_positions() {
    let pos = play(
        &[sq(3, 4), sq(4, 4), sq(5, 4), sq(6, 4), sq(7, 4)],
        &[sq(0, 14), sq(14, 0), sq(4, 13), sq(12, 1)],
    );
    assert_eq!(search_real(&pos, -EVAL_INF, EVAL_INF, 2, 3), -EVAL_INF + 3);
    assert_eq!(search_real(&pos, -EVAL_INF, EVAL_INF, 0, 0), -EVAL_INF);
    let quiet = play(&[sq(5, 3), sq(6, 3), sq(7, 3)], &[sq(14, 0), sq(14, 14), sq(0, 7)]);
    assert_eq!(search_real(&quiet, -EVAL_INF, EVAL_INF, 0, 1), 0);
    let threat = play(
        &[sq(0, 7), sq(1, 7), sq(2, 7), sq(3, 7)],
        &[sq(14, 0), sq(14, 14), sq(7, 0), sq(10, 12)],
    );
    assert_eq!(search_real(&threat, -EVAL_INF, EVAL_INF, 0, 1), 2560);
    // One ply deeper, Black completes five: the opponent's loss one ply down.
    assert_eq!(search_real(&threat, -EVAL_INF, EVAL_INF, 1, 1), EVAL_INF - 2);
}

#[test]
fn negamax_value_is_the_negated_value_of_the_best_child() {
    let threat = play(
        &[sq(0, 7), sq(1, 7), sq(2, 7), sq(3, 7)],
        &[sq(14, 0), sq(14, 14), sq(7, 0), sq(10, 12)],
    );
    let mut child = threat;
    child.do_move(sq(4, 7));
    let child_value = search_real(&child, -EVAL_INF, EVAL_INF, 0, 2);
    assert_eq!(child_value, -EVAL_INF + 2);
    assert_eq!(search_real(&threat, -EVAL_INF, EVAL_INF, 1, 1), -child_value);
}

#[test]
fn terminal_scores_outweigh_heuristic_scores() {
    let deepest_loss: i32 = -EVAL_INF + MOVE_CAP as i32;
    for h in [
        SCORE_FACING_OPEN_FOUR,
        SCORE_THREAT,
        SCORE_FACING_DOUBLE,
        SCORE_FACING_FOUR_THREE,
        0,
    ] {
        assert!(h.abs() < deepest_loss.abs());
    }
    assert_eq!(EVAL_INF, 22500);
}
