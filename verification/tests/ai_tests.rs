use connect4_model::ai::{Connect4AI, Difficulty, TootOttoAI};
use connect4_model::board::Board;
use connect4_model::disc::DiscType;
use connect4_model::game::{BoardGame, GameEvent};
use connect4_model::grid::Word;
use connect4_model::random::pick_move;
use connect4_model::scores::encode_board;
use connect4_model::search::UNBOUNDED;

fn matrix(rows: &[&str]) -> Vec<Vec<i64>> {
    rows.iter()
        .map(|row| {
            row.chars()
                .map(|cell| match cell {
                    'X' => 1,
                    'O' => -1,
                    _ => 0,
                })
                .collect()
        })
        .collect()
}

fn connect4_after(rows: usize, columns: usize, moves: &[usize]) -> BoardGame {
    let mut game = BoardGame::new_connect4(rows, columns, true);
    for column in moves {
        assert!(matches!(game.place_disc(*column), GameEvent::PlaceSuccess(_)));
    }
    game
}

fn spelling_after(rows: usize, columns: usize, moves: &[(usize, DiscType)]) -> BoardGame {
    let mut game = BoardGame::new_toot_and_otto(rows, columns, true);
    for (column, letter) in moves {
        game.change_disc_type(*letter);
        assert!(matches!(game.place_disc(*column), GameEvent::PlaceSuccess(_)));
    }
    game
}

#[test]
fn difficulties() {
    assert_eq!(
        Difficulty::to_vec(),
        vec![Difficulty::Easy, Difficulty::Medium, Difficulty::Hard, Difficulty::Insane]
    );
    assert_eq!(Difficulty::Easy.to_string(), "Easy");
    assert_eq!(Difficulty::Medium.to_string(), "Medium");
    assert_eq!(Difficulty::Hard.to_string(), "Hard");
    assert_eq!(Difficulty::Insane.to_string(), "Insane");
    assert_eq!(Difficulty::Easy.search_depth(), 1);
    assert_eq!(Difficulty::Medium.search_depth(), 3);
    assert_eq!(Difficulty::Hard.search_depth(), 5);
    assert_eq!(Difficulty::Insane.search_depth(), 7);
    assert!(Difficulty::Hard.search_depth() < Difficulty::Insane.search_depth());
    assert!(Difficulty::Easy < Difficulty::Medium);
    assert!(Difficulty::Medium < Difficulty::Hard);
    assert!(Difficulty::Hard < Difficulty::Insane);
    let levels: Vec<usize> = Difficulty::to_vec().iter().map(|d| d.level()).collect();
    assert_eq!(levels, vec![0, 1, 2, 3]);
}

#[test]
fn random_value_stays_below_its_bound() {
    let ai = Connect4AI::new(6, 7, Difficulty::Easy);
    let spelling = TootOttoAI::new(6, 7, Difficulty::Easy);
    for bound in 1..40 {
        for _ in 0..50 {
            assert!(ai.get_random_val(bound) < bound);
            assert!(spelling.get_random_val(bound) < bound);
        }
    }
    assert_eq!(ai.get_random_val(0), 0);
    assert_eq!(ai.get_random_val(1), 0);
    assert_eq!(spelling.get_random_val(0), 0);
}

#[test]
fn random_value_reaches_every_number_below_its_bound() {
    let ai = Connect4AI::new(6, 7, Difficulty::Easy);
    let mut seen = [false; 5];
    for _ in 0..2000 {
        seen[ai.get_random_val(5)] = true;
    }
    assert_eq!(seen, [true; 5]);
}

#[test]
fn choose_move_returns_an_entry() {
    let ai = Connect4AI::new(6, 7, Difficulty::Easy);
    let choice = vec![2, 4, 6];
    for _ in 0..100 {
        assert!(choice.contains(&ai.choose_move(&choice)));
    }
    assert_eq!(ai.choose_move(&vec![5]), 5);
    let spelling = TootOttoAI::new(6, 7, Difficulty::Easy);
    let pairs = vec![(1, DiscType::T), (3, DiscType::O)];
    for _ in 0..100 {
        assert!(pairs.contains(&spelling.choose_move(&pairs)));
    }
}

#[test]
fn pick_move_is_decided_by_the_draw() {
    let candidates = vec![1usize, 3, 6];
    assert_eq!(pick_move(&candidates, 0), Some(1));
    assert_eq!(pick_move(&candidates, 1), Some(3));
    assert_eq!(pick_move(&candidates, 2), Some(6));
    assert_eq!(pick_move(&candidates, 3), Some(1));
    assert_eq!(pick_move(&candidates, 7), Some(3));
    assert_eq!(pick_move(&Vec::<usize>::new(), 4), None);
}

#[test]
fn encode_board_gives_plus_and_minus_one() {
    let game = connect4_after(4, 4, &[0, 1, 0, 1, 0, 2]);
    let state = encode_board(game.game_board(), DiscType::Red, DiscType::Yellow);
    assert_eq!(state, matrix(&["....", "X...", "XO..", "XOO."]));
    let swapped = encode_board(game.game_board(), DiscType::Yellow, DiscType::Red);
    assert_eq!(swapped, matrix(&["....", "O...", "OX..", "OXX."]));
    let letters = encode_board(game.game_board(), DiscType::T, DiscType::O);
    assert_eq!(letters, matrix(&["....", "....", "....", "...."]));
}

#[test]
fn fill_map_drops_into_lowest_empty_cell() {
    let ai = Connect4AI::new(4, 4, Difficulty::Hard);
    let state = matrix(&["....", "X...", "XO..", "XOO."]);
    assert_eq!(ai.fill_map(&state, 0, 1), Some(matrix(&["X...", "X...", "XO..", "XOO."])));
    assert_eq!(ai.fill_map(&state, 1, -1), Some(matrix(&["....", "XO..", "XO..", "XOO."])));
    assert_eq!(ai.fill_map(&state, 3, -1), Some(matrix(&["....", "X...", "XO..", "XOOO"])));
    assert_eq!(state, matrix(&["....", "X...", "XO..", "XOO."]));
}

#[test]
fn fill_map_refuses_full_and_missing_columns() {
    let ai = Connect4AI::new(4, 4, Difficulty::Hard);
    let state = matrix(&["X...", "O...", "X...", "O..X"]);
    assert_eq!(ai.fill_map(&state, 0, 1), None);
    assert_eq!(ai.fill_map(&state, 4, 1), None);
    assert_eq!(ai.fill_map(&state, 400, -1), None);
    let spelling = TootOttoAI::new(4, 4, Difficulty::Hard);
    assert_eq!(spelling.fill_map(&state, 0, 1), None);
    assert_eq!(spelling.fill_map(&state, 1, -1), Some(matrix(&["X...", "O...", "X...", "OO.X"])));
}

#[test]
fn check_state_of_single_disc() {
    let ai = Connect4AI::new(4, 4, Difficulty::Hard);
    assert_eq!(ai.check_state(&matrix(&["....", "....", "....", "...."])), (0, 0));
    // Three lines of four hold the bottom left cell: its row, its column and a diagonal.
    assert_eq!(ai.check_state(&matrix(&["....", "....", "....", "X..."])), (0, 3));
    assert_eq!(ai.check_state(&matrix(&["....", "....", "....", "O..."])), (0, -3));
    // Two discs in one line: 2 cubed, and one more line through each disc besides.
    assert_eq!(ai.check_state(&matrix(&["....", "....", "....", "XX.."])), (0, 11));
    assert_eq!(ai.check_state(&matrix(&["....", "X...", "XO..", "XOO."])), (0, 18));
}

#[test]
fn check_state_reports_complete_lines() {
    let ai = Connect4AI::new(4, 4, Difficulty::Hard);
    let (win, _) = ai.check_state(&matrix(&["....", "....", "....", "XXXX"]));
    assert_eq!(win, 4);
    let (win, _) = ai.check_state(&matrix(&["O...", "O...", "O...", "OXXX"]));
    assert_eq!(win, -4);
    let (win, _) = ai.check_state(&matrix(&["...X", "..XO", ".XOO", "XOOX"]));
    assert_eq!(win, 4);
    let (win, _) = ai.check_state(&matrix(&["O...", "XO..", "XXO.", "XXXO"]));
    assert_eq!(win, -4);
    // Both sides complete: the line that starts last in reading order counts.
    let (win, _) = ai.check_state(&matrix(&["....", "....", "OOOO", "XXXX"]));
    assert_eq!(win, 4);
    let (win, _) = ai.check_state(&matrix(&["....", "....", "XXXX", "OOOO"]));
    assert_eq!(win, -4);
}

#[test]
fn check_state_on_a_six_by_seven_board() {
    let ai = Connect4AI::new(6, 7, Difficulty::Hard);
    let state = matrix(&[".......", ".......", ".......", "...O...", "...XO..", "..XXOX."]);
    assert_eq!(ai.check_state(&state), (0, 6));
}

#[test]
fn spelling_check_state_weighs_outer_cells_negatively() {
    let ai = TootOttoAI::new(4, 4, Difficulty::Hard);
    assert_eq!(ai.check_state(&matrix(&["....", "....", "....", "X..."])), (0, -3));
    assert_eq!(ai.check_state(&matrix(&["....", "....", "....", "OXXO"])), (4, 66));
    assert_eq!(ai.check_state(&matrix(&["....", "....", "....", "XOOX"])), (-4, -66));
    assert_eq!(ai.check_state(&matrix(&["....", "....", "....", "OXX."])), (0, 27));
    let (win, _) = ai.check_state(&matrix(&["....", "....", "....", "XXXX"]));
    assert_eq!(win, 0);
    let (win, _) = ai.check_state(&matrix(&["....", "....", "....", "XXOO"]));
    assert_eq!(win, 0);
}

#[test]
fn value_of_a_position_at_the_depth_limit() {
    let ai = Connect4AI::new(4, 4, Difficulty::Easy);
    let state = matrix(&["....", "....", "....", "X..."]);
    // chain value 3, less the square of the depth
    assert_eq!(ai.value(1, &state, 1, -UNBOUNDED, UNBOUNDED), 2);
    assert_eq!(ai.value(1, &state, 2, -UNBOUNDED, UNBOUNDED), -1);
    assert_eq!(ai.value(-1, &state, 2, -UNBOUNDED, UNBOUNDED), -7);
    assert_eq!(ai.value(1, &state, 10, -UNBOUNDED, UNBOUNDED), -97);
}

#[test]
fn value_of_a_won_position() {
    let ai = Connect4AI::new(4, 4, Difficulty::Insane);
    let state = matrix(&["....", "....", "....", "XXXX"]);
    assert_eq!(ai.value(1, &state, 0, -UNBOUNDED, UNBOUNDED), 999999);
    assert_eq!(ai.value(1, &state, 3, -UNBOUNDED, UNBOUNDED), 999990);
    assert_eq!(ai.value(-1, &state, 0, -UNBOUNDED, UNBOUNDED), -999999);
    assert_eq!(ai.value(-1, &state, 3, -UNBOUNDED, UNBOUNDED), -1000008);
    let spelling = TootOttoAI::new(4, 4, Difficulty::Hard);
    let otto = matrix(&["....", "....", "....", "OXXO"]);
    assert_eq!(spelling.value(1, &otto, 2, -UNBOUNDED, UNBOUNDED), 999995);
    assert_eq!(spelling.value(-1, &otto, 2, -UNBOUNDED, UNBOUNDED), -1000003);
}

#[test]
fn value_of_a_full_board_is_its_estimate() {
    let ai = Connect4AI::new(4, 4, Difficulty::Hard);
    let state = matrix(&["OOXX", "XOOO", "OXXX", "OXOX"]);
    let (win, chain) = ai.check_state(&state);
    assert_eq!(win, 0);
    assert_eq!(ai.value(1, &state, 0, -UNBOUNDED, UNBOUNDED), chain);
    assert_eq!(ai.value(-1, &state, 1, -UNBOUNDED, UNBOUNDED), -chain - 1);
    assert_eq!(ai.max_state(1, &state, 0, -UNBOUNDED, UNBOUNDED), (-UNBOUNDED, vec![]));
    assert_eq!(ai.min_state(1, &state, 0, -UNBOUNDED, UNBOUNDED), (UNBOUNDED, vec![]));
}

#[test]
fn max_state_finds_the_winning_column() {
    let state = matrix(&["....", "X...", "XO..", "XOO."]);
    for difficulty in Difficulty::to_vec() {
        let ai = Connect4AI::new(4, 4, difficulty);
        assert_eq!(ai.max_state(1, &state, 0, -UNBOUNDED, UNBOUNDED), (999999, vec![0]));
    }
    let earlier = matrix(&["....", "X...", "XO..", "XO.."]);
    let ai = Connect4AI::new(4, 4, Difficulty::Hard);
    assert_eq!(ai.max_state(1, &earlier, 0, -UNBOUNDED, UNBOUNDED), (999999, vec![0]));
    assert_eq!(ai.max_state(-1, &earlier, 0, -UNBOUNDED, UNBOUNDED), (-33, vec![0]));
}

#[test]
fn search_values_on_a_six_by_seven_board() {
    let state = matrix(&[".......", ".......", ".......", "...O...", "...XO..", "..XXOX."]);
    let hard = Connect4AI::new(6, 7, Difficulty::Hard);
    assert_eq!(hard.max_state(-1, &state, 0, -UNBOUNDED, UNBOUNDED), (-3, vec![4]));
    assert_eq!(hard.max_state(1, &state, 0, -UNBOUNDED, UNBOUNDED), (-13, vec![1, 4]));
    let medium = Connect4AI::new(6, 7, Difficulty::Medium);
    assert_eq!(medium.min_state(1, &state, 1, -UNBOUNDED, UNBOUNDED), (-64, vec![4]));
    let empty = matrix(&["......."; 6]);
    assert_eq!(medium.max_state(-1, &empty, 0, -UNBOUNDED, UNBOUNDED), (-12, vec![3]));
}

#[test]
fn narrow_bounds_give_a_bound_on_the_value() {
    let state = matrix(&[".......", ".......", ".......", "...O...", "...XO..", "..XXOX."]);
    let hard = Connect4AI::new(6, 7, Difficulty::Hard);
    // the exact value is -3
    assert_eq!(hard.max_state(-1, &state, 0, -3, -3).0, -3);
    assert_eq!(hard.max_state(-1, &state, 0, -10, 10).0, -3);
    let low = hard.max_state(-1, &state, 0, 0, 10).0;
    assert!(-3 <= low && low < 0);
    let high = hard.max_state(-1, &state, 0, -10, -5).0;
    assert!(-5 < high && high <= -3);
    let medium = Connect4AI::new(6, 7, Difficulty::Medium);
    // the exact value is -64
    assert_eq!(medium.min_state(1, &state, 1, -64, -64).0, -64);
    let low = medium.min_state(1, &state, 1, -60, 0).0;
    assert!(-64 <= low && low < -60);
    let high = medium.min_state(1, &state, 1, -100, -70).0;
    assert!(-70 < high && high <= -64);
}

#[test]
fn easy_candidates_are_the_columns_that_are_not_full() {
    let game = connect4_after(4, 4, &[1, 1, 1, 1, 3]);
    let ai = Connect4AI::new(4, 4, Difficulty::Easy);
    assert_eq!(ai.candidate_moves(&game), vec![0, 2, 3]);
    for _ in 0..200 {
        let column = ai.find_best_move(game.clone());
        assert!([0, 2, 3].contains(&column));
    }
}

#[test]
fn easy_selection_is_roughly_uniform() {
    let game = connect4_after(6, 7, &[3, 3]);
    let ai = Connect4AI::new(6, 7, Difficulty::Easy);
    let mut counts = [0usize; 7];
    for _ in 0..7000 {
        counts[ai.find_best_move(game.clone())] += 1;
    }
    for count in counts {
        assert!(count > 700 && count < 1300, "{:?}", counts);
    }
}

#[test]
fn no_candidate_on_a_full_board() {
    let mut game = BoardGame::new_connect4(4, 4, true);
    for column in [3, 2, 1, 0, 2, 0, 0, 0, 3, 3, 1, 2, 3, 1, 2, 1] {
        game.place_disc(column);
    }
    assert_eq!(game.check(), GameEvent::Draw(0));
    for difficulty in Difficulty::to_vec() {
        let ai = Connect4AI::new(4, 4, difficulty);
        assert_eq!(ai.candidate_moves(&game), Vec::<usize>::new());
        assert_eq!(ai.find_best_move(game.clone()), 0);
    }
}

#[test]
fn medium_completes_three_in_a_line() {
    // Yellow holds columns 3, 4 and 5 of the bottom row; column 2 is open next to them.
    let game = connect4_after(6, 7, &[0, 3, 0, 4, 1, 5, 6]);
    assert_eq!(game.get_current_disc_type(), DiscType::Yellow);
    let ai = Connect4AI::new(6, 7, Difficulty::Medium);
    assert_eq!(ai.find_winning_move(game.game_board(), DiscType::Yellow), Some(2));
    assert_eq!(ai.candidate_moves(&game), vec![2]);
    for _ in 0..50 {
        assert_eq!(ai.find_best_move(game.clone()), 2);
    }
}

#[test]
fn medium_completes_a_line_for_the_first_player_too() {
    let game = connect4_after(6, 7, &[0, 1, 0, 1, 0, 2]);
    assert_eq!(game.get_current_disc_type(), DiscType::Red);
    let ai = Connect4AI::new(6, 7, Difficulty::Medium);
    assert_eq!(ai.find_winning_move(game.game_board(), DiscType::Red), Some(0));
    assert_eq!(ai.find_best_move(game.clone()), 0);
}

#[test]
fn medium_blocks_three_in_a_line() {
    // Red holds columns 0, 1 and 2 of the bottom row; Yellow cannot win at once.
    let game = connect4_after(6, 7, &[0, 6, 1, 6, 2]);
    assert_eq!(game.get_current_disc_type(), DiscType::Yellow);
    let ai = Connect4AI::new(6, 7, Difficulty::Medium);
    assert_eq!(ai.find_winning_move(game.game_board(), DiscType::Yellow), None);
    assert_eq!(ai.find_blocking_move(game.game_board(), DiscType::Yellow), Some(3));
    assert_eq!(ai.candidate_moves(&game), vec![3]);
    for _ in 0..50 {
        assert_eq!(ai.find_best_move(game.clone()), 3);
    }
}

#[test]
fn medium_prefers_its_own_win_to_a_block() {
    // Red holds columns 0, 1 and 2 of the bottom row, Yellow three cells of column 6.
    let game = connect4_after(6, 7, &[0, 6, 1, 6, 2, 6, 5]);
    assert_eq!(game.get_current_disc_type(), DiscType::Yellow);
    let ai = Connect4AI::new(6, 7, Difficulty::Medium);
    assert_eq!(ai.find_blocking_move(game.game_board(), DiscType::Yellow), Some(3));
    assert_eq!(ai.find_winning_move(game.game_board(), DiscType::Yellow), Some(6));
    assert_eq!(ai.candidate_moves(&game), vec![6]);
    assert_eq!(ai.find_best_move(game), 6);
}

#[test]
fn medium_does_not_count_a_cell_that_cannot_be_reached() {
    // Yellow holds columns 0, 1 and 2 of the second row from the bottom, but a disc
    // dropped into column 3 comes to rest in the bottom row.
    let game = connect4_after(6, 7, &[0, 0, 1, 1, 2, 2, 6]);
    assert_eq!(game.get_current_disc_type(), DiscType::Yellow);
    let ai = Connect4AI::new(6, 7, Difficulty::Medium);
    assert_eq!(ai.find_winning_move(game.game_board(), DiscType::Yellow), None);
    assert_eq!(ai.find_blocking_move(game.game_board(), DiscType::Yellow), Some(3));
    assert_eq!(ai.candidate_moves(&game), vec![3]);
}

#[test]
fn medium_without_threats_keeps_every_open_column() {
    let game = connect4_after(6, 7, &[3]);
    let ai = Connect4AI::new(6, 7, Difficulty::Medium);
    assert_eq!(ai.find_winning_move(game.game_board(), DiscType::Yellow), None);
    assert_eq!(ai.find_blocking_move(game.game_board(), DiscType::Yellow), None);
    assert_eq!(ai.candidate_moves(&game), vec![0, 1, 2, 3, 4, 5, 6]);
}

#[test]
fn find_winning_move_skips_full_columns() {
    let mut board = Board::new(4, 4);
    for disc in [DiscType::Yellow, DiscType::Yellow, DiscType::Yellow, DiscType::Red] {
        board.place_disc(0, disc);
    }
    let ai = Connect4AI::new(4, 4, Difficulty::Medium);
    assert_eq!(ai.find_winning_move(&board, DiscType::Yellow), None);
    assert_eq!(ai.find_winning_move(&board, DiscType::Red), None);
}

#[test]
fn hard_completes_four_in_a_column() {
    // A has dropped three discs into column 0, B two into column 1 and one into column 2.
    let game = connect4_after(4, 4, &[0, 1, 0, 1, 0, 2]);
    assert_eq!(game.get_current_disc_type(), DiscType::Red);
    assert_eq!(game.game_board().disc_at(3, 0), DiscType::Red);
    assert_eq!(game.game_board().disc_at(2, 0), DiscType::Red);
    assert_eq!(game.game_board().disc_at(1, 0), DiscType::Red);
    assert_eq!(game.game_board().disc_at(0, 0), DiscType::Empty);
    let ai = Connect4AI::new(4, 4, Difficulty::Hard);
    assert_eq!(ai.candidate_moves(&game), vec![0]);
    for _ in 0..20 {
        assert_eq!(ai.find_best_move(game.clone()), 0);
    }
    let mut live = game.clone();
    assert_eq!(live.place_disc(0), GameEvent::Player1Win(0));
}

#[test]
fn insane_completes_four_in_a_column() {
    let game = connect4_after(4, 4, &[0, 1, 0, 1, 0, 2]);
    let ai = Connect4AI::new(4, 4, Difficulty::Insane);
    assert_eq!(ai.candidate_moves(&game), vec![0]);
    assert_eq!(ai.find_best_move(game), 0);
}

#[test]
fn hard_search_on_a_six_by_seven_board() {
    let game = connect4_after(6, 7, &[3, 4, 3, 4, 2, 3, 5]);
    assert_eq!(game.get_current_disc_type(), DiscType::Yellow);
    let ai = Connect4AI::new(6, 7, Difficulty::Hard);
    assert_eq!(ai.candidate_moves(&game), vec![4]);
    assert_eq!(ai.find_best_move(game.clone()), 4);
    // the match that was handed over is untouched
    assert_eq!(game.get_turns(), 7);
    assert_eq!(game.game_board().get_valid_columns().len(), 7);
}

#[test]
fn spelling_easy_candidates_are_all_letters_in_open_columns() {
    let game = spelling_after(2, 3, &[(1, DiscType::T), (1, DiscType::O)]);
    let ai = TootOttoAI::new(2, 3, Difficulty::Easy);
    let expected = vec![(0, DiscType::T), (2, DiscType::T), (0, DiscType::O), (2, DiscType::O)];
    assert_eq!(ai.candidate_moves(&game), expected);
    for _ in 0..100 {
        assert!(expected.contains(&ai.find_best_move(game.clone())));
    }
}

#[test]
fn spelling_medium_completes_its_word() {
    // bottom row: O T T . with the second participant, who spells OTTO, to move
    let game = spelling_after(4, 4, &[(0, DiscType::O), (1, DiscType::T), (2, DiscType::T)]);
    assert_eq!(game.current_player(), 2);
    let ai = TootOttoAI::new(4, 4, Difficulty::Medium);
    assert_eq!(ai.find_winning_move(game.game_board(), Word::Otto), Some((3, DiscType::O)));
    assert_eq!(ai.find_winning_move(game.game_board(), Word::Toot), None);
    assert_eq!(ai.candidate_moves(&game), vec![(3, DiscType::O)]);
    assert_eq!(ai.find_best_move(game.clone()), (3, DiscType::O));
}

#[test]
fn spelling_medium_blocks_with_the_other_letter() {
    // bottom row: T O O . with the second participant to move; a T in column 3 spells TOOT
    let game = spelling_after(4, 4, &[(0, DiscType::T), (1, DiscType::O), (2, DiscType::O)]);
    assert_eq!(game.current_player(), 2);
    let ai = TootOttoAI::new(4, 4, Difficulty::Medium);
    assert_eq!(ai.find_winning_move(game.game_board(), Word::Otto), None);
    assert_eq!(ai.find_winning_move(game.game_board(), Word::Toot), Some((3, DiscType::T)));
    assert_eq!(ai.find_blocking_move(game.game_board(), Word::Otto), Some((3, DiscType::O)));
    assert_eq!(ai.candidate_moves(&game), vec![(3, DiscType::O)]);
    assert_eq!(ai.find_best_move(game), (3, DiscType::O));
}

#[test]
fn spelling_search_completes_its_word() {
    let state = matrix(&["....", "....", "....", "OXX."]);
    let medium = TootOttoAI::new(4, 4, Difficulty::Medium);
    assert_eq!(
        medium.max_state(1, &state, 0, -UNBOUNDED, UNBOUNDED),
        (999999, vec![(3, DiscType::O)])
    );
    assert_eq!(
        medium.max_state(-1, &state, 0, -UNBOUNDED, UNBOUNDED),
        (-30, vec![(3, DiscType::T)])
    );
    let game = spelling_after(4, 4, &[(0, DiscType::O), (1, DiscType::T), (2, DiscType::T)]);
    let hard = TootOttoAI::new(4, 4, Difficulty::Hard);
    assert_eq!(hard.candidate_moves(&game), vec![(3, DiscType::O)]);
    assert_eq!(hard.find_best_move(game), (3, DiscType::O));
}

#[test]
fn spelling_opponent_has_no_move_on_a_full_board() {
    let mut game = BoardGame::new_toot_and_otto(1, 2, true);
    game.place_disc(0);
    game.place_disc(1);
    assert_eq!(game.check(), GameEvent::Draw(0));
    for difficulty in Difficulty::to_vec() {
        let ai = TootOttoAI::new(1, 2, difficulty);
        assert_eq!(ai.candidate_moves(&game), vec![]);
        assert_eq!(ai.find_best_move(game.clone()), (0, DiscType::Empty));
    }
}

#[test]
fn select_move_is_reproducible() {
    let game = connect4_after(4, 4, &[1, 1, 1, 1, 3]);
    let easy = Connect4AI::new(4, 4, Difficulty::Easy);
    assert_eq!(easy.select_move(&game, 0), 0);
    assert_eq!(easy.select_move(&game, 1), 2);
    assert_eq!(easy.select_move(&game, 2), 3);
    assert_eq!(easy.select_move(&game, 3), 0);
    assert_eq!(easy.select_move(&game, 1), 2);
    let hard = Connect4AI::new(4, 4, Difficulty::Hard);
    let won = connect4_after(4, 4, &[0, 1, 0, 1, 0, 2]);
    for draw in 0..10 {
        assert_eq!(hard.select_move(&won, draw), 0);
    }
    let spelling = spelling_after(2, 3, &[(1, DiscType::T), (1, DiscType::O)]);
    let ai = TootOttoAI::new(2, 3, Difficulty::Easy);
    assert_eq!(ai.select_move(&spelling, 0), (0, DiscType::T));
    assert_eq!(ai.select_move(&spelling, 1), (2, DiscType::T));
    assert_eq!(ai.select_move(&spelling, 2), (0, DiscType::O));
    assert_eq!(ai.select_move(&spelling, 3), (2, DiscType::O));
    assert_eq!(ai.select_move(&spelling, 4), (0, DiscType::T));
}

#[test]
fn deeper_search_from_the_empty_board() {
    let game = BoardGame::new_connect4(6, 7, true);
    let hard = Connect4AI::new(6, 7, Difficulty::Hard);
    let insane = Connect4AI::new(6, 7, Difficulty::Insane);
    assert_eq!(hard.candidate_moves(&game), vec![3]);
    assert_eq!(insane.candidate_moves(&game), vec![3]);
}

#[test]
fn search_takes_every_win_in_one() {
    // Red can complete the bottom row in column 3 and column 6 in column 6.
    let game = connect4_after(6, 7, &[0, 4, 1, 4, 2, 5, 6, 5, 6, 0, 6, 1]);
    assert_eq!(game.get_current_disc_type(), DiscType::Red);
    for difficulty in [Difficulty::Hard, Difficulty::Insane] {
        let ai = Connect4AI::new(6, 7, difficulty);
        assert_eq!(ai.candidate_moves(&game), vec![3, 6]);
    }
    let medium = Connect4AI::new(6, 7, Difficulty::Medium);
    assert_eq!(medium.candidate_moves(&game), vec![3]);
}
