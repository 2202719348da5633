use connect4_model::ai::Difficulty;
use connect4_model::disc::DiscType;
use connect4_model::game::{BoardGame, GameEvent};
use connect4_model::playout::{count_wins, mc_search, play_out, random_playout};

fn rows_of(game: &BoardGame) -> Vec<String> {
    let board = game.game_board();
    (0..board.board_rows())
        .map(|row| {
            (0..board.board_columns())
                .map(|column| match board.disc_at(row, column) {
                    DiscType::Red => 'R',
                    DiscType::Yellow => 'Y',
                    DiscType::T => 'T',
                    DiscType::O => 'O',
                    DiscType::Empty => '.',
                })
                .collect()
        })
        .collect()
}

#[test]
fn playout_budgets() {
    assert_eq!(Difficulty::Easy.playout_budget(), 5);
    assert_eq!(Difficulty::Medium.playout_budget(), 1000);
    assert_eq!(Difficulty::Hard.playout_budget(), 4000);
    assert_eq!(Difficulty::Insane.playout_budget(), 4000);
}

#[test]
fn play_out_follows_the_draws() {
    let mut game = BoardGame::new_connect4(4, 4, true);
    let event = play_out(&mut game, &vec![1, 2, 3, 5, 7, 11, 13]);
    assert_eq!(event, GameEvent::Ongoing);
    assert_eq!(game.get_turns(), 7);
    assert_eq!(rows_of(&game), vec!["....", ".R.Y", ".Y.R", ".RYR"]);
}

#[test]
fn play_out_stops_when_the_match_is_over() {
    let mut game = BoardGame::new_connect4(4, 4, true);
    let event = play_out(&mut game, &vec![0; 20]);
    assert_eq!(event, GameEvent::Player1Win(3));
    assert_eq!(game.check(), GameEvent::Player1Win(3));
    assert_eq!(game.get_turns(), 12);
    assert_eq!(rows_of(&game), vec!["YYY.", "RRR.", "YYY.", "RRRR"]);
}

#[test]
fn play_out_on_a_six_by_seven_board() {
    let draws = vec![
        3, 1, 4, 1, 5, 9, 2, 6, 5, 3, 5, 8, 9, 7, 9, 3, 2, 3, 8, 4, 6, 2, 6, 4, 3, 3, 8, 3, 2, 7,
        9, 5, 0, 2, 8, 8, 4, 1, 9, 7, 1, 6, 9, 3, 9, 9,
    ];
    let mut game = BoardGame::new_connect4(6, 7, false);
    assert_eq!(play_out(&mut game, &draws), GameEvent::Player1Win(1));
    assert_eq!(game.get_turns(), 16);
    assert_eq!(
        rows_of(&game),
        vec![".......", "..R....", "..R....", ".YRY.R.", ".YRY.R.", "YYYRRRY"]
    );
}

#[test]
fn play_out_without_draws_changes_nothing() {
    let mut game = BoardGame::new_connect4(4, 4, true);
    game.place_disc(2);
    assert_eq!(play_out(&mut game, &vec![]), GameEvent::Ongoing);
    assert_eq!(game.get_turns(), 1);
    assert_eq!(rows_of(&game), vec!["....", "....", "....", "..R."]);
}

#[test]
fn random_playout_ends_the_match_and_keeps_the_discs() {
    for _ in 0..200 {
        let mut game = BoardGame::new_connect4(6, 7, true);
        for column in [3, 3, 4] {
            game.place_disc(column);
        }
        let before = rows_of(&game);
        let event = random_playout(&mut game);
        assert!(matches!(
            event,
            GameEvent::Player1Win(_) | GameEvent::Player2Win(_) | GameEvent::Draw(_)
        ));
        assert_eq!(game.check(), event);
        let after = rows_of(&game);
        for (old, new) in before.iter().zip(after.iter()) {
            for (a, b) in old.chars().zip(new.chars()) {
                assert!(a == '.' || a == b);
            }
        }
        let again = random_playout(&mut game);
        assert_eq!(again, event);
        assert_eq!(rows_of(&game), after);
    }
}

#[test]
fn random_playout_of_the_spelling_game_ends() {
    for _ in 0..200 {
        let mut game = BoardGame::new_toot_and_otto(4, 6, true);
        let event = random_playout(&mut game);
        assert!(matches!(
            event,
            GameEvent::Player1Win(_) | GameEvent::Player2Win(_) | GameEvent::Draw(_)
        ));
    }
}

#[test]
fn estimate_counts_at_most_every_playout() {
    let game = BoardGame::new_connect4(6, 7, true);
    let first = mc_search(&game, true, 300);
    let second = mc_search(&game, false, 300);
    assert!(first <= 300 && second <= 300);
    // either side wins well over a tenth of all random matches
    assert!(first > 30 && second > 30);
    assert_eq!(mc_search(&game, true, 0), 0);
}

#[test]
fn estimate_of_a_certain_win() {
    // One cell is left, and the yellow disc that fills it completes the top row.
    let mut game = BoardGame::new_connect4(4, 4, true);
    for column in [2, 0, 2, 0, 2, 2, 1, 1, 3, 1, 0, 1, 3, 0, 3] {
        assert!(matches!(game.place_disc(column), GameEvent::PlaceSuccess(_)));
    }
    assert_eq!(game.current_player(), 2);
    assert_eq!(game.game_board().get_valid_columns(), vec![3]);
    assert_eq!(mc_search(&game, false, 50), 50);
    assert_eq!(mc_search(&game, true, 50), 0);
}

#[test]
fn estimate_of_a_certain_draw() {
    let game = BoardGame::new_connect4(1, 1, false);
    assert_eq!(mc_search(&game, true, 50), 0);
    assert_eq!(mc_search(&game, false, 50), 0);
}

#[test]
fn estimate_of_a_finished_match() {
    let mut game = BoardGame::new_connect4(6, 7, true);
    for column in [0, 1, 0, 1, 0, 1, 0] {
        game.place_disc(column);
    }
    assert_eq!(game.check(), GameEvent::Player1Win(2));
    assert_eq!(mc_search(&game, true, 20), 20);
    assert_eq!(mc_search(&game, false, 20), 0);
    let mut lost = BoardGame::new_connect4(6, 7, true);
    for column in [0, 1, 0, 1, 0, 1, 6, 1] {
        lost.place_disc(column);
    }
    assert_eq!(lost.check(), GameEvent::Player2Win(2));
    assert_eq!(mc_search(&lost, false, 20), 20);
    assert_eq!(mc_search(&lost, true, 20), 0);
}

#[test]
fn count_wins_follows_the_given_playouts() {
    let game = BoardGame::new_connect4(4, 4, true);
    // the first list ends with a win of the first participant, the second runs out
    // while the match goes on
    let playouts = vec![vec![0; 20], vec![1, 2, 3, 5, 7, 11, 13], vec![0; 13], vec![0; 12]];
    assert_eq!(count_wins(&game, true, &playouts), 2);
    assert_eq!(count_wins(&game, false, &playouts), 0);
    assert_eq!(count_wins(&game, true, &vec![]), 0);
    // the match that was handed over is untouched
    assert_eq!(game.get_turns(), 0);
}

#[test]
fn count_wins_of_a_certain_win() {
    let mut game = BoardGame::new_connect4(4, 4, true);
    for column in [2, 0, 2, 0, 2, 2, 1, 1, 3, 1, 0, 1, 3, 0, 3] {
        assert!(matches!(game.place_disc(column), GameEvent::PlaceSuccess(_)));
    }
    // one cell is left: whatever is drawn, the second participant fills it and wins
    let playouts = vec![vec![0], vec![5, 1], vec![usize::MAX], vec![]];
    assert_eq!(count_wins(&game, false, &playouts), 3);
    assert_eq!(count_wins(&game, true, &playouts), 0);
}
