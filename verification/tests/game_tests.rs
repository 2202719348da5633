use connect4_model::ai::Difficulty;
use connect4_model::board_size::BoardSize;
use connect4_model::connect4::Connect4;
use connect4_model::disc::DiscType;
use connect4_model::game::{BoardGame, GameEvent, GameType};
use connect4_model::history::{match_record, HistoryInfo};
use connect4_model::player::{Player, PlayerType};
use connect4_model::toot_and_otto::TOOTandOTTO;

fn snapshot(game: &BoardGame) -> (String, usize, usize, DiscType, DiscType, GameEvent) {
    (
        game.game_board().to_string(),
        game.get_turns(),
        game.current_player(),
        game.player1().disc_type,
        game.player2().disc_type,
        game.check(),
    )
}

#[test]
fn player_new_and_change_disc_type() {
    let mut player = Player::new(PlayerType::AI, DiscType::T);
    assert_eq!(player.player_type, PlayerType::AI);
    assert_eq!(player.disc_type, DiscType::T);
    player.change_disc_type(DiscType::O);
    assert_eq!(player, Player { player_type: PlayerType::AI, disc_type: DiscType::O });
}

#[test]
fn new_connect4_match() {
    let game = BoardGame::new_connect4(6, 7, true);
    assert_eq!(game.game_type(), GameType::Connect4);
    assert_eq!(game.player1(), Player::new(PlayerType::Human, DiscType::Red));
    assert_eq!(game.player2(), Player::new(PlayerType::AI, DiscType::Yellow));
    assert_eq!(game.get_turns(), 0);
    assert_eq!(game.current_player(), 1);
    assert_eq!(game.check(), GameEvent::Ongoing);
    assert_eq!(game.game_board().board_rows(), 6);
    assert_eq!(game.game_board().board_columns(), 7);
    assert_eq!(game.game_board().get_valid_columns().len(), 7);
    let human = BoardGame::new_connect4(4, 5, false);
    assert_eq!(human.player2().player_type, PlayerType::Human);
}

#[test]
fn new_toot_and_otto_match() {
    let game = BoardGame::new_toot_and_otto(4, 6, false);
    assert_eq!(game.game_type(), GameType::TOOTandOTTO);
    assert_eq!(game.player1(), Player::new(PlayerType::Human, DiscType::T));
    assert_eq!(game.player2(), Player::new(PlayerType::Human, DiscType::O));
    assert_eq!(game.get_turns(), 0);
    assert_eq!(game.check(), GameEvent::Ongoing);
    let computer = BoardGame::new_toot_and_otto(4, 6, true);
    assert_eq!(computer.player2().player_type, PlayerType::AI);
}

#[test]
fn turns_alternate_between_the_two_colours() {
    let mut game = BoardGame::new_connect4(6, 7, false);
    assert_eq!(game.get_current_disc_type(), DiscType::Red);
    assert_eq!(game.get_other_disc_type(), DiscType::Yellow);
    assert_eq!(game.place_disc(3), GameEvent::PlaceSuccess(5));
    assert_eq!(game.get_turns(), 1);
    assert_eq!(game.current_player(), 2);
    assert_eq!(game.get_current_disc_type(), DiscType::Yellow);
    assert_eq!(game.get_other_disc_type(), DiscType::Red);
    assert_eq!(game.place_disc(3), GameEvent::PlaceSuccess(4));
    assert_eq!(game.get_turns(), 2);
    assert_eq!(game.current_player(), 1);
    assert_eq!(game.game_board().disc_at(5, 3), DiscType::Red);
    assert_eq!(game.game_board().disc_at(4, 3), DiscType::Yellow);
}

#[test]
fn column_outside_the_board_is_invalid() {
    let mut game = BoardGame::new_connect4(6, 7, false);
    game.place_disc(0);
    let before = snapshot(&game);
    assert_eq!(game.place_disc(7), GameEvent::InvalidColumn);
    assert_eq!(game.place_disc(usize::MAX), GameEvent::InvalidColumn);
    assert_eq!(snapshot(&game), before);
}

#[test]
fn full_column_changes_nothing_and_keeps_the_turn() {
    let mut game = BoardGame::new_connect4(4, 4, false);
    for _ in 0..4 {
        game.place_disc(2);
    }
    let before = snapshot(&game);
    assert_eq!(game.get_turns(), 4);
    assert_eq!(game.place_disc(2), GameEvent::PlaceColumnFull);
    assert_eq!(snapshot(&game), before);
    assert_eq!(game.get_current_disc_type(), DiscType::Red);
}

#[test]
fn first_player_wins_with_four_in_a_column() {
    let mut game = BoardGame::new_connect4(6, 7, false);
    for column in [0, 1, 0, 1, 0, 1] {
        assert!(matches!(game.place_disc(column), GameEvent::PlaceSuccess(_)));
    }
    assert_eq!(game.place_disc(0), GameEvent::Player1Win(2));
    assert_eq!(game.check(), GameEvent::Player1Win(2));
    assert_eq!(game.get_turns(), 6);
}

#[test]
fn second_player_wins_with_four_in_a_row() {
    let mut game = BoardGame::new_connect4(6, 7, true);
    for column in [0, 3, 0, 4, 1, 5, 1] {
        assert!(matches!(game.place_disc(column), GameEvent::PlaceSuccess(_)));
    }
    assert_eq!(game.place_disc(6), GameEvent::Player2Win(5));
    assert_eq!(game.check(), GameEvent::Player2Win(5));
}

#[test]
fn finished_match_absorbs_further_placements() {
    let mut game = BoardGame::new_connect4(6, 7, false);
    for column in [0, 1, 0, 1, 0, 1, 0] {
        game.place_disc(column);
    }
    let before = snapshot(&game);
    assert_eq!(game.place_disc(3), GameEvent::Player1Win(2));
    assert_eq!(game.place_disc(0), GameEvent::Player1Win(2));
    assert_eq!(snapshot(&game), before);
    game.switch_disc_type();
    game.change_disc_type(DiscType::T);
    assert_eq!(snapshot(&game), before);
}

#[test]
fn finished_match_still_refuses_columns_by_the_column() {
    let mut game = BoardGame::new_connect4(4, 6, false);
    for column in [5, 5, 5, 5, 0, 4, 1, 4, 2, 4] {
        assert!(matches!(game.place_disc(column), GameEvent::PlaceSuccess(_)));
    }
    assert_eq!(game.place_disc(3), GameEvent::Player1Win(3));
    let before = snapshot(&game);
    // column 5 is full, column 6 does not exist, column 0 could take a disc
    assert_eq!(game.place_disc(5), GameEvent::PlaceColumnFull);
    assert_eq!(game.place_disc(6), GameEvent::InvalidColumn);
    assert_eq!(game.place_disc(9), GameEvent::InvalidColumn);
    assert_eq!(game.place_disc(0), GameEvent::Player1Win(3));
    assert_eq!(snapshot(&game), before);
}

#[test]
fn full_board_without_four_is_a_draw() {
    let mut game = BoardGame::new_connect4(4, 4, false);
    let moves = [3, 2, 1, 0, 2, 0, 0, 0, 3, 3, 1, 2, 3, 1, 2];
    for column in moves {
        assert!(matches!(game.place_disc(column), GameEvent::PlaceSuccess(_)));
        assert_eq!(game.check(), GameEvent::Ongoing);
    }
    assert_eq!(game.place_disc(1), GameEvent::Draw(0));
    assert_eq!(game.check(), GameEvent::Draw(0));
    assert!(game.game_board().is_full());
    assert!(!game.game_board().is_connect4(DiscType::Red));
    assert!(!game.game_board().is_connect4(DiscType::Yellow));
    // after a draw every column is full
    let before = snapshot(&game);
    for column in 0..4 {
        assert_eq!(game.place_disc(column), GameEvent::PlaceColumnFull);
    }
    assert_eq!(game.place_disc(4), GameEvent::InvalidColumn);
    assert_eq!(snapshot(&game), before);
    assert_eq!(game.check(), GameEvent::Draw(0));
}

#[test]
fn full_board_without_a_word_is_a_draw() {
    let mut game = BoardGame::new_toot_and_otto(4, 4, false);
    let mut last = GameEvent::Ongoing;
    for column in 0..4 {
        for _ in 0..4 {
            game.change_disc_type(DiscType::T);
            last = game.place_disc(column);
        }
    }
    assert_eq!(last, GameEvent::Draw(0));
    assert_eq!(game.check(), GameEvent::Draw(0));
    assert_eq!(game.game_board().is_toot_or_otto(), GameEvent::Ongoing);
    assert!(game.game_board().is_full());
}

#[test]
fn winning_disc_on_the_last_cell_is_a_win_not_a_draw() {
    let mut game = BoardGame::new_toot_and_otto(1, 4, false);
    game.place_disc(0);
    game.place_disc(1);
    game.change_disc_type(DiscType::O);
    game.place_disc(2);
    game.change_disc_type(DiscType::T);
    assert_eq!(game.place_disc(3), GameEvent::Player1Win(0));
}

#[test]
fn switching_letters_affects_the_participant_to_move_only() {
    let mut game = BoardGame::new_toot_and_otto(4, 6, false);
    assert_eq!(game.get_current_disc_type(), DiscType::T);
    game.switch_disc_type();
    assert_eq!(game.player1().disc_type, DiscType::O);
    assert_eq!(game.player2().disc_type, DiscType::O);
    game.switch_disc_type();
    assert_eq!(game.player1().disc_type, DiscType::T);
    assert_eq!(game.place_disc(0), GameEvent::PlaceSuccess(3));
    game.switch_disc_type();
    assert_eq!(game.player1().disc_type, DiscType::T);
    assert_eq!(game.player2().disc_type, DiscType::T);
    assert_eq!(game.get_current_disc_type(), DiscType::T);
    assert_eq!(game.get_other_disc_type(), DiscType::T);
    assert_eq!(game.place_disc(0), GameEvent::PlaceSuccess(2));
    assert_eq!(game.game_board().disc_at(3, 0), DiscType::T);
    assert_eq!(game.game_board().disc_at(2, 0), DiscType::T);
}

#[test]
fn change_disc_type_accepts_letters_only() {
    let mut game = BoardGame::new_toot_and_otto(4, 6, false);
    game.change_disc_type(DiscType::O);
    assert_eq!(game.get_current_disc_type(), DiscType::O);
    game.change_disc_type(DiscType::Red);
    assert_eq!(game.get_current_disc_type(), DiscType::O);
    game.change_disc_type(DiscType::Empty);
    assert_eq!(game.get_current_disc_type(), DiscType::O);
    game.change_disc_type(DiscType::T);
    assert_eq!(game.get_current_disc_type(), DiscType::T);
}

#[test]
fn colours_never_change_in_four_in_a_row() {
    let mut game = BoardGame::new_connect4(6, 7, false);
    game.switch_disc_type();
    assert_eq!(game.get_current_disc_type(), DiscType::Red);
    game.change_disc_type(DiscType::T);
    assert_eq!(game.player1().disc_type, DiscType::Red);
    assert_eq!(game.player2().disc_type, DiscType::Yellow);
}

#[test]
fn toot_wins_for_the_first_player_whoever_places_it() {
    let mut game = BoardGame::new_toot_and_otto(4, 6, false);
    assert_eq!(game.place_disc(0), GameEvent::PlaceSuccess(3)); // first: T
    assert_eq!(game.place_disc(1), GameEvent::PlaceSuccess(3)); // second: O
    game.change_disc_type(DiscType::O);
    assert_eq!(game.place_disc(2), GameEvent::PlaceSuccess(3)); // first: O
    game.change_disc_type(DiscType::T);
    assert_eq!(game.place_disc(3), GameEvent::Player1Win(3)); // second completes T O O T
    assert_eq!(game.check(), GameEvent::Player1Win(3));
}

#[test]
fn otto_wins_for_the_second_player() {
    let mut game = BoardGame::new_toot_and_otto(4, 6, true);
    game.change_disc_type(DiscType::O);
    game.place_disc(0); // first: O
    game.change_disc_type(DiscType::T);
    game.place_disc(1); // second: T
    game.change_disc_type(DiscType::T);
    game.place_disc(2); // first: T
    game.change_disc_type(DiscType::O);
    assert_eq!(game.place_disc(3), GameEvent::Player2Win(3));
}

#[test]
fn clone_of_a_match_is_independent() {
    let mut game = BoardGame::new_connect4(6, 7, true);
    game.place_disc(3);
    let mut copy = game.clone();
    assert_eq!(snapshot(&copy), snapshot(&game));
    copy.place_disc(3);
    assert_eq!(game.get_turns(), 1);
    assert_eq!(copy.get_turns(), 2);
    assert_eq!(game.game_board().disc_at(4, 3), DiscType::Empty);
}

#[test]
fn connect4_type_plays_a_match() {
    let mut game = Connect4::new(6, 7, false);
    assert_eq!(game.game().game_type(), GameType::Connect4);
    assert_eq!(game.check(), GameEvent::Ongoing);
    for column in [2, 2, 3, 3, 4, 4] {
        assert!(matches!(game.place_disc(column), GameEvent::PlaceSuccess(_)));
    }
    assert_eq!(game.place_disc(8), GameEvent::InvalidColumn);
    assert_eq!(game.place_disc(5), GameEvent::Player1Win(5));
    assert_eq!(game.check(), GameEvent::Player1Win(5));
    assert_eq!(game.place_disc(0), GameEvent::Player1Win(5));
    assert_eq!(game.game().get_turns(), 6);
}

#[test]
fn toot_and_otto_type_plays_a_match() {
    let mut game = TOOTandOTTO::new(4, 6, false);
    assert_eq!(game.game().game_type(), GameType::TOOTandOTTO);
    assert_eq!(game.place_disc(0), GameEvent::PlaceSuccess(3));
    assert_eq!(game.place_disc(1), GameEvent::PlaceSuccess(3));
    game.change_disc_type(DiscType::O);
    assert_eq!(game.place_disc(2), GameEvent::PlaceSuccess(3));
    game.change_disc_type(DiscType::T);
    assert_eq!(game.place_disc(3), GameEvent::Player1Win(3));
    assert_eq!(game.check(), GameEvent::Player1Win(3));
}

#[test]
fn board_sizes() {
    let all = BoardSize::to_vec();
    assert_eq!(
        all,
        vec![
            BoardSize::SevenBySix,
            BoardSize::FiveByFour,
            BoardSize::SixByFive,
            BoardSize::EightBySeven,
            BoardSize::NineBySeven,
            BoardSize::TenBySeven,
            BoardSize::EightByEight,
        ]
    );
    let expected = [
        (7, 6, "7 x 6"),
        (5, 4, "5 x 4"),
        (6, 5, "6 x 5"),
        (8, 7, "8 x 7"),
        (9, 7, "9 x 7"),
        (10, 7, "10 x 7"),
        (8, 8, "8 x 8"),
    ];
    for (size, (columns, rows, text)) in all.iter().zip(expected.iter()) {
        assert_eq!(size.get_column(), *columns);
        assert_eq!(size.get_row(), *rows);
        assert_eq!(size.to_string(), *text);
        let game = BoardGame::new_connect4(size.get_row(), size.get_column(), true);
        assert_eq!(game.game_board().board_rows(), *rows);
        assert_eq!(game.game_board().board_columns(), *columns);
    }
}

#[test]
fn game_type_names() {
    assert_eq!(GameType::Connect4.to_string(), "Connect-4");
    assert_eq!(GameType::TOOTandOTTO.to_string(), "TOOT-OTTO");
}

#[test]
fn no_record_while_the_match_goes_on() {
    let mut game = BoardGame::new_connect4(6, 7, true);
    assert_eq!(match_record(&game, "Ann", "Computer", Difficulty::Hard, ""), None);
    game.place_disc(0);
    assert_eq!(match_record(&game, "Ann", "Computer", Difficulty::Hard, ""), None);
}

#[test]
fn record_of_a_win_against_the_computer() {
    let mut game = BoardGame::new_connect4(6, 7, true);
    for column in [0, 1, 0, 1, 0, 1, 0] {
        game.place_disc(column);
    }
    let record =
        match_record(&game, "Ann", "Computer", Difficulty::Hard, "2021-04-01 10:00").unwrap();
    assert_eq!(
        record,
        HistoryInfo {
            game_type: String::from("Connect-4"),
            player1: String::from("Ann"),
            player2: String::from("Computer"),
            winner: String::from("Ann"),
            difficulty: String::from("Hard"),
            time_played: String::from("2021-04-01 10:00"),
        }
    );
}

#[test]
fn record_of_a_win_of_the_second_player_between_humans() {
    let mut game = BoardGame::new_toot_and_otto(4, 6, false);
    game.change_disc_type(DiscType::O);
    game.place_disc(0);
    game.change_disc_type(DiscType::T);
    game.place_disc(1);
    game.change_disc_type(DiscType::T);
    game.place_disc(2);
    game.change_disc_type(DiscType::O);
    assert_eq!(game.place_disc(3), GameEvent::Player2Win(3));
    let record = match_record(&game, "Ann", "Bob", Difficulty::Insane, "").unwrap();
    assert_eq!(record.game_type, "TOOT-OTTO");
    assert_eq!(record.winner, "Bob");
    assert_eq!(record.difficulty, "N/A");
    assert_eq!(record.player1, "Ann");
    assert_eq!(record.player2, "Bob");
    assert_eq!(record.time_played, "");
}

#[test]
fn record_of_a_draw() {
    let mut game = BoardGame::new_connect4(4, 4, true);
    for column in [3, 2, 1, 0, 2, 0, 0, 0, 3, 3, 1, 2, 3, 1, 2, 1] {
        game.place_disc(column);
    }
    let record = match_record(&game, "Ann", "Computer", Difficulty::Easy, "noon").unwrap();
    assert_eq!(record.winner, "Draw");
    assert_eq!(record.difficulty, "Easy");
    assert_eq!(record.time_played, "noon");
    assert_eq!(record.clone(), record);
}
