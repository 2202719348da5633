use connect4_model::board::Board;
use connect4_model::disc::DiscType;
use connect4_model::game::GameEvent;
use connect4_model::grid::Direction;

fn board_with(rows: usize, columns: usize, drops: &[(usize, DiscType)]) -> Board {
    let mut board = Board::new(rows, columns);
    for (column, disc) in drops {
        board.place_disc(*column, *disc);
    }
    board
}

fn discs_in_column(board: &Board, column: usize) -> usize {
    let mut count = 0;
    for row in 0..board.board_rows() {
        if board.disc_at(row, column) != DiscType::Empty {
            count += 1;
        }
    }
    count
}

fn cells(board: &Board) -> Vec<Vec<DiscType>> {
    let mut all = Vec::new();
    for row in 0..board.board_rows() {
        let mut line = Vec::new();
        for column in 0..board.board_columns() {
            line.push(board.disc_at(row, column));
        }
        all.push(line);
    }
    all
}

#[test]
fn new_board_is_empty() {
    let board = Board::new(6, 7);
    assert_eq!(board.board_rows(), 6);
    assert_eq!(board.board_columns(), 7);
    for row in 0..6 {
        for column in 0..7 {
            assert_eq!(board.disc_at(row, column), DiscType::Empty);
        }
    }
    assert!(!board.is_full());
    assert_eq!(board.get_valid_columns(), vec![0, 1, 2, 3, 4, 5, 6]);
}

#[test]
fn smallest_and_largest_boards() {
    let small = Board::new(1, 1);
    assert_eq!(small.board_rows(), 1);
    assert_eq!(small.board_columns(), 1);
    let large = Board::new(32, 32);
    assert_eq!(large.board_rows(), 32);
    assert_eq!(large.board_columns(), 32);
    assert_eq!(large.get_valid_columns().len(), 32);
}

#[test]
fn disc_lands_in_lowest_empty_row() {
    let mut board = Board::new(6, 7);
    assert_eq!(board.place_disc(3, DiscType::Red), GameEvent::PlaceSuccess(5));
    assert_eq!(board.disc_at(5, 3), DiscType::Red);
    assert_eq!(board.place_disc(3, DiscType::Yellow), GameEvent::PlaceSuccess(4));
    assert_eq!(board.disc_at(4, 3), DiscType::Yellow);
    assert_eq!(board.place_disc(0, DiscType::Red), GameEvent::PlaceSuccess(5));
    assert_eq!(board.disc_at(5, 0), DiscType::Red);
    assert_eq!(board.disc_at(3, 3), DiscType::Empty);
}

#[test]
fn placement_adds_exactly_one_disc_to_its_column() {
    let r = DiscType::Red;
    let y = DiscType::Yellow;
    let mut board = board_with(6, 7, &[(2, r), (2, y), (4, r)]);
    for column in 0..7 {
        let before: Vec<usize> = (0..7).map(|c| discs_in_column(&board, c)).collect();
        let lowest_empty =
            (0..6).rev().find(|r| board.disc_at(*r, column) == DiscType::Empty).unwrap();
        let event = board.place_disc(column, y);
        assert_eq!(event, GameEvent::PlaceSuccess(lowest_empty));
        for other in 0..7 {
            let expected = if other == column { before[other] + 1 } else { before[other] };
            assert_eq!(discs_in_column(&board, other), expected);
        }
    }
}

#[test]
fn full_column_is_refused_and_board_unchanged() {
    let mut board = board_with(
        4,
        4,
        &[
            (1, DiscType::Red),
            (1, DiscType::Yellow),
            (1, DiscType::Red),
            (1, DiscType::Yellow),
            (2, DiscType::Red),
        ],
    );
    let before = cells(&board);
    let text = board.to_string();
    assert_eq!(board.place_disc(1, DiscType::Red), GameEvent::PlaceColumnFull);
    assert_eq!(cells(&board), before);
    assert_eq!(board.to_string(), text);
    assert_eq!(board.get_valid_columns(), vec![0, 2, 3]);
}

#[test]
fn board_is_full_when_every_top_cell_is_taken() {
    let mut board = Board::new(2, 3);
    let discs = [DiscType::Red, DiscType::Yellow];
    let mut turn = 0;
    for column in 0..3 {
        for _ in 0..2 {
            assert!(!board.is_full());
            board.place_disc(column, discs[turn % 2]);
            turn += 1;
        }
    }
    assert!(board.is_full());
    assert_eq!(board.get_valid_columns(), Vec::<usize>::new());
}

#[test]
fn clone_is_independent_copy() {
    let board = board_with(4, 5, &[(0, DiscType::T), (0, DiscType::O)]);
    let mut copy = board.clone();
    assert_eq!(cells(&copy), cells(&board));
    copy.place_disc(0, DiscType::T);
    assert_eq!(board.disc_at(1, 0), DiscType::Empty);
    assert_eq!(copy.disc_at(1, 0), DiscType::T);
}

#[test]
fn scan_line_reads_four_cells_in_each_direction() {
    let board = board_with(
        4,
        4,
        &[
            (0, DiscType::Red),
            (1, DiscType::Yellow),
            (1, DiscType::Red),
            (2, DiscType::Yellow),
            (2, DiscType::Yellow),
            (2, DiscType::Red),
            (0, DiscType::Yellow),
        ],
    );
    let e = DiscType::Empty;
    let r = DiscType::Red;
    let y = DiscType::Yellow;
    assert_eq!(board.scan_line(3, 0, Direction::Right), Some((r, y, y, e)));
    assert_eq!(board.scan_line(0, 0, Direction::Down), Some((e, e, y, r)));
    assert_eq!(board.scan_line(3, 0, Direction::UpRight), Some((r, r, r, e)));
    assert_eq!(board.scan_line(0, 0, Direction::DownRight), Some((e, e, y, e)));
}

#[test]
fn scan_line_is_none_where_the_line_leaves_the_board() {
    let board = Board::new(6, 7);
    assert_eq!(board.scan_line(0, 4, Direction::Right), None);
    assert_eq!(board.scan_line(3, 0, Direction::Down), None);
    assert_eq!(board.scan_line(2, 0, Direction::UpRight), None);
    assert_eq!(board.scan_line(3, 3, Direction::DownRight), None);
    assert_eq!(board.scan_line(6, 0, Direction::Right), None);
    assert_eq!(board.scan_line(0, 7, Direction::Down), None);
    assert!(board.scan_line(0, 3, Direction::Right).is_some());
    assert!(board.scan_line(2, 6, Direction::Down).is_some());
    assert!(board.scan_line(3, 3, Direction::UpRight).is_some());
    assert!(board.scan_line(2, 3, Direction::DownRight).is_some());
}

#[test]
fn four_in_a_row_horizontal() {
    let board = board_with(
        6,
        7,
        &[(1, DiscType::Red), (2, DiscType::Red), (3, DiscType::Red), (4, DiscType::Red)],
    );
    assert!(board.is_connect4(DiscType::Red));
    assert!(!board.is_connect4(DiscType::Yellow));
}

#[test]
fn four_in_a_row_vertical() {
    let board = board_with(
        6,
        7,
        &[
            (6, DiscType::Yellow),
            (6, DiscType::Yellow),
            (6, DiscType::Yellow),
            (6, DiscType::Yellow),
        ],
    );
    assert!(board.is_connect4(DiscType::Yellow));
    assert!(!board.is_connect4(DiscType::Red));
}

#[test]
fn four_in_a_row_on_both_diagonals() {
    let r = DiscType::Red;
    let y = DiscType::Yellow;
    let rising = board_with(
        6,
        7,
        &[(0, r), (1, y), (1, r), (2, y), (2, y), (2, r), (3, y), (3, y), (3, y), (3, r)],
    );
    assert!(rising.is_connect4(r));
    assert!(!rising.is_connect4(y));
    let falling = board_with(
        6,
        7,
        &[(6, r), (5, y), (5, r), (4, y), (4, y), (4, r), (3, y), (3, y), (3, y), (3, r)],
    );
    assert!(falling.is_connect4(r));
    assert!(!falling.is_connect4(y));
}

#[test]
fn three_in_a_row_is_not_four() {
    let board = board_with(6, 7, &[(0, DiscType::Red), (1, DiscType::Red), (2, DiscType::Red)]);
    assert!(!board.is_connect4(DiscType::Red));
    let gap = board_with(
        6,
        7,
        &[
            (0, DiscType::Red),
            (1, DiscType::Red),
            (2, DiscType::Yellow),
            (3, DiscType::Red),
            (4, DiscType::Red),
        ],
    );
    assert!(!gap.is_connect4(DiscType::Red));
}

#[test]
fn mirrored_boards_report_the_same_four() {
    let r = DiscType::Red;
    let y = DiscType::Yellow;
    let games: Vec<Vec<(usize, DiscType)>> = vec![
        vec![(0, r), (1, y), (1, r), (2, y), (2, y), (2, r), (3, y), (3, y), (3, y), (3, r)],
        vec![(1, r), (2, r), (3, r), (4, r), (0, y)],
        vec![(6, y), (6, y), (6, y), (6, y)],
        vec![(0, r), (1, y), (2, r), (3, y), (4, r), (5, y), (6, r)],
        vec![(2, r), (2, y), (3, r), (3, y), (4, r)],
    ];
    for drops in games {
        let mirrored: Vec<(usize, DiscType)> = drops.iter().map(|(c, d)| (6 - c, *d)).collect();
        let board = board_with(6, 7, &drops);
        let mirror = board_with(6, 7, &mirrored);
        for row in 0..6 {
            for column in 0..7 {
                assert_eq!(board.disc_at(row, column), mirror.disc_at(row, 6 - column));
            }
        }
        assert_eq!(board.is_connect4(r), mirror.is_connect4(r));
        assert_eq!(board.is_connect4(y), mirror.is_connect4(y));
    }
}

#[test]
fn toot_and_otto_are_found_along_a_row() {
    let t = DiscType::T;
    let o = DiscType::O;
    let toot = board_with(4, 6, &[(1, t), (2, o), (3, o), (4, t)]);
    assert_eq!(toot.is_toot_or_otto(), GameEvent::IsTOOT);
    let otto = board_with(4, 6, &[(2, o), (3, t), (4, t), (5, o)]);
    assert_eq!(otto.is_toot_or_otto(), GameEvent::IsOTTO);
}

#[test]
fn words_are_found_along_columns_and_diagonals() {
    let t = DiscType::T;
    let o = DiscType::O;
    let column = board_with(4, 4, &[(2, o), (2, t), (2, t), (2, o)]);
    assert_eq!(column.is_toot_or_otto(), GameEvent::IsOTTO);
    let rising = board_with(
        4,
        4,
        &[(0, t), (1, t), (1, o), (2, t), (2, t), (2, o), (3, o), (3, o), (3, o), (3, t)],
    );
    assert_eq!(rising.scan_line(3, 0, Direction::UpRight), Some((t, o, o, t)));
    assert_eq!(rising.is_toot_or_otto(), GameEvent::IsTOOT);
    let falling = board_with(
        4,
        4,
        &[(3, o), (2, o), (2, t), (1, o), (1, o), (1, t), (0, t), (0, t), (0, t), (0, o)],
    );
    assert_eq!(falling.scan_line(0, 0, Direction::DownRight), Some((o, t, t, o)));
    assert_eq!(falling.is_toot_or_otto(), GameEvent::IsOTTO);
}

#[test]
fn no_other_arrangement_of_letters_is_a_word() {
    let t = DiscType::T;
    let o = DiscType::O;
    let letters = [t, o];
    for a in letters {
        for b in letters {
            for c in letters {
                for d in letters {
                    let row = board_with(1, 4, &[(0, a), (1, b), (2, c), (3, d)]);
                    let column = board_with(4, 1, &[(0, d), (0, c), (0, b), (0, a)]);
                    let expected = if (a, b, c, d) == (t, o, o, t) {
                        GameEvent::IsTOOT
                    } else if (a, b, c, d) == (o, t, t, o) {
                        GameEvent::IsOTTO
                    } else {
                        GameEvent::Ongoing
                    };
                    assert_eq!(row.is_toot_or_otto(), expected);
                    assert_eq!(column.is_toot_or_otto(), expected);
                }
            }
        }
    }
}

#[test]
fn colours_and_empty_cells_spell_nothing() {
    let r = DiscType::Red;
    let y = DiscType::Yellow;
    let board = board_with(4, 4, &[(0, r), (1, y), (2, y), (3, r)]);
    assert_eq!(board.is_toot_or_otto(), GameEvent::Ongoing);
    assert_eq!(Board::new(6, 7).is_toot_or_otto(), GameEvent::Ongoing);
    let three = board_with(4, 4, &[(0, DiscType::T), (1, DiscType::O), (2, DiscType::O)]);
    assert_eq!(three.is_toot_or_otto(), GameEvent::Ongoing);
}

#[test]
fn first_word_in_reading_order_decides() {
    let t = DiscType::T;
    let o = DiscType::O;
    // OTTO in the bottom row, TOOT in the row above it: the upper row is read first.
    let upper_toot =
        board_with(4, 4, &[(0, o), (1, t), (2, t), (3, o), (0, t), (1, o), (2, o), (3, t)]);
    assert_eq!(upper_toot.is_toot_or_otto(), GameEvent::IsTOOT);
    let upper_otto =
        board_with(4, 4, &[(0, t), (1, o), (2, o), (3, t), (0, o), (1, t), (2, t), (3, o)]);
    assert_eq!(upper_otto.is_toot_or_otto(), GameEvent::IsOTTO);
}

#[test]
fn first_cell_decides_in_whatever_direction_its_word_runs() {
    let t = DiscType::T;
    let o = DiscType::O;
    // The top left cell starts OTTO downwards; TOOT runs along the second row.
    let board = board_with(
        4,
        4,
        &[
            (0, o), (0, t), (0, t), (0, o),
            (1, t), (1, t), (1, o), (1, t),
            (2, t), (2, o), (2, o), (2, t),
            (3, o), (3, o), (3, t), (3, o),
        ],
    );
    assert_eq!(board.scan_line(0, 0, Direction::Down), Some((o, t, t, o)));
    assert_eq!(board.scan_line(1, 0, Direction::Right), Some((t, o, o, t)));
    assert_eq!(board.is_toot_or_otto(), GameEvent::IsOTTO);
}

#[test]
fn board_text_lists_rows_from_the_top() {
    let board = board_with(
        2,
        3,
        &[(0, DiscType::Red), (0, DiscType::Yellow), (2, DiscType::T), (1, DiscType::O)],
    );
    assert_eq!(board.to_string(), "Y E E \nR O T \n\n");
    assert_eq!(Board::new(1, 1).to_string(), "E \n\n");
}

#[test]
fn disc_symbols() {
    assert_eq!(DiscType::Red.to_string(), "R");
    assert_eq!(DiscType::Yellow.to_string(), "Y");
    assert_eq!(DiscType::T.to_string(), "T");
    assert_eq!(DiscType::O.to_string(), "O");
    assert_eq!(DiscType::Empty.to_string(), "E");
}
