use tic_tac_toe::game::Player;
use tic_tac_toe::grid::{Coordinate, Grid, Line, LineIterator, ParseCoordinateError, Space};

#[test]
fn grid_get_winner() {
    assert_eq!(None, Line::new([Space::O, Space::O, Space::X]).get_winner());
    assert_eq!(None, Line::new([Space::O, Space::X, Space::O]).get_winner());
    assert_eq!(None, Line::new([Space::X, Space::O, Space::O]).get_winner());
    assert_eq!(
        None,
        Line::new([Space::Empty, Space::Empty, Space::Empty]).get_winner(),
    );
    assert_eq!(
        Some(Player::X),
        Line::new([Space::X, Space::X, Space::X]).get_winner(),
    );
    assert_eq!(
        Some(Player::O),
        Line::new([Space::O, Space::O, Space::O]).get_winner(),
    );
}

#[test]
fn grid_test_iterator() {
    // This grid should be identifiably different for each line
    let mut iterator = LineIterator::new([
        [Space::O, Space::X, Space::X],
        [Space::Empty, Space::X, Space::Empty],
        [Space::Empty, Space::Empty, Space::Empty],
    ]);

    assert_eq!(Some(Line::new([Space::O, Space::X, Space::X])), iterator.next());
    assert_eq!(Some(Line::new([Space::Empty, Space::X, Space::Empty])), iterator.next());
    assert_eq!(Some(Line::new([Space::Empty, Space::Empty, Space::Empty])), iterator.next());
    assert_eq!(Some(Line::new([Space::O, Space::Empty, Space::Empty])), iterator.next());
    assert_eq!(Some(Line::new([Space::X, Space::X, Space::Empty])), iterator.next());
    assert_eq!(Some(Line::new([Space::X, Space::Empty, Space::Empty])), iterator.next());
    assert_eq!(Some(Line::new([Space::O, Space::X, Space::Empty])), iterator.next());
    assert_eq!(Some(Line::new([Space::Empty, Space::X, Space::X])), iterator.next());
    assert_eq!(None, iterator.next());
}

#[test]
fn grid_test_exact_size_iterator() {
    assert_eq!(8, LineIterator::new([[Space::Empty; 3]; 3]).len());
}

#[test]
fn grid_from_str_valid() {
    assert_eq!(Ok(Coordinate::new(0, 0)), "A1".parse::<Coordinate>(), "{:?}", "A1");
    assert_eq!(Ok(Coordinate::new(0, 1)), "a2".parse::<Coordinate>(), "{:?}", "a2");
    assert_eq!(Ok(Coordinate::new(1, 1)), "B2".parse::<Coordinate>(), "{:?}", "B2");
    assert_eq!(Ok(Coordinate::new(1, 2)), "b3".parse::<Coordinate>(), "{:?}", "b3");
    assert_eq!(Ok(Coordinate::new(2, 2)), "C3".parse::<Coordinate>(), "{:?}", "C3");
    assert_eq!(Ok(Coordinate::new(2, 0)), "c1".parse::<Coordinate>(), "{:?}", "c1");
}

#[test]
fn grid_from_str_invalid() {
    assert_eq!(
        Err(ParseCoordinateError::new("".to_string())),
        "".parse::<Coordinate>(),
        "{:?}",
        "",
    );
    assert_eq!(
        Err(ParseCoordinateError::new("D1".to_string())),
        "D1".parse::<Coordinate>(),
        "{:?}",
        "D1",
    );
    assert_eq!(
        Err(ParseCoordinateError::new("A4".to_string())),
        "A4".parse::<Coordinate>(),
        "{:?}",
        "A4",
    );
    assert_eq!(
        Err(ParseCoordinateError::new("A12".to_string())),
        "A12".parse::<Coordinate>(),
        "{:?}",
        "A12",
    );
}

#[test]
fn grid_into_string() {
    assert_eq!("A2", &String::from(Coordinate::new(0, 1)));
    assert_eq!("B3", &String::from(Coordinate::new(1, 2)));
    assert_eq!("C1", &String::from(Coordinate::new(2, 0)));
}

#[test]
fn grid_format() {
    assert_eq!(
        &ParseCoordinateError::new("foo".to_string()).to_string(),
        "Invalid coordinate: foo (expected format: A1)"
    );
}

#[test]
fn grid_new() {
    assert_eq!(Space::X, Space::new(Some(Player::X)));
    assert_eq!(Space::O, Space::new(Some(Player::O)));
    assert_eq!(Space::Empty, Space::new(None));
}

#[test]
fn grid_get_player() {
    assert_eq!(Some(Player::X), Space::X.get_player());
    assert_eq!(Some(Player::O), Space::O.get_player());
    assert_eq!(None, Space::Empty.get_player());
}

#[test]
fn grid_display() {
    assert_eq!("X", &Space::X.to_string());
    assert_eq!("O", &Space::O.to_string());
    assert_eq!(" ", &Space::Empty.to_string());
}

#[test]
fn grid_board_queries() {
    let grid = Grid::new([
        [Space::O, Space::X, Space::X],
        [Space::Empty, Space::O, Space::Empty],
        [Space::Empty, Space::Empty, Space::O],
    ]);
    assert_eq!(Space::X, grid.get_space(Coordinate::new(1, 0)));
    assert!(grid.is_legal(Coordinate::new(0, 1)));
    assert!(!grid.is_legal(Coordinate::new(0, 0)));
    assert_eq!(Some(Player::O), grid.get_winner());
    assert_eq!(None, Grid::empty().get_winner());
    assert_eq!(8, grid.lines().len());
}

#[test]
fn grid_drawn_as_table() {
    let grid = Grid::new([
        [Space::X, Space::Empty, Space::Empty],
        [Space::Empty, Space::X, Space::Empty],
        [Space::Empty, Space::Empty, Space::O],
    ]);
    assert_eq!(
        "     A   B   C
   +---+---+---+
 1 | X |   |   |
   +---+---+---+
 2 |   | X |   |
   +---+---+---+
 3 |   |   | O |
   +---+---+---+
",
        grid.to_string(),
    );
    assert_eq!("B2", Coordinate::new(1, 1).to_string());
}
