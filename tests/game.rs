use tic_tac_toe::game::{Coordinate, Grid, IllegalMove, Line, LineIterator, ParseCoordinateError, Player, Space};

#[test]
fn empty() {
    assert_eq!(
        Grid::new([
            [Space::Empty, Space::Empty, Space::Empty],
            [Space::Empty, Space::Empty, Space::Empty],
            [Space::Empty, Space::Empty, Space::Empty],
        ]),
        Grid::empty(),
    );
}

#[test]
fn get_space() {
    assert_eq!(
        Space::X,
        Grid::new([
            [Space::Empty, Space::X, Space::Empty],
            [Space::Empty, Space::Empty, Space::Empty],
            [Space::Empty, Space::Empty, Space::Empty],
        ])
        .get_space(&Coordinate::new(1, 0)),
    );
}

#[test]
fn is_legal() {
    let grid = Grid::new([
        [Space::Empty, Space::X, Space::Empty],
        [Space::Empty, Space::Empty, Space::Empty],
        [Space::Empty, Space::Empty, Space::Empty],
    ]);

    assert_eq!(true, grid.is_legal(&Coordinate::new(0, 1)));
    assert_eq!(false, grid.is_legal(&Coordinate::new(1, 0)));
}

#[test]
fn set_space() {
    let mut grid = Grid::empty();
    assert_eq!(Ok(()), grid.set_space(&Coordinate::new(0, 2), &Player::X));
    assert_eq!(
        Err(IllegalMove::new(Coordinate::new(0, 2))),
        grid.set_space(&Coordinate::new(0, 2), &Player::O),
    );
    assert_eq!(Ok(()), grid.set_space(&Coordinate::new(2, 0), &Player::O));
}

#[test]
fn lines() {
    assert_eq!(
        Some(Line::new([
            (Coordinate::new(0, 0), Space::O),
            (Coordinate::new(1, 0), Space::X),
            (Coordinate::new(2, 0), Space::O),
        ])),
        Grid::new([
            [Space::O, Space::X, Space::O],
            [Space::Empty, Space::Empty, Space::Empty],
            [Space::Empty, Space::Empty, Space::Empty],
        ])
        .lines()
        .next()
    );
}

fn get_line(spaces: [Space; 3]) -> Line {
    Line::new([
        (Coordinate::new(0, 0), spaces[0]),
        (Coordinate::new(1, 0), spaces[1]),
        (Coordinate::new(2, 0), spaces[2]),
    ])
}

#[test]
fn game_get_winner() {
    let grid = Grid::new([
        [Space::O, Space::X, Space::X],
        [Space::Empty, Space::O, Space::Empty],
        [Space::Empty, Space::Empty, Space::X],
    ]);
    assert_eq!(None, grid.get_winner());
    assert!(grid.is_in_progress());

    let grid = Grid::new([
        [Space::O, Space::X, Space::X],
        [Space::Empty, Space::O, Space::Empty],
        [Space::Empty, Space::Empty, Space::O],
    ]);
    assert_eq!(Some(Player::O), grid.get_winner());
    assert!(!grid.is_in_progress());
}

#[test]
fn get_winner() {
    assert_eq!(None, get_line([Space::O, Space::O, Space::X]).get_winner());
    assert_eq!(None, get_line([Space::O, Space::X, Space::O]).get_winner());
    assert_eq!(None, get_line([Space::X, Space::O, Space::O]).get_winner());
    assert_eq!(
        None,
        get_line([Space::Empty, Space::Empty, Space::Empty]).get_winner(),
    );
    assert_eq!(
        Some(Player::X),
        get_line([Space::X, Space::X, Space::X]).get_winner(),
    );
    assert_eq!(
        Some(Player::O),
        get_line([Space::O, Space::O, Space::O]).get_winner(),
    );
}

#[test]
fn has_legal_moves() {
    let grid = Grid::empty();
    assert!(grid.has_legal_moves());
    assert!(grid.is_in_progress());

    let grid = Grid::new([
        [Space::X, Space::X, Space::O],
        [Space::O, Space::Empty, Space::X],
        [Space::X, Space::O, Space::O],
    ]);
    assert!(grid.has_legal_moves());
    assert!(grid.is_in_progress());

    let grid = Grid::new([
        [Space::X, Space::X, Space::O],
        [Space::O, Space::X, Space::X],
        [Space::X, Space::O, Space::O],
    ]);
    assert!(!grid.has_legal_moves());
    assert!(!grid.is_in_progress());
}

#[test]
fn game_display() {
    let grid = Grid::new([
        [Space::O, Space::X, Space::X],
        [Space::Empty, Space::X, Space::Empty],
        [Space::Empty, Space::Empty, Space::Empty],
    ]);

    assert_eq!(
        "     A   B   C
   +---+---+---+
 1 | O | X | X |
   +---+---+---+
 2 |   | X |   |
   +---+---+---+
 3 |   |   |   |
   +---+---+---+
",
        grid.to_string(),
    );
}

#[test]
fn display() {
    assert_eq!("A3", Coordinate::new(0, 2).to_string());
    assert_eq!("B1", Coordinate::new(1, 0).to_string());
    assert_eq!("C2", Coordinate::new(2, 1).to_string());
}

#[test]
fn illegal_move_display() {
    assert_eq!(
        "A2 is not a legal move.",
        &IllegalMove::new(Coordinate::new(0, 1)).to_string(),
    );
}

#[test]
fn space_display() {
    assert_eq!("X", &Space::X.to_string());
    assert_eq!("O", &Space::O.to_string());
    assert_eq!(" ", &Space::Empty.to_string());
}

#[test]
fn game_test_iterator() {
    // This grid should be identifiably different for each line
    let mut iterator = LineIterator::new([
        [Space::O, Space::X, Space::X],
        [Space::Empty, Space::X, Space::Empty],
        [Space::Empty, Space::Empty, Space::Empty],
    ]);

    assert_eq!(
        Some(Line::new([
            (Coordinate::new(0, 0), Space::O),
            (Coordinate::new(1, 0), Space::X),
            (Coordinate::new(2, 0), Space::X),
        ])),
        iterator.next(),
    );
    assert_eq!(
        Some(Line::new([
            (Coordinate::new(0, 1), Space::Empty),
            (Coordinate::new(1, 1), Space::X),
            (Coordinate::new(2, 1), Space::Empty),
        ])),
        iterator.next(),
    );
    assert_eq!(
        Some(Line::new([
            (Coordinate::new(0, 2), Space::Empty),
            (Coordinate::new(1, 2), Space::Empty),
            (Coordinate::new(2, 2), Space::Empty),
        ])),
        iterator.next(),
    );
    assert_eq!(
        Some(Line::new([
            (Coordinate::new(0, 0), Space::O),
            (Coordinate::new(0, 1), Space::Empty),
            (Coordinate::new(0, 2), Space::Empty),
        ])),
        iterator.next(),
    );
    assert_eq!(
        Some(Line::new([
            (Coordinate::new(1, 0), Space::X),
            (Coordinate::new(1, 1), Space::X),
            (Coordinate::new(1, 2), Space::Empty),
        ])),
        iterator.next(),
    );
    assert_eq!(
        Some(Line::new([
            (Coordinate::new(2, 0), Space::X),
            (Coordinate::new(2, 1), Space::Empty),
            (Coordinate::new(2, 2), Space::Empty),
        ])),
        iterator.next(),
    );
    assert_eq!(
        Some(Line::new([
            (Coordinate::new(0, 0), Space::O),
            (Coordinate::new(1, 1), Space::X),
            (Coordinate::new(2, 2), Space::Empty),
        ])),
        iterator.next(),
    );
    assert_eq!(
        Some(Line::new([
            (Coordinate::new(0, 2), Space::Empty),
            (Coordinate::new(1, 1), Space::X),
            (Coordinate::new(2, 0), Space::X),
        ])),
        iterator.next(),
    );
    assert_eq!(None, iterator.next());
    assert_eq!(None, iterator.next());
}

#[test]
fn game_test_exact_size_iterator() {
    assert_eq!(8, Grid::empty().lines().len());
}

#[test]
fn game_from_str_valid() {
    assert_eq!(Ok(Coordinate::new(0, 0)), "A1".parse::<Coordinate>(), "{:?}", "A1");
    assert_eq!(Ok(Coordinate::new(0, 1)), "a2".parse::<Coordinate>(), "{:?}", "a2");
    assert_eq!(Ok(Coordinate::new(1, 1)), "B2".parse::<Coordinate>(), "{:?}", "B2");
    assert_eq!(Ok(Coordinate::new(1, 2)), "b3".parse::<Coordinate>(), "{:?}", "b3");
    assert_eq!(Ok(Coordinate::new(2, 2)), "C3".parse::<Coordinate>(), "{:?}", "C3");
    assert_eq!(Ok(Coordinate::new(2, 0)), "c1".parse::<Coordinate>(), "{:?}", "c1");
}

#[test]
fn game_from_str_invalid() {
    assert_eq!(
        Err(ParseCoordinateError::new("".to_string())),
        "".parse::<Coordinate>(),
        "{:?}",
        "",
    );
    assert_eq!(
        Err(ParseCoordinateError::new("D1".to_string())),
        "D1".parse::<Coordinate>(),
        "{:?}",
        "D1",
    );
    assert_eq!(
        Err(ParseCoordinateError::new("A4".to_string())),
        "A4".parse::<Coordinate>(),
        "{:?}",
        "A4",
    );
    assert_eq!(
        Err(ParseCoordinateError::new("A12".to_string())),
        "A12".parse::<Coordinate>(),
        "{:?}",
        "A12",
    );
}

#[test]
fn game_into_string() {
    assert_eq!("A2", &String::from(Coordinate::new(0, 1)));
    assert_eq!("B3", &String::from(Coordinate::new(1, 2)));
    assert_eq!("C1", &String::from(Coordinate::new(2, 0)));
}

#[test]
fn game_format() {
    assert_eq!(
        &ParseCoordinateError::new("foo".to_string()).to_string(),
        "Invalid coordinate: foo (expected format: A1)"
    );
}

#[test]
fn game_new() {
    assert_eq!(Space::X, Space::new(Some(&Player::X)));
    assert_eq!(Space::O, Space::new(Some(&Player::O)));
    assert_eq!(Space::Empty, Space::new(None));
}

#[test]
fn game_get_player() {
    assert_eq!(Some(Player::X), Space::X.get_player());
    assert_eq!(Some(Player::O), Space::O.get_player());
    assert_eq!(None, Space::Empty.get_player());
}
