use chess::{
    get_possible_moves_for_piece, index_for_pos, init_board, set_tile, Board, ColLabel, Piece, PieceType,
    Position, PositionLabel, Team, Tile,
};

fn sq(col_label: ColLabel, row_label: u8) -> Position {
    Position { position_label: PositionLabel { col_label, row_label } }
}

fn piece(piece_type: PieceType, team: Team, position: Position) -> Piece {
    Piece { position, piece_type, team, available_moves: Vec::new() }
}

fn place(board: &mut Board, id: u64, p: &Piece) {
    let (row, col) = index_for_pos(p.position.position_label);
    set_tile(board, row, col, Tile { team: p.team, position: p.position, piece: Some(id) });
}

fn names(moves: &[Position]) -> Vec<String> {
    moves
        .iter()
        .map(|p| format!("{:?}{}", p.position_label.col_label, p.position_label.row_label))
        .collect()
}

fn sorted(mut v: Vec<String>) -> Vec<String> {
    v.sort();
    v
}

fn alone(p: &Piece) -> Board {
    let mut board = init_board();
    place(&mut board, 0, p);
    board
}

fn assert_distinct_on_board(moves: &[Position]) {
    for (i, a) in moves.iter().enumerate() {
        assert!((1..=8).contains(&a.position_label.row_label));
        for b in moves.iter().skip(i + 1) {
            assert_ne!(a, b);
        }
    }
}

#[test]
fn rook_on_d4_empty_board() {
    let rook = piece(PieceType::Rook, Team::White, sq(ColLabel::D, 4));
    let moves = get_possible_moves_for_piece(&rook, &alone(&rook));
    assert_eq!(
        names(&moves),
        vec!["D5", "D6", "D7", "D8", "D3", "D2", "D1", "C4", "B4", "A4", "E4", "F4", "G4", "H4"]
    );
    assert_eq!(moves.len(), 14);
}

#[test]
fn rook_on_a1_corner() {
    let rook = piece(PieceType::Rook, Team::Black, sq(ColLabel::A, 1));
    let moves = get_possible_moves_for_piece(&rook, &alone(&rook));
    assert_eq!(moves.len(), 14);
    assert_distinct_on_board(&moves);
    assert_eq!(
        sorted(names(&moves)),
        sorted(
            ["A2", "A3", "A4", "A5", "A6", "A7", "A8", "B1", "C1", "D1", "E1", "F1", "G1", "H1"]
                .iter()
                .map(|s| s.to_string())
                .collect()
        )
    );
}

#[test]
fn knight_on_h8_corner() {
    let knight = piece(PieceType::Knight, Team::Black, sq(ColLabel::H, 8));
    let moves = get_possible_moves_for_piece(&knight, &alone(&knight));
    assert_eq!(names(&moves), vec!["G6", "F7"]);
    assert_distinct_on_board(&moves);
}

#[test]
fn knight_in_the_centre() {
    let knight = piece(PieceType::Knight, Team::White, sq(ColLabel::D, 4));
    let moves = get_possible_moves_for_piece(&knight, &alone(&knight));
    assert_eq!(names(&moves), vec!["C6", "E6", "C2", "E2", "B5", "B3", "F5", "F3"]);
}

#[test]
fn king_on_e1_empty_board() {
    let king = piece(PieceType::King, Team::White, sq(ColLabel::E, 1));
    let moves = get_possible_moves_for_piece(&king, &alone(&king));
    assert_eq!(names(&moves), vec!["E2", "D2", "F2", "D1", "F1"]);
}

#[test]
fn bishop_on_c1_empty_board() {
    let bishop = piece(PieceType::Bishop, Team::White, sq(ColLabel::C, 1));
    let moves = get_possible_moves_for_piece(&bishop, &alone(&bishop));
    assert_eq!(names(&moves), vec!["B2", "A3", "D2", "E3", "F4", "G5", "H6"]);
}

#[test]
fn queen_on_d1_empty_board() {
    let queen = piece(PieceType::Queen, Team::White, sq(ColLabel::D, 1));
    let moves = get_possible_moves_for_piece(&queen, &alone(&queen));
    assert_eq!(moves.len(), 21);
    assert_distinct_on_board(&moves);
}

#[test]
fn ray_stops_at_first_occupied_square() {
    let rook = piece(PieceType::Rook, Team::White, sq(ColLabel::A, 1));
    let friend = piece(PieceType::Pawn, Team::White, sq(ColLabel::A, 3));
    let enemy = piece(PieceType::Knight, Team::Black, sq(ColLabel::D, 1));
    let mut board = alone(&rook);
    place(&mut board, 1, &friend);
    place(&mut board, 2, &enemy);
    let moves = get_possible_moves_for_piece(&rook, &board);
    assert_eq!(names(&moves), vec!["A2", "B1", "C1", "D1"]);
}

#[test]
fn knight_skips_friendly_square() {
    let knight = piece(PieceType::Knight, Team::White, sq(ColLabel::B, 1));
    let friend = piece(PieceType::Pawn, Team::White, sq(ColLabel::D, 2));
    let enemy = piece(PieceType::Pawn, Team::Black, sq(ColLabel::A, 3));
    let mut board = alone(&knight);
    place(&mut board, 1, &friend);
    place(&mut board, 2, &enemy);
    let moves = get_possible_moves_for_piece(&knight, &board);
    assert_eq!(names(&moves), vec!["A3", "C3"]);
}

#[test]
fn king_skips_friendly_squares() {
    let king = piece(PieceType::King, Team::White, sq(ColLabel::E, 1));
    let mut board = alone(&king);
    place(&mut board, 1, &piece(PieceType::Queen, Team::White, sq(ColLabel::D, 1)));
    place(&mut board, 2, &piece(PieceType::Pawn, Team::White, sq(ColLabel::F, 2)));
    place(&mut board, 3, &piece(PieceType::Pawn, Team::Black, sq(ColLabel::E, 2)));
    let moves = get_possible_moves_for_piece(&king, &board);
    assert_eq!(names(&moves), vec!["E2", "D2", "F1"]);
}

#[test]
fn pawn_first_moves() {
    let white = piece(PieceType::Pawn, Team::White, sq(ColLabel::E, 2));
    assert_eq!(names(&get_possible_moves_for_piece(&white, &alone(&white))), vec!["E4", "E3"]);
    let black = piece(PieceType::Pawn, Team::Black, sq(ColLabel::E, 7));
    assert_eq!(names(&get_possible_moves_for_piece(&black, &alone(&black))), vec!["E5", "E6"]);
}

#[test]
fn pawn_double_step_needs_clear_path() {
    let white = piece(PieceType::Pawn, Team::White, sq(ColLabel::E, 2));
    let mut board = alone(&white);
    place(&mut board, 1, &piece(PieceType::Knight, Team::Black, sq(ColLabel::E, 3)));
    assert!(get_possible_moves_for_piece(&white, &board).is_empty());
}

#[test]
fn pawn_captures_diagonally() {
    let white = piece(PieceType::Pawn, Team::White, sq(ColLabel::E, 4));
    let mut board = alone(&white);
    place(&mut board, 1, &piece(PieceType::Pawn, Team::Black, sq(ColLabel::D, 5)));
    place(&mut board, 2, &piece(PieceType::Pawn, Team::Black, sq(ColLabel::F, 5)));
    place(&mut board, 3, &piece(PieceType::Pawn, Team::Black, sq(ColLabel::E, 5)));
    assert_eq!(names(&get_possible_moves_for_piece(&white, &board)), vec!["F5", "D5"]);
}

#[test]
fn pawn_on_last_row_has_no_moves() {
    let white = piece(PieceType::Pawn, Team::White, sq(ColLabel::A, 8));
    assert!(get_possible_moves_for_piece(&white, &alone(&white)).is_empty());
    let black = piece(PieceType::Pawn, Team::Black, sq(ColLabel::H, 1));
    assert!(get_possible_moves_for_piece(&black, &alone(&black)).is_empty());
}

#[test]
fn generation_is_repeatable() {
    let queen = piece(PieceType::Queen, Team::Black, sq(ColLabel::C, 6));
    let mut board = alone(&queen);
    place(&mut board, 1, &piece(PieceType::Pawn, Team::White, sq(ColLabel::C, 3)));
    let first = get_possible_moves_for_piece(&queen, &board);
    let second = get_possible_moves_for_piece(&queen, &board);
    assert_eq!(first, second);
}
