use chess::{
    apply_move, check_checkmate, default_king_data, get_piece_data, get_possible_moves_for_piece, index_for_pos,
    init_board, init_king_positions, init_piece_data, king_position, new_game, prevent_check, restrict_to_legal_moves,
    set_tile, sprite_name,
    update_king_data, Board, ColLabel, GameState, Piece, PieceType, Position, PositionLabel, Team, Tile,
};

fn sq(col_label: ColLabel, row_label: u8) -> Position {
    Position { position_label: PositionLabel { col_label, row_label } }
}

fn piece(piece_type: PieceType, team: Team, position: Position) -> Piece {
    Piece { position, piece_type, team, available_moves: Vec::new() }
}

fn place(board: &mut Board, id: u64, p: &Piece) {
    let (row, col) = index_for_pos(p.position.position_label);
    set_tile(board, row, col, Tile { team: p.team, position: p.position, piece: Some(id) });
}

fn names(moves: &[Position]) -> Vec<String> {
    moves
        .iter()
        .map(|p| format!("{:?}{}", p.position_label.col_label, p.position_label.row_label))
        .collect()
}

fn state_with(pieces: &[(u64, Piece)], turn: Team) -> GameState {
    let mut game_state = GameState {
        turn,
        selected_piece: None,
        board: init_board(),
        white_king_data: default_king_data(),
        black_king_data: default_king_data(),
    };
    for (id, p) in pieces {
        place(&mut game_state.board, *id, p);
        init_king_positions(p.piece_type, p.team, &mut game_state, p.position);
    }
    game_state
}

fn select(p: &Piece, game_state: &GameState) -> Piece {
    let mut selected = p.clone();
    selected.available_moves = get_possible_moves_for_piece(p, &game_state.board);
    selected
}

fn play(game_state: &mut GameState, roster: &mut [(u64, Piece)], from: Position, to: Position) -> Option<u64> {
    let entry = roster.iter_mut().find(|(_, p)| p.position == from).expect("no piece on the square");
    let id = entry.0;
    apply_move(game_state, &mut entry.1, id, to)
}

#[test]
fn capture_of_the_checking_piece_survives() {
    let king = piece(PieceType::King, Team::White, sq(ColLabel::E, 1));
    let rook = piece(PieceType::Rook, Team::White, sq(ColLabel::A, 2));
    let enemy = piece(PieceType::Rook, Team::Black, sq(ColLabel::E, 2));
    let game_state = state_with(&[(0, king.clone()), (1, rook.clone()), (2, enemy.clone())], Team::White);
    let mut selected = select(&rook, &game_state);
    assert_eq!(
        names(&selected.available_moves),
        vec!["A3", "A4", "A5", "A6", "A7", "A8", "A1", "B2", "C2", "D2", "E2"]
    );
    prevent_check(&mut selected, 1, &enemy, king_position(&game_state), &game_state);
    assert_eq!(names(&selected.available_moves), vec!["E2"]);
}

#[test]
fn pinned_piece_keeps_only_moves_along_the_pin() {
    let king = piece(PieceType::King, Team::White, sq(ColLabel::E, 1));
    let rook = piece(PieceType::Rook, Team::White, sq(ColLabel::E, 2));
    let enemy = piece(PieceType::Rook, Team::Black, sq(ColLabel::E, 8));
    let game_state = state_with(&[(0, king.clone()), (1, rook.clone()), (2, enemy.clone())], Team::White);
    let mut selected = select(&rook, &game_state);
    prevent_check(&mut selected, 1, &enemy, king_position(&game_state), &game_state);
    assert_eq!(names(&selected.available_moves), vec!["E3", "E4", "E5", "E6", "E7", "E8"]);
}

#[test]
fn king_move_checks_its_destination() {
    let king = piece(PieceType::King, Team::White, sq(ColLabel::E, 1));
    let enemy = piece(PieceType::Rook, Team::Black, sq(ColLabel::D, 8));
    let game_state = state_with(&[(0, king.clone()), (1, enemy.clone())], Team::White);
    let mut selected = select(&king, &game_state);
    assert_eq!(names(&selected.available_moves), vec!["E2", "D2", "F2", "D1", "F1"]);
    prevent_check(&mut selected, 0, &enemy, king_position(&game_state), &game_state);
    assert_eq!(names(&selected.available_moves), vec!["E2", "F2", "F1"]);
}

#[test]
fn friendly_piece_does_not_restrict() {
    let king = piece(PieceType::King, Team::White, sq(ColLabel::E, 1));
    let rook = piece(PieceType::Rook, Team::White, sq(ColLabel::E, 2));
    let game_state = state_with(&[(0, king.clone()), (1, rook.clone())], Team::White);
    let mut selected = select(&rook, &game_state);
    let before = selected.available_moves.clone();
    prevent_check(&mut selected, 1, &king, king_position(&game_state), &game_state);
    assert_eq!(selected.available_moves, before);
}

#[test]
fn starting_position_is_not_checkmate() {
    let (game_state, roster) = new_game();
    assert!(!check_checkmate(Team::White, king_position(&game_state), game_state.board, &roster));
    assert!(!check_checkmate(Team::Black, game_state.black_king_data.position, game_state.board, &roster));
}

#[test]
fn fools_mate_is_checkmate() {
    let (mut game_state, mut roster) = new_game();
    assert_eq!(play(&mut game_state, &mut roster, sq(ColLabel::F, 2), sq(ColLabel::F, 3)), None);
    assert_eq!(play(&mut game_state, &mut roster, sq(ColLabel::E, 7), sq(ColLabel::E, 5)), None);
    assert_eq!(play(&mut game_state, &mut roster, sq(ColLabel::G, 2), sq(ColLabel::G, 4)), None);
    assert!(!check_checkmate(game_state.turn, king_position(&game_state), game_state.board, &roster));
    assert_eq!(play(&mut game_state, &mut roster, sq(ColLabel::D, 8), sq(ColLabel::H, 4)), None);
    assert_eq!(game_state.turn, Team::White);
    assert!(check_checkmate(game_state.turn, king_position(&game_state), game_state.board, &roster));
}

#[test]
fn lone_kings_are_not_checkmate() {
    let white = piece(PieceType::King, Team::White, sq(ColLabel::E, 1));
    let black = piece(PieceType::King, Team::Black, sq(ColLabel::E, 8));
    let roster = vec![(0, white.clone()), (1, black.clone())];
    let game_state = state_with(&roster, Team::White);
    assert!(!check_checkmate(Team::White, white.position, game_state.board, &roster));
}

#[test]
fn stalemate_counts_as_checkmate() {
    let black = piece(PieceType::King, Team::Black, sq(ColLabel::H, 8));
    let queen = piece(PieceType::Queen, Team::White, sq(ColLabel::G, 6));
    let white = piece(PieceType::King, Team::White, sq(ColLabel::A, 1));
    let roster = vec![(0, black.clone()), (1, queen), (2, white)];
    let game_state = state_with(&roster, Team::Black);
    assert!(check_checkmate(Team::Black, black.position, game_state.board, &roster));
}

#[test]
fn capturing_the_checker_escapes_mate() {
    let king = piece(PieceType::King, Team::White, sq(ColLabel::H, 1));
    let pawn_g = piece(PieceType::Pawn, Team::White, sq(ColLabel::G, 2));
    let pawn_h = piece(PieceType::Pawn, Team::White, sq(ColLabel::H, 2));
    let rook = piece(PieceType::Rook, Team::White, sq(ColLabel::A, 8));
    let enemy = piece(PieceType::Rook, Team::Black, sq(ColLabel::A, 1));
    let black_king = piece(PieceType::King, Team::Black, sq(ColLabel::E, 7));
    let roster = vec![(0, king.clone()), (1, pawn_g), (2, pawn_h), (3, rook), (4, enemy), (5, black_king)];
    let game_state = state_with(&roster, Team::White);
    assert!(!check_checkmate(Team::White, king.position, game_state.board, &roster));
}

#[test]
fn back_rank_mate() {
    let king = piece(PieceType::King, Team::White, sq(ColLabel::H, 1));
    let pawn_g = piece(PieceType::Pawn, Team::White, sq(ColLabel::G, 2));
    let pawn_h = piece(PieceType::Pawn, Team::White, sq(ColLabel::H, 2));
    let enemy = piece(PieceType::Rook, Team::Black, sq(ColLabel::A, 1));
    let black_king = piece(PieceType::King, Team::Black, sq(ColLabel::E, 7));
    let roster = vec![(0, king.clone()), (1, pawn_g), (2, pawn_h), (4, enemy), (5, black_king)];
    let game_state = state_with(&roster, Team::White);
    assert!(check_checkmate(Team::White, king.position, game_state.board, &roster));
}

#[test]
fn apply_move_captures_and_passes_the_turn() {
    let king = piece(PieceType::King, Team::White, sq(ColLabel::E, 1));
    let rook = piece(PieceType::Rook, Team::White, sq(ColLabel::A, 2));
    let enemy = piece(PieceType::Rook, Team::Black, sq(ColLabel::E, 2));
    let mut roster = vec![(0, king), (1, rook), (2, enemy)];
    let mut game_state = state_with(&roster, Team::White);
    let captured = play(&mut game_state, &mut roster, sq(ColLabel::A, 2), sq(ColLabel::E, 2));
    assert_eq!(captured, Some(2));
    assert_eq!(game_state.turn, Team::Black);
    assert_eq!(game_state.board[1][4].team, Team::White);
    assert_eq!(game_state.board[1][4].piece, Some(1));
    assert_eq!(game_state.board[1][0].team, Team::Unoccupied);
    assert_eq!(game_state.board[1][0].piece, None);
    assert_eq!(roster[1].1.position, sq(ColLabel::E, 2));
    assert!(roster[1].1.available_moves.is_empty());
}

#[test]
fn king_move_updates_its_record() {
    let king = piece(PieceType::King, Team::Black, sq(ColLabel::E, 8));
    let mut roster = vec![(0, king)];
    let mut game_state = state_with(&roster, Team::Black);
    assert_eq!(game_state.black_king_data.position, sq(ColLabel::E, 8));
    play(&mut game_state, &mut roster, sq(ColLabel::E, 8), sq(ColLabel::D, 7));
    assert_eq!(game_state.black_king_data.position, sq(ColLabel::D, 7));
    assert_eq!(names(&game_state.black_king_data.available_moves), vec!["E7", "D7", "F7", "D8", "F8"]);
}

#[test]
fn update_king_data_ignores_other_pieces() {
    let knight = piece(PieceType::Knight, Team::White, sq(ColLabel::B, 1));
    let mut game_state = state_with(&[(0, knight.clone())], Team::White);
    update_king_data(&knight, &mut game_state, sq(ColLabel::C, 3));
    assert_eq!(game_state.white_king_data.position, default_king_data().position);
    assert!(game_state.white_king_data.available_moves.is_empty());
}

#[test]
fn init_king_positions_only_for_kings() {
    let mut game_state = state_with(&[], Team::White);
    assert!(!init_king_positions(PieceType::Queen, Team::White, &mut game_state, sq(ColLabel::D, 1)));
    assert_eq!(game_state.white_king_data.position.position_label.row_label, 0);
    assert!(init_king_positions(PieceType::King, Team::Black, &mut game_state, sq(ColLabel::E, 8)));
    assert_eq!(game_state.black_king_data.position, sq(ColLabel::E, 8));
    assert_eq!(game_state.white_king_data.position.position_label.row_label, 0);
}

#[test]
fn default_king_data_is_off_board() {
    let data = default_king_data();
    assert_eq!(data.position, sq(ColLabel::A, 0));
    assert!(data.available_moves.is_empty());
}

#[test]
fn starting_layout() {
    assert_eq!(get_piece_data(sq(ColLabel::E, 1)), ("wK", Team::White, PieceType::King));
    assert_eq!(get_piece_data(sq(ColLabel::D, 8)), ("bQ", Team::Black, PieceType::Queen));
    assert_eq!(get_piece_data(sq(ColLabel::B, 7)), ("bP", Team::Black, PieceType::Pawn));
    assert_eq!(get_piece_data(sq(ColLabel::G, 2)), ("wP", Team::White, PieceType::Pawn));
    assert_eq!(get_piece_data(sq(ColLabel::G, 8)), ("bN", Team::Black, PieceType::Knight));
    assert_eq!(init_piece_data(sq(ColLabel::C, 1)), (Team::White, PieceType::Bishop));
    assert_eq!(init_piece_data(sq(ColLabel::H, 1)), (Team::White, PieceType::Rook));
}

#[test]
fn new_game_sets_up_the_board() {
    let (game_state, roster) = new_game();
    assert_eq!(roster.len(), 32);
    assert_eq!(game_state.turn, Team::White);
    assert_eq!(game_state.selected_piece, None);
    assert_eq!(game_state.white_king_data.position, sq(ColLabel::E, 1));
    assert_eq!(game_state.black_king_data.position, sq(ColLabel::E, 8));
    for (i, (id, p)) in roster.iter().enumerate() {
        assert_eq!(*id, i as u64);
        let (row, col) = index_for_pos(p.position.position_label);
        assert_eq!(game_state.board[row][col].piece, Some(*id));
        assert_eq!(game_state.board[row][col].team, p.team);
    }
    assert_eq!(roster[4].1.piece_type, PieceType::King);
    assert_eq!(roster[27].1.piece_type, PieceType::Queen);
    assert_eq!(roster[27].1.team, Team::Black);
    for row in 2..6 {
        for col in 0..8 {
            assert_eq!(game_state.board[row][col].team, Team::Unoccupied);
        }
    }
}

#[test]
fn restrict_against_every_enemy() {
    let king = piece(PieceType::King, Team::White, sq(ColLabel::E, 1));
    let rook = piece(PieceType::Rook, Team::White, sq(ColLabel::E, 2));
    let pinner = piece(PieceType::Rook, Team::Black, sq(ColLabel::E, 8));
    let bishop = piece(PieceType::Bishop, Team::Black, sq(ColLabel::H, 4));
    let black_king = piece(PieceType::King, Team::Black, sq(ColLabel::A, 8));
    let roster = vec![
        (0, king.clone()),
        (1, rook.clone()),
        (2, pinner.clone()),
        (3, bishop.clone()),
        (4, black_king.clone()),
    ];
    let game_state = state_with(&roster, Team::White);
    let mut selected = select(&rook, &game_state);
    restrict_to_legal_moves(&mut selected, 1, &roster, &game_state);
    assert!(selected.available_moves.is_empty());

    let mut king_selected = select(&king, &game_state);
    assert_eq!(names(&king_selected.available_moves), vec!["D2", "F2", "D1", "F1"]);
    restrict_to_legal_moves(&mut king_selected, 0, &roster, &game_state);
    assert_eq!(names(&king_selected.available_moves), vec!["D2", "D1", "F1"]);
}

#[test]
fn sprite_names() {
    assert_eq!(sprite_name(Team::White, PieceType::Knight), "wN");
    assert_eq!(sprite_name(Team::Black, PieceType::King), "bK");
}
