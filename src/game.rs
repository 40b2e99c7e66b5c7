use vstd::prelude::*;
use crate::board::{
    Board, Position, PositionLabel, ColLabel, Tile, board_view, pos_at, on_board, row_of, col_of,
    valid_label, board_wf, simulated, simulate_move, index_for_pos, square_position, init_board, set_tile,
};
use crate::moves::{piece_moves, opponent, get_possible_moves_for_piece};
use crate::pieces::{Piece, PieceType, Team, starting_piece, init_piece_data};

verus! {

/// Where a team's king stands, and its destinations as last computed.
#[derive(Debug, Clone)]
pub struct KingData {
    pub position: Position,
    pub available_moves: Vec<Position>,
}

/// The authoritative game state: whose turn it is, which piece is selected,
/// the board, and where each king stands.
#[derive(Debug, Clone)]
pub struct GameState {
    pub turn: Team,
    pub selected_piece: Option<u64>,
    pub board: Board,
    pub white_king_data: KingData,
    pub black_king_data: KingData,
}

/// King data before any king is placed: square `A0`, which is off the board,
/// and no destinations.
pub fn default_king_data() -> (r: KingData)
    ensures
        r.position.position_label == (PositionLabel { col_label: ColLabel::A, row_label: 0 }),
        r.available_moves@ == Seq::<Position>::empty(),
{
    KingData {
        position: Position { position_label: PositionLabel { col_label: ColLabel::A, row_label: 0 } },
        available_moves: Vec::new(),
    }
}

/// Records `pos` as the square of `team`'s king when `piece_type` is a king
/// (any team but white counts as black), and tells whether it was one.
pub fn init_king_positions(piece_type: PieceType, team: Team, game_state: &mut GameState, pos: Position) -> (r: bool)
    ensures
        r == (piece_type == PieceType::King),
        final(game_state).turn == old(game_state).turn,
        final(game_state).selected_piece == old(game_state).selected_piece,
        final(game_state).board == old(game_state).board,
        final(game_state).white_king_data.available_moves == old(game_state).white_king_data.available_moves,
        final(game_state).black_king_data.available_moves == old(game_state).black_king_data.available_moves,
        final(game_state).white_king_data.position == (if r && team == Team::White {
            pos
        } else {
            old(game_state).white_king_data.position
        }),
        final(game_state).black_king_data.position == (if r && team != Team::White {
            pos
        } else {
            old(game_state).black_king_data.position
        }),
{
    if piece_type == PieceType::King {
        if team == Team::White {
            game_state.white_king_data.position = pos;
        } else {
            game_state.black_king_data.position = pos;
        }
        return true;
    }
    false
}

/// When `piece` is a king, records `pos` as its team's king square and stores
/// the king's destinations as generated from its current square on the
/// current board. Does nothing for any other piece.
pub fn update_king_data(piece: &Piece, game_state: &mut GameState, pos: Position)
    requires
        valid_label(piece.position.position_label),
    ensures
        final(game_state).turn == old(game_state).turn,
        final(game_state).selected_piece == old(game_state).selected_piece,
        final(game_state).board == old(game_state).board,
        piece.piece_type != PieceType::King ==> *final(game_state) == *old(game_state),
        piece.piece_type == PieceType::King && piece.team == Team::White ==> {
            &&& final(game_state).white_king_data.position == pos
            &&& final(game_state).white_king_data.available_moves@ == piece_moves(
                *piece,
                board_view(old(game_state).board),
            )
            &&& final(game_state).black_king_data == old(game_state).black_king_data
        },
        piece.piece_type == PieceType::King && piece.team != Team::White ==> {
            &&& final(game_state).black_king_data.position == pos
            &&& final(game_state).black_king_data.available_moves@ == piece_moves(
                *piece,
                board_view(old(game_state).board),
            )
            &&& final(game_state).white_king_data == old(game_state).white_king_data
        },
{
    if init_king_positions(piece.piece_type, piece.team, game_state, pos) {
        let moves = get_possible_moves_for_piece(piece, &game_state.board);
        if piece.team == Team::White {
            game_state.white_king_data.available_moves = moves;
        } else {
            game_state.black_king_data.available_moves = moves;
        }
    }
}

/// Square of the king of the side to move, as recorded.
pub open spec fn turn_king(game_state: GameState) -> Position {
    if game_state.turn == Team::White {
        game_state.white_king_data.position
    } else {
        game_state.black_king_data.position
    }
}

/// Square of the king of the side to move.
pub fn king_position(game_state: &GameState) -> (r: Position)
    ensures
        r == turn_king(*game_state),
{
    if game_state.turn == Team::White {
        game_state.white_king_data.position
    } else {
        game_state.black_king_data.position
    }
}

/// Plays `piece` (handle `entity`) to `dest` on the authoritative board: the
/// king record follows a king, the destination takes the mover, the origin is
/// emptied, the selection is cleared, the turn passes and the piece's cached
/// destinations are emptied. Returns the handle of the piece that stood on
/// `dest`, which is captured.
pub fn apply_move(game_state: &mut GameState, piece: &mut Piece, entity: u64, dest: Position) -> (captured: Option<u64>)
    requires
        valid_label(old(piece).position.position_label),
        valid_label(dest.position_label),
    ensures
        captured == board_view(old(game_state).board)[row_of(dest.position_label)][col_of(
            dest.position_label,
        )].piece,
        board_view(final(game_state).board) == simulated(
            board_view(old(game_state).board),
            entity,
            old(piece).team,
            old(piece).position.position_label,
            dest.position_label,
        ),
        final(game_state).turn == opponent(old(game_state).turn),
        final(game_state).selected_piece is None,
        old(piece).piece_type != PieceType::King ==> {
            &&& final(game_state).white_king_data == old(game_state).white_king_data
            &&& final(game_state).black_king_data == old(game_state).black_king_data
        },
        old(piece).piece_type == PieceType::King && old(piece).team == Team::White ==> {
            &&& final(game_state).white_king_data.position == dest
            &&& final(game_state).white_king_data.available_moves@ == piece_moves(
                *old(piece),
                board_view(old(game_state).board),
            )
            &&& final(game_state).black_king_data == old(game_state).black_king_data
        },
        old(piece).piece_type == PieceType::King && old(piece).team != Team::White ==> {
            &&& final(game_state).black_king_data.position == dest
            &&& final(game_state).black_king_data.available_moves@ == piece_moves(
                *old(piece),
                board_view(old(game_state).board),
            )
            &&& final(game_state).white_king_data == old(game_state).white_king_data
        },
        final(piece).position == dest,
        final(piece).piece_type == old(piece).piece_type,
        final(piece).team == old(piece).team,
        final(piece).available_moves@ == Seq::<Position>::empty(),
        board_wf(board_view(old(game_state).board)) && old(piece).team != Team::Unoccupied
            && dest.position_label != old(piece).position.position_label ==> board_wf(board_view(final(game_state).board)),
{
    update_king_data(piece, game_state, dest);
    let (new_row, new_col) = index_for_pos(dest.position_label);
    let captured = game_state.board[new_row][new_col].piece;
    simulate_move(&mut game_state.board, entity, piece.team, piece.position.position_label, dest.position_label);
    game_state.selected_piece = None;
    game_state.turn = if game_state.turn == Team::White { Team::Black } else { Team::White };
    piece.position = dest;
    piece.available_moves = Vec::new();
    captured
}

/// Team on grid row `r` of the starting layout.
pub open spec fn starting_team(r: int) -> Team {
    if r < 2 {
        Team::White
    } else if r >= 6 {
        Team::Black
    } else {
        Team::Unoccupied
    }
}

/// Handle of the piece that starts on `(r, c)`: pieces are numbered row by
/// row from `A1`, white first.
pub open spec fn starting_id(r: int, c: int) -> int {
    if r < 2 {
        r * 8 + c
    } else {
        (r - 4) * 8 + c
    }
}

/// Tile `(r, c)` of the starting board.
pub open spec fn starting_tile(r: int, c: int) -> Tile {
    Tile {
        team: starting_team(r),
        position: pos_at(r, c),
        piece: if 2 <= r < 6 { None } else { Some(starting_id(r, c) as u64) },
    }
}

/// How many pieces stand before square `(r, c)` in row-major order.
spec fn pieces_before(r: int, c: int) -> int {
    if r < 2 {
        r * 8 + c
    } else if r < 6 {
        16
    } else {
        16 + (r - 6) * 8 + c
    }
}

/// Entry `id` of a roster is the piece that starts on `(r, c)`.
pub open spec fn starting_entry(roster: Seq<(u64, Piece)>, r: int, c: int) -> bool {
    let e = roster[starting_id(r, c)];
    &&& e.0 == starting_id(r, c)
    &&& e.1.position == pos_at(r, c)
    &&& (e.1.team, e.1.piece_type) == starting_piece(pos_at(r, c).position_label)
    &&& e.1.available_moves@ == Seq::<Position>::empty()
}

/// The standard starting position, white to move: the board, and the roster
/// of the 32 pieces with their handles.
pub fn new_game() -> (r: (GameState, Vec<(u64, Piece)>))
    ensures
        forall|row: int, col: int| on_board(row, col) ==> (#[trigger] board_view(r.0.board)[row][col]) == starting_tile(row, col),
        r.0.turn == Team::White,
        r.0.selected_piece is None,
        r.0.white_king_data.position == pos_at(0, 4),
        r.0.black_king_data.position == pos_at(7, 4),
        board_wf(board_view(r.0.board)),
        r.1@.len() == 32,
        forall|row: int, col: int|
            on_board(row, col) && (row < 2 || row >= 6) ==> #[trigger] starting_entry(r.1@, row, col),
{
    let mut game_state = GameState {
        turn: Team::White,
        selected_piece: None,
        board: init_board(),
        white_king_data: default_king_data(),
        black_king_data: default_king_data(),
    };
    let mut pieces: Vec<(u64, Piece)> = Vec::new();
    let mut row: usize = 0;
    while row < 8
        invariant
            row <= 8,
            game_state.turn == Team::White,
            game_state.selected_piece is None,
            pieces@.len() == pieces_before(row as int, 0),
            forall|rr: int, cc: int| 0 <= rr < row && 0 <= cc < 8 ==> (#[trigger] board_view(game_state.board)[rr][cc]) == starting_tile(rr, cc),
            forall|rr: int, cc: int|
                0 <= rr < row && 0 <= cc < 8 && (rr < 2 || rr >= 6) ==> #[trigger] starting_entry(pieces@, rr, cc),
            row > 0 ==> game_state.white_king_data.position == pos_at(0, 4),
            row > 7 ==> game_state.black_king_data.position == pos_at(7, 4),
        decreases 8 - row,
    {
        let mut col: usize = 0;
        while col < 8
            invariant
                row < 8,
                col <= 8,
                game_state.turn == Team::White,
                game_state.selected_piece is None,
                pieces@.len() == pieces_before(row as int, col as int),
                forall|rr: int, cc: int|
                    (0 <= rr < row && 0 <= cc < 8) || (rr == row && 0 <= cc < col) ==> (#[trigger] board_view(
                        game_state.board,
                    )[rr][cc]) == starting_tile(rr, cc),
                forall|rr: int, cc: int|
                    ((0 <= rr < row && 0 <= cc < 8) || (rr == row && 0 <= cc < col)) && (rr < 2 || rr >= 6)
                        ==> #[trigger] starting_entry(pieces@, rr, cc),
                row > 0 || col > 4 ==> game_state.white_king_data.position == pos_at(0, 4),
                row > 7 || (row == 7 && col > 4) ==> game_state.black_king_data.position == pos_at(7, 4),
            decreases 8 - col,
        {
            let current_pos = square_position(row, col);
            if row < 2 || row >= 6 {
                let (team, piece_type) = init_piece_data(current_pos);
                let id = pieces.len() as u64;
                let ghost before = pieces@;
                pieces.push((id, Piece { position: current_pos, piece_type, team, available_moves: Vec::new() }));
                assert forall|rr: int, cc: int|
                    ((0 <= rr < row && 0 <= cc < 8) || (rr == row && 0 <= cc < col + 1)) && (rr < 2 || rr >= 6)
                        implies #[trigger] starting_entry(pieces@, rr, cc) by {
                    if rr != row || cc != col {
                        assert(starting_entry(before, rr, cc));
                        assert(starting_id(rr, cc) < before.len());
                        assert(pieces@[starting_id(rr, cc)] == before[starting_id(rr, cc)]);
                    }
                }
                init_king_positions(piece_type, team, &mut game_state, current_pos);
                set_tile(&mut game_state.board, row, col, Tile { team, position: current_pos, piece: Some(id) });
            } else {
                set_tile(&mut game_state.board, row, col, Tile { team: Team::Unoccupied, position: current_pos, piece: None });
            }
            col += 1;
        }
        row += 1;
    }
    assert(board_wf(board_view(game_state.board)));
    (game_state, pieces)
}

} // verus!
