//! Rules engine of a two-player chess game: pseudo-legal move generation,
//! look-ahead on scratch boards, the self-check filter and the checkmate test.
pub mod board;
pub mod pieces;
pub mod moves;
pub mod move_lemmas;
pub mod game;
pub mod check;

pub use board::{
    ColLabel, PositionLabel, Position, Tile, TileShade, Board, index_for_pos, get_pos_label,
    square_position, init_board, set_tile, get_tile_color, simulate_move,
};
pub use pieces::{PieceType, Team, Piece, init_piece_data, get_piece_data, sprite_name};
pub use moves::get_possible_moves_for_piece;
pub use game::{
    KingData, GameState, default_king_data, init_king_positions, update_king_data, king_position,
    apply_move, new_game,
};
pub use check::{prevent_check, check_checkmate, restrict_to_legal_moves};
