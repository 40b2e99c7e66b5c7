use vstd::prelude::*;
use crate::board::{ColLabel, Position, PositionLabel};

verus! {

#[derive(Debug, Clone, Copy, PartialEq, Eq, Structural)]
pub enum PieceType {
    Pawn,
    Bishop,
    Knight,
    Rook,
    Queen,
    King,
}

/// Side of a piece, or `Unoccupied` for an empty tile.
#[derive(Debug, Clone, Copy, PartialEq, Eq, Structural)]
pub enum Team {
    White,
    Black,
    Unoccupied,
}

/// A piece in play and its cached list of destinations.
#[derive(Debug, Clone)]
pub struct Piece {
    pub position: Position,
    pub piece_type: PieceType,
    pub team: Team,
    pub available_moves: Vec<Position>,
}

/// Kind of the piece that starts on column `c` of a back rank.
pub open spec fn back_rank_kind(c: ColLabel) -> PieceType {
    match c {
        ColLabel::A | ColLabel::H => PieceType::Rook,
        ColLabel::B | ColLabel::G => PieceType::Knight,
        ColLabel::C | ColLabel::F => PieceType::Bishop,
        ColLabel::D => PieceType::Queen,
        ColLabel::E => PieceType::King,
    }
}

/// Team and kind of the piece that the starting layout places on the square
/// `l`, which must lie on rows 1, 2, 7 or 8 (any other row is read as row 1).
pub open spec fn starting_piece(l: PositionLabel) -> (Team, PieceType) {
    if l.row_label == 7 {
        (Team::Black, PieceType::Pawn)
    } else if l.row_label == 2 {
        (Team::White, PieceType::Pawn)
    } else if l.row_label == 8 {
        (Team::Black, back_rank_kind(l.col_label))
    } else {
        (Team::White, back_rank_kind(l.col_label))
    }
}

/// Name of the sprite for a piece: the team's letter, `w` or `b`, then the
/// kind's letter.
pub open spec fn sprite_code(team: Team, kind: PieceType) -> Seq<char> {
    let t = if team == Team::White { 'w' } else { 'b' };
    let k = match kind {
        PieceType::Pawn => 'P',
        PieceType::Knight => 'N',
        PieceType::Bishop => 'B',
        PieceType::Rook => 'R',
        PieceType::Queen => 'Q',
        PieceType::King => 'K',
    };
    seq![t, k]
}

fn back_rank_piece(col_label: ColLabel) -> (r: PieceType)
    ensures
        r == back_rank_kind(col_label),
{
    match col_label {
        ColLabel::A => PieceType::Rook,
        ColLabel::B => PieceType::Knight,
        ColLabel::C => PieceType::Bishop,
        ColLabel::D => PieceType::Queen,
        ColLabel::E => PieceType::King,
        ColLabel::F => PieceType::Bishop,
        ColLabel::G => PieceType::Knight,
        ColLabel::H => PieceType::Rook,
    }
}

/// Team and kind of the piece that starts on `current_position`.
pub fn init_piece_data(current_position: Position) -> (r: (Team, PieceType))
    ensures
        r == starting_piece(current_position.position_label),
{
    let PositionLabel { col_label, row_label } = current_position.position_label;
    if row_label == 7 {
        return (Team::Black, PieceType::Pawn);
    }
    if row_label == 2 {
        return (Team::White, PieceType::Pawn);
    }
    if row_label == 8 {
        return (Team::Black, back_rank_piece(col_label));
    }
    (Team::White, back_rank_piece(col_label))
}

/// Sprite name of a piece of `team` and `kind`.
pub fn sprite_name(team: Team, kind: PieceType) -> (r: &'static str)
    ensures
        r@ == sprite_code(team, kind),
{
    if team == Team::White {
        match kind {
            PieceType::Pawn => { proof { reveal_strlit("wP"); } "wP" },
            PieceType::Knight => { proof { reveal_strlit("wN"); } "wN" },
            PieceType::Bishop => { proof { reveal_strlit("wB"); } "wB" },
            PieceType::Rook => { proof { reveal_strlit("wR"); } "wR" },
            PieceType::Queen => { proof { reveal_strlit("wQ"); } "wQ" },
            PieceType::King => { proof { reveal_strlit("wK"); } "wK" },
        }
    } else {
        match kind {
            PieceType::Pawn => { proof { reveal_strlit("bP"); } "bP" },
            PieceType::Knight => { proof { reveal_strlit("bN"); } "bN" },
            PieceType::Bishop => { proof { reveal_strlit("bB"); } "bB" },
            PieceType::Rook => { proof { reveal_strlit("bR"); } "bR" },
            PieceType::Queen => { proof { reveal_strlit("bQ"); } "bQ" },
            PieceType::King => { proof { reveal_strlit("bK"); } "bK" },
        }
    }
}

/// Sprite name, team and kind of the piece that starts on `current_position`.
pub fn get_piece_data(current_position: Position) -> (r: (&'static str, Team, PieceType))
    ensures
        (r.1, r.2) == starting_piece(current_position.position_label),
        r.0@ == sprite_code(r.1, r.2),
{
    let (team, kind) = init_piece_data(current_position);
    (sprite_name(team, kind), team, kind)
}

} // verus!
