use vstd::prelude::*;
use crate::pieces::Team;

verus! {

/// Column of a square, `A` (index 0) to `H` (index 7).
#[derive(Debug, Clone, Copy, PartialEq, Eq, Structural)]
pub enum ColLabel {
    A,
    B,
    C,
    D,
    E,
    F,
    G,
    H,
}

/// A square's name: its column and its row, 1 to 8.
#[derive(Debug, Clone, Copy, PartialEq, Eq, Structural)]
pub struct PositionLabel {
    pub col_label: ColLabel,
    pub row_label: u8,
}

/// A square of the board. Its screen coordinates follow from the label and are
/// computed by the rendering layer.
#[derive(Debug, Clone, Copy, PartialEq, Eq, Structural)]
pub struct Position {
    pub position_label: PositionLabel,
}

/// One cell of the grid: who stands on it, where it is, and which piece.
#[derive(Debug, Clone, Copy, PartialEq, Eq, Structural)]
pub struct Tile {
    pub team: Team,
    pub position: Position,
    pub piece: Option<u64>,
}

/// The 8x8 grid, indexed by `[row - 1][column]`.
pub type Board = [[Tile; 8]; 8];

pub open spec fn col_index(c: ColLabel) -> int {
    match c {
        ColLabel::A => 0,
        ColLabel::B => 1,
        ColLabel::C => 2,
        ColLabel::D => 3,
        ColLabel::E => 4,
        ColLabel::F => 5,
        ColLabel::G => 6,
        ColLabel::H => 7,
    }
}

pub open spec fn col_label_of(c: int) -> ColLabel {
    if c <= 0 {
        ColLabel::A
    } else if c == 1 {
        ColLabel::B
    } else if c == 2 {
        ColLabel::C
    } else if c == 3 {
        ColLabel::D
    } else if c == 4 {
        ColLabel::E
    } else if c == 5 {
        ColLabel::F
    } else if c == 6 {
        ColLabel::G
    } else {
        ColLabel::H
    }
}

pub open spec fn on_board(r: int, c: int) -> bool {
    0 <= r < 8 && 0 <= c < 8
}

/// A label names a square of the board when its row is 1 to 8.
pub open spec fn valid_label(l: PositionLabel) -> bool {
    1 <= l.row_label <= 8
}

/// Grid row index of a label.
pub open spec fn row_of(l: PositionLabel) -> int {
    l.row_label - 1
}

/// Grid column index of a label.
pub open spec fn col_of(l: PositionLabel) -> int {
    col_index(l.col_label)
}

/// The square at grid indices `(r, c)`.
pub open spec fn pos_at(r: int, c: int) -> Position {
    Position { position_label: PositionLabel { col_label: col_label_of(c), row_label: (r + 1) as u8 } }
}

/// The board as a sequence of rows.
pub open spec fn board_view(b: Board) -> Seq<Seq<Tile>> {
    Seq::new(8, |r: int| b@[r]@)
}

pub open spec fn team_at(bv: Seq<Seq<Tile>>, r: int, c: int) -> Team {
    bv[r][c].team
}

/// Every tile carries the label of its own square, and holds a piece exactly
/// when a team occupies it.
pub open spec fn board_wf(bv: Seq<Seq<Tile>>) -> bool {
    &&& bv.len() == 8
    &&& forall|r: int| 0 <= r < 8 ==> (#[trigger] bv[r]).len() == 8
    &&& forall|r: int, c: int|
        on_board(r, c) ==> {
            &&& (#[trigger] bv[r][c]).position == pos_at(r, c)
            &&& (bv[r][c].team == Team::Unoccupied <==> bv[r][c].piece is None)
        }
}

pub broadcast proof fn lemma_pos_at_label(r: int, c: int)
    requires
        on_board(r, c),
    ensures
        #[trigger] pos_at(r, c).position_label.row_label == r + 1,
        row_of(pos_at(r, c).position_label) == r,
        col_of(pos_at(r, c).position_label) == c,
        valid_label(pos_at(r, c).position_label),
{
}

pub proof fn lemma_pos_at_injective(r1: int, c1: int, r2: int, c2: int)
    requires
        on_board(r1, c1),
        on_board(r2, c2),
        pos_at(r1, c1) == pos_at(r2, c2),
    ensures
        r1 == r2 && c1 == c2,
{
    lemma_pos_at_label(r1, c1);
    lemma_pos_at_label(r2, c2);
}

/// Grid indices `(row, column)` of a square.
pub fn index_for_pos(pos_label: PositionLabel) -> (r: (usize, usize))
    requires
        valid_label(pos_label),
    ensures
        r.0 == row_of(pos_label),
        r.1 == col_of(pos_label),
        r.0 < 8 && r.1 < 8,
{
    let col: usize = match pos_label.col_label {
        ColLabel::A => 0,
        ColLabel::B => 1,
        ColLabel::C => 2,
        ColLabel::D => 3,
        ColLabel::E => 4,
        ColLabel::F => 5,
        ColLabel::G => 6,
        ColLabel::H => 7,
    };
    ((pos_label.row_label - 1) as usize, col)
}

/// Label of the square at grid row `row` and column `column`; a column past 7
/// names column `H`.
pub fn get_pos_label(row: u8, column: &u8) -> (r: (ColLabel, u8))
    requires
        row < 255,
    ensures
        r.0 == col_label_of(*column as int),
        r.1 == row + 1,
{
    let column_position: ColLabel = match *column {
        0 => ColLabel::A,
        1 => ColLabel::B,
        2 => ColLabel::C,
        3 => ColLabel::D,
        4 => ColLabel::E,
        5 => ColLabel::F,
        6 => ColLabel::G,
        _ => ColLabel::H,
    };
    (column_position, row + 1)
}

/// The square at grid indices `(row, col)`.
pub fn square_position(row: usize, col: usize) -> (p: Position)
    requires
        on_board(row as int, col as int),
    ensures
        p == pos_at(row as int, col as int),
{
    let (col_label, row_label) = get_pos_label(row as u8, &(col as u8));
    Position { position_label: PositionLabel { col_label, row_label } }
}

/// The board `bv` after the piece `entity` of `team` moved from `from` to
/// `to`: the destination takes the mover (whatever stood there is overwritten)
/// and then the origin is cleared.
pub open spec fn simulated(bv: Seq<Seq<Tile>>, entity: u64, team: Team, from: PositionLabel, to: PositionLabel) -> Seq<Seq<Tile>> {
    let (tr, tc) = (row_of(to), col_of(to));
    let (fr, fc) = (row_of(from), col_of(from));
    let dest = Tile { team: team, piece: Some(entity), ..bv[tr][tc] };
    let b1 = bv.update(tr, bv[tr].update(tc, dest));
    let origin = Tile { team: Team::Unoccupied, piece: None, ..b1[fr][fc] };
    b1.update(fr, b1[fr].update(fc, origin))
}

/// Applies a move to a scratch copy of the board: the destination tile takes
/// `team` and `entity`, then the origin tile is emptied.
pub fn simulate_move(board: &mut Board, entity: u64, team: Team, piece_pos: PositionLabel, goal_pos: PositionLabel)
    requires
        valid_label(piece_pos),
        valid_label(goal_pos),
    ensures
        board_view(*final(board)) == simulated(board_view(*old(board)), entity, team, piece_pos, goal_pos),
{
    let ghost bv = board_view(*old(board));
    let (old_row, old_col) = index_for_pos(piece_pos);
    let (new_row, new_col) = index_for_pos(goal_pos);

    let mut dest_row = board[new_row];
    let mut new_tile = dest_row[new_col];
    new_tile.team = team;
    new_tile.piece = Some(entity);
    dest_row[new_col] = new_tile;
    board[new_row] = dest_row;
    let ghost b1 = bv.update(new_row as int, bv[new_row as int].update(new_col as int, new_tile));
    assert(board_view(*board) =~= b1);

    let mut origin_row = board[old_row];
    let mut old_tile = origin_row[old_col];
    old_tile.team = Team::Unoccupied;
    old_tile.piece = None;
    origin_row[old_col] = old_tile;
    board[old_row] = origin_row;
    assert(board_view(*board) =~= simulated(bv, entity, team, piece_pos, goal_pos));
}

/// Replaces the tile at grid indices `(row, col)`.
pub fn set_tile(board: &mut Board, row: usize, col: usize, tile: Tile)
    requires
        row < 8,
        col < 8,
    ensures
        board_view(*final(board)) == board_view(*old(board)).update(
            row as int,
            board_view(*old(board))[row as int].update(col as int, tile),
        ),
{
    let ghost bv = board_view(*old(board));
    let mut board_row = board[row];
    board_row[col] = tile;
    board[row] = board_row;
    assert(board_view(*board) =~= bv.update(row as int, bv[row as int].update(col as int, tile)));
}

/// An empty tile on the square `(r, c)`.
pub open spec fn empty_tile(r: int, c: int) -> Tile {
    Tile { team: Team::Unoccupied, position: pos_at(r, c), piece: None }
}

/// A board with no pieces, each tile labelled with its own square.
pub fn init_board() -> (b: Board)
    ensures
        forall|r: int, c: int| on_board(r, c) ==> (#[trigger] board_view(b)[r][c]) == empty_tile(r, c),
        board_wf(board_view(b)),
{
    let blank = Tile {
        team: Team::Unoccupied,
        position: Position { position_label: PositionLabel { col_label: ColLabel::A, row_label: 1 } },
        piece: None,
    };
    let mut board: Board = [[blank; 8]; 8];
    let mut row: usize = 0;
    while row < 8
        invariant
            row <= 8,
            forall|r: int, c: int| 0 <= r < row && 0 <= c < 8 ==> (#[trigger] board_view(board)[r][c]) == empty_tile(r, c),
        decreases 8 - row,
    {
        let mut col: usize = 0;
        while col < 8
            invariant
                row < 8,
                col <= 8,
                forall|r: int, c: int|
                    (0 <= r < row && 0 <= c < 8) || (r == row && 0 <= c < col) ==> (#[trigger] board_view(board)[r][c])
                        == empty_tile(r, c),
            decreases 8 - col,
        {
            let tile = Tile { team: Team::Unoccupied, position: square_position(row, col), piece: None };
            set_tile(&mut board, row, col, tile);
            col += 1;
        }
        row += 1;
    }
    board
}

/// Shade of a board square.
#[derive(Debug, Clone, Copy, PartialEq, Eq, Structural)]
pub enum TileShade {
    Light,
    Dark,
}

/// Shade of the square at grid row `row` and column `column`: dark when both
/// indices have the same parity, light otherwise.
pub fn get_tile_color(row: &u8, column: &u8) -> (r: TileShade)
    ensures
        r == (if (*row % 2 == 0) == (*column % 2 == 0) {
            TileShade::Dark
        } else {
            TileShade::Light
        }),
{
    if *row % 2 == 0 {
        if *column % 2 == 0 {
            return TileShade::Dark;
        }
        return TileShade::Light;
    }
    if *column % 2 == 0 {
        return TileShade::Light;
    }
    TileShade::Dark
}

} // verus!
