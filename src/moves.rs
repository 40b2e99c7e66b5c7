use vstd::prelude::*;
use crate::board::{
    Board, Position, Tile, board_view, on_board, team_at, pos_at, row_of, col_of, valid_label,
    index_for_pos, square_position,
};
use crate::pieces::{Piece, PieceType, Team};
use crate::move_lemmas::{all_squares, lemma_moves_distinct_on_board};

verus! {

/// The square `(r, c)` as a destination for a single-step piece: present when
/// it is on the board and not held by the mover's own team.
pub open spec fn step_square(bv: Seq<Seq<Tile>>, team: Team, r: int, c: int) -> Seq<Position> {
    if on_board(r, c) && team_at(bv, r, c) != team {
        seq![pos_at(r, c)]
    } else {
        seq![]
    }
}

/// Walk from `(r, c)` in direction `(dr, dc)` for at most `fuel` steps: empty
/// squares are taken and the walk goes on; an enemy square is taken and ends
/// the walk; a friendly square or the board's edge ends it.
pub open spec fn ray(bv: Seq<Seq<Tile>>, team: Team, r: int, c: int, dr: int, dc: int, fuel: nat) -> Seq<Position>
    decreases fuel,
{
    if fuel == 0 {
        seq![]
    } else {
        let nr = r + dr;
        let nc = c + dc;
        if !on_board(nr, nc) || team_at(bv, nr, nc) == team {
            seq![]
        } else if team_at(bv, nr, nc) != Team::Unoccupied {
            seq![pos_at(nr, nc)]
        } else {
            seq![pos_at(nr, nc)] + ray(bv, team, nr, nc, dr, dc, (fuel - 1) as nat)
        }
    }
}

/// A full sliding walk: seven steps reach every edge of the board.
pub open spec fn slide(bv: Seq<Seq<Tile>>, team: Team, r: int, c: int, dr: int, dc: int) -> Seq<Position> {
    ray(bv, team, r, c, dr, dc, 7)
}

/// Up, down, left, right.
pub open spec fn rook_moves(bv: Seq<Seq<Tile>>, team: Team, r: int, c: int) -> Seq<Position> {
    slide(bv, team, r, c, 1, 0) + slide(bv, team, r, c, -1, 0) + slide(bv, team, r, c, 0, -1)
        + slide(bv, team, r, c, 0, 1)
}

/// Up-left, up-right, down-left, down-right.
pub open spec fn bishop_moves(bv: Seq<Seq<Tile>>, team: Team, r: int, c: int) -> Seq<Position> {
    slide(bv, team, r, c, 1, -1) + slide(bv, team, r, c, 1, 1) + slide(bv, team, r, c, -1, -1)
        + slide(bv, team, r, c, -1, 1)
}

pub open spec fn queen_moves(bv: Seq<Seq<Tile>>, team: Team, r: int, c: int) -> Seq<Position> {
    rook_moves(bv, team, r, c) + bishop_moves(bv, team, r, c)
}

pub open spec fn knight_moves(bv: Seq<Seq<Tile>>, team: Team, r: int, c: int) -> Seq<Position> {
    step_square(bv, team, r + 2, c - 1) + step_square(bv, team, r + 2, c + 1)
        + step_square(bv, team, r - 2, c - 1) + step_square(bv, team, r - 2, c + 1)
        + step_square(bv, team, r + 1, c - 2) + step_square(bv, team, r - 1, c - 2)
        + step_square(bv, team, r + 1, c + 2) + step_square(bv, team, r - 1, c + 2)
}

pub open spec fn king_moves(bv: Seq<Seq<Tile>>, team: Team, r: int, c: int) -> Seq<Position> {
    step_square(bv, team, r + 1, c) + step_square(bv, team, r + 1, c - 1)
        + step_square(bv, team, r + 1, c + 1) + step_square(bv, team, r - 1, c)
        + step_square(bv, team, r - 1, c - 1) + step_square(bv, team, r - 1, c + 1)
        + step_square(bv, team, r, c - 1) + step_square(bv, team, r, c + 1)
}

/// Row direction in which a team's pawns advance.
pub open spec fn pawn_dir(team: Team) -> int {
    if team == Team::White { 1 } else { -1 }
}

/// Grid row on which a team's pawns start.
pub open spec fn pawn_start(team: Team) -> int {
    if team == Team::White { 1 } else { 6 }
}

/// The side a team's pawns capture.
pub open spec fn opponent(team: Team) -> Team {
    if team == Team::White { Team::Black } else { Team::White }
}

/// Pawn destinations, in this order: two squares ahead from the starting row
/// when both squares ahead are empty, one square ahead when empty, then the
/// diagonal captures to the right and to the left. A pawn on the last row has
/// none.
pub open spec fn pawn_moves(bv: Seq<Seq<Tile>>, team: Team, r: int, c: int) -> Seq<Position> {
    let d = pawn_dir(team);
    let f = r + d;
    if !(0 <= f < 8) {
        seq![]
    } else {
        let two = if r == pawn_start(team) && team_at(bv, f, c) == Team::Unoccupied
            && team_at(bv, f + d, c) == Team::Unoccupied {
            seq![pos_at(f + d, c)]
        } else {
            seq![]
        };
        let one = if team_at(bv, f, c) == Team::Unoccupied {
            seq![pos_at(f, c)]
        } else {
            seq![]
        };
        let right = if c < 7 && team_at(bv, f, c + 1) == opponent(team) {
            seq![pos_at(f, c + 1)]
        } else {
            seq![]
        };
        let left = if c > 0 && team_at(bv, f, c - 1) == opponent(team) {
            seq![pos_at(f, c - 1)]
        } else {
            seq![]
        };
        two + one + right + left
    }
}

/// Pseudo-legal destinations of a piece of kind `kind` and team `team` at grid
/// square `(r, c)`.
pub open spec fn moves_of(kind: PieceType, team: Team, r: int, c: int, bv: Seq<Seq<Tile>>) -> Seq<Position> {
    match kind {
        PieceType::Pawn => pawn_moves(bv, team, r, c),
        PieceType::Bishop => bishop_moves(bv, team, r, c),
        PieceType::Knight => knight_moves(bv, team, r, c),
        PieceType::Rook => rook_moves(bv, team, r, c),
        PieceType::Queen => queen_moves(bv, team, r, c),
        PieceType::King => king_moves(bv, team, r, c),
    }
}

/// Pseudo-legal destinations of `p` on the board `bv`.
pub open spec fn piece_moves(p: Piece, bv: Seq<Seq<Tile>>) -> Seq<Position> {
    moves_of(p.piece_type, p.team, row_of(p.position.position_label), col_of(p.position.position_label), bv)
}

fn add_position(team: Team, board: &Board, r: i32, c: i32, result: &mut Vec<Position>)
    ensures
        final(result)@ == old(result)@ + step_square(board_view(*board), team, r as int, c as int),
{
    if 0 <= r && r < 8 && 0 <= c && c < 8 {
        let tile = board[r as usize][c as usize];
        if tile.team != team {
            result.push(square_position(r as usize, c as usize));
            return;
        }
    }
    assert(step_square(board_view(*board), team, r as int, c as int) =~= seq![]);
    assert(old(result)@ + seq![] =~= old(result)@);
}

/// Appends the squares of a sliding walk from `(r, c)` in direction `(dr, dc)`.
fn walk_ray(team: Team, board: &Board, r: i32, c: i32, dr: i32, dc: i32, result: &mut Vec<Position>)
    requires
        on_board(r as int, c as int),
        -1 <= dr <= 1,
        -1 <= dc <= 1,
    ensures
        final(result)@ == old(result)@ + slide(board_view(*board), team, r as int, c as int, dr as int, dc as int),
{
    let ghost bv = board_view(*board);
    let ghost start = old(result)@;
    let mut cr: i32 = r;
    let mut cc: i32 = c;
    let mut fuel: u32 = 7;
    loop
        invariant_except_break
            start + slide(bv, team, r as int, c as int, dr as int, dc as int)
                == result@ + ray(bv, team, cr as int, cc as int, dr as int, dc as int, fuel as nat),
        invariant
            on_board(cr as int, cc as int),
            fuel <= 7,
            -1 <= dr <= 1,
            -1 <= dc <= 1,
            bv == board_view(*board),
        ensures
            result@ == start + slide(bv, team, r as int, c as int, dr as int, dc as int),
        decreases fuel,
    {
        if fuel == 0 {
            assert(result@ + seq![] =~= result@);
            break;
        }
        let nr = cr + dr;
        let nc = cc + dc;
        if nr < 0 || nr >= 8 || nc < 0 || nc >= 8 {
            assert(result@ + seq![] =~= result@);
            break;
        }
        let tile = board[nr as usize][nc as usize];
        if tile.team == team {
            assert(result@ + seq![] =~= result@);
            break;
        }
        let ghost before = result@;
        result.push(square_position(nr as usize, nc as usize));
        if tile.team != Team::Unoccupied {
            assert(before + ray(bv, team, cr as int, cc as int, dr as int, dc as int, fuel as nat) =~= result@);
            break;
        }
        assert(before + ray(bv, team, cr as int, cc as int, dr as int, dc as int, fuel as nat)
            =~= result@ + ray(bv, team, nr as int, nc as int, dr as int, dc as int, (fuel - 1) as nat));
        cr = nr;
        cc = nc;
        fuel = fuel - 1;
    }
}

fn possible_moves_for_knight(piece: &Piece, board: &Board) -> (result: Vec<Position>)
    requires
        valid_label(piece.position.position_label),
    ensures
        result@ == knight_moves(board_view(*board), piece.team, row_of(piece.position.position_label),
            col_of(piece.position.position_label)),
{
    let (row, col) = index_for_pos(piece.position.position_label);
    let r = row as i32;
    let c = col as i32;
    let mut result = Vec::new();
    add_position(piece.team, board, r + 2, c - 1, &mut result);
    add_position(piece.team, board, r + 2, c + 1, &mut result);
    add_position(piece.team, board, r - 2, c - 1, &mut result);
    add_position(piece.team, board, r - 2, c + 1, &mut result);
    add_position(piece.team, board, r + 1, c - 2, &mut result);
    add_position(piece.team, board, r - 1, c - 2, &mut result);
    add_position(piece.team, board, r + 1, c + 2, &mut result);
    add_position(piece.team, board, r - 1, c + 2, &mut result);
    assert(result@ =~= knight_moves(board_view(*board), piece.team, r as int, c as int));
    result
}

fn possible_moves_for_king(piece: &Piece, board: &Board) -> (result: Vec<Position>)
    requires
        valid_label(piece.position.position_label),
    ensures
        result@ == king_moves(board_view(*board), piece.team, row_of(piece.position.position_label),
            col_of(piece.position.position_label)),
{
    let (row, col) = index_for_pos(piece.position.position_label);
    let r = row as i32;
    let c = col as i32;
    let mut result = Vec::new();
    add_position(piece.team, board, r + 1, c, &mut result);
    add_position(piece.team, board, r + 1, c - 1, &mut result);
    add_position(piece.team, board, r + 1, c + 1, &mut result);
    add_position(piece.team, board, r - 1, c, &mut result);
    add_position(piece.team, board, r - 1, c - 1, &mut result);
    add_position(piece.team, board, r - 1, c + 1, &mut result);
    add_position(piece.team, board, r, c - 1, &mut result);
    add_position(piece.team, board, r, c + 1, &mut result);
    assert(result@ =~= king_moves(board_view(*board), piece.team, r as int, c as int));
    result
}

fn possible_moves_for_rook(piece: &Piece, board: &Board) -> (result: Vec<Position>)
    requires
        valid_label(piece.position.position_label),
    ensures
        result@ == rook_moves(board_view(*board), piece.team, row_of(piece.position.position_label),
            col_of(piece.position.position_label)),
{
    let (row, col) = index_for_pos(piece.position.position_label);
    let r = row as i32;
    let c = col as i32;
    let mut result = Vec::new();
    walk_ray(piece.team, board, r, c, 1, 0, &mut result);
    walk_ray(piece.team, board, r, c, -1, 0, &mut result);
    walk_ray(piece.team, board, r, c, 0, -1, &mut result);
    walk_ray(piece.team, board, r, c, 0, 1, &mut result);
    assert(result@ =~= rook_moves(board_view(*board), piece.team, r as int, c as int));
    result
}

fn possible_moves_for_bishop(piece: &Piece, board: &Board) -> (result: Vec<Position>)
    requires
        valid_label(piece.position.position_label),
    ensures
        result@ == bishop_moves(board_view(*board), piece.team, row_of(piece.position.position_label),
            col_of(piece.position.position_label)),
{
    let (row, col) = index_for_pos(piece.position.position_label);
    let r = row as i32;
    let c = col as i32;
    let mut result = Vec::new();
    walk_ray(piece.team, board, r, c, 1, -1, &mut result);
    walk_ray(piece.team, board, r, c, 1, 1, &mut result);
    walk_ray(piece.team, board, r, c, -1, -1, &mut result);
    walk_ray(piece.team, board, r, c, -1, 1, &mut result);
    assert(result@ =~= bishop_moves(board_view(*board), piece.team, r as int, c as int));
    result
}

fn possible_moves_for_queen(piece: &Piece, board: &Board) -> (result: Vec<Position>)
    requires
        valid_label(piece.position.position_label),
    ensures
        result@ == queen_moves(board_view(*board), piece.team, row_of(piece.position.position_label),
            col_of(piece.position.position_label)),
{
    let mut result = possible_moves_for_rook(piece, board);
    let mut diagonal = possible_moves_for_bishop(piece, board);
    result.append(&mut diagonal);
    result
}

/// Appends the diagonal captures of a pawn whose forward row is `row`: the
/// square to the right, then the one to the left, each when `enemy` holds it.
fn attack_moves_for_pawn(board: &Board, row: usize, col: usize, enemy: Team, result: &mut Vec<Position>)
    requires
        row < 8,
        col < 8,
    ensures
        final(result)@ == old(result)@ + (if col < 7 && team_at(board_view(*board), row as int, col + 1) == enemy {
            seq![pos_at(row as int, col + 1)]
        } else {
            seq![]
        }) + (if col > 0 && team_at(board_view(*board), row as int, col - 1) == enemy {
            seq![pos_at(row as int, col - 1)]
        } else {
            seq![]
        }),
{
    let ghost start = old(result)@;
    if col < 7 && board[row][col + 1].team == enemy {
        result.push(square_position(row, col + 1));
    }
    let ghost mid = result@;
    if col > 0 && board[row][col - 1].team == enemy {
        result.push(square_position(row, col - 1));
    }
    let ghost bv = board_view(*board);
    assert(result@ =~= start + (if col < 7 && team_at(bv, row as int, col + 1) == enemy {
        seq![pos_at(row as int, col + 1)]
    } else {
        seq![]
    }) + (if col > 0 && team_at(bv, row as int, col - 1) == enemy {
        seq![pos_at(row as int, col - 1)]
    } else {
        seq![]
    }));
}

fn possible_moves_for_pawn(piece: &Piece, board: &Board) -> (result: Vec<Position>)
    requires
        valid_label(piece.position.position_label),
    ensures
        result@ == pawn_moves(board_view(*board), piece.team, row_of(piece.position.position_label),
            col_of(piece.position.position_label)),
{
    let ghost bv = board_view(*board);
    let (row, col) = index_for_pos(piece.position.position_label);
    let white = piece.team == Team::White;
    let dir: i32 = if white { 1 } else { -1 };
    let start: usize = if white { 1 } else { 6 };
    let enemy = if white { Team::Black } else { Team::White };
    let forward = row as i32 + dir;
    if forward < 0 || forward >= 8 {
        assert(pawn_moves(bv, piece.team, row as int, col as int) =~= seq![]);
        return Vec::new();
    }
    let f = forward as usize;
    let mut result = Vec::new();
    if row == start {
        let f2 = (forward + dir) as usize;
        if board[f][col].team == Team::Unoccupied && board[f2][col].team == Team::Unoccupied {
            result.push(square_position(f2, col));
        }
    }
    if board[f][col].team == Team::Unoccupied {
        result.push(square_position(f, col));
    }
    attack_moves_for_pawn(board, f, col, enemy, &mut result);
    assert(result@ =~= pawn_moves(bv, piece.team, row as int, col as int));
    result
}

/// All pseudo-legal destinations of `piece` on `board`, ignoring whether the
/// move leaves the mover's own king in check. Pure: the same piece and board
/// always give the same list, in the same order. No destination repeats or
/// lies off the board, and none is held by the mover's own team.
pub fn get_possible_moves_for_piece(piece: &Piece, board: &Board) -> (result: Vec<Position>)
    requires
        valid_label(piece.position.position_label),
    ensures
        result@ == piece_moves(*piece, board_view(*board)),
        result@.no_duplicates(),
        all_squares(result@, |x: int, y: int| piece.team != Team::Unoccupied ==> team_at(board_view(*board), x, y) != piece.team),
{
    proof {
        lemma_moves_distinct_on_board(*piece, board_view(*board));
    }
    match piece.piece_type {
        PieceType::Pawn => possible_moves_for_pawn(piece, board),
        PieceType::Bishop => possible_moves_for_bishop(piece, board),
        PieceType::Knight => possible_moves_for_knight(piece, board),
        PieceType::Rook => possible_moves_for_rook(piece, board),
        PieceType::Queen => possible_moves_for_queen(piece, board),
        PieceType::King => possible_moves_for_king(piece, board),
    }
}

/// Every square of `s` is on the board.
pub open spec fn all_on_board(s: Seq<Position>) -> bool {
    forall|i: int| 0 <= i < s.len() ==> valid_label(#[trigger] s[i].position_label)
}

} // verus!
