use vstd::prelude::*;
use crate::board::{Board, Position, Tile, board_view, simulated, valid_label, simulate_move};
use crate::moves::{piece_moves, all_on_board, get_possible_moves_for_piece};
use crate::pieces::{Piece, PieceType, Team};
use crate::game::{GameState, king_position, turn_king};

verus! {

/// Every destination cached on the piece, and the piece's own square, name
/// squares of the board.
pub open spec fn piece_wf(p: Piece) -> bool {
    &&& valid_label(p.position.position_label)
    &&& all_on_board(p.available_moves@)
}

/// The square that a move to `dest` must not leave attacked: the destination
/// itself when the king moves, the king's fixed square otherwise.
pub open spec fn threat_target(mover: Piece, king_pos: Position, dest: Position) -> Position {
    if mover.piece_type == PieceType::King {
        dest
    } else {
        king_pos
    }
}

/// After `mover` (handle `mover_id`) goes to `dest` on a scratch copy of `bv`,
/// `enemy` can reach the square that the move must keep safe.
pub open spec fn exposes(mover: Piece, mover_id: u64, enemy: Piece, king_pos: Position, bv: Seq<Seq<Tile>>, dest: Position) -> bool {
    piece_moves(enemy, simulated(bv, mover_id, mover.team, mover.position.position_label, dest.position_label)).contains(
        threat_target(mover, king_pos, dest),
    )
}

/// A move to `dest` is kept with respect to `enemy` when it captures that very
/// enemy, or when `enemy` cannot then reach the square to protect.
pub open spec fn keeps_move(mover: Piece, mover_id: u64, enemy: Piece, king_pos: Position, bv: Seq<Seq<Tile>>, dest: Position) -> bool {
    dest.position_label == enemy.position.position_label || !exposes(mover, mover_id, enemy, king_pos, bv, dest)
}

/// The destinations of `moves` that are kept with respect to `enemy`, in order.
pub open spec fn kept_moves(moves: Seq<Position>, mover: Piece, mover_id: u64, enemy: Piece, king_pos: Position, bv: Seq<Seq<Tile>>) -> Seq<Position> {
    moves.filter(|d: Position| keeps_move(mover, mover_id, enemy, king_pos, bv, d))
}

/// Whether `moves` holds `target`.
fn contains_position(moves: &Vec<Position>, target: Position) -> (r: bool)
    ensures
        r == moves@.contains(target),
{
    let mut i: usize = 0;
    while i < moves.len()
        invariant
            i <= moves@.len(),
            forall|j: int| 0 <= j < i ==> moves@[j] != target,
        decreases moves@.len() - i,
    {
        if moves[i].position_label == target.position_label {
            assert(moves@[i as int] == target);
            return true;
        }
        i += 1;
    }
    false
}

/// Simulates `mover` going to `dest` and asks whether `enemy` could then reach
/// the square that the move must keep safe.
fn exposes_target(mover: &Piece, mover_id: u64, enemy: &Piece, king_pos: Position, board: &Board, dest: Position) -> (r: bool)
    requires
        valid_label(mover.position.position_label),
        valid_label(enemy.position.position_label),
        valid_label(dest.position_label),
    ensures
        r == exposes(*mover, mover_id, *enemy, king_pos, board_view(*board), dest),
{
    let mut board_copy: Board = *board;
    simulate_move(&mut board_copy, mover_id, mover.team, mover.position.position_label, dest.position_label);
    let enemy_moves = get_possible_moves_for_piece(enemy, &board_copy);
    let target = if mover.piece_type == PieceType::King { dest } else { king_pos };
    contains_position(&enemy_moves, target)
}

/// Narrows the selected piece's cached destinations to those that do not let
/// `enemy_piece` reach the mover's king: the king's new square when the king
/// moves, the king's square `king_pos` otherwise. A move that captures
/// `enemy_piece` is kept. Nothing changes when `enemy_piece` belongs to the side
/// to move. Applied once per enemy piece, the calls narrow the list to the
/// moves that are safe from all of them.
pub fn prevent_check(
    selected_piece: &mut Piece,
    selected_entity: u64,
    enemy_piece: &Piece,
    king_pos: Position,
    game_state: &GameState,
)
    requires
        piece_wf(*old(selected_piece)),
        valid_label(enemy_piece.position.position_label),
    ensures
        final(selected_piece).position == old(selected_piece).position,
        final(selected_piece).piece_type == old(selected_piece).piece_type,
        final(selected_piece).team == old(selected_piece).team,
        enemy_piece.team == game_state.turn ==> final(selected_piece).available_moves@
            == old(selected_piece).available_moves@,
        enemy_piece.team != game_state.turn ==> final(selected_piece).available_moves@ == kept_moves(
            old(selected_piece).available_moves@,
            *old(selected_piece),
            selected_entity,
            *enemy_piece,
            king_pos,
            board_view(game_state.board),
        ),
        piece_wf(*final(selected_piece)),
{
    if enemy_piece.team == game_state.turn {
        return;
    }
    let ghost mover = *old(selected_piece);
    let ghost moves = old(selected_piece).available_moves@;
    let ghost bv = board_view(game_state.board);
    let ghost pred = |d: Position| keeps_move(mover, selected_entity, *enemy_piece, king_pos, bv, d);
    let mut kept: Vec<Position> = Vec::new();
    let n = selected_piece.available_moves.len();
    let mut i: usize = 0;
    while i < n
        invariant
            i <= n,
            n == moves.len(),
            *selected_piece == mover,
            moves == selected_piece.available_moves@,
            piece_wf(mover),
            valid_label(enemy_piece.position.position_label),
            bv == board_view(game_state.board),
            pred == (|d: Position| keeps_move(mover, selected_entity, *enemy_piece, king_pos, bv, d)),
            kept@ == moves.take(i as int).filter(pred),
        decreases n - i,
    {
        let dest = selected_piece.available_moves[i];
        assert(valid_label(moves[i as int].position_label));
        let keep = dest.position_label == enemy_piece.position.position_label
            || !exposes_target(selected_piece, selected_entity, enemy_piece, king_pos, &game_state.board, dest);
        if keep {
            kept.push(dest);
        }
        proof {
            reveal(Seq::filter);
            assert(moves.take(i + 1).drop_last() =~= moves.take(i as int));
            assert(moves.take(i + 1).last() == dest);
        }
        i += 1;
    }
    proof {
        assert(moves.take(n as int) =~= moves);
        broadcast use vstd::seq_lib::group_filter_ensures;
        assert(all_on_board(kept@)) by {
            assert forall|j: int| 0 <= j < kept@.len() implies valid_label(#[trigger] kept@[j].position_label) by {
                assert(moves.filter(pred).contains(kept@[j]));
                moves.lemma_filter_contains_rev(pred, kept@[j]);
            }
        }
    }
    selected_piece.available_moves = kept;
}

/// A move of `mover` to `dest` is kept with respect to every piece of
/// `roster` that is not on the side to move.
pub open spec fn safe_from_all(mover: Piece, mover_id: u64, roster: Seq<(u64, Piece)>, turn: Team, king_pos: Position, bv: Seq<Seq<Tile>>, dest: Position) -> bool {
    forall|j: int|
        0 <= j < roster.len() && (#[trigger] roster[j]).1.team != turn ==> keeps_move(
            mover,
            mover_id,
            roster[j].1,
            king_pos,
            bv,
            dest,
        )
}

/// The piece of `entry` has a pseudo-legal destination that is safe from all
/// enemies of `roster`.
pub open spec fn has_legal_move(entry: (u64, Piece), roster: Seq<(u64, Piece)>, turn: Team, king_pos: Position, bv: Seq<Seq<Tile>>) -> bool {
    exists|k: int|
        0 <= k < piece_moves(entry.1, bv).len() && safe_from_all(
            entry.1,
            entry.0,
            roster,
            turn,
            king_pos,
            bv,
            #[trigger] piece_moves(entry.1, bv)[k],
        )
}

/// No piece of the side to move has a legal move. Stalemate is not told apart.
pub open spec fn checkmated(turn: Team, king_pos: Position, bv: Seq<Seq<Tile>>, roster: Seq<(u64, Piece)>) -> bool {
    forall|i: int|
        0 <= i < roster.len() && (#[trigger] roster[i]).1.team == turn ==> !has_legal_move(
            roster[i],
            roster,
            turn,
            king_pos,
            bv,
        )
}

/// Every piece of the roster stands on a square of the board.
pub open spec fn roster_wf(roster: Seq<(u64, Piece)>) -> bool {
    forall|i: int| 0 <= i < roster.len() ==> valid_label(#[trigger] roster[i].1.position.position_label)
}

fn move_is_safe(
    mover: &Piece,
    mover_id: u64,
    pieces: &Vec<(u64, Piece)>,
    turn: Team,
    king_pos: Position,
    board: &Board,
    dest: Position,
) -> (r: bool)
    requires
        roster_wf(pieces@),
        valid_label(mover.position.position_label),
        valid_label(dest.position_label),
    ensures
        r == safe_from_all(*mover, mover_id, pieces@, turn, king_pos, board_view(*board), dest),
{
    let mut j: usize = 0;
    while j < pieces.len()
        invariant
            j <= pieces@.len(),
            roster_wf(pieces@),
            valid_label(mover.position.position_label),
            valid_label(dest.position_label),
            forall|x: int|
                0 <= x < j && (#[trigger] pieces@[x]).1.team != turn ==> keeps_move(
                    *mover,
                    mover_id,
                    pieces@[x].1,
                    king_pos,
                    board_view(*board),
                    dest,
                ),
        decreases pieces@.len() - j,
    {
        let enemy = &pieces[j].1;
        if enemy.team != turn {
            assert(valid_label(pieces@[j as int].1.position.position_label));
            if dest.position_label != enemy.position.position_label
                && exposes_target(mover, mover_id, enemy, king_pos, board, dest) {
                assert(pieces@[j as int].1.team != turn);
                return false;
            }
        }
        j += 1;
    }
    true
}

fn piece_has_legal_move(
    piece: &Piece,
    entity: u64,
    pieces: &Vec<(u64, Piece)>,
    turn: Team,
    king_pos: Position,
    board: &Board,
) -> (r: bool)
    requires
        roster_wf(pieces@),
        valid_label(piece.position.position_label),
    ensures
        r == has_legal_move((entity, *piece), pieces@, turn, king_pos, board_view(*board)),
{
    let ghost bv = board_view(*board);
    let moves = get_possible_moves_for_piece(piece, board);
    proof {
        assert forall|i: int| 0 <= i < moves@.len() implies valid_label(#[trigger] moves@[i].position_label) by {}
    }
    let mut k: usize = 0;
    while k < moves.len()
        invariant
            k <= moves@.len(),
            moves@ == piece_moves(*piece, bv),
            bv == board_view(*board),
            all_on_board(moves@),
            roster_wf(pieces@),
            valid_label(piece.position.position_label),
            forall|x: int|
                0 <= x < k ==> !safe_from_all(*piece, entity, pieces@, turn, king_pos, bv, #[trigger] moves@[x]),
        decreases moves@.len() - k,
    {
        assert(valid_label(moves@[k as int].position_label));
        if move_is_safe(piece, entity, pieces, turn, king_pos, board, moves[k]) {
            assert((entity, *piece).1 == *piece);
            assert(safe_from_all(
                (entity, *piece).1,
                (entity, *piece).0,
                pieces@,
                turn,
                king_pos,
                bv,
                piece_moves((entity, *piece).1, bv)[k as int],
            ));
            return true;
        }
        k += 1;
    }
    false
}

/// Whether the side `turn` has no legal move: for every piece of that side,
/// every pseudo-legal destination lets some enemy reach the square to keep
/// safe (the king's new square for a king move, `king_pos` otherwise). A
/// destination that captures an enemy is not held against the mover by that
/// enemy. A stalemate counts as checkmate here.
pub fn check_checkmate(turn: Team, king_pos: Position, board: Board, pieces: &Vec<(u64, Piece)>) -> (r: bool)
    requires
        roster_wf(pieces@),
    ensures
        r == checkmated(turn, king_pos, board_view(board), pieces@),
{
    let ghost bv = board_view(board);
    let mut i: usize = 0;
    while i < pieces.len()
        invariant
            i <= pieces@.len(),
            roster_wf(pieces@),
            bv == board_view(board),
            forall|x: int|
                0 <= x < i && (#[trigger] pieces@[x]).1.team == turn ==> !has_legal_move(
                    pieces@[x],
                    pieces@,
                    turn,
                    king_pos,
                    bv,
                ),
        decreases pieces@.len() - i,
    {
        let entry = &pieces[i];
        if entry.1.team == turn {
            assert(valid_label(pieces@[i as int].1.position.position_label));
            if piece_has_legal_move(&entry.1, entry.0, pieces, turn, king_pos, &board) {
                assert(pieces@[i as int] == (entry.0, entry.1));
                return false;
            }
            assert(pieces@[i as int] == (entry.0, entry.1));
        }
        i += 1;
    }
    true
}

/// Filtering against one enemy never drops the move that captures that enemy.
pub proof fn lemma_capture_of_enemy_kept(
    moves: Seq<Position>,
    mover: Piece,
    mover_id: u64,
    enemy: Piece,
    king_pos: Position,
    bv: Seq<Seq<Tile>>,
)
    requires
        moves.contains(enemy.position),
    ensures
        kept_moves(moves, mover, mover_id, enemy, king_pos, bv).contains(enemy.position),
{
    broadcast use vstd::seq_lib::group_filter_ensures;
    let i = choose|i: int| 0 <= i < moves.len() && moves[i] == enemy.position;
    assert(keeps_move(mover, mover_id, enemy, king_pos, bv, moves[i]));
}

/// A move that does not capture the enemy survives the filter exactly when,
/// on the board after the move, the enemy cannot reach the king's new square
/// (for a king move) or the king's fixed square (for any other move).
pub proof fn lemma_filter_guards_king_square(
    moves: Seq<Position>,
    mover: Piece,
    mover_id: u64,
    enemy: Piece,
    king_pos: Position,
    bv: Seq<Seq<Tile>>,
    dest: Position,
)
    requires
        moves.contains(dest),
        dest.position_label != enemy.position.position_label,
    ensures
        ({
            let after = simulated(bv, mover_id, mover.team, mover.position.position_label, dest.position_label);
            &&& mover.piece_type == PieceType::King ==> (kept_moves(moves, mover, mover_id, enemy, king_pos, bv).contains(dest)
                <==> !piece_moves(enemy, after).contains(dest))
            &&& mover.piece_type != PieceType::King ==> (kept_moves(moves, mover, mover_id, enemy, king_pos, bv).contains(dest)
                <==> !piece_moves(enemy, after).contains(king_pos))
        }),
{
    broadcast use vstd::seq_lib::group_filter_ensures;
    let pred = |d: Position| keeps_move(mover, mover_id, enemy, king_pos, bv, d);
    let i = choose|i: int| 0 <= i < moves.len() && moves[i] == dest;
    if moves.filter(pred).contains(dest) {
        let j = choose|j: int| 0 <= j < moves.filter(pred).len() && moves.filter(pred)[j] == dest;
        assert(pred(moves.filter(pred)[j]));
    }
    if pred(dest) {
        assert(moves.filter(pred).contains(moves[i]));
    }
}

/// The destinations of `moves` that are safe from every enemy of `roster`,
/// in order.
pub open spec fn legal_moves(moves: Seq<Position>, mover: Piece, mover_id: u64, roster: Seq<(u64, Piece)>, turn: Team, king_pos: Position, bv: Seq<Seq<Tile>>) -> Seq<Position> {
    moves.filter(|d: Position| safe_from_all(mover, mover_id, roster, turn, king_pos, bv, d))
}

/// A move of `mover` to `dest` is kept with respect to each of the first `n`
/// pieces of `roster` that are not on the side to move.
pub open spec fn safe_from_first(mover: Piece, mover_id: u64, roster: Seq<(u64, Piece)>, n: int, turn: Team, king_pos: Position, bv: Seq<Seq<Tile>>, dest: Position) -> bool {
    forall|j: int|
        0 <= j < n && (#[trigger] roster[j]).1.team != turn ==> keeps_move(mover, mover_id, roster[j].1, king_pos, bv, dest)
}

proof fn lemma_filter_twice<A>(s: Seq<A>, p: spec_fn(A) -> bool, q: spec_fn(A) -> bool)
    ensures
        s.filter(p).filter(q) == s.filter(|x: A| p(x) && q(x)),
    decreases s.len(),
{
    reveal(Seq::filter);
    if s.len() > 0 {
        lemma_filter_twice(s.drop_last(), p, q);
        let pq = |x: A| p(x) && q(x);
        if p(s.last()) {
            assert(s.filter(p).drop_last() =~= s.drop_last().filter(p));
            assert(s.filter(p).last() == s.last());
        } else {
            assert(s.filter(p) == s.drop_last().filter(p));
        }
    } else {
        assert(s.filter(p) =~= s);
    }
}

/// Narrows the selected piece's cached destinations against every piece of
/// `roster` in turn, as `prevent_check` does for one: what remains are the
/// moves that are safe from all enemies, with the king of the side to move as
/// the square to protect.
pub fn restrict_to_legal_moves(
    selected_piece: &mut Piece,
    selected_entity: u64,
    roster: &Vec<(u64, Piece)>,
    game_state: &GameState,
)
    requires
        piece_wf(*old(selected_piece)),
        roster_wf(roster@),
    ensures
        final(selected_piece).position == old(selected_piece).position,
        final(selected_piece).piece_type == old(selected_piece).piece_type,
        final(selected_piece).team == old(selected_piece).team,
        final(selected_piece).available_moves@ == legal_moves(
            old(selected_piece).available_moves@,
            *old(selected_piece),
            selected_entity,
            roster@,
            game_state.turn,
            turn_king(*game_state),
            board_view(game_state.board),
        ),
{
    let ghost mover = *old(selected_piece);
    let ghost moves = old(selected_piece).available_moves@;
    let ghost bv = board_view(game_state.board);
    let king_pos = king_position(game_state);
    let ghost turn = game_state.turn;
    proof {
        assert(moves.filter(|d: Position| safe_from_first(mover, selected_entity, roster@, 0, turn, king_pos, bv, d))
            =~= moves) by {
            broadcast use vstd::seq_lib::group_filter_ensures;
            let f = |d: Position| safe_from_first(mover, selected_entity, roster@, 0, turn, king_pos, bv, d);
            assert(moves.filter(f) == moves) by {
                lemma_filter_all(moves, f);
            }
        }
    }
    let mut j: usize = 0;
    while j < roster.len()
        invariant
            j <= roster@.len(),
            roster_wf(roster@),
            piece_wf(*selected_piece),
            selected_piece.position == mover.position,
            selected_piece.piece_type == mover.piece_type,
            selected_piece.team == mover.team,
            bv == board_view(game_state.board),
            turn == game_state.turn,
            selected_piece.available_moves@ == moves.filter(
                |d: Position| safe_from_first(mover, selected_entity, roster@, j as int, turn, king_pos, bv, d),
            ),
        decreases roster@.len() - j,
    {
        let ghost cur = *selected_piece;
        let ghost before = selected_piece.available_moves@;
        assert(valid_label(roster@[j as int].1.position.position_label));
        prevent_check(selected_piece, selected_entity, &roster[j].1, king_pos, game_state);
        proof {
            let enemy = roster@[j as int].1;
            let old_pred = |d: Position| safe_from_first(mover, selected_entity, roster@, j as int, turn, king_pos, bv, d);
            let new_pred = |d: Position| safe_from_first(mover, selected_entity, roster@, j + 1, turn, king_pos, bv, d);
            let step = |d: Position| keeps_move(cur, selected_entity, enemy, king_pos, bv, d);
            if enemy.team != turn {
                lemma_filter_twice(moves, old_pred, step);
                assert((|x: Position| old_pred(x) && step(x)) =~= new_pred) by {
                    assert forall|d: Position| (old_pred(d) && step(d)) == #[trigger] new_pred(d) by {
                        assert(keeps_move(cur, selected_entity, enemy, king_pos, bv, d) == keeps_move(
                            mover,
                            selected_entity,
                            enemy,
                            king_pos,
                            bv,
                            d,
                        ));
                        if new_pred(d) {
                            assert(roster@[j as int].1.team != turn);
                        }
                    }
                }
            } else {
                assert(old_pred =~= new_pred) by {
                    assert forall|d: Position| old_pred(d) == #[trigger] new_pred(d) by {
                        if old_pred(d) {
                            assert forall|x: int|
                                0 <= x < j + 1 && (#[trigger] roster@[x]).1.team != turn implies keeps_move(
                                mover,
                                selected_entity,
                                roster@[x].1,
                                king_pos,
                                bv,
                                d,
                            ) by {
                                if x < j {
                                }
                            }
                        }
                    }
                }
            }
        }
        j += 1;
    }
    proof {
        let last = |d: Position| safe_from_first(mover, selected_entity, roster@, roster@.len() as int, turn, king_pos, bv, d);
        let all = |d: Position| safe_from_all(mover, selected_entity, roster@, turn, king_pos, bv, d);
        assert(last =~= all);
    }
}

proof fn lemma_filter_all<A>(s: Seq<A>, p: spec_fn(A) -> bool)
    requires
        forall|x: A| #[trigger] p(x),
    ensures
        s.filter(p) == s,
    decreases s.len(),
{
    reveal(Seq::filter);
    if s.len() > 0 {
        lemma_filter_all(s.drop_last(), p);
        assert(s.drop_last().push(s.last()) =~= s);
    }
}

/// The side to move is checkmated exactly when, for each of its pieces,
/// filtering the piece's destinations against all enemies leaves none.
pub proof fn lemma_checkmate_iff_no_legal_moves(turn: Team, king_pos: Position, bv: Seq<Seq<Tile>>, roster: Seq<(u64, Piece)>)
    ensures
        checkmated(turn, king_pos, bv, roster) <==> forall|i: int|
            0 <= i < roster.len() && (#[trigger] roster[i]).1.team == turn ==> legal_moves(
                piece_moves(roster[i].1, bv),
                roster[i].1,
                roster[i].0,
                roster,
                turn,
                king_pos,
                bv,
            ).len() == 0,
{
    broadcast use vstd::seq_lib::group_filter_ensures;
    assert forall|i: int| 0 <= i < roster.len() && (#[trigger] roster[i]).1.team == turn implies (has_legal_move(
        roster[i],
        roster,
        turn,
        king_pos,
        bv,
    ) <==> legal_moves(piece_moves(roster[i].1, bv), roster[i].1, roster[i].0, roster, turn, king_pos, bv).len() > 0) by {
        let e = roster[i];
        let ms = piece_moves(e.1, bv);
        let pred = |d: Position| safe_from_all(e.1, e.0, roster, turn, king_pos, bv, d);
        if has_legal_move(e, roster, turn, king_pos, bv) {
            let k = choose|k: int| 0 <= k < ms.len() && safe_from_all(e.1, e.0, roster, turn, king_pos, bv, #[trigger] ms[k]);
            assert(pred(ms[k]));
            assert(ms.filter(pred).contains(ms[k]));
        }
        if ms.filter(pred).len() > 0 {
            let d = ms.filter(pred)[0];
            assert(pred(d));
            ms.lemma_filter_contains_rev(pred, d);
            let k = choose|k: int| 0 <= k < ms.len() && ms[k] == d;
            assert(safe_from_all(e.1, e.0, roster, turn, king_pos, bv, ms[k]));
        }
    }
}

} // verus!
