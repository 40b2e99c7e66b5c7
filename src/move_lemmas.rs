use vstd::prelude::*;
use crate::board::{
    Board, Tile, Position, board_view, on_board, team_at, pos_at, row_of, col_of, valid_label, lemma_pos_at_label, lemma_pos_at_injective,
};
use crate::moves::{
    ray, slide, step_square, rook_moves, bishop_moves, knight_moves, king_moves, pawn_moves, pawn_dir, pawn_start,
    opponent, piece_moves,
};
use crate::pieces::{Piece, PieceType};
use crate::pieces::Team;

verus! {

/// `delta` has the sign of `d`.
pub open spec fn sign_matches(d: int, delta: int) -> bool {
    if d == 0 {
        delta == 0
    } else if d > 0 {
        delta > 0
    } else {
        delta < 0
    }
}

/// `(rr, cc)` lies on the open half-line from `(r, c)` in direction `(dr, dc)`.
pub open spec fn on_half_line(r: int, c: int, dr: int, dc: int, rr: int, cc: int) -> bool {
    &&& sign_matches(dr, rr - r)
    &&& sign_matches(dc, cc - c)
    &&& (dr == 0 || dc == 0 || (if dr == dc {
        rr - r == cc - c
    } else {
        rr - r == c - cc
    }))
}

/// One of the eight compass directions.
pub open spec fn unit_dir(dr: int, dc: int) -> bool {
    -1 <= dr <= 1 && -1 <= dc <= 1 && (dr != 0 || dc != 0)
}

pub open spec fn abs(x: int) -> int {
    if x < 0 { -x } else { x }
}

/// King-step distance between two squares.
pub open spec fn distance(r: int, c: int, rr: int, cc: int) -> int {
    if abs(rr - r) > abs(cc - c) { abs(rr - r) } else { abs(cc - c) }
}

/// Every element of `s` is a square of the board that satisfies `p`.
pub open spec fn all_squares(s: Seq<Position>, p: spec_fn(int, int) -> bool) -> bool {
    forall|i: int|
        0 <= i < s.len() ==> valid_label(#[trigger] s[i].position_label) && p(
            row_of(s[i].position_label),
            col_of(s[i].position_label),
        )
}

pub proof fn lemma_concat_all_squares(a: Seq<Position>, b: Seq<Position>, p: spec_fn(int, int) -> bool, q: spec_fn(int, int) -> bool)
    requires
        all_squares(a, p),
        all_squares(b, q),
    ensures
        all_squares(a + b, |x: int, y: int| p(x, y) || q(x, y)),
{
    assert forall|i: int| 0 <= i < (a + b).len() implies valid_label(#[trigger] (a + b)[i].position_label) && (|x: int, y: int| p(x, y) || q(x, y))(
        row_of((a + b)[i].position_label),
        col_of((a + b)[i].position_label),
    ) by {
        if i < a.len() {
            assert((a + b)[i] == a[i]);
        } else {
            assert((a + b)[i] == b[i - a.len()]);
        }
    }
}

/// Two sequences without repeats, whose squares satisfy predicates that no
/// square satisfies together, concatenate without repeats.
pub proof fn lemma_concat_no_duplicates(a: Seq<Position>, b: Seq<Position>, p: spec_fn(int, int) -> bool, q: spec_fn(int, int) -> bool)
    requires
        a.no_duplicates(),
        b.no_duplicates(),
        all_squares(a, p),
        all_squares(b, q),
        forall|x: int, y: int| !(#[trigger] p(x, y) && q(x, y)),
    ensures
        (a + b).no_duplicates(),
{
    let s = a + b;
    assert forall|i: int, j: int| 0 <= i < s.len() && 0 <= j < s.len() && i != j implies s[i] != s[j] by {
        if i < a.len() && j < a.len() {
            assert(s[i] == a[i] && s[j] == a[j]);
        } else if i >= a.len() && j >= a.len() {
            assert(s[i] == b[i - a.len()] && s[j] == b[j - a.len()]);
        } else if i < a.len() {
            assert(s[i] == a[i] && s[j] == b[j - a.len()]);
            assert(p(row_of(a[i].position_label), col_of(a[i].position_label)));
            assert(q(row_of(b[j - a.len()].position_label), col_of(b[j - a.len()].position_label)));
        } else {
            assert(s[j] == a[j] && s[i] == b[i - a.len()]);
            assert(p(row_of(a[j].position_label), col_of(a[j].position_label)));
            assert(q(row_of(b[i - a.len()].position_label), col_of(b[i - a.len()].position_label)));
        }
    }
}

pub proof fn lemma_concat_contains(a: Seq<Position>, b: Seq<Position>, x: Position)
    ensures
        (a + b).contains(x) <==> a.contains(x) || b.contains(x),
{
    if a.contains(x) {
        let i = choose|i: int| 0 <= i < a.len() && a[i] == x;
        assert((a + b)[i] == x);
    }
    if b.contains(x) {
        let i = choose|i: int| 0 <= i < b.len() && b[i] == x;
        assert((a + b)[a.len() + i] == x);
    }
    if (a + b).contains(x) {
        let i = choose|i: int| 0 <= i < (a + b).len() && (a + b)[i] == x;
        if i < a.len() {
            assert(a[i] == x);
        } else {
            assert(b[i - a.len()] == x);
        }
    }
}

/// Every square of a walk lies on its half-line, within `fuel` steps of the
/// start, and is not held by the walker's team; no square comes twice.
pub proof fn lemma_ray_squares(bv: Seq<Seq<Tile>>, team: Team, r: int, c: int, dr: int, dc: int, fuel: nat)
    requires
        unit_dir(dr, dc),
    ensures
        all_squares(ray(bv, team, r, c, dr, dc, fuel), |x: int, y: int| on_half_line(r, c, dr, dc, x, y)
            && distance(r, c, x, y) <= fuel && team_at(bv, x, y) != team),
        ray(bv, team, r, c, dr, dc, fuel).no_duplicates(),
    decreases fuel,
{
    let s = ray(bv, team, r, c, dr, dc, fuel);
    let p = |x: int, y: int| on_half_line(r, c, dr, dc, x, y) && distance(r, c, x, y) <= fuel && team_at(bv, x, y) != team;
    if fuel > 0 {
        let nr = r + dr;
        let nc = c + dc;
        if on_board(nr, nc) && team_at(bv, nr, nc) != team {
            lemma_pos_at_label(nr, nc);
            if team_at(bv, nr, nc) == Team::Unoccupied {
                let t = ray(bv, team, nr, nc, dr, dc, (fuel - 1) as nat);
                lemma_ray_squares(bv, team, nr, nc, dr, dc, (fuel - 1) as nat);
                let head = |x: int, y: int| x == nr && y == nc;
                let tail = |x: int, y: int| on_half_line(nr, nc, dr, dc, x, y) && distance(nr, nc, x, y) <= fuel - 1
                    && team_at(bv, x, y) != team;
                assert(all_squares(seq![pos_at(nr, nc)], head));
                lemma_concat_no_duplicates(seq![pos_at(nr, nc)], t, head, tail);
                lemma_concat_all_squares(seq![pos_at(nr, nc)], t, head, tail);
                assert forall|i: int| 0 <= i < s.len() implies valid_label(#[trigger] s[i].position_label) && p(
                    row_of(s[i].position_label),
                    col_of(s[i].position_label),
                ) by {
                    assert((|x: int, y: int| head(x, y) || tail(x, y))(
                        row_of(s[i].position_label),
                        col_of(s[i].position_label),
                    ));
                }
            } else {
                assert(all_squares(s, p));
            }
        }
    }
}

proof fn lemma_half_line_step(r: int, c: int, dr: int, dc: int, x: int, y: int)
    requires
        unit_dir(dr, dc),
    ensures
        on_half_line(r, c, dr, dc, x, y) ==> distance(r, c, x, y) >= 1,
        on_half_line(r, c, dr, dc, x, y) ==> (distance(r, c, x, y) == 1 <==> (x == r + dr && y == c + dc)),
        on_half_line(r, c, dr, dc, x, y) && (x != r + dr || y != c + dc) ==> on_half_line(r + dr, c + dc, dr, dc, x, y),
        on_half_line(r + dr, c + dc, dr, dc, x, y) ==> on_half_line(r, c, dr, dc, x, y) && distance(r, c, x, y)
            == distance(r + dr, c + dc, x, y) + 1,
        on_half_line(r, c, dr, dc, x, y) && on_board(r, c) && on_board(x, y) ==> on_board(r + dr, c + dc),
        on_half_line(r, c, dr, dc, r + dr, c + dc),
        !on_half_line(r, c, dr, dc, r, c),
{
}

/// A walk stops at the first occupied square: its squares lie at distances
/// 1, 2, ... along its direction; all but the last are empty; and when it
/// ends early on an empty square (or takes none), the next square along is
/// off the board or held by the walker's own team. An enemy square is thus
/// taken and ends the walk, a friendly one ends it untaken.
pub proof fn lemma_ray_stops_at_first_occupied(bv: Seq<Seq<Tile>>, team: Team, r: int, c: int, dr: int, dc: int, fuel: nat)
    requires
        unit_dir(dr, dc),
    ensures
        ({
            let s = ray(bv, team, r, c, dr, dc, fuel);
            &&& forall|i: int|
                0 <= i < s.len() ==> valid_label(#[trigger] s[i].position_label) && on_half_line(
                    r,
                    c,
                    dr,
                    dc,
                    row_of(s[i].position_label),
                    col_of(s[i].position_label),
                ) && distance(r, c, row_of(s[i].position_label), col_of(s[i].position_label)) == i + 1
                    && team_at(bv, row_of(s[i].position_label), col_of(s[i].position_label)) != team
            &&& forall|i: int|
                0 <= i < s.len() - 1 ==> team_at(
                    bv,
                    row_of((#[trigger] s[i]).position_label),
                    col_of(s[i].position_label),
                ) == Team::Unoccupied
            &&& (s.len() < fuel && (s.len() == 0 || team_at(
                bv,
                row_of(s.last().position_label),
                col_of(s.last().position_label),
            ) == Team::Unoccupied)) ==> forall|x: int, y: int|
                on_board(x, y) && #[trigger] on_half_line(r, c, dr, dc, x, y) && distance(r, c, x, y) == s.len() + 1
                    ==> team_at(bv, x, y) == team
        }),
    decreases fuel,
{
    let s = ray(bv, team, r, c, dr, dc, fuel);
    let nr = r + dr;
    let nc = c + dc;
    assert forall|x: int, y: int| #[trigger] on_half_line(r, c, dr, dc, x, y) implies distance(r, c, x, y) >= 1
        && (distance(r, c, x, y) == 1 <==> (x == nr && y == nc)) by {
        lemma_half_line_step(r, c, dr, dc, x, y);
    }
    if fuel > 0 && on_board(nr, nc) && team_at(bv, nr, nc) != team {
        lemma_pos_at_label(nr, nc);
        lemma_half_line_step(r, c, dr, dc, nr, nc);
        if team_at(bv, nr, nc) == Team::Unoccupied {
            let t = ray(bv, team, nr, nc, dr, dc, (fuel - 1) as nat);
            lemma_ray_stops_at_first_occupied(bv, team, nr, nc, dr, dc, (fuel - 1) as nat);
            assert(s == seq![pos_at(nr, nc)] + t);
            assert forall|i: int| 0 <= i < s.len() implies valid_label(#[trigger] s[i].position_label) && on_half_line(
                r,
                c,
                dr,
                dc,
                row_of(s[i].position_label),
                col_of(s[i].position_label),
            ) && distance(r, c, row_of(s[i].position_label), col_of(s[i].position_label)) == i + 1 && team_at(
                bv,
                row_of(s[i].position_label),
                col_of(s[i].position_label),
            ) != team by {
                if i > 0 {
                    assert(s[i] == t[i - 1]);
                    lemma_half_line_step(r, c, dr, dc, row_of(s[i].position_label), col_of(s[i].position_label));
                }
            }
            assert forall|i: int| 0 <= i < s.len() - 1 implies team_at(
                bv,
                row_of((#[trigger] s[i]).position_label),
                col_of(s[i].position_label),
            ) == Team::Unoccupied by {
                if i > 0 {
                    assert(s[i] == t[i - 1]);
                }
            }
            if s.len() < fuel && team_at(bv, row_of(s.last().position_label), col_of(s.last().position_label))
                == Team::Unoccupied {
                assert(t.len() == 0 || t.last() == s.last());
                assert forall|x: int, y: int|
                    on_board(x, y) && #[trigger] on_half_line(r, c, dr, dc, x, y) && distance(r, c, x, y) == s.len()
                        + 1 implies team_at(bv, x, y) == team by {
                    lemma_half_line_step(r, c, dr, dc, x, y);
                    assert(on_half_line(nr, nc, dr, dc, x, y));
                }
            }
        }
    }
}

/// On a line whose squares are all empty, a walk takes exactly the squares
/// of its half-line within `fuel` steps.
pub proof fn lemma_ray_on_empty_line(bv: Seq<Seq<Tile>>, team: Team, r: int, c: int, dr: int, dc: int, fuel: nat)
    requires
        unit_dir(dr, dc),
        on_board(r, c),
        team != Team::Unoccupied,
        forall|x: int, y: int|
            on_board(x, y) && #[trigger] on_half_line(r, c, dr, dc, x, y) ==> team_at(bv, x, y) == Team::Unoccupied,
    ensures
        forall|x: int, y: int|
            on_board(x, y) ==> (ray(bv, team, r, c, dr, dc, fuel).contains(#[trigger] pos_at(x, y)) <==> on_half_line(
                r,
                c,
                dr,
                dc,
                x,
                y,
            ) && distance(r, c, x, y) <= fuel),
    decreases fuel,
{
    let s = ray(bv, team, r, c, dr, dc, fuel);
    let nr = r + dr;
    let nc = c + dc;
    lemma_ray_squares(bv, team, r, c, dr, dc, fuel);
    assert forall|x: int, y: int| on_board(x, y) implies (s.contains(#[trigger] pos_at(x, y)) <==> on_half_line(
        r,
        c,
        dr,
        dc,
        x,
        y,
    ) && distance(r, c, x, y) <= fuel) by {
        lemma_pos_at_label(x, y);
        lemma_half_line_step(r, c, dr, dc, x, y);
        if s.contains(pos_at(x, y)) {
            let i = choose|i: int| 0 <= i < s.len() && s[i] == pos_at(x, y);
            assert(valid_label(s[i].position_label));
        }
        if on_half_line(r, c, dr, dc, x, y) && distance(r, c, x, y) <= fuel {
            lemma_half_line_step(r, c, dr, dc, nr, nc);
            assert(on_board(nr, nc));
            assert(team_at(bv, nr, nc) == Team::Unoccupied);
            let t = ray(bv, team, nr, nc, dr, dc, (fuel - 1) as nat);
            assert(s == seq![pos_at(nr, nc)] + t);
            if x == nr && y == nc {
                assert(s[0] == pos_at(x, y));
            } else {
                assert forall|xx: int, yy: int|
                    on_board(xx, yy) && #[trigger] on_half_line(nr, nc, dr, dc, xx, yy) implies team_at(bv, xx, yy)
                        == Team::Unoccupied by {
                    lemma_half_line_step(r, c, dr, dc, xx, yy);
                }
                lemma_ray_on_empty_line(bv, team, nr, nc, dr, dc, (fuel - 1) as nat);
                assert(t.contains(pos_at(x, y)));
                lemma_concat_contains(seq![pos_at(nr, nc)], t, pos_at(x, y));
            }
        }
    }
}

proof fn lemma_append_squares(a: Seq<Position>, b: Seq<Position>, p: spec_fn(int, int) -> bool, q: spec_fn(int, int) -> bool)
    requires
        a.no_duplicates(),
        b.no_duplicates(),
        all_squares(a, p),
        all_squares(b, q),
        forall|x: int, y: int| !(#[trigger] p(x, y) && q(x, y)),
    ensures
        (a + b).no_duplicates(),
        all_squares(a + b, |x: int, y: int| p(x, y) || q(x, y)),
{
    lemma_concat_no_duplicates(a, b, p, q);
    lemma_concat_all_squares(a, b, p, q);
}

proof fn lemma_all_squares_weaken(s: Seq<Position>, p: spec_fn(int, int) -> bool, q: spec_fn(int, int) -> bool)
    requires
        all_squares(s, p),
        forall|x: int, y: int| #[trigger] p(x, y) ==> q(x, y),
    ensures
        all_squares(s, q),
{
    assert forall|i: int| 0 <= i < s.len() implies valid_label(#[trigger] s[i].position_label) && q(
        row_of(s[i].position_label),
        col_of(s[i].position_label),
    ) by {
        assert(p(row_of(s[i].position_label), col_of(s[i].position_label)));
    }
}

proof fn lemma_slide_squares(bv: Seq<Seq<Tile>>, team: Team, r: int, c: int, dr: int, dc: int)
    requires
        unit_dir(dr, dc),
    ensures
        all_squares(slide(bv, team, r, c, dr, dc), |x: int, y: int| on_half_line(r, c, dr, dc, x, y) && team_at(bv, x, y) != team),
        slide(bv, team, r, c, dr, dc).no_duplicates(),
{
    lemma_ray_squares(bv, team, r, c, dr, dc, 7);
    lemma_all_squares_weaken(
        slide(bv, team, r, c, dr, dc),
        |x: int, y: int| on_half_line(r, c, dr, dc, x, y) && distance(r, c, x, y) <= 7 && team_at(bv, x, y) != team,
        |x: int, y: int| on_half_line(r, c, dr, dc, x, y) && team_at(bv, x, y) != team,
    );
}

proof fn lemma_step_squares(bv: Seq<Seq<Tile>>, team: Team, a: int, b: int)
    ensures
        all_squares(step_square(bv, team, a, b), |x: int, y: int| x == a && y == b && team_at(bv, x, y) != team),
        step_square(bv, team, a, b).no_duplicates(),
{
    if on_board(a, b) {
        lemma_pos_at_label(a, b);
    }
}

proof fn lemma_rook_squares(bv: Seq<Seq<Tile>>, team: Team, r: int, c: int)
    ensures
        all_squares(rook_moves(bv, team, r, c), |x: int, y: int| ((x == r) != (y == c)) && team_at(bv, x, y) != team),
        rook_moves(bv, team, r, c).no_duplicates(),
{
    let s1 = slide(bv, team, r, c, 1, 0);
    let s2 = slide(bv, team, r, c, -1, 0);
    let s3 = slide(bv, team, r, c, 0, -1);
    let s4 = slide(bv, team, r, c, 0, 1);
    let part1 = |x: int, y: int| on_half_line(r, c, 1, 0, x, y) && team_at(bv, x, y) != team;
    let part2 = |x: int, y: int| on_half_line(r, c, -1, 0, x, y) && team_at(bv, x, y) != team;
    let part3 = |x: int, y: int| on_half_line(r, c, 0, -1, x, y) && team_at(bv, x, y) != team;
    let part4 = |x: int, y: int| on_half_line(r, c, 0, 1, x, y) && team_at(bv, x, y) != team;
    lemma_slide_squares(bv, team, r, c, 1, 0);
    lemma_slide_squares(bv, team, r, c, -1, 0);
    lemma_slide_squares(bv, team, r, c, 0, -1);
    lemma_slide_squares(bv, team, r, c, 0, 1);
    lemma_append_squares(s1, s2, part1, part2);
    let upto2 = |x: int, y: int| part1(x, y) || part2(x, y);
    lemma_append_squares(s1 + s2, s3, upto2, part3);
    let upto3 = |x: int, y: int| upto2(x, y) || part3(x, y);
    lemma_append_squares(s1 + s2 + s3, s4, upto3, part4);
    let upto4 = |x: int, y: int| upto3(x, y) || part4(x, y);
    lemma_all_squares_weaken(s1 + s2 + s3 + s4, upto4, |x: int, y: int| ((x == r) != (y == c)) && team_at(bv, x, y) != team);
}

proof fn lemma_bishop_squares(bv: Seq<Seq<Tile>>, team: Team, r: int, c: int)
    ensures
        all_squares(bishop_moves(bv, team, r, c), |x: int, y: int| (x != r && (x - r == y - c || x - r == c - y)) && team_at(bv, x, y) != team),
        bishop_moves(bv, team, r, c).no_duplicates(),
{
    let s1 = slide(bv, team, r, c, 1, -1);
    let s2 = slide(bv, team, r, c, 1, 1);
    let s3 = slide(bv, team, r, c, -1, -1);
    let s4 = slide(bv, team, r, c, -1, 1);
    let part1 = |x: int, y: int| on_half_line(r, c, 1, -1, x, y) && team_at(bv, x, y) != team;
    let part2 = |x: int, y: int| on_half_line(r, c, 1, 1, x, y) && team_at(bv, x, y) != team;
    let part3 = |x: int, y: int| on_half_line(r, c, -1, -1, x, y) && team_at(bv, x, y) != team;
    let part4 = |x: int, y: int| on_half_line(r, c, -1, 1, x, y) && team_at(bv, x, y) != team;
    lemma_slide_squares(bv, team, r, c, 1, -1);
    lemma_slide_squares(bv, team, r, c, 1, 1);
    lemma_slide_squares(bv, team, r, c, -1, -1);
    lemma_slide_squares(bv, team, r, c, -1, 1);
    lemma_append_squares(s1, s2, part1, part2);
    let upto2 = |x: int, y: int| part1(x, y) || part2(x, y);
    lemma_append_squares(s1 + s2, s3, upto2, part3);
    let upto3 = |x: int, y: int| upto2(x, y) || part3(x, y);
    lemma_append_squares(s1 + s2 + s3, s4, upto3, part4);
    let upto4 = |x: int, y: int| upto3(x, y) || part4(x, y);
    lemma_all_squares_weaken(
        s1 + s2 + s3 + s4,
        upto4,
        |x: int, y: int| (x != r && (x - r == y - c || x - r == c - y)) && team_at(bv, x, y) != team,
    );
}

proof fn lemma_knight_squares(bv: Seq<Seq<Tile>>, team: Team, r: int, c: int)
    ensures
        all_squares(knight_moves(bv, team, r, c), |x: int, y: int| team_at(bv, x, y) != team),
        knight_moves(bv, team, r, c).no_duplicates(),
{
    let t1 = step_square(bv, team, r + 2, c - 1);
    let t2 = step_square(bv, team, r + 2, c + 1);
    let t3 = step_square(bv, team, r - 2, c - 1);
    let t4 = step_square(bv, team, r - 2, c + 1);
    let t5 = step_square(bv, team, r + 1, c - 2);
    let t6 = step_square(bv, team, r - 1, c - 2);
    let t7 = step_square(bv, team, r + 1, c + 2);
    let t8 = step_square(bv, team, r - 1, c + 2);
    let part1 = |x: int, y: int| x == r + 2 && y == c - 1 && team_at(bv, x, y) != team;
    let part2 = |x: int, y: int| x == r + 2 && y == c + 1 && team_at(bv, x, y) != team;
    let part3 = |x: int, y: int| x == r - 2 && y == c - 1 && team_at(bv, x, y) != team;
    let part4 = |x: int, y: int| x == r - 2 && y == c + 1 && team_at(bv, x, y) != team;
    let part5 = |x: int, y: int| x == r + 1 && y == c - 2 && team_at(bv, x, y) != team;
    let part6 = |x: int, y: int| x == r - 1 && y == c - 2 && team_at(bv, x, y) != team;
    let part7 = |x: int, y: int| x == r + 1 && y == c + 2 && team_at(bv, x, y) != team;
    let part8 = |x: int, y: int| x == r - 1 && y == c + 2 && team_at(bv, x, y) != team;
    lemma_step_squares(bv, team, r + 2, c - 1);
    lemma_step_squares(bv, team, r + 2, c + 1);
    lemma_step_squares(bv, team, r - 2, c - 1);
    lemma_step_squares(bv, team, r - 2, c + 1);
    lemma_step_squares(bv, team, r + 1, c - 2);
    lemma_step_squares(bv, team, r - 1, c - 2);
    lemma_step_squares(bv, team, r + 1, c + 2);
    lemma_step_squares(bv, team, r - 1, c + 2);
    lemma_append_squares(t1, t2, part1, part2);
    let upto2 = |x: int, y: int| part1(x, y) || part2(x, y);
    lemma_append_squares(t1 + t2, t3, upto2, part3);
    let upto3 = |x: int, y: int| upto2(x, y) || part3(x, y);
    lemma_append_squares(t1 + t2 + t3, t4, upto3, part4);
    let upto4 = |x: int, y: int| upto3(x, y) || part4(x, y);
    lemma_append_squares(t1 + t2 + t3 + t4, t5, upto4, part5);
    let upto5 = |x: int, y: int| upto4(x, y) || part5(x, y);
    lemma_append_squares(t1 + t2 + t3 + t4 + t5, t6, upto5, part6);
    let upto6 = |x: int, y: int| upto5(x, y) || part6(x, y);
    lemma_append_squares(t1 + t2 + t3 + t4 + t5 + t6, t7, upto6, part7);
    let upto7 = |x: int, y: int| upto6(x, y) || part7(x, y);
    lemma_append_squares(t1 + t2 + t3 + t4 + t5 + t6 + t7, t8, upto7, part8);
    let upto8 = |x: int, y: int| upto7(x, y) || part8(x, y);
    lemma_all_squares_weaken(t1 + t2 + t3 + t4 + t5 + t6 + t7 + t8, upto8, |x: int, y: int| team_at(bv, x, y) != team);
}

proof fn lemma_king_squares(bv: Seq<Seq<Tile>>, team: Team, r: int, c: int)
    ensures
        all_squares(king_moves(bv, team, r, c), |x: int, y: int| team_at(bv, x, y) != team),
        king_moves(bv, team, r, c).no_duplicates(),
{
    let t1 = step_square(bv, team, r + 1, c);
    let t2 = step_square(bv, team, r + 1, c - 1);
    let t3 = step_square(bv, team, r + 1, c + 1);
    let t4 = step_square(bv, team, r - 1, c);
    let t5 = step_square(bv, team, r - 1, c - 1);
    let t6 = step_square(bv, team, r - 1, c + 1);
    let t7 = step_square(bv, team, r, c - 1);
    let t8 = step_square(bv, team, r, c + 1);
    let part1 = |x: int, y: int| x == r + 1 && y == c && team_at(bv, x, y) != team;
    let part2 = |x: int, y: int| x == r + 1 && y == c - 1 && team_at(bv, x, y) != team;
    let part3 = |x: int, y: int| x == r + 1 && y == c + 1 && team_at(bv, x, y) != team;
    let part4 = |x: int, y: int| x == r - 1 && y == c && team_at(bv, x, y) != team;
    let part5 = |x: int, y: int| x == r - 1 && y == c - 1 && team_at(bv, x, y) != team;
    let part6 = |x: int, y: int| x == r - 1 && y == c + 1 && team_at(bv, x, y) != team;
    let part7 = |x: int, y: int| x == r && y == c - 1 && team_at(bv, x, y) != team;
    let part8 = |x: int, y: int| x == r && y == c + 1 && team_at(bv, x, y) != team;
    lemma_step_squares(bv, team, r + 1, c);
    lemma_step_squares(bv, team, r + 1, c - 1);
    lemma_step_squares(bv, team, r + 1, c + 1);
    lemma_step_squares(bv, team, r - 1, c);
    lemma_step_squares(bv, team, r - 1, c - 1);
    lemma_step_squares(bv, team, r - 1, c + 1);
    lemma_step_squares(bv, team, r, c - 1);
    lemma_step_squares(bv, team, r, c + 1);
    lemma_append_squares(t1, t2, part1, part2);
    let upto2 = |x: int, y: int| part1(x, y) || part2(x, y);
    lemma_append_squares(t1 + t2, t3, upto2, part3);
    let upto3 = |x: int, y: int| upto2(x, y) || part3(x, y);
    lemma_append_squares(t1 + t2 + t3, t4, upto3, part4);
    let upto4 = |x: int, y: int| upto3(x, y) || part4(x, y);
    lemma_append_squares(t1 + t2 + t3 + t4, t5, upto4, part5);
    let upto5 = |x: int, y: int| upto4(x, y) || part5(x, y);
    lemma_append_squares(t1 + t2 + t3 + t4 + t5, t6, upto5, part6);
    let upto6 = |x: int, y: int| upto5(x, y) || part6(x, y);
    lemma_append_squares(t1 + t2 + t3 + t4 + t5 + t6, t7, upto6, part7);
    let upto7 = |x: int, y: int| upto6(x, y) || part7(x, y);
    lemma_append_squares(t1 + t2 + t3 + t4 + t5 + t6 + t7, t8, upto7, part8);
    let upto8 = |x: int, y: int| upto7(x, y) || part8(x, y);
    lemma_all_squares_weaken(t1 + t2 + t3 + t4 + t5 + t6 + t7 + t8, upto8, |x: int, y: int| team_at(bv, x, y) != team);
}

proof fn lemma_optional_square(cond: bool, a: int, b: int, p: spec_fn(int, int) -> bool)
    requires
        cond ==> on_board(a, b) && p(a, b),
    ensures
        all_squares(if cond { seq![pos_at(a, b)] } else { seq![] }, p),
        (if cond { seq![pos_at(a, b)] } else { seq![] }).no_duplicates(),
{
    if cond {
        lemma_pos_at_label(a, b);
    }
}

proof fn lemma_pawn_squares(bv: Seq<Seq<Tile>>, team: Team, r: int, c: int)
    requires
        on_board(r, c),
    ensures
        all_squares(pawn_moves(bv, team, r, c), |x: int, y: int| team != Team::Unoccupied ==> team_at(bv, x, y) != team),
        pawn_moves(bv, team, r, c).no_duplicates(),
{
    let d = pawn_dir(team);
    let f = r + d;
    if 0 <= f < 8 {
        let c2 = r == pawn_start(team) && team_at(bv, f, c) == Team::Unoccupied && team_at(bv, f + d, c) == Team::Unoccupied;
        let c1 = team_at(bv, f, c) == Team::Unoccupied;
        let cr = c < 7 && team_at(bv, f, c + 1) == opponent(team);
        let cl = c > 0 && team_at(bv, f, c - 1) == opponent(team);
        let two = if c2 { seq![pos_at(f + d, c)] } else { seq![] };
        let one = if c1 { seq![pos_at(f, c)] } else { seq![] };
        let right = if cr { seq![pos_at(f, c + 1)] } else { seq![] };
        let left = if cl { seq![pos_at(f, c - 1)] } else { seq![] };
        let part2 = |x: int, y: int| x == f + d && y == c && team_at(bv, x, y) == Team::Unoccupied;
        let part1 = |x: int, y: int| x == f && y == c && team_at(bv, x, y) == Team::Unoccupied;
        let pr = |x: int, y: int| x == f && y == c + 1 && team_at(bv, x, y) == opponent(team);
        let pl = |x: int, y: int| x == f && y == c - 1 && team_at(bv, x, y) == opponent(team);
        lemma_optional_square(c2, f + d, c, part2);
        lemma_optional_square(c1, f, c, part1);
        lemma_optional_square(cr, f, c + 1, pr);
        lemma_optional_square(cl, f, c - 1, pl);
        lemma_append_squares(two, one, part2, part1);
        let upto2 = |x: int, y: int| part2(x, y) || part1(x, y);
        lemma_append_squares(two + one, right, upto2, pr);
        let upto3 = |x: int, y: int| upto2(x, y) || pr(x, y);
        lemma_append_squares(two + one + right, left, upto3, pl);
        let upto4 = |x: int, y: int| upto3(x, y) || pl(x, y);
        assert(pawn_moves(bv, team, r, c) == two + one + right + left);
        lemma_all_squares_weaken(
            two + one + right + left,
            upto4,
            |x: int, y: int| team != Team::Unoccupied ==> team_at(bv, x, y) != team,
        );
    }
}

/// Destinations never repeat, always name squares of the board, and never
/// name a square held by the mover's own team.
pub proof fn lemma_moves_distinct_on_board(p: Piece, bv: Seq<Seq<Tile>>)
    requires
        valid_label(p.position.position_label),
    ensures
        piece_moves(p, bv).no_duplicates(),
        all_squares(piece_moves(p, bv), |x: int, y: int| p.team != Team::Unoccupied ==> team_at(bv, x, y) != p.team),
{
    let r = row_of(p.position.position_label);
    let c = col_of(p.position.position_label);
    let team = p.team;
    let s = piece_moves(p, bv);
    let goal = |x: int, y: int| team != Team::Unoccupied ==> team_at(bv, x, y) != team;
    match p.piece_type {
        PieceType::Rook => {
            lemma_rook_squares(bv, team, r, c);
            lemma_all_squares_weaken(s, |x: int, y: int| ((x == r) != (y == c)) && team_at(bv, x, y) != team, goal);
        },
        PieceType::Bishop => {
            lemma_bishop_squares(bv, team, r, c);
            lemma_all_squares_weaken(
                s,
                |x: int, y: int| (x != r && (x - r == y - c || x - r == c - y)) && team_at(bv, x, y) != team,
                goal,
            );
        },
        PieceType::Queen => {
            lemma_rook_squares(bv, team, r, c);
            lemma_bishop_squares(bv, team, r, c);
            let pr = |x: int, y: int| ((x == r) != (y == c)) && team_at(bv, x, y) != team;
            let pb = |x: int, y: int| (x != r && (x - r == y - c || x - r == c - y)) && team_at(bv, x, y) != team;
            lemma_append_squares(rook_moves(bv, team, r, c), bishop_moves(bv, team, r, c), pr, pb);
            lemma_all_squares_weaken(s, |x: int, y: int| pr(x, y) || pb(x, y), goal);
        },
        PieceType::Knight => {
            lemma_knight_squares(bv, team, r, c);
            lemma_all_squares_weaken(s, |x: int, y: int| team_at(bv, x, y) != team, goal);
        },
        PieceType::King => {
            lemma_king_squares(bv, team, r, c);
            lemma_all_squares_weaken(s, |x: int, y: int| team_at(bv, x, y) != team, goal);
        },
        PieceType::Pawn => {
            lemma_pawn_squares(bv, team, r, c);
            lemma_all_squares_weaken(s, |x: int, y: int| team != Team::Unoccupied ==> team_at(bv, x, y) != team, goal);
        },
    }
}

/// Every square of the board but `(r, c)` is empty.
pub open spec fn alone_on_board(bv: Seq<Seq<Tile>>, r: int, c: int) -> bool {
    forall|x: int, y: int| on_board(x, y) && (x != r || y != c) ==> #[trigger] team_at(bv, x, y) == Team::Unoccupied
}

/// The textbook rule: a piece of `kind` and `team` on `(r, c)` of an empty
/// board reaches `(x, y)`.
pub open spec fn textbook_square(kind: PieceType, team: Team, r: int, c: int, x: int, y: int) -> bool {
    let dx = x - r;
    let dy = y - c;
    let straight = (dx == 0) != (dy == 0);
    let diagonal = dx != 0 && (dx == dy || dx == -dy);
    match kind {
        PieceType::Rook => straight,
        PieceType::Bishop => diagonal,
        PieceType::Queen => straight || diagonal,
        PieceType::Knight => (abs(dx) == 1 && abs(dy) == 2) || (abs(dx) == 2 && abs(dy) == 1),
        PieceType::King => (dx != 0 || dy != 0) && abs(dx) <= 1 && abs(dy) <= 1,
        PieceType::Pawn => dy == 0 && (dx == pawn_dir(team) || (r == pawn_start(team) && dx == 2 * pawn_dir(team))),
    }
}

proof fn lemma_slide_on_empty_board(bv: Seq<Seq<Tile>>, team: Team, r: int, c: int, dr: int, dc: int)
    requires
        unit_dir(dr, dc),
        on_board(r, c),
        team != Team::Unoccupied,
        alone_on_board(bv, r, c),
    ensures
        forall|x: int, y: int|
            on_board(x, y) ==> (slide(bv, team, r, c, dr, dc).contains(#[trigger] pos_at(x, y)) <==> on_half_line(
                r,
                c,
                dr,
                dc,
                x,
                y,
            )),
{
    assert forall|x: int, y: int| on_board(x, y) && #[trigger] on_half_line(r, c, dr, dc, x, y) implies team_at(bv, x, y)
        == Team::Unoccupied by {
        lemma_half_line_step(r, c, dr, dc, x, y);
    }
    lemma_ray_on_empty_line(bv, team, r, c, dr, dc, 7);
}

proof fn lemma_step_contains(bv: Seq<Seq<Tile>>, team: Team, a: int, b: int, x: int, y: int)
    requires
        on_board(x, y),
    ensures
        step_square(bv, team, a, b).contains(pos_at(x, y)) <==> (on_board(a, b) && team_at(bv, a, b) != team && x == a
            && y == b),
{
    if step_square(bv, team, a, b).contains(pos_at(x, y)) {
        assert(step_square(bv, team, a, b)[0] == pos_at(x, y));
        lemma_pos_at_injective(x, y, a, b);
    }
    if on_board(a, b) && team_at(bv, a, b) != team && x == a && y == b {
        assert(step_square(bv, team, a, b)[0] == pos_at(x, y));
    }
}

proof fn lemma_single_contains(cond: bool, a: int, b: int, x: int, y: int)
    requires
        on_board(x, y),
        cond ==> on_board(a, b),
    ensures
        (if cond { seq![pos_at(a, b)] } else { seq![] }).contains(pos_at(x, y)) <==> (cond && x == a && y == b),
{
    if cond {
        let s = seq![pos_at(a, b)];
        assert(s[0] == pos_at(a, b));
        if s.contains(pos_at(x, y)) {
            lemma_pos_at_injective(x, y, a, b);
        }
    }
}

/// On a board where the piece stands alone, its destinations are exactly the
/// squares that the textbook rule for its kind gives from its square.
pub proof fn lemma_moves_on_empty_board(p: Piece, bv: Seq<Seq<Tile>>)
    requires
        valid_label(p.position.position_label),
        p.team != Team::Unoccupied,
        alone_on_board(bv, row_of(p.position.position_label), col_of(p.position.position_label)),
    ensures
        forall|x: int, y: int|
            on_board(x, y) ==> (piece_moves(p, bv).contains(#[trigger] pos_at(x, y)) <==> textbook_square(
                p.piece_type,
                p.team,
                row_of(p.position.position_label),
                col_of(p.position.position_label),
                x,
                y,
            )),
{
    let r = row_of(p.position.position_label);
    let c = col_of(p.position.position_label);
    let team = p.team;
    let kind = p.piece_type;
    assert forall|x: int, y: int| on_board(x, y) implies (piece_moves(p, bv).contains(#[trigger] pos_at(x, y))
        <==> textbook_square(kind, team, r, c, x, y)) by {
        let q = pos_at(x, y);
        if kind == PieceType::Rook || kind == PieceType::Queen || kind == PieceType::Bishop {
            lemma_slide_on_empty_board(bv, team, r, c, 1, 0);
            lemma_slide_on_empty_board(bv, team, r, c, -1, 0);
            lemma_slide_on_empty_board(bv, team, r, c, 0, -1);
            lemma_slide_on_empty_board(bv, team, r, c, 0, 1);
            lemma_slide_on_empty_board(bv, team, r, c, 1, -1);
            lemma_slide_on_empty_board(bv, team, r, c, 1, 1);
            lemma_slide_on_empty_board(bv, team, r, c, -1, -1);
            lemma_slide_on_empty_board(bv, team, r, c, -1, 1);
            let s1 = slide(bv, team, r, c, 1, 0);
            let s2 = slide(bv, team, r, c, -1, 0);
            let s3 = slide(bv, team, r, c, 0, -1);
            let s4 = slide(bv, team, r, c, 0, 1);
            let b1 = slide(bv, team, r, c, 1, -1);
            let b2 = slide(bv, team, r, c, 1, 1);
            let b3 = slide(bv, team, r, c, -1, -1);
            let b4 = slide(bv, team, r, c, -1, 1);
            lemma_concat_contains(s1, s2, q);
            lemma_concat_contains(s1 + s2, s3, q);
            lemma_concat_contains(s1 + s2 + s3, s4, q);
            lemma_concat_contains(b1, b2, q);
            lemma_concat_contains(b1 + b2, b3, q);
            lemma_concat_contains(b1 + b2 + b3, b4, q);
            lemma_concat_contains(rook_moves(bv, team, r, c), bishop_moves(bv, team, r, c), q);
        } else if kind == PieceType::Knight {
            let t1 = step_square(bv, team, r + 2, c - 1);
            let t2 = step_square(bv, team, r + 2, c + 1);
            let t3 = step_square(bv, team, r - 2, c - 1);
            let t4 = step_square(bv, team, r - 2, c + 1);
            let t5 = step_square(bv, team, r + 1, c - 2);
            let t6 = step_square(bv, team, r - 1, c - 2);
            let t7 = step_square(bv, team, r + 1, c + 2);
            let t8 = step_square(bv, team, r - 1, c + 2);
            lemma_step_contains(bv, team, r + 2, c - 1, x, y);
            lemma_step_contains(bv, team, r + 2, c + 1, x, y);
            lemma_step_contains(bv, team, r - 2, c - 1, x, y);
            lemma_step_contains(bv, team, r - 2, c + 1, x, y);
            lemma_step_contains(bv, team, r + 1, c - 2, x, y);
            lemma_step_contains(bv, team, r - 1, c - 2, x, y);
            lemma_step_contains(bv, team, r + 1, c + 2, x, y);
            lemma_step_contains(bv, team, r - 1, c + 2, x, y);
            lemma_concat_contains(t1, t2, q);
            lemma_concat_contains(t1 + t2, t3, q);
            lemma_concat_contains(t1 + t2 + t3, t4, q);
            lemma_concat_contains(t1 + t2 + t3 + t4, t5, q);
            lemma_concat_contains(t1 + t2 + t3 + t4 + t5, t6, q);
            lemma_concat_contains(t1 + t2 + t3 + t4 + t5 + t6, t7, q);
            lemma_concat_contains(t1 + t2 + t3 + t4 + t5 + t6 + t7, t8, q);
        } else if kind == PieceType::King {
            let t1 = step_square(bv, team, r + 1, c);
            let t2 = step_square(bv, team, r + 1, c - 1);
            let t3 = step_square(bv, team, r + 1, c + 1);
            let t4 = step_square(bv, team, r - 1, c);
            let t5 = step_square(bv, team, r - 1, c - 1);
            let t6 = step_square(bv, team, r - 1, c + 1);
            let t7 = step_square(bv, team, r, c - 1);
            let t8 = step_square(bv, team, r, c + 1);
            lemma_step_contains(bv, team, r + 1, c, x, y);
            lemma_step_contains(bv, team, r + 1, c - 1, x, y);
            lemma_step_contains(bv, team, r + 1, c + 1, x, y);
            lemma_step_contains(bv, team, r - 1, c, x, y);
            lemma_step_contains(bv, team, r - 1, c - 1, x, y);
            lemma_step_contains(bv, team, r - 1, c + 1, x, y);
            lemma_step_contains(bv, team, r, c - 1, x, y);
            lemma_step_contains(bv, team, r, c + 1, x, y);
            lemma_concat_contains(t1, t2, q);
            lemma_concat_contains(t1 + t2, t3, q);
            lemma_concat_contains(t1 + t2 + t3, t4, q);
            lemma_concat_contains(t1 + t2 + t3 + t4, t5, q);
            lemma_concat_contains(t1 + t2 + t3 + t4 + t5, t6, q);
            lemma_concat_contains(t1 + t2 + t3 + t4 + t5 + t6, t7, q);
            lemma_concat_contains(t1 + t2 + t3 + t4 + t5 + t6 + t7, t8, q);
        } else {
            let d = pawn_dir(team);
            let f = r + d;
            if 0 <= f < 8 {
                let c2 = r == pawn_start(team) && team_at(bv, f, c) == Team::Unoccupied && team_at(bv, f + d, c)
                    == Team::Unoccupied;
                let c1 = team_at(bv, f, c) == Team::Unoccupied;
                let cr = c < 7 && team_at(bv, f, c + 1) == opponent(team);
                let cl = c > 0 && team_at(bv, f, c - 1) == opponent(team);
                let two = if c2 { seq![pos_at(f + d, c)] } else { seq![] };
                let one = if c1 { seq![pos_at(f, c)] } else { seq![] };
                let right = if cr { seq![pos_at(f, c + 1)] } else { seq![] };
                let left = if cl { seq![pos_at(f, c - 1)] } else { seq![] };
                assert(!cr && !cl);
                lemma_single_contains(c2, f + d, c, x, y);
                lemma_single_contains(c1, f, c, x, y);
                lemma_single_contains(cr, f, c + 1, x, y);
                lemma_single_contains(cl, f, c - 1, x, y);
                lemma_concat_contains(two, one, q);
                lemma_concat_contains(two + one, right, q);
                lemma_concat_contains(two + one + right, left, q);
                assert(piece_moves(p, bv) == two + one + right + left);
            }
        }
    }
}

/// Generating twice for the same piece on the same board gives the same
/// list, in the same order.
pub proof fn lemma_generation_repeatable(p: Piece, board: Board, first: Seq<Position>, second: Seq<Position>)
    requires
        first == piece_moves(p, board_view(board)),
        second == piece_moves(p, board_view(board)),
    ensures
        first == second,
{
}

} // verus!
