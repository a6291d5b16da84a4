//! Movement primitives shared by the pieces: single leaps and slides along a
//! line, as predicates on a position and as the routines that collect the
//! squares they reach.

use vstd::prelude::*;
use crate::board::{lemma_push_contains, on_board, Board, Color, Placement, Square};

pub mod amazon;
pub mod king;
pub mod qnc;
pub mod rook;

verus! {

/// Absolute value.
pub open spec fn magnitude(x: int) -> int {
    if x < 0 {
        -x
    } else {
        x
    }
}

/// Sign of an integer: -1, 0 or 1.
pub open spec fn sign(x: int) -> int {
    if x < 0 {
        -1
    } else if x > 0 {
        1
    } else {
        0
    }
}

/// Rows from `from` down to `to` (negative when `to` lies above).
pub open spec fn row_delta(from: Square, to: Square) -> int {
    to.0 - from.0
}

/// Columns from `from` right to `to` (negative when `to` lies to the left).
pub open spec fn col_delta(from: Square, to: Square) -> int {
    to.1 - from.1
}

/// Chebyshev distance: the number of king steps between two squares.
pub open spec fn distance(a: Square, b: Square) -> int {
    let dr = magnitude(row_delta(a, b));
    let dc = magnitude(col_delta(a, b));
    if dr >= dc {
        dr
    } else {
        dc
    }
}

/// One king step apart.
pub open spec fn king_step(from: Square, to: Square) -> bool {
    distance(from, to) == 1
}

/// A knight's leap apart: two along one axis, one along the other.
pub open spec fn knight_leap(from: Square, to: Square) -> bool {
    let dr = magnitude(row_delta(from, to));
    let dc = magnitude(col_delta(from, to));
    (dr == 2 && dc == 1) || (dr == 1 && dc == 2)
}

/// A camel's leap apart: three along one axis, one along the other.
pub open spec fn camel_leap(from: Square, to: Square) -> bool {
    let dr = magnitude(row_delta(from, to));
    let dc = magnitude(col_delta(from, to));
    (dr == 3 && dc == 1) || (dr == 1 && dc == 3)
}

/// Distinct squares on a common rank or file.
pub open spec fn rook_line(from: Square, to: Square) -> bool {
    from != to && (row_delta(from, to) == 0 || col_delta(from, to) == 0)
}

/// Distinct squares on a common rank, file or diagonal.
pub open spec fn queen_line(from: Square, to: Square) -> bool {
    from != to && (row_delta(from, to) == 0 || col_delta(from, to) == 0 || magnitude(
        row_delta(from, to),
    ) == magnitude(col_delta(from, to)))
}

/// The unit direction from `from` toward `to`, as (row step, column step).
pub open spec fn toward(from: Square, to: Square) -> (int, int) {
    (sign(row_delta(from, to)), sign(col_delta(from, to)))
}

/// The coordinate reached from `x` after `n` steps in direction `d`
/// (only the sign of `d` counts).
pub open spec fn advance(x: int, n: int, d: int) -> int {
    if d > 0 {
        x + n
    } else if d < 0 {
        x - n
    } else {
        x
    }
}

/// The square `n` steps from `from` in direction `dir`.
pub open spec fn ray_square(from: Square, dir: (int, int), n: int) -> Square {
    (advance(from.0 as int, n, dir.0) as u8, advance(from.1 as int, n, dir.1) as u8)
}

/// Every square strictly between `from` and `to` on their common line is empty.
pub open spec fn path_clear(grid: Placement, from: Square, to: Square) -> bool {
    forall|k: int|
        1 <= k < distance(from, to) ==> (#[trigger] grid.piece_at(
            ray_square(from, toward(from, to), k),
        )) is None
}

/// A piece of `color` may end a move on `to`: the square is on the board and
/// holds no piece of that colour.
pub open spec fn can_land(grid: Placement, to: Square, color: Color) -> bool {
    on_board(to) && !grid.holds_color(to, color)
}

/// A king of `color` on `from` reaches `to`.
pub open spec fn king_reaches(grid: Placement, from: Square, to: Square, color: Color) -> bool {
    king_step(from, to) && can_land(grid, to, color)
}

/// A knight of `color` on `from` reaches `to`.
pub open spec fn knight_reaches(grid: Placement, from: Square, to: Square, color: Color) -> bool {
    knight_leap(from, to) && can_land(grid, to, color)
}

/// A camel of `color` on `from` reaches `to`.
pub open spec fn camel_reaches(grid: Placement, from: Square, to: Square, color: Color) -> bool {
    camel_leap(from, to) && can_land(grid, to, color)
}

/// A rook of `color` on `from` reaches `to`: along a rank or file, over empty
/// squares only, onto a square it may land on.
pub open spec fn rook_reaches(grid: Placement, from: Square, to: Square, color: Color) -> bool {
    rook_line(from, to) && path_clear(grid, from, to) && can_land(grid, to, color)
}

/// A queen of `color` on `from` reaches `to`: along a rank, file or diagonal,
/// over empty squares only, onto a square it may land on.
pub open spec fn queen_reaches(grid: Placement, from: Square, to: Square, color: Color) -> bool {
    queen_line(from, to) && path_clear(grid, from, to) && can_land(grid, to, color)
}

/// A slide from `from` in direction `dir` reaches `to`.
pub open spec fn slides_to(
    grid: Placement,
    from: Square,
    color: Color,
    dir: (int, int),
    to: Square,
) -> bool {
    toward(from, to) == dir && queen_reaches(grid, from, to, color)
}

/// `to` lies on the line from `from` in direction `dir`.
pub open spec fn on_ray(from: Square, dir: (int, int), to: Square) -> bool {
    queen_line(from, to) && toward(from, to) == dir
}

/// A list of squares without duplicates, none of which lies on the line
/// from `from` in direction `dir`.
pub open spec fn distinct_off_ray(moves: Seq<Square>, from: Square, dir: (int, int)) -> bool {
    moves.no_duplicates() && forall|sq: Square| #[trigger] moves.contains(sq) ==> !on_ray(
        from,
        dir,
        sq,
    )
}

/// A leap by `offset` from `from` lands on `to`.
pub open spec fn leaps_to(
    grid: Placement,
    from: Square,
    color: Color,
    offset: (i8, i8),
    to: Square,
) -> bool {
    row_delta(from, to) == offset.0 && col_delta(from, to) == offset.1 && can_land(grid, to, color)
}

/// One of the leaps by `offsets` from `from` lands on `to`.
pub open spec fn some_leap_to(
    grid: Placement,
    from: Square,
    color: Color,
    offsets: Seq<(i8, i8)>,
    to: Square,
) -> bool {
    exists|j: int| 0 <= j < offsets.len() && leaps_to(grid, from, color, #[trigger] offsets[j], to)
}

/// A list of squares without duplicates, on none of which a leap by
/// `offsets` from `from` lands, and the offsets differ from each other.
pub open spec fn distinct_off_leaps(
    moves: Seq<Square>,
    grid: Placement,
    from: Square,
    color: Color,
    offsets: Seq<(i8, i8)>,
) -> bool {
    &&& moves.no_duplicates()
    &&& offsets.no_duplicates()
    &&& forall|sq: Square| #[trigger]
        moves.contains(sq) ==> !some_leap_to(grid, from, color, offsets, sq)
}

/// Walks from `from` in direction (`dr`, `dc`) and appends every square the
/// slide reaches: empty squares up to the first piece, and that piece's
/// square when it is an enemy.
pub(crate) fn slide_ray(
    moves: &mut Vec<Square>,
    board: &Board,
    from: Square,
    our_color: Color,
    dr: i8,
    dc: i8,
)
    requires
        on_board(from),
        -1 <= dr <= 1,
        -1 <= dc <= 1,
        dr != 0 || dc != 0,
    ensures
        forall|sq: Square| #[trigger]
            final(moves)@.contains(sq) <==> old(moves)@.contains(sq) || slides_to(
                board@.placement,
                from,
                our_color,
                (dr as int, dc as int),
                sq,
            ),
        distinct_off_ray(old(moves)@, from, (dr as int, dc as int))
            ==> final(moves)@.no_duplicates(),
{
    let ghost grid = board@.placement;
    let ghost dir = (dr as int, dc as int);
    let ghost fresh = distinct_off_ray(old(moves)@, from, dir);
    let mut row: i8 = from.0 as i8 + dr;
    let mut col: i8 = from.1 as i8 + dc;
    let mut steps: u8 = 1;
    while 0 <= row && row < 8 && 0 <= col && col < 8
        invariant
            on_board(from),
            -1 <= dr <= 1,
            -1 <= dc <= 1,
            dr != 0 || dc != 0,
            grid == board@.placement,
            dir == (dr as int, dc as int),
            1 <= steps <= 8,
            row == advance(from.0 as int, steps as int, dr as int),
            col == advance(from.1 as int, steps as int, dc as int),
            forall|k: int|
                1 <= k < steps ==> (#[trigger] grid.piece_at(ray_square(from, dir, k))) is None,
            forall|sq: Square| #[trigger]
                moves@.contains(sq) <==> old(moves)@.contains(sq) || (slides_to(
                    grid,
                    from,
                    our_color,
                    dir,
                    sq,
                ) && distance(from, sq) < steps),
            fresh == distinct_off_ray(old(moves)@, from, dir),
            fresh ==> moves@.no_duplicates(),
        decreases 8 - steps,
    {
        let to = (row as u8, col as u8);
        let ghost before = moves@;
        assert(to == ray_square(from, dir, steps as int));
        assert(on_ray(from, dir, to) && distance(from, to) == steps);
        assert(path_clear(grid, from, to));
        match board.get_piece(to) {
            None => {
                moves.push(to);
                proof {
                    lemma_push_contains(before, to);
                }
                row = row + dr;
                col = col + dc;
                steps = steps + 1;
            },
            Some(p) => {
                if p.color != our_color {
                    moves.push(to);
                    proof {
                        lemma_push_contains(before, to);
                    }
                }
                proof {
                    // Behind the piece the path is no longer clear.
                    assert forall|sq: Square| #[trigger]
                        moves@.contains(sq) <==> old(moves)@.contains(sq) || slides_to(
                            grid,
                            from,
                            our_color,
                            dir,
                            sq,
                        ) by {
                        if slides_to(grid, from, our_color, dir, sq) && distance(from, sq) > steps {
                            assert(grid.piece_at(ray_square(from, toward(from, sq), steps as int))
                                is None);
                        }
                    }
                }
                return ;
            },
        }
    }
}

/// Tests every offset once and appends the squares the leaps land on.
pub(crate) fn add_leaps(
    moves: &mut Vec<Square>,
    board: &Board,
    from: Square,
    our_color: Color,
    offsets: &[(i8, i8)],
)
    requires
        on_board(from),
        forall|j: int|
            0 <= j < offsets@.len() ==> -8 <= (#[trigger] offsets@[j]).0 <= 8 && -8
                <= offsets@[j].1 <= 8,
    ensures
        forall|sq: Square| #[trigger]
            final(moves)@.contains(sq) <==> old(moves)@.contains(sq) || some_leap_to(
                board@.placement,
                from,
                our_color,
                offsets@,
                sq,
            ),
        distinct_off_leaps(old(moves)@, board@.placement, from, our_color, offsets@)
            ==> final(moves)@.no_duplicates(),
{
    let ghost grid = board@.placement;
    let ghost fresh = distinct_off_leaps(old(moves)@, grid, from, our_color, offsets@);
    for i in 0..offsets.len()
        invariant
            on_board(from),
            grid == board@.placement,
            forall|j: int|
                0 <= j < offsets@.len() ==> -8 <= (#[trigger] offsets@[j]).0 <= 8 && -8
                    <= offsets@[j].1 <= 8,
            forall|sq: Square| #[trigger]
                moves@.contains(sq) <==> old(moves)@.contains(sq) || some_leap_to(
                    grid,
                    from,
                    our_color,
                    offsets@.take(i as int),
                    sq,
                ),
            fresh == distinct_off_leaps(old(moves)@, grid, from, our_color, offsets@),
            fresh ==> moves@.no_duplicates(),
    {
        let (dr, dc) = offsets[i];
        let new_row: i8 = from.0 as i8 + dr;
        let new_col: i8 = from.1 as i8 + dc;
        let ghost before = moves@;
        let ghost tried = offsets@.take(i as int);
        let ghost now = offsets@.take(i + 1);
        if new_row >= 0 && new_row < 8 && new_col >= 0 && new_col < 8 {
            let to = (new_row as u8, new_col as u8);
            let lands = match board.get_piece(to) {
                None => true,
                Some(p) => p.color != our_color,
            };
            if lands {
                proof {
                    lemma_push_contains(before, to);
                    assert(leaps_to(grid, from, our_color, offsets@[i as int], to));
                    // No earlier leap has landed on this square.
                    if fresh && before.contains(to) {
                        if old(moves)@.contains(to) {
                            assert(some_leap_to(grid, from, our_color, offsets@, to));
                        } else {
                            let j = choose|j: int|
                                0 <= j < tried.len() && leaps_to(
                                    grid,
                                    from,
                                    our_color,
                                    #[trigger] tried[j],
                                    to,
                                );
                            assert(offsets@[j] == offsets@[i as int]);
                        }
                    }
                }
                moves.push(to);
            }
        }
        proof {
            assert forall|sq: Square| #[trigger]
                moves@.contains(sq) <==> old(moves)@.contains(sq) || some_leap_to(
                    grid,
                    from,
                    our_color,
                    now,
                    sq,
                ) by {
                if some_leap_to(grid, from, our_color, tried, sq) {
                    let j = choose|j: int|
                        0 <= j < tried.len() && leaps_to(
                            grid,
                            from,
                            our_color,
                            #[trigger] tried[j],
                            sq,
                        );
                    assert(leaps_to(grid, from, our_color, now[j], sq));
                }
                if some_leap_to(grid, from, our_color, now, sq) {
                    let j = choose|j: int|
                        0 <= j < now.len() && leaps_to(
                            grid,
                            from,
                            our_color,
                            #[trigger] now[j],
                            sq,
                        );
                    if j < i {
                        assert(leaps_to(grid, from, our_color, tried[j], sq));
                    } else {
                        assert(now[j] == offsets@[i as int]);
                        assert(sq.0 == new_row && sq.1 == new_col);
                    }
                }
                if moves@.contains(sq) && !before.contains(sq) {
                    assert(leaps_to(grid, from, our_color, now[i as int], sq));
                }
            }
        }
    }
    proof {
        assert(offsets@.take(offsets@.len() as int) =~= offsets@);
    }
}

} // verus!
