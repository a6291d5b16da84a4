//! Sums and counts over the squares of the board, in row-major order.

use vstd::prelude::*;
use crate::board::{on_board, square_index, square_of_index, Square};

verus! {

/// The sum of `f` over the first `n` squares.
pub open spec fn sum_squares(f: spec_fn(Square) -> int, n: int) -> int
    decreases n,
{
    if n <= 0 {
        0
    } else {
        sum_squares(f, n - 1) + f(square_of_index(n - 1))
    }
}

/// 1 where `p` holds, 0 elsewhere.
pub open spec fn indicator(p: spec_fn(Square) -> bool) -> spec_fn(Square) -> int {
    |sq: Square|
        if p(sq) {
            1int
        } else {
            0int
        }
}

/// The number of squares among the first `n` on which `p` holds.
pub open spec fn count_squares(p: spec_fn(Square) -> bool, n: int) -> int {
    sum_squares(indicator(p), n)
}

/// Every square on the board is the square of its index, and the other way
/// round.
pub proof fn lemma_square_index_round_trip()
    ensures
        forall|sq: Square| on_board(sq) ==> #[trigger] square_of_index(square_index(sq)) == sq,
        forall|i: int|
            0 <= i < 64 ==> on_board(#[trigger] square_of_index(i)) && square_index(
                square_of_index(i),
            ) == i,
{
}

/// A sum over squares lies between the sums of its bounds.
pub proof fn lemma_sum_bounds(f: spec_fn(Square) -> int, lo: int, hi: int, n: int)
    requires
        0 <= n <= 64,
        forall|sq: Square| on_board(sq) ==> lo <= #[trigger] f(sq) <= hi,
    ensures
        n * lo <= sum_squares(f, n) <= n * hi,
    decreases n,
{
    if n > 0 {
        lemma_sum_bounds(f, lo, hi, n - 1);
        lemma_square_index_round_trip();
        assert(on_board(square_of_index(n - 1)));
        assert(n * lo == (n - 1) * lo + lo) by (nonlinear_arith);
        assert(n * hi == (n - 1) * hi + hi) by (nonlinear_arith);
    }
}

/// A sum over squares is no more than the sum of a function that is no less
/// on every square.
pub proof fn lemma_sum_monotone(f: spec_fn(Square) -> int, g: spec_fn(Square) -> int, n: int)
    requires
        0 <= n <= 64,
        forall|sq: Square| on_board(sq) ==> #[trigger] f(sq) <= g(sq),
    ensures
        sum_squares(f, n) <= sum_squares(g, n),
    decreases n,
{
    if n > 0 {
        lemma_sum_monotone(f, g, n - 1);
        lemma_square_index_round_trip();
        assert(on_board(square_of_index(n - 1)));
    }
}

/// The sum of a sum is the sum of the sums.
pub proof fn lemma_sum_add(
    f: spec_fn(Square) -> int,
    g: spec_fn(Square) -> int,
    h: spec_fn(Square) -> int,
    n: int,
)
    requires
        0 <= n <= 64,
        forall|sq: Square| on_board(sq) ==> #[trigger] h(sq) == f(sq) + g(sq),
    ensures
        sum_squares(h, n) == sum_squares(f, n) + sum_squares(g, n),
    decreases n,
{
    if n > 0 {
        lemma_sum_add(f, g, h, n - 1);
        lemma_square_index_round_trip();
        assert(on_board(square_of_index(n - 1)));
    }
}

/// A sum of a function scaled by a factor is the scaled sum.
pub proof fn lemma_sum_scaled(
    f: spec_fn(Square) -> int,
    g: spec_fn(Square) -> int,
    factor: int,
    n: int,
)
    requires
        0 <= n <= 64,
        forall|sq: Square| on_board(sq) ==> #[trigger] g(sq) == f(sq) * factor,
    ensures
        sum_squares(g, n) == sum_squares(f, n) * factor,
    decreases n,
{
    if n > 0 {
        lemma_sum_scaled(f, g, factor, n - 1);
        lemma_square_index_round_trip();
        assert(on_board(square_of_index(n - 1)));
        assert((sum_squares(f, n - 1) + f(square_of_index(n - 1))) * factor == sum_squares(
            f,
            n - 1,
        ) * factor + f(square_of_index(n - 1)) * factor) by (nonlinear_arith);
    }
}

/// Two functions that agree on every square but `a` and `b` have sums that
/// differ by what they differ on these two.
pub proof fn lemma_sum_differs_at_two(
    f: spec_fn(Square) -> int,
    g: spec_fn(Square) -> int,
    a: Square,
    b: Square,
    n: int,
)
    requires
        0 <= n <= 64,
        on_board(a),
        on_board(b),
        a != b,
        forall|sq: Square| on_board(sq) && sq != a && sq != b ==> #[trigger] f(sq) == g(sq),
    ensures
        sum_squares(f, n) - sum_squares(g, n) == (if square_index(a) < n {
            f(a) - g(a)
        } else {
            0
        }) + (if square_index(b) < n {
            f(b) - g(b)
        } else {
            0
        }),
    decreases n,
{
    if n > 0 {
        lemma_sum_differs_at_two(f, g, a, b, n - 1);
        lemma_square_index_round_trip();
        let sq = square_of_index(n - 1);
        assert(on_board(sq));
        if sq != a && sq != b {
            assert(f(sq) == g(sq));
        }
    }
}

/// A duplicate-free sequence that holds exactly the squares among the first
/// `n` on which `p` holds is as long as their count.
pub proof fn lemma_count_distinct(s: Seq<Square>, p: spec_fn(Square) -> bool, n: int)
    requires
        0 <= n <= 64,
        s.no_duplicates(),
        forall|sq: Square| #[trigger]
            s.contains(sq) <==> on_board(sq) && square_index(sq) < n && p(sq),
    ensures
        s.len() == count_squares(p, n),
    decreases n,
{
    if n == 0 {
        if s.len() > 0 {
            assert(s.contains(s[0]));
        }
    } else {
        lemma_square_index_round_trip();
        let last = square_of_index(n - 1);
        assert(on_board(last) && square_index(last) == n - 1);
        if p(last) {
            assert(s.contains(last));
            let j = choose|j: int| 0 <= j < s.len() && s[j] == last;
            let rest = s.remove(j);
            assert forall|sq: Square| #[trigger]
                rest.contains(sq) <==> on_board(sq) && square_index(sq) < n - 1 && p(sq) by {
                if rest.contains(sq) {
                    let k = choose|k: int| 0 <= k < rest.len() && rest[k] == sq;
                    if k < j {
                        assert(s[k] == sq);
                    } else {
                        assert(s[k + 1] == sq);
                    }
                    assert(s.contains(sq));
                    assert(sq != last);
                }
                if on_board(sq) && square_index(sq) < n - 1 && p(sq) {
                    assert(s.contains(sq));
                    let k = choose|k: int| 0 <= k < s.len() && s[k] == sq;
                    assert(k != j);
                    if k < j {
                        assert(rest[k] == sq);
                    } else {
                        assert(rest[k - 1] == sq);
                    }
                }
            }
            assert(rest.no_duplicates()) by {
                assert forall|a: int, b: int|
                    0 <= a < rest.len() && 0 <= b < rest.len() && a != b implies rest[a]
                    != rest[b] by {
                    let a2 = if a < j {
                        a
                    } else {
                        a + 1
                    };
                    let b2 = if b < j {
                        b
                    } else {
                        b + 1
                    };
                    assert(rest[a] == s[a2] && rest[b] == s[b2]);
                }
            }
            lemma_count_distinct(rest, p, n - 1);
        } else {
            lemma_count_distinct(s, p, n - 1);
        }
    }
}

} // verus!
