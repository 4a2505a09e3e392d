//! The hex board of "catch the mouse" and the moves played on it.
//!
//! The board is a 13 x 13 grid stored row by row. Odd rows are drawn half a
//! cell to the right, so the six neighbours of a cell are the two cells beside
//! it and two cells in each of the rows above and below. The rim of the grid
//! holds exit cells (`1`); reaching one of them lets the mouse (`2`) escape.
//! Free cells are `0` and blocked cells `3`.
use vstd::prelude::*;

verus! {

/// A free cell.
pub const FREE: u8 = 0;

/// An exit cell on the rim of the board.
pub const EXIT: u8 = 1;

/// The cell the mouse stands on.
pub const MOUSE: u8 = 2;

/// A cell that the hunter has blocked.
pub const BLOCK: u8 = 3;

/// Whether cell `i` lies on the outer rim of the grid.
pub open spec fn on_rim(i: int) -> bool {
    i / 13 == 0 || i / 13 == 12 || i % 13 == 0 || i % 13 == 12
}

/// The value of cell `i` at the start of a game.
pub open spec fn initial_cell(i: int) -> u8 {
    if on_rim(i) {
        EXIT
    } else if i == 84 {
        MOUSE
    } else {
        FREE
    }
}

/// The board at the start of a game: exits on the rim, the mouse in the middle.
pub open spec fn initial_board() -> Seq<u8> {
    Seq::new(169, |i: int| initial_cell(i))
}

/// Whether `i` indexes a cell of the board.
pub open spec fn in_board(i: int) -> bool {
    0 <= i < 169
}

/// Whether position `s` lies in an odd row, as integer division rounding
/// towards zero computes it (a negative position counts as even).
pub open spec fn odd_row(s: int) -> bool {
    s >= 0 && (s / 13) % 2 == 1
}

/// The offsets of the six neighbours, in the order in which a neighbour test
/// looks at them.
pub open spec fn probe_order(odd: bool) -> Seq<int> {
    if odd {
        seq![13, -13, 1, -1, -12, 14]
    } else {
        seq![13, -13, 1, -1, -14, 12]
    }
}

/// The offsets of the six neighbours, in the order in which the computer
/// mouse tries them.
pub open spec fn escape_order(odd: bool) -> Seq<int> {
    if odd {
        seq![1, -1, 13, -13, 14, -12]
    } else {
        seq![1, -1, 13, -13, -14, 12]
    }
}

/// Whether `m` is one of the six neighbours of `s`.
pub open spec fn adjacent(s: int, m: int) -> bool {
    probe_order(odd_row(s)).contains(m - s)
}

/// Looking from the `k`-th offset on for a neighbour of `s` holding `m`, every
/// cell looked at lies on the board (the look stops at the first hit).
pub open spec fn scan_safe(b: Seq<u8>, s: int, offs: Seq<int>, m: u8, k: int) -> bool
    decreases offs.len() - k,
{
    if k < 0 || k >= offs.len() {
        true
    } else {
        in_board(s + offs[k]) && (b[s + offs[k]] == m || scan_safe(b, s, offs, m, k + 1))
    }
}

/// The first offset, from the `k`-th on, that leads from `s` to a cell holding
/// `m`; `offs.len()` when there is none.
pub open spec fn scan_first(b: Seq<u8>, s: int, offs: Seq<int>, m: u8, k: int) -> int
    decreases offs.len() - k,
{
    if k < 0 || k >= offs.len() {
        offs.len() as int
    } else if in_board(s + offs[k]) && b[s + offs[k]] == m {
        k
    } else {
        scan_first(b, s, offs, m, k + 1)
    }
}

/// The first index, from `i` on, whose cell holds `v`; `b.len()` when none does.
pub open spec fn first_index(b: Seq<u8>, v: u8, i: int) -> int
    decreases b.len() - i,
{
    if i < 0 || i >= b.len() {
        b.len() as int
    } else if b[i] == v {
        i
    } else {
        first_index(b, v, i + 1)
    }
}

/// Where the mouse stands: the first cell holding `2`, or `169` when none does.
pub open spec fn mouse_at(b: Seq<u8>) -> int {
    first_index(b, MOUSE, 0)
}

/// Whether some neighbour of `s`, in the neighbour test's order, holds `m`.
pub open spec fn near(b: Seq<u8>, s: int, m: u8) -> bool {
    scan_first(b, s, probe_order(odd_row(s)), m, 0) < 6
}

/// The neighbour test around `s` for value `m` stays on the board.
pub open spec fn near_safe(b: Seq<u8>, s: int, m: u8) -> bool {
    scan_safe(b, s, probe_order(odd_row(s)), m, 0)
}

/// The blocking test stays on the board: it looks for a free neighbour of the
/// mouse, then, if there is none, for an exit.
pub open spec fn blocked_safe(b: Seq<u8>) -> bool {
    let p = mouse_at(b);
    p < 169 ==> (near_safe(b, p, FREE) && (!near(b, p, FREE) ==> near_safe(b, p, EXIT)))
}

/// The mouse is caught: there is no mouse, or none of its neighbours is free
/// or an exit.
pub open spec fn blocked(b: Seq<u8>) -> bool {
    let p = mouse_at(b);
    p >= 169 || (!near(b, p, FREE) && !near(b, p, EXIT))
}

/// The computer mouse's move stays on the board: it looks for an exit among
/// the neighbours, then, if there is none, for a free one.
pub open spec fn mouse_move_safe(b: Seq<u8>) -> bool {
    let p = mouse_at(b);
    let offs = escape_order(odd_row(p));
    p < 169 ==> (scan_safe(b, p, offs, EXIT, 0) && (scan_first(b, p, offs, EXIT, 0) >= 6
        ==> scan_safe(b, p, offs, FREE, 0)))
}

/// The board after the computer mouse's move, and its outcome: `2` when it
/// stepped onto an exit, `0` when onto a free cell, `1` when it could not move.
pub open spec fn mouse_move(b: Seq<u8>) -> (Seq<u8>, u8) {
    let p = mouse_at(b);
    let offs = escape_order(odd_row(p));
    let k1 = scan_first(b, p, offs, EXIT, 0);
    let k0 = scan_first(b, p, offs, FREE, 0);
    if p >= 169 {
        (b, 1)
    } else if k1 < 6 {
        (b.update(p + offs[k1], MOUSE).update(p, FREE), 2)
    } else if k0 < 6 {
        (b.update(p + offs[k0], MOUSE).update(p, FREE), 0)
    } else {
        (b, 1)
    }
}

/// A board of 169 cells, each free, an exit, the mouse or blocked, with
/// exactly one mouse.
pub open spec fn well_formed(b: Seq<u8>) -> bool {
    &&& b.len() == 169
    &&& forall|i: int| 0 <= i < 169 ==> b[i] <= 3
    &&& exists|p: int| 0 <= p < 169 && b[p] == MOUSE && forall|q: int|
        0 <= q < 169 && q != p ==> b[q] != MOUSE
}

/// The board at the start of a game.
pub fn empty_board() -> (b: [u8; 169])
    ensures
        b@ == initial_board(),
{
    let b: [u8; 169] = [
        1, 1, 1, 1, 1, 1, 1, 1, 1, 1, 1, 1, 1, 1, 0, 0, 0, 0, 0, 0, 0, 0, 0, 0, 0, 1, 1, 0, 0, 0,
        0, 0, 0, 0, 0, 0, 0, 0, 1, 1, 0, 0, 0, 0, 0, 0, 0, 0, 0, 0, 0, 1, 1, 0, 0, 0, 0, 0, 0, 0,
        0, 0, 0, 0, 1, 1, 0, 0, 0, 0, 0, 0, 0, 0, 0, 0, 0, 1, 1, 0, 0, 0, 0, 0, 2, 0, 0, 0, 0, 0,
        1, 1, 0, 0, 0, 0, 0, 0, 0, 0, 0, 0, 0, 1, 1, 0, 0, 0, 0, 0, 0, 0, 0, 0, 0, 0, 1, 1, 0, 0,
        0, 0, 0, 0, 0, 0, 0, 0, 0, 1, 1, 0, 0, 0, 0, 0, 0, 0, 0, 0, 0, 0, 1, 1, 0, 0, 0, 0, 0, 0,
        0, 0, 0, 0, 0, 1, 1, 1, 1, 1, 1, 1, 1, 1, 1, 1, 1, 1, 1,
    ];
    assert(b@ =~= initial_board());
    b
}

/// Whether position `s` lies in an odd row; a negative position counts as even.
fn is_odd_row(s: i8) -> (r: bool)
    ensures
        r == odd_row(s as int),
{
    (s / 13) % 2 == 1
}

/// Looking from the `k`-th offset on for the neighbour `m` of position `s`,
/// every candidate `s + offs[k]` computed fits in an `i8` (the look stops at
/// the first hit).
pub open spec fn step_safe(s: int, m: int, offs: Seq<int>, k: int) -> bool
    decreases offs.len() - k,
{
    if k < 0 || k >= offs.len() {
        true
    } else {
        -128 <= s + offs[k] <= 127 && (m == s + offs[k] || step_safe(s, m, offs, k + 1))
    }
}

/// The move test from `s` to `m` computes only values that fit in an `i8`.
pub open spec fn valid_move_safe(s: int, m: int) -> bool {
    step_safe(s, m, probe_order(odd_row(s)), 0)
}

/// Whether cell `m` is a neighbour of cell `s`.
pub fn valid_move(s: i8, m: i8) -> (r: bool)
    requires
        valid_move_safe(s as int, m as int),
    ensures
        r == adjacent(s as int, m as int),
{
    proof {
        reveal_with_fuel(step_safe, 7);
    }
    let ghost offs = probe_order(odd_row(s as int));
    if is_odd_row(s) {
        m == s + 13 || m == s - 13 || m == s + 1 || m == s - 1 || m == s - 12 || m == s + 14
    } else {
        m == s + 13 || m == s - 13 || m == s + 1 || m == s - 1 || m == s - 14 || m == s + 12
    }
}

/// Whether some neighbour of cell `s` holds the value `m`.
pub fn around(s: usize, m: u8, board: [u8; 169]) -> (r: bool)
    requires
        near_safe(board@, s as int, m),
    ensures
        r == near(board@, s as int, m),
{
    proof {
        reveal_with_fuel(scan_safe, 7);
        reveal_with_fuel(scan_first, 7);
    }
    if (s / 13) % 2 == 1 {
        m == board[s + 13] || m == board[s - 13] || m == board[s + 1] || m == board[s - 1]
            || m == board[s - 12] || m == board[s + 14]
    } else {
        m == board[s + 13] || m == board[s - 13] || m == board[s + 1] || m == board[s - 1]
            || m == board[s - 14] || m == board[s + 12]
    }
}

/// Whether the mouse is caught: there is no mouse, or no neighbour of the
/// mouse is free or an exit.
pub fn mouse_block(board: [u8; 169]) -> (r: bool)
    requires
        blocked_safe(board@),
    ensures
        r == blocked(board@),
{
    let mut i: usize = 0;
    while i < 169
        invariant
            0 <= i <= 169,
            board@.len() == 169,
            first_index(board@, MOUSE, 0) == first_index(board@, MOUSE, i as int),
            blocked_safe(board@),
        decreases 169 - i,
    {
        if board[i] == 2 {
            return !(around(i, 0, board) || around(i, 1, board));
        }
        i += 1;
    }
    true
}

/// The computer mouse's move: step onto the first neighbouring exit, else
/// onto the first free neighbour. Returns `2` when the mouse escaped, `0`
/// when it moved, `1` when it is caught (or there is no mouse).
pub fn make_move(board: &mut [u8; 169]) -> (r: u8)
    requires
        mouse_move_safe(old(board)@),
    ensures
        (final(board)@, r) == mouse_move(old(board)@),
{
    let ghost b0 = board@;
    let mut i: usize = 0;
    while i < 169
        invariant
            0 <= i <= 169,
            board@ == b0,
            old(board)@ == b0,
            b0.len() == 169,
            first_index(b0, MOUSE, 0) == first_index(b0, MOUSE, i as int),
            mouse_move_safe(b0),
        decreases 169 - i,
    {
        if board[i] == 2 {
            proof {
                reveal_with_fuel(scan_safe, 7);
                reveal_with_fuel(scan_first, 7);
                assert(mouse_at(b0) == i as int);
                let offs = escape_order(odd_row(i as int));
                assert(offs[0] == 1 && offs[1] == -1 && offs.len() == 6);
            }
            if board[i + 1] == 1 {
                board[i + 1] = 2;
                board[i] = 0;
                return 2;
            } else if board[i - 1] == 1 {
                board[i - 1] = 2;
                board[i] = 0;
                return 2;
            } else if (i / 13) % 2 == 0 {
                if board[i + 13] == 1 {
                    board[i + 13] = 2;
                    board[i] = 0;
                    return 2;
                } else if board[i - 13] == 1 {
                    board[i - 13] = 2;
                    board[i] = 0;
                    return 2;
                } else if board[i - 14] == 1 {
                    board[i - 14] = 2;
                    board[i] = 0;
                    return 2;
                } else if board[i + 12] == 1 {
                    board[i + 12] = 2;
                    board[i] = 0;
                    return 2;
                } else if board[i + 1] == 0 {
                    board[i + 1] = 2;
                    board[i] = 0;
                    return 0;
                } else if board[i - 1] == 0 {
                    board[i - 1] = 2;
                    board[i] = 0;
                    return 0;
                } else if board[i + 13] == 0 {
                    board[i + 13] = 2;
                    board[i] = 0;
                    return 0;
                } else if board[i - 13] == 0 {
                    board[i - 13] = 2;
                    board[i] = 0;
                    return 0;
                } else if board[i - 14] == 0 {
                    board[i - 14] = 2;
                    board[i] = 0;
                    return 0;
                } else if board[i + 12] == 0 {
                    board[i + 12] = 2;
                    board[i] = 0;
                    return 0;
                } else {
                    return 1;
                }
            } else if board[i + 13] == 1 {
                board[i + 13] = 2;
                board[i] = 0;
                return 2;
            } else if board[i - 13] == 1 {
                board[i - 13] = 2;
                board[i] = 0;
                return 2;
            } else if board[i + 14] == 1 {
                board[i + 14] = 2;
                board[i] = 0;
                return 2;
            } else if board[i - 12] == 1 {
                board[i - 12] = 2;
                board[i] = 0;
                return 2;
            } else if board[i + 1] == 0 {
                board[i + 1] = 2;
                board[i] = 0;
                return 0;
            } else if board[i - 1] == 0 {
                board[i - 1] = 2;
                board[i] = 0;
                return 0;
            } else if board[i + 13] == 0 {
                board[i + 13] = 2;
                board[i] = 0;
                return 0;
            } else if board[i - 13] == 0 {
                board[i - 13] = 2;
                board[i] = 0;
                return 0;
            } else if board[i + 14] == 0 {
                board[i + 14] = 2;
                board[i] = 0;
                return 0;
            } else if board[i - 12] == 0 {
                board[i - 12] = 2;
                board[i] = 0;
                return 0;
            } else {
                return 1;
            }
        }
        i += 1;
    }
    1
}

/// The `k`-th neighbour offset in the neighbour test's order (`escape`
/// false) or in the computer mouse's order (`escape` true).
fn neighbour_offset(escape: bool, odd: bool, k: usize) -> (o: i32)
    requires
        k < 6,
    ensures
        escape ==> o == escape_order(odd)[k as int],
        !escape ==> o == probe_order(odd)[k as int],
{
    if escape {
        if k == 0 {
            1
        } else if k == 1 {
            -1
        } else if k == 2 {
            13
        } else if k == 3 {
            -13
        } else if k == 4 {
            if odd {
                14
            } else {
                -14
            }
        } else if odd {
            -12
        } else {
            12
        }
    } else {
        if k == 0 {
            13
        } else if k == 1 {
            -13
        } else if k == 2 {
            1
        } else if k == 3 {
            -1
        } else if k == 4 {
            if odd {
                -12
            } else {
                -14
            }
        } else if odd {
            14
        } else {
            12
        }
    }
}

/// Whether looking around cell `s` for value `m`, in the neighbour test's
/// order (`escape` false) or the computer mouse's (`escape` true), stays on
/// the board.
pub fn scan_is_safe(board: &[u8; 169], s: usize, escape: bool, m: u8) -> (r: bool)
    requires
        s < 169,
    ensures
        escape ==> r == scan_safe(board@, s as int, escape_order(odd_row(s as int)), m, 0),
        !escape ==> r == scan_safe(board@, s as int, probe_order(odd_row(s as int)), m, 0),
{
    let odd = (s / 13) % 2 == 1;
    let ghost offs = if escape {
        escape_order(odd_row(s as int))
    } else {
        probe_order(odd_row(s as int))
    };
    let mut k: usize = 0;
    while k < 6
        invariant
            0 <= k <= 6,
            s < 169,
            board@.len() == 169,
            odd == odd_row(s as int),
            offs == (if escape {
                escape_order(odd_row(s as int))
            } else {
                probe_order(odd_row(s as int))
            }),
            offs.len() == 6,
            scan_safe(board@, s as int, offs, m, 0) == scan_safe(board@, s as int, offs, m, k as int),
        decreases 6 - k,
    {
        let t = s as i32 + neighbour_offset(escape, odd, k);
        if t < 0 || t >= 169 {
            return false;
        }
        if board[t as usize] == m {
            return true;
        }
        k += 1;
    }
    true
}

/// Whether the blocking test stays on the board.
pub fn mouse_block_is_safe(board: &[u8; 169]) -> (r: bool)
    ensures
        r == blocked_safe(board@),
{
    let mut i: usize = 0;
    while i < 169
        invariant
            0 <= i <= 169,
            board@.len() == 169,
            first_index(board@, MOUSE, 0) == first_index(board@, MOUSE, i as int),
        decreases 169 - i,
    {
        if board[i] == 2 {
            if !scan_is_safe(board, i, false, 0) {
                return false;
            }
            if around(i, 0, *board) {
                return true;
            }
            return scan_is_safe(board, i, false, 1);
        }
        i += 1;
    }
    true
}

/// Whether the computer mouse's move stays on the board.
pub fn make_move_is_safe(board: &[u8; 169]) -> (r: bool)
    ensures
        r == mouse_move_safe(board@),
{
    let mut i: usize = 0;
    while i < 169
        invariant
            0 <= i <= 169,
            board@.len() == 169,
            first_index(board@, MOUSE, 0) == first_index(board@, MOUSE, i as int),
        decreases 169 - i,
    {
        if board[i] == 2 {
            if !scan_is_safe(board, i, true, 1) {
                return false;
            }
            if escape_hit(board, i, 1) {
                return true;
            }
            return scan_is_safe(board, i, true, 0);
        }
        i += 1;
    }
    true
}

/// Whether some neighbour of `s`, in the computer mouse's order, holds `m`.
fn escape_hit(board: &[u8; 169], s: usize, m: u8) -> (r: bool)
    requires
        s < 169,
        scan_safe(board@, s as int, escape_order(odd_row(s as int)), m, 0),
    ensures
        r == (scan_first(board@, s as int, escape_order(odd_row(s as int)), m, 0) < 6),
{
    let odd = (s / 13) % 2 == 1;
    let ghost offs = escape_order(odd_row(s as int));
    let mut k: usize = 0;
    while k < 6
        invariant
            0 <= k <= 6,
            s < 169,
            board@.len() == 169,
            odd == odd_row(s as int),
            offs == escape_order(odd_row(s as int)),
            scan_safe(board@, s as int, offs, m, k as int),
            scan_first(board@, s as int, offs, m, 0) == scan_first(board@, s as int, offs, m, k as int),
        decreases 6 - k,
    {
        let t = s as i32 + neighbour_offset(true, odd, k);
        if board[t as usize] == m {
            return true;
        }
        k += 1;
    }
    false
}

/// Whether the move test from `s` to `m` stays within `i8` arithmetic.
pub fn valid_move_is_safe(s: i8, m: i8) -> (r: bool)
    ensures
        r == valid_move_safe(s as int, m as int),
{
    let odd = is_odd_row(s);
    let ghost offs = probe_order(odd_row(s as int));
    let mut k: usize = 0;
    while k < 6
        invariant
            0 <= k <= 6,
            odd == odd_row(s as int),
            offs == probe_order(odd_row(s as int)),
            step_safe(s as int, m as int, offs, 0) == step_safe(s as int, m as int, offs, k as int),
        decreases 6 - k,
    {
        let t = s as i32 + neighbour_offset(false, odd, k);
        if t < -128 || t > 127 {
            return false;
        }
        if m as i32 == t {
            return true;
        }
        k += 1;
    }
    true
}

/// Whether `s` is a cell off the rim of the board.
pub open spec fn interior(s: int) -> bool {
    0 <= s < 169 && 1 <= s / 13 <= 11 && 1 <= s % 13 <= 11
}

/// `first_index` finds the first cell, from `i` on, that holds `v`.
pub proof fn lemma_first_index(b: Seq<u8>, v: u8, i: int)
    requires
        0 <= i <= b.len(),
    ensures
        i <= first_index(b, v, i) <= b.len(),
        first_index(b, v, i) < b.len() ==> b[first_index(b, v, i)] == v,
        forall|q: int| i <= q < first_index(b, v, i) ==> b[q] != v,
    decreases b.len() - i,
{
    if i < b.len() && b[i] != v {
        lemma_first_index(b, v, i + 1);
    }
}

/// Hex adjacency is symmetric: when `m` is a neighbour of a cell `s` off the
/// rim, `s` is a neighbour of `m`, so the mouse can always step back.
pub proof fn lemma_adjacent_symmetric(s: int, m: int)
    requires
        interior(s),
        adjacent(s, m),
    ensures
        adjacent(m, s),
{
    let back = probe_order(odd_row(m));
    if m - s == 13 {
        assert(odd_row(m) != odd_row(s));
        assert(back[1] == s - m);
    } else if m - s == -13 {
        assert(odd_row(m) != odd_row(s));
        assert(back[0] == s - m);
    } else if m - s == 1 {
        assert(odd_row(m) == odd_row(s));
        assert(back[3] == s - m);
    } else if m - s == -1 {
        assert(odd_row(m) == odd_row(s));
        assert(back[2] == s - m);
    } else if m - s == -12 {
        assert(odd_row(s) && !odd_row(m));
        assert(back[5] == s - m);
    } else if m - s == 14 {
        assert(odd_row(s) && !odd_row(m));
        assert(back[4] == s - m);
    } else if m - s == -14 {
        assert(!odd_row(s) && odd_row(m));
        assert(back[5] == s - m);
    } else {
        assert(m - s == 12);
        assert(!odd_row(s) && odd_row(m));
        assert(back[4] == s - m);
    }
}

/// The computer mouse finds no cell to step onto exactly when the blocking
/// test reports it caught: both look at the same six neighbours.
pub proof fn lemma_stuck_iff_blocked(b: Seq<u8>)
    requires
        b.len() == 169,
        mouse_at(b) < 169,
        blocked_safe(b),
        mouse_move_safe(b),
    ensures
        (mouse_move(b).1 == 1) <==> blocked(b),
{
    reveal_with_fuel(scan_safe, 7);
    reveal_with_fuel(scan_first, 7);
}

/// The computer mouse's move keeps a well-formed board well-formed: the mouse
/// leaves its cell and stands on exactly one other.
pub proof fn lemma_mouse_move_well_formed(b: Seq<u8>)
    requires
        well_formed(b),
        mouse_move_safe(b),
    ensures
        well_formed(mouse_move(b).0),
{
    lemma_first_index(b, MOUSE, 0);
    let p = mouse_at(b);
    let w = choose|w: int|
        0 <= w < 169 && b[w] == MOUSE && forall|q: int| 0 <= q < 169 && q != w ==> b[q] != MOUSE;
    assert(p == w);
    let offs = escape_order(odd_row(p));
    let k1 = scan_first(b, p, offs, EXIT, 0);
    let k0 = scan_first(b, p, offs, FREE, 0);
    lemma_scan_first(b, p, offs, EXIT, 0);
    lemma_scan_first(b, p, offs, FREE, 0);
    let nb = mouse_move(b).0;
    if k1 < 6 || k0 < 6 {
        let t = if k1 < 6 {
            p + offs[k1]
        } else {
            p + offs[k0]
        };
        assert(nb == b.update(t, MOUSE).update(p, FREE));
        assert(t != p);
        assert(nb[t] == MOUSE);
        assert forall|q: int| 0 <= q < 169 && q != t implies nb[q] != MOUSE by {
            if q != p {
                assert(nb[q] == b[q]);
            }
        }
    }
}

/// The starting board is well-formed: its only mouse stands in the middle.
pub proof fn lemma_initial_well_formed()
    ensures
        well_formed(initial_board()),
{
    let b = initial_board();
    assert(b[84] == MOUSE);
    assert forall|q: int| 0 <= q < 169 && q != 84 implies b[q] != MOUSE by {}
}

/// How many cells of `b` hold `v`.
pub open spec fn count(b: Seq<u8>, v: u8) -> int
    decreases b.len(),
{
    if b.len() == 0 {
        0
    } else {
        count(b.drop_last(), v) + if b.last() == v {
            1int
        } else {
            0int
        }
    }
}

/// Writing `x` into cell `i` changes the count of `v` by what left and what
/// came in.
pub proof fn lemma_count_update(b: Seq<u8>, i: int, x: u8, v: u8)
    requires
        0 <= i < b.len(),
    ensures
        count(b.update(i, x), v) == count(b, v) - (if b[i] == v {
            1int
        } else {
            0int
        }) + (if x == v {
            1int
        } else {
            0int
        }),
    decreases b.len(),
{
    let u = b.update(i, x);
    if i == b.len() - 1 {
        assert(u.drop_last() =~= b.drop_last());
    } else {
        assert(u.drop_last() =~= b.drop_last().update(i, x));
        lemma_count_update(b.drop_last(), i, x, v);
    }
}

/// The computer mouse's move leaves every block where it was, and takes
/// away one exit exactly when the mouse escapes onto it; all other exits stay.
pub proof fn lemma_mouse_move_keeps_blocks(b: Seq<u8>)
    requires
        well_formed(b),
        mouse_move_safe(b),
    ensures
        well_formed(mouse_move(b).0),
        forall|k: int| 0 <= k < 169 ==> (mouse_move(b).0[k] == BLOCK) == (b[k] == BLOCK),
        count(mouse_move(b).0, EXIT) == count(b, EXIT) - if mouse_move(b).1 == 2 {
            1int
        } else {
            0int
        },
{
    lemma_mouse_move_well_formed(b);
    lemma_first_index(b, MOUSE, 0);
    let p = mouse_at(b);
    let offs = escape_order(odd_row(p));
    let k1 = scan_first(b, p, offs, EXIT, 0);
    let k0 = scan_first(b, p, offs, FREE, 0);
    lemma_scan_first(b, p, offs, EXIT, 0);
    lemma_scan_first(b, p, offs, FREE, 0);
    if p < 169 && (k1 < 6 || k0 < 6) {
        let t = if k1 < 6 {
            p + offs[k1]
        } else {
            p + offs[k0]
        };
        let b1 = b.update(t, MOUSE);
        lemma_count_update(b, t, MOUSE, EXIT);
        lemma_count_update(b1, p, FREE, EXIT);
        assert(mouse_move(b).0 == b1.update(p, FREE));
    }
}

/// Some neighbour `t` of cell `p` on the board holds `m`.
pub open spec fn has_neighbour(b: Seq<u8>, p: int, m: u8) -> bool {
    exists|t: int| in_board(t) && adjacent(p, t) && b[t] == m
}

/// The mouse on cell `p` has nowhere to go: none of its neighbours on the
/// board is free or an exit.
pub open spec fn cornered(b: Seq<u8>, p: int) -> bool {
    !has_neighbour(b, p, FREE) && !has_neighbour(b, p, EXIT)
}

/// Both search orders look at the six neighbours, so either finds a
/// neighbour holding `m` exactly when there is one.
pub proof fn lemma_near_iff(b: Seq<u8>, p: int, m: u8)
    ensures
        near(b, p, m) <==> has_neighbour(b, p, m),
        (scan_first(b, p, escape_order(odd_row(p)), m, 0) < 6) <==> has_neighbour(b, p, m),
{
    reveal_with_fuel(scan_first, 7);
    let probe = probe_order(odd_row(p));
    let esc = escape_order(odd_row(p));
    lemma_scan_first(b, p, probe, m, 0);
    lemma_scan_first(b, p, esc, m, 0);
    if has_neighbour(b, p, m) {
        let t = choose|t: int| in_board(t) && adjacent(p, t) && b[t] == m;
        let j = choose|j: int| 0 <= j < probe.len() && probe[j] == t - p;
        assert(j == 0 || j == 1 || j == 2 || j == 3 || j == 4 || j == 5);
    }
    let k = scan_first(b, p, probe, m, 0);
    if k < 6 {
        assert(probe[k] == (p + probe[k]) - p);
        assert(adjacent(p, p + probe[k]));
    }
    let e = scan_first(b, p, esc, m, 0);
    if e < 6 {
        let t = p + esc[e];
        assert(e == 0 || e == 1 || e == 2 || e == 3 || e == 4 || e == 5);
        if e == 0 {
            assert(probe[2] == t - p);
        } else if e == 1 {
            assert(probe[3] == t - p);
        } else if e == 2 {
            assert(probe[0] == t - p);
        } else if e == 3 {
            assert(probe[1] == t - p);
        } else if e == 4 {
            if odd_row(p) {
                assert(probe[5] == t - p);
            } else {
                assert(probe[4] == t - p);
            }
        } else {
            if odd_row(p) {
                assert(probe[4] == t - p);
            } else {
                assert(probe[5] == t - p);
            }
        }
        assert(adjacent(p, t));
    }
}

/// The blocking test says "caught" exactly when the mouse is cornered (or
/// there is no mouse).
pub proof fn lemma_blocked_iff_cornered(b: Seq<u8>)
    ensures
        blocked(b) <==> (mouse_at(b) >= 169 || cornered(b, mouse_at(b))),
{
    lemma_near_iff(b, mouse_at(b), FREE);
    lemma_near_iff(b, mouse_at(b), EXIT);
}

/// `scan_first` reports the first offset leading to a cell holding `m`.
pub proof fn lemma_scan_first(b: Seq<u8>, s: int, offs: Seq<int>, m: u8, k: int)
    requires
        0 <= k <= offs.len(),
    ensures
        k <= scan_first(b, s, offs, m, k) <= offs.len(),
        scan_first(b, s, offs, m, k) < offs.len() ==> in_board(s + offs[scan_first(b, s, offs, m, k)])
            && b[s + offs[scan_first(b, s, offs, m, k)]] == m,
    decreases offs.len() - k,
{
    if k < offs.len() && !(in_board(s + offs[k]) && b[s + offs[k]] == m) {
        lemma_scan_first(b, s, offs, m, k + 1);
    }
}

} // verus!
