//! A player's move in a lobby: reading the move's coordinates from the
//! message, then playing it as the hunter, the mouse or the computer mouse.
use vstd::prelude::*;

use crate::board::{
    BLOCK, EXIT, FREE, MOUSE, adjacent, blocked, blocked_safe, empty_board, first_index,
    initial_board, lemma_first_index, lemma_mouse_move_well_formed, make_move, make_move_is_safe,
    mouse_at, mouse_block, mouse_block_is_safe, mouse_move, mouse_move_safe, valid_move,
    valid_move_is_safe, valid_move_safe, well_formed,
};
use crate::board::{
    cornered, count, lemma_blocked_iff_cornered, lemma_mouse_move_keeps_blocks, lemma_near_iff,
};
use crate::client::two_digits;
use crate::lobby::{Addr, Lobby, LobbyView, find_player, lemma_find_player, model};

verus! {

/// What `char::is_numeric` answers for `c`: whether `c` is in one of the
/// Unicode general categories of numbers (Nd, Nl, No).
pub uninterp spec fn char_numeric(c: char) -> bool;

/// Calls `char::is_numeric`. Trusted: the answer is `char_numeric(c)`, and for
/// an ASCII character it is `true` exactly for the digits `0` to `9` (the only
/// ASCII characters in those categories). For other characters nothing more is
/// stated: the answer comes from the Unicode tables.
#[verifier::external_body]
fn is_numeric(c: char) -> (r: bool)
    ensures
        r == char_numeric(c),
        (c as u32) < 128 ==> (r <==> ('0' <= c && c <= '9')),
{
    c.is_numeric()
}

/// Whether `c` counts as numeric: for an ASCII character, exactly the digits
/// `0` to `9`; for any other, as the Unicode tables say.
pub open spec fn numeric(c: char) -> bool {
    if (c as u32) < 128 {
        '0' <= c && c <= '9'
    } else {
        char_numeric(c)
    }
}

/// One character of a move's text read into the pair of numbers read so far:
/// a numeric character appends the digit its low byte stands for to the
/// second number; any other character moves the second number into the
/// first and starts the second afresh. `None` when the new second number does
/// not fit in a byte or the character's low byte lies below `'0'` (where the
/// byte arithmetic overflows).
pub open spec fn parse_step(st: Option<(u8, u8)>, c: char) -> Option<(u8, u8)> {
    match st {
        None => None,
        Some((n1, n2)) => {
            if numeric(c) {
                let d = (c as int) % 256 - 48;
                if d < 0 || n2 * 10 + d > 255 {
                    None
                } else {
                    Some((n1, (n2 * 10 + d) as u8))
                }
            } else {
                Some((n2, 0u8))
            }
        },
    }
}

/// The numbers read from the first `n` characters of a move's text.
pub open spec fn parse_prefix(cs: Seq<char>, n: int) -> Option<(u8, u8)>
    decreases n,
{
    if n <= 0 {
        Some((0u8, 0u8))
    } else {
        parse_step(parse_prefix(cs, n - 1), cs[n - 1])
    }
}

/// The (row, column) that a move's text names, or `None` where reading it
/// overflows a byte.
pub open spec fn parse_coords_spec(cs: Seq<char>) -> Option<(u8, u8)> {
    parse_prefix(cs, cs.len() as int)
}

/// Read the (row, column) of a move such as `"03 07"`: the two last numbers
/// of the text. `None` where the reading overflows a byte.
pub fn parse_coords(data: &str) -> (r: Option<(u8, u8)>)
    ensures
        r == parse_coords_spec(data@),
{
    let mut number1: u8 = 0;
    let mut number2: u8 = 0;
    let n = data.unicode_len();
    let mut i: usize = 0;
    while i < n
        invariant
            0 <= i <= n,
            n == data@.len(),
            parse_prefix(data@, i as int) == Some((number1, number2)),
        decreases n - i,
    {
        let c = data.get_char(i);
        if is_numeric(c) {
            let low: u32 = (c as u32) % 256;
            if low < 48 {
                assert(parse_prefix(data@, i + 1) is None);
                proof {
                    lemma_parse_stays_none(data@, i + 1);
                }
                return None;
            }
            let digit: u32 = low - 48;
            if (number2 as u32) * 10 + digit > 255 {
                proof {
                    lemma_parse_stays_none(data@, i + 1);
                }
                return None;
            }
            number2 = ((number2 as u32) * 10 + digit) as u8;
        } else {
            number1 = number2;
            number2 = 0;
        }
        i += 1;
    }
    Some((number1, number2))
}

/// Once reading a move's text has overflowed, it stays overflowed.
proof fn lemma_parse_stays_none(cs: Seq<char>, n: int)
    requires
        0 <= n <= cs.len(),
        parse_prefix(cs, n) is None,
    ensures
        parse_prefix(cs, cs.len() as int) is None,
    decreases cs.len() - n,
{
    if n < cs.len() {
        assert(parse_prefix(cs, n + 1) is None);
        lemma_parse_stays_none(cs, n + 1);
    }
}

/// The value of `v` as an `i8` after a wrapping cast.
pub open spec fn wrap_i8(v: int) -> int {
    if v < 128 {
        v
    } else {
        v - 256
    }
}

/// The mouse standing on `j` may step to `idx`: that cell is free or an exit
/// and, compared as `i8` positions, adjacent.
pub open spec fn mouse_step_ok(b: Seq<u8>, idx: int, j: int) -> bool {
    (b[idx] == FREE || b[idx] == EXIT) && adjacent(wrap_i8(j), wrap_i8(idx))
}

/// The first cell from `j` on that holds a mouse able to step to `idx`;
/// `169` when there is none.
pub open spec fn mouse_step(b: Seq<u8>, idx: int, j: int) -> int
    decreases 169 - j,
{
    if j < 0 || j >= 169 {
        169
    } else if b[j] == MOUSE && mouse_step_ok(b, idx, j) {
        j
    } else {
        mouse_step(b, idx, j + 1)
    }
}

/// Looking for the mouse's step to `idx` from cell `j` on computes only
/// values that fit in an `i8`.
pub open spec fn mouse_step_safe(b: Seq<u8>, idx: int, j: int) -> bool
    decreases 169 - j,
{
    if j < 0 || j >= 169 {
        true
    } else if b[j] != MOUSE {
        mouse_step_safe(b, idx, j + 1)
    } else {
        &&& (b[idx] == FREE || b[idx] == EXIT) ==> valid_move_safe(wrap_i8(j), wrap_i8(idx))
        &&& mouse_step_ok(b, idx, j) || mouse_step_safe(b, idx, j + 1)
    }
}

/// Lobby `l` after `player` (`1` hunter, `2` mouse) plays cell (`c.0`, `c.1`),
/// or, on the mouse's turn of a game against the computer, after the
/// computer mouse moves.
pub open spec fn lobby_step(l: LobbyView, player: u8, c: (u8, u8), computer: bool) -> LobbyView {
    let idx = c.0 * 13 + c.1;
    let b = l.board;
    if player == 1 && l.turn == 1 {
        if b[idx] == FREE {
            let nb = b.update(idx, BLOCK);
            LobbyView { board: nb, turn: 2, win: if blocked(nb) { 1 } else { l.win }, ..l }
        } else {
            l
        }
    } else if player == 2 && l.turn == 2 {
        let j = mouse_step(b, idx, 0);
        if j < 169 {
            LobbyView {
                board: b.update(j, FREE).update(idx, MOUSE),
                turn: 1,
                win: if b[idx] == EXIT { 2 } else { l.win },
                ..l
            }
        } else {
            l
        }
    } else if computer && l.turn == 2 {
        if mouse_at(b) < 169 {
            let (nb, d) = mouse_move(b);
            LobbyView {
                board: nb,
                turn: 1,
                win: if d == 2 {
                    2
                } else if d == 1 {
                    1
                } else {
                    l.win
                },
                ..l
            }
        } else {
            l
        }
    } else {
        l
    }
}

/// Playing in lobby `l` stays within the board and the byte arithmetic.
pub open spec fn lobby_step_safe(l: LobbyView, player: u8, c: (u8, u8), computer: bool) -> bool {
    let idx = c.0 * 13 + c.1;
    let b = l.board;
    if player == 1 && l.turn == 1 {
        idx < 169 && (b[idx] == FREE ==> blocked_safe(b.update(idx, BLOCK)))
    } else if player == 2 && l.turn == 2 {
        mouse_at(b) < 169 ==> (idx < 169 && mouse_step_safe(b, idx, 0))
    } else if computer && l.turn == 2 {
        mouse_move_safe(b)
    } else {
        true
    }
}

/// The lobbies after `a` plays cell `c`, and the board sent back: the board
/// of the first game `a` plays in, or a fresh board when it plays in none.
pub open spec fn game_spec(m: Seq<LobbyView>, a: Addr, player: u8, c: (u8, u8), computer: bool) -> (
    Seq<LobbyView>,
    Seq<u8>,
) {
    let k = find_player(m, a, 0);
    if k >= m.len() {
        (m, initial_board())
    } else {
        let nl = lobby_step(m[k], player, c, computer);
        (m.update(k, nl), nl.board)
    }
}

/// Playing cell `c` in the game of `a` stays within the board and the byte
/// arithmetic.
pub open spec fn game_safe(m: Seq<LobbyView>, a: Addr, player: u8, c: (u8, u8), computer: bool) -> bool {
    let k = find_player(m, a, 0);
    k < m.len() ==> lobby_step_safe(m[k], player, c, computer)
}

/// A byte index below 169 as the `i8` that a wrapping cast gives.
fn wrapped_i8(v: usize) -> (r: i8)
    requires
        v < 256,
    ensures
        r as int == wrap_i8(v as int),
{
    if v < 128 {
        v as i8
    } else {
        (v as i16 - 256) as i8
    }
}

/// Play cell (`number1`, `number2`) in lobby `l`.
fn play_turn(l: &mut Lobby, player: u8, number1: u8, number2: u8, computer: bool)
    requires
        lobby_step_safe(old(l)@, player, (number1, number2), computer),
    ensures
        final(l)@ == lobby_step(old(l)@, player, (number1, number2), computer),
{
    if player == 1 && l.turn == 1 {
        let index = number1 * 13 + number2;
        if l.board[index as usize] == 0 {
            l.board[index as usize] = 3;
            l.turn = 2;
            if mouse_block(l.board) {
                l.win = 1;
            }
        }
    } else if player == 2 && l.turn == 2 {
        let ghost b = l.board@;
        proof {
            lemma_first_index(b, MOUSE, 0);
        }
        let mut j: usize = 0;
        while j < 169
            invariant
                0 <= j <= 169,
                l.board@ == b,
                *l == *old(l),
                player == 2 && l.turn == 2,
                b.len() == 169,
                mouse_at(b) < 169 ==> (number1 * 13 + number2 < 169),
                mouse_step(b, number1 * 13 + number2, 0) == mouse_step(
                    b,
                    number1 * 13 + number2,
                    j as int,
                ),
                mouse_at(b) < 169 ==> mouse_step_safe(b, number1 * 13 + number2, j as int),
                mouse_at(b) <= 169,
                forall|q: int| 0 <= q < mouse_at(b) ==> b[q] != MOUSE,
            decreases 169 - j,
        {
            if l.board[j] == 2 {
                let index = number1 * 13 + number2;
                let s = wrapped_i8(j);
                let m = wrapped_i8(index as usize);
                if l.board[index as usize] == 0 && valid_move(s, m) {
                    l.board[j] = 0;
                    l.board[index as usize] = 2;
                    l.turn = 1;
                        return ;
                } else if l.board[index as usize] == 1 && valid_move(s, m) {
                    l.board[j] = 0;
                    l.board[index as usize] = 2;
                    l.turn = 1;
                    l.win = 2;
                    return ;
                }
            }
            j += 1;
        }
    } else if computer && l.turn == 2 {
        let ghost b = l.board@;
        let mut j: usize = 0;
        while j < 169
            invariant
                0 <= j <= 169,
                l.board@ == b,
                *l == *old(l),
                !(player == 1 && l.turn == 1),
                !(player == 2 && l.turn == 2),
                computer && l.turn == 2,
                b.len() == 169,
                mouse_move_safe(b),
                mouse_at(b) == first_index(b, MOUSE, j as int),
            decreases 169 - j,
        {
            if l.board[j] == 2 {
                let decision = make_move(&mut l.board);
                if decision == 2 {
                    l.win = 2;
                } else if decision == 1 {
                    l.win = 1;
                }
                l.turn = 1;
                return ;
            }
            j += 1;
        }
    }
}

/// Play a move for `addr` in the first game it plays in, as the hunter
/// (`player` 1), as the mouse (`player` 2) or, on the mouse's turn of a game
/// against the computer, by letting the computer mouse move. `data` names the
/// cell, as in `"03 07"`. Returns the game's board, or a fresh board when
/// `addr` plays in no game.
pub fn game(lobbys: &mut Vec<Lobby>, addr: Addr, player: u8, data: &str, computer: bool) -> (r: [u8;
    169])
    requires
        parse_coords_spec(data@) is Some,
        game_safe(
            model(old(lobbys)@),
            addr,
            player,
            parse_coords_spec(data@).unwrap(),
            computer,
        ),
    ensures
        (model(final(lobbys)@), r@) == game_spec(
            model(old(lobbys)@),
            addr,
            player,
            parse_coords_spec(data@).unwrap(),
            computer,
        ),
{
    let (number1, number2) = parse_coords(data).unwrap();
    if number1 < 1 && number1 > 11 && number2 < 1 && number2 > 11 {
        return empty_board();
    }
    let ghost m = model(lobbys@);
    let mut i: usize = 0;
    while i < lobbys.len()
        invariant
            0 <= i <= lobbys@.len(),
            m == model(lobbys@),
            m == model(old(lobbys)@),
            parse_coords_spec(data@) == Some((number1, number2)),
            game_safe(m, addr, player, (number1, number2), computer),
            find_player(m, addr, 0) == find_player(m, addr, i as int),
        decreases lobbys@.len() - i,
    {
        if lobbys[i].player1 == addr || lobbys[i].player2 == addr {
            let mut l = lobbys[i];
            play_turn(&mut l, player, number1, number2, computer);
            lobbys[i] = l;
            assert(model(lobbys@) =~= m.update(i as int, l@));
            return l.board;
        }
        i += 1;
    }
    empty_board()
}

/// Whether looking for the mouse's step to `index` stays within `i8`
/// arithmetic.
fn mouse_step_is_safe(board: &[u8; 169], index: usize) -> (r: bool)
    requires
        index < 169,
    ensures
        r == mouse_step_safe(board@, index as int, 0),
{
    let mut j: usize = 0;
    while j < 169
        invariant
            0 <= j <= 169,
            index < 169,
            board@.len() == 169,
            mouse_step_safe(board@, index as int, 0) == mouse_step_safe(board@, index as int, j as int),
        decreases 169 - j,
    {
        if board[j] == 2 && (board[index] == 0 || board[index] == 1) {
            let s = wrapped_i8(j);
            let m = wrapped_i8(index);
            if !valid_move_is_safe(s, m) {
                return false;
            }
            if valid_move(s, m) {
                return true;
            }
        }
        j += 1;
    }
    true
}

/// Whether playing cell (`number1`, `number2`) in lobby `l` stays within the
/// board and the byte arithmetic.
fn play_turn_is_safe(l: &Lobby, player: u8, number1: u8, number2: u8, computer: bool) -> (r: bool)
    ensures
        r == lobby_step_safe(l@, player, (number1, number2), computer),
{
    let index: u32 = (number1 as u32) * 13 + (number2 as u32);
    if player == 1 && l.turn == 1 {
        if index >= 169 {
            return false;
        }
        if l.board[index as usize] == 0 {
            let mut next = l.board;
            next[index as usize] = 3;
            assert(next@ =~= l.board@.update(index as int, BLOCK));
            mouse_block_is_safe(&next)
        } else {
            true
        }
    } else if player == 2 && l.turn == 2 {
        let ghost b = l.board@;
        let mut j: usize = 0;
        while j < 169
            invariant
                0 <= j <= 169,
                b == l.board@,
                b.len() == 169,
                player == 2 && l.turn == 2,
                index == number1 * 13 + number2,
                first_index(b, MOUSE, 0) == first_index(
                    b,
                    MOUSE,
                    j as int,
                ),
            decreases 169 - j,
        {
            if l.board[j] == 2 {
                if index >= 169 {
                    return false;
                }
                return mouse_step_is_safe(&l.board, index as usize);
            }
            j += 1;
        }
        true
    } else if computer && l.turn == 2 {
        make_move_is_safe(&l.board)
    } else {
        true
    }
}

/// Whether playing cell (`number1`, `number2`) for `addr` stays within the
/// board and the byte arithmetic.
pub fn game_is_safe(
    lobbys: &Vec<Lobby>,
    addr: Addr,
    player: u8,
    number1: u8,
    number2: u8,
    computer: bool,
) -> (r: bool)
    ensures
        r == game_safe(model(lobbys@), addr, player, (number1, number2), computer),
{
    let ghost m = model(lobbys@);
    let mut i: usize = 0;
    while i < lobbys.len()
        invariant
            0 <= i <= lobbys@.len(),
            m == model(lobbys@),
            find_player(m, addr, 0) == find_player(m, addr, i as int),
        decreases lobbys@.len() - i,
    {
        if lobbys[i].player1 == addr || lobbys[i].player2 == addr {
            return play_turn_is_safe(&lobbys[i], player, number1, number2, computer);
        }
        i += 1;
    }
    true
}

/// `mouse_step` finds the first mouse, from `j` on, that may step to `idx`.
pub proof fn lemma_mouse_step(b: Seq<u8>, idx: int, j: int)
    requires
        0 <= j <= 169,
    ensures
        j <= mouse_step(b, idx, j) <= 169,
        mouse_step(b, idx, j) < 169 ==> b[mouse_step(b, idx, j)] == MOUSE && mouse_step_ok(
            b,
            idx,
            mouse_step(b, idx, j),
        ),
    decreases 169 - j,
{
    if j < 169 && !(b[j] == MOUSE && mouse_step_ok(b, idx, j)) {
        lemma_mouse_step(b, idx, j + 1);
    }
}

/// Every board of the lobbies is well-formed.
pub open spec fn boards_well_formed(m: Seq<LobbyView>) -> bool {
    forall|k: int| 0 <= k < m.len() ==> well_formed(#[trigger] m[k].board)
}

/// A move keeps a well-formed board well-formed: the hunter only blocks a
/// free cell, and the mouse (a player or the computer) leaves its cell for
/// exactly one other.
pub proof fn lemma_step_well_formed(l: LobbyView, player: u8, c: (u8, u8), computer: bool)
    requires
        well_formed(l.board),
        lobby_step_safe(l, player, c, computer),
    ensures
        well_formed(lobby_step(l, player, c, computer).board),
{
    let b = l.board;
    let idx = c.0 * 13 + c.1;
    lemma_first_index(b, MOUSE, 0);
    let w = choose|w: int|
        0 <= w < 169 && b[w] == MOUSE && forall|q: int| 0 <= q < 169 && q != w ==> b[q] != MOUSE;
    assert(mouse_at(b) == w);
    let nb = lobby_step(l, player, c, computer).board;
    if player == 1 && l.turn == 1 {
        if b[idx] == FREE {
            assert(nb == b.update(idx, BLOCK));
            assert(nb[w] == MOUSE);
            assert forall|q: int| 0 <= q < 169 && q != w implies nb[q] != MOUSE by {
                if q != idx {
                    assert(nb[q] == b[q]);
                }
            }
        }
    } else if player == 2 && l.turn == 2 {
        lemma_mouse_step(b, idx, 0);
        let j = mouse_step(b, idx, 0);
        if j < 169 {
            assert(j == w);
            assert(nb == b.update(j, FREE).update(idx, MOUSE));
            assert(nb[idx] == MOUSE);
            assert forall|q: int| 0 <= q < 169 && q != idx implies nb[q] != MOUSE by {
                if q != j {
                    assert(nb[q] == b[q]);
                }
            }
        }
    } else if computer && l.turn == 2 {
        lemma_mouse_move_well_formed(b);
    }
}

/// Playing a move keeps every board of the lobbies well-formed.
pub proof fn lemma_game_well_formed(
    m: Seq<LobbyView>,
    a: Addr,
    player: u8,
    c: (u8, u8),
    computer: bool,
)
    requires
        boards_well_formed(m),
        game_safe(m, a, player, c, computer),
    ensures
        boards_well_formed(game_spec(m, a, player, c, computer).0),
{
    lemma_find_player(m, a, 0);
    let k = find_player(m, a, 0);
    if k < m.len() {
        lemma_step_well_formed(m[k], player, c, computer);
        let m2 = game_spec(m, a, player, c, computer).0;
        assert forall|q: int| 0 <= q < m2.len() implies well_formed(#[trigger] m2[q].board) by {
            if q != k {
                assert(m2[q] == m[q]);
            }
        }
    }
}

/// A player who moves out of turn changes nothing, unless the game is
/// against the computer and it is the mouse's turn: then the computer mouse
/// moves.
pub proof fn lemma_out_of_turn(l: LobbyView, player: u8, c: (u8, u8), computer: bool)
    requires
        player == 1 || player == 2,
        l.turn != player,
        !(computer && l.turn == 2),
    ensures
        lobby_step(l, player, c, computer) == l,
{
}

/// The hunter's move changes at most the cell it names, and only from free
/// to blocked; the turn then passes to the mouse.
pub proof fn lemma_hunter_blocks_free_cell(l: LobbyView, c: (u8, u8), computer: bool)
    requires
        l.turn == 1,
        c.0 * 13 + c.1 < 169,
        l.board.len() == 169,
    ensures
        ({
            let idx = c.0 * 13 + c.1;
            let nl = lobby_step(l, 1, c, computer);
            &&& forall|q: int| 0 <= q < 169 && q != idx ==> nl.board[q] == l.board[q]
            &&& nl.board[idx] == l.board[idx] || (l.board[idx] == FREE && nl.board[idx] == BLOCK)
            &&& nl.board != l.board ==> nl.turn == 2
        }),
{
}

/// The mouse player's move, when it happens, takes the mouse from its cell to
/// the named cell, which was free or an exit and is a neighbour of it; the
/// mouse wins by reaching an exit, and the turn passes to the hunter.
pub proof fn lemma_mouse_steps_to_neighbour(l: LobbyView, c: (u8, u8), computer: bool)
    requires
        l.turn == 2,
        l.board.len() == 169,
    ensures
        ({
            let idx = c.0 * 13 + c.1;
            let nl = lobby_step(l, 2, c, computer);
            nl != l ==> exists|j: int|
                0 <= j < 169 && l.board[j] == MOUSE && adjacent(wrap_i8(j), wrap_i8(idx)) && (
                l.board[idx] == FREE || l.board[idx] == EXIT) && nl.board == l.board.update(
                    j,
                    FREE,
                ).update(idx, MOUSE) && nl.turn == 1 && (l.board[idx] == EXIT ==> nl.win == 2)
        }),
{
    let idx = c.0 * 13 + c.1;
    lemma_mouse_step(l.board, idx, 0);
}

/// On the computer mouse's turn of a game against the computer: when its move
/// uses up an exit the mouse has escaped and wins; when it steps onto a free
/// cell the outcome stays as it was; when it is cornered it cannot move, the
/// board stays and the hunter wins. The turn passes to the hunter.
pub proof fn lemma_computer_turn_outcome(l: LobbyView, player: u8, c: (u8, u8))
    requires
        l.turn == 2,
        player != 2,
        well_formed(l.board),
        mouse_move_safe(l.board),
    ensures
        ({
            let nl = lobby_step(l, player, c, true);
            &&& nl.turn == 1
            &&& count(nl.board, EXIT) == count(l.board, EXIT) - 1 ==> nl.win == 2
            &&& count(nl.board, EXIT) == count(l.board, EXIT) && nl.board != l.board ==> nl.win
                == l.win
            &&& forall|p: int|
                0 <= p < 169 && l.board[p] == MOUSE && cornered(l.board, p) ==> nl.win == 1
                    && nl.board == l.board
        }),
{
    let b = l.board;
    lemma_first_index(b, MOUSE, 0);
    let w = choose|w: int|
        0 <= w < 169 && b[w] == MOUSE && forall|q: int| 0 <= q < 169 && q != w ==> b[q] != MOUSE;
    assert(mouse_at(b) == w);
    lemma_mouse_move_keeps_blocks(b);
    lemma_near_iff(b, w, EXIT);
    lemma_near_iff(b, w, FREE);
    assert forall|p: int| 0 <= p < 169 && b[p] == MOUSE implies p == w by {}
}

/// On the hunter's turn: once it blocks a cell, the hunter wins if the mouse
/// is cornered, and otherwise the outcome stays as it was; in particular a
/// mouse next to a free cell or an exit is never caught.
pub proof fn lemma_hunter_turn_outcome(l: LobbyView, c: (u8, u8), computer: bool)
    requires
        l.turn == 1,
        well_formed(l.board),
        lobby_step_safe(l, 1, c, computer),
    ensures
        ({
            let nl = lobby_step(l, 1, c, computer);
            forall|p: int|
                0 <= p < 169 && nl.board[p] == MOUSE ==> (cornered(nl.board, p) && nl.board
                    != l.board ==> nl.win == 1) && (!cornered(nl.board, p) ==> nl.win == l.win)
        }),
{
    let nl = lobby_step(l, 1, c, computer);
    lemma_step_well_formed(l, 1, c, computer);
    let nb = nl.board;
    lemma_first_index(nb, MOUSE, 0);
    let w = choose|w: int|
        0 <= w < 169 && nb[w] == MOUSE && forall|q: int| 0 <= q < 169 && q != w ==> nb[q] != MOUSE;
    assert(mouse_at(nb) == w);
    lemma_blocked_iff_cornered(nb);
    assert forall|p: int| 0 <= p < 169 && nb[p] == MOUSE implies p == w by {}
}

/// The text `"RR CC"` that names row `r` and column `c`, as characters.
pub open spec fn cell_text(r: int, c: int) -> Seq<char> {
    (two_digits(r) + seq![32u8] + two_digits(c)).map_values(|b: u8| b as char)
}

/// The text naming a row and a column, each written with two digits, reads
/// back as that row and column: every digit, `0` included, counts.
pub proof fn lemma_parse_cell_text(r: int, c: int)
    requires
        0 <= r <= 99,
        0 <= c <= 99,
    ensures
        parse_coords_spec(cell_text(r, c)) == Some((r as u8, c as u8)),
{
    reveal_with_fuel(parse_prefix, 6);
    let t = cell_text(r, c);
    assert(t.len() == 5);
    assert(t[0] as int == 48 + r / 10);
    assert(t[1] as int == 48 + r % 10);
    assert(t[2] as int == 32);
    assert(t[3] as int == 48 + c / 10);
    assert(t[4] as int == 48 + c % 10);
}

} // verus!
