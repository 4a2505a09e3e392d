//! The server's lobbies: the games in progress, each between a hunter who
//! hosts it and a mouse who joins it (a player, or the computer).
use vstd::prelude::*;

use crate::board::{empty_board, initial_board};

verus! {

/// The network address of a player: an IPv4 or IPv6 socket address, its IP
/// address held as a number. Two addresses are the same player exactly when
/// all their fields agree.
#[derive(Clone, Copy, Debug, PartialEq, Eq, Structural)]
pub struct Addr {
    /// Whether this is an IPv6 address.
    pub v6: bool,
    /// The IP address, big-endian, as a number.
    pub ip: u128,
    /// The port.
    pub port: u16,
    /// The IPv6 flow information (0 for IPv4).
    pub flowinfo: u32,
    /// The IPv6 scope id (0 for IPv4).
    pub scope_id: u32,
}

/// The address `0.0.0.0:0`, which marks a seat that nobody has taken.
pub open spec fn spec_no_player() -> Addr {
    Addr { v6: false, ip: 0, port: 0, flowinfo: 0, scope_id: 0 }
}

/// The address under which the computer takes the mouse's seat:
/// `1.1.1.1:1111`.
pub open spec fn spec_computer_player() -> Addr {
    Addr { v6: false, ip: 0x0101_0101, port: 1111, flowinfo: 0, scope_id: 0 }
}

/// The address `0.0.0.0:0`, which marks a seat that nobody has taken.
pub fn no_player() -> (a: Addr)
    ensures
        a == spec_no_player(),
{
    Addr { v6: false, ip: 0, port: 0, flowinfo: 0, scope_id: 0 }
}

/// The address under which the computer takes the mouse's seat.
pub fn computer_player() -> (a: Addr)
    ensures
        a == spec_computer_player(),
{
    Addr { v6: false, ip: 0x0101_0101, port: 1111, flowinfo: 0, scope_id: 0 }
}

/// A game in progress: the hunter (`player1`), the mouse (`player2`), the
/// board, whose turn it is (`1` hunter, `2` mouse) and who has won (`0`
/// nobody yet, `1` the hunter, `2` the mouse).
#[derive(Clone, Copy, Debug)]
pub struct Lobby {
    pub player1: Addr,
    pub player2: Addr,
    pub board: [u8; 169],
    pub turn: u8,
    pub win: u8,
}

/// A lobby as a mathematical value.
#[verifier::ext_equal]
pub struct LobbyView {
    pub player1: Addr,
    pub player2: Addr,
    pub board: Seq<u8>,
    pub turn: u8,
    pub win: u8,
}

impl View for Lobby {
    type V = LobbyView;

    open spec fn view(&self) -> LobbyView {
        LobbyView {
            player1: self.player1,
            player2: self.player2,
            board: self.board@,
            turn: self.turn,
            win: self.win,
        }
    }
}

/// The lobbies as mathematical values.
pub open spec fn model(ls: Seq<Lobby>) -> Seq<LobbyView> {
    ls.map_values(|l: Lobby| l@)
}

/// Whether `a` plays in lobby `l`.
pub open spec fn seated(l: LobbyView, a: Addr) -> bool {
    l.player1 == a || l.player2 == a
}

/// The first lobby, from `i` on, in which `a` plays; `m.len()` when none.
pub open spec fn find_player(m: Seq<LobbyView>, a: Addr, i: int) -> int
    decreases m.len() - i,
{
    if i < 0 || i >= m.len() {
        m.len() as int
    } else if seated(m[i], a) {
        i
    } else {
        find_player(m, a, i + 1)
    }
}

/// The first lobby, from `i` on, whose mouse seat is free; `m.len()` when none.
pub open spec fn find_open(m: Seq<LobbyView>, i: int) -> int
    decreases m.len() - i,
{
    if i < 0 || i >= m.len() {
        m.len() as int
    } else if m[i].player2 == spec_no_player() {
        i
    } else {
        find_open(m, i + 1)
    }
}

/// A new lobby hosted by `a`: the mouse seat is free, the board is fresh and
/// the hunter moves first.
pub open spec fn new_lobby(a: Addr) -> LobbyView {
    LobbyView { player1: a, player2: spec_no_player(), board: initial_board(), turn: 1, win: 0 }
}

/// The lobbies after `a` hosts a game.
pub open spec fn host_spec(m: Seq<LobbyView>, a: Addr) -> Seq<LobbyView> {
    m.push(new_lobby(a))
}

/// The lobbies after `a` asks to join a game, and whether it found a seat:
/// `a` takes the mouse seat of the first lobby where it is free.
pub open spec fn join_spec(m: Seq<LobbyView>, a: Addr) -> (Seq<LobbyView>, bool) {
    let k = find_open(m, 0);
    if k < m.len() {
        (m.update(k, LobbyView { player2: a, ..m[k] }), true)
    } else {
        (m, false)
    }
}

/// The outcome of the first game `a` plays in, seen from `a`: `1` won, `2`
/// lost, `0` still running. A player without a game reads as having lost.
pub open spec fn check_win_spec(m: Seq<LobbyView>, a: Addr) -> u8 {
    let k = find_player(m, a, 0);
    if k >= m.len() {
        2
    } else if m[k].player1 == a {
        if m[k].win == 1 {
            1
        } else if m[k].win == 2 {
            2
        } else {
            0
        }
    } else {
        if m[k].win == 1 {
            2
        } else if m[k].win == 2 {
            1
        } else {
            0
        }
    }
}

/// The board that the menu shows: a fresh board whose first cell reads `9`.
pub open spec fn menu_board() -> Seq<u8> {
    initial_board().update(0, 9)
}

/// The board of the first game `a` plays in, or the menu board.
pub open spec fn get_lobby_spec(m: Seq<LobbyView>, a: Addr) -> Seq<u8> {
    let k = find_player(m, a, 0);
    if k < m.len() {
        m[k].board
    } else {
        menu_board()
    }
}

/// The lobbies after every game that `a` plays in is closed.
pub open spec fn remove_spec(m: Seq<LobbyView>, a: Addr) -> Seq<LobbyView> {
    m.filter(|l: LobbyView| !seated(l, a))
}

/// Open a new game hosted by `addr`.
pub fn host(lobbys: &mut Vec<Lobby>, addr: Addr)
    ensures
        model(final(lobbys)@) == host_spec(model(old(lobbys)@), addr),
{
    let empty = no_player();
    lobbys.push(Lobby { player1: addr, player2: empty, board: empty_board(), turn: 1, win: 0 });
    assert(model(lobbys@) =~= host_spec(model(old(lobbys)@), addr));
}

/// The outcome, seen from `addr`, of the first game it plays in: `1` won,
/// `2` lost, `0` still running; `2` when it plays in none.
pub fn check_win(lobbys: &mut Vec<Lobby>, addr: Addr) -> (r: u8)
    ensures
        final(lobbys)@ == old(lobbys)@,
        r == check_win_spec(model(old(lobbys)@), addr),
{
    let ghost m = model(lobbys@);
    let mut i: usize = 0;
    while i < lobbys.len()
        invariant
            0 <= i <= lobbys@.len(),
            m == model(lobbys@),
            lobbys@ == old(lobbys)@,
            find_player(m, addr, 0) == find_player(m, addr, i as int),
        decreases lobbys@.len() - i,
    {
        if lobbys[i].player1 == addr {
            if lobbys[i].win == 1 {
                return 1;
            } else if lobbys[i].win == 2 {
                return 2;
            } else {
                return 0;
            }
        } else if lobbys[i].player2 == addr {
            if lobbys[i].win == 1 {
                return 2;
            } else if lobbys[i].win == 2 {
                return 1;
            } else {
                return 0;
            }
        }
        i += 1;
    }
    2
}

/// Seat `addr` as the mouse in the first game whose mouse seat is free.
/// Returns whether there was such a game.
pub fn join(lobbys: &mut Vec<Lobby>, addr: Addr) -> (r: bool)
    ensures
        (model(final(lobbys)@), r) == join_spec(model(old(lobbys)@), addr),
{
    let empty = no_player();
    let ghost m = model(lobbys@);
    let mut i: usize = 0;
    while i < lobbys.len()
        invariant
            0 <= i <= lobbys@.len(),
            m == model(lobbys@),
            m == model(old(lobbys)@),
            lobbys@ == old(lobbys)@,
            empty == spec_no_player(),
            find_open(m, 0) == find_open(m, i as int),
        decreases lobbys@.len() - i,
    {
        if lobbys[i].player2 == empty {
            let mut l = lobbys[i];
            l.player2 = addr;
            lobbys[i] = l;
            assert(model(lobbys@) =~= join_spec(m, addr).0);
            return true;
        }
        i += 1;
    }
    false
}

/// The board of the first game `addr` plays in; without one, the menu board
/// (a fresh board whose first cell reads `9`).
pub fn get_lobby(lobbys: &mut Vec<Lobby>, addr: Addr) -> (r: [u8; 169])
    ensures
        final(lobbys)@ == old(lobbys)@,
        r@ == get_lobby_spec(model(old(lobbys)@), addr),
{
    let ghost m = model(lobbys@);
    let mut i: usize = 0;
    while i < lobbys.len()
        invariant
            0 <= i <= lobbys@.len(),
            m == model(lobbys@),
            lobbys@ == old(lobbys)@,
            find_player(m, addr, 0) == find_player(m, addr, i as int),
        decreases lobbys@.len() - i,
    {
        if lobbys[i].player1 == addr || lobbys[i].player2 == addr {
            return lobbys[i].board;
        }
        i += 1;
    }
    let mut menu = empty_board();
    menu[0] = 9;
    menu
}

/// Close every game that `addr` plays in; the others keep their order.
pub fn remove_lobby(lobbys: &mut Vec<Lobby>, addr: Addr)
    ensures
        model(final(lobbys)@) == remove_spec(model(old(lobbys)@), addr),
{
    let ghost m = model(lobbys@);
    let ghost keep = |l: LobbyView| !seated(l, addr);
    let mut kept: Vec<Lobby> = Vec::new();
    let mut i: usize = 0;
    while i < lobbys.len()
        invariant
            0 <= i <= lobbys@.len(),
            m == model(lobbys@),
            m == model(old(lobbys)@),
            keep == (|l: LobbyView| !seated(l, addr)),
            model(kept@) == m.take(i as int).filter(keep),
        decreases lobbys@.len() - i,
    {
        let l = lobbys[i];
        proof {
            assert(m.take(i + 1) =~= m.take(i as int).push(l@));
            m.take(i as int).lemma_filter_push(l@, keep);
        }
        if l.player1 != addr && l.player2 != addr {
            kept.push(l);
        }
        assert(model(kept@) =~= m.take(i + 1).filter(keep));
        i += 1;
    }
    assert(m.take(i as int) =~= m);
    *lobbys = kept;
}

/// `find_player` finds the first game, from `i` on, that `a` plays in.
pub proof fn lemma_find_player(m: Seq<LobbyView>, a: Addr, i: int)
    requires
        0 <= i <= m.len(),
    ensures
        i <= find_player(m, a, i) <= m.len(),
        find_player(m, a, i) < m.len() ==> seated(m[find_player(m, a, i)], a),
        forall|q: int| i <= q < find_player(m, a, i) ==> !seated(m[q], a),
    decreases m.len() - i,
{
    if i < m.len() && !seated(m[i], a) {
        lemma_find_player(m, a, i + 1);
    }
}

/// `find_open` finds the first game, from `i` on, whose mouse seat is free.
pub proof fn lemma_find_open(m: Seq<LobbyView>, i: int)
    requires
        0 <= i <= m.len(),
    ensures
        i <= find_open(m, i) <= m.len(),
        find_open(m, i) < m.len() ==> m[find_open(m, i)].player2 == spec_no_player(),
        forall|q: int| i <= q < find_open(m, i) ==> m[q].player2 != spec_no_player(),
    decreases m.len() - i,
{
    if i < m.len() && m[i].player2 != spec_no_player() {
        lemma_find_open(m, i + 1);
    }
}

/// A player in no game finds none.
proof fn lemma_find_player_none(m: Seq<LobbyView>, a: Addr)
    requires
        forall|q: int| 0 <= q < m.len() ==> !seated(m[q], a),
    ensures
        find_player(m, a, 0) == m.len(),
{
    lemma_find_player(m, a, 0);
}

/// A player in no game who hosts one finds it running, with a fresh board.
pub proof fn lemma_host_then_refresh(m: Seq<LobbyView>, a: Addr)
    requires
        find_player(m, a, 0) == m.len(),
    ensures
        check_win_spec(host_spec(m, a), a) == 0,
        get_lobby_spec(host_spec(m, a), a) == initial_board(),
{
    let h = host_spec(m, a);
    lemma_find_player(m, a, 0);
    lemma_find_player(h, a, 0);
    let r = find_player(h, a, 0);
    assert(h[m.len() as int] == new_lobby(a));
    assert(seated(h[m.len() as int], a));
    if r < m.len() {
        assert(h[r] == m[r]);
    }
    assert(r == m.len());
}

/// Once a player leaves, none of its games remains: refreshing shows the
/// menu, and its outcome reads as lost.
pub proof fn lemma_remove_then_refresh(m: Seq<LobbyView>, a: Addr)
    ensures
        find_player(remove_spec(m, a), a, 0) == remove_spec(m, a).len(),
        check_win_spec(remove_spec(m, a), a) == 2,
        get_lobby_spec(remove_spec(m, a), a) == menu_board(),
{
    let keep = |l: LobbyView| !seated(l, a);
    let r = remove_spec(m, a);
    broadcast use vstd::seq_lib::group_filter_ensures;

    assert forall|q: int| 0 <= q < r.len() implies !seated(r[q], a) by {
        assert(keep(r[q]));
    }
    lemma_find_player_none(r, a);
}

/// When every game is full, a game that `a` hosts is the one that `b` joins
/// next, and both players then find that game, running, with a fresh board.
pub proof fn lemma_host_then_join(m: Seq<LobbyView>, a: Addr, b: Addr)
    requires
        forall|q: int| 0 <= q < m.len() ==> m[q].player2 != spec_no_player(),
        forall|q: int| 0 <= q < m.len() ==> !seated(m[q], a) && !seated(m[q], b),
    ensures
        join_spec(host_spec(m, a), b).1,
        join_spec(host_spec(m, a), b).0[m.len() as int] == (LobbyView {
            player1: a,
            player2: b,
            board: initial_board(),
            turn: 1,
            win: 0,
        }),
        find_player(join_spec(host_spec(m, a), b).0, a, 0) == m.len(),
        find_player(join_spec(host_spec(m, a), b).0, b, 0) == m.len(),
        check_win_spec(join_spec(host_spec(m, a), b).0, a) == 0,
        check_win_spec(join_spec(host_spec(m, a), b).0, b) == 0,
        get_lobby_spec(join_spec(host_spec(m, a), b).0, b) == initial_board(),
{
    let h = host_spec(m, a);
    lemma_find_open(h, 0);
    let k = find_open(h, 0);
    assert(h[m.len() as int].player2 == spec_no_player());
    if k < m.len() {
        assert(h[k] == m[k]);
    }
    assert(k == m.len());
    let j = join_spec(h, b).0;
    assert forall|q: int| 0 <= q < m.len() implies !seated(j[q], a) && !seated(j[q], b) by {
        assert(j[q] == m[q]);
    }
    assert(seated(j[m.len() as int], a) && seated(j[m.len() as int], b));
    lemma_find_player(j, a, 0);
    lemma_find_player(j, b, 0);
}

/// The two players of a game see opposite outcomes once it is over, and
/// both see it running before.
pub proof fn lemma_outcomes_opposite(m: Seq<LobbyView>, k: int)
    requires
        0 <= k < m.len(),
        m[k].player1 != m[k].player2,
        find_player(m, m[k].player1, 0) == k,
        find_player(m, m[k].player2, 0) == k,
    ensures
        m[k].win == 1 ==> check_win_spec(m, m[k].player1) == 1 && check_win_spec(m, m[k].player2)
            == 2,
        m[k].win == 2 ==> check_win_spec(m, m[k].player1) == 2 && check_win_spec(m, m[k].player2)
            == 1,
        m[k].win == 0 ==> check_win_spec(m, m[k].player1) == 0 && check_win_spec(m, m[k].player2)
            == 0,
{
}

} // verus!
