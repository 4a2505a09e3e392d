//! The server's side of one connection: each five-character message of a
//! client is turned into a change of the lobbies and the board sent back.
use vstd::prelude::*;

use crate::board::{empty_board, initial_board, lemma_initial_well_formed, well_formed};
use crate::game::{
    boards_well_formed, game, game_is_safe, game_safe, game_spec, lemma_game_well_formed,
    parse_coords, parse_coords_spec,
};
use crate::lobby::{
    Addr, Lobby, LobbyView, check_win, check_win_spec, computer_player, get_lobby, get_lobby_spec,
    host, host_spec, join, join_spec, lemma_find_open, model, remove_lobby, remove_spec, seated,
    spec_computer_player,
};

verus! {

/// What the server knows of one client: the seat it took (`0` none, `1`
/// hunter, `2` mouse) and whether its game is against the computer.
#[derive(Clone, Copy, Debug, PartialEq, Eq, Structural)]
pub struct Session {
    pub player: u8,
    pub computer: bool,
}

impl Session {
    /// A client that has not taken a seat yet.
    pub fn new() -> (s: Session)
        ensures
            s == (Session { player: 0, computer: false }),
    {
        Session { player: 0, computer: false }
    }
}

/// What the server does after a message: send a board back, send nothing,
/// or close the connection.
pub enum Reply {
    Send([u8; 169]),
    Silent,
    Close,
}

/// A reply as a mathematical value.
#[verifier::ext_equal]
pub enum ReplyView {
    Send(Seq<u8>),
    Silent,
    Close,
}

impl View for Reply {
    type V = ReplyView;

    open spec fn view(&self) -> ReplyView {
        match self {
            Reply::Send(b) => ReplyView::Send(b@),
            Reply::Silent => ReplyView::Silent,
            Reply::Close => ReplyView::Close,
        }
    }
}

/// A fresh board whose first cell carries a status code for the client.
pub open spec fn status_board(code: u8) -> Seq<u8> {
    initial_board().update(0, code)
}

/// After a board for `a` is ready: if `a`'s game is over, the first cell of
/// the board tells it whether it won (`3`) or lost (`4`), its seat is given
/// up and its games are closed.
pub open spec fn report_spec(m: Seq<LobbyView>, s: Session, a: Addr, b: Seq<u8>) -> (
    Seq<LobbyView>,
    Session,
    ReplyView,
) {
    let w = check_win_spec(m, a);
    let done = Session { player: 0, computer: false };
    if w == 1 {
        (remove_spec(m, a), done, ReplyView::Send(b.update(0, 3)))
    } else if w == 2 {
        (remove_spec(m, a), done, ReplyView::Send(b.update(0, 4)))
    } else {
        (m, s, ReplyView::Send(b))
    }
}

/// The message is a move: no command applies to it and the client has a seat.
pub open spec fn plays_move(s: Session, msg: Seq<char>) -> bool {
    &&& !(msg == "hosti"@ && s.player == 0)
    &&& !(msg == "joini"@ && s.player == 0)
    &&& !(s.player == 1 && msg == "start"@)
    &&& msg != "quiti"@
    &&& msg != "refrs"@
    &&& s.player != 0
}

/// Handling the message stays within the board and the byte arithmetic.
pub open spec fn message_safe(m: Seq<LobbyView>, s: Session, a: Addr, msg: Seq<char>) -> bool {
    plays_move(s, msg) ==> {
        &&& parse_coords_spec(msg) is Some
        &&& game_safe(m, a, s.player, parse_coords_spec(msg).unwrap(), s.computer)
    }
}

/// The lobbies, the client's session and the reply after message `msg` of
/// client `a`:
/// - `hosti` (without a seat): host a game as the hunter; a fresh board.
/// - `joini` (without a seat): take the mouse seat of the first open game;
///   a fresh board, or one marked `7` when no game is open.
/// - `start` (as the hunter): seat the computer as the mouse of the first open
///   game; a fresh board, or one marked `7`.
/// - `quiti`: close the client's games and the connection.
/// - `refrs`: the board of the client's game, reported as won or lost when
///   the game is over.
/// - any other message, with a seat: play it as a move; nothing is sent when
///   the board that comes back is a fresh one.
/// - any other message, without a seat: a fresh board.
pub open spec fn handle_spec(m: Seq<LobbyView>, s: Session, a: Addr, msg: Seq<char>) -> (
    Seq<LobbyView>,
    Session,
    ReplyView,
) {
    if msg == "hosti"@ && s.player == 0 {
        (host_spec(m, a), Session { player: 1, ..s }, ReplyView::Send(initial_board()))
    } else if msg == "joini"@ && s.player == 0 {
        let (m2, ok) = join_spec(m, a);
        (
            m2,
            Session { player: 2, ..s },
            ReplyView::Send(
                if ok {
                    initial_board()
                } else {
                    status_board(7)
                },
            ),
        )
    } else if s.player == 1 && msg == "start"@ {
        let (m2, ok) = join_spec(m, spec_computer_player());
        (
            m2,
            Session { computer: true, ..s },
            ReplyView::Send(
                if ok {
                    initial_board()
                } else {
                    status_board(7)
                },
            ),
        )
    } else if msg == "quiti"@ {
        (remove_spec(m, a), s, ReplyView::Close)
    } else if msg == "refrs"@ {
        report_spec(m, s, a, get_lobby_spec(m, a))
    } else if s.player != 0 {
        let (m2, b) = game_spec(m, a, s.player, parse_coords_spec(msg).unwrap(), s.computer);
        if b == initial_board() {
            (m2, s, ReplyView::Silent)
        } else {
            report_spec(m2, s, a, b)
        }
    } else {
        (m, s, ReplyView::Send(initial_board()))
    }
}

/// Whether two texts hold the same characters.
fn same_text(a: &str, b: &str) -> (r: bool)
    ensures
        r == (a@ == b@),
{
    let n = a.unicode_len();
    if n != b.unicode_len() {
        return false;
    }
    let mut i: usize = 0;
    while i < n
        invariant
            0 <= i <= n,
            n == a@.len(),
            n == b@.len(),
            forall|k: int| 0 <= k < i ==> a@[k] == b@[k],
        decreases n - i,
    {
        if a.get_char(i) != b.get_char(i) {
            return false;
        }
        i += 1;
    }
    assert(a@ =~= b@);
    true
}

/// Whether two boards hold the same cells.
fn same_board(a: &[u8; 169], b: &[u8; 169]) -> (r: bool)
    ensures
        r == (a@ == b@),
{
    let mut i: usize = 0;
    while i < 169
        invariant
            0 <= i <= 169,
            a@.len() == 169,
            b@.len() == 169,
            forall|k: int| 0 <= k < i ==> a@[k] == b@[k],
        decreases 169 - i,
    {
        if a[i] != b[i] {
            return false;
        }
        i += 1;
    }
    assert(a@ =~= b@);
    true
}

/// Send `board` to `addr`, marked won (`3`) or lost (`4`) when its game is
/// over, in which case the seat is given up and its games are closed.
fn report(lobbys: &mut Vec<Lobby>, session: &mut Session, addr: Addr, board: [u8; 169]) -> (r:
    Reply)
    ensures
        (model(final(lobbys)@), *final(session), r@) == report_spec(
            model(old(lobbys)@),
            *old(session),
            addr,
            board@,
        ),
{
    let mut board_response = board;
    let winning = check_win(lobbys, addr);
    if winning == 1 {
        board_response[0] = 3;
        session.player = 0;
        session.computer = false;
        remove_lobby(lobbys, addr);
        Reply::Send(board_response)
    } else if winning == 2 {
        board_response[0] = 4;
        session.player = 0;
        session.computer = false;
        remove_lobby(lobbys, addr);
        Reply::Send(board_response)
    } else {
        Reply::Send(board_response)
    }
}

/// Handle message `msg` of the client at `addr`; see `handle_spec`.
pub fn handle_message(lobbys: &mut Vec<Lobby>, session: &mut Session, addr: Addr, msg: &str) -> (r:
    Reply)
    requires
        message_safe(model(old(lobbys)@), *old(session), addr, msg@),
    ensures
        (model(final(lobbys)@), *final(session), r@) == handle_spec(
            model(old(lobbys)@),
            *old(session),
            addr,
            msg@,
        ),
{
    if same_text(msg, "hosti") && session.player == 0 {
        session.player = 1;
        host(lobbys, addr);
        Reply::Send(empty_board())
    } else if same_text(msg, "joini") && session.player == 0 {
        session.player = 2;
        let mut board_response = empty_board();
        if join(lobbys, addr) {
            Reply::Send(board_response)
        } else {
            board_response[0] = 7;
            Reply::Send(board_response)
        }
    } else if session.player == 1 && same_text(msg, "start") {
        session.computer = true;
        let mut board_response = empty_board();
        let computer_addr = computer_player();
        if join(lobbys, computer_addr) {
            Reply::Send(board_response)
        } else {
            board_response[0] = 7;
            Reply::Send(board_response)
        }
    } else if same_text(msg, "quiti") {
        remove_lobby(lobbys, addr);
        Reply::Close
    } else if same_text(msg, "refrs") {
        let board_response = get_lobby(lobbys, addr);
        report(lobbys, session, addr, board_response)
    } else if session.player != 0 {
        let board_response = game(lobbys, addr, session.player, msg, session.computer);
        if same_board(&board_response, &empty_board()) {
            Reply::Silent
        } else {
            report(lobbys, session, addr, board_response)
        }
    } else {
        Reply::Send(empty_board())
    }
}

/// Whether handling message `msg` stays within the board and the byte
/// arithmetic.
pub fn message_is_safe(lobbys: &Vec<Lobby>, session: &Session, addr: Addr, msg: &str) -> (r: bool)
    ensures
        r == message_safe(model(lobbys@), *session, addr, msg@),
{
    if same_text(msg, "hosti") && session.player == 0 {
        true
    } else if same_text(msg, "joini") && session.player == 0 {
        true
    } else if session.player == 1 && same_text(msg, "start") {
        true
    } else if same_text(msg, "quiti") {
        true
    } else if same_text(msg, "refrs") {
        true
    } else if session.player != 0 {
        match parse_coords(msg) {
            Some((number1, number2)) => game_is_safe(
                lobbys,
                addr,
                session.player,
                number1,
                number2,
                session.computer,
            ),
            None => false,
        }
    } else {
        true
    }
}

/// Handle message `msg` of the client at `addr` where that stays within the
/// board and the byte arithmetic; `None`, with nothing changed, where it
/// would not.
pub fn respond(lobbys: &mut Vec<Lobby>, session: &mut Session, addr: Addr, msg: &str) -> (r: Option<
    Reply,
>)
    ensures
        r is None <==> !message_safe(model(old(lobbys)@), *old(session), addr, msg@),
        r is None ==> final(lobbys)@ == old(lobbys)@ && *final(session) == *old(session),
        r matches Some(reply) ==> (model(final(lobbys)@), *final(session), reply@) == handle_spec(
            model(old(lobbys)@),
            *old(session),
            addr,
            msg@,
        ),
{
    if message_is_safe(lobbys, session, addr, msg) {
        Some(handle_message(lobbys, session, addr, msg))
    } else {
        None
    }
}

/// Closing the games of a player keeps the other boards as they were.
proof fn lemma_remove_well_formed(m: Seq<LobbyView>, a: Addr)
    requires
        boards_well_formed(m),
    ensures
        boards_well_formed(remove_spec(m, a)),
{
    let r = remove_spec(m, a);
    assert forall|q: int| 0 <= q < r.len() implies well_formed(#[trigger] r[q].board) by {
        assert(r.contains(r[q]));
        m.lemma_filter_contains_rev(|l: LobbyView| !seated(l, a), r[q]);
        let k = choose|k: int| 0 <= k < m.len() && m[k] == r[q];
        assert(well_formed(m[k].board));
    }
}

/// Seating a player in a game leaves every board as it was.
proof fn lemma_join_well_formed(m: Seq<LobbyView>, a: Addr)
    requires
        boards_well_formed(m),
    ensures
        boards_well_formed(join_spec(m, a).0),
{
    let m2 = join_spec(m, a).0;
    lemma_find_open(m, 0);
    assert forall|q: int| 0 <= q < m2.len() implies well_formed(#[trigger] m2[q].board) by {
        assert(m2[q].board == m[q].board);
    }
}

/// Whatever a client sends, every board the server keeps stays
/// well-formed: each holds exactly one mouse, and only free cells, exits and
/// blocks besides.
pub proof fn lemma_handle_well_formed(m: Seq<LobbyView>, s: Session, a: Addr, msg: Seq<char>)
    requires
        boards_well_formed(m),
        message_safe(m, s, a, msg),
    ensures
        boards_well_formed(handle_spec(m, s, a, msg).0),
{
    lemma_initial_well_formed();
    lemma_remove_well_formed(m, a);
    lemma_join_well_formed(m, a);
    lemma_join_well_formed(m, spec_computer_player());
    let h = host_spec(m, a);
    assert forall|q: int| 0 <= q < h.len() implies well_formed(#[trigger] h[q].board) by {
        if q < m.len() {
            assert(h[q] == m[q]);
        }
    }
    if plays_move(s, msg) {
        let c = parse_coords_spec(msg).unwrap();
        lemma_game_well_formed(m, a, s.player, c, s.computer);
        lemma_remove_well_formed(game_spec(m, a, s.player, c, s.computer).0, a);
    }
}

/// The reply and state after a board `b` for `a` is ready, given the
/// outcome `w` that `a`'s game reads for it in lobbies `m`: a win marks the
/// board's first cell `3`, a loss `4`; either way the session starts over and
/// every game of `a` is closed while the others stay. A running game sends
/// the board as it is.
pub open spec fn reports_outcome(
    m: Seq<LobbyView>,
    s: Session,
    a: Addr,
    b: Seq<u8>,
    after: (Seq<LobbyView>, Session, ReplyView),
) -> bool {
    let w = check_win_spec(m, a);
    let (m3, s3, r) = after;
    if w == 1 || w == 2 {
        &&& r == ReplyView::Send(b.update(0, if w == 1 { 3u8 } else { 4u8 }))
        &&& s3 == (Session { player: 0, computer: false })
        &&& forall|q: int| 0 <= q < m3.len() ==> !seated(#[trigger] m3[q], a)
        &&& forall|q: int| 0 <= q < m.len() && !seated(m[q], a) ==> m3.contains(#[trigger] m[q])
    } else {
        r == ReplyView::Send(b) && s3 == s && m3 == m
    }
}

/// Closing the games of `a` leaves none of them and keeps all others.
proof fn lemma_remove_closes(m: Seq<LobbyView>, a: Addr)
    ensures
        forall|q: int| 0 <= q < remove_spec(m, a).len() ==> !seated(#[trigger] remove_spec(m, a)[q], a),
        forall|q: int| 0 <= q < m.len() && !seated(m[q], a) ==> remove_spec(m, a).contains(#[trigger] m[q]),
{
    broadcast use vstd::seq_lib::group_filter_ensures;

    let keep = |l: LobbyView| !seated(l, a);
    assert forall|q: int| 0 <= q < remove_spec(m, a).len() implies !seated(#[trigger] remove_spec(m, a)[q], a) by {
        assert(keep(remove_spec(m, a)[q]));
    }
    assert forall|q: int| 0 <= q < m.len() && !seated(m[q], a) implies remove_spec(m, a).contains(#[trigger] m[q]) by {
        assert(keep(m[q]));
    }
}

/// After a move, its sender hears how its game stands: the board that the
/// move produced, marked `3` when the sender has won or `4` when it has lost
/// (its session then starts over and its games are closed); nothing when the
/// move found no game of the sender.
pub proof fn lemma_move_reports_outcome(m: Seq<LobbyView>, s: Session, a: Addr, msg: Seq<char>)
    requires
        plays_move(s, msg),
        message_safe(m, s, a, msg),
    ensures
        ({
            let (m2, b) = game_spec(m, a, s.player, parse_coords_spec(msg).unwrap(), s.computer);
            let after = handle_spec(m, s, a, msg);
            &&& b == initial_board() ==> after.2 == ReplyView::Silent && after.0 == m2
            &&& b != initial_board() ==> reports_outcome(m2, s, a, b, after)
        }),
{
    let (m2, b) = game_spec(m, a, s.player, parse_coords_spec(msg).unwrap(), s.computer);
    lemma_remove_closes(m2, a);
}

/// A refresh tells its sender how its game stands, in the same way: its
/// board marked `3` or `4` once the game is over; the menu board, marked as
/// lost, when the sender has no game.
pub proof fn lemma_refresh_reports_outcome(m: Seq<LobbyView>, s: Session, a: Addr)
    ensures
        reports_outcome(m, s, a, get_lobby_spec(m, a), handle_spec(m, s, a, "refrs"@)),
{
    reveal_strlit("refrs");
    reveal_strlit("hosti");
    reveal_strlit("joini");
    reveal_strlit("start");
    reveal_strlit("quiti");
    assert("refrs"@[0] != "hosti"@[0]);
    assert("refrs"@[0] != "joini"@[0]);
    assert("refrs"@[1] != "start"@[1]);
    assert("refrs"@[0] != "quiti"@[0]);
    lemma_remove_closes(m, a);
}

} // verus!
