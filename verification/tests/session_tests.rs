use catch_mouse::board::empty_board;
use catch_mouse::lobby::{Addr, Lobby};
use catch_mouse::session::{handle_message, respond, Reply, Session};

fn addr(ip: u128, port: u16) -> Addr {
    Addr { v6: false, ip, port, flowinfo: 0, scope_id: 0 }
}

fn sent(r: Reply) -> [u8; 169] {
    match r {
        Reply::Send(b) => b,
        Reply::Silent => panic!("nothing sent"),
        Reply::Close => panic!("closed"),
    }
}

fn with_status(code: u8) -> [u8; 169] {
    let mut b = empty_board();
    b[0] = code;
    b
}

#[test]
fn a_whole_game_between_two_players() {
    let mut v: Vec<Lobby> = Vec::new();
    let (a, b) = (addr(1, 1), addr(2, 2));
    let (mut sa, mut sb) = (Session::new(), Session::new());
    assert_eq!(sent(handle_message(&mut v, &mut sa, a, "hosti")), empty_board());
    assert_eq!(sa.player, 1);
    assert_eq!(sent(handle_message(&mut v, &mut sb, b, "joini")), empty_board());
    assert_eq!(sb.player, 2);
    let board = sent(handle_message(&mut v, &mut sa, a, "03 07"));
    assert_eq!(board[46], 3);
    let board = sent(handle_message(&mut v, &mut sb, b, "refrs"));
    assert_eq!(board[46], 3);
    let board = sent(handle_message(&mut v, &mut sb, b, "06 07"));
    assert_eq!(board[85], 2);
    assert!(matches!(handle_message(&mut v, &mut sa, a, "quiti"), Reply::Close));
    assert!(v.is_empty());
}

#[test]
fn joining_without_open_game_is_marked_seven() {
    let mut v: Vec<Lobby> = Vec::new();
    let mut s = Session::new();
    assert_eq!(sent(handle_message(&mut v, &mut s, addr(2, 2), "joini")), with_status(7));
    assert_eq!(s.player, 2);
}

#[test]
fn start_seats_the_computer() {
    let mut v: Vec<Lobby> = Vec::new();
    let a = addr(1, 1);
    let mut s = Session::new();
    handle_message(&mut v, &mut s, a, "hosti");
    assert_eq!(sent(handle_message(&mut v, &mut s, a, "start")), empty_board());
    assert!(s.computer);
    assert_eq!(v[0].player2.port, 1111);
    // a second start finds no open game
    assert_eq!(sent(handle_message(&mut v, &mut s, a, "start")), with_status(7));
}

#[test]
fn the_winner_is_told_and_its_seat_given_up() {
    let mut v: Vec<Lobby> = Vec::new();
    let (a, b) = (addr(1, 1), addr(2, 2));
    let (mut sa, mut sb) = (Session::new(), Session::new());
    handle_message(&mut v, &mut sa, a, "hosti");
    handle_message(&mut v, &mut sb, b, "joini");
    for i in [97usize, 71, 85, 83, 70] {
        v[0].board[i] = 3;
    }
    let board = sent(handle_message(&mut v, &mut sa, a, "07 05"));
    assert_eq!(board[0], 3);
    assert_eq!(board[96], 3);
    assert_eq!(sa, Session::new());
    assert!(v.is_empty());
    // the mouse's client now finds no game: a loss, and the menu board
    let board = sent(handle_message(&mut v, &mut sb, b, "refrs"));
    assert_eq!(board[0], 4);
    assert_eq!(board[1..], empty_board()[1..]);
    assert_eq!(sb, Session::new());
}

#[test]
fn a_move_without_game_sends_nothing() {
    let mut v: Vec<Lobby> = Vec::new();
    let mut s = Session { player: 1, computer: false };
    assert!(matches!(handle_message(&mut v, &mut s, addr(1, 1), "03 07"), Reply::Silent));
}

#[test]
fn a_client_without_seat_gets_a_fresh_board() {
    let mut v: Vec<Lobby> = Vec::new();
    let mut s = Session::new();
    assert_eq!(sent(handle_message(&mut v, &mut s, addr(1, 1), "03 07")), empty_board());
    assert_eq!(s, Session::new());
    assert!(v.is_empty());
}

#[test]
fn respond_refuses_an_overflowing_move() {
    let mut v: Vec<Lobby> = Vec::new();
    let a = addr(1, 1);
    let mut s = Session::new();
    handle_message(&mut v, &mut s, a, "hosti");
    assert!(respond(&mut v, &mut s, a, "999 9").is_none());
    assert!(respond(&mut v, &mut s, a, "20 00").is_none());
    assert_eq!(v[0].board, empty_board());
    let r = respond(&mut v, &mut s, a, "03 07").unwrap();
    assert_eq!(sent(r)[46], 3);
}

#[test]
fn every_kept_board_has_one_mouse() {
    let mut v: Vec<Lobby> = Vec::new();
    let a = addr(1, 1);
    let mut s = Session::new();
    handle_message(&mut v, &mut s, a, "hosti");
    handle_message(&mut v, &mut s, a, "start");
    for cell in ["05 05", "x", "05 06", "x", "04 04", "x"] {
        if respond(&mut v, &mut s, a, cell).is_none() {
            break;
        }
        for l in &v {
            assert_eq!(l.board.iter().filter(|&&c| c == 2).count(), 1);
            assert!(l.board.iter().all(|&c| c <= 3));
        }
    }
}
