use catch_mouse::board::empty_board;
use catch_mouse::game::{game, game_is_safe, parse_coords};
use catch_mouse::lobby::{
    check_win, computer_player, get_lobby, host, join, no_player, remove_lobby, Addr, Lobby,
};

fn addr(ip: u128, port: u16) -> Addr {
    Addr { v6: false, ip, port, flowinfo: 0, scope_id: 0 }
}

#[test]
fn host_opens_a_running_game_with_a_fresh_board() {
    let mut v: Vec<Lobby> = Vec::new();
    let a = addr(0x7f00_0001, 4000);
    host(&mut v, a);
    assert_eq!(v.len(), 1);
    assert_eq!(v[0].player1, a);
    assert_eq!(v[0].player2, no_player());
    assert_eq!(v[0].turn, 1);
    assert_eq!(v[0].win, 0);
    assert_eq!(check_win(&mut v, a), 0);
    assert_eq!(get_lobby(&mut v, a), empty_board());
}

#[test]
fn a_player_without_game_reads_as_lost_and_sees_the_menu() {
    let mut v: Vec<Lobby> = Vec::new();
    let a = addr(1, 1);
    assert_eq!(check_win(&mut v, a), 2);
    let b = get_lobby(&mut v, a);
    assert_eq!(b[0], 9);
    assert_eq!(&b[1..], &empty_board()[1..]);
}

#[test]
fn join_takes_the_first_open_mouse_seat() {
    let mut v: Vec<Lobby> = Vec::new();
    let (a, b, c, d) = (addr(1, 1), addr(2, 2), addr(3, 3), addr(4, 4));
    assert!(!join(&mut v, b));
    host(&mut v, a);
    host(&mut v, c);
    assert!(join(&mut v, b));
    assert_eq!(v[0].player2, b);
    assert_eq!(v[1].player2, no_player());
    assert!(join(&mut v, d));
    assert_eq!(v[1].player2, d);
    assert!(!join(&mut v, addr(5, 5)));
}

#[test]
fn the_computer_joins_under_its_own_address() {
    let mut v: Vec<Lobby> = Vec::new();
    host(&mut v, addr(1, 1));
    assert!(join(&mut v, computer_player()));
    assert_eq!(v[0].player2, Addr { v6: false, ip: 0x0101_0101, port: 1111, flowinfo: 0, scope_id: 0 });
}

#[test]
fn remove_lobby_closes_every_game_of_the_player_only() {
    let mut v: Vec<Lobby> = Vec::new();
    let (a, b, c) = (addr(1, 1), addr(2, 2), addr(3, 3));
    host(&mut v, a);
    host(&mut v, b);
    host(&mut v, c);
    // a takes the free mouse seat of its own game, the first open one
    assert!(join(&mut v, a));
    assert!(join(&mut v, a));
    assert_eq!(v[1].player2, a);
    remove_lobby(&mut v, a);
    assert_eq!(v.len(), 1);
    assert_eq!(v[0].player1, c);
    assert_eq!(check_win(&mut v, a), 2);
    assert_eq!(get_lobby(&mut v, a)[0], 9);
}

#[test]
fn players_of_a_finished_game_see_opposite_outcomes() {
    let mut v: Vec<Lobby> = Vec::new();
    let (a, b) = (addr(1, 1), addr(2, 2));
    host(&mut v, a);
    join(&mut v, b);
    assert_eq!((check_win(&mut v, a), check_win(&mut v, b)), (0, 0));
    v[0].win = 1;
    assert_eq!((check_win(&mut v, a), check_win(&mut v, b)), (1, 2));
    v[0].win = 2;
    assert_eq!((check_win(&mut v, a), check_win(&mut v, b)), (2, 1));
}

#[test]
fn parse_coords_reads_the_last_two_numbers() {
    assert_eq!(parse_coords("03 07"), Some((3, 7)));
    assert_eq!(parse_coords("12 11"), Some((12, 11)));
    assert_eq!(parse_coords(""), Some((0, 0)));
    assert_eq!(parse_coords("hosti"), Some((0, 0)));
    assert_eq!(parse_coords("1 2 3"), Some((2, 3)));
    assert_eq!(parse_coords("255"), Some((0, 255)));
}

#[test]
fn parse_coords_overflow_is_none() {
    assert_eq!(parse_coords("256"), None);
    assert_eq!(parse_coords("999 9"), None);
}

#[test]
fn parse_coords_on_other_numeric_characters_uses_their_low_byte() {
    // U+0663 ARABIC-INDIC DIGIT THREE: low byte 0x63 = 99, minus '0' is 51
    assert_eq!(parse_coords("\u{663}"), Some((0, 51)));
    // U+0F20 TIBETAN DIGIT ZERO: low byte 0x20 lies below '0'
    assert_eq!(parse_coords("\u{f20}"), None);
}

fn two_player_game() -> (Vec<Lobby>, Addr, Addr) {
    let mut v: Vec<Lobby> = Vec::new();
    let (a, b) = (addr(1, 1), addr(2, 2));
    host(&mut v, a);
    join(&mut v, b);
    (v, a, b)
}

#[test]
fn the_hunter_blocks_a_free_cell_and_passes_the_turn() {
    let (mut v, a, _b) = two_player_game();
    let board = game(&mut v, a, 1, "03 07", false);
    assert_eq!(board[3 * 13 + 7], 3);
    assert_eq!(v[0].board, board);
    assert_eq!(v[0].turn, 2);
    assert_eq!(v[0].win, 0);
}

#[test]
fn the_hunter_cannot_block_an_exit_or_move_twice() {
    let (mut v, a, _b) = two_player_game();
    let board = game(&mut v, a, 1, "00 05", false);
    assert_eq!(board, empty_board());
    assert_eq!(v[0].turn, 1);
    game(&mut v, a, 1, "03 07", false);
    let before = v[0];
    let board = game(&mut v, a, 1, "03 08", false);
    assert_eq!(board, before.board);
    assert_eq!(v[0].turn, 2);
}

#[test]
fn the_mouse_steps_to_a_neighbour_only() {
    let (mut v, a, b) = two_player_game();
    game(&mut v, a, 1, "03 07", false);
    // 84 = row 6, column 6; 6,8 is not a neighbour
    let board = game(&mut v, b, 2, "06 08", false);
    assert_eq!(board[84], 2);
    assert_eq!(v[0].turn, 2);
    let board = game(&mut v, b, 2, "06 07", false);
    assert_eq!(board[84], 0);
    assert_eq!(board[85], 2);
    assert_eq!(v[0].turn, 1);
    assert_eq!(v[0].win, 0);
}

#[test]
fn the_hunter_wins_by_surrounding_the_mouse() {
    let (mut v, a, _b) = two_player_game();
    // block five neighbours of 84 directly
    for i in [97usize, 71, 85, 83, 70] {
        v[0].board[i] = 3;
    }
    // 96 = row 7, column 5
    let board = game(&mut v, a, 1, "07 05", false);
    assert_eq!(board[96], 3);
    assert_eq!(v[0].win, 1);
    assert_eq!(check_win(&mut v, a), 1);
}

#[test]
fn the_mouse_wins_by_reaching_an_exit() {
    let (mut v, a, b) = two_player_game();
    v[0].board[84] = 0;
    v[0].board[14] = 2;
    v[0].turn = 2;
    let board = game(&mut v, b, 2, "01 00", false);
    assert_eq!(board[13], 2);
    assert_eq!(v[0].win, 2);
    assert_eq!(check_win(&mut v, b), 1);
    assert_eq!(check_win(&mut v, a), 2);
}

#[test]
fn the_computer_mouse_moves_on_its_turn() {
    let mut v: Vec<Lobby> = Vec::new();
    let a = addr(1, 1);
    host(&mut v, a);
    join(&mut v, computer_player());
    game(&mut v, a, 1, "03 07", true);
    assert_eq!(v[0].turn, 2);
    let board = game(&mut v, a, 1, "03 08", true);
    assert_eq!(board[85], 2);
    assert_eq!(board[84], 0);
    assert_eq!(board[3 * 13 + 8], 0);
    assert_eq!(v[0].turn, 1);
}

#[test]
fn a_move_for_a_player_without_game_returns_a_fresh_board() {
    let (mut v, _a, _b) = two_player_game();
    let before = v.clone();
    let board = game(&mut v, addr(9, 9), 1, "03 07", false);
    assert_eq!(board, empty_board());
    assert_eq!(v[0].board, before[0].board);
}

#[test]
fn game_is_safe_rejects_cells_off_the_board() {
    let (v, a, _b) = two_player_game();
    assert!(game_is_safe(&v, a, 1, 3, 7, false));
    assert!(!game_is_safe(&v, a, 1, 13, 0, false));
    assert!(!game_is_safe(&v, a, 1, 20, 0, false));
}

#[test]
fn an_ascii_move_names_its_cell() {
    let a = addr(0x0a00_0001, 5000);
    let mut v: Vec<Lobby> = Vec::new();
    host(&mut v, a);
    let board = game(&mut v, a, 1, "06 07", false);
    let mut expected = empty_board();
    expected[85] = 3;
    assert_eq!(board, expected);
    assert_eq!(v[0].board[85], 3);
    assert_eq!((v[0].turn, v[0].win, v.len()), (2, 0, 1));
}
