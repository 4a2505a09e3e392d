use catch_mouse::board::{around, empty_board, make_move, mouse_block, valid_move};

fn surround(board: &mut [u8; 169], s: usize, v: u8) {
    let offs: [i32; 6] = if (s / 13) % 2 == 1 { [13, -13, 1, -1, -12, 14] } else { [13, -13, 1, -1, -14, 12] };
    for o in offs {
        board[(s as i32 + o) as usize] = v;
    }
}

#[test]
fn empty_board_has_rim_of_exits_and_mouse_in_middle() {
    let b = empty_board();
    for i in 0..169 {
        let (row, col) = (i / 13, i % 13);
        let expected = if row == 0 || row == 12 || col == 0 || col == 12 {
            1
        } else if i == 84 {
            2
        } else {
            0
        };
        assert_eq!(b[i], expected, "cell {}", i);
    }
    assert_eq!(b.iter().filter(|&&v| v == 2).count(), 1);
}

#[test]
fn around_finds_values_among_neighbours() {
    let b = empty_board();
    assert!(around(84, 0, b));
    assert!(!around(84, 1, b));
    assert!(!around(84, 3, b));
    // row 1 (odd), column 1: the neighbour 14 - 1 = 13 is an exit
    assert!(around(14, 1, b));
}

#[test]
fn valid_move_follows_hex_neighbours() {
    // 84 is in row 6 (even): neighbours +-13, +-1, -14, +12
    for m in [97, 71, 85, 83, 70, 96] {
        assert!(valid_move(84, m), "84 -> {}", m);
    }
    for m in [98, 72, 84, 86, 82, 110] {
        assert!(!valid_move(84, m), "84 -> {}", m);
    }
    // 97 is in row 7 (odd): neighbours +-13, +-1, -12, +14
    for m in [110, 84, 98, 96, 85, 111] {
        assert!(valid_move(97, m), "97 -> {}", m);
    }
    assert!(!valid_move(97, 109));
    assert!(!valid_move(97, 83));
}

#[test]
fn valid_move_on_negative_positions_uses_even_rows() {
    // -13 / 13 is -1, and -1 % 2 is -1: an even row
    assert!(valid_move(-13, 0));
    assert!(valid_move(-13, -27));
    assert!(!valid_move(-13, -25));
}

#[test]
fn adjacency_is_symmetric_off_the_rim() {
    for s in 14i8..=113 {
        let (row, col) = (s / 13, s % 13);
        if row < 1 || row > 11 || col < 1 || col > 11 {
            continue;
        }
        for m in (s - 14)..=(s + 14) {
            if valid_move(s, m) {
                assert!(valid_move(m, s), "{} <-> {}", s, m);
            }
        }
    }
}

#[test]
fn mouse_block_on_fresh_board_is_false() {
    assert!(!mouse_block(empty_board()));
}

#[test]
fn mouse_block_when_surrounded() {
    let mut b = empty_board();
    surround(&mut b, 84, 3);
    assert!(mouse_block(b));
    b[85] = 0;
    assert!(!mouse_block(b));
}

#[test]
fn mouse_block_without_mouse_is_true() {
    let mut b = empty_board();
    b[84] = 0;
    assert!(mouse_block(b));
}

#[test]
fn make_move_steps_to_first_free_neighbour() {
    let mut b = empty_board();
    let r = make_move(&mut b);
    assert_eq!(r, 0);
    assert_eq!(b[84], 0);
    assert_eq!(b[85], 2);
}

#[test]
fn make_move_prefers_an_exit() {
    let mut b = empty_board();
    b[84] = 0;
    b[14] = 2;
    let r = make_move(&mut b);
    assert_eq!(r, 2);
    // 14 + 1 is free, but 14 - 1 is an exit and exits come first
    assert_eq!(b[13], 2);
    assert_eq!(b[14], 0);
    assert_eq!(b[15], 0);
}

#[test]
fn make_move_when_caught_changes_nothing() {
    let mut b = empty_board();
    surround(&mut b, 84, 3);
    let before = b;
    assert_eq!(make_move(&mut b), 1);
    assert_eq!(b, before);
}

#[test]
fn make_move_without_mouse_changes_nothing() {
    let mut b = empty_board();
    b[84] = 0;
    let before = b;
    assert_eq!(make_move(&mut b), 1);
    assert_eq!(b, before);
}

#[test]
fn computer_stuck_exactly_when_blocked() {
    let mut b = empty_board();
    surround(&mut b, 84, 3);
    for free in [None, Some(70usize), Some(96), Some(85)] {
        let mut c = b;
        if let Some(f) = free {
            c[f] = 0;
        }
        let blocked = mouse_block(c);
        let mut d = c;
        assert_eq!(make_move(&mut d) == 1, blocked);
    }
}

#[test]
fn make_move_keeps_exactly_one_mouse() {
    let mut b = empty_board();
    for _ in 0..10 {
        make_move(&mut b);
        assert_eq!(b.iter().filter(|&&v| v == 2).count(), 1);
    }
}

#[test]
fn make_move_keeps_blocks_and_spends_one_exit_on_escape() {
    let count = |b: &[u8; 169], v: u8| b.iter().filter(|&&c| c == v).count();
    let mut b = empty_board();
    b[84] = 0;
    b[14] = 2;
    b[27] = 3;
    b[15] = 3;
    let before = b;
    assert_eq!(make_move(&mut b), 2);
    assert_eq!(count(&b, 1), count(&before, 1) - 1);
    for k in 0..169 {
        assert_eq!(b[k] == 3, before[k] == 3);
    }
    let mut c = empty_board();
    c[97] = 3;
    let before = c;
    assert_eq!(make_move(&mut c), 0);
    assert_eq!(count(&c, 1), count(&before, 1));
    assert_eq!(count(&c, 3), 1);
    assert_eq!(c[97], 3);
}
