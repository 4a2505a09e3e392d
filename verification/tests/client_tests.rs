use catch_mouse::client::{
    block_mark, cell_center, cell_look, clear_outcome, hex_outline, host_button, join_button,
    mouse_mark, move_message, on_click, on_reply, table_area, top_button, Area, Buttons, Look,
};

fn menu() -> Buttons {
    Buttons::new()
}

#[test]
fn a_new_screen_shows_host_and_join() {
    let b = Buttons::new();
    assert!(b.host_join_visible);
    assert!(!b.computer_visible && !b.table && !b.winner && !b.loser && !b.refresh);
}

#[test]
fn clicking_host_asks_to_host() {
    let mut b = menu();
    assert_eq!(on_click(&mut b, 500, 400), Some(*b"hosti"));
    assert!(!b.host_join_visible && b.computer_visible && b.table);
}

#[test]
fn clicking_join_asks_to_join() {
    let mut b = menu();
    assert_eq!(on_click(&mut b, 400, 505), Some(*b"joini"));
    assert!(!b.host_join_visible && b.table && b.refresh && !b.computer_visible);
}

#[test]
fn clicking_start_and_refresh() {
    let mut b = menu();
    on_click(&mut b, 500, 400);
    assert_eq!(on_click(&mut b, 300, 50), Some(*b"start"));
    assert!(!b.computer_visible);
    let mut c = menu();
    on_click(&mut c, 500, 480);
    assert_eq!(on_click(&mut c, 500, 100), Some(*b"refrs"));
}

#[test]
fn clicking_nowhere_sends_nothing() {
    let mut b = menu();
    assert_eq!(on_click(&mut b, 10, 10), None);
    assert_eq!(b, menu());
    // outside the edges of the host button
    assert_eq!(on_click(&mut b, 601, 400), None);
}

#[test]
fn clicking_a_cell_names_it() {
    let mut b = menu();
    on_click(&mut b, 500, 400);
    // row 3 is odd: 186 + 7 * 61 = 613, 150 + 3 * 45 = 285
    assert_eq!(on_click(&mut b, 613, 285), Some(*b"03 07"));
    assert!(b.refresh && !b.computer_visible);
}

#[test]
fn clicking_between_cells_names_the_default() {
    assert_eq!(move_message(191, 150), *b"00 09");
}

#[test]
fn the_centre_of_every_cell_names_that_cell() {
    for i in 0..169usize {
        let (x, y) = cell_center(i);
        let m = move_message(x, y);
        let expected = format!("{:02} {:02}", i / 13, i % 13);
        assert_eq!(&m[..], expected.as_bytes(), "cell {}", i);
    }
}

#[test]
fn cell_centres_follow_the_layout() {
    assert_eq!(cell_center(0), (160, 150));
    assert_eq!(cell_center(13), (186, 195));
    assert_eq!(cell_center(168), (160 + 12 * 61, 150 + 12 * 45));
}

#[test]
fn replies_update_the_screen() {
    let mut b = menu();
    on_click(&mut b, 500, 400);
    let mut data = [0u8; 169];
    data[0] = 1;
    let before = b;
    assert!(on_reply(&mut b, &data));
    assert_eq!(b, before);
    data[0] = 3;
    assert!(!on_reply(&mut b, &data));
    assert!(b.winner && b.host_join_visible && !b.table && !b.refresh && !b.computer_visible);
    clear_outcome(&mut b);
    assert!(!b.winner && !b.loser);
    data[0] = 4;
    on_reply(&mut b, &data);
    assert!(b.loser);
    let mut c = menu();
    on_click(&mut c, 500, 480);
    data[0] = 7;
    assert!(!on_reply(&mut c, &data));
    assert!(c.host_join_visible && !c.table && !c.computer_visible && c.refresh);
    data[9] = 9;
    on_reply(&mut c, &data);
    assert!(!c.refresh);
}

#[test]
fn cells_are_drawn_by_their_value() {
    assert_eq!(cell_look(0), Look::Open);
    assert_eq!(cell_look(1), Look::Open);
    assert_eq!(cell_look(2), Look::Mouse);
    assert_eq!(cell_look(3), Look::Blocked);
    assert_eq!(cell_look(9), Look::Blocked);
}

#[test]
fn hexagon_corners() {
    assert_eq!(
        hex_outline(160, 150, 30),
        [(160, 120), (190, 135), (190, 165), (160, 180), (130, 165), (130, 135)]
    );
    assert_eq!(hex_outline(0, 0, -5)[1], (-5, 2));
    assert_eq!(block_mark(160, 150), Area { x: 140, y: 130, w: 40, h: 40 });
    assert_eq!(mouse_mark(160, 150), Area { x: 150, y: 140, w: 20, h: 20 });
}

#[test]
fn areas_include_their_edges() {
    let h = host_button();
    assert!(h.contains(400, 375) && h.contains(600, 425));
    assert!(!h.contains(399, 400) && !h.contains(500, 426));
    assert_eq!(join_button(), Area { x: 400, y: 455, w: 200, h: 50 });
    assert_eq!(top_button(), Area { x: 300, y: 50, w: 200, h: 50 });
    assert_eq!(table_area(), Area { x: 130, y: 120, w: 825, h: 600 });
}
