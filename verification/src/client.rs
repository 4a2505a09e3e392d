//! The client's screen: which buttons show, where the board's cells are
//! drawn, what a click sends to the server and what a reply changes.
use vstd::prelude::*;

verus! {

/// Which parts of the screen show.
#[derive(Clone, Copy, Debug, PartialEq, Eq, Structural)]
pub struct Buttons {
    pub host_join_visible: bool,
    pub computer_visible: bool,
    pub table: bool,
    pub winner: bool,
    pub loser: bool,
    pub refresh: bool,
}

impl Buttons {
    /// The start screen: only the "Host" and "Join" buttons show.
    pub fn new() -> (b: Self)
        ensures
            b == (Buttons {
                host_join_visible: true,
                computer_visible: false,
                table: false,
                winner: false,
                loser: false,
                refresh: false,
            }),
    {
        Buttons {
            host_join_visible: true,
            computer_visible: false,
            table: false,
            winner: false,
            loser: false,
            refresh: false,
        }
    }
}

/// A rectangle of the screen: its top-left corner, width and height.
#[derive(Clone, Copy, Debug, PartialEq, Eq, Structural)]
pub struct Area {
    pub x: i32,
    pub y: i32,
    pub w: u32,
    pub h: u32,
}

impl Area {
    /// Whether the point lies in the rectangle, its edges included.
    pub open spec fn holds(self, px: int, py: int) -> bool {
        self.x <= px <= self.x + self.w && self.y <= py <= self.y + self.h
    }

    /// Whether the point (`px`, `py`) lies in the rectangle, its edges
    /// included.
    pub fn contains(&self, px: i32, py: i32) -> (r: bool)
        ensures
            r == self.holds(px as int, py as int),
    {
        self.x as i64 <= px as i64 && px as i64 <= self.x as i64 + self.w as i64 && self.y as i64
            <= py as i64 && py as i64 <= self.y as i64 + self.h as i64
    }
}

/// The "Host" button.
pub open spec fn spec_host_button() -> Area {
    Area { x: 400, y: 375, w: 200, h: 50 }
}

/// The "Join" button.
pub open spec fn spec_join_button() -> Area {
    Area { x: 400, y: 455, w: 200, h: 50 }
}

/// The button at the top of the screen: "Start", "Refresh", "Winner" or
/// "Loser".
pub open spec fn spec_top_button() -> Area {
    Area { x: 300, y: 50, w: 200, h: 50 }
}

/// The part of the table where a click plays a move.
pub open spec fn spec_table_click() -> Area {
    Area { x: 130, y: 130, w: 825, h: 580 }
}

/// The "Host" button.
pub fn host_button() -> (a: Area)
    ensures
        a == spec_host_button(),
{
    Area { x: 400, y: 375, w: 200, h: 50 }
}

/// The "Join" button.
pub fn join_button() -> (a: Area)
    ensures
        a == spec_join_button(),
{
    Area { x: 400, y: 455, w: 200, h: 50 }
}

/// The button at the top of the screen: "Start", "Refresh", "Winner" or
/// "Loser".
pub fn top_button() -> (a: Area)
    ensures
        a == spec_top_button(),
{
    Area { x: 300, y: 50, w: 200, h: 50 }
}

/// The brown table the board is drawn on.
pub fn table_area() -> (a: Area)
    ensures
        a == (Area { x: 130, y: 120, w: 825, h: 600 }),
{
    Area { x: 130, y: 120, w: 825, h: 600 }
}

/// The part of the table where a click plays a move.
pub fn table_click() -> (a: Area)
    ensures
        a == spec_table_click(),
{
    Area { x: 130, y: 130, w: 825, h: 580 }
}

/// The centre of cell `i` on the screen: rows 45 pixels apart, cells 61
/// pixels apart, odd rows shifted 26 pixels to the right.
pub open spec fn center_of(i: int) -> (int, int) {
    let row = i / 13;
    let col = i % 13;
    let left: int = if row % 2 == 0 {
        160
    } else {
        186
    };
    (left + col * 61, 150 + row * 45)
}

/// The centre of cell `i` on the screen.
pub fn cell_center(i: usize) -> (c: (i32, i32))
    requires
        i < 169,
    ensures
        (c.0 as int, c.1 as int) == center_of(i as int),
{
    let row = (i / 13) as i32;
    let col = (i % 13) as i32;
    if row % 2 == 0 {
        (160 + col * 61, 150 + row * 45)
    } else {
        (186 + col * 61, 150 + row * 45)
    }
}

/// Whether the point (`x`, `y`) lies strictly within 30 pixels, both ways,
/// of the centre of cell `i`.
pub open spec fn hits(i: int, x: int, y: int) -> bool {
    let (cx, cy) = center_of(i);
    x > cx - 30 && x < cx + 30 && y > cy - 30 && y < cy + 30
}

/// The last of the first `n` cells that the point (`x`, `y`) hits.
pub open spec fn picked(x: int, y: int, n: int) -> Option<int>
    decreases n,
{
    if n <= 0 {
        None
    } else if hits(n - 1, x, y) {
        Some(n - 1)
    } else {
        picked(x, y, n - 1)
    }
}

/// The two decimal digits of `v`, as text.
pub open spec fn two_digits(v: int) -> Seq<u8> {
    seq![(48 + v / 10) as u8, (48 + v % 10) as u8]
}

/// The move that a click at (`x`, `y`) names: `"RR CC"`, the row and the
/// column of the last cell it hits, or `"00 09"` when it hits none.
pub open spec fn move_text(x: int, y: int) -> Seq<u8> {
    let (row, col) = match picked(x, y, 169) {
        Some(i) => (i / 13, i % 13),
        None => (0, 9),
    };
    two_digits(row) + seq![32u8] + two_digits(col)
}

/// The two decimal digits of `v`.
fn digits(v: i32) -> (d: (u8, u8))
    requires
        0 <= v <= 99,
    ensures
        seq![d.0, d.1] == two_digits(v as int),
{
    ((48 + v / 10) as u8, (48 + v % 10) as u8)
}

/// The move that a click at (`x`, `y`) on the table names.
pub fn move_message(x: i32, y: i32) -> (m: [u8; 5])
    ensures
        m@ == move_text(x as int, y as int),
{
    let mut real_y: i32 = 0;
    let mut real_x: i32 = 9;
    let mut i: usize = 0;
    while i < 169
        invariant
            0 <= i <= 169,
            (real_y as int, real_x as int) == match picked(x as int, y as int, i as int) {
                Some(k) => (k / 13, k % 13),
                None => (0, 9),
            },
            picked(x as int, y as int, i as int) matches Some(k) ==> 0 <= k < i,
        decreases 169 - i,
    {
        let (centerx, centery) = cell_center(i);
        if x > centerx - 30 && x < centerx + 30 && y > centery - 30 && y < centery + 30 {
            real_y = (i / 13) as i32;
            real_x = (i % 13) as i32;
        }
        i += 1;
    }
    let (y1, y0) = digits(real_y);
    let (x1, x0) = digits(real_x);
    let m = [y1, y0, 32u8, x1, x0];
    assert(m@ =~= move_text(x as int, y as int));
    m
}

/// What a click sends and the screen after it: a click on a showing button
/// asks to host (`hosti`), join (`joini`), start against the computer
/// (`start`) or refresh (`refrs`); a click on the table sends the move it
/// names. A click elsewhere sends nothing and changes nothing.
pub open spec fn click_spec(b: Buttons, x: int, y: int) -> (Buttons, Option<Seq<u8>>) {
    if b.host_join_visible && spec_host_button().holds(x, y) {
        (
            Buttons { host_join_visible: false, computer_visible: true, table: true, ..b },
            Some(seq![104u8, 111, 115, 116, 105]),
        )
    } else if b.host_join_visible && spec_join_button().holds(x, y) {
        (
            Buttons { host_join_visible: false, table: true, refresh: true, ..b },
            Some(seq![106u8, 111, 105, 110, 105]),
        )
    } else if b.computer_visible && spec_top_button().holds(x, y) {
        (Buttons { computer_visible: false, ..b }, Some(seq![115u8, 116, 97, 114, 116]))
    } else if b.refresh && spec_top_button().holds(x, y) {
        (b, Some(seq![114u8, 101, 102, 114, 115]))
    } else if b.table && spec_table_click().holds(x, y) {
        (
            Buttons { computer_visible: false, refresh: b.refresh || b.computer_visible, ..b },
            Some(move_text(x, y)),
        )
    } else {
        (b, None)
    }
}

/// A message to send, as text bytes.
pub open spec fn message_view(m: Option<[u8; 5]>) -> Option<Seq<u8>> {
    match m {
        Some(a) => Some(a@),
        None => None,
    }
}

/// Handle a click at (`x`, `y`): update the screen and return the message to
/// send, if any.
pub fn on_click(buttons: &mut Buttons, x: i32, y: i32) -> (m: Option<[u8; 5]>)
    ensures
        (*final(buttons), message_view(m)) == click_spec(*old(buttons), x as int, y as int),
{
    if buttons.host_join_visible && host_button().contains(x, y) {
        buttons.host_join_visible = false;
        buttons.computer_visible = true;
        buttons.table = true;
        let m = [104u8, 111, 115, 116, 105];
        assert(m@ =~= seq![104u8, 111, 115, 116, 105]);
        Some(m)
    } else if buttons.host_join_visible && join_button().contains(x, y) {
        buttons.host_join_visible = false;
        buttons.table = true;
        buttons.refresh = true;
        let m = [106u8, 111, 105, 110, 105];
        assert(m@ =~= seq![106u8, 111, 105, 110, 105]);
        Some(m)
    } else if buttons.computer_visible && top_button().contains(x, y) {
        buttons.computer_visible = false;
        let m = [115u8, 116, 97, 114, 116];
        assert(m@ =~= seq![115u8, 116, 97, 114, 116]);
        Some(m)
    } else if buttons.refresh && top_button().contains(x, y) {
        let m = [114u8, 101, 102, 114, 115];
        assert(m@ =~= seq![114u8, 101, 102, 114, 115]);
        Some(m)
    } else if buttons.table && table_click().contains(x, y) {
        if buttons.computer_visible {
            buttons.computer_visible = false;
            buttons.refresh = true;
        } else {
            buttons.computer_visible = false;
        }
        let m = move_message(x, y);
        buttons.computer_visible = false;
        Some(m)
    } else {
        None
    }
}

/// The screen after a reply of the server, and whether the board should be
/// printed: a board (first cell `1`) changes nothing; a win (`3`) or a loss
/// (`4`) goes back to the menu showing the outcome; anything else goes back
/// to the menu.
pub open spec fn reply_spec(b: Buttons, data: Seq<u8>) -> (Buttons, bool) {
    if data[0] == 1 {
        (b, true)
    } else if data[0] == 3 {
        (
            Buttons {
                host_join_visible: true,
                computer_visible: false,
                table: false,
                winner: true,
                refresh: false,
                ..b
            },
            false,
        )
    } else if data[0] == 4 {
        (
            Buttons {
                host_join_visible: true,
                computer_visible: false,
                table: false,
                loser: true,
                refresh: false,
                ..b
            },
            false,
        )
    } else if data[9] == 9 {
        (
            Buttons {
                host_join_visible: true,
                computer_visible: false,
                table: false,
                refresh: false,
                ..b
            },
            false,
        )
    } else {
        (Buttons { host_join_visible: true, table: false, computer_visible: false, ..b }, false)
    }
}

/// Update the screen for the server's reply `data`; returns whether the
/// board should be printed.
pub fn on_reply(buttons: &mut Buttons, data: &[u8; 169]) -> (show: bool)
    ensures
        (*final(buttons), show) == reply_spec(*old(buttons), data@),
{
    if data[0] == 1 {
        true
    } else if data[0] == 3 {
        buttons.host_join_visible = true;
        buttons.computer_visible = false;
        buttons.table = false;
        buttons.winner = true;
        buttons.refresh = false;
        false
    } else if data[0] == 4 {
        buttons.host_join_visible = true;
        buttons.computer_visible = false;
        buttons.table = false;
        buttons.loser = true;
        buttons.refresh = false;
        false
    } else if data[9] == 9 {
        buttons.host_join_visible = true;
        buttons.computer_visible = false;
        buttons.table = false;
        buttons.refresh = false;
        false
    } else {
        buttons.host_join_visible = true;
        buttons.table = false;
        buttons.computer_visible = false;
        false
    }
}

/// Once drawn, the outcome of a game stops showing.
pub fn clear_outcome(buttons: &mut Buttons)
    ensures
        *final(buttons) == (Buttons { winner: false, loser: false, ..*old(buttons) }),
{
    buttons.winner = false;
    buttons.loser = false;
}

/// How a cell is drawn.
#[derive(Clone, Copy, Debug, PartialEq, Eq, Structural)]
pub enum Look {
    /// An empty hexagon: a free cell or an exit.
    Open,
    /// A hexagon with the mouse in it.
    Mouse,
    /// A hexagon with a block in it.
    Blocked,
}

/// How a cell holding `v` is drawn.
pub fn cell_look(v: u8) -> (l: Look)
    ensures
        (v == 0 || v == 1) ==> l == Look::Open,
        v == 2 ==> l == Look::Mouse,
        v > 2 ==> l == Look::Blocked,
{
    if v == 0 || v == 1 {
        Look::Open
    } else if v == 2 {
        Look::Mouse
    } else {
        Look::Blocked
    }
}

/// `v / 2` as integer division rounding towards zero computes it.
pub open spec fn half_toward_zero(v: int) -> int {
    if v >= 0 {
        v / 2
    } else {
        -((-v) / 2)
    }
}

/// The six corners of the hexagon of radius `r` around (`cx`, `cy`), from the
/// top one clockwise.
pub open spec fn hexagon(cx: int, cy: int, r: int) -> Seq<(int, int)> {
    let h = half_toward_zero(r);
    seq![(cx, cy - r), (cx + r, cy - h), (cx + r, cy + h), (cx, cy + r), (cx - r, cy + h), (cx - r, cy - h)]
}

/// The six corners of the hexagon of radius `r` around (`centerx`,
/// `centery`), from the top one clockwise.
pub fn hex_outline(centerx: i32, centery: i32, radius: i32) -> (p: [(i32, i32); 6])
    requires
        i32::MIN <= centerx - radius <= i32::MAX,
        i32::MIN <= centerx + radius <= i32::MAX,
        i32::MIN <= centery - radius <= i32::MAX,
        i32::MIN <= centery + radius <= i32::MAX,
    ensures
        p@.map_values(|c: (i32, i32)| (c.0 as int, c.1 as int)) == hexagon(
            centerx as int,
            centery as int,
            radius as int,
        ),
{
    let h = radius / 2;
    assert(h == half_toward_zero(radius as int));
    let p = [
        (centerx, centery - radius),
        (centerx + radius, centery - h),
        (centerx + radius, centery + h),
        (centerx, centery + radius),
        (centerx - radius, centery + h),
        (centerx - radius, centery - h),
    ];
    assert(p@.map_values(|c: (i32, i32)| (c.0 as int, c.1 as int)) =~= hexagon(
        centerx as int,
        centery as int,
        radius as int,
    ));
    p
}

/// The square drawn in a blocked cell centred on (`centerx`, `centery`).
pub fn block_mark(centerx: i32, centery: i32) -> (a: Area)
    requires
        centerx >= i32::MIN + 20,
        centery >= i32::MIN + 20,
    ensures
        a == (Area { x: (centerx - 20) as i32, y: (centery - 20) as i32, w: 40, h: 40 }),
{
    Area { x: centerx - 20, y: centery - 20, w: 40, h: 40 }
}

/// The square drawn for the mouse in the cell centred on (`centerx`,
/// `centery`).
pub fn mouse_mark(centerx: i32, centery: i32) -> (a: Area)
    requires
        centerx >= i32::MIN + 10,
        centery >= i32::MIN + 10,
    ensures
        a == (Area { x: (centerx - 10) as i32, y: (centery - 10) as i32, w: 20, h: 20 }),
{
    Area { x: centerx - 10, y: centery - 10, w: 20, h: 20 }
}

/// A click at the centre of a cell names that cell: hexagons of the same
/// row are 61 pixels apart and rows 45 pixels apart, so no other cell is
/// within 30 pixels of it.
pub proof fn lemma_center_click(i: int)
    requires
        0 <= i < 169,
    ensures
        move_text(center_of(i).0, center_of(i).1) == two_digits(i / 13) + seq![32u8] + two_digits(
            i % 13,
        ),
{
    let (x, y) = center_of(i);
    assert(hits(i, x, y));
    assert forall|j: int| 0 <= j < 169 && j != i implies !hits(j, x, y) by {
        if j / 13 == i / 13 {
            assert(j % 13 != i % 13);
        }
    }
    lemma_picked_unique(x, y, i, 169);
}

/// The point (`x`, `y`) lies less than 30 pixels, across and down, from the
/// centre of cell `i`.
pub open spec fn within_cell(i: int, x: int, y: int) -> bool {
    -30 < x - center_of(i).0 < 30 && -30 < y - center_of(i).1 < 30
}

/// A click less than 30 pixels across and down from the centre of cell `i`
/// names that cell, unless it is as close to the centre of a later cell;
/// a click close to no centre names row 0, column 9.
pub proof fn lemma_click_names_cell(x: int, y: int, i: int)
    requires
        0 <= i < 169,
        within_cell(i, x, y),
        forall|j: int| i < j < 169 ==> !within_cell(j, x, y),
    ensures
        move_text(x, y) == two_digits(i / 13) + seq![32u8] + two_digits(i % 13),
{
    lemma_picked_last(x, y, i, 169);
}

/// A click close to no centre names row 0, column 9.
pub proof fn lemma_click_names_nothing(x: int, y: int)
    requires
        forall|j: int| 0 <= j < 169 ==> !within_cell(j, x, y),
    ensures
        move_text(x, y) == two_digits(0) + seq![32u8] + two_digits(9),
{
    lemma_picked_none(x, y, 169);
}

/// Among the first `n` cells, the last one that is hit is picked.
proof fn lemma_picked_last(x: int, y: int, i: int, n: int)
    requires
        0 <= i < n <= 169,
        within_cell(i, x, y),
        forall|j: int| i < j < 169 ==> !within_cell(j, x, y),
    ensures
        picked(x, y, n) == Some(i),
    decreases n,
{
    if n - 1 != i {
        assert(!within_cell(n - 1, x, y));
        lemma_picked_last(x, y, i, n - 1);
    }
}

/// When no cell is hit, none is picked.
proof fn lemma_picked_none(x: int, y: int, n: int)
    requires
        0 <= n <= 169,
        forall|j: int| 0 <= j < 169 ==> !within_cell(j, x, y),
    ensures
        picked(x, y, n) == None::<int>,
    decreases n,
{
    if n > 0 {
        assert(!within_cell(n - 1, x, y));
        lemma_picked_none(x, y, n - 1);
    }
}

/// A reply marked `3` shows "Winner" and a reply marked `4` shows "Loser",
/// each back on the menu with the table and the top buttons hidden; a board
/// (first cell `1`) is printed and changes nothing; any other reply goes back
/// to the menu without an outcome.
pub proof fn lemma_reply_outcome(b: Buttons, data: Seq<u8>)
    requires
        data.len() == 169,
    ensures
        ({
            let (nb, show) = reply_spec(b, data);
            &&& show <==> data[0] == 1
            &&& data[0] == 1 ==> nb == b
            &&& data[0] != 1 ==> nb.host_join_visible && !nb.table && !nb.computer_visible
            &&& data[0] == 3 ==> nb.winner && nb.loser == b.loser && !nb.refresh
            &&& data[0] == 4 ==> nb.loser && nb.winner == b.winner && !nb.refresh
            &&& data[0] != 3 ==> nb.winner == b.winner
            &&& data[0] != 4 ==> nb.loser == b.loser
        }),
{
}

/// A click sends a message only where a showing button or the shown table
/// lies; a click on the showing "Host" button asks to host, and a click on
/// the table, away from every button, sends the cell it names.
pub proof fn lemma_click_targets(b: Buttons, x: int, y: int)
    ensures
        ({
            let (nb, m) = click_spec(b, x, y);
            &&& m is Some ==> (b.host_join_visible && (spec_host_button().holds(x, y)
                || spec_join_button().holds(x, y))) || ((b.computer_visible || b.refresh)
                && spec_top_button().holds(x, y)) || (b.table && spec_table_click().holds(x, y))
            &&& m is None ==> nb == b
            &&& b.host_join_visible && spec_host_button().holds(x, y) ==> m == Some(
                seq![104u8, 111, 115, 116, 105],
            )
            &&& b.table && spec_table_click().holds(x, y) && !spec_top_button().holds(x, y) && !(
            b.host_join_visible && (spec_host_button().holds(x, y) || spec_join_button().holds(
                x,
                y,
            ))) ==> m == Some(move_text(x, y))
        }),
{
}

/// When only cell `i` among the first `n` is hit, it is the one picked.
proof fn lemma_picked_unique(x: int, y: int, i: int, n: int)
    requires
        0 <= i < n <= 169,
        hits(i, x, y),
        forall|j: int| 0 <= j < 169 && j != i ==> !hits(j, x, y),
    ensures
        picked(x, y, n) == Some(i),
    decreases n,
{
    if n - 1 != i {
        lemma_picked_unique(x, y, i, n - 1);
    }
}

} // verus!
