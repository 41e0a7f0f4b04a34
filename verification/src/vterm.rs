//! Virtual terminal: a grid of styled cells driven by ANSI control sequences.
use vstd::prelude::*;

use crate::ansi::{ActionView, VtAction, actions_view, groups_view, groups_nonempty, csi_groups_nonempty, vte_actions, vte_tokenize};
use crate::color::{Color, spec_default_fg, spec_default_bg, spec_basic_color, spec_bright_color, spec_from_256, spec_rgb, ansi_basic_color, ansi_bright_color};
use crate::text::string_push;

verus! {

/// A single terminal cell.
#[derive(Debug, Clone, Copy, PartialEq, Eq, Structural)]
pub struct Cell {
    pub ch: char,
    pub fg: Color,
    pub bg: Color,
    pub bold: bool,
    pub dim: bool,
    pub italic: bool,
    pub underline: bool,
    pub strikethrough: bool,
}

/// An empty cell: a space in the default colors, with no attributes.
pub open spec fn blank_cell() -> Cell {
    Cell {
        ch: ' ',
        fg: spec_default_fg(),
        bg: spec_default_bg(),
        bold: false,
        dim: false,
        italic: false,
        underline: false,
        strikethrough: false,
    }
}

impl Default for Cell {
    fn default() -> (c: Self)
        ensures
            c == blank_cell(),
    {
        Cell {
            ch: ' ',
            fg: Color::default_fg(),
            bg: Color::default_bg(),
            bold: false,
            dim: false,
            italic: false,
            underline: false,
            strikethrough: false,
        }
    }
}

/// SGR (Select Graphic Rendition) state: the pen that new characters get.
#[derive(Debug, Clone, Copy, PartialEq, Eq, Structural)]
pub struct SgrState {
    pub fg: Color,
    pub bg: Color,
    pub bold: bool,
    pub dim: bool,
    pub italic: bool,
    pub underline: bool,
    pub strikethrough: bool,
}

pub open spec fn default_sgr() -> SgrState {
    SgrState {
        fg: spec_default_fg(),
        bg: spec_default_bg(),
        bold: false,
        dim: false,
        italic: false,
        underline: false,
        strikethrough: false,
    }
}

impl Default for SgrState {
    fn default() -> (s: Self)
        ensures
            s == default_sgr(),
    {
        SgrState {
            fg: Color::default_fg(),
            bg: Color::default_bg(),
            bold: false,
            dim: false,
            italic: false,
            underline: false,
            strikethrough: false,
        }
    }
}

/// The cell that printing `ch` with pen `sgr` produces.
pub open spec fn styled(ch: char, sgr: SgrState) -> Cell {
    Cell {
        ch,
        fg: sgr.fg,
        bg: sgr.bg,
        bold: sgr.bold,
        dim: sgr.dim,
        italic: sgr.italic,
        underline: sgr.underline,
        strikethrough: sgr.strikethrough,
    }
}

pub open spec fn blank_row(width: nat) -> Seq<Cell> {
    Seq::new(width, |c: int| blank_cell())
}

/// Mathematical model of a [`VirtualTerminal`].
pub struct VtState {
    pub width: nat,
    pub height: nat,
    pub cells: Seq<Seq<Cell>>,
    pub cursor_row: nat,
    pub cursor_col: nat,
    pub sgr: SgrState,
    pub saved_cursor: Option<(nat, nat)>,
    pub alt_screen: bool,
    pub sync_end_seen: bool,
}

/// `height` rows of `width` cells each.
pub open spec fn grid_ok(s: VtState) -> bool {
    &&& s.cells.len() == s.height
    &&& forall|r: int| 0 <= r < s.height ==> (#[trigger] s.cells[r]).len() == s.width
}

/// The cursor is inside the grid (at the origin of a grid without rows or
/// columns).
pub open spec fn cursor_in_grid(s: VtState) -> bool {
    &&& s.cursor_row <= sat_sub(s.height, 1)
    &&& s.cursor_col <= sat_sub(s.width, 1)
}

/// A terminal as output leaves it: a well-formed grid with the cursor, and
/// the saved cursor if any, inside it.  (Only resizing the terminal smaller
/// after saving the cursor leaves a saved cursor outside, which restoring
/// it then brings the cursor to.)
pub open spec fn settled(s: VtState) -> bool {
    &&& grid_ok(s)
    &&& cursor_in_grid(s)
    &&& (s.saved_cursor matches Some((r, c)) ==> r <= sat_sub(s.height, 1) && c <= sat_sub(s.width, 1))
}

/// The actions that would index past the grid in state `s`: a line feed
/// without rows; a tab without columns; erasing the display from the cursor
/// (mode 0) with the cursor below the grid and left of its right edge;
/// erasing the display up to the cursor (mode 1) without columns or with
/// the cursor below the grid; and erasing a line up to the cursor (mode 1)
/// on a row of a grid without columns.  No other action fails, and none
/// fails in a settled grid with rows and columns.
pub open spec fn action_fails(s: VtState, a: ActionView) -> bool {
    match a {
        ActionView::Print(_) => false,
        ActionView::Execute(b) => (b == 0x0A && s.height == 0) || (b == 0x09 && s.width == 0),
        ActionView::Csi(params, _, action) => {
            let mode = param_or(first_param(params), 0);
            ||| action == 'J' && mode == 0 && s.cursor_col < s.width && s.cursor_row >= s.height
            ||| action == 'J' && mode == 1 && (s.width == 0 || s.cursor_row >= s.height)
            ||| action == 'K' && mode == 1 && s.cursor_row < s.height && s.width == 0
        },
    }
}

/// No action of the sequence fails in the state the actions before it
/// leave.
pub open spec fn run_ok(s: VtState, actions: Seq<ActionView>) -> bool
    decreases actions.len(),
{
    actions.len() == 0 || (run_ok(s, actions.drop_last()) && !action_fails(
        run(s, actions.drop_last()),
        actions.last(),
    ))
}

pub open spec fn sat_sub(a: nat, b: nat) -> nat {
    if a >= b {
        (a - b) as nat
    } else {
        0
    }
}

pub open spec fn min_nat(a: nat, b: nat) -> nat {
    if a <= b {
        a
    } else {
        b
    }
}

/// A freshly made terminal.
pub open spec fn initial_state(width: nat, height: nat) -> VtState {
    VtState {
        width,
        height,
        cells: Seq::new(height, |r: int| blank_row(width)),
        cursor_row: 0,
        cursor_col: 0,
        sgr: default_sgr(),
        saved_cursor: None,
        alt_screen: false,
        sync_end_seen: false,
    }
}

/// Blank every cell `(r, c)` for which `pred(r, c)` holds.
pub open spec fn erase_where(cells: Seq<Seq<Cell>>, pred: spec_fn(int, int) -> bool) -> Seq<Seq<Cell>> {
    cells.map(|r: int, row: Seq<Cell>| row.map(|c: int, x: Cell| if pred(r, c) { blank_cell() } else { x }))
}

/// The text of a row: its characters.
pub open spec fn row_chars(row: Seq<Cell>) -> Seq<char> {
    row.map_values(|x: Cell| x.ch)
}

pub open spec fn step_print(s: VtState, ch: char) -> VtState {
    if s.cursor_row < s.height && s.cursor_col < s.width {
        VtState {
            cells: s.cells.update(
                s.cursor_row as int,
                s.cells[s.cursor_row as int].update(s.cursor_col as int, styled(ch, s.sgr)),
            ),
            cursor_col: if s.cursor_col + 1 >= s.width {
                sat_sub(s.width, 1)
            } else {
                s.cursor_col + 1
            },
            ..s
        }
    } else {
        s
    }
}

/// `new` is `old` with exactly the cells where `pred` holds blanked.
pub open spec fn cells_match(new: Seq<Seq<Cell>>, old: Seq<Seq<Cell>>, pred: spec_fn(int, int) -> bool) -> bool {
    &&& new.len() == old.len()
    &&& forall|r: int| 0 <= r < old.len() ==> (#[trigger] new[r]).len() == old[r].len()
    &&& forall|r: int, c: int|
        0 <= r < old.len() && 0 <= c < old[r].len() ==> #[trigger] new[r][c] == if pred(r, c) {
            blank_cell()
        } else {
            old[r][c]
        }
}

proof fn lemma_cells_match_erase(new: Seq<Seq<Cell>>, old: Seq<Seq<Cell>>, pred: spec_fn(int, int) -> bool)
    requires
        cells_match(new, old, pred),
    ensures
        new == erase_where(old, pred),
{
    let e = erase_where(old, pred);
    assert forall|r: int| 0 <= r < old.len() implies new[r] == e[r] by {
        assert(new[r] =~= e[r]);
    }
    assert(new =~= e);
}

proof fn lemma_cells_match_trans(
    v2: Seq<Seq<Cell>>,
    v1: Seq<Seq<Cell>>,
    v0: Seq<Seq<Cell>>,
    p: spec_fn(int, int) -> bool,
    q: spec_fn(int, int) -> bool,
)
    requires
        cells_match(v1, v0, p),
        cells_match(v2, v1, q),
    ensures
        cells_match(v2, v0, |r: int, c: int| p(r, c) || q(r, c)),
{
    assert forall|r: int, c: int| 0 <= r < v0.len() && 0 <= c < v0[r].len() implies #[trigger] v2[r][c] == if p(r, c) || q(r, c) {
        blank_cell()
    } else {
        v0[r][c]
    } by {
        assert(v1[r][c] == if p(r, c) { blank_cell() } else { v0[r][c] });
    }
}

proof fn lemma_cells_match_same_pred(
    v1: Seq<Seq<Cell>>,
    v0: Seq<Seq<Cell>>,
    p: spec_fn(int, int) -> bool,
    q: spec_fn(int, int) -> bool,
)
    requires
        cells_match(v1, v0, p),
        forall|r: int, c: int| 0 <= r < v0.len() && 0 <= c < v0[r].len() ==> #[trigger] p(r, c) == q(r, c),
    ensures
        cells_match(v1, v0, q),
{
    assert forall|r: int, c: int| 0 <= r < v0.len() && 0 <= c < v0[r].len() implies #[trigger] v1[r][c] == if q(r, c) {
        blank_cell()
    } else {
        v0[r][c]
    } by {
        assert(p(r, c) == q(r, c));
    }
}

proof fn lemma_cells_match_refl(v: Seq<Seq<Cell>>)
    ensures
        cells_match(v, v, |r: int, c: int| false),
{
}

pub open spec fn next_tab_stop(col: nat, width: nat) -> nat {
    min_nat((col / 8 + 1) * 8, sat_sub(width, 1))
}

pub open spec fn step_execute(s: VtState, byte: u8) -> VtState {
    if byte == 0x0D {
        VtState { cursor_col: 0, ..s }
    } else if byte == 0x0A {
        if s.cursor_row + 1 >= s.height {
            VtState {
                cells: s.cells.drop_first().push(blank_row(s.width)),
                cursor_row: sat_sub(s.height, 1),
                ..s
            }
        } else {
            VtState { cursor_row: s.cursor_row + 1, ..s }
        }
    } else if byte == 0x08 {
        VtState { cursor_col: sat_sub(s.cursor_col, 1), ..s }
    } else if byte == 0x09 {
        VtState { cursor_col: next_tab_stop(s.cursor_col, s.width), ..s }
    } else {
        s
    }
}

/// Erase in Display (CSI n J): 0 from the cursor to the end of the screen,
/// 1 from the start of the screen through the cursor, 2 and 3 everything.
pub open spec fn erase_display(s: VtState, mode: u16) -> VtState {
    if mode == 0 {
        VtState {
            cells: erase_where(
                s.cells,
                |r: int, c: int| r > s.cursor_row || (r == s.cursor_row && c >= s.cursor_col),
            ),
            ..s
        }
    } else if mode == 1 {
        VtState {
            cells: erase_where(
                s.cells,
                |r: int, c: int|
                    r < s.cursor_row || (r == s.cursor_row && c <= min_nat(
                        s.cursor_col,
                        sat_sub(s.width, 1),
                    )),
            ),
            ..s
        }
    } else if mode == 2 || mode == 3 {
        VtState { cells: erase_where(s.cells, |r: int, c: int| true), ..s }
    } else {
        s
    }
}

/// Erase in Line (CSI n K): 0 from the cursor to the end of the line, 1 from
/// the start of the line through the cursor, 2 the whole line.
pub open spec fn erase_line(s: VtState, mode: u16) -> VtState {
    if s.cursor_row >= s.height {
        s
    } else if mode == 0 {
        VtState {
            cells: erase_where(s.cells, |r: int, c: int| r == s.cursor_row && c >= s.cursor_col),
            ..s
        }
    } else if mode == 1 {
        VtState {
            cells: erase_where(
                s.cells,
                |r: int, c: int| r == s.cursor_row && c <= min_nat(s.cursor_col, sat_sub(s.width, 1)),
            ),
            ..s
        }
    } else if mode == 2 {
        VtState { cells: erase_where(s.cells, |r: int, c: int| r == s.cursor_row), ..s }
    } else {
        s
    }
}

/// The first value of the first parameter group, if any.
pub open spec fn first_param(params: Seq<Seq<u16>>) -> Option<u16> {
    if params.len() > 0 && params[0].len() > 0 {
        Some(params[0][0])
    } else {
        None
    }
}

/// The first value of the second parameter group, if any.
pub open spec fn second_param(params: Seq<Seq<u16>>) -> Option<u16> {
    if params.len() > 1 && params[1].len() > 0 {
        Some(params[1][0])
    } else {
        None
    }
}

pub open spec fn param_or(p: Option<u16>, default: u16) -> u16 {
    match p {
        Some(v) => v,
        None => default,
    }
}

/// A count parameter: absent or zero means one.
pub open spec fn count_of(p: Option<u16>) -> nat {
    let v = param_or(p, 1);
    if v == 0 {
        1
    } else {
        v as nat
    }
}

/// One SGR code other than the extended-color introducers 38 and 48.
pub open spec fn sgr_code(sgr: SgrState, code: u16) -> SgrState {
    if code == 0 {
        default_sgr()
    } else if code == 1 {
        SgrState { bold: true, ..sgr }
    } else if code == 2 {
        SgrState { dim: true, ..sgr }
    } else if code == 3 {
        SgrState { italic: true, ..sgr }
    } else if code == 4 {
        SgrState { underline: true, ..sgr }
    } else if code == 9 {
        SgrState { strikethrough: true, ..sgr }
    } else if code == 22 {
        SgrState { bold: false, dim: false, ..sgr }
    } else if code == 23 {
        SgrState { italic: false, ..sgr }
    } else if code == 24 {
        SgrState { underline: false, ..sgr }
    } else if code == 29 {
        SgrState { strikethrough: false, ..sgr }
    } else if 30 <= code <= 37 {
        SgrState { fg: spec_basic_color((code - 30) as u16), ..sgr }
    } else if code == 39 {
        SgrState { fg: spec_default_fg(), ..sgr }
    } else if 40 <= code <= 47 {
        SgrState { bg: spec_basic_color((code - 40) as u16), ..sgr }
    } else if code == 49 {
        SgrState { bg: spec_default_bg(), ..sgr }
    } else if 90 <= code <= 97 {
        SgrState { fg: spec_bright_color((code - 90) as u16), ..sgr }
    } else if 100 <= code <= 107 {
        SgrState { bg: spec_bright_color((code - 100) as u16), ..sgr }
    } else {
        sgr
    }
}

/// The low byte of the first value of group `j`, or 0 past the end.
pub open spec fn param_byte(params: Seq<Seq<u16>>, j: int) -> u8 {
    if 0 <= j < params.len() {
        (params[j][0] % 256) as u8
    } else {
        0
    }
}

pub open spec fn set_pen_color(sgr: SgrState, code: u16, c: Color) -> SgrState {
    if code == 38 {
        SgrState { fg: c, ..sgr }
    } else {
        SgrState { bg: c, ..sgr }
    }
}

pub open spec fn min_int(a: int, b: int) -> int {
    if a <= b {
        a
    } else {
        b
    }
}

/// Apply the SGR parameter groups from index `i` on, left to right:
/// `38;2;r;g;b` / `48;2;r;g;b` set a 24-bit color, `38;5;n` / `48;5;n` a
/// palette color, and each other code is applied by [`sgr_code`].
pub open spec fn sgr_apply(sgr: SgrState, params: Seq<Seq<u16>>, i: int) -> SgrState
    decreases params.len() - i,
{
    if i < 0 || i >= params.len() {
        sgr
    } else {
        let code = params[i][0];
        if code == 38 || code == 48 {
            if i + 1 < params.len() {
                let sub = params[i + 1][0];
                if sub == 2 {
                    let c = spec_rgb(
                        param_byte(params, i + 2),
                        param_byte(params, i + 3),
                        param_byte(params, i + 4),
                    );
                    sgr_apply(set_pen_color(sgr, code, c), params, min_int(i + 5, params.len() as int))
                } else if sub == 5 {
                    let c = spec_from_256(param_byte(params, i + 2));
                    sgr_apply(set_pen_color(sgr, code, c), params, min_int(i + 3, params.len() as int))
                } else {
                    sgr_apply(sgr, params, i + 2)
                }
            } else {
                sgr
            }
        } else {
            sgr_apply(sgr_code(sgr, code), params, i + 1)
        }
    }
}

/// `?`, the marker of DEC private modes.
pub open spec fn private_marker() -> u8 {
    0x3F
}

/// CSI dispatch: cursor movement (A B C D H f), erasing (J K), SGR (m),
/// save/restore cursor (s u) and the DEC private modes 1049 (alternate
/// screen) and 2026 (synchronized output; its end sets `sync_end_seen`).
pub open spec fn step_csi(s: VtState, params: Seq<Seq<u16>>, intermediates: Seq<u8>, action: char) -> VtState {
    let n = count_of(first_param(params));
    if action == 'A' {
        VtState { cursor_row: sat_sub(s.cursor_row, n), ..s }
    } else if action == 'B' {
        VtState { cursor_row: min_nat(s.cursor_row + n, sat_sub(s.height, 1)), ..s }
    } else if action == 'C' {
        VtState { cursor_col: min_nat(s.cursor_col + n, sat_sub(s.width, 1)), ..s }
    } else if action == 'D' {
        VtState { cursor_col: sat_sub(s.cursor_col, n), ..s }
    } else if action == 'H' || action == 'f' {
        VtState {
            cursor_row: min_nat(sat_sub(n, 1), sat_sub(s.height, 1)),
            cursor_col: min_nat(sat_sub(count_of(second_param(params)), 1), sat_sub(s.width, 1)),
            ..s
        }
    } else if action == 'J' {
        erase_display(s, param_or(first_param(params), 0))
    } else if action == 'K' {
        erase_line(s, param_or(first_param(params), 0))
    } else if action == 'm' {
        VtState { sgr: sgr_apply(s.sgr, params, 0), ..s }
    } else if action == 's' {
        VtState { saved_cursor: Some((s.cursor_row, s.cursor_col)), ..s }
    } else if action == 'u' {
        match s.saved_cursor {
            Some((r, c)) => VtState { cursor_row: r, cursor_col: c, ..s },
            None => s,
        }
    } else if (action == 'h' || action == 'l') && intermediates.contains(private_marker()) {
        let mode = param_or(first_param(params), 0);
        if mode == 1049 {
            VtState { alt_screen: action == 'h', ..s }
        } else if mode == 2026 && action == 'l' {
            VtState { sync_end_seen: true, ..s }
        } else {
            s
        }
    } else {
        s
    }
}

/// The effect of one parser callback.
pub open spec fn step(s: VtState, a: ActionView) -> VtState {
    match a {
        ActionView::Print(c) => step_print(s, c),
        ActionView::Execute(b) => step_execute(s, b),
        ActionView::Csi(params, intermediates, action) => step_csi(s, params, intermediates, action),
    }
}

/// The effect of a sequence of parser callbacks, applied in order.
pub open spec fn run(s: VtState, actions: Seq<ActionView>) -> VtState
    decreases actions.len(),
{
    if actions.len() == 0 {
        s
    } else {
        step(run(s, actions.drop_last()), actions.last())
    }
}

/// Resizing keeps the overlapping top-left part of the grid, fills the rest
/// with blank cells and pulls the cursor inside the new grid.
pub open spec fn resized(s: VtState, width: nat, height: nat) -> VtState {
    VtState {
        width,
        height,
        cells: Seq::new(
            height,
            |r: int|
                Seq::new(
                    width,
                    |c: int|
                        if r < s.height && c < s.width {
                            s.cells[r][c]
                        } else {
                            blank_cell()
                        },
                ),
        ),
        cursor_row: min_nat(s.cursor_row, sat_sub(height, 1)),
        cursor_col: min_nat(s.cursor_col, sat_sub(width, 1)),
        ..s
    }
}

/// Virtual terminal: grid of cells with cursor and SGR state.
pub struct VirtualTerminal {
    pub width: usize,
    pub height: usize,
    pub cells: Vec<Vec<Cell>>,
    pub cursor_row: usize,
    pub cursor_col: usize,
    pub sgr: SgrState,
    pub saved_cursor: Option<(usize, usize)>,
    /// Whether the alternate screen buffer is active.
    pub alt_screen: bool,
    /// Flag set when sync-end (CSI ?2026l) is received.
    pub sync_end_seen: bool,
}

pub open spec fn cells_view(cells: Seq<Vec<Cell>>) -> Seq<Seq<Cell>> {
    cells.map_values(|row: Vec<Cell>| row@)
}

pub open spec fn saved_view(saved: Option<(usize, usize)>) -> Option<(nat, nat)> {
    match saved {
        Some((r, c)) => Some((r as nat, c as nat)),
        None => None,
    }
}

impl View for VirtualTerminal {
    type V = VtState;

    open spec fn view(&self) -> VtState {
        VtState {
            width: self.width as nat,
            height: self.height as nat,
            cells: cells_view(self.cells@),
            cursor_row: self.cursor_row as nat,
            cursor_col: self.cursor_col as nat,
            sgr: self.sgr,
            saved_cursor: saved_view(self.saved_cursor),
            alt_screen: self.alt_screen,
            sync_end_seen: self.sync_end_seen,
        }
    }
}

fn blank_row_vec(width: usize) -> (row: Vec<Cell>)
    ensures
        row@ == blank_row(width as nat),
{
    let mut row: Vec<Cell> = Vec::new();
    for c in 0..width
        invariant
            row@ == blank_row(c as nat),
    {
        row.push(Cell::default());
        assert(row@ =~= blank_row((c + 1) as nat));
    }
    row
}

impl VirtualTerminal {
    pub fn new(width: usize, height: usize) -> (vt: Self)
        ensures
            vt@ == initial_state(width as nat, height as nat),
    {
        let mut cells: Vec<Vec<Cell>> = Vec::new();
        for r in 0..height
            invariant
                cells@.len() == r,
                cells_view(cells@) =~= Seq::new(r as nat, |i: int| blank_row(width as nat)),
        {
            let row = blank_row_vec(width);
            let ghost prev = cells@;
            cells.push(row);
            assert(cells@ == prev.push(row));
            assert forall|i: int| 0 <= i < r implies cells_view(cells@)[i] == blank_row(width as nat) by {
                assert(cells_view(prev)[i] == blank_row(width as nat));
            }
            assert(cells_view(cells@)[r as int] == blank_row(width as nat));
            assert(cells_view(cells@) =~= Seq::new((r + 1) as nat, |i: int| blank_row(width as nat)));
        }
        let vt = VirtualTerminal {
            width,
            height,
            cells,
            cursor_row: 0,
            cursor_col: 0,
            sgr: SgrState::default(),
            saved_cursor: None,
            alt_screen: false,
            sync_end_seen: false,
        };
        assert(vt@.cells =~= initial_state(width as nat, height as nat).cells);
        vt
    }

    /// Get plain text of a row.
    pub fn row_text(&self, row: usize) -> (text: String)
        requires
            grid_ok(self@),
        ensures
            row < self.height ==> text@ == row_chars(self@.cells[row as int]),
            row >= self.height ==> text@ == Seq::<char>::empty(),
    {
        let mut text = String::new();
        if row >= self.height {
            return text;
        }
        let cells = &self.cells[row];
        assert(cells@ == self@.cells[row as int]);
        for c in 0..cells.len()
            invariant
                cells@ == self@.cells[row as int],
                text@ == row_chars(cells@.take(c as int)),
        {
            string_push(&mut text, cells[c].ch);
            assert(row_chars(cells@.take(c + 1)) =~= row_chars(cells@.take(c as int)).push(cells@[c as int].ch));
        }
        assert(cells@.take(cells@.len() as int) =~= cells@);
        text
    }

    /// Get all rows as plain text.
    pub fn all_text(&self) -> (lines: Vec<String>)
        requires
            grid_ok(self@),
        ensures
            lines@.len() == self.height,
            forall|r: int| 0 <= r < self.height ==> (#[trigger] lines@[r])@ == row_chars(self@.cells[r]),
    {
        let mut lines: Vec<String> = Vec::new();
        for r in 0..self.height
            invariant
                grid_ok(self@),
                lines@.len() == r,
                forall|i: int| 0 <= i < r ==> (#[trigger] lines@[i])@ == row_chars(self@.cells[i]),
        {
            let t = self.row_text(r);
            lines.push(t);
        }
        lines
    }

    fn put_char(&mut self, ch: char)
        requires
            grid_ok(old(self)@),
        ensures
            final(self)@ == step_print(old(self)@, ch),
    {
        if self.cursor_row < self.height && self.cursor_col < self.width {
            let cell = Cell {
                ch,
                fg: self.sgr.fg,
                bg: self.sgr.bg,
                bold: self.sgr.bold,
                dim: self.sgr.dim,
                italic: self.sgr.italic,
                underline: self.sgr.underline,
                strikethrough: self.sgr.strikethrough,
            };
            let row = self.cursor_row;
            let col = self.cursor_col;
            self.cells[row][col] = cell;
            self.cursor_col = col + 1;
            if self.cursor_col >= self.width {
                self.cursor_col = self.width - 1;
            }
            assert(cells_view(self.cells@) =~= old(self)@.cells.update(
                row as int,
                old(self)@.cells[row as int].update(col as int, styled(ch, old(self)@.sgr)),
            ));
        }
    }

    /// Blank the cells `from..to` of row `r`.
    fn blank_span(&mut self, r: usize, from: usize, to: usize)
        requires
            r < old(self).cells@.len(),
            from <= to <= old(self).cells@[r as int]@.len(),
        ensures
            final(self)@ == (VtState { cells: final(self)@.cells, ..old(self)@ }),
            cells_match(
                final(self)@.cells,
                old(self)@.cells,
                |rr: int, c: int| rr == r && from <= c < to,
            ),
    {
        let ghost v0 = self@.cells;
        for c in from..to
            invariant
                r < self.cells@.len(),
                to <= self.cells@[r as int]@.len(),
                self@ == (VtState { cells: self@.cells, ..old(self)@ }),
                v0 == old(self)@.cells,
                cells_match(self@.cells, v0, |rr: int, cc: int| rr == r && from <= cc < c),
        {
            let ghost before = self@.cells;
            self.cells[r][c] = Cell::default();
            assert(self@.cells =~= before.update(r as int, before[r as int].update(c as int, blank_cell())));
            assert forall|rr: int, cc: int|
                0 <= rr < v0.len() && 0 <= cc < v0[rr].len() implies #[trigger] self@.cells[rr][cc] == if rr == r
                && from <= cc < c + 1 {
                blank_cell()
            } else {
                v0[rr][cc]
            } by {
                if rr != r {
                    assert(self@.cells[rr] == before[rr]);
                } else {
                    assert(before[rr][cc] == if rr == r && from <= cc < c { blank_cell() } else { v0[rr][cc] });
                }
            }
        }
    }

    /// Clear the entire grid.
    pub fn clear(&mut self)
        ensures
            final(self)@ == (VtState {
                cells: erase_where(old(self)@.cells, |r: int, c: int| true),
                ..old(self)@
            }),
    {
        let ghost v0 = self@.cells;
        let n = self.cells.len();
        for r in 0..n
            invariant
                n == self.cells@.len(),
                self@ == (VtState { cells: self@.cells, ..old(self)@ }),
                v0 == old(self)@.cells,
                cells_match(self@.cells, v0, |rr: int, c: int| rr < r),
        {
            let m = self.cells[r].len();
            let ghost v1 = self@.cells;
            assert(v1[r as int].len() == v0[r as int].len());
            self.blank_span(r, 0, m);
            proof {
                lemma_cells_match_trans(
                    self@.cells,
                    v1,
                    v0,
                    |rr: int, c: int| rr < r,
                    |rr: int, c: int| rr == r && 0 <= c < m,
                );
                lemma_cells_match_same_pred(
                    self@.cells,
                    v0,
                    |rr: int, c: int| rr < r || (rr == r && 0 <= c < m),
                    |rr: int, c: int| rr < r + 1,
                );
            }
        }
        proof {
            lemma_cells_match_same_pred(self@.cells, v0, |rr: int, c: int| rr < n, |r: int, c: int| true);
            lemma_cells_match_erase(self@.cells, v0, |r: int, c: int| true);
        }
    }

    /// Blank the whole rows `from..to`.
    fn blank_rows(&mut self, from: usize, to: usize)
        requires
            grid_ok(old(self)@),
            from <= to <= old(self).height,
        ensures
            final(self)@ == (VtState { cells: final(self)@.cells, ..old(self)@ }),
            cells_match(final(self)@.cells, old(self)@.cells, |rr: int, c: int| from <= rr < to),
    {
        let ghost v0 = self@.cells;
        let w = self.width;
        for r in from..to
            invariant
                grid_ok(old(self)@),
                to <= old(self).height,
                w == old(self).width,
                self@ == (VtState { cells: self@.cells, ..old(self)@ }),
                v0 == old(self)@.cells,
                cells_match(self@.cells, v0, |rr: int, c: int| from <= rr < r),
        {
            let ghost v1 = self@.cells;
            assert(v1[r as int].len() == v0[r as int].len());
            assert(self.cells@[r as int]@ == v1[r as int]);
            self.blank_span(r, 0, w);
            proof {
                lemma_cells_match_trans(
                    self@.cells,
                    v1,
                    v0,
                    |rr: int, c: int| from <= rr < r,
                    |rr: int, c: int| rr == r && 0 <= c < w,
                );
                lemma_cells_match_same_pred(
                    self@.cells,
                    v0,
                    |rr: int, c: int| from <= rr < r || (rr == r && 0 <= c < w),
                    |rr: int, c: int| from <= rr < r + 1,
                );
            }
        }
    }

    fn erase_in_display(&mut self, mode: u16)
        requires
            grid_ok(old(self)@),
            !(mode == 0 && old(self).cursor_col < old(self).width && old(self).cursor_row >= old(self).height),
            !(mode == 1 && (old(self).width == 0 || old(self).cursor_row >= old(self).height)),
        ensures
            final(self)@ == erase_display(old(self)@, mode),
    {
        let ghost v0 = self@.cells;
        let row = self.cursor_row;
        let col = self.cursor_col;
        let w = self.width;
        let h = self.height;
        if mode == 0 {
            // Clear from cursor to end of screen.
            if col < w {
                assert(self.cells@[row as int]@ == v0[row as int]);
                self.blank_span(row, col, w);
            } else {
                proof { lemma_cells_match_refl(v0); lemma_cells_match_same_pred(v0, v0, |r: int, c: int| false, |rr: int, c: int| rr == row && col <= c < w); }
            }
            let ghost v1 = self@.cells;
            if row < h {
                self.blank_rows(row + 1, h);
            } else {
                proof { lemma_cells_match_refl(v1); lemma_cells_match_same_pred(v1, v1, |r: int, c: int| false, |rr: int, c: int| row + 1 <= rr < h); }
            }
            proof {
                lemma_cells_match_trans(
                    self@.cells,
                    v1,
                    v0,
                    |rr: int, c: int| rr == row && col <= c < w,
                    |rr: int, c: int| row + 1 <= rr < h,
                );
                let p = |r: int, c: int| r > row || (r == row && c >= col);
                lemma_cells_match_same_pred(
                    self@.cells,
                    v0,
                    |rr: int, c: int| (rr == row && col <= c < w) || (row + 1 <= rr < h),
                    p,
                );
                lemma_cells_match_erase(self@.cells, v0, p);
            }
        } else if mode == 1 {
            // Clear from start of screen to cursor.
            self.blank_rows(0, row);
            let ghost v1 = self@.cells;
            let last = if col < w - 1 { col } else { w - 1 };
            assert(v1[row as int].len() == v0[row as int].len());
            assert(self.cells@[row as int]@ == v1[row as int]);
            self.blank_span(row, 0, last + 1);
            proof {
                lemma_cells_match_trans(
                    self@.cells,
                    v1,
                    v0,
                    |rr: int, c: int| 0 <= rr < row,
                    |rr: int, c: int| rr == row && 0 <= c < last + 1,
                );
                let p = |r: int, c: int| r < row || (r == row && c <= min_nat(col as nat, sat_sub(w as nat, 1)));
                lemma_cells_match_same_pred(
                    self@.cells,
                    v0,
                    |rr: int, c: int| (0 <= rr < row) || (rr == row && 0 <= c < last + 1),
                    p,
                );
                lemma_cells_match_erase(self@.cells, v0, p);
            }
        } else if mode == 2 || mode == 3 {
            // Clear entire screen.
            self.clear();
        }
    }

    fn erase_in_line(&mut self, mode: u16)
        requires
            grid_ok(old(self)@),
            !(mode == 1 && old(self).cursor_row < old(self).height && old(self).width == 0),
        ensures
            final(self)@ == erase_line(old(self)@, mode),
    {
        let ghost v0 = self@.cells;
        let row = self.cursor_row;
        let col = self.cursor_col;
        let w = self.width;
        if row >= self.height {
            return;
        }
        assert(self.cells@[row as int]@ == v0[row as int]);
        if mode == 0 {
            // Clear from cursor to end of line.
            if col < w {
                self.blank_span(row, col, w);
            } else {
                proof { lemma_cells_match_refl(v0); lemma_cells_match_same_pred(v0, v0, |r: int, c: int| false, |rr: int, c: int| rr == row && col <= c < w); }
            }
            proof {
                let p = |r: int, c: int| r == row && c >= col;
                lemma_cells_match_same_pred(self@.cells, v0, |rr: int, c: int| rr == row && col <= c < w, p);
                lemma_cells_match_erase(self@.cells, v0, p);
            }
        } else if mode == 1 {
            // Clear from start of line to cursor.
            let last = if col < w - 1 { col } else { w - 1 };
            self.blank_span(row, 0, last + 1);
            proof {
                let p = |r: int, c: int| r == row && c <= min_nat(col as nat, sat_sub(w as nat, 1));
                lemma_cells_match_same_pred(self@.cells, v0, |rr: int, c: int| rr == row && 0 <= c < last + 1, p);
                lemma_cells_match_erase(self@.cells, v0, p);
            }
        } else if mode == 2 {
            // Clear entire line.
            self.blank_span(row, 0, w);
            proof {
                let p = |r: int, c: int| r == row;
                lemma_cells_match_same_pred(self@.cells, v0, |rr: int, c: int| rr == row && 0 <= c < w, p);
                lemma_cells_match_erase(self@.cells, v0, p);
            }
        }
    }

    /// Resize the terminal grid.
    pub fn resize(&mut self, width: usize, height: usize)
        requires
            grid_ok(old(self)@),
        ensures
            final(self)@ == resized(old(self)@, width as nat, height as nat),
            grid_ok(final(self)@),
    {
        let ghost target = resized(self@, width as nat, height as nat);
        let mut new_cells: Vec<Vec<Cell>> = Vec::new();
        for r in 0..height
            invariant
                grid_ok(old(self)@),
                self@ == old(self)@,
                target == resized(old(self)@, width as nat, height as nat),
                new_cells@.len() == r,
                forall|i: int| 0 <= i < r ==> (#[trigger] new_cells@[i])@ == target.cells[i],
        {
            let mut row: Vec<Cell> = Vec::new();
            for c in 0..width
                invariant
                    grid_ok(old(self)@),
                    self@ == old(self)@,
                    target == resized(old(self)@, width as nat, height as nat),
                    r < height,
                    row@.len() == c,
                    forall|j: int| 0 <= j < c ==> #[trigger] row@[j] == target.cells[r as int][j],
            {
                if r < self.height && c < self.width {
                    assert(self.cells@[r as int]@ == self@.cells[r as int]);
                    row.push(self.cells[r][c]);
                } else {
                    row.push(Cell::default());
                }
            }
            assert(row@ =~= target.cells[r as int]);
            new_cells.push(row);
        }
        self.cells = new_cells;
        self.width = width;
        self.height = height;
        let max_row = if height > 0 { height - 1 } else { 0 };
        let max_col = if width > 0 { width - 1 } else { 0 };
        if self.cursor_row > max_row {
            self.cursor_row = max_row;
        }
        if self.cursor_col > max_col {
            self.cursor_col = max_col;
        }
        assert(self@.cells =~= target.cells);
    }

    /// Line feed, carriage return, backspace and horizontal tab.
    pub fn execute(&mut self, byte: u8)
        requires
            grid_ok(old(self)@),
            !action_fails(old(self)@, ActionView::Execute(byte)),
        ensures
            final(self)@ == step_execute(old(self)@, byte),
            grid_ok(final(self)@),
    {
        if byte == 0x0D {
            // CR
            self.cursor_col = 0;
        } else if byte == 0x0A {
            // LF
            if self.cursor_row >= self.height - 1 {
                // Scroll up: shift rows up by one, clear last row.
                let ghost v0 = self@.cells;
                self.cells.remove(0);
                let row = blank_row_vec(self.width);
                self.cells.push(row);
                self.cursor_row = self.height - 1;
                assert(self@.cells =~= v0.drop_first().push(blank_row(self.width as nat)));
            } else {
                self.cursor_row = self.cursor_row + 1;
            }
        } else if byte == 0x08 {
            // BS
            if self.cursor_col > 0 {
                self.cursor_col = self.cursor_col - 1;
            }
        } else if byte == 0x09 {
            // Tab
            let q = self.cursor_col / 8;
            if q >= (self.width - 1) / 8 {
                self.cursor_col = self.width - 1;
            } else {
                self.cursor_col = (q + 1) * 8;
            }
        }
    }

    /// Print a character at the cursor.
    pub fn print(&mut self, ch: char)
        requires
            grid_ok(old(self)@),
        ensures
            final(self)@ == step_print(old(self)@, ch),
            grid_ok(final(self)@),
    {
        self.put_char(ch);
    }

    /// Parse SGR parameters: `38;2;r;g;b`, `48;2;r;g;b`, `38;5;n`, `48;5;n`
    /// and the basic codes.
    fn apply_sgr(&mut self, params: &Vec<Vec<u16>>)
        requires
            forall|j: int| 0 <= j < params@.len() ==> (#[trigger] params@[j])@.len() > 0,
        ensures
            final(self)@ == (VtState { sgr: sgr_apply(old(self)@.sgr, groups_view(params@), 0), ..old(self)@ }),
    {
        let ghost ps = groups_view(params@);
        let n = params.len();
        let mut sgr = self.sgr;
        let mut i: usize = 0;
        while i < n
            invariant
                n == params@.len(),
                ps == groups_view(params@),
                i <= n,
                forall|j: int| 0 <= j < params@.len() ==> (#[trigger] params@[j])@.len() > 0,
                sgr_apply(sgr, ps, i as int) == sgr_apply(old(self)@.sgr, ps, 0),
            decreases n - i,
        {
            assert(params@[i as int]@ == ps[i as int]);
            let code = params[i][0];
            if code == 38 || code == 48 {
                // Extended color.
                if i + 1 < n {
                    assert(params@[i + 1]@ == ps[i + 1]);
                    let sub = params[i + 1][0];
                    if sub == 2 {
                        // 24-bit: 38;2;r;g;b
                        let r = param_byte_at(params, i, 2);
                        let g = param_byte_at(params, i, 3);
                        let b = param_byte_at(params, i, 4);
                        sgr = pen_with_color(sgr, code, Color::rgb(r, g, b));
                        i = if n - i >= 5 { i + 5 } else { n };
                    } else if sub == 5 {
                        // 256-color: 38;5;n
                        let idx = param_byte_at(params, i, 2);
                        sgr = pen_with_color(sgr, code, Color::from_256(idx));
                        i = if n - i >= 3 { i + 3 } else { n };
                    } else {
                        i = i + 2;
                    }
                } else {
                    i = n;
                }
            } else {
                sgr = sgr_code_exec(sgr, code);
                i = i + 1;
            }
        }
        self.sgr = sgr;
    }

    /// A complete CSI sequence.
    pub fn csi_dispatch(&mut self, params: &Vec<Vec<u16>>, intermediates: &Vec<u8>, action: char)
        requires
            grid_ok(old(self)@),
            !action_fails(old(self)@, ActionView::Csi(groups_view(params@), intermediates@, action)),
            action == 'm' ==> forall|j: int| 0 <= j < params@.len() ==> (#[trigger] params@[j])@.len() > 0,
        ensures
            final(self)@ == step_csi(old(self)@, groups_view(params@), intermediates@, action),
            grid_ok(final(self)@),
    {
        let ghost ps = groups_view(params@);
        let first = nth_first_value(params, 0);
        let n = count_value(first);
        let max_row = if self.height > 0 { self.height - 1 } else { 0 };
        let max_col = if self.width > 0 { self.width - 1 } else { 0 };
        if action == 'A' {
            // Cursor Up
            self.cursor_row = if self.cursor_row >= n { self.cursor_row - n } else { 0 };
        } else if action == 'B' {
            // Cursor Down
            self.cursor_row = if self.cursor_row >= max_row || n >= max_row - self.cursor_row {
                max_row
            } else {
                self.cursor_row + n
            };
        } else if action == 'C' {
            // Cursor Forward
            self.cursor_col = if self.cursor_col >= max_col || n >= max_col - self.cursor_col {
                max_col
            } else {
                self.cursor_col + n
            };
        } else if action == 'D' {
            // Cursor Back
            self.cursor_col = if self.cursor_col >= n { self.cursor_col - n } else { 0 };
        } else if action == 'H' || action == 'f' {
            // Cursor Position (CUP) / Horizontal Vertical Position (HVP)
            let col = count_value(nth_first_value(params, 1));
            self.cursor_row = if n - 1 < max_row { n - 1 } else { max_row };
            self.cursor_col = if col - 1 < max_col { col - 1 } else { max_col };
        } else if action == 'J' {
            // Erase in Display
            let mode = match first { Some(v) => v, None => 0 };
            self.erase_in_display(mode);
        } else if action == 'K' {
            // Erase in Line
            let mode = match first { Some(v) => v, None => 0 };
            self.erase_in_line(mode);
        } else if action == 'm' {
            // SGR
            self.apply_sgr(params);
        } else if action == 's' {
            // Save cursor position
            self.saved_cursor = Some((self.cursor_row, self.cursor_col));
        } else if action == 'u' {
            // Restore cursor position
            if let Some((r, c)) = self.saved_cursor {
                self.cursor_row = r;
                self.cursor_col = c;
            }
        } else if action == 'h' || action == 'l' {
            // DEC private mode set/reset: the parser hands the `?` marker
            // over among the intermediates.
            if contains_byte(intermediates, 0x3F) {
                let mode = match first { Some(v) => v, None => 0 };
                let set = action == 'h';
                if mode == 1049 {
                    self.alt_screen = set;
                } else if mode == 2026 {
                    if !set {
                        self.sync_end_seen = true;
                    }
                }
            }
        }
    }

    /// One parser callback.
    fn perform(&mut self, action: &VtAction)
        requires
            grid_ok(old(self)@),
            groups_nonempty(action@),
            !action_fails(old(self)@, action@),
        ensures
            final(self)@ == step(old(self)@, action@),
            grid_ok(final(self)@),
    {
        match action {
            VtAction::Print(c) => self.print(*c),
            VtAction::Execute(b) => self.execute(*b),
            VtAction::Csi { params, intermediates, action } => {
                assert forall|j: int| 0 <= j < params@.len() implies (#[trigger] params@[j])@.len() > 0 by {
                    assert(groups_view(params@)[j] == params@[j]@);
                }
                self.csi_dispatch(params, intermediates, *action);
            },
        }
    }

    /// Perform the parser callbacks in order.
    fn perform_all(&mut self, actions: &Vec<VtAction>)
        requires
            grid_ok(old(self)@),
            csi_groups_nonempty(actions_view(actions@)),
            run_ok(old(self)@, actions_view(actions@)),
        ensures
            final(self)@ == run(old(self)@, actions_view(actions@)),
            grid_ok(final(self)@),
    {
        let ghost acts = actions_view(actions@);
        for i in 0..actions.len()
            invariant
                acts == actions_view(actions@),
                csi_groups_nonempty(acts),
                grid_ok(self@),
                run_ok(old(self)@, acts),
                self@ == run(old(self)@, acts.take(i as int)),
        {
            assert(acts.take(i + 1).drop_last() =~= acts.take(i as int));
            assert(acts.take(i + 1).last() == actions@[i as int]@);
            assert(acts[i as int] == actions@[i as int]@);
            proof {
                lemma_run_ok_prefix(old(self)@, acts, i + 1);
            }
            assert(groups_nonempty(acts[i as int]));
            self.perform(&actions[i]);
        }
        assert(acts.take(actions@.len() as int) =~= acts);
    }

    /// Feed raw bytes through the ANSI parser.
    pub fn feed(&mut self, data: &[u8])
        requires
            grid_ok(old(self)@),
            run_ok(old(self)@, vte_actions(data@)),
        ensures
            final(self)@ == run(old(self)@, vte_actions(data@)),
            grid_ok(final(self)@),
            final(self).width == old(self).width,
            final(self).height == old(self).height,
            final(self).sync_end_seen == (old(self).sync_end_seen || exists|i: int|
                0 <= i < vte_actions(data@).len() && is_sync_end(#[trigger] vte_actions(data@)[i])),
    {
        let actions = vte_tokenize(data);
        self.perform_all(&actions);
        proof {
            lemma_sync_end_flag(old(self)@, vte_actions(data@));
        }
    }

    /// Feed raw bytes through the ANSI parser if none of the actions they
    /// make fails (see [`action_fails`]; none does in a settled grid with
    /// rows and columns); otherwise leave the terminal as it is.  Returns
    /// whether the bytes were fed.
    pub fn try_feed(&mut self, data: &[u8]) -> (fed: bool)
        requires
            grid_ok(old(self)@),
        ensures
            fed == run_ok(old(self)@, vte_actions(data@)),
            fed ==> final(self)@ == run(old(self)@, vte_actions(data@)),
            fed ==> final(self).sync_end_seen == (old(self).sync_end_seen || exists|i: int|
                0 <= i < vte_actions(data@).len() && is_sync_end(#[trigger] vte_actions(data@)[i])),
            !fed ==> final(self)@ == old(self)@,
            grid_ok(final(self)@),
    {
        proof {
            lemma_sync_end_flag(old(self)@, vte_actions(data@));
        }
        let actions = vte_tokenize(data);
        let ghost acts = actions_view(actions@);
        let mut probe = self.duplicate();
        assert(acts.take(0) =~= Seq::<ActionView>::empty());
        for i in 0..actions.len()
            invariant
                acts == actions_view(actions@),
                acts == vte_actions(data@),
                csi_groups_nonempty(acts),
                grid_ok(probe@),
                self@ == old(self)@,
                grid_ok(self@),
                run_ok(old(self)@, acts.take(i as int)),
                probe@ == run(old(self)@, acts.take(i as int)),
        {
            assert(acts.take(i + 1).drop_last() =~= acts.take(i as int));
            assert(acts.take(i + 1).last() == actions@[i as int]@);
            assert(acts[i as int] == actions@[i as int]@);
            if probe.would_fail(&actions[i]) {
                proof {
                    if run_ok(old(self)@, acts) {
                        lemma_run_ok_prefix(old(self)@, acts, i + 1);
                    }
                }
                return false;
            }
            assert(groups_nonempty(acts[i as int]));
            probe.perform(&actions[i]);
        }
        assert(acts.take(actions@.len() as int) =~= acts);
        *self = probe;
        true
    }

    /// Whether the action would fail in the current state.
    fn would_fail(&self, action: &VtAction) -> (b: bool)
        ensures
            b == action_fails(self@, action@),
    {
        match action {
            VtAction::Print(_) => false,
            VtAction::Execute(b) => (*b == 0x0A && self.height == 0) || (*b == 0x09 && self.width == 0),
            VtAction::Csi { params, intermediates: _, action } => {
                let mode = match nth_first_value(params, 0) {
                    Some(v) => v,
                    None => 0,
                };
                (*action == 'J' && mode == 0 && self.cursor_col < self.width && self.cursor_row >= self.height)
                    || (*action == 'J' && mode == 1 && (self.width == 0 || self.cursor_row >= self.height))
                    || (*action == 'K' && mode == 1 && self.cursor_row < self.height && self.width == 0)
            },
        }
    }

    /// A copy of the terminal.
    fn duplicate(&self) -> (d: Self)
        ensures
            d@ == self@,
    {
        let mut cells: Vec<Vec<Cell>> = Vec::new();
        let n = self.cells.len();
        for r in 0..n
            invariant
                n == self.cells@.len(),
                cells@.len() == r,
                forall|i: int| 0 <= i < r ==> (#[trigger] cells@[i])@ == self.cells@[i]@,
        {
            let src = &self.cells[r];
            let mut row: Vec<Cell> = Vec::new();
            for c in 0..src.len()
                invariant
                    row@ == src@.take(c as int),
            {
                row.push(src[c]);
                assert(row@ =~= src@.take(c + 1));
            }
            assert(src@.take(src@.len() as int) =~= src@);
            cells.push(row);
        }
        let d = VirtualTerminal {
            width: self.width,
            height: self.height,
            cells,
            cursor_row: self.cursor_row,
            cursor_col: self.cursor_col,
            sgr: self.sgr,
            saved_cursor: self.saved_cursor,
            alt_screen: self.alt_screen,
            sync_end_seen: self.sync_end_seen,
        };
        assert(d@.cells =~= self@.cells);
        d
    }
}

/// The low byte of the first value of group `i + k`, or 0 past the end.
fn param_byte_at(params: &Vec<Vec<u16>>, i: usize, k: usize) -> (b: u8)
    requires
        i <= params@.len(),
        forall|j: int| 0 <= j < params@.len() ==> (#[trigger] params@[j])@.len() > 0,
    ensures
        b == param_byte(groups_view(params@), i + k),
{
    if k < params.len() - i {
        let j = i + k;
        assert(params@[j as int]@ == groups_view(params@)[j as int]);
        (params[j][0] % 256) as u8
    } else {
        0
    }
}

/// The first value of group `k`, if there is such a group and it is not empty.
fn nth_first_value(params: &Vec<Vec<u16>>, k: usize) -> (v: Option<u16>)
    requires
        k <= 1,
    ensures
        k == 0 ==> v == first_param(groups_view(params@)),
        k == 1 ==> v == second_param(groups_view(params@)),
{
    if k < params.len() && params[k].len() > 0 {
        assert(params@[k as int]@ == groups_view(params@)[k as int]);
        Some(params[k][0])
    } else {
        proof {
            if k < params@.len() {
                assert(params@[k as int]@ == groups_view(params@)[k as int]);
            }
        }
        None
    }
}

fn count_value(p: Option<u16>) -> (n: usize)
    ensures
        n == count_of(p),
        n >= 1,
{
    let v = match p {
        Some(v) => v,
        None => 1,
    };
    if v == 0 {
        1
    } else {
        v as usize
    }
}

fn contains_byte(v: &Vec<u8>, b: u8) -> (r: bool)
    ensures
        r == v@.contains(b),
{
    for i in 0..v.len()
        invariant
            forall|j: int| 0 <= j < i ==> v@[j] != b,
    {
        if v[i] == b {
            assert(v@[i as int] == b);
            return true;
        }
    }
    false
}

fn pen_with_color(sgr: SgrState, code: u16, c: Color) -> (r: SgrState)
    ensures
        r == set_pen_color(sgr, code, c),
{
    if code == 38 {
        SgrState { fg: c, ..sgr }
    } else {
        SgrState { bg: c, ..sgr }
    }
}

fn sgr_code_exec(sgr: SgrState, code: u16) -> (r: SgrState)
    ensures
        r == sgr_code(sgr, code),
{
    match code {
        0 => SgrState::default(),
        1 => SgrState { bold: true, ..sgr },
        2 => SgrState { dim: true, ..sgr },
        3 => SgrState { italic: true, ..sgr },
        4 => SgrState { underline: true, ..sgr },
        9 => SgrState { strikethrough: true, ..sgr },
        22 => SgrState { bold: false, dim: false, ..sgr },
        23 => SgrState { italic: false, ..sgr },
        24 => SgrState { underline: false, ..sgr },
        // 25 (blink off) changes nothing here.
        29 => SgrState { strikethrough: false, ..sgr },
        // Standard foreground colors (30-37)
        30..=37 => SgrState { fg: ansi_basic_color(code - 30), ..sgr },
        39 => SgrState { fg: Color::default_fg(), ..sgr },
        // Standard background colors (40-47)
        40..=47 => SgrState { bg: ansi_basic_color(code - 40), ..sgr },
        49 => SgrState { bg: Color::default_bg(), ..sgr },
        // Bright foreground (90-97)
        90..=97 => SgrState { fg: ansi_bright_color(code - 90), ..sgr },
        // Bright background (100-107)
        100..=107 => SgrState { bg: ansi_bright_color(code - 100), ..sgr },
        _ => sgr,
    }
}

} // verus!

verus! {

/// The end of a synchronized update: `CSI ? 2026 l`.
pub open spec fn is_sync_end(a: ActionView) -> bool {
    match a {
        ActionView::Csi(params, intermediates, action) => action == 'l' && intermediates.contains(
            private_marker(),
        ) && param_or(first_param(params), 0) == 2026,
        _ => false,
    }
}

proof fn lemma_step_sync(s: VtState, a: ActionView)
    ensures
        step(s, a).sync_end_seen == (s.sync_end_seen || is_sync_end(a)),
        step(s, a).width == s.width,
        step(s, a).height == s.height,
{
}

/// Output never clears the sync-end flag, and sets it exactly when it
/// holds the end of a synchronized update: after a run of parser actions
/// the flag is set iff it was set before or one of the actions is
/// `CSI ? 2026 l`.  (A caller that clears the flag before feeding an event
/// thus learns whether that event ended an update.)
pub proof fn lemma_sync_end_flag(s: VtState, actions: Seq<ActionView>)
    ensures
        run(s, actions).sync_end_seen == (s.sync_end_seen || exists|i: int|
            0 <= i < actions.len() && is_sync_end(#[trigger] actions[i])),
        run(s, actions).width == s.width,
        run(s, actions).height == s.height,
    decreases actions.len(),
{
    if actions.len() > 0 {
        let prefix = actions.drop_last();
        lemma_sync_end_flag(s, prefix);
        lemma_step_sync(run(s, prefix), actions.last());
        if s.sync_end_seen || exists|i: int| 0 <= i < prefix.len() && is_sync_end(#[trigger] prefix[i]) {
            if !s.sync_end_seen {
                let i = choose|i: int| 0 <= i < prefix.len() && is_sync_end(#[trigger] prefix[i]);
                assert(actions[i] == prefix[i]);
            }
        } else {
            if exists|i: int| 0 <= i < actions.len() && is_sync_end(#[trigger] actions[i]) {
                let i = choose|i: int| 0 <= i < actions.len() && is_sync_end(#[trigger] actions[i]);
                if i < prefix.len() {
                    assert(prefix[i] == actions[i]);
                }
            }
            if is_sync_end(actions.last()) {
                assert(is_sync_end(actions[actions.len() - 1]));
            }
        }
    }
}

/// Every prefix of a sequence that can be run can be run.
pub proof fn lemma_run_ok_prefix(s: VtState, actions: Seq<ActionView>, k: int)
    requires
        run_ok(s, actions),
        0 <= k <= actions.len(),
    ensures
        run_ok(s, actions.take(k)),
    decreases actions.len(),
{
    if k == actions.len() {
        assert(actions.take(k) =~= actions);
    } else {
        lemma_run_ok_prefix(s, actions.drop_last(), k);
        assert(actions.drop_last().take(k) =~= actions.take(k));
    }
}

/// Erasing keeps the shape of the grid.
proof fn lemma_erase_keeps_grid(s: VtState, pred: spec_fn(int, int) -> bool)
    requires
        grid_ok(s),
    ensures
        grid_ok(VtState { cells: erase_where(s.cells, pred), ..s }),
{
    let e = erase_where(s.cells, pred);
    assert forall|r: int| 0 <= r < s.height implies (#[trigger] e[r]).len() == s.width by {
        assert(s.cells[r].len() == s.width);
    }
}

/// In a settled grid with rows and columns no action fails, and every
/// action leaves the grid settled.
proof fn lemma_step_settled(s: VtState, a: ActionView)
    requires
        settled(s),
        s.width > 0,
        s.height > 0,
    ensures
        !action_fails(s, a),
        settled(step(s, a)),
        step(s, a).width == s.width,
        step(s, a).height == s.height,
{
    lemma_step_sync(s, a);
    match a {
        ActionView::Print(ch) => {
            let t = step_print(s, ch);
            let row = s.cells[s.cursor_row as int].update(s.cursor_col as int, styled(ch, s.sgr));
            assert forall|r: int| 0 <= r < t.height implies (#[trigger] t.cells[r]).len() == t.width by {
                if r == s.cursor_row {
                    assert(t.cells[r] == row);
                } else {
                    assert(t.cells[r] == s.cells[r]);
                }
            }
        },
        ActionView::Execute(b) => {
            let t = step_execute(s, b);
            if b == 0x0A && s.cursor_row + 1 >= s.height {
                let cells = s.cells.drop_first().push(blank_row(s.width));
                assert forall|r: int| 0 <= r < t.height implies (#[trigger] t.cells[r]).len() == t.width by {
                    if r < s.height - 1 {
                        assert(t.cells[r] == s.cells[r + 1]);
                    } else {
                        assert(t.cells[r] == blank_row(s.width));
                    }
                }
            }
        },
        ActionView::Csi(params, intermediates, action) => {
            let mode = param_or(first_param(params), 0);
            if action == 'J' {
                if mode == 0 {
                    lemma_erase_keeps_grid(
                        s,
                        |r: int, c: int| r > s.cursor_row || (r == s.cursor_row && c >= s.cursor_col),
                    );
                } else if mode == 1 {
                    lemma_erase_keeps_grid(
                        s,
                        |r: int, c: int|
                            r < s.cursor_row || (r == s.cursor_row && c <= min_nat(
                                s.cursor_col,
                                sat_sub(s.width, 1),
                            )),
                    );
                } else if mode == 2 || mode == 3 {
                    lemma_erase_keeps_grid(s, |r: int, c: int| true);
                }
            } else if action == 'K' {
                if mode == 0 {
                    lemma_erase_keeps_grid(s, |r: int, c: int| r == s.cursor_row && c >= s.cursor_col);
                } else if mode == 1 {
                    lemma_erase_keeps_grid(
                        s,
                        |r: int, c: int| r == s.cursor_row && c <= min_nat(s.cursor_col, sat_sub(s.width, 1)),
                    );
                } else if mode == 2 {
                    lemma_erase_keeps_grid(s, |r: int, c: int| r == s.cursor_row);
                }
            }
        },
    }
}

/// A settled grid with rows and columns can take any sequence of actions,
/// and stays settled.  Every terminal made by `new` with a non-zero size
/// and changed only by output and `clear` is such a grid.
pub proof fn lemma_settled_takes_all(s: VtState, actions: Seq<ActionView>)
    requires
        settled(s),
        s.width > 0,
        s.height > 0,
    ensures
        run_ok(s, actions),
        settled(run(s, actions)),
        run(s, actions).width == s.width,
        run(s, actions).height == s.height,
    decreases actions.len(),
{
    if actions.len() > 0 {
        lemma_settled_takes_all(s, actions.drop_last());
        lemma_step_settled(run(s, actions.drop_last()), actions.last());
    }
}

/// CSI sequences never change the size of the grid, and all but the erase
/// sequences (J, K) leave every cell as it was: cursor movement, SGR,
/// saving and restoring the cursor and mode changes only move the cursor
/// or change the pen and flags.
pub proof fn lemma_csi_keeps_cells(s: VtState, params: Seq<Seq<u16>>, intermediates: Seq<u8>, action: char)
    ensures
        step_csi(s, params, intermediates, action).width == s.width,
        step_csi(s, params, intermediates, action).height == s.height,
        action != 'J' && action != 'K' ==> step_csi(s, params, intermediates, action).cells == s.cells,
{
}

/// Clearing (and erasing the whole display, modes 2 and 3) leaves exactly
/// the grid of a freshly made terminal of the same size.
pub proof fn lemma_clear_gives_fresh_grid(s: VtState)
    requires
        grid_ok(s),
    ensures
        erase_where(s.cells, |r: int, c: int| true) == initial_state(s.width, s.height).cells,
        erase_display(s, 2).cells == initial_state(s.width, s.height).cells,
        erase_display(s, 3).cells == initial_state(s.width, s.height).cells,
{
    let e = erase_where(s.cells, |r: int, c: int| true);
    let f = initial_state(s.width, s.height).cells;
    assert forall|r: int| 0 <= r < s.height implies e[r] == f[r] by {
        assert(e[r] =~= f[r]);
    }
    assert(e =~= f);
}

/// Resizing to the current size changes nothing.
pub proof fn lemma_resize_same_size(s: VtState)
    requires
        grid_ok(s),
        cursor_in_grid(s),
    ensures
        resized(s, s.width, s.height) == s,
{
    let t = resized(s, s.width, s.height);
    assert forall|r: int| 0 <= r < s.height implies t.cells[r] == s.cells[r] by {
        assert(t.cells[r] =~= s.cells[r]);
    }
    assert(t.cells =~= s.cells);
}

/// Growing a terminal and shrinking it back to its size restores it: the
/// grow keeps every cell and the cursor, and the shrink drops only the
/// blank margin the grow added.
pub proof fn lemma_grow_then_shrink(s: VtState, width: nat, height: nat)
    requires
        grid_ok(s),
        cursor_in_grid(s),
        s.width <= width,
        s.height <= height,
    ensures
        resized(resized(s, width, height), s.width, s.height) == s,
{
    let g = resized(s, width, height);
    let t = resized(g, s.width, s.height);
    assert forall|r: int| 0 <= r < s.height implies t.cells[r] == s.cells[r] by {
        assert(t.cells[r] =~= s.cells[r]);
    }
    assert(t.cells =~= s.cells);
}

} // verus!

verus! {

/// SGR 30-37 set the foreground, and 40-47 the background, to the eight
/// standard ANSI colours in order: black (0,0,0), red (128,0,0), green
/// (0,128,0), yellow (128,128,0), blue (0,0,128), magenta (128,0,128), cyan
/// (0,128,128) and grey (192,192,192); SGR 90-97 and 100-107 to the bright
/// ones: dark grey (128,128,128), red (255,0,0), green (0,255,0), yellow
/// (255,255,0), blue (0,0,255), magenta (255,0,255), cyan (0,255,255) and
/// white (255,255,255).  Characters printed next take that pen.
pub proof fn lemma_sgr_ansi_palette(s: VtState, intermediates: Seq<u8>, ch: char)
    ensures
        grid_ok(s) && s.cursor_row < s.height && s.cursor_col < s.width ==> {
            let cell = step_print(s, ch).cells[s.cursor_row as int][s.cursor_col as int];
            &&& cell.ch == ch
            &&& cell.fg == s.sgr.fg
            &&& cell.bg == s.sgr.bg
        },
        step(s, ActionView::Csi(seq![seq![30u16]], intermediates, 'm')).sgr.fg == (Color { r: 0, g: 0, b: 0 }),
        step(s, ActionView::Csi(seq![seq![31u16]], intermediates, 'm')).sgr.fg == (Color { r: 128, g: 0, b: 0 }),
        step(s, ActionView::Csi(seq![seq![32u16]], intermediates, 'm')).sgr.fg == (Color { r: 0, g: 128, b: 0 }),
        step(s, ActionView::Csi(seq![seq![33u16]], intermediates, 'm')).sgr.fg == (Color { r: 128, g: 128, b: 0 }),
        step(s, ActionView::Csi(seq![seq![34u16]], intermediates, 'm')).sgr.fg == (Color { r: 0, g: 0, b: 128 }),
        step(s, ActionView::Csi(seq![seq![35u16]], intermediates, 'm')).sgr.fg == (Color { r: 128, g: 0, b: 128 }),
        step(s, ActionView::Csi(seq![seq![36u16]], intermediates, 'm')).sgr.fg == (Color { r: 0, g: 128, b: 128 }),
        step(s, ActionView::Csi(seq![seq![37u16]], intermediates, 'm')).sgr.fg == (Color { r: 192, g: 192, b: 192 }),
        step(s, ActionView::Csi(seq![seq![40u16]], intermediates, 'm')).sgr.bg == (Color { r: 0, g: 0, b: 0 }),
        step(s, ActionView::Csi(seq![seq![41u16]], intermediates, 'm')).sgr.bg == (Color { r: 128, g: 0, b: 0 }),
        step(s, ActionView::Csi(seq![seq![42u16]], intermediates, 'm')).sgr.bg == (Color { r: 0, g: 128, b: 0 }),
        step(s, ActionView::Csi(seq![seq![43u16]], intermediates, 'm')).sgr.bg == (Color { r: 128, g: 128, b: 0 }),
        step(s, ActionView::Csi(seq![seq![44u16]], intermediates, 'm')).sgr.bg == (Color { r: 0, g: 0, b: 128 }),
        step(s, ActionView::Csi(seq![seq![45u16]], intermediates, 'm')).sgr.bg == (Color { r: 128, g: 0, b: 128 }),
        step(s, ActionView::Csi(seq![seq![46u16]], intermediates, 'm')).sgr.bg == (Color { r: 0, g: 128, b: 128 }),
        step(s, ActionView::Csi(seq![seq![47u16]], intermediates, 'm')).sgr.bg == (Color { r: 192, g: 192, b: 192 }),
        step(s, ActionView::Csi(seq![seq![90u16]], intermediates, 'm')).sgr.fg == (Color { r: 128, g: 128, b: 128 }),
        step(s, ActionView::Csi(seq![seq![91u16]], intermediates, 'm')).sgr.fg == (Color { r: 255, g: 0, b: 0 }),
        step(s, ActionView::Csi(seq![seq![92u16]], intermediates, 'm')).sgr.fg == (Color { r: 0, g: 255, b: 0 }),
        step(s, ActionView::Csi(seq![seq![93u16]], intermediates, 'm')).sgr.fg == (Color { r: 255, g: 255, b: 0 }),
        step(s, ActionView::Csi(seq![seq![94u16]], intermediates, 'm')).sgr.fg == (Color { r: 0, g: 0, b: 255 }),
        step(s, ActionView::Csi(seq![seq![95u16]], intermediates, 'm')).sgr.fg == (Color { r: 255, g: 0, b: 255 }),
        step(s, ActionView::Csi(seq![seq![96u16]], intermediates, 'm')).sgr.fg == (Color { r: 0, g: 255, b: 255 }),
        step(s, ActionView::Csi(seq![seq![97u16]], intermediates, 'm')).sgr.fg == (Color { r: 255, g: 255, b: 255 }),
        step(s, ActionView::Csi(seq![seq![100u16]], intermediates, 'm')).sgr.bg == (Color { r: 128, g: 128, b: 128 }),
        step(s, ActionView::Csi(seq![seq![101u16]], intermediates, 'm')).sgr.bg == (Color { r: 255, g: 0, b: 0 }),
        step(s, ActionView::Csi(seq![seq![102u16]], intermediates, 'm')).sgr.bg == (Color { r: 0, g: 255, b: 0 }),
        step(s, ActionView::Csi(seq![seq![103u16]], intermediates, 'm')).sgr.bg == (Color { r: 255, g: 255, b: 0 }),
        step(s, ActionView::Csi(seq![seq![104u16]], intermediates, 'm')).sgr.bg == (Color { r: 0, g: 0, b: 255 }),
        step(s, ActionView::Csi(seq![seq![105u16]], intermediates, 'm')).sgr.bg == (Color { r: 255, g: 0, b: 255 }),
        step(s, ActionView::Csi(seq![seq![106u16]], intermediates, 'm')).sgr.bg == (Color { r: 0, g: 255, b: 255 }),
        step(s, ActionView::Csi(seq![seq![107u16]], intermediates, 'm')).sgr.bg == (Color { r: 255, g: 255, b: 255 }),
{
    reveal_with_fuel(sgr_apply, 2);
}

} // verus!
