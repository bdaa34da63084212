//! Framebuffer console: cursor, colours and the ANSI escape parser.
//!
//! The console state decides what to draw; drawing itself (glyphs, fills,
//! scrolling) is described by `DrawOp`s that the caller applies to the
//! framebuffer.

use vstd::prelude::*;

verus! {

/// Width of a glyph in pixels.
pub const CHAR_WIDTH: usize = 8;
/// Height of a glyph in pixels.
pub const CHAR_HEIGHT: usize = 8;
/// Default foreground colour.
pub const COLOR_FG: u32 = 0x00F8F8F2;
/// Default background colour.
pub const COLOR_BG: u32 = 0x00272822;
/// Maximum number of CSI parameters kept.
pub const ANSI_MAX_PARAMS: usize = 8;

/// Foreground colour of SGR codes 30–37.
pub open spec fn ansi_fg(i: int) -> u32 {
    if i == 0 { 0x00555555 } else if i == 1 { 0x00F92672 } else if i == 2 { 0x00A6E22E }
    else if i == 3 { 0x00E6DB74 } else if i == 4 { 0x0066D9EF } else if i == 5 { 0x00AE81FF }
    else if i == 6 { 0x00A1EFE4 } else { 0x00F8F8F2 }
}

/// Background colour of SGR codes 40–47.
pub open spec fn ansi_bg(i: int) -> u32 {
    if i == 0 { 0x00272822 } else if i == 1 { 0x00F92672 } else if i == 2 { 0x00A6E22E }
    else if i == 3 { 0x00E6DB74 } else if i == 4 { 0x0066D9EF } else if i == 5 { 0x00AE81FF }
    else if i == 6 { 0x00A1EFE4 } else { 0x00F8F8F2 }
}

/// Foreground colour of SGR codes 90–97.
pub open spec fn ansi_bright_fg(i: int) -> u32 {
    if i == 0 { 0x00888888 } else if i == 1 { 0x00FF6188 } else if i == 2 { 0x00CCF742 }
    else if i == 3 { 0x00FFE566 } else if i == 4 { 0x0099DDFF } else if i == 5 { 0x00CC99FF }
    else if i == 6 { 0x00C8FAFF } else { 0x00FFFFFF }
}

fn ansi_fg_color(i: u8) -> (c: u32)
    requires
        i < 8,
    ensures
        c == ansi_fg(i as int),
{
    if i == 0 { 0x00555555 } else if i == 1 { 0x00F92672 } else if i == 2 { 0x00A6E22E }
    else if i == 3 { 0x00E6DB74 } else if i == 4 { 0x0066D9EF } else if i == 5 { 0x00AE81FF }
    else if i == 6 { 0x00A1EFE4 } else { 0x00F8F8F2 }
}

fn ansi_bg_color(i: u8) -> (c: u32)
    requires
        i < 8,
    ensures
        c == ansi_bg(i as int),
{
    if i == 0 { 0x00272822 } else if i == 1 { 0x00F92672 } else if i == 2 { 0x00A6E22E }
    else if i == 3 { 0x00E6DB74 } else if i == 4 { 0x0066D9EF } else if i == 5 { 0x00AE81FF }
    else if i == 6 { 0x00A1EFE4 } else { 0x00F8F8F2 }
}

fn ansi_bright_fg_color(i: u8) -> (c: u32)
    requires
        i < 8,
    ensures
        c == ansi_bright_fg(i as int),
{
    if i == 0 { 0x00888888 } else if i == 1 { 0x00FF6188 } else if i == 2 { 0x00CCF742 }
    else if i == 3 { 0x00FFE566 } else if i == 4 { 0x0099DDFF } else if i == 5 { 0x00CC99FF }
    else if i == 6 { 0x00C8FAFF } else { 0x00FFFFFF }
}

/// State of the ANSI escape parser.
#[derive(Clone, Copy, Debug, PartialEq, Eq, Structural)]
pub enum AnsiState {
    /// No escape sequence in progress.
    Normal,
    /// ESC received; waiting for the next byte.
    Escape,
    /// Inside a CSI sequence (ESC [), accumulating parameters.
    Csi,
}

/// A drawing operation on the framebuffer, in character cells.
#[derive(Clone, Copy, Debug, PartialEq, Eq, Structural)]
pub enum DrawOp {
    /// Draw the glyph of `codepoint` at cell (`col`, `row`) in the given colours.
    Glyph { codepoint: u32, col: usize, row: usize, fg: u32, bg: u32 },
    /// Fill row `row` from column `col` to the end of the line with `color`.
    ClearToEndOfLine { col: usize, row: usize, color: u32 },
    /// Fill the whole screen with `color`.
    ClearScreen { color: u32 },
    /// Move every text row up by one and clear the last one with `color`.
    ScrollUp { color: u32 },
    /// Fill the pixel rectangle at (`x`, `y`) of `w` × `h` pixels.
    FillRect { x: usize, y: usize, w: usize, h: usize, color: u32 },
}

/// Console state: geometry in character cells, cursor, colours and the
/// escape parser.
#[derive(Clone, Copy, Debug)]
pub struct ConsoleState {
    pub columns: usize,
    pub rows: usize,
    pub cursor_x: usize,
    pub cursor_y: usize,
    pub current_fg: u32,
    pub current_bg: u32,
    pub ansi_state: AnsiState,
    pub ansi_params: [u8; 8],
    pub ansi_param_count: usize,
    pub ansi_current_param: u8,
}

/// The abstract console state: as `ConsoleState`, with the parameters as
/// a sequence.
pub struct ConsoleView {
    pub columns: usize,
    pub rows: usize,
    pub cursor_x: usize,
    pub cursor_y: usize,
    pub current_fg: u32,
    pub current_bg: u32,
    pub ansi_state: AnsiState,
    pub params: Seq<u8>,
    pub ansi_param_count: usize,
    pub ansi_current_param: u8,
}

impl View for ConsoleState {
    type V = ConsoleView;

    open spec fn view(&self) -> ConsoleView {
        ConsoleView {
            columns: self.columns,
            rows: self.rows,
            cursor_x: self.cursor_x,
            cursor_y: self.cursor_y,
            current_fg: self.current_fg,
            current_bg: self.current_bg,
            ansi_state: self.ansi_state,
            params: self.ansi_params@,
            ansi_param_count: self.ansi_param_count,
            ansi_current_param: self.ansi_current_param,
        }
    }
}

/// Colours after SGR parameter `p`: 0 resets, 30–37/40–47/90–97 pick from
/// the palettes, anything else (bold included) changes nothing.
pub open spec fn sgr(fg: u32, bg: u32, p: u8) -> (u32, u32) {
    if p == 0 {
        (COLOR_FG, COLOR_BG)
    } else if 30 <= p <= 37 {
        (ansi_fg(p - 30), bg)
    } else if 40 <= p <= 47 {
        (fg, ansi_bg(p - 40))
    } else if 90 <= p <= 97 {
        (ansi_bright_fg(p - 90), bg)
    } else {
        (fg, bg)
    }
}

/// Colours after applying the SGR parameters `ps` in order.
pub open spec fn sgr_all(fg: u32, bg: u32, ps: Seq<u8>) -> (u32, u32)
    decreases ps.len(),
{
    if ps.len() == 0 {
        (fg, bg)
    } else {
        let c = sgr_all(fg, bg, ps.drop_last());
        sgr(c.0, c.1, ps.last())
    }
}

/// `a - b`, or 0 when `b > a`.
pub open spec fn sat_sub(a: int, b: int) -> int {
    if a > b { a - b } else { 0 }
}

/// The smaller of two numbers.
pub open spec fn min_int(a: int, b: int) -> int {
    if a < b { a } else { b }
}

impl ConsoleView {
    /// The cursor is on the screen, the screen is not empty and its size
    /// leaves room for cursor arithmetic, and at most eight parameters are
    /// held.
    pub open spec fn wf(&self) -> bool {
        &&& 1 <= self.columns <= usize::MAX / 8
        &&& 1 <= self.rows <= usize::MAX / 8
        &&& self.cursor_x < self.columns
        &&& self.cursor_y < self.rows
        &&& self.ansi_param_count <= 8
        &&& self.params.len() == 8
    }

    /// Parameter `index` of the current sequence, or `default` when absent.
    pub open spec fn param(&self, index: int, default: int) -> int {
        if index < self.ansi_param_count { self.params[index] as int } else { default }
    }

    /// The state after executing the CSI command `command` with the held
    /// parameters (cursor moves clamp to the screen, SGR changes colours).
    pub open spec fn csi_next(&self, command: u8) -> ConsoleView {
        if command == 74 {
            if self.param(0, 0) == 2 { ConsoleView { cursor_x: 0, cursor_y: 0, ..*self } } else { *self }
        } else if command == 72 {
            ConsoleView {
                cursor_y: min_int(sat_sub(self.param(0, 1), 1), sat_sub(self.rows as int, 1)) as usize,
                cursor_x: min_int(sat_sub(self.param(1, 1), 1), sat_sub(self.columns as int, 1)) as usize,
                ..*self
            }
        } else if command == 65 {
            ConsoleView { cursor_y: sat_sub(self.cursor_y as int, self.param(0, 1)) as usize, ..*self }
        } else if command == 66 {
            ConsoleView { cursor_y: min_int(self.cursor_y + self.param(0, 1), sat_sub(self.rows as int, 1)) as usize, ..*self }
        } else if command == 67 {
            ConsoleView { cursor_x: min_int(self.cursor_x + self.param(0, 1), sat_sub(self.columns as int, 1)) as usize, ..*self }
        } else if command == 68 {
            ConsoleView { cursor_x: sat_sub(self.cursor_x as int, self.param(0, 1)) as usize, ..*self }
        } else if command == 109 {
            let ps = if self.ansi_param_count == 0 { seq![0u8] } else { self.params.subrange(0, self.ansi_param_count as int) };
            let c = sgr_all(self.current_fg, self.current_bg, ps);
            ConsoleView { current_fg: c.0, current_bg: c.1, ..*self }
        } else {
            *self
        }
    }

    /// The drawing the CSI command `command` asks for.
    pub open spec fn csi_ops(&self, command: u8) -> Seq<DrawOp> {
        if command == 74 && self.param(0, 0) == 2 {
            seq![DrawOp::ClearScreen { color: self.current_bg }]
        } else if command == 75 && self.param(0, 0) == 0 {
            seq![DrawOp::ClearToEndOfLine { col: self.cursor_x, row: self.cursor_y, color: self.current_bg }]
        } else {
            Seq::empty()
        }
    }

    /// The state with the accumulated parameter pushed (dropped when eight
    /// are held already).
    pub open spec fn pushed_param(&self) -> ConsoleView {
        if self.ansi_param_count < 8 {
            ConsoleView {
                params: self.params.update(self.ansi_param_count as int, self.ansi_current_param),
                ansi_param_count: (self.ansi_param_count + 1) as usize,
                ..*self
            }
        } else {
            *self
        }
    }

    /// Cursor movement and drawing for a printable or control character
    /// outside escape sequences: newline and carriage return move the
    /// cursor; anything else is drawn and advances it, wrapping at the end
    /// of the line; past the last row the screen scrolls.
    pub open spec fn output_next(&self, c: char) -> (ConsoleView, Seq<DrawOp>) {
        let (x, y, ops) = if c == '\n' {
            (0int, self.cursor_y + 1, Seq::<DrawOp>::empty())
        } else if c == '\r' {
            (0int, self.cursor_y as int, Seq::<DrawOp>::empty())
        } else {
            let g = DrawOp::Glyph { codepoint: c as u32, col: self.cursor_x, row: self.cursor_y, fg: self.current_fg, bg: self.current_bg };
            if self.cursor_x + 1 >= self.columns {
                (0int, self.cursor_y + 1, seq![g])
            } else {
                (self.cursor_x + 1, self.cursor_y as int, seq![g])
            }
        };
        if y >= self.rows {
            (ConsoleView { cursor_x: x as usize, cursor_y: (self.rows - 1) as usize, ..*self },
             ops.push(DrawOp::ScrollUp { color: self.current_bg }))
        } else {
            (ConsoleView { cursor_x: x as usize, cursor_y: y as usize, ..*self }, ops)
        }
    }

}

/// Erase in line (CSI `K`, byte 75): with parameter 0 or none it fills the
/// cursor's row from the cursor's column to the end of the line with the
/// current background colour, as one operation, and moves nothing; with
/// another parameter it draws nothing.
pub proof fn lemma_erase_in_line(v: ConsoleView)
    ensures
        (v.ansi_param_count == 0 || v.params[0] == 0) ==> v.csi_ops(75)
            == seq![DrawOp::ClearToEndOfLine { col: v.cursor_x, row: v.cursor_y, color: v.current_bg }],
        v.ansi_param_count > 0 && v.params[0] != 0 ==> v.csi_ops(75) == Seq::<DrawOp>::empty(),
        v.csi_next(75) == v,
{
}

/// Erase in display (CSI `J`, byte 74) with parameter 2 clears the whole
/// screen to the current background colour and homes the cursor; with any
/// other parameter, or none, it does nothing.
pub proof fn lemma_erase_in_display(v: ConsoleView)
    ensures
        v.ansi_param_count > 0 && v.params[0] == 2 ==> v.csi_ops(74) == seq![DrawOp::ClearScreen { color: v.current_bg }]
            && v.csi_next(74) == (ConsoleView { cursor_x: 0, cursor_y: 0, ..v }),
        !(v.ansi_param_count > 0 && v.params[0] == 2) ==> v.csi_ops(74) == Seq::<DrawOp>::empty() && v.csi_next(74) == v,
{
}

/// Cursor movement: CSI `H` (72) with row `r` and column `c` (1-based,
/// each 1 when absent) puts the cursor there, clamped to the screen; CSI
/// `A`/`B`/`C`/`D` (65 to 68) move it up, down, right and left by their
/// parameter (1 when absent), stopping at the screen's edge.  None of
/// them draws anything or changes colours or parameters.
pub proof fn lemma_cursor_movement(v: ConsoleView)
    requires
        v.wf(),
    ensures
        ({
            let d: int = if v.ansi_param_count > 0 { v.params[0] as int } else { 1 };
            let r: int = if v.ansi_param_count > 0 { v.params[0] as int } else { 1 };
            let c: int = if v.ansi_param_count > 1 { v.params[1] as int } else { 1 };
            let top = v.rows - 1;
            let right = v.columns - 1;
            &&& v.csi_next(72).cursor_y == (if r <= 1 { 0 } else if r - 1 > top { top } else { r - 1 })
            &&& v.csi_next(72).cursor_x == (if c <= 1 { 0 } else if c - 1 > right { right } else { c - 1 })
            &&& v.csi_next(65).cursor_y == (if v.cursor_y >= d { v.cursor_y - d } else { 0 })
            &&& v.csi_next(66).cursor_y == (if v.cursor_y + d > top { top } else { v.cursor_y + d })
            &&& v.csi_next(67).cursor_x == (if v.cursor_x + d > right { right } else { v.cursor_x + d })
            &&& v.csi_next(68).cursor_x == (if v.cursor_x >= d { v.cursor_x - d } else { 0 })
            &&& v.csi_next(65).cursor_x == v.cursor_x && v.csi_next(66).cursor_x == v.cursor_x
            &&& v.csi_next(67).cursor_y == v.cursor_y && v.csi_next(68).cursor_y == v.cursor_y
            &&& forall|cmd: u8| 65 <= cmd <= 72 ==> (#[trigger] v.csi_next(cmd)).current_fg == v.current_fg
                && v.csi_next(cmd).current_bg == v.current_bg && v.csi_next(cmd).params == v.params
                && v.csi_next(cmd).ansi_param_count == v.ansi_param_count
            &&& forall|cmd: u8| cmd != 74 && cmd != 75 ==> (#[trigger] v.csi_ops(cmd)) == Seq::<DrawOp>::empty()
        }),
{
}

/// Select graphic rendition, one parameter at a time: 0 restores the
/// default colours (foreground 0xF8F8F2 on background 0x272822); 30 to 37
/// and 90 to 97 set only the foreground; 40 to 47 set only the
/// background; any other value (bold among them) changes nothing.
pub proof fn lemma_sgr_colours(fg: u32, bg: u32, p: u8)
    ensures
        p == 0 ==> sgr(fg, bg, p) == (0x00F8F8F2u32, 0x00272822u32),
        (30 <= p <= 37 || 90 <= p <= 97) ==> sgr(fg, bg, p).1 == bg,
        40 <= p <= 47 ==> sgr(fg, bg, p).0 == fg,
        p == 31 ==> sgr(fg, bg, p).0 == 0x00F92672u32,
        p == 42 ==> sgr(fg, bg, p).1 == 0x00A6E22Eu32,
        p == 97 ==> sgr(fg, bg, p).0 == 0x00FFFFFFu32,
        !(p == 0 || 30 <= p <= 37 || 40 <= p <= 47 || 90 <= p <= 97) ==> sgr(fg, bg, p) == (fg, bg),
{
}

/// Writing a character: a newline goes to the start of the next row and
/// a carriage return to the start of the current one, drawing nothing;
/// any other character is drawn at the cursor in the current colours and
/// the cursor advances, wrapping to the next row after the last column.
/// Moving past the last row scrolls the screen up one row (cleared to the
/// background colour) and keeps the cursor on the last row.
pub proof fn lemma_output_char(v: ConsoleView, c: char)
    requires
        v.wf(),
    ensures
        ({
            let (w, ops) = v.output_next(c);
            let next_row = v.cursor_y + 1 >= v.rows;
            let wraps = c != '\n' && c != '\r' && v.cursor_x + 1 >= v.columns;
            let moves_down = c == '\n' || wraps;
            let scroll = moves_down && next_row;
            let drawn: Seq<DrawOp> = if c == '\n' || c == '\r' { Seq::empty() } else {
                seq![DrawOp::Glyph { codepoint: c as u32, col: v.cursor_x, row: v.cursor_y, fg: v.current_fg, bg: v.current_bg }]
            };
            &&& ops == (if scroll { drawn.push(DrawOp::ScrollUp { color: v.current_bg }) } else { drawn })
            &&& w.cursor_x == (if c == '\n' || c == '\r' || wraps { 0 } else { v.cursor_x + 1 })
            &&& w.cursor_y == (if scroll { v.rows - 1 } else if moves_down { v.cursor_y + 1 } else { v.cursor_y as int })
            &&& w == (ConsoleView { cursor_x: w.cursor_x, cursor_y: w.cursor_y, ..v })
        }),
{
}

impl ConsoleState {
    /// The console's invariant (see `ConsoleView::wf`).
    pub open spec fn wf(&self) -> bool {
        self@.wf()
    }

    /// A fresh console for a `width` × `height` pixel framebuffer.
    pub fn init(width: u64, height: u64) -> (c: Self)
        ensures
            c.columns == width as usize / 8,
            c.rows == height as usize / 8,
            c.cursor_x == 0 && c.cursor_y == 0,
            c.current_fg == COLOR_FG && c.current_bg == COLOR_BG,
            c.ansi_state == AnsiState::Normal,
            c.ansi_param_count == 0 && c.ansi_current_param == 0,
            c.columns >= 1 && c.rows >= 1 ==> c.wf(),
    {
        ConsoleState {
            columns: width as usize / 8,
            rows: height as usize / 8,
            cursor_x: 0,
            cursor_y: 0,
            current_fg: COLOR_FG,
            current_bg: COLOR_BG,
            ansi_state: AnsiState::Normal,
            ansi_params: [0u8; 8],
            ansi_param_count: 0,
            ansi_current_param: 0,
        }
    }

    fn param_or(&self, index: usize, default: usize) -> (v: usize)
        requires
            self.ansi_param_count <= 8,
        ensures
            v == self@.param(index as int, default as int),
    {
        if index < self.ansi_param_count {
            self.ansi_params[index] as usize
        } else {
            default
        }
    }

    /// Apply one SGR parameter.
    fn apply_sgr_param(&mut self, param: u8)
        ensures
            (final(self).current_fg, final(self).current_bg) == sgr(old(self).current_fg, old(self).current_bg, param),
            final(self)@ == (ConsoleView { current_fg: final(self).current_fg, current_bg: final(self).current_bg, ..old(self)@ }),
    {
        if param == 0 {
            self.current_fg = COLOR_FG;
            self.current_bg = COLOR_BG;
        } else if 30 <= param && param <= 37 {
            self.current_fg = ansi_fg_color(param - 30);
        } else if 40 <= param && param <= 47 {
            self.current_bg = ansi_bg_color(param - 40);
        } else if 90 <= param && param <= 97 {
            self.current_fg = ansi_bright_fg_color(param - 90);
        }
    }

    /// Execute a complete CSI sequence whose final byte is `command`.
    pub fn execute_csi_command(&mut self, command: u8, ops: &mut Vec<DrawOp>)
        requires
            old(self).wf(),
        ensures
            final(self).wf(),
            final(self)@ == old(self)@.csi_next(command),
            final(ops)@ == old(ops)@ + old(self)@.csi_ops(command),
    {
        if command == 74 {
            if self.param_or(0, 0) == 2 {
                ops.push(DrawOp::ClearScreen { color: self.current_bg });
                self.cursor_x = 0;
                self.cursor_y = 0;
            }
        } else if command == 72 {
            let row = self.param_or(0, 1).saturating_sub(1);
            let col = self.param_or(1, 1).saturating_sub(1);
            let max_row = self.rows.saturating_sub(1);
            let max_col = self.columns.saturating_sub(1);
            self.cursor_y = if row < max_row { row } else { max_row };
            self.cursor_x = if col < max_col { col } else { max_col };
        } else if command == 65 {
            let distance = self.param_or(0, 1);
            self.cursor_y = self.cursor_y.saturating_sub(distance);
        } else if command == 66 {
            let distance = self.param_or(0, 1);
            let target = self.cursor_y + distance;
            let max_row = self.rows.saturating_sub(1);
            self.cursor_y = if target < max_row { target } else { max_row };
        } else if command == 67 {
            let distance = self.param_or(0, 1);
            let target = self.cursor_x + distance;
            let max_col = self.columns.saturating_sub(1);
            self.cursor_x = if target < max_col { target } else { max_col };
        } else if command == 68 {
            let distance = self.param_or(0, 1);
            self.cursor_x = self.cursor_x.saturating_sub(distance);
        } else if command == 75 {
            if self.param_or(0, 0) == 0 {
                ops.push(DrawOp::ClearToEndOfLine { col: self.cursor_x, row: self.cursor_y, color: self.current_bg });
            }
        } else if command == 109 {
            if self.ansi_param_count == 0 {
                self.apply_sgr_param(0);
                proof {
                    assert(seq![0u8].drop_last() =~= Seq::<u8>::empty());
                }
            } else {
                let n = self.ansi_param_count;
                let ghost start = *self;
                let mut index: usize = 0;
                while index < n
                    invariant
                        n == start.ansi_param_count,
                        1 <= n <= 8,
                        index <= n,
                        self@ == (ConsoleView { current_fg: self.current_fg, current_bg: self.current_bg, ..start@ }),
                        (self.current_fg, self.current_bg)
                            == sgr_all(start.current_fg, start.current_bg, start.ansi_params@.subrange(0, index as int)),
                    decreases n - index,
                {
                    let value = self.ansi_params[index];
                    proof {
                        let t = start.ansi_params@.subrange(0, index + 1);
                        assert(t.drop_last() =~= start.ansi_params@.subrange(0, index as int));
                        assert(t.last() == value);
                    }
                    self.apply_sgr_param(value);
                    index = index + 1;
                }
            }
        }
    }

    /// Push the parameter being accumulated, if there is room.
    fn push_param(&mut self)
        requires
            old(self).ansi_param_count <= 8,
        ensures
            final(self)@ == old(self)@.pushed_param(),
    {
        if self.ansi_param_count < 8 {
            let i = self.ansi_param_count;
            self.ansi_params[i] = self.ansi_current_param;
            self.ansi_param_count = i + 1;
        }
    }

    /// Process one character: advance the escape parser, execute a finished
    /// CSI sequence, or output the character.  The drawing it needs is
    /// appended to `ops`.
    pub fn print_char(&mut self, c: char, ops: &mut Vec<DrawOp>)
        requires
            old(self).wf(),
        ensures
            final(self).wf(),
            old(self).ansi_state == AnsiState::Escape ==> final(ops)@ == old(ops)@ && final(self)@ == (
                if c == '[' {
                    ConsoleView {
                        ansi_state: AnsiState::Csi,
                        ansi_param_count: 0,
                        ansi_current_param: 0,
                        params: Seq::new(8, |i: int| 0u8),
                        ..old(self)@
                    }
                } else {
                    ConsoleView { ansi_state: AnsiState::Normal, ..old(self)@ }
                }),
            old(self).ansi_state == AnsiState::Csi ==> {
                let b = (c as u32 % 256) as u8;
                if 48 <= b <= 57 {
                    final(ops)@ == old(ops)@ && final(self)@ == (ConsoleView {
                        ansi_current_param: min_int(old(self).ansi_current_param * 10 + (b - 48), 255) as u8,
                        ..old(self)@
                    })
                } else if b == 59 {
                    final(ops)@ == old(ops)@
                        && final(self)@ == (ConsoleView { ansi_current_param: 0, ..old(self)@.pushed_param() })
                } else if (65 <= b <= 90) || (97 <= b <= 122) {
                    final(ops)@ == old(ops)@ + old(self)@.pushed_param().csi_ops(b)
                        && final(self)@ == (ConsoleView { ansi_state: AnsiState::Normal, ..old(self)@.pushed_param().csi_next(b) })
                } else {
                    final(ops)@ == old(ops)@ && final(self)@ == (ConsoleView { ansi_state: AnsiState::Normal, ..old(self)@ })
                }
            },
            old(self).ansi_state == AnsiState::Normal && c == '\x1b' ==> final(ops)@ == old(ops)@
                && final(self)@ == (ConsoleView { ansi_state: AnsiState::Escape, ..old(self)@ }),
            old(self).ansi_state == AnsiState::Normal && c != '\x1b' ==> final(ops)@ == old(ops)@ + old(self)@.output_next(c).1
                && final(self)@ == old(self)@.output_next(c).0,
    {
        match self.ansi_state {
            AnsiState::Escape => {
                if c == '[' {
                    self.ansi_state = AnsiState::Csi;
                    self.ansi_param_count = 0;
                    self.ansi_current_param = 0;
                    self.ansi_params = [0u8; 8];
                    assert(self.ansi_params@ =~= Seq::new(8, |i: int| 0u8));
                } else {
                    self.ansi_state = AnsiState::Normal;
                }
                return;
            },
            AnsiState::Csi => {
                let byte = (c as u32 % 256) as u8;
                if byte >= 48 && byte <= 57 {
                    let digit = byte - 48;
                    let v: u16 = self.ansi_current_param as u16 * 10 + digit as u16;
                    self.ansi_current_param = if v > 255 { 255 } else { v as u8 };
                } else if byte == 59 {
                    self.push_param();
                    self.ansi_current_param = 0;
                } else if (byte >= 65 && byte <= 90) || (byte >= 97 && byte <= 122) {
                    self.push_param();
                    self.execute_csi_command(byte, ops);
                    self.ansi_state = AnsiState::Normal;
                } else {
                    self.ansi_state = AnsiState::Normal;
                }
                return;
            },
            AnsiState::Normal => {
                if c == '\x1b' {
                    self.ansi_state = AnsiState::Escape;
                    return;
                }
            },
        }
        if c == '\n' {
            self.cursor_x = 0;
            self.cursor_y = self.cursor_y + 1;
        } else if c == '\r' {
            self.cursor_x = 0;
        } else {
            ops.push(DrawOp::Glyph {
                codepoint: c as u32,
                col: self.cursor_x,
                row: self.cursor_y,
                fg: self.current_fg,
                bg: self.current_bg,
            });
            self.cursor_x = self.cursor_x + 1;
            if self.cursor_x >= self.columns {
                self.cursor_x = 0;
                self.cursor_y = self.cursor_y + 1;
            }
        }
        if self.cursor_y >= self.rows {
            ops.push(DrawOp::ScrollUp { color: self.current_bg });
            self.cursor_y = self.rows - 1;
        }
    }
}

/// Background of the panic screen.
pub const PANIC_RED: u32 = 0x00CC0000;
/// Text colour of the panic screen.
pub const PANIC_WHITE: u32 = 0x00FFFFFF;
/// Banner colour of the panic screen.
pub const PANIC_DARK_RED: u32 = 0x00880000;

/// The banner title.
pub open spec fn panic_title() -> Seq<char> {
    seq!['!', '!', ' ', 'K', 'E', 'R', 'N', 'E', 'L', ' ', 'P', 'A', 'N', 'I', 'C', ' ', '!', '!']
}

/// Where the body text of the panic screen stands after `text`: its glyphs,
/// the next column and row, and whether the screen ran out of rows.  The
/// body starts at column 2 of row 7; a newline or a column past
/// `columns - 2` moves to column 2 of the next row.
pub open spec fn panic_body(text: Seq<char>, columns: int, rows: int) -> (Seq<DrawOp>, int, int, bool)
    decreases text.len(),
{
    if text.len() == 0 {
        (Seq::empty(), 2, 7, false)
    } else {
        let (ops, col, row, done) = panic_body(text.drop_last(), columns, rows);
        let ch = text.last();
        if done {
            (ops, col, row, done)
        } else if ch == '\n' {
            (ops, 2, row + 1, row + 1 >= rows)
        } else if col >= columns - 2 {
            if row + 1 >= rows {
                (ops, 2, row + 1, true)
            } else {
                (ops.push(DrawOp::Glyph { codepoint: ch as u32, col: 2, row: (row + 1) as usize, fg: PANIC_WHITE, bg: PANIC_RED }), 3, row + 1, false)
            }
        } else {
            (ops.push(DrawOp::Glyph { codepoint: ch as u32, col: col as usize, row: row as usize, fg: PANIC_WHITE, bg: PANIC_RED }), col + 1, row, false)
        }
    }
}

/// The glyphs of the banner title, centred on row 3.
pub open spec fn panic_title_ops(columns: int) -> Seq<DrawOp> {
    let start = (if columns >= 18 { columns - 18 } else { 0 }) / 2;
    Seq::new(18, |i: int| DrawOp::Glyph {
        codepoint: panic_title()[i] as u32,
        col: (start + i) as usize,
        row: 3,
        fg: PANIC_WHITE,
        bg: PANIC_DARK_RED,
    })
}

/// Everything the panic screen draws: the screen in red, a dark red banner
/// over rows 2 to 4 (`width_pixels` wide), the title, then the message.
pub open spec fn panic_screen_spec(header: Seq<char>, columns: int, rows: int, width_pixels: usize) -> Seq<DrawOp> {
    seq![DrawOp::ClearScreen { color: PANIC_RED },
        DrawOp::FillRect { x: 0, y: 16, w: width_pixels, h: 24, color: PANIC_DARK_RED }]
        + panic_title_ops(columns) + panic_body(header, columns, rows).0
}

/// The drawing of the panic screen for a message `header` on a console of
/// `columns` × `rows` cells, `width_pixels` wide.
pub fn panic_screen_ops(header: &[char], columns: usize, rows: usize, width_pixels: usize) -> (ops: Vec<DrawOp>)
    requires
        columns >= 2,
        rows < usize::MAX,
        columns + 18 <= usize::MAX,
    ensures
        ops@ == panic_screen_spec(header@, columns as int, rows as int, width_pixels),
{
    let mut ops: Vec<DrawOp> = Vec::new();
    ops.push(DrawOp::ClearScreen { color: PANIC_RED });
    ops.push(DrawOp::FillRect { x: 0, y: 2 * CHAR_HEIGHT, w: width_pixels, h: 3 * CHAR_HEIGHT, color: PANIC_DARK_RED });
    assert(2 * CHAR_HEIGHT == 16 && 3 * CHAR_HEIGHT == 24);
    let title: [char; 18] = ['!', '!', ' ', 'K', 'E', 'R', 'N', 'E', 'L', ' ', 'P', 'A', 'N', 'I', 'C', ' ', '!', '!'];
    assert(title@ =~= panic_title());
    let start = (if columns >= 18 { columns - 18 } else { 0 }) / 2;
    let ghost head = ops@;
    let mut i: usize = 0;
    while i < 18
        invariant
            i <= 18,
            title@ == panic_title(),
            start == (if columns >= 18 { columns - 18 } else { 0 }) / 2,
            columns + 18 <= usize::MAX,
            ops@ == head + panic_title_ops(columns as int).subrange(0, i as int),
        decreases 18 - i,
    {
        ops.push(DrawOp::Glyph { codepoint: title[i] as u32, col: start + i, row: 3, fg: PANIC_WHITE, bg: PANIC_DARK_RED });
        assert(ops@ =~= head + panic_title_ops(columns as int).subrange(0, i + 1));
        i = i + 1;
    }
    assert(panic_title_ops(columns as int).subrange(0, 18) =~= panic_title_ops(columns as int));
    let ghost pre = ops@;
    let n = header.len();
    let mut col: usize = 2;
    let mut row: usize = 7;
    let mut k: usize = 0;
    let mut done = false;
    while k < n
        invariant
            n == header@.len(),
            k <= n,
            columns >= 2,
            rows < usize::MAX,
            2 <= col <= columns + 1,
            7 <= row <= (if rows > 7 { rows } else { 8 }),
            !done ==> (row < rows || row == 7),
            panic_body(header@.subrange(0, k as int), columns as int, rows as int)
                == (ops@.subrange(pre.len() as int, ops@.len() as int), col as int, row as int, done),
            ops@.subrange(0, pre.len() as int) == pre,
            pre.len() <= ops@.len(),
        decreases n - k,
    {
        let ch = header[k];
        let ghost t = header@.subrange(0, k + 1);
        proof {
            assert(t.drop_last() =~= header@.subrange(0, k as int));
            assert(t.last() == ch);
        }
        let ghost before = ops@;
        if !done {
            if ch == '\n' {
                col = 2;
                row = row + 1;
                if row >= rows {
                    done = true;
                }
            } else {
                if col >= columns - 2 {
                    col = 2;
                    row = row + 1;
                    if row >= rows {
                        done = true;
                    }
                }
                if !done {
                    ops.push(DrawOp::Glyph { codepoint: ch as u32, col, row, fg: PANIC_WHITE, bg: PANIC_RED });
                    col = col + 1;
                }
            }
        }
        proof {
            assert(ops@.subrange(0, pre.len() as int) =~= pre);
            if ops@.len() > before.len() {
                assert(ops@.subrange(pre.len() as int, ops@.len() as int)
                    =~= before.subrange(pre.len() as int, before.len() as int).push(ops@.last()));
            } else {
                assert(ops@.subrange(pre.len() as int, ops@.len() as int)
                    =~= before.subrange(pre.len() as int, before.len() as int));
            }
        }
        k = k + 1;
    }
    assert(header@.subrange(0, n as int) =~= header@);
    assert(ops@ =~= pre + ops@.subrange(pre.len() as int, ops@.len() as int));
    ops
}

} // verus!
