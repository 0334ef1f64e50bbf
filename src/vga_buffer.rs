use vstd::prelude::*;
use vstd::string::StringSliceAdditionalSpecFns;

verus! {

/// Number of character rows on the screen.
pub const BUFFER_HEIGHT: usize = 25;

/// Number of character columns on the screen.
pub const BUFFER_WIDTH: usize = 80;

/// Glyph written in place of a byte the font cannot show.
pub const UNPRINTABLE_GLYPH: u8 = 0xfe;

/// Character code of a blank cell.
pub const BLANK: u8 = 0x20;

/// Line terminator.
pub const NEWLINE: u8 = 0x0a;

/// The sixteen colours of the text-mode palette, in hardware order.
#[derive(Clone, Copy, PartialEq, Eq, Structural, Debug)]
pub enum Color {
    Black,
    Blue,
    Green,
    Cyan,
    Red,
    Magenta,
    Brown,
    LightGray,
    DarkGray,
    LightBlue,
    LightGreen,
    LightCyan,
    LightRed,
    Pink,
    Yellow,
    White,
}

impl Color {
    /// Hardware palette index of the colour.
    pub open spec fn spec_index(self) -> u8 {
        match self {
            Color::Black => 0,
            Color::Blue => 1,
            Color::Green => 2,
            Color::Cyan => 3,
            Color::Red => 4,
            Color::Magenta => 5,
            Color::Brown => 6,
            Color::LightGray => 7,
            Color::DarkGray => 8,
            Color::LightBlue => 9,
            Color::LightGreen => 10,
            Color::LightCyan => 11,
            Color::LightRed => 12,
            Color::Pink => 13,
            Color::Yellow => 14,
            Color::White => 15,
        }
    }

    /// Hardware palette index of the colour, in `0..16`.
    #[verifier::when_used_as_spec(spec_index)]
    pub fn index(self) -> (r: u8)
        ensures
            r == self.spec_index(),
            r < 16,
    {
        match self {
            Color::Black => 0,
            Color::Blue => 1,
            Color::Green => 2,
            Color::Cyan => 3,
            Color::Red => 4,
            Color::Magenta => 5,
            Color::Brown => 6,
            Color::LightGray => 7,
            Color::DarkGray => 8,
            Color::LightBlue => 9,
            Color::LightGreen => 10,
            Color::LightCyan => 11,
            Color::LightRed => 12,
            Color::Pink => 13,
            Color::Yellow => 14,
            Color::White => 15,
        }
    }

    /// The colour with the given palette index; `None` outside `0..16`.
    pub fn from_index(i: u8) -> (r: Option<Color>)
        ensures
            r.is_some() <==> i < 16,
            r matches Some(c) ==> c.spec_index() == i,
    {
        match i {
            0 => Some(Color::Black),
            1 => Some(Color::Blue),
            2 => Some(Color::Green),
            3 => Some(Color::Cyan),
            4 => Some(Color::Red),
            5 => Some(Color::Magenta),
            6 => Some(Color::Brown),
            7 => Some(Color::LightGray),
            8 => Some(Color::DarkGray),
            9 => Some(Color::LightBlue),
            10 => Some(Color::LightGreen),
            11 => Some(Color::LightCyan),
            12 => Some(Color::LightRed),
            13 => Some(Color::Pink),
            14 => Some(Color::Yellow),
            15 => Some(Color::White),
            _ => None,
        }
    }
}

/// Attribute byte of a cell: background index in the high nibble,
/// foreground index in the low nibble.
pub open spec fn attribute_byte(foreground: Color, background: Color) -> u8 {
    (background.spec_index() << 4u8) | foreground.spec_index()
}

/// A packed foreground/background attribute byte.
#[derive(Clone, Copy, PartialEq, Eq, Structural, Debug)]
pub struct ColorCode(u8);

impl View for ColorCode {
    type V = u8;

    closed spec fn view(&self) -> u8 {
        self.0
    }
}

impl ColorCode {
    /// Packs `foreground` and `background` into one attribute byte.
    pub fn new(foreground: Color, background: Color) -> (r: ColorCode)
        ensures
            r@ == attribute_byte(foreground, background),
            r@ == background.spec_index() * 16 + foreground.spec_index(),
    {
        let fg = foreground.index();
        let bg = background.index();
        assert((bg << 4u8) | fg == bg * 16 + fg) by (bit_vector)
            requires
                fg < 16,
                bg < 16,
        ;
        ColorCode(bg << 4u8 | fg)
    }

    /// The attribute byte.
    pub fn value(&self) -> (r: u8)
        ensures
            r == self@,
    {
        self.0
    }

    /// The colour in the low nibble.
    pub fn foreground(&self) -> (r: Color)
        ensures
            r.spec_index() == self@ & 15u8,
            r.spec_index() == self@ % 16,
    {
        let v = self.0;
        assert(v & 15u8 == v % 16 && v & 15u8 < 16) by (bit_vector);
        match Color::from_index(v & 15u8) {
            Some(c) => c,
            None => Color::Black,
        }
    }

    /// The colour in the high nibble.
    pub fn background(&self) -> (r: Color)
        ensures
            r.spec_index() == self@ >> 4u8,
            r.spec_index() == self@ / 16,
    {
        let v = self.0;
        assert(v >> 4u8 == v / 16 && v >> 4u8 < 16) by (bit_vector);
        match Color::from_index(v >> 4u8) {
            Some(c) => c,
            None => Color::Black,
        }
    }
}

/// Packing a pair of colours and reading back the two nibbles gives the
/// same pair: the attribute byte is `(background << 4) | foreground`, its
/// low nibble is the foreground and its high nibble the background.
pub proof fn lemma_attribute_round_trip(foreground: Color, background: Color)
    ensures
        attribute_byte(foreground, background) == background.spec_index() * 16
            + foreground.spec_index(),
        attribute_byte(foreground, background) & 15u8 == foreground.spec_index(),
        attribute_byte(foreground, background) >> 4u8 == background.spec_index(),
{
    let fg = foreground.spec_index();
    let bg = background.spec_index();
    assert(fg < 16 && bg < 16);
    assert((bg << 4u8) | fg == bg * 16 + fg && ((bg << 4u8) | fg) & 15u8 == fg && ((bg << 4u8)
        | fg) >> 4u8 == bg) by (bit_vector)
        requires
            fg < 16,
            bg < 16,
    ;
}

/// One display cell: the character byte first, then its attribute byte.
#[derive(Clone, Copy, PartialEq, Eq, Structural, Debug)]
pub struct ScreenChar {
    pub ascii_character: u8,
    pub color_code: ColorCode,
}

/// Position of the cell at column `x`, row `y` in the row-major cell sequence.
pub open spec fn cell_index(x: int, y: int) -> int {
    x + y * (BUFFER_WIDTH as int)
}

/// Number of cells on the screen.
pub open spec fn screen_len() -> nat {
    (BUFFER_WIDTH * BUFFER_HEIGHT) as nat
}

/// A blank cell carrying `attribute`.
pub open spec fn blank_cell(attribute: ColorCode) -> ScreenChar {
    ScreenChar { ascii_character: BLANK, color_code: attribute }
}

/// Printable ASCII: space through tilde.
pub open spec fn is_printable(b: u8) -> bool {
    0x20 <= b <= 0x7e
}

/// The byte that text output hands on for `b`: printable bytes and the
/// newline pass unchanged, every other byte becomes the unprintable glyph.
pub open spec fn sanitize(b: u8) -> u8 {
    if is_printable(b) || b == NEWLINE {
        b
    } else {
        UNPRINTABLE_GLYPH
    }
}

/// What a console shows and where its cursor stands.
pub struct ConsoleState {
    /// All cells, row by row, top row first.
    pub cells: Seq<ScreenChar>,
    /// Column of the bottom row where the next character goes.
    pub column: nat,
    /// Attribute given to written and cleared cells.
    pub attribute: ColorCode,
}

impl ConsoleState {
    /// A full screen of cells and a cursor inside the bottom row.
    pub open spec fn wf(self) -> bool {
        &&& self.cells.len() == screen_len()
        &&& self.column < BUFFER_WIDTH
    }

    /// The cell at column `x`, row `y`.
    pub open spec fn cell(self, x: int, y: int) -> ScreenChar {
        self.cells[cell_index(x, y)]
    }
}

/// A screen of blank cells carrying `attribute`.
pub open spec fn blank_cells(attribute: ColorCode) -> Seq<ScreenChar> {
    Seq::new(screen_len(), |i: int| blank_cell(attribute))
}

/// Every row moved up by one, the top row dropped, a blank bottom row added.
pub open spec fn scroll_cells(cells: Seq<ScreenChar>, attribute: ColorCode) -> Seq<ScreenChar> {
    Seq::new(
        cells.len(),
        |i: int|
            if i + BUFFER_WIDTH < cells.len() {
                cells[i + BUFFER_WIDTH]
            } else {
                blank_cell(attribute)
            },
    )
}

/// `cells` with every cell of row `row` blank.
pub open spec fn clear_row_cells(cells: Seq<ScreenChar>, row: int, attribute: ColorCode) -> Seq<
    ScreenChar,
> {
    Seq::new(
        cells.len(),
        |i: int|
            if cell_index(0, row) <= i < cell_index(0, row + 1) {
                blank_cell(attribute)
            } else {
                cells[i]
            },
    )
}

/// The state after a line break: scrolled up by one, cursor at column 0.
pub open spec fn new_line_state(s: ConsoleState) -> ConsoleState {
    ConsoleState { cells: scroll_cells(s.cells, s.attribute), column: 0, attribute: s.attribute }
}

/// The state after placing `b` at the cursor, with a line break once the
/// cursor passes the last column.
pub open spec fn put_char_state(s: ConsoleState, b: u8) -> ConsoleState {
    let placed = ConsoleState {
        cells: s.cells.update(
            cell_index(s.column as int, BUFFER_HEIGHT - 1),
            ScreenChar { ascii_character: b, color_code: s.attribute },
        ),
        column: s.column + 1,
        attribute: s.attribute,
    };
    if placed.column >= BUFFER_WIDTH {
        new_line_state(placed)
    } else {
        placed
    }
}

/// The state after writing the byte `b`.
pub open spec fn write_byte_state(s: ConsoleState, b: u8) -> ConsoleState {
    if b == NEWLINE {
        new_line_state(s)
    } else {
        put_char_state(s, b)
    }
}

/// The state after writing the text `bytes`, each byte sanitized first.
pub open spec fn write_text_state(s: ConsoleState, bytes: Seq<u8>) -> ConsoleState
    decreases bytes.len(),
{
    if bytes.len() == 0 {
        s
    } else {
        write_byte_state(write_text_state(s, bytes.drop_last()), sanitize(bytes.last()))
    }
}

/// Text output hands printable ASCII bytes and the newline to the byte
/// writer unchanged, and every other byte as the unprintable glyph.
pub proof fn lemma_text_sanitizes(s: ConsoleState, b: u8)
    ensures
        write_text_state(s, seq![b]) == write_byte_state(s, sanitize(b)),
        is_printable(b) || b == NEWLINE ==> sanitize(b) == b,
        !(is_printable(b) || b == NEWLINE) ==> sanitize(b) == UNPRINTABLE_GLYPH,
{
    assert(seq![b].drop_last() =~= Seq::<u8>::empty());
    reveal_with_fuel(write_text_state, 2);
}

/// Every byte write keeps the screen full and the cursor inside the row.
pub proof fn lemma_write_byte_wf(s: ConsoleState, b: u8)
    requires
        s.wf(),
    ensures
        write_byte_state(s, b).wf(),
        write_byte_state(s, b).attribute == s.attribute,
{
}

/// Text output keeps the screen full and the cursor inside the row.
pub proof fn lemma_write_text_wf(s: ConsoleState, bytes: Seq<u8>)
    requires
        s.wf(),
    ensures
        write_text_state(s, bytes).wf(),
        write_text_state(s, bytes).attribute == s.attribute,
    decreases bytes.len(),
{
    if bytes.len() > 0 {
        lemma_write_text_wf(s, bytes.drop_last());
        lemma_write_byte_wf(write_text_state(s, bytes.drop_last()), sanitize(bytes.last()));
    }
}

/// After a newline the cursor is at column 0, every row holds what the row
/// below it held (so the old bottom row is now second from the bottom), and
/// the bottom row is blank in the current attribute.
pub proof fn lemma_newline_scrolls(s: ConsoleState)
    requires
        s.wf(),
    ensures
        write_byte_state(s, NEWLINE).wf(),
        write_byte_state(s, NEWLINE).column == 0,
        forall|x: int, y: int|
            0 <= x < BUFFER_WIDTH && 0 <= y < BUFFER_HEIGHT - 1 ==> #[trigger] write_byte_state(
                s,
                NEWLINE,
            ).cell(x, y) == s.cell(x, y + 1),
        forall|x: int|
            0 <= x < BUFFER_WIDTH ==> #[trigger] write_byte_state(s, NEWLINE).cell(
                x,
                BUFFER_HEIGHT - 1,
            ) == blank_cell(s.attribute),
{
}

/// The screen after the first `k` bytes of `bytes` went into the bottom row
/// from column 0.
spec fn placed_cells(s: ConsoleState, bytes: Seq<u8>, k: int) -> Seq<ScreenChar> {
    Seq::new(
        s.cells.len(),
        |i: int|
            if cell_index(0, BUFFER_HEIGHT - 1) <= i < cell_index(k, BUFFER_HEIGHT - 1) {
                ScreenChar {
                    ascii_character: bytes[i - cell_index(0, BUFFER_HEIGHT - 1)],
                    color_code: s.attribute,
                }
            } else {
                s.cells[i]
            },
    )
}

proof fn lemma_row_prefix(s: ConsoleState, bytes: Seq<u8>, k: int)
    requires
        s.wf(),
        s.column == 0,
        0 <= k < BUFFER_WIDTH,
        k <= bytes.len(),
        forall|i: int| 0 <= i < bytes.len() ==> is_printable(#[trigger] bytes[i]),
    ensures
        write_text_state(s, bytes.subrange(0, k)) == (ConsoleState {
            cells: placed_cells(s, bytes, k),
            column: k as nat,
            attribute: s.attribute,
        }),
    decreases k,
{
    if k == 0 {
        assert(placed_cells(s, bytes, 0) =~= s.cells);
    } else {
        lemma_row_prefix(s, bytes, k - 1);
        assert(bytes.subrange(0, k).drop_last() =~= bytes.subrange(0, k - 1));
        assert(is_printable(bytes[k - 1]));
        assert(placed_cells(s, bytes, k - 1).update(
            cell_index(k - 1, BUFFER_HEIGHT - 1),
            ScreenChar { ascii_character: bytes[k - 1], color_code: s.attribute },
        ) =~= placed_cells(s, bytes, k));
    }
}

/// Writing a full row of printable characters from column 0 wraps by
/// itself: the cursor returns to column 0, the rows above move up by one,
/// the characters end up in the row second from the bottom, and the bottom
/// row is blank.
pub proof fn lemma_full_row_wraps(s: ConsoleState, bytes: Seq<u8>)
    requires
        s.wf(),
        s.column == 0,
        bytes.len() == BUFFER_WIDTH,
        forall|i: int| 0 <= i < bytes.len() ==> is_printable(#[trigger] bytes[i]),
    ensures
        write_text_state(s, bytes).wf(),
        write_text_state(s, bytes).column == 0,
        forall|x: int, y: int|
            0 <= x < BUFFER_WIDTH && 0 <= y < BUFFER_HEIGHT - 2 ==> #[trigger] write_text_state(
                s,
                bytes,
            ).cell(x, y) == s.cell(x, y + 1),
        forall|x: int|
            0 <= x < BUFFER_WIDTH ==> #[trigger] write_text_state(s, bytes).cell(
                x,
                BUFFER_HEIGHT - 2,
            ) == (ScreenChar { ascii_character: bytes[x], color_code: s.attribute }),
        forall|x: int|
            0 <= x < BUFFER_WIDTH ==> #[trigger] write_text_state(s, bytes).cell(
                x,
                BUFFER_HEIGHT - 1,
            ) == blank_cell(s.attribute),
{
    let k = BUFFER_WIDTH - 1;
    lemma_row_prefix(s, bytes, k);
    assert(bytes.drop_last() =~= bytes.subrange(0, k));
    assert(is_printable(bytes[k]));
    lemma_write_text_wf(s, bytes);
    let full = placed_cells(s, bytes, k).update(
        cell_index(k, BUFFER_HEIGHT - 1),
        ScreenChar { ascii_character: bytes[k], color_code: s.attribute },
    );
    assert(full =~= placed_cells(s, bytes, BUFFER_WIDTH as int));
    assert(write_text_state(s, bytes).cells == scroll_cells(full, s.attribute));
}

/// Output written as two whole messages, one after the other, is the output
/// of the two messages back to back: a message written in one piece leaves
/// the same screen as its text written contiguously, never mixed with
/// another message.
pub proof fn lemma_text_concat(s: ConsoleState, first: Seq<u8>, second: Seq<u8>)
    ensures
        write_text_state(s, first + second) == write_text_state(
            write_text_state(s, first),
            second,
        ),
    decreases second.len(),
{
    if second.len() == 0 {
        assert(first + second =~= first);
    } else {
        assert((first + second).drop_last() =~= first + second.drop_last());
        assert((first + second).last() == second.last());
        lemma_text_concat(s, first, second.drop_last());
    }
}

/// Number of newline bytes in `bytes`.
pub open spec fn newline_count(bytes: Seq<u8>) -> nat
    decreases bytes.len(),
{
    if bytes.len() == 0 {
        0
    } else {
        newline_count(bytes.drop_last()) + if bytes.last() == NEWLINE {
            1nat
        } else {
            0nat
        }
    }
}

/// Two consoles with the same cursor and attribute whose cells agree from
/// row `r` down.
spec fn agree_from(a: ConsoleState, b: ConsoleState, r: nat) -> bool {
    &&& a.wf()
    &&& b.wf()
    &&& a.column == b.column
    &&& a.attribute == b.attribute
    &&& forall|i: int| cell_index(0, r as int) <= i < screen_len() ==> a.cells[i] == b.cells[i]
}

proof fn lemma_scroll_agree(a: ConsoleState, b: ConsoleState, r: nat)
    requires
        a.cells.len() == screen_len(),
        b.cells.len() == screen_len(),
        a.attribute == b.attribute,
        forall|i: int| cell_index(0, r as int) <= i < screen_len() ==> a.cells[i] == b.cells[i],
    ensures
        agree_from(new_line_state(a), new_line_state(b), if r > 0 { (r - 1) as nat } else { 0 }),
{
}

proof fn lemma_byte_agree(a: ConsoleState, b: ConsoleState, r: nat, x: u8)
    requires
        agree_from(a, b, r),
        r <= BUFFER_HEIGHT,
    ensures
        agree_from(
            write_byte_state(a, x),
            write_byte_state(b, x),
            if x == NEWLINE && r > 0 { (r - 1) as nat } else { r },
        ),
{
    if x == NEWLINE {
        lemma_scroll_agree(a, b, r);
    } else {
        let v = ScreenChar { ascii_character: x, color_code: a.attribute };
        let j = cell_index(a.column as int, BUFFER_HEIGHT - 1);
        let pa = a.cells.update(j, v);
        let pb = b.cells.update(j, v);
        if a.column + 1 >= BUFFER_WIDTH {
            let pa_s = ConsoleState { cells: pa, column: a.column + 1, attribute: a.attribute };
            let pb_s = ConsoleState { cells: pb, column: b.column + 1, attribute: b.attribute };
            lemma_scroll_agree(pa_s, pb_s, r);
        }
    }
}

proof fn lemma_text_agree(a: ConsoleState, b: ConsoleState, r: nat, bytes: Seq<u8>)
    requires
        agree_from(a, b, r),
        r <= BUFFER_HEIGHT,
    ensures
        agree_from(
            write_text_state(a, bytes),
            write_text_state(b, bytes),
            if r >= newline_count(bytes) { (r - newline_count(bytes)) as nat } else { 0 },
        ),
    decreases bytes.len(),
{
    if bytes.len() > 0 {
        let front = bytes.drop_last();
        lemma_text_agree(a, b, r, front);
        let n = newline_count(front);
        let r1: nat = if r >= n { (r - n) as nat } else { 0 };
        lemma_byte_agree(write_text_state(a, front), write_text_state(b, front), r1, sanitize(bytes.last()));
    }
}

/// The screen keeps no history beyond what it shows: two consoles whose
/// cursor and attribute agree, whatever their cells hold, end in the same
/// state once text with at least `BUFFER_HEIGHT` newlines has been written
/// to both. So after `BUFFER_HEIGHT + 1` lines the first line is gone.
pub proof fn lemma_bounded_scrollback(a: ConsoleState, b: ConsoleState, bytes: Seq<u8>)
    requires
        a.wf(),
        b.wf(),
        a.column == b.column,
        a.attribute == b.attribute,
        newline_count(bytes) >= BUFFER_HEIGHT,
    ensures
        write_text_state(a, bytes) == write_text_state(b, bytes),
{
    lemma_text_agree(a, b, BUFFER_HEIGHT as nat, bytes);
    assert(write_text_state(a, bytes).cells =~= write_text_state(b, bytes).cells);
}

/// A console writer: the screen's cells, the cursor column in the bottom
/// row, and the attribute for what it writes.
///
/// Its fields are private, so every writer comes from [`Writer::new`] and
/// changes only through its methods; its view is therefore always `wf`.
pub struct Writer {
    frame_buffer: Vec<ScreenChar>,
    column_position: usize,
    color_code: ColorCode,
}

impl View for Writer {
    type V = ConsoleState;

    closed spec fn view(&self) -> ConsoleState {
        ConsoleState {
            cells: self.frame_buffer@,
            column: self.column_position as nat,
            attribute: self.color_code,
        }
    }
}

impl Writer {
    /// A writer over a blank screen, cursor at column 0.
    pub fn new(color_code: ColorCode) -> (r: Writer)
        ensures
            r@.wf(),
            r@.cells == blank_cells(color_code),
            r@.column == 0,
            r@.attribute == color_code,
    {
        let blank = ScreenChar { ascii_character: BLANK, color_code };
        let mut frame_buffer: Vec<ScreenChar> = Vec::new();
        let mut i: usize = 0;
        while i < BUFFER_WIDTH * BUFFER_HEIGHT
            invariant
                i <= BUFFER_WIDTH * BUFFER_HEIGHT,
                frame_buffer@.len() == i,
                blank == blank_cell(color_code),
                forall|j: int| 0 <= j < i ==> frame_buffer@[j] == blank_cell(color_code),
            decreases BUFFER_WIDTH * BUFFER_HEIGHT - i,
        {
            frame_buffer.push(blank);
            i += 1;
        }
        let r = Writer { frame_buffer, column_position: 0, color_code };
        assert(r@.cells =~= blank_cells(color_code));
        r
    }

    /// Column of the bottom row where the next character goes.
    pub fn column_position(&self) -> (r: usize)
        ensures
            r == self@.column,
    {
        self.column_position
    }

    /// The cell at column `x`, row `y`.
    pub fn read_character(&self, x: usize, y: usize) -> (r: ScreenChar)
        requires
            self@.cells.len() == screen_len(),
            x < BUFFER_WIDTH,
            y < BUFFER_HEIGHT,
        ensures
            r == self@.cell(x as int, y as int),
    {
        self.frame_buffer[x + y * BUFFER_WIDTH]
    }

    /// Stores `screen_character` at column `x`, row `y`.
    fn write_character(&mut self, x: usize, y: usize, screen_character: ScreenChar)
        requires
            old(self)@.cells.len() == screen_len(),
            x < BUFFER_WIDTH,
            y < BUFFER_HEIGHT,
        ensures
            final(self)@.cells == old(self)@.cells.update(
                cell_index(x as int, y as int),
                screen_character,
            ),
            final(self)@.column == old(self)@.column,
            final(self)@.attribute == old(self)@.attribute,
    {
        self.frame_buffer.set(x + y * BUFFER_WIDTH, screen_character);
    }

    /// Blanks every cell of row `row` with the current attribute.
    fn clear_row(&mut self, row: usize)
        requires
            old(self)@.cells.len() == screen_len(),
            row < BUFFER_HEIGHT,
        ensures
            final(self)@.cells == clear_row_cells(old(self)@.cells, row as int, old(self)@.attribute),
            final(self)@.column == old(self)@.column,
            final(self)@.attribute == old(self)@.attribute,
    {
        let ghost s0 = self@;
        let blank = ScreenChar { ascii_character: BLANK, color_code: self.color_code };
        let mut col: usize = 0;
        while col < BUFFER_WIDTH
            invariant
                row < BUFFER_HEIGHT,
                col <= BUFFER_WIDTH,
                s0.cells.len() == screen_len(),
                self@.cells.len() == screen_len(),
                self@.column == s0.column,
                self@.attribute == s0.attribute,
                blank == blank_cell(s0.attribute),
                forall|i: int|
                    0 <= i < screen_len() ==> #[trigger] self@.cells[i] == if cell_index(0, row as int)
                        <= i < cell_index(col as int, row as int) {
                        blank_cell(s0.attribute)
                    } else {
                        s0.cells[i]
                    },
            decreases BUFFER_WIDTH - col,
        {
            self.write_character(col, row, blank);
            col += 1;
        }
        assert(self@.cells =~= clear_row_cells(s0.cells, row as int, s0.attribute));
    }

    /// Moves every row up by one, blanks the bottom row and puts the cursor
    /// at column 0.
    fn new_line(&mut self)
        requires
            old(self)@.cells.len() == screen_len(),
        ensures
            final(self)@.wf(),
            final(self)@ == new_line_state(old(self)@),
    {
        let ghost s0 = self@;
        let mut row: usize = 1;
        while row < BUFFER_HEIGHT
            invariant
                1 <= row <= BUFFER_HEIGHT,
                s0.cells.len() == screen_len(),
                self@.cells.len() == screen_len(),
                self@.column == s0.column,
                self@.attribute == s0.attribute,
                forall|i: int|
                    0 <= i < screen_len() ==> #[trigger] self@.cells[i] == if i < cell_index(
                        0,
                        row - 1,
                    ) {
                        s0.cells[i + BUFFER_WIDTH]
                    } else {
                        s0.cells[i]
                    },
            decreases BUFFER_HEIGHT - row,
        {
            let mut col: usize = 0;
            while col < BUFFER_WIDTH
                invariant
                    1 <= row < BUFFER_HEIGHT,
                    col <= BUFFER_WIDTH,
                    s0.cells.len() == screen_len(),
                    self@.cells.len() == screen_len(),
                    self@.column == s0.column,
                    self@.attribute == s0.attribute,
                    forall|i: int|
                        0 <= i < screen_len() ==> #[trigger] self@.cells[i] == if i < cell_index(
                            col as int,
                            row - 1,
                        ) {
                            s0.cells[i + BUFFER_WIDTH]
                        } else {
                            s0.cells[i]
                        },
                decreases BUFFER_WIDTH - col,
            {
                let c = self.read_character(col, row);
                self.write_character(col, row - 1, c);
                col += 1;
            }
            row += 1;
        }
        self.clear_row(BUFFER_HEIGHT - 1);
        self.column_position = 0;
        assert(self@.cells =~= scroll_cells(s0.cells, s0.attribute));
    }

    /// Writes one byte: a newline breaks the line; any other byte is placed
    /// at the cursor, which advances and breaks the line after the last
    /// column.
    pub fn write_byte(&mut self, byte: u8)
        requires
            old(self)@.wf(),
        ensures
            final(self)@.wf(),
            final(self)@ == write_byte_state(old(self)@, byte),
    {
        if byte == NEWLINE {
            self.new_line();
        } else {
            let row = BUFFER_HEIGHT - 1;
            let col = self.column_position;
            let color_code = self.color_code;
            self.write_character(col, row, ScreenChar { ascii_character: byte, color_code });
            self.column_position = self.column_position + 1;
            if self.column_position >= BUFFER_WIDTH {
                self.new_line();
            }
        }
    }

    /// Writes the bytes of `s` in order; printable ASCII and newlines go
    /// through unchanged, every other byte as the unprintable glyph.
    pub fn write_string(&mut self, s: &str)
        requires
            old(self)@.wf(),
        ensures
            final(self)@.wf(),
            final(self)@ == write_text_state(old(self)@, s.spec_bytes()),
    {
        let ghost s0 = self@;
        let bytes = s.as_bytes();
        let mut i: usize = 0;
        while i < bytes.len()
            invariant
                i <= bytes@.len(),
                bytes@ == s.spec_bytes(),
                self@.wf(),
                self@ == write_text_state(s0, bytes@.subrange(0, i as int)),
            decreases bytes@.len() - i,
        {
            let byte = bytes[i];
            let shown = if (0x20 <= byte && byte <= 0x7e) || byte == NEWLINE {
                byte
            } else {
                UNPRINTABLE_GLYPH
            };
            self.write_byte(shown);
            assert(bytes@.subrange(0, i + 1).drop_last() =~= bytes@.subrange(0, i as int));
            i += 1;
        }
        assert(bytes@.subrange(0, bytes@.len() as int) =~= bytes@);
    }
}

} // verus!
