//! Styled text for terminal rendering.
//!
//! Content is a sequence of [`Span`]s, each pairing plain text with a
//! [`Style`]. Display widths are computed from the characters alone, by
//! unicode-width; no escape codes are stored in the data model.

use vstd::prelude::*;

pub use crossterm::style::Color;

use crate::text::chars_of;

verus! {

#[verifier::external_type_specification]
#[verifier::external_body]
pub struct ExColor(crossterm::style::Color);

/// The display width, in terminal columns, that unicode-width assigns to
/// `c`; none for a control character.
pub uninterp spec fn unicode_width(c: char) -> Option<usize>;

/// Whether `c` is one of the control characters that have no width:
/// below U+0020, or from U+007F up to U+00A0.
pub open spec fn is_width_control(c: char) -> bool {
    (c as int) < 0x20 || (0x7F <= (c as int) && (c as int) < 0xA0)
}

/// Display width of `c`, and no width for control characters.
///
/// Trusted wrapper around `unicode_width::UnicodeWidthChar::width`. The
/// crate's source answers `None` exactly for the control characters below
/// U+0020 and from U+007F up to U+00A0, 1 for printable ASCII, 0 for the
/// emoji variation selector U+FE0F, and never more than 3 (its lookup
/// tables store two-bit widths, and the one wider case is U+17D8). Every
/// other width is left to the name `unicode_width`.
#[verifier::external_body]
fn char_width(c: char) -> (w: Option<usize>)
    ensures
        w == unicode_width(c),
        is_width_control(c) <==> w is None,
        (0x20 <= (c as int) && (c as int) < 0x7F) ==> w == Some(1usize),
        (c as int) == 0xFE0F ==> w == Some(0usize),
        w is Some ==> w->0 <= 3,
{
    unicode_width::UnicodeWidthChar::width(c)
}

/// The width a cell gets for `c`: its display width, or 0 for a control
/// character.
pub open spec fn cell_width(c: char) -> usize {
    match unicode_width(c) {
        Some(w) => w,
        None => 0,
    }
}

/// The width of `c` as a cell would get it, computed.
fn width_or_zero(c: char) -> (w: usize)
    ensures
        w == cell_width(c),
        w <= 3,
        0x20 <= (c as int) && (c as int) < 0x7F ==> w == 1,
        is_width_control(c) ==> w == 0,
{
    match char_width(c) {
        Some(w) => w,
        None => 0,
    }
}

/// Visual attributes of a character cell.
#[derive(Clone, Copy, PartialEq, Eq, Debug)]
pub struct Style {
    pub fg: Option<Color>,
    pub bg: Option<Color>,
    pub bold: bool,
    pub underline: bool,
    pub italic: bool,
}

/// The style with no colours and no attributes.
pub open spec fn plain_style() -> Style {
    Style { fg: None, bg: None, bold: false, underline: false, italic: false }
}

impl Default for Style {
    fn default() -> (s: Self)
        ensures
            s == plain_style(),
    {
        Style { fg: None, bg: None, bold: false, underline: false, italic: false }
    }
}

impl Style {
    /// This style with foreground colour `color`.
    pub fn fg(self, color: Color) -> (s: Self)
        ensures
            s == (Style { fg: Some(color), ..self }),
    {
        Style { fg: Some(color), ..self }
    }

    /// This style with background colour `color`.
    pub fn bg(self, color: Color) -> (s: Self)
        ensures
            s == (Style { bg: Some(color), ..self }),
    {
        Style { bg: Some(color), ..self }
    }

    /// This style, bold.
    pub fn bold(self) -> (s: Self)
        ensures
            s == (Style { bold: true, ..self }),
    {
        Style { bold: true, ..self }
    }

    /// This style, underlined.
    pub fn underline(self) -> (s: Self)
        ensures
            s == (Style { underline: true, ..self }),
    {
        Style { underline: true, ..self }
    }

    /// This style, italic.
    pub fn italic(self) -> (s: Self)
        ensures
            s == (Style { italic: true, ..self }),
    {
        Style { italic: true, ..self }
    }
}

/// A terminal cell: one character, its style, and its display width.
#[derive(Clone, Copy, PartialEq, Eq, Debug)]
pub struct Cell {
    /// Character emitted for this cell.
    pub ch: char,
    /// Style applied while emitting this cell.
    pub style: Style,
    /// Display width in terminal columns.
    pub width: usize,
}

/// The cell for `ch` in `style`, at the character's own width.
pub open spec fn cell_of(ch: char, style: Style) -> Cell {
    Cell { ch, style, width: cell_width(ch) }
}

impl Cell {
    /// The cell for `ch` in `style`; a control character gets width 0.
    pub fn new(ch: char, style: Style) -> (c: Self)
        ensures
            c == cell_of(ch, style),
    {
        Cell { ch, style, width: width_or_zero(ch) }
    }

    /// The cell for `ch` in the plain style.
    pub fn plain(ch: char) -> (c: Self)
        ensures
            c == cell_of(ch, plain_style()),
    {
        Cell { ch, style: Style::default(), width: width_or_zero(ch) }
    }

    /// This cell with an explicit display width.
    pub fn with_width(self, width: usize) -> (c: Self)
        ensures
            c == (Cell { width, ..self }),
    {
        Cell { width, ..self }
    }

    /// Display width in terminal columns (1 for ASCII, 2 for wide
    /// characters such as emoji, 0 for zero-width combiners).
    pub fn col_width(&self) -> (w: usize)
        ensures
            w == self.width,
    {
        self.width
    }
}

/// The code point of the emoji variation selector, which asks the
/// terminal to draw the character before it as a wide emoji.
pub const EMOJI_VARIATION_SELECTOR: u32 = 0xFE0F;

/// `cells` after appending the cell for `ch` in `style`: an emoji variation
/// selector first widens the cell before it to at least two columns.
pub open spec fn push_with_context(cells: Seq<Cell>, ch: char, style: Style) -> Seq<Cell> {
    let widened = if (ch as int) == EMOJI_VARIATION_SELECTOR && cells.len() > 0 {
        let prev = cells.last();
        cells.update(
            cells.len() - 1,
            Cell { width: if prev.width >= 2 { prev.width } else { 2 }, ..prev },
        )
    } else {
        cells
    };
    widened.push(cell_of(ch, style))
}

/// Appends the cell for `ch` in `style`, widening the previous cell to two
/// columns when `ch` is the emoji variation selector.
pub(crate) fn push_cell_with_context(cells: &mut Vec<Cell>, ch: char, style: Style)
    ensures
        final(cells)@ == push_with_context(old(cells)@, ch, style),
{
    if (ch as u32) == EMOJI_VARIATION_SELECTOR {
        let n = cells.len();
        if n > 0 {
            let prev = cells[n - 1];
            let width = if prev.width >= 2 { prev.width } else { 2 };
            cells.set(n - 1, Cell { width, ..prev });
        }
    }
    cells.push(Cell::new(ch, style));
}

/// A run of text with one style.
#[derive(Clone, Debug)]
pub struct Span {
    pub text: String,
    pub style: Style,
}

impl Span {
    /// The span of `text` in `style`.
    pub fn new(text: String, style: Style) -> (s: Self)
        ensures
            s.text@ == text@,
            s.style == style,
    {
        Span { text, style }
    }

    /// The span of `text` in the plain style.
    pub fn plain(text: String) -> (s: Self)
        ensures
            s.text@ == text@,
            s.style == plain_style(),
    {
        Span { text, style: Style::default() }
    }
}

/// `cells` after appending the cells of `text` in `style`, newlines left
/// out.
pub open spec fn push_text(cells: Seq<Cell>, text: Seq<char>, style: Style) -> Seq<Cell>
    decreases text.len(),
{
    if text.len() == 0 {
        cells
    } else {
        let before = push_text(cells, text.drop_last(), style);
        if text.last() == '\n' {
            before
        } else {
            push_with_context(before, text.last(), style)
        }
    }
}

/// The cells of `spans`, in order, newlines left out.
pub open spec fn cells_of_spans(spans: Seq<Span>) -> Seq<Cell>
    decreases spans.len(),
{
    if spans.len() == 0 {
        Seq::empty()
    } else {
        push_text(cells_of_spans(spans.drop_last()), spans.last().text@, spans.last().style)
    }
}

/// The summed display width of the characters of `text`, control
/// characters counting 0.
pub open spec fn text_width(text: Seq<char>) -> nat
    decreases text.len(),
{
    if text.len() == 0 {
        0
    } else {
        text_width(text.drop_last()) + cell_width(text.last()) as nat
    }
}

/// The summed display width of the text of `spans`.
pub open spec fn spans_width(spans: Seq<Span>) -> nat
    decreases spans.len(),
{
    if spans.len() == 0 {
        0
    } else {
        spans_width(spans.drop_last()) + text_width(spans.last().text@)
    }
}

/// The number of characters in the text of `spans`.
pub open spec fn spans_chars(spans: Seq<Span>) -> nat
    decreases spans.len(),
{
    if spans.len() == 0 {
        0
    } else {
        spans_chars(spans.drop_last()) + spans.last().text@.len()
    }
}

proof fn lemma_spans_chars_prefix(spans: Seq<Span>, i: int)
    requires
        0 <= i <= spans.len(),
    ensures
        spans_chars(spans.take(i)) + spans[i].text@.len() <= spans_chars(spans) || i == spans.len(),
        spans_chars(spans.take(i)) <= spans_chars(spans),
    decreases spans.len() - i,
{
    if i < spans.len() {
        lemma_spans_chars_prefix(spans, i + 1);
        assert(spans.take(i + 1).drop_last() =~= spans.take(i));
    } else {
        assert(spans.take(i) =~= spans);
    }
}

/// The characters of `text` that become cells: all but newlines.
pub open spec fn shown_chars(text: Seq<char>) -> Seq<char>
    decreases text.len(),
{
    if text.len() == 0 {
        Seq::empty()
    } else if text.last() == '\n' {
        shown_chars(text.drop_last())
    } else {
        shown_chars(text.drop_last()).push(text.last())
    }
}

/// The characters of the text of `spans` that become cells, in order.
pub open spec fn spans_shown_chars(spans: Seq<Span>) -> Seq<char>
    decreases spans.len(),
{
    if spans.len() == 0 {
        Seq::empty()
    } else {
        spans_shown_chars(spans.drop_last()) + shown_chars(spans.last().text@)
    }
}

/// The characters of a row of cells.
pub open spec fn cell_chars(cells: Seq<Cell>) -> Seq<char> {
    Seq::new(cells.len(), |i: int| cells[i].ch)
}

proof fn lemma_push_text_chars(cells: Seq<Cell>, text: Seq<char>, style: Style)
    ensures
        cell_chars(push_text(cells, text, style)) == cell_chars(cells) + shown_chars(text),
    decreases text.len(),
{
    if text.len() == 0 {
        assert(cell_chars(cells) + shown_chars(text) =~= cell_chars(cells));
    } else {
        let before = push_text(cells, text.drop_last(), style);
        lemma_push_text_chars(cells, text.drop_last(), style);
        if text.last() != '\n' {
            let after = push_with_context(before, text.last(), style);
            assert(cell_chars(after) =~= cell_chars(before).push(text.last()));
            assert(cell_chars(after) =~= cell_chars(cells) + shown_chars(text));
        }
    }
}

/// Converting text to cells gives one cell per character, in order, with
/// the newlines left out: the cells spell the text without its line
/// breaks.
pub proof fn law_cells_spell_text_without_newlines(spans: Seq<Span>)
    ensures
        cell_chars(cells_of_spans(spans)) == spans_shown_chars(spans),
    decreases spans.len(),
{
    if spans.len() == 0 {
        assert(cell_chars(cells_of_spans(spans)) =~= Seq::<char>::empty());
    } else {
        law_cells_spell_text_without_newlines(spans.drop_last());
        lemma_push_text_chars(cells_of_spans(spans.drop_last()), spans.last().text@, spans.last().style);
    }
}

/// A sequence of styled spans: rich text.
#[derive(Clone, Debug)]
pub struct StyledText {
    spans: Vec<Span>,
}

impl View for StyledText {
    type V = Seq<Span>;

    closed spec fn view(&self) -> Seq<Span> {
        self.spans@
    }
}

impl Default for StyledText {
    fn default() -> (t: Self)
        ensures
            t@ == Seq::<Span>::empty(),
    {
        StyledText { spans: Vec::new() }
    }
}

impl StyledText {
    /// Empty text.
    pub fn new() -> (t: Self)
        ensures
            t@ == Seq::<Span>::empty(),
    {
        StyledText { spans: Vec::new() }
    }

    /// Unstyled text: one plain span of `text`.
    pub fn plain_text(text: String) -> (t: Self)
        ensures
            t@.len() == 1,
            t@[0].text@ == text@,
            t@[0].style == plain_style(),
    {
        StyledText { spans: vec![Span::plain(text)] }
    }

    /// Text of the one span `span`.
    pub fn from_span(span: Span) -> (t: Self)
        ensures
            t@ == seq![span],
    {
        StyledText { spans: vec![span] }
    }

    /// Text of `spans`, in order.
    pub fn from_spans(spans: Vec<Span>) -> (t: Self)
        ensures
            t@ == spans@,
    {
        StyledText { spans }
    }

    /// Appends `span`.
    pub fn push(&mut self, span: Span)
        ensures
            final(self)@ == old(self)@.push(span),
    {
        self.spans.push(span);
    }

    /// The spans, in order.
    pub fn spans(&self) -> (s: &[Span])
        ensures
            s@ == self@,
    {
        self.spans.as_slice()
    }

    /// Total display width in terminal columns: wide characters (emoji,
    /// CJK) count 2, control characters 0.
    pub fn char_count(&self) -> (n: usize)
        requires
            3 * spans_chars(self@) <= usize::MAX,
        ensures
            n == spans_width(self@),
    {
        let mut total: usize = 0;
        let mut i: usize = 0;
        let n_spans = self.spans.len();
        while i < n_spans
            invariant
                n_spans == self.spans@.len(),
                i <= n_spans,
                total == spans_width(self.spans@.take(i as int)),
                total <= 3 * spans_chars(self.spans@.take(i as int)),
                3 * spans_chars(self.spans@) <= usize::MAX,
            decreases n_spans - i,
        {
            proof {
                lemma_spans_chars_prefix(self.spans@, i as int);
                lemma_spans_chars_prefix(self.spans@, i as int + 1);
            }
            let cs = chars_of(self.spans[i].text.as_str());
            let ghost start = total;
            let mut j: usize = 0;
            while j < cs.len()
                invariant
                    j <= cs@.len(),
                    cs@ == self.spans@[i as int].text@,
                    total == start + text_width(cs@.take(j as int)),
                    text_width(cs@.take(j as int)) <= 3 * j,
                    start <= 3 * spans_chars(self.spans@.take(i as int)),
                    3 * (spans_chars(self.spans@.take(i as int)) + cs@.len()) <= usize::MAX,
                decreases cs@.len() - j,
            {
                let w = width_or_zero(cs[j]);
                assert(cs@.take(j as int + 1).drop_last() =~= cs@.take(j as int));
                total = total + w;
                j = j + 1;
            }
            assert(cs@.take(cs@.len() as int) =~= cs@);
            assert(self.spans@.take(i as int + 1).drop_last() =~= self.spans@.take(i as int));
            i = i + 1;
        }
        assert(self.spans@.take(n_spans as int) =~= self.spans@);
        total
    }

    /// Whether no span holds any text.
    pub fn is_empty(&self) -> (b: bool)
        ensures
            b <==> forall|k: int| 0 <= k < self@.len() ==> (#[trigger] self@[k]).text@.len() == 0,
    {
        let mut i: usize = 0;
        while i < self.spans.len()
            invariant
                i <= self.spans@.len(),
                forall|k: int| 0 <= k < i ==> (#[trigger] self.spans@[k]).text@.len() == 0,
            decreases self.spans@.len() - i,
        {
            if !self.spans[i].text.as_str().is_empty() {
                return false;
            }
            i = i + 1;
        }
        true
    }

    /// The flat sequence of cells of this text, newlines left out.
    pub fn to_cells(&self) -> (cells: Vec<Cell>)
        ensures
            cells@ == cells_of_spans(self@),
    {
        let mut cells: Vec<Cell> = Vec::new();
        let mut i: usize = 0;
        while i < self.spans.len()
            invariant
                i <= self.spans@.len(),
                cells@ == cells_of_spans(self.spans@.take(i as int)),
            decreases self.spans@.len() - i,
        {
            let style = self.spans[i].style;
            let cs = chars_of(self.spans[i].text.as_str());
            let ghost start = cells@;
            let mut j: usize = 0;
            while j < cs.len()
                invariant
                    j <= cs@.len(),
                    cells@ == push_text(start, cs@.take(j as int), style),
                decreases cs@.len() - j,
            {
                let ch = cs[j];
                assert(cs@.take(j as int + 1).drop_last() =~= cs@.take(j as int));
                if ch != '\n' {
                    push_cell_with_context(&mut cells, ch, style);
                }
                j = j + 1;
            }
            assert(cs@.take(cs@.len() as int) =~= cs@);
            assert(self.spans@.take(i as int + 1).drop_last() =~= self.spans@.take(i as int));
            i = i + 1;
        }
        assert(self.spans@.take(self.spans@.len() as int) =~= self.spans@);
        cells
    }
}

/// Opaque numeric identifier of a [`StyledBlock`].
#[derive(Clone, Copy, Debug, PartialEq, Eq, Hash)]
pub struct BlockId(pub u64);

/// Horizontal alignment within a block.
#[derive(Clone, Copy, Debug, PartialEq, Eq)]
pub enum Align {
    Left,
    Center,
}

impl Default for Align {
    fn default() -> (a: Self)
        ensures
            a == Align::Left,
    {
        Align::Left
    }
}

/// A unit of layout: styled content with a background, an alignment and
/// margins. Rendering wraps the content to the width left between the
/// margins, aligns it there, and fills the rest with the background.
#[derive(Clone, Debug)]
pub struct StyledBlock {
    pub content: StyledText,
    pub right_content: StyledText,
    pub bg: Option<Color>,
    pub align: Align,
    pub margin_left: u16,
    pub margin_right: u16,
}

impl StyledBlock {
    /// A left-aligned block of `content`, with no right content, no
    /// background and no margins.
    pub fn new(content: StyledText) -> (b: Self)
        ensures
            b.content == content,
            b.right_content@ == Seq::<Span>::empty(),
            b.bg is None,
            b.align == Align::Left,
            b.margin_left == 0,
            b.margin_right == 0,
    {
        StyledBlock {
            content,
            right_content: StyledText::new(),
            bg: None,
            align: Align::Left,
            margin_left: 0,
            margin_right: 0,
        }
    }

    /// This block with background colour `color`.
    pub fn bg(self, color: Color) -> (b: Self)
        ensures
            b == (StyledBlock { bg: Some(color), ..self }),
    {
        StyledBlock { bg: Some(color), ..self }
    }

    /// This block with alignment `align`.
    pub fn align(self, align: Align) -> (b: Self)
        ensures
            b == (StyledBlock { align, ..self }),
    {
        StyledBlock { align, ..self }
    }

    /// This block with right-hand content `content`.
    pub fn right_content(self, content: StyledText) -> (b: Self)
        ensures
            b == (StyledBlock { right_content: content, ..self }),
    {
        StyledBlock { right_content: content, ..self }
    }

    /// This block with left margin `n`.
    pub fn margin_left(self, n: u16) -> (b: Self)
        ensures
            b == (StyledBlock { margin_left: n, ..self }),
    {
        StyledBlock { margin_left: n, ..self }
    }

    /// This block with right margin `n`.
    pub fn margin_right(self, n: u16) -> (b: Self)
        ensures
            b == (StyledBlock { margin_right: n, ..self }),
    {
        StyledBlock { margin_right: n, ..self }
    }

    /// This block with left margin `left` and right margin `right`.
    pub fn margins(self, left: u16, right: u16) -> (b: Self)
        ensures
            b == (StyledBlock { margin_left: left, margin_right: right, ..self }),
    {
        StyledBlock { margin_left: left, margin_right: right, ..self }
    }
}

} // verus!
