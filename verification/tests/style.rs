use tau::style::{Align, BlockId, Cell, Color, Span, Style, StyledBlock, StyledText};

#[test]
fn style_builders_set_one_attribute_each() {
    let style = Style::default().fg(Color::Red).bg(Color::Blue).bold().italic();
    assert_eq!(style.fg, Some(Color::Red));
    assert_eq!(style.bg, Some(Color::Blue));
    assert!(style.bold);
    assert!(style.italic);
    assert!(!style.underline);
    assert!(Style::default().underline().underline);
    assert_eq!(Style::default().fg, None);
}

#[test]
fn cell_widths_follow_unicode_width() {
    assert_eq!(Cell::plain('a').col_width(), 1);
    assert_eq!(Cell::plain('界').col_width(), 2);
    assert_eq!(Cell::plain('\u{7}').col_width(), 0);
    assert_eq!(Cell::plain('\u{301}').col_width(), 0);
    assert_eq!(Cell::plain('a').with_width(3).col_width(), 3);
    let bold = Style::default().bold();
    let cell = Cell::new('x', bold);
    assert_eq!(cell.ch, 'x');
    assert_eq!(cell.style, bold);
}

#[test]
fn char_count_sums_display_widths() {
    let mut text = StyledText::plain_text("ab界".to_owned());
    assert_eq!(text.char_count(), 4);
    text.push(Span::new("\n😀".to_owned(), Style::default().bold()));
    assert_eq!(text.char_count(), 6);
    assert_eq!(text.spans().len(), 2);
}

#[test]
fn empty_text_has_only_empty_spans() {
    assert!(StyledText::new().is_empty());
    assert!(StyledText::from_spans(vec![Span::plain(String::new()), Span::plain(String::new())]).is_empty());
    assert!(!StyledText::from_span(Span::plain("x".to_owned())).is_empty());
    assert_eq!(StyledText::default().char_count(), 0);
}

#[test]
fn to_cells_skips_newlines_and_keeps_span_styles() {
    let bold = Style::default().bold();
    let text = StyledText::from_spans(vec![Span::plain("a\nb".to_owned()), Span::new("c".to_owned(), bold)]);
    let cells = text.to_cells();
    let chars: Vec<char> = cells.iter().map(|c| c.ch).collect();
    assert_eq!(chars, vec!['a', 'b', 'c']);
    assert_eq!(cells[0].style, Style::default());
    assert_eq!(cells[2].style, bold);
}

#[test]
fn emoji_variation_selector_widens_previous_cell() {
    let text = StyledText::plain_text("\u{2764}\u{fe0f}x".to_owned());
    let cells = text.to_cells();
    assert_eq!(cells.len(), 3);
    assert_eq!(cells[0].ch, '\u{2764}');
    assert_eq!(cells[0].width, 2);
    assert_eq!(cells[1].width, 0);
    assert_eq!(cells[2].width, 1);

    let leading = StyledText::plain_text("\u{fe0f}".to_owned()).to_cells();
    assert_eq!(leading.len(), 1);
    assert_eq!(leading[0].width, 0);
}

#[test]
fn styled_block_builders() {
    let block = StyledBlock::new(StyledText::plain_text("body".to_owned()));
    assert_eq!(block.align, Align::Left);
    assert_eq!(block.bg, None);
    assert_eq!((block.margin_left, block.margin_right), (0, 0));
    assert!(block.right_content.is_empty());

    let block = block
        .bg(Color::DarkGrey)
        .align(Align::Center)
        .right_content(StyledText::plain_text("12:00".to_owned()))
        .margins(2, 3)
        .margin_left(4);
    assert_eq!(block.bg, Some(Color::DarkGrey));
    assert_eq!(block.align, Align::Center);
    assert_eq!(block.right_content.char_count(), 5);
    assert_eq!((block.margin_left, block.margin_right), (4, 3));
    assert_eq!(block.margin_right(9).margin_right, 9);
    assert_eq!(Align::default(), Align::Left);
    assert_eq!(BlockId(7), BlockId(7));
}
