//! Drawing on the character grid that the terminal backend supplies.

use crate::geometry::Rect;
use ratatui::buffer::Buffer;
use ratatui::style::Style;
use ratatui::widgets::Widget;
use vstd::prelude::*;

verus! {

/// `ratatui::buffer::Buffer`, the drawing surface, as a value that is only
/// passed on.
#[verifier::external_type_specification]
#[verifier::external_body]
pub struct ExBuffer(Buffer);

/// `ratatui::style::Style`, as a value that is only passed on.
#[verifier::external_type_specification]
#[verifier::external_body]
pub struct ExStyle(Style);

/// The rectangle of the grid that a drawing surface holds cells for.
pub uninterp spec fn surface_bounds(surface: Buffer) -> Rect;

/// Reads the field `area` of `ratatui::buffer::Buffer`: the rectangle that the
/// surface holds cells for.
#[verifier::external_body]
pub(crate) fn bounds(surface: &Buffer) -> (area: Rect)
    ensures
        area == surface_bounds(*surface),
{
    let a = surface.area;
    Rect { x: a.x, y: a.y, width: a.width, height: a.height }
}

/// The number of cells that a drawing surface holds.
pub uninterp spec fn surface_cells(surface: Buffer) -> nat;

/// Reads the length of the field `content` of `ratatui::buffer::Buffer`: the
/// number of cells that the surface holds.
#[verifier::external_body]
pub(crate) fn cells(surface: &Buffer) -> (count: usize)
    ensures
        count == surface_cells(*surface),
{
    surface.content.len()
}

/// Whether the surface can be drawn on: it holds exactly one cell for each
/// cell of its rectangle, 65535 at most, and its rectangle ends inside the
/// grid. The drawing calls index the cells by position and count in 16 bits,
/// so on any other surface they may go astray.
pub open spec fn sound(surface: Buffer) -> bool {
    let area = surface_bounds(surface);
    &&& surface_cells(surface) == area.width * area.height
    &&& area.width * area.height <= u16::MAX
    &&& area.x + area.width <= u16::MAX
    &&& area.y + area.height <= u16::MAX
}

/// Whether two surfaces hold cells for the same rectangle, and as many.
pub open spec fn same_extent(before: Buffer, after: Buffer) -> bool {
    &&& surface_bounds(after) == surface_bounds(before)
    &&& surface_cells(after) == surface_cells(before)
}

/// Whether `area` is one that may be drawn on: it lies inside the surface or
/// has no cell.
pub open spec fn drawable(surface: Buffer, area: Rect) -> bool {
    area.within(surface_bounds(surface)) || area.width == 0 || area.height == 0
}

/// Whether the surface can be drawn on.
pub fn is_sound(surface: &Buffer) -> (ok: bool)
    ensures
        ok == sound(*surface),
{
    let area = bounds(surface);
    let count = cells(surface);
    assert(area.width * area.height <= 65535 * 65535) by (nonlinear_arith)
        requires
            0 <= area.width <= 65535,
            0 <= area.height <= 65535,
    ;
    let wanted: u64 = (area.width as u64) * (area.height as u64);
    wanted <= 65535 && count as u64 == wanted && (area.x as u32) + (area.width as u32) <= 65535
        && (area.y as u32) + (area.height as u32) <= 65535
}

/// Whether the character is a printable one of ASCII: a blank, a letter, a
/// digit or a sign. Each of them takes one cell, and none joins another.
pub open spec fn plain(c: char) -> bool {
    ' ' <= c <= '~'
}

/// Whether every character of the text is a printable one of ASCII.
pub open spec fn printable(text: Seq<char>) -> bool {
    forall|i: int| 0 <= i < text.len() ==> plain(#[trigger] text[i])
}

/// The text with a question mark in the place of every character that is
/// not a printable one of ASCII.
pub open spec fn cleaned(text: Seq<char>) -> Seq<char> {
    Seq::new(
        text.len(),
        |i: int|
            if plain(text[i]) {
                text[i]
            } else {
                '?'
            },
    )
}

/// The most characters that a title is drawn with. No surface has a row as
/// long.
pub const TITLE_LIMIT: usize = 65534;

/// The text as a title shows it: its first characters, as many as a title
/// is drawn with, cleaned.
pub open spec fn headline(text: Seq<char>) -> Seq<char> {
    cleaned(
        if text.len() > TITLE_LIMIT {
            text.take(TITLE_LIMIT as int)
        } else {
            text
        },
    )
}

/// A cleaned text is printable, and a printable text is left as it is.
pub proof fn lemma_cleaned_is_printable(text: Seq<char>)
    ensures
        printable(cleaned(text)),
        cleaned(text).len() == text.len(),
        printable(text) ==> cleaned(text) == text,
{
    if printable(text) {
        assert(cleaned(text) =~= text);
    }
}

/// Whether every character of the text is a printable one of ASCII.
pub fn is_printable(text: &str) -> (ok: bool)
    ensures
        ok == printable(text@),
{
    broadcast use vstd::string::is_ascii_spec_bytes;

    if !text.is_ascii() {
        return false;
    }
    let bytes = text.as_bytes();
    let mut i: usize = 0;
    while i < bytes.len()
        invariant
            i <= bytes@.len(),
            bytes@.len() == text@.len(),
            forall|j: int| 0 <= j < bytes@.len() ==> bytes@[j] == (#[trigger] text@[j]) as u8,
            forall|j: int| 0 <= j < text@.len() ==> '\0' <= #[trigger] text@[j] <= '\u{7f}',
            forall|j: int| 0 <= j < i ==> plain(#[trigger] text@[j]),
        decreases bytes@.len() - i,
    {
        if bytes[i] < 0x20 || bytes[i] > 0x7e {
            assert(!plain(text@[i as int]));
            return false;
        }
        assert(plain(text@[i as int]));
        i += 1;
    }
    true
}

/// The text with a question mark in the place of every character that is
/// not a printable one of ASCII. A text that needs no cleaning is copied in
/// one go; any other is gone through character by character.
pub fn readable(text: &str) -> (shown: String)
    ensures
        shown@ == cleaned(text@),
        printable(shown@),
{
    proof {
        lemma_cleaned_is_printable(text@);
    }
    if is_printable(text) {
        return text.to_owned();
    }
    let count = text.unicode_len();
    let mut shown = String::new();
    let mut i: usize = 0;
    while i < count
        invariant
            i <= count,
            count == text@.len(),
            shown@ == cleaned(text@).take(i as int),
        decreases count - i,
    {
        let c = text.get_char(i);
        if ' ' <= c && c <= '~' {
            shown.append(text.substring_char(i, i + 1));
        } else {
            proof {
                reveal_strlit("?");
            }
            shown.append("?");
            assert("?"@ =~= seq!['?']);
        }
        assert(shown@ =~= cleaned(text@).take(i + 1));
        i += 1;
    }
    assert(shown@ =~= cleaned(text@));
    shown
}

/// The text as a title shows it: its first characters, as many as a title
/// is drawn with, cleaned.
pub fn titled(text: &str) -> (shown: String)
    ensures
        shown@ == headline(text@),
        printable(shown@),
        shown@.len() <= TITLE_LIMIT,
{
    proof {
        lemma_cleaned_is_printable(headline(text@));
    }
    if text.unicode_len() > TITLE_LIMIT {
        readable(text.substring_char(0, TITLE_LIMIT))
    } else {
        readable(text)
    }
}

/// The surface after `ratatui::widgets::Clear` was rendered on the area.
pub uninterp spec fn cleared(surface: Buffer, area: Rect) -> Buffer;

/// The surface after `ratatui::text::Text::raw` of the text was rendered on
/// the area.
pub uninterp spec fn text_drawn(surface: Buffer, area: Rect, text: Seq<char>) -> Buffer;

/// The surface after the bordered, titled paragraph of `draw_notice` was
/// rendered on the area.
pub uninterp spec fn notice_drawn(
    surface: Buffer,
    area: Rect,
    title: Seq<char>,
    message: Seq<char>,
) -> Buffer;

/// The surface after `ratatui::buffer::Buffer::set_style` gave the style to
/// the cells of the area.
pub uninterp spec fn painted(surface: Buffer, area: Rect, style: Style) -> Buffer;

/// Renders `ratatui::widgets::Clear` on the area: every cell of it is reset.
/// `Clear` indexes the surface cell by cell, so the surface must be sound and
/// the area must lie inside it. The cells are written in place: the surface
/// keeps its rectangle and the number of its cells, and what it holds
/// afterwards depends on the surface before and on the area alone.
#[verifier::external_body]
pub(crate) fn clear(surface: &mut Buffer, area: Rect)
    requires
        sound(*old(surface)),
        drawable(*old(surface), area),
    ensures
        *final(surface) == cleared(*old(surface), area),
        same_extent(*old(surface), *final(surface)),
{
    let a = ratatui::layout::Rect { x: area.x, y: area.y, width: area.width, height: area.height };
    ratatui::widgets::Clear.render(a, surface);
}

/// Renders `ratatui::text::Text::raw` of the text on the area. The text is
/// written cell by cell for as long as the next character still ends inside
/// the area; a character that takes no cell would be written one cell behind
/// a row that is full, so the text must be printable: then every character
/// takes one cell. The cells are written in place: the surface keeps its
/// rectangle and the number of its cells, and what it holds afterwards
/// depends on the surface before, on the area and on the text alone.
#[verifier::external_body]
pub(crate) fn draw_text(surface: &mut Buffer, area: Rect, text: &str)
    requires
        sound(*old(surface)),
        drawable(*old(surface), area),
        printable(text@),
    ensures
        *final(surface) == text_drawn(*old(surface), area, text@),
        same_extent(*old(surface), *final(surface)),
{
    let a = ratatui::layout::Rect { x: area.x, y: area.y, width: area.width, height: area.height };
    ratatui::text::Text::raw(text).render(a, surface);
}

/// Renders a `ratatui::widgets::Paragraph` of the message on the area:
/// wrapped and trimmed, inside a `Block` with all four borders, black on
/// white, that carries the title. The title is written as a line of text
/// is, so it must be printable, and `Block` adds one to its width in 16 bits,
/// so it must be shorter than that can hold. The message is laid out by
/// `Paragraph`, which passes over what takes no cell. The cells are written
/// in place: the surface keeps its rectangle and the number of its cells, and
/// what it holds afterwards depends on the surface before, on the area and
/// on the two texts alone.
#[verifier::external_body]
pub(crate) fn draw_notice(surface: &mut Buffer, area: Rect, title: &str, message: &str)
    requires
        sound(*old(surface)),
        drawable(*old(surface), area),
        printable(title@),
        title@.len() <= TITLE_LIMIT,
    ensures
        *final(surface) == notice_drawn(*old(surface), area, title@, message@),
        same_extent(*old(surface), *final(surface)),
{
    let a = ratatui::layout::Rect { x: area.x, y: area.y, width: area.width, height: area.height };
    let style = Style::new().fg(ratatui::style::Color::Black).bg(ratatui::style::Color::White);
    let block = ratatui::widgets::Block::new().borders(ratatui::widgets::Borders::all());
    ratatui::widgets::Paragraph::new(message)
        .wrap(ratatui::widgets::Wrap { trim: true })
        .block(block.style(style).title(title))
        .render(a, surface);
}

/// Calls `ratatui::buffer::Buffer::set_style`: the cells of the area that the
/// surface holds take the style. The cells are written in place, reached by
/// position, so the surface must be sound; it keeps its rectangle and the
/// number of its cells.
#[verifier::external_body]
pub(crate) fn paint(surface: &mut Buffer, area: Rect, style: &Style)
    requires
        sound(*old(surface)),
    ensures
        *final(surface) == painted(*old(surface), area, *style),
        same_extent(*old(surface), *final(surface)),
{
    let a = ratatui::layout::Rect { x: area.x, y: area.y, width: area.width, height: area.height };
    surface.set_style(a, *style);
}

/// Calls `Style::default` of `ratatui::style::Style`: the style that changes
/// nothing.
#[verifier::external_body]
pub(crate) fn plain_style() -> Style {
    Style::default()
}

} // verus!
