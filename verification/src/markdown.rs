//! Markdown rendered to styled terminal text: headings, emphasis, list items,
//! inline code and inline math, and tables drawn with box characters.

use vstd::prelude::*;
use crate::math::{inline_math_text, inline_math_to_text_checked};
use crate::text::{
    char_views, chars_of, push_all, slice_of, split_chars, split_on, string_of, trim,
    trim_bounds,
};

verus! {

/// The colors the renderer uses.
#[derive(Debug, Clone, Copy, PartialEq, Eq)]
pub enum TermColor {
    Cyan,
    Green,
    Yellow,
    White,
    DarkGray,
}

/// The style of a span: a foreground color, bold, italic.
#[derive(Debug, Clone, Copy, PartialEq, Eq)]
pub struct TextStyle {
    pub fg: Option<TermColor>,
    pub bold: bool,
    pub italic: bool,
}

pub open spec fn plain() -> TextStyle {
    TextStyle { fg: None, bold: false, italic: false }
}

pub open spec fn colored(c: TermColor) -> TextStyle {
    TextStyle { fg: Some(c), bold: false, italic: false }
}

/// A run of text in one style.
#[derive(Debug, Clone, PartialEq, Eq)]
pub struct StyledSpan {
    pub content: String,
    pub style: TextStyle,
}

/// One line of styled text.
#[derive(Debug, Clone, PartialEq, Eq)]
pub struct StyledLine {
    pub spans: Vec<StyledSpan>,
}

/// Styled text, line by line.
#[derive(Debug, Clone, PartialEq, Eq)]
pub struct StyledText {
    pub lines: Vec<StyledLine>,
}

impl View for StyledSpan {
    type V = (Seq<char>, TextStyle);

    open spec fn view(&self) -> (Seq<char>, TextStyle) {
        (self.content@, self.style)
    }
}

impl View for StyledLine {
    type V = Seq<(Seq<char>, TextStyle)>;

    open spec fn view(&self) -> Seq<(Seq<char>, TextStyle)> {
        self.spans@.map_values(|s: StyledSpan| s@)
    }
}

pub open spec fn lines_view(v: Seq<StyledLine>) -> Seq<Seq<(Seq<char>, TextStyle)>> {
    v.map_values(|l: StyledLine| l@)
}

impl View for StyledText {
    type V = Seq<Seq<(Seq<char>, TextStyle)>>;

    open spec fn view(&self) -> Seq<Seq<(Seq<char>, TextStyle)>> {
        lines_view(self.lines@)
    }
}

/// The alignment of a table column.
#[derive(Debug, Clone, Copy, PartialEq, Eq)]
pub enum Align {
    Plain,
    Left,
    Center,
    Right,
}

/// The markdown events the renderer reacts to.
#[derive(Debug, Clone, PartialEq, Eq)]
pub enum MdEvent {
    HeadingStart(u8),
    HeadingEnd,
    TableStart(Vec<Align>),
    TableHeadStart,
    TableHeadEnd,
    TableRowStart,
    TableRowEnd,
    TableCellStart,
    TableCellEnd,
    TableEnd,
    StrongStart,
    StrongEnd,
    EmphasisStart,
    EmphasisEnd,
    ItemStart,
    ItemEnd,
    ParagraphEnd,
    Text(String),
    Code(String),
    Break,
    Other,
}

/// A markdown event as values.
pub enum EventView {
    HeadingStart(u8),
    HeadingEnd,
    TableStart(Seq<Align>),
    TableHeadStart,
    TableHeadEnd,
    TableRowStart,
    TableRowEnd,
    TableCellStart,
    TableCellEnd,
    TableEnd,
    StrongStart,
    StrongEnd,
    EmphasisStart,
    EmphasisEnd,
    ItemStart,
    ItemEnd,
    ParagraphEnd,
    Text(Seq<char>),
    Code(Seq<char>),
    Break,
    Other,
}

impl View for MdEvent {
    type V = EventView;

    open spec fn view(&self) -> EventView {
        match self {
            MdEvent::HeadingStart(l) => EventView::HeadingStart(*l),
            MdEvent::HeadingEnd => EventView::HeadingEnd,
            MdEvent::TableStart(a) => EventView::TableStart(a@),
            MdEvent::TableHeadStart => EventView::TableHeadStart,
            MdEvent::TableHeadEnd => EventView::TableHeadEnd,
            MdEvent::TableRowStart => EventView::TableRowStart,
            MdEvent::TableRowEnd => EventView::TableRowEnd,
            MdEvent::TableCellStart => EventView::TableCellStart,
            MdEvent::TableCellEnd => EventView::TableCellEnd,
            MdEvent::TableEnd => EventView::TableEnd,
            MdEvent::StrongStart => EventView::StrongStart,
            MdEvent::StrongEnd => EventView::StrongEnd,
            MdEvent::EmphasisStart => EventView::EmphasisStart,
            MdEvent::EmphasisEnd => EventView::EmphasisEnd,
            MdEvent::ItemStart => EventView::ItemStart,
            MdEvent::ItemEnd => EventView::ItemEnd,
            MdEvent::ParagraphEnd => EventView::ParagraphEnd,
            MdEvent::Text(t) => EventView::Text(t@),
            MdEvent::Code(t) => EventView::Code(t@),
            MdEvent::Break => EventView::Break,
            MdEvent::Other => EventView::Other,
        }
    }
}

/// The display width of a text in terminal columns, as `unicode-width`
/// measures it.
pub uninterp spec fn display_width(s: Seq<char>) -> usize;

/// `UnicodeWidthStr::width`.
#[verifier::external_body]
fn text_width(s: &str) -> (r: usize)
    ensures
        r == display_width(s@),
{
    unicode_width::UnicodeWidthStr::width(s)
}

/// A table while it is being read.
pub struct TableModel {
    pub aligns: Seq<Align>,
    pub rows: Seq<Seq<Seq<char>>>,
    pub current_row: Seq<Seq<char>>,
    pub current_cell: Seq<char>,
    pub header_rows: nat,
    pub in_head: bool,
}

/// A cell's text: trimmed, newlines as spaces.
pub open spec fn cell_text(c: Seq<char>) -> Seq<char> {
    trim(c).map_values(|ch: char| if ch == '\n' { ' ' } else { ch })
}

pub open spec fn column_count_of(rows: Seq<Seq<Seq<char>>>, aligns: nat) -> nat
    decreases rows.len(),
{
    if rows.len() == 0 {
        aligns
    } else {
        let rest = column_count_of(rows.drop_last(), aligns);
        if rows.last().len() > rest {
            rows.last().len()
        } else {
            rest
        }
    }
}

/// Column widths: at least one, and the widest cell of each column.
pub open spec fn column_widths_of(rows: Seq<Seq<Seq<char>>>, n: nat) -> Seq<usize>
    decreases rows.len(),
{
    if rows.len() == 0 {
        Seq::new(n, |c: int| 1usize)
    } else {
        let w = column_widths_of(rows.drop_last(), n);
        let row = rows.last();
        Seq::new(
            w.len(),
            |c: int|
                if c < row.len() && display_width(row[c]) > w[c] {
                    display_width(row[c])
                } else {
                    w[c]
                },
        )
    }
}

pub open spec fn spaces(n: nat) -> Seq<char> {
    Seq::new(n, |i: int| ' ')
}

/// A cell padded to `width` columns as its column is aligned.
pub open spec fn aligned_cell(cell: Seq<char>, width: usize, align: Align) -> Seq<char> {
    let used = display_width(cell);
    let padding: nat = if width > used { (width - used) as nat } else { 0 };
    match align {
        Align::Right => spaces(padding) + cell,
        Align::Center => spaces(padding / 2) + cell + spaces((padding - padding / 2) as nat),
        _ => cell + spaces(padding),
    }
}

pub open spec fn rule_char() -> char {
    '─'
}

/// The characters of a border line from column `k` on.
pub open spec fn border_from(widths: Seq<usize>, sep: char, right: char, k: int) -> Seq<char>
    decreases widths.len() - k,
{
    if k < 0 || k >= widths.len() {
        seq![]
    } else {
        Seq::new((widths[k] + 2) as nat, |i: int| rule_char()) + (if k + 1 == widths.len() {
            seq![right]
        } else {
            seq![sep]
        }) + border_from(widths, sep, right, k + 1)
    }
}

/// A border line of the table, in dark gray.
pub open spec fn border_line_of(left: char, sep: char, right: char, widths: Seq<usize>) -> Seq<(Seq<char>, TextStyle)> {
    seq![(seq![left] + border_from(widths, sep, right, 0), colored(TermColor::DarkGray))]
}

pub open spec fn header_style() -> TextStyle {
    TextStyle { fg: Some(TermColor::Cyan), bold: true, italic: false }
}

/// The spans of a table row from column `k` on.
pub open spec fn row_cells_from(
    row: Seq<Seq<char>>,
    aligns: Seq<Align>,
    widths: Seq<usize>,
    header: bool,
    k: int,
) -> Seq<(Seq<char>, TextStyle)>
    decreases widths.len() - k,
{
    if k < 0 || k >= widths.len() {
        seq![]
    } else {
        let cell = if k < row.len() { row[k] } else { seq![] };
        let align = if k < aligns.len() { aligns[k] } else { Align::Plain };
        seq![
            (seq![' '], plain()),
            (aligned_cell(cell, widths[k], align), if header { header_style() } else { plain() }),
            (seq![' '], plain()),
            (seq!['│'], colored(TermColor::DarkGray)),
        ] + row_cells_from(row, aligns, widths, header, k + 1)
    }
}

pub open spec fn row_line_of(row: Seq<Seq<char>>, aligns: Seq<Align>, widths: Seq<usize>, header: bool) -> Seq<(Seq<char>, TextStyle)> {
    seq![(seq!['│'], colored(TermColor::DarkGray))] + row_cells_from(row, aligns, widths, header, 0)
}

/// The lines of the first `k` rows, the header rule after the header rows.
pub open spec fn table_rows_lines(t: TableModel, widths: Seq<usize>, k: int) -> Seq<Seq<(Seq<char>, TextStyle)>>
    decreases k,
{
    if k <= 0 {
        seq![]
    } else {
        let i = k - 1;
        let h = if t.header_rows > 1 { t.header_rows } else { 1 };
        let before = table_rows_lines(t, widths, i).push(row_line_of(t.rows[i], t.aligns, widths, i < h));
        if i + 1 == h {
            before.push(border_line_of('├', '┼', '┤', widths))
        } else {
            before
        }
    }
}

/// The lines of a finished table; `None` where a column is too wide to
/// draw (its width and padding overflow).
pub open spec fn rendered_table(t: TableModel) -> Option<Seq<Seq<(Seq<char>, TextStyle)>>> {
    let n = column_count_of(t.rows, t.aligns.len());
    if n == 0 {
        Some(seq![])
    } else {
        let widths = column_widths_of(t.rows, n);
        if exists|c: int| 0 <= c < widths.len() && widths[c] + 2 > usize::MAX {
            None
        } else {
            Some(seq![border_line_of('┌', '┬', '┐', widths)] + table_rows_lines(t, widths, t.rows.len() as int)
                + seq![border_line_of('└', '┴', '┘', widths)])
        }
    }
}

/// One event applied to a table being read: the table afterwards, and its
/// lines once it ends; `None` where the table cannot be drawn.
pub open spec fn table_step(t: TableModel, e: EventView) -> Option<(TableModel, Option<Seq<Seq<(Seq<char>, TextStyle)>>>)> {
    match e {
        EventView::TableRowStart => Some((TableModel { current_row: seq![], ..t }, None)),
        EventView::TableHeadStart => Some((TableModel { in_head: true, current_row: seq![], ..t }, None)),
        EventView::TableCellStart => Some((TableModel { current_cell: seq![], ..t }, None)),
        EventView::TableCellEnd => Some((TableModel {
            current_row: t.current_row.push(cell_text(t.current_cell)),
            current_cell: seq![],
            ..t
        }, None)),
        EventView::TableHeadEnd => {
            let rows = if t.current_row.len() > 0 { t.rows.push(t.current_row) } else { t.rows };
            let current_row = if t.current_row.len() > 0 { seq![] } else { t.current_row };
            Some((TableModel { rows, current_row, header_rows: rows.len(), in_head: false, ..t }, None))
        },
        EventView::TableRowEnd => if !t.in_head && t.current_row.len() > 0 {
            Some((TableModel { rows: t.rows.push(t.current_row), current_row: seq![], ..t }, None))
        } else {
            Some((t, None))
        },
        EventView::TableEnd => match rendered_table(t) {
            Some(lines) => Some((t, Some(lines))),
            None => None,
        },
        EventView::Text(s) => match inline_math_text(s) {
            Some(m) => Some((TableModel { current_cell: t.current_cell + m, ..t }, None)),
            None => None,
        },
        EventView::Code(s) => Some((TableModel { current_cell: t.current_cell + seq!['`'] + s + seq!['`'], ..t }, None)),
        EventView::Break => Some((TableModel { current_cell: t.current_cell.push(' '), ..t }, None)),
        _ => Some((t, None)),
    }
}

struct TableState {
    alignments: Vec<Align>,
    rows: Vec<Vec<Vec<char>>>,
    current_row: Vec<Vec<char>>,
    current_cell: Vec<char>,
    header_rows: usize,
    in_head: bool,
}

pub open spec fn rows_view(rows: Seq<Vec<Vec<char>>>) -> Seq<Seq<Seq<char>>> {
    rows.map_values(|r: Vec<Vec<char>>| char_views(r@))
}

impl TableState {
    spec fn model(&self) -> TableModel {
        TableModel {
            aligns: self.alignments@,
            rows: rows_view(self.rows@),
            current_row: char_views(self.current_row@),
            current_cell: self.current_cell@,
            header_rows: self.header_rows as nat,
            in_head: self.in_head,
        }
    }

    fn new(alignments: Vec<Align>) -> (r: Self)
        ensures
            r.model() == (TableModel {
                aligns: alignments@,
                rows: seq![],
                current_row: seq![],
                current_cell: seq![],
                header_rows: 0,
                in_head: false,
            }),
    {
        let r = TableState {
            alignments,
            rows: Vec::new(),
            current_row: Vec::new(),
            current_cell: Vec::new(),
            header_rows: 0,
            in_head: false,
        };
        assert(rows_view(r.rows@) =~= seq![]);
        assert(char_views(r.current_row@) =~= seq![]);
        r
    }
}

fn spaces_exec(out: &mut Vec<char>, n: usize)
    ensures
        final(out)@ == old(out)@ + spaces(n as nat),
{
    let mut k: usize = 0;
    while k < n
        invariant
            k <= n,
            out@ == old(out)@ + spaces(k as nat),
        decreases n - k,
    {
        out.push(' ');
        k = k + 1;
        assert(out@ =~= old(out)@ + spaces(k as nat));
    }
}

fn align_cell(cell: &Vec<char>, width: usize, align: Align) -> (r: Vec<char>)
    ensures
        r@ == aligned_cell(cell@, width, align),
{
    let used = text_width(string_of(cell).as_str());
    let padding = width.saturating_sub(used);
    let mut out: Vec<char> = Vec::new();
    match align {
        Align::Right => {
            spaces_exec(&mut out, padding);
            push_all(&mut out, cell);
        },
        Align::Center => {
            let left = padding / 2;
            let right = padding - left;
            spaces_exec(&mut out, left);
            push_all(&mut out, cell);
            spaces_exec(&mut out, right);
        },
        _ => {
            push_all(&mut out, cell);
            spaces_exec(&mut out, padding);
        },
    }
    assert(out@ =~= aligned_cell(cell@, width, align));
    out
}

fn styled(content: Vec<char>, style: TextStyle) -> (r: StyledSpan)
    ensures
        r@ == (content@, style),
{
    StyledSpan { content: string_of(&content), style }
}

fn border_line(left: char, sep: char, right: char, widths: &Vec<usize>) -> (r: StyledLine)
    requires
        forall|c: int| 0 <= c < widths.len() ==> widths@[c] + 2 <= usize::MAX,
    ensures
        r@ == border_line_of(left, sep, right, widths@),
{
    let mut out: Vec<char> = Vec::new();
    out.push(left);
    let mut k: usize = 0;
    while k < widths.len()
        invariant
            k <= widths.len(),
            forall|c: int| 0 <= c < widths.len() ==> widths@[c] + 2 <= usize::MAX,
            seq![left] + border_from(widths@, sep, right, 0) == out@ + border_from(widths@, sep, right, k as int),
        decreases widths.len() - k,
    {
        let ghost before = out@;
        let n = widths[k] + 2;
        let mut j: usize = 0;
        while j < n
            invariant
                j <= n,
                out@ == before + Seq::new(j as nat, |i: int| rule_char()),
            decreases n - j,
        {
            out.push('─');
            j = j + 1;
            assert(out@ =~= before + Seq::new(j as nat, |i: int| rule_char()));
        }
        if k + 1 == widths.len() {
            out.push(right);
        } else {
            out.push(sep);
        }
        assert(out@ + border_from(widths@, sep, right, k + 1) =~= before + border_from(widths@, sep, right, k as int));
        k = k + 1;
    }
    assert(out@ =~= out@ + border_from(widths@, sep, right, k as int));
    let mut spans: Vec<StyledSpan> = Vec::new();
    let span = styled(out, TextStyle { fg: Some(TermColor::DarkGray), bold: false, italic: false });
    spans.push(span);
    let r = StyledLine { spans };
    assert(r@ =~= border_line_of(left, sep, right, widths@));
    r
}

fn char_span(c: char, style: TextStyle) -> (r: StyledSpan)
    ensures
        r@ == (seq![c], style),
{
    let mut v: Vec<char> = Vec::new();
    v.push(c);
    assert(v@ =~= seq![c]);
    styled(v, style)
}

fn row_line(row: &Vec<Vec<char>>, aligns: &Vec<Align>, widths: &Vec<usize>, header: bool) -> (r: StyledLine)
    ensures
        r@ == row_line_of(char_views(row@), aligns@, widths@, header),
{
    let gray = TextStyle { fg: Some(TermColor::DarkGray), bold: false, italic: false };
    let plain_style = TextStyle { fg: None, bold: false, italic: false };
    let cell_style = if header {
        TextStyle { fg: Some(TermColor::Cyan), bold: true, italic: false }
    } else {
        plain_style
    };
    let ghost rv = char_views(row@);
    let mut spans: Vec<StyledSpan> = Vec::new();
    spans.push(char_span('│', gray));
    let mut k: usize = 0;
    while k < widths.len()
        invariant
            k <= widths.len(),
            rv == char_views(row@),
            cell_style == (if header { header_style() } else { plain() }),
            gray == colored(TermColor::DarkGray),
            plain_style == plain(),
            row_line_of(rv, aligns@, widths@, header) == spans@.map_values(|s: StyledSpan| s@)
                + row_cells_from(rv, aligns@, widths@, header, k as int),
        decreases widths.len() - k,
    {
        let ghost before = spans@.map_values(|s: StyledSpan| s@);
        let empty: Vec<char> = Vec::new();
        assert(char_views(row@).len() == row@.len());
        let cell = if k < row.len() { &row[k] } else { &empty };
        let align = if k < aligns.len() { aligns[k] } else { Align::Plain };
        spans.push(char_span(' ', plain_style));
        spans.push(styled(align_cell(cell, widths[k], align), cell_style));
        spans.push(char_span(' ', plain_style));
        spans.push(char_span('│', gray));
        proof {
            if k < row.len() {
                assert(rv[k as int] == row@[k as int]@);
            } else {
                assert(empty@ =~= seq![]);
            }
        }
        assert(spans@.map_values(|s: StyledSpan| s@) + row_cells_from(rv, aligns@, widths@, header, k + 1)
            =~= before + row_cells_from(rv, aligns@, widths@, header, k as int));
        k = k + 1;
    }
    let r = StyledLine { spans };
    assert(r@ =~= r@ + row_cells_from(rv, aligns@, widths@, header, k as int));
    r
}

fn column_count(rows: &Vec<Vec<Vec<char>>>, aligns: usize) -> (r: usize)
    ensures
        r == column_count_of(rows_view(rows@), aligns as nat),
{
    let mut n = aligns;
    let mut i: usize = 0;
    while i < rows.len()
        invariant
            i <= rows.len(),
            n == column_count_of(rows_view(rows@).take(i as int), aligns as nat),
        decreases rows.len() - i,
    {
        assert(rows_view(rows@).take(i + 1).drop_last() =~= rows_view(rows@).take(i as int));
        assert(rows_view(rows@)[i as int] == char_views(rows@[i as int]@));
        assert(char_views(rows@[i as int]@).len() == rows@[i as int]@.len());
        if rows[i].len() > n {
            n = rows[i].len();
        }
        i = i + 1;
    }
    assert(rows_view(rows@).take(rows.len() as int) =~= rows_view(rows@));
    n
}

fn column_widths(rows: &Vec<Vec<Vec<char>>>, n: usize) -> (r: Vec<usize>)
    ensures
        r@ == column_widths_of(rows_view(rows@), n as nat),
{
    let mut w: Vec<usize> = Vec::new();
    let mut c: usize = 0;
    while c < n
        invariant
            c <= n,
            w@ == Seq::new(c as nat, |c: int| 1usize),
        decreases n - c,
    {
        w.push(1);
        c = c + 1;
        assert(w@ =~= Seq::new(c as nat, |c: int| 1usize));
    }
    let mut i: usize = 0;
    while i < rows.len()
        invariant
            i <= rows.len(),
            w@ == column_widths_of(rows_view(rows@).take(i as int), n as nat),
        decreases rows.len() - i,
    {
        let ghost prev = w@;
        assert(rows_view(rows@).take(i + 1).drop_last() =~= rows_view(rows@).take(i as int));
        let ghost row = rows_view(rows@)[i as int];
        assert(row == char_views(rows@[i as int]@));
        assert(row.len() == rows@[i as int]@.len());
        let mut c: usize = 0;
        while c < w.len()
            invariant
                c <= w.len() == prev.len(),
                row == char_views(rows@[i as int]@),
                row.len() == rows@[i as int]@.len(),
                i < rows.len(),
                forall|q: int| c <= q < w.len() ==> w@[q] == prev[q],
                forall|q: int|
                    0 <= q < c ==> w@[q] == (if q < row.len() && display_width(row[q]) > prev[q] {
                        display_width(row[q])
                    } else {
                        prev[q]
                    }),
            decreases w.len() - c,
        {
            if c < rows[i].len() {
                assert(row[c as int] == rows@[i as int]@[c as int]@);
                let cw = text_width(string_of(&rows[i][c]).as_str());
                if cw > w[c] {
                    w.set(c, cw);
                }
            }
            c = c + 1;
        }
        assert(w@ =~= column_widths_of(rows_view(rows@).take(i + 1), n as nat));
        i = i + 1;
    }
    assert(rows_view(rows@).take(rows.len() as int) =~= rows_view(rows@));
    w
}

impl TableState {
    /// The table's lines; `None` where a column is too wide to draw.
    fn render(&self) -> (r: Option<Vec<StyledLine>>)
        ensures
            match r {
                Some(v) => rendered_table(self.model()) == Some(lines_view(v@)),
                None => rendered_table(self.model()) is None,
            },
    {
        let n = column_count(&self.rows, self.alignments.len());
        if n == 0 {
            let v: Vec<StyledLine> = Vec::new();
            assert(lines_view(v@) =~= seq![]);
            return Some(v);
        }
        let widths = column_widths(&self.rows, n);
        let mut c: usize = 0;
        while c < widths.len()
            invariant
                c <= widths.len(),
                n > 0,
                n == column_count_of(rows_view(self.rows@), self.alignments@.len() as nat),
                widths@ == column_widths_of(rows_view(self.rows@), n as nat),
                forall|q: int| 0 <= q < c ==> widths@[q] + 2 <= usize::MAX,
            decreases widths.len() - c,
        {
            if widths[c] > usize::MAX - 2 {
                assert(widths@[c as int] + 2 > usize::MAX);
                assert(rows_view(self.rows@) == self.model().rows);
                assert(n == column_count_of(self.model().rows, self.model().aligns.len()));
                assert(column_widths_of(self.model().rows, n as nat)[c as int] + 2 > usize::MAX);
                return None;
            }
            c = c + 1;
        }
        let h = if self.header_rows > 1 { self.header_rows } else { 1 };
        let mut lines: Vec<StyledLine> = Vec::new();
        lines.push(border_line('┌', '┬', '┐', &widths));
        let ghost m = self.model();
        let mut i: usize = 0;
        while i < self.rows.len()
            invariant
                i <= self.rows.len(),
                m == self.model(),
                h == (if m.header_rows > 1 { m.header_rows } else { 1 }),
                widths@ == column_widths_of(m.rows, n as nat),
                forall|q: int| 0 <= q < widths.len() ==> widths@[q] + 2 <= usize::MAX,
                lines_view(lines@) == seq![border_line_of('┌', '┬', '┐', widths@)] + table_rows_lines(m, widths@, i as int),
            decreases self.rows.len() - i,
        {
            let ghost before = lines_view(lines@);
            assert(m.rows[i as int] == char_views(self.rows@[i as int]@));
            let row = row_line(&self.rows[i], &self.alignments, &widths, i < h);
            let ghost row_v = row@;
            lines.push(row);
            assert(lines_view(lines@) =~= before.push(row_v));
            assert(table_rows_lines(m, widths@, i + 1) == (if i + 1 == h {
                table_rows_lines(m, widths@, i as int).push(row_v).push(border_line_of('├', '┼', '┤', widths@))
            } else {
                table_rows_lines(m, widths@, i as int).push(row_v)
            }));
            if i + 1 == h {
                let ghost mid = lines_view(lines@);
                let b = border_line('├', '┼', '┤', &widths);
                let ghost b_v = b@;
                lines.push(b);
                assert(lines_view(lines@) =~= mid.push(b_v));
            }
            assert(lines_view(lines@) =~= seq![border_line_of('┌', '┬', '┐', widths@)] + table_rows_lines(m, widths@, i + 1));
            i = i + 1;
        }
        lines.push(border_line('└', '┴', '┘', &widths));
        assert(lines_view(lines@) =~= seq![border_line_of('┌', '┬', '┐', widths@)] + table_rows_lines(m, widths@, m.rows.len() as int)
            + seq![border_line_of('└', '┴', '┘', widths@)]);
        Some(lines)
    }
}

/// A cell's text: trimmed, newlines as spaces.
fn cell_text_exec(c: &Vec<char>) -> (r: Vec<char>)
    ensures
        r@ == cell_text(c@),
{
    let (a, b) = trim_bounds(c, 0, c.len());
    assert(c@.subrange(0, c@.len() as int) =~= c@);
    let t = slice_of(c, a, b);
    let mut out: Vec<char> = Vec::new();
    let mut k: usize = 0;
    while k < t.len()
        invariant
            k <= t.len(),
            out@ == t@.take(k as int).map_values(|ch: char| if ch == '\n' { ' ' } else { ch }),
        decreases t.len() - k,
    {
        out.push(if t[k] == '\n' { ' ' } else { t[k] });
        k = k + 1;
        assert(out@ =~= t@.take(k as int).map_values(|ch: char| if ch == '\n' { ' ' } else { ch }));
    }
    assert(t@.take(t.len() as int) =~= t@);
    out
}

impl TableState {
    /// One event applied to the table: `Some(Some(lines))` when the table
    /// ends, `Some(None)` while it goes on, `None` where the table cannot be
    /// drawn.
    fn push_event(&mut self, e: &MdEvent) -> (r: Option<Option<Vec<StyledLine>>>)
        ensures
            match (table_step(old(self).model(), e@), r) {
                (Some((t, None)), Some(None)) => final(self).model() == t,
                (Some((_, Some(ls))), Some(Some(v))) => lines_view(v@) == ls,
                (None, None) => true,
                _ => false,
            },
    {
        let ghost old_model = self.model();
        match e {
            MdEvent::TableRowStart => {
                self.current_row = Vec::new();
                assert(char_views(self.current_row@) =~= seq![]);
                assert(self.model() =~= TableModel { current_row: seq![], ..old_model });
                Some(None)
            },
            MdEvent::TableHeadStart => {
                self.in_head = true;
                self.current_row = Vec::new();
                assert(char_views(self.current_row@) =~= seq![]);
                assert(self.model() =~= TableModel { in_head: true, current_row: seq![], ..old_model });
                Some(None)
            },
            MdEvent::TableCellStart => {
                self.current_cell = Vec::new();
                assert(self.model() =~= TableModel { current_cell: seq![], ..old_model });
                Some(None)
            },
            MdEvent::TableCellEnd => {
                let cell = cell_text_exec(&self.current_cell);
                self.current_row.push(cell);
                self.current_cell = Vec::new();
                assert(char_views(self.current_row@) =~= old_model.current_row.push(cell_text(old_model.current_cell)));
                assert(self.model() =~= TableModel {
                    current_row: old_model.current_row.push(cell_text(old_model.current_cell)),
                    current_cell: seq![],
                    ..old_model
                });
                Some(None)
            },
            MdEvent::TableHeadEnd => {
                if self.current_row.len() > 0 {
                    let mut row: Vec<Vec<char>> = Vec::new();
                    std::mem::swap(&mut row, &mut self.current_row);
                    self.rows.push(row);
                    assert(rows_view(self.rows@) =~= old_model.rows.push(old_model.current_row));
                    assert(char_views(self.current_row@) =~= seq![]);
                } else {
                    assert(char_views(self.current_row@).len() == 0);
                }
                self.header_rows = self.rows.len();
                self.in_head = false;
                assert(rows_view(self.rows@).len() == self.rows@.len());
                Some(None)
            },
            MdEvent::TableRowEnd => {
                if !self.in_head && self.current_row.len() > 0 {
                    let mut row: Vec<Vec<char>> = Vec::new();
                    std::mem::swap(&mut row, &mut self.current_row);
                    self.rows.push(row);
                    assert(rows_view(self.rows@) =~= old_model.rows.push(old_model.current_row));
                    assert(char_views(self.current_row@) =~= seq![]);
                    assert(self.model() =~= TableModel {
                        rows: old_model.rows.push(old_model.current_row),
                        current_row: seq![],
                        ..old_model
                    });
                }
                Some(None)
            },
            MdEvent::TableEnd => {
                match self.render() {
                    Some(lines) => Some(Some(lines)),
                    None => None,
                }
            },
            MdEvent::Text(t) => {
                match inline_math_to_text_checked(t.as_str()) {
                    Some(m) => {
                        push_all(&mut self.current_cell, &chars_of(m.as_str()));
                        assert(self.model() =~= TableModel { current_cell: old_model.current_cell + m@, ..old_model });
                        Some(None)
                    },
                    None => None,
                }
            },
            MdEvent::Code(t) => {
                self.current_cell.push('`');
                push_all(&mut self.current_cell, &chars_of(t.as_str()));
                self.current_cell.push('`');
                assert(self.current_cell@ =~= old_model.current_cell + seq!['`'] + t@ + seq!['`']);
                assert(self.model() =~= TableModel { current_cell: old_model.current_cell + seq!['`'] + t@ + seq!['`'], ..old_model });
                Some(None)
            },
            MdEvent::Break => {
                self.current_cell.push(' ');
                assert(self.model() =~= TableModel { current_cell: old_model.current_cell.push(' '), ..old_model });
                Some(None)
            },
            _ => Some(None),
        }
    }
}

/// The renderer while it reads the events.
pub struct RenderModel {
    pub lines: Seq<Seq<(Seq<char>, TextStyle)>>,
    pub spans: Seq<(Seq<char>, TextStyle)>,
    pub styles: Seq<TextStyle>,
    pub heading: Option<u8>,
    pub table: Option<TableModel>,
}

pub open spec fn start_model() -> RenderModel {
    RenderModel { lines: seq![], spans: seq![], styles: seq![], heading: None, table: None }
}

pub open spec fn new_table(aligns: Seq<Align>) -> TableModel {
    TableModel {
        aligns,
        rows: seq![],
        current_row: seq![],
        current_cell: seq![],
        header_rows: 0,
        in_head: false,
    }
}

/// The spans gathered so far closed into a line, if there are any.
pub open spec fn line_done(m: RenderModel) -> RenderModel {
    if m.spans.len() > 0 {
        RenderModel { lines: m.lines.push(m.spans), spans: seq![], ..m }
    } else {
        m
    }
}

/// The innermost style, or the plain one.
pub open spec fn style_now(m: RenderModel) -> TextStyle {
    if m.styles.len() > 0 {
        m.styles.last()
    } else {
        plain()
    }
}

/// The style stack without its innermost style, if it has one.
pub open spec fn styles_popped(m: RenderModel) -> Seq<TextStyle> {
    if m.styles.len() > 0 {
        m.styles.drop_last()
    } else {
        m.styles
    }
}

/// Headings are bold; levels one to three in cyan, green and yellow, deeper
/// ones in white.
pub open spec fn heading_style_of(level: u8) -> TextStyle {
    TextStyle {
        fg: Some(
            if level == 1 {
                TermColor::Cyan
            } else if level == 2 {
                TermColor::Green
            } else if level == 3 {
                TermColor::Yellow
            } else {
                TermColor::White
            },
        ),
        bold: true,
        italic: false,
    }
}

/// One event applied to the renderer; `None` where it cannot be rendered.
/// While a table is open every event goes to the table, and a finished table
/// adds its lines and a blank line.
pub open spec fn render_step(m: RenderModel, e: EventView) -> Option<RenderModel> {
    match m.table {
        Some(t) => match table_step(t, e) {
            None => None,
            Some((t2, None)) => Some(RenderModel { table: Some(t2), ..m }),
            Some((_, Some(ls))) => Some(RenderModel { lines: m.lines + ls + seq![seq![]], table: None, ..m }),
        },
        None => match e {
            EventView::HeadingStart(level) => {
                let f = line_done(m);
                Some(RenderModel { heading: Some(level), styles: f.styles.push(heading_style_of(level)), ..f })
            },
            EventView::HeadingEnd => {
                let f = line_done(m);
                Some(RenderModel { heading: None, styles: styles_popped(f), lines: f.lines.push(seq![]), ..f })
            },
            EventView::TableStart(aligns) => {
                let f = line_done(m);
                Some(RenderModel { table: Some(new_table(aligns)), ..f })
            },
            EventView::StrongStart => Some(RenderModel { styles: m.styles.push(TextStyle { bold: true, ..style_now(m) }), ..m }),
            EventView::EmphasisStart => Some(RenderModel { styles: m.styles.push(TextStyle { italic: true, ..style_now(m) }), ..m }),
            EventView::StrongEnd => Some(RenderModel { styles: styles_popped(m), ..m }),
            EventView::EmphasisEnd => Some(RenderModel { styles: styles_popped(m), ..m }),
            EventView::ItemStart => {
                let f = line_done(m);
                Some(RenderModel { spans: f.spans.push((seq!['-', ' '], plain())), ..f })
            },
            EventView::ParagraphEnd => {
                let f = line_done(m);
                Some(if f.heading is None { RenderModel { lines: f.lines.push(seq![]), ..f } } else { f })
            },
            EventView::ItemEnd => {
                let f = line_done(m);
                Some(if f.heading is None { RenderModel { lines: f.lines.push(seq![]), ..f } } else { f })
            },
            EventView::Text(t) => match inline_math_text(t) {
                Some(x) => Some(RenderModel { spans: m.spans.push((x, style_now(m))), ..m }),
                None => None,
            },
            EventView::Code(t) => Some(RenderModel {
                spans: m.spans.push((t, TextStyle { fg: Some(TermColor::Yellow), ..style_now(m) })),
                ..m
            }),
            EventView::Break => Some(line_done(m)),
            _ => Some(m),
        },
    }
}

/// The renderer after all the events, in order; `None` where they cannot
/// be rendered.
pub open spec fn render_run(events: Seq<EventView>) -> Option<RenderModel>
    decreases events.len(),
{
    if events.len() == 0 {
        Some(start_model())
    } else {
        match render_run(events.drop_last()) {
            Some(m) => render_step(m, events.last()),
            None => None,
        }
    }
}

/// The lines without the trailing ones that hold no span.
pub open spec fn drop_blank_tail(ls: Seq<Seq<(Seq<char>, TextStyle)>>) -> Seq<Seq<(Seq<char>, TextStyle)>>
    decreases ls.len(),
{
    if ls.len() > 0 && ls.last().len() == 0 {
        drop_blank_tail(ls.drop_last())
    } else {
        ls
    }
}

/// A line without a trailing carriage return.
pub open spec fn strip_cr(l: Seq<char>) -> Seq<char> {
    if l.len() > 0 && l.last() == '\r' {
        l.drop_last()
    } else {
        l
    }
}

/// `str::lines`: the text split at newlines, a carriage return before a
/// newline dropped, no empty last line after a final newline.
pub open spec fn text_lines(s: Seq<char>) -> Seq<Seq<char>> {
    let ps = split_on(s, '\n');
    let k = ps.len() - 1;
    ps.take(k).map_values(|p: Seq<char>| strip_cr(p)) + if ps[k].len() > 0 {
        seq![ps[k]]
    } else {
        seq![]
    }
}

/// Plain text as lines: one empty line for an empty text, else one line per
/// text line, a span for each non-empty one.
pub open spec fn fallback_lines(s: Seq<char>) -> Seq<Seq<(Seq<char>, TextStyle)>> {
    if s.len() == 0 {
        seq![seq![]]
    } else {
        text_lines(s).map_values(
            |l: Seq<char>|
                if l.len() == 0 {
                    Seq::<(Seq<char>, TextStyle)>::empty()
                } else {
                    seq![(l, plain())]
                },
        )
    }
}

/// The lines rendered from the events, or `fallback` as plain text when no
/// line holds anything; `None` where they cannot be rendered.
pub open spec fn rendered_events(events: Seq<EventView>, fallback: Seq<char>) -> Option<Seq<Seq<(Seq<char>, TextStyle)>>> {
    match render_run(events) {
        None => None,
        Some(m) => {
            let ls = drop_blank_tail(line_done(m).lines);
            Some(if ls.len() == 0 { fallback_lines(fallback) } else { ls })
        },
    }
}

struct MarkdownRenderer {
    lines: Vec<StyledLine>,
    spans: Vec<StyledSpan>,
    styles: Vec<TextStyle>,
    heading: Option<u8>,
    table: Option<TableState>,
}

pub open spec fn spans_view(v: Seq<StyledSpan>) -> Seq<(Seq<char>, TextStyle)> {
    v.map_values(|s: StyledSpan| s@)
}

fn heading_style(level: u8) -> (r: TextStyle)
    ensures
        r == heading_style_of(level),
{
    let color = if level == 1 {
        TermColor::Cyan
    } else if level == 2 {
        TermColor::Green
    } else if level == 3 {
        TermColor::Yellow
    } else {
        TermColor::White
    };
    TextStyle { fg: Some(color), bold: true, italic: false }
}

pub(crate) fn empty_line() -> (r: StyledLine)
    ensures
        r@ == Seq::<(Seq<char>, TextStyle)>::empty(),
{
    let r = StyledLine { spans: Vec::new() };
    assert(r@ =~= Seq::<(Seq<char>, TextStyle)>::empty());
    r
}

impl MarkdownRenderer {
    spec fn model(&self) -> RenderModel {
        RenderModel {
            lines: lines_view(self.lines@),
            spans: spans_view(self.spans@),
            styles: self.styles@,
            heading: self.heading,
            table: match self.table {
                Some(t) => Some(t.model()),
                None => None,
            },
        }
    }

    fn new() -> (r: Self)
        ensures
            r.model() == start_model(),
    {
        let r = MarkdownRenderer {
            lines: Vec::new(),
            spans: Vec::new(),
            styles: Vec::new(),
            heading: None,
            table: None,
        };
        assert(lines_view(r.lines@) =~= seq![]);
        assert(spans_view(r.spans@) =~= seq![]);
        assert(r.model() =~= start_model());
        r
    }

    fn finish_line(&mut self)
        ensures
            final(self).model() == line_done(old(self).model()),
    {
        if self.spans.len() > 0 {
            let mut spans: Vec<StyledSpan> = Vec::new();
            std::mem::swap(&mut spans, &mut self.spans);
            let line = StyledLine { spans };
            let ghost lv = line@;
            self.lines.push(line);
            assert(lines_view(self.lines@) =~= lines_view(old(self).lines@).push(lv));
            assert(spans_view(self.spans@) =~= seq![]);
        }
    }

    fn current_style(&self) -> (r: TextStyle)
        ensures
            r == style_now(self.model()),
    {
        if self.styles.len() > 0 {
            self.styles[self.styles.len() - 1]
        } else {
            TextStyle { fg: None, bold: false, italic: false }
        }
    }

    fn pop_style(&mut self)
        ensures
            final(self).model() == (RenderModel { styles: styles_popped(old(self).model()), ..old(self).model() }),
    {
        if self.styles.len() > 0 {
            self.styles.pop();
        }
    }

    fn push_span(&mut self, content: Vec<char>, style: TextStyle)
        ensures
            final(self).model() == (RenderModel {
                spans: old(self).model().spans.push((content@, style)),
                ..old(self).model()
            }),
    {
        let span = styled(content, style);
        self.spans.push(span);
        assert(spans_view(self.spans@) =~= spans_view(old(self).spans@).push((content@, style)));
    }

    fn push_style(&mut self, bold: bool, italic: bool)
        ensures
            final(self).model() == (RenderModel {
                styles: old(self).model().styles.push(TextStyle {
                    bold: style_now(old(self).model()).bold || bold,
                    italic: style_now(old(self).model()).italic || italic,
                    ..style_now(old(self).model())
                }),
                ..old(self).model()
            }),
    {
        let current = self.current_style();
        let style = TextStyle { bold: current.bold || bold, italic: current.italic || italic, ..current };
        self.styles.push(style);
    }

    /// An event while a table is open.
    fn push_table_event(&mut self, e: &MdEvent) -> (ok: bool)
        requires
            old(self).table is Some,
        ensures
            ok ==> render_step(old(self).model(), e@) == Some(final(self).model()),
            !ok ==> render_step(old(self).model(), e@) is None,
    {
        let ghost m = self.model();
        let mut table: Option<TableState> = None;
        std::mem::swap(&mut table, &mut self.table);
        let mut t = match table {
            Some(t) => t,
            None => return false,
        };
        match t.push_event(e) {
            None => false,
            Some(None) => {
                self.table = Some(t);
                true
            },
            Some(Some(lines)) => {
                let ghost lv = lines_view(lines@);
                let mut lines = lines;
                self.lines.append(&mut lines);
                assert(lines_view(self.lines@) =~= m.lines + lv);
                let ghost mid = lines_view(self.lines@);
                let blank = empty_line();
                self.lines.push(blank);
                assert(lines_view(self.lines@) =~= mid.push(seq![]));
                assert(lines_view(self.lines@) =~= m.lines + lv + seq![seq![]]);
                true
            },
        }
    }
}

impl MarkdownRenderer {
    /// One event; `false` where it cannot be rendered.
    fn push_event(&mut self, e: &MdEvent) -> (ok: bool)
        ensures
            ok ==> render_step(old(self).model(), e@) == Some(final(self).model()),
            !ok ==> render_step(old(self).model(), e@) is None,
    {
        if self.table.is_some() {
            return self.push_table_event(e);
        }
        let ghost m = self.model();
        match e {
            MdEvent::HeadingStart(level) => {
                self.finish_line();
                self.heading = Some(*level);
                self.styles.push(heading_style(*level));
                true
            },
            MdEvent::HeadingEnd => {
                self.finish_line();
                self.heading = None;
                self.pop_style();
                let ghost before = lines_view(self.lines@);
                self.lines.push(empty_line());
                assert(lines_view(self.lines@) =~= before.push(seq![]));
                true
            },
            MdEvent::TableStart(aligns) => {
                self.finish_line();
                self.table = Some(TableState::new(aligns.clone()));
                true
            },
            MdEvent::StrongStart => {
                self.push_style(true, false);
                assert(TextStyle { bold: style_now(m).bold || true, italic: style_now(m).italic || false, ..style_now(m) }
                    == TextStyle { bold: true, ..style_now(m) });
                true
            },
            MdEvent::EmphasisStart => {
                self.push_style(false, true);
                assert(TextStyle { bold: style_now(m).bold || false, italic: style_now(m).italic || true, ..style_now(m) }
                    == TextStyle { italic: true, ..style_now(m) });
                true
            },
            MdEvent::StrongEnd | MdEvent::EmphasisEnd => {
                self.pop_style();
                true
            },
            MdEvent::ItemStart => {
                self.finish_line();
                let mut dash: Vec<char> = Vec::new();
                dash.push('-');
                dash.push(' ');
                assert(dash@ =~= seq!['-', ' ']);
                self.push_span(dash, TextStyle { fg: None, bold: false, italic: false });
                true
            },
            MdEvent::ParagraphEnd | MdEvent::ItemEnd => {
                self.finish_line();
                if self.heading.is_none() {
                    let ghost before = lines_view(self.lines@);
                    self.lines.push(empty_line());
                    assert(lines_view(self.lines@) =~= before.push(seq![]));
                }
                true
            },
            MdEvent::Text(t) => {
                match inline_math_to_text_checked(t.as_str()) {
                    Some(x) => {
                        let style = self.current_style();
                        self.push_span(chars_of(x.as_str()), style);
                        true
                    },
                    None => false,
                }
            },
            MdEvent::Code(t) => {
                let current = self.current_style();
                let style = TextStyle { fg: Some(TermColor::Yellow), ..current };
                self.push_span(chars_of(t.as_str()), style);
                true
            },
            MdEvent::Break => {
                self.finish_line();
                true
            },
            _ => true,
        }
    }

    /// The rendered lines, or `fallback` as plain text when no line holds
    /// anything.
    fn finish(self, fallback: &str) -> (r: StyledText)
        ensures
            r@ == ({
                let ls = drop_blank_tail(line_done(self.model()).lines);
                if ls.len() == 0 { fallback_lines(fallback@) } else { ls }
            }),
    {
        let mut this = self;
        this.finish_line();
        let ghost done = this.model().lines;
        while this.lines.len() > 0 && this.lines[this.lines.len() - 1].spans.len() == 0
            invariant
                drop_blank_tail(done) == drop_blank_tail(lines_view(this.lines@)),
            decreases this.lines.len(),
        {
            let ghost before = lines_view(this.lines@);
            assert(before.last() == this.lines@.last()@);
            assert(this.lines@.last()@.len() == this.lines@.last().spans@.len());
            this.lines.pop();
            assert(lines_view(this.lines@) =~= before.drop_last());
        }
        proof {
            if this.lines.len() > 0 {
                assert(lines_view(this.lines@).last() == this.lines@.last()@);
                assert(this.lines@.last()@.len() == this.lines@.last().spans@.len());
            }
        }
        if this.lines.len() == 0 {
            fallback_text(fallback)
        } else {
            StyledText { lines: this.lines }
        }
    }
}

/// `fallback` as plain text lines.
pub(crate) fn fallback_text(fallback: &str) -> (r: StyledText)
    ensures
        r@ == fallback_lines(fallback@),
{
    let s = chars_of(fallback);
    let mut lines: Vec<StyledLine> = Vec::new();
    if s.len() == 0 {
        lines.push(empty_line());
        let r = StyledText { lines };
        assert(r@ =~= fallback_lines(fallback@));
        return r;
    }
    let pieces = split_chars(&s, '\n');
    let ghost ps = char_views(pieces@);
    proof {
        crate::text::lemma_split_on_nonempty(s@, '\n');
    }
    assert(ps.len() == pieces@.len());
    let k = pieces.len() - 1;
    let ghost want = text_lines(s@);
    let mut i: usize = 0;
    while i < k
        invariant
            i <= k,
            k + 1 == pieces.len(),
            ps == char_views(pieces@),
            ps == split_on(s@, '\n'),
            ps.len() == pieces@.len(),
            lines_view(lines@) == ps.take(i as int).map_values(|p: Seq<char>| strip_cr(p)).map_values(
                |l: Seq<char>|
                    if l.len() == 0 {
                        Seq::<(Seq<char>, TextStyle)>::empty()
                    } else {
                        seq![(l, plain())]
                    },
            ),
        decreases k - i,
    {
        let ghost before = lines_view(lines@);
        let p = &pieces[i];
        assert(ps[i as int] == p@);
        let l = if p.len() > 0 && p[p.len() - 1] == '\r' {
            slice_of(p, 0, p.len() - 1)
        } else {
            slice_of(p, 0, p.len())
        };
        assert(l@ =~= strip_cr(p@));
        let line = if l.len() == 0 {
            empty_line()
        } else {
            let mut spans: Vec<StyledSpan> = Vec::new();
            spans.push(styled(l, TextStyle { fg: None, bold: false, italic: false }));
            let line = StyledLine { spans };
            assert(line@ =~= seq![(strip_cr(p@), plain())]);
            line
        };
        let ghost line_v = line@;
        lines.push(line);
        assert(lines_view(lines@) =~= before.push(line_v));
        i = i + 1;
        assert(lines_view(lines@) =~= ps.take(i as int).map_values(|p: Seq<char>| strip_cr(p)).map_values(
            |l: Seq<char>|
                if l.len() == 0 {
                    Seq::<(Seq<char>, TextStyle)>::empty()
                } else {
                    seq![(l, plain())]
                },
        ));
    }
    let ghost before = lines_view(lines@);
    assert(ps[k as int] == pieces@[k as int]@);
    if pieces[k].len() > 0 {
        let mut spans: Vec<StyledSpan> = Vec::new();
        spans.push(styled(slice_of(&pieces[k], 0, pieces[k].len()), TextStyle { fg: None, bold: false, italic: false }));
        let line = StyledLine { spans };
        assert(pieces@[k as int]@.subrange(0, pieces@[k as int]@.len() as int) =~= pieces@[k as int]@);
        let ghost line_v = line@;
        assert(line_v =~= seq![(ps[k as int], plain())]);
        lines.push(line);
        assert(lines_view(lines@) =~= before.push(line_v));
    }
    let r = StyledText { lines };
    assert(r@ =~= fallback_lines(fallback@));
    r
}

/// Styled lines from markdown events, or `fallback` as plain text when they
/// give no line with anything in it; `None` where they cannot be rendered
/// (a column too wide to draw).
pub fn render_markdown_events(events: &Vec<MdEvent>, fallback: &str) -> (r: Option<StyledText>)
    ensures
        match r {
            Some(t) => rendered_events(events@.map_values(|e: MdEvent| e@), fallback@) == Some(t@),
            None => rendered_events(events@.map_values(|e: MdEvent| e@), fallback@) is None,
        },
{
    let ghost evs = events@.map_values(|e: MdEvent| e@);
    let mut renderer = MarkdownRenderer::new();
    let mut i: usize = 0;
    while i < events.len()
        invariant
            i <= events.len(),
            evs == events@.map_values(|e: MdEvent| e@),
            render_run(evs.take(i as int)) == Some(renderer.model()),
        decreases events.len() - i,
    {
        assert(evs.take(i + 1).drop_last() =~= evs.take(i as int));
        assert(evs.take(i + 1).last() == events@[i as int]@);
        if !renderer.push_event(&events[i]) {
            proof {
                lemma_render_run_stuck(evs, i as int + 1);
            }
            return None;
        }
        i = i + 1;
    }
    assert(evs.take(events.len() as int) =~= evs);
    Some(renderer.finish(fallback))
}

proof fn lemma_render_run_stuck(evs: Seq<EventView>, n: int)
    requires
        0 <= n <= evs.len(),
        render_run(evs.take(n)) is None,
    ensures
        render_run(evs) is None,
    decreases evs.len() - n,
{
    if n < evs.len() {
        assert(evs.take(n + 1).drop_last() =~= evs.take(n));
        lemma_render_run_stuck(evs, n + 1);
    } else {
        assert(evs.take(n) =~= evs);
    }
}

#[verifier::external_type_specification]
#[verifier::external_body]
pub struct ExCmarkEvent<'a>(pulldown_cmark::Event<'a>);

#[verifier::external_type_specification]
#[verifier::external_body]
pub struct ExCmarkTag<'a>(pulldown_cmark::Tag<'a>);

#[verifier::external_type_specification]
#[verifier::external_body]
pub struct ExCmarkTagEnd(pulldown_cmark::TagEnd);

#[verifier::external_type_specification]
#[verifier::external_body]
pub struct ExCmarkAlignment(pulldown_cmark::Alignment);

/// The events `pulldown-cmark` reads from a text with tables enabled, each
/// as an `MdEvent`.
pub uninterp spec fn markdown_events(text: Seq<char>) -> Seq<EventView>;

/// `pulldown_cmark::Parser::new_ext` with `Options::ENABLE_TABLES`, the
/// events converted one for one by `md_event`.
#[verifier::external_body]
fn parse_markdown(text: &str) -> (r: Vec<MdEvent>)
    ensures
        r@.map_values(|e: MdEvent| e@) == markdown_events(text@),
{
    pulldown_cmark::Parser::new_ext(text, pulldown_cmark::Options::ENABLE_TABLES).map(md_event).collect()
}

/// A `pulldown_cmark::Event` as an `MdEvent`, variant for variant.
#[verifier::external_body]
fn md_event(event: pulldown_cmark::Event<'_>) -> MdEvent {
    match event {
        pulldown_cmark::Event::Start(tag) => md_start(tag),
        pulldown_cmark::Event::End(tag) => md_end(tag),
        pulldown_cmark::Event::Text(text) => MdEvent::Text(text.into_string()),
        pulldown_cmark::Event::Code(text) => MdEvent::Code(text.into_string()),
        pulldown_cmark::Event::SoftBreak | pulldown_cmark::Event::HardBreak => MdEvent::Break,
        _ => MdEvent::Other,
    }
}

/// A start tag as an `MdEvent`, variant for variant.
#[verifier::external_body]
fn md_start(tag: pulldown_cmark::Tag<'_>) -> MdEvent {
    match tag {
        pulldown_cmark::Tag::Heading { level, .. } => MdEvent::HeadingStart(level as u8),
        pulldown_cmark::Tag::Table(aligns) => MdEvent::TableStart(aligns.into_iter().map(md_align).collect()),
        pulldown_cmark::Tag::TableHead => MdEvent::TableHeadStart,
        pulldown_cmark::Tag::TableRow => MdEvent::TableRowStart,
        pulldown_cmark::Tag::TableCell => MdEvent::TableCellStart,
        pulldown_cmark::Tag::Strong => MdEvent::StrongStart,
        pulldown_cmark::Tag::Emphasis => MdEvent::EmphasisStart,
        pulldown_cmark::Tag::Item => MdEvent::ItemStart,
        _ => MdEvent::Other,
    }
}

/// An end tag as an `MdEvent`, variant for variant.
#[verifier::external_body]
fn md_end(tag: pulldown_cmark::TagEnd) -> MdEvent {
    match tag {
        pulldown_cmark::TagEnd::Heading(_) => MdEvent::HeadingEnd,
        pulldown_cmark::TagEnd::Table => MdEvent::TableEnd,
        pulldown_cmark::TagEnd::TableHead => MdEvent::TableHeadEnd,
        pulldown_cmark::TagEnd::TableRow => MdEvent::TableRowEnd,
        pulldown_cmark::TagEnd::TableCell => MdEvent::TableCellEnd,
        pulldown_cmark::TagEnd::Strong => MdEvent::StrongEnd,
        pulldown_cmark::TagEnd::Emphasis => MdEvent::EmphasisEnd,
        pulldown_cmark::TagEnd::Item => MdEvent::ItemEnd,
        pulldown_cmark::TagEnd::Paragraph => MdEvent::ParagraphEnd,
        _ => MdEvent::Other,
    }
}

/// A column alignment as an `Align`, variant for variant.
#[verifier::external_body]
fn md_align(align: pulldown_cmark::Alignment) -> Align {
    match align {
        pulldown_cmark::Alignment::None => Align::Plain,
        pulldown_cmark::Alignment::Left => Align::Left,
        pulldown_cmark::Alignment::Center => Align::Center,
        pulldown_cmark::Alignment::Right => Align::Right,
    }
}

/// What `markdown_to_text` renders: inline math turned into text first, then
/// the markdown events of that text rendered with it as the fallback; `None`
/// where the markdown cannot be rendered (a backslash ending an inline
/// formula, a column too wide to draw).
pub open spec fn markdown_lines(markdown: Seq<char>) -> Option<Seq<Seq<(Seq<char>, TextStyle)>>> {
    match inline_math_text(markdown) {
        None => None,
        Some(m) => rendered_events(markdown_events(m), m),
    }
}

/// Markdown as styled terminal text, for markdown on which this does not
/// fail (see `markdown_to_text_checked`).
pub fn markdown_to_text(markdown: &str) -> (r: StyledText)
    requires
        markdown_lines(markdown@) is Some,
    ensures
        markdown_lines(markdown@) == Some(r@),
{
    let converted = match inline_math_to_text_checked(markdown) {
        Some(m) => m,
        None => return StyledText { lines: Vec::new() },
    };
    let events = parse_markdown(converted.as_str());
    match render_markdown_events(&events, converted.as_str()) {
        Some(t) => t,
        None => StyledText { lines: Vec::new() },
    }
}

/// Markdown as styled terminal text; `None` exactly where it cannot be
/// rendered.
pub fn markdown_to_text_checked(markdown: &str) -> (r: Option<StyledText>)
    ensures
        match r {
            Some(t) => markdown_lines(markdown@) == Some(t@),
            None => markdown_lines(markdown@) is None,
        },
{
    let converted = match inline_math_to_text_checked(markdown) {
        Some(m) => m,
        None => return None,
    };
    let events = parse_markdown(converted.as_str());
    match render_markdown_events(&events, converted.as_str()) {
        Some(_) => Some(markdown_to_text(markdown)),
        None => None,
    }
}


proof fn lemma_text_lines_nonempty(s: Seq<char>)
    requires
        s.len() > 0,
    ensures
        text_lines(s).len() >= 1,
{
    let ps = split_on(s, '\n');
    crate::text::lemma_split_on_nonempty(s.drop_last(), '\n');
    crate::text::lemma_split_on_nonempty(s, '\n');
    let k = ps.len() - 1;
    if k == 0 {
        assert(s.last() != '\n');
        assert(ps[k].len() > 0);
    }
    assert(text_lines(s).len() == k + if ps[k].len() > 0 { 1int } else { 0int });
}

/// Markdown that renders gives at least one line, so every markdown block
/// takes a row of the preview.
pub proof fn lemma_markdown_lines_nonempty(markdown: Seq<char>)
    ensures
        markdown_lines(markdown) matches Some(ls) ==> ls.len() >= 1,
{
    if let Some(m) = inline_math_text(markdown) {
        if m.len() > 0 {
            lemma_text_lines_nonempty(m);
        }
    }
}


/// Every column of a table is at least one column wide and as wide as each
/// of its cells.
pub proof fn lemma_column_widths_fit_cells(rows: Seq<Seq<Seq<char>>>, n: nat)
    ensures
        column_widths_of(rows, n).len() == n,
        forall|c: int| 0 <= c < n ==> #[trigger] column_widths_of(rows, n)[c] >= 1,
        forall|r: int, c: int|
            0 <= r < rows.len() && 0 <= c < n && c < rows[r].len() ==> display_width(
                #[trigger] rows[r][c],
            ) <= #[trigger] column_widths_of(rows, n)[c],
    decreases rows.len(),
{
    if rows.len() > 0 {
        let d = rows.drop_last();
        lemma_column_widths_fit_cells(d, n);
        let w = column_widths_of(d, n);
        let v = column_widths_of(rows, n);
        assert forall|r: int, c: int|
            0 <= r < rows.len() && 0 <= c < n && c < rows[r].len() implies display_width(
            #[trigger] rows[r][c],
        ) <= #[trigger] column_widths_of(rows, n)[c] by {
            if r < d.len() {
                assert(rows[r] == d[r]);
                assert(display_width(d[r][c]) <= w[c]);
            }
        }
    }
}


/// Strong text is bold and emphasized text italic: outside a table, text that
/// follows a `**` (strong) start is drawn bold with the italic and color it had
/// before, text that follows a `*` (emphasis) start is drawn italic with the
/// boldness and color it had before, and the matching end gives back the
/// style from before the start.
pub proof fn lemma_strong_is_bold_emphasis_is_italic(m: RenderModel, t: Seq<char>)
    requires
        m.table is None,
        inline_math_text(t) is Some,
    ensures
        ({
            let s = render_step(render_step(m, EventView::StrongStart)->Some_0, EventView::Text(t))->Some_0.spans.last().1;
            s.bold && s.italic == style_now(m).italic && s.fg == style_now(m).fg
        }),
        ({
            let s = render_step(render_step(m, EventView::EmphasisStart)->Some_0, EventView::Text(t))->Some_0.spans.last().1;
            s.italic && s.bold == style_now(m).bold && s.fg == style_now(m).fg
        }),
        style_now(
            render_step(render_step(m, EventView::StrongStart)->Some_0, EventView::StrongEnd)->Some_0,
        ) == style_now(m),
        style_now(
            render_step(render_step(m, EventView::EmphasisStart)->Some_0, EventView::EmphasisEnd)->Some_0,
        ) == style_now(m),
{
    let m1 = render_step(m, EventView::StrongStart)->Some_0;
    assert(m1.styles.drop_last() =~= m.styles);
    let m3 = render_step(m, EventView::EmphasisStart)->Some_0;
    assert(m3.styles.drop_last() =~= m.styles);
}


/// Heading text is bold and not italic, cyan at level 1, green at level 2,
/// yellow at level 3 and white below.
pub proof fn lemma_heading_text_style(m: RenderModel, level: u8, t: Seq<char>)
    requires
        m.table is None,
        inline_math_text(t) is Some,
    ensures
        ({
            let s = render_step(render_step(m, EventView::HeadingStart(level))->Some_0, EventView::Text(t))->Some_0.spans.last().1;
            &&& s.bold
            &&& !s.italic
            &&& s.fg == Some(
                if level == 1 {
                    TermColor::Cyan
                } else if level == 2 {
                    TermColor::Green
                } else if level == 3 {
                    TermColor::Yellow
                } else {
                    TermColor::White
                },
            )
        }),
{
}

} // verus!
