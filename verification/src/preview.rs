//! The preview of a note: the blocks it is made of, their heights, and where
//! each is drawn in the preview pane for a given scroll.

use vstd::prelude::*;
use crate::markdown::{
    empty_line, fallback_lines, fallback_text, markdown_lines, markdown_to_text_checked, plain,
    text_lines,
    StyledLine, StyledSpan, StyledText, TextStyle,
};
use crate::note::{Note, NoteBlock};
use crate::text::{chars_of, join, lemma_join_push, push_all, string_of};
use crate::viewer::{
    formula_height, formula_rows, image_height, image_rows, inline_image_width, inline_width,
    Rect,
};

verus! {

/// A block of the preview: styled text, or the image or formula of the
/// note's block of that index.
pub enum PreviewPart {
    Text(StyledText),
    Image { block: usize },
    Formula { block: usize },
}

/// A block of the preview as values.
pub enum PartView {
    Text(Seq<Seq<(Seq<char>, TextStyle)>>),
    Image(usize),
    Formula(usize),
}

impl View for PreviewPart {
    type V = PartView;

    open spec fn view(&self) -> PartView {
        match self {
            PreviewPart::Text(t) => PartView::Text(t@),
            PreviewPart::Image { block } => PartView::Image(*block),
            PreviewPart::Formula { block } => PartView::Formula(*block),
        }
    }
}

pub open spec fn bold() -> TextStyle {
    TextStyle { fg: None, bold: true, italic: false }
}

/// The tags as shown: `#tag` for each, separated by spaces, or `-` when
/// there is none.
pub open spec fn tags_label(tags: Seq<Seq<char>>) -> Seq<char> {
    if tags.len() == 0 {
        seq!['-']
    } else {
        join(tags.map_values(|t: Seq<char>| seq!['#'] + t), seq![' '])
    }
}

/// The first lines of a preview: the title in bold, the tags (a plain span
/// for each text line of the label), a blank line.
pub open spec fn heading_lines(title: Seq<char>, tags: Seq<Seq<char>>) -> Seq<
    Seq<(Seq<char>, TextStyle)>,
> {
    seq![
        seq![(title, bold())],
        text_lines("Tags: "@ + tags_label(tags)).map_values(|l: Seq<char>| (l, plain())),
        seq![],
    ]
}

/// The text shown for an image whose file was not found.
pub open spec fn missing_image_text(alt: Seq<char>, href: Seq<char>) -> Seq<char> {
    "[image not found: "@ + alt + " -> "@ + href + "]"@
}

/// A blank line.
pub open spec fn blank() -> PartView {
    PartView::Text(fallback_lines(seq![]))
}

/// The preview of the block of index `index`; `None` where a markdown block
/// cannot be rendered.
pub open spec fn block_part(b: NoteBlock, index: int) -> Option<PartView> {
    match b {
        NoteBlock::Markdown(md) => match markdown_lines(md@) {
            None => None,
            Some(lines) => Some(PartView::Text(lines)),
        },
        NoteBlock::Image { href, alt, resolved } => Some(
            if resolved is Some {
                PartView::Image(index as usize)
            } else {
                PartView::Text(fallback_lines(missing_image_text(alt@, href@)))
            },
        ),
        NoteBlock::Formula(_) => Some(PartView::Formula(index as usize)),
    }
}

/// The preview of the first `n` blocks: each block, then a blank line;
/// `None` where a markdown block cannot be rendered.
pub open spec fn block_parts(blocks: Seq<NoteBlock>, n: int) -> Option<Seq<PartView>>
    decreases n,
{
    if n <= 0 {
        Some(seq![])
    } else {
        match block_parts(blocks, n - 1) {
            None => None,
            Some(p) => match block_part(blocks[n - 1], n - 1) {
                None => None,
                Some(part) => Some(p + seq![part, blank()]),
            },
        }
    }
}

/// The preview of a note: its heading, then its blocks.
pub open spec fn preview_parts_of(note: Note) -> Option<Seq<PartView>> {
    match block_parts(note.blocks@, note.blocks@.len() as int) {
        None => None,
        Some(p) => Some(seq![PartView::Text(heading_lines(note.title@, note.tags.deep_view()))] + p),
    }
}

pub open spec fn parts_view(v: Seq<PreviewPart>) -> Seq<PartView> {
    v.map_values(|p: PreviewPart| p@)
}

/// The tags as shown.
fn tags_label_chars(tags: &Vec<String>) -> (r: Vec<char>)
    ensures
        r@ == tags_label(tags.deep_view()),
{
    let mut r: Vec<char> = Vec::new();
    if tags.len() == 0 {
        r.push('-');
        assert(r@ =~= seq!['-']);
        return r;
    }
    let ghost ts = tags.deep_view();
    let ghost pieces = ts.map_values(|t: Seq<char>| seq!['#'] + t);
    let mut i: usize = 0;
    while i < tags.len()
        invariant
            i <= tags.len(),
            ts == tags.deep_view(),
            pieces == ts.map_values(|t: Seq<char>| seq!['#'] + t),
            r@ == join(pieces.take(i as int), seq![' ']),
        decreases tags.len() - i,
    {
        let ghost before = r@;
        proof {
            lemma_join_push(pieces.take(i as int), pieces[i as int], seq![' ']);
            assert(pieces.take(i + 1) =~= pieces.take(i as int).push(pieces[i as int]));
            assert(ts[i as int] == tags@[i as int]@);
        }
        if i > 0 {
            r.push(' ');
        }
        r.push('#');
        let t = chars_of(tags[i].as_str());
        push_all(&mut r, &t);
        proof {
            if i > 0 {
                assert(r@ =~= before + seq![' '] + pieces[i as int]);
            } else {
                assert(r@ =~= pieces[i as int]);
            }
        }
        i = i + 1;
    }
    assert(pieces.take(tags.len() as int) =~= pieces);
    r
}

/// The tags as shown: `#tag` for each, separated by spaces, or `-`.
pub fn tags_label_text(tags: &Vec<String>) -> (r: String)
    ensures
        r@ == tags_label(tags.deep_view()),
{
    string_of(&tags_label_chars(tags))
}

/// The heading of a preview.
fn heading_text(note: &Note) -> (r: StyledText)
    ensures
        r@ == heading_lines(note.title@, note.tags.deep_view()),
{
    let title = StyledLine {
        spans: vec![StyledSpan { content: note.title.clone(), style: TextStyle { fg: None, bold: true, italic: false } }],
    };
    let mut label: Vec<char> = chars_of("Tags: ");
    proof {
        reveal_strlit("Tags: ");
    }
    let ghost prefix = label@;
    let tags = tags_label_chars(&note.tags);
    push_all(&mut label, &tags);
    assert(label@ =~= "Tags: "@ + tags_label(note.tags.deep_view()));
    let label_string = string_of(&label);
    let label_text = fallback_text(label_string.as_str());
    let ghost tl = text_lines(label@);
    assert(label@.len() > 0);
    assert(label_text@ == tl.map_values(
        |l: Seq<char>|
            if l.len() == 0 {
                Seq::<(Seq<char>, TextStyle)>::empty()
            } else {
                seq![(l, plain())]
            },
    ));
    let mut spans: Vec<StyledSpan> = Vec::new();
    let mut i: usize = 0;
    while i < label_text.lines.len()
        invariant
            i <= label_text.lines.len(),
            label_text.lines@.len() == tl.len(),
            label_text@ == tl.map_values(
                |l: Seq<char>|
                    if l.len() == 0 {
                        Seq::<(Seq<char>, TextStyle)>::empty()
                    } else {
                        seq![(l, plain())]
                    },
            ),
            spans.len() == i,
            forall|q: int| 0 <= q < i ==> (#[trigger] spans@[q])@ == (tl[q], plain()),
        decreases label_text.lines.len() - i,
    {
        let line = &label_text.lines[i];
        assert(label_text@[i as int] == line@);
        assert(line@.len() == line.spans@.len());
        if line.spans.len() == 0 {
            assert(tl[i as int] =~= Seq::<char>::empty());
            spans.push(StyledSpan { content: String::new(), style: TextStyle { fg: None, bold: false, italic: false } });
        } else {
            let span = &line.spans[0];
            assert(line@[0] == span@);
            spans.push(StyledSpan { content: span.content.clone(), style: span.style });
        }
        i = i + 1;
    }
    let second = StyledLine { spans };
    assert(second@ =~= tl.map_values(|l: Seq<char>| (l, plain())));
    let third = empty_line();
    let r = StyledText { lines: vec![title, second, third] };
    assert(r.lines@[0]@ == seq![(note.title@, bold())]);
    assert(r.lines@[1]@ == text_lines("Tags: "@ + tags_label(note.tags.deep_view())).map_values(
        |l: Seq<char>| (l, plain()),
    ));
    assert(r.lines@[2]@ == Seq::<(Seq<char>, TextStyle)>::empty());
    assert(r@ =~= heading_lines(note.title@, note.tags.deep_view()));
    r
}


/// The text shown for an image whose file was not found.
fn missing_image_message(alt: &String, href: &String) -> (r: String)
    ensures
        r@ == missing_image_text(alt@, href@),
{
    let mut v: Vec<char> = chars_of("[image not found: ");
    let a = chars_of(alt.as_str());
    push_all(&mut v, &a);
    let arrow = chars_of(" -> ");
    push_all(&mut v, &arrow);
    let h = chars_of(href.as_str());
    push_all(&mut v, &h);
    let close = chars_of("]");
    push_all(&mut v, &close);
    assert(v@ =~= missing_image_text(alt@, href@));
    string_of(&v)
}

/// The preview of one block; `None` where a markdown block cannot be
/// rendered.
fn block_preview(b: &NoteBlock, index: usize) -> (r: Option<PreviewPart>)
    ensures
        match r {
            Some(part) => block_part(*b, index as int) == Some(part@),
            None => block_part(*b, index as int) is None,
        },
{
    match b {
        NoteBlock::Markdown(md) => match markdown_to_text_checked(md.as_str()) {
            Some(t) => Some(PreviewPart::Text(t)),
            None => None,
        },
        NoteBlock::Image { href, alt, resolved } => if resolved.is_some() {
            Some(PreviewPart::Image { block: index })
        } else {
            Some(PreviewPart::Text(fallback_text(missing_image_message(alt, href).as_str())))
        },
        NoteBlock::Formula(_) => Some(PreviewPart::Formula { block: index }),
    }
}

/// The preview of a note: its heading, then each block followed by a blank
/// line: the rendered markdown, the image (or a note that its file was not
/// found), the formula. `None` where a markdown block cannot be rendered.
pub fn preview_parts(note: &Note) -> (r: Option<Vec<PreviewPart>>)
    ensures
        match r {
            Some(v) => preview_parts_of(*note) == Some(parts_view(v@)),
            None => preview_parts_of(*note) is None,
        },
{
    let mut parts: Vec<PreviewPart> = Vec::new();
    parts.push(PreviewPart::Text(heading_text(note)));
    let ghost head = seq![PartView::Text(heading_lines(note.title@, note.tags.deep_view()))];
    assert(parts_view(parts@) =~= head);
    let blocks = &note.blocks;
    let mut i: usize = 0;
    while i < blocks.len()
        invariant
            i <= blocks.len(),
            blocks@ == note.blocks@,
            head == seq![PartView::Text(heading_lines(note.title@, note.tags.deep_view()))],
            block_parts(blocks@, i as int) matches Some(p) && parts_view(parts@) == head + p,
        decreases blocks.len() - i,
    {
        let first = match block_preview(&blocks[i], i) {
            Some(part) => part,
            None => {
                proof {
                    assert(block_parts(blocks@, i + 1) is None);
                    lemma_block_parts_none(blocks@, i + 1, blocks@.len() as int);
                }
                return None;
            },
        };
        let ghost before = parts_view(parts@);
        let blank_text = fallback_text("");
        proof {
            reveal_strlit("");
            assert(""@ =~= Seq::<char>::empty());
        }
        parts.push(first);
        parts.push(PreviewPart::Text(blank_text));
        i = i + 1;
        assert(parts_view(parts@) =~= before + seq![first@, blank()]);
        assert(parts_view(parts@) =~= head + block_parts(blocks@, i as int)->Some_0);
    }
    Some(parts)
}

proof fn lemma_block_parts_none(blocks: Seq<NoteBlock>, m: int, n: int)
    requires
        0 <= m <= n,
        block_parts(blocks, m) is None,
    ensures
        block_parts(blocks, n) is None,
    decreases n - m,
{
    if m < n {
        lemma_block_parts_none(blocks, m, n - 1);
    }
}


/// What the layout needs to know of a block: lines of text, or the size in
/// pixels of an image or a formula, if known.
#[derive(Debug, Clone, Copy)]
pub enum BlockShape {
    Text { lines: usize },
    Image { pixel_size: Option<(u32, u32)> },
    Formula { pixel_size: Option<(u32, u32)> },
}

/// Rows that a block takes in a pane `width` cells wide: text takes a row per
/// line, at least one (the count taken modulo `2^16`).
pub open spec fn shape_height(shape: BlockShape, width: u16, font_size: (u16, u16)) -> u16 {
    match shape {
        BlockShape::Text { lines } => (if lines >= 1 {
            lines as int
        } else {
            1
        }) as u16,
        BlockShape::Image { pixel_size } => image_rows(pixel_size, width, font_size),
        BlockShape::Formula { pixel_size } => formula_rows(pixel_size, width, font_size),
    }
}

/// Rows that a block takes in a pane `width` cells wide.
pub fn block_height(shape: BlockShape, width: u16, font_size: (u16, u16)) -> (r: u16)
    ensures
        r == shape_height(shape, width, font_size),
{
    match shape {
        BlockShape::Text { lines } => if lines >= 1 {
            lines as u16
        } else {
            1
        },
        BlockShape::Image { pixel_size } => image_height(pixel_size, width, font_size),
        BlockShape::Formula { pixel_size } => formula_height(pixel_size, width, font_size),
    }
}

/// The sum of the heights of the first `n` blocks.
pub open spec fn heights_sum(shapes: Seq<BlockShape>, n: int, width: u16, font_size: (u16, u16)) -> int
    decreases n,
{
    if n <= 0 {
        0
    } else {
        heights_sum(shapes, n - 1, width, font_size) + shape_height(shapes[n - 1], width, font_size)
    }
}

/// The rows that all blocks take together, or `None` when that is more than
/// `u16::MAX`.
pub fn total_height(shapes: &[BlockShape], width: u16, font_size: (u16, u16)) -> (r: Option<u16>)
    ensures
        match r {
            Some(h) => h == heights_sum(shapes@, shapes@.len() as int, width, font_size),
            None => heights_sum(shapes@, shapes@.len() as int, width, font_size) > u16::MAX,
        },
{
    let mut total: u16 = 0;
    let mut i: usize = 0;
    while i < shapes.len()
        invariant
            i <= shapes.len(),
            total == heights_sum(shapes@, i as int, width, font_size),
        decreases shapes.len() - i,
    {
        let h = block_height(shapes[i], width, font_size);
        if h > u16::MAX - total {
            proof {
                lemma_heights_sum_grows(shapes@, i + 1, shapes@.len() as int, width, font_size);
            }
            return None;
        }
        total = total + h;
        i = i + 1;
    }
    Some(total)
}

proof fn lemma_heights_sum_grows(
    shapes: Seq<BlockShape>,
    m: int,
    n: int,
    width: u16,
    font_size: (u16, u16),
)
    requires
        0 <= m <= n,
    ensures
        heights_sum(shapes, m, width, font_size) <= heights_sum(shapes, n, width, font_size),
    decreases n - m,
{
    if m < n {
        lemma_heights_sum_grows(shapes, m, n - 1, width, font_size);
    }
}

/// Where a block is drawn: its index, the cells it covers, and for text the
/// rows of it scrolled past.
#[derive(Debug, Clone, Copy, PartialEq, Eq, Structural)]
pub struct Placement {
    pub block: usize,
    pub area: Rect,
    pub scroll: u16,
}

/// The layout of the preview while it runs through the blocks: rows still to
/// scroll past, the next free row, whether the pane is full, and what has
/// been placed.
pub struct LayoutState {
    pub skip: u16,
    pub y: u16,
    pub done: bool,
    pub placed: Seq<Placement>,
}

pub open spec fn min_u16(a: u16, b: u16) -> u16 {
    if a <= b {
        a
    } else {
        b
    }
}

/// The width in cells of an image or formula block in the pane.
pub open spec fn shape_width(shape: BlockShape, width: u16) -> u16 {
    match shape {
        BlockShape::Image { .. } => min_u16(inline_width(width), width),
        _ => width,
    }
}

/// The layout after one more block, of index `index`. Text scrolled partly
/// out shows its remaining rows; an image or formula is drawn whole at the
/// top of the pane or where it fits, centered, and ends the layout where it
/// does not fit below other blocks.
pub open spec fn layout_step(
    st: LayoutState,
    shape: BlockShape,
    index: int,
    area: Rect,
    font_size: (u16, u16),
) -> LayoutState {
    let h = shape_height(shape, area.width, font_size);
    let bottom = area.y.saturating_add(area.height);
    if st.done {
        st
    } else if st.skip >= h {
        LayoutState { skip: (st.skip - h) as u16, ..st }
    } else {
        match shape {
            BlockShape::Text { .. } => {
                let visible = min_u16((h - st.skip) as u16, bottom.saturating_sub(st.y));
                if visible == 0 {
                    LayoutState { done: true, ..st }
                } else {
                    let next_y = st.y.saturating_add(visible);
                    LayoutState {
                        skip: 0,
                        y: next_y,
                        done: next_y >= bottom,
                        placed: st.placed.push(
                            Placement {
                                block: index as usize,
                                area: Rect { x: area.x, y: st.y, width: area.width, height: visible },
                                scroll: st.skip,
                            },
                        ),
                    }
                }
            },
            _ => {
                let available = bottom.saturating_sub(st.y);
                let w = shape_width(shape, area.width);
                let ih = min_u16(h, available);
                if h == 0 {
                    st
                } else if available == 0 || (st.y != area.y && h > available) || w == 0 || ih == 0 {
                    LayoutState { done: true, ..st }
                } else {
                    let next_y = st.y.saturating_add(ih);
                    LayoutState {
                        skip: 0,
                        y: next_y,
                        done: next_y >= bottom,
                        placed: st.placed.push(
                            Placement {
                                block: index as usize,
                                area: Rect {
                                    x: (area.x + (area.width - w) / 2) as u16,
                                    y: st.y,
                                    width: w,
                                    height: ih,
                                },
                                scroll: 0,
                            },
                        ),
                    }
                }
            },
        }
    }
}

/// The layout after the first `n` blocks.
pub open spec fn layout_run(
    shapes: Seq<BlockShape>,
    n: int,
    scroll: u16,
    area: Rect,
    font_size: (u16, u16),
) -> LayoutState
    decreases n,
{
    if n <= 0 {
        LayoutState { skip: scroll, y: area.y, done: false, placed: seq![] }
    } else {
        layout_step(
            layout_run(shapes, n - 1, scroll, area, font_size),
            shapes[n - 1],
            n - 1,
            area,
            font_size,
        )
    }
}

/// Where the blocks are drawn in the pane `area` when the preview is scrolled
/// `scroll` rows down.
pub open spec fn preview_layout(
    shapes: Seq<BlockShape>,
    scroll: u16,
    area: Rect,
    font_size: (u16, u16),
) -> Seq<Placement> {
    if area.width == 0 || area.height == 0 {
        seq![]
    } else {
        layout_run(shapes, shapes.len() as int, scroll, area, font_size).placed
    }
}

/// Where the blocks are drawn in the pane `area` when the preview is scrolled
/// `scroll` rows down; cells are `font_size` pixels.
pub fn layout_preview(
    shapes: &[BlockShape],
    scroll: u16,
    area: Rect,
    font_size: (u16, u16),
) -> (r: Vec<Placement>)
    requires
        area.x + area.width <= u16::MAX,
    ensures
        r@ == preview_layout(shapes@, scroll, area, font_size),
{
    let mut placed: Vec<Placement> = Vec::new();
    if area.width == 0 || area.height == 0 {
        return placed;
    }
    let mut skip = scroll;
    let mut y = area.y;
    let bottom = area.y.saturating_add(area.height);
    let mut done = false;
    let mut i: usize = 0;
    while i < shapes.len()
        invariant
            i <= shapes.len(),
            area.x + area.width <= u16::MAX,
            bottom == area.y.saturating_add(area.height),
            layout_run(shapes@, i as int, scroll, area, font_size) == (LayoutState {
                skip,
                y,
                done,
                placed: placed@,
            }),
        decreases shapes.len() - i,
    {
        if !done {
            let shape = shapes[i];
            let h = block_height(shape, area.width, font_size);
            if skip >= h {
                skip = skip - h;
            } else {
                match shape {
                    BlockShape::Text { .. } => {
                        let rest = h - skip;
                        let room = bottom.saturating_sub(y);
                        let visible = if rest <= room {
                            rest
                        } else {
                            room
                        };
                        if visible == 0 {
                            done = true;
                        } else {
                            placed.push(
                                Placement {
                                    block: i,
                                    area: Rect::new(area.x, y, area.width, visible),
                                    scroll: skip,
                                },
                            );
                            y = y.saturating_add(visible);
                            skip = 0;
                            done = y >= bottom;
                        }
                    },
                    _ => {
                        let available = bottom.saturating_sub(y);
                        let w = match shape {
                            BlockShape::Image { .. } => {
                                let half = inline_image_width(area.width);
                                if half <= area.width {
                                    half
                                } else {
                                    area.width
                                }
                            },
                            _ => area.width,
                        };
                        let ih = if h <= available {
                            h
                        } else {
                            available
                        };
                        if h == 0 {
                        } else if available == 0 || (y != area.y && h > available) || w == 0 || ih
                            == 0 {
                            done = true;
                        } else {
                            placed.push(
                                Placement {
                                    block: i,
                                    area: Rect::new(area.x + (area.width - w) / 2, y, w, ih),
                                    scroll: 0,
                                },
                            );
                            y = y.saturating_add(ih);
                            skip = 0;
                            done = y >= bottom;
                        }
                    },
                }
            }
        }
        i = i + 1;
    }
    placed
}


/// A placement lies in the pane, covers at least one cell, and belongs to one
/// of the first `n` blocks.
pub open spec fn placed_within(p: Placement, area: Rect, n: int) -> bool {
    &&& area.x <= p.area.x
    &&& p.area.x + p.area.width <= area.x + area.width
    &&& area.y <= p.area.y
    &&& p.area.y + p.area.height <= area.y.saturating_add(area.height)
    &&& p.area.width > 0
    &&& p.area.height > 0
    &&& p.block < n
}

/// Each placement lies above the next, and belongs to an earlier block.
pub open spec fn placed_in_order(ps: Seq<Placement>) -> bool {
    forall|i: int, j: int|
        #![trigger ps[i], ps[j]]
        0 <= i < j < ps.len() ==> ps[i].area.y + ps[i].area.height <= ps[j].area.y && ps[i].block
            < ps[j].block
}

spec fn layout_inv(st: LayoutState, area: Rect, n: int) -> bool {
    &&& area.y <= st.y <= area.y.saturating_add(area.height)
    &&& forall|i: int| 0 <= i < st.placed.len() ==> placed_within(#[trigger] st.placed[i], area, n)
    &&& forall|i: int|
        0 <= i < st.placed.len() ==> (#[trigger] st.placed[i]).area.y + st.placed[i].area.height
            <= st.y
    &&& placed_in_order(st.placed)
}

proof fn lemma_layout_run_inv(
    shapes: Seq<BlockShape>,
    n: int,
    scroll: u16,
    area: Rect,
    font_size: (u16, u16),
)
    requires
        0 <= n <= shapes.len() <= usize::MAX,
        area.x + area.width <= u16::MAX,
        area.width > 0,
        area.height > 0,
    ensures
        layout_inv(layout_run(shapes, n, scroll, area, font_size), area, n),
    decreases n,
{
    if n > 0 {
        lemma_layout_run_inv(shapes, n - 1, scroll, area, font_size);
        let st = layout_run(shapes, n - 1, scroll, area, font_size);
        let next = layout_run(shapes, n, scroll, area, font_size);
        let bottom = area.y.saturating_add(area.height);
        assert(area.y + area.height <= u16::MAX ==> bottom == area.y + area.height);
        assert(area.y + area.height > u16::MAX ==> bottom == u16::MAX);
        if next.placed.len() > st.placed.len() {
            let q = next.placed.last();
            assert(next.placed == st.placed.push(q));
            assert(q.area.y == st.y);
            assert(q.block == n - 1);
            assert(placed_within(q, area, n));
            assert(q.area.y + q.area.height == next.y);
        } else {
            assert(next.placed == st.placed);
        }
        assert forall|i: int| 0 <= i < next.placed.len() implies placed_within(
            #[trigger] next.placed[i],
            area,
            n,
        ) by {
            if i < st.placed.len() {
                assert(next.placed[i] == st.placed[i]);
            }
        }
        assert forall|i: int| 0 <= i < next.placed.len() implies (#[trigger] next.placed[i]).area.y
            + next.placed[i].area.height <= next.y by {
            if i < st.placed.len() {
                assert(next.placed[i] == st.placed[i]);
            }
        }
        assert forall|i: int, j: int| 0 <= i < j < next.placed.len() implies #[trigger] next.placed[i].area.y
            + next.placed[i].area.height <= #[trigger] next.placed[j].area.y
            && next.placed[i].block < next.placed[j].block by {
            assert(next.placed[i] == st.placed[i]);
            if j < st.placed.len() {
                assert(next.placed[j] == st.placed[j]);
            }
        }
    }
}

/// Every block drawn in the preview lies inside the pane and covers at least
/// one cell; the blocks are drawn top to bottom in their order, none over
/// another.
pub proof fn lemma_preview_layout_fits(
    shapes: Seq<BlockShape>,
    scroll: u16,
    area: Rect,
    font_size: (u16, u16),
)
    requires
        shapes.len() <= usize::MAX,
        area.x + area.width <= u16::MAX,
    ensures
        forall|i: int|
            0 <= i < preview_layout(shapes, scroll, area, font_size).len() ==> placed_within(
                #[trigger] preview_layout(shapes, scroll, area, font_size)[i],
                area,
                shapes.len() as int,
            ),
        placed_in_order(preview_layout(shapes, scroll, area, font_size)),
{
    if area.width != 0 && area.height != 0 {
        lemma_layout_run_inv(shapes, shapes.len() as int, scroll, area, font_size);
    }
}


proof fn lemma_block_parts_len(blocks: Seq<NoteBlock>, n: int)
    requires
        0 <= n,
    ensures
        block_parts(blocks, n) matches Some(p) ==> p.len() == 2 * n && forall|j: int|
            0 <= j < p.len() && j % 2 == 1 ==> #[trigger] p[j] == blank(),
    decreases n,
{
    if n > 0 {
        lemma_block_parts_len(blocks, n - 1);
        if let Some(p) = block_parts(blocks, n) {
            let q = block_parts(blocks, n - 1)->Some_0;
            assert forall|j: int| 0 <= j < p.len() && j % 2 == 1 implies #[trigger] p[j] == blank() by {
                if j < q.len() {
                    assert(p[j] == q[j]);
                }
            }
        }
    }
}

/// A preview shows its heading, then every block of the note, each followed
/// by a blank line.
pub proof fn lemma_preview_shows_every_block(note: Note)
    ensures
        preview_parts_of(note) matches Some(p) ==> {
            &&& p.len() == 1 + 2 * note.blocks@.len()
            &&& p[0] == PartView::Text(heading_lines(note.title@, note.tags.deep_view()))
            &&& forall|j: int| 0 < j < p.len() && j % 2 == 0 ==> #[trigger] p[j] == blank()
        },
{
    lemma_block_parts_len(note.blocks@, note.blocks@.len() as int);
    if let Some(p) = preview_parts_of(note) {
        let q = block_parts(note.blocks@, note.blocks@.len() as int)->Some_0;
        assert forall|j: int| 0 < j < p.len() && j % 2 == 0 implies #[trigger] p[j] == blank() by {
            assert(p[j] == q[j - 1]);
        }
    }
}

} // verus!
