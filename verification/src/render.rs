//! The list renderer: a pure function from the visible rows, the selection
//! and the scroll offset to a grid of styled cells. Descriptions are
//! hard-wrapped into runs of the text column's width; a row's first line
//! carries its number and checkbox, continuation lines a blank indent; the
//! selected row and done rows carry style bits that span the full width.

use vstd::prelude::*;
use crate::item::{BacklogItem, ItemModel};

verus! {

/// One grid cell: a character, whether it lies on the selected row, and
/// whether that row's item is done. A cell that no row painted carries a
/// space with both bits off (the terminal's default style).
#[derive(PartialEq, Eq, Structural, Clone, Copy, Debug)]
pub struct Cell {
    pub ch: char,
    pub selected: bool,
    pub done: bool,
}

/// A sequence of rows of executable cells, read as mathematical rows.
pub open spec fn rows_view<T>(s: Seq<Vec<T>>) -> Seq<Seq<T>> {
    s.map_values(|v: Vec<T>| v@)
}

/// Hard character wrapping: runs of exactly `text_width` code points, the
/// last run possibly shorter. A description that fits (or an unusable
/// width) yields the description itself as a single line.
pub open spec fn wrap_spec(desc: Seq<char>, text_width: int) -> Seq<Seq<char>>
    decreases desc.len(),
{
    if text_width <= 0 || desc.len() <= text_width {
        seq![desc]
    } else {
        seq![desc.take(text_width)] + wrap_spec(desc.skip(text_width), text_width)
    }
}

/// Law: concatenating all wrapped chunks, in order, reconstructs the
/// original description exactly, for any `text_width >= 1`.
pub proof fn lemma_wrap_concat(desc: Seq<char>, text_width: int)
    requires
        text_width >= 1,
    ensures
        wrap_spec(desc, text_width).flatten() == desc,
    decreases desc.len(),
{
    if desc.len() <= text_width {
        assert(wrap_spec(desc, text_width) =~= seq![desc]);
        assert(seq![desc].flatten() =~= desc) by {
            assert(seq![desc].drop_first() =~= Seq::<Seq<char>>::empty());
            assert(Seq::<Seq<char>>::empty().flatten() =~= Seq::<char>::empty());
        }
    } else {
        let head = desc.take(text_width);
        let rest = wrap_spec(desc.skip(text_width), text_width);
        lemma_wrap_concat(desc.skip(text_width), text_width);
        let whole = seq![head] + rest;
        assert(whole.first() == head);
        assert(whole.drop_first() =~= rest);
        assert(whole.flatten() == head + rest.flatten());
        assert(head + desc.skip(text_width) =~= desc);
    }
}

/// Every wrapped chunk fits the text column.
pub proof fn lemma_wrap_chunk_bounds(desc: Seq<char>, text_width: int)
    requires
        text_width >= 1,
    ensures
        forall|l: int|
            0 <= l < wrap_spec(desc, text_width).len()
                ==> #[trigger] wrap_spec(desc, text_width)[l].len() <= text_width,
    decreases desc.len(),
{
    let whole = wrap_spec(desc, text_width);
    if desc.len() <= text_width {
        assert(whole == seq![desc]);
        assert(whole[0] == desc);
    } else {
        lemma_wrap_chunk_bounds(desc.skip(text_width), text_width);
        let rest = wrap_spec(desc.skip(text_width), text_width);
        assert forall|l: int| 0 <= l < whole.len() implies #[trigger] whole[l].len() <= text_width by {
            if l == 0 {
                assert(whole[0] == desc.take(text_width));
            } else {
                assert(whole[l] == rest[l - 1]);
            }
        }
    }
}

/// The decimal digit characters of a nonnegative number.
pub open spec fn digit_char(d: int) -> char {
    if d == 0 {
        '0'
    } else if d == 1 {
        '1'
    } else if d == 2 {
        '2'
    } else if d == 3 {
        '3'
    } else if d == 4 {
        '4'
    } else if d == 5 {
        '5'
    } else if d == 6 {
        '6'
    } else if d == 7 {
        '7'
    } else if d == 8 {
        '8'
    } else {
        '9'
    }
}

/// A number written out in decimal, most significant digit first.
pub open spec fn dec_digits(n: int) -> Seq<char>
    decreases n,
{
    if n < 10 {
        seq![digit_char(n)]
    } else {
        dec_digits(n / 10).push(digit_char(n % 10))
    }
}

/// The row prefix: the display number, a dot, the checkbox glyph, spaces.
pub open spec fn prefix_chars(num: int, done: bool) -> Seq<char> {
    dec_digits(num) + seq!['.', ' ', '[', if done { 'x' } else { ' ' }, ']', ' ']
}

/// One terminal line of a row, `width` cells wide. The first eight columns
/// hold the prefix on a row's first line and a styled indent on
/// continuation lines; the text column starts at column eight; the
/// remainder is filled with the row's style so the highlight spans the full
/// width. A prefix column the prefix does not reach stays unpainted.
pub open spec fn cell_at(
    prefix: Seq<char>,
    chunk: Seq<char>,
    first: bool,
    sel: bool,
    done: bool,
    j: int,
) -> Cell {
    if j < 8 {
        if first {
            if j < prefix.len() {
                Cell { ch: prefix[j], selected: sel, done }
            } else {
                Cell { ch: ' ', selected: false, done: false }
            }
        } else {
            Cell { ch: ' ', selected: sel, done }
        }
    } else if j - 8 < chunk.len() {
        Cell { ch: chunk[j - 8], selected: sel, done }
    } else {
        Cell { ch: ' ', selected: sel, done }
    }
}

/// One full terminal line: the cell at every column of the row.
pub open spec fn line_cells(
    prefix: Seq<char>,
    chunk: Seq<char>,
    first: bool,
    sel: bool,
    done: bool,
    width: int,
) -> Seq<Cell> {
    Seq::new(width as nat, |j: int| cell_at(prefix, chunk, first, sel, done, j))
}

/// All terminal lines of one row: its wrapped chunks painted in order.
pub open spec fn row_lines(it: ItemModel, display_num: int, sel: bool, width: int) -> Seq<
    Seq<Cell>,
> {
    let prefix = prefix_chars(display_num, it.done);
    let chunks = wrap_spec(it.description, width - 8);
    Seq::new(chunks.len(), |l: int| line_cells(prefix, chunks[l], l == 0, sel, it.done, width))
}

/// The lines of all rows from `idx` on, in order. Each row is numbered
/// sequentially from its visible position when `renumber` is on, and from
/// its actual store index otherwise.
pub open spec fn lines_from(
    items: Seq<(int, ItemModel)>,
    idx: int,
    selected: int,
    renumber: bool,
    width: int,
) -> Seq<Seq<Cell>>
    decreases items.len() - idx,
{
    if idx < 0 || idx >= items.len() {
        Seq::empty()
    } else {
        let num = if renumber {
            idx + 1
        } else {
            items[idx].0 + 1
        };
        row_lines(items[idx].1, num, idx == selected, width) + lines_from(
            items,
            idx + 1,
            selected,
            renumber,
            width,
        )
    }
}

/// The whole rendered grid: nothing on a viewport under ten columns or
/// under one row; otherwise the lines of the rows from the scroll offset
/// on, cut off at the viewport height.
pub open spec fn render_spec(
    items: Seq<(int, ItemModel)>,
    selected: int,
    scroll_offset: int,
    renumber: bool,
    width: int,
    height: int,
) -> Seq<Seq<Cell>> {
    if width < 10 || height < 1 {
        Seq::empty()
    } else {
        let all = lines_from(items, scroll_offset, selected, renumber, width);
        if all.len() <= height {
            all
        } else {
            all.take(height)
        }
    }
}

/// The visible rows paired with their actual indices, read as mathematical
/// pairs.
pub open spec fn pairs_view(items: Seq<(usize, BacklogItem)>) -> Seq<(int, ItemModel)> {
    items.map_values(|p: (usize, BacklogItem)| (p.0 as int, p.1@))
}

/// Copies `v[from..to]`.
fn copy_range(v: &Vec<char>, from: usize, to: usize) -> (r: Vec<char>)
    requires
        from <= to <= v@.len(),
    ensures
        r@ == v@.subrange(from as int, to as int),
{
    let mut r: Vec<char> = Vec::new();
    let mut i: usize = from;
    while i < to
        invariant
            from <= i <= to <= v@.len(),
            r@ == v@.subrange(from as int, i as int),
        decreases to - i,
    {
        r.push(v[i]);
        proof {
            assert(v@.subrange(from as int, i + 1 as int) =~= v@.subrange(from as int, i as int)
                .push(v@[i as int]));
        }
        i = i + 1;
    }
    r
}

/// Wraps a description into chunks of `text_width` code points each, the
/// last chunk possibly shorter; an empty description or a zero width yields
/// the description as a single line.
#[verifier::loop_isolation(false)]
pub fn wrap_description(desc: &Vec<char>, text_width: usize) -> (lines: Vec<Vec<char>>)
    ensures
        rows_view(lines@) == wrap_spec(desc@, text_width as int),
{
    let mut lines: Vec<Vec<char>> = Vec::new();
    if text_width == 0 || desc.len() <= text_width {
        let whole = copy_range(desc, 0, desc.len());
        proof {
            assert(whole@ =~= desc@);
        }
        lines.push(whole);
        proof {
            assert(rows_view(lines@) =~= wrap_spec(desc@, text_width as int));
        }
        lines
    } else {
        let mut i: usize = 0;
        proof {
            assert(desc@.skip(0) =~= desc@);
            assert(rows_view(lines@) =~= Seq::<Seq<char>>::empty());
        }
        while desc.len() - i > text_width
            invariant
                i <= desc.len(),
                wrap_spec(desc@, text_width as int) =~= rows_view(lines@) + wrap_spec(
                    desc@.skip(i as int),
                    text_width as int,
                ),
            decreases desc.len() - i,
        {
            let chunk = copy_range(desc, i, i + text_width);
            lines.push(chunk);
            proof {
                let tw = text_width as int;
                let rest = desc@.skip(i as int);
                assert(rest.take(tw) =~= desc@.subrange(i as int, i as int + tw));
                assert(rest.skip(tw) =~= desc@.skip(i as int + tw));
                assert(wrap_spec(rest, tw) == seq![rest.take(tw)] + wrap_spec(rest.skip(tw), tw));
                assert(rows_view(lines@) =~= rows_view(lines@.drop_last()).push(
                    desc@.subrange(i as int, i as int + tw),
                ));
                assert(wrap_spec(desc@, tw) =~= rows_view(lines@) + wrap_spec(
                    desc@.skip(i as int + tw),
                    tw,
                ));
            }
            i = i + text_width;
        }
        let tail = copy_range(desc, i, desc.len());
        proof {
            assert(tail@ =~= desc@.skip(i as int));
            assert(wrap_spec(desc@.skip(i as int), text_width as int) =~= seq![desc@.skip(i as int)]);
        }
        lines.push(tail);
        proof {
            assert(rows_view(lines@) =~= rows_view(lines@.drop_last()).push(desc@.skip(i as int)));
            assert(rows_view(lines@) =~= wrap_spec(desc@, text_width as int));
        }
        lines
    }
}

fn digit_exec(d: usize) -> (c: char)
    requires
        d < 10,
    ensures
        c == digit_char(d as int),
{
    if d == 0 {
        '0'
    } else if d == 1 {
        '1'
    } else if d == 2 {
        '2'
    } else if d == 3 {
        '3'
    } else if d == 4 {
        '4'
    } else if d == 5 {
        '5'
    } else if d == 6 {
        '6'
    } else if d == 7 {
        '7'
    } else if d == 8 {
        '8'
    } else {
        '9'
    }
}

fn push_dec(n: usize, out: &mut Vec<char>)
    ensures
        final(out)@ == old(out)@ + dec_digits(n as int),
    decreases n,
{
    if n < 10 {
        out.push(digit_exec(n));
        proof {
            assert(old(out)@ + dec_digits(n as int) =~= old(out)@.push(digit_char(n as int)));
        }
    } else {
        push_dec(n / 10, out);
        out.push(digit_exec(n % 10));
        proof {
            assert(old(out)@ + dec_digits(n as int) =~= (old(out)@ + dec_digits(n as int / 10))
                .push(digit_char(n as int % 10)));
        }
    }
}

/// Builds the row prefix `"N. [x] "` (or `"N. [ ] "`).
pub fn build_prefix(num: usize, done: bool) -> (r: Vec<char>)
    ensures
        r@ == prefix_chars(num as int, done),
{
    let mut r: Vec<char> = Vec::new();
    push_dec(num, &mut r);
    r.push('.');
    r.push(' ');
    r.push('[');
    r.push(if done { 'x' } else { ' ' });
    r.push(']');
    r.push(' ');
    proof {
        assert(r@ =~= prefix_chars(num as int, done));
    }
    r
}

/// Paints one terminal line of one row.
#[verifier::loop_isolation(false)]
#[verifier::rlimit(20)]
fn render_line(
    prefix: &Vec<char>,
    chunk: &Vec<char>,
    first: bool,
    sel: bool,
    done: bool,
    width: u16,
) -> (r: Vec<Cell>)
    ensures
        r@ == line_cells(prefix@, chunk@, first, sel, done, width as int),
{
    let ghost target = line_cells(prefix@, chunk@, first, sel, done, width as int);
    proof {
        assert(target.len() == width as int);
    }
    let w = width as usize;
    let mut r: Vec<Cell> = Vec::new();
    let mut j: usize = 0;
    while j < w
        invariant
            j <= w,
            r@ =~= target.take(j as int),
        decreases w - j,
    {
        let cell = if j < 8 {
            if first {
                if j < prefix.len() {
                    Cell { ch: prefix[j], selected: sel, done }
                } else {
                    Cell { ch: ' ', selected: false, done: false }
                }
            } else {
                Cell { ch: ' ', selected: sel, done }
            }
        } else if j - 8 < chunk.len() {
            Cell { ch: chunk[j - 8], selected: sel, done }
        } else {
            Cell { ch: ' ', selected: sel, done }
        };
        proof {
            assert((j as int) < target.len());
            if j < 8 {
                if first {
                    if (j as int) < prefix@.len() {
                        assert(cell == target[j as int]);
                    } else {
                        assert(cell == target[j as int]);
                    }
                } else {
                    assert(cell == target[j as int]);
                }
            } else if (j - 8) < chunk.len() {
                assert(cell == target[j as int]);
            } else {
                assert(cell == target[j as int]);
            }
            assert(cell == target[j as int]);
            assert(target.take(j + 1 as int) =~= target.take(j as int).push(target[j as int]));
        }
        r.push(cell);
        j = j + 1;
    }
    proof {
        assert(r@ =~= target);
    }
    r
}

/// The visible rows handed to the renderer, with the selection, the scroll
/// offset, the frame title, and the numbering mode: sequential `1..` when
/// renumbering (the filter is active), the actual store position otherwise.
pub struct BacklogList {
    pub items: Vec<(usize, BacklogItem)>,
    pub selected: usize,
    pub scroll_offset: usize,
    pub title: String,
    pub renumber: bool,
}

impl BacklogList {
    pub fn new(
        items: Vec<(usize, BacklogItem)>,
        selected: usize,
        scroll_offset: usize,
        title: String,
        renumber: bool,
    ) -> (r: BacklogList)
        ensures
            pairs_view(r.items@) == pairs_view(items@),
            r.selected == selected,
            r.scroll_offset == scroll_offset,
            r.title@ == title@,
            r.renumber == renumber,
    {
        BacklogList { items, selected, scroll_offset, title, renumber }
    }

    /// Renders the rows into a grid of `width`-cell lines, at most `height`
    /// of them: wraps each visible row from the scroll offset on, paints
    /// prefix, text and fill, and stops at the viewport's bottom edge. A
    /// viewport under ten columns or under one row yields nothing.
    #[verifier::loop_isolation(false)]
    pub fn render(&self, width: u16, height: u16) -> (grid: Vec<Vec<Cell>>)
        requires
            self.items@.len() < usize::MAX,
            forall|p: int| 0 <= p < self.items@.len() ==> (#[trigger] self.items@[p].0) < usize::MAX,
        ensures
            rows_view(grid@) == render_spec(
                pairs_view(self.items@),
                self.selected as int,
                self.scroll_offset as int,
                self.renumber,
                width as int,
                height as int,
            ),
    {
        let mut grid: Vec<Vec<Cell>> = Vec::new();
        if width < 10 || height < 1 {
            proof {
                assert(rows_view(grid@) =~= render_spec(
                    pairs_view(self.items@),
                    self.selected as int,
                    self.scroll_offset as int,
                    self.renumber,
                    width as int,
                    height as int,
                ));
            }
            return grid;
        }
        let text_width = (width - 8) as usize;
        let ghost pairs = pairs_view(self.items@);
        let ghost sel = self.selected as int;
        let ghost w = width as int;
        let ghost all = lines_from(pairs, self.scroll_offset as int, sel, self.renumber, w);
        let mut vi: usize = self.scroll_offset;
        while vi < self.items.len()
            invariant
                self.scroll_offset <= vi,
                rows_view(grid@) + lines_from(pairs, vi as int, sel, self.renumber, w) =~= all,
            decreases self.items.len() - vi,
        {
            let pair = &self.items[vi];
            let num = if self.renumber {
                vi + 1
            } else {
                pair.0 + 1
            };
            let prefix = build_prefix(num, pair.1.done);
            let chunks = wrap_description(&pair.1.description, text_width);
            let ghost row = row_lines(pairs[vi as int].1, num as int, vi as int == sel, w);
            proof {
                lemma_wrap_chunk_bounds(pairs[vi as int].1.description, text_width as int);
                assert(pairs[vi as int].1 == self.items@[vi as int].1@);
                assert(rows_view(chunks@) == wrap_spec(pairs[vi as int].1.description, w - 8));
                assert(row.len() == chunks@.len());
            }
            let ghost grid_before = grid@;
            let mut li: usize = 0;
            while li < chunks.len()
                invariant
                    li <= chunks.len(),
                    grid@.len() == grid_before.len() + li,
                    rows_view(grid@) =~= rows_view(grid_before) + row.take(li as int),
                decreases chunks.len() - li,
            {
                let line = render_line(&prefix, &chunks[li], li == 0, vi == self.selected, pair.1.done, width);
                proof {
                    assert(chunks@[li as int]@ == rows_view(chunks@)[li as int]);
                    assert(line@ == row[li as int]);
                }
                let ghost prev = grid@;
                grid.push(line);
                proof {
                    assert(rows_view(grid@) =~= rows_view(prev).push(line@));
                    assert(row.take(li + 1 as int) =~= row.take(li as int).push(row[li as int]));
                    assert(rows_view(grid@) =~= rows_view(grid_before) + row.take(li + 1 as int));
                }
                li = li + 1;
            }
            proof {
                assert(row.take(chunks@.len() as int) =~= row);
                assert(lines_from(pairs, vi as int, sel, self.renumber, w) == row + lines_from(
                    pairs,
                    vi + 1 as int,
                    sel,
                    self.renumber,
                    w,
                ));
                assert(rows_view(grid@) + lines_from(pairs, vi + 1 as int, sel, self.renumber, w)
                    =~= all);
            }
            vi = vi + 1;
        }
        proof {
            assert(lines_from(pairs, vi as int, sel, self.renumber, w) =~= Seq::<Seq<Cell>>::empty());
            assert(rows_view(grid@) =~= all);
        }
        if grid.len() > height as usize {
            grid.truncate(height as usize);
        }
        proof {
            if all.len() > height as int {
                assert(rows_view(grid@) =~= all.take(height as int));
            }
            assert(rows_view(grid@) =~= render_spec(
                pairs,
                sel,
                self.scroll_offset as int,
                self.renumber,
                width as int,
                height as int,
            ));
        }
        grid
    }
}

/// Splits the edit buffer at the cursor for drawing the input box: the text
/// before the cursor, the character under it (none at the end), and the
/// text after it.
pub fn cursor_segments(buffer: &Vec<char>, cursor: usize) -> (r: (Vec<char>, Option<char>, Vec<char>))
    requires
        cursor <= buffer@.len(),
    ensures
        r.0@ == buffer@.take(cursor as int),
        r.1 == (if cursor < buffer@.len() {
            Some(buffer@[cursor as int])
        } else {
            None::<char>
        }),
        r.2@ == (if cursor < buffer@.len() {
            buffer@.skip(cursor as int + 1)
        } else {
            Seq::<char>::empty()
        }),
{
    let before = copy_range(buffer, 0, cursor);
    proof {
        assert(before@ =~= buffer@.take(cursor as int));
    }
    if cursor < buffer.len() {
        let under = buffer[cursor];
        let after = copy_range(buffer, cursor + 1, buffer.len());
        proof {
            assert(after@ =~= buffer@.skip(cursor as int + 1));
        }
        (before, Some(under), after)
    } else {
        (before, None, Vec::new())
    }
}

} // verus!
