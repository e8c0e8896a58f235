//! The table of a listing: column widths, the heading row and one row for
//! each mount.

use crate::args::{ColumnType, NumberFormat};
use crate::mount::{Mount, MountView};
use crate::number::count_text;
use crate::paint::{render, rendering_of, span_views, Span, SpanView};
use crate::text::{
    chars_of, justify_left, justify_right, pad_left, pad_right, string_of, trim_end,
    trim_trailing,
};
use crate::theme::{Theme, ThemeView};
use crate::util::{
    bar_layout, bar_plain, bar_spans, bar_text, format_percentage, percentage_text,
};
use vstd::prelude::*;

verus! {

/// What tells a table how to show its mounts, besides the theme.
#[derive(Clone, Copy, Debug, PartialEq, Eq, Structural)]
pub struct Layout {
    /// The number base for counts.
    pub delimiter: NumberFormat,
    /// Whether inodes are counted, not bytes.
    pub inodes_mode: bool,
    /// Whether device names are shown as the mount table has them.
    pub no_aliases: bool,
}

/// The text of a cell before it is padded and colored.
pub open spec fn cell_text(
    column: ColumnType,
    mount: MountView,
    theme: ThemeView,
    layout: Layout,
) -> Seq<char> {
    match column {
        ColumnType::Filesystem => mount.shown_name(layout.no_aliases),
        ColumnType::Type => mount.mnt_type,
        ColumnType::Bar => bar_text(theme.bar_width as nat, mount.used_share(), theme),
        ColumnType::Used => count_text(mount.used as nat, layout.delimiter.powers_of()),
        ColumnType::UsedPercentage => percentage_text(mount.used_share()),
        ColumnType::Available => count_text(mount.free as nat, layout.delimiter.powers_of()),
        ColumnType::AvailablePercentage => percentage_text(mount.free_share()),
        ColumnType::Capacity => count_text(mount.capacity as nat, layout.delimiter.powers_of()),
        ColumnType::MountedOn => mount.dir,
    }
}

/// The largest length among `texts`, and `least` at least.
pub open spec fn widest(texts: Seq<Seq<char>>, least: nat) -> nat
    decreases texts.len(),
{
    if texts.len() == 0 {
        least
    } else if widest(texts.drop_last(), least) < texts.last().len() {
        texts.last().len()
    } else {
        widest(texts.drop_last(), least)
    }
}

/// `widest` is the largest of the lengths it is given: it is not below
/// any of them, and it is one of them.
pub proof fn lemma_widest(texts: Seq<Seq<char>>, least: nat)
    ensures
        least <= widest(texts, least),
        forall|i: int| 0 <= i < texts.len() ==> (#[trigger] texts[i]).len() <= widest(texts, least),
        widest(texts, least) == least || exists|i: int|
            0 <= i < texts.len() && widest(texts, least) == (#[trigger] texts[i]).len(),
    decreases texts.len(),
{
    if texts.len() > 0 {
        let rest = texts.drop_last();
        lemma_widest(rest, least);
        assert forall|i: int| 0 <= i < texts.len() implies (#[trigger] texts[i]).len() <= widest(
            texts,
            least,
        ) by {
            if i < rest.len() {
                assert(rest[i] == texts[i]);
            }
        }
        if widest(texts, least) != least {
            if widest(rest, least) < texts.last().len() {
                assert(widest(texts, least) == texts[texts.len() - 1].len());
            } else {
                let i = choose|i: int|
                    0 <= i < rest.len() && widest(rest, least) == (#[trigger] rest[i]).len();
                assert(rest[i] == texts[i]);
            }
        }
    }
}

/// The texts of one column, a cell for each mount.
pub open spec fn column_texts(
    column: ColumnType,
    mounts: Seq<Mount>,
    theme: ThemeView,
    layout: Layout,
) -> Seq<Seq<char>> {
    Seq::new(mounts.len(), |i: int| cell_text(column, mounts[i]@, theme, layout))
}

/// The width of a column: the length of its longest cell, and of its
/// heading at least. Lengths are counted in characters.
pub open spec fn width_of(
    column: ColumnType,
    mounts: Seq<Mount>,
    theme: ThemeView,
    layout: Layout,
) -> nat {
    widest(
        column_texts(column, mounts, theme, layout),
        column.label_text(layout.inodes_mode).len(),
    )
}

/// A text in a field of `width` characters, flush left or flush right.
pub open spec fn justified(text: Seq<char>, width: nat, left: bool) -> Seq<char> {
    if left {
        pad_right(text, width)
    } else {
        pad_left(text, width)
    }
}

/// The heading of a column: its label in the heading color, justified as
/// the column is.
pub open spec fn heading_cell(
    column: ColumnType,
    width: nat,
    theme: ThemeView,
    layout: Layout,
) -> SpanView {
    SpanView::colored(
        justified(column.label_text(layout.inodes_mode), width, column.left_justified()),
        theme.heading_color(),
    )
}

/// The cell of a mount in a column. Names stand flush left without a
/// color. Counts and percentages stand flush right in the color of the
/// usage. The bar is drawn over the usage and fills its column.
pub open spec fn row_cell(
    column: ColumnType,
    mount: MountView,
    width: nat,
    theme: ThemeView,
    layout: Layout,
) -> Seq<SpanView> {
    match column {
        ColumnType::Filesystem | ColumnType::Type | ColumnType::MountedOn => seq![
            SpanView::plain(pad_right(cell_text(column, mount, theme, layout), width)),
        ],
        ColumnType::Bar => bar_layout(theme.bar_width as nat, mount.used_share(), theme),
        _ => seq![
            SpanView::colored(
                pad_left(cell_text(column, mount, theme, layout), width),
                theme.usage_color(mount.used_share()),
            ),
        ],
    }
}

/// The space that follows every cell.
pub open spec fn gap() -> SpanView {
    SpanView::plain(seq![' '])
}

/// The heading row over the first `n` columns of the theme.
pub open spec fn heading_spans(
    n: int,
    mounts: Seq<Mount>,
    theme: ThemeView,
    layout: Layout,
) -> Seq<SpanView>
    decreases n,
{
    if n <= 0 {
        Seq::empty()
    } else {
        heading_spans(n - 1, mounts, theme, layout) + seq![
            heading_cell(
                theme.columns[n - 1],
                width_of(theme.columns[n - 1], mounts, theme, layout),
                theme,
                layout,
            ),
            gap(),
        ]
    }
}

/// The row of the mount at index `i` over the first `n` columns of the
/// theme.
pub open spec fn row_spans(
    n: int,
    i: int,
    mounts: Seq<Mount>,
    theme: ThemeView,
    layout: Layout,
) -> Seq<SpanView>
    decreases n,
{
    if n <= 0 {
        Seq::empty()
    } else {
        row_spans(n - 1, i, mounts, theme, layout) + row_cell(
            theme.columns[n - 1],
            mounts[i]@,
            width_of(theme.columns[n - 1], mounts, theme, layout),
            theme,
            layout,
        ) + seq![gap()]
    }
}

/// Whether `line` is a row of the table made of `spans`: the spans
/// rendered in order, without the whitespace at the end.
pub open spec fn is_line_of(spans: Seq<SpanView>, line: Seq<char>) -> bool {
    exists|raw: Seq<char>| rendering_of(spans, raw) && line == trim_end(raw)
}

/// Whether `lines` is the table of `mounts`: the heading row, then one
/// row for each mount in order, each over all columns of the theme.
pub open spec fn is_table_of(
    lines: Seq<String>,
    mounts: Seq<Mount>,
    theme: ThemeView,
    layout: Layout,
) -> bool {
    &&& lines.len() == mounts.len() + 1
    &&& is_line_of(heading_spans(theme.columns.len() as int, mounts, theme, layout), lines[0]@)
    &&& forall|i: int|
        0 <= i < mounts.len() ==> is_line_of(
            row_spans(theme.columns.len() as int, i, mounts, theme, layout),
            (#[trigger] lines[i + 1])@,
        )
}

/// The width of a column from the texts of its cells and its heading:
/// the length in characters of the longest of them.
pub fn column_width(cells: &[String], heading: &str) -> (r: usize)
    ensures
        r == widest(Seq::new(cells@.len(), |i: int| cells@[i]@), heading@.len()),
{
    let ghost texts = Seq::new(cells@.len(), |i: int| cells@[i]@);
    let mut r = heading.unicode_len();
    let mut i: usize = 0;
    while i < cells.len()
        invariant
            i <= cells@.len(),
            texts == Seq::new(cells@.len(), |i: int| cells@[i]@),
            r == widest(texts.take(i as int), heading@.len()),
        decreases cells@.len() - i,
    {
        assert(texts.take(i + 1).drop_last() == texts.take(i as int));
        let n = cells[i].as_str().unicode_len();
        if r < n {
            r = n;
        }
        i += 1;
    }
    assert(texts.take(cells@.len() as int) == texts);
    r
}

/// The text of the cell of a mount in a column, before it is padded and
/// colored.
pub fn cell_string(column: ColumnType, mnt: &Mount, theme: &Theme, layout: &Layout) -> (r: String)
    ensures
        r@ == cell_text(column, mnt@, theme@, *layout),
{
    match column {
        ColumnType::Filesystem => {
            if layout.no_aliases {
                mnt.fsname()
            } else {
                mnt.fsname_aliased()
            }
        },
        ColumnType::Type => mnt.mnt_type.clone(),
        ColumnType::Bar => bar_plain(theme.bar_width, mnt.used_percentage(), theme),
        ColumnType::Used => mnt.used_formatted(&layout.delimiter),
        ColumnType::UsedPercentage => format_percentage(mnt.used_percentage()),
        ColumnType::Available => mnt.free_formatted(&layout.delimiter),
        ColumnType::AvailablePercentage => format_percentage(mnt.free_percentage()),
        ColumnType::Capacity => mnt.capacity_formatted(&layout.delimiter),
        ColumnType::MountedOn => mnt.mnt_dir.clone(),
    }
}

/// The width of a column of the table of `mnts`.
pub fn measure_column(column: ColumnType, mnts: &[Mount], theme: &Theme, layout: &Layout) -> (r:
    usize)
    ensures
        r == width_of(column, mnts@, theme@, *layout),
{
    let mut cells: Vec<String> = Vec::new();
    let mut i: usize = 0;
    while i < mnts.len()
        invariant
            i <= mnts@.len(),
            cells@.len() == i,
            forall|k: int|
                0 <= k < i ==> (#[trigger] cells@[k])@ == cell_text(
                    column,
                    mnts@[k]@,
                    theme@,
                    *layout,
                ),
        decreases mnts@.len() - i,
    {
        cells.push(cell_string(column, &mnts[i], theme, layout));
        i += 1;
    }
    assert(Seq::new(cells@.len(), |i: int| cells@[i]@) =~= column_texts(
        column,
        mnts@,
        theme@,
        *layout,
    ));
    column_width(cells.as_slice(), column.label(layout.inodes_mode))
}

/// A text set in a field, as a string.
fn justify(text: &str, width: usize, left: bool) -> (r: String)
    ensures
        r@ == justified(text@, width as nat, left),
{
    let chars = chars_of(text);
    let set = if left {
        justify_left(chars.as_slice(), width)
    } else {
        justify_right(chars.as_slice(), width)
    };
    string_of(set.as_slice())
}

/// The space that follows every cell.
fn gap_span() -> (r: Span)
    ensures
        r@ == gap(),
{
    let mut space: Vec<char> = Vec::new();
    space.push(' ');
    assert(space@ == seq![' ']);
    Span { text: string_of(space.as_slice()), color: None }
}

/// Renders spans as a row of the table.
pub fn render_line(spans: &[Span]) -> (r: String)
    ensures
        is_line_of(span_views(spans@), r@),
{
    let raw = render(spans);
    let mut chars = chars_of(raw.as_str());
    trim_trailing(&mut chars);
    string_of(chars.as_slice())
}

/// The spans of the cell of a mount in a column of the given width.
pub fn cell_spans(column: ColumnType, mnt: &Mount, width: usize, theme: &Theme, layout: &Layout) -> (r:
    Vec<Span>)
    requires
        theme@.valid(),
    ensures
        span_views(r@) == row_cell(column, mnt@, width as nat, theme@, *layout),
{
    let mut r: Vec<Span> = Vec::new();
    match column {
        ColumnType::Filesystem | ColumnType::Type | ColumnType::MountedOn => {
            let text = cell_string(column, mnt, theme, layout);
            r.push(Span { text: justify(text.as_str(), width, true), color: None });
        },
        ColumnType::Bar => {
            r = bar_spans(theme.bar_width, mnt.used_percentage(), theme);
        },
        _ => {
            let text = cell_string(column, mnt, theme, layout);
            r.push(
                Span {
                    text: justify(text.as_str(), width, false),
                    color: Some(mnt.usage_color(theme)),
                },
            );
        },
    }
    assert(span_views(r@) =~= row_cell(column, mnt@, width as nat, theme@, *layout));
    r
}

/// Lays out and renders the table of a listing: the heading row, then a
/// row for each mount. Every row ends without whitespace.
pub fn display_mounts(
    mnts: &[Mount],
    theme: &Theme,
    delimiter: &NumberFormat,
    inodes_mode: bool,
    no_aliases: bool,
) -> (lines: Vec<String>)
    requires
        theme@.valid(),
    ensures
        is_table_of(
            lines@,
            mnts@,
            theme@,
            Layout { delimiter: *delimiter, inodes_mode, no_aliases },
        ),
{
    let layout = Layout { delimiter: *delimiter, inodes_mode, no_aliases };
    let columns = theme.columns.len();
    let mut widths: Vec<usize> = Vec::new();
    let mut k: usize = 0;
    while k < columns
        invariant
            k <= columns,
            columns == theme@.columns.len(),
            widths@.len() == k,
            forall|c: int|
                0 <= c < k ==> #[trigger] widths@[c] == width_of(
                    theme@.columns[c],
                    mnts@,
                    theme@,
                    layout,
                ),
        decreases columns - k,
    {
        widths.push(measure_column(theme.columns[k], mnts, theme, &layout));
        k += 1;
    }
    let mut lines: Vec<String> = Vec::new();
    let mut heading: Vec<Span> = Vec::new();
    let color_heading = theme.heading_color();
    k = 0;
    while k < columns
        invariant
            k <= columns,
            columns == theme@.columns.len(),
            widths@.len() == columns,
            color_heading == theme@.heading_color(),
            layout.inodes_mode == inodes_mode,
            forall|c: int|
                0 <= c < columns ==> #[trigger] widths@[c] == width_of(
                    theme@.columns[c],
                    mnts@,
                    theme@,
                    layout,
                ),
            span_views(heading@) == heading_spans(k as int, mnts@, theme@, layout),
        decreases columns - k,
    {
        let column = theme.columns[k];
        let label = justify(column.label(inodes_mode), widths[k], column.is_left_justified());
        let ghost before = span_views(heading@);
        heading.push(Span { text: label, color: Some(color_heading) });
        heading.push(gap_span());
        assert(span_views(heading@) =~= before + seq![
            heading_cell(column, widths@[k as int] as nat, theme@, layout),
            gap(),
        ]);
        k += 1;
    }
    lines.push(render_line(heading.as_slice()));
    let mut i: usize = 0;
    while i < mnts.len()
        invariant
            i <= mnts@.len(),
            theme@.valid(),
            columns == theme@.columns.len(),
            widths@.len() == columns,
            forall|c: int|
                0 <= c < columns ==> #[trigger] widths@[c] == width_of(
                    theme@.columns[c],
                    mnts@,
                    theme@,
                    layout,
                ),
            lines@.len() == i + 1,
            is_line_of(heading_spans(columns as int, mnts@, theme@, layout), lines@[0]@),
            forall|j: int|
                0 <= j < i ==> is_line_of(
                    row_spans(columns as int, j, mnts@, theme@, layout),
                    (#[trigger] lines@[j + 1])@,
                ),
        decreases mnts@.len() - i,
    {
        let mut row: Vec<Span> = Vec::new();
        k = 0;
        while k < columns
            invariant
                k <= columns,
                i < mnts@.len(),
                theme@.valid(),
                columns == theme@.columns.len(),
                widths@.len() == columns,
                forall|c: int|
                    0 <= c < columns ==> #[trigger] widths@[c] == width_of(
                        theme@.columns[c],
                        mnts@,
                        theme@,
                        layout,
                    ),
                span_views(row@) == row_spans(k as int, i as int, mnts@, theme@, layout),
            decreases columns - k,
        {
            let mut cell = cell_spans(theme.columns[k], &mnts[i], widths[k], theme, &layout);
            let ghost before = span_views(row@);
            let ghost added = span_views(cell@);
            row.append(&mut cell);
            row.push(gap_span());
            assert(span_views(row@) =~= before + added + seq![gap()]);
            k += 1;
        }
        let ghost before = lines@;
        lines.push(render_line(row.as_slice()));
        assert forall|j: int| 0 <= j < i + 1 implies is_line_of(
            row_spans(columns as int, j, mnts@, theme@, layout),
            (#[trigger] lines@[j + 1])@,
        ) by {
            if j < i {
                assert(lines@[j + 1] == before[j + 1]);
            }
        }
        i += 1;
    }
    lines
}

} // verus!
