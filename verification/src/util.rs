//! The computations behind a listing: readable numbers, usage bars, device
//! aliases, path resolution, ordering, filtering and totals.

use core::cmp::Ordering;

use crate::mount::{Mount, MountView};
use crate::number::{
    count_text, lemma_round_tenths, push_tenths, rounded_div, tenths_text, unit_exponent,
};
use crate::paint::{render, rendering_of, span_views, Span, SpanView};
use crate::path::{is_path_prefix, path_starts_with};
use crate::percentage::Percentage;
use crate::text::{
    byte_len, chars_of, copy_range, is_lex_less, justify_right, lex_less, pad_left, push_all,
    push_repeated, repeated, starts_with, str_eq, string_of,
};
use crate::theme::{color_or, Color, Theme, ThemeView};
use vstd::arithmetic::div_mod::lemma_div_denominator;
use vstd::arithmetic::power::{lemma_pow_increases, pow};
use vstd::prelude::*;

verus! {

/// Writes a count in human-readable form: scaled by a power of
/// `delimiter`, with one decimal place and a unit, as `12.1M`. Zero is
/// written as a bare `0`. Counts beyond the last unit keep that unit and
/// get a longer number. The number is rounded to the nearest tenth; a
/// count that lies exactly half way between two tenths goes to the even
/// one, in either base.
pub fn format_count(num: u128, delimiter: u64) -> (r: String)
    requires
        2 <= delimiter <= 1024,
    ensures
        r@ == count_text(num as nat, delimiter as nat),
{
    let mut out: Vec<char> = Vec::new();
    if num < 1 {
        out.push('0');
        assert(out@ == seq!['0']);
        return string_of(out.as_slice());
    }
    let base: u128 = delimiter as u128;
    let units: [char; 9] = ['B', 'k', 'M', 'G', 'T', 'P', 'E', 'Z', 'Y'];
    let mut q: u128 = num;
    let mut p: u128 = 1;
    let mut e: usize = 0;
    proof {
        reveal(pow);
        assert(pow(base as int, 0) == 1);
        assert(pow(1024, 0) == 1);
    }
    while e < 8 && q >= base
        invariant
            e <= 8,
            2 <= base <= 1024,
            num >= 1,
            p >= 1,
            p == pow(base as int, e as nat),
            p <= pow(1024, e as nat),
            q == num / p,
            q >= 1,
            unit_exponent(num as nat, base as nat, 8) == e + unit_exponent(
                q as nat,
                base as nat,
                (8 - e) as nat,
            ),
        decreases 8 - e,
    {
        proof {
            reveal(pow);
            assert(pow(base as int, (e + 1) as nat) == base * pow(base as int, e as nat));
            assert(pow(1024, (e + 1) as nat) == 1024 * pow(1024, e as nat));
            lemma_pow_increases(1024, (e + 1) as nat, 8);
            assert(pow(1024, 8) == 0x1_0000_0000_0000_0000_0000) by {
                reveal_with_fuel(pow, 9);
            }
            assert(p * base <= pow(1024, e as nat) * 1024) by (nonlinear_arith)
                requires
                    p <= pow(1024, e as nat),
                    base <= 1024,
                    0 <= p,
                    0 <= base,
            ;
            assert(p * base == base * p) by (nonlinear_arith);
            lemma_div_denominator(num as int, p as int, base as int);
            assert(q / base >= 1) by (nonlinear_arith)
                requires
                    q >= base,
                    base >= 2,
            ;
        }
        q = q / base;
        p = p * base;
        e += 1;
    }
    proof {
        lemma_pow_increases(1024, e as nat, 8);
        assert(pow(1024, 8) == 0x1_0000_0000_0000_0000_0000) by {
            reveal_with_fuel(pow, 9);
        }
        lemma_round_tenths(num as int, p as int);
        assert(unit_exponent(q as nat, base as nat, (8 - e) as nat) == 0);
    }
    let rest = num % p;
    let f = rounded_div(10 * rest, p);
    if f == 10 {
        assert(q < u128::MAX) by (nonlinear_arith)
            requires
                q == num / p,
                num % p > 0,
                p >= 1,
                num <= u128::MAX,
        ;
        push_tenths(&mut out, q + 1, 0);
    } else {
        push_tenths(&mut out, q, f as u8);
    }
    out.push(units[e]);
    string_of(out.as_slice())
}

/// How a usage is written in a table: in percent with one decimal place,
/// flush right in six characters. An unknown usage is a dash.
pub open spec fn percentage_text(usage: Option<Percentage>) -> Seq<char> {
    match usage {
        Some(p) => pad_left(tenths_text(p.tenths()), 5).push('%'),
        None => pad_left(seq!['-'], 6),
    }
}

/// Writes a usage for a table cell.
pub fn format_percentage(usage: Option<Percentage>) -> (r: String)
    requires
        usage matches Some(p) ==> p.valid(),
    ensures
        r@ == percentage_text(usage),
{
    match usage {
        Some(p) => {
            let t = p.rounded_tenths();
            let mut number: Vec<char> = Vec::new();
            push_tenths(&mut number, t / 10, (t % 10) as u8);
            let mut out = justify_right(number.as_slice(), 5);
            out.push('%');
            string_of(out.as_slice())
        },
        None => {
            let mut dash: Vec<char> = Vec::new();
            dash.push('-');
            assert(dash@ == seq!['-']);
            let out = justify_right(dash.as_slice(), 6);
            string_of(out.as_slice())
        },
    }
}


/// How many cells of a bar of `width` cells are filled: the usage times
/// the width, rounded up; none where the usage is unknown.
pub open spec fn bar_filled(width: nat, usage: Option<Percentage>) -> nat {
    match usage {
        Some(p) => p.cells(width),
        None => 0,
    }
}

/// The filled cells below the medium threshold.
pub open spec fn bar_low(width: nat, usage: Option<Percentage>, theme: ThemeView) -> nat {
    if bar_filled(width, usage) < theme.threshold_usage_medium.cells(width) {
        bar_filled(width, usage)
    } else {
        theme.threshold_usage_medium.cells(width)
    }
}

/// The filled cells from the medium threshold up to the high one.
pub open spec fn bar_medium(width: nat, usage: Option<Percentage>, theme: ThemeView) -> nat {
    let upto = if bar_filled(width, usage) < theme.threshold_usage_high.cells(width) {
        bar_filled(width, usage)
    } else {
        theme.threshold_usage_high.cells(width)
    };
    if upto > bar_low(width, usage, theme) {
        (upto - bar_low(width, usage, theme)) as nat
    } else {
        0
    }
}

/// The filled cells from the high threshold on.
pub open spec fn bar_high(width: nat, usage: Option<Percentage>, theme: ThemeView) -> nat {
    (bar_filled(width, usage) - bar_low(width, usage, theme) - bar_medium(width, usage, theme)) as nat
}

/// The cells that are not filled.
pub open spec fn bar_empty(width: nat, usage: Option<Percentage>) -> nat {
    (width - bar_filled(width, usage)) as nat
}

/// The color of the cells that are not filled: that of an unknown usage
/// where the usage is unknown, else that of a low one; green where that
/// is not set.
pub open spec fn bar_empty_color(usage: Option<Percentage>, theme: ThemeView) -> Color {
    match usage {
        Some(_) => color_or(theme.color_usage_low, Color::Green),
        None => color_or(theme.color_usage_void, Color::Green),
    }
}

/// A usage bar as spans: the opening text, the filled cells in three
/// runs colored low, medium and high, the empty cells, the closing text.
pub open spec fn bar_layout(width: nat, usage: Option<Percentage>, theme: ThemeView) -> Seq<
    SpanView,
> {
    seq![
        SpanView::plain(theme.char_bar_open),
        SpanView::colored(
            repeated(theme.char_bar_filled, bar_low(width, usage, theme)),
            color_or(theme.color_usage_low, Color::Green),
        ),
        SpanView::colored(
            repeated(theme.char_bar_filled, bar_medium(width, usage, theme)),
            color_or(theme.color_usage_medium, Color::Yellow),
        ),
        SpanView::colored(
            repeated(theme.char_bar_filled, bar_high(width, usage, theme)),
            color_or(theme.color_usage_high, Color::Red),
        ),
        SpanView::colored(
            repeated(theme.char_bar_empty, bar_empty(width, usage)),
            bar_empty_color(usage, theme),
        ),
        SpanView::plain(theme.char_bar_close),
    ]
}

/// The text of a usage bar without its colors: the opening text, the
/// filled cells, the empty cells, the closing text.
pub open spec fn bar_text(width: nat, usage: Option<Percentage>, theme: ThemeView) -> Seq<char> {
    theme.char_bar_open + repeated(theme.char_bar_filled, bar_filled(width, usage)) + repeated(
        theme.char_bar_empty,
        bar_empty(width, usage),
    ) + theme.char_bar_close
}

/// The texts of the spans of a bar make up the text of the bar, which
/// has one character for each cell between its opening and closing text.
pub proof fn lemma_bar_text(width: nat, usage: Option<Percentage>, theme: ThemeView)
    ensures
        bar_layout(width, usage, theme)[0].text + bar_layout(width, usage, theme)[1].text
            + bar_layout(width, usage, theme)[2].text + bar_layout(width, usage, theme)[3].text
            + bar_layout(width, usage, theme)[4].text + bar_layout(width, usage, theme)[5].text
            == bar_text(width, usage, theme),
        bar_text(width, usage, theme).len() == theme.char_bar_open.len() + width
            + theme.char_bar_close.len(),
{
    lemma_bar_adds_up(width, usage, theme);
    let c = theme.char_bar_filled;
    assert(repeated(c, bar_low(width, usage, theme)) + repeated(
        c,
        bar_medium(width, usage, theme),
    ) + repeated(c, bar_high(width, usage, theme)) =~= repeated(c, bar_filled(width, usage)));
    assert(bar_layout(width, usage, theme)[0].text + bar_layout(width, usage, theme)[1].text
        + bar_layout(width, usage, theme)[2].text + bar_layout(width, usage, theme)[3].text
        + bar_layout(width, usage, theme)[4].text + bar_layout(width, usage, theme)[5].text
        =~= bar_text(width, usage, theme));
}

/// The lengths of the four runs of a bar add up to its width.
pub proof fn lemma_bar_adds_up(width: nat, usage: Option<Percentage>, theme: ThemeView)
    ensures
        bar_low(width, usage, theme) + bar_medium(width, usage, theme) + bar_high(
            width,
            usage,
            theme,
        ) + bar_empty(width, usage) == width,
        bar_low(width, usage, theme) + bar_medium(width, usage, theme) + bar_high(
            width,
            usage,
            theme,
        ) == bar_filled(width, usage),
{
}

/// A span of `n` copies of `c` in a color.
fn run_span(c: char, n: usize, color: Color) -> (r: Span)
    ensures
        r@ == SpanView::colored(repeated(c, n as nat), color),
{
    let mut cells: Vec<char> = Vec::new();
    push_repeated(&mut cells, c, n);
    Span { text: string_of(cells.as_slice()), color: Some(color) }
}

/// `color`, or `fallback` where none is set.
pub fn pick_color(color: Option<Color>, fallback: Color) -> (r: Color)
    ensures
        r == color_or(color, fallback),
{
    match color {
        Some(c) => c,
        None => fallback,
    }
}

/// Lays out a usage bar of `width` cells.
pub fn bar_spans(width: usize, percentage: Option<Percentage>, theme: &Theme) -> (r: Vec<Span>)
    requires
        theme@.valid(),
        percentage matches Some(p) ==> p.valid(),
    ensures
        span_views(r@) == bar_layout(width as nat, percentage, theme@),
{
    let filled = match percentage {
        Some(p) => p.cell_count(width),
        None => 0,
    };
    let medium_from = theme.threshold_usage_medium.cell_count(width);
    let high_from = theme.threshold_usage_high.cell_count(width);
    let low = if filled < medium_from {
        filled
    } else {
        medium_from
    };
    let upto = if filled < high_from {
        filled
    } else {
        high_from
    };
    let medium = if upto > low {
        upto - low
    } else {
        0
    };
    let high = filled - low - medium;
    let empty_color = match percentage {
        Some(_) => pick_color(theme.color_usage_low, Color::Green),
        None => pick_color(theme.color_usage_void, Color::Green),
    };
    let mut r: Vec<Span> = Vec::new();
    r.push(Span { text: theme.char_bar_open.clone(), color: None });
    r.push(run_span(theme.char_bar_filled, low, pick_color(theme.color_usage_low, Color::Green)));
    r.push(
        run_span(theme.char_bar_filled, medium, pick_color(theme.color_usage_medium, Color::Yellow)),
    );
    r.push(run_span(theme.char_bar_filled, high, pick_color(theme.color_usage_high, Color::Red)));
    r.push(run_span(theme.char_bar_empty, width - filled, empty_color));
    r.push(Span { text: theme.char_bar_close.clone(), color: None });
    assert(span_views(r@) =~= bar_layout(width as nat, percentage, theme@));
    r
}

/// The text of a usage bar of `width` cells without its colors.
pub fn bar_plain(width: usize, percentage: Option<Percentage>, theme: &Theme) -> (r: String)
    requires
        percentage matches Some(p) ==> p.valid(),
    ensures
        r@ == bar_text(width as nat, percentage, theme@),
{
    let filled = match percentage {
        Some(p) => p.cell_count(width),
        None => 0,
    };
    let mut text = chars_of(theme.char_bar_open.as_str());
    push_repeated(&mut text, theme.char_bar_filled, filled);
    push_repeated(&mut text, theme.char_bar_empty, width - filled);
    push_all(&mut text, chars_of(theme.char_bar_close.as_str()).as_slice());
    string_of(text.as_slice())
}

/// Draws a usage bar of `width` cells: filled cells for the used share,
/// colored by the thresholds they lie under, then empty cells.
pub fn bar(width: usize, percentage: Option<Percentage>, theme: &Theme) -> (r: String)
    requires
        theme@.valid(),
        percentage matches Some(p) ==> p.valid(),
    ensures
        rendering_of(bar_layout(width as nat, percentage, theme@), r@),
{
    let spans = bar_spans(width, percentage, theme);
    render(spans.as_slice())
}


/// Whether two dashes in a row stand at index `i` of a name.
pub open spec fn dash_pair_at(name: Seq<char>, i: int) -> bool {
    0 <= i && i + 1 < name.len() && name[i] == '-' && name[i + 1] == '-'
}

/// `name` from index `i` on, with every pair of dashes, taken from left
/// to right, written as one dash. Every other character is written as
/// it is.
pub open spec fn unescaped_from(name: Seq<char>, i: int) -> Seq<char>
    decreases name.len() - i,
{
    if i < 0 || i >= name.len() {
        Seq::empty()
    } else if dash_pair_at(name, i) {
        seq!['-'] + unescaped_from(name, i + 2)
    } else {
        seq![name[i]] + unescaped_from(name, i + 1)
    }
}

/// `name` with every pair of dashes written as one dash.
pub open spec fn unescaped(name: Seq<char>) -> Seq<char> {
    unescaped_from(name, 0)
}

/// The index of the first dash that starts no pair, where `name` is read
/// from index `i` on and two dashes in a row are taken as a pair.
pub open spec fn separator(name: Seq<char>, i: int) -> Option<int>
    decreases name.len() - i,
{
    if i < 0 || i >= name.len() {
        None
    } else if dash_pair_at(name, i) {
        separator(name, i + 2)
    } else if name[i] == '-' {
        Some(i)
    } else {
        separator(name, i + 1)
    }
}

/// The friendly name of a device-mapper volume. A device
/// `/dev/mapper/<group>-<volume>` is shown as `/dev/<group>/<volume>`.
/// Two dashes in a row stand for a dash inside a name; the first dash
/// that belongs to no such pair parts group and volume. A device
/// without such a dash, or outside `/dev/mapper/`, has no such name.
pub open spec fn alias_text(device: Seq<char>) -> Option<Seq<char>> {
    if !"/dev/mapper/"@.is_prefix_of(device) {
        None
    } else {
        let name = device.skip("/dev/mapper/"@.len() as int);
        match separator(name, 0) {
            Some(dash) => Some(
                "/dev/"@ + unescaped(name.take(dash)) + "/"@ + unescaped(name.skip(dash + 1)),
            ),
            None => None,
        }
    }
}

/// The separator of a name is a dash inside the name, and no dash
/// follows it.
pub proof fn lemma_separator(name: Seq<char>, i: int)
    requires
        0 <= i,
    ensures
        separator(name, i) matches Some(k) ==> i <= k < name.len() && name[k] == '-' && (k + 1
            < name.len() ==> name[k + 1] != '-'),
    decreases name.len() - i,
{
    if i < name.len() {
        if dash_pair_at(name, i) {
            lemma_separator(name, i + 2);
        } else if name[i] != '-' {
            lemma_separator(name, i + 1);
        }
    }
}

/// A name without a dash has no separator and is written as it is.
pub proof fn lemma_no_dash(name: Seq<char>, i: int)
    requires
        0 <= i <= name.len(),
        forall|k: int| i <= k < name.len() ==> #[trigger] name[k] != '-',
    ensures
        separator(name, i) is None,
        unescaped_from(name, i) == name.subrange(i, name.len() as int),
    decreases name.len() - i,
{
    if i < name.len() {
        assert(name[i] != '-');
        lemma_no_dash(name, i + 1);
        assert(seq![name[i]] + name.subrange(i + 1, name.len() as int) == name.subrange(
            i,
            name.len() as int,
        ));
    } else {
        assert(name.subrange(i, name.len() as int) == Seq::<char>::empty());
    }
}

/// `name` with every dash written twice.
pub open spec fn escaped(name: Seq<char>) -> Seq<char>
    decreases name.len(),
{
    if name.len() == 0 {
        Seq::empty()
    } else if name[0] == '-' {
        seq!['-', '-'] + escaped(name.drop_first())
    } else {
        seq![name[0]] + escaped(name.drop_first())
    }
}

/// What stands before an index changes neither how the rest of a name
/// is written nor where its separator is.
pub proof fn lemma_name_shift(a: Seq<char>, b: Seq<char>, i: int)
    requires
        0 <= i <= b.len(),
    ensures
        unescaped_from(a + b, a.len() + i) == unescaped_from(b, i),
        separator(a + b, a.len() + i) == match separator(b, i) {
            Some(k) => Some(a.len() + k),
            None => None,
        },
    decreases b.len() - i,
{
    let s = a + b;
    if i < b.len() {
        assert(s[a.len() + i] == b[i]);
        if i + 1 < b.len() {
            assert(s[a.len() + i + 1] == b[i + 1]);
            lemma_name_shift(a, b, i + 2);
        }
        lemma_name_shift(a, b, i + 1);
    }
}

/// An escaped name is written as the name it was made from, and has no
/// separator of its own: before a text that starts with no dash, the
/// separator is that of the text.
pub proof fn lemma_escaped(name: Seq<char>, rest: Seq<char>)
    requires
        rest.len() == 0 || rest[0] != '-',
    ensures
        unescaped(escaped(name)) == name,
        separator(escaped(name) + seq!['-'] + rest, 0) == Some(escaped(name).len() as int),
    decreases name.len(),
{
    let e = escaped(name);
    let tail = seq!['-'] + rest;
    assert(e + seq!['-'] + rest =~= e + tail);
    if name.len() == 0 {
        assert(e + tail =~= tail);
        assert(unescaped(e) =~= name);
        if rest.len() > 0 {
            assert(tail[1] == rest[0]);
        }
    } else {
        let next = escaped(name.drop_first());
        lemma_escaped(name.drop_first(), rest);
        assert(next + seq!['-'] + rest =~= next + tail);
        if name[0] == '-' {
            let head = seq!['-', '-'];
            assert(e == head + next);
            assert(e + tail =~= head + (next + tail));
            lemma_name_shift(head, next, 0);
            lemma_name_shift(head, next + tail, 0);
            assert(dash_pair_at(e, 0));
            assert((head + (next + tail))[0] == '-' && (head + (next + tail))[1] == '-');
            assert(dash_pair_at(e + tail, 0));
            assert(unescaped(e) =~= seq!['-'] + name.drop_first());
        } else {
            let head = seq![name[0]];
            assert(e == head + next);
            assert(e + tail =~= head + (next + tail));
            lemma_name_shift(head, next, 0);
            lemma_name_shift(head, next + tail, 0);
            assert(e[0] == name[0]);
            assert((head + (next + tail))[0] == name[0]);
            assert(unescaped(e) =~= seq![name[0]] + name.drop_first());
        }
        assert(seq![name[0]] + name.drop_first() =~= name);
    }
}

/// A group and a volume come back from their escaped forms: where every
/// dash of group and volume is written twice and a single dash is put
/// between them, the device `/dev/mapper/<group>-<volume>` has the
/// name `/dev/<group>/<volume>` with the dashes as they were. A volume
/// that starts with a dash is left out: its dashes cannot be told
/// from the one that parts group and volume.
pub proof fn lemma_alias_of_escaped_names(group: Seq<char>, volume: Seq<char>)
    requires
        volume.len() == 0 || volume[0] != '-',
    ensures
        alias_text("/dev/mapper/"@ + escaped(group) + seq!['-'] + escaped(volume)) == Some(
            "/dev/"@ + group + "/"@ + volume,
        ),
{
    let prefix = "/dev/mapper/"@;
    let g = escaped(group);
    let v = escaped(volume);
    let name = g + seq!['-'] + v;
    let device = prefix + g + seq!['-'] + v;
    assert(device =~= prefix + name);
    assert(prefix.is_prefix_of(device)) by {
        assert(device.subrange(0, prefix.len() as int) =~= prefix);
    }
    assert(device.skip(prefix.len() as int) =~= name);
    if volume.len() > 0 {
        assert(v[0] == volume[0]);
    }
    lemma_escaped(group, v);
    lemma_escaped(volume, Seq::empty());
    let dash = g.len() as int;
    assert(name.take(dash) =~= g);
    assert(name.skip(dash + 1) =~= v);
}

/// A name without a dash is its own escaped form.
pub proof fn lemma_escaped_plain(name: Seq<char>)
    requires
        !name.contains('-'),
    ensures
        escaped(name) == name,
    decreases name.len(),
{
    if name.len() > 0 {
        let tail = name.drop_first();
        assert(name.contains(name[0]));
        assert forall|k: int| 0 <= k < tail.len() implies #[trigger] tail[k] != '-' by {
            assert(name.contains(name[k + 1]));
        }
        lemma_escaped_plain(tail);
        assert(seq![name[0]] + tail =~= name);
    }
}

/// A group and a volume that hold no dash are shown as they are: the
/// device `/dev/mapper/<group>-<volume>` has the name
/// `/dev/<group>/<volume>`.
pub proof fn lemma_alias_of_plain_names(group: Seq<char>, volume: Seq<char>)
    requires
        !group.contains('-'),
        !volume.contains('-'),
    ensures
        alias_text("/dev/mapper/"@ + group + seq!['-'] + volume) == Some(
            "/dev/"@ + group + "/"@ + volume,
        ),
{
    if volume.len() > 0 {
        assert(volume.contains(volume[0]));
    }
    lemma_escaped_plain(group);
    lemma_escaped_plain(volume);
    lemma_alias_of_escaped_names(group, volume);
}

/// The index of the first dash of a name that starts no pair of dashes.
pub fn find_separator(name: &[char]) -> (r: Option<usize>)
    ensures
        match r {
            Some(k) => separator(name@, 0) == Some(k as int) && k < name@.len(),
            None => separator(name@, 0) is None,
        },
{
    let n = name.len();
    let mut i: usize = 0;
    while i < n
        invariant
            n == name@.len(),
            i <= n,
            separator(name@, 0) == separator(name@, i as int),
        decreases n - i,
    {
        if name[i] != '-' {
            i += 1;
        } else if i + 1 < n && name[i + 1] == '-' {
            i += 2;
        } else {
            return Some(i);
        }
    }
    None
}

/// A name with every pair of dashes written as one dash.
pub fn unescape(name: &[char]) -> (r: Vec<char>)
    ensures
        r@ == unescaped(name@),
{
    let n = name.len();
    let mut r: Vec<char> = Vec::new();
    let mut i: usize = 0;
    while i < n
        invariant
            n == name@.len(),
            i <= n,
            unescaped(name@) == r@ + unescaped_from(name@, i as int),
        decreases n - i,
    {
        r.push(name[i]);
        if name[i] == '-' && i + 1 < n && name[i + 1] == '-' {
            i += 2;
        } else {
            i += 1;
        }
    }
    assert(unescaped_from(name@, i as int) == Seq::<char>::empty());
    r
}

/// The friendly name of a device-mapper volume, if the device is one.
pub fn lvm_alias(device: &str) -> (r: Option<String>)
    ensures
        match r {
            Some(alias) => alias_text(device@) == Some(alias@),
            None => alias_text(device@) is None,
        },
{
    let chars = chars_of(device);
    let prefix = chars_of("/dev/mapper/");
    if !starts_with(chars.as_slice(), prefix.as_slice()) {
        return None;
    }
    let name = copy_range(chars.as_slice(), prefix.len(), chars.len());
    assert(name@ == device@.skip("/dev/mapper/"@.len() as int));
    let dash = match find_separator(name.as_slice()) {
        Some(dash) => dash,
        None => {
            return None;
        },
    };
    let group = copy_range(name.as_slice(), 0, dash);
    let volume = copy_range(name.as_slice(), dash + 1, name.len());
    assert(group@ == name@.take(dash as int));
    assert(volume@ == name@.skip(dash + 1));
    let mut alias: Vec<char> = chars_of("/dev/");
    push_all(&mut alias, unescape(group.as_slice()).as_slice());
    push_all(&mut alias, chars_of("/").as_slice());
    push_all(&mut alias, unescape(volume.as_slice()).as_slice());
    Some(string_of(alias.as_slice()))
}

/// Whether a mount lies on the way to `path`: its directory is `path` or
/// one of the directories above it.
pub open spec fn covers(mount: MountView, path: Seq<char>) -> bool {
    is_path_prefix(mount.dir, path)
}

/// How well a mount fits a path: the length of its directory in bytes
/// where it covers the path, nothing where it does not.
pub open spec fn match_score(path: Seq<char>, mount: MountView) -> usize {
    if covers(mount, path) {
        byte_len(mount.dir)
    } else {
        0
    }
}

/// Whether the mount at index `i` is the one `path` belongs to: it covers
/// the path, no mount that covers the path has a longer directory, and
/// those before it that cover the path have shorter ones.
pub open spec fn is_best_match(path: Seq<char>, mounts: Seq<Mount>, i: int) -> bool {
    &&& 0 <= i < mounts.len()
    &&& covers(mounts[i]@, path)
    &&& forall|j: int|
        0 <= j < mounts.len() && #[trigger] covers(mounts[j]@, path) ==> byte_len(mounts[j]@.dir)
            <= byte_len(mounts[i]@.dir)
    &&& forall|j: int|
        0 <= j < i && #[trigger] covers(mounts[j]@, path) ==> byte_len(mounts[j]@.dir) < byte_len(
            mounts[i]@.dir,
        )
}

/// The index of the mount that `path` belongs to, if any mount covers it.
pub open spec fn best_match(path: Seq<char>, mounts: Seq<Mount>) -> Option<int> {
    if exists|i: int| is_best_match(path, mounts, i) {
        Some(choose|i: int| is_best_match(path, mounts, i))
    } else {
        None
    }
}

/// A path belongs to one mount at most.
pub proof fn lemma_best_match_unique(path: Seq<char>, mounts: Seq<Mount>, i: int, j: int)
    requires
        is_best_match(path, mounts, i),
        is_best_match(path, mounts, j),
    ensures
        i == j,
        best_match(path, mounts) == Some(i),
{
    let k = choose|k: int| is_best_match(path, mounts, k);
    assert(covers(mounts[i]@, path) && covers(mounts[j]@, path) && covers(mounts[k]@, path));
}

/// How well a mount fits a path: the length of its directory where the
/// path lies at or below it, zero otherwise.
pub fn calculate_path_match_score(path: &str, mnt: &Mount) -> (r: usize)
    ensures
        r == match_score(path@, mnt@),
{
    if path_starts_with(path, mnt.mnt_dir.as_str()) {
        mnt.mnt_dir.as_str().len()
    } else {
        0
    }
}

/// The index of the mount a path belongs to: of the mounts whose
/// directory the path lies at or below, the one with the longest
/// directory, and of several such the first.
pub fn best_mount_index(path: &str, mnts: &[Mount]) -> (r: Option<usize>)
    ensures
        match r {
            Some(i) => is_best_match(path@, mnts@, i as int) && best_match(path@, mnts@) == Some(
                i as int,
            ),
            None => best_match(path@, mnts@) is None && forall|j: int|
                0 <= j < mnts@.len() ==> !#[trigger] covers(mnts@[j]@, path@),
        },
{
    let mut best: Option<usize> = None;
    let mut best_len: usize = 0;
    let mut i: usize = 0;
    while i < mnts.len()
        invariant
            i <= mnts@.len(),
            match best {
                Some(b) => {
                    &&& b < i
                    &&& best_len == byte_len(mnts@[b as int]@.dir)
                    &&& covers(mnts@[b as int]@, path@)
                    &&& forall|j: int|
                        0 <= j < i && #[trigger] covers(mnts@[j]@, path@) ==> byte_len(
                            mnts@[j]@.dir,
                        ) <= best_len
                    &&& forall|j: int|
                        0 <= j < b && #[trigger] covers(mnts@[j]@, path@) ==> byte_len(
                            mnts@[j]@.dir,
                        ) < best_len
                },
                None => forall|j: int| 0 <= j < i ==> !#[trigger] covers(mnts@[j]@, path@),
            },
        decreases mnts@.len() - i,
    {
        if path_starts_with(path, mnts[i].mnt_dir.as_str()) {
            let len = mnts[i].mnt_dir.as_str().len();
            if best.is_none() || len > best_len {
                best = Some(i);
                best_len = len;
            }
        }
        i += 1;
    }
    proof {
        match best {
            Some(b) => {
                lemma_best_match_unique(path@, mnts@, b as int, b as int);
            },
            None => {
                assert forall|k: int| !is_best_match(path@, mnts@, k) by {
                    if 0 <= k < mnts@.len() {
                        assert(!covers(mnts@[k]@, path@));
                    }
                }
            },
        }
    }
    best
}

/// The mount a path belongs to: of the mounts whose directory the path
/// lies at or below, the one with the longest directory, and of several
/// such the first. A path that no mount covers belongs to none.
pub fn get_best_mount_match<'a>(path: &str, mnts: &'a [Mount]) -> (r: Option<&'a Mount>)
    ensures
        r is Some <==> exists|j: int| 0 <= j < mnts@.len() && #[trigger] covers(mnts@[j]@, path@),
        match r {
            Some(m) => best_match(path@, mnts@) is Some && is_best_match(
                path@,
                mnts@,
                best_match(path@, mnts@)->0,
            ) && *m == mnts@[best_match(path@, mnts@)->0],
            None => best_match(path@, mnts@) is None,
        },
{
    match best_mount_index(path, mnts) {
        Some(i) => {
            assert(covers(mnts@[i as int]@, path@));
            Some(&mnts[i])
        },
        None => None,
    }
}

/// Whether `a` is listed before `b`: a mount with a capacity comes before
/// one without, and of two mounts that both have one, or both have none,
/// the one whose directory comes first in the order of a dictionary.
pub open spec fn sorts_before(a: MountView, b: MountView) -> bool {
    if (a.capacity == 0) != (b.capacity == 0) {
        b.capacity == 0
    } else {
        lex_less(a.dir, b.dir)
    }
}

/// How two mounts compare in a listing.
pub open spec fn listing_order(a: MountView, b: MountView) -> Ordering {
    if sorts_before(a, b) {
        Ordering::Less
    } else if sorts_before(b, a) {
        Ordering::Greater
    } else {
        Ordering::Equal
    }
}

/// Whether `a` is listed before `b`.
pub fn is_listed_before(a: &Mount, b: &Mount) -> (r: bool)
    ensures
        r == sorts_before(a@, b@),
{
    if (a.capacity == 0) != (b.capacity == 0) {
        b.capacity == 0
    } else {
        let x = chars_of(a.mnt_dir.as_str());
        let y = chars_of(b.mnt_dir.as_str());
        is_lex_less(x.as_slice(), y.as_slice())
    }
}

/// Compares two mounts for a listing: mounts with a capacity first, then
/// by directory. How large a capacity is does not matter.
pub fn cmp_by_capacity_and_dir_name(a: &Mount, b: &Mount) -> (r: Ordering)
    ensures
        r == listing_order(a@, b@),
{
    if is_listed_before(a, b) {
        Ordering::Less
    } else if is_listed_before(b, a) {
        Ordering::Greater
    } else {
        Ordering::Equal
    }
}

/// Whether a name matches a pattern. A pattern that ends in `*` matches
/// the names that begin with the rest of it; any other pattern matches
/// the name equal to it.
pub open spec fn pattern_matches(name: Seq<char>, pattern: Seq<char>) -> bool {
    if pattern.len() > 0 && pattern.last() == '*' {
        pattern.drop_last().is_prefix_of(name)
    } else {
        name == pattern
    }
}

/// Whether the filesystem name of a mount matches a pattern.
pub fn mnt_matches_filter(mnt: &Mount, filter: &str) -> (r: bool)
    ensures
        r == pattern_matches(mnt@.fsname, filter@),
{
    let pattern = chars_of(filter);
    let n = pattern.len();
    if n > 0 && pattern[n - 1] == '*' {
        let name = chars_of(mnt.mnt_fsname.as_str());
        let start = copy_range(pattern.as_slice(), 0, n - 1);
        assert(start@ == filter@.drop_last());
        starts_with(name.as_slice(), start.as_slice())
    } else {
        str_eq(mnt.mnt_fsname.as_str(), filter)
    }
}

/// The free amounts of all mounts together.
pub open spec fn free_sum(mounts: Seq<Mount>) -> int
    decreases mounts.len(),
{
    if mounts.len() == 0 {
        0
    } else {
        free_sum(mounts.drop_last()) + mounts.last().free
    }
}

/// The used amounts of all mounts together.
pub open spec fn used_sum(mounts: Seq<Mount>) -> int
    decreases mounts.len(),
{
    if mounts.len() == 0 {
        0
    } else {
        used_sum(mounts.drop_last()) + mounts.last().used
    }
}

/// The capacities of all mounts together.
pub open spec fn capacity_sum(mounts: Seq<Mount>) -> int
    decreases mounts.len(),
{
    if mounts.len() == 0 {
        0
    } else {
        capacity_sum(mounts.drop_last()) + mounts.last().capacity
    }
}

/// Whether the three sums over the mounts fit in 64 bits each.
pub open spec fn sums_fit(mounts: Seq<Mount>) -> bool {
    free_sum(mounts) <= u64::MAX && used_sum(mounts) <= u64::MAX && capacity_sum(mounts)
        <= u64::MAX
}

/// Sums are not negative, and no larger than the largest amount times
/// the number of mounts.
pub proof fn lemma_sums_bounded(mounts: Seq<Mount>)
    ensures
        0 <= free_sum(mounts) <= mounts.len() * u64::MAX,
        0 <= used_sum(mounts) <= mounts.len() * u64::MAX,
        0 <= capacity_sum(mounts) <= mounts.len() * u64::MAX,
    decreases mounts.len(),
{
    if mounts.len() > 0 {
        lemma_sums_bounded(mounts.drop_last());
    }
}

/// The sums over the first mounts do not exceed the sums over all.
pub proof fn lemma_sums_grow(mounts: Seq<Mount>, k: int)
    requires
        0 <= k <= mounts.len(),
    ensures
        free_sum(mounts.take(k)) <= free_sum(mounts),
        used_sum(mounts.take(k)) <= used_sum(mounts),
        capacity_sum(mounts.take(k)) <= capacity_sum(mounts),
    decreases mounts.len() - k,
{
    if k < mounts.len() {
        lemma_sums_grow(mounts, k + 1);
        assert(mounts.take(k + 1).drop_last() == mounts.take(k));
    } else {
        assert(mounts.take(k) == mounts);
    }
}

/// Where what each mount has used and has free adds up to its capacity,
/// the same holds of the sums.
pub proof fn lemma_sums_balanced(mounts: Seq<Mount>)
    requires
        forall|i: int| 0 <= i < mounts.len() ==> (#[trigger] mounts[i])@.balanced(),
    ensures
        used_sum(mounts) == capacity_sum(mounts) - free_sum(mounts),
    decreases mounts.len(),
{
    if mounts.len() > 0 {
        let rest = mounts.drop_last();
        assert forall|i: int| 0 <= i < rest.len() implies (#[trigger] rest[i])@.balanced() by {
            assert(rest[i] == mounts[i]);
        }
        lemma_sums_balanced(rest);
        assert(mounts.last() == mounts[mounts.len() - 1]);
    }
}

/// Whether the totals of the mounts can be held in a mount record.
pub fn totals_fit(mnts: &[Mount]) -> (r: bool)
    ensures
        r == sums_fit(mnts@),
{
    let mut free: u128 = 0;
    let mut used: u128 = 0;
    let mut capacity: u128 = 0;
    let mut i: usize = 0;
    while i < mnts.len()
        invariant
            i <= mnts@.len(),
            free == free_sum(mnts@.take(i as int)),
            used == used_sum(mnts@.take(i as int)),
            capacity == capacity_sum(mnts@.take(i as int)),
        decreases mnts@.len() - i,
    {
        proof {
            lemma_sums_bounded(mnts@.take(i + 1));
            assert(mnts@.take(i + 1).drop_last() == mnts@.take(i as int));
            assert((i + 1) * u64::MAX <= u64::MAX * u64::MAX) by (nonlinear_arith)
                requires
                    i + 1 <= u64::MAX,
            ;
        }
        free = free + mnts[i].free as u128;
        used = used + mnts[i].used as u128;
        capacity = capacity + mnts[i].capacity as u128;
        i += 1;
    }
    assert(mnts@.take(mnts@.len() as int) == mnts@);
    free <= u64::MAX as u128 && used <= u64::MAX as u128 && capacity <= u64::MAX as u128
}

/// The record that sums up a listing: named `total`, with `-` for
/// directory and type, and with the sums of what the mounts have free,
/// have used and can hold.
pub fn calc_total(mnts: &[Mount]) -> (r: Mount)
    requires
        sums_fit(mnts@),
    ensures
        r@ == (MountView {
            free: free_sum(mnts@) as u64,
            used: used_sum(mnts@) as u64,
            capacity: capacity_sum(mnts@) as u64,
            ..MountView::named("total"@)
        }),
        (forall|i: int| 0 <= i < mnts@.len() ==> (#[trigger] mnts@[i])@.balanced())
            ==> r@.balanced(),
{
    proof {
        lemma_sums_bounded(mnts@);
        if forall|i: int| 0 <= i < mnts@.len() ==> (#[trigger] mnts@[i])@.balanced() {
            lemma_sums_balanced(mnts@);
        }
    }
    let mut total = Mount::named(String::from_str("total"));
    let mut i: usize = 0;
    while i < mnts.len()
        invariant
            i <= mnts@.len(),
            sums_fit(mnts@),
            total.free == free_sum(mnts@.take(i as int)),
            total.used == used_sum(mnts@.take(i as int)),
            total.capacity == capacity_sum(mnts@.take(i as int)),
            total@ == (MountView {
                free: total.free,
                used: total.used,
                capacity: total.capacity,
                ..MountView::named("total"@)
            }),
        decreases mnts@.len() - i,
    {
        proof {
            lemma_sums_grow(mnts@, i + 1);
            assert(mnts@.take(i + 1).drop_last() == mnts@.take(i as int));
        }
        total.free = total.free + mnts[i].free;
        total.used = total.used + mnts[i].used;
        total.capacity = total.capacity + mnts[i].capacity;
        i += 1;
    }
    assert(mnts@.take(mnts@.len() as int) == mnts@);
    total
}

} // verus!
