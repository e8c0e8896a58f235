//! Glyphs to draw bars with.

use vstd::prelude::*;

verus! {

pub const SPACE: char = ' ';

pub const EQUAL: char = '=';

pub const HASHTAG: char = '#';

pub const ASTERISK: char = '*';

pub const LIGHT_BOX: char = '\u{25a0}';

pub const HEAVY_BOX: char = '\u{2587}';

pub const PERIOD: char = '.';

pub const DASH: char = '-';

pub const LONG_DASH: char = '\u{2014}';

pub const LIGHT_HORIZONTAL: char = '\u{2500}';

pub const HEAVY_HORIZONTAL: char = '\u{2501}';

pub const LIGHT_DOUBLE_DASH: char = '\u{254c}';

pub const HEAVY_DOUBLE_DASH: char = '\u{254d}';

pub const ELLIPSIS: char = '\u{2026}';

pub const SQUARE_BRACKET_OPEN: char = '[';

pub const SQUARE_BRACKET_CLOSE: char = ']';

pub const LIGHT_VERTICAL: char = '\u{2502}';

pub const LIGHT_VERTICAL_OPEN: char = '\u{251c}';

pub const LIGHT_VERTICAL_CLOSE: char = '\u{2524}';

} // verus!
