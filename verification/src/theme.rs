//! How a table looks: bar glyphs, usage thresholds, colors, columns.

use crate::args::ColumnType;
use crate::percentage::Percentage;
use vstd::prelude::*;

pub mod named_char;

verus! {

/// The eight standard terminal colors.
#[derive(Clone, Copy, Debug, PartialEq, Eq, Structural)]
pub enum Color {
    Black,
    Red,
    Green,
    Yellow,
    Blue,
    Magenta,
    Cyan,
    White,
}

/// How full a filesystem is, from unknown up to high.
#[derive(Clone, Copy, Debug, PartialEq, Eq, Structural)]
pub enum UsageLevel {
    /// The usage is not known.
    Void,
    Low,
    Medium,
    High,
}

/// Glyphs, thresholds, colors and columns of a table.
#[derive(Debug)]
pub struct Theme {
    pub char_bar_filled: char,
    pub char_bar_empty: char,
    pub char_bar_open: String,
    pub char_bar_close: String,
    pub threshold_usage_medium: Percentage,
    pub threshold_usage_high: Percentage,
    pub color_heading: Option<Color>,
    pub color_usage_low: Option<Color>,
    pub color_usage_medium: Option<Color>,
    pub color_usage_high: Option<Color>,
    pub color_usage_void: Option<Color>,
    pub columns: Vec<ColumnType>,
    pub bar_width: usize,
}

/// What a theme holds, with texts and lists as sequences.
pub struct ThemeView {
    pub char_bar_filled: char,
    pub char_bar_empty: char,
    pub char_bar_open: Seq<char>,
    pub char_bar_close: Seq<char>,
    pub threshold_usage_medium: Percentage,
    pub threshold_usage_high: Percentage,
    pub color_heading: Option<Color>,
    pub color_usage_low: Option<Color>,
    pub color_usage_medium: Option<Color>,
    pub color_usage_high: Option<Color>,
    pub color_usage_void: Option<Color>,
    pub columns: Seq<ColumnType>,
    pub bar_width: usize,
}

/// `color`, or `fallback` where none is set.
pub open spec fn color_or(color: Option<Color>, fallback: Color) -> Color {
    match color {
        Some(c) => c,
        None => fallback,
    }
}

impl ThemeView {
    /// The standard look: heavy glyphs, thresholds at 50 and 75 percent,
    /// a bar of twenty cells and the standard columns.
    pub open spec fn standard() -> ThemeView {
        ThemeView {
            char_bar_filled: '\u{2587}',
            char_bar_empty: '\u{254d}',
            char_bar_open: Seq::empty(),
            char_bar_close: Seq::empty(),
            threshold_usage_medium: Percentage { part: 50, whole: 100 },
            threshold_usage_high: Percentage { part: 75, whole: 100 },
            color_heading: Some(Color::Blue),
            color_usage_low: Some(Color::Green),
            color_usage_medium: Some(Color::Yellow),
            color_usage_high: Some(Color::Red),
            color_usage_void: Some(Color::Blue),
            columns: ColumnType::default_columns(),
            bar_width: 20,
        }
    }

    /// Both thresholds are percentages.
    pub open spec fn valid(self) -> bool {
        self.threshold_usage_medium.valid() && self.threshold_usage_high.valid()
    }

    /// The level of a usage. A usage that reaches a threshold is on the
    /// level of that threshold; an unknown usage has a level of its own.
    pub open spec fn level(self, usage: Option<Percentage>) -> UsageLevel {
        match usage {
            None => UsageLevel::Void,
            Some(p) => if p.at_least(self.threshold_usage_high) {
                UsageLevel::High
            } else if p.at_least(self.threshold_usage_medium) {
                UsageLevel::Medium
            } else {
                UsageLevel::Low
            },
        }
    }

    /// The color set for a level, if any.
    pub open spec fn level_color(self, level: UsageLevel) -> Option<Color> {
        match level {
            UsageLevel::Void => self.color_usage_void,
            UsageLevel::Low => self.color_usage_low,
            UsageLevel::Medium => self.color_usage_medium,
            UsageLevel::High => self.color_usage_high,
        }
    }

    /// The color of the numbers of a mount with the given usage: the color
    /// of its level, white where none is set.
    pub open spec fn usage_color(self, usage: Option<Percentage>) -> Color {
        color_or(self.level_color(self.level(usage)), Color::White)
    }

    /// The color of headings: white where none is set.
    pub open spec fn heading_color(self) -> Color {
        color_or(self.color_heading, Color::White)
    }
}

impl View for Theme {
    type V = ThemeView;

    open spec fn view(&self) -> ThemeView {
        ThemeView {
            char_bar_filled: self.char_bar_filled,
            char_bar_empty: self.char_bar_empty,
            char_bar_open: self.char_bar_open@,
            char_bar_close: self.char_bar_close@,
            threshold_usage_medium: self.threshold_usage_medium,
            threshold_usage_high: self.threshold_usage_high,
            color_heading: self.color_heading,
            color_usage_low: self.color_usage_low,
            color_usage_medium: self.color_usage_medium,
            color_usage_high: self.color_usage_high,
            color_usage_void: self.color_usage_void,
            columns: self.columns@,
            bar_width: self.bar_width,
        }
    }
}

impl Theme {
    /// The standard look.
    pub fn new() -> (r: Theme)
        ensures
            r@ == ThemeView::standard(),
            r@.valid(),
    {
        Theme {
            char_bar_filled: named_char::HEAVY_BOX,
            char_bar_empty: named_char::HEAVY_DOUBLE_DASH,
            char_bar_open: String::new(),
            char_bar_close: String::new(),
            threshold_usage_medium: Percentage::from_percent(50),
            threshold_usage_high: Percentage::from_percent(75),
            color_heading: Some(Color::Blue),
            color_usage_low: Some(Color::Green),
            color_usage_medium: Some(Color::Yellow),
            color_usage_high: Some(Color::Red),
            color_usage_void: Some(Color::Blue),
            columns: ColumnType::defaults(),
            bar_width: 20,
        }
    }

    /// The level of a usage.
    pub fn level(&self, usage: Option<Percentage>) -> (r: UsageLevel)
        ensures
            r == self@.level(usage),
    {
        match usage {
            None => UsageLevel::Void,
            Some(p) => {
                if p.is_at_least(&self.threshold_usage_high) {
                    UsageLevel::High
                } else if p.is_at_least(&self.threshold_usage_medium) {
                    UsageLevel::Medium
                } else {
                    UsageLevel::Low
                }
            },
        }
    }

    /// The color of the numbers of a mount with the given usage.
    pub fn usage_color(&self, usage: Option<Percentage>) -> (r: Color)
        ensures
            r == self@.usage_color(usage),
    {
        let set = match self.level(usage) {
            UsageLevel::Void => self.color_usage_void,
            UsageLevel::Low => self.color_usage_low,
            UsageLevel::Medium => self.color_usage_medium,
            UsageLevel::High => self.color_usage_high,
        };
        match set {
            Some(c) => c,
            None => Color::White,
        }
    }

    /// The color of headings.
    pub fn heading_color(&self) -> (r: Color)
        ensures
            r == self@.heading_color(),
    {
        match self.color_heading {
            Some(c) => c,
            None => Color::White,
        }
    }
}

} // verus!
