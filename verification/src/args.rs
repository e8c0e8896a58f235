//! Closed option sets that steer a listing: which mounts are visible, which
//! number base is used, which columns are shown.

use vstd::prelude::*;

verus! {

/// When to emit colors.
#[derive(Clone, Copy, Debug, PartialEq, Eq, Structural)]
pub enum ColorOpt {
    Auto,
    Always,
    Never,
}

impl ColorOpt {
    /// What the choice forces: colors on, colors off, or nothing, so
    /// that the terminal decides.
    pub open spec fn forces(self) -> Option<bool> {
        match self {
            ColorOpt::Auto => None,
            ColorOpt::Always => Some(true),
            ColorOpt::Never => Some(false),
        }
    }

    /// What a choice and the switch for colors force together. The
    /// switch forces colors on, whatever the choice.
    pub open spec fn forced_by(color: Option<ColorOpt>, always: bool) -> Option<bool> {
        if always {
            Some(true)
        } else {
            match color {
                Some(c) => c.forces(),
                None => None,
            }
        }
    }

    /// Whether colors are forced on or off by a choice and the switch
    /// for colors, or left to the terminal.
    pub fn color_override(color: Option<ColorOpt>, always: bool) -> (r: Option<bool>)
        ensures
            r == ColorOpt::forced_by(color, always),
    {
        if always {
            Some(true)
        } else {
            match color {
                Some(ColorOpt::Always) => Some(true),
                Some(ColorOpt::Never) => Some(false),
                _ => None,
            }
        }
    }
}

/// Verbosity tier that decides which filesystem names are listed.
#[derive(Clone, Copy, Debug, PartialEq, Eq, Structural)]
pub enum DisplayFilter {
    Minimal,
    More,
    All,
}

impl DisplayFilter {
    /// The patterns of this tier, in order. A pattern that ends in `*`
    /// matches by prefix, any other pattern matches by equality.
    pub open spec fn patterns(self) -> Seq<Seq<char>> {
        match self {
            DisplayFilter::Minimal => seq!["/dev*"@, "storage"@],
            DisplayFilter::More => seq!["dev"@, "run"@, "tmpfs"@, "/dev*"@, "storage"@],
            DisplayFilter::All => seq!["*"@],
        }
    }

    /// The tier selected by an occurrence count and two explicit flags.
    pub open spec fn selected(all: bool, more: bool, count: u8) -> DisplayFilter {
        if all {
            DisplayFilter::All
        } else if more {
            DisplayFilter::More
        } else if count == 0 {
            DisplayFilter::Minimal
        } else if count == 1 {
            DisplayFilter::More
        } else {
            DisplayFilter::All
        }
    }

    /// Tier for an occurrence count: none is `Minimal`, one is `More`,
    /// two or more is `All`.
    pub fn from_u8(n: u8) -> (r: DisplayFilter)
        ensures
            r == DisplayFilter::selected(false, false, n),
    {
        match n {
            0 => DisplayFilter::Minimal,
            1 => DisplayFilter::More,
            _ => DisplayFilter::All,
        }
    }

    /// Tier for a full set of switches. An explicit flag wins over the
    /// occurrence count, and `all` wins over `more`.
    pub fn from_flags(all: bool, more: bool, count: u8) -> (r: DisplayFilter)
        ensures
            r == DisplayFilter::selected(all, more, count),
    {
        if all {
            DisplayFilter::All
        } else if more {
            DisplayFilter::More
        } else {
            DisplayFilter::from_u8(count)
        }
    }

    /// The filesystem-name patterns of this tier, in order.
    pub fn get_mnt_fsname_filter(&self) -> (r: Vec<&'static str>)
        ensures
            r@.len() == self.patterns().len(),
            forall|i: int| 0 <= i < r@.len() ==> (#[trigger] r@[i])@ == self.patterns()[i],
    {
        match self {
            DisplayFilter::Minimal => vec!["/dev*", "storage"],
            DisplayFilter::More => vec!["dev", "run", "tmpfs", "/dev*", "storage"],
            DisplayFilter::All => vec!["*"],
        }
    }
}

/// Base of the unit ladder used when counts are made human-readable.
#[derive(Clone, Copy, Debug, PartialEq, Eq, Structural)]
pub enum NumberFormat {
    Base10,
    Base2,
}

impl NumberFormat {
    /// The base as a number.
    pub open spec fn powers_of(self) -> nat {
        match self {
            NumberFormat::Base10 => 1000,
            NumberFormat::Base2 => 1024,
        }
    }

    /// The base selected by the decimal switch.
    pub fn from_flag(base10: bool) -> (r: NumberFormat)
        ensures
            r == if base10 { NumberFormat::Base10 } else { NumberFormat::Base2 },
    {
        if base10 {
            NumberFormat::Base10
        } else {
            NumberFormat::Base2
        }
    }

    /// 1000 for decimal units, 1024 for binary units.
    pub fn get_powers_of(&self) -> (r: u64)
        ensures
            r == self.powers_of(),
    {
        match self {
            NumberFormat::Base10 => 1000,
            NumberFormat::Base2 => 1024,
        }
    }
}

/// The columns a table can show.
#[derive(Clone, Copy, Debug, PartialEq, Eq, Structural)]
pub enum ColumnType {
    Filesystem,
    Type,
    Bar,
    Used,
    UsedPercentage,
    Available,
    AvailablePercentage,
    Capacity,
    MountedOn,
}

impl ColumnType {
    /// Heading text of the column. Only the capacity column depends on
    /// whether inodes or bytes are counted.
    pub open spec fn label_text(self, inodes_mode: bool) -> Seq<char> {
        match self {
            ColumnType::Filesystem => "Filesystem"@,
            ColumnType::Type => "Type"@,
            ColumnType::Bar => ""@,
            ColumnType::Used => "Used"@,
            ColumnType::UsedPercentage => "Used%"@,
            ColumnType::Available => "Avail"@,
            ColumnType::AvailablePercentage => "Avail%"@,
            ColumnType::Capacity => if inodes_mode {
                "Inodes"@
            } else {
                "Size"@
            },
            ColumnType::MountedOn => "Mounted on"@,
        }
    }

    /// Text columns are set flush left, number columns flush right.
    pub open spec fn left_justified(self) -> bool {
        self == ColumnType::Filesystem || self == ColumnType::Type || self == ColumnType::Bar
            || self == ColumnType::MountedOn
    }

    /// The columns shown when none are asked for, in display order.
    pub open spec fn default_columns() -> Seq<ColumnType> {
        seq![
            ColumnType::Filesystem,
            ColumnType::Type,
            ColumnType::Bar,
            ColumnType::UsedPercentage,
            ColumnType::Available,
            ColumnType::Used,
            ColumnType::Capacity,
            ColumnType::MountedOn,
        ]
    }

    /// Heading text of the column.
    pub fn label(&self, inodes_mode: bool) -> (r: &'static str)
        ensures
            r@ == self.label_text(inodes_mode),
    {
        match self {
            ColumnType::Filesystem => "Filesystem",
            ColumnType::Type => "Type",
            ColumnType::Bar => "",
            ColumnType::Used => "Used",
            ColumnType::UsedPercentage => "Used%",
            ColumnType::Available => "Avail",
            ColumnType::AvailablePercentage => "Avail%",
            ColumnType::Capacity => {
                if inodes_mode {
                    "Inodes"
                } else {
                    "Size"
                }
            },
            ColumnType::MountedOn => "Mounted on",
        }
    }

    /// Whether cells of the column are padded on the right.
    pub fn is_left_justified(&self) -> (r: bool)
        ensures
            r == self.left_justified(),
    {
        match self {
            ColumnType::Filesystem | ColumnType::Type | ColumnType::Bar | ColumnType::MountedOn => true,
            _ => false,
        }
    }

    /// The columns shown when none are asked for, in display order.
    pub fn defaults() -> (r: Vec<ColumnType>)
        ensures
            r@ == ColumnType::default_columns(),
    {
        vec![
            ColumnType::Filesystem,
            ColumnType::Type,
            ColumnType::Bar,
            ColumnType::UsedPercentage,
            ColumnType::Available,
            ColumnType::Used,
            ColumnType::Capacity,
            ColumnType::MountedOn,
        ]
    }
}

} // verus!
