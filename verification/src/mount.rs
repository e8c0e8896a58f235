//! Mount records and the mount-table parser.

use crate::args::NumberFormat;
use crate::decimal::{
    lemma_numeral_is_word, lemma_parse_decimal, parse_i32, read_i32, signed_decimal,
};
use crate::number::count_text;
use crate::percentage::Percentage;
use crate::text::{chars_of, str_eq, string_of, views};
use crate::theme::{Color, Theme};
use crate::util::{alias_text, format_count, lvm_alias};
use crate::words::{
    is_word, joined, lemma_words_of_joined, lines, split_lines, split_words, words,
};
use vstd::prelude::*;

verus! {

/// Raw counters of one filesystem, as its statistics call reports them.
#[derive(Clone, Copy, Debug, PartialEq, Eq, Structural)]
pub struct FsStats {
    /// Size of a block in bytes.
    pub block_size: u64,
    /// Blocks in the filesystem.
    pub blocks: u64,
    /// Blocks free for unprivileged users.
    pub blocks_available: u64,
    /// Inodes in the filesystem.
    pub files: u64,
    /// Free inodes.
    pub files_free: u64,
}

impl FsStats {
    /// The counters agree with each other in the chosen mode: no more is
    /// free than there is, and byte counts fit in 64 bits.
    pub open spec fn consistent(self, inodes: bool) -> bool {
        if inodes {
            self.files_free <= self.files
        } else {
            self.blocks_available <= self.blocks && self.blocks * self.block_size <= u64::MAX
        }
    }

    /// Capacity in the chosen unit: inodes, or bytes.
    pub open spec fn capacity(self, inodes: bool) -> int {
        if inodes {
            self.files as int
        } else {
            self.blocks * self.block_size
        }
    }

    /// Free amount in the chosen unit: inodes, or bytes.
    pub open spec fn free(self, inodes: bool) -> int {
        if inodes {
            self.files_free as int
        } else {
            self.blocks_available * self.block_size
        }
    }

    /// Capacity and free amount in the chosen unit, where the counters are
    /// consistent.
    pub fn usage(&self, inodes: bool) -> (r: Option<(u64, u64)>)
        ensures
            r is Some <==> self.consistent(inodes),
            r matches Some((capacity, free)) ==> capacity == self.capacity(inodes) && free
                == self.free(inodes) && free <= capacity,
    {
        if inodes {
            if self.files_free <= self.files {
                Some((self.files, self.files_free))
            } else {
                None
            }
        } else {
            if self.blocks_available > self.blocks {
                return None;
            }
            match self.blocks.checked_mul(self.block_size) {
                Some(capacity) => {
                    assert(self.blocks_available * self.block_size <= self.blocks * self.block_size)
                        by (nonlinear_arith)
                        requires
                            self.blocks_available <= self.blocks,
                    ;
                    Some((capacity, self.blocks_available * self.block_size))
                },
                None => None,
            }
        }
    }
}

/// One entry of the mount table, with its usage once that is known.
#[derive(Debug)]
pub struct Mount {
    pub mnt_fsname: String,
    pub mnt_dir: String,
    pub mnt_type: String,
    pub mnt_opts: String,
    pub mnt_freq: i32,
    pub mnt_passno: i32,
    pub capacity: u64,
    pub free: u64,
    pub used: u64,
    pub statfs: Option<FsStats>,
}

/// What a mount record holds, with texts as character sequences.
pub struct MountView {
    pub fsname: Seq<char>,
    pub dir: Seq<char>,
    pub mnt_type: Seq<char>,
    pub opts: Seq<char>,
    pub freq: i32,
    pub passno: i32,
    pub capacity: u64,
    pub free: u64,
    pub used: u64,
    pub statfs: Option<FsStats>,
}

impl MountView {
    /// A record as the parser makes it: six fields, no usage yet.
    pub open spec fn fresh(
        fsname: Seq<char>,
        dir: Seq<char>,
        mnt_type: Seq<char>,
        opts: Seq<char>,
        freq: i32,
        passno: i32,
    ) -> MountView {
        MountView {
            fsname,
            dir,
            mnt_type,
            opts,
            freq,
            passno,
            capacity: 0,
            free: 0,
            used: 0,
            statfs: None,
        }
    }

    /// A synthetic record that stands for no real mount.
    pub open spec fn named(name: Seq<char>) -> MountView {
        MountView::fresh(name, "-"@, "-"@, ""@, 0, 0)
    }

    /// The record after its statistics came in. Statistics that are missing
    /// or inconsistent leave the usage at zero, which reads as unknown.
    pub open spec fn enriched(self, stat: Option<FsStats>, inodes: bool) -> MountView {
        match stat {
            Some(s) if s.consistent(inodes) => MountView {
                capacity: s.capacity(inodes) as u64,
                free: s.free(inodes) as u64,
                used: (s.capacity(inodes) - s.free(inodes)) as u64,
                statfs: stat,
                ..self
            },
            _ => MountView { capacity: 0, free: 0, used: 0, statfs: stat, ..self },
        }
    }

    /// What is used and what is free add up to the capacity.
    pub open spec fn balanced(self) -> bool {
        self.used == self.capacity - self.free
    }

    /// The used share of the capacity, `100 - free * 100 / capacity`
    /// percent. Without a capacity the usage is unknown. Where more is
    /// free than the capacity holds, nothing counts as used.
    pub open spec fn used_share(self) -> Option<Percentage> {
        if self.capacity == 0 {
            None
        } else if self.free <= self.capacity {
            Some(Percentage { part: (self.capacity - self.free) as u64, whole: self.capacity })
        } else {
            Some(Percentage { part: 0, whole: self.capacity })
        }
    }

    /// The free share of the capacity, `free * 100 / capacity` percent.
    /// Without a capacity it is unknown.
    pub open spec fn free_share(self) -> Option<Percentage> {
        if self.capacity == 0 {
            None
        } else {
            Some(Percentage { part: self.free, whole: self.capacity })
        }
    }

    /// The name a listing shows for the filesystem: its friendly name
    /// where it has one and such names are wanted, else its own name.
    pub open spec fn shown_name(self, no_aliases: bool) -> Seq<char> {
        if no_aliases {
            self.fsname
        } else {
            match alias_text(self.fsname) {
                Some(alias) => alias,
                None => self.fsname,
            }
        }
    }
}

/// Filesystem types that are served over a network.
pub open spec fn remote_types() -> Seq<Seq<char>> {
    seq![
        "afs"@,
        "cifs"@,
        "coda"@,
        "ftpfs"@,
        "fuse.sshfs"@,
        "mfs"@,
        "ncpfs"@,
        "nfs"@,
        "nfs4"@,
        "smbfs"@,
        "sshfs"@,
    ]
}

impl View for Mount {
    type V = MountView;

    open spec fn view(&self) -> MountView {
        MountView {
            fsname: self.mnt_fsname@,
            dir: self.mnt_dir@,
            mnt_type: self.mnt_type@,
            opts: self.mnt_opts@,
            freq: self.mnt_freq,
            passno: self.mnt_passno,
            capacity: self.capacity,
            free: self.free,
            used: self.used,
            statfs: self.statfs,
        }
    }
}

impl Clone for Mount {
    fn clone(&self) -> (r: Mount)
        ensures
            r == *self,
    {
        Mount {
            mnt_fsname: self.mnt_fsname.clone(),
            mnt_dir: self.mnt_dir.clone(),
            mnt_type: self.mnt_type.clone(),
            mnt_opts: self.mnt_opts.clone(),
            mnt_freq: self.mnt_freq,
            mnt_passno: self.mnt_passno,
            capacity: self.capacity,
            free: self.free,
            used: self.used,
            statfs: self.statfs,
        }
    }
}

impl Mount {
    /// A record with the six fields of a mount-table line and no usage.
    pub fn new(
        mnt_fsname: String,
        mnt_dir: String,
        mnt_type: String,
        mnt_opts: String,
        mnt_freq: i32,
        mnt_passno: i32,
    ) -> (r: Mount)
        ensures
            r@ == MountView::fresh(
                mnt_fsname@,
                mnt_dir@,
                mnt_type@,
                mnt_opts@,
                mnt_freq,
                mnt_passno,
            ),
    {
        Mount {
            mnt_fsname,
            mnt_dir,
            mnt_type,
            mnt_opts,
            mnt_freq,
            mnt_passno,
            capacity: 0,
            free: 0,
            used: 0,
            statfs: None,
        }
    }

    /// A synthetic record with the given name, `-` for directory and type,
    /// and no usage.
    pub fn named(name: String) -> (r: Mount)
        ensures
            r@ == MountView::named(name@),
    {
        Mount::new(name, String::from_str("-"), String::from_str("-"), String::from_str(""), 0, 0)
    }

    /// The filesystem name as the mount table gives it.
    pub fn fsname(&self) -> (r: String)
        ensures
            r@ == self@.fsname,
    {
        self.mnt_fsname.clone()
    }

    /// The friendly name of the filesystem where it has one, else the
    /// name the mount table gives.
    pub fn fsname_aliased(&self) -> (r: String)
        ensures
            r@ == self@.shown_name(false),
    {
        match lvm_alias(self.mnt_fsname.as_str()) {
            Some(alias) => alias,
            None => self.mnt_fsname.clone(),
        }
    }

    /// The used share of the capacity, or nothing where the capacity is
    /// unknown.
    pub fn used_percentage(&self) -> (r: Option<Percentage>)
        ensures
            r == self@.used_share(),
            r matches Some(p) ==> p.valid(),
    {
        if self.capacity == 0 {
            None
        } else if self.free <= self.capacity {
            Some(Percentage { part: self.capacity - self.free, whole: self.capacity })
        } else {
            Some(Percentage { part: 0, whole: self.capacity })
        }
    }

    /// The free share of the capacity, or nothing where the capacity is
    /// unknown.
    pub fn free_percentage(&self) -> (r: Option<Percentage>)
        ensures
            r == self@.free_share(),
            r matches Some(p) ==> p.valid(),
    {
        if self.capacity == 0 {
            None
        } else {
            Some(Percentage { part: self.free, whole: self.capacity })
        }
    }

    /// The capacity in human-readable form.
    pub fn capacity_formatted(&self, delimiter: &NumberFormat) -> (r: String)
        ensures
            r@ == count_text(self@.capacity as nat, delimiter.powers_of()),
    {
        format_count(self.capacity as u128, delimiter.get_powers_of())
    }

    /// The free amount in human-readable form.
    pub fn free_formatted(&self, delimiter: &NumberFormat) -> (r: String)
        ensures
            r@ == count_text(self@.free as nat, delimiter.powers_of()),
    {
        format_count(self.free as u128, delimiter.get_powers_of())
    }

    /// The used amount in human-readable form.
    pub fn used_formatted(&self, delimiter: &NumberFormat) -> (r: String)
        ensures
            r@ == count_text(self@.used as nat, delimiter.powers_of()),
    {
        format_count(self.used as u128, delimiter.get_powers_of())
    }

    /// The color of the numbers of this mount: that of the level its
    /// usage has in the theme.
    pub fn usage_color(&self, theme: &Theme) -> (r: Color)
        ensures
            r == theme@.usage_color(self@.used_share()),
    {
        theme.usage_color(self.used_percentage())
    }

    /// Whether the filesystem is served over a network.
    pub fn is_remote(&self) -> (r: bool)
        ensures
            r == remote_types().contains(self@.mnt_type),
    {
        let names: [&str; 11] = [
            "afs",
            "cifs",
            "coda",
            "ftpfs",
            "fuse.sshfs",
            "mfs",
            "ncpfs",
            "nfs",
            "nfs4",
            "smbfs",
            "sshfs",
        ];
        let mut i: usize = 0;
        while i < 11
            invariant
                i <= 11,
                names@.len() == 11,
                forall|k: int| 0 <= k < 11 ==> (#[trigger] names@[k])@ == remote_types()[k],
                forall|k: int| 0 <= k < i ==> remote_types()[k] != self@.mnt_type,
            decreases 11 - i,
        {
            if str_eq(self.mnt_type.as_str(), names[i]) {
                assert(remote_types()[i as int] == self@.mnt_type);
                return true;
            }
            i += 1;
        }
        false
    }

    /// Whether the filesystem is on this machine.
    pub fn is_local(&self) -> (r: bool)
        ensures
            r == !remote_types().contains(self@.mnt_type),
    {
        !self.is_remote()
    }

    /// Records the statistics of the mounted filesystem and derives the
    /// usage from them, in inodes or in bytes.
    pub fn enrich(&mut self, stat: Option<FsStats>, inodes: bool)
        ensures
            final(self)@ == old(self)@.enriched(stat, inodes),
            final(self)@.balanced(),
    {
        let usage = match stat {
            Some(s) => s.usage(inodes),
            None => None,
        };
        self.statfs = stat;
        match usage {
            Some((capacity, free)) => {
                self.capacity = capacity;
                self.free = free;
                self.used = capacity - free;
            },
            None => {
                self.capacity = 0;
                self.free = 0;
                self.used = 0;
            },
        }
    }
}


/// The six fields of a mount-table line, in order.
#[derive(Clone, Copy, Debug, PartialEq, Eq, Structural)]
pub enum Field {
    Fsname,
    Dir,
    Type,
    Opts,
    Freq,
    Passno,
}

/// Why a mount-table line could not be read.
#[derive(Clone, Copy, Debug, PartialEq, Eq, Structural)]
pub enum LineError {
    /// The line ends before this field.
    MissingValue(Field),
    /// This field should be a 32-bit integer and is none.
    InvalidNumber(Field),
}

/// Why a mount table could not be read: its first malformed line.
#[derive(Clone, Copy, Debug, PartialEq, Eq, Structural)]
pub struct ParseError {
    /// Index of the line, counted from zero.
    pub line: usize,
    /// What is wrong with the line.
    pub cause: LineError,
}

impl Field {
    /// The name of the field as messages give it.
    pub open spec fn name(self) -> Seq<char> {
        match self {
            Field::Fsname => "fsname"@,
            Field::Dir => "dir"@,
            Field::Type => "type"@,
            Field::Opts => "opts"@,
            Field::Freq => "freq"@,
            Field::Passno => "passno"@,
        }
    }

    /// The name of the field as messages give it.
    pub fn as_str(&self) -> (r: &'static str)
        ensures
            r@ == self.name(),
    {
        match self {
            Field::Fsname => "fsname",
            Field::Dir => "dir",
            Field::Type => "type",
            Field::Opts => "opts",
            Field::Freq => "freq",
            Field::Passno => "passno",
        }
    }
}

impl LineError {
    /// The message for this error.
    pub open spec fn text(self) -> Seq<char> {
        match self {
            LineError::MissingValue(f) => "Missing value "@ + f.name(),
            LineError::InvalidNumber(f) => "Invalid number "@ + f.name(),
        }
    }

    /// The message for this error.
    pub fn message(&self) -> (r: String)
        ensures
            r@ == self.text(),
    {
        match self {
            LineError::MissingValue(f) => String::from_str("Missing value ").concat(f.as_str()),
            LineError::InvalidNumber(f) => String::from_str("Invalid number ").concat(f.as_str()),
        }
    }
}

/// What a mount-table line means. The line is cut into words at
/// whitespace; the first six are the fields, further words are ignored.
/// The fields are looked at in order, and the first that is missing, or
/// is no number where one is due, decides the error.
pub open spec fn parse_line(line: Seq<char>) -> Result<MountView, LineError> {
    let w = words(line);
    if w.len() < 1 {
        Err(LineError::MissingValue(Field::Fsname))
    } else if w.len() < 2 {
        Err(LineError::MissingValue(Field::Dir))
    } else if w.len() < 3 {
        Err(LineError::MissingValue(Field::Type))
    } else if w.len() < 4 {
        Err(LineError::MissingValue(Field::Opts))
    } else if w.len() < 5 {
        Err(LineError::MissingValue(Field::Freq))
    } else if parse_i32(w[4]) is None {
        Err(LineError::InvalidNumber(Field::Freq))
    } else if w.len() < 6 {
        Err(LineError::MissingValue(Field::Passno))
    } else if parse_i32(w[5]) is None {
        Err(LineError::InvalidNumber(Field::Passno))
    } else {
        Ok(MountView::fresh(w[0], w[1], w[2], w[3], parse_i32(w[4])->0, parse_i32(w[5])->0))
    }
}

/// Whether `r` is what `parse_line` says of `line`.
pub open spec fn line_parsed(line: Seq<char>, r: Result<Mount, LineError>) -> bool {
    match r {
        Ok(m) => parse_line(line) == Ok::<MountView, LineError>(m@),
        Err(e) => parse_line(line) == Err::<MountView, LineError>(e),
    }
}

/// Reads one line of a mount table, given as characters.
pub fn parse_mount_chars(line: &[char]) -> (r: Result<Mount, LineError>)
    ensures
        line_parsed(line@, r),
{
    let w = split_words(line);
    assert(views(w@).len() == w@.len());
    assert(forall|k: int| 0 <= k < w@.len() ==> words(line@)[k] == (#[trigger] w@[k])@) by {
        assert forall|k: int| 0 <= k < w@.len() implies words(line@)[k] == (#[trigger] w@[k])@ by {
            assert(views(w@)[k] == w@[k]@);
        }
    }
    if w.len() < 1 {
        return Err(LineError::MissingValue(Field::Fsname));
    }
    if w.len() < 2 {
        return Err(LineError::MissingValue(Field::Dir));
    }
    if w.len() < 3 {
        return Err(LineError::MissingValue(Field::Type));
    }
    if w.len() < 4 {
        return Err(LineError::MissingValue(Field::Opts));
    }
    if w.len() < 5 {
        return Err(LineError::MissingValue(Field::Freq));
    }
    let freq = match read_i32(w[4].as_slice()) {
        Some(n) => n,
        None => {
            return Err(LineError::InvalidNumber(Field::Freq));
        },
    };
    if w.len() < 6 {
        return Err(LineError::MissingValue(Field::Passno));
    }
    let passno = match read_i32(w[5].as_slice()) {
        Some(n) => n,
        None => {
            return Err(LineError::InvalidNumber(Field::Passno));
        },
    };
    Ok(
        Mount::new(
            string_of(w[0].as_slice()),
            string_of(w[1].as_slice()),
            string_of(w[2].as_slice()),
            string_of(w[3].as_slice()),
            freq,
            passno,
        ),
    )
}

/// Reads one line of a mount table: file system name, directory, type,
/// options, dump frequency and pass number, separated by whitespace.
pub fn parse_mount_line(line: &str) -> (r: Result<Mount, LineError>)
    ensures
        line_parsed(line@, r),
{
    let chars = chars_of(line);
    parse_mount_chars(chars.as_slice())
}

/// Whether `r` is the outcome of reading the lines `ls` in order and
/// stopping at the first that is malformed: either every line was read
/// and `r` holds their records in file order, or `r` names the first
/// malformed line and what is wrong with it.
pub open spec fn table_parsed(ls: Seq<Seq<char>>, r: Result<Vec<Mount>, ParseError>) -> bool {
    match r {
        Ok(v) => {
            &&& v@.len() == ls.len()
            &&& forall|i: int|
                0 <= i < ls.len() ==> parse_line(ls[i]) == Ok::<MountView, LineError>(
                    (#[trigger] v@[i])@,
                )
        },
        Err(e) => {
            &&& e.line < ls.len()
            &&& parse_line(ls[e.line as int]) == Err::<MountView, LineError>(e.cause)
            &&& forall|j: int| 0 <= j < e.line ==> (#[trigger] parse_line(ls[j])) is Ok
        },
    }
}

/// Reads a mount table, one mount per line, in file order. The first
/// malformed line ends the reading with an error; an empty line is
/// malformed. Lines end at a line feed; a carriage return before it is
/// whitespace and so part of no field.
pub fn parse_mounts(text: &str) -> (r: Result<Vec<Mount>, ParseError>)
    ensures
        table_parsed(lines(text@), r),
{
    let chars = chars_of(text);
    let ls = split_lines(chars.as_slice());
    let ghost spec_lines = lines(text@);
    assert(views(ls@).len() == ls@.len());
    let mut out: Vec<Mount> = Vec::new();
    let mut i: usize = 0;
    while i < ls.len()
        invariant
            i <= ls@.len(),
            views(ls@) == spec_lines,
            spec_lines == lines(text@),
            out@.len() == i,
            forall|k: int|
                0 <= k < i ==> parse_line(spec_lines[k]) == Ok::<MountView, LineError>(
                    (#[trigger] out@[k])@,
                ),
        decreases ls@.len() - i,
    {
        assert(views(ls@)[i as int] == ls@[i as int]@);
        match parse_mount_chars(ls[i].as_slice()) {
            Ok(m) => {
                out.push(m);
            },
            Err(cause) => {
                assert forall|j: int| 0 <= j < i implies (#[trigger] parse_line(
                    spec_lines[j],
                )) is Ok by {
                    assert(parse_line(spec_lines[j]) == Ok::<MountView, LineError>(out@[j]@));
                }
                return Err(ParseError { line: i, cause });
            },
        }
        i += 1;
    }
    Ok(out)
}


/// Parsing keeps the fields of a well-formed line as they are: a line
/// made of four words and two numbers in decimal notation, set apart by
/// spaces, is read as the record with exactly these fields.
pub proof fn lemma_parse_keeps_fields(
    fsname: Seq<char>,
    dir: Seq<char>,
    mnt_type: Seq<char>,
    opts: Seq<char>,
    freq: i32,
    passno: i32,
)
    requires
        is_word(fsname),
        is_word(dir),
        is_word(mnt_type),
        is_word(opts),
    ensures
        parse_line(
            joined(
                seq![
                    fsname,
                    dir,
                    mnt_type,
                    opts,
                    signed_decimal(freq as int),
                    signed_decimal(passno as int),
                ],
            ),
        ) == Ok::<MountView, LineError>(
            MountView::fresh(fsname, dir, mnt_type, opts, freq, passno),
        ),
{
    let fields = seq![
        fsname,
        dir,
        mnt_type,
        opts,
        signed_decimal(freq as int),
        signed_decimal(passno as int),
    ];
    lemma_parse_decimal(freq);
    lemma_parse_decimal(passno);
    lemma_numeral_is_word(signed_decimal(freq as int));
    lemma_numeral_is_word(signed_decimal(passno as int));
    lemma_words_of_joined(fields);
}

} // verus!
