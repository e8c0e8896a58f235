//! The stages between the mount table and the rows of a listing: which
//! mounts are shown, which of them the given paths belong to, and in what
//! order they stand.

use crate::args::DisplayFilter;
use crate::mount::{remote_types, FsStats, Mount, MountView};
use crate::util::{
    best_match, best_mount_index, calc_total, capacity_sum, free_sum, is_listed_before,
    mnt_matches_filter, pattern_matches, sorts_before, sums_fit, totals_fit, used_sum,
};
use crate::text::{lemma_lex_irreflexive, lemma_lex_total, lemma_lex_transitive, lex_less};
use vstd::prelude::*;

verus! {

/// Whether a tier lists a filesystem name: the name matches one of the
/// patterns of the tier.
pub open spec fn filter_accepts(filter: DisplayFilter, name: Seq<char>) -> bool {
    exists|k: int|
        0 <= k < filter.patterns().len() && pattern_matches(name, #[trigger] filter.patterns()[k])
}

/// Whether a mount is shown: its tier lists its name, and it is local
/// where only local filesystems are wanted.
pub open spec fn is_shown(mount: MountView, filter: DisplayFilter, local_only: bool) -> bool {
    filter_accepts(filter, mount.fsname) && (local_only ==> !remote_types().contains(
        mount.mnt_type,
    ))
}

/// `is_shown` as a predicate on mounts.
pub open spec fn shown(filter: DisplayFilter, local_only: bool) -> spec_fn(Mount) -> bool {
    |m: Mount| is_shown(m@, filter, local_only)
}

/// Whether the tier lists the filesystem name of a mount.
pub fn is_accepted(mnt: &Mount, filter: &DisplayFilter) -> (r: bool)
    ensures
        r == filter_accepts(*filter, mnt@.fsname),
{
    let patterns = filter.get_mnt_fsname_filter();
    let mut k: usize = 0;
    while k < patterns.len()
        invariant
            k <= patterns@.len(),
            patterns@.len() == filter.patterns().len(),
            forall|i: int|
                0 <= i < patterns@.len() ==> (#[trigger] patterns@[i])@ == filter.patterns()[i],
            forall|i: int|
                0 <= i < k ==> !pattern_matches(mnt@.fsname, #[trigger] filter.patterns()[i]),
        decreases patterns@.len() - k,
    {
        if mnt_matches_filter(mnt, patterns[k]) {
            assert(pattern_matches(mnt@.fsname, filter.patterns()[k as int]));
            return true;
        }
        k += 1;
    }
    false
}

/// Whether a mount is shown.
pub fn is_visible(mnt: &Mount, filter: &DisplayFilter, local_only: bool) -> (r: bool)
    ensures
        r == is_shown(mnt@, *filter, local_only),
{
    is_accepted(mnt, filter) && (!local_only || mnt.is_local())
}

/// The mounts that are shown, in the order of the mount table.
pub fn filter_mounts(mnts: &[Mount], filter: &DisplayFilter, local_only: bool) -> (r: Vec<Mount>)
    ensures
        r@ == mnts@.filter(shown(*filter, local_only)),
{
    let mut r: Vec<Mount> = Vec::new();
    let mut i: usize = 0;
    proof {
        reveal(Seq::filter);
    }
    while i < mnts.len()
        invariant
            i <= mnts@.len(),
            r@ == mnts@.take(i as int).filter(shown(*filter, local_only)),
        decreases mnts@.len() - i,
    {
        proof {
            reveal(Seq::filter);
            assert(mnts@.take(i + 1).drop_last() == mnts@.take(i as int));
        }
        if is_visible(&mnts[i], filter, local_only) {
            r.push(mnts[i].clone());
        }
        i += 1;
    }
    assert(mnts@.take(mnts@.len() as int) == mnts@);
    r
}

/// The mount each path belongs to, in the order of the paths. A path
/// that no mount covers adds nothing.
pub open spec fn resolved(paths: Seq<Seq<char>>, mounts: Seq<Mount>) -> Seq<Mount>
    decreases paths.len(),
{
    if paths.len() == 0 {
        Seq::empty()
    } else {
        match best_match(paths.last(), mounts) {
            Some(i) => resolved(paths.drop_last(), mounts).push(mounts[i]),
            None => resolved(paths.drop_last(), mounts),
        }
    }
}

/// For each path, in order, the mount it belongs to. Paths are expected
/// in canonical form. A path that lies below no mount is passed over.
pub fn resolve_paths(paths: &[String], mnts: &[Mount]) -> (r: Vec<Mount>)
    ensures
        r@ == resolved(Seq::new(paths@.len(), |i: int| paths@[i]@), mnts@),
{
    let ghost texts = Seq::new(paths@.len(), |i: int| paths@[i]@);
    let mut r: Vec<Mount> = Vec::new();
    let mut i: usize = 0;
    while i < paths.len()
        invariant
            i <= paths@.len(),
            texts == Seq::new(paths@.len(), |i: int| paths@[i]@),
            r@ == resolved(texts.take(i as int), mnts@),
        decreases paths@.len() - i,
    {
        assert(texts.take(i + 1).drop_last() == texts.take(i as int));
        match best_mount_index(paths[i].as_str(), mnts) {
            Some(k) => {
                r.push(mnts[k].clone());
            },
            None => {},
        }
        i += 1;
    }
    assert(texts.take(paths@.len() as int) == texts);
    r
}

/// Whether `order` says where each mount of a sorted listing came from:
/// it names an index of `input` for each place, and going down the
/// listing a mount comes before the next in the order of listings, or
/// ties with it and stood before it in `input`.
pub open spec fn is_stable_order(input: Seq<Mount>, order: Seq<int>) -> bool {
    &&& order.len() == input.len()
    &&& forall|k: int| 0 <= k < order.len() ==> 0 <= #[trigger] order[k] < input.len()
    &&& forall|k: int, l: int|
        0 <= k < l < order.len() ==> {
            ||| sorts_before(input[#[trigger] order[k]]@, input[#[trigger] order[l]]@)
            ||| (!sorts_before(input[order[l]]@, input[order[k]]@) && order[k] < order[l])
        }
}

/// Whether `output` is `input` sorted for a listing: the same mounts,
/// those with a capacity first and those without last, each group by
/// directory in the order of a dictionary, and mounts that tie in the
/// order they had.
pub open spec fn is_sorted_listing(input: Seq<Mount>, output: Seq<Mount>) -> bool {
    exists|order: Seq<int>|
        {
            &&& is_stable_order(input, order)
            &&& output.len() == input.len()
            &&& forall|k: int| 0 <= k < output.len() ==> output[k] == input[#[trigger] order[k]]
        }
}

/// The order of listings is strict: no mount comes before itself.
pub proof fn lemma_sorts_before_irreflexive(a: MountView)
    ensures
        !sorts_before(a, a),
{
    lemma_lex_irreflexive(a.dir);
}

/// What does not come before a mount does not come before those that
/// the mount does not come after.
pub proof fn lemma_sorts_before_chain(a: MountView, b: MountView, c: MountView)
    ensures
        sorts_before(a, b) && sorts_before(b, c) ==> sorts_before(a, c),
        sorts_before(a, c) ==> sorts_before(a, b) || sorts_before(b, c),
{
    lemma_lex_total(a.dir, b.dir);
    lemma_lex_total(b.dir, c.dir);
    if lex_less(a.dir, b.dir) && lex_less(b.dir, c.dir) {
        lemma_lex_transitive(a.dir, b.dir, c.dir);
    }
    if lex_less(a.dir, c.dir) && lex_less(b.dir, a.dir) {
        lemma_lex_transitive(b.dir, a.dir, c.dir);
    }
}

/// In a sorted listing a mount without a capacity never stands before
/// one with a capacity, and of two mounts that both have a capacity, or
/// both have none, the later one never has the directory that comes
/// first in the order of a dictionary.
pub proof fn lemma_sorted_listing_order(input: Seq<Mount>, output: Seq<Mount>, k: int, l: int)
    requires
        is_sorted_listing(input, output),
        0 <= k < l < output.len(),
    ensures
        !sorts_before(output[l]@, output[k]@),
        output[k]@.capacity == 0 ==> output[l]@.capacity == 0,
        (output[k]@.capacity == 0) == (output[l]@.capacity == 0) ==> !lex_less(
            output[l]@.dir,
            output[k]@.dir,
        ),
{
    let order = choose|order: Seq<int>|
        {
            &&& is_stable_order(input, order)
            &&& output.len() == input.len()
            &&& forall|k: int| 0 <= k < output.len() ==> output[k] == input[#[trigger] order[k]]
        };
    assert(output[k] == input[order[k]]);
    assert(output[l] == input[order[l]]);
    lemma_sorts_before_chain(output[l]@, output[k]@, output[l]@);
    lemma_sorts_before_irreflexive(output[l]@);
}

/// Sorts mounts for a listing: mounts with a capacity first, each group
/// by directory. Mounts that tie keep their order.
pub fn sort_mounts(mnts: &[Mount]) -> (r: Vec<Mount>)
    ensures
        is_sorted_listing(mnts@, r@),
{
    let mut r: Vec<Mount> = Vec::new();
    let ghost mut order: Seq<int> = Seq::empty();
    let mut i: usize = 0;
    while i < mnts.len()
        invariant
            i <= mnts@.len(),
            r@.len() == i,
            order.len() == i,
            forall|k: int| 0 <= k < i ==> 0 <= #[trigger] order[k] < i,
            forall|k: int| 0 <= k < i ==> r@[k] == mnts@[#[trigger] order[k]],
            forall|k: int, l: int|
                0 <= k < l < i ==> {
                    ||| sorts_before(mnts@[#[trigger] order[k]]@, mnts@[#[trigger] order[l]]@)
                    ||| (!sorts_before(mnts@[order[l]]@, mnts@[order[k]]@) && order[k] < order[l])
                },
        decreases mnts@.len() - i,
    {
        let mut at: usize = i;
        while at > 0 && is_listed_before(&mnts[i], &r[at - 1])
            invariant
                at <= i,
                i < mnts@.len(),
                r@.len() == i,
                forall|k: int| at <= k < i ==> sorts_before(mnts@[i as int]@, (#[trigger] r@[k])@),
            decreases at,
        {
            at -= 1;
        }
        let ghost old_order = order;
        let ghost old_r = r@;
        r.insert(at, mnts[i].clone());
        proof {
            order = old_order.insert(at as int, i as int);
            let x = mnts@[i as int]@;
            assert forall|k: int, l: int| 0 <= k < l < i + 1 implies {
                ||| sorts_before(mnts@[#[trigger] order[k]]@, mnts@[#[trigger] order[l]]@)
                ||| (!sorts_before(mnts@[order[l]]@, mnts@[order[k]]@) && order[k] < order[l])
            } by {
                if l == at {
                    // k stands before the new mount
                    assert(old_r[k] == mnts@[old_order[k]]);
                    if at > 0 {
                        assert(old_r[at - 1] == mnts@[old_order[at - 1]]);
                        let b = old_r[at - 1]@;
                        let a = old_r[k]@;
                        // a does not come after b, and the new mount does not come before b
                        lemma_sorts_before_chain(x, a, b);
                        lemma_sorts_before_chain(x, b, a);
                        lemma_sorts_before_chain(a, b, x);
                    }
                } else if k == at {
                    // the new mount stands before l
                    assert(old_r[l - 1] == mnts@[old_order[l - 1]]);
                    assert(sorts_before(x, old_r[l - 1]@));
                } else {
                    let k0 = if k < at {
                        k
                    } else {
                        k - 1
                    };
                    let l0 = if l < at {
                        l
                    } else {
                        l - 1
                    };
                    assert(order[k] == old_order[k0] && order[l] == old_order[l0]);
                }
            }
            assert forall|k: int| 0 <= k < i + 1 implies r@[k] == mnts@[#[trigger] order[k]] by {
                if k < at {
                    assert(order[k] == old_order[k]);
                } else if k > at {
                    assert(order[k] == old_order[k - 1]);
                }
            }
        }
        i += 1;
    }
    proof {
        assert(is_stable_order(mnts@, order));
    }
    r
}


/// Records the statistics of each mount, in order: the mount at an index
/// gets the statistics at that index, which are missing where they could
/// not be had.
pub fn enrich_mounts(mnts: &[Mount], stats: &[Option<FsStats>], inodes: bool) -> (r: Vec<Mount>)
    requires
        stats@.len() == mnts@.len(),
    ensures
        r@.len() == mnts@.len(),
        forall|i: int|
            0 <= i < r@.len() ==> (#[trigger] r@[i])@ == mnts@[i]@.enriched(stats@[i], inodes),
        forall|i: int| 0 <= i < r@.len() ==> (#[trigger] r@[i])@.balanced(),
{
    let mut r: Vec<Mount> = Vec::new();
    let mut i: usize = 0;
    while i < mnts.len()
        invariant
            i <= mnts@.len(),
            stats@.len() == mnts@.len(),
            r@.len() == i,
            forall|k: int|
                0 <= k < i ==> (#[trigger] r@[k])@ == mnts@[k]@.enriched(stats@[k], inodes),
            forall|k: int| 0 <= k < i ==> (#[trigger] r@[k])@.balanced(),
        decreases mnts@.len() - i,
    {
        let mut m = mnts[i].clone();
        m.enrich(stats[i], inodes);
        r.push(m);
        i += 1;
    }
    r
}

/// Whether `output` holds the mounts of a listing in order. Where paths
/// were asked for, these are the mounts the paths belong to, in the
/// order of the paths; otherwise they are all mounts, sorted.
pub open spec fn is_selection(
    mounts: Seq<Mount>,
    by_path: bool,
    paths: Seq<Seq<char>>,
    output: Seq<Mount>,
) -> bool {
    if by_path {
        output == resolved(paths, mounts)
    } else {
        is_sorted_listing(mounts, output)
    }
}

/// The mounts of a listing, in order. `by_path` says whether paths were
/// asked for; `paths` holds those of them that could be made canonical.
pub fn select_mounts(mnts: &[Mount], by_path: bool, paths: &[String]) -> (r: Vec<Mount>)
    ensures
        is_selection(mnts@, by_path, Seq::new(paths@.len(), |i: int| paths@[i]@), r@),
{
    if by_path {
        resolve_paths(paths, mnts)
    } else {
        sort_mounts(mnts)
    }
}

/// Appends the record that sums up the mounts, unless a sum does not
/// fit in 64 bits: then the mounts stay as they are. Says whether the
/// record was appended.
pub fn push_total(mnts: &mut Vec<Mount>) -> (r: bool)
    ensures
        r == sums_fit(old(mnts)@),
        !r ==> final(mnts)@ == old(mnts)@,
        r ==> final(mnts)@.len() == old(mnts)@.len() + 1 && final(mnts)@.drop_last() == old(
            mnts,
        )@ && final(mnts)@.last()@ == (MountView {
            free: free_sum(old(mnts)@) as u64,
            used: used_sum(old(mnts)@) as u64,
            capacity: capacity_sum(old(mnts)@) as u64,
            ..MountView::named("total"@)
        }),
{
    if totals_fit(mnts.as_slice()) {
        let total = calc_total(mnts.as_slice());
        mnts.push(total);
        assert(mnts@.drop_last() == old(mnts)@);
        true
    } else {
        false
    }
}

/// The lowest tier lists `storage` and every name that begins with
/// `/dev`; it does not list `tmpfs`.
pub proof fn lemma_minimal_tier(name: Seq<char>)
    ensures
        "/dev"@.is_prefix_of(name) ==> filter_accepts(DisplayFilter::Minimal, name),
        name == "storage"@ ==> filter_accepts(DisplayFilter::Minimal, name),
        !filter_accepts(DisplayFilter::Minimal, "tmpfs"@),
{
    reveal_strlit("/dev*");
    reveal_strlit("/dev");
    reveal_strlit("storage");
    reveal_strlit("tmpfs");
    let patterns = DisplayFilter::Minimal.patterns();
    assert(patterns[0] == "/dev*"@);
    assert(patterns[1] == "storage"@);
    assert("/dev*"@.drop_last() =~= "/dev"@);
    if "/dev"@.is_prefix_of(name) {
        assert(pattern_matches(name, patterns[0]));
    }
    if name == "storage"@ {
        assert(pattern_matches(name, patterns[1]));
    }
    assert("tmpfs"@[0] != "/dev"@[0]);
    assert("tmpfs"@.len() != "storage"@.len());
    assert(!pattern_matches("tmpfs"@, patterns[0])) by {
        if "/dev"@.is_prefix_of("tmpfs"@) {
            assert("tmpfs"@.subrange(0, 4)[0] == "/dev"@[0]);
        }
    }
    assert(!pattern_matches("tmpfs"@, patterns[1]));
}

} // verus!
