//! Crop presets: detecting them from page sizes, applying, resizing and
//! deleting them, and keeping page references consistent.

use vstd::prelude::*;
use crate::text::{decimal, push_decimal};
use crate::project::{CropBox, CropPreset, CropPresetView, Page, PageView, Project, ProjectView, page_with, preset_name, make_preset_name};

verus! {

/// Whether a rotation turns the page on its side.
pub open spec fn quarter_turned(rotation: u16) -> bool {
    rotation % 360 == 90 || rotation % 360 == 270
}

/// The size of an image of size `d` once rotated by `rotation` degrees.
pub open spec fn oriented_dims(d: (u32, u32), rotation: u16) -> (u32, u32) {
    if quarter_turned(rotation) {
        (d.1, d.0)
    } else {
        d
    }
}

/// The image size of a page after its rotation.
pub fn oriented_size(d: (u32, u32), rotation: u16) -> (r: (u32, u32))
    ensures
        r == oriented_dims(d, rotation),
{
    let q = rotation % 360;
    if q == 90 || q == 270 {
        (d.1, d.0)
    } else {
        d
    }
}

/// Page `i` takes part in preset detection: its image size is known and
/// neither side is zero.
pub open spec fn detect_eligible(p: ProjectView, dims: Seq<(u32, u32)>, i: int) -> bool {
    &&& 0 <= i < p.pages.len()
    &&& i < dims.len()
    &&& dims[i].0 > 0
    &&& dims[i].1 > 0
}

/// The detected (rotated) size of page `i`.
pub open spec fn detected_size(p: ProjectView, dims: Seq<(u32, u32)>, i: int) -> (u32, u32) {
    oriented_dims(dims[i], p.pages[i].rotation)
}

/// The eligible pages among the first `n` whose detected size is `d`, in order.
pub open spec fn pages_sized(p: ProjectView, dims: Seq<(u32, u32)>, d: (u32, u32), n: nat) -> Seq<int>
    decreases n,
{
    if n == 0 {
        Seq::empty()
    } else {
        let prev = pages_sized(p, dims, d, (n - 1) as nat);
        if detect_eligible(p, dims, n - 1) && detected_size(p, dims, n - 1) == d {
            prev.push(n - 1)
        } else {
            prev
        }
    }
}

/// Number of pages of detected size `d`.
pub open spec fn size_count(p: ProjectView, dims: Seq<(u32, u32)>, d: (u32, u32)) -> nat {
    pages_sized(p, dims, d, p.pages.len()).len()
}

/// The first page of detected size `d`.
pub open spec fn size_first_page(p: ProjectView, dims: Seq<(u32, u32)>, d: (u32, u32)) -> int {
    pages_sized(p, dims, d, p.pages.len())[0]
}

/// The full-image crop box of size `d`.
pub open spec fn full_box(d: (u32, u32)) -> CropBox {
    CropBox { x: 0, y: 0, w: d.0, h: d.1 }
}

/// The size of a preset.
pub open spec fn preset_size(c: CropPresetView) -> (u32, u32) {
    (c.w, c.h)
}

/// What automatic detection produces from `old`: one unlocked preset per
/// distinct detected page size, named "Preset 1", "Preset 2", ..., ordered
/// from the most used size to the least used one (ties: the size seen first
/// comes first); every eligible page refers to the preset of its size and is
/// cropped to the whole image; other pages are untouched.
pub open spec fn detection_result(old: ProjectView, dims: Seq<(u32, u32)>, new: ProjectView) -> bool {
    let presets = new.presets;
    &&& new.pages.len() == old.pages.len()
    &&& forall|k: int| 0 <= k < presets.len() ==> {
        &&& (#[trigger] presets[k]).name == preset_name(k as nat)
        &&& !presets[k].locked
        &&& size_count(old, dims, preset_size(presets[k])) > 0
    }
    &&& forall|k1: int, k2: int|
        0 <= k1 < k2 < presets.len() ==> preset_size(#[trigger] presets[k1]) != preset_size(
            #[trigger] presets[k2],
        )
    &&& forall|k: int|
        0 <= k < presets.len() - 1 ==> {
            let c1 = size_count(old, dims, preset_size(#[trigger] presets[k]));
            let c2 = size_count(old, dims, preset_size(presets[k + 1]));
            &&& c1 >= c2
            &&& c1 == c2 ==> size_first_page(old, dims, preset_size(presets[k]))
                < size_first_page(old, dims, preset_size(presets[k + 1]))
        }
    &&& forall|i: int| 0 <= i < old.pages.len() ==> #[trigger] page_detected(old, dims, new, i)
}

/// Page `i` after detection: an eligible page refers to the preset of its
/// size and is cropped to the whole image; any other page is unchanged.
pub open spec fn page_detected(old: ProjectView, dims: Seq<(u32, u32)>, new: ProjectView, i: int) -> bool {
    if detect_eligible(old, dims, i) {
        exists|k: int|
            0 <= k < new.presets.len() && preset_size(new.presets[k]) == detected_size(old, dims, i)
                && new.pages[i] == page_with(
                old.pages[i],
                Some(k as usize),
                Some(full_box(detected_size(old, dims, i))),
            )
    } else {
        new.pages[i] == old.pages[i]
    }
}

proof fn lemma_pages_sized_members(p: ProjectView, dims: Seq<(u32, u32)>, d: (u32, u32), n: nat)
    ensures
        forall|k: int|
            0 <= k < pages_sized(p, dims, d, n).len() ==> {
                let j = #[trigger] pages_sized(p, dims, d, n)[k];
                &&& 0 <= j < n
                &&& detect_eligible(p, dims, j)
                &&& detected_size(p, dims, j) == d
            },
        forall|j: int|
            0 <= j < n && detect_eligible(p, dims, j) && detected_size(p, dims, j) == d
                ==> pages_sized(p, dims, d, n).contains(j),
    decreases n,
{
    if n > 0 {
        lemma_pages_sized_members(p, dims, d, (n - 1) as nat);
        let prev = pages_sized(p, dims, d, (n - 1) as nat);
        let cur = pages_sized(p, dims, d, n);
        assert forall|j: int|
            0 <= j < n && detect_eligible(p, dims, j) && detected_size(p, dims, j) == d
                implies cur.contains(j) by {
            if j < n - 1 {
                let k = choose|k: int| 0 <= k < prev.len() && prev[k] == j;
                if detect_eligible(p, dims, n - 1) && detected_size(p, dims, n - 1) == d {
                    assert(cur[k] == j);
                }
            } else {
                assert(cur[cur.len() - 1] == j);
            }
        }
    }
}

proof fn lemma_pages_sized_prefix(p: ProjectView, dims: Seq<(u32, u32)>, d: (u32, u32), m: nat, n: nat)
    requires
        m <= n,
    ensures
        pages_sized(p, dims, d, m).len() <= pages_sized(p, dims, d, n).len(),
        forall|k: int|
            0 <= k < pages_sized(p, dims, d, m).len() ==> #[trigger] pages_sized(p, dims, d, n)[k]
                == pages_sized(p, dims, d, m)[k],
    decreases n - m,
{
    if m < n {
        lemma_pages_sized_prefix(p, dims, d, m, (n - 1) as nat);
    }
}

/// Whether group `a` comes before group `b`: used more, or as much and seen first.
spec fn group_precedes(counts: Seq<usize>, a: int, b: int) -> bool {
    counts[a] > counts[b] || (counts[a] == counts[b] && a < b)
}

/// Group the eligible pages by detected size. Returns the distinct sizes in
/// order of first appearance, the number of pages of each, and for every page
/// its group (or `usize::MAX`).
fn group_page_sizes(project: &Project, dims: &Vec<(u32, u32)>) -> (r: (
    Vec<(u32, u32)>,
    Vec<usize>,
    Vec<usize>,
))
    ensures
        ({
            let (keys, counts, group_of) = r;
            let p = project@;
            let n = p.pages.len();
            &&& keys.len() == counts.len()
            &&& group_of.len() == n
            &&& forall|g: int|
                0 <= g < keys.len() ==> #[trigger] counts[g] == pages_sized(
                    p,
                    dims@,
                    keys[g],
                    n,
                ).len() && counts[g] > 0
            &&& forall|g1: int, g2: int|
                0 <= g1 < g2 < keys.len() ==> #[trigger] keys[g1] != #[trigger] keys[g2]
                    && pages_sized(p, dims@, keys[g1], n)[0] < pages_sized(
                    p,
                    dims@,
                    keys[g2],
                    n,
                )[0]
            &&& forall|j: int|
                0 <= j < n ==> if detect_eligible(p, dims@, j) {
                    (#[trigger] group_of[j]) < keys.len() && keys[group_of[j] as int]
                        == detected_size(p, dims@, j)
                } else {
                    group_of[j] == usize::MAX
                }
        }),
{
    let n = project.pages.len();
    let ghost p = project@;
    let mut keys: Vec<(u32, u32)> = Vec::new();
    let mut counts: Vec<usize> = Vec::new();
    let mut group_of: Vec<usize> = Vec::new();
    for i in 0..n
        invariant
            n == project.pages.len(),
            p == project@,
            keys.len() == counts.len(),
            group_of.len() == i,
            keys.len() <= i,
            forall|g: int|
                0 <= g < keys.len() ==> #[trigger] counts[g] == pages_sized(
                    p,
                    dims@,
                    keys[g],
                    i as nat,
                ).len() && counts[g] > 0,
            forall|g1: int, g2: int|
                0 <= g1 < g2 < keys.len() ==> #[trigger] keys[g1] != #[trigger] keys[g2]
                    && pages_sized(p, dims@, keys[g1], i as nat)[0] < pages_sized(
                    p,
                    dims@,
                    keys[g2],
                    i as nat,
                )[0],
            forall|j: int|
                0 <= j < i ==> if detect_eligible(p, dims@, j) {
                    (#[trigger] group_of[j]) < keys.len() && keys[group_of[j] as int]
                        == detected_size(p, dims@, j)
                } else {
                    group_of[j] == usize::MAX
                },
    {
        proof {
            assert forall|g: int| 0 <= g < keys.len() implies pages_sized(p, dims@, keys[g], i as nat).len() > 0
                && pages_sized(p, dims@, keys[g], i as nat)[0] < i by {
                assert(counts[g] > 0);
                lemma_pages_sized_members(p, dims@, keys[g], i as nat);
                let first = pages_sized(p, dims@, keys[g], i as nat)[0];
                assert(0 <= first < i);
            }
        }
        let eligible = i < dims.len() && dims[i].0 > 0 && dims[i].1 > 0;
        if eligible {
            assert(p.pages[i as int] == project.pages@[i as int]@);
            let d = oriented_size(dims[i], project.pages[i].rotation);
            assert(d == detected_size(p, dims@, i as int));
            let mut g: usize = 0;
            let mut found = false;
            while g < keys.len() && !found
                invariant
                    g <= keys.len(),
                    forall|h: int| 0 <= h < g ==> keys[h] != d,
                    found ==> g < keys.len() && keys[g as int] == d,
                decreases keys.len() - g + (if found { 0int } else { 1int }),
            {
                let k = keys[g];
                if k.0 == d.0 && k.1 == d.1 {
                    found = true;
                } else {
                    g = g + 1;
                }
            }
            if found {
                let c = counts[g];
                proof {
                    lemma_pages_sized_members(p, dims@, d, i as nat);
                    lemma_pages_sized_members(p, dims@, d, (i + 1) as nat);
                }
                assert(c < usize::MAX) by {
                    lemma_pages_sized_members(p, dims@, d, i as nat);
                    lemma_pages_sized_distinct_len(p, dims@, d, i as nat);
                }
                counts.set(g, c + 1);
                group_of.push(g);
                proof {
                    assert forall|h: int| 0 <= h < keys.len() && h != g implies
                        pages_sized(p, dims@, keys[h], (i + 1) as nat) == pages_sized(p, dims@, keys[h], i as nat) by {
                    }
                    assert forall|g1: int, g2: int|
                        0 <= g1 < g2 < keys.len() implies pages_sized(p, dims@, keys[g1], (i + 1) as nat)[0]
                            < pages_sized(p, dims@, keys[g2], (i + 1) as nat)[0] by {
                        lemma_pages_sized_prefix(p, dims@, keys[g1], i as nat, (i + 1) as nat);
                        lemma_pages_sized_prefix(p, dims@, keys[g2], i as nat, (i + 1) as nat);
                    }
                }
            } else {
                proof {
                    // No earlier page has this size, so it starts a new group.
                    lemma_pages_sized_members(p, dims@, d, i as nat);
                    if pages_sized(p, dims@, d, i as nat).len() > 0 {
                        let j = pages_sized(p, dims@, d, i as nat)[0];
                        assert(group_of[j] < keys.len());
                        assert(keys[group_of[j] as int] == d);
                        assert(false);
                    }
                    assert(pages_sized(p, dims@, d, (i + 1) as nat) =~= seq![i as int]);
                }
                let old_len = keys.len();
                keys.push(d);
                counts.push(1);
                group_of.push(old_len);
                proof {
                    assert forall|h: int| 0 <= h < old_len as int implies
                        pages_sized(p, dims@, keys[h], (i + 1) as nat) == pages_sized(p, dims@, keys[h], i as nat) by {
                    }
                }
            }
        } else {
            group_of.push(usize::MAX);
            proof {
                assert forall|h: int| 0 <= h < keys.len() implies
                    pages_sized(p, dims@, keys[h], (i + 1) as nat) == pages_sized(p, dims@, keys[h], i as nat) by {
                }
            }
        }
    }
    (keys, counts, group_of)
}

proof fn lemma_pages_sized_distinct_len(p: ProjectView, dims: Seq<(u32, u32)>, d: (u32, u32), n: nat)
    ensures
        pages_sized(p, dims, d, n).len() <= n,
    decreases n,
{
    if n > 0 {
        lemma_pages_sized_distinct_len(p, dims, d, (n - 1) as nat);
    }
}


/// The groups ordered from the most used to the least used; among groups used
/// equally often, the earlier group comes first.
fn order_groups(counts: &Vec<usize>) -> (order: Vec<usize>)
    ensures
        order.len() == counts.len(),
        order@.no_duplicates(),
        forall|s: int| 0 <= s < order.len() ==> (#[trigger] order[s]) < counts.len(),
        forall|g: usize| g < counts.len() ==> #[trigger] order@.contains(g),
        forall|s: int|
            0 <= s < order.len() - 1 ==> group_precedes(counts@, #[trigger] order[s] as int, order[s + 1] as int),
{
    let n = counts.len();
    let mut remaining: Vec<usize> = Vec::new();
    for g in 0..n
        invariant
            remaining.len() == g,
            forall|k: int| 0 <= k < g ==> remaining[k] == k,
    {
        remaining.push(g);
    }
    let mut order: Vec<usize> = Vec::new();
    proof {
        assert forall|g: usize| g < n implies #[trigger] order@.contains(g) || remaining@.contains(g) by {
            assert(remaining@[g as int] == g);
        }
        assert(order@ + remaining@ =~= remaining@);
    }
    while remaining.len() > 0
        invariant
            n == counts.len(),
            (order@ + remaining@).no_duplicates(),
            forall|s: int| 0 <= s < order.len() ==> (#[trigger] order[s]) < n,
            forall|r: int| 0 <= r < remaining.len() ==> (#[trigger] remaining[r]) < n,
            forall|g: usize| g < n ==> #[trigger] order@.contains(g) || remaining@.contains(g),
            order.len() + remaining.len() == n,
            forall|s: int|
                0 <= s < order.len() - 1 ==> group_precedes(counts@, #[trigger] order[s] as int, order[s + 1] as int),
            forall|s: int, r: int|
                0 <= s < order.len() && 0 <= r < remaining.len() ==> group_precedes(
                    counts@,
                    #[trigger] order[s] as int,
                    #[trigger] remaining[r] as int,
                ),
        decreases remaining.len(),
    {
        // Pick the remaining group that precedes all others.
        proof {
            assert forall|a: int, b: int| 0 <= a < b < remaining.len()
                implies remaining[a] != remaining[b] by {
                assert((order@ + remaining@)[order.len() + a] == remaining[a]);
                assert((order@ + remaining@)[order.len() + b] == remaining[b]);
            }
        }
        let mut best: usize = 0;
        let mut j: usize = 1;
        while j < remaining.len()
            invariant
                n == counts.len(),
                0 <= best < j <= remaining.len(),
                forall|r: int| 0 <= r < remaining.len() ==> (#[trigger] remaining[r]) < n,
                remaining@.no_duplicates(),
                forall|r: int|
                    0 <= r < j && r != best ==> group_precedes(
                        counts@,
                        remaining[best as int] as int,
                        #[trigger] remaining[r] as int,
                    ),
            decreases remaining.len() - j,
        {
            let a = remaining[best];
            let b = remaining[j];
            if counts[b] > counts[a] || (counts[b] == counts[a] && b < a) {
                best = j;
            }
            j = j + 1;
        }
        let ghost before_order = order@;
        let ghost before_remaining = remaining@;
        let chosen = remaining.remove(best);
        order.push(chosen);
        proof {
            assert(remaining@ == before_remaining.remove(best as int));
            assert(order@ + remaining@ =~= (before_order + before_remaining).remove(before_order.len() + best as int).insert(before_order.len() as int, chosen));
            assert forall|g: usize| g < n implies #[trigger] order@.contains(g) || remaining@.contains(g) by {
                if before_order.contains(g) {
                    let k = choose|k: int| 0 <= k < before_order.len() && before_order[k] == g;
                    assert(order@[k] == g);
                } else {
                    let k = choose|k: int| 0 <= k < before_remaining.len() && before_remaining[k] == g;
                    if k == best as int {
                        assert(order@[order.len() - 1] == g);
                    } else if k < best as int {
                        assert(remaining@[k] == g);
                    } else {
                        assert(remaining@[k - 1] == g);
                    }
                }
            }
            assert forall|s: int, r: int|
                0 <= s < order.len() && 0 <= r < remaining.len() implies group_precedes(
                    counts@,
                    #[trigger] order[s] as int,
                    #[trigger] remaining[r] as int,
                ) by {
                let rr = if r < best as int { r } else { r + 1 };
                assert(remaining[r] == before_remaining[rr]);
                if s < before_order.len() {
                    assert(order[s] == before_order[s]);
                } else {
                    assert(rr != best as int);
                }
            }
        }
    }
    order
}


/// Detect crop presets from page sizes, as the crop step does the first
/// time it opens: only when the project has no presets yet and at least one
/// page. `dims[i]` is the base image size of page `i` (width, height); a page
/// whose size is unknown (missing entry or a zero side) is left alone.
#[verifier::loop_isolation(false)]
pub fn auto_detect_presets(project: &mut Project, dims: &Vec<(u32, u32)>)
    ensures
        if old(project)@.presets.len() > 0 || old(project)@.pages.len() == 0 {
            final(project)@ == old(project)@
        } else {
            detection_result(old(project)@, dims@, final(project)@)
        },
{
    if project.crop_presets.len() > 0 {
        return;
    }
    let n = project.pages.len();
    if n == 0 {
        return;
    }
    let ghost p = project@;
    let (keys, counts, group_of) = group_page_sizes(project, dims);
    let order = order_groups(&counts);
    let ng = keys.len();
    for s in 0..ng
        invariant
            ng == keys.len(),
            ng == counts.len(),
            ng == order.len(),
            n == p.pages.len(),
            n == group_of.len(),
            project.pages.len() == n,
            project.crop_presets.len() == s,
            order@.no_duplicates(),
            forall|t: int| 0 <= t < ng ==> (#[trigger] order[t]) < ng,
            forall|k: int|
                0 <= k < s ==> (#[trigger] project.crop_presets@[k])@ == (CropPresetView {
                    name: preset_name(k as nat),
                    w: keys[order[k] as int].0,
                    h: keys[order[k] as int].1,
                    locked: false,
                }),
            forall|i: int, k: int|
                #![trigger project.pages@[i], order@[k]]
                0 <= i < n && 0 <= k < s && order[k] == group_of[i] ==> (project.pages@[i])@
                    == page_with(p.pages[i], Some(k as usize), Some(full_box(keys[order[k] as int]))),
            forall|i: int|
                0 <= i < n && (forall|k: int| 0 <= k < s ==> order[k] != group_of[i]) ==> (
                #[trigger] project.pages@[i])@ == p.pages[i],
    {
        let g = order[s];
        let key = keys[g];
        let name = make_preset_name(s);
        project.crop_presets.push(CropPreset { name: name, w: key.0, h: key.1, locked: false });
        let ghost pages_before = project.pages@;
        let ghost presets_before = project.crop_presets@;
        for i in 0..n
            invariant
                ng == keys.len(),
                ng == order.len(),
                n == group_of.len(),
                s < ng,
                g == order[s as int],
                key == keys[g as int],
                project.pages.len() == n,
                project.crop_presets@ == presets_before,
                pages_before.len() == n,
                forall|j: int|
                    0 <= j < i && group_of[j] == g ==> (#[trigger] project.pages@[j])@ == page_with(
                        pages_before[j]@,
                        Some(s),
                        Some(full_box(key)),
                    ),
                forall|j: int|
                    0 <= j < n && !(j < i && group_of[j] == g) ==> #[trigger] project.pages@[j] == pages_before[j],
        {
            if group_of[i] == g {
                let updated = project.pages[i].with_preset_and_crop(
                    Some(s),
                    Some(CropBox { x: 0, y: 0, w: key.0, h: key.1 }),
                );
                project.pages.set(i, updated);
            }
        }
        proof {
            assert forall|i: int, k: int|
                #![trigger project.pages@[i], order@[k]]
                0 <= i < n && 0 <= k < s + 1 && order[k] == group_of[i] implies (project.pages@[i])@
                    == page_with(p.pages[i], Some(k as usize), Some(full_box(keys[order[k] as int]))) by {
                if k < s {
                    assert(order[k] != order[s as int]);
                }
            }
            assert forall|i: int|
                0 <= i < n && (forall|k: int| 0 <= k < s + 1 ==> order[k] != group_of[i]) implies (
                #[trigger] project.pages@[i])@ == p.pages[i] by {
                assert(order[s as int] != group_of[i]);
            }
        }
    }
    proof {
        reveal(groups_ok);
        reveal(order_ok);
        reveal(applied_ok);
        assert(groups_ok(p, dims@, keys@, counts@, group_of@));
        assert(order_ok(counts@, order@));
        assert forall|k: int| 0 <= k < ng implies #[trigger] project@.presets[k] == project.crop_presets@[k]@ by {}
        assert forall|i: int| 0 <= i < n implies #[trigger] project@.pages[i] == project.pages@[i]@ by {}
        assert(applied_ok(p, keys@, group_of@, order@, project@));
        lemma_detected_pages(p, dims@, keys@, counts@, group_of@, order@, project@);
        lemma_detected_presets(p, dims@, keys@, counts@, group_of@, order@, project@);
        lemma_detected_order(p, dims@, keys@, counts@, group_of@, order@, project@);
    }
}


/// The grouping facts produced by `group_page_sizes`.
#[verifier::opaque]
spec fn groups_ok(
    p: ProjectView,
    dims: Seq<(u32, u32)>,
    keys: Seq<(u32, u32)>,
    counts: Seq<usize>,
    group_of: Seq<usize>,
) -> bool {
    &&& keys.len() == counts.len()
    &&& keys.len() <= usize::MAX
    &&& group_of.len() == p.pages.len()
    &&& forall|g: int|
        0 <= g < keys.len() ==> #[trigger] counts[g] == pages_sized(p, dims, keys[g], p.pages.len()).len()
            && counts[g] > 0
    &&& forall|g1: int, g2: int|
        0 <= g1 < g2 < keys.len() ==> #[trigger] keys[g1] != #[trigger] keys[g2]
            && pages_sized(p, dims, keys[g1], p.pages.len())[0] < pages_sized(
            p,
            dims,
            keys[g2],
            p.pages.len(),
        )[0]
    &&& forall|j: int|
        0 <= j < p.pages.len() ==> if detect_eligible(p, dims, j) {
            (#[trigger] group_of[j]) < keys.len() && keys[group_of[j] as int] == detected_size(p, dims, j)
        } else {
            group_of[j] == usize::MAX
        }
}

/// The ordering facts produced by `order_groups`.
#[verifier::opaque]
spec fn order_ok(counts: Seq<usize>, order: Seq<usize>) -> bool {
    &&& order.len() == counts.len()
    &&& order.no_duplicates()
    &&& forall|t: int| 0 <= t < order.len() ==> (#[trigger] order[t]) < counts.len()
    &&& forall|g: usize| g < counts.len() ==> #[trigger] order.contains(g)
    &&& forall|t: int|
        0 <= t < order.len() - 1 ==> group_precedes(counts, #[trigger] order[t] as int, order[t + 1] as int)
}

/// The state after presets were pushed and pages assigned in `order`.
#[verifier::opaque]
spec fn applied_ok(
    p: ProjectView,
    keys: Seq<(u32, u32)>,
    group_of: Seq<usize>,
    order: Seq<usize>,
    newp: ProjectView,
) -> bool {
    &&& newp.pages.len() == p.pages.len()
    &&& newp.presets.len() == keys.len()
    &&& forall|k: int|
        0 <= k < keys.len() ==> #[trigger] newp.presets[k] == (CropPresetView {
            name: preset_name(k as nat),
            w: keys[order[k] as int].0,
            h: keys[order[k] as int].1,
            locked: false,
        })
    &&& forall|i: int, k: int|
        #![trigger newp.pages[i], order[k]]
        0 <= i < p.pages.len() && 0 <= k < keys.len() && order[k] == group_of[i] ==> newp.pages[i]
            == page_with(p.pages[i], Some(k as usize), Some(full_box(keys[order[k] as int])))
    &&& forall|i: int|
        0 <= i < p.pages.len() && (forall|k: int| 0 <= k < keys.len() ==> order[k] != group_of[i])
            ==> #[trigger] newp.pages[i] == p.pages[i]
}

proof fn lemma_detected_pages(
    p: ProjectView,
    dims: Seq<(u32, u32)>,
    keys: Seq<(u32, u32)>,
    counts: Seq<usize>,
    group_of: Seq<usize>,
    order: Seq<usize>,
    newp: ProjectView,
)
    requires
        groups_ok(p, dims, keys, counts, group_of),
        order_ok(counts, order),
        applied_ok(p, keys, group_of, order, newp),
    ensures
        forall|i: int| 0 <= i < p.pages.len() ==> #[trigger] page_detected(p, dims, newp, i),
{
    reveal(groups_ok);
    reveal(order_ok);
    reveal(applied_ok);
    let ng = keys.len();
    assert forall|i: int| 0 <= i < p.pages.len() implies #[trigger] page_detected(p, dims, newp, i) by {
        if detect_eligible(p, dims, i) {
            let gi = group_of[i];
            assert(order.contains(gi));
            let k = choose|k: int| 0 <= k < ng && order[k] == gi;
            assert(newp.pages[i] == page_with(p.pages[i], Some(k as usize), Some(full_box(keys[order[k] as int]))));
            assert(preset_size(newp.presets[k]) == keys[gi as int]);
            assert(0 <= k < newp.presets.len() && preset_size(newp.presets[k]) == detected_size(p, dims, i)
                && newp.pages[i] == page_with(p.pages[i], Some(k as usize), Some(full_box(detected_size(p, dims, i)))));
        } else {
            assert forall|k: int| 0 <= k < ng implies order[k] != group_of[i] by {}
        }
    }
}

proof fn lemma_detected_presets(
    p: ProjectView,
    dims: Seq<(u32, u32)>,
    keys: Seq<(u32, u32)>,
    counts: Seq<usize>,
    group_of: Seq<usize>,
    order: Seq<usize>,
    newp: ProjectView,
)
    requires
        groups_ok(p, dims, keys, counts, group_of),
        order_ok(counts, order),
        applied_ok(p, keys, group_of, order, newp),
    ensures
        forall|k: int| 0 <= k < newp.presets.len() ==> {
            &&& (#[trigger] newp.presets[k]).name == preset_name(k as nat)
            &&& !newp.presets[k].locked
            &&& size_count(p, dims, preset_size(newp.presets[k])) > 0
        },
        forall|k1: int, k2: int|
            0 <= k1 < k2 < newp.presets.len() ==> preset_size(#[trigger] newp.presets[k1]) != preset_size(
                #[trigger] newp.presets[k2],
            ),
{
    reveal(groups_ok);
    reveal(order_ok);
    reveal(applied_ok);
    assert forall|k1: int, k2: int|
        0 <= k1 < k2 < newp.presets.len() implies preset_size(#[trigger] newp.presets[k1]) != preset_size(
            #[trigger] newp.presets[k2],
        ) by {
        let g1 = order[k1] as int;
        let g2 = order[k2] as int;
        assert(g1 != g2);
        if g1 < g2 {
            assert(keys[g1] != keys[g2]);
        } else {
            assert(keys[g2] != keys[g1]);
        }
    }
    assert forall|k: int| 0 <= k < newp.presets.len() implies {
        &&& (#[trigger] newp.presets[k]).name == preset_name(k as nat)
        &&& !newp.presets[k].locked
        &&& size_count(p, dims, preset_size(newp.presets[k])) > 0
    } by {
        let g = order[k] as int;
        assert(counts[g] == size_count(p, dims, keys[g]));
    }
}

proof fn lemma_detected_order(
    p: ProjectView,
    dims: Seq<(u32, u32)>,
    keys: Seq<(u32, u32)>,
    counts: Seq<usize>,
    group_of: Seq<usize>,
    order: Seq<usize>,
    newp: ProjectView,
)
    requires
        groups_ok(p, dims, keys, counts, group_of),
        order_ok(counts, order),
        applied_ok(p, keys, group_of, order, newp),
    ensures
        forall|k: int|
            0 <= k < newp.presets.len() - 1 ==> {
                let c1 = size_count(p, dims, preset_size(#[trigger] newp.presets[k]));
                let c2 = size_count(p, dims, preset_size(newp.presets[k + 1]));
                &&& c1 >= c2
                &&& c1 == c2 ==> size_first_page(p, dims, preset_size(newp.presets[k]))
                    < size_first_page(p, dims, preset_size(newp.presets[k + 1]))
            },
{
    reveal(groups_ok);
    reveal(order_ok);
    reveal(applied_ok);
    assert forall|k: int| 0 <= k < newp.presets.len() - 1 implies {
        let c1 = size_count(p, dims, preset_size(#[trigger] newp.presets[k]));
        let c2 = size_count(p, dims, preset_size(newp.presets[k + 1]));
        &&& c1 >= c2
        &&& c1 == c2 ==> size_first_page(p, dims, preset_size(newp.presets[k]))
            < size_first_page(p, dims, preset_size(newp.presets[k + 1]))
    } by {
        let g1 = order[k] as int;
        let g2 = order[k + 1] as int;
        assert(group_precedes(counts, g1, g2));
        assert(preset_size(newp.presets[k]) == keys[g1]);
        assert(preset_size(newp.presets[k + 1]) == keys[g2]);
        assert(counts[g1] == size_count(p, dims, keys[g1]));
        assert(counts[g2] == size_count(p, dims, keys[g2]));
        if counts[g1] == counts[g2] {
            assert(g1 < g2);
        }
    }
}


/// Whether page `index` uses a preset that exists and is locked.
pub open spec fn page_preset_locked(p: ProjectView, index: int) -> bool {
    &&& 0 <= index < p.pages.len()
    &&& match p.pages[index].crop_preset {
        Some(pi) => pi < p.presets.len() && p.presets[pi as int].locked,
        None => false,
    }
}

/// Whether the preset of page `index` is locked. A locked preset only lets
/// the crop be moved, never resized or redrawn.
pub fn preset_locked(project: &Project, index: usize) -> (r: bool)
    ensures
        r == page_preset_locked(project@, index as int),
{
    if index >= project.pages.len() {
        return false;
    }
    assert(project@.pages[index as int] == project.pages@[index as int]@);
    match project.pages[index].crop_preset {
        Some(pi) => {
            if pi < project.crop_presets.len() {
                assert(project@.presets[pi as int] == project.crop_presets@[pi as int]@);
                project.crop_presets[pi].locked
            } else {
                false
            }
        },
        None => false,
    }
}

/// Lock or unlock preset `pi`, as its chip's lock button does; nothing
/// else changes (nothing at all when there is no such preset).
pub fn set_preset_locked(project: &mut Project, pi: usize, locked: bool)
    ensures
        final(project)@.pages == old(project)@.pages,
        final(project)@.presets == if pi < old(project)@.presets.len() {
            old(project)@.presets.update(pi as int, CropPresetView { locked: locked, ..old(project)@.presets[pi as int] })
        } else {
            old(project)@.presets
        },
{
    let ghost old_p = project@;
    if pi < project.crop_presets.len() {
        let c = &project.crop_presets[pi];
        let updated = CropPreset { name: c.name.clone(), w: c.w, h: c.h, locked: locked };
        project.crop_presets.set(pi, updated);
        proof {
            assert(project@.presets =~= old_p.presets.update(
                pi as int,
                CropPresetView { locked: locked, ..old_p.presets[pi as int] },
            )) by {
                assert forall|k: int| 0 <= k < project@.presets.len() implies project@.presets[k]
                    == project.crop_presets@[k]@ by {}
            }
            assert(project@.pages =~= old_p.pages);
        }
    }
}

/// Number of pages among the first `n` that use preset `k`.
pub open spec fn preset_uses(pages: Seq<PageView>, k: int, n: nat) -> nat
    decreases n,
{
    if n == 0 {
        0
    } else {
        preset_uses(pages, k, (n - 1) as nat) + if pages[n - 1].crop_preset == Some(k as usize) {
            1nat
        } else {
            0nat
        }
    }
}

proof fn lemma_preset_uses_bound(pages: Seq<PageView>, k: int, n: nat)
    ensures
        preset_uses(pages, k, n) <= n,
    decreases n,
{
    if n > 0 {
        lemma_preset_uses_bound(pages, k, (n - 1) as nat);
    }
}

/// For every preset, the number of pages that use it. A preset nobody uses
/// can be deleted.
pub fn preset_ref_counts(project: &Project) -> (refs: Vec<usize>)
    ensures
        refs.len() == project@.presets.len(),
        forall|k: int|
            0 <= k < refs.len() ==> #[trigger] refs[k] == preset_uses(
                project@.pages,
                k,
                project@.pages.len(),
            ),
{
    let np = project.crop_presets.len();
    let n = project.pages.len();
    let ghost pages = project@.pages;
    let mut refs: Vec<usize> = Vec::new();
    for k in 0..np
        invariant
            refs.len() == k,
            forall|j: int| 0 <= j < k ==> refs[j] == 0,
    {
        refs.push(0);
    }
    for i in 0..n
        invariant
            n == project.pages.len(),
            pages == project@.pages,
            refs.len() == np,
            np == project.crop_presets.len(),
            forall|k: int| 0 <= k < np ==> #[trigger] refs[k] == preset_uses(pages, k, i as nat),
    {
        assert(pages[i as int] == project.pages@[i as int]@);
        if let Some(pi) = project.pages[i].crop_preset {
            if pi < np {
                let c = refs[pi];
                proof {
                    lemma_preset_uses_bound(pages, pi as int, i as nat);
                }
                refs.set(pi, c + 1);
            }
        }
    }
    refs
}

/// A page's preset reference after preset `pi` was deleted.
pub open spec fn reference_after_delete(r: Option<usize>, pi: usize) -> Option<usize> {
    match r {
        Some(q) => if q == pi {
            None
        } else if q > pi {
            Some((q - 1) as usize)
        } else {
            Some(q)
        },
        None => None,
    }
}

/// Page `pg` after preset `pi` was deleted: pages of that preset lose their
/// preset and their crop; later presets move down by one.
pub open spec fn page_after_delete(pg: PageView, pi: usize) -> PageView {
    if pg.crop_preset == Some(pi) {
        page_with(pg, None, None)
    } else {
        page_with(pg, reference_after_delete(pg.crop_preset, pi), pg.crop)
    }
}

/// Delete preset `pi` (nothing happens when it does not exist), fix up the
/// pages' references and rename the remaining presets "Preset 1", ...
pub fn delete_preset(project: &mut Project, pi: usize)
    ensures
        if pi >= old(project)@.presets.len() {
            final(project)@ == old(project)@
        } else {
            let old_presets = old(project)@.presets.remove(pi as int);
            &&& final(project)@.presets.len() == old_presets.len()
            &&& forall|k: int|
                0 <= k < old_presets.len() ==> #[trigger] final(project)@.presets[k] == (CropPresetView {
                    name: preset_name(k as nat),
                    ..old_presets[k]
                })
            &&& final(project)@.pages.len() == old(project)@.pages.len()
            &&& forall|j: int|
                0 <= j < old(project)@.pages.len() ==> #[trigger] final(project)@.pages[j]
                    == page_after_delete(old(project)@.pages[j], pi)
        },
{
    if pi >= project.crop_presets.len() {
        return;
    }
    let ghost old_p = project@;
    let ghost old_presets = project.crop_presets@;
    project.crop_presets.remove(pi);
    let n = project.pages.len();
    for j in 0..n
        invariant
            n == project.pages.len(),
            n == old_p.pages.len(),
            pi < old_presets.len(),
            project.crop_presets@ == old_presets.remove(pi as int),
            forall|i: int| 0 <= i < j ==> (#[trigger] project.pages@[i])@ == page_after_delete(old_p.pages[i], pi),
            forall|i: int| j <= i < n ==> (#[trigger] project.pages@[i])@ == old_p.pages[i],
    {
        match project.pages[j].crop_preset {
            Some(p) => {
                if p == pi {
                    let updated = project.pages[j].with_preset_and_crop(None, None);
                    project.pages.set(j, updated);
                } else if p > pi {
                    let c = project.pages[j].crop;
                    let updated = project.pages[j].with_preset_and_crop(Some(p - 1), c);
                    project.pages.set(j, updated);
                }
            },
            None => {},
        }
        proof {
            let pg = old_p.pages[j as int];
            if pg.crop_preset == None::<usize> || (pg.crop_preset.unwrap() < pi) {
                assert(page_after_delete(pg, pi) == pg);
            }
        }
    }
    let np = project.crop_presets.len();
    let ghost pages_after = project.pages@;
    for k in 0..np
        invariant
            project.pages@ == pages_after,
            np == project.crop_presets.len(),
            np == old_presets.len() - 1,
            pi < old_presets.len(),
            forall|i: int|
                0 <= i < k ==> (#[trigger] project.crop_presets@[i])@ == (CropPresetView {
                    name: preset_name(i as nat),
                    ..old_presets.remove(pi as int)[i]@
                }),
            forall|i: int| k <= i < np ==> #[trigger] project.crop_presets@[i] == old_presets.remove(pi as int)[i],
    {
        let name = make_preset_name(k);
        let updated = project.crop_presets[k].renamed(name);
        project.crop_presets.set(k, updated);
    }
    proof {
        let newp = project@;
        assert(old_p.presets.remove(pi as int) =~= old_presets.remove(pi as int).map_values(|c: CropPreset| c@));
        assert forall|k: int| 0 <= k < np implies #[trigger] newp.presets[k] == (CropPresetView {
            name: preset_name(k as nat),
            ..old_p.presets.remove(pi as int)[k]
        }) by {
            assert(newp.presets[k] == project.crop_presets@[k]@);
        }
        assert forall|j: int| 0 <= j < n implies #[trigger] newp.pages[j] == page_after_delete(old_p.pages[j], pi) by {
            assert(newp.pages[j] == project.pages@[j]@);
            assert(pages_after[j]@ == page_after_delete(old_p.pages[j], pi));
        }
    }
}

/// After deleting preset `pi`, every page that used another existing preset
/// still uses a preset of the same size and lock state, and no page refers
/// to a preset that does not exist unless it already did before.
pub proof fn lemma_delete_preset_keeps_references(old: ProjectView, new: ProjectView, pi: usize, j: int)
    requires
        pi < old.presets.len(),
        0 <= j < old.pages.len(),
        new.presets.len() == old.presets.len() - 1,
        forall|k: int|
            0 <= k < old.presets.len() - 1 ==> #[trigger] new.presets[k] == (CropPresetView {
                name: preset_name(k as nat),
                ..old.presets.remove(pi as int)[k]
            }),
        new.pages.len() == old.pages.len(),
        forall|i: int| 0 <= i < old.pages.len() ==> #[trigger] new.pages[i] == page_after_delete(old.pages[i], pi),
    ensures
        match old.pages[j].crop_preset {
            Some(q) => if q == pi {
                new.pages[j].crop_preset == None::<usize> && new.pages[j].crop == None::<CropBox>
            } else if q < old.presets.len() {
                new.pages[j].crop_preset matches Some(q2) && q2 < new.presets.len()
                    && new.presets[q2 as int].w == old.presets[q as int].w
                    && new.presets[q2 as int].h == old.presets[q as int].h
                    && new.presets[q2 as int].locked == old.presets[q as int].locked
                    && new.pages[j].crop == old.pages[j].crop
            } else {
                new.pages[j].crop_preset matches Some(q2) && q2 >= new.presets.len()
            },
            None => new.pages[j].crop_preset == None::<usize>,
        },
{
    let _ = new.pages[j];
    match old.pages[j].crop_preset {
        Some(q) => {
            if q != pi && q < old.presets.len() {
                if q > pi {
                    assert(new.presets[q - 1] == (CropPresetView { name: preset_name((q - 1) as nat), ..old.presets.remove(pi as int)[q - 1] }));
                } else {
                    assert(new.presets[q as int] == (CropPresetView { name: preset_name(q as nat), ..old.presets.remove(pi as int)[q as int] }));
                }
            }
        },
        None => {},
    }
}


/// Keep a crop of size `size` starting at `pos` inside an image side of
/// length `bound` (0: unknown, no change): when it sticks out, it is moved
/// back so that it ends at the border, or to 0 if it is larger than the image.
pub open spec fn clamp_axis(pos: u32, size: u32, bound: u32) -> u32 {
    if bound > 0 && pos as int + size as int > bound as int {
        if bound >= size {
            (bound - size) as u32
        } else {
            0
        }
    } else {
        pos
    }
}

/// `c` moved inside an image of `iw` x `ih` pixels; its size is kept.
pub open spec fn fit_crop(c: CropBox, iw: u32, ih: u32) -> CropBox {
    CropBox { x: clamp_axis(c.x, c.w, iw), y: clamp_axis(c.y, c.h, ih), w: c.w, h: c.h }
}

fn clamp_position(pos: u32, size: u32, bound: u32) -> (r: u32)
    ensures
        r == clamp_axis(pos, size, bound),
{
    if bound > 0 && pos as u64 + size as u64 > bound as u64 {
        bound.saturating_sub(size)
    } else {
        pos
    }
}

/// Move a crop inside an image of `iw` x `ih` pixels (a zero side means the
/// size is unknown and that axis is left alone).
pub fn fit_crop_to_image(c: CropBox, iw: u32, ih: u32) -> (r: CropBox)
    ensures
        r == fit_crop(c, iw, ih),
{
    CropBox { x: clamp_position(c.x, c.w, iw), y: clamp_position(c.y, c.h, ih), w: c.w, h: c.h }
}

/// Fitting twice is fitting once.
pub proof fn lemma_fit_crop_idempotent(c: CropBox, iw: u32, ih: u32)
    ensures
        fit_crop(fit_crop(c, iw, ih), iw, ih) == fit_crop(c, iw, ih),
{
}

/// A fitted crop lies inside the image on every axis whose length is known
/// and at least the crop's size.
pub proof fn lemma_fit_crop_inside(c: CropBox, iw: u32, ih: u32)
    ensures
        iw > 0 && c.w <= iw ==> fit_crop(c, iw, ih).x + c.w <= iw,
        ih > 0 && c.h <= ih ==> fit_crop(c, iw, ih).y + c.h <= ih,
        iw > 0 && c.w > iw ==> fit_crop(c, iw, ih).x == 0,
        ih > 0 && c.h > ih ==> fit_crop(c, iw, ih).y == 0,
{
}

/// Page `pg` once preset `pi` of size `pw` x `ph` is applied: it refers to
/// the preset and its crop takes the preset's size, keeping its position
/// (the origin if it had no crop) as far as the image of `iw` x `ih` allows.
pub open spec fn preset_applied(pg: PageView, pi: usize, pw: u32, ph: u32, iw: u32, ih: u32) -> PageView {
    let base = match pg.crop {
        Some(c) => c,
        None => CropBox { x: 0, y: 0, w: 0, h: 0 },
    };
    page_with(pg, Some(pi), Some(fit_crop(CropBox { x: base.x, y: base.y, w: pw, h: ph }, iw, ih)))
}

/// Applying a preset to a page twice gives what applying it once gives.
pub proof fn lemma_preset_applied_idempotent(pg: PageView, pi: usize, pw: u32, ph: u32, iw: u32, ih: u32)
    ensures
        preset_applied(preset_applied(pg, pi, pw, ph, iw, ih), pi, pw, ph, iw, ih) == preset_applied(
            pg,
            pi,
            pw,
            ph,
            iw,
            ih,
        ),
{
    let base = match pg.crop {
        Some(c) => c,
        None => CropBox { x: 0, y: 0, w: 0, h: 0 },
    };
    lemma_fit_crop_idempotent(CropBox { x: base.x, y: base.y, w: pw, h: ph }, iw, ih);
}

/// A page a preset was applied to refers to that preset and gets a crop of
/// exactly the preset's size, which lies inside the image whenever the
/// image size is known and the preset fits it; a crop already inside stays
/// where it was.
pub proof fn lemma_preset_applied_inside(pg: PageView, pi: usize, pw: u32, ph: u32, iw: u32, ih: u32)
    ensures
        preset_applied(pg, pi, pw, ph, iw, ih).crop_preset == Some(pi),
        preset_applied(pg, pi, pw, ph, iw, ih).crop is Some,
        ({
            let c = preset_applied(pg, pi, pw, ph, iw, ih).crop->Some_0;
            &&& c.w == pw
            &&& c.h == ph
            &&& iw > 0 && pw <= iw ==> c.x + pw <= iw
            &&& ih > 0 && ph <= ih ==> c.y + ph <= ih
            &&& pg.crop is Some && pg.crop->Some_0.x + pw <= iw ==> c.x == pg.crop->Some_0.x
            &&& pg.crop is Some && pg.crop->Some_0.y + ph <= ih ==> c.y == pg.crop->Some_0.y
        }),
        preset_applied(pg, pi, pw, ph, iw, ih).path == pg.path,
        preset_applied(pg, pi, pw, ph, iw, ih).rotation == pg.rotation,
{
}

/// The first target that names an existing page, if any.
pub open spec fn first_valid_target(targets: Seq<usize>, n: nat, from: int) -> Option<int>
    decreases targets.len() - from,
{
    if from >= targets.len() || from < 0 {
        None
    } else if targets[from] < n {
        Some(from)
    } else {
        first_valid_target(targets, n, from + 1)
    }
}

proof fn lemma_first_valid_target_range(targets: Seq<usize>, n: nat, from: int)
    requires
        0 <= from,
    ensures
        first_valid_target(targets, n, from) matches Some(f) ==> from <= f < targets.len() && targets[f] < n,
    decreases targets.len() - from,
{
    if from < targets.len() && targets[from] >= n {
        lemma_first_valid_target_range(targets, n, from + 1);
    }
}

/// Apply preset `pi` (of size `pw` x `ph`) to the pages in `targets`, as the
/// preset button does for the selected pages; `iw` x `ih` is the image of the
/// page shown in the crop view. Targets that are not pages are skipped.
/// Returns the new crop of the first page changed.
pub fn apply_preset(
    project: &mut Project,
    targets: &Vec<usize>,
    pi: usize,
    pw: u32,
    ph: u32,
    iw: u32,
    ih: u32,
) -> (first: Option<CropBox>)
    ensures
        final(project)@.presets == old(project)@.presets,
        final(project)@.pages.len() == old(project)@.pages.len(),
        forall|j: int|
            0 <= j < old(project)@.pages.len() ==> #[trigger] final(project)@.pages[j] == if targets@.contains(
                j as usize,
            ) {
                preset_applied(old(project)@.pages[j], pi, pw, ph, iw, ih)
            } else {
                old(project)@.pages[j]
            },
        first == match first_valid_target(targets@, old(project)@.pages.len(), 0) {
            Some(t) => final(project)@.pages[targets[t] as int].crop,
            None => None::<CropBox>,
        },
{
    let ghost old_p = project@;
    let n = project.pages.len();
    let mut first: Option<CropBox> = None;
    let mut t: usize = 0;
    while t < targets.len()
        invariant
            n == project.pages.len(),
            n == old_p.pages.len(),
            project.crop_presets@ == old(project).crop_presets@,
            t <= targets.len(),
            forall|j: int|
                0 <= j < n ==> (#[trigger] project.pages@[j])@ == if targets@.subrange(0, t as int).contains(
                    j as usize,
                ) {
                    preset_applied(old_p.pages[j], pi, pw, ph, iw, ih)
                } else {
                    old_p.pages[j]
                },
            first is None ==> first_valid_target(targets@, n as nat, 0) == first_valid_target(targets@, n as nat, t as int),
            first is Some ==> (first_valid_target(targets@, n as nat, 0) matches Some(f) && f < t
                && first == preset_applied(old_p.pages[targets[f] as int], pi, pw, ph, iw, ih).crop),
        decreases targets.len() - t,
    {
        let idx = targets[t];
        let ghost before = project.pages@;
        if idx < n {
            let base = match project.pages[idx].crop {
                Some(c) => c,
                None => CropBox { x: 0, y: 0, w: 0, h: 0 },
            };
            let cb = fit_crop_to_image(CropBox { x: base.x, y: base.y, w: pw, h: ph }, iw, ih);
            let updated = project.pages[idx].with_preset_and_crop(Some(pi), Some(cb));
            project.pages.set(idx, updated);
            proof {
                lemma_preset_applied_idempotent(old_p.pages[idx as int], pi, pw, ph, iw, ih);
                assert(project.pages@[idx as int]@ == preset_applied(before[idx as int]@, pi, pw, ph, iw, ih));
                assert(project.pages@[idx as int]@ == preset_applied(old_p.pages[idx as int], pi, pw, ph, iw, ih));
            }
            if first.is_none() {
                first = Some(cb);
            }
        }
        proof {
            assert(targets@.subrange(0, t + 1) =~= targets@.subrange(0, t as int).push(idx));
            assert forall|j: int| 0 <= j < n implies (#[trigger] project.pages@[j])@ == if targets@.subrange(0, t + 1).contains(
                j as usize,
            ) {
                preset_applied(old_p.pages[j], pi, pw, ph, iw, ih)
            } else {
                old_p.pages[j]
            } by {
                if j == idx as int {
                    assert(targets@.subrange(0, t + 1)[t as int] == idx);
                } else {
                    if targets@.subrange(0, t + 1).contains(j as usize) {
                        let sub = targets@.subrange(0, t + 1);
                        let k = choose|k: int| 0 <= k < sub.len() && #[trigger] sub[k] == j as usize;
                        assert(targets@.subrange(0, t as int)[k] == j as usize);
                    }
                }
            }
        }
        t = t + 1;
    }
    proof {
        assert(targets@.subrange(0, targets.len() as int) =~= targets@);
        let newp = project@;
        assert forall|j: int| 0 <= j < n implies #[trigger] newp.pages[j] == project.pages@[j]@ by {}
        assert(newp.presets =~= old_p.presets);
        lemma_first_valid_target_range(targets@, n as nat, 0);
        if first is Some {
            let f = first_valid_target(targets@, n as nat, 0)->Some_0;
            assert(targets@[f] == targets[f]);
            assert(targets@.contains(targets[f]));
        }
    }
    first
}

/// Record the crop of page `index` (nothing happens if there is no such page).
pub fn set_page_crop(project: &mut Project, index: usize, crop: Option<CropBox>)
    ensures
        final(project)@.presets == old(project)@.presets,
        final(project)@.pages == if index < old(project)@.pages.len() {
            old(project)@.pages.update(
                index as int,
                page_with(old(project)@.pages[index as int], old(project)@.pages[index as int].crop_preset, crop),
            )
        } else {
            old(project)@.pages
        },
{
    if index < project.pages.len() {
        let p = project.pages[index].crop_preset;
        let updated = project.pages[index].with_preset_and_crop(p, crop);
        project.pages.set(index, updated);
        proof {
            assert(project@.pages =~= old(project)@.pages.update(
                index as int,
                page_with(old(project)@.pages[index as int], old(project)@.pages[index as int].crop_preset, crop),
            ));
        }
    }
}


/// The preset that page `index` refers to, when both exist.
pub open spec fn page_preset(p: ProjectView, index: int) -> Option<usize> {
    if 0 <= index < p.pages.len() {
        match p.pages[index].crop_preset {
            Some(pi) => if pi < p.presets.len() {
                Some(pi)
            } else {
                None
            },
            None => None,
        }
    } else {
        None
    }
}

fn find_page_preset(project: &Project, index: usize) -> (r: Option<usize>)
    ensures
        r == page_preset(project@, index as int),
{
    if index >= project.pages.len() {
        return None;
    }
    assert(project@.pages[index as int] == project.pages@[index as int]@);
    match project.pages[index].crop_preset {
        Some(pi) => if pi < project.crop_presets.len() {
            Some(pi)
        } else {
            None
        },
        None => None,
    }
}

/// A page of preset `pi` whose crop takes the size `w` x `h`.
pub open spec fn page_resized(pg: PageView, pi: usize, w: u32, h: u32) -> PageView {
    if pg.crop_preset == Some(pi) && pg.crop is Some {
        let c = pg.crop->Some_0;
        page_with(pg, pg.crop_preset, Some(CropBox { x: c.x, y: c.y, w: w, h: h }))
    } else {
        pg
    }
}

/// After a crop drag on page `index` ended with size `w` x `h`, give that
/// size to the page's preset and to every cropped page of the preset, unless
/// the preset is locked. Positions stay per page.
pub fn sync_preset_from_drag(project: &mut Project, index: usize, w: u32, h: u32)
    ensures
        match page_preset(old(project)@, index as int) {
            Some(pi) => if old(project)@.presets[pi as int].locked {
                final(project)@ == old(project)@
            } else {
                &&& final(project)@.presets == old(project)@.presets.update(
                    pi as int,
                    CropPresetView { w: w, h: h, ..old(project)@.presets[pi as int] },
                )
                &&& final(project)@.pages.len() == old(project)@.pages.len()
                &&& forall|j: int|
                    0 <= j < old(project)@.pages.len() ==> #[trigger] final(project)@.pages[j]
                        == page_resized(old(project)@.pages[j], pi, w, h)
            },
            None => final(project)@ == old(project)@,
        },
{
    let pi = match find_page_preset(project, index) {
        Some(pi) => pi,
        None => return,
    };
    assert(project@.presets[pi as int] == project.crop_presets@[pi as int]@);
    if project.crop_presets[pi].locked {
        return;
    }
    let ghost old_p = project@;
    let name = project.crop_presets[pi].name.clone();
    let locked = project.crop_presets[pi].locked;
    project.crop_presets.set(pi, CropPreset { name: name, w: w, h: h, locked: locked });
    let n = project.pages.len();
    let ghost presets_now = project.crop_presets@;
    for j in 0..n
        invariant
            n == project.pages.len(),
            n == old_p.pages.len(),
            project.crop_presets@ == presets_now,
            forall|i: int| 0 <= i < j ==> (#[trigger] project.pages@[i])@ == page_resized(old_p.pages[i], pi, w, h),
            forall|i: int| j <= i < n ==> (#[trigger] project.pages@[i])@ == old_p.pages[i],
    {
        if project.pages[j].crop_preset == Some(pi) {
            if let Some(c) = project.pages[j].crop {
                let updated = project.pages[j].with_preset_and_crop(
                    Some(pi),
                    Some(CropBox { x: c.x, y: c.y, w: w, h: h }),
                );
                project.pages.set(j, updated);
            }
        }
    }
    proof {
        let newp = project@;
        assert(newp.presets =~= old_p.presets.update(
            pi as int,
            CropPresetView { w: w, h: h, ..old_p.presets[pi as int] },
        )) by {
            assert forall|k: int| 0 <= k < newp.presets.len() implies newp.presets[k] == project.crop_presets@[k]@ by {}
        }
        assert forall|j: int| 0 <= j < n implies #[trigger] newp.pages[j] == page_resized(old_p.pages[j], pi, w, h) by {
            assert(newp.pages[j] == project.pages@[j]@);
        }
    }
}

/// The size a new preset made from page `pg` takes: the page's crop size,
/// or the image size (at least 1 x 1) when it has no crop.
pub open spec fn new_preset_size(pg: PageView, iw: u32, ih: u32) -> (u32, u32) {
    match pg.crop {
        Some(c) => (c.w, c.h),
        None => (if iw > 0 { iw } else { 1 }, if ih > 0 { ih } else { 1 }),
    }
}

/// Make a new unlocked preset from page `index` and attach the page to it,
/// cropped to the preset's size at the origin; `iw` x `ih` is the image shown.
/// Returns the page's new crop, or `None` (and no change) if there is no
/// such page.
pub fn new_preset_from_page(project: &mut Project, index: usize, iw: u32, ih: u32) -> (r: Option<CropBox>)
    requires
        old(project).crop_presets.len() < usize::MAX,
    ensures
        index >= old(project)@.pages.len() ==> r is None && final(project)@ == old(project)@,
        index < old(project)@.pages.len() ==> {
            let (w, h) = new_preset_size(old(project)@.pages[index as int], iw, ih);
            let k = old(project)@.presets.len();
            let b = CropBox { x: 0, y: 0, w: w, h: h };
            &&& r == Some(b)
            &&& final(project)@.presets == old(project)@.presets.push(
                CropPresetView { name: preset_name(k), w: w, h: h, locked: false },
            )
            &&& final(project)@.pages == old(project)@.pages.update(
                index as int,
                page_with(old(project)@.pages[index as int], Some(k as usize), Some(b)),
            )
        },
{
    if index >= project.pages.len() {
        return None;
    }
    let ghost old_p = project@;
    assert(old_p.pages[index as int] == project.pages@[index as int]@);
    let (w, h) = match project.pages[index].crop {
        Some(c) => (c.w, c.h),
        None => (if iw > 0 { iw } else { 1 }, if ih > 0 { ih } else { 1 }),
    };
    let pi = project.crop_presets.len();
    let name = make_preset_name(pi);
    project.crop_presets.push(CropPreset { name: name, w: w, h: h, locked: false });
    let b = CropBox { x: 0, y: 0, w: w, h: h };
    let updated = project.pages[index].with_preset_and_crop(Some(pi), Some(b));
    project.pages.set(index, updated);
    proof {
        let newp = project@;
        assert(newp.presets =~= old_p.presets.push(CropPresetView { name: preset_name(pi as nat), w: w, h: h, locked: false }));
        assert(newp.pages =~= old_p.pages.update(index as int, page_with(old_p.pages[index as int], Some(pi), Some(b))));
    }
    Some(b)
}


/// The preset a crop-margin change on page `index` acts on: the page's
/// preset, when it exists and is not locked.
pub open spec fn margin_preset(p: ProjectView, index: Option<usize>) -> Option<usize> {
    match index {
        Some(i) => match page_preset(p, i as int) {
            Some(pi) => if !p.presets[pi as int].locked {
                Some(pi)
            } else {
                None
            },
            None => None,
        },
        None => None,
    }
}

pub open spec fn fits_i32(v: int) -> bool {
    i32::MIN <= v <= i32::MAX
}

/// A preset side after the margin grew by `delta` on both ends (at least 1).
pub open spec fn grown(size: u32, delta: i32) -> u32 {
    let v = (size as i32) as int + 2 * delta;
    if v >= 1 {
        v as u32
    } else {
        1
    }
}

/// A crop position after the margin grew by `delta` (at least 0).
pub open spec fn shifted(pos: u32, delta: i32) -> u32 {
    let v = (pos as i32) as int - delta;
    if v >= 0 {
        v as u32
    } else {
        0
    }
}

/// The arithmetic of a margin change stays within `i32`, as the sizes and
/// positions are computed in `i32`.
pub open spec fn margin_fits(p: ProjectView, index: Option<usize>, delta: i32) -> bool {
    delta != 0 ==> match margin_preset(p, index) {
        Some(pi) => {
            &&& fits_i32(2 * delta)
            &&& fits_i32((p.presets[pi as int].w as i32) as int + 2 * delta)
            &&& fits_i32((p.presets[pi as int].h as i32) as int + 2 * delta)
            &&& forall|j: int|
                0 <= j < p.pages.len() && (#[trigger] p.pages[j]).crop_preset == Some(pi)
                    && p.pages[j].crop is Some ==> fits_i32(
                    (p.pages[j].crop->Some_0.x as i32) as int - delta,
                ) && fits_i32((p.pages[j].crop->Some_0.y as i32) as int - delta)
        },
        None => true,
    }
}

/// Page `pg` after the margin of preset `pi` grew by `delta`: its crop takes
/// the preset's new size `pw` x `ph`, moves by `-delta` on both axes so that
/// it stays centred, and is kept inside the image of `iw` x `ih`.
pub open spec fn page_margined(pg: PageView, pi: usize, pw: u32, ph: u32, delta: i32, iw: u32, ih: u32) -> PageView {
    if pg.crop_preset == Some(pi) {
        let base = match pg.crop {
            Some(c) => c,
            None => CropBox { x: 0, y: 0, w: 0, h: 0 },
        };
        page_with(
            pg,
            pg.crop_preset,
            Some(fit_crop(CropBox { x: shifted(base.x, delta), y: shifted(base.y, delta), w: pw, h: ph }, iw, ih)),
        )
    } else {
        pg
    }
}

fn grow_side(size: u32, delta: i32) -> (r: u32)
    requires
        fits_i32(2 * delta),
        fits_i32((size as i32) as int + 2 * delta),
    ensures
        r == grown(size, delta),
{
    let v = size as i32 + delta * 2;
    if v >= 1 {
        v as u32
    } else {
        1
    }
}

fn shift_position(pos: u32, delta: i32) -> (r: u32)
    requires
        fits_i32((pos as i32) as int - delta),
    ensures
        r == shifted(pos, delta),
{
    let v = pos as i32 - delta;
    if v >= 0 {
        v as u32
    } else {
        0
    }
}

/// Grow (or shrink, for a negative `delta`) the crop margin of the preset of
/// the current page by `delta` pixels on every side, for all pages of that
/// preset; `iw` x `ih` is the image shown. Nothing happens for a zero
/// `delta`, without a current page, or when its preset is missing or locked.
/// Returns the new crop of the current page.
pub fn apply_margin(project: &mut Project, index: Option<usize>, delta: i32, iw: u32, ih: u32) -> (r: Option<
    CropBox,
>)
    requires
        margin_fits(old(project)@, index, delta),
    ensures
        match margin_preset(old(project)@, index) {
            Some(pi) => if delta == 0 {
                r is None && final(project)@ == old(project)@
            } else {
                let pw = grown(old(project)@.presets[pi as int].w, delta);
                let ph = grown(old(project)@.presets[pi as int].h, delta);
                &&& final(project)@.presets == old(project)@.presets.update(
                    pi as int,
                    CropPresetView { w: pw, h: ph, ..old(project)@.presets[pi as int] },
                )
                &&& final(project)@.pages.len() == old(project)@.pages.len()
                &&& forall|j: int|
                    0 <= j < old(project)@.pages.len() ==> #[trigger] final(project)@.pages[j]
                        == page_margined(old(project)@.pages[j], pi, pw, ph, delta, iw, ih)
                &&& r == final(project)@.pages[index->Some_0 as int].crop
            },
            None => r is None && final(project)@ == old(project)@,
        },
{
    if delta == 0 {
        return None;
    }
    let idx = match index {
        Some(i) => i,
        None => return None,
    };
    let pi = match find_page_preset(project, idx) {
        Some(pi) => pi,
        None => return None,
    };
    assert(project@.presets[pi as int] == project.crop_presets@[pi as int]@);
    if project.crop_presets[pi].locked {
        return None;
    }
    let ghost old_p = project@;
    let pw = grow_side(project.crop_presets[pi].w, delta);
    let ph = grow_side(project.crop_presets[pi].h, delta);
    let name = project.crop_presets[pi].name.clone();
    let locked = project.crop_presets[pi].locked;
    project.crop_presets.set(pi, CropPreset { name: name, w: pw, h: ph, locked: locked });
    let n = project.pages.len();
    let ghost presets_now = project.crop_presets@;
    for j in 0..n
        invariant
            n == project.pages.len(),
            n == old_p.pages.len(),
            project.crop_presets@ == presets_now,
            margin_fits(old_p, index, delta),
            margin_preset(old_p, index) == Some(pi),
            delta != 0,
            forall|i: int|
                0 <= i < j ==> (#[trigger] project.pages@[i])@ == page_margined(old_p.pages[i], pi, pw, ph, delta, iw, ih),
            forall|i: int| j <= i < n ==> (#[trigger] project.pages@[i])@ == old_p.pages[i],
    {
        if project.pages[j].crop_preset == Some(pi) {
            assert(old_p.pages[j as int] == project.pages@[j as int]@);
            let base = match project.pages[j].crop {
                Some(c) => c,
                None => CropBox { x: 0, y: 0, w: 0, h: 0 },
            };
            let x = shift_position(base.x, delta);
            let y = shift_position(base.y, delta);
            let cb = fit_crop_to_image(CropBox { x: x, y: y, w: pw, h: ph }, iw, ih);
            let updated = project.pages[j].with_preset_and_crop(Some(pi), Some(cb));
            project.pages.set(j, updated);
        }
    }
    proof {
        let newp = project@;
        assert(newp.presets =~= old_p.presets.update(
            pi as int,
            CropPresetView { w: pw, h: ph, ..old_p.presets[pi as int] },
        )) by {
            assert forall|k: int| 0 <= k < newp.presets.len() implies newp.presets[k] == project.crop_presets@[k]@ by {}
        }
        assert forall|j: int| 0 <= j < n implies #[trigger] newp.pages[j] == page_margined(old_p.pages[j], pi, pw, ph, delta, iw, ih) by {
            assert(newp.pages[j] == project.pages@[j]@);
        }
    }
    assert(project@.pages[idx as int] == project.pages@[idx as int]@);
    project.pages[idx].crop
}


/// The preset part of the status line: " | Preset: NAME (W\u{d7}H LOCK)".
pub open spec fn status_preset_part(p: ProjectView, pg: PageView) -> Seq<char> {
    match pg.crop_preset {
        Some(pi) => if pi < p.presets.len() {
            let c = p.presets[pi as int];
            " | Preset: "@ + c.name + " ("@ + decimal(c.w as nat) + "\u{d7}"@ + decimal(c.h as nat) + (if c.locked {
                " \u{1f512}"@
            } else {
                " \u{1f513}"@
            }) + ")"@
        } else {
            Seq::empty()
        },
        None => Seq::empty(),
    }
}

/// The crop part of the status line: " | Crop: W\u{d7}H @ (X, Y)".
pub open spec fn status_crop_part(pg: PageView) -> Seq<char> {
    match pg.crop {
        Some(c) => " | Crop: "@ + decimal(c.w as nat) + "\u{d7}"@ + decimal(c.h as nat) + " @ ("@ + decimal(
            c.x as nat,
        ) + ", "@ + decimal(c.y as nat) + ")"@,
        None => Seq::empty(),
    }
}

/// The crop step's status line for the current page.
pub open spec fn status_text(p: ProjectView, index: Option<usize>) -> Seq<char> {
    match index {
        Some(i) => if i < p.pages.len() {
            "Page "@ + decimal((i + 1) as nat) + "/"@ + decimal(p.pages.len()) + status_preset_part(p, p.pages[i as int])
                + status_crop_part(p.pages[i as int])
        } else {
            "No page selected"@
        },
        None => "No page selected"@,
    }
}

/// The crop step's status line: page number, the page's preset (name,
/// size, lock) and its crop, or "No page selected".
pub fn status_label(project: &Project, index: Option<usize>) -> (s: String)
    ensures
        s@ == status_text(project@, index),
{
    let i = match index {
        Some(i) => i,
        None => return String::from_str("No page selected"),
    };
    if i >= project.pages.len() {
        return String::from_str("No page selected");
    }
    let ghost p = project@;
    assert(p.pages[i as int] == project.pages@[i as int]@);
    let page = &project.pages[i];
    let mut s = String::new();
    s.append("Page ");
    push_decimal(&mut s, (i + 1) as u64);
    s.append("/");
    push_decimal(&mut s, project.pages.len() as u64);
    let ghost head = s@;
    if let Some(pi) = page.crop_preset {
        if pi < project.crop_presets.len() {
            let c = &project.crop_presets[pi];
            assert(p.presets[pi as int] == c@);
            s.append(" | Preset: ");
            s.append(c.name.as_str());
            s.append(" (");
            push_decimal(&mut s, c.w as u64);
            s.append("\u{d7}");
            push_decimal(&mut s, c.h as u64);
            if c.locked {
                s.append(" \u{1f512}");
            } else {
                s.append(" \u{1f513}");
            }
            s.append(")");
        }
    }
    assert(s@ =~= head + status_preset_part(p, p.pages[i as int]));
    let ghost mid = s@;
    if let Some(c) = page.crop {
        s.append(" | Crop: ");
        push_decimal(&mut s, c.w as u64);
        s.append("\u{d7}");
        push_decimal(&mut s, c.h as u64);
        s.append(" @ (");
        push_decimal(&mut s, c.x as u64);
        s.append(", ");
        push_decimal(&mut s, c.y as u64);
        s.append(")");
    }
    assert(s@ =~= mid + status_crop_part(p.pages[i as int]));
    assert(s@ =~= status_text(p, index));
    s
}


/// Whether the crop-margin control is enabled for the current page: `None`
/// leaves it as it is (no current page); otherwise it is enabled exactly
/// when the page has a preset that exists and is not locked. Its value is
/// reset to 0 in either case.
pub fn margin_control_enabled(project: &Project, current: Option<usize>) -> (r: Option<bool>)
    ensures
        r == match current {
            Some(_) => Some(margin_preset(project@, current) is Some),
            None => None::<bool>,
        },
{
    let idx = match current {
        Some(i) => i,
        None => return None,
    };
    match find_page_preset(project, idx) {
        Some(pi) => {
            assert(project@.presets[pi as int] == project.crop_presets@[pi as int]@);
            Some(!project.crop_presets[pi].locked)
        },
        None => Some(false),
    }
}

} // verus!
