//! Arranging pages: rotating, deleting, reordering and re-matching the
//! page list with the thumbnails already loaded.

use vstd::prelude::*;
use crate::project::{Page, PageView, Project, ProjectView};

verus! {

/// `(deg + delta)` brought into `0..360`.
pub open spec fn rotation_after(deg: int, delta: int) -> int {
    (deg + delta) % 360
}

fn normalize_degrees(v: i64) -> (r: u32)
    requires
        i32::MIN <= v <= i32::MAX,
    ensures
        r as int == v % 360,
        r < 360,
{
    if v >= 0 {
        (v % 360) as u32
    } else {
        let m = (-v) % 360;
        if m == 0 {
            0
        } else {
            proof {
                assert((v % 360) == 360 - m) by (nonlinear_arith)
                    requires
                        v < 0,
                        m == (-v) % 360,
                        m != 0,
                ;
            }
            (360 - m) as u32
        }
    }
}

/// A page item's rotation after turning it by `delta` degrees (the result is
/// in `0..360`).
pub fn rotation_after_delta(rotation: u32, delta: i32) -> (r: u32)
    requires
        i32::MIN <= (rotation as i32) as int + delta <= i32::MAX,
    ensures
        r as int == rotation_after((rotation as i32) as int, delta as int),
        r < 360,
{
    let v = rotation as i32 + delta;
    normalize_degrees(v as i64)
}

/// A stored page rotation after turning it by `delta` degrees.
pub fn rotated_degrees(deg: u16, delta: i32) -> (r: u16)
    requires
        deg as int + delta <= i32::MAX,
    ensures
        r as int == rotation_after(deg as int, delta as int),
{
    let v = deg as i32 + delta;
    normalize_degrees(v as i64) as u16
}

/// Turning by `a` and then by `b` is turning by `a + b`; in particular a
/// turn followed by the opposite turn restores any rotation in `0..360`.
pub proof fn lemma_rotations_compose(deg: int, a: int, b: int)
    ensures
        rotation_after(rotation_after(deg, a), b) == rotation_after(deg, a + b),
        0 <= deg < 360 ==> rotation_after(rotation_after(deg, a), -a) == deg,
{
    vstd::arithmetic::div_mod::lemma_add_mod_noop(deg + a, b, 360);
    vstd::arithmetic::div_mod::lemma_mod_twice(b, 360);
    vstd::arithmetic::div_mod::lemma_add_mod_noop(deg + a, -a, 360);
    vstd::arithmetic::div_mod::lemma_mod_twice(-a, 360);
    if 0 <= deg < 360 {
        vstd::arithmetic::div_mod::lemma_small_mod(deg as nat, 360);
    }
}

/// How an image is turned for display.
#[derive(Clone, Copy, Debug, PartialEq, Eq, Structural)]
pub enum RotationStep {
    Keep,
    Clockwise,
    UpsideDown,
    CounterClockwise,
}

/// The quarter turn that shows an image rotated by `deg` degrees; angles
/// other than multiples of 90 leave it as it is.
pub open spec fn rotation_step_of(deg: u32) -> RotationStep {
    if deg % 360 == 90 {
        RotationStep::Clockwise
    } else if deg % 360 == 180 {
        RotationStep::UpsideDown
    } else if deg % 360 == 270 {
        RotationStep::CounterClockwise
    } else {
        RotationStep::Keep
    }
}

pub fn rotation_step(deg: u32) -> (r: RotationStep)
    ensures
        r == rotation_step_of(deg),
{
    let q = deg % 360;
    if q == 90 {
        RotationStep::Clockwise
    } else if q == 180 {
        RotationStep::UpsideDown
    } else if q == 270 {
        RotationStep::CounterClockwise
    } else {
        RotationStep::Keep
    }
}

/// Page `pg` turned by `delta` degrees.
pub open spec fn page_rotated(pg: PageView, delta: i32) -> PageView {
    PageView { rotation: rotation_after(pg.rotation as int, delta as int) as u16, ..pg }
}

fn contains_position(positions: &Vec<u32>, j: usize) -> (r: bool)
    ensures
        r == (j <= u32::MAX && positions@.contains(j as u32)),
{
    if j > u32::MAX as usize {
        return false;
    }
    let mut k: usize = 0;
    while k < positions.len()
        invariant
            k <= positions.len(),
            j <= u32::MAX,
            forall|i: int| 0 <= i < k ==> positions[i] != j as u32,
        decreases positions.len() - k,
    {
        if positions[k] == j as u32 {
            return true;
        }
        k = k + 1;
    }
    false
}

/// Turn the selected pages (`positions`, as the selection lists them: no
/// position twice) by `delta` degrees; positions past the end are ignored.
pub fn rotate_selected(project: &mut Project, positions: &Vec<u32>, delta: i32)
    requires
        positions@.no_duplicates(),
        forall|j: int|
            0 <= j < old(project)@.pages.len() && j <= u32::MAX && positions@.contains(j as u32) ==> (#[trigger] old(
                project,
            )@.pages[j]).rotation + delta <= i32::MAX,
    ensures
        final(project)@.presets == old(project)@.presets,
        final(project)@.pages.len() == old(project)@.pages.len(),
        forall|j: int|
            0 <= j < old(project)@.pages.len() ==> #[trigger] final(project)@.pages[j] == if j <= u32::MAX && positions@.contains(
                j as u32,
            ) {
                page_rotated(old(project)@.pages[j], delta)
            } else {
                old(project)@.pages[j]
            },
{
    let n = project.pages.len();
    let ghost old_p = project@;
    for j in 0..n
        invariant
            n == project.pages.len(),
            n == old_p.pages.len(),
            project.crop_presets@ == old(project).crop_presets@,
            forall|i: int|
                0 <= i < n && i <= u32::MAX && positions@.contains(i as u32) ==> (#[trigger] old_p.pages[i]).rotation
                    + delta <= i32::MAX,
            forall|i: int|
                0 <= i < j ==> (#[trigger] project.pages@[i])@ == if i <= u32::MAX && positions@.contains(i as u32) {
                    page_rotated(old_p.pages[i], delta)
                } else {
                    old_p.pages[i]
                },
            forall|i: int| j <= i < n ==> (#[trigger] project.pages@[i])@ == old_p.pages[i],
    {
        if contains_position(positions, j) {
            assert(old_p.pages[j as int] == project.pages@[j as int]@);
            let pg = &project.pages[j];
            let r = rotated_degrees(pg.rotation, delta);
            let updated = Page { path: pg.path.clone(), rotation: r, crop: pg.crop, crop_preset: pg.crop_preset };
            project.pages.set(j, updated);
        }
    }
    proof {
        let newp = project@;
        assert forall|j: int| 0 <= j < n implies #[trigger] newp.pages[j] == project.pages@[j]@ by {}
        assert(newp.presets =~= old_p.presets);
    }
}

/// The elements of `s` at positions `from..` whose position is not listed
/// in `positions`, in order.
pub open spec fn kept_from<A>(s: Seq<A>, positions: Seq<u32>, from: int) -> Seq<A>
    decreases s.len() - from,
{
    if from < 0 || from >= s.len() {
        Seq::empty()
    } else {
        (if from <= u32::MAX && positions.contains(from as u32) {
            Seq::empty()
        } else {
            seq![s[from]]
        }) + kept_from(s, positions, from + 1)
    }
}

proof fn lemma_kept_from_map(s: Seq<Page>, positions: Seq<u32>, from: int)
    requires
        0 <= from,
    ensures
        kept_from(s, positions, from).map_values(|p: Page| p@) == kept_from(
            s.map_values(|p: Page| p@),
            positions,
            from,
        ),
    decreases s.len() - from,
{
    if from < s.len() {
        lemma_kept_from_map(s, positions, from + 1);
        let head: Seq<Page> = if from <= u32::MAX && positions.contains(from as u32) {
            Seq::empty()
        } else {
            seq![s[from]]
        };
        assert((head + kept_from(s, positions, from + 1)).map_values(|p: Page| p@) =~= head.map_values(
            |p: Page| p@,
        ) + kept_from(s, positions, from + 1).map_values(|p: Page| p@));
    } else {
        assert(kept_from(s, positions, from).map_values(|p: Page| p@) =~= Seq::<PageView>::empty());
    }
}

/// Remove the selected pages (`positions`, no position twice); positions
/// past the end are ignored. The other pages keep their order.
pub fn remove_pages(project: &mut Project, positions: &Vec<u32>)
    requires
        positions@.no_duplicates(),
    ensures
        final(project)@.presets == old(project)@.presets,
        final(project)@.pages == kept_from(old(project)@.pages, positions@, 0),
{
    let ghost old_pages = project.pages@;
    let mut j = project.pages.len();
    while j > 0
        invariant
            j <= old_pages.len(),
            project.crop_presets@ == old(project).crop_presets@,
            project.pages@ == old_pages.subrange(0, j as int) + kept_from(old_pages, positions@, j as int),
        decreases j,
    {
        let i = j - 1;
        if contains_position(positions, i) {
            let ghost before = project.pages@;
            project.pages.remove(i);
            proof {
                assert(project.pages@ =~= old_pages.subrange(0, i as int) + kept_from(old_pages, positions@, i as int));
            }
        } else {
            proof {
                assert(project.pages@ =~= old_pages.subrange(0, i as int) + kept_from(old_pages, positions@, i as int));
            }
        }
        j = i;
    }
    proof {
        assert(project.pages@ =~= kept_from(old_pages, positions@, 0));
        lemma_kept_from_map(old_pages, positions@, 0);
        assert(project@.presets =~= old(project)@.presets);
    }
}


/// Where the reorder buttons send the selected pages.
#[derive(Clone, Copy, Debug, PartialEq, Eq, Structural)]
pub enum MoveTarget {
    Start,
    Back,
    Forward,
    End,
}

/// A request to move the pages at `indices` (positions before the move) so
/// that they end up as one block in front of position `before`.
pub struct MoveRequest {
    pub indices: Vec<usize>,
    pub before: usize,
}

/// The insertion point a reorder button picks for a selection spanning
/// `first..=last` among `len` pages.
pub open spec fn move_insertion(first: int, last: int, len: int, target: MoveTarget) -> int {
    match target {
        MoveTarget::Start => 0,
        MoveTarget::Back => if first >= 1 {
            first - 1
        } else {
            0
        },
        MoveTarget::Forward => if last + 2 <= len {
            last + 2
        } else {
            len
        },
        MoveTarget::End => len,
    }
}

/// The move a reorder button makes for the selected pages (`positions`, in
/// increasing order), or `None` when nothing is selected. Moving forward
/// inserts past the page after the last selected one, so the block moves by
/// one place.
pub fn move_selection(positions: &Vec<u32>, page_count: usize, target: MoveTarget) -> (r: Option<MoveRequest>)
    ensures
        positions.len() == 0 ==> r is None,
        positions.len() > 0 ==> (r matches Some(m) && m.indices@.len() == positions.len() && (forall|k: int|
            0 <= k < positions.len() ==> #[trigger] m.indices@[k] == positions[k] as usize) && m.before
            == move_insertion(
            positions[0] as int,
            positions[positions.len() - 1] as int,
            page_count as int,
            target,
        )),
{
    if positions.len() == 0 {
        return None;
    }
    let first = positions[0];
    let last = positions[positions.len() - 1];
    let mut indices: Vec<usize> = Vec::new();
    for k in 0..positions.len()
        invariant
            indices.len() == k,
            forall|i: int| 0 <= i < k ==> #[trigger] indices@[i] == positions[i] as usize,
    {
        indices.push(positions[k] as usize);
    }
    let before = match target {
        MoveTarget::Start => 0,
        MoveTarget::Back => if first >= 1 {
            (first - 1) as usize
        } else {
            0
        },
        MoveTarget::Forward => if (last as u64) + 2 <= page_count as u64 {
            ((last as u64) + 2) as usize
        } else {
            page_count
        },
        MoveTarget::End => page_count,
    };
    Some(MoveRequest { indices: indices, before: before })
}

/// Whether the selection (`positions`, increasing) can still move towards
/// the start and towards the end of `page_count` pages.
pub fn can_move(positions: &Vec<u32>, page_count: usize) -> (r: (bool, bool))
    ensures
        positions.len() == 0 ==> r == (false, false),
        positions.len() > 0 ==> r == (positions[0] > 0, positions[positions.len() - 1] + 1 < page_count),
{
    if positions.len() == 0 {
        return (false, false);
    }
    let first = positions[0];
    let last = positions[positions.len() - 1];
    (first > 0, (last as u64) + 1 < page_count as u64)
}

/// Whether a reorder action is enabled: the backward ones need room towards
/// the start, the forward ones room towards the end.
pub fn reorder_action_enabled(target: MoveTarget, can_back: bool, can_forward: bool) -> (r: bool)
    ensures
        r == match target {
            MoveTarget::Start | MoveTarget::Back => can_back,
            MoveTarget::Forward | MoveTarget::End => can_forward,
        },
{
    match target {
        MoveTarget::Start | MoveTarget::Back => can_back,
        MoveTarget::Forward | MoveTarget::End => can_forward,
    }
}

/// The pages a drag starting on `position` carries: the whole selection if
/// the position is selected, otherwise just that page, which then becomes
/// selected (the second component).
pub fn drag_set(selected: &Vec<u32>, position: u32) -> (r: (Vec<usize>, bool))
    ensures
        selected@.contains(position) ==> !r.1 && r.0@.len() == selected.len() && forall|k: int|
            0 <= k < selected.len() ==> #[trigger] r.0@[k] == selected[k] as usize,
        !selected@.contains(position) ==> r.1 && r.0@ == seq![position as usize],
{
    let mut found = false;
    let mut k: usize = 0;
    while k < selected.len()
        invariant
            k <= selected.len(),
            found == (exists|i: int| 0 <= i < k && selected[i] == position),
        decreases selected.len() - k,
    {
        if selected[k] == position {
            found = true;
        }
        k = k + 1;
    }
    if found {
        let mut out: Vec<usize> = Vec::new();
        for i in 0..selected.len()
            invariant
                out.len() == i,
                forall|j: int| 0 <= j < i ==> #[trigger] out@[j] == selected[j] as usize,
        {
            out.push(selected[i] as usize);
        }
        (out, false)
    } else {
        let mut out: Vec<usize> = Vec::new();
        out.push(position as usize);
        proof {
            assert(out@ =~= seq![position as usize]);
        }
        (out, true)
    }
}

/// The invalid list position, which a card that is being recycled reports.
pub const INVALID_POSITION: u32 = 0xffff_ffff;

/// The insertion point of a drop on the card at `position`: before it, or
/// after it when the pointer is on its right half. A card without a valid
/// position refuses the drop.
pub fn drop_insertion(position: u32, after: bool) -> (r: Option<usize>)
    ensures
        position == INVALID_POSITION ==> r is None,
        position != INVALID_POSITION ==> r == Some((position as int + (if after { 1int } else { 0int })) as usize),
{
    if position == INVALID_POSITION {
        return None;
    }
    Some(position as usize + if after { 1 } else { 0 })
}

/// The positions `s` follow each other without a gap.
pub open spec fn consecutive(s: Seq<u32>) -> bool {
    forall|k: int| 0 <= k < s.len() - 1 ==> #[trigger] s[k + 1] == s[k] + 1
}

/// Dropping the selection `s` in front of `before` leaves the order as it
/// is: the selection is one block and the drop lands inside it or right
/// next to it.
pub open spec fn drop_is_noop(s: Seq<u32>, before: usize) -> bool {
    &&& s.len() > 0
    &&& consecutive(s)
    &&& s[0] <= before <= s[s.len() - 1] + 1
}

/// The move a drop in front of `before` makes with the current selection
/// (`selected`, in increasing order). A drop with nothing selected, or one
/// that would leave the order unchanged, is discarded.
pub fn drop_move(selected: &Vec<u32>, before: usize) -> (r: Option<MoveRequest>)
    ensures
        (selected.len() == 0 || drop_is_noop(selected@, before)) ==> r is None,
        !(selected.len() == 0 || drop_is_noop(selected@, before)) ==> (r matches Some(m) && m.before == before
            && m.indices@.len() == selected.len() && forall|k: int|
            0 <= k < selected.len() ==> #[trigger] m.indices@[k] == selected[k] as usize),
{
    if selected.len() == 0 {
        return None;
    }
    let n = selected.len();
    let mut joined = true;
    let mut k: usize = 0;
    while k + 1 < n
        invariant
            n == selected.len(),
            n > 0,
            k < n,
            joined == (forall|i: int| 0 <= i < k ==> #[trigger] selected@[i + 1] == selected@[i] + 1),
        decreases n - k,
    {
        if selected[k + 1] as u64 != selected[k] as u64 + 1 {
            joined = false;
        }
        k = k + 1;
    }
    assert(joined == consecutive(selected@));
    if joined && selected[0] as u64 <= before as u64 && before as u64 <= selected[n - 1] as u64 + 1 {
        return None;
    }
    let mut indices: Vec<usize> = Vec::new();
    for k in 0..selected.len()
        invariant
            indices.len() == k,
            forall|i: int| 0 <= i < k ==> #[trigger] indices@[i] == selected[i] as usize,
    {
        indices.push(selected[k] as usize);
    }
    Some(MoveRequest { indices: indices, before: before })
}

/// A drop never reorders what it cannot change: dropping a block of
/// consecutive pages at its own place is discarded, while a drop of the
/// same block elsewhere is kept.
pub proof fn lemma_block_drop_in_place_is_noop(first: u32, len: u32, before: usize)
    requires
        len > 0,
        first + len <= u32::MAX,
    ensures
        ({
            let s = Seq::new(len as nat, |i: int| (first + i) as u32);
            &&& consecutive(s)
            &&& drop_is_noop(s, before) <==> first <= before <= first + len
        }),
{
    let s = Seq::new(len as nat, |i: int| (first + i) as u32);
    assert(s[s.len() - 1] == first + len - 1);
}


/// The first item at or after `i` with path `path` that no earlier page took.
pub open spec fn first_free_item(
    items: Seq<Seq<char>>,
    path: Seq<char>,
    taken: Seq<Option<usize>>,
    i: int,
) -> Option<usize>
    decreases items.len() - i,
{
    if i < 0 || i >= items.len() {
        None
    } else if items[i] == path && !taken.contains(Some(i as usize)) {
        Some(i as usize)
    } else {
        first_free_item(items, path, taken, i + 1)
    }
}

/// For each of the first `k` pages, the existing item it reuses: the first
/// item with the same path not taken by an earlier page, or `None`.
pub open spec fn reuse_plan(items: Seq<Seq<char>>, pages: Seq<Seq<char>>, k: nat) -> Seq<Option<usize>>
    decreases k,
{
    if k == 0 || k > pages.len() {
        Seq::empty()
    } else {
        let prev = reuse_plan(items, pages, (k - 1) as nat);
        prev.push(first_free_item(items, pages[k - 1], prev, 0))
    }
}

proof fn lemma_first_free_item(
    items: Seq<Seq<char>>,
    path: Seq<char>,
    taken: Seq<Option<usize>>,
    i: int,
)
    requires
        0 <= i,
        items.len() <= usize::MAX,
    ensures
        first_free_item(items, path, taken, i) matches Some(f) ==> i <= f < items.len() && items[f as int] == path
            && !taken.contains(Some(f)),
        first_free_item(items, path, taken, i) is None ==> forall|j: int|
            i <= j < items.len() && items[j] == path ==> taken.contains(Some(j as usize)),
    decreases items.len() - i,
{
    if i < items.len() {
        lemma_first_free_item(items, path, taken, i + 1);
    }
}

/// Match the pages of a project (by path) with the page items already on
/// screen (by path), reusing each item at most once, first come first
/// served; a page that gets `None` needs a new item and a thumbnail.
pub fn reconcile_items(item_paths: &Vec<String>, page_paths: &Vec<String>) -> (r: Vec<Option<usize>>)
    ensures
        r@ == reuse_plan(
            item_paths@.map_values(|s: String| s@),
            page_paths@.map_values(|s: String| s@),
            page_paths.len() as nat,
        ),
{
    let ghost items = item_paths@.map_values(|s: String| s@);
    let ghost pages = page_paths@.map_values(|s: String| s@);
    let ni = item_paths.len();
    let mut used: Vec<bool> = Vec::new();
    for i in 0..ni
        invariant
            used.len() == i,
            forall|j: int| 0 <= j < i ==> !used[j],
    {
        used.push(false);
    }
    let mut plan: Vec<Option<usize>> = Vec::new();
    for k in 0..page_paths.len()
        invariant
            ni == item_paths.len(),
            items == item_paths@.map_values(|s: String| s@),
            pages == page_paths@.map_values(|s: String| s@),
            used.len() == ni,
            plan@ == reuse_plan(items, pages, k as nat),
            forall|j: int| 0 <= j < ni ==> #[trigger] used[j] == plan@.contains(Some(j as usize)),
    {
        let ghost prev = plan@;
        let mut found: Option<usize> = None;
        let mut i: usize = 0;
        while i < ni && found.is_none()
            invariant
                ni == item_paths.len(),
                items == item_paths@.map_values(|s: String| s@),
                pages == page_paths@.map_values(|s: String| s@),
                used.len() == ni,
                i <= ni,
                k < page_paths.len(),
                forall|j: int| 0 <= j < ni ==> #[trigger] used[j] == prev.contains(Some(j as usize)),
                found is None ==> first_free_item(items, pages[k as int], prev, 0) == first_free_item(
                    items,
                    pages[k as int],
                    prev,
                    i as int,
                ),
                found is Some ==> found == first_free_item(items, pages[k as int], prev, 0),
            decreases ni - i + (if found is None { 1int } else { 0int }),
        {
            proof {
                assert(items[i as int] == item_paths@[i as int]@);
                assert(pages[k as int] == page_paths@[k as int]@);
            }
            if !used[i] && item_paths[i] == page_paths[k] {
                found = Some(i);
            } else {
                i = i + 1;
            }
        }
        proof {
            lemma_first_free_item(items, pages[k as int], prev, 0);
        }
        if let Some(f) = found {
            used.set(f, true);
        }
        plan.push(found);
        proof {
            assert(plan@ == reuse_plan(items, pages, (k + 1) as nat));
            assert forall|j: int| 0 <= j < ni implies #[trigger] used[j] == plan@.contains(Some(j as usize)) by {
                if prev.contains(Some(j as usize)) {
                    let t = choose|t: int| 0 <= t < prev.len() && prev[t] == Some(j as usize);
                    assert(plan@[t] == Some(j as usize));
                }
                if found == Some(j as usize) {
                    assert(plan@[prev.len() as int] == Some(j as usize));
                }
                if plan@.contains(Some(j as usize)) {
                    let t = choose|t: int| 0 <= t < plan@.len() && plan@[t] == Some(j as usize);
                    if t < prev.len() {
                        assert(prev[t] == Some(j as usize));
                    }
                }
            }
        }
    }
    plan
}

/// No item is reused by two pages, and a reused item has the page's path.
pub proof fn lemma_reuse_plan_sound(items: Seq<Seq<char>>, pages: Seq<Seq<char>>, k: nat)
    requires
        k <= pages.len(),
        items.len() <= usize::MAX,
    ensures
        reuse_plan(items, pages, k).len() == k,
        forall|a: int|
            0 <= a < k ==> (#[trigger] reuse_plan(items, pages, k)[a] matches Some(f) ==> f < items.len()
                && items[f as int] == pages[a]),
        forall|a: int, b: int|
            0 <= a < b < k && reuse_plan(items, pages, k)[a] is Some ==> #[trigger] reuse_plan(items, pages, k)[a]
                != #[trigger] reuse_plan(items, pages, k)[b],
    decreases k,
{
    if k > 0 {
        lemma_reuse_plan_sound(items, pages, (k - 1) as nat);
        let prev = reuse_plan(items, pages, (k - 1) as nat);
        lemma_first_free_item(items, pages[k - 1], prev, 0);
        let cur = reuse_plan(items, pages, k);
        assert forall|a: int, b: int|
            0 <= a < b < k && cur[a] is Some implies #[trigger] cur[a] != #[trigger] cur[b] by {
            if b == k - 1 {
                assert(cur[a] == prev[a]);
                if cur[b] == cur[a] {
                    assert(prev.contains(cur[a]));
                }
            }
        }
    }
}

proof fn lemma_reuse_plan_prefix(items: Seq<Seq<char>>, pages: Seq<Seq<char>>, m: nat, n: nat)
    requires
        m <= n <= pages.len(),
    ensures
        reuse_plan(items, pages, m).len() == m,
        reuse_plan(items, pages, n).len() == n,
        forall|a: int| 0 <= a < m ==> #[trigger] reuse_plan(items, pages, n)[a] == reuse_plan(items, pages, m)[a],
    decreases n,
{
    if n > 0 {
        if m < n {
            lemma_reuse_plan_prefix(items, pages, m, (n - 1) as nat);
        } else {
            lemma_reuse_plan_prefix(items, pages, (n - 1) as nat, (n - 1) as nat);
        }
    }
}

/// Thumbnails are reused wherever possible: a page is told it needs a new
/// item only when every loaded item with its path is already reused by an
/// earlier page. Together with [`lemma_reuse_plan_sound`], the pages with a
/// given path reuse as many loaded items of that path as there are, up to
/// their own number, wherever those items sit.
pub proof fn lemma_reuse_plan_complete(items: Seq<Seq<char>>, pages: Seq<Seq<char>>, n: nat, k: int, j: int)
    requires
        n <= pages.len(),
        items.len() <= usize::MAX,
        0 <= k < n,
        0 <= j < items.len(),
        items[j] == pages[k],
        reuse_plan(items, pages, n)[k] is None,
    ensures
        exists|a: int| 0 <= a < k && #[trigger] reuse_plan(items, pages, n)[a] == Some(j as usize),
{
    lemma_reuse_plan_prefix(items, pages, (k + 1) as nat, n);
    lemma_reuse_plan_prefix(items, pages, k as nat, n);
    let prev = reuse_plan(items, pages, k as nat);
    lemma_reuse_plan_prefix(items, pages, k as nat, (k + 1) as nat);
    assert(reuse_plan(items, pages, (k + 1) as nat)[k] == first_free_item(items, pages[k], prev, 0));
    lemma_first_free_item(items, pages[k], prev, 0);
    assert(prev.contains(Some(j as usize)));
    let a = choose|a: int| 0 <= a < prev.len() && prev[a] == Some(j as usize);
    assert(reuse_plan(items, pages, n)[a] == Some(j as usize));
}

/// How many of the first `n` selected positions lie before `before`.
pub open spec fn selected_below(s: Seq<u32>, before: int, n: nat) -> nat
    decreases n,
{
    if n == 0 || n > s.len() {
        0
    } else {
        selected_below(s, before, (n - 1) as nat) + if s[n - 1] < before {
            1nat
        } else {
            0nat
        }
    }
}

/// The `i`-th selected page's position after the selection `s` is moved as
/// one block in front of `before`: the unselected pages before `before`
/// come first, then the block in order.
pub open spec fn position_after_move(s: Seq<u32>, before: int, i: int) -> int {
    before - selected_below(s, before, s.len()) + i
}

proof fn lemma_consecutive_values(s: Seq<u32>, i: int)
    requires
        consecutive(s),
        0 <= i < s.len(),
    ensures
        s[i] == s[0] + i,
    decreases i,
{
    if i > 0 {
        lemma_consecutive_values(s, i - 1);
        assert(s[(i - 1) + 1] == s[i - 1] + 1);
    }
}

proof fn lemma_selected_below_block(s: Seq<u32>, before: int, n: nat)
    requires
        consecutive(s),
        n <= s.len(),
    ensures
        selected_below(s, before, n) == if before - s[0] < 0 {
            0
        } else if before - s[0] > n {
            n as int
        } else {
            before - s[0]
        },
    decreases n,
{
    if n > 0 {
        lemma_selected_below_block(s, before, (n - 1) as nat);
        lemma_consecutive_values(s, n - 1);
    }
}

/// A drop is discarded exactly when it would change nothing: for a
/// non-empty selection, [`drop_is_noop`] holds if and only if moving the
/// selected pages as one block in front of `before` puts every one of them
/// back at its own position (and so every other page too). In particular a
/// selection with a gap, or a block dropped away from itself, always moves.
pub proof fn lemma_drop_discarded_iff_unchanged(s: Seq<u32>, before: usize)
    requires
        s.len() > 0,
    ensures
        drop_is_noop(s, before) <==> forall|i: int|
            0 <= i < s.len() ==> #[trigger] position_after_move(s, before as int, i) == s[i],
{
    let b = before as int;
    if drop_is_noop(s, before) {
        lemma_selected_below_block(s, b, s.len());
        lemma_consecutive_values(s, s.len() - 1);
        assert forall|i: int| 0 <= i < s.len() implies #[trigger] position_after_move(s, b, i) == s[i] by {
            lemma_consecutive_values(s, i);
        }
    }
    if forall|i: int| 0 <= i < s.len() ==> #[trigger] position_after_move(s, b, i) == s[i] {
        assert(position_after_move(s, b, 0) == s[0]);
        assert forall|k: int| 0 <= k < s.len() - 1 implies #[trigger] s[k + 1] == s[k] + 1 by {
            assert(position_after_move(s, b, k) == s[k]);
            assert(position_after_move(s, b, k + 1) == s[k + 1]);
        }
        assert(consecutive(s));
        lemma_selected_below_block(s, b, s.len());
        lemma_consecutive_values(s, s.len() - 1);
        assert(position_after_move(s, b, s.len() - 1) == s[s.len() - 1]);
    }
}

} // verus!
