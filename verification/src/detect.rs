//! Placing the crops found by content detection: each page of a cluster
//! gets the cluster's preset size, centred on what was detected on that
//! page and kept inside the image.

use vstd::prelude::*;
use crate::project::{CropBox, CropPreset, CropPresetView, PageView, Project, page_with};

verus! {

/// `v` read as an `i32`, as `v as i32` does (values past `i32::MAX` wrap
/// to negative ones).
pub open spec fn as_i32(v: u32) -> int {
    if v <= i32::MAX {
        v as int
    } else {
        v - 0x1_0000_0000
    }
}

/// Integer division by two rounding toward zero, as `i32` division does.
pub open spec fn half_toward_zero(v: int) -> int {
    if v >= 0 {
        v / 2
    } else {
        -((-v) / 2)
    }
}

pub open spec fn fits_i32(v: int) -> bool {
    i32::MIN <= v <= i32::MAX
}

/// The centre of a detected span starting at `pos` of length `len`.
pub open spec fn centre_of(pos: u32, len: u32) -> int {
    as_i32(pos) + half_toward_zero(as_i32(len))
}

/// The start of a span of length `len` centred at `centre`, not before 0.
pub open spec fn centred_start(centre: int, len: u32) -> int {
    let s = centre - half_toward_zero(as_i32(len));
    if s < 0 {
        0
    } else {
        s
    }
}

/// A span of length `len` starting at `start`, moved back inside an image
/// side of length `bound` (0: unknown) when it sticks out.
pub open spec fn kept_inside(start: int, len: u32, bound: u32) -> int {
    if bound > 0 && start + len > bound {
        if bound >= len {
            bound - len
        } else {
            0
        }
    } else {
        start
    }
}

pub open spec fn min_max_one(a: u32, b: u32) -> u32 {
    let m = if a <= b {
        a
    } else {
        b
    };
    if m >= 1 {
        m
    } else {
        1
    }
}

/// The crop of a page whose detection is `d` in an image of `img_w` x
/// `img_h`, for a preset of `w` x `h` (already scaled down to fit the
/// image): centred on the detection, moved inside the image, its size cut
/// to the image (and at least one pixel).
pub open spec fn placed_crop(d: CropBox, img_w: u32, img_h: u32, w: u32, h: u32) -> CropBox {
    let x = kept_inside(centred_start(centre_of(d.x, d.w), w), w, img_w);
    let y = kept_inside(centred_start(centre_of(d.y, d.h), h), h, img_h);
    CropBox { x: x as u32, y: y as u32, w: min_max_one(w, img_w), h: min_max_one(h, img_h) }
}

/// The placement's `i32` and `u32` arithmetic does not overflow.
pub open spec fn placement_fits(d: CropBox, img_w: u32, img_h: u32, w: u32, h: u32) -> bool {
    &&& fits_i32(centre_of(d.x, d.w))
    &&& fits_i32(centre_of(d.y, d.h))
    &&& fits_i32(centre_of(d.x, d.w) - half_toward_zero(as_i32(w)))
    &&& fits_i32(centre_of(d.y, d.h) - half_toward_zero(as_i32(h)))
    &&& img_w > 0 ==> centred_start(centre_of(d.x, d.w), w) + w <= u32::MAX
    &&& img_h > 0 ==> centred_start(centre_of(d.y, d.h), h) + h <= u32::MAX
}

fn to_i64(v: u32) -> (r: i64)
    ensures
        r == as_i32(v),
{
    if v <= 0x7fff_ffff {
        v as i64
    } else {
        v as i64 - 0x1_0000_0000
    }
}

fn half_i64(v: i64) -> (r: i64)
    requires
        v > i64::MIN,
    ensures
        r == half_toward_zero(v as int),
{
    if v >= 0 {
        v / 2
    } else {
        -((-v) / 2)
    }
}

fn place_axis(pos: u32, len: u32, size: u32, bound: u32) -> (r: u32)
    requires
        fits_i32(centre_of(pos, len)),
        fits_i32(centre_of(pos, len) - half_toward_zero(as_i32(size))),
        bound > 0 ==> centred_start(centre_of(pos, len), size) + size <= u32::MAX,
    ensures
        r == kept_inside(centred_start(centre_of(pos, len), size), size, bound),
{
    let centre = to_i64(pos) + half_i64(to_i64(len));
    let s = centre - half_i64(to_i64(size));
    let start: u32 = if s < 0 {
        0
    } else {
        s as u32
    };
    if bound > 0 && start as u64 + size as u64 > bound as u64 {
        bound.saturating_sub(size)
    } else {
        start
    }
}

fn axis_in_range(pos: u32, len: u32, size: u32, bound: u32) -> (b: bool)
    ensures
        b == {
            &&& fits_i32(centre_of(pos, len))
            &&& fits_i32(centre_of(pos, len) - half_toward_zero(as_i32(size)))
            &&& bound > 0 ==> centred_start(centre_of(pos, len), size) + size <= u32::MAX
        },
{
    let centre = to_i64(pos) + half_i64(to_i64(len));
    if centre < -0x8000_0000 || centre > 0x7fff_ffff {
        return false;
    }
    let s = centre - half_i64(to_i64(size));
    if s < -0x8000_0000 || s > 0x7fff_ffff {
        return false;
    }
    let start: i64 = if s < 0 {
        0
    } else {
        s
    };
    !(bound > 0 && start + size as i64 > 0xffff_ffff)
}

/// Whether [`place_detected_crop`] can place this crop: its arithmetic
/// stays within `i32` and `u32` (see [`placement_fits`]).
pub fn placement_in_range(d: CropBox, img_w: u32, img_h: u32, w: u32, h: u32) -> (b: bool)
    ensures
        b == placement_fits(d, img_w, img_h, w, h),
{
    axis_in_range(d.x, d.w, w, img_w) && axis_in_range(d.y, d.h, h, img_h)
}

/// The crop given to a page of a detected cluster (see [`placed_crop`]).
pub fn place_detected_crop(d: CropBox, img_w: u32, img_h: u32, w: u32, h: u32) -> (c: CropBox)
    requires
        placement_fits(d, img_w, img_h, w, h),
    ensures
        c == placed_crop(d, img_w, img_h, w, h),
{
    let x = place_axis(d.x, d.w, w, img_w);
    let y = place_axis(d.y, d.h, h, img_h);
    let cw = if w <= img_w {
        w
    } else {
        img_w
    };
    let ch = if h <= img_h {
        h
    } else {
        img_h
    };
    CropBox { x, y, w: if cw >= 1 {
        cw
    } else {
        1
    }, h: if ch >= 1 {
        ch
    } else {
        1
    } }
}

/// What is known of a page before placing its crop: its detection and its
/// image size, or, for a page the detector reported nothing for, the whole
/// preset at the origin in an image of the preset's size (at least 1 x 1).
pub fn detection_or_default(found: Option<(CropBox, u32, u32)>, pw: u32, ph: u32) -> (r: (CropBox, u32, u32))
    ensures
        r == (match found {
            Some(f) => f,
            None => (CropBox { x: 0, y: 0, w: pw, h: ph }, if pw >= 1 {
                pw
            } else {
                1
            }, if ph >= 1 {
                ph
            } else {
                1
            }),
        }),
{
    match found {
        Some(f) => f,
        None => (CropBox { x: 0, y: 0, w: pw, h: ph }, if pw >= 1 {
            pw
        } else {
            1
        }, if ph >= 1 {
            ph
        } else {
            1
        }),
    }
}

/// A placed crop lies inside its image whenever the preset fits the image:
/// it starts within the image and ends at or before its border.
pub proof fn lemma_placed_crop_inside(d: CropBox, img_w: u32, img_h: u32, w: u32, h: u32)
    requires
        img_w > 0,
        img_h > 0,
        w <= img_w,
        h <= img_h,
    ensures
        placed_crop(d, img_w, img_h, w, h).x + w <= img_w,
        placed_crop(d, img_w, img_h, w, h).y + h <= img_h,
        placed_crop(d, img_w, img_h, w, h).w == (if w >= 1 {
            w
        } else {
            1
        }),
        placed_crop(d, img_w, img_h, w, h).h == (if h >= 1 {
            h
        } else {
            1
        }),
{
}

/// Detected crops are centred on the detection: whenever the preset fits
/// the image and the crop centred on the detection lies inside it, the
/// placed crop has the preset's size and the same centre as the detection
/// (halves rounded down), whether the detection is smaller or larger than
/// the preset.
pub proof fn lemma_placed_crop_centred(d: CropBox, img_w: u32, img_h: u32, w: u32, h: u32)
    requires
        1 <= w <= img_w,
        1 <= h <= img_h,
        d.x <= i32::MAX,
        d.w <= i32::MAX,
        d.y <= i32::MAX,
        d.h <= i32::MAX,
        w <= i32::MAX,
        h <= i32::MAX,
        0 <= d.x + d.w / 2 - w / 2,
        d.x + d.w / 2 - w / 2 + w <= img_w,
        0 <= d.y + d.h / 2 - h / 2,
        d.y + d.h / 2 - h / 2 + h <= img_h,
    ensures
        placed_crop(d, img_w, img_h, w, h).x + w / 2 == d.x + d.w / 2,
        placed_crop(d, img_w, img_h, w, h).y + h / 2 == d.y + d.h / 2,
        placed_crop(d, img_w, img_h, w, h).w == w,
        placed_crop(d, img_w, img_h, w, h).h == h,
{
}

/// A cluster of pages found alike by content detection: the preset they
/// share and, for each of its pages, the page's position and placed crop.
pub struct DetectedCluster {
    pub preset: CropPreset,
    pub pages: Vec<(usize, CropBox)>,
}

pub struct DetectedClusterView {
    pub preset: CropPresetView,
    pub pages: Seq<(usize, CropBox)>,
}

impl View for DetectedCluster {
    type V = DetectedClusterView;

    open spec fn view(&self) -> DetectedClusterView {
        DetectedClusterView { preset: self.preset@, pages: self.pages@ }
    }
}

/// `pages` once page `e.0` (if it exists) refers to preset `k` and has crop
/// `e.1`.
pub open spec fn page_assigned(pages: Seq<PageView>, k: usize, e: (usize, CropBox)) -> Seq<PageView> {
    if e.0 < pages.len() {
        pages.update(e.0 as int, page_with(pages[e.0 as int], Some(k), Some(e.1)))
    } else {
        pages
    }
}

/// `pages` after the first `n` entries of a cluster with preset `k`.
pub open spec fn cluster_assigned(pages: Seq<PageView>, k: usize, entries: Seq<(usize, CropBox)>, n: nat) -> Seq<
    PageView,
>
    decreases n,
{
    if n == 0 || n > entries.len() {
        pages
    } else {
        page_assigned(cluster_assigned(pages, k, entries, (n - 1) as nat), k, entries[n - 1])
    }
}

/// `pages` after the first `n` clusters, the `c`-th of which gets preset
/// `base + c`.
pub open spec fn clusters_assigned(pages: Seq<PageView>, base: nat, clusters: Seq<DetectedClusterView>, n: nat) -> Seq<
    PageView,
>
    decreases n,
{
    if n == 0 || n > clusters.len() {
        pages
    } else {
        let c = clusters[n - 1];
        cluster_assigned(
            clusters_assigned(pages, base, clusters, (n - 1) as nat),
            (base + n - 1) as usize,
            c.pages,
            c.pages.len(),
        )
    }
}

/// Record the result of content detection: each cluster adds its preset
/// after the existing ones, in order, and each of its pages then refers to
/// that preset with its placed crop (a later entry for the same page wins;
/// positions that are not pages are skipped).
pub fn apply_detected_clusters(project: &mut Project, clusters: &Vec<DetectedCluster>)
    requires
        old(project).crop_presets.len() + clusters.len() <= usize::MAX,
    ensures
        final(project)@.presets == old(project)@.presets + clusters@.map_values(
            |c: DetectedCluster| c@.preset,
        ),
        final(project)@.pages == clusters_assigned(
            old(project)@.pages,
            old(project)@.presets.len(),
            clusters@.map_values(|c: DetectedCluster| c@),
            clusters.len() as nat,
        ),
{
    let ghost old_p = project@;
    let ghost cv = clusters@.map_values(|c: DetectedCluster| c@);
    let base = project.crop_presets.len();
    let nc = clusters.len();
    for c in 0..nc
        invariant
            nc == clusters.len(),
            base == old_p.presets.len(),
            base + nc <= usize::MAX,
            cv == clusters@.map_values(|c: DetectedCluster| c@),
            project.crop_presets.len() == base + c,
            project@.presets == old_p.presets + clusters@.subrange(0, c as int).map_values(
                |c: DetectedCluster| c@.preset,
            ),
            project@.pages == clusters_assigned(old_p.pages, base as nat, cv, c as nat),
    {
        let cl = &clusters[c];
        let k = base + c;
        let preset = CropPreset {
            name: cl.preset.name.clone(),
            w: cl.preset.w,
            h: cl.preset.h,
            locked: cl.preset.locked,
        };
        assert(preset@ == cl@.preset);
        let ghost prev = project@.presets;
        project.crop_presets.push(preset);
        proof {
            let want = old_p.presets + clusters@.subrange(0, c + 1).map_values(|c: DetectedCluster| c@.preset);
            assert(project@.presets.len() == want.len());
            assert forall|i: int| 0 <= i < want.len() implies project@.presets[i] == want[i] by {
                if i < prev.len() {
                    assert(project@.presets[i] == project.crop_presets@[i]@);
                    assert(prev[i] == want[i]);
                } else {
                    assert(project@.presets[i] == project.crop_presets@[i]@);
                }
            }
            assert(project@.presets =~= want);
        }
        let ghost start = project@.pages;
        let ne = cl.pages.len();
        for e in 0..ne
            invariant
                ne == cl.pages.len(),
                cl == clusters@[c as int],
                k == base + c,
                k < usize::MAX,
                project@.presets == old_p.presets + clusters@.subrange(0, c + 1).map_values(
                    |c: DetectedCluster| c@.preset,
                ),
                project.crop_presets.len() == base + c + 1,
                project@.pages == cluster_assigned(start, k, cl.pages@, e as nat),
        {
            let (idx, crop) = cl.pages[e];
            let ghost before = project@.pages;
            if idx < project.pages.len() {
                let updated = project.pages[idx].with_preset_and_crop(Some(k), Some(crop));
                project.pages.set(idx, updated);
                proof {
                    assert(project@.pages =~= before.update(
                        idx as int,
                        page_with(before[idx as int], Some(k), Some(crop)),
                    ));
                }
            }
            proof {
                assert(project@.presets =~= old_p.presets + clusters@.subrange(0, c + 1).map_values(
                    |c: DetectedCluster| c@.preset,
                ));
            }
        }
        proof {
            assert(cv[c as int] == cl@);
        }
    }
    proof {
        assert(clusters@.subrange(0, nc as int) =~= clusters@);
    }
}

} // verus!
