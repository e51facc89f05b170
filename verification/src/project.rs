//! The project model: pages, their crops and rotations, and crop presets.

use vstd::prelude::*;
use crate::text::decimal;

verus! {

/// A crop rectangle in image pixels.
#[derive(Clone, Copy, Debug, PartialEq, Eq, Structural)]
pub struct CropBox {
    pub x: u32,
    pub y: u32,
    pub w: u32,
    pub h: u32,
}

/// A crop size shared by a group of pages.
pub struct CropPreset {
    pub name: String,
    pub w: u32,
    pub h: u32,
    pub locked: bool,
}

pub struct CropPresetView {
    pub name: Seq<char>,
    pub w: u32,
    pub h: u32,
    pub locked: bool,
}

impl View for CropPreset {
    type V = CropPresetView;

    open spec fn view(&self) -> CropPresetView {
        CropPresetView { name: self.name@, w: self.w, h: self.h, locked: self.locked }
    }
}

/// One scanned page: its file, rotation in degrees, crop and preset.
pub struct Page {
    pub path: String,
    pub rotation: u16,
    pub crop: Option<CropBox>,
    pub crop_preset: Option<usize>,
}

pub struct PageView {
    pub path: Seq<char>,
    pub rotation: u16,
    pub crop: Option<CropBox>,
    pub crop_preset: Option<usize>,
}

impl View for Page {
    type V = PageView;

    open spec fn view(&self) -> PageView {
        PageView {
            path: self.path@,
            rotation: self.rotation,
            crop: self.crop,
            crop_preset: self.crop_preset,
        }
    }
}

/// The pages of a book and the crop presets they refer to by index.
pub struct Project {
    pub pages: Vec<Page>,
    pub crop_presets: Vec<CropPreset>,
}

pub struct ProjectView {
    pub pages: Seq<PageView>,
    pub presets: Seq<CropPresetView>,
}

impl View for Project {
    type V = ProjectView;

    open spec fn view(&self) -> ProjectView {
        ProjectView {
            pages: self.pages@.map_values(|p: Page| p@),
            presets: self.crop_presets@.map_values(|c: CropPreset| c@),
        }
    }
}

/// The name a preset at position `k` carries: "Preset k+1".
pub open spec fn preset_name(k: nat) -> Seq<char> {
    "Preset "@ + decimal(k + 1)
}

/// A page with a different crop preset and crop.
pub open spec fn page_with(p: PageView, preset: Option<usize>, crop: Option<CropBox>) -> PageView {
    PageView { path: p.path, rotation: p.rotation, crop: crop, crop_preset: preset }
}

impl Page {
    /// A copy of this page with its preset and crop replaced.
    pub fn with_preset_and_crop(&self, preset: Option<usize>, crop: Option<CropBox>) -> (r: Page)
        ensures
            r@ == page_with(self@, preset, crop),
    {
        Page { path: self.path.clone(), rotation: self.rotation, crop: crop, crop_preset: preset }
    }
}

impl CropPreset {
    /// A copy of this preset with another name.
    pub fn renamed(&self, name: String) -> (r: CropPreset)
        ensures
            r@ == (CropPresetView { name: name@, ..self@ }),
    {
        CropPreset { name: name, w: self.w, h: self.h, locked: self.locked }
    }
}

/// The name of the preset at position `k`, "Preset k+1".
pub fn make_preset_name(k: usize) -> (s: String)
    requires
        k < usize::MAX,
    ensures
        s@ == preset_name(k as nat),
{
    let mut s = String::new();
    proof {
        reveal_strlit("Preset ");
    }
    s.append("Preset ");
    crate::text::push_decimal(&mut s, (k + 1) as u64);
    s
}

} // verus!
