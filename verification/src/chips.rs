//! The row of preset chips in the crop view: one chip per preset, with its
//! label, tooltip, colour, lock state and whether it can be deleted.

use vstd::prelude::*;
use crate::text::{decimal, push_decimal};
use crate::project::{Project, ProjectView, preset_name, make_preset_name};
use crate::presets::{preset_uses, preset_ref_counts};

verus! {

/// Number of chip colours; presets cycle through them.
pub const CHIP_COLORS: usize = 8;

/// What one preset chip shows.
pub struct PresetChip {
    /// "Preset k+1".
    pub label: String,
    /// The label followed by the preset's size, "Preset k+1 (W\u{d7}H)".
    pub tooltip: String,
    /// Which of the [`CHIP_COLORS`] colours the chip has.
    pub color_class: usize,
    /// The current page uses this preset.
    pub active: bool,
    pub locked: bool,
    /// No page uses the preset, so it may be deleted.
    pub deletable: bool,
}

/// The preset the page at `current` refers to, if there is such a page.
pub open spec fn current_preset(p: ProjectView, current: Option<usize>) -> Option<usize> {
    match current {
        Some(i) => if i < p.pages.len() {
            p.pages[i as int].crop_preset
        } else {
            None
        },
        None => None,
    }
}

/// The tooltip of the chip of preset `k`.
pub open spec fn chip_tooltip(p: ProjectView, k: int) -> Seq<char> {
    preset_name(k as nat) + " ("@ + decimal(p.presets[k].w as nat) + "\u{d7}"@ + decimal(p.presets[k].h as nat)
        + ")"@
}

/// Chip `c` is the chip of preset `k` of `p`, with the page at `current`
/// being shown.
pub open spec fn is_chip_of(c: PresetChip, p: ProjectView, current: Option<usize>, k: int) -> bool {
    &&& c.label@ == preset_name(k as nat)
    &&& c.tooltip@ == chip_tooltip(p, k)
    &&& c.color_class == k % (CHIP_COLORS as int)
    &&& c.active == (current_preset(p, current) == Some(k as usize))
    &&& c.locked == p.presets[k].locked
    &&& c.deletable == (preset_uses(p.pages, k, p.pages.len()) == 0)
}

/// The chips of all presets, in order, for the page at `current`.
pub fn preset_chips(project: &Project, current: Option<usize>) -> (chips: Vec<PresetChip>)
    ensures
        chips.len() == project@.presets.len(),
        forall|k: int| 0 <= k < chips.len() ==> is_chip_of(#[trigger] chips[k], project@, current, k),
{
    let ghost p = project@;
    let refs = preset_ref_counts(project);
    let cur: Option<usize> = match current {
        Some(i) => if i < project.pages.len() {
            assert(p.pages[i as int] == project.pages@[i as int]@);
            project.pages[i].crop_preset
        } else {
            None
        },
        None => None,
    };
    let n = project.crop_presets.len();
    let mut chips: Vec<PresetChip> = Vec::new();
    for k in 0..n
        invariant
            n == project.crop_presets.len(),
            p == project@,
            refs.len() == n,
            forall|j: int| 0 <= j < n ==> #[trigger] refs[j] == preset_uses(p.pages, j, p.pages.len()),
            cur == current_preset(p, current),
            chips.len() == k,
            forall|j: int| 0 <= j < k ==> is_chip_of(#[trigger] chips[j], p, current, j),
    {
        let preset = &project.crop_presets[k];
        assert(p.presets[k as int] == preset@);
        let label = make_preset_name(k);
        let mut tooltip = make_preset_name(k);
        tooltip.append(" (");
        push_decimal(&mut tooltip, preset.w as u64);
        tooltip.append("\u{d7}");
        push_decimal(&mut tooltip, preset.h as u64);
        tooltip.append(")");
        let active = match cur {
            Some(pi) => pi == k,
            None => false,
        };
        let chip = PresetChip {
            label,
            tooltip,
            color_class: k % CHIP_COLORS,
            active,
            locked: preset.locked,
            deletable: refs[k] == 0,
        };
        proof {
            assert(chip.tooltip@ =~= chip_tooltip(p, k as int));
        }
        chips.push(chip);
    }
    chips
}

/// The icon and tooltip of a chip's lock button.
pub fn lock_button_look(locked: bool) -> (r: (&'static str, &'static str))
    ensures
        locked ==> r.0@ == "changes-prevent-symbolic"@ && r.1@
            == "Locked \u{2014} drag won't change the preset size"@,
        !locked ==> r.0@ == "changes-allow-symbolic"@ && r.1@
            == "Unlocked \u{2014} drag updates the preset for all pages in this group"@,
{
    if locked {
        ("changes-prevent-symbolic", "Locked \u{2014} drag won't change the preset size")
    } else {
        ("changes-allow-symbolic", "Unlocked \u{2014} drag updates the preset for all pages in this group")
    }
}

/// After a preset was deleted, the crop shown in the editor is cleared when
/// the current page no longer has a preset.
pub fn clears_editor_after_delete(project: &Project, current: Option<usize>) -> (b: bool)
    ensures
        b <==> match current {
            Some(i) => i < project@.pages.len() && project@.pages[i as int].crop_preset is None,
            None => false,
        },
{
    match current {
        Some(i) => {
            if i < project.pages.len() {
                assert(project@.pages[i as int] == project.pages@[i as int]@);
                project.pages[i].crop_preset.is_none()
            } else {
                false
            }
        },
        None => false,
    }
}

/// The page the crop view opens on: the first selected one; with nothing
/// selected, the first page, which then gets selected (`select_first`);
/// with no pages, none.
pub fn crop_view_page(first_selected: Option<usize>, page_count: usize) -> (r: (Option<usize>, bool))
    ensures
        r == (match first_selected {
            Some(i) => (Some(i), false),
            None => if page_count > 0 {
                (Some(0usize), true)
            } else {
                (None::<usize>, false)
            },
        }),
{
    match first_selected {
        Some(i) => (Some(i), false),
        None => if page_count > 0 {
            (Some(0), true)
        } else {
            (None, false)
        },
    }
}

/// The colour (red, green, blue) of the presets of colour class `c`.
pub open spec fn chip_palette(c: int) -> (u8, u8, u8) {
    if c == 0 {
        (0x35, 0x84, 0xe4)
    } else if c == 1 {
        (0x33, 0xd1, 0x7a)
    } else if c == 2 {
        (0xff, 0x78, 0x00)
    } else if c == 3 {
        (0x91, 0x41, 0xac)
    } else if c == 4 {
        (0xed, 0x33, 0x3b)
    } else if c == 5 {
        (0x1c, 0x71, 0xd8)
    } else if c == 6 {
        (0xc0, 0x61, 0xcb)
    } else {
        (0x98, 0x6a, 0x44)
    }
}

/// The colour in which preset `i`'s chip and crop outlines are drawn; the
/// presets cycle through [`CHIP_COLORS`] colours.
pub fn preset_color_rgb(i: usize) -> (r: (u8, u8, u8))
    ensures
        r == chip_palette(i as int % CHIP_COLORS as int),
{
    let c = i % CHIP_COLORS;
    if c == 0 {
        (0x35, 0x84, 0xe4)
    } else if c == 1 {
        (0x33, 0xd1, 0x7a)
    } else if c == 2 {
        (0xff, 0x78, 0x00)
    } else if c == 3 {
        (0x91, 0x41, 0xac)
    } else if c == 4 {
        (0xed, 0x33, 0x3b)
    } else if c == 5 {
        (0x1c, 0x71, 0xd8)
    } else if c == 6 {
        (0xc0, 0x61, 0xcb)
    } else {
        (0x98, 0x6a, 0x44)
    }
}

} // verus!
