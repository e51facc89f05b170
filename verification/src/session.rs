//! The editing session around a project: which events leave unsaved
//! changes, what the window title says, and when closing must ask first.

use vstd::prelude::*;

verus! {

/// What happened to the project, as announced to the views.
#[derive(Copy, Clone, Debug, PartialEq, Eq, Structural)]
pub enum ProjectEvent {
    PagesAdded,
    PagesRemoved,
    PagesReordered,
    PageChanged,
    GlobalSettingsChanged,
    PresetsChanged,
    ProjectChanged,
    /// A project was opened: a clean session starts.
    ProjectLoaded,
    /// The project was cleared: a clean session starts.
    ProjectCleared,
}

/// Every change to the project leaves unsaved changes; opening or clearing
/// a project starts a clean session instead.
pub fn event_marks_dirty(e: ProjectEvent) -> (b: bool)
    ensures
        b <==> !(e is ProjectLoaded || e is ProjectCleared),
{
    match e {
        ProjectEvent::ProjectLoaded | ProjectEvent::ProjectCleared => false,
        _ => true,
    }
}

/// The subtitle under the project's name.
pub fn title_subtitle(dirty: bool) -> (s: &'static str)
    ensures
        s@ == (if dirty {
            "Unsaved changes"@
        } else {
            ""@
        }),
{
    if dirty {
        "Unsaved changes"
    } else {
        ""
    }
}

/// The window title for a project shown as `name`.
pub fn window_title(name: &str) -> (t: String)
    ensures
        t@ == name@ + " \u{2014} Recto"@,
{
    let mut t = String::new();
    t.append(name);
    t.append(" \u{2014} Recto");
    t
}

/// How a request to close the window is answered.
#[derive(Copy, Clone, Debug, PartialEq, Eq, Structural)]
pub enum CloseDecision {
    /// Close now.
    Proceed,
    /// Keep the window and ask whether to save, discard or cancel.
    AskFirst,
}

/// Close at once when the user already confirmed (`forced`) or nothing is
/// unsaved; otherwise ask first.
pub fn close_decision(forced: bool, dirty: bool) -> (d: CloseDecision)
    ensures
        d == (if forced || !dirty {
            CloseDecision::Proceed
        } else {
            CloseDecision::AskFirst
        }),
{
    if forced || !dirty {
        CloseDecision::Proceed
    } else {
        CloseDecision::AskFirst
    }
}

/// The answers of the "Save changes?" dialog.
#[derive(Copy, Clone, Debug, PartialEq, Eq, Structural)]
pub enum DiscardChoice {
    /// Drop the changes and go on.
    Discard,
    /// Stay.
    Cancel,
    /// Save, and go on once saving succeeded.
    Save,
}

/// What follows an answer of the "Save changes?" dialog.
#[derive(Copy, Clone, Debug, PartialEq, Eq, Structural)]
pub enum AfterChoice {
    /// Run the pending action now.
    Continue,
    /// Save first; run the pending action only if saving succeeds.
    SaveThenContinue,
    /// Do nothing.
    Stay,
}

pub fn after_choice(c: DiscardChoice) -> (a: AfterChoice)
    ensures
        a == (match c {
            DiscardChoice::Discard => AfterChoice::Continue,
            DiscardChoice::Save => AfterChoice::SaveThenContinue,
            DiscardChoice::Cancel => AfterChoice::Stay,
        }),
{
    match c {
        DiscardChoice::Discard => AfterChoice::Continue,
        DiscardChoice::Save => AfterChoice::SaveThenContinue,
        DiscardChoice::Cancel => AfterChoice::Stay,
    }
}

/// A file name has an extension when it holds a `.` after its first
/// character (a leading dot alone marks a hidden file, not an extension).
pub open spec fn has_extension(name: Seq<char>) -> bool {
    exists|i: int| 1 <= i < name.len() && name[i] == '.'
}

/// The file name a project is saved under: `name` as chosen, with the
/// ".recto" extension added when it has none.
pub fn project_file_name(name: &str) -> (r: String)
    ensures
        r@ == if has_extension(name@) {
            name@
        } else {
            name@ + ".recto"@
        },
{
    broadcast use vstd::string::axiom_spec_iter;
    let mut found = false;
    let mut started = false;
    for c in it: name.chars()
        invariant
            it.seq() == name@,
            started == (it.index() > 0),
            found <==> exists|i: int| 1 <= i < it.index() && name@[i] == '.',
    {
        if started && c == '.' {
            found = true;
        }
        started = true;
    }
    let mut r = String::new();
    r.append(name);
    if !found {
        r.append(".recto");
    }
    r
}

} // verus!
