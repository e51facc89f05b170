//! Decimal rendering of counters and the short messages built from them.

use vstd::prelude::*;

verus! {

/// The character for a decimal digit `d` (0..=9).
pub open spec fn digit_char(d: nat) -> char {
    if d == 0 { '0' }
    else if d == 1 { '1' }
    else if d == 2 { '2' }
    else if d == 3 { '3' }
    else if d == 4 { '4' }
    else if d == 5 { '5' }
    else if d == 6 { '6' }
    else if d == 7 { '7' }
    else if d == 8 { '8' }
    else { '9' }
}

/// The decimal representation of `n`, without leading zeros.
pub open spec fn decimal(n: nat) -> Seq<char>
    decreases n,
{
    if n < 10 {
        seq![digit_char(n)]
    } else {
        decimal(n / 10).push(digit_char(n % 10))
    }
}

fn digit_str(d: u64) -> (s: &'static str)
    requires
        d < 10,
    ensures
        s@ == seq![digit_char(d as nat)],
{
    proof {
        reveal_strlit("0");
        reveal_strlit("1");
        reveal_strlit("2");
        reveal_strlit("3");
        reveal_strlit("4");
        reveal_strlit("5");
        reveal_strlit("6");
        reveal_strlit("7");
        reveal_strlit("8");
        reveal_strlit("9");
    }
    if d == 0 { "0" }
    else if d == 1 { "1" }
    else if d == 2 { "2" }
    else if d == 3 { "3" }
    else if d == 4 { "4" }
    else if d == 5 { "5" }
    else if d == 6 { "6" }
    else if d == 7 { "7" }
    else if d == 8 { "8" }
    else { "9" }
}

/// Appends the decimal representation of `n` to `s`.
pub fn push_decimal(s: &mut String, n: u64)
    ensures
        final(s)@ == old(s)@ + decimal(n as nat),
    decreases n,
{
    if n >= 10 {
        push_decimal(s, n / 10);
        let d = digit_str(n % 10);
        s.append(d);
        proof {
            assert(decimal(n as nat) == decimal((n / 10) as nat).push(digit_char((n % 10) as nat)));
        }
    } else {
        let d = digit_str(n);
        s.append(d);
    }
}

/// The decimal representation of `n` as a new string.
pub fn decimal_string(n: u64) -> (s: String)
    ensures
        s@ == decimal(n as nat),
{
    let mut s = String::new();
    push_decimal(&mut s, n);
    s
}


/// "s" unless there is exactly one.
pub open spec fn plural_suffix(n: nat) -> Seq<char> {
    if n == 1 {
        Seq::empty()
    } else {
        seq!['s']
    }
}

fn push_plural(s: &mut String, n: u64)
    ensures
        final(s)@ == old(s)@ + plural_suffix(n as nat),
{
    if n != 1 {
        proof {
            reveal_strlit("s");
        }
        s.append("s");
    } else {
        assert(old(s)@ + plural_suffix(n as nat) =~= old(s)@);
    }
}

/// `prefix`, the number `n`, `noun` and its plural ending.
pub open spec fn counted(prefix: Seq<char>, n: nat, noun: Seq<char>) -> Seq<char> {
    prefix + decimal(n) + noun + plural_suffix(n)
}

fn counted_message(prefix: &str, n: u64, noun: &str) -> (s: String)
    ensures
        s@ == counted(prefix@, n as nat, noun@),
{
    let mut s = String::new();
    s.append(prefix);
    push_decimal(&mut s, n);
    s.append(noun);
    push_plural(&mut s, n);
    proof {
        assert(s@ =~= counted(prefix@, n as nat, noun@));
    }
    s
}

/// The notice shown after images were added: "Added 3 images".
pub fn added_images_message(n: u64) -> (s: String)
    ensures
        s@ == counted("Added "@, n as nat, " image"@),
{
    counted_message("Added ", n, " image")
}

/// The notice shown after pages were deleted: "Deleted 1 page".
pub fn deleted_pages_message(n: u64) -> (s: String)
    ensures
        s@ == counted("Deleted "@, n as nat, " page"@),
{
    counted_message("Deleted ", n, " page")
}

/// The notice shown after a project was opened: "Opened project with 2 pages".
pub fn opened_project_message(n: u64) -> (s: String)
    ensures
        s@ == counted("Opened project with "@, n as nat, " page"@),
{
    counted_message("Opened project with ", n, " page")
}

/// The page counter: "12 images" (always plural, as shown in the toolbar).
pub fn image_count_label(n: u64) -> (s: String)
    ensures
        s@ == decimal(n as nat) + " images"@,
{
    let mut s = String::new();
    push_decimal(&mut s, n);
    s.append(" images");
    s
}

/// The selection counter: "2 selected".
pub fn selected_count_label(n: u64) -> (s: String)
    ensures
        s@ == decimal(n as nat) + " selected"@,
{
    let mut s = String::new();
    push_decimal(&mut s, n);
    s.append(" selected");
    s
}

/// Export progress: "done/total".
pub fn progress_text(done: u64, total: u64) -> (s: String)
    ensures
        s@ == decimal(done as nat) + "/"@ + decimal(total as nat),
{
    let mut s = String::new();
    push_decimal(&mut s, done);
    s.append("/");
    push_decimal(&mut s, total);
    s
}

/// The notice shown after content detection: "Detected 2 presets across
/// 9 pages".
pub fn detected_presets_message(presets: u64, pages: u64) -> (s: String)
    ensures
        s@ == counted("Detected "@, presets as nat, " preset"@) + counted(" across "@, pages as nat, " page"@),
{
    let mut s = counted_message("Detected ", presets, " preset");
    let tail = counted_message(" across ", pages, " page");
    s.append(tail.as_str());
    s
}

} // verus!
