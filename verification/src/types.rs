//! Identifiers for pages and preview requests, and the application's errors.

use vstd::prelude::*;
use crate::text::{decimal, decimal_string};

verus! {

/// `anyhow::Error`, carried as the source of an [`AppError`].
#[verifier::external_type_specification]
#[verifier::external_body]
pub struct ExAnyhowError(anyhow::Error);

/// Identity of a page item, stable while the page exists.
#[derive(Copy, Clone, Debug, Default, PartialEq, Eq, Hash, Structural)]
pub struct PageId(u64);

/// The source of fresh page identities. Ids start at 1 and increase by one
/// per allocation, wrapping around at `u64::MAX` as the counter does.
pub struct PageIdSource {
    next: u64,
}

impl PageIdSource {
    /// The value the next allocated id will carry.
    pub closed spec fn next_value(&self) -> u64 {
        self.next
    }

    /// A fresh source; the first id it hands out is 1.
    pub fn new() -> (s: PageIdSource)
        ensures
            s.next_value() == 1,
    {
        PageIdSource { next: 1 }
    }
}

impl PageId {
    /// The raw number of this id.
    pub closed spec fn value(&self) -> u64 {
        self.0
    }

    /// Allocate a fresh id from `source`: the id carries the source's next
    /// value, and the source moves on by one (wrapping).
    pub fn new(source: &mut PageIdSource) -> (id: PageId)
        ensures
            id.value() == old(source).next_value(),
            final(source).next_value() == wrapping_sum(old(source).next_value(), 1),
    {
        let id = PageId(source.next);
        source.next = source.next.wrapping_add(1);
        id
    }

    pub fn as_u64(self) -> (v: u64)
        ensures
            v == self.value(),
    {
        self.0
    }

    /// Two ids are equal exactly when their numbers are.
    pub proof fn lemma_eq_by_value(self, other: PageId)
        ensures
            (self == other) <==> (self.value() == other.value()),
    {
    }

    /// Decimal rendering of the id.
    pub fn to_string(&self) -> (s: String)
        ensures
            s@ == decimal(self.value() as nat),
    {
        decimal_string(self.0)
    }
}

impl From<PageId> for u64 {
    fn from(id: PageId) -> (v: u64) {
        id.0
    }
}

impl vstd::std_specs::convert::FromSpecImpl<PageId> for u64 {
    open spec fn obeys_from_spec() -> bool {
        true
    }

    open spec fn from_spec(id: PageId) -> u64 {
        id.value()
    }
}

/// Identity of a preview request; the newest request wins.
#[derive(Copy, Clone, Debug, PartialEq, Eq, Structural)]
pub struct RequestId(u64);

impl RequestId {
    /// The raw number of this id.
    pub closed spec fn value(&self) -> u64 {
        self.0
    }

    /// The id `n` steps after this one, wrapping around.
    pub closed spec fn advanced(self, n: u64) -> RequestId {
        RequestId(wrapping_sum(self.0, n))
    }

    /// Advancing an id by `n` adds `n` to its number, modulo 2^64.
    pub proof fn lemma_advanced_value(self, n: u64)
        ensures
            self.advanced(n).value() == wrapping_sum(self.value(), n),
    {
    }

    /// The id with raw number `v`.
    pub fn from_u64(v: u64) -> (id: RequestId)
        ensures
            id.value() == v,
    {
        RequestId(v)
    }

    pub fn as_u64(self) -> (v: u64)
        ensures
            v == self.value(),
    {
        self.0
    }
}

/// The counter value `v` after `k` steps of one, wrapping around at
/// `u64::MAX`: the page id source after `k` allocations, or a request
/// sender after `k` requests.
pub open spec fn advanced_by(v: u64, k: nat) -> u64
    decreases k,
{
    if k == 0 {
        v
    } else {
        wrapping_sum(advanced_by(v, (k - 1) as nat), 1)
    }
}

/// `k` steps of one from `v` add `k` to `v`, modulo 2^64.
pub proof fn lemma_advanced_by_value(v: u64, k: nat)
    ensures
        advanced_by(v, k) as int == (v as int + k) % 0x1_0000_0000_0000_0000,
    decreases k,
{
    let m = 0x1_0000_0000_0000_0000int;
    if k == 0 {
        vstd::arithmetic::div_mod::lemma_small_mod(v as nat, m as nat);
    } else {
        lemma_advanced_by_value(v, (k - 1) as nat);
        let prev = advanced_by(v, (k - 1) as nat) as int;
        vstd::arithmetic::div_mod::lemma_add_mod_noop(v as int + k - 1, 1, m);
        vstd::arithmetic::div_mod::lemma_small_mod(1, m as nat);
        vstd::arithmetic::div_mod::lemma_mod_twice(v as int + k - 1, m);
        assert(((prev % m) + (1int % m)) % m == (v as int + k) % m);
        vstd::arithmetic::div_mod::lemma_small_mod(prev as nat, m as nat);
    }
}

/// Counter values never repeat within 2^64 steps: `j - i` further steps
/// (`0 < j - i < 2^64`) never return to the same value. Without wrapping
/// (`v + j <= u64::MAX`) the values strictly increase.
pub proof fn lemma_advanced_by_distinct(v: u64, i: nat, j: nat)
    requires
        i < j,
        j - i < 0x1_0000_0000_0000_0000,
    ensures
        advanced_by(v, i) != advanced_by(v, j),
        v + j <= u64::MAX ==> advanced_by(v, i) < advanced_by(v, j),
{
    let m = 0x1_0000_0000_0000_0000int;
    lemma_advanced_by_value(v, i);
    lemma_advanced_by_value(v, j);
    let a = v as int + i;
    let b = v as int + j;
    vstd::arithmetic::div_mod::lemma_fundamental_div_mod(a, m);
    vstd::arithmetic::div_mod::lemma_fundamental_div_mod(b, m);
    if v + j <= u64::MAX {
        vstd::arithmetic::div_mod::lemma_small_mod(a as nat, m as nat);
        vstd::arithmetic::div_mod::lemma_small_mod(b as nat, m as nat);
    } else if a % m == b % m {
        // Equal remainders would make `b - a`, with `0 < b - a < 2^64`, a
        // multiple of 2^64.
        let qa = a / m;
        let qb = b / m;
        let r = a % m;
        assert(false) by (nonlinear_arith)
            requires
                a == m * qa + r,
                b == m * qb + r,
                0 < b - a < m,
                m > 0,
        ;
    }
}

/// Page ids are unique: a fresh source hands out `advanced_by(1, i)` as its
/// `i`-th id (counting from 0), as `PageIdSource::new` and `PageId::new`
/// state. Among fewer than 2^64 allocations, ids are pairwise distinct,
/// never 0 (the default id), and increase from one allocation to the next.
pub proof fn lemma_page_ids_unique(i: nat, j: nat)
    requires
        i < j,
        j < u64::MAX,
    ensures
        advanced_by(1, i) != advanced_by(1, j),
        advanced_by(1, i) < advanced_by(1, j),
        advanced_by(1, i) != 0,
        advanced_by(1, j) != 0,
{
    lemma_advanced_by_distinct(1, i, j);
    lemma_advanced_by_value(1, i);
    lemma_advanced_by_value(1, j);
    vstd::arithmetic::div_mod::lemma_small_mod((1 + i) as nat, 0x1_0000_0000_0000_0000nat);
    vstd::arithmetic::div_mod::lemma_small_mod((1 + j) as nat, 0x1_0000_0000_0000_0000nat);
}

/// `a + b` modulo 2^64.
pub open spec fn wrapping_sum(a: u64, b: u64) -> u64 {
    ((a as int + b as int) % 0x1_0000_0000_0000_0000) as u64
}

impl core::ops::Add<u64> for RequestId {
    type Output = RequestId;

    fn add(self, rhs: u64) -> (r: RequestId) {
        RequestId(self.0.wrapping_add(rhs))
    }
}

impl vstd::std_specs::ops::AddSpecImpl<u64> for RequestId {
    open spec fn obeys_add_spec() -> bool {
        true
    }

    open spec fn add_req(self, rhs: u64) -> bool {
        true
    }

    open spec fn add_spec(self, rhs: u64) -> RequestId {
        self.advanced(rhs)
    }
}

/// Failures the application reports to the user.
#[derive(Debug)]
pub enum AppError {
    ProjectLoad(anyhow::Error),
    ProjectSave(anyhow::Error),
    Export(anyhow::Error),
}

/// The message shown for each kind of error.
pub open spec fn app_error_message(e: &AppError) -> Seq<char> {
    match e {
        AppError::ProjectLoad(_) => "Failed to load project"@,
        AppError::ProjectSave(_) => "Failed to save project"@,
        AppError::Export(_) => "Failed to export"@,
    }
}

impl AppError {
    /// The user-facing message of this error.
    pub fn message(&self) -> (s: &'static str)
        ensures
            s@ == app_error_message(self),
    {
        match self {
            AppError::ProjectLoad(_) => "Failed to load project",
            AppError::ProjectSave(_) => "Failed to save project",
            AppError::Export(_) => "Failed to export",
        }
    }
}

} // verus!
