//! Latest-wins requests: every request gets the next id, and only a reply
//! carrying the newest id is acted upon.

use vstd::prelude::*;
use crate::types::{advanced_by, wrapping_sum};

verus! {

/// `async_channel::Sender`, the sending half of a request channel.
#[verifier::external_type_specification]
#[verifier::external_body]
#[verifier::reject_recursive_types(T)]
pub struct ExSender<T>(async_channel::Sender<T>);

/// The id that follows `id`: one more, wrapping around at `u64::MAX`.
pub open spec fn next_request_id(id: u64) -> u64 {
    wrapping_sum(id, 1)
}

/// A request sender that numbers its requests 1, 2, 3, ... so that a
/// reply can be checked against the newest request.
#[verifier::reject_recursive_types(T)]
pub struct RequestDedup<T> {
    id: u64,
    tx: async_channel::Sender<(u64, T)>,
    /// The requests handed to the channel so far, oldest first.
    sent: Ghost<Seq<(u64, T)>>,
}

impl<T> RequestDedup<T> {
    /// The id of the newest request (0 before the first one).
    pub closed spec fn latest(&self) -> u64 {
        self.id
    }

    /// Every `(id, data)` handed to the channel with `try_send`, oldest
    /// first. A pair is handed over whether or not the channel queues it
    /// (a closed or full channel drops it).
    pub closed spec fn offered(&self) -> Seq<(u64, T)> {
        self.sent@
    }

    /// Hands `(id, data)` to the channel with `Sender::try_send`, and logs
    /// it as offered. Whether the channel queues it depends on its state
    /// (closed or full channels drop it), which nothing here states.
    #[verifier::external_body]
    fn offer(&mut self, id: u64, data: T)
        ensures
            final(self).offered() == old(self).offered().push((id, data)),
            final(self).latest() == old(self).latest(),
    {
        let _ = self.tx.try_send((id, data));
    }

    /// A sender over `tx` that has issued and offered nothing yet.
    pub fn new(tx: async_channel::Sender<(u64, T)>) -> (d: RequestDedup<T>)
        ensures
            d.latest() == 0,
            d.offered() == Seq::<(u64, T)>::empty(),
    {
        RequestDedup { id: 0, tx, sent: Ghost(Seq::empty()) }
    }

    /// Bump the id so that every request in flight becomes stale; used
    /// when no request should be processed (e.g. nothing is selected).
    /// Nothing is offered to the channel.
    pub fn send_dummy(&mut self)
        ensures
            final(self).latest() == next_request_id(old(self).latest()),
            final(self).offered() == old(self).offered(),
    {
        self.id = self.id.wrapping_add(1);
    }

    /// Offer `data` to the channel under the next id, and return that id.
    pub fn send(&mut self, data: T) -> (id: u64)
        ensures
            id == next_request_id(old(self).latest()),
            final(self).latest() == id,
            final(self).offered() == old(self).offered().push((id, data)),
    {
        let id = self.id.wrapping_add(1);
        self.id = id;
        self.offer(id, data);
        id
    }

    /// Whether a reply tagged `id` answers the newest request.
    pub fn is_current(&self, id: u64) -> (b: bool)
        ensures
            b <==> id == self.latest(),
    {
        id == self.id
    }
}

/// Latest wins. Every request, real or dummy, moves the sender's id one step
/// on (`next_request_id`), so `k` requests after a request `a` the newest id
/// is `advanced_by(a, k)`. Once at least one further request was issued
/// (and fewer than 2^64), the id `a` is no longer current; without
/// wrapping around, later ids are strictly larger.
pub proof fn lemma_latest_wins(a: u64, i: nat, k: nat)
    requires
        i < k,
        k < 0x1_0000_0000_0000_0000,
    ensures
        advanced_by(a, k) != a,
        advanced_by(a, i) != advanced_by(a, k),
        a + k <= u64::MAX ==> a < advanced_by(a, k) && advanced_by(a, i) < advanced_by(a, k),
{
    crate::types::lemma_advanced_by_distinct(a, 0, k);
    crate::types::lemma_advanced_by_distinct(a, i, k);
}

/// Which page a colour preview should be requested for.
#[derive(Copy, Clone, Debug, PartialEq, Eq, Structural)]
pub enum PreviewTarget {
    /// Nothing is selected: no preview is wanted, and pending ones are stale.
    Nothing,
    /// Request a preview of the page at this position.
    Page(usize),
    /// The first selected position holds no page: leave things as they are.
    Unchanged,
}

/// The preview to request when `first_selected` is the first selected
/// position and the project has `page_count` pages.
pub fn preview_target(first_selected: Option<usize>, page_count: usize) -> (t: PreviewTarget)
    ensures
        t == (match first_selected {
            None => PreviewTarget::Nothing,
            Some(i) => if i < page_count {
                PreviewTarget::Page(i)
            } else {
                PreviewTarget::Unchanged
            },
        }),
{
    match first_selected {
        None => PreviewTarget::Nothing,
        Some(i) => if i < page_count {
            PreviewTarget::Page(i)
        } else {
            PreviewTarget::Unchanged
        },
    }
}

/// The page whose preview the arrange view requests: the first selected
/// one when it exists; otherwise nothing, and the preview is cleared (and
/// pending requests made stale).
pub fn arrange_preview_page(first_selected: Option<usize>, item_count: usize) -> (r: Option<usize>)
    ensures
        r == (match first_selected {
            Some(i) => if i < item_count {
                Some(i)
            } else {
                None
            },
            None => None,
        }),
{
    match first_selected {
        Some(i) => if i < item_count {
            Some(i)
        } else {
            None
        },
        None => None,
    }
}

} // verus!
