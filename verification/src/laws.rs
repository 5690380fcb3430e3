//! What holds of the driver in every state and for every input.
//!
//! Each law is stated over the model of the driver, which the executable driver is
//! proved to follow step by step.

pub mod order;
pub mod peers;
pub mod requests;

use crate::model::dispatch;
use crate::step::Outbound;
use vstd::prelude::*;

verus! {

/// Every step of a dispatch is a `Send`.
pub proof fn lemma_dispatch_sends<C>(
    links: Seq<(u64, Seq<char>)>,
    addresses: Seq<u8>,
    messages: Seq<Outbound>,
)
    ensures
        forall|i: int|
            0 <= i < dispatch::<C>(links, addresses, messages).len() ==> #[trigger] dispatch::<C>(
                links,
                addresses,
                messages,
            )[i] is Send,
    decreases messages.len(),
{
    if messages.len() > 0 {
        lemma_dispatch_sends::<C>(links, addresses, messages.drop_last());
    }
}

} // verus!
