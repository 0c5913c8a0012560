//! What the chat logic hands to the transport: one line of text for one client.

use vstd::prelude::*;

verus! {

/// The model of a [`Delivery`].
pub struct DeliveryView {
    pub recipient: Seq<char>,
    pub text: Seq<char>,
}

/// One line of text to be sent to one connected client, named by its id.
pub struct Delivery {
    pub recipient: String,
    pub text: String,
}

impl View for Delivery {
    type V = DeliveryView;

    open spec fn view(&self) -> DeliveryView {
        DeliveryView { recipient: self.recipient@, text: self.text@ }
    }
}

/// The models of a sequence of deliveries, in order.
pub open spec fn delivery_views(ds: Seq<Delivery>) -> Seq<DeliveryView> {
    ds.map_values(|d: Delivery| d@)
}

/// Taking models commutes with `push`.
pub proof fn lemma_delivery_views_push(ds: Seq<Delivery>, d: Delivery)
    ensures
        delivery_views(ds.push(d)) == delivery_views(ds).push(d@),
{
    assert(delivery_views(ds.push(d)) =~= delivery_views(ds).push(d@));
}

/// Taking models commutes with concatenation.
pub proof fn lemma_delivery_views_add(a: Seq<Delivery>, b: Seq<Delivery>)
    ensures
        delivery_views(a + b) == delivery_views(a) + delivery_views(b),
{
    assert(delivery_views(a + b) =~= delivery_views(a) + delivery_views(b));
}

} // verus!
