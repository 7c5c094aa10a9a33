//! A batch's clients as a field of rings, one per client.

use vstd::prelude::*;

use crate::text::{decimal, digits, push_text};

verus! {

/// One client as the grid draws it.
pub struct Client {
    /// The ring's colour: a position on a continuous ramp, which has no names to give.
    pub ink: String,
    /// What is written inside the ring.
    pub label: String,
}

/// How many clients there are, published for the grid to spread by.
pub fn spread(clients: usize) -> (s: String)
    ensures
        s@ == "--grid-clients:"@ + digits(clients as nat),
{
    let mut s = "--grid-clients:".to_owned();
    push_text(&mut s, &decimal(clients as u64));
    s
}

/// The ring's colour.
pub fn ring_ink(client: &Client) -> (s: String)
    ensures
        s@ == "border-color:"@ + client.ink@,
{
    let mut s = "border-color:".to_owned();
    push_text(&mut s, client.ink.as_str());
    s
}

/// A label wears its own ring's colour.
pub fn label_ink(client: &Client) -> (s: String)
    ensures
        s@ == "color:"@ + client.ink@,
{
    let mut s = "color:".to_owned();
    push_text(&mut s, client.ink.as_str());
    s
}

} // verus!
