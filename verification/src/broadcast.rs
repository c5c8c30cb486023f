//! Sending print jobs on the relay's broadcast channel, with a record of
//! what each successful send carried.
use tokio::sync::broadcast::Sender;
use vstd::prelude::*;

verus! {

#[verifier::external_type_specification]
#[verifier::external_body]
#[verifier::reject_recursive_types(T)]
pub struct ExBroadcastSender<T>(Sender<T>);

/// The record of one successful broadcast: the text it carried. Only
/// `broadcast_send` makes one.
pub struct Delivery {
    text: String,
}

impl View for Delivery {
    type V = Seq<char>;

    closed spec fn view(&self) -> Seq<char> {
        self.text@
    }
}

impl Delivery {
    /// The text that was broadcast.
    pub fn text(&self) -> (t: &String)
        ensures
            t@ == self@,
    {
        &self.text
    }
}

/// The record of a broadcast that found no receiver: the text it carried.
/// Only `broadcast_send` makes one.
pub struct Refusal {
    text: String,
}

impl View for Refusal {
    type V = Seq<char>;

    closed spec fn view(&self) -> Seq<char> {
        self.text@
    }
}

impl Refusal {
    /// The text that no receiver took.
    pub fn text(&self) -> (t: &String)
        ensures
            t@ == self@,
    {
        &self.text
    }
}

/// The texts of a sequence of deliveries.
pub open spec fn delivered_texts(ds: Seq<Delivery>) -> Seq<Seq<char>> {
    ds.map_values(|d: Delivery| d@)
}

/// Sends `job` to every receiver of the broadcast channel
/// (`tokio::sync::broadcast::Sender::send`). On success it gives the number
/// of receivers and the record of the text sent (a copy of `job`, taken
/// before the job is handed to `send`); where there is no receiver it gives
/// the job back as the record of the refusal. Claimed, as tokio's source shows: on success at least one
/// receiver was subscribed; on failure the job comes back unchanged. Which
/// of the two happens depends on the receivers alive at that moment and is
/// not claimed.
#[verifier::external_body]
pub fn broadcast_send(broadcaster: &Sender<String>, job: String) -> (sent: Result<(usize, Delivery), Refusal>)
    ensures
        sent matches Ok((n, d)) ==> n >= 1 && d@ == job@,
        sent matches Err(refusal) ==> refusal@ == job@,
{
    let text = job.clone();
    match broadcaster.send(job) {
        Ok(n) => Ok((n, Delivery { text })),
        Err(err) => Err(Refusal { text: err.0 }),
    }
}

} // verus!
