//! What the inbound half of a connection pump does with each frame it reads.
//!
//! A text frame is forwarded to the host unless its content is exactly the heartbeat
//! marker; other frames carry no application data; the end of the stream stops the pump.
use vstd::prelude::*;

verus! {

/// A frame read from the connection, as far as the pump cares.
#[derive(Clone, PartialEq, Eq, Debug)]
pub enum IncomingFrame {
    Text(String),
    /// A frame with no application text (binary, ping, pong).
    Other,
    /// The peer closed the connection.
    Close,
}

/// What the inbound half does next.
#[derive(Clone, PartialEq, Eq, Debug)]
pub enum InboundAction {
    /// Forward this message to the host's mailbox.
    Deliver(String),
    /// Read the next frame without forwarding anything.
    Skip,
    /// Stop the pump.
    Stop,
}

/// The decision for a read that gave `frame`, `None` being the end of the stream or a
/// read error.
pub open spec fn inbound_outcome(frame: Option<IncomingFrame>, marker: Seq<char>) -> InboundAction {
    match frame {
        None => InboundAction::Stop,
        Some(IncomingFrame::Close) => InboundAction::Stop,
        Some(IncomingFrame::Other) => InboundAction::Skip,
        Some(IncomingFrame::Text(t)) => if t@ == marker {
            InboundAction::Skip
        } else {
            InboundAction::Deliver(t)
        },
    }
}

/// Decides what to do with the result of one read from the connection.
pub fn inbound_action(frame: Option<IncomingFrame>, marker: &String) -> (r: InboundAction)
    ensures
        r == inbound_outcome(frame, marker@),
{
    match frame {
        None => InboundAction::Stop,
        Some(IncomingFrame::Close) => InboundAction::Stop,
        Some(IncomingFrame::Other) => InboundAction::Skip,
        Some(IncomingFrame::Text(t)) => {
            if t == *marker {
                InboundAction::Skip
            } else {
                InboundAction::Deliver(t)
            }
        },
    }
}

/// The messages that reach the host when the connection carries the text frames `frames`,
/// in order: each decided on by `inbound_outcome`.
pub open spec fn delivered(frames: Seq<Seq<char>>, marker: Seq<char>) -> Seq<Seq<char>>
    decreases frames.len(),
{
    if frames.len() == 0 {
        Seq::empty()
    } else {
        let front = delivered(frames.drop_last(), marker);
        if frames.last() == marker {
            front
        } else {
            front.push(frames.last())
        }
    }
}

/// The heartbeat marker never reaches the host, and the other text frames reach it
/// unchanged and in order: what is delivered is exactly the frames other than the marker.
pub proof fn lemma_heartbeat_filtered(frames: Seq<Seq<char>>, marker: Seq<char>)
    ensures
        !delivered(frames, marker).contains(marker),
        delivered(frames, marker) == frames.filter(|f: Seq<char>| f != marker),
    decreases frames.len(),
{
    if frames.len() > 0 {
        lemma_heartbeat_filtered(frames.drop_last(), marker);
        reveal(Seq::filter);
        assert(frames.drop_last() =~= frames.subrange(0, frames.len() - 1));
    }
}

} // verus!
