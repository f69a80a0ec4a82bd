//! The live figures stream: how often a frame goes out, when the stream ends,
//! and how a server-sent event is framed.

use vstd::prelude::*;
use crate::text::push_str;

verus! {

/// Frames one subscription receives before the stream closes (one hour at
/// one frame every `LIVE_INTERVAL_SECS` seconds).
pub const LIVE_FRAMES: u32 = 1800;

/// Seconds between two frames.
pub const LIVE_INTERVAL_SECS: u64 = 2;

/// What the stream does next.
#[derive(Debug, Clone, Copy, PartialEq, Eq, Structural)]
pub enum LiveStep {
    /// Wait `wait_secs` seconds, then send a frame with the current figures.
    Send { wait_secs: u64 },
    /// Close the stream; the client reconnects.
    Stop,
}

/// The step taken with `frames_left` frames still to send, and the count
/// left after it: the first frame goes out at once, each later one after
/// the interval, and the stream stops when none are left.
pub fn live_step(frames_left: u32) -> (r: (LiveStep, u32))
    requires
        frames_left <= LIVE_FRAMES,
    ensures
        frames_left == 0 ==> r.0 == LiveStep::Stop && r.1 == 0,
        frames_left > 0 ==> r.1 == frames_left - 1 && r.0 == (LiveStep::Send {
            wait_secs: if frames_left == LIVE_FRAMES { 0 } else { LIVE_INTERVAL_SECS },
        }),
{
    if frames_left == 0 {
        (LiveStep::Stop, 0)
    } else if frames_left == LIVE_FRAMES {
        (LiveStep::Send { wait_secs: 0 }, frames_left - 1)
    } else {
        (LiveStep::Send { wait_secs: LIVE_INTERVAL_SECS }, frames_left - 1)
    }
}

/// One server-sent event: its name, its data line and the blank line that
/// ends it.
pub fn sse_frame(event: &str, data: &str) -> (r: String)
    ensures
        r@ == "event: "@ + event@ + "\ndata: "@ + data@ + "\n\n"@,
{
    let mut r = String::new();
    push_str(&mut r, "event: ");
    push_str(&mut r, event);
    push_str(&mut r, "\ndata: ");
    push_str(&mut r, data);
    push_str(&mut r, "\n\n");
    r
}

} // verus!
