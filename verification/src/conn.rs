//! The per-connection message loop, as a decision function over frames.
//!
//! The transport reads frames and writes replies; what to reply and when to
//! stop is decided here. A text frame is dispatched and answered; a binary
//! frame is answered with an `UnsupportedFrame` error envelope rather than
//! tearing the connection down; a close frame ends the loop. Replies leave
//! in arrival order, one per frame.

use vstd::prelude::*;

use crate::rpc::ErrorKind;
use crate::rpc::RpcResponse;
use crate::rpc::Session;
use crate::rpc::SpecResponse;
use crate::rpc::dispatch_text;
use crate::rpc::encode_response;
use crate::rpc::resp_text;
use crate::rpc::spec_dispatch;

verus! {

/// One inbound frame, as the transport hands it to the loop.
pub enum Frame {
    Text(String),
    Binary(Vec<u8>),
    Close,
}

/// The loop's decision on one frame: send a reply and keep reading, or shut
/// the connection down.
pub enum FrameAction {
    Reply(String),
    Shut,
}

/// The reply text a frame is owed: the dispatch result for a text frame,
/// the `UnsupportedFrame` error envelope for a binary one. A close frame is
/// owed no reply; here it denotes the empty text, which nothing sends.
pub open spec fn reply_of(f: Frame) -> Seq<char> {
    match f {
        Frame::Text(t) => resp_text(spec_dispatch(t@)),
        Frame::Binary(_) => resp_text(
            SpecResponse { id: None, body: Err(ErrorKind::UnsupportedFrame) },
        ),
        Frame::Close => Seq::empty(),
    }
}

/// Decide one frame. Only a close frame shuts the connection: every text
/// frame — the malformed ones included — and every binary frame is answered.
pub fn handle_frame(f: &Frame, session: &Session) -> (a: FrameAction)
    ensures
        f is Close ==> a is Shut,
        !(f is Close) ==> (a matches FrameAction::Reply(r) && r@ == reply_of(*f)),
{
    match f {
        Frame::Text(t) => FrameAction::Reply(dispatch_text(t.as_str(), session)),
        Frame::Binary(_) => FrameAction::Reply(
            encode_response(RpcResponse { id: None, body: Err(ErrorKind::UnsupportedFrame) }),
        ),
        Frame::Close => FrameAction::Shut,
    }
}

/// Position of the first close frame at or after `i`, or the input's end.
pub open spec fn first_close(fs: Seq<Frame>, i: int) -> int
    decreases fs.len() - i,
{
    if 0 <= i && i < fs.len() {
        if fs[i] is Close {
            i
        } else {
            first_close(fs, i + 1)
        }
    } else {
        i
    }
}

fn run_from(frames: &Vec<Frame>, i: usize, session: &Session) -> (out: Vec<String>)
    requires
        i as int <= frames@.len(),
    ensures
        i + out@.len() == first_close(frames@, i as int),
        forall|t: int| 0 <= t < out@.len() ==> out@[t]@ == reply_of(frames@[i + t]),
    decreases frames@.len() - i,
{
    if i == frames.len() {
        return Vec::new();
    }
    match &frames[i] {
        Frame::Close => Vec::new(),
        Frame::Text(t) => {
            let reply = dispatch_text(t.as_str(), session);
            let ghost grep = reply@;
            let rest = run_from(frames, i + 1, session);
            let ghost rest0 = rest@;
            let mut out = rest;
            out.insert(0, reply);
            proof {
                assert(out@ =~= seq![out@[0]] + rest0);
                assert(out@[0]@ == grep);
            }
            out
        },
        Frame::Binary(_) => {
            let reply = encode_response(
                RpcResponse { id: None, body: Err(ErrorKind::UnsupportedFrame) },
            );
            let ghost grep = reply@;
            let rest = run_from(frames, i + 1, session);
            let ghost rest0 = rest@;
            let mut out = rest;
            out.insert(0, reply);
            proof {
                assert(out@ =~= seq![out@[0]] + rest0);
                assert(out@[0]@ == grep);
            }
            out
        },
    }
}

/// Run a whole connection's inbound frames, in arrival order: every frame
/// before the first close frame gets exactly one reply, the k-th reply
/// answering the k-th frame; the first close frame, if any, ends the loop.
pub fn run_frames(frames: &Vec<Frame>, session: &Session) -> (out: Vec<String>)
    ensures
        out@.len() == first_close(frames@, 0),
        forall|t: int| 0 <= t < out@.len() ==> out@[t]@ == reply_of(frames@[t]),
{
    run_from(frames, 0, session)
}

proof fn lemma_first_close_from(fs: Seq<Frame>, i: int)
    requires
        0 <= i <= fs.len(),
        forall|k: int| i <= k < fs.len() ==> !(fs[k] is Close),
    ensures
        first_close(fs, i) == fs.len(),
    decreases fs.len() - i,
{
    if i < fs.len() {
        lemma_first_close_from(fs, i + 1);
    }
}

/// LAW: a connection fed only requests — no close frame — answers every one
/// of them. With the order clause of [`run_frames`], the k-th reply is the
/// response to the k-th request, and the loop is still reading when the
/// input ends: no request shuts the connection, however malformed.
pub proof fn lemma_no_close_all_replied(fs: Seq<Frame>)
    requires
        forall|k: int| 0 <= k < fs.len() ==> !(fs[k] is Close),
    ensures
        first_close(fs, 0) == fs.len(),
{
    lemma_first_close_from(fs, 0);
}

} // verus!
