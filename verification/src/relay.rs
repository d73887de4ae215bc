//! The relay loop: which way a frame takes, the plain way through, and when
//! the loop ends.

use crate::geometry::{BYTES_PER_FRAME, Crop, full_crop, is_full_screen};
use crate::stream::{ByteStream, Message, SnapshotMsg, messages, payload};
use vstd::prelude::*;

verus! {

/// The way a frame takes through the relay.
#[derive(Copy, Clone, Debug, PartialEq, Eq, Structural)]
pub enum Mode {
    /// The frame is written out as it was read.
    Passthrough,
    /// The viewport is cut out of the frame and scaled to the frame's size.
    Zoomed(Crop),
}

/// The mode that the viewport `crop` selects: the whole frame passes
/// through, any other viewport is zoomed into.
pub open spec fn spec_mode_of(crop: Crop) -> Mode {
    if crop == full_crop() {
        Mode::Passthrough
    } else {
        Mode::Zoomed(crop)
    }
}

/// The mode for one frame, from the viewport as it is when the frame
/// begins.
#[verifier::when_used_as_spec(spec_mode_of)]
pub fn mode_of(crop: Crop) -> (mode: Mode)
    ensures
        mode == spec_mode_of(crop),
{
    if is_full_screen(&crop) {
        Mode::Passthrough
    } else {
        Mode::Zoomed(crop)
    }
}

/// The snapshot messages that reading one frame from the stream `s` sends
/// while frames pass through: the frame as one chunk, then the end of the
/// snapshot; nothing where `s` ends before the frame does.
pub open spec fn passthrough_snapshot(s: Seq<u8>) -> Seq<Message> {
    if s.len() >= BYTES_PER_FRAME {
        seq![Message::Chunk(s.take(BYTES_PER_FRAME as int)), Message::End]
    } else {
        Seq::empty()
    }
}

/// Reads one frame from `input` and returns it as it is, to be written out.
/// Where `snapshot` is given, the frame is added to it as one chunk, and
/// then the end of the snapshot. Where the input ends before the frame does
/// there is no frame, and the rest of the input is used up.
pub fn read_frame(
    input: &mut ByteStream,
    snapshot: Option<&mut Vec<SnapshotMsg>>,
) -> (frame: Option<Vec<u8>>)
    ensures
        old(input)@.len() >= BYTES_PER_FRAME ==> {
            &&& frame matches Some(bytes)
            &&& bytes@ == old(input)@.take(BYTES_PER_FRAME as int)
            &&& final(input)@ == old(input)@.skip(BYTES_PER_FRAME as int)
        },
        old(input)@.len() < BYTES_PER_FRAME ==> {
            &&& frame is None
            &&& final(input)@ == Seq::<u8>::empty()
        },
        snapshot matches Some(sent) ==> messages(final(sent)@) == messages(sent@)
            + passthrough_snapshot(old(input)@),
{
    let ghost s = input@;
    match input.read_exact(BYTES_PER_FRAME) {
        Some(frame) => {
            match snapshot {
                Some(sent) => {
                    let ghost before = sent@;
                    let copy = frame.clone();
                    assert(copy@ =~= frame@);
                    sent.push(SnapshotMsg::Chunk(copy));
                    sent.push(SnapshotMsg::End);
                    assert(messages(sent@) =~= messages(before) + passthrough_snapshot(s));
                },
                None => {},
            }
            Some(frame)
        },
        None => {
            match snapshot {
                Some(sent) => {
                    assert(messages(sent@) + passthrough_snapshot(s) =~= messages(sent@));
                },
                None => {},
            }
            None
        },
    }
}

/// How reading or writing went wrong.
#[derive(Copy, Clone, Debug, PartialEq, Eq, Structural)]
pub enum IoFailure {
    /// The input ended before a read was complete.
    UnexpectedEof,
    /// The reader of the output is gone.
    BrokenPipe,
    /// Anything else.
    Other,
}

impl IoFailure {
    /// Whether the relay ends quietly on this failure: it does where the
    /// input is at its end or the output has no reader any more.
    pub open spec fn spec_ends_quietly(self) -> bool {
        self != IoFailure::Other
    }

    /// Whether the relay ends quietly on this failure. It must not go on
    /// after any other.
    #[verifier::when_used_as_spec(spec_ends_quietly)]
    pub fn ends_quietly(self) -> (quiet: bool)
        ensures
            quiet == self.spec_ends_quietly(),
    {
        match self {
            IoFailure::UnexpectedEof => true,
            IoFailure::BrokenPipe => true,
            IoFailure::Other => false,
        }
    }
}

/// Whether the relay is to end after a read or a write that went as
/// `result` says: it goes on after a success and ends after a failure. The
/// failure must be one on which it ends quietly.
pub fn check_errors_and_eof<T>(result: Result<T, IoFailure>) -> (stop: bool)
    requires
        result matches Err(e) ==> e.ends_quietly(),
    ensures
        stop == (result is Err),
{
    match result {
        Err(_) => true,
        Ok(_) => false,
    }
}

/// A snapshot that is taken while frames pass through carries the frame as
/// it came in, whole and unchanged, and ends with the end marker.
pub proof fn lemma_passthrough_snapshot_is_the_frame(s: Seq<u8>)
    requires
        s.len() >= BYTES_PER_FRAME,
    ensures
        payload(passthrough_snapshot(s)) == s.take(BYTES_PER_FRAME as int),
        passthrough_snapshot(s).last() == Message::End,
{
    let all = passthrough_snapshot(s);
    let chunk = all.drop_last();
    assert(chunk.drop_last() =~= Seq::<Message>::empty());
    assert(payload(chunk.drop_last()) =~= Seq::<u8>::empty());
    assert(payload(chunk) =~= s.take(BYTES_PER_FRAME as int));
    assert(payload(all) =~= payload(chunk));
}

/// Frame `n` of the input `s`, counted from zero.
pub open spec fn frame_at(s: Seq<u8>, n: nat) -> Seq<u8> {
    s.subrange(n * BYTES_PER_FRAME, (n + 1) * BYTES_PER_FRAME)
}

/// What is left of the input `s` when `n` frames were read.
pub open spec fn after_frames(s: Seq<u8>, n: nat) -> Seq<u8> {
    s.skip(n * BYTES_PER_FRAME)
}

/// Frames keep their place: when `n` frames were read, whichever way each
/// of them took, the next frame that is read is frame `n` of the input, and
/// after it `n + 1` frames were read. So while frames pass through, the
/// frame that is written out as the `n`-th is the `n`-th that came in, byte
/// for byte.
pub proof fn lemma_frames_keep_their_place(s: Seq<u8>, n: nat)
    requires
        (n + 1) * BYTES_PER_FRAME <= s.len(),
    ensures
        after_frames(s, n).len() >= BYTES_PER_FRAME,
        after_frames(s, n).take(BYTES_PER_FRAME as int) == frame_at(s, n),
        after_frames(s, n).skip(BYTES_PER_FRAME as int) == after_frames(s, n + 1),
{
    assert((n + 1) * BYTES_PER_FRAME == n * BYTES_PER_FRAME + BYTES_PER_FRAME) by (nonlinear_arith);
    assert(n * BYTES_PER_FRAME >= 0) by (nonlinear_arith);
    assert(after_frames(s, n).take(BYTES_PER_FRAME as int) =~= frame_at(s, n));
    assert(after_frames(s, n).skip(BYTES_PER_FRAME as int) =~= after_frames(s, n + 1));
}

} // verus!
