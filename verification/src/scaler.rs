//! The scaling engine as the relay sees it: when an instance is ended and
//! when one is started, and how a cropped image is passed through it.
//!
//! The engine is a process of its own. It takes images of one fixed size on
//! its input and gives frames on its output. This module decides; the
//! caller starts and ends the process and moves the bytes.

use crate::geometry::{BYTES_PER_FRAME, Crop};
use crate::relay::Mode;
use vstd::prelude::*;

verus! {

/// The size of an image in pixels.
#[derive(Copy, Clone, Debug, PartialEq, Eq, Structural)]
pub struct ImageSize {
    pub width: u16,
    pub height: u16,
}

/// The size of the image in the viewport `crop`.
pub open spec fn size_of(crop: Crop) -> ImageSize {
    ImageSize { width: crop.w, height: crop.h }
}

/// One thing to do with the engine.
#[derive(Copy, Clone, Debug, PartialEq, Eq, Structural)]
pub enum ScalerOp {
    /// End the running instance: feed it no more, wait until it is done,
    /// and write everything that it still gives to the output.
    Finish,
    /// Start an instance that takes images of the given size.
    Start(ImageSize),
}

/// What is known of the engine: the size of the images that the running
/// instance takes, or that none is running.
#[derive(Copy, Clone, Debug, PartialEq, Eq, Structural)]
pub struct Scaler {
    pub running: Option<ImageSize>,
}

/// The engine after the frame in `mode` and what is to be done with it
/// before that frame is passed on. While frames pass through no instance
/// stays. A zoomed frame needs an instance for the size of its viewport:
/// the running one where it has that size, else a new one, which is started
/// only after the running one was ended.
pub open spec fn retargeted(scaler: Scaler, mode: Mode) -> (Scaler, Seq<ScalerOp>) {
    match mode {
        Mode::Passthrough => (
            Scaler { running: None },
            if scaler.running is Some {
                seq![ScalerOp::Finish]
            } else {
                Seq::empty()
            },
        ),
        Mode::Zoomed(crop) => (
            Scaler { running: Some(size_of(crop)) },
            if scaler.running == Some(size_of(crop)) {
                Seq::empty()
            } else if scaler.running is Some {
                seq![ScalerOp::Finish, ScalerOp::Start(size_of(crop))]
            } else {
                seq![ScalerOp::Start(size_of(crop))]
            },
        ),
    }
}

impl Scaler {
    /// No instance is running.
    pub fn new() -> (scaler: Scaler)
        ensures
            scaler.running is None,
    {
        Scaler { running: None }
    }

    /// Prepares the engine for a frame in `mode` and returns what is to be
    /// done, in this order, before the frame is passed on.
    pub fn retarget(&mut self, mode: Mode) -> (ops: Vec<ScalerOp>)
        ensures
            (*final(self), ops@) == retargeted(*old(self), mode),
    {
        let mut ops: Vec<ScalerOp> = Vec::new();
        match mode {
            Mode::Passthrough => {
                if self.running.is_some() {
                    ops.push(ScalerOp::Finish);
                }
                self.running = None;
            },
            Mode::Zoomed(crop) => {
                let size = ImageSize { width: crop.w, height: crop.h };
                let same = match self.running {
                    Some(running) => running == size,
                    None => false,
                };
                if !same {
                    if self.running.is_some() {
                        ops.push(ScalerOp::Finish);
                    }
                    ops.push(ScalerOp::Start(size));
                    self.running = Some(size);
                }
            },
        }
        assert(ops@ =~= retargeted(*old(self), mode).1);
        ops
    }
}

/// Whether an instance runs after `ops` were done in order, where `running`
/// says whether one ran before.
pub open spec fn runs_after(ops: Seq<ScalerOp>, running: bool) -> bool {
    if ops.len() == 0 {
        running
    } else {
        ops.last() is Start
    }
}

/// Whether `ops`, done in order, never start an instance while one runs and
/// never end one while none runs; `running` says whether one ran before.
pub open spec fn orderly(ops: Seq<ScalerOp>, running: bool) -> bool
    decreases ops.len(),
{
    if ops.len() == 0 {
        true
    } else {
        let before = ops.drop_last();
        &&& orderly(before, running)
        &&& (ops.last() is Start) != runs_after(before, running)
    }
}

/// The operations of a run: those for each of the frames whose modes are
/// `modes`, one frame after the other, from the engine's state `scaler`.
pub open spec fn run_ops(scaler: Scaler, modes: Seq<Mode>) -> Seq<ScalerOp>
    decreases modes.len(),
{
    if modes.len() == 0 {
        Seq::empty()
    } else {
        run_ops(scaler, modes.drop_last()) + retargeted(
            run_state(scaler, modes.drop_last()),
            modes.last(),
        ).1
    }
}

/// The engine's state after the frames whose modes are `modes`.
pub open spec fn run_state(scaler: Scaler, modes: Seq<Mode>) -> Scaler
    decreases modes.len(),
{
    if modes.len() == 0 {
        scaler
    } else {
        retargeted(run_state(scaler, modes.drop_last()), modes.last()).0
    }
}

/// Doing `a` and then `b` is orderly where `a` is and `b` is after it.
proof fn lemma_orderly_concat(a: Seq<ScalerOp>, b: Seq<ScalerOp>, running: bool)
    ensures
        runs_after(a + b, running) == runs_after(b, runs_after(a, running)),
        orderly(a + b, running) == (orderly(a, running) && orderly(b, runs_after(a, running))),
    decreases b.len(),
{
    if b.len() == 0 {
        assert(a + b =~= a);
    } else {
        assert((a + b).drop_last() =~= a + b.drop_last());
        assert((a + b).last() == b.last());
        lemma_orderly_concat(a, b.drop_last(), running);
    }
}

/// What one frame asks of the engine is orderly, and an instance runs
/// afterwards just where the state says so.
proof fn lemma_retargeted_orderly(scaler: Scaler, mode: Mode)
    ensures
        orderly(retargeted(scaler, mode).1, scaler.running is Some),
        runs_after(retargeted(scaler, mode).1, scaler.running is Some) == (retargeted(
            scaler,
            mode,
        ).0.running is Some),
{
    let ops = retargeted(scaler, mode).1;
    let running = scaler.running is Some;
    if ops.len() == 2 {
        let first = ops.drop_last();
        assert(first.len() == 1);
        assert(first.drop_last().len() == 0);
        assert(orderly(first.drop_last(), running));
        assert(orderly(first, running));
    } else if ops.len() == 1 {
        assert(ops.drop_last().len() == 0);
        assert(orderly(ops.drop_last(), running));
    }
}

/// When the viewport changes its size while an instance runs, that instance
/// is ended first, so that all it still gives is written out, and only then
/// is the instance for the new size started. While the size stays, nothing
/// is done to the instance that runs.
pub proof fn lemma_change_of_size(scaler: Scaler, crop: Crop)
    requires
        scaler.running is Some,
    ensures
        retargeted(scaler, Mode::Zoomed(crop)).1 == if scaler.running == Some(size_of(crop)) {
            Seq::<ScalerOp>::empty()
        } else {
            seq![ScalerOp::Finish, ScalerOp::Start(size_of(crop))]
        },
        retargeted(scaler, Mode::Zoomed(crop)).0.running == Some(size_of(crop)),
{
}

/// Over any run of frames, whatever their modes, an instance of the engine
/// is started only while none runs, and ended only while one runs. So at
/// most one instance runs at any time, and before a new one starts the one
/// before it was ended, with all that it still gave written out.
pub proof fn lemma_one_instance_at_a_time(scaler: Scaler, modes: Seq<Mode>)
    ensures
        orderly(run_ops(scaler, modes), scaler.running is Some),
        runs_after(run_ops(scaler, modes), scaler.running is Some) == (run_state(
            scaler,
            modes,
        ).running is Some),
    decreases modes.len(),
{
    if modes.len() > 0 {
        let before = modes.drop_last();
        lemma_one_instance_at_a_time(scaler, before);
        lemma_retargeted_orderly(run_state(scaler, before), modes.last());
        lemma_orderly_concat(
            run_ops(scaler, before),
            retargeted(run_state(scaler, before), modes.last()).1,
            scaler.running is Some,
        );
    }
}

/// One move of bytes between the relay and the engine.
#[derive(Copy, Clone, Debug, PartialEq, Eq, Structural)]
pub enum TransferStep {
    /// Write the cropped image to the engine, from byte `from` of the image
    /// on, as much as the engine takes.
    Feed { from: usize },
    /// Read from the engine, `at_most` bytes, and write what came to the
    /// output.
    Drain { at_most: usize },
    /// The image is written and a whole frame came back.
    Done,
}

/// One of the two directions in which bytes move.
#[derive(Copy, Clone, Debug, PartialEq, Eq, Structural)]
pub enum Turn {
    /// From the relay into the engine.
    Feed,
    /// Out of the engine to the output.
    Drain,
}

/// How far one cropped image is on its way through the engine. The image
/// goes in and a frame comes out, both in pieces of any size, and the two
/// directions take turns: an engine that waits for its output to be read
/// while the relay waits for its input to be taken would stop both.
#[derive(Copy, Clone, Debug, PartialEq, Eq, Structural)]
pub struct Transfer {
    /// The bytes of the cropped image.
    pub image_len: usize,
    /// The bytes of the image that the engine has taken.
    pub fed: usize,
    /// The bytes of the frame that the engine has given.
    pub drained: usize,
    /// The direction that is tried next, if it has something left to move.
    pub turn: Turn,
}

impl Transfer {
    /// No more went in than the image has, no more came out than a frame
    /// has.
    pub open spec fn wf(self) -> bool {
        &&& self.fed <= self.image_len
        &&& self.drained <= BYTES_PER_FRAME
    }

    /// The move that is due: none when the image is in and the frame is out;
    /// else the direction whose turn it is, or the other one where that
    /// direction is complete.
    pub open spec fn spec_step(self) -> TransferStep {
        if self.fed >= self.image_len && self.drained >= BYTES_PER_FRAME {
            TransferStep::Done
        } else if self.drained >= BYTES_PER_FRAME || (self.turn == Turn::Feed && self.fed
            < self.image_len) {
            TransferStep::Feed { from: self.fed }
        } else {
            TransferStep::Drain { at_most: (BYTES_PER_FRAME - self.drained) as usize }
        }
    }

    /// The state after the move that was due has moved `moved` bytes: they
    /// count for its direction, and the turn passes to the other one.
    pub open spec fn advanced(self, moved: usize) -> Transfer {
        match self.spec_step() {
            TransferStep::Feed { .. } => Transfer {
                fed: (self.fed + moved) as usize,
                turn: Turn::Drain,
                ..self
            },
            TransferStep::Drain { .. } => Transfer {
                drained: (self.drained + moved) as usize,
                turn: Turn::Feed,
                ..self
            },
            TransferStep::Done => self,
        }
    }

    /// The most bytes that the move that is due can move.
    pub open spec fn room(self) -> int {
        match self.spec_step() {
            TransferStep::Feed { .. } => self.image_len - self.fed,
            TransferStep::Drain { .. } => BYTES_PER_FRAME - self.drained,
            TransferStep::Done => 0,
        }
    }

    /// The start of the way of an image of `image_len` bytes: feeding comes
    /// first.
    pub fn new(image_len: usize) -> (transfer: Transfer)
        ensures
            transfer == (Transfer { image_len, fed: 0, drained: 0, turn: Turn::Feed }),
            transfer.wf(),
    {
        Transfer { image_len, fed: 0, drained: 0, turn: Turn::Feed }
    }

    /// The move that is due.
    #[verifier::when_used_as_spec(spec_step)]
    pub fn step(self) -> (step: TransferStep)
        requires
            self.wf(),
        ensures
            step == self.spec_step(),
    {
        let fed_all = self.fed >= self.image_len;
        let drained_all = self.drained >= BYTES_PER_FRAME;
        if fed_all && drained_all {
            TransferStep::Done
        } else if drained_all || (self.turn == Turn::Feed && !fed_all) {
            TransferStep::Feed { from: self.fed }
        } else {
            TransferStep::Drain { at_most: BYTES_PER_FRAME - self.drained }
        }
    }

    /// Takes note that the move that was due has moved `moved` bytes, which
    /// may be none, and returns the move that is due next.
    pub fn advance(&mut self, moved: usize) -> (next: TransferStep)
        requires
            old(self).wf(),
            moved <= old(self).room(),
        ensures
            *final(self) == old(self).advanced(moved),
            final(self).wf(),
            next == final(self).spec_step(),
    {
        match self.step() {
            TransferStep::Feed { .. } => {
                self.fed = self.fed + moved;
                self.turn = Turn::Drain;
            },
            TransferStep::Drain { .. } => {
                self.drained = self.drained + moved;
                self.turn = Turn::Feed;
            },
            TransferStep::Done => {},
        }
        self.step()
    }
}

/// The bytes that are still to move, both directions together.
pub open spec fn outstanding(t: Transfer) -> int {
    (t.image_len - t.fed) + (BYTES_PER_FRAME - t.drained)
}

/// The way of an image ends just when all of the image went in and a whole
/// frame came out. Until then every move has room for at least one byte,
/// feeding starts where the engine stopped taking, and a move brings the
/// end nearer by what it moved. After feeding comes draining and after
/// draining feeding, as long as both have something left.
pub proof fn lemma_transfer(t: Transfer, moved: usize)
    requires
        t.wf(),
        moved <= t.room(),
    ensures
        t.step() is Done <==> t.fed == t.image_len && t.drained == BYTES_PER_FRAME,
        t.step() is Done <==> outstanding(t) == 0,
        !(t.step() is Done) ==> t.room() > 0,
        t.step() matches TransferStep::Feed { from } ==> from == t.fed,
        outstanding(t.advanced(moved)) == outstanding(t) - moved,
        t.step() is Feed && t.drained < BYTES_PER_FRAME ==> t.advanced(moved).step() is Drain,
        t.step() is Drain && t.advanced(moved).fed < t.image_len ==> t.advanced(
            moved,
        ).step() is Feed,
{
}

} // verus!
