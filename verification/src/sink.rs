//! The transmission boundary: the engine hands each finished frame to a
//! sink, which either delivers it to the strip or reports a transport
//! failure. The hardware driver lives outside the library and plugs in
//! through the `FrameSink` trait; the `RecordingSink` here drives the
//! engine without hardware and keeps what was delivered.

use vstd::prelude::*;

verus! {

use std::time::Duration;
use crate::color::Rgb;

/// The single error kind of the engine: the sink could not deliver a
/// frame to the strip.
#[derive(Debug, PartialEq, Eq, Structural)]
pub enum Error {
    Ws2812Error,
}

/// A transmission sink for LED frames. Its ghost view `frames()` is the
/// sequence of frames delivered so far, oldest first: a successful
/// write appends exactly the submitted frame, and a failed write or a
/// pause delivers nothing.
pub trait FrameSink: Sized {
    /// The frames delivered so far, oldest first.
    spec fn frames(&self) -> Seq<Seq<Rgb>>;

    /// Submits one frame to the strip.
    fn write_frame(&mut self, frame: &Vec<Rgb>) -> (r: Result<(), Error>)
        ensures
            r is Ok ==> final(self).frames() == old(self).frames().push(frame@),
            r is Err ==> final(self).frames() == old(self).frames(),
    ;

    /// Waits out the inter-frame delay.
    fn pause(&mut self, delay: Duration)
        ensures
            final(self).frames() == old(self).frames(),
    ;
}

/// Copies a frame pixel by pixel.
fn clone_frame(frame: &Vec<Rgb>) -> (out: Vec<Rgb>)
    ensures
        out@ == frame@,
{
    let mut out: Vec<Rgb> = Vec::new();
    let mut i: usize = 0;
    while i < frame.len()
        invariant
            0 <= i <= frame@.len(),
            out@ == frame@.take(i as int),
        decreases frame@.len() - i,
    {
        out.push(frame[i]);
        i = i + 1;
        proof {
            assert(out@ =~= frame@.take(i as int));
        }
    }
    proof {
        assert(frame@.take(frame@.len() as int) =~= frame@);
    }
    out
}

/// A sink that keeps every delivered frame in memory. It can be told to
/// fail at a chosen write, which lets a caller drive any animation
/// without hardware and observe exactly what would have reached the
/// strip.
pub struct RecordingSink {
    /// The frames delivered so far.
    pub written: Vec<Vec<Rgb>>,
    /// If set, the zero-based index of the write at which the sink
    /// reports a transport failure.
    pub fail_at: Option<usize>,
}

impl RecordingSink {
    /// A sink that accepts every frame.
    pub fn new() -> (s: RecordingSink)
        ensures
            s.frames() == Seq::<Seq<Rgb>>::empty(),
            s.fail_at is None,
    {
        RecordingSink { written: Vec::new(), fail_at: None }
    }

    /// A sink that reports a transient transport failure at the write
    /// with index `k`, counting from zero, and accepts every other
    /// frame.
    pub fn failing_at(k: usize) -> (s: RecordingSink)
        ensures
            s.frames() == Seq::<Seq<Rgb>>::empty(),
            s.fail_at == Some(k),
    {
        RecordingSink { written: Vec::new(), fail_at: Some(k) }
    }

    /// How many frames have been delivered.
    pub fn delivered(&self) -> (n: usize)
        ensures
            n == self.frames().len(),
    {
        self.written.len()
    }
}

impl FrameSink for RecordingSink {
    open spec fn frames(&self) -> Seq<Seq<Rgb>> {
        self.written@.map_values(|f: Vec<Rgb>| f@)
    }

    fn write_frame(&mut self, frame: &Vec<Rgb>) -> (r: Result<(), Error>) {
        let fail = match self.fail_at {
            Some(k) => k == self.written.len(),
            None => false,
        };
        if fail {
            self.fail_at = None;
            Err(Error::Ws2812Error)
        } else {
            let copy = clone_frame(frame);
            self.written.push(copy);
            proof {
                assert(self.frames() =~= old(self).frames().push(frame@));
            }
            Ok(())
        }
    }

    fn pause(&mut self, _delay: Duration) {
    }
}

} // verus!
