//! The output side of a flush: a sink that reproduces positioned pixel
//! writes or rectangular blocks on the physical panel.

use vstd::prelude::*;

use crate::payload::{BlockTransfer, FlushPayload, PayloadModel, PixelWrite};

verus! {

/// A bus transaction failed. The code is the device driver's own and is
/// handed back to the caller of `flush` unmodified.
#[derive(Clone, Copy, PartialEq, Eq, Structural, Debug)]
pub struct TransferError {
    pub code: u32,
}

/// A display or display stand-in that accepts transfer payloads.
///
/// `log` models everything the sink has accepted so far, in order, and
/// `rejections` every attempt it has refused, with the error it gave. A
/// successful call appends exactly the given payload to the log; a failed
/// call accepts nothing — a transfer that broke off part way is not
/// accepted — and appends exactly the returned error to the rejections.
pub trait OutputSink: Sized {
    /// Everything the sink has accepted so far, oldest first.
    spec fn log(&self) -> Seq<PayloadModel>;

    /// The error of every attempt the sink has refused, oldest first.
    spec fn rejections(&self) -> Seq<TransferError>;

    /// Transfer a batch of discrete positioned pixel writes.
    fn send_pixels(&mut self, pixels: &Vec<PixelWrite>) -> (r: Result<(), TransferError>)
        ensures
            r is Ok ==> {
                &&& final(self).log() == old(self).log().push(PayloadModel::Pixels(pixels@))
                &&& final(self).rejections() == old(self).rejections()
            },
            r matches Err(e) ==> {
                &&& final(self).log() == old(self).log()
                &&& final(self).rejections() == old(self).rejections().push(e)
            },
    ;

    /// Transfer one rectangular block of serialized pixel data.
    fn send_block(&mut self, block: &BlockTransfer) -> (r: Result<(), TransferError>)
        ensures
            r is Ok ==> {
                &&& final(self).log() == old(self).log().push(block.model())
                &&& final(self).rejections() == old(self).rejections()
            },
            r matches Err(e) ==> {
                &&& final(self).log() == old(self).log()
                &&& final(self).rejections() == old(self).rejections().push(e)
            },
    ;
}

/// A sink whose bus is down: every transfer fails with the configured
/// code. It accepts nothing, so its log stays empty and every attempt
/// lands in `refused`.
pub struct FailingSink {
    pub code: u32,
    pub refused: Vec<TransferError>,
}

impl FailingSink {
    /// A down sink that refuses every transfer with the given code.
    pub fn new(code: u32) -> (s: FailingSink)
        ensures
            s.code == code,
            s.rejections() == Seq::<TransferError>::empty(),
    {
        let s = FailingSink { code, refused: Vec::new() };
        proof {
            assert(s.rejections() =~= Seq::<TransferError>::empty());
        }
        s
    }
}

impl OutputSink for FailingSink {
    open spec fn log(&self) -> Seq<PayloadModel> {
        Seq::empty()
    }

    open spec fn rejections(&self) -> Seq<TransferError> {
        self.refused@
    }

    fn send_pixels(&mut self, pixels: &Vec<PixelWrite>) -> (r: Result<(), TransferError>)
        ensures
            r == Err::<(), TransferError>(TransferError { code: old(self).code }),
    {
        let e = TransferError { code: self.code };
        self.refused.push(e);
        Err(e)
    }

    fn send_block(&mut self, block: &BlockTransfer) -> (r: Result<(), TransferError>)
        ensures
            r == Err::<(), TransferError>(TransferError { code: old(self).code }),
    {
        let e = TransferError { code: self.code };
        self.refused.push(e);
        Err(e)
    }
}

/// A sink that keeps every payload it is handed: the in-memory stand-in for
/// a panel, used to observe exactly what a flush emits.
pub struct RecordingSink {
    pub records: Vec<FlushPayload>,
}

impl RecordingSink {
    /// A sink that has accepted nothing yet.
    pub fn new() -> (s: RecordingSink)
        ensures
            s.log() == Seq::<PayloadModel>::empty(),
    {
        let s = RecordingSink { records: Vec::new() };
        proof {
            assert(s.log() =~= Seq::<PayloadModel>::empty());
        }
        s
    }

    /// How many payloads have been accepted.
    pub fn count(&self) -> (n: usize)
        ensures
            n == self.log().len(),
    {
        self.records.len()
    }
}

impl OutputSink for RecordingSink {
    open spec fn log(&self) -> Seq<PayloadModel> {
        self.records@.map_values(|p: FlushPayload| p@)
    }

    open spec fn rejections(&self) -> Seq<TransferError> {
        Seq::empty()
    }

    fn send_pixels(&mut self, pixels: &Vec<PixelWrite>) -> (r: Result<(), TransferError>)
        ensures
            r is Ok,
    {
        let mut copy: Vec<PixelWrite> = Vec::new();
        let mut i: usize = 0;
        while i < pixels.len()
            invariant
                i <= pixels.len(),
                copy@ == pixels@.take(i as int),
            decreases pixels.len() - i,
        {
            proof {
                assert(pixels@.take(i as int + 1) =~= pixels@.take(i as int).push(
                    pixels@[i as int],
                ));
            }
            copy.push(pixels[i]);
            i += 1;
        }
        proof {
            assert(pixels@.take(pixels@.len() as int) =~= pixels@);
        }
        self.records.push(FlushPayload::Pixels(copy));
        proof {
            assert(self.log() =~= old(self).log().push(PayloadModel::Pixels(pixels@)));
        }
        Ok(())
    }

    fn send_block(&mut self, block: &BlockTransfer) -> (r: Result<(), TransferError>)
        ensures
            r is Ok,
    {
        let mut bytes: Vec<u8> = Vec::new();
        let mut i: usize = 0;
        while i < block.bytes.len()
            invariant
                i <= block.bytes.len(),
                bytes@ == block.bytes@.take(i as int),
            decreases block.bytes.len() - i,
        {
            proof {
                assert(block.bytes@.take(i as int + 1) =~= block.bytes@.take(i as int).push(
                    block.bytes@[i as int],
                ));
            }
            bytes.push(block.bytes[i]);
            i += 1;
        }
        proof {
            assert(block.bytes@.take(block.bytes@.len() as int) =~= block.bytes@);
        }
        let copy = BlockTransfer {
            x: block.x,
            y: block.y,
            width: block.width,
            height: block.height,
            bytes,
        };
        self.records.push(FlushPayload::Block(copy));
        proof {
            assert(self.log() =~= old(self).log().push(block.model()));
        }
        Ok(())
    }
}

} // verus!
