use vstd::prelude::*;
use vstd::string::StringSliceAdditionalSpecFns;

verus! {

pub const NEED_RCPT: &'static str = "503 5.5.1 Need RCPT before BDAT\r\n";
pub const TOO_LARGE: &'static str = "552 5.3.4 Message size exceeds the fixed limit\r\n";
pub const CHUNK_OK: &'static str = "250 2.6.0 Chunk accepted\r\n";

#[derive(Clone, Copy, Debug, PartialEq, Eq)]
pub enum BdatOutcome {
    Reject(&'static [u8]),
    TooLarge(&'static [u8]),
    Receive { chunk_size: usize, is_last: bool },
}

/// Whether a declared chunk would take the message past a set limit (a limit
/// of zero means none). The sum saturates at `usize::MAX`, so a declared size
/// near `usize::MAX` cannot wrap around below the bound.
pub open spec fn declared_too_large(chunk_size: usize, accumulated: usize, max_size: usize) -> bool {
    let total = if accumulated + chunk_size > usize::MAX {
        usize::MAX as int
    } else {
        accumulated + chunk_size
    };
    max_size > 0 && total > max_size
}

/// Answers BDAT before the chunk is read.
pub fn bdat_reply(
    has_recipient: bool,
    chunk_size: usize,
    accumulated: usize,
    max_size: usize,
    is_last: bool,
) -> (outcome: BdatOutcome)
    ensures
        !has_recipient ==> (outcome matches BdatOutcome::Reject(r) && r@ == NEED_RCPT.spec_bytes()),
        has_recipient && declared_too_large(chunk_size, accumulated, max_size) ==> (outcome matches BdatOutcome::TooLarge(r)
            && r@ == TOO_LARGE.spec_bytes()),
        has_recipient && !declared_too_large(chunk_size, accumulated, max_size) ==> outcome
            == (BdatOutcome::Receive { chunk_size, is_last }),
{
    if !has_recipient {
        BdatOutcome::Reject(NEED_RCPT.as_bytes())
    } else if max_size > 0 && accumulated.saturating_add(chunk_size) > max_size {
        BdatOutcome::TooLarge(TOO_LARGE.as_bytes())
    } else {
        BdatOutcome::Receive { chunk_size, is_last }
    }
}

#[derive(Clone, Copy, Debug, PartialEq, Eq)]
pub enum ChunkStep {
    Accepted,
    Complete,
    TooLarge,
}

/// The chunks of one BDAT transfer, concatenated verbatim.
pub struct ChunkReceiver {
    message: Vec<u8>,
    max_size: usize,
}

impl ChunkReceiver {
    /// The bytes received so far.
    pub closed spec fn message(&self) -> Seq<u8> {
        self.message@
    }

    /// The size limit (zero: none).
    pub closed spec fn max_size(&self) -> usize {
        self.max_size
    }

    /// A receiver never holds more than its limit.
    pub open spec fn well_formed(&self) -> bool {
        self.max_size() > 0 ==> self.message().len() <= self.max_size()
    }

    pub fn new(max_size: usize) -> (receiver: Self)
        ensures
            receiver.message() == Seq::<u8>::empty(),
            receiver.max_size() == max_size,
            receiver.well_formed(),
    {
        ChunkReceiver { message: Vec::new(), max_size }
    }

    /// Appends a chunk unless it would take the message past the limit, in
    /// which case nothing changes and `TooLarge` is reported.
    pub fn push_chunk(&mut self, chunk: &[u8], is_last: bool) -> (step: ChunkStep)
        requires
            old(self).message().len() + chunk@.len() <= usize::MAX,
        ensures
            final(self).max_size() == old(self).max_size(),
            old(self).max_size() > 0 && old(self).message().len() + chunk@.len() > old(self).max_size()
                ==> step == ChunkStep::TooLarge && final(self).message() == old(self).message(),
            !(old(self).max_size() > 0 && old(self).message().len() + chunk@.len() > old(self).max_size())
                ==> final(self).message() == old(self).message() + chunk@ && step == (if is_last {
                ChunkStep::Complete
            } else {
                ChunkStep::Accepted
            }),
            old(self).well_formed() ==> final(self).well_formed(),
    {
        if self.max_size > 0 && self.message.len() + chunk.len() > self.max_size {
            return ChunkStep::TooLarge;
        }
        self.message.extend_from_slice(chunk);
        if is_last {
            ChunkStep::Complete
        } else {
            ChunkStep::Accepted
        }
    }

    pub fn len(&self) -> (n: usize)
        ensures
            n == self.message().len(),
    {
        self.message.len()
    }

    pub fn is_empty(&self) -> (empty: bool)
        ensures
            empty == (self.message().len() == 0),
    {
        self.message.len() == 0
    }

    pub fn into_message(self) -> (message: Vec<u8>)
        ensures
            message@ == self.message(),
    {
        self.message
    }
}

#[derive(Clone, Copy, Debug, PartialEq, Eq)]
pub enum ChunkDisposal {
    Drain(usize),
    Close,
}

/// What to do with the bytes of a refused chunk: drain them when they fit the
/// limit, else close the connection rather than read them.
pub fn chunk_disposal(chunk_size: usize, max_size: usize) -> (disposal: ChunkDisposal)
    ensures
        disposal == (if max_size > 0 && chunk_size > max_size {
            ChunkDisposal::Close
        } else {
            ChunkDisposal::Drain(chunk_size)
        }),
{
    if max_size > 0 && chunk_size > max_size {
        ChunkDisposal::Close
    } else {
        ChunkDisposal::Drain(chunk_size)
    }
}

pub fn chunk_ok_reply() -> (reply: &'static [u8])
    ensures
        reply@ == CHUNK_OK.spec_bytes(),
{
    CHUNK_OK.as_bytes()
}

pub fn too_large_reply() -> (reply: &'static [u8])
    ensures
        reply@ == TOO_LARGE.spec_bytes(),
{
    TOO_LARGE.as_bytes()
}

} // verus!
