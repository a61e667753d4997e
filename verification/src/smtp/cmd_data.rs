use vstd::prelude::*;
use vstd::string::StringSliceAdditionalSpecFns;

verus! {

pub const NEED_RCPT: &'static str = "503 5.5.1 Need RCPT before DATA\r\n";
pub const READY: &'static str = "354 Start mail input; end with <CRLF>.<CRLF>\r\n";
pub const TOO_LARGE: &'static str = "552 5.3.4 Message size exceeds the fixed limit\r\n";
pub const ACCEPTED: &'static str = "250 2.0.0 Message accepted\r\n";
pub const MAILBOX_FULL: &'static str = "452 4.2.2 Mailbox full, try again later\r\n";

#[derive(Clone, Copy, Debug, PartialEq, Eq)]
pub enum DataOutcome {
    Reject(&'static [u8]),
    Ready(&'static [u8]),
}

/// Answers DATA: the body is invited only once a recipient is accepted.
pub fn data_reply(has_recipient: bool) -> (outcome: DataOutcome)
    ensures
        has_recipient ==> (outcome matches DataOutcome::Ready(r) && r@ == READY.spec_bytes()),
        !has_recipient ==> (outcome matches DataOutcome::Reject(r) && r@ == NEED_RCPT.spec_bytes()),
{
    if has_recipient {
        DataOutcome::Ready(READY.as_bytes())
    } else {
        DataOutcome::Reject(NEED_RCPT.as_bytes())
    }
}

#[derive(Clone, Copy, Debug, PartialEq, Eq)]
pub enum BodyStep {
    Continue,
    Complete,
    TooLarge,
}

/// The line that ends a DATA body: a lone dot.
pub open spec fn is_terminator(line: Seq<u8>) -> bool {
    line == seq![46u8]
}

/// A body line with its dot-stuffing undone: a leading dot is dropped.
pub open spec fn unstuffed(line: Seq<u8>) -> Seq<u8> {
    if line.len() > 0 && line[0] == 46u8 {
        line.drop_first()
    } else {
        line
    }
}

/// The lines of a DATA body, unstuffed and joined with CRLF endings.
pub struct BodyReceiver {
    body: Vec<u8>,
    max_size: usize,
}

impl BodyReceiver {
    pub closed spec fn body(&self) -> Seq<u8> {
        self.body@
    }

    pub closed spec fn max_size(&self) -> usize {
        self.max_size
    }

    /// A receiver never holds more than its limit.
    pub open spec fn well_formed(&self) -> bool {
        self.max_size() > 0 ==> self.body().len() <= self.max_size()
    }

    pub fn new(max_size: usize) -> (receiver: Self)
        ensures
            receiver.body() == Seq::<u8>::empty(),
            receiver.max_size() == max_size,
            receiver.well_formed(),
    {
        BodyReceiver { body: Vec::new(), max_size }
    }

    /// Takes one body line (without its line ending). A lone dot completes the
    /// body; any other line is unstuffed and appended with CRLF, unless that
    /// would take the body past the limit, in which case nothing changes.
    pub fn push_line(&mut self, line: &[u8]) -> (step: BodyStep)
        requires
            old(self).body().len() + line@.len() + 2 <= usize::MAX,
        ensures
            final(self).max_size() == old(self).max_size(),
            is_terminator(line@) ==> step == BodyStep::Complete && final(self).body() == old(self).body(),
            !is_terminator(line@) && old(self).max_size() > 0 && old(self).body().len()
                + unstuffed(line@).len() + 2 > old(self).max_size() ==> step == BodyStep::TooLarge
                && final(self).body() == old(self).body(),
            !is_terminator(line@) && !(old(self).max_size() > 0 && old(self).body().len()
                + unstuffed(line@).len() + 2 > old(self).max_size()) ==> step == BodyStep::Continue
                && final(self).body() == old(self).body() + unstuffed(line@) + seq![13u8, 10u8],
            old(self).well_formed() ==> final(self).well_formed(),
    {
        if line.len() == 1 && line[0] == 46u8 {
            assert(line@ =~= seq![46u8]);
            return BodyStep::Complete;
        }
        let start: usize = if line.len() > 0 && line[0] == 46u8 {
            1
        } else {
            0
        };
        let content_len = line.len() - start;
        if self.max_size > 0 && self.body.len() + content_len + 2 > self.max_size {
            return BodyStep::TooLarge;
        }
        let ghost old_body = self.body@;
        let mut i = start;
        while i < line.len()
            invariant
                start <= i <= line@.len(),
                self.body@ == old_body + line@.subrange(start as int, i as int),
                self.max_size == old(self).max_size,
            decreases line@.len() - i,
        {
            self.body.push(line[i]);
            i += 1;
        }
        self.body.push(13u8);
        self.body.push(10u8);
        assert(unstuffed(line@) =~= line@.subrange(start as int, line@.len() as int));
        BodyStep::Continue
    }

    pub fn len(&self) -> (n: usize)
        ensures
            n == self.body().len(),
    {
        self.body.len()
    }

    pub fn is_empty(&self) -> (empty: bool)
        ensures
            empty == (self.body().len() == 0),
    {
        self.body.len() == 0
    }

    pub fn into_body(self) -> (body: Vec<u8>)
        ensures
            body@ == self.body(),
    {
        self.body
    }
}

pub fn accepted_reply() -> (reply: &'static [u8])
    ensures
        reply@ == ACCEPTED.spec_bytes(),
{
    ACCEPTED.as_bytes()
}

pub fn too_large_reply() -> (reply: &'static [u8])
    ensures
        reply@ == TOO_LARGE.spec_bytes(),
{
    TOO_LARGE.as_bytes()
}

pub fn mailbox_full_reply() -> (reply: &'static [u8])
    ensures
        reply@ == MAILBOX_FULL.spec_bytes(),
{
    MAILBOX_FULL.as_bytes()
}

} // verus!
