use vstd::prelude::*;
use vstd::string::StringSliceAdditionalSpecFns;
use crate::text::{lower_byte, lower_bytes, to_lower_byte};

verus! {

/// The reply to a message that carries too many trace fields.
pub const LOOPING: &'static str = "450 4.4.6 Too many Received headers, a mail loop is suspected\r\n";

/// The trace field name, in lower case.
pub const RECEIVED_NAME: &'static str = "received";

/// The default ceiling on `Received` fields.
pub const DEFAULT_MAX_RECEIVED: usize = 50;

/// The ceiling on `Received` fields; zero disables the check.
#[derive(Clone, Copy, Debug, PartialEq, Eq)]
pub struct LoopConfig {
    pub max_received: usize,
}

impl Default for LoopConfig {
    fn default() -> (config: Self)
        ensures
            config.max_received == DEFAULT_MAX_RECEIVED,
    {
        LoopConfig { max_received: DEFAULT_MAX_RECEIVED }
    }
}

impl LoopConfig {
    pub fn is_disabled(&self) -> (disabled: bool)
        ensures
            disabled == (self.max_received == 0),
    {
        self.max_received == 0
    }
}

/// Whether a message may be taken in, or the reply that refuses it.
#[derive(Clone, Copy, Debug, PartialEq, Eq)]
pub enum LoopDecision {
    Allow,
    Reject(&'static [u8]),
}

impl LoopDecision {
    pub fn is_allowed(&self) -> (allowed: bool)
        ensures
            allowed == (*self is Allow),
    {
        match self {
            LoopDecision::Allow => true,
            LoopDecision::Reject(_) => false,
        }
    }
}

/// The end of the line that starts at `i`: the next line feed, or the end.
pub open spec fn line_end(raw: Seq<u8>, i: int) -> int
    decreases raw.len() - i,
{
    if i >= raw.len() || raw[i] == 10 {
        i
    } else {
        line_end(raw, i + 1)
    }
}

pub proof fn lemma_line_end(raw: Seq<u8>, i: int)
    requires
        0 <= i <= raw.len(),
    ensures
        i <= line_end(raw, i) <= raw.len(),
        line_end(raw, i) < raw.len() ==> raw[line_end(raw, i)] == 10,
        forall|j: int| i <= j < line_end(raw, i) ==> raw[j] != 10,
    decreases raw.len() - i,
{
    if i < raw.len() && raw[i] != 10 {
        lemma_line_end(raw, i + 1);
    }
}

/// A line without its trailing carriage return.
pub open spec fn strip_cr(line: Seq<u8>) -> Seq<u8> {
    if line.len() > 0 && line.last() == 13 {
        line.drop_last()
    } else {
        line
    }
}

/// The position of the first `:` of a line, or -1.
pub open spec fn first_colon(line: Seq<u8>) -> int
    decreases line.len(),
{
    if line.len() == 0 {
        -1
    } else if line.last() == 58 && first_colon(line.drop_last()) < 0 {
        line.len() - 1
    } else {
        first_colon(line.drop_last())
    }
}

/// A header line whose field name, the text before its first `:`, is
/// `received` in any case.
pub open spec fn is_received_field(line: Seq<u8>) -> bool {
    let colon = first_colon(line);
    colon >= 0 && lower_bytes(line.subrange(0, colon)) == RECEIVED_NAME.spec_bytes()
}

/// A line that starts a field (not a folded continuation) and is a trace
/// field.
pub open spec fn counts_as_received(line: Seq<u8>) -> bool {
    line.len() > 0 && line[0] != 32 && line[0] != 9 && is_received_field(line)
}

/// The number of trace fields in the header from the line at `start` on:
/// lines are split at line feeds, a trailing carriage return is dropped, and
/// the first empty line ends the header.
pub open spec fn received_from(raw: Seq<u8>, start: int) -> nat
    decreases raw.len() - start,
{
    if start < 0 || start > raw.len() {
        0
    } else {
        let end = line_end(raw, start);
        let line = strip_cr(raw.subrange(start, end));
        if line.len() == 0 {
            0
        } else {
            let here: nat = if counts_as_received(line) { 1 } else { 0 };
            if end < raw.len() {
                proof {
                    lemma_line_end(raw, start);
                }
                here + received_from(raw, end + 1)
            } else {
                here
            }
        }
    }
}

/// The number of `Received` fields in the header of a raw message.
pub open spec fn spec_received_count(raw: Seq<u8>) -> nat {
    received_from(raw, 0)
}

fn find_line_end(raw: &[u8], start: usize) -> (end: usize)
    requires
        start <= raw@.len(),
    ensures
        end == line_end(raw@, start as int),
{
    let mut i = start;
    while i < raw.len() && raw[i] != 10u8
        invariant
            start <= i <= raw@.len(),
            line_end(raw@, start as int) == line_end(raw@, i as int),
        decreases raw@.len() - i,
    {
        i += 1;
    }
    i
}

proof fn lemma_first_colon_push(line: Seq<u8>, b: u8)
    ensures
        first_colon(line.push(b)) == if first_colon(line) >= 0 {
            first_colon(line)
        } else if b == 58 {
            line.len() as int
        } else {
            -1
        },
{
    assert(line.push(b).drop_last() =~= line);
    lemma_first_colon_range(line);
}

proof fn lemma_first_colon_range(line: Seq<u8>)
    ensures
        -1 <= first_colon(line) < line.len(),
    decreases line.len(),
{
    if line.len() > 0 {
        lemma_first_colon_range(line.drop_last());
    }
}

/// Whether `raw[start..stop]` is a trace field line.
fn received_field_at(raw: &[u8], start: usize, stop: usize) -> (r: bool)
    requires
        start <= stop <= raw@.len(),
    ensures
        r == is_received_field(raw@.subrange(start as int, stop as int)),
{
    let ghost line = raw@.subrange(start as int, stop as int);
    let mut i = start;
    while i < stop && raw[i] != 58u8
        invariant
            start <= i <= stop,
            stop <= raw@.len(),
            line == raw@.subrange(start as int, stop as int),
            first_colon(raw@.subrange(start as int, i as int)) == -1,
        decreases stop - i,
    {
        proof {
            assert(raw@.subrange(start as int, i + 1) =~= raw@.subrange(start as int, i as int).push(raw@[i as int]));
            lemma_first_colon_push(raw@.subrange(start as int, i as int), raw@[i as int]);
        }
        i += 1;
    }
    proof {
        if i < stop {
            assert(raw@.subrange(start as int, i + 1) =~= raw@.subrange(start as int, i as int).push(raw@[i as int]));
            lemma_first_colon_push(raw@.subrange(start as int, i as int), raw@[i as int]);
            // the first colon of the prefix is the first colon of the line
            lemma_first_colon_prefix(line, (i + 1 - start) as int);
            assert(line.subrange(0, (i + 1 - start) as int) =~= raw@.subrange(start as int, i + 1));
            assert(line.subrange(0, (i - start) as int) =~= raw@.subrange(start as int, i as int));
        } else {
            assert(line =~= raw@.subrange(start as int, i as int));
        }
    }
    if i >= stop {
        return false;
    }
    let name = RECEIVED_NAME.as_bytes();
    if i - start != name.len() {
        return false;
    }
    let mut k: usize = 0;
    while k < name.len()
        invariant
            k <= name@.len(),
            name@ == RECEIVED_NAME.spec_bytes(),
            i - start == name@.len(),
            start <= i < stop <= raw@.len(),
            forall|j: int| 0 <= j < k ==> lower_byte(#[trigger] raw@[start + j]) == name@[j],
            line == raw@.subrange(start as int, stop as int),
            first_colon(line) == i - start,
            line.subrange(0, (i - start) as int) == raw@.subrange(start as int, i as int),
        decreases name@.len() - k,
    {
        if to_lower_byte(raw[start + k]) != name[k] {
            proof {
                let sub = raw@.subrange(start as int, i as int);
                assert(sub[k as int] == raw@[start + k]);
                assert(lower_bytes(sub)[k as int] != name@[k as int]);
            }
            return false;
        }
        k += 1;
    }
    proof {
        let sub = raw@.subrange(start as int, i as int);
        assert forall|j: int| 0 <= j < sub.len() implies lower_bytes(sub)[j] == name@[j] by {
            assert(sub[j] == raw@[start + j]);
        }
        assert(lower_bytes(raw@.subrange(start as int, i as int)) =~= name@);
        assert(line.subrange(0, (i - start) as int) =~= raw@.subrange(start as int, i as int));
    }
    true
}

proof fn lemma_first_colon_prefix(line: Seq<u8>, n: int)
    requires
        0 <= n <= line.len(),
        first_colon(line.subrange(0, n)) >= 0,
    ensures
        first_colon(line) == first_colon(line.subrange(0, n)),
    decreases line.len() - n,
{
    if n < line.len() {
        assert(line.subrange(0, n + 1) =~= line.subrange(0, n).push(line[n]));
        lemma_first_colon_push(line.subrange(0, n), line[n]);
        lemma_first_colon_prefix(line, n + 1);
    } else {
        assert(line.subrange(0, n) =~= line);
    }
}

/// Counts the `Received` fields in the header of a raw message.
pub fn received_count(raw: &[u8]) -> (count: usize)
    ensures
        count == spec_received_count(raw@),
{
    let mut start: usize = 0;
    let mut count: usize = 0;
    loop
        invariant
            start <= raw@.len(),
            count <= start,
            count + received_from(raw@, start as int) == received_from(raw@, 0),
        decreases raw@.len() - start,
    {
        let end = find_line_end(raw, start);
        proof {
            lemma_line_end(raw@, start as int);
        }
        let mut stop = end;
        if stop > start && raw[stop - 1] == 13u8 {
            stop = stop - 1;
        }
        proof {
            let whole = raw@.subrange(start as int, end as int);
            assert(strip_cr(whole) =~= raw@.subrange(start as int, stop as int));
        }
        if stop == start {
            return count;
        }
        let counted = raw[start] != 32u8 && raw[start] != 9u8 && received_field_at(raw, start, stop);
        if counted {
            count = count + 1;
        }
        if end >= raw.len() {
            return count;
        }
        start = end + 1;
    }
}

/// Refuses a message whose header carries more trace fields than the
/// ceiling allows; a zero ceiling admits everything.
pub fn check(raw_message: &[u8], config: LoopConfig) -> (decision: LoopDecision)
    ensures
        config.max_received != 0 && spec_received_count(raw_message@) > config.max_received ==> (decision
            matches LoopDecision::Reject(reply) && reply@ == LOOPING.spec_bytes()),
        !(config.max_received != 0 && spec_received_count(raw_message@) > config.max_received) ==> decision
            is Allow,
{
    if config.is_disabled() {
        return LoopDecision::Allow;
    }
    if received_count(raw_message) > config.max_received {
        LoopDecision::Reject(LOOPING.as_bytes())
    } else {
        LoopDecision::Allow
    }
}

} // verus!
