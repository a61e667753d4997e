use vstd::prelude::*;
use crate::sieve::instruction::{AddressPart, Comparator, EnvelopePart, Instruction, MatchType, Test};
use crate::sieve::matching::{spec_value_matches, value_matches};
use crate::sieve::message::{
    address_part, named, parsed_headers, parse_envelope_address, spec_address_part, spec_header_addresses,
    spec_header_values, spec_parse_envelope_address, MessageView, RawHeader,
};
use crate::sieve::script::{Envelope, Limits, Outcome, Script};
use crate::sieve::grammar::{all_forward, forward_at};
use crate::text::{lower_chars, str_eq, str_eq_ignore_case};

verus! {

/// The characters of each string of a list.
pub open spec fn strs(v: Seq<String>) -> Seq<Seq<char>> {
    v.map_values(|s: String| s@)
}

/// Some key matches the value.
pub open spec fn any_key(keys: Seq<Seq<char>>, mt: MatchType, comparator: Comparator, value: Seq<char>) -> bool {
    exists|k: int| 0 <= k < keys.len() && spec_value_matches(mt, comparator, #[trigger] keys[k], value)
}

/// Some key matches some value.
pub open spec fn any_value(values: Seq<Seq<char>>, keys: Seq<Seq<char>>, mt: MatchType, comparator: Comparator) -> bool {
    exists|j: int| 0 <= j < values.len() && any_key(keys, mt, comparator, #[trigger] values[j])
}

/// The envelope address that an envelope part names.
pub open spec fn envelope_value(
    part: EnvelopePart,
    env_from: Option<Seq<char>>,
    env_to: Option<Seq<char>>,
) -> Option<Seq<char>> {
    match part {
        EnvelopePart::From => env_from,
        EnvelopePart::To => env_to,
    }
}

/// The value of a test on a message: header and address tests look for a
/// key that matches a value of one of the named fields, envelope tests look
/// at the normalized envelope (a junk envelope address matches nothing),
/// `exists` needs every named field, `size` compares the raw length
/// strictly; `not` has been folded into `is_not`.
pub open spec fn eval_test(
    test: Test,
    raw: Seq<u8>,
    headers: Seq<crate::sieve::message::RawHeader>,
    env_from: Option<Seq<char>>,
    env_to: Option<Seq<char>>,
) -> bool {
    match test {
        Test::Bool(value) => value,
        Test::Header { headers: names, keys, match_type, comparator, is_not } => (exists|i: int|
            0 <= i < names@.len() && any_value(
                spec_header_values(raw, headers, #[trigger] names@[i]@),
                strs(keys@),
                match_type,
                comparator,
            )) != is_not,
        Test::Address { headers: names, keys, part, match_type, comparator, is_not } => (exists|i: int|
            0 <= i < names@.len() && any_value(
                spec_header_addresses(headers, #[trigger] names@[i]@, part),
                strs(keys@),
                match_type,
                comparator,
            )) != is_not,
        Test::Envelope { parts, keys, part, match_type, comparator, is_not } => (exists|i: int|
            0 <= i < parts@.len() && match envelope_value(#[trigger] parts@[i], env_from, env_to) {
                Some(v) => any_key(strs(keys@), match_type, comparator, spec_address_part(v, part)),
                None => false,
            }) != is_not,
        Test::Exists { headers: names, is_not } => (forall|i: int|
            0 <= i < names@.len() ==> named(headers, #[trigger] names@[i]@).len() > 0) != is_not,
        Test::Size { over, limit, is_not } => (if over {
            raw.len() > limit
        } else {
            raw.len() < limit
        }) != is_not,
    }
}

/// An envelope test that names only the "to" part reads the envelope
/// recipient alone: its value does not depend on the envelope sender; with no
/// recipient nothing matches, and with a recipient the test holds exactly when
/// some key matches the chosen part of the recipient's address (before `not`).
pub proof fn lemma_envelope_to_reads_only_the_recipient(
    parts: Vec<EnvelopePart>,
    keys: Vec<String>,
    part: AddressPart,
    match_type: MatchType,
    comparator: Comparator,
    is_not: bool,
    raw: Seq<u8>,
    headers: Seq<crate::sieve::message::RawHeader>,
    sender: Option<Seq<char>>,
    other_sender: Option<Seq<char>>,
    recipient: Option<Seq<char>>,
)
    requires
        parts@.len() > 0,
        forall|i: int| 0 <= i < parts@.len() ==> parts@[i] == EnvelopePart::To,
    ensures
        ({
            let test = Test::Envelope { parts, keys, part, match_type, comparator, is_not };
            &&& eval_test(test, raw, headers, sender, recipient) == eval_test(
                test,
                raw,
                headers,
                other_sender,
                recipient,
            )
            &&& recipient is None ==> eval_test(test, raw, headers, sender, recipient) == is_not
            &&& recipient matches Some(to) ==> eval_test(test, raw, headers, sender, recipient) == (any_key(
                strs(keys@),
                match_type,
                comparator,
                spec_address_part(to, part),
            ) != is_not)
        }),
{
    assert(parts@[0] == EnvelopePart::To);
}

/// An envelope test that names only the "from" part reads the envelope
/// sender alone: its value does not depend on the envelope recipient; with no
/// sender nothing matches, and with a sender the test holds exactly when some
/// key matches the chosen part of the sender's address (before `not`).
pub proof fn lemma_envelope_from_reads_only_the_sender(
    parts: Vec<EnvelopePart>,
    keys: Vec<String>,
    part: AddressPart,
    match_type: MatchType,
    comparator: Comparator,
    is_not: bool,
    raw: Seq<u8>,
    headers: Seq<crate::sieve::message::RawHeader>,
    sender: Option<Seq<char>>,
    recipient: Option<Seq<char>>,
    other_recipient: Option<Seq<char>>,
)
    requires
        parts@.len() > 0,
        forall|i: int| 0 <= i < parts@.len() ==> parts@[i] == EnvelopePart::From,
    ensures
        ({
            let test = Test::Envelope { parts, keys, part, match_type, comparator, is_not };
            &&& eval_test(test, raw, headers, sender, recipient) == eval_test(
                test,
                raw,
                headers,
                sender,
                other_recipient,
            )
            &&& sender is None ==> eval_test(test, raw, headers, sender, recipient) == is_not
            &&& sender matches Some(from) ==> eval_test(test, raw, headers, sender, recipient) == (any_key(
                strs(keys@),
                match_type,
                comparator,
                spec_address_part(from, part),
            ) != is_not)
        }),
{
    assert(parts@[0] == EnvelopePart::From);
}

/// The state of a script run.
pub ghost struct RunState {
    pub pos: int,
    pub steps: int,
    pub test_result: bool,
    pub implicit_keep: bool,
    pub explicit_keep: bool,
    pub discard_requested: bool,
    pub file_into: Seq<Seq<char>>,
    pub redirects: Seq<Seq<char>>,
    pub flags: Seq<Seq<char>>,
    pub halted: bool,
}

pub open spec fn initial_state() -> RunState {
    RunState {
        pos: 0,
        steps: 0,
        test_result: false,
        implicit_keep: true,
        explicit_keep: false,
        discard_requested: false,
        file_into: Seq::empty(),
        redirects: Seq::empty(),
        flags: Seq::empty(),
        halted: false,
    }
}

/// Some element equals `x` up to ASCII case.
pub open spec fn has_ignore_case(list: Seq<Seq<char>>, x: Seq<char>) -> bool {
    exists|i: int| 0 <= i < list.len() && lower_chars(#[trigger] list[i]) == lower_chars(x)
}

/// Adds flags one by one, skipping those already present up to ASCII case.
pub open spec fn add_flags(flags: Seq<Seq<char>>, new_flags: Seq<Seq<char>>) -> Seq<Seq<char>>
    decreases new_flags.len(),
{
    if new_flags.len() == 0 {
        flags
    } else {
        let before = add_flags(flags, new_flags.drop_last());
        if has_ignore_case(before, new_flags.last()) {
            before
        } else {
            before.push(new_flags.last())
        }
    }
}

/// Drops every flag that equals a removed one up to ASCII case.
pub open spec fn remove_flags(flags: Seq<Seq<char>>, removed: Seq<Seq<char>>) -> Seq<Seq<char>> {
    flags.filter(|f: Seq<char>| !has_ignore_case(removed, f))
}

/// Adds a mailbox to the fileinto targets unless it is already there.
pub open spec fn add_target(targets: Seq<Seq<char>>, mailbox: Seq<char>) -> Seq<Seq<char>> {
    if targets.contains(mailbox) {
        targets
    } else {
        targets.push(mailbox)
    }
}

/// Adds a redirect unless the cap is reached or the address is already
/// there up to ASCII case.
pub open spec fn add_redirect(redirects: Seq<Seq<char>>, address: Seq<char>, max: int) -> Seq<Seq<char>> {
    if redirects.len() < max && !has_ignore_case(redirects, address) {
        redirects.push(address)
    } else {
        redirects
    }
}

/// One step of a run: the step budget is charged, then the instruction at
/// `pos` runs. Jumps go to their target; every other instruction moves on to
/// the next one, except `stop`.
pub open spec fn step(
    instructions: Seq<Instruction>,
    raw: Seq<u8>,
    headers: Seq<crate::sieve::message::RawHeader>,
    env_from: Option<Seq<char>>,
    env_to: Option<Seq<char>>,
    cpu: u32,
    max_redirects: usize,
    s: RunState,
) -> RunState {
    let steps = s.steps + 1;
    let next = s.pos + 1;
    if steps > cpu {
        RunState { steps, halted: true, ..s }
    } else {
        match instructions[s.pos] {
            Instruction::Test(test) => RunState {
                steps,
                pos: next,
                test_result: eval_test(test, raw, headers, env_from, env_to),
                ..s
            },
            Instruction::Jmp(target) => RunState { steps, pos: target as int, ..s },
            Instruction::Jz(target) => RunState {
                steps,
                pos: if !s.test_result { target as int } else { next },
                ..s
            },
            Instruction::Jnz(target) => RunState {
                steps,
                pos: if s.test_result { target as int } else { next },
                ..s
            },
            Instruction::Keep => RunState { steps, pos: next, explicit_keep: true, ..s },
            Instruction::Discard => RunState {
                steps,
                pos: next,
                discard_requested: true,
                implicit_keep: false,
                ..s
            },
            Instruction::Stop => RunState { steps, halted: true, ..s },
            Instruction::FileInto(mailbox) => RunState {
                steps,
                pos: next,
                implicit_keep: false,
                file_into: add_target(s.file_into, mailbox@),
                ..s
            },
            Instruction::Redirect(address) => RunState {
                steps,
                pos: next,
                redirects: add_redirect(s.redirects, address@, max_redirects as int),
                ..s
            },
            Instruction::AddFlag(new_flags) => RunState {
                steps,
                pos: next,
                flags: add_flags(s.flags, strs(new_flags@)),
                ..s
            },
            Instruction::SetFlag(new_flags) => RunState {
                steps,
                pos: next,
                flags: add_flags(Seq::empty(), strs(new_flags@)),
                ..s
            },
            Instruction::RemoveFlag(removed) => RunState {
                steps,
                pos: next,
                flags: remove_flags(s.flags, strs(removed@)),
                ..s
            },
        }
    }
}

/// Whether a run has finished: stopped, out of budget, or past the last
/// instruction.
pub open spec fn finished(instructions: Seq<Instruction>, s: RunState) -> bool {
    s.halted || s.pos < 0 || s.pos >= instructions.len()
}

/// The state after at most `n` steps.
pub open spec fn run_steps(
    instructions: Seq<Instruction>,
    raw: Seq<u8>,
    headers: Seq<crate::sieve::message::RawHeader>,
    env_from: Option<Seq<char>>,
    env_to: Option<Seq<char>>,
    cpu: u32,
    max_redirects: usize,
    s: RunState,
    n: nat,
) -> RunState
    decreases n,
{
    if n == 0 || finished(instructions, s) {
        s
    } else {
        run_steps(
            instructions,
            raw,
            headers,
            env_from,
            env_to,
            cpu,
            max_redirects,
            step(instructions, raw, headers, env_from, env_to, cpu, max_redirects, s),
            (n - 1) as nat,
        )
    }
}

/// The outcome of a finished run: the message is kept on an explicit keep or
/// when nothing cancelled the implicit keep; it counts as discarded only when
/// a discard was asked for and it is neither kept nor filed anywhere.
pub open spec fn outcome_of(s: RunState) -> (bool, bool, Seq<Seq<char>>, Seq<Seq<char>>, Seq<Seq<char>>) {
    let keep = s.explicit_keep || s.implicit_keep;
    (keep, s.discard_requested && !keep && s.file_into.len() == 0, s.file_into, s.redirects, s.flags)
}

/// The outcome of running the instructions on a message: at most `cpu + 1`
/// steps suffice, as the budget stops the run after `cpu` of them.
pub open spec fn spec_run(
    instructions: Seq<Instruction>,
    raw: Seq<u8>,
    headers: Seq<crate::sieve::message::RawHeader>,
    env_from: Option<Seq<char>>,
    env_to: Option<Seq<char>>,
    cpu: u32,
    max_redirects: usize,
) -> (bool, bool, Seq<Seq<char>>, Seq<Seq<char>>, Seq<Seq<char>>) {
    outcome_of(
        run_steps(
            instructions,
            raw,
            headers,
            env_from,
            env_to,
            cpu,
            max_redirects,
            initial_state(),
            cpu as nat + 1,
        ),
    )
}


/// The characters of an optional string.
pub open spec fn opt_chars(o: Option<String>) -> Option<Seq<char>> {
    match o {
        Some(s) => Some(s@),
        None => None,
    }
}

proof fn lemma_strs_push(v: Seq<String>, x: String)
    ensures
        strs(v.push(x)) == strs(v).push(x@),
{
    assert(strs(v.push(x)) =~= strs(v).push(x@));
}

/// Whether some key matches the value.
fn matches_any_key(keys: &Vec<String>, mt: MatchType, comparator: Comparator, value: &str) -> (r: bool)
    ensures
        r == any_key(strs(keys@), mt, comparator, value@),
{
    let mut k: usize = 0;
    while k < keys.len()
        invariant
            k <= keys@.len(),
            forall|j: int| 0 <= j < k ==> !spec_value_matches(mt, comparator, #[trigger] strs(keys@)[j], value@),
        decreases keys@.len() - k,
    {
        let m = value_matches(mt, comparator, keys[k].as_str(), value);
        assert(strs(keys@)[k as int] == keys@[k as int]@);
        if m {
            return true;
        }
        k += 1;
    }
    false
}

/// Whether some key matches some of the values.
fn matches_any_value(values: &Vec<String>, keys: &Vec<String>, mt: MatchType, comparator: Comparator) -> (r: bool)
    ensures
        r == any_value(strs(values@), strs(keys@), mt, comparator),
{
    let mut j: usize = 0;
    while j < values.len()
        invariant
            j <= values@.len(),
            forall|i: int| 0 <= i < j ==> !any_key(strs(keys@), mt, comparator, #[trigger] strs(values@)[i]),
        decreases values@.len() - j,
    {
        let m = matches_any_key(keys, mt, comparator, values[j].as_str());
        assert(strs(values@)[j as int] == values@[j as int]@);
        if m {
            return true;
        }
        j += 1;
    }
    false
}

/// A `header` test before `not`.
fn header_test(
    message: &MessageView,
    names: &Vec<String>,
    keys: &Vec<String>,
    mt: MatchType,
    comparator: Comparator,
) -> (r: bool)
    ensures
        r == (exists|i: int|
            0 <= i < names@.len() && any_value(
                spec_header_values(message.raw(), message.headers(), #[trigger] names@[i]@),
                strs(keys@),
                mt,
                comparator,
            )),
{
    let mut i: usize = 0;
    while i < names.len()
        invariant
            i <= names@.len(),
            forall|j: int|
                0 <= j < i ==> !any_value(
                    spec_header_values(message.raw(), message.headers(), #[trigger] names@[j]@),
                    strs(keys@),
                    mt,
                    comparator,
                ),
        decreases names@.len() - i,
    {
        let values = message.header_values(names[i].as_str());
        let m = matches_any_value(&values, keys, mt, comparator);
        assert(strs(values@) =~= values@.map_values(|v: String| v@));
        if m {
            return true;
        }
        i += 1;
    }
    false
}

/// An `address` test before `not`.
fn address_test(
    message: &MessageView,
    names: &Vec<String>,
    keys: &Vec<String>,
    part: AddressPart,
    mt: MatchType,
    comparator: Comparator,
) -> (r: bool)
    ensures
        r == (exists|i: int|
            0 <= i < names@.len() && any_value(
                spec_header_addresses(message.headers(), #[trigger] names@[i]@, part),
                strs(keys@),
                mt,
                comparator,
            )),
{
    let mut i: usize = 0;
    while i < names.len()
        invariant
            i <= names@.len(),
            forall|j: int|
                0 <= j < i ==> !any_value(
                    spec_header_addresses(message.headers(), #[trigger] names@[j]@, part),
                    strs(keys@),
                    mt,
                    comparator,
                ),
        decreases names@.len() - i,
    {
        let values = message.header_addresses(names[i].as_str(), part);
        let m = matches_any_value(&values, keys, mt, comparator);
        assert(strs(values@) =~= values@.map_values(|v: String| v@));
        if m {
            return true;
        }
        i += 1;
    }
    false
}

/// An `envelope` test before `not`.
fn envelope_test(
    env_from: &Option<String>,
    env_to: &Option<String>,
    parts: &Vec<EnvelopePart>,
    keys: &Vec<String>,
    part: AddressPart,
    mt: MatchType,
    comparator: Comparator,
) -> (r: bool)
    ensures
        r == (exists|i: int|
            0 <= i < parts@.len() && match envelope_value(
                #[trigger] parts@[i],
                opt_chars(*env_from),
                opt_chars(*env_to),
            ) {
                Some(v) => any_key(strs(keys@), mt, comparator, spec_address_part(v, part)),
                None => false,
            }),
{
    let mut i: usize = 0;
    while i < parts.len()
        invariant
            i <= parts@.len(),
            forall|j: int|
                0 <= j < i ==> !(match envelope_value(
                    #[trigger] parts@[j],
                    opt_chars(*env_from),
                    opt_chars(*env_to),
                ) {
                    Some(v) => any_key(strs(keys@), mt, comparator, spec_address_part(v, part)),
                    None => false,
                }),
        decreases parts@.len() - i,
    {
        let value = match parts[i] {
            EnvelopePart::From => env_from,
            EnvelopePart::To => env_to,
        };
        match value {
            Some(v) => {
                let picked = address_part(v.as_str(), part);
                if matches_any_key(keys, mt, comparator, picked.as_str()) {
                    return true;
                }
            },
            None => {},
        }
        i += 1;
    }
    false
}

/// An `exists` test before `not`.
fn exists_test(message: &MessageView, names: &Vec<String>) -> (r: bool)
    ensures
        r == (forall|i: int| 0 <= i < names@.len() ==> named(message.headers(), #[trigger] names@[i]@).len() > 0),
{
    let mut i: usize = 0;
    while i < names.len()
        invariant
            i <= names@.len(),
            forall|j: int| 0 <= j < i ==> named(message.headers(), #[trigger] names@[j]@).len() > 0,
        decreases names@.len() - i,
    {
        if !message.header_exists(names[i].as_str()) {
            return false;
        }
        i += 1;
    }
    true
}

/// Evaluates one test against the message and the normalized envelope.
fn eval(test: &Test, message: &MessageView, env_from: &Option<String>, env_to: &Option<String>) -> (r: bool)
    requires
        message.raw().len() <= u64::MAX,
    ensures
        r == eval_test(*test, message.raw(), message.headers(), opt_chars(*env_from), opt_chars(*env_to)),
{
    match test {
        Test::Bool(value) => *value,
        Test::Header { headers, keys, match_type, comparator, is_not } => {
            header_test(message, headers, keys, *match_type, *comparator) != *is_not
        },
        Test::Address { headers, keys, part, match_type, comparator, is_not } => {
            address_test(message, headers, keys, *part, *match_type, *comparator) != *is_not
        },
        Test::Envelope { parts, keys, part, match_type, comparator, is_not } => {
            envelope_test(env_from, env_to, parts, keys, *part, *match_type, *comparator) != *is_not
        },
        Test::Exists { headers, is_not } => exists_test(message, headers) != *is_not,
        Test::Size { over, limit, is_not } => {
            let size = message.size();
            let result = if *over {
                size > *limit
            } else {
                size < *limit
            };
            result != *is_not
        },
    }
}


/// The result of a run as plain values: keep, discarded, fileinto targets,
/// redirects and flags.
pub open spec fn outcome_view(o: Outcome) -> (bool, bool, Seq<Seq<char>>, Seq<Seq<char>>, Seq<Seq<char>>) {
    (o.keep, o.discarded, strs(o.file_into@), strs(o.redirects@), strs(o.flags@))
}

proof fn lemma_run_steps_split(
    instructions: Seq<Instruction>,
    raw: Seq<u8>,
    headers: Seq<crate::sieve::message::RawHeader>,
    env_from: Option<Seq<char>>,
    env_to: Option<Seq<char>>,
    cpu: u32,
    max_redirects: usize,
    s: RunState,
    n: nat,
)
    ensures
        ({
            let t = run_steps(instructions, raw, headers, env_from, env_to, cpu, max_redirects, s, n);
            run_steps(instructions, raw, headers, env_from, env_to, cpu, max_redirects, s, n + 1) == if finished(
                instructions,
                t,
            ) {
                t
            } else {
                step(instructions, raw, headers, env_from, env_to, cpu, max_redirects, t)
            }
        }),
    decreases n,
{
    if n > 0 && !finished(instructions, s) {
        let s1 = step(instructions, raw, headers, env_from, env_to, cpu, max_redirects, s);
        lemma_run_steps_split(instructions, raw, headers, env_from, env_to, cpu, max_redirects, s1, (n - 1) as nat);
        assert((n + 1 - 1) as nat == ((n - 1) as nat) + 1);
    } else if n == 0 {
        reveal_with_fuel(run_steps, 2);
    }
}

proof fn lemma_run_steps_settled(
    instructions: Seq<Instruction>,
    raw: Seq<u8>,
    headers: Seq<crate::sieve::message::RawHeader>,
    env_from: Option<Seq<char>>,
    env_to: Option<Seq<char>>,
    cpu: u32,
    max_redirects: usize,
    s: RunState,
    n: nat,
    m: nat,
)
    requires
        n <= m,
        finished(instructions, run_steps(instructions, raw, headers, env_from, env_to, cpu, max_redirects, s, n)),
    ensures
        run_steps(instructions, raw, headers, env_from, env_to, cpu, max_redirects, s, m) == run_steps(
            instructions,
            raw,
            headers,
            env_from,
            env_to,
            cpu,
            max_redirects,
            s,
            n,
        ),
    decreases m - n,
{
    if n < m {
        lemma_run_steps_split(instructions, raw, headers, env_from, env_to, cpu, max_redirects, s, n);
        lemma_run_steps_settled(instructions, raw, headers, env_from, env_to, cpu, max_redirects, s, n + 1, m);
    }
}

/// Whether the list holds the string.
fn contains_string(list: &Vec<String>, x: &String) -> (r: bool)
    ensures
        r == strs(list@).contains(x@),
{
    let mut i: usize = 0;
    while i < list.len()
        invariant
            i <= list@.len(),
            forall|j: int| 0 <= j < i ==> #[trigger] strs(list@)[j] != x@,
        decreases list@.len() - i,
    {
        let e = str_eq(list[i].as_str(), x.as_str());
        assert(strs(list@)[i as int] == list@[i as int]@);
        if e {
            return true;
        }
        i += 1;
    }
    false
}

/// Whether the list holds the string up to ASCII case.
fn contains_ignore_case(list: &Vec<String>, x: &str) -> (r: bool)
    ensures
        r == has_ignore_case(strs(list@), x@),
{
    let mut i: usize = 0;
    while i < list.len()
        invariant
            i <= list@.len(),
            forall|j: int| 0 <= j < i ==> lower_chars(#[trigger] strs(list@)[j]) != lower_chars(x@),
        decreases list@.len() - i,
    {
        let e = str_eq_ignore_case(list[i].as_str(), x);
        assert(strs(list@)[i as int] == list@[i as int]@);
        if e {
            return true;
        }
        i += 1;
    }
    false
}

/// Adds each new flag that is not already there up to ASCII case.
fn add_flag_list(flags: &mut Vec<String>, new_flags: &Vec<String>)
    ensures
        strs(final(flags)@) == add_flags(strs(old(flags)@), strs(new_flags@)),
{
    let ghost start = strs(flags@);
    let mut i: usize = 0;
    while i < new_flags.len()
        invariant
            i <= new_flags@.len(),
            strs(flags@) == add_flags(start, strs(new_flags@).take(i as int)),
        decreases new_flags@.len() - i,
    {
        let ghost before = flags@;
        let present = contains_ignore_case(flags, new_flags[i].as_str());
        proof {
            let t = strs(new_flags@).take(i + 1);
            assert(t.drop_last() =~= strs(new_flags@).take(i as int));
            assert(t.last() == new_flags@[i as int]@);
        }
        if !present {
            flags.push(new_flags[i].clone());
            proof {
                lemma_strs_push(before, new_flags@[i as int]);
            }
        }
        i += 1;
    }
    assert(strs(new_flags@).take(new_flags@.len() as int) =~= strs(new_flags@));
}

proof fn lemma_remove_flags_push(flags: Seq<Seq<char>>, x: Seq<char>, removed: Seq<Seq<char>>)
    ensures
        remove_flags(flags.push(x), removed) == if has_ignore_case(removed, x) {
            remove_flags(flags, removed)
        } else {
            remove_flags(flags, removed).push(x)
        },
{
    reveal_with_fuel(Seq::filter, 1);
    assert(flags.push(x).drop_last() =~= flags);
}

/// Keeps the flags that equal none of the removed ones up to ASCII case.
fn remove_flag_list(flags: &Vec<String>, removed: &Vec<String>) -> (kept: Vec<String>)
    ensures
        strs(kept@) == remove_flags(strs(flags@), strs(removed@)),
{
    let mut kept: Vec<String> = Vec::new();
    let mut i: usize = 0;
    while i < flags.len()
        invariant
            i <= flags@.len(),
            strs(kept@) == remove_flags(strs(flags@).take(i as int), strs(removed@)),
        decreases flags@.len() - i,
    {
        let ghost before = kept@;
        let gone = contains_ignore_case(removed, flags[i].as_str());
        proof {
            assert(strs(flags@).take(i + 1) =~= strs(flags@).take(i as int).push(flags@[i as int]@));
            lemma_remove_flags_push(strs(flags@).take(i as int), flags@[i as int]@, strs(removed@));
        }
        if !gone {
            kept.push(flags[i].clone());
            proof {
                lemma_strs_push(before, flags@[i as int]);
            }
        }
        i += 1;
    }
    assert(strs(flags@).take(flags@.len() as int) =~= strs(flags@));
    kept
}


/// The run state that the executing variables stand for.
pub open spec fn run_state(
    pos: usize,
    steps: u64,
    test_result: bool,
    implicit_keep: bool,
    explicit_keep: bool,
    discard_requested: bool,
    file_into: Seq<String>,
    redirects: Seq<String>,
    flags: Seq<String>,
    halted: bool,
) -> RunState {
    RunState {
        pos: pos as int,
        steps: steps as int,
        test_result,
        implicit_keep,
        explicit_keep,
        discard_requested,
        file_into: strs(file_into),
        redirects: strs(redirects),
        flags: strs(flags),
        halted,
    }
}

/// Runs a compiled script against a message (its raw bytes and the view
/// over them) and its envelope within the limits. The result is `spec_run`
/// over the view's header fields and the normalized envelope addresses.
pub(crate) fn run(script: &Script, raw: &[u8], message: MessageView, envelope: Envelope, limits: &Limits) -> (outcome: Outcome)
    requires
        message.raw() == raw@,
    ensures
        outcome_view(outcome) == spec_run(
            script.instructions@,
            raw@,
            message.headers(),
            spec_parse_envelope_address(envelope.from@),
            spec_parse_envelope_address(envelope.to@),
            limits.cpu,
            limits.max_redirects,
        ),
{
    let raw_len = raw.len();
    let env_from = parse_envelope_address(envelope.from);
    let env_to = parse_envelope_address(envelope.to);
    let ghost instructions = script.instructions@;
    let ghost headers = message.headers();
    let ghost ef = opt_chars(env_from);
    let ghost et = opt_chars(env_to);
    let ghost cpu = limits.cpu;
    let ghost max_redirects = limits.max_redirects;
    assert(ef == spec_parse_envelope_address(envelope.from@));
    assert(et == spec_parse_envelope_address(envelope.to@));
    let mut pos: usize = 0;
    let mut steps: u64 = 0;
    let mut test_result = false;
    let mut implicit_keep = true;
    let mut explicit_keep = false;
    let mut discard_requested = false;
    let mut file_into: Vec<String> = Vec::new();
    let mut redirects: Vec<String> = Vec::new();
    let mut flags: Vec<String> = Vec::new();
    let ghost mut halted = false;
    assert(strs(Seq::<String>::empty()) =~= Seq::<Seq<char>>::empty());
    assert(run_state(pos, steps, test_result, implicit_keep, explicit_keep, discard_requested, file_into@, redirects@, flags@, halted) == initial_state());
    loop
        invariant_except_break
            !halted,
            steps <= cpu,
        invariant
            instructions == script.instructions@,
            headers == message.headers(),
            raw@ == message.raw(),
            raw_len == raw@.len(),
            ef == opt_chars(env_from),
            et == opt_chars(env_to),
            cpu == limits.cpu,
            max_redirects == limits.max_redirects,
            steps <= cpu as int + 1,
            run_steps(instructions, raw@, headers, ef, et, cpu, max_redirects, initial_state(), steps as nat)
                == run_state(pos, steps, test_result, implicit_keep, explicit_keep, discard_requested, file_into@, redirects@, flags@, halted),
        ensures
            steps <= cpu as int + 1,
            finished(instructions, run_state(pos, steps, test_result, implicit_keep, explicit_keep, discard_requested, file_into@, redirects@, flags@, halted)),
            run_steps(instructions, raw@, headers, ef, et, cpu, max_redirects, initial_state(), steps as nat)
                == run_state(pos, steps, test_result, implicit_keep, explicit_keep, discard_requested, file_into@, redirects@, flags@, halted),
        decreases cpu as int + 1 - steps,
    {
        if pos >= script.instructions.len() {
            break;
        }
        let ghost cur = run_state(pos, steps, test_result, implicit_keep, explicit_keep, discard_requested, file_into@, redirects@, flags@, halted);
        proof {
            lemma_run_steps_split(instructions, raw@, headers, ef, et, cpu, max_redirects, initial_state(), steps as nat);
        }
        let ghost next = step(instructions, raw@, headers, ef, et, cpu, max_redirects, cur);
        steps = steps + 1;
        if steps > limits.cpu as u64 {
            proof {
                halted = true;
            }
            assert(run_state(pos, steps, test_result, implicit_keep, explicit_keep, discard_requested, file_into@, redirects@, flags@, halted) == next);
            break;
        }
        match &script.instructions[pos] {
            Instruction::Test(test) => {
                test_result = eval(test, &message, &env_from, &env_to);
                pos = pos + 1;
            },
            Instruction::Jmp(target) => {
                pos = *target;
            },
            Instruction::Jz(target) => {
                if !test_result {
                    pos = *target;
                } else {
                    pos = pos + 1;
                }
            },
            Instruction::Jnz(target) => {
                if test_result {
                    pos = *target;
                } else {
                    pos = pos + 1;
                }
            },
            Instruction::Keep => {
                explicit_keep = true;
                pos = pos + 1;
            },
            Instruction::Discard => {
                discard_requested = true;
                implicit_keep = false;
                pos = pos + 1;
            },
            Instruction::Stop => {
                proof {
                    halted = true;
                }
                assert(run_state(pos, steps, test_result, implicit_keep, explicit_keep, discard_requested, file_into@, redirects@, flags@, halted) == next);
                break;
            },
            Instruction::FileInto(mailbox) => {
                implicit_keep = false;
                if !contains_string(&file_into, mailbox) {
                    let ghost before = file_into@;
                    file_into.push(mailbox.clone());
                    proof {
                        lemma_strs_push(before, *mailbox);
                    }
                }
                pos = pos + 1;
            },
            Instruction::Redirect(address) => {
                if redirects.len() < limits.max_redirects && !contains_ignore_case(&redirects, address.as_str()) {
                    let ghost before = redirects@;
                    redirects.push(address.clone());
                    proof {
                        lemma_strs_push(before, *address);
                    }
                }
                pos = pos + 1;
            },
            Instruction::AddFlag(new_flags) => {
                add_flag_list(&mut flags, new_flags);
                pos = pos + 1;
            },
            Instruction::SetFlag(new_flags) => {
                let mut fresh: Vec<String> = Vec::new();
                assert(strs(fresh@) =~= Seq::<Seq<char>>::empty());
                add_flag_list(&mut fresh, new_flags);
                flags = fresh;
                pos = pos + 1;
            },
            Instruction::RemoveFlag(removed) => {
                flags = remove_flag_list(&flags, removed);
                pos = pos + 1;
            },
        }
        assert(run_state(pos, steps, test_result, implicit_keep, explicit_keep, discard_requested, file_into@, redirects@, flags@, halted) == next);
    }
    proof {
        lemma_run_steps_settled(instructions, raw@, headers, ef, et, cpu, max_redirects, initial_state(), steps as nat, cpu as nat + 1);
    }
    let keep = explicit_keep || implicit_keep;
    let discarded = discard_requested && !keep && file_into.len() == 0;
    Outcome { keep, discarded, file_into, redirects, flags }
}


/// Runs a compiled script against a message: what the script decided, with
/// the message's header fields parsed and the envelope addresses normalized
/// first.
pub fn execute(script: &Script, raw: &[u8], envelope: Envelope, limits: &Limits) -> (outcome: Outcome)
    ensures
        outcome_view(outcome) == spec_run(
            script.instructions@,
            raw@,
            parsed_headers(raw@),
            spec_parse_envelope_address(envelope.from@),
            spec_parse_envelope_address(envelope.to@),
            limits.cpu,
            limits.max_redirects,
        ),
{
    run(script, raw, MessageView::new(raw), envelope, limits)
}

/// Runs a compiled script against a message whose header fields were
/// already read (in order, as `MessageView::from_fields` takes them): what
/// the script decides is `spec_run` over those fields and the normalized
/// envelope addresses.
pub fn execute_with_fields(
    script: &Script,
    raw: &[u8],
    headers: Vec<RawHeader>,
    envelope: Envelope,
    limits: &Limits,
) -> (outcome: Outcome)
    ensures
        outcome_view(outcome) == spec_run(
            script.instructions@,
            raw@,
            headers@,
            spec_parse_envelope_address(envelope.from@),
            spec_parse_envelope_address(envelope.to@),
            limits.cpu,
            limits.max_redirects,
        ),
{
    run(script, raw, MessageView::from_fields(raw, headers), envelope, limits)
}

/// No two elements are equal up to ASCII case.
pub open spec fn distinct_ignore_case(list: Seq<Seq<char>>) -> bool {
    forall|i: int, j: int|
        0 <= i < j < list.len() ==> lower_chars(#[trigger] list[i]) != lower_chars(#[trigger] list[j])
}

/// What every state of a run keeps: the redirects stay within their cap and
/// hold no two addresses equal up to case, the flags hold no two equal up to
/// case, and no fileinto target is listed twice.
pub open spec fn state_consistent(s: RunState, max_redirects: int) -> bool {
    &&& s.redirects.len() <= max_redirects
    &&& distinct_ignore_case(s.redirects)
    &&& distinct_ignore_case(s.flags)
    &&& s.file_into.no_duplicates()
}

proof fn lemma_push_distinct(list: Seq<Seq<char>>, x: Seq<char>)
    requires
        distinct_ignore_case(list),
        !has_ignore_case(list, x),
    ensures
        distinct_ignore_case(list.push(x)),
{
    let l2 = list.push(x);
    assert forall|i: int, j: int| 0 <= i < j < l2.len() implies lower_chars(#[trigger] l2[i]) != lower_chars(
        #[trigger] l2[j],
    ) by {
        if j == list.len() {
            assert(l2[i] == list[i]);
            if lower_chars(list[i]) == lower_chars(x) {
                assert(has_ignore_case(list, x));
            }
        } else {
            assert(l2[i] == list[i] && l2[j] == list[j]);
        }
    }
}

proof fn lemma_add_flags_distinct(flags: Seq<Seq<char>>, new_flags: Seq<Seq<char>>)
    requires
        distinct_ignore_case(flags),
    ensures
        distinct_ignore_case(add_flags(flags, new_flags)),
    decreases new_flags.len(),
{
    if new_flags.len() > 0 {
        lemma_add_flags_distinct(flags, new_flags.drop_last());
        let before = add_flags(flags, new_flags.drop_last());
        if !has_ignore_case(before, new_flags.last()) {
            lemma_push_distinct(before, new_flags.last());
        }
    }
}

proof fn lemma_remove_flags_distinct(flags: Seq<Seq<char>>, removed: Seq<Seq<char>>)
    requires
        distinct_ignore_case(flags),
    ensures
        distinct_ignore_case(remove_flags(flags, removed)),
    decreases flags.len(),
{
    if flags.len() > 0 {
        let init = flags.drop_last();
        let x = flags.last();
        assert(init.push(x) =~= flags);
        assert(distinct_ignore_case(init)) by {
            assert forall|i: int, j: int| 0 <= i < j < init.len() implies lower_chars(#[trigger] init[i])
                != lower_chars(#[trigger] init[j]) by {
                assert(init[i] == flags[i] && init[j] == flags[j]);
            }
        }
        lemma_remove_flags_distinct(init, removed);
        lemma_remove_flags_push(init, x, removed);
        if !has_ignore_case(removed, x) {
            let kept = remove_flags(init, removed);
            if has_ignore_case(kept, x) {
                let k = choose|k: int| 0 <= k < kept.len() && lower_chars(#[trigger] kept[k]) == lower_chars(x);
                let pred = |f: Seq<char>| !has_ignore_case(removed, f);
                init.lemma_filter_contains_rev(pred, kept[k]);
                assert(kept.contains(kept[k]));
                let w = choose|w: int| 0 <= w < init.len() && init[w] == kept[k];
                assert(flags[w] == init[w]);
                assert(flags[init.len() as int] == x);
                assert(false);
            }
            lemma_push_distinct(kept, x);
        }
    }
}

proof fn lemma_step_consistent(
    instructions: Seq<Instruction>,
    raw: Seq<u8>,
    headers: Seq<crate::sieve::message::RawHeader>,
    env_from: Option<Seq<char>>,
    env_to: Option<Seq<char>>,
    cpu: u32,
    max_redirects: usize,
    s: RunState,
)
    requires
        state_consistent(s, max_redirects as int),
        !finished(instructions, s),
    ensures
        state_consistent(step(instructions, raw, headers, env_from, env_to, cpu, max_redirects, s), max_redirects as int),
{
    if s.steps + 1 <= cpu {
        match instructions[s.pos] {
            Instruction::FileInto(mailbox) => {
                if !s.file_into.contains(mailbox@) {
                    let t = s.file_into.push(mailbox@);
                    assert forall|i: int, j: int| 0 <= i < t.len() && 0 <= j < t.len() && i != j implies t[i] != t[j] by {
                        if i == s.file_into.len() as int {
                            assert(s.file_into[j] == t[j]);
                        } else if j == s.file_into.len() as int {
                            assert(s.file_into[i] == t[i]);
                        } else {
                            assert(s.file_into[i] == t[i] && s.file_into[j] == t[j]);
                        }
                    }
                }
            },
            Instruction::Redirect(address) => {
                if s.redirects.len() < max_redirects && !has_ignore_case(s.redirects, address@) {
                    lemma_push_distinct(s.redirects, address@);
                }
            },
            Instruction::AddFlag(new_flags) => {
                lemma_add_flags_distinct(s.flags, strs(new_flags@));
            },
            Instruction::SetFlag(new_flags) => {
                lemma_add_flags_distinct(Seq::empty(), strs(new_flags@));
            },
            Instruction::RemoveFlag(removed) => {
                lemma_remove_flags_distinct(s.flags, strs(removed@));
            },
            _ => {},
        }
    }
}

proof fn lemma_run_steps_consistent(
    instructions: Seq<Instruction>,
    raw: Seq<u8>,
    headers: Seq<crate::sieve::message::RawHeader>,
    env_from: Option<Seq<char>>,
    env_to: Option<Seq<char>>,
    cpu: u32,
    max_redirects: usize,
    s: RunState,
    n: nat,
)
    requires
        state_consistent(s, max_redirects as int),
    ensures
        state_consistent(
            run_steps(instructions, raw, headers, env_from, env_to, cpu, max_redirects, s, n),
            max_redirects as int,
        ),
    decreases n,
{
    if n > 0 && !finished(instructions, s) {
        lemma_step_consistent(instructions, raw, headers, env_from, env_to, cpu, max_redirects, s);
        let s1 = step(instructions, raw, headers, env_from, env_to, cpu, max_redirects, s);
        lemma_run_steps_consistent(instructions, raw, headers, env_from, env_to, cpu, max_redirects, s1, (n - 1) as nat);
    }
}

/// Whatever the script, message and envelope: a run never records more
/// redirects than the limit allows, never records two redirects or two
/// flags that differ only in case, never files into the same mailbox twice,
/// and a message counts as discarded only when it is neither kept nor filed
/// anywhere.
pub proof fn lemma_outcome_consistent(
    instructions: Seq<Instruction>,
    raw: Seq<u8>,
    headers: Seq<crate::sieve::message::RawHeader>,
    env_from: Option<Seq<char>>,
    env_to: Option<Seq<char>>,
    cpu: u32,
    max_redirects: usize,
)
    ensures
        ({
            let (keep, discarded, file_into, redirects, flags) = spec_run(
                instructions,
                raw,
                headers,
                env_from,
                env_to,
                cpu,
                max_redirects,
            );
            &&& redirects.len() <= max_redirects
            &&& distinct_ignore_case(redirects)
            &&& distinct_ignore_case(flags)
            &&& file_into.no_duplicates()
            &&& discarded ==> !keep && file_into.len() == 0
        }),
{
    lemma_run_steps_consistent(instructions, raw, headers, env_from, env_to, cpu, max_redirects, initial_state(), cpu as nat + 1);
}


proof fn lemma_progress(
    instructions: Seq<Instruction>,
    raw: Seq<u8>,
    headers: Seq<crate::sieve::message::RawHeader>,
    env_from: Option<Seq<char>>,
    env_to: Option<Seq<char>>,
    cpu: u32,
    max_redirects: usize,
    s: RunState,
    n: nat,
)
    requires
        all_forward(instructions),
        s.pos >= 0,
    ensures
        ({
            let t = run_steps(instructions, raw, headers, env_from, env_to, cpu, max_redirects, s, n);
            finished(instructions, t) || t.pos >= s.pos + n
        }),
    decreases n,
{
    if n > 0 && !finished(instructions, s) {
        let s1 = step(instructions, raw, headers, env_from, env_to, cpu, max_redirects, s);
        assert(forward_at(instructions, s.pos));
        assert(s1.halted || s1.pos >= s.pos + 1);
        if !s1.halted {
            lemma_progress(instructions, raw, headers, env_from, env_to, cpu, max_redirects, s1, (n - 1) as nat);
        } else {
            lemma_run_steps_settled(instructions, raw, headers, env_from, env_to, cpu, max_redirects, s1, 0, (n - 1) as nat);
        }
    }
}

/// A program whose jumps all go forward, as every compiled script's do,
/// finishes within as many steps as it has instructions, whatever the
/// message, the envelope and the limits: its outcome is that of the state
/// after those steps.
pub proof fn lemma_forward_program_finishes(
    instructions: Seq<Instruction>,
    raw: Seq<u8>,
    headers: Seq<crate::sieve::message::RawHeader>,
    env_from: Option<Seq<char>>,
    env_to: Option<Seq<char>>,
    cpu: u32,
    max_redirects: usize,
)
    requires
        all_forward(instructions),
    ensures
        finished(
            instructions,
            run_steps(instructions, raw, headers, env_from, env_to, cpu, max_redirects, initial_state(), instructions.len()),
        ),
{
    lemma_progress(instructions, raw, headers, env_from, env_to, cpu, max_redirects, initial_state(), instructions.len());
}


/// The implicit keep of a state is cancelled exactly by a discard or a
/// fileinto that ran.
pub open spec fn keep_accounted(s: RunState) -> bool {
    s.implicit_keep == (!s.discard_requested && s.file_into.len() == 0)
}

proof fn lemma_run_steps_keep(
    instructions: Seq<Instruction>,
    raw: Seq<u8>,
    headers: Seq<crate::sieve::message::RawHeader>,
    env_from: Option<Seq<char>>,
    env_to: Option<Seq<char>>,
    cpu: u32,
    max_redirects: usize,
    s: RunState,
    n: nat,
)
    requires
        keep_accounted(s),
    ensures
        keep_accounted(run_steps(instructions, raw, headers, env_from, env_to, cpu, max_redirects, s, n)),
    decreases n,
{
    if n > 0 && !finished(instructions, s) {
        let s1 = step(instructions, raw, headers, env_from, env_to, cpu, max_redirects, s);
        if s.steps + 1 <= cpu {
            if let Instruction::FileInto(mailbox) = instructions[s.pos] {
                if s.file_into.contains(mailbox@) {
                    assert(s.file_into.len() > 0);
                } else {
                    assert(s.file_into.push(mailbox@).len() > 0);
                }
                assert(add_target(s.file_into, mailbox@).len() > 0);
            }
        }
        assert(keep_accounted(s1));
        lemma_run_steps_keep(instructions, raw, headers, env_from, env_to, cpu, max_redirects, s1, (n - 1) as nat);
    }
}

/// Whatever the script, message, envelope and limits: the implicit keep holds
/// exactly when no discard and no fileinto ran, so a message that is not
/// kept was filed somewhere or discarded.
pub proof fn lemma_keep_unless_discarded_or_filed(
    instructions: Seq<Instruction>,
    raw: Seq<u8>,
    headers: Seq<crate::sieve::message::RawHeader>,
    env_from: Option<Seq<char>>,
    env_to: Option<Seq<char>>,
    cpu: u32,
    max_redirects: usize,
)
    ensures
        keep_accounted(
            run_steps(instructions, raw, headers, env_from, env_to, cpu, max_redirects, initial_state(), cpu as nat + 1),
        ),
        ({
            let (keep, discarded, file_into, redirects, flags) = spec_run(
                instructions,
                raw,
                headers,
                env_from,
                env_to,
                cpu,
                max_redirects,
            );
            keep || file_into.len() > 0 || discarded
        }),
{
    lemma_run_steps_keep(instructions, raw, headers, env_from, env_to, cpu, max_redirects, initial_state(), cpu as nat + 1);
}

proof fn lemma_budget_irrelevant(
    instructions: Seq<Instruction>,
    raw: Seq<u8>,
    headers: Seq<crate::sieve::message::RawHeader>,
    env_from: Option<Seq<char>>,
    env_to: Option<Seq<char>>,
    cpu1: u32,
    cpu2: u32,
    max_redirects: usize,
    s: RunState,
    n: nat,
)
    requires
        s.steps + n <= cpu1,
        s.steps + n <= cpu2,
    ensures
        run_steps(instructions, raw, headers, env_from, env_to, cpu1, max_redirects, s, n) == run_steps(
            instructions,
            raw,
            headers,
            env_from,
            env_to,
            cpu2,
            max_redirects,
            s,
            n,
        ),
        !finished(instructions, run_steps(instructions, raw, headers, env_from, env_to, cpu1, max_redirects, s, n))
            ==> run_steps(instructions, raw, headers, env_from, env_to, cpu1, max_redirects, s, n).steps == s.steps + n,
    decreases n,
{
    if n > 0 && !finished(instructions, s) {
        let s1 = step(instructions, raw, headers, env_from, env_to, cpu1, max_redirects, s);
        assert(s1 == step(instructions, raw, headers, env_from, env_to, cpu2, max_redirects, s));
        assert(s1.steps == s.steps + 1);
        lemma_budget_irrelevant(instructions, raw, headers, env_from, env_to, cpu1, cpu2, max_redirects, s1, (n - 1) as nat);
    }
}

/// A step budget cuts a run to a prefix: with a budget of `cpu` steps the
/// outcome is that of the first `cpu` steps of the same run under any larger
/// budget.
pub proof fn lemma_budget_cuts_to_a_prefix(
    instructions: Seq<Instruction>,
    raw: Seq<u8>,
    headers: Seq<crate::sieve::message::RawHeader>,
    env_from: Option<Seq<char>>,
    env_to: Option<Seq<char>>,
    cpu: u32,
    larger: u32,
    max_redirects: usize,
)
    requires
        cpu <= larger,
    ensures
        spec_run(instructions, raw, headers, env_from, env_to, cpu, max_redirects) == outcome_of(
            run_steps(instructions, raw, headers, env_from, env_to, larger, max_redirects, initial_state(), cpu as nat),
        ),
{
    let n = cpu as nat;
    lemma_budget_irrelevant(instructions, raw, headers, env_from, env_to, cpu, larger, max_redirects, initial_state(), n);
    lemma_run_steps_split(instructions, raw, headers, env_from, env_to, cpu, max_redirects, initial_state(), n);
    let t = run_steps(instructions, raw, headers, env_from, env_to, cpu, max_redirects, initial_state(), n);
    if !finished(instructions, t) {
        let u = step(instructions, raw, headers, env_from, env_to, cpu, max_redirects, t);
        assert(u == RunState { steps: t.steps + 1, halted: true, ..t });
        assert(outcome_of(u) == outcome_of(t));
    }
}

} // verus!
