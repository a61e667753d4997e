use vstd::prelude::*;
use vstd::utf8::encode_utf8;
use crate::sieve::message::{lossy_utf8, slice_chars, utf8_lossy};
use crate::smtp::queue_model::{QueuedMessage, QueueRecipient, RecipientStatus};
use crate::text::{chars_of, copy_bytes, decimal, decimal_digits, digit_char, digit_of, push_char, push_str};

verus! {

// ---------------------------------------------------------------------------
// Dates

/// A calendar date and time of day in UTC.
#[derive(Clone, Copy, Debug, PartialEq, Eq)]
pub struct Rfc822Date {
    pub weekday: u64,
    pub day: u64,
    pub month: u64,
    pub year: u64,
    pub hour: u64,
    pub minute: u64,
    pub second: u64,
}

/// The proleptic Gregorian date of a day count since 1970-01-01, by the
/// civil-from-days method: shift the epoch to 0000-03-01, split into
/// 400-year eras, then years of the era, then days of a March-based year.
pub open spec fn civil_from_days(days: nat) -> (nat, nat, nat) {
    let z = days + 719468;
    let era = z / 146097;
    let doe = (z - era * 146097) as nat;
    let yoe = ((doe - doe / 1460 + doe / 36524 - doe / 146096) / 365) as nat;
    let y = yoe + era * 400;
    let doy = (doe - (365 * yoe + yoe / 4 - yoe / 100)) as nat;
    let mp = (5 * doy + 2) / 153;
    let d = (doy - (153 * mp + 2) / 5 + 1) as nat;
    let m = if mp < 10 { mp + 3 } else { (mp - 9) as nat };
    ((y + if m <= 2 { 1nat } else { 0nat }) as nat, m as nat, d)
}

/// The UTC date and time of a Unix timestamp.
pub open spec fn spec_date(timestamp: u64) -> Rfc822Date {
    let days = timestamp / 86400;
    let seconds = timestamp % 86400;
    let (y, m, d) = civil_from_days(days as nat);
    Rfc822Date {
        weekday: ((days % 7 + 4) % 7) as u64,
        day: d as u64,
        month: m as u64,
        year: y as u64,
        hour: (seconds / 3600) as u64,
        minute: ((seconds / 60) % 60) as u64,
        second: (seconds % 60) as u64,
    }
}

impl Rfc822Date {
    pub fn from_timestamp(timestamp: u64) -> (date: Self)
        ensures
            date == spec_date(timestamp),
            date.weekday < 7,
            date.hour < 24,
            date.minute < 60,
            date.second < 60,
    {
        let days = timestamp / 86400;
        let seconds = timestamp % 86400;
        let z = days + 719468;
        let era = z / 146097;
        let doe = z - era * 146097;
        assert(doe < 146097);
        let yoe = (doe - doe / 1460 + doe / 36524 - doe / 146096) / 365;
        assert(yoe < 400);
        let y = yoe + era * 400;
        assert(365 * yoe + yoe / 4 - yoe / 100 <= doe) by (nonlinear_arith)
            requires
                yoe == (doe - doe / 1460 + doe / 36524 - doe / 146096) / 365,
                doe < 146097,
        ;
        let doy = doe - (365 * yoe + yoe / 4 - yoe / 100);
        assert(doy < 366) by (nonlinear_arith)
            requires
                yoe == (doe - doe / 1460 + doe / 36524 - doe / 146096) / 365,
                doy == doe - (365 * yoe + yoe / 4 - yoe / 100),
                doe < 146097,
        ;
        let mp = (5 * doy + 2) / 153;
        assert((153 * mp + 2) / 5 <= doy) by (nonlinear_arith)
            requires
                mp == (5 * doy + 2) / 153,
        ;
        let d = doy - (153 * mp + 2) / 5 + 1;
        let m = if mp < 10 { mp + 3 } else { mp - 9 };
        let year = y + if m <= 2 { 1 } else { 0 };
        Rfc822Date {
            weekday: (days % 7 + 4) % 7,
            day: d,
            month: m,
            year,
            hour: seconds / 3600,
            minute: (seconds / 60) % 60,
            second: seconds % 60,
        }
    }
}


/// A number in decimal with at least `width` digits, zero-padded.
pub open spec fn padded(n: nat, width: nat) -> Seq<char> {
    let digits = decimal_digits(n);
    if digits.len() < width {
        Seq::new((width - digits.len()) as nat, |i: int| '0') + digits
    } else {
        digits
    }
}

fn push_padded(out: &mut String, n: u64, width: usize)
    requires
        width <= 20,
    ensures
        final(out)@ == old(out)@ + padded(n as nat, width as nat),
{
    let digits = decimal(n);
    let count = chars_of(digits.as_str()).len();
    let ghost before = out@;
    let mut k = count;
    while k < width
        invariant
            count == decimal_digits(n as nat).len(),
            count <= k <= width || (k == count && count >= width),
            out@ == before + Seq::new((k - count) as nat, |i: int| '0'),
        decreases width - k,
    {
        push_char(out, '0');
        k += 1;
        assert(out@ =~= before + Seq::new((k - count) as nat, |i: int| '0'));
    }
    push_str(out, digits.as_str());
    if count < width {
        assert(k == width);
        assert(out@ =~= before + padded(n as nat, width as nat));
    } else {
        assert(Seq::new((k - count) as nat, |i: int| '0') =~= Seq::<char>::empty());
        assert(out@ =~= before + padded(n as nat, width as nat));
    }
}

/// The English abbreviation of a weekday counted from Sunday.
pub open spec fn day_name(weekday: u64) -> Seq<char> {
    if weekday == 0 {
        seq!['S', 'u', 'n']
    } else if weekday == 1 {
        seq!['M', 'o', 'n']
    } else if weekday == 2 {
        seq!['T', 'u', 'e']
    } else if weekday == 3 {
        seq!['W', 'e', 'd']
    } else if weekday == 4 {
        seq!['T', 'h', 'u']
    } else if weekday == 5 {
        seq!['F', 'r', 'i']
    } else {
        seq!['S', 'a', 't']
    }
}

/// The English abbreviation of a month counted from January as 1.
pub open spec fn month_name(month: u64) -> Seq<char> {
    if month == 1 {
        seq!['J', 'a', 'n']
    } else if month == 2 {
        seq!['F', 'e', 'b']
    } else if month == 3 {
        seq!['M', 'a', 'r']
    } else if month == 4 {
        seq!['A', 'p', 'r']
    } else if month == 5 {
        seq!['M', 'a', 'y']
    } else if month == 6 {
        seq!['J', 'u', 'n']
    } else if month == 7 {
        seq!['J', 'u', 'l']
    } else if month == 8 {
        seq!['A', 'u', 'g']
    } else if month == 9 {
        seq!['S', 'e', 'p']
    } else if month == 10 {
        seq!['O', 'c', 't']
    } else if month == 11 {
        seq!['N', 'o', 'v']
    } else {
        seq!['D', 'e', 'c']
    }
}

fn push_name(out: &mut String, a: char, b: char, c: char)
    ensures
        final(out)@ == old(out)@ + seq![a, b, c],
{
    push_char(out, a);
    push_char(out, b);
    push_char(out, c);
    assert(final(out)@ =~= old(out)@ + seq![a, b, c]);
}

/// The date in RFC 822 form: `Sun, 05 Jan 2025 14:03:09 +0000`.
pub open spec fn date_text(d: Rfc822Date) -> Seq<char> {
    day_name(d.weekday) + seq![',', ' '] + padded(d.day as nat, 2) + seq![' '] + month_name(d.month) + seq![' ']
        + padded(d.year as nat, 4) + seq![' '] + padded(d.hour as nat, 2) + seq![':'] + padded(d.minute as nat, 2)
        + seq![':'] + padded(d.second as nat, 2) + seq![' ', '+', '0', '0', '0', '0']
}

fn push_day_name(out: &mut String, w: u64)
    ensures
        final(out)@ == old(out)@ + day_name(w),
{
    if w == 0 {
        push_name(out, 'S', 'u', 'n');
    } else if w == 1 {
        push_name(out, 'M', 'o', 'n');
    } else if w == 2 {
        push_name(out, 'T', 'u', 'e');
    } else if w == 3 {
        push_name(out, 'W', 'e', 'd');
    } else if w == 4 {
        push_name(out, 'T', 'h', 'u');
    } else if w == 5 {
        push_name(out, 'F', 'r', 'i');
    } else {
        push_name(out, 'S', 'a', 't');
    }
}

fn push_month_name(out: &mut String, m: u64)
    ensures
        final(out)@ == old(out)@ + month_name(m),
{
    if m == 1 {
        push_name(out, 'J', 'a', 'n');
    } else if m == 2 {
        push_name(out, 'F', 'e', 'b');
    } else if m == 3 {
        push_name(out, 'M', 'a', 'r');
    } else if m == 4 {
        push_name(out, 'A', 'p', 'r');
    } else if m == 5 {
        push_name(out, 'M', 'a', 'y');
    } else if m == 6 {
        push_name(out, 'J', 'u', 'n');
    } else if m == 7 {
        push_name(out, 'J', 'u', 'l');
    } else if m == 8 {
        push_name(out, 'A', 'u', 'g');
    } else if m == 9 {
        push_name(out, 'S', 'e', 'p');
    } else if m == 10 {
        push_name(out, 'O', 'c', 't');
    } else if m == 11 {
        push_name(out, 'N', 'o', 'v');
    } else {
        push_name(out, 'D', 'e', 'c');
    }
}

impl Rfc822Date {
    pub fn to_string(&self) -> (text: String)
        ensures
            text@ == date_text(*self),
    {
        let mut out = String::new();
        push_day_name(&mut out, self.weekday);
        push_char(&mut out, ',');
        push_char(&mut out, ' ');
        push_padded(&mut out, self.day, 2);
        push_char(&mut out, ' ');
        let ghost a = out@;
        push_month_name(&mut out, self.month);
        push_char(&mut out, ' ');
        push_padded(&mut out, self.year, 4);
        push_char(&mut out, ' ');
        let ghost b = out@;
        push_padded(&mut out, self.hour, 2);
        push_char(&mut out, ':');
        push_padded(&mut out, self.minute, 2);
        push_char(&mut out, ':');
        push_padded(&mut out, self.second, 2);
        push_str(&mut out, " +0000");
        proof {
            reveal_strlit(" +0000");
            assert(a =~= day_name(self.weekday) + seq![',', ' '] + padded(self.day as nat, 2) + seq![' ']);
            assert(b =~= a + month_name(self.month) + seq![' '] + padded(self.year as nat, 4) + seq![' ']);
        }
        assert(out@ =~= date_text(*self));
        out
    }
}


// ---------------------------------------------------------------------------
// The parts of a report

/// The leading run of ASCII digits of a text.
pub open spec fn leading_digits(s: Seq<char>) -> nat
    decreases s.len(),
{
    if s.len() > 0 && '0' <= s[0] <= '9' {
        1 + leading_digits(s.drop_first())
    } else {
        0
    }
}

pub open spec fn digit_value(c: char) -> nat {
    (c as nat - 48) as nat
}

/// The value of a three-digit code at the start of a reply.
pub open spec fn code3(s: Seq<char>) -> nat {
    digit_value(s[0]) * 100 + digit_value(s[1]) * 10 + digit_value(s[2])
}

/// The enhanced status of a permanent failure: a reply that starts with
/// exactly three digits naming a 5xx code maps 550, 551, 552, 553 to 5.1.1,
/// 5.1.6, 5.2.2, 5.1.3; everything else is 5.0.0.
pub open spec fn spec_status_code(reason: Seq<char>) -> Seq<char> {
    if leading_digits(reason) == 3 && code3(reason) == 550 {
        seq!['5', '.', '1', '.', '1']
    } else if leading_digits(reason) == 3 && code3(reason) == 551 {
        seq!['5', '.', '1', '.', '6']
    } else if leading_digits(reason) == 3 && code3(reason) == 552 {
        seq!['5', '.', '2', '.', '2']
    } else if leading_digits(reason) == 3 && code3(reason) == 553 {
        seq!['5', '.', '1', '.', '3']
    } else {
        seq!['5', '.', '0', '.', '0']
    }
}

proof fn lemma_leading_digits(s: Seq<char>, n: nat)
    requires
        n <= s.len(),
        forall|i: int| 0 <= i < n ==> '0' <= #[trigger] s[i] <= '9',
        n == s.len() || !('0' <= s[n as int] <= '9'),
    ensures
        leading_digits(s) == n,
    decreases n,
{
    if n > 0 {
        assert forall|i: int| 0 <= i < n - 1 implies '0' <= #[trigger] s.drop_first()[i] <= '9' by {
            assert(s.drop_first()[i] == s[i + 1]);
        }
        lemma_leading_digits(s.drop_first(), (n - 1) as nat);
    }
}

/// A reply text that begins with exactly the three digits `d0 d1 d2`: they
/// are followed by the end of the text or by a character that is no digit.
pub open spec fn begins_with_code(reason: Seq<char>, d0: char, d1: char, d2: char) -> bool {
    &&& reason.len() >= 3
    &&& reason[0] == d0
    &&& reason[1] == d1
    &&& reason[2] == d2
    &&& (reason.len() == 3 || !('0' <= reason[3] <= '9'))
}

/// The enhanced status of a failure is read off its reply code alone: every
/// reply that begins with exactly the code 550, 551, 552 or 553 reports
/// 5.1.1, 5.1.6, 5.2.2 or 5.1.3, whatever text follows, and a reply that does
/// not begin with a digit reports 5.0.0.
pub proof fn lemma_status_of_reply_code(reason: Seq<char>)
    ensures
        begins_with_code(reason, '5', '5', '0') ==> spec_status_code(reason) == seq!['5', '.', '1', '.', '1'],
        begins_with_code(reason, '5', '5', '1') ==> spec_status_code(reason) == seq!['5', '.', '1', '.', '6'],
        begins_with_code(reason, '5', '5', '2') ==> spec_status_code(reason) == seq!['5', '.', '2', '.', '2'],
        begins_with_code(reason, '5', '5', '3') ==> spec_status_code(reason) == seq!['5', '.', '1', '.', '3'],
        (reason.len() == 0 || !('0' <= reason[0] <= '9')) ==> spec_status_code(reason) == seq![
            '5',
            '.',
            '0',
            '.',
            '0',
        ],
{
    if reason.len() >= 3 && '0' <= reason[0] <= '9' && '0' <= reason[1] <= '9' && '0' <= reason[2] <= '9' && (
    reason.len() == 3 || !('0' <= reason[3] <= '9')) {
        lemma_leading_digits(reason, 3);
    }
}

pub fn status_code(reason: &str) -> (code: &'static str)
    ensures
        code@ == spec_status_code(reason@),
{
    let chars = chars_of(reason);
    let mut n: usize = 0;
    while n < chars.len() && '0' <= chars[n] && chars[n] <= '9'
        invariant
            n <= chars@.len(),
            forall|i: int| 0 <= i < n ==> '0' <= #[trigger] chars@[i] <= '9',
        decreases chars@.len() - n,
    {
        n += 1;
    }
    proof {
        lemma_leading_digits(reason@, n as nat);
        reveal_strlit("5.1.1");
        reveal_strlit("5.1.6");
        reveal_strlit("5.2.2");
        reveal_strlit("5.1.3");
        reveal_strlit("5.0.0");
    }
    if n == 3 {
        let code = (chars[0] as u32 - 48) * 100 + (chars[1] as u32 - 48) * 10 + (chars[2] as u32 - 48);
        if code == 550 {
            return "5.1.1";
        } else if code == 551 {
            return "5.1.6";
        } else if code == 552 {
            return "5.2.2";
        } else if code == 553 {
            return "5.1.3";
        }
    }
    "5.0.0"
}

/// A text on one line: each run of CR and LF becomes one space.
pub open spec fn fold_lines(s: Seq<char>) -> (Seq<char>, bool)
    decreases s.len(),
{
    if s.len() == 0 {
        (Seq::empty(), false)
    } else {
        let (out, last_space) = fold_lines(s.drop_last());
        let c = s.last();
        if c == '\r' || c == '\n' {
            if !last_space {
                (out.push(' '), true)
            } else {
                (out, true)
            }
        } else {
            (out.push(c), false)
        }
    }
}

pub fn one_line(reason: &str) -> (folded: String)
    ensures
        folded@ == fold_lines(reason@).0,
{
    let chars = chars_of(reason);
    let mut folded = String::new();
    let mut last_was_space = false;
    let mut i: usize = 0;
    while i < chars.len()
        invariant
            i <= chars@.len(),
            chars@ == reason@,
            (folded@, last_was_space) == fold_lines(reason@.take(i as int)),
        decreases chars@.len() - i,
    {
        proof {
            assert(reason@.take(i + 1).drop_last() =~= reason@.take(i as int));
        }
        let ch = chars[i];
        if ch == '\r' || ch == '\n' {
            if !last_was_space {
                push_char(&mut folded, ' ');
                last_was_space = true;
            }
        } else {
            push_char(&mut folded, ch);
            last_was_space = false;
        }
        i += 1;
    }
    assert(reason@.take(i as int) =~= reason@);
    folded
}

/// How much of the original header block a report returns, at most.
pub const MAX_RETURNED_HEADERS: usize = 4096;

/// Where the first blank line (CRLF CRLF) of a text starts, or -1.
pub open spec fn blank_line_at(t: Seq<char>) -> int
    decreases t.len(),
{
    if t.len() < 4 {
        -1
    } else if t[0] == '\r' && t[1] == '\n' && t[2] == '\r' && t[3] == '\n' {
        0
    } else {
        let r = blank_line_at(t.drop_first());
        if r < 0 { -1 } else { r + 1 }
    }
}

/// The header block of the original, as text: at most its first 4096
/// bytes, decoded lossily, up to and including the line break before the
/// first blank line; without a blank line, up to and including the last line
/// feed; without a line feed, all of it.
pub open spec fn spec_returned_headers(original: Seq<u8>) -> Seq<char> {
    let n = if original.len() < MAX_RETURNED_HEADERS { original.len() as int } else { MAX_RETURNED_HEADERS as int };
    let text = lossy_utf8(original.subrange(0, n));
    let blank = blank_line_at(text);
    if blank >= 0 {
        text.subrange(0, blank + 2)
    } else {
        let last = crate::text::last_index_of(text, '\n');
        if last >= 0 {
            text.subrange(0, last + 1)
        } else {
            text
        }
    }
}

proof fn lemma_blank_line_bound(t: Seq<char>)
    ensures
        -1 <= blank_line_at(t) <= t.len() - 4 || blank_line_at(t) == -1,
    decreases t.len(),
{
    if t.len() >= 4 && !(t[0] == '\r' && t[1] == '\n' && t[2] == '\r' && t[3] == '\n') {
        lemma_blank_line_bound(t.drop_first());
    }
}

fn find_blank_line(t: &Vec<char>) -> (r: Option<usize>)
    ensures
        match r {
            Some(i) => i as int == blank_line_at(t@) && i + 4 <= t@.len(),
            None => blank_line_at(t@) == -1,
        },
{
    let n = t.len();
    let mut i: usize = 0;
    assert(t@.skip(0) =~= t@);
    while i < n && n - i >= 4
        invariant
            n == t@.len(),
            i <= n,
            blank_line_at(t@) == if blank_line_at(t@.skip(i as int)) < 0 { -1 } else { blank_line_at(t@.skip(i as int)) + i },
        decreases n - i,
    {
        proof {
            assert(t@.skip(i as int).drop_first() =~= t@.skip(i + 1));
            assert(t@.skip(i as int)[0] == t@[i as int]);
            assert(t@.skip(i as int)[1] == t@[i + 1]);
            assert(t@.skip(i as int)[2] == t@[i + 2]);
            assert(t@.skip(i as int)[3] == t@[i + 3]);
        }
        if t[i] == '\r' && t[i + 1] == '\n' && t[i + 2] == '\r' && t[i + 3] == '\n' {
            return Some(i);
        }
        i += 1;
    }
    None
}

pub fn returned_headers(original: &[u8]) -> (text: String)
    ensures
        text@ == spec_returned_headers(original@),
{
    let n = if original.len() < MAX_RETURNED_HEADERS { original.len() } else { MAX_RETURNED_HEADERS };
    let mut prefix: Vec<u8> = Vec::new();
    let mut i: usize = 0;
    while i < n
        invariant
            n <= original@.len(),
            i <= n,
            prefix@ == original@.subrange(0, i as int),
        decreases n - i,
    {
        prefix.push(original[i]);
        i += 1;
        assert(prefix@ =~= original@.subrange(0, i as int));
    }
    let lossy = utf8_lossy(prefix.as_slice());
    let chars = chars_of(lossy.as_str());
    match find_blank_line(&chars) {
        Some(end) => {
            let kept = slice_chars(&chars, 0, end + 2);
            crate::text::string_of_chars(kept.as_slice())
        },
        None => match crate::text::rfind_char(chars.as_slice(), '\n') {
            Some(last) => {
                let kept = slice_chars(&chars, 0, last + 1);
                crate::text::string_of_chars(kept.as_slice())
            },
            None => lossy,
        },
    }
}


/// The hexadecimal numeral of a number, lower case, without leading zeros.
pub open spec fn hex_digits_of(n: nat) -> Seq<char>
    decreases n,
{
    if n < 16 {
        seq![digit_char(n)]
    } else {
        hex_digits_of(n / 16).push(digit_char(n % 16))
    }
}

pub fn hex(n: u64) -> (s: String)
    ensures
        s@ == hex_digits_of(n as nat),
    decreases n,
{
    if n < 16 {
        let mut s = String::new();
        push_char(&mut s, digit_of(n));
        s
    } else {
        let mut s = hex(n / 16);
        push_char(&mut s, digit_of(n % 16));
        s
    }
}

/// The low `width` hexadecimal digits of a number, zero-padded.
pub open spec fn hex_width(n: nat, width: nat) -> Seq<char>
    decreases width,
{
    if width == 0 {
        Seq::empty()
    } else {
        hex_width(n / 16, (width - 1) as nat).push(digit_char(n % 16))
    }
}

fn push_hex_width(out: &mut String, n: u64, width: usize)
    ensures
        final(out)@ == old(out)@ + hex_width(n as nat, width as nat),
    decreases width,
{
    if width > 0 {
        push_hex_width(out, n / 16, width - 1);
        push_char(out, digit_of(n % 16));
        assert(final(out)@ =~= old(out)@ + hex_width(n as nat, width as nat));
    }
}

/// The mixing of the creation time with the bytes of the blob hash from
/// which the MIME boundary is derived: times 31 plus the byte, wrapping.
pub open spec fn boundary_acc(created: u64, hash: Seq<u8>) -> u64
    decreases hash.len(),
{
    if hash.len() == 0 {
        created
    } else {
        boundary_acc(created, hash.drop_last()).wrapping_mul(31).wrapping_add(hash.last() as u64)
    }
}

pub const BOUNDARY_PREFIX: &'static str = "=_irixmail_dsn_";

/// The MIME boundary of a report on a message.
pub open spec fn spec_boundary(message: QueuedMessage) -> Seq<char> {
    BOUNDARY_PREFIX@ + hex_width(boundary_acc(message.created, message.blob_hash@) as nat, 16)
}

pub fn boundary_for(message: &QueuedMessage) -> (boundary: String)
    ensures
        boundary@ == spec_boundary(*message),
{
    let mut acc = message.created;
    let mut i: usize = 0;
    while i < message.blob_hash.len()
        invariant
            i <= message.blob_hash@.len(),
            acc == boundary_acc(message.created, message.blob_hash@.take(i as int)),
        decreases message.blob_hash@.len() - i,
    {
        proof {
            assert(message.blob_hash@.take(i + 1).drop_last() =~= message.blob_hash@.take(i as int));
        }
        acc = acc.wrapping_mul(31).wrapping_add(message.blob_hash[i] as u64);
        i += 1;
    }
    assert(message.blob_hash@.take(i as int) =~= message.blob_hash@);
    let mut out = String::new();
    push_str(&mut out, BOUNDARY_PREFIX);
    push_hex_width(&mut out, acc, 16);
    out
}

/// The recipients that bounced, with their reasons, in order.
pub open spec fn bounced(recipients: Seq<QueueRecipient>) -> Seq<(Seq<char>, Seq<char>)>
    decreases recipients.len(),
{
    if recipients.len() == 0 {
        Seq::empty()
    } else {
        let rest = bounced(recipients.drop_last());
        match recipients.last().status {
            RecipientStatus::Bounced(reason) => rest.push((recipients.last().address@, reason@)),
            _ => rest,
        }
    }
}

fn collect_failures(recipients: &Vec<QueueRecipient>) -> (failures: Vec<(String, String)>)
    ensures
        failures@.map_values(|f: (String, String)| (f.0@, f.1@)) == bounced(recipients@),
{
    let mut failures: Vec<(String, String)> = Vec::new();
    let mut i: usize = 0;
    while i < recipients.len()
        invariant
            i <= recipients@.len(),
            failures@.map_values(|f: (String, String)| (f.0@, f.1@)) == bounced(recipients@.take(i as int)),
        decreases recipients@.len() - i,
    {
        proof {
            assert(recipients@.take(i + 1).drop_last() =~= recipients@.take(i as int));
        }
        let ghost before = failures@;
        match &recipients[i].status {
            RecipientStatus::Bounced(reason) => {
                failures.push((recipients[i].address.clone(), reason.clone()));
                assert(failures@.map_values(|f: (String, String)| (f.0@, f.1@)) =~= before.map_values(
                    |f: (String, String)| (f.0@, f.1@),
                ).push((recipients@[i as int].address@, reason@)));
            },
            _ => {},
        }
        i += 1;
    }
    assert(recipients@.take(i as int) =~= recipients@);
    failures
}

pub const SUBJECT_ONE: &'static str = "Undelivered mail returned to sender";
pub const SUBJECT_MANY: &'static str = "Undelivered mail returned to sender (multiple recipients)";
pub const HUMAN_INTRO: &'static str = "Your message could not be delivered to the following recipients and has been returned:\r\n\r\n";
pub const CRLF: &'static str = "\r\n";

/// The human-readable part: a sentence, then one line per failed recipient,
/// `  <address>: reason`.
pub open spec fn human_lines(failures: Seq<(Seq<char>, Seq<char>)>) -> Seq<char>
    decreases failures.len(),
{
    if failures.len() == 0 {
        Seq::empty()
    } else {
        human_lines(failures.drop_last()) + seq![' ', ' ', '<'] + failures.last().0 + seq!['>', ':', ' ']
            + failures.last().1 + CRLF@
    }
}

pub open spec fn spec_human_summary(failures: Seq<(Seq<char>, Seq<char>)>) -> Seq<char> {
    HUMAN_INTRO@ + human_lines(failures)
}

fn human_summary(failures: &Vec<(String, String)>) -> (text: String)
    ensures
        text@ == spec_human_summary(failures@.map_values(|f: (String, String)| (f.0@, f.1@))),
{
    let ghost fs = failures@.map_values(|f: (String, String)| (f.0@, f.1@));
    let mut text = String::new();
    push_str(&mut text, HUMAN_INTRO);
    let mut i: usize = 0;
    while i < failures.len()
        invariant
            i <= failures@.len(),
            fs == failures@.map_values(|f: (String, String)| (f.0@, f.1@)),
            text@ == HUMAN_INTRO@ + human_lines(fs.take(i as int)),
        decreases failures@.len() - i,
    {
        proof {
            assert(fs.take(i + 1).drop_last() =~= fs.take(i as int));
        }
        let ghost before = text@;
        push_str(&mut text, "  <");
        push_str(&mut text, failures[i].0.as_str());
        push_str(&mut text, ">: ");
        push_str(&mut text, failures[i].1.as_str());
        push_str(&mut text, CRLF);
        proof {
            reveal_strlit("  <");
            reveal_strlit(">: ");
            assert(text@ =~= before + seq![' ', ' ', '<'] + fs[i as int].0 + seq!['>', ':', ' '] + fs[i as int].1 + CRLF@);
        }
        i += 1;
    }
    assert(fs.take(i as int) =~= fs);
    text
}

pub const REPORTING_MTA: &'static str = "Reporting-MTA: dns;";
pub const ARRIVAL_DATE: &'static str = "Arrival-Date: ";
pub const FINAL_RECIPIENT: &'static str = "Final-Recipient: rfc822;";
pub const ACTION_FAILED: &'static str = "Action: failed\r\n";
pub const STATUS: &'static str = "Status: ";
pub const DIAGNOSTIC: &'static str = "Diagnostic-Code: smtp;";

/// The machine-readable fields of one failed recipient.
pub open spec fn status_block(address: Seq<char>, reason: Seq<char>) -> Seq<char> {
    FINAL_RECIPIENT@ + address + CRLF@ + ACTION_FAILED@ + STATUS@ + spec_status_code(reason) + CRLF@ + DIAGNOSTIC@
        + fold_lines(reason).0 + CRLF@ + CRLF@
}

fn push_status_block(text: &mut String, address: &str, reason: &str)
    ensures
        final(text)@ == old(text)@ + status_block(address@, reason@),
{
    push_str(text, FINAL_RECIPIENT);
    push_str(text, address);
    push_str(text, CRLF);
    push_str(text, ACTION_FAILED);
    push_str(text, STATUS);
    push_str(text, status_code(reason));
    push_str(text, CRLF);
    push_str(text, DIAGNOSTIC);
    let folded = one_line(reason);
    push_str(text, folded.as_str());
    push_str(text, CRLF);
    push_str(text, CRLF);
    assert(final(text)@ =~= old(text)@ + status_block(address@, reason@));
}

/// The machine-readable fields of each failed recipient.
pub open spec fn status_blocks(failures: Seq<(Seq<char>, Seq<char>)>) -> Seq<char>
    decreases failures.len(),
{
    if failures.len() == 0 {
        Seq::empty()
    } else {
        status_blocks(failures.drop_last()) + status_block(failures.last().0, failures.last().1)
    }
}

/// The delivery-status part: the reporting MTA, the arrival date, a blank
/// line, then a block per failed recipient.
pub open spec fn spec_status_part(created: u64, reporting_mta: Seq<char>, failures: Seq<(Seq<char>, Seq<char>)>) -> Seq<char> {
    REPORTING_MTA@ + reporting_mta + CRLF@ + ARRIVAL_DATE@ + date_text(spec_date(created)) + CRLF@ + CRLF@
        + status_blocks(failures)
}

fn status_part(created: u64, reporting_mta: &str, failures: &Vec<(String, String)>) -> (text: String)
    ensures
        text@ == spec_status_part(created, reporting_mta@, failures@.map_values(|f: (String, String)| (f.0@, f.1@))),
{
    let ghost fs = failures@.map_values(|f: (String, String)| (f.0@, f.1@));
    let mut text = String::new();
    push_str(&mut text, REPORTING_MTA);
    push_str(&mut text, reporting_mta);
    push_str(&mut text, CRLF);
    push_str(&mut text, ARRIVAL_DATE);
    let date = Rfc822Date::from_timestamp(created).to_string();
    push_str(&mut text, date.as_str());
    push_str(&mut text, CRLF);
    push_str(&mut text, CRLF);
    let ghost head = text@;
    let mut i: usize = 0;
    while i < failures.len()
        invariant
            i <= failures@.len(),
            fs == failures@.map_values(|f: (String, String)| (f.0@, f.1@)),
            text@ == head + status_blocks(fs.take(i as int)),
        decreases failures@.len() - i,
    {
        proof {
            assert(fs.take(i + 1).drop_last() =~= fs.take(i as int));
        }
        let ghost before = text@;
        push_status_block(&mut text, failures[i].0.as_str(), failures[i].1.as_str());
        assert(text@ =~= before + status_block(fs[i as int].0, fs[i as int].1));
        i += 1;
    }
    assert(fs.take(i as int) =~= fs);
    text
}


pub const FROM_DAEMON: &'static str = "From: Mail Delivery Subsystem <MAILER-DAEMON@";
pub const TO_OPEN: &'static str = "To: <";
pub const ANGLE_CLOSE_CRLF: &'static str = ">\r\n";
pub const SUBJECT: &'static str = "Subject: ";
pub const DATE: &'static str = "Date: ";
pub const MESSAGE_ID: &'static str = "Message-ID: <";
pub const FIXED_HEADERS: &'static str = "Auto-Submitted: auto-replied\r\nMIME-Version: 1.0\r\nContent-Type: multipart/report; report-type=delivery-status;\r\n boundary=\"";
pub const PREAMBLE: &'static str = "\"\r\n\r\nThis is a delivery status notification, automatically generated.\r\n\r\n";
pub const DASHES: &'static str = "--";
pub const PLAIN_PART: &'static str = "Content-Type: text/plain; charset=utf-8\r\n\r\n";
pub const STATUS_PART: &'static str = "Content-Type: message/delivery-status\r\n\r\n";
pub const HEADERS_PART: &'static str = "Content-Type: text/rfc822-headers\r\n\r\n";
pub const CLOSING: &'static str = "--\r\n";

/// The subject of a report on `count` failed recipients.
pub open spec fn spec_subject(count: nat) -> Seq<char> {
    if count == 1 { SUBJECT_ONE@ } else { SUBJECT_MANY@ }
}

/// The header of a report: from the mailer daemon at the reporting MTA, to
/// the return path, its subject, the date of `now`, a message id made of
/// the boundary, `now` in hexadecimal and the MTA, and the MIME fields.
pub open spec fn report_header(
    return_path: Seq<char>,
    reporting_mta: Seq<char>,
    count: nat,
    now: u64,
    boundary: Seq<char>,
) -> Seq<char> {
    header_top(return_path, reporting_mta, count) + header_tail(reporting_mta, now, boundary)
}

/// The sender, recipient and subject lines of a report.
pub open spec fn header_top(return_path: Seq<char>, reporting_mta: Seq<char>, count: nat) -> Seq<char> {
    FROM_DAEMON@ + reporting_mta + ANGLE_CLOSE_CRLF@ + TO_OPEN@ + return_path + ANGLE_CLOSE_CRLF@ + SUBJECT@
        + spec_subject(count) + CRLF@
}

/// The date, message id and MIME lines of a report, and its preamble.
pub open spec fn header_tail(reporting_mta: Seq<char>, now: u64, boundary: Seq<char>) -> Seq<char> {
    DATE@ + date_text(spec_date(now)) + CRLF@ + MESSAGE_ID@ + boundary + seq!['.'] + hex_digits_of(now as nat)
        + seq!['@'] + reporting_mta + ANGLE_CLOSE_CRLF@ + FIXED_HEADERS@ + boundary + PREAMBLE@
}

/// The three parts of a report, each opened by the boundary, and the closing
/// boundary.
pub open spec fn report_body(boundary: Seq<char>, human: Seq<char>, status: Seq<char>, returned: Seq<char>) -> Seq<char> {
    DASHES@ + boundary + CRLF@ + PLAIN_PART@ + human + CRLF@ + DASHES@ + boundary + CRLF@ + STATUS_PART@ + status
        + DASHES@ + boundary + CRLF@ + HEADERS_PART@ + returned + CRLF@ + DASHES@ + boundary + CLOSING@
}

/// The delivery status notification for a message whose recipients bounced,
/// sent back to its return path; none for a null return path (so that a
/// report can never loop) or when no recipient bounced.
pub open spec fn spec_build_dsn(message: QueuedMessage, reporting_mta: Seq<char>, original: Seq<u8>, now: u64) -> Option<Seq<u8>> {
    let failures = bounced(message.recipients@);
    if message.return_path@.len() == 0 || failures.len() == 0 {
        None
    } else {
        let boundary = spec_boundary(message);
        Some(encode_utf8(
            report_header(message.return_path@, reporting_mta, failures.len(), now, boundary) + report_body(
                boundary,
                spec_human_summary(failures),
                spec_status_part(message.created, reporting_mta, failures),
                spec_returned_headers(original),
            ),
        ))
    }
}

fn push_header_top(out: &mut String, return_path: &str, reporting_mta: &str, count: usize)
    ensures
        final(out)@ == old(out)@ + header_top(return_path@, reporting_mta@, count as nat),
{
    push_str(out, FROM_DAEMON);
    push_str(out, reporting_mta);
    push_str(out, ANGLE_CLOSE_CRLF);
    push_str(out, TO_OPEN);
    push_str(out, return_path);
    push_str(out, ANGLE_CLOSE_CRLF);
    push_str(out, SUBJECT);
    if count == 1 {
        push_str(out, SUBJECT_ONE);
    } else {
        push_str(out, SUBJECT_MANY);
    }
    push_str(out, CRLF);
    assert(final(out)@ =~= old(out)@ + header_top(return_path@, reporting_mta@, count as nat));
}

fn push_header_tail(out: &mut String, reporting_mta: &str, now: u64, boundary: &str)
    ensures
        final(out)@ == old(out)@ + header_tail(reporting_mta@, now, boundary@),
{
    push_str(out, DATE);
    let date = Rfc822Date::from_timestamp(now).to_string();
    push_str(out, date.as_str());
    push_str(out, CRLF);
    push_str(out, MESSAGE_ID);
    push_str(out, boundary);
    push_char(out, '.');
    let h = hex(now);
    push_str(out, h.as_str());
    push_char(out, '@');
    push_str(out, reporting_mta);
    push_str(out, ANGLE_CLOSE_CRLF);
    push_str(out, FIXED_HEADERS);
    push_str(out, boundary);
    push_str(out, PREAMBLE);
    assert(final(out)@ =~= old(out)@ + header_tail(reporting_mta@, now, boundary@));
}

fn push_header(out: &mut String, return_path: &str, reporting_mta: &str, count: usize, now: u64, boundary: &str)
    ensures
        final(out)@ == old(out)@ + report_header(return_path@, reporting_mta@, count as nat, now, boundary@),
{
    push_header_top(out, return_path, reporting_mta, count);
    push_header_tail(out, reporting_mta, now, boundary);
    assert(final(out)@ =~= old(out)@ + report_header(return_path@, reporting_mta@, count as nat, now, boundary@));
}

fn push_body(out: &mut String, boundary: &str, human: &str, status: &str, returned: &str)
    ensures
        final(out)@ == old(out)@ + report_body(boundary@, human@, status@, returned@),
{
    push_str(out, DASHES);
    push_str(out, boundary);
    push_str(out, CRLF);
    push_str(out, PLAIN_PART);
    push_str(out, human);
    push_str(out, CRLF);
    let ghost mid = out@;
    push_str(out, DASHES);
    push_str(out, boundary);
    push_str(out, CRLF);
    push_str(out, STATUS_PART);
    push_str(out, status);
    push_str(out, DASHES);
    push_str(out, boundary);
    push_str(out, CRLF);
    push_str(out, HEADERS_PART);
    push_str(out, returned);
    push_str(out, CRLF);
    push_str(out, DASHES);
    push_str(out, boundary);
    push_str(out, CLOSING);
    proof {
        assert(mid =~= old(out)@ + DASHES@ + boundary@ + CRLF@ + PLAIN_PART@ + human@ + CRLF@);
    }
    assert(final(out)@ =~= old(out)@ + report_body(boundary@, human@, status@, returned@));
}

/// Builds the report on the bounced recipients of a message.
pub fn build_dsn(message: &QueuedMessage, reporting_mta: &str, original_headers: &[u8], now: u64) -> (report: Option<Vec<u8>>)
    ensures
        match spec_build_dsn(*message, reporting_mta@, original_headers@, now) {
            Some(bytes) => report matches Some(r) && r@ == bytes,
            None => report is None,
        },
{
    if chars_of(message.return_path.as_str()).len() == 0 {
        return None;
    }
    let failures = collect_failures(&message.recipients);
    let ghost fs = failures@.map_values(|f: (String, String)| (f.0@, f.1@));
    if failures.len() == 0 {
        assert(fs.len() == 0);
        return None;
    }
    let boundary = boundary_for(message);
    let human = human_summary(&failures);
    let status = status_part(message.created, reporting_mta, &failures);
    let returned = returned_headers(original_headers);
    let mut out = String::new();
    push_header(&mut out, message.return_path.as_str(), reporting_mta, failures.len(), now, boundary.as_str());
    push_body(&mut out, boundary.as_str(), human.as_str(), status.as_str(), returned.as_str());
    assert(fs.len() == failures@.len());
    Some(copy_bytes(out.as_str().as_bytes()))
}

} // verus!
