use vstd::prelude::*;
use vstd::utf8::*;
use mail_parser::{HeaderValue, MessageParser};
use crate::sieve::instruction::AddressPart;
use crate::sieve::matching::contains_seq;
use crate::text::{
    chars_of, chars_eq, first_index_of, last_index_of, lemma_first_index_of, lemma_last_index_of,
    lower_chars, lower_vec, push_chars, rfind_char, string_of_chars,
};

verus! {

// ---------------------------------------------------------------------------
// Addresses

/// The part of an address that a test looks at: the whole address, what
/// precedes its last `@`, or what follows it. An address without `@` is all
/// local part and has an empty domain.
pub open spec fn spec_address_part(address: Seq<char>, part: AddressPart) -> Seq<char> {
    let at = last_index_of(address, '@');
    match part {
        AddressPart::All => address,
        AddressPart::Localpart => if at < 0 {
            address
        } else {
            address.subrange(0, at)
        },
        AddressPart::Domain => if at < 0 {
            Seq::empty()
        } else {
            address.subrange(at + 1, address.len() as int)
        },
    }
}

/// Same as `address_part`, on characters.
pub fn address_part_chars(address: &Vec<char>, part: AddressPart) -> (result: Vec<char>)
    ensures
        result@ == spec_address_part(address@, part),
{
    proof {
        lemma_last_index_of(address@, '@');
    }
    match part {
        AddressPart::All => address.clone(),
        AddressPart::Localpart => match rfind_char(address.as_slice(), '@') {
            Some(at) => slice_chars(address, 0, at),
            None => address.clone(),
        },
        AddressPart::Domain => match rfind_char(address.as_slice(), '@') {
            Some(at) => {
                let n = address.len();
                slice_chars(address, at + 1, n)
            },
            None => Vec::new(),
        },
    }
}

/// The part of an address that a test looks at.
pub fn address_part(address: &str, part: AddressPart) -> (result: String)
    ensures
        result@ == spec_address_part(address@, part),
{
    let chars = chars_of(address);
    let picked = address_part_chars(&chars, part);
    string_of_chars(picked.as_slice())
}

/// A copy of `v[from..to]`.
pub fn slice_chars(v: &Vec<char>, from: usize, to: usize) -> (r: Vec<char>)
    requires
        from <= to <= v@.len(),
    ensures
        r@ == v@.subrange(from as int, to as int),
{
    let mut r: Vec<char> = Vec::new();
    let mut i = from;
    while i < to
        invariant
            from <= i <= to <= v@.len(),
            r@ == v@.subrange(from as int, i as int),
        decreases to - i,
    {
        r.push(v[i]);
        i += 1;
        assert(r@ =~= v@.subrange(from as int, i as int));
    }
    r
}

/// Unicode White_Space, which `str::trim` strips.
pub open spec fn is_white_space(c: char) -> bool {
    let n = c as u32;
    (9 <= n && n <= 13) || n == 32 || n == 0x85 || n == 0xA0 || n == 0x1680 || (0x2000 <= n && n
        <= 0x200A) || n == 0x2028 || n == 0x2029 || n == 0x202F || n == 0x205F || n == 0x3000
}

pub fn white_space(c: char) -> (r: bool)
    ensures
        r == is_white_space(c),
{
    let n = c as u32;
    (9 <= n && n <= 13) || n == 32 || n == 0x85 || n == 0xA0 || n == 0x1680 || (0x2000 <= n && n
        <= 0x200A) || n == 0x2028 || n == 0x2029 || n == 0x202F || n == 0x205F || n == 0x3000
}

pub open spec fn trim_start(s: Seq<char>) -> Seq<char>
    decreases s.len(),
{
    if s.len() > 0 && is_white_space(s[0]) {
        trim_start(s.drop_first())
    } else {
        s
    }
}

pub open spec fn trim_end(s: Seq<char>) -> Seq<char>
    decreases s.len(),
{
    if s.len() > 0 && is_white_space(s.last()) {
        trim_end(s.drop_last())
    } else {
        s
    }
}

/// A string without its leading and trailing white space.
pub open spec fn trim(s: Seq<char>) -> Seq<char> {
    trim_end(trim_start(s))
}

/// The bounds of `trim(v[from..to])` within `v`.
pub fn trim_bounds(v: &Vec<char>, from: usize, to: usize) -> (r: (usize, usize))
    requires
        from <= to <= v@.len(),
    ensures
        from <= r.0 <= r.1 <= to,
        v@.subrange(r.0 as int, r.1 as int) == trim(v@.subrange(from as int, to as int)),
{
    let mut start = from;
    while start < to && white_space(v[start])
        invariant
            from <= start <= to <= v@.len(),
            trim_start(v@.subrange(from as int, to as int)) == trim_start(v@.subrange(start as int, to as int)),
        decreases to - start,
    {
        assert(v@.subrange(start as int, to as int).drop_first() =~= v@.subrange(start + 1, to as int));
        start += 1;
    }
    let mut end = to;
    while end > start && white_space(v[end - 1])
        invariant
            from <= start <= end <= to <= v@.len(),
            trim_end(v@.subrange(start as int, to as int)) == trim_end(v@.subrange(start as int, end as int)),
        decreases end - start,
    {
        assert(v@.subrange(start as int, end as int).drop_last() =~= v@.subrange(start as int, end - 1));
        end -= 1;
    }
    (start, end)
}

/// The characters that an envelope address may not hold: ASCII white
/// space and controls, and anything outside ASCII.
pub open spec fn is_forbidden_in_address(c: char) -> bool {
    (c as u32) <= 32 || (c as u32) >= 127
}

pub open spec fn mailer_daemon() -> Seq<char> {
    seq!['m', 'a', 'i', 'l', 'e', 'r', '-', 'd', 'a', 'e', 'm', 'o', 'n']
}

/// The checks on an envelope address once its brackets and source route are
/// gone: no forbidden character; either a non-empty local part and a
/// non-empty domain around the last `@`, with no other `@` in the local part
/// and no empty label (`..`) in the domain, or the bare name MAILER-DAEMON
/// (any case), which is lowercased.
pub open spec fn check_mailbox(v: Seq<char>) -> Option<Seq<char>> {
    if exists|i: int| 0 <= i < v.len() && is_forbidden_in_address(#[trigger] v[i]) {
        None
    } else {
        let at = last_index_of(v, '@');
        if at < 0 {
            if lower_chars(v) == mailer_daemon() {
                Some(lower_chars(v))
            } else {
                None
            }
        } else {
            let local = v.subrange(0, at);
            let domain = v.subrange(at + 1, v.len() as int);
            if local.len() == 0 || domain.len() == 0 || local.contains('@') || contains_seq(domain, seq!['.', '.']) {
                None
            } else {
                Some(v)
            }
        }
    }
}

/// Normalizes an envelope address as it comes in: white space trimmed,
/// angle brackets removed (an opening one needs its closing one), the null
/// path `<>` as the empty address, a source route (`@relay,@other:`)
/// dropped, and anything else that is not a plausible mailbox refused.
pub open spec fn spec_parse_envelope_address(input: Seq<char>) -> Option<Seq<char>> {
    let v0 = trim(input);
    let bracketed = v0.len() > 0 && v0[0] == '<';
    let v1 = if bracketed {
        trim(v0.subrange(1, v0.len() - 1))
    } else {
        v0
    };
    if bracketed && (v0.len() < 2 || v0.last() != '>') {
        None
    } else if v1.len() == 0 {
        Some(Seq::empty())
    } else if v1[0] == '@' {
        let colon = first_index_of(v1, ':');
        if colon < 0 {
            None
        } else {
            check_mailbox(v1.subrange(colon + 1, v1.len() as int))
        }
    } else {
        check_mailbox(v1)
    }
}

/// Whether some character of `v[from..to]` is forbidden in an address.
fn has_forbidden(v: &Vec<char>, from: usize, to: usize) -> (r: bool)
    requires
        from <= to <= v@.len(),
    ensures
        r == exists|i: int| 0 <= i < to - from && is_forbidden_in_address(#[trigger] v@.subrange(from as int, to as int)[i]),
{
    let ghost s = v@.subrange(from as int, to as int);
    let mut i = from;
    while i < to
        invariant
            from <= i <= to <= v@.len(),
            s == v@.subrange(from as int, to as int),
            forall|j: int| 0 <= j < i - from ==> !is_forbidden_in_address(#[trigger] s[j]),
        decreases to - i,
    {
        let n = v[i] as u32;
        if n <= 32 || n >= 127 {
            assert(s[i - from] == v@[i as int]);
            return true;
        }
        assert(s[i - from] == v@[i as int]);
        i += 1;
    }
    false
}

fn check_mailbox_exec(v: Vec<char>) -> (r: Option<Vec<char>>)
    ensures
        match check_mailbox(v@) {
            Some(m) => r matches Some(x) && x@ == m,
            None => r is None,
        },
{
    let len = v.len();
    if has_forbidden(&v, 0, len) {
        proof {
            assert(v@.subrange(0, len as int) =~= v@);
        }
        return None;
    }
    proof {
        assert(v@.subrange(0, len as int) =~= v@);
        lemma_last_index_of(v@, '@');
    }
    match rfind_char(v.as_slice(), '@') {
        None => {
            let lowered = lower_vec(v.as_slice());
            let daemon: Vec<char> = vec!['m', 'a', 'i', 'l', 'e', 'r', '-', 'd', 'a', 'e', 'm', 'o', 'n'];
            assert(daemon@ =~= mailer_daemon());
            if chars_eq(lowered.as_slice(), daemon.as_slice()) {
                Some(lowered)
            } else {
                None
            }
        },
        Some(at) => {
            let ghost local = v@.subrange(0, at as int);
            let ghost domain = v@.subrange(at + 1, v@.len() as int);
            if at == 0 || at + 1 == len {
                return None;
            }
            let local_at = rfind_char(&v.as_slice()[0..at], '@');
            proof {
                assert(v@.subrange(0, at as int) =~= local);
                lemma_last_index_of(local, '@');
                if local.contains('@') {
                    let k = choose|k: int| 0 <= k < local.len() && local[k] == '@';
                    assert(last_index_of(local, '@') >= k);
                }
            }
            if local_at.is_some() {
                return None;
            }
            let dom = slice_chars(&v, at + 1, len);
            let dots: Vec<char> = vec!['.', '.'];
            assert(dots@ =~= seq!['.', '.']);
            if crate::sieve::matching::find_chars(&dom, &dots) {
                return None;
            }
            Some(v)
        },
    }
}

/// Normalizes an envelope address at ingress; `None` for junk.
pub fn parse_envelope_address(input: &str) -> (result: Option<String>)
    ensures
        match spec_parse_envelope_address(input@) {
            Some(m) => result matches Some(x) && x@ == m,
            None => result is None,
        },
{
    let chars = chars_of(input);
    let (s0, e0) = trim_bounds(&chars, 0, chars.len());
    proof {
        assert(chars@.subrange(0, chars@.len() as int) =~= chars@);
    }
    let ghost v0 = chars@.subrange(s0 as int, e0 as int);
    let bracketed = s0 < e0 && chars[s0] == '<';
    let mut s1 = s0;
    let mut e1 = e0;
    if bracketed {
        if e0 - s0 < 2 || chars[e0 - 1] != '>' {
            return None;
        }
        let (a, b) = trim_bounds(&chars, s0 + 1, e0 - 1);
        assert(chars@.subrange(s0 + 1, e0 - 1) =~= v0.subrange(1, v0.len() - 1));
        s1 = a;
        e1 = b;
    }
    let ghost v1 = chars@.subrange(s1 as int, e1 as int);
    if s1 == e1 {
        assert(v1 =~= Seq::<char>::empty());
        return Some(String::new());
    }
    let v = slice_chars(&chars, s1, e1);
    if v[0] == '@' {
        proof {
            lemma_first_index_of(v@, ':');
        }
        let mut colon: usize = 0;
        while colon < v.len() && v[colon] != ':'
            invariant
                colon <= v@.len(),
                forall|j: int| 0 <= j < colon ==> v@[j] != ':',
            decreases v@.len() - colon,
        {
            colon += 1;
        }
        if colon == v.len() {
            proof {
                if first_index_of(v@, ':') >= 0 {
                    assert(v@[first_index_of(v@, ':')] == ':');
                }
            }
            return None;
        }
        proof {
            assert(first_index_of(v@, ':') == colon as int);
        }
        let rest = slice_chars(&v, colon + 1, v.len());
        match check_mailbox_exec(rest) {
            Some(m) => Some(string_of_chars(m.as_slice())),
            None => None,
        }
    } else {
        match check_mailbox_exec(v) {
            Some(m) => Some(string_of_chars(m.as_slice())),
            None => None,
        }
    }
}

} // verus!

verus! {

// ---------------------------------------------------------------------------
// Header fields of a message

/// One mailbox of an address header, as the message parser reports it.
#[derive(Clone, Debug, PartialEq, Eq)]
pub struct MailboxEntry {
    pub name: Option<String>,
    pub email: Option<String>,
}

/// The value of a header field, as the message parser reports it: text, a
/// list of texts, a list of mailboxes, or a kind this library reads from the
/// raw bytes instead.
#[derive(Clone, Debug, PartialEq, Eq)]
pub enum HeaderContent {
    Text(String),
    TextList(Vec<String>),
    Address(Vec<MailboxEntry>),
    Other,
}

/// A header field: its name, its parsed value, and the byte range of its
/// raw value within the message.
#[derive(Clone, Debug, PartialEq, Eq)]
pub struct RawHeader {
    pub name: String,
    pub content: HeaderContent,
    pub start: u32,
    pub end: u32,
}

/// The header fields that `mail_parser::MessageParser::parse` finds in a raw
/// message, in order (none when it cannot parse the message).
pub uninterp spec fn parsed_headers(raw: Seq<u8>) -> Seq<RawHeader>;

/// Parses the message with `mail_parser::MessageParser` and converts each
/// header field into a `RawHeader`, moving its name, its value (text, text
/// list, mailbox list; every other kind as `Other`) and its offsets. The
/// contract claims only that the fields are a function of the raw bytes;
/// the MIME grammar is the parser's own and is not stated.
#[verifier::external_body]
fn read_headers(raw: &[u8]) -> (headers: Vec<RawHeader>)
    ensures
        headers@ == parsed_headers(raw@),
{
    MessageParser::default().parse(raw).map_or(Vec::new(), |message| message.headers().iter().map(|header| RawHeader {
        name: header.name.as_str().into(),
        content: match &header.value {
            HeaderValue::Text(text) => HeaderContent::Text(text.to_string()),
            HeaderValue::TextList(list) => HeaderContent::TextList(list.iter().map(ToString::to_string).collect()),
            HeaderValue::Address(list) => HeaderContent::Address(list.iter().map(|a| MailboxEntry { name: a.name().map(Into::into), email: a.address().map(Into::into) }).collect()),
            _ => HeaderContent::Other,
        },
        start: header.offset_start,
        end: header.offset_end,
    }).collect())
}

/// What `String::from_utf8_lossy` makes of some bytes.
pub uninterp spec fn lossy_utf8(bytes: Seq<u8>) -> Seq<char>;

/// `String::from_utf8_lossy`: the bytes decoded as UTF-8, each invalid
/// sequence replaced by U+FFFD. The contract states the valid case exactly
/// and names the rest.
#[verifier::external_body]
pub(crate) fn utf8_lossy(bytes: &[u8]) -> (text: String)
    ensures
        text@ == lossy_utf8(bytes@),
        valid_utf8(bytes@) ==> text@ == decode_utf8(bytes@),
{
    String::from_utf8_lossy(bytes).into_owned()
}

/// The elements of a list joined with a separator.
pub open spec fn join(parts: Seq<Seq<char>>, sep: Seq<char>) -> Seq<char>
    decreases parts.len(),
{
    if parts.len() == 0 {
        Seq::empty()
    } else if parts.len() == 1 {
        parts[0]
    } else {
        join(parts.drop_last(), sep) + sep + parts.last()
    }
}

pub open spec fn comma_space() -> Seq<char> {
    seq![',', ' ']
}

/// A mailbox as header text: `Name <address>`, or whichever of the two is
/// present.
pub open spec fn render_mailbox(entry: MailboxEntry) -> Seq<char> {
    match (entry.name, entry.email) {
        (Some(name), Some(email)) => name@ + seq![' ', '<'] + email@ + seq!['>'],
        (None, Some(email)) => email@,
        (Some(name), None) => name@,
        (None, None) => Seq::empty(),
    }
}

/// The raw value of a field: the bytes of its range decoded, white space
/// trimmed; empty when the range does not lie within the message.
pub open spec fn raw_value(raw: Seq<u8>, start: int, end: int) -> Seq<char> {
    if start <= end && end <= raw.len() {
        trim(lossy_utf8(raw.subrange(start, end)))
    } else {
        Seq::empty()
    }
}

/// The text of a header field's value.
pub open spec fn header_text(raw: Seq<u8>, header: RawHeader) -> Seq<char> {
    match header.content {
        HeaderContent::Text(text) => text@,
        HeaderContent::TextList(list) => join(list@.map_values(|t: String| t@), comma_space()),
        HeaderContent::Address(list) => join(list@.map_values(|e: MailboxEntry| render_mailbox(e)), comma_space()),
        HeaderContent::Other => raw_value(raw, header.start as int, header.end as int),
    }
}

/// Whether a field has the given name, ignoring ASCII case.
pub open spec fn has_name(header: RawHeader, name: Seq<char>) -> bool {
    lower_chars(header.name@) == lower_chars(name)
}

/// The fields with the given name, in order.
pub open spec fn named(headers: Seq<RawHeader>, name: Seq<char>) -> Seq<RawHeader> {
    headers.filter(|h: RawHeader| has_name(h, name))
}

/// The values to compare for each field with the given name, one per field.
pub open spec fn spec_header_values(raw: Seq<u8>, headers: Seq<RawHeader>, name: Seq<char>) -> Seq<Seq<char>> {
    named(headers, name).map_values(|h: RawHeader| header_text(raw, h))
}

/// The address part of a mailbox: its address, else its name, else empty.
pub open spec fn mailbox_address(entry: MailboxEntry, part: AddressPart) -> Seq<char> {
    let full = match entry.email {
        Some(email) => email@,
        None => match entry.name {
            Some(name) => name@,
            None => Seq::empty(),
        },
    };
    spec_address_part(full, part)
}

/// The addresses of one field: each mailbox of an address field; a single
/// empty string for a field that holds none or is not an address field.
pub open spec fn field_addresses(header: RawHeader, part: AddressPart) -> Seq<Seq<char>> {
    match header.content {
        HeaderContent::Address(list) => if list@.len() == 0 {
            seq![Seq::empty()]
        } else {
            list@.map_values(|e: MailboxEntry| mailbox_address(e, part))
        },
        _ => seq![Seq::empty()],
    }
}

pub open spec fn concat_addresses(headers: Seq<RawHeader>, part: AddressPart) -> Seq<Seq<char>>
    decreases headers.len(),
{
    if headers.len() == 0 {
        Seq::empty()
    } else {
        concat_addresses(headers.drop_last(), part) + field_addresses(headers.last(), part)
    }
}

/// The addresses to compare for the fields with the given name.
pub open spec fn spec_header_addresses(headers: Seq<RawHeader>, name: Seq<char>, part: AddressPart) -> Seq<Seq<char>> {
    concat_addresses(named(headers, name), part)
}

/// A message as the tests of a script see it: its size and its header
/// fields.
pub struct MessageView<'a> {
    raw: &'a [u8],
    headers: Vec<RawHeader>,
}

impl<'a> MessageView<'a> {
    pub closed spec fn raw(&self) -> Seq<u8> {
        self.raw@
    }

    pub closed spec fn headers(&self) -> Seq<RawHeader> {
        self.headers@
    }

    pub fn new(raw: &'a [u8]) -> (view: Self)
        ensures
            view.raw() == raw@,
            view.headers() == parsed_headers(raw@),
    {
        let headers = read_headers(raw);
        MessageView { raw, headers }
    }

    /// A view over a message whose header fields were already read: the
    /// fields in order, each with its name, value and the byte range of its
    /// raw value.
    pub fn from_fields(raw: &'a [u8], headers: Vec<RawHeader>) -> (view: Self)
        ensures
            view.raw() == raw@,
            view.headers() == headers@,
    {
        MessageView { raw, headers }
    }

    /// The message's size in bytes.
    pub fn size(&self) -> (size: u64)
        requires
            self.raw().len() <= u64::MAX,
        ensures
            size == self.raw().len(),
    {
        self.raw.len() as u64
    }

    /// Whether some field has the given name.
    pub fn header_exists(&self, name: &str) -> (exists: bool)
        ensures
            exists == (named(self.headers(), name@).len() > 0),
    {
        let wanted = lower_vec(chars_of(name).as_slice());
        let mut i: usize = 0;
        while i < self.headers.len()
            invariant
                i <= self.headers@.len(),
                wanted@ == lower_chars(name@),
                named(self.headers@.take(i as int), name@).len() == 0,
            decreases self.headers@.len() - i,
        {
            let hname = lower_vec(chars_of(self.headers[i].name.as_str()).as_slice());
            proof {
                lemma_filter_push(self.headers@.take(i as int), self.headers@[i as int], name@);
                assert(self.headers@.take(i + 1) =~= self.headers@.take(i as int).push(self.headers@[i as int]));
            }
            if chars_eq(hname.as_slice(), wanted.as_slice()) {
                proof {
                    let pred = |h: RawHeader| has_name(h, name@);
                    self.headers@.lemma_filter_contains(pred, i as int);
                }
                return true;
            }
            i += 1;
        }
        assert(self.headers@.take(i as int) =~= self.headers@);
        false
    }

    /// The text of each field with the given name, in order.
    pub fn header_values(&self, name: &str) -> (values: Vec<String>)
        ensures
            values@.map_values(|v: String| v@) == spec_header_values(self.raw(), self.headers(), name@),
    {
        let wanted = lower_vec(chars_of(name).as_slice());
        let mut values: Vec<String> = Vec::new();
        let mut i: usize = 0;
        while i < self.headers.len()
            invariant
                i <= self.headers@.len(),
                wanted@ == lower_chars(name@),
                values@.map_values(|v: String| v@) == spec_header_values(self.raw@, self.headers@.take(i as int), name@),
            decreases self.headers@.len() - i,
        {
            let header = &self.headers[i];
            let hname = lower_vec(chars_of(header.name.as_str()).as_slice());
            proof {
                lemma_filter_push(self.headers@.take(i as int), self.headers@[i as int], name@);
                assert(self.headers@.take(i + 1) =~= self.headers@.take(i as int).push(self.headers@[i as int]));
            }
            if chars_eq(hname.as_slice(), wanted.as_slice()) {
                let text = self.header_text_of(header);
                let ghost before = values@;
                values.push(text);
                proof {
                    assert(values@.map_values(|v: String| v@) =~= before.map_values(|v: String| v@).push(text@));
                    let prev = named(self.headers@.take(i as int), name@);
                    assert(named(self.headers@.take(i + 1), name@) == prev.push(self.headers@[i as int]));
                    assert(prev.push(self.headers@[i as int]).map_values(|h: RawHeader| header_text(self.raw@, h))
                        =~= prev.map_values(|h: RawHeader| header_text(self.raw@, h)).push(header_text(self.raw@, self.headers@[i as int])));
                }
            }
            i += 1;
        }
        assert(self.headers@.take(i as int) =~= self.headers@);
        values
    }

    fn header_text_of(&self, header: &RawHeader) -> (text: String)
        ensures
            text@ == header_text(self.raw(), *header),
    {
        match &header.content {
            HeaderContent::Text(text) => text.clone(),
            HeaderContent::TextList(list) => {
                let mut out = String::new();
                let mut k: usize = 0;
                while k < list.len()
                    invariant
                        k <= list@.len(),
                        out@ == join(list@.take(k as int).map_values(|t: String| t@), comma_space()),
                    decreases list@.len() - k,
                {
                    let ghost before = out@;
                    if k > 0 {
                        push_chars(&mut out, vec![',', ' '].as_slice());
                    }
                    let piece = chars_of(list[k].as_str());
                    push_chars(&mut out, piece.as_slice());
                    proof {
                        lemma_join_push(list@.take(k as int).map_values(|t: String| t@), list@[k as int]@, comma_space());
                        assert(list@.take(k + 1).map_values(|t: String| t@) =~= list@.take(k as int).map_values(|t: String| t@).push(list@[k as int]@));
                    }
                    k += 1;
                }
                assert(list@.take(k as int) =~= list@);
                out
            },
            HeaderContent::Address(list) => {
                let mut out = String::new();
                let mut k: usize = 0;
                while k < list.len()
                    invariant
                        k <= list@.len(),
                        out@ == join(list@.take(k as int).map_values(|e: MailboxEntry| render_mailbox(e)), comma_space()),
                    decreases list@.len() - k,
                {
                    if k > 0 {
                        push_chars(&mut out, vec![',', ' '].as_slice());
                    }
                    let piece = render_mailbox_exec(&list[k]);
                    push_chars(&mut out, piece.as_slice());
                    proof {
                        lemma_join_push(list@.take(k as int).map_values(|e: MailboxEntry| render_mailbox(e)), render_mailbox(list@[k as int]), comma_space());
                        assert(list@.take(k + 1).map_values(|e: MailboxEntry| render_mailbox(e)) =~= list@.take(k as int).map_values(|e: MailboxEntry| render_mailbox(e)).push(render_mailbox(list@[k as int])));
                    }
                    k += 1;
                }
                assert(list@.take(k as int) =~= list@);
                out
            },
            HeaderContent::Other => {
                let start = header.start as usize;
                let end = header.end as usize;
                if start <= end && end <= self.raw.len() {
                    let text = utf8_lossy(&self.raw[start..end]);
                    let chars = chars_of(text.as_str());
                    let (s, e) = trim_bounds(&chars, 0, chars.len());
                    assert(chars@.subrange(0, chars@.len() as int) =~= chars@);
                    let trimmed = slice_chars(&chars, s, e);
                    string_of_chars(trimmed.as_slice())
                } else {
                    String::new()
                }
            },
        }
    }

    /// The address part of each mailbox of the fields with the given name.
    pub fn header_addresses(&self, name: &str, part: AddressPart) -> (addresses: Vec<String>)
        ensures
            addresses@.map_values(|v: String| v@) == spec_header_addresses(self.headers(), name@, part),
    {
        let wanted = lower_vec(chars_of(name).as_slice());
        let mut out: Vec<String> = Vec::new();
        let mut i: usize = 0;
        while i < self.headers.len()
            invariant
                i <= self.headers@.len(),
                wanted@ == lower_chars(name@),
                out@.map_values(|v: String| v@) == concat_addresses(named(self.headers@.take(i as int), name@), part),
            decreases self.headers@.len() - i,
        {
            let header = &self.headers[i];
            let hname = lower_vec(chars_of(header.name.as_str()).as_slice());
            proof {
                lemma_filter_push(self.headers@.take(i as int), self.headers@[i as int], name@);
                assert(self.headers@.take(i + 1) =~= self.headers@.take(i as int).push(self.headers@[i as int]));
            }
            if chars_eq(hname.as_slice(), wanted.as_slice()) {
                let ghost before = out@.map_values(|v: String| v@);
                let ghost prev = named(self.headers@.take(i as int), name@);
                let ghost cur = self.headers@[i as int];
                proof {
                    assert(prev.push(cur).drop_last() =~= prev);
                }
                push_field_addresses(&mut out, header, part);
                assert(out@.map_values(|v: String| v@) =~= concat_addresses(prev.push(cur), part));
            }
            i += 1;
        }
        assert(self.headers@.take(i as int) =~= self.headers@);
        out
    }
}

fn render_mailbox_exec(entry: &MailboxEntry) -> (text: Vec<char>)
    ensures
        text@ == render_mailbox(*entry),
{
    match (&entry.name, &entry.email) {
        (Some(name), Some(email)) => {
            let mut out = chars_of(name.as_str());
            out.push(' ');
            out.push('<');
            let e = chars_of(email.as_str());
            let mut k: usize = 0;
            let ghost base = out@;
            while k < e.len()
                invariant
                    k <= e@.len(),
                    out@ == base + e@.take(k as int),
                decreases e@.len() - k,
            {
                out.push(e[k]);
                k += 1;
                assert(out@ =~= base + e@.take(k as int));
            }
            out.push('>');
            assert(e@.take(e@.len() as int) =~= e@);
            assert(out@ =~= name@ + seq![' ', '<'] + email@ + seq!['>']);
            out
        },
        (None, Some(email)) => chars_of(email.as_str()),
        (Some(name), None) => chars_of(name.as_str()),
        (None, None) => Vec::new(),
    }
}

fn push_field_addresses(out: &mut Vec<String>, header: &RawHeader, part: AddressPart)
    ensures
        final(out)@.map_values(|v: String| v@) == old(out)@.map_values(|v: String| v@) + field_addresses(*header, part),
{
    let ghost start = old(out)@.map_values(|v: String| v@);
    match &header.content {
        HeaderContent::Address(list) => {
            if list.len() == 0 {
                out.push(String::new());
                assert(out@.map_values(|v: String| v@) =~= start + seq![Seq::<char>::empty()]);
                return;
            }
            let mut k: usize = 0;
            while k < list.len()
                invariant
                    k <= list@.len(),
                    out@.map_values(|v: String| v@) == start + list@.take(k as int).map_values(|e: MailboxEntry| mailbox_address(e, part)),
                decreases list@.len() - k,
            {
                let entry = &list[k];
                let full: String = match &entry.email {
                    Some(email) => email.clone(),
                    None => match &entry.name {
                        Some(name) => name.clone(),
                        None => String::new(),
                    },
                };
                let picked = address_part(full.as_str(), part);
                let ghost before = out@;
                out.push(picked);
                proof {
                    assert(out@.map_values(|v: String| v@) =~= before.map_values(|v: String| v@).push(picked@));
                    assert(list@.take(k + 1).map_values(|e: MailboxEntry| mailbox_address(e, part)) =~= list@.take(k as int).map_values(|e: MailboxEntry| mailbox_address(e, part)).push(mailbox_address(list@[k as int], part)));
                    assert((start + list@.take(k as int).map_values(|e: MailboxEntry| mailbox_address(e, part))).push(mailbox_address(list@[k as int], part)) =~= start + list@.take(k as int).map_values(|e: MailboxEntry| mailbox_address(e, part)).push(mailbox_address(list@[k as int], part)));
                }
                k += 1;
            }
            assert(list@.take(k as int) =~= list@);
        },
        _ => {
            out.push(String::new());
            assert(out@.map_values(|v: String| v@) =~= start + seq![Seq::<char>::empty()]);
        },
    }
}

proof fn lemma_filter_push(s: Seq<RawHeader>, x: RawHeader, name: Seq<char>)
    ensures
        named(s.push(x), name) == (if has_name(x, name) {
            named(s, name).push(x)
        } else {
            named(s, name)
        }),
{
    reveal_with_fuel(Seq::filter, 1);
    assert(s.push(x).drop_last() =~= s);
}

proof fn lemma_join_push(parts: Seq<Seq<char>>, x: Seq<char>, sep: Seq<char>)
    ensures
        join(parts.push(x), sep) == (if parts.len() == 0 {
            x
        } else {
            join(parts, sep) + sep + x
        }),
{
    assert(parts.push(x).drop_last() =~= parts);
}

} // verus!
