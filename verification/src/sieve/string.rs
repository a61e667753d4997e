use vstd::prelude::*;
use vstd::utf8::*;
use crate::sieve::message::{slice_chars, trim, trim_bounds};
use crate::text::{
    chars_of, first_index_of, lemma_first_index_of, lower_chars, lower_vec, push_char, push_chars,
    push_str, utf8_string,
};

verus! {

// ---------------------------------------------------------------------------
// What `${hex:..}` and `${unicode:..}` sequences decode to

/// ASCII white space, where groups of digits are split.
pub open spec fn is_ascii_space(c: char) -> bool {
    c == ' ' || c == '\t' || c == '\n' || c == '\x0C' || c == '\r'
}

/// The maximal runs of characters other than ASCII white space, in order.
pub open spec fn ascii_words(s: Seq<char>) -> Seq<Seq<char>>
    decreases s.len(),
{
    if s.len() == 0 {
        Seq::empty()
    } else {
        let w = ascii_words(s.drop_last());
        let c = s.last();
        if is_ascii_space(c) {
            w
        } else if s.len() >= 2 && !is_ascii_space(s[s.len() - 2]) {
            w.update(w.len() - 1, w.last().push(c))
        } else {
            w.push(seq![c])
        }
    }
}

pub open spec fn is_hex_digit(c: char) -> bool {
    ('0' <= c <= '9') || ('a' <= c <= 'f') || ('A' <= c <= 'F')
}

pub open spec fn hex_value(c: char) -> nat {
    if '0' <= c <= '9' {
        (c as nat - 48) as nat
    } else if 'a' <= c <= 'f' {
        (c as nat - 87) as nat
    } else {
        (c as nat - 55) as nat
    }
}

/// The value of a numeral in base sixteen.
pub open spec fn hex_number(w: Seq<char>) -> nat
    decreases w.len(),
{
    if w.len() == 0 {
        0
    } else {
        hex_number(w.drop_last()) * 16 + hex_value(w.last())
    }
}

/// A group of at most `max` hexadecimal digits.
pub open spec fn hex_group(w: Seq<char>, max: nat) -> bool {
    w.len() <= max && forall|i: int| 0 <= i < w.len() ==> is_hex_digit(#[trigger] w[i])
}

/// The octets of a `hex` sequence: one per group of one or two digits;
/// nothing when a group is malformed or there is none.
pub open spec fn hex_octets(groups: Seq<Seq<char>>) -> Option<Seq<u8>> {
    if groups.len() > 0 && forall|i: int| 0 <= i < groups.len() ==> hex_group(#[trigger] groups[i], 2) {
        Some(groups.map_values(|g: Seq<char>| hex_number(g) as u8))
    } else {
        None
    }
}

/// A Unicode scalar value.
pub open spec fn is_scalar(v: nat) -> bool {
    v < 0xD800 || (0xE000 <= v && v <= 0x10FFFF)
}

/// The text of the error for a group that names no scalar value.
pub open spec fn invalid_code_point(group: Seq<char>) -> Seq<char> {
    seq!['i', 'n', 'v', 'a', 'l', 'i', 'd', ' ', 'u', 'n', 'i', 'c', 'o', 'd', 'e', ' ', 'c', 'o', 'd', 'e', ' ', 'p', 'o', 'i', 'n', 't', ' ']
        + group
}

/// The characters of the groups of a `unicode` sequence, taken in order:
/// the first malformed group (more than six digits, or a non-digit) makes
/// the sequence no sequence at all, the first group that names no scalar
/// value is an error.
pub open spec fn unicode_chars(groups: Seq<Seq<char>>) -> Result<Option<Seq<char>>, Seq<char>>
    decreases groups.len(),
{
    if groups.len() == 0 {
        Ok(Some(Seq::empty()))
    } else {
        match unicode_chars(groups.drop_last()) {
            Ok(Some(acc)) => {
                let g = groups.last();
                if !hex_group(g, 6) {
                    Ok(None)
                } else if !is_scalar(hex_number(g)) {
                    Err(invalid_code_point(g))
                } else {
                    Ok(Some(acc.push(hex_number(g) as char)))
                }
            },
            other => other,
        }
    }
}

pub open spec fn hex_kind() -> Seq<char> {
    seq!['h', 'e', 'x']
}

pub open spec fn unicode_kind() -> Seq<char> {
    seq!['u', 'n', 'i', 'c', 'o', 'd', 'e']
}

/// What the sequence that opens at `start` (with `${`) decodes to, and
/// where it ends; `None` when the text there is no well-formed sequence.
pub open spec fn sequence_at(input: Seq<char>, start: int) -> Result<Option<(Seq<char>, int)>, Seq<char>> {
    let rel = first_index_of(input.subrange(start, input.len() as int), '}');
    if rel < 0 || rel < 2 {
        Ok(None)
    } else {
        let close = start + rel;
        let body = input.subrange(start + 2, close);
        let colon = first_index_of(body, ':');
        if colon < 0 {
            Ok(None)
        } else {
            let kind = lower_chars(trim(body.subrange(0, colon)));
            let groups = ascii_words(trim(body.subrange(colon + 1, body.len() as int)));
            if kind == hex_kind() {
                match hex_octets(groups) {
                    Some(octets) => if valid_utf8(octets) {
                        Ok(Some((decode_utf8(octets), close + 1)))
                    } else {
                        Ok(None)
                    },
                    None => Ok(None),
                }
            } else if kind == unicode_kind() {
                if groups.len() == 0 {
                    Ok(None)
                } else {
                    match unicode_chars(groups) {
                        Ok(Some(text)) => Ok(Some((text, close + 1))),
                        Ok(None) => Ok(None),
                        Err(e) => Err(e),
                    }
                }
            } else {
                Ok(None)
            }
        }
    }
}

/// Puts text before a successful result.
pub open spec fn prefixed(text: Seq<char>, r: Result<Seq<char>, Seq<char>>) -> Result<Seq<char>, Seq<char>> {
    match r {
        Ok(rest) => Ok(text + rest),
        Err(e) => Err(e),
    }
}

/// The input from `pos` on with each well-formed sequence replaced by what
/// it decodes to; decoded text is not scanned again.
pub open spec fn decoded_from(input: Seq<char>, pos: int) -> Result<Seq<char>, Seq<char>>
    decreases input.len() - pos,
{
    if pos < 0 || pos >= input.len() {
        Ok(Seq::empty())
    } else if input[pos] == '$' && pos + 1 < input.len() && input[pos + 1] == '{' {
        match sequence_at(input, pos) {
            Err(e) => Err(e),
            Ok(Some((text, end))) => {
                proof {
                    lemma_first_index_of(input.subrange(pos, input.len() as int), '}');
                }
                prefixed(text, decoded_from(input, end))
            },
            Ok(None) => prefixed(seq![input[pos]], decoded_from(input, pos + 1)),
        }
    } else {
        prefixed(seq![input[pos]], decoded_from(input, pos + 1))
    }
}

// ---------------------------------------------------------------------------
// Decoding

/// `char::from_u32`: the character with the given code, if the code is a
/// Unicode scalar value (not a surrogate, at most 0x10FFFF).
#[verifier::external_body]
fn char_from_u32(code: u32) -> (c: Option<char>)
    ensures
        is_scalar(code as nat) ==> c == Some(code as char),
        !is_scalar(code as nat) ==> c is None,
{
    char::from_u32(code)
}

fn ascii_space(c: char) -> (r: bool)
    ensures
        r == is_ascii_space(c),
{
    c == ' ' || c == '\t' || c == '\n' || c == '\x0C' || c == '\r'
}

fn hex_digit(c: char) -> (r: Option<u32>)
    ensures
        r is Some == is_hex_digit(c),
        r matches Some(v) ==> v == hex_value(c),
{
    if '0' <= c && c <= '9' {
        Some((c as u32) - 48)
    } else if 'a' <= c && c <= 'f' {
        Some((c as u32) - 87)
    } else if 'A' <= c && c <= 'F' {
        Some((c as u32) - 55)
    } else {
        None
    }
}

/// The groups of characters between ASCII white space.
pub fn split_ascii_words(s: &Vec<char>, from: usize, to: usize) -> (groups: Vec<Vec<char>>)
    requires
        from <= to <= s@.len(),
    ensures
        groups@.map_values(|g: Vec<char>| g@) == ascii_words(s@.subrange(from as int, to as int)),
{
    let mut groups: Vec<Vec<char>> = Vec::new();
    let mut i = from;
    while i < to
        invariant
            from <= i <= to <= s@.len(),
            groups@.map_values(|g: Vec<char>| g@) == ascii_words(s@.subrange(from as int, i as int)),
        decreases to - i,
    {
        let c = s[i];
        let ghost prev = s@.subrange(from as int, i as int);
        let ghost next = s@.subrange(from as int, i + 1);
        assert(next.drop_last() =~= prev);
        let ghost before = groups@.map_values(|g: Vec<char>| g@);
        if ascii_space(c) {
        } else if i > from && !ascii_space(s[i - 1]) {
            assert(next[next.len() - 2] == s@[i - 1]);
            proof {
                assert(prev.last() == s@[i - 1]);
                lemma_words_last(prev);
            }
            let n = groups.len();
            let mut last = groups.remove(n - 1);
            last.push(c);
            groups.push(last);
            assert(groups@.map_values(|g: Vec<char>| g@) =~= before.update(before.len() - 1, before.last().push(c)));
        } else {
            let mut fresh: Vec<char> = Vec::new();
            fresh.push(c);
            groups.push(fresh);
            assert(groups@.map_values(|g: Vec<char>| g@) =~= before.push(seq![c]));
        }
        i += 1;
    }
    groups
}

proof fn lemma_words_last(s: Seq<char>)
    requires
        s.len() > 0,
        !is_ascii_space(s.last()),
    ensures
        ascii_words(s).len() > 0,
    decreases s.len(),
{
    if s.len() >= 2 && !is_ascii_space(s[s.len() - 2]) {
        assert(s.drop_last().last() == s[s.len() - 2]);
        lemma_words_last(s.drop_last());
    }
}

proof fn lemma_hex_number_bound(w: Seq<char>)
    requires
        forall|i: int| 0 <= i < w.len() ==> is_hex_digit(#[trigger] w[i]),
    ensures
        hex_number(w) < pow16(w.len()),
    decreases w.len(),
{
    if w.len() > 0 {
        let init = w.drop_last();
        assert forall|i: int| 0 <= i < init.len() implies is_hex_digit(#[trigger] init[i]) by {
            assert(init[i] == w[i]);
        }
        lemma_hex_number_bound(init);
        assert(hex_value(w.last()) < 16);
        assert(hex_number(w) == hex_number(init) * 16 + hex_value(w.last()));
        assert(hex_number(init) * 16 + hex_value(w.last()) < pow16(init.len()) * 16) by (nonlinear_arith)
            requires
                hex_number(init) < pow16(init.len()),
                hex_value(w.last()) < 16,
        ;
    }
}

pub open spec fn pow16(n: nat) -> nat
    decreases n,
{
    if n == 0 {
        1
    } else {
        pow16((n - 1) as nat) * 16
    }
}

/// The value of a group of at most six hexadecimal digits.
fn group_value(g: &Vec<char>) -> (r: Option<u32>)
    requires
        g@.len() <= 6,
    ensures
        r is Some == (forall|i: int| 0 <= i < g@.len() ==> is_hex_digit(#[trigger] g@[i])),
        r matches Some(v) ==> v == hex_number(g@),
{
    let mut value: u32 = 0;
    let mut k: usize = 0;
    while k < g.len()
        invariant
            k <= g@.len() <= 6,
            forall|i: int| 0 <= i < k ==> is_hex_digit(#[trigger] g@[i]),
            value == hex_number(g@.take(k as int)),
            value < pow16(k as nat),
        decreases g@.len() - k,
    {
        match hex_digit(g[k]) {
            Some(d) => {
                proof {
                    assert(g@.take(k + 1).drop_last() =~= g@.take(k as int));
                    assert(pow16(k as nat) <= pow16(5)) by {
                        lemma_pow16_mono(k as nat, 5);
                    }
                    assert(pow16(5) == 1048576) by {
                        reveal_with_fuel(pow16, 6);
                    }
                    assert(value * 16 + d < pow16(k as nat) * 16) by (nonlinear_arith)
                        requires
                            value < pow16(k as nat),
                            d < 16,
                    ;
                }
                value = value * 16 + d;
                k += 1;
            },
            None => return None,
        }
    }
    assert(g@.take(k as int) =~= g@);
    Some(value)
}

proof fn lemma_pow16_mono(a: nat, b: nat)
    requires
        a <= b,
    ensures
        pow16(a) <= pow16(b),
    decreases b,
{
    if a < b {
        lemma_pow16_mono(a, (b - 1) as nat);
    }
}

/// Decodes a `hex` sequence's groups into text.
fn decode_hex_groups(groups: &Vec<Vec<char>>) -> (text: Option<String>)
    ensures
        match hex_octets(groups@.map_values(|g: Vec<char>| g@)) {
            Some(octets) => if valid_utf8(octets) {
                text matches Some(t) && t@ == decode_utf8(octets)
            } else {
                text is None
            },
            None => text is None,
        },
{
    let ghost gs = groups@.map_values(|g: Vec<char>| g@);
    if groups.len() == 0 {
        return None;
    }
    let mut octets: Vec<u8> = Vec::new();
    let mut i: usize = 0;
    while i < groups.len()
        invariant
            i <= groups@.len(),
            gs == groups@.map_values(|g: Vec<char>| g@),
            forall|j: int| 0 <= j < i ==> hex_group(#[trigger] gs[j], 2),
            octets@ == gs.take(i as int).map_values(|g: Seq<char>| hex_number(g) as u8),
        decreases groups@.len() - i,
    {
        let g = &groups[i];
        assert(gs[i as int] == g@);
        if g.len() > 2 {
            return None;
        }
        match group_value(g) {
            Some(v) => {
                proof {
                    lemma_hex_number_bound(g@);
                    lemma_pow16_mono(g@.len(), 2);
                    reveal_with_fuel(pow16, 3);
                }
                octets.push(v as u8);
                assert(octets@ =~= gs.take(i + 1).map_values(|g: Seq<char>| hex_number(g) as u8));
            },
            None => return None,
        }
        i += 1;
    }
    assert(gs.take(i as int) =~= gs);
    utf8_string(octets)
}

/// Decodes a `unicode` sequence's groups into text.
fn decode_unicode_groups(groups: &Vec<Vec<char>>) -> (r: Result<Option<String>, String>)
    ensures
        match unicode_chars(groups@.map_values(|g: Vec<char>| g@)) {
            Ok(Some(t)) => r matches Ok(Some(s)) && s@ == t,
            Ok(None) => r matches Ok(None),
            Err(e) => r matches Err(m) && m@ == e,
        },
{
    let ghost gs = groups@.map_values(|g: Vec<char>| g@);
    let mut text = String::new();
    let mut i: usize = 0;
    while i < groups.len()
        invariant
            i <= groups@.len(),
            gs == groups@.map_values(|g: Vec<char>| g@),
            unicode_chars(gs.take(i as int)) == Ok::<Option<Seq<char>>, Seq<char>>(Some(text@)),
        decreases groups@.len() - i,
    {
        let g = &groups[i];
        proof {
            assert(gs[i as int] == g@);
            assert(gs.take(i + 1).drop_last() =~= gs.take(i as int));
            assert(gs.take(i + 1).last() == g@);
        }
        if g.len() > 6 {
            proof {
                lemma_unicode_stops(gs, i as int + 1);
            }
            return Ok(None);
        }
        match group_value(g) {
            Some(v) => match char_from_u32(v) {
                Some(c) => {
                    push_char(&mut text, c);
                },
                None => {
                    let mut message = String::new();
                    push_str(&mut message, "invalid unicode code point ");
                    push_chars(&mut message, g.as_slice());
                    proof {
                        reveal_strlit("invalid unicode code point ");
                        assert(message@ =~= invalid_code_point(g@));
                        lemma_unicode_stops(gs, i as int + 1);
                    }
                    return Err(message);
                },
            },
            None => {
                proof {
                    lemma_unicode_stops(gs, i as int + 1);
                }
                return Ok(None);
            },
        }
        i += 1;
    }
    assert(gs.take(i as int) =~= gs);
    Ok(Some(text))
}

/// Once the groups up to `n` settle the result (no sequence, or an error),
/// later groups do not change it.
proof fn lemma_unicode_stops(gs: Seq<Seq<char>>, n: int)
    requires
        0 <= n <= gs.len(),
    ensures
        !(unicode_chars(gs.take(n)) is Ok && unicode_chars(gs.take(n))->Ok_0 is Some) ==> unicode_chars(gs)
            == unicode_chars(gs.take(n)),
    decreases gs.len() - n,
{
    if n < gs.len() {
        lemma_unicode_stops(gs, n + 1);
        assert(gs.take(n + 1).drop_last() =~= gs.take(n));
    } else {
        assert(gs.take(n) =~= gs);
    }
}

/// The position of the first `x` in `v[from..to]`.
fn find_char(v: &Vec<char>, from: usize, to: usize, x: char) -> (r: Option<usize>)
    requires
        from <= to <= v@.len(),
    ensures
        match r {
            Some(i) => from <= i < to && i - from == first_index_of(v@.subrange(from as int, to as int), x),
            None => first_index_of(v@.subrange(from as int, to as int), x) == -1,
        },
{
    let ghost s = v@.subrange(from as int, to as int);
    proof {
        lemma_first_index_of(s, x);
    }
    let mut i = from;
    while i < to
        invariant
            from <= i <= to <= v@.len(),
            s == v@.subrange(from as int, to as int),
            -1 <= first_index_of(s, x) < s.len(),
            first_index_of(s, x) >= 0 ==> s[first_index_of(s, x)] == x,
            forall|j: int| 0 <= j < s.len() && (first_index_of(s, x) == -1 || j < first_index_of(s, x)) ==> s[j] != x,
            forall|j: int| 0 <= j < i - from ==> s[j] != x,
        decreases to - i,
    {
        if v[i] == x {
            assert(s[i - from] == x);
            return Some(i);
        }
        i += 1;
    }
    None
}

/// Decodes the sequence that opens with `${` at `start`.
fn decode_sequence(input: &Vec<char>, start: usize) -> (r: Result<Option<(String, usize)>, String>)
    requires
        start + 1 < input@.len(),
        input@[start as int] == '$',
        input@[start + 1] == '{',
    ensures
        match sequence_at(input@, start as int) {
            Ok(Some((text, end))) => r matches Ok(Some((s, e))) && s@ == text && e == end,
            Ok(None) => r matches Ok(None),
            Err(e) => r matches Err(m) && m@ == e,
        },
{
    let n = input.len();
    let close = match find_char(input, start, n, '}') {
        Some(c) => c,
        None => return Ok(None),
    };
    if close < start + 2 {
        return Ok(None);
    }
    let body = slice_chars(input, start + 2, close);
    let colon = match find_char(&body, 0, body.len(), ':') {
        Some(c) => c,
        None => {
            assert(body@.subrange(0, body@.len() as int) =~= body@);
            return Ok(None);
        },
    };
    assert(body@.subrange(0, body@.len() as int) =~= body@);
    let (ks, ke) = trim_bounds(&body, 0, colon);
    let kind = lower_vec(slice_chars(&body, ks, ke).as_slice());
    let blen = body.len();
    let (ds, de) = trim_bounds(&body, colon + 1, blen);
    let groups = split_ascii_words(&body, ds, de);
    let ghost gs = groups@.map_values(|g: Vec<char>| g@);
    let hex: Vec<char> = chars_of("hex");
    let unicode: Vec<char> = chars_of("unicode");
    proof {
        reveal_strlit("hex");
        reveal_strlit("unicode");
        assert(hex@ =~= hex_kind());
        assert(unicode@ =~= unicode_kind());
    }
    if crate::text::chars_eq(kind.as_slice(), hex.as_slice()) {
        match decode_hex_groups(&groups) {
            Some(text) => Ok(Some((text, close + 1))),
            None => Ok(None),
        }
    } else if crate::text::chars_eq(kind.as_slice(), unicode.as_slice()) {
        if groups.len() == 0 {
            return Ok(None);
        }
        match decode_unicode_groups(&groups)? {
            Some(text) => Ok(Some((text, close + 1))),
            None => Ok(None),
        }
    } else {
        Ok(None)
    }
}

/// Replaces each `${hex:..}` and `${unicode:..}` sequence by what it
/// encodes. A malformed sequence stays as it is; a `unicode` group that
/// names no scalar value is an error. Decoded text is not scanned again.
pub fn decode_encoded_characters(input: &str) -> (r: Result<String, String>)
    ensures
        match decoded_from(input@, 0) {
            Ok(text) => r matches Ok(s) && s@ == text,
            Err(e) => r matches Err(m) && m@ == e,
        },
{
    let chars = chars_of(input);
    let n = chars.len();
    let mut output = String::new();
    let mut pos: usize = 0;
    while pos < n
        invariant
            n == chars@.len(),
            chars@ == input@,
            pos <= n,
            decoded_from(input@, 0) == prefixed(output@, decoded_from(input@, pos as int)),
        decreases n - pos,
    {
        if chars[pos] == '$' && pos + 1 < n && chars[pos + 1] == '{' {
            match decode_sequence(&chars, pos) {
                Err(e) => {
                    return Err(e);
                },
                Ok(Some((decoded, end))) => {
                    proof {
                        lemma_first_index_of(input@.subrange(pos as int, n as int), '}');
                        assert(decoded_from(input@, pos as int) == prefixed(decoded@, decoded_from(input@, end as int)));
                        lemma_prefixed_assoc(output@, decoded@, decoded_from(input@, end as int));
                    }
                    push_str(&mut output, decoded.as_str());
                    pos = end;
                    continue;
                },
                Ok(None) => {},
            }
        }
        let ghost before = output@;
        push_char(&mut output, chars[pos]);
        proof {
            lemma_prefixed_assoc(before, seq![chars@[pos as int]], decoded_from(input@, pos + 1));
            assert(before + seq![chars@[pos as int]] =~= output@);
        }
        pos += 1;
    }
    Ok(output)
}

proof fn lemma_prefixed_assoc(a: Seq<char>, b: Seq<char>, r: Result<Seq<char>, Seq<char>>)
    ensures
        prefixed(a, prefixed(b, r)) == prefixed(a + b, r),
{
    match r {
        Ok(x) => {
            assert(a + (b + x) =~= (a + b) + x);
        },
        Err(_) => {},
    }
}

} // verus!
