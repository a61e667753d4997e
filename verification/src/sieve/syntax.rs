use vstd::prelude::*;
use crate::sieve::instruction::{AddressPart, Comparator, EnvelopePart, Instruction, MatchType, Test};
use crate::sieve::lexer::LexTok;
use crate::sieve::runtime::strs;
use crate::sieve::script::CompilerLimits;
use crate::sieve::string::{ascii_words, decoded_from};
use crate::text::lower_chars;

verus! {

// ---------------------------------------------------------------------------
// What a compiled program holds, its texts as characters

/// A test, its strings as characters.
pub enum TestView {
    Header {
        headers: Seq<Seq<char>>,
        keys: Seq<Seq<char>>,
        match_type: MatchType,
        comparator: Comparator,
        is_not: bool,
    },
    Address {
        headers: Seq<Seq<char>>,
        keys: Seq<Seq<char>>,
        part: AddressPart,
        match_type: MatchType,
        comparator: Comparator,
        is_not: bool,
    },
    Envelope {
        parts: Seq<EnvelopePart>,
        keys: Seq<Seq<char>>,
        part: AddressPart,
        match_type: MatchType,
        comparator: Comparator,
        is_not: bool,
    },
    Exists { headers: Seq<Seq<char>>, is_not: bool },
    Size { over: bool, limit: u64, is_not: bool },
    Bool(bool),
}

/// An instruction, its strings as characters.
pub enum InsView {
    Test(TestView),
    Jmp(usize),
    Jz(usize),
    Jnz(usize),
    Keep,
    Discard,
    Stop,
    FileInto(Seq<char>),
    Redirect(Seq<char>),
    AddFlag(Seq<Seq<char>>),
    SetFlag(Seq<Seq<char>>),
    RemoveFlag(Seq<Seq<char>>),
}

pub open spec fn test_view(t: Test) -> TestView {
    match t {
        Test::Header { headers, keys, match_type, comparator, is_not } => TestView::Header {
            headers: strs(headers@),
            keys: strs(keys@),
            match_type,
            comparator,
            is_not,
        },
        Test::Address { headers, keys, part, match_type, comparator, is_not } => TestView::Address {
            headers: strs(headers@),
            keys: strs(keys@),
            part,
            match_type,
            comparator,
            is_not,
        },
        Test::Envelope { parts, keys, part, match_type, comparator, is_not } => TestView::Envelope {
            parts: parts@,
            keys: strs(keys@),
            part,
            match_type,
            comparator,
            is_not,
        },
        Test::Exists { headers, is_not } => TestView::Exists { headers: strs(headers@), is_not },
        Test::Size { over, limit, is_not } => TestView::Size { over, limit, is_not },
        Test::Bool(b) => TestView::Bool(b),
    }
}

pub open spec fn ins_view(i: Instruction) -> InsView {
    match i {
        Instruction::Test(t) => InsView::Test(test_view(t)),
        Instruction::Jmp(t) => InsView::Jmp(t),
        Instruction::Jz(t) => InsView::Jz(t),
        Instruction::Jnz(t) => InsView::Jnz(t),
        Instruction::Keep => InsView::Keep,
        Instruction::Discard => InsView::Discard,
        Instruction::Stop => InsView::Stop,
        Instruction::FileInto(m) => InsView::FileInto(m@),
        Instruction::Redirect(a) => InsView::Redirect(a@),
        Instruction::AddFlag(f) => InsView::AddFlag(strs(f@)),
        Instruction::SetFlag(f) => InsView::SetFlag(strs(f@)),
        Instruction::RemoveFlag(f) => InsView::RemoveFlag(strs(f@)),
    }
}

/// The instructions of a program, their strings as characters.
pub open spec fn ins_views(s: Seq<Instruction>) -> Seq<InsView> {
    s.map_values(|i: Instruction| ins_view(i))
}

/// The same jump with another target.
pub open spec fn retarget_view(i: InsView, target: usize) -> InsView {
    match i {
        InsView::Jmp(_) => InsView::Jmp(target),
        InsView::Jz(_) => InsView::Jz(target),
        InsView::Jnz(_) => InsView::Jnz(target),
        other => other,
    }
}

/// Points the jump at `at` to `target`.
pub open spec fn patch_one(ins: Seq<InsView>, at: usize, target: usize) -> Seq<InsView> {
    if at < ins.len() {
        ins.update(at as int, retarget_view(ins[at as int], target))
    } else {
        ins
    }
}

/// Points each listed jump, in order, to `target`.
pub open spec fn patch_all(ins: Seq<InsView>, at: Seq<usize>, target: usize) -> Seq<InsView>
    decreases at.len(),
{
    if at.len() == 0 {
        ins
    } else {
        patch_one(patch_all(ins, at.drop_last(), target), at.last(), target)
    }
}

/// A jump whose target is not known yet.
pub open spec fn unset() -> usize {
    usize::MAX
}

// ---------------------------------------------------------------------------
// Where errors are reported

/// A token as the compiler reads it: what it is, its line and its column.
pub type TokView = (LexTok, usize, usize);

/// An error: line, column and message.
pub type Fault = (usize, usize, Seq<char>);

/// The line and column of the token at `pos`, of the last token past the
/// end, and the start of an empty script.
pub open spec fn here(toks: Seq<TokView>, pos: int) -> (usize, usize) {
    if toks.len() == 0 {
        (1, 1)
    } else if pos < toks.len() - 1 {
        (toks[pos].1, toks[pos].2)
    } else {
        (toks.last().1, toks.last().2)
    }
}

/// An error reported at the current position.
pub open spec fn fault_here(toks: Seq<TokView>, pos: int, message: Seq<char>) -> Fault {
    (here(toks, pos).0, here(toks, pos).1, message)
}

/// An error reported at a given line and column.
pub open spec fn fault_at(at: (usize, usize), message: Seq<char>) -> Fault {
    (at.0, at.1, message)
}

/// Where a token stands.
pub open spec fn place(t: TokView) -> (usize, usize) {
    (t.1, t.2)
}

/// `"name" must be required first`.
pub open spec fn need_message(name: Seq<char>) -> Seq<char> {
    "\""@ + name + "\" must be required first"@
}

/// `prefix"text"`.
pub open spec fn quoted_message(prefix: Seq<char>, text: Seq<char>) -> Seq<char> {
    prefix + text + "\""@
}

// ---------------------------------------------------------------------------
// Strings and lists

/// The next token is the punctuation `want`.
pub open spec fn expect_at(toks: Seq<TokView>, pos: int, want: LexTok, description: Seq<char>) -> Result<(), Fault> {
    if pos < toks.len() {
        if toks[pos].0 == want {
            Ok(())
        } else {
            Err(fault_at(place(toks[pos]), "expected "@ + description))
        }
    } else {
        Err(fault_here(toks, pos, "expected "@ + description))
    }
}

/// A string as the script holds it: decoded when `encoded-character` was
/// required.
pub open spec fn decode_value(caps: Seq<Seq<char>>, value: Seq<char>, line: usize, col: usize) -> Result<Seq<char>, Fault> {
    if !caps.contains("encoded-character"@) {
        Ok(value)
    } else {
        match decoded_from(value, 0) {
            Ok(d) => Ok(d),
            Err(m) => Err((if line == 0 { 1 } else { line }, if col < 1 { 1 } else { col }, m)),
        }
    }
}

/// The string at `pos`, decoded; it takes one token.
pub open spec fn string_at(toks: Seq<TokView>, caps: Seq<Seq<char>>, pos: int) -> Result<Seq<char>, Fault> {
    if pos < toks.len() {
        match toks[pos].0 {
            LexTok::Str(v) => decode_value(caps, v, toks[pos].1, toks[pos].2),
            _ => Err(fault_at(place(toks[pos]), "expected a string"@)),
        }
    } else {
        Err(fault_here(toks, pos, "expected a string"@))
    }
}

/// The rest of a bracketed list from `pos` on, after the items `acc`: the
/// items and the position after the closing bracket.
pub open spec fn raw_items(toks: Seq<TokView>, pos: int, acc: Seq<Seq<char>>, max_items: usize) -> Result<
    (Seq<Seq<char>>, int),
    Fault,
>
    decreases toks.len() - pos,
{
    if pos >= toks.len() {
        Err(fault_here(toks, pos, "expected a string"@))
    } else {
        match toks[pos].0 {
            LexTok::Str(v) => {
                let items = acc.push(v);
                if items.len() > max_items {
                    Err(fault_here(toks, pos + 1, "list has too many items"@))
                } else if pos + 1 >= toks.len() {
                    Err(fault_here(toks, pos + 1, "expected ',' or ']'"@))
                } else {
                    match toks[pos + 1].0 {
                        LexTok::Comma => raw_items(toks, pos + 2, items, max_items),
                        LexTok::RBracket => Ok((items, pos + 2)),
                        _ => Err(fault_at(place(toks[pos + 1]), "expected ',' or ']'"@)),
                    }
                }
            },
            _ => Err(fault_at(place(toks[pos]), "expected a string"@)),
        }
    }
}

/// A string or a bracketed list of strings, undecoded, and the position
/// after it.
pub open spec fn raw_list(toks: Seq<TokView>, pos: int, max_items: usize) -> Result<(Seq<Seq<char>>, int), Fault> {
    if pos >= toks.len() {
        Err(fault_here(toks, pos, "expected a string or string list"@))
    } else {
        match toks[pos].0 {
            LexTok::Str(v) => Ok((seq![v], pos + 1)),
            LexTok::LBracket => raw_items(toks, pos + 1, Seq::empty(), max_items),
            _ => Err(fault_at(place(toks[pos]), "expected a string or string list"@)),
        }
    }
}

/// Each value decoded, in order; the first that fails is the error.
pub open spec fn decode_all(caps: Seq<Seq<char>>, values: Seq<Seq<char>>) -> Result<Seq<Seq<char>>, Fault>
    decreases values.len(),
{
    if values.len() == 0 {
        Ok(Seq::empty())
    } else {
        match decode_all(caps, values.drop_last()) {
            Err(f) => Err(f),
            Ok(done) => match decode_value(caps, values.last(), 0, 0) {
                Ok(d) => Ok(done.push(d)),
                Err(f) => Err(f),
            },
        }
    }
}

/// A string or a list of strings, decoded, and the position after it.
pub open spec fn string_list(toks: Seq<TokView>, caps: Seq<Seq<char>>, pos: int, max_items: usize) -> Result<
    (Seq<Seq<char>>, int),
    Fault,
> {
    match raw_list(toks, pos, max_items) {
        Err(f) => Err(f),
        Ok((values, next)) => match decode_all(caps, values) {
            Ok(decoded) => Ok((decoded, next)),
            Err(f) => Err(f),
        },
    }
}

/// A header name: printable ASCII other than `:` (code 58), at least one
/// character.
pub open spec fn valid_header_name(h: Seq<char>) -> bool {
    &&& h.len() > 0
    &&& forall|i: int| 0 <= i < h.len() ==> 33 <= (#[trigger] h[i]) as u32 <= 126 && h[i] as u32 != 58
}

/// The first name of the list that is no valid header name.
pub open spec fn first_invalid(names: Seq<Seq<char>>) -> Option<Seq<char>>
    decreases names.len(),
{
    if names.len() == 0 {
        None
    } else {
        match first_invalid(names.drop_last()) {
            Some(h) => Some(h),
            None => if valid_header_name(names.last()) {
                None
            } else {
                Some(names.last())
            },
        }
    }
}

/// A list of header names, and the position after it.
pub open spec fn header_list(
    toks: Seq<TokView>,
    caps: Seq<Seq<char>>,
    pos: int,
    max_items: usize,
    at: (usize, usize),
) -> Result<(Seq<Seq<char>>, int), Fault> {
    match string_list(toks, caps, pos, max_items) {
        Err(f) => Err(f),
        Ok((names, next)) => match first_invalid(names) {
            Some(h) => Err(fault_at(at, quoted_message("invalid header name \""@, h))),
            None => Ok((names, next)),
        },
    }
}

// ---------------------------------------------------------------------------
// Tests

/// The tag at `pos`, if the token there is one.
pub open spec fn tag_at(toks: Seq<TokView>, pos: int) -> Option<Seq<char>> {
    if 0 <= pos < toks.len() {
        match toks[pos].0 {
            LexTok::Tag(t) => Some(t),
            _ => None,
        }
    } else {
        None
    }
}

/// The match type a tag names.
pub open spec fn match_type_of(tag: Seq<char>) -> Option<MatchType> {
    if tag == "is"@ {
        Some(MatchType::Is)
    } else if tag == "contains"@ {
        Some(MatchType::Contains)
    } else if tag == "matches"@ {
        Some(MatchType::Matches)
    } else {
        None
    }
}

/// The address part a tag names.
pub open spec fn part_of(tag: Seq<char>) -> Option<AddressPart> {
    if tag == "all"@ {
        Some(AddressPart::All)
    } else if tag == "localpart"@ {
        Some(AddressPart::Localpart)
    } else if tag == "domain"@ {
        Some(AddressPart::Domain)
    } else {
        None
    }
}

/// The tags of a comparison from `pos` on, after those already read (the
/// match type, the comparator and, where `with_part`, the address part):
/// each with its default where absent, and the position after the tags.
pub open spec fn match_tags(
    toks: Seq<TokView>,
    caps: Seq<Seq<char>>,
    pos: int,
    at: (usize, usize),
    with_part: bool,
    mt: Option<MatchType>,
    comparator: Option<Comparator>,
    part: Option<AddressPart>,
) -> Result<((MatchType, Comparator, AddressPart), int), Fault>
    decreases toks.len() - pos,
{
    match tag_at(toks, pos) {
        None => Ok((
            (
                match mt {
                    Some(m) => m,
                    None => MatchType::Is,
                },
                match comparator {
                    Some(c) => c,
                    None => Comparator::AsciiCaseMap,
                },
                match part {
                    Some(p) => p,
                    None => AddressPart::All,
                },
            ),
            pos,
        )),
        Some(tag) => if match_type_of(tag) is Some {
            if mt is Some {
                Err(fault_at(at, "duplicate match type"@))
            } else {
                match_tags(toks, caps, pos + 1, at, with_part, match_type_of(tag), comparator, part)
            }
        } else if tag == "comparator"@ {
            if comparator is Some {
                Err(fault_at(at, "duplicate comparator"@))
            } else {
                match string_at(toks, caps, pos + 1) {
                    Err(f) => Err(f),
                    Ok(name) => if name == "i;octet"@ {
                        if caps.contains("comparator-i;octet"@) {
                            match_tags(toks, caps, pos + 2, at, with_part, mt, Some(Comparator::Octet), part)
                        } else {
                            Err(fault_at(at, need_message("comparator-i;octet"@)))
                        }
                    } else if name == "i;ascii-casemap"@ {
                        match_tags(toks, caps, pos + 2, at, with_part, mt, Some(Comparator::AsciiCaseMap), part)
                    } else {
                        Err(fault_at(at, quoted_message("unknown comparator \""@, name)))
                    },
                }
            }
        } else if with_part && part_of(tag) is Some {
            if part is Some {
                Err(fault_at(at, "duplicate address part"@))
            } else {
                match_tags(toks, caps, pos + 1, at, with_part, mt, comparator, part_of(tag))
            }
        } else {
            Err(fault_at(at, quoted_message("unknown tag \":"@, tag)))
        },
    }
}

/// Once a comparison has its comparator, the tags after it keep it.
proof fn lemma_match_tags_keep_comparator(
    toks: Seq<TokView>,
    caps: Seq<Seq<char>>,
    pos: int,
    at: (usize, usize),
    with_part: bool,
    mt: Option<MatchType>,
    comparator: Comparator,
    part: Option<AddressPart>,
)
    ensures
        match_tags(toks, caps, pos, at, with_part, mt, Some(comparator), part) matches Ok((tags, _))
            ==> tags.1 == comparator,
    decreases toks.len() - pos,
{
    if let Some(tag) = tag_at(toks, pos) {
        if match_type_of(tag) is Some {
            if mt is None {
                lemma_match_tags_keep_comparator(toks, caps, pos + 1, at, with_part, match_type_of(tag), comparator, part);
            }
        } else if tag != "comparator"@ && with_part && part_of(tag) is Some && part is None {
            lemma_match_tags_keep_comparator(toks, caps, pos + 1, at, with_part, mt, comparator, part_of(tag));
        }
    }
}

/// A `:comparator` tag at `pos` that names `name`.
pub open spec fn comparator_tag_at(toks: Seq<TokView>, caps: Seq<Seq<char>>, pos: int, name: Seq<char>) -> bool {
    tag_at(toks, pos) == Some("comparator"@) && string_at(toks, caps, pos + 1) == Ok::<Seq<char>, Fault>(name)
}

/// The comparator of a comparison. A `:comparator "i;ascii-casemap"` tag
/// gives the same comparator as a comparison without a comparator tag, the
/// ASCII case-insensitive one; a `:comparator "i;octet"` tag gives the octet
/// comparator; and the octet comparator comes from nothing but such a tag.
pub proof fn lemma_comparator_of_tags(
    toks: Seq<TokView>,
    caps: Seq<Seq<char>>,
    pos: int,
    at: (usize, usize),
    with_part: bool,
    mt: Option<MatchType>,
    part: Option<AddressPart>,
)
    ensures
        tag_at(toks, pos) is None ==> (match_tags(toks, caps, pos, at, with_part, mt, None, part) matches Ok(
            (tags, _),
        ) && tags.1 == Comparator::AsciiCaseMap),
        comparator_tag_at(toks, caps, pos, "i;ascii-casemap"@) ==> (match_tags(
            toks,
            caps,
            pos,
            at,
            with_part,
            mt,
            None,
            part,
        ) matches Ok((tags, _)) ==> tags.1 == Comparator::AsciiCaseMap),
        comparator_tag_at(toks, caps, pos, "i;octet"@) ==> (match_tags(
            toks,
            caps,
            pos,
            at,
            with_part,
            mt,
            None,
            part,
        ) matches Ok((tags, _)) ==> tags.1 == Comparator::Octet),
        match_tags(toks, caps, pos, at, with_part, mt, None, part) matches Ok((tags, _)) ==> (tags.1
            == Comparator::Octet ==> exists|j: int| pos <= j && #[trigger] comparator_tag_at(toks, caps, j, "i;octet"@)),
    decreases toks.len() - pos,
{
    reveal_strlit("comparator");
    reveal_strlit("i;ascii-casemap");
    reveal_strlit("i;octet");
    reveal_strlit("is");
    reveal_strlit("contains");
    reveal_strlit("matches");
    reveal_strlit("all");
    reveal_strlit("localpart");
    reveal_strlit("domain");
    // Tags and comparator names of different lengths differ.
    assert("comparator"@.len() == 10 && "is"@.len() == 2 && "i;octet"@.len() == 7);
    if let Some(tag) = tag_at(toks, pos) {
        if match_type_of(tag) is Some {
            if mt is None {
                lemma_comparator_of_tags(toks, caps, pos + 1, at, with_part, match_type_of(tag), part);
            }
        } else if tag == "comparator"@ {
            match string_at(toks, caps, pos + 1) {
                Ok(name) => {
                    if name == "i;octet"@ {
                        lemma_match_tags_keep_comparator(toks, caps, pos + 2, at, with_part, mt, Comparator::Octet, part);
                        assert(comparator_tag_at(toks, caps, pos, "i;octet"@));
                    } else if name == "i;ascii-casemap"@ {
                        lemma_match_tags_keep_comparator(
                            toks,
                            caps,
                            pos + 2,
                            at,
                            with_part,
                            mt,
                            Comparator::AsciiCaseMap,
                            part,
                        );
                    }
                },
                Err(_) => {},
            }
        } else if with_part && part_of(tag) is Some && part is None {
            lemma_comparator_of_tags(toks, caps, pos + 1, at, with_part, mt, part_of(tag));
        }
    }
}

/// The `:over` or `:under` tag of a size test from `pos` on, and the
/// position after the tags.
pub open spec fn size_tags(toks: Seq<TokView>, pos: int, at: (usize, usize), over: Option<bool>) -> Result<
    (bool, int),
    Fault,
>
    decreases toks.len() - pos,
{
    match tag_at(toks, pos) {
        None => match over {
            Some(o) => Ok((o, pos)),
            None => Err(fault_at(at, "size requires :over or :under"@)),
        },
        Some(tag) => if tag == "over"@ || tag == "under"@ {
            if over is Some {
                Err(fault_at(at, "duplicate size tag"@))
            } else {
                size_tags(toks, pos + 1, at, Some(tag == "over"@))
            }
        } else {
            Err(fault_at(at, quoted_message("unknown tag \":"@, tag)))
        },
    }
}

/// The envelope parts that the names stand for, in order.
pub open spec fn envelope_parts(names: Seq<Seq<char>>, at: (usize, usize)) -> Result<Seq<EnvelopePart>, Fault>
    decreases names.len(),
{
    if names.len() == 0 {
        Ok(Seq::empty())
    } else {
        match envelope_parts(names.drop_last(), at) {
            Err(f) => Err(f),
            Ok(parts) => {
                let name = lower_chars(names.last());
                if name == "from"@ {
                    Ok(parts.push(EnvelopePart::From))
                } else if name == "to"@ {
                    Ok(parts.push(EnvelopePart::To))
                } else {
                    Err(fault_at(at, quoted_message("unsupported envelope part \""@, names.last())))
                }
            },
        }
    }
}

/// A test named `w` whose arguments start at `pos`: the test and the
/// position after it. `at` is where the name stands.
pub open spec fn leaf_test(
    toks: Seq<TokView>,
    caps: Seq<Seq<char>>,
    max_items: usize,
    pos: int,
    at: (usize, usize),
    w: Seq<char>,
    negate: bool,
) -> Result<(TestView, int), Fault> {
    if w == "true"@ || w == "false"@ {
        Ok((TestView::Bool((w == "true"@) != negate), pos))
    } else if w == "exists"@ {
        match header_list(toks, caps, pos, max_items, at) {
            Err(f) => Err(f),
            Ok((headers, p)) => Ok((TestView::Exists { headers, is_not: negate }, p)),
        }
    } else if w == "size"@ {
        match size_tags(toks, pos, at, None) {
            Err(f) => Err(f),
            Ok((over, p)) => if p < toks.len() && toks[p].0 is Number {
                Ok((TestView::Size { over, limit: toks[p].0->Number_0, is_not: negate }, p + 1))
            } else {
                Err(fault_at(at, "size requires a number"@))
            },
        }
    } else if w == "header"@ || w == "address"@ {
        match match_tags(toks, caps, pos, at, w == "address"@, None, None, None) {
            Err(f) => Err(f),
            Ok(((match_type, comparator, part), p1)) => match header_list(toks, caps, p1, max_items, at) {
                Err(f) => Err(f),
                Ok((headers, p2)) => match string_list(toks, caps, p2, max_items) {
                    Err(f) => Err(f),
                    Ok((keys, p3)) => if w == "header"@ {
                        Ok((TestView::Header { headers, keys, match_type, comparator, is_not: negate }, p3))
                    } else {
                        Ok((TestView::Address { headers, keys, part, match_type, comparator, is_not: negate }, p3))
                    },
                },
            },
        }
    } else if w == "envelope"@ {
        if !caps.contains("envelope"@) {
            Err(fault_at(at, need_message("envelope"@)))
        } else {
            match match_tags(toks, caps, pos, at, true, None, None, None) {
                Err(f) => Err(f),
                Ok(((match_type, comparator, part), p1)) => match string_list(toks, caps, p1, max_items) {
                    Err(f) => Err(f),
                    Ok((names, p2)) => match envelope_parts(names, at) {
                        Err(f) => Err(f),
                        Ok(parts) => match string_list(toks, caps, p2, max_items) {
                            Err(f) => Err(f),
                            Ok((keys, p3)) => Ok((
                                TestView::Envelope { parts, keys, part, match_type, comparator, is_not: negate },
                                p3,
                            )),
                        },
                    },
                },
            }
        }
    } else {
        Err(fault_at(at, quoted_message("unknown test \""@, w)))
    }
}

// ---------------------------------------------------------------------------
// The compiler's state

/// A block of an `if` chain that is still open: the `jz` that skips its
/// body, unless it is an `else`, and the jumps out of the bodies before it.
pub struct BlockView {
    pub jz_at: Option<usize>,
    pub chain: Seq<usize>,
}

/// What the compiler has read and written so far.
pub struct PState {
    pub pos: int,
    pub ins: Seq<InsView>,
    pub caps: Seq<Seq<char>>,
    pub started: bool,
    pub blocks: Seq<BlockView>,
}

/// A test at `st.pos`, `not` folded into its leaves, written after the
/// instructions so far. `depth` counts the tests it is nested in.
pub open spec fn test_expr(toks: Seq<TokView>, lim: CompilerLimits, st: PState, negate: bool, depth: int) -> Result<
    PState,
    Fault,
>
    decreases lim.max_nested_tests - depth, 1int, toks.len() - st.pos,
{
    if depth >= lim.max_nested_tests {
        Err(fault_here(toks, st.pos, "tests are nested too deeply"@))
    } else if st.pos >= toks.len() {
        Err(fault_here(toks, st.pos, "expected a test"@))
    } else {
        let at = place(toks[st.pos]);
        let next = PState { pos: st.pos + 1, ..st };
        match toks[st.pos].0 {
            LexTok::Identifier(w) => if w == "not"@ {
                test_expr(toks, lim, next, !negate, depth + 1)
            } else if w == "allof"@ || w == "anyof"@ {
                match expect_at(toks, st.pos + 1, LexTok::LParen, "'('"@) {
                    Err(f) => Err(f),
                    Ok(_) => group(
                        toks,
                        lim,
                        PState { pos: st.pos + 2, ..st },
                        negate,
                        depth,
                        (w == "allof"@) != negate,
                        Seq::empty(),
                    ),
                }
            } else {
                match leaf_test(toks, st.caps, lim.max_list_items, st.pos + 1, at, w, negate) {
                    Err(f) => Err(f),
                    Ok((t, p)) => Ok(PState { pos: p, ins: st.ins.push(InsView::Test(t)), ..st }),
                }
            },
            _ => Err(fault_at(at, "expected a test"@)),
        }
    }
}

/// The tests of an `allof` or `anyof` from `st.pos` on: each followed by a
/// jump past the group when it decides the whole (`jz` for `allof`, `jnz`
/// for `anyof`), the jumps of the tests before in `jumps`.
pub open spec fn group(
    toks: Seq<TokView>,
    lim: CompilerLimits,
    st: PState,
    negate: bool,
    depth: int,
    is_all: bool,
    jumps: Seq<usize>,
) -> Result<PState, Fault>
    decreases lim.max_nested_tests - depth, 0int, toks.len() - st.pos,
{
    // A group is only opened below the nesting limit.
    if depth >= lim.max_nested_tests {
        Err(fault_here(toks, st.pos, "tests are nested too deeply"@))
    } else {
        match test_expr(toks, lim, st, negate, depth + 1) {
            Err(f) => Err(f),
            // A test reads at least one token and never past the end; the
            // first case cannot arise and only bounds the recursion.
            Ok(s1) => if s1.pos <= st.pos || s1.pos > toks.len() {
                Ok(s1)
            } else if s1.pos == toks.len() {
                Err(fault_here(toks, s1.pos, "expected ',' or ')'"@))
            } else {
                match toks[s1.pos].0 {
                    LexTok::Comma => group(
                        toks,
                        lim,
                        PState {
                            pos: s1.pos + 1,
                            ins: s1.ins.push(if is_all { InsView::Jz(unset()) } else { InsView::Jnz(unset()) }),
                            ..s1
                        },
                        negate,
                        depth,
                        is_all,
                        jumps.push(s1.ins.len() as usize),
                    ),
                    LexTok::RParen => Ok(
                        PState { pos: s1.pos + 1, ins: patch_all(s1.ins, jumps, s1.ins.len() as usize), ..s1 },
                    ),
                    _ => Err(fault_at(place(toks[s1.pos]), "expected ',' or ')'"@)),
                }
            },
        }
    }
}

// ---------------------------------------------------------------------------
// Commands

/// The capabilities a script may require.
pub open spec fn known_cap(name: Seq<char>) -> bool {
    name == "fileinto"@ || name == "envelope"@ || name == "imap4flags"@ || name == "encoded-character"@
        || name == "comparator-i;octet"@ || name == "comparator-i;ascii-casemap"@
}

/// The capabilities after those of a `require` were added, each once.
pub open spec fn add_caps(caps: Seq<Seq<char>>, names: Seq<Seq<char>>, at: (usize, usize)) -> Result<
    Seq<Seq<char>>,
    Fault,
>
    decreases names.len(),
{
    if names.len() == 0 {
        Ok(caps)
    } else {
        match add_caps(caps, names.drop_last(), at) {
            Err(f) => Err(f),
            Ok(c) => if !known_cap(names.last()) {
                Err(fault_at(at, quoted_message("unknown capability \""@, names.last())))
            } else if c.contains(names.last()) {
                Ok(c)
            } else {
                Ok(c.push(names.last()))
            },
        }
    }
}

/// The words of flag arguments, split on ASCII white space, in order.
pub open spec fn flag_words(entries: Seq<Seq<char>>) -> Seq<Seq<char>>
    decreases entries.len(),
{
    if entries.len() == 0 {
        Seq::empty()
    } else {
        flag_words(entries.drop_last()) + ascii_words(entries.last())
    }
}

/// A command with no argument: the `;` after it, then the instruction.
pub open spec fn simple_command(toks: Seq<TokView>, st: PState, ins: InsView) -> Result<PState, Fault> {
    match expect_at(toks, st.pos, LexTok::Semicolon, "';'"@) {
        Err(f) => Err(f),
        Ok(_) => Ok(PState { pos: st.pos + 1, ins: st.ins.push(ins), started: true, ..st }),
    }
}

/// `require`: its capabilities are added, each once; it must come before
/// every other command.
pub open spec fn require_command(toks: Seq<TokView>, lim: CompilerLimits, st: PState, at: (usize, usize)) -> Result<
    PState,
    Fault,
> {
    if st.started || st.blocks.len() > 0 {
        Err(fault_at(at, "require must precede all other commands"@))
    } else {
        match raw_list(toks, st.pos, lim.max_list_items) {
            Err(f) => Err(f),
            Ok((names, p)) => match add_caps(st.caps, names, at) {
                Err(f) => Err(f),
                Ok(caps) => match expect_at(toks, p, LexTok::Semicolon, "';'"@) {
                    Err(f) => Err(f),
                    Ok(_) => Ok(PState { pos: p + 1, caps, ..st }),
                },
            },
        }
    }
}

/// `if`: its test, then a `jz` past the block that opens.
pub open spec fn if_command(toks: Seq<TokView>, lim: CompilerLimits, st: PState, at: (usize, usize)) -> Result<
    PState,
    Fault,
> {
    if st.blocks.len() >= lim.max_nested_blocks {
        Err(fault_at(at, "blocks are nested too deeply"@))
    } else {
        match test_expr(toks, lim, PState { started: true, ..st }, false, 0) {
            Err(f) => Err(f),
            Ok(s1) => match expect_at(toks, s1.pos, LexTok::LBrace, "'{'"@) {
                Err(f) => Err(f),
                Ok(_) => Ok(
                    PState {
                        pos: s1.pos + 1,
                        ins: s1.ins.push(InsView::Jz(unset())),
                        blocks: s1.blocks.push(BlockView { jz_at: Some(s1.ins.len() as usize), chain: Seq::empty() }),
                        ..s1
                    },
                ),
            },
        }
    }
}

/// `fileinto` or `redirect` (`is_file`): its string, then `;`.
pub open spec fn store_command(toks: Seq<TokView>, st: PState, is_file: bool, at: (usize, usize)) -> Result<
    PState,
    Fault,
> {
    if is_file && !st.caps.contains("fileinto"@) {
        Err(fault_at(at, need_message("fileinto"@)))
    } else {
        match string_at(toks, st.caps, st.pos) {
            Err(f) => Err(f),
            Ok(v) => match expect_at(toks, st.pos + 1, LexTok::Semicolon, "';'"@) {
                Err(f) => Err(f),
                Ok(_) => Ok(
                    PState {
                        pos: st.pos + 2,
                        ins: st.ins.push(if is_file { InsView::FileInto(v) } else { InsView::Redirect(v) }),
                        started: true,
                        ..st
                    },
                ),
            },
        }
    }
}

/// `addflag`, `setflag` or `removeflag`, named `w`: its flags, then `;`.
pub open spec fn flag_command(toks: Seq<TokView>, lim: CompilerLimits, st: PState, w: Seq<char>, at: (usize, usize)) -> Result<
    PState,
    Fault,
> {
    if !st.caps.contains("imap4flags"@) {
        Err(fault_at(at, need_message("imap4flags"@)))
    } else {
        match string_list(toks, st.caps, st.pos, lim.max_list_items) {
            Err(f) => Err(f),
            Ok((entries, p)) => match expect_at(toks, p, LexTok::Semicolon, "';'"@) {
                Err(f) => Err(f),
                Ok(_) => {
                    let flags = flag_words(entries);
                    Ok(
                        PState {
                            pos: p + 1,
                            ins: st.ins.push(
                                if w == "addflag"@ {
                                    InsView::AddFlag(flags)
                                } else if w == "setflag"@ {
                                    InsView::SetFlag(flags)
                                } else {
                                    InsView::RemoveFlag(flags)
                                },
                            ),
                            started: true,
                            ..st
                        },
                    )
                },
            },
        }
    }
}

/// A command named `w` whose arguments start at `st.pos`. `at` is where
/// the name stands.
#[verifier::opaque]
pub open spec fn command(toks: Seq<TokView>, lim: CompilerLimits, st: PState, w: Seq<char>, at: (usize, usize)) -> Result<
    PState,
    Fault,
> {
    if w == "require"@ {
        require_command(toks, lim, st, at)
    } else if w == "if"@ {
        if_command(toks, lim, st, at)
    } else if w == "elsif"@ || w == "else"@ {
        Err(fault_at(at, w + " without a preceding if"@))
    } else if w == "stop"@ {
        simple_command(toks, st, InsView::Stop)
    } else if w == "keep"@ {
        simple_command(toks, st, InsView::Keep)
    } else if w == "discard"@ {
        simple_command(toks, st, InsView::Discard)
    } else if w == "fileinto"@ || w == "redirect"@ {
        store_command(toks, st, w == "fileinto"@, at)
    } else if w == "addflag"@ || w == "setflag"@ || w == "removeflag"@ {
        flag_command(toks, lim, st, w, at)
    } else {
        Err(fault_at(at, quoted_message("unknown command \""@, w)))
    }
}

/// The word at `pos` continues an `if` chain: `Some(true)` for `elsif`,
/// `Some(false)` for `else`.
pub open spec fn continuation(toks: Seq<TokView>, pos: int) -> Option<bool> {
    if 0 <= pos < toks.len() {
        match toks[pos].0 {
            LexTok::Identifier(w) => if w == "elsif"@ {
                Some(true)
            } else if w == "else"@ {
                Some(false)
            } else {
                None
            },
            _ => None,
        }
    } else {
        None
    }
}

/// A `}` at `at`: the innermost block closes, its jumps pointed past it, or
/// an `elsif` or `else` chains a new body to it.
#[verifier::opaque]
pub open spec fn close_block(toks: Seq<TokView>, lim: CompilerLimits, st: PState, at: (usize, usize)) -> Result<
    PState,
    Fault,
> {
    if st.blocks.len() == 0 {
        Err(fault_at(at, "'}' without an open block"@))
    } else {
        let b = st.blocks.last();
        let rest = st.blocks.drop_last();
        match continuation(toks, st.pos) {
            None => {
                let target = st.ins.len() as usize;
                let ins1 = match b.jz_at {
                    Some(j) => patch_one(st.ins, j, target),
                    None => st.ins,
                };
                Ok(PState { ins: patch_all(ins1, b.chain, target), blocks: rest, ..st })
            },
            Some(is_elsif) => match b.jz_at {
                None => Err(fault_here(toks, st.pos, "else block cannot be followed by another branch"@)),
                Some(jz) => {
                    let ins1 = st.ins.push(InsView::Jmp(unset()));
                    let ins2 = patch_one(ins1, jz, ins1.len() as usize);
                    let chain = b.chain.push(st.ins.len() as usize);
                    if is_elsif {
                        match test_expr(toks, lim, PState { pos: st.pos + 1, ins: ins2, blocks: rest, ..st }, false, 0) {
                            Err(f) => Err(f),
                            Ok(s1) => match expect_at(toks, s1.pos, LexTok::LBrace, "'{'"@) {
                                Err(f) => Err(f),
                                Ok(_) => Ok(
                                    PState {
                                        pos: s1.pos + 1,
                                        ins: s1.ins.push(InsView::Jz(unset())),
                                        blocks: rest.push(BlockView { jz_at: Some(s1.ins.len() as usize), chain }),
                                        ..s1
                                    },
                                ),
                            },
                        }
                    } else {
                        match expect_at(toks, st.pos + 1, LexTok::LBrace, "'{'"@) {
                            Err(f) => Err(f),
                            Ok(_) => Ok(
                                PState {
                                    pos: st.pos + 2,
                                    ins: ins2,
                                    blocks: rest.push(BlockView { jz_at: None, chain }),
                                    ..st
                                },
                            ),
                        }
                    }
                },
            },
        }
    }
}

/// The commands from `st.pos` to the end of the script; every block must be
/// closed by then.
pub open spec fn run_commands(toks: Seq<TokView>, lim: CompilerLimits, st: PState) -> Result<PState, Fault>
    decreases toks.len() - st.pos,
{
    if st.pos >= toks.len() {
        if st.blocks.len() > 0 {
            Err(fault_here(toks, st.pos, "unclosed block at end of script"@))
        } else {
            Ok(st)
        }
    } else {
        let at = place(toks[st.pos]);
        let next = PState { pos: st.pos + 1, ..st };
        let r = match toks[st.pos].0 {
            LexTok::Identifier(w) => command(toks, lim, next, w, at),
            LexTok::RBrace => close_block(toks, lim, next, at),
            _ => Err(fault_at(at, "expected a command"@)),
        };
        match r {
            Err(f) => Err(f),
            // A command reads at least its name and never past the end; the
            // first case cannot arise and only bounds the recursion.
            Ok(s1) => if s1.pos <= st.pos || s1.pos > toks.len() {
                Ok(s1)
            } else {
                run_commands(toks, lim, s1)
            },
        }
    }
}

/// A script's tokens compiled: its instructions and the capabilities it
/// required, in the order first named.
pub open spec fn compiled(toks: Seq<TokView>, lim: CompilerLimits) -> Result<(Seq<InsView>, Seq<Seq<char>>), Fault> {
    match run_commands(
        toks,
        lim,
        PState { pos: 0, ins: Seq::empty(), caps: Seq::empty(), started: false, blocks: Seq::empty() },
    ) {
        Ok(s) => Ok((s.ins, s.caps)),
        Err(f) => Err(f),
    }
}

} // verus!
