use vstd::prelude::*;
use crate::sieve::error::CompileError;
use crate::sieve::instruction::{AddressPart, Comparator, EnvelopePart, Instruction, MatchType, Test};
use crate::sieve::lexer::{tok_view, token_views, LexTok, Tok, Token};
use crate::sieve::runtime::strs;
use crate::sieve::script::CompilerLimits;
use crate::sieve::string::{ascii_words, decode_encoded_characters, split_ascii_words};
use crate::sieve::syntax::{
    add_caps,
    close_block,
    command,
    compiled,
    flag_command,
    if_command,
    require_command,
    store_command,
    decode_all,
    decode_value,
    envelope_parts,
    expect_at,
    fault_at,
    fault_here,
    first_invalid,
    flag_words,
    group,
    header_list,
    ins_view,
    ins_views,
    known_cap,
    leaf_test,
    match_tags,
    need_message,
    patch_all,
    patch_one,
    place,
    quoted_message,
    raw_items,
    raw_list,
    retarget_view,
    run_commands,
    simple_command,
    size_tags,
    string_at,
    string_list,
    tag_at,
    test_expr,
    test_view,
    unset,
    valid_header_name,
    BlockView,
    Fault,
    InsView,
    PState,
    TokView,
};
use crate::text::{chars_of, lower_vec, push_str, str_eq, string_of_chars};

verus! {

/// The instructions of a compiled script and the capabilities it required.
#[derive(Debug)]
pub struct Program {
    pub instructions: Vec<Instruction>,
    pub capabilities: Vec<String>,
}

/// The target of a jump instruction.
pub open spec fn jump_target(ins: Instruction) -> Option<usize> {
    match ins {
        Instruction::Jmp(t) => Some(t),
        Instruction::Jz(t) => Some(t),
        Instruction::Jnz(t) => Some(t),
        _ => None,
    }
}

/// The instruction at `i` is no jump, or jumps forward to a position within
/// the program (its end included).
pub open spec fn forward_at(ins: Seq<Instruction>, i: int) -> bool {
    match jump_target(ins[i]) {
        Some(t) => i < t <= ins.len(),
        None => true,
    }
}

/// Every jump of the program goes forward and stays within it.
pub open spec fn all_forward(ins: Seq<Instruction>) -> bool {
    forall|i: int| 0 <= i < ins.len() ==> forward_at(ins, i)
}

/// The same jump with another target.
pub open spec fn retarget(ins: Instruction, target: usize) -> Instruction {
    match ins {
        Instruction::Jmp(_) => Instruction::Jmp(target),
        Instruction::Jz(_) => Instruction::Jz(target),
        Instruction::Jnz(_) => Instruction::Jnz(target),
        other => other,
    }
}

/// No two capabilities are the same.
pub open spec fn distinct_names(caps: Seq<String>) -> bool {
    forall|i: int, j: int| 0 <= i < j < caps.len() ==> (#[trigger] caps[i])@ != (#[trigger] caps[j])@
}

/// A block of an `if` chain that is still open: the `jz` that skips its
/// body, unless it is an `else`, and the jumps out of the bodies before it.
struct OpenBlock {
    jz_at: Option<usize>,
    chain_jmps: Vec<usize>,
}

spec fn in_block(b: OpenBlock, i: int) -> bool {
    b.jz_at == Some(i as usize) || b.chain_jmps@.contains(i as usize)
}

spec fn pending(blocks: Seq<OpenBlock>, i: int) -> bool {
    exists|k: int| 0 <= k < blocks.len() && in_block(#[trigger] blocks[k], i)
}

/// The jumps a block waits to patch are jumps of the program.
spec fn block_ok(b: OpenBlock, ins: Seq<Instruction>) -> bool {
    &&& (b.jz_at matches Some(j) ==> j < ins.len() && jump_target(ins[j as int]) is Some)
    &&& forall|k: int| 0 <= k < b.chain_jmps@.len() ==> (#[trigger] b.chain_jmps@[k]) < ins.len()
        && jump_target(ins[b.chain_jmps@[k] as int]) is Some
}

/// Every jump goes forward within the program or waits in an open block,
/// and what the blocks wait for are jumps.
spec fn jumps_ok(ins: Seq<Instruction>, blocks: Seq<OpenBlock>) -> bool {
    &&& forall|i: int| 0 <= i < ins.len() ==> forward_at(ins, i) || pending(blocks, i)
    &&& forall|k: int| 0 <= k < blocks.len() ==> block_ok(#[trigger] blocks[k], ins)
}

/// Instructions added after a prefix, each jump among them forward, keep
/// the jumps in order.
proof fn lemma_grow(old_ins: Seq<Instruction>, new_ins: Seq<Instruction>, blocks: Seq<OpenBlock>)
    requires
        jumps_ok(old_ins, blocks),
        old_ins.len() <= new_ins.len(),
        forall|i: int| 0 <= i < old_ins.len() ==> new_ins[i] == old_ins[i],
        forall|i: int| old_ins.len() <= i < new_ins.len() ==> forward_at(new_ins, i),
    ensures
        jumps_ok(new_ins, blocks),
{
    assert forall|i: int| 0 <= i < new_ins.len() implies forward_at(new_ins, i) || pending(blocks, i) by {
        if i < old_ins.len() {
            assert(new_ins[i] == old_ins[i]);
            if forward_at(old_ins, i) {
                assert(forward_at(new_ins, i));
            }
        }
    }
    assert forall|k: int| 0 <= k < blocks.len() implies block_ok(#[trigger] blocks[k], new_ins) by {
        let b = blocks[k];
        assert(block_ok(b, old_ins));
        if let Some(j) = b.jz_at {
            assert(new_ins[j as int] == old_ins[j as int]);
        }
        assert forall|m: int| 0 <= m < b.chain_jmps@.len() implies (#[trigger] b.chain_jmps@[m]) < new_ins.len()
            && jump_target(new_ins[b.chain_jmps@[m] as int]) is Some by {
            assert(new_ins[b.chain_jmps@[m] as int] == old_ins[b.chain_jmps@[m] as int]);
        }
    }
}

struct Parser<'a> {
    tokens: Vec<Token>,
    pos: usize,
    limits: &'a CompilerLimits,
    instructions: Vec<Instruction>,
    capabilities: Vec<String>,
    commands_started: bool,
    blocks: Vec<OpenBlock>,
}

/// An error as line, column and message.
pub open spec fn fault(e: CompileError) -> Fault {
    (e.line, e.column, e.message@)
}

/// The open blocks, each with the jumps it waits to patch.
spec fn block_views(blocks: Seq<OpenBlock>) -> Seq<BlockView> {
    blocks.map_values(|b: OpenBlock| BlockView { jz_at: b.jz_at, chain: b.chain_jmps@ })
}

proof fn lemma_ins_push(s: Seq<Instruction>, x: Instruction)
    ensures
        ins_views(s.push(x)) == ins_views(s).push(ins_view(x)),
{
    assert(ins_views(s.push(x)) =~= ins_views(s).push(ins_view(x)));
}

proof fn lemma_strs_push(v: Seq<String>, x: String)
    ensures
        strs(v.push(x)) == strs(v).push(x@),
{
    assert(strs(v.push(x)) =~= strs(v).push(x@));
}

proof fn lemma_blocks_push(bs: Seq<OpenBlock>, b: OpenBlock)
    ensures
        block_views(bs.push(b)) == block_views(bs).push(BlockView { jz_at: b.jz_at, chain: b.chain_jmps@ }),
{
    assert(block_views(bs.push(b)) =~= block_views(bs).push(BlockView { jz_at: b.jz_at, chain: b.chain_jmps@ }));
}

/// An error while decoding a prefix of the values is the error of the whole.
proof fn lemma_decode_all_prefix(caps: Seq<Seq<char>>, values: Seq<Seq<char>>, n: int)
    requires
        0 <= n <= values.len(),
        decode_all(caps, values.take(n)) is Err,
    ensures
        decode_all(caps, values) == decode_all(caps, values.take(n)),
    decreases values.len(),
{
    if n == values.len() {
        assert(values.take(n) =~= values);
    } else {
        assert(values.drop_last().take(n) =~= values.take(n));
        lemma_decode_all_prefix(caps, values.drop_last(), n);
    }
}

proof fn lemma_blocks_pop(bs: Seq<OpenBlock>)
    requires
        bs.len() > 0,
    ensures
        block_views(bs.drop_last()) == block_views(bs).drop_last(),
        block_views(bs).last() == (BlockView { jz_at: bs.last().jz_at, chain: bs.last().chain_jmps@ }),
{
    assert(block_views(bs.drop_last()) =~= block_views(bs).drop_last());
}

/// An unknown capability in a prefix is the error of the whole.
proof fn lemma_add_caps_prefix(caps: Seq<Seq<char>>, names: Seq<Seq<char>>, n: int, at: (usize, usize))
    requires
        0 <= n <= names.len(),
        add_caps(caps, names.take(n), at) is Err,
    ensures
        add_caps(caps, names, at) == add_caps(caps, names.take(n), at),
    decreases names.len(),
{
    if n == names.len() {
        assert(names.take(n) =~= names);
    } else {
        assert(names.drop_last().take(n) =~= names.take(n));
        lemma_add_caps_prefix(caps, names.drop_last(), n, at);
    }
}

/// An unsupported name in a prefix is the error of the whole.
proof fn lemma_envelope_parts_prefix(names: Seq<Seq<char>>, n: int, at: (usize, usize))
    requires
        0 <= n <= names.len(),
        envelope_parts(names.take(n), at) is Err,
    ensures
        envelope_parts(names, at) == envelope_parts(names.take(n), at),
    decreases names.len(),
{
    if n == names.len() {
        assert(names.take(n) =~= names);
    } else {
        assert(names.drop_last().take(n) =~= names.take(n));
        lemma_envelope_parts_prefix(names.drop_last(), n, at);
    }
}

/// An invalid name in a prefix is the first invalid name of the whole.
proof fn lemma_first_invalid_prefix(names: Seq<Seq<char>>, n: int)
    requires
        0 <= n <= names.len(),
        first_invalid(names.take(n)) is Some,
    ensures
        first_invalid(names) == first_invalid(names.take(n)),
    decreases names.len(),
{
    if n == names.len() {
        assert(names.take(n) =~= names);
    } else {
        assert(names.drop_last().take(n) =~= names.take(n));
        lemma_first_invalid_prefix(names.drop_last(), n);
    }
}

fn err_at(token: &Token, message: &str) -> (e: CompileError)
    ensures
        e.line == token.line,
        e.column == token.col,
        e.message@ == message@,
{
    CompileError::at(token.line, token.col, message)
}

/// An error at a line and column.
fn err_place(at: (usize, usize), message: &str) -> (e: CompileError)
    ensures
        fault(e) == fault_at(at, message@),
{
    CompileError::at(at.0, at.1, message)
}

/// `a`, then `b`, then `c`.
fn concat3(a: &str, b: &str, c: &str) -> (s: String)
    ensures
        s@ == a@ + b@ + c@,
{
    let mut s = String::new();
    push_str(&mut s, a);
    push_str(&mut s, b);
    push_str(&mut s, c);
    s
}

/// A punctuation mark.
spec fn is_punct(t: LexTok) -> bool {
    !(t is Identifier || t is Tag || t is Number || t is Str)
}

/// Whether two tokens are the same punctuation mark.
fn same_punct(a: &Tok, b: &Tok) -> (r: bool)
    ensures
        is_punct(tok_view(*b)) ==> (r <==> tok_view(*a) == tok_view(*b)),
{
    match (a, b) {
        (Tok::LParen, Tok::LParen) => true,
        (Tok::RParen, Tok::RParen) => true,
        (Tok::LBrace, Tok::LBrace) => true,
        (Tok::RBrace, Tok::RBrace) => true,
        (Tok::LBracket, Tok::LBracket) => true,
        (Tok::RBracket, Tok::RBracket) => true,
        (Tok::Comma, Tok::Comma) => true,
        (Tok::Semicolon, Tok::Semicolon) => true,
        _ => false,
    }
}

impl<'a> Parser<'a> {
    /// Every jump either goes forward within the program or waits in an
    /// open block; the capabilities are distinct.
    spec fn wf(&self) -> bool {
        &&& self.pos <= self.tokens@.len()
        &&& jumps_ok(self.instructions@, self.blocks@)
        &&& distinct_names(self.capabilities@)
    }

    /// Nothing but the position changed.
    spec fn stable(self, other: Self) -> bool {
        &&& other.tokens == self.tokens
        &&& other.limits == self.limits
        &&& other.instructions == self.instructions
        &&& other.capabilities == self.capabilities
        &&& other.commands_started == self.commands_started
        &&& other.blocks == self.blocks
        &&& self.pos <= other.pos <= other.tokens@.len()
    }

    /// Only instructions were added, each jump among them forward.
    spec fn extended(self, other: Self) -> bool {
        &&& other.tokens == self.tokens
        &&& other.limits == self.limits
        &&& other.capabilities == self.capabilities
        &&& other.commands_started == self.commands_started
        &&& other.blocks == self.blocks
        &&& self.pos <= other.pos <= other.tokens@.len()
        &&& self.instructions@.len() <= other.instructions@.len()
        &&& forall|i: int| 0 <= i < self.instructions@.len() ==> other.instructions@[i] == self.instructions@[i]
        &&& forall|i: int| self.instructions@.len() <= i < other.instructions@.len() ==> forward_at(other.instructions@, i)
    }

    /// The tokens as the compiler reads them.
    spec fn toks(&self) -> Seq<TokView> {
        token_views(self.tokens@)
    }

    /// What the compiler has read and written so far.
    spec fn state(&self) -> PState {
        PState {
            pos: self.pos as int,
            ins: ins_views(self.instructions@),
            caps: strs(self.capabilities@),
            started: self.commands_started,
            blocks: block_views(self.blocks@),
        }
    }

    fn advance(&mut self) -> (i: Option<usize>)
        requires
            old(self).pos <= old(self).tokens@.len(),
        ensures
            old(self).stable(*final(self)),
            match i {
                Some(k) => k == old(self).pos && k < old(self).tokens@.len() && final(self).pos == k + 1
                    && old(self).toks()[k as int] == (
                    tok_view(old(self).tokens@[k as int].tok),
                    old(self).tokens@[k as int].line,
                    old(self).tokens@[k as int].col,
                ),
                None => old(self).pos == old(self).tokens@.len() && final(self).pos == old(self).pos,
            },
    {
        if self.pos < self.tokens.len() {
            self.pos = self.pos + 1;
            Some(self.pos - 1)
        } else {
            None
        }
    }

    /// An error at the current token (or the last one, or the start).
    fn err(&self, message: &str) -> (e: CompileError)
        requires
            self.pos <= self.tokens@.len(),
        ensures
            fault(e) == fault_here(self.toks(), self.pos as int, message@),
    {
        let n = self.tokens.len();
        if n == 0 {
            return CompileError::at(1, 1, message);
        }
        let i = if self.pos < n - 1 {
            self.pos
        } else {
            n - 1
        };
        assert(self.toks()[i as int] == (tok_view(self.tokens@[i as int].tok), self.tokens@[i as int].line, self.tokens@[i as int].col));
        err_at(&self.tokens[i], message)
    }

    fn expect(&mut self, expected: &Tok, description: &str) -> (r: Result<(), CompileError>)
        requires
            old(self).pos <= old(self).tokens@.len(),
            is_punct(tok_view(*expected)),
        ensures
            old(self).stable(*final(self)),
            r is Ok ==> final(self).pos > old(self).pos,
            match expect_at(old(self).toks(), old(self).pos as int, tok_view(*expected), description@) {
                Ok(_) => r is Ok && final(self).pos == old(self).pos + 1,
                Err(f) => r matches Err(e) && fault(e) == f,
            },
    {
        proof {
            reveal_strlit("");
        }
        match self.advance() {
            Some(i) => {
                if same_punct(&self.tokens[i].tok, expected) {
                    Ok(())
                } else {
                    let message = concat3("expected ", description, "");
                    assert(message@ =~= "expected "@ + description@);
                    Err(err_at(&self.tokens[i], message.as_str()))
                }
            },
            None => {
                let message = concat3("expected ", description, "");
                assert(message@ =~= "expected "@ + description@);
                Err(self.err(message.as_str()))
            },
        }
    }

    fn has_capability(&self, name: &str) -> (r: bool)
        ensures
            r == exists|i: int| 0 <= i < self.capabilities@.len() && (#[trigger] self.capabilities@[i])@ == name@,
            r == strs(self.capabilities@).contains(name@),
    {
        let mut i: usize = 0;
        while i < self.capabilities.len()
            invariant
                i <= self.capabilities@.len(),
                forall|j: int| 0 <= j < i ==> (#[trigger] self.capabilities@[j])@ != name@,
            decreases self.capabilities@.len() - i,
        {
            if str_eq(self.capabilities[i].as_str(), name) {
                assert(strs(self.capabilities@)[i as int] == name@);
                return true;
            }
            i += 1;
        }
        assert forall|j: int| 0 <= j < strs(self.capabilities@).len() implies strs(self.capabilities@)[j] != name@ by {
            assert(self.capabilities@[j]@ != name@);
        }
        false
    }

    fn need_capability(&self, name: &str, at: (usize, usize)) -> (r: Result<(), CompileError>)
        ensures
            r is Ok <==> strs(self.capabilities@).contains(name@),
            r matches Err(e) ==> fault(e) == fault_at(at, need_message(name@)),
    {
        if self.has_capability(name) {
            Ok(())
        } else {
            let message = concat3("\"", name, "\" must be required first");
            Err(err_place(at, message.as_str()))
        }
    }

    /// Points every listed jump at `target`.
    fn patch(&mut self, index: usize, target: usize)
        requires
            index < old(self).instructions@.len(),
        ensures
            final(self).instructions@ == old(self).instructions@.update(
                index as int,
                retarget(old(self).instructions@[index as int], target),
            ),
            ins_views(final(self).instructions@) == patch_one(ins_views(old(self).instructions@), index, target),
            final(self).tokens == old(self).tokens,
            final(self).pos == old(self).pos,
            final(self).limits == old(self).limits,
            final(self).capabilities == old(self).capabilities,
            final(self).commands_started == old(self).commands_started,
            final(self).blocks == old(self).blocks,
    {
        let ghost before = self.instructions@;
        let patched = match self.instructions[index] {
            Instruction::Jmp(_) => Instruction::Jmp(target),
            Instruction::Jz(_) => Instruction::Jz(target),
            Instruction::Jnz(_) => Instruction::Jnz(target),
            _ => {
                assert(ins_views(before).update(index as int, retarget_view(ins_views(before)[index as int], target)) =~= ins_views(before));
                return;
            },
        };
        self.instructions.set(index, patched);
        assert(ins_views(self.instructions@) =~= patch_one(ins_views(before), index, target));
    }

    /// Decodes encoded characters when the script required them.
    fn decode(&self, value: String, line: usize, col: usize) -> (r: Result<String, CompileError>)
        ensures
            match decode_value(strs(self.capabilities@), value@, line, col) {
                Ok(d) => r matches Ok(v) && v@ == d,
                Err(f) => r matches Err(e) && fault(e) == f,
            },
    {
        if !self.has_capability("encoded-character") {
            return Ok(value);
        }
        match decode_encoded_characters(value.as_str()) {
            Ok(decoded) => Ok(decoded),
            Err(message) => Err(CompileError {
                line: if line == 0 {
                    1
                } else {
                    line
                },
                column: if col < 1 {
                    1
                } else {
                    col
                },
                message,
            }),
        }
    }

    fn parse_string(&mut self) -> (r: Result<String, CompileError>)
        requires
            old(self).pos <= old(self).tokens@.len(),
        ensures
            old(self).stable(*final(self)),
            r is Ok ==> final(self).pos > old(self).pos,
            match string_at(old(self).toks(), strs(old(self).capabilities@), old(self).pos as int) {
                Ok(v) => r matches Ok(s) && s@ == v && final(self).pos == old(self).pos + 1,
                Err(f) => r matches Err(e) && fault(e) == f,
            },
    {
        match self.advance() {
            Some(i) => match &self.tokens[i].tok {
                Tok::Str(value) => {
                    let v = value.clone();
                    let line = self.tokens[i].line;
                    let col = self.tokens[i].col;
                    self.decode(v, line, col)
                },
                _ => Err(err_at(&self.tokens[i], "expected a string")),
            },
            None => Err(self.err("expected a string")),
        }
    }

    fn parse_raw_string_list(&mut self) -> (r: Result<Vec<String>, CompileError>)
        requires
            old(self).pos <= old(self).tokens@.len(),
        ensures
            old(self).stable(*final(self)),
            r is Ok ==> final(self).pos > old(self).pos,
            match raw_list(old(self).toks(), old(self).pos as int, old(self).limits.max_list_items) {
                Ok((values, p)) => r matches Ok(v) && strs(v@) == values && final(self).pos == p,
                Err(f) => r matches Err(e) && fault(e) == f,
            },
    {
        let ghost toks = self.toks();
        let ghost max = self.limits.max_list_items;
        let first = match self.advance() {
            Some(i) => i,
            None => return Err(self.err("expected a string or string list")),
        };
        match &self.tokens[first].tok {
            Tok::Str(value) => {
                let mut one: Vec<String> = Vec::new();
                one.push(value.clone());
                assert(strs(one@) =~= seq![value@]);
                return Ok(one);
            },
            Tok::LBracket => {},
            _ => return Err(err_at(&self.tokens[first], "expected a string or string list")),
        }
        let mut values: Vec<String> = Vec::new();
        assert(strs(values@) =~= Seq::<Seq<char>>::empty());
        loop
            invariant_except_break
                raw_list(toks, old(self).pos as int, max) == raw_items(toks, self.pos as int, strs(values@), max),
            invariant
                old(self).stable(*self),
                self.pos > old(self).pos,
                toks == self.toks(),
                max == self.limits.max_list_items,
            ensures
                raw_list(toks, old(self).pos as int, max) == Ok::<(Seq<Seq<char>>, int), Fault>((strs(values@), self.pos as int)),
            decreases self.tokens@.len() - self.pos,
        {
            let ghost p0 = self.pos as int;
            let ghost before = values@;
            match self.advance() {
                Some(i) => match &self.tokens[i].tok {
                    Tok::Str(value) => {
                        values.push(value.clone());
                        proof {
                            lemma_strs_push(before, *value);
                        }
                        if values.len() > self.limits.max_list_items {
                            return Err(self.err("list has too many items"));
                        }
                    },
                    _ => return Err(err_at(&self.tokens[i], "expected a string")),
                },
                None => return Err(self.err("expected a string")),
            }
            match self.advance() {
                Some(i) => match &self.tokens[i].tok {
                    Tok::Comma => {},
                    Tok::RBracket => break,
                    _ => return Err(err_at(&self.tokens[i], "expected ',' or ']'")),
                },
                None => return Err(self.err("expected ',' or ']'")),
            }
        }
        Ok(values)
    }

    fn parse_string_list(&mut self) -> (r: Result<Vec<String>, CompileError>)
        requires
            old(self).pos <= old(self).tokens@.len(),
        ensures
            old(self).stable(*final(self)),
            r is Ok ==> final(self).pos > old(self).pos,
            match string_list(old(self).toks(), strs(old(self).capabilities@), old(self).pos as int, old(self).limits.max_list_items) {
                Ok((values, p)) => r matches Ok(v) && strs(v@) == values && final(self).pos == p,
                Err(f) => r matches Err(e) && fault(e) == f,
            },
    {
        let raw = match self.parse_raw_string_list() {
            Ok(raw) => raw,
            Err(e) => return Err(e),
        };
        let ghost caps = strs(self.capabilities@);
        let mut decoded: Vec<String> = Vec::new();
        let mut i: usize = 0;
        assert(strs(raw@).take(0) =~= Seq::<Seq<char>>::empty());
        assert(strs(decoded@) =~= Seq::<Seq<char>>::empty());
        while i < raw.len()
            invariant
                i <= raw@.len(),
                old(self).stable(*self),
                caps == strs(self.capabilities@),
                decode_all(caps, strs(raw@).take(i as int)) == Ok::<Seq<Seq<char>>, Fault>(strs(decoded@)),
                string_list(old(self).toks(), strs(old(self).capabilities@), old(self).pos as int, old(self).limits.max_list_items)
                    == match decode_all(caps, strs(raw@)) {
                    Ok(d) => Ok::<(Seq<Seq<char>>, int), Fault>((d, self.pos as int)),
                    Err(f) => Err(f),
                },
            decreases raw@.len() - i,
        {
            assert(strs(raw@).take(i + 1).drop_last() =~= strs(raw@).take(i as int));
            assert(strs(raw@).take(i + 1).last() == raw@[i as int]@);
            let ghost before = decoded@;
            let d = match self.decode(raw[i].clone(), 0, 0) {
                Ok(d) => d,
                Err(e) => {
                    assert(strs(raw@).take(raw@.len() as int) =~= strs(raw@));
                    assert(decode_all(caps, strs(raw@).take(i + 1)) == Err::<Seq<Seq<char>>, Fault>(fault(e)));
                    proof {
                        lemma_decode_all_prefix(caps, strs(raw@), i + 1);
                    }
                    assert(decode_all(caps, strs(raw@)) == Err::<Seq<Seq<char>>, Fault>(fault(e)));
                    return Err(e);
                },
            };
            decoded.push(d);
            proof {
                lemma_strs_push(before, d);
            }
            i += 1;
        }
        assert(strs(raw@).take(raw@.len() as int) =~= strs(raw@));
        Ok(decoded)
    }

    fn parse_header_list(&mut self, at: (usize, usize)) -> (r: Result<Vec<String>, CompileError>)
        requires
            old(self).pos <= old(self).tokens@.len(),
        ensures
            old(self).stable(*final(self)),
            r is Ok ==> final(self).pos > old(self).pos,
            match header_list(old(self).toks(), strs(old(self).capabilities@), old(self).pos as int, old(self).limits.max_list_items, at) {
                Ok((values, p)) => r matches Ok(v) && strs(v@) == values && final(self).pos == p,
                Err(f) => r matches Err(e) && fault(e) == f,
            },
    {
        let headers = match self.parse_string_list() {
            Ok(h) => h,
            Err(e) => return Err(e),
        };
        let ghost names = strs(headers@);
        let mut i: usize = 0;
        assert(names.take(0) =~= Seq::<Seq<char>>::empty());
        while i < headers.len()
            invariant
                i <= headers@.len(),
                old(self).stable(*self),
                names == strs(headers@),
                first_invalid(names.take(i as int)) is None,
                header_list(old(self).toks(), strs(old(self).capabilities@), old(self).pos as int, old(self).limits.max_list_items, at)
                    == match first_invalid(names) {
                    Some(h) => Err(fault_at(at, quoted_message("invalid header name \""@, h))),
                    None => Ok::<(Seq<Seq<char>>, int), Fault>((names, self.pos as int)),
                },
            decreases headers@.len() - i,
        {
            let chars = chars_of(headers[i].as_str());
            let mut valid = chars.len() > 0;
            let mut k: usize = 0;
            while k < chars.len()
                invariant
                    k <= chars@.len(),
                    valid == (chars@.len() > 0 && forall|j: int|
                        0 <= j < k ==> 33 <= (#[trigger] chars@[j]) as u32 <= 126 && chars@[j] as u32 != 58),
                decreases chars@.len() - k,
            {
                let c = chars[k] as u32;
                if c < 33 || c > 126 || c == 58 {
                    valid = false;
                }
                k += 1;
            }
            assert(names.take(i + 1).drop_last() =~= names.take(i as int));
            assert(names.take(i + 1).last() == headers@[i as int]@);
            assert(valid == valid_header_name(headers@[i as int]@));
            if !valid {
                let message = concat3("invalid header name \"", headers[i].as_str(), "\"");
                proof {
                    lemma_first_invalid_prefix(names, i + 1);
                    assert(names.take(names.len() as int) =~= names);
                }
                return Err(err_place(at, message.as_str()));
            }
            i += 1;
        }
        assert(names.take(names.len() as int) =~= names);
        Ok(headers)
    }

    fn parse_match_tags(&mut self, at: (usize, usize), with_part: bool) -> (r: Result<
        (MatchType, Comparator, AddressPart),
        CompileError,
    >)
        requires
            old(self).pos <= old(self).tokens@.len(),
        ensures
            old(self).stable(*final(self)),
            match match_tags(old(self).toks(), strs(old(self).capabilities@), old(self).pos as int, at, with_part, None, None, None) {
                Ok((tags, p)) => r == Ok::<(MatchType, Comparator, AddressPart), CompileError>(tags) && final(self).pos == p,
                Err(f) => r matches Err(e) && fault(e) == f,
            },
    {
        let ghost toks = self.toks();
        let ghost caps = strs(self.capabilities@);
        let mut match_type: Option<MatchType> = None;
        let mut comparator: Option<Comparator> = None;
        let mut part: Option<AddressPart> = None;
        loop
            invariant
                old(self).stable(*self),
                toks == self.toks(),
                caps == strs(self.capabilities@),
                match_tags(toks, caps, old(self).pos as int, at, with_part, None, None, None)
                    == match_tags(toks, caps, self.pos as int, at, with_part, match_type, comparator, part),
            ensures
                tag_at(toks, self.pos as int) is None,
            decreases self.tokens@.len() - self.pos,
        {
            let ghost p0 = self.pos as int;
            let tag = match self.peek_tag() {
                Some(t) => t,
                None => break,
            };
            assert(tag_at(toks, p0) == Some(tag@));
            self.advance();
            let t = tag.as_str();
            if str_eq(t, "is") || str_eq(t, "contains") || str_eq(t, "matches") {
                if match_type.is_some() {
                    return Err(err_place(at, "duplicate match type"));
                }
                match_type = Some(
                    if str_eq(t, "is") {
                        MatchType::Is
                    } else if str_eq(t, "contains") {
                        MatchType::Contains
                    } else {
                        MatchType::Matches
                    },
                );
            } else if str_eq(t, "comparator") {
                if comparator.is_some() {
                    return Err(err_place(at, "duplicate comparator"));
                }
                let name = match self.parse_string() {
                    Ok(n) => n,
                    Err(e) => return Err(e),
                };
                if str_eq(name.as_str(), "i;octet") {
                    match self.need_capability("comparator-i;octet", at) {
                        Ok(()) => {},
                        Err(e) => return Err(e),
                    }
                    comparator = Some(Comparator::Octet);
                } else if str_eq(name.as_str(), "i;ascii-casemap") {
                    comparator = Some(Comparator::AsciiCaseMap);
                } else {
                    let message = concat3("unknown comparator \"", name.as_str(), "\"");
                    return Err(err_place(at, message.as_str()));
                }
            } else if with_part && (str_eq(t, "all") || str_eq(t, "localpart") || str_eq(t, "domain")) {
                if part.is_some() {
                    return Err(err_place(at, "duplicate address part"));
                }
                part = Some(
                    if str_eq(t, "all") {
                        AddressPart::All
                    } else if str_eq(t, "localpart") {
                        AddressPart::Localpart
                    } else {
                        AddressPart::Domain
                    },
                );
            } else {
                let message = concat3("unknown tag \":", t, "\"");
                return Err(err_place(at, message.as_str()));
            }
        }
        Ok(
            (
                match match_type {
                    Some(m) => m,
                    None => MatchType::Is,
                },
                match comparator {
                    Some(c) => c,
                    None => Comparator::AsciiCaseMap,
                },
                match part {
                    Some(p) => p,
                    None => AddressPart::All,
                },
            ),
        )
    }

    /// Reads the optional tags of a test; `None` when the next token is no
    /// tag.
    fn peek_tag(&self) -> (tag: Option<String>)
        ensures
            tag is Some ==> self.pos < self.tokens@.len(),
            match tag {
                Some(t) => tag_at(self.toks(), self.pos as int) == Some(t@),
                None => tag_at(self.toks(), self.pos as int) is None,
            },
    {
        if self.pos < self.tokens.len() {
            assert(self.toks()[self.pos as int].0 == tok_view(self.tokens@[self.pos as int].tok));
            match &self.tokens[self.pos].tok {
                Tok::Tag(t) => Some(t.clone()),
                _ => None,
            }
        } else {
            None
        }
    }

    /// Reads the `:over` or `:under` tag of a size test.
    fn parse_size_tags(&mut self, at: (usize, usize)) -> (r: Result<bool, CompileError>)
        requires
            old(self).pos <= old(self).tokens@.len(),
        ensures
            old(self).stable(*final(self)),
            match size_tags(old(self).toks(), old(self).pos as int, at, None) {
                Ok((over, p)) => r == Ok::<bool, CompileError>(over) && final(self).pos == p,
                Err(f) => r matches Err(e) && fault(e) == f,
            },
    {
        let ghost toks = self.toks();
        let mut over: Option<bool> = None;
        loop
            invariant
                old(self).stable(*self),
                toks == self.toks(),
                size_tags(toks, old(self).pos as int, at, None) == size_tags(toks, self.pos as int, at, over),
            ensures
                tag_at(toks, self.pos as int) is None,
            decreases self.tokens@.len() - self.pos,
        {
            let tag = match self.peek_tag() {
                Some(t) => t,
                None => break,
            };
            self.advance();
            if str_eq(tag.as_str(), "over") || str_eq(tag.as_str(), "under") {
                if over.is_some() {
                    return Err(err_place(at, "duplicate size tag"));
                }
                over = Some(str_eq(tag.as_str(), "over"));
            } else {
                let message = concat3("unknown tag \":", tag.as_str(), "\"");
                return Err(err_place(at, message.as_str()));
            }
        }
        match over {
            Some(o) => Ok(o),
            None => Err(err_place(at, "size requires :over or :under")),
        }
    }

    /// The envelope parts that the names stand for.
    fn envelope_part_list(names: &Vec<String>, at: (usize, usize)) -> (r: Result<Vec<EnvelopePart>, CompileError>)
        ensures
            match envelope_parts(strs(names@), at) {
                Ok(parts) => r matches Ok(v) && v@ == parts,
                Err(f) => r matches Err(e) && fault(e) == f,
            },
    {
        let ghost all = strs(names@);
        let mut parts: Vec<EnvelopePart> = Vec::new();
        let mut n: usize = 0;
        assert(all.take(0) =~= Seq::<Seq<char>>::empty());
        while n < names.len()
            invariant
                n <= names@.len(),
                all == strs(names@),
                envelope_parts(all.take(n as int), at) == Ok::<Seq<EnvelopePart>, Fault>(parts@),
            decreases names@.len() - n,
        {
            assert(all.take(n + 1).drop_last() =~= all.take(n as int));
            assert(all.take(n + 1).last() == names@[n as int]@);
            let lowered = lower_vec(chars_of(names[n].as_str()).as_slice());
            let name = string_of_chars(lowered.as_slice());
            if str_eq(name.as_str(), "from") {
                parts.push(EnvelopePart::From);
            } else if str_eq(name.as_str(), "to") {
                parts.push(EnvelopePart::To);
            } else {
                let message = concat3("unsupported envelope part \"", names[n].as_str(), "\"");
                proof {
                    lemma_envelope_parts_prefix(all, n + 1, at);
                    assert(all.take(all.len() as int) =~= all);
                }
                return Err(err_place(at, message.as_str()));
            }
            n += 1;
        }
        assert(all.take(all.len() as int) =~= all);
        Ok(parts)
    }

    /// A test other than `not`, `allof` and `anyof`, named `word` at `at`,
    /// whose arguments follow.
    fn parse_leaf_test(&mut self, at: (usize, usize), word: &str, negate: bool) -> (r: Result<Test, CompileError>)
        requires
            old(self).pos <= old(self).tokens@.len(),
        ensures
            old(self).stable(*final(self)),
            match leaf_test(old(self).toks(), strs(old(self).capabilities@), old(self).limits.max_list_items, old(self).pos as int, at, word@, negate) {
                Ok((t, p)) => r matches Ok(x) && test_view(x) == t && final(self).pos == p,
                Err(f) => r matches Err(e) && fault(e) == f,
            },
    {
        let w = word;
        if str_eq(w, "true") || str_eq(w, "false") {
            return Ok(Test::Bool(str_eq(w, "true") != negate));
        }
        if str_eq(w, "exists") {
            let headers = match self.parse_header_list(at) {
                Ok(h) => h,
                Err(e) => return Err(e),
            };
            return Ok(Test::Exists { headers, is_not: negate });
        }
        if str_eq(w, "size") {
            let over = match self.parse_size_tags(at) {
                Ok(o) => o,
                Err(e) => return Err(e),
            };
            let ghost p = self.pos as int;
            let limit = match self.advance() {
                Some(n) => match &self.tokens[n].tok {
                    Tok::Number(v) => *v,
                    _ => return Err(err_place(at, "size requires a number")),
                },
                None => return Err(err_place(at, "size requires a number")),
            };
            return Ok(Test::Size { over, limit, is_not: negate });
        }
        if str_eq(w, "header") || str_eq(w, "address") {
            let (match_type, comparator, part) = match self.parse_match_tags(at, str_eq(w, "address")) {
                Ok(t) => t,
                Err(e) => return Err(e),
            };
            let headers = match self.parse_header_list(at) {
                Ok(h) => h,
                Err(e) => return Err(e),
            };
            let keys = match self.parse_string_list() {
                Ok(k) => k,
                Err(e) => return Err(e),
            };
            if str_eq(w, "header") {
                return Ok(Test::Header { headers, keys, match_type, comparator, is_not: negate });
            }
            return Ok(Test::Address { headers, keys, part, match_type, comparator, is_not: negate });
        }
        if str_eq(w, "envelope") {
            match self.need_capability("envelope", at) {
                Ok(()) => {},
                Err(e) => return Err(e),
            }
            let (match_type, comparator, part) = match self.parse_match_tags(at, true) {
                Ok(t) => t,
                Err(e) => return Err(e),
            };
            let names = match self.parse_string_list() {
                Ok(n) => n,
                Err(e) => return Err(e),
            };
            let parts = match Self::envelope_part_list(&names, at) {
                Ok(p) => p,
                Err(e) => return Err(e),
            };
            let keys = match self.parse_string_list() {
                Ok(k) => k,
                Err(e) => return Err(e),
            };
            return Ok(Test::Envelope { parts, keys, part, match_type, comparator, is_not: negate });
        }
        let message = concat3("unknown test \"", w, "\"");
        Err(err_place(at, message.as_str()))
    }

    /// Parses a test, folding `not` into its leaves; `allof` and `anyof`
    /// become tests joined by short-circuit jumps past the group.
    fn parse_test_expr(&mut self, negate: bool, depth: usize) -> (r: Result<(), CompileError>)
        requires
            old(self).pos <= old(self).tokens@.len(),
        ensures
            r is Ok ==> old(self).extended(*final(self)) && final(self).pos > old(self).pos,
            final(self).tokens == old(self).tokens,
            final(self).limits == old(self).limits,
            match test_expr(old(self).toks(), *old(self).limits, old(self).state(), negate, depth as int) {
                Ok(s) => r is Ok && final(self).state() == s,
                Err(f) => r matches Err(e) && fault(e) == f,
            },
        decreases old(self).limits.max_nested_tests - depth,
    {
        if depth >= self.limits.max_nested_tests {
            return Err(self.err("tests are nested too deeply"));
        }
        let ghost toks = self.toks();
        let ghost lim = *self.limits;
        let ghost st0 = self.state();
        let i = match self.advance() {
            Some(i) => i,
            None => return Err(self.err("expected a test")),
        };
        let at = (self.tokens[i].line, self.tokens[i].col);
        assert(at == place(toks[i as int]));
        let word = match &self.tokens[i].tok {
            Tok::Identifier(w) => w.clone(),
            _ => return Err(err_place(at, "expected a test")),
        };
        let w = word.as_str();
        assert(toks[i as int].0 == LexTok::Identifier(w@));
        assert(self.state() == PState { pos: st0.pos + 1, ..st0 });
        if str_eq(w, "not") {
            let r = self.parse_test_expr(!negate, depth + 1);
            proof {
                if r is Ok {
                    assert(old(self).extended(*self));
                }
            }
            return r;
        }
        if str_eq(w, "allof") || str_eq(w, "anyof") {
            let is_all = str_eq(w, "allof") != negate;
            match self.expect(&Tok::LParen, "'('") {
                Ok(()) => {},
                Err(e) => return Err(e),
            }
            assert(self.state() == PState { pos: st0.pos + 2, ..st0 });
            let ghost base = old(self).instructions@;
            let mut jumps: Vec<usize> = Vec::new();
            loop
                invariant_except_break
                    test_expr(toks, lim, st0, negate, depth as int) == group(toks, lim, self.state(), negate, depth as int, is_all, jumps@),
                invariant
                    self.tokens == old(self).tokens,
                    self.limits == old(self).limits,
                    self.capabilities == old(self).capabilities,
                    self.commands_started == old(self).commands_started,
                    self.blocks == old(self).blocks,
                    old(self).pos < self.pos <= self.tokens@.len(),
                    base == old(self).instructions@,
                    depth < old(self).limits.max_nested_tests,
                    toks == self.toks(),
                    lim == *self.limits,
                    st0 == old(self).state(),
                    base.len() <= self.instructions@.len(),
                    forall|k: int| 0 <= k < base.len() ==> self.instructions@[k] == base[k],
                    forall|k: int|
                        base.len() <= k < self.instructions@.len() ==> forward_at(self.instructions@, k)
                            || jumps@.contains(k as usize),
                    forall|k: int|
                        0 <= k < jumps@.len() ==> base.len() <= (#[trigger] jumps@[k]) < self.instructions@.len()
                            && jump_target(self.instructions@[jumps@[k] as int]) is Some,
                ensures
                    test_expr(toks, lim, st0, negate, depth as int) == Ok::<PState, Fault>(PState {
                        pos: self.pos as int,
                        ins: patch_all(ins_views(self.instructions@), jumps@, self.instructions@.len() as usize),
                        ..self.state()
                    }),
                decreases self.tokens@.len() - self.pos,
            {
                let ghost before = *self;
                match self.parse_test_expr(negate, depth + 1) {
                    Ok(()) => {},
                    Err(e) => return Err(e),
                }
                let ghost s1 = self.state();
                proof {
                    assert forall|k: int|
                        base.len() <= k < self.instructions@.len() implies forward_at(self.instructions@, k)
                            || jumps@.contains(k as usize) by {
                        if k < before.instructions@.len() {
                            assert(self.instructions@[k] == before.instructions@[k]);
                            if forward_at(before.instructions@, k) {
                                assert(forward_at(self.instructions@, k));
                            }
                        }
                    }
                }
                match self.advance() {
                    Some(t) => match &self.tokens[t].tok {
                        Tok::Comma => {
                            let ghost prev = self.instructions@;
                            let ghost prev_jumps = jumps@;
                            if is_all {
                                self.instructions.push(Instruction::Jz(usize::MAX));
                            } else {
                                self.instructions.push(Instruction::Jnz(usize::MAX));
                            }
                            jumps.push(self.instructions.len() - 1);
                            proof {
                                lemma_ins_push(prev, self.instructions@.last());
                                assert(self.instructions@ == prev.push(self.instructions@.last()));
                                assert(self.state() == PState {
                                    pos: s1.pos + 1,
                                    ins: s1.ins.push(if is_all { InsView::Jz(unset()) } else { InsView::Jnz(unset()) }),
                                    ..s1
                                });
                                assert(jumps@ == prev_jumps.push(s1.ins.len() as usize));
                                assert forall|k: int|
                                    base.len() <= k < self.instructions@.len() implies forward_at(self.instructions@, k)
                                        || jumps@.contains(k as usize) by {
                                    if k < prev.len() {
                                        assert(self.instructions@[k] == prev[k]);
                                        if forward_at(prev, k) {
                                            assert(forward_at(self.instructions@, k));
                                        }
                                        if prev_jumps.contains(k as usize) {
                                            let w = choose|w: int| 0 <= w < prev_jumps.len() && prev_jumps[w] == k as usize;
                                            assert(jumps@[w] == k as usize);
                                        }
                                    } else {
                                        assert(jumps@[jumps@.len() - 1] == k as usize);
                                    }
                                }
                                assert forall|k: int|
                                    0 <= k < jumps@.len() implies base.len() <= (#[trigger] jumps@[k]) < self.instructions@.len()
                                        && jump_target(self.instructions@[jumps@[k] as int]) is Some by {
                                    if k < prev_jumps.len() {
                                        assert(jumps@[k] == prev_jumps[k]);
                                    }
                                }
                            }
                        },
                        Tok::RParen => {
                            assert(self.state() == PState { pos: s1.pos + 1, ..s1 });
                            break;
                        },
                        _ => return Err(err_at(&self.tokens[t], "expected ',' or ')'")),
                    },
                    None => return Err(self.err("expected ',' or ')'")),
                }
            }
            let target = self.instructions.len();
            let ghost unpatched = self.instructions@;
            let ghost end_pos = self.pos;
            let mut k: usize = 0;
            assert(jumps@.subrange(0, jumps@.len() as int) =~= jumps@);
            assert(jumps@.take(0) =~= Seq::<usize>::empty());
            while k < jumps.len()
                invariant
                    self.tokens == old(self).tokens,
                    self.limits == old(self).limits,
                    self.capabilities == old(self).capabilities,
                    self.commands_started == old(self).commands_started,
                    self.blocks == old(self).blocks,
                    old(self).pos < self.pos <= self.tokens@.len(),
                    self.pos == end_pos,
                    base == old(self).instructions@,
                    target == self.instructions@.len(),
                    unpatched.len() == target,
                    base.len() <= target,
                    k <= jumps@.len(),
                    ins_views(self.instructions@) == patch_all(ins_views(unpatched), jumps@.take(k as int), target),
                    forall|j: int| 0 <= j < base.len() ==> self.instructions@[j] == base[j],
                    forall|j: int|
                        base.len() <= j < target ==> forward_at(self.instructions@, j) || jumps@.subrange(
                            k as int,
                            jumps@.len() as int,
                        ).contains(j as usize),
                    forall|j: int|
                        0 <= j < jumps@.len() ==> base.len() <= (#[trigger] jumps@[j]) < target
                            && jump_target(self.instructions@[jumps@[j] as int]) is Some,
                decreases jumps@.len() - k,
            {
                let at = jumps[k];
                let ghost prev = self.instructions@;
                self.patch(at, target);
                proof {
                    assert(jumps@.take(k + 1).drop_last() =~= jumps@.take(k as int));
                    assert(jumps@.take(k + 1).last() == at);
                    assert forall|j: int|
                        base.len() <= j < target implies forward_at(self.instructions@, j) || jumps@.subrange(
                            k + 1,
                            jumps@.len() as int,
                        ).contains(j as usize) by {
                        if j == at as int {
                            assert(jump_target(self.instructions@[at as int]) == Some(target));
                        } else {
                            assert(self.instructions@[j] == prev[j]);
                            if forward_at(prev, j) {
                                assert(forward_at(self.instructions@, j));
                            }
                            if jumps@.subrange(k as int, jumps@.len() as int).contains(j as usize) {
                                let w = choose|w: int|
                                    0 <= w < jumps@.subrange(k as int, jumps@.len() as int).len()
                                        && jumps@.subrange(k as int, jumps@.len() as int)[w] == j as usize;
                                assert(w != 0);
                                assert(jumps@.subrange(k + 1, jumps@.len() as int)[w - 1] == j as usize);
                            }
                        }
                    }
                    assert forall|j: int| 0 <= j < jumps@.len() implies base.len() <= (#[trigger] jumps@[j]) < target
                        && jump_target(self.instructions@[jumps@[j] as int]) is Some by {
                        if jumps@[j] != at {
                            assert(self.instructions@[jumps@[j] as int] == prev[jumps@[j] as int]);
                        }
                    }
                }
                k += 1;
            }
            proof {
                assert(jumps@.take(jumps@.len() as int) =~= jumps@);
                assert forall|j: int| base.len() <= j < self.instructions@.len() implies forward_at(self.instructions@, j) by {
                    assert(jumps@.subrange(k as int, jumps@.len() as int).len() == 0);
                }
            }
            return Ok(());
        }
        let ghost prev = self.instructions@;
        let test = match self.parse_leaf_test(at, w, negate) {
            Ok(t) => t,
            Err(e) => return Err(e),
        };
        self.instructions.push(Instruction::Test(test));
        proof {
            lemma_ins_push(prev, Instruction::Test(test));
            assert(self.instructions@ == prev.push(self.instructions@.last()));
            assert(jump_target(self.instructions@.last()) is None);
        }
        Ok(())
    }

    /// A command that takes no argument.
    fn simple_command(&mut self, instruction: Instruction) -> (r: Result<(), CompileError>)
        requires
            old(self).wf(),
            jump_target(instruction) is None,
        ensures
            r is Ok ==> final(self).wf() && final(self).pos >= old(self).pos,
            final(self).tokens == old(self).tokens,
            final(self).limits == old(self).limits,
            match simple_command(old(self).toks(), old(self).state(), ins_view(instruction)) {
                Ok(s) => r is Ok && final(self).state() == s,
                Err(f) => r matches Err(e) && fault(e) == f,
            },
    {
        self.commands_started = true;
        match self.expect(&Tok::Semicolon, "';'") {
            Ok(()) => {},
            Err(e) => return Err(e),
        }
        self.push_action(instruction);
        Ok(())
    }

    /// Appends an instruction that is no jump.
    fn push_action(&mut self, instruction: Instruction)
        requires
            old(self).wf(),
            jump_target(instruction) is None,
        ensures
            final(self).wf(),
            final(self).pos == old(self).pos,
            final(self).tokens == old(self).tokens,
            final(self).limits == old(self).limits,
            final(self).blocks == old(self).blocks,
            final(self).capabilities == old(self).capabilities,
            final(self).commands_started == old(self).commands_started,
            ins_views(final(self).instructions@) == ins_views(old(self).instructions@).push(ins_view(instruction)),
    {
        let ghost before = self.instructions@;
        self.instructions.push(instruction);
        proof {
            lemma_grow(before, self.instructions@, self.blocks@);
            lemma_ins_push(before, instruction);
        }
    }

    /// Whether a name is a capability this compiler supports.
    fn known_capability(name: &str) -> (r: bool)
        ensures
            r == known_cap(name@),
    {
        str_eq(name, "fileinto") || str_eq(name, "envelope") || str_eq(name, "imap4flags") || str_eq(
            name,
            "encoded-character",
        ) || str_eq(name, "comparator-i;octet") || str_eq(name, "comparator-i;ascii-casemap")
    }

    /// Splits flag arguments on ASCII white space.
    fn split_flags(entries: &Vec<String>) -> (flags: Vec<String>)
        ensures
            strs(flags@) == flag_words(strs(entries@)),
    {
        let ghost all = strs(entries@);
        let mut flags: Vec<String> = Vec::new();
        let mut i: usize = 0;
        assert(all.take(0) =~= Seq::<Seq<char>>::empty());
        assert(strs(flags@) =~= Seq::<Seq<char>>::empty());
        while i < entries.len()
            invariant
                i <= entries@.len(),
                all == strs(entries@),
                strs(flags@) == flag_words(all.take(i as int)),
            decreases entries@.len() - i,
        {
            let chars = chars_of(entries[i].as_str());
            let n = chars.len();
            let words = split_ascii_words(&chars, 0, n);
            let ghost ws = words@.map_values(|g: Vec<char>| g@);
            let ghost start = strs(flags@);
            assert(chars@.subrange(0, n as int) =~= chars@);
            assert(ws == ascii_words(entries@[i as int]@));
            let mut k: usize = 0;
            assert(ws.take(0) =~= Seq::<Seq<char>>::empty());
            assert(start + ws.take(0) =~= start);
            while k < words.len()
                invariant
                    k <= words@.len(),
                    ws == words@.map_values(|g: Vec<char>| g@),
                    strs(flags@) == start + ws.take(k as int),
                decreases words@.len() - k,
            {
                let ghost before = flags@;
                let word = string_of_chars(words[k].as_slice());
                flags.push(word);
                proof {
                    lemma_strs_push(before, word);
                    assert(ws.take(k + 1) =~= ws.take(k as int).push(ws[k as int]));
                    assert(start + ws.take(k + 1) =~= (start + ws.take(k as int)).push(ws[k as int]));
                }
                k += 1;
            }
            proof {
                assert(ws.take(ws.len() as int) =~= ws);
                assert(all.take(i + 1).drop_last() =~= all.take(i as int));
                assert(all.take(i + 1).last() == entries@[i as int]@);
            }
            i += 1;
        }
        assert(all.take(all.len() as int) =~= all);
        flags
    }

    /// `require` and its capabilities.
    fn parse_require(&mut self, at: (usize, usize)) -> (r: Result<(), CompileError>)
        requires
            old(self).wf(),
        ensures
            r is Ok ==> final(self).wf() && final(self).pos >= old(self).pos,
            final(self).tokens == old(self).tokens,
            final(self).limits == old(self).limits,
            match require_command(old(self).toks(), *old(self).limits, old(self).state(), at) {
                Ok(s) => r is Ok && final(self).state() == s,
                Err(f) => r matches Err(e) && fault(e) == f,
            },
    {
        let ghost st0 = self.state();
        if self.commands_started || self.blocks.len() > 0 {
            return Err(err_place(at, "require must precede all other commands"));
        }
        let names = match self.parse_raw_string_list() {
            Ok(n) => n,
            Err(e) => return Err(e),
        };
        let ghost all = strs(names@);
        let ghost p = self.pos as int;
        let mut i: usize = 0;
        assert(all.take(0) =~= Seq::<Seq<char>>::empty());
        while i < names.len()
            invariant
                i <= names@.len(),
                self.wf(),
                self.pos >= old(self).pos,
                self.pos == p,
                self.tokens == old(self).tokens,
                self.limits == old(self).limits,
                self.instructions == old(self).instructions,
                self.commands_started == old(self).commands_started,
                self.blocks == old(self).blocks,
                all == strs(names@),
                st0 == old(self).state(),
                !st0.started && st0.blocks.len() == 0,
                raw_list(old(self).toks(), st0.pos, old(self).limits.max_list_items) == Ok::<(Seq<Seq<char>>, int), Fault>((all, p)),
                add_caps(st0.caps, all.take(i as int), at) == Ok::<Seq<Seq<char>>, Fault>(strs(self.capabilities@)),
            decreases names@.len() - i,
        {
            let name = names[i].as_str();
            assert(all.take(i + 1).drop_last() =~= all.take(i as int));
            assert(all.take(i + 1).last() == names@[i as int]@);
            if Self::known_capability(name) {
                if !self.has_capability(name) {
                    let ghost before = self.capabilities@;
                    self.capabilities.push(names[i].clone());
                    proof {
                        lemma_strs_push(before, names@[i as int]);
                        assert forall|a: int, b: int| 0 <= a < b < self.capabilities@.len() implies (
                        #[trigger] self.capabilities@[a])@ != (#[trigger] self.capabilities@[b])@ by {
                            if b == before.len() {
                                assert(self.capabilities@[a] == before[a]);
                                assert(strs(before)[a] == before[a]@);
                            } else {
                                assert(self.capabilities@[a] == before[a] && self.capabilities@[b] == before[b]);
                            }
                        }
                    }
                }
            } else {
                let message = concat3("unknown capability \"", name, "\"");
                proof {
                    lemma_add_caps_prefix(st0.caps, all, i + 1, at);
                    assert(all.take(all.len() as int) =~= all);
                }
                return Err(err_place(at, message.as_str()));
            }
            i += 1;
        }
        assert(all.take(all.len() as int) =~= all);
        self.expect(&Tok::Semicolon, "';'")
    }

    /// `if`, its test and the opening of its block.
    fn parse_if(&mut self, at: (usize, usize)) -> (r: Result<(), CompileError>)
        requires
            old(self).wf(),
        ensures
            r is Ok ==> final(self).wf() && final(self).pos >= old(self).pos,
            final(self).tokens == old(self).tokens,
            final(self).limits == old(self).limits,
            match if_command(old(self).toks(), *old(self).limits, old(self).state(), at) {
                Ok(s) => r is Ok && final(self).state() == s,
                Err(f) => r matches Err(e) && fault(e) == f,
            },
    {
        self.commands_started = true;
        if self.blocks.len() >= self.limits.max_nested_blocks {
            return Err(err_place(at, "blocks are nested too deeply"));
        }
        let ghost start = self.instructions@;
        match self.parse_test_expr(false, 0) {
            Ok(()) => {},
            Err(e) => return Err(e),
        }
        proof {
            lemma_grow(start, self.instructions@, self.blocks@);
        }
        self.open_block();
        self.expect(&Tok::LBrace, "'{'")
    }

    /// `fileinto` (`is_file`) or `redirect` and its string.
    fn parse_store(&mut self, is_file: bool, at: (usize, usize)) -> (r: Result<(), CompileError>)
        requires
            old(self).wf(),
        ensures
            r is Ok ==> final(self).wf() && final(self).pos >= old(self).pos,
            final(self).tokens == old(self).tokens,
            final(self).limits == old(self).limits,
            match store_command(old(self).toks(), old(self).state(), is_file, at) {
                Ok(s) => r is Ok && final(self).state() == s,
                Err(f) => r matches Err(e) && fault(e) == f,
            },
    {
        self.commands_started = true;
        if is_file {
            match self.need_capability("fileinto", at) {
                Ok(()) => {},
                Err(e) => return Err(e),
            }
        }
        let value = match self.parse_string() {
            Ok(v) => v,
            Err(e) => return Err(e),
        };
        match self.expect(&Tok::Semicolon, "';'") {
            Ok(()) => {},
            Err(e) => return Err(e),
        }
        if is_file {
            self.push_action(Instruction::FileInto(value));
        } else {
            self.push_action(Instruction::Redirect(value));
        }
        Ok(())
    }

    /// `addflag`, `setflag` or `removeflag`, named `word`, and its flags.
    fn parse_flags(&mut self, word: &str, at: (usize, usize)) -> (r: Result<(), CompileError>)
        requires
            old(self).wf(),
        ensures
            r is Ok ==> final(self).wf() && final(self).pos >= old(self).pos,
            final(self).tokens == old(self).tokens,
            final(self).limits == old(self).limits,
            match flag_command(old(self).toks(), *old(self).limits, old(self).state(), word@, at) {
                Ok(s) => r is Ok && final(self).state() == s,
                Err(f) => r matches Err(e) && fault(e) == f,
            },
    {
        self.commands_started = true;
        match self.need_capability("imap4flags", at) {
            Ok(()) => {},
            Err(e) => return Err(e),
        }
        let entries = match self.parse_string_list() {
            Ok(v) => v,
            Err(e) => return Err(e),
        };
        let flags = Self::split_flags(&entries);
        match self.expect(&Tok::Semicolon, "';'") {
            Ok(()) => {},
            Err(e) => return Err(e),
        }
        if str_eq(word, "addflag") {
            self.push_action(Instruction::AddFlag(flags));
        } else if str_eq(word, "setflag") {
            self.push_action(Instruction::SetFlag(flags));
        } else {
            self.push_action(Instruction::RemoveFlag(flags));
        }
        Ok(())
    }

    /// Compiles one command whose name `word`, at `at`, was just read.
    fn command(&mut self, word: &str, at: (usize, usize)) -> (r: Result<(), CompileError>)
        requires
            old(self).wf(),
        ensures
            r is Ok ==> final(self).wf() && final(self).pos >= old(self).pos,
            final(self).tokens == old(self).tokens,
            final(self).limits == old(self).limits,
            match command(old(self).toks(), *old(self).limits, old(self).state(), word@, at) {
                Ok(s) => r is Ok && final(self).state() == s,
                Err(f) => r matches Err(e) && fault(e) == f,
            },
    {
        proof {
            reveal(command);
        }
        if str_eq(word, "require") {
            return self.parse_require(at);
        }
        if str_eq(word, "if") {
            return self.parse_if(at);
        }
        if str_eq(word, "elsif") || str_eq(word, "else") {
            let message = concat3(word, " without a preceding if", "");
            proof {
                reveal_strlit("");
                assert(message@ =~= word@ + " without a preceding if"@);
            }
            return Err(err_place(at, message.as_str()));
        }
        if str_eq(word, "stop") {
            return self.simple_command(Instruction::Stop);
        }
        if str_eq(word, "keep") {
            return self.simple_command(Instruction::Keep);
        }
        if str_eq(word, "discard") {
            return self.simple_command(Instruction::Discard);
        }
        if str_eq(word, "fileinto") || str_eq(word, "redirect") {
            return self.parse_store(str_eq(word, "fileinto"), at);
        }
        if str_eq(word, "addflag") || str_eq(word, "setflag") || str_eq(word, "removeflag") {
            return self.parse_flags(word, at);
        }
        let message = concat3("unknown command \"", word, "\"");
        Err(err_place(at, message.as_str()))
    }

    /// Appends a `jz` that skips the block about to open, and opens it.
    fn open_block(&mut self)
        requires
            old(self).wf(),
        ensures
            final(self).wf(),
            final(self).pos == old(self).pos,
            final(self).tokens == old(self).tokens,
            final(self).limits == old(self).limits,
            final(self).capabilities == old(self).capabilities,
            final(self).commands_started == old(self).commands_started,
            ins_views(final(self).instructions@) == ins_views(old(self).instructions@).push(InsView::Jz(unset())),
            block_views(final(self).blocks@) == block_views(old(self).blocks@).push(
                BlockView { jz_at: Some(old(self).instructions@.len() as usize), chain: Seq::empty() },
            ),
    {
        let ghost ins = self.instructions@;
        let ghost blocks = self.blocks@;
        self.instructions.push(Instruction::Jz(usize::MAX));
        let jz_at = self.instructions.len() - 1;
        let block = OpenBlock { jz_at: Some(jz_at), chain_jmps: Vec::new() };
        self.blocks.push(block);
        proof {
            lemma_ins_push(ins, Instruction::Jz(usize::MAX));
            lemma_blocks_push(blocks, block);
            assert(block.chain_jmps@ =~= Seq::<usize>::empty());
            assert(self.instructions@ == ins.push(Instruction::Jz(usize::MAX)));
            assert(self.blocks@ == blocks.push(block));
            assert(in_block(self.blocks@[blocks.len() as int], jz_at as int));
            assert forall|i: int| 0 <= i < self.instructions@.len() implies forward_at(self.instructions@, i)
                || pending(self.blocks@, i) by {
                if i < ins.len() {
                    assert(self.instructions@[i] == ins[i]);
                    if forward_at(ins, i) {
                        assert(forward_at(self.instructions@, i));
                    } else {
                        let k = choose|k: int| 0 <= k < blocks.len() && in_block(#[trigger] blocks[k], i);
                        assert(self.blocks@[k] == blocks[k]);
                    }
                } else {
                    assert(in_block(self.blocks@[blocks.len() as int], i));
                }
            }
            assert forall|k: int| 0 <= k < self.blocks@.len() implies block_ok(#[trigger] self.blocks@[k], self.instructions@) by {
                if k < blocks.len() {
                    let b = blocks[k];
                    assert(self.blocks@[k] == b);
                    assert(block_ok(b, ins));
                    if let Some(j) = b.jz_at {
                        assert(self.instructions@[j as int] == ins[j as int]);
                    }
                    assert forall|m: int| 0 <= m < b.chain_jmps@.len() implies (#[trigger] b.chain_jmps@[m]) < self.instructions@.len()
                        && jump_target(self.instructions@[b.chain_jmps@[m] as int]) is Some by {
                        assert(self.instructions@[b.chain_jmps@[m] as int] == ins[b.chain_jmps@[m] as int]);
                    }
                }
            }
        }
    }

    /// Points the listed jumps at the current end of the program.
    fn patch_to_end(&mut self, at: &Vec<usize>) -> (target: usize)
        requires
            forall|m: int| 0 <= m < at@.len() ==> (#[trigger] at@[m]) < old(self).instructions@.len()
                && jump_target(old(self).instructions@[at@[m] as int]) is Some,
        ensures
            target == old(self).instructions@.len(),
            final(self).instructions@.len() == old(self).instructions@.len(),
            forall|i: int| 0 <= i < target && !at@.contains(i as usize) ==> final(self).instructions@[i]
                == old(self).instructions@[i],
            forall|i: int| 0 <= i < target && at@.contains(i as usize) ==> forward_at(final(self).instructions@, i),
            forall|i: int| 0 <= i < target ==> (jump_target(final(self).instructions@[i]) is Some <==> jump_target(
                old(self).instructions@[i],
            ) is Some),
            ins_views(final(self).instructions@) == patch_all(ins_views(old(self).instructions@), at@, target),
            final(self).tokens == old(self).tokens,
            final(self).pos == old(self).pos,
            final(self).limits == old(self).limits,
            final(self).capabilities == old(self).capabilities,
            final(self).commands_started == old(self).commands_started,
            final(self).blocks == old(self).blocks,
    {
        let target = self.instructions.len();
        let mut k: usize = 0;
        assert(at@.take(0) =~= Seq::<usize>::empty());
        while k < at.len()
            invariant
                k <= at@.len(),
                target == old(self).instructions@.len(),
                self.instructions@.len() == target,
                forall|m: int| 0 <= m < at@.len() ==> (#[trigger] at@[m]) < target,
                forall|i: int| 0 <= i < target && !at@.take(k as int).contains(i as usize) ==> self.instructions@[i]
                    == old(self).instructions@[i],
                forall|i: int| 0 <= i < target && at@.take(k as int).contains(i as usize) ==> forward_at(self.instructions@, i),
                forall|i: int| 0 <= i < target ==> (jump_target(self.instructions@[i]) is Some <==> jump_target(
                    old(self).instructions@[i],
                ) is Some),
                forall|m: int| 0 <= m < at@.len() ==> jump_target(old(self).instructions@[#[trigger] at@[m] as int]) is Some,
                ins_views(self.instructions@) == patch_all(ins_views(old(self).instructions@), at@.take(k as int), target),
                self.tokens == old(self).tokens,
                self.pos == old(self).pos,
                self.limits == old(self).limits,
                self.capabilities == old(self).capabilities,
                self.commands_started == old(self).commands_started,
                self.blocks == old(self).blocks,
            decreases at@.len() - k,
        {
            let index = at[k];
            let ghost prev = self.instructions@;
            self.patch(index, target);
            proof {
                assert(at@.take(k + 1).drop_last() =~= at@.take(k as int));
                assert(at@.take(k + 1) =~= at@.take(k as int).push(index));
                assert(at@.take(k + 1)[k as int] == index);
                assert(jump_target(self.instructions@[index as int]) == Some(target));
                assert forall|i: int| 0 <= i < target && !at@.take(k + 1).contains(i as usize) implies self.instructions@[i]
                    == old(self).instructions@[i] by {
                    assert(i != index as int);
                    assert(!at@.take(k as int).contains(i as usize)) by {
                        if at@.take(k as int).contains(i as usize) {
                            let w = choose|w: int| 0 <= w < at@.take(k as int).len() && #[trigger] at@.take(k as int)[w] == i as usize;
                            assert(at@.take(k + 1)[w] == i as usize);
                        }
                    }
                }
                assert forall|i: int| 0 <= i < target && at@.take(k + 1).contains(i as usize) implies forward_at(
                    self.instructions@,
                    i,
                ) by {
                    if i != index as int {
                        let w = choose|w: int| 0 <= w < at@.take(k + 1).len() && #[trigger] at@.take(k + 1)[w] == i as usize;
                        assert(w < k);
                        assert(at@.take(k as int)[w] == i as usize);
                        assert(self.instructions@[i] == prev[i]);
                        assert(forward_at(prev, i));
                    }
                }
            }
            k += 1;
        }
        assert(at@.take(k as int) =~= at@);
        target
    }

    /// Closes the innermost block, or chains an `elsif` or `else` to it.
    fn close_block(&mut self, at: (usize, usize)) -> (r: Result<(), CompileError>)
        requires
            old(self).wf(),
        ensures
            r is Ok ==> final(self).wf() && final(self).pos >= old(self).pos,
            final(self).tokens == old(self).tokens,
            final(self).limits == old(self).limits,
            match close_block(old(self).toks(), *old(self).limits, old(self).state(), at) {
                Ok(s) => r is Ok && final(self).state() == s,
                Err(f) => r matches Err(e) && fault(e) == f,
            },
    {
        proof {
            reveal(close_block);
        }
        let ghost toks = self.toks();
        let ghost st0 = self.state();
        let ghost blocks0 = self.blocks@;
        let ghost ins0 = self.instructions@;
        let mut block = match self.blocks.pop() {
            Some(b) => b,
            None => return Err(err_place(at, "'}' without an open block")),
        };
        let ghost b0 = block;
        let ghost rest = self.blocks@;
        assert(rest == blocks0.drop_last() && b0 == blocks0.last());
        assert(block_ok(b0, ins0));
        proof {
            lemma_blocks_pop(blocks0);
        }
        if self.pos < self.tokens.len() {
            assert(toks[self.pos as int].0 == tok_view(self.tokens@[self.pos as int].tok));
        }
        let continuation: Option<bool> = if self.pos < self.tokens.len() {
            match &self.tokens[self.pos].tok {
                Tok::Identifier(w) => if str_eq(w.as_str(), "elsif") {
                    Some(true)
                } else if str_eq(w.as_str(), "else") {
                    Some(false)
                } else {
                    None
                },
                _ => None,
            }
        } else {
            None
        };
        assert(continuation == crate::sieve::syntax::continuation(toks, st0.pos));
        match continuation {
            Some(is_elsif) => {
                let jz_at = match block.jz_at {
                    Some(j) => j,
                    None => return Err(self.err("else block cannot be followed by another branch")),
                };
                self.advance();
                self.instructions.push(Instruction::Jmp(usize::MAX));
                let jmp_at = self.instructions.len() - 1;
                block.chain_jmps.push(jmp_at);
                let ghost ins1 = self.instructions@;
                let target = self.instructions.len();
                self.patch(jz_at, target);
                let ghost ins2 = self.instructions@;
                proof {
                    assert(ins1 == ins0.push(Instruction::Jmp(usize::MAX)));
                    assert(forward_at(ins2, jz_at as int));
                    lemma_ins_push(ins0, Instruction::Jmp(usize::MAX));
                }
                let ghost chain = b0.chain_jmps@.push(ins0.len() as usize);
                assert(block.chain_jmps@ == chain);
                let ghost ins2v = patch_one(ins_views(ins0).push(InsView::Jmp(unset())), jz_at, (ins0.len() + 1) as usize);
                assert(ins_views(ins2) == ins2v);
                assert(self.state() == PState { pos: st0.pos + 1, ins: ins2v, blocks: block_views(rest), ..st0 });
                let ghost mut ins_t = ins2;
                let ghost mut s1 = self.state();
                if is_elsif {
                    match self.parse_test_expr(false, 0) {
                        Ok(()) => {},
                        Err(e) => return Err(e),
                    }
                    proof {
                        ins_t = self.instructions@;
                        s1 = self.state();
                    }
                    self.instructions.push(Instruction::Jz(usize::MAX));
                    block.jz_at = Some(self.instructions.len() - 1);
                    proof {
                        lemma_ins_push(ins_t, Instruction::Jz(usize::MAX));
                    }
                } else {
                    block.jz_at = None;
                }
                let ghost ins3 = self.instructions@;
                let ghost b1 = block;
                self.blocks.push(block);
                proof {
                    lemma_blocks_push(rest, b1);
                }
                proof {
                    assert(self.blocks@ == rest.push(b1));
                    assert(b1.chain_jmps@ == b0.chain_jmps@.push(jmp_at));
                    assert(ins2.len() <= ins_t.len());
                    assert(forall|i: int| 0 <= i < ins2.len() ==> ins_t[i] == ins2[i]);
                    assert(forall|i: int| ins2.len() <= i < ins_t.len() ==> forward_at(ins_t, i));
                    assert(is_elsif ==> ins3 == ins_t.push(Instruction::Jz(usize::MAX)));
                    assert(!is_elsif ==> ins3 == ins_t);
                    assert(forall|i: int| 0 <= i < ins_t.len() ==> ins3[i] == ins_t[i]);
                    // Every old instruction is unchanged, except the patched `jz`.
                    assert forall|i: int| 0 <= i < ins0.len() && i != jz_at as int implies #[trigger] ins3[i] == ins0[i] by {
                        assert(ins3[i] == ins_t[i]);
                        assert(ins_t[i] == ins2[i]);
                        assert(ins2[i] == ins1[i]);
                        assert(ins1[i] == ins0[i]);
                    }
                    assert(ins3[jz_at as int] == ins2[jz_at as int]);
                    assert(ins3[ins0.len() as int] == Instruction::Jmp(usize::MAX));
                    assert(in_block(b1, ins0.len() as int)) by {
                        assert(b1.chain_jmps@[b1.chain_jmps@.len() - 1] == jmp_at);
                    }
                    assert forall|i: int| 0 <= i < ins3.len() implies forward_at(ins3, i) || pending(self.blocks@, i) by {
                        let k_last = rest.len() as int;
                        assert(self.blocks@[k_last] == b1);
                        if i == jz_at as int {
                            assert(forward_at(ins3, i));
                        } else if i < ins0.len() {
                            assert(ins3[i] == ins0[i]);
                            if forward_at(ins0, i) {
                                assert(forward_at(ins3, i));
                            } else {
                                let k = choose|k: int| 0 <= k < blocks0.len() && in_block(#[trigger] blocks0[k], i);
                                if k < rest.len() {
                                    assert(self.blocks@[k] == blocks0[k]);
                                } else {
                                    assert(blocks0[k] == b0);
                                    assert(b0.chain_jmps@.contains(i as usize));
                                    let w = choose|w: int| 0 <= w < b0.chain_jmps@.len() && b0.chain_jmps@[w] == i as usize;
                                    assert(b1.chain_jmps@[w] == i as usize);
                                    assert(in_block(self.blocks@[k_last], i));
                                }
                            }
                        } else if i == ins0.len() as int {
                            assert(in_block(self.blocks@[k_last], i));
                        } else if is_elsif && i == ins3.len() - 1 {
                            assert(in_block(self.blocks@[k_last], i));
                        } else {
                            assert(ins2.len() <= i < ins_t.len());
                            assert(forward_at(ins_t, i));
                            assert(ins3[i] == ins_t[i]);
                            assert(forward_at(ins3, i));
                        }
                    }
                    assert forall|k: int| 0 <= k < self.blocks@.len() implies block_ok(#[trigger] self.blocks@[k], ins3) by {
                        let b = self.blocks@[k];
                        if k < rest.len() {
                            assert(b == blocks0[k]);
                            assert(block_ok(b, ins0));
                            if let Some(j) = b.jz_at {
                                if j != jz_at {
                                    assert(ins3[j as int] == ins0[j as int]);
                                }
                            }
                            assert forall|m: int| 0 <= m < b.chain_jmps@.len() implies (#[trigger] b.chain_jmps@[m]) < ins3.len()
                                && jump_target(ins3[b.chain_jmps@[m] as int]) is Some by {
                                if b.chain_jmps@[m] != jz_at {
                                    assert(ins3[b.chain_jmps@[m] as int] == ins0[b.chain_jmps@[m] as int]);
                                }
                            }
                        } else {
                            assert(b == b1);
                            assert forall|m: int| 0 <= m < b.chain_jmps@.len() implies (#[trigger] b.chain_jmps@[m]) < ins3.len()
                                && jump_target(ins3[b.chain_jmps@[m] as int]) is Some by {
                                if m < b0.chain_jmps@.len() {
                                    assert(b.chain_jmps@[m] == b0.chain_jmps@[m]);
                                    if b.chain_jmps@[m] != jz_at {
                                        assert(ins3[b.chain_jmps@[m] as int] == ins0[b.chain_jmps@[m] as int]);
                                    }
                                }
                            }
                        }
                    }
                }
                self.expect(&Tok::LBrace, "'{'")
            },
            None => {
                let target = self.instructions.len();
                match block.jz_at {
                    Some(j) => self.patch(j, target),
                    None => {},
                }
                let ghost ins_p = self.instructions@;
                assert(ins_views(ins_p) == match b0.jz_at {
                    Some(j) => patch_one(ins_views(ins0), j, target),
                    None => ins_views(ins0),
                });
                proof {
                    assert forall|q: int| 0 <= q < block.chain_jmps@.len() implies (#[trigger] block.chain_jmps@[q])
                        < ins_p.len() && jump_target(ins_p[block.chain_jmps@[q] as int]) is Some by {
                        assert(block.chain_jmps@[q] < ins0.len());
                    }
                }
                self.patch_to_end(&block.chain_jmps);
                proof {
                    let ins = self.instructions@;
                    assert(ins.len() == ins0.len());
                    assert forall|i: int| 0 <= i < ins.len() implies forward_at(ins, i) || pending(self.blocks@, i) by {
                        if block.chain_jmps@.contains(i as usize) {
                        } else if b0.jz_at == Some(i as usize) {
                            assert(ins[i] == ins_p[i]);
                            assert(forward_at(ins_p, i));
                        } else {
                            assert(ins[i] == ins_p[i]);
                            assert(ins_p[i] == ins0[i]);
                            if forward_at(ins0, i) {
                                assert(forward_at(ins, i));
                            } else {
                                let k = choose|k: int| 0 <= k < blocks0.len() && in_block(#[trigger] blocks0[k], i);
                                if k == rest.len() {
                                    assert(blocks0[k] == b0);
                                }
                                assert(self.blocks@[k] == blocks0[k]);
                            }
                        }
                    }
                    assert forall|k: int| 0 <= k < self.blocks@.len() implies block_ok(#[trigger] self.blocks@[k], ins) by {
                        let b = self.blocks@[k];
                        assert(b == blocks0[k]);
                        assert(block_ok(b, ins0));
                        if let Some(j) = b.jz_at {
                            assert(jump_target(ins_p[j as int]) is Some);
                        }
                        assert forall|q: int| 0 <= q < b.chain_jmps@.len() implies (#[trigger] b.chain_jmps@[q]) < ins.len()
                            && jump_target(ins[b.chain_jmps@[q] as int]) is Some by {
                            assert(jump_target(ins0[b.chain_jmps@[q] as int]) is Some);
                            assert(jump_target(ins_p[b.chain_jmps@[q] as int]) is Some);
                        }
                    }
                }
                Ok(())
            },
        }
    }

    /// Compiles the whole token stream.
    fn run(self) -> (r: Result<Program, CompileError>)
        requires
            self.wf(),
        ensures
            r matches Ok(p) ==> all_forward(p.instructions@) && distinct_names(p.capabilities@),
            match run_commands(self.toks(), *self.limits, self.state()) {
                Ok(s) => r matches Ok(p) && ins_views(p.instructions@) == s.ins && strs(p.capabilities@) == s.caps,
                Err(f) => r matches Err(e) && fault(e) == f,
            },
    {
        let ghost toks = self.toks();
        let ghost lim = *self.limits;
        let ghost st0 = self.state();
        let mut parser = self;
        loop
            invariant
                parser.wf(),
                toks == parser.toks(),
                lim == *parser.limits,
                run_commands(toks, lim, st0) == run_commands(toks, lim, parser.state()),
                toks == self.toks(),
                lim == *self.limits,
                st0 == self.state(),
            ensures
                parser.pos == parser.tokens@.len(),
            decreases parser.tokens@.len() - parser.pos,
        {
            let ghost before = parser.state();
            let i = match parser.advance() {
                Some(i) => i,
                None => break,
            };
            let at = (parser.tokens[i].line, parser.tokens[i].col);
            assert(at == place(toks[i as int]));
            assert(parser.state() == PState { pos: before.pos + 1, ..before });
            let word = match &parser.tokens[i].tok {
                Tok::Identifier(w) => Some(w.clone()),
                Tok::RBrace => None,
                _ => return Err(err_at(&parser.tokens[i], "expected a command")),
            };
            match word {
                Some(w) => match parser.command(w.as_str(), at) {
                    Ok(()) => {},
                    Err(e) => return Err(e),
                },
                None => match parser.close_block(at) {
                    Ok(()) => {},
                    Err(e) => return Err(e),
                },
            }
        }
        if parser.blocks.len() > 0 {
            return Err(parser.err("unclosed block at end of script"));
        }
        proof {
            assert forall|i: int| 0 <= i < parser.instructions@.len() implies forward_at(parser.instructions@, i) by {
                assert(!pending(parser.blocks@, i));
            }
        }
        Ok(Program { instructions: parser.instructions, capabilities: parser.capabilities })
    }
}

/// Compiles the tokens of a script into instructions: the program that
/// `compiled` gives for them, or its error. Every jump of the result goes
/// forward and stays within the program, and no capability is listed twice.
pub fn compile(tokens: Vec<Token>, limits: &CompilerLimits) -> (r: Result<Program, CompileError>)
    ensures
        r matches Ok(p) ==> all_forward(p.instructions@) && distinct_names(p.capabilities@),
        match compiled(token_views(tokens@), *limits) {
            Ok((ins, caps)) => r matches Ok(p) && ins_views(p.instructions@) == ins && strs(p.capabilities@) == caps,
            Err(f) => r matches Err(e) && fault(e) == f,
        },
{
    let parser = Parser {
        tokens,
        pos: 0,
        limits,
        instructions: Vec::new(),
        capabilities: Vec::new(),
        commands_started: false,
        blocks: Vec::new(),
    };
    assert(parser.state() == PState { pos: 0, ins: Seq::empty(), caps: Seq::empty(), started: false, blocks: Seq::empty() }) by {
        assert(ins_views(parser.instructions@) =~= Seq::<InsView>::empty());
        assert(strs(parser.capabilities@) =~= Seq::<Seq<char>>::empty());
        assert(block_views(parser.blocks@) =~= Seq::<BlockView>::empty());
    }
    parser.run()
}

} // verus!
