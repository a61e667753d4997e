use vstd::prelude::*;
use crate::text::{chars_of, chars_eq, lower_chars, lower_vec, string_of_chars};
use crate::sieve::instruction::{Comparator, MatchType};

verus! {

/// One element of a compiled glob: `*`, `?`, or a literal character.
#[derive(Clone, Copy, Debug, PartialEq, Eq)]
pub enum Pat {
    Many,
    Single,
    Literal(char),
}

/// The element that matches exactly the character `c`.
pub open spec fn literal_pat(c: char) -> Pat {
    Pat::Literal(c)
}

/// Compiles the rest of a glob pattern. `prev_many` tells whether the last
/// element emitted was `*`, so that a run of stars becomes a single `*`.
/// A backslash makes the next character literal; a trailing backslash is a
/// literal backslash.
pub open spec fn compile_rest(s: Seq<char>, prev_many: bool) -> Seq<Pat>
    decreases s.len(),
{
    if s.len() == 0 {
        Seq::empty()
    } else if s[0] == '*' {
        if prev_many {
            compile_rest(s.drop_first(), true)
        } else {
            seq![Pat::Many] + compile_rest(s.drop_first(), true)
        }
    } else if s[0] == '?' {
        seq![Pat::Single] + compile_rest(s.drop_first(), false)
    } else if s[0] == '\\' {
        if s.len() >= 2 {
            seq![literal_pat(s[1])] + compile_rest(s.subrange(2, s.len() as int), false)
        } else {
            seq![literal_pat('\\')]
        }
    } else {
        seq![literal_pat(s[0])] + compile_rest(s.drop_first(), false)
    }
}

pub open spec fn spec_compile_glob(pattern: Seq<char>) -> Seq<Pat> {
    compile_rest(pattern, false)
}

/// No two `*` elements stand next to each other.
pub open spec fn no_adjacent_many(p: Seq<Pat>) -> bool {
    forall|k: int| 0 <= k < p.len() - 1 && #[trigger] p[k] == Pat::Many ==> p[k + 1] != Pat::Many
}

/// Whether the compiled pattern from element `i` on matches the value from
/// character `j` on: `*` matches any run (empty included), `?` exactly one
/// character, and a literal itself.
pub open spec fn glob_from(p: Seq<Pat>, v: Seq<char>, i: int, j: int) -> bool
    decreases p.len() - i + v.len() - j,
{
    if i < 0 || i >= p.len() || j < 0 || j > v.len() {
        j == v.len()
    } else {
        match p[i] {
            Pat::Many => glob_from(p, v, i + 1, j) || (j < v.len() && glob_from(p, v, i, j + 1)),
            Pat::Single => j < v.len() && glob_from(p, v, i + 1, j + 1),
            Pat::Literal(c) => j < v.len() && v[j] == c && glob_from(p, v, i + 1, j + 1),
        }
    }
}

/// The whole value matches the whole compiled pattern.
pub open spec fn pattern_matches(p: Seq<Pat>, v: Seq<char>) -> bool {
    glob_from(p, v, 0, 0)
}

/// The whole value matches the glob pattern.
pub open spec fn spec_glob_matches(pattern: Seq<char>, value: Seq<char>) -> bool {
    pattern_matches(spec_compile_glob(pattern), value)
}

proof fn lemma_prepend_no_adjacent(head: Pat, r: Seq<Pat>)
    requires
        no_adjacent_many(r),
        head == Pat::Many ==> r.len() == 0 || r[0] != Pat::Many,
    ensures
        no_adjacent_many(seq![head] + r),
{
    let out = seq![head] + r;
    assert forall|k: int| 0 <= k < out.len() - 1 && #[trigger] out[k] == Pat::Many implies out[k + 1] != Pat::Many by {
        assert(out[k + 1] == r[k]);
        if k > 0 {
            assert(out[k] == r[k - 1]);
        }
    }
}

proof fn lemma_compile_no_adjacent(s: Seq<char>, prev: bool)
    ensures
        no_adjacent_many(compile_rest(s, prev)),
        prev && compile_rest(s, prev).len() > 0 ==> compile_rest(s, prev)[0] != Pat::Many,
    decreases s.len(),
{
    reveal_with_fuel(compile_rest, 2);
    if s.len() == 0 {
    } else if s[0] == '*' {
        lemma_compile_no_adjacent(s.drop_first(), true);
        if !prev {
            lemma_prepend_no_adjacent(Pat::Many, compile_rest(s.drop_first(), true));
        }
    } else if s[0] == '?' {
        lemma_compile_no_adjacent(s.drop_first(), false);
        lemma_prepend_no_adjacent(Pat::Single, compile_rest(s.drop_first(), false));
    } else if s[0] == '\\' {
        if s.len() >= 2 {
            lemma_compile_no_adjacent(s.subrange(2, s.len() as int), false);
            lemma_prepend_no_adjacent(literal_pat(s[1]), compile_rest(s.subrange(2, s.len() as int), false));
        }
    } else {
        lemma_compile_no_adjacent(s.drop_first(), false);
        lemma_prepend_no_adjacent(literal_pat(s[0]), compile_rest(s.drop_first(), false));
    }
}

proof fn lemma_compile_literal(s: Seq<char>, i: int, prev: bool)
    requires
        0 <= i < s.len(),
        s[i] != '*',
        s[i] != '?',
        s[i] != '\\',
    ensures
        compile_rest(s.skip(i), prev) == seq![literal_pat(s[i])] + compile_rest(s.skip(i + 1), false),
{
    reveal_with_fuel(compile_rest, 2);
    let t = s.skip(i);
    assert(t[0] == s[i]);
    assert(t.drop_first() =~= s.skip(i + 1));
}

proof fn lemma_compile_escape(s: Seq<char>, i: int, prev: bool)
    requires
        0 <= i < s.len() - 1,
        s[i] == '\\',
    ensures
        compile_rest(s.skip(i), prev) == seq![literal_pat(s[i + 1])] + compile_rest(s.skip(i + 2), false),
{
    reveal_with_fuel(compile_rest, 2);
    let t = s.skip(i);
    assert(t[0] == s[i]);
    assert(t[1] == s[i + 1]);
    assert(t.subrange(2, t.len() as int) =~= s.skip(i + 2));
}

proof fn lemma_compile_trailing_escape(s: Seq<char>, i: int, prev: bool)
    requires
        i == s.len() - 1,
        0 <= i,
        s[i] == '\\',
    ensures
        compile_rest(s.skip(i), prev) == seq![literal_pat('\\')],
{
    reveal_with_fuel(compile_rest, 2);
    let t = s.skip(i);
    assert(t[0] == s[i]);
}

proof fn lemma_compile_single(s: Seq<char>, i: int, prev: bool)
    requires
        0 <= i < s.len(),
        s[i] == '?',
    ensures
        compile_rest(s.skip(i), prev) == seq![Pat::Single] + compile_rest(s.skip(i + 1), false),
{
    reveal_with_fuel(compile_rest, 2);
    let t = s.skip(i);
    assert(t[0] == s[i]);
    assert(t.drop_first() =~= s.skip(i + 1));
}

proof fn lemma_compile_star(s: Seq<char>, i: int, prev: bool)
    requires
        0 <= i < s.len(),
        s[i] == '*',
    ensures
        compile_rest(s.skip(i), prev) == (if prev {
            compile_rest(s.skip(i + 1), true)
        } else {
            seq![Pat::Many] + compile_rest(s.skip(i + 1), true)
        }),
{
    reveal_with_fuel(compile_rest, 2);
    let t = s.skip(i);
    assert(t[0] == s[i]);
    assert(t.drop_first() =~= s.skip(i + 1));
}

/// Compiles a glob pattern.
pub fn compile_glob(pattern: &str) -> (compiled: Vec<Pat>)
    ensures
        compiled@ == spec_compile_glob(pattern@),
        no_adjacent_many(compiled@),
{
    let chars = chars_of(pattern);
    let mut compiled: Vec<Pat> = Vec::new();
    let mut i: usize = 0;
    let ghost s = chars@;
    proof {
        assert(s.skip(0) =~= s);
        lemma_compile_no_adjacent(s, false);
    }
    while i < chars.len()
        invariant
            s == chars@,
            s == pattern@,
            i <= s.len(),
            compiled@ + compile_rest(s.skip(i as int), compiled@.len() > 0 && compiled@.last() == Pat::Many)
                == compile_rest(s, false),
        decreases s.len() - i,
    {
        let ghost prev = compiled@.len() > 0 && compiled@.last() == Pat::Many;
        let ghost before = compiled@;
        let ch = chars[i];
        if ch == '*' {
            proof { lemma_compile_star(s, i as int, prev); }
            let last_many = compiled.len() > 0 && match compiled[compiled.len() - 1] {
                Pat::Many => true,
                _ => false,
            };
            if !last_many {
                compiled.push(Pat::Many);
                assert(compiled@ =~= before + seq![Pat::Many]);
                assert((before + seq![Pat::Many]) + compile_rest(s.skip(i + 1), true) =~= before + (seq![Pat::Many] + compile_rest(s.skip(i + 1), true)));
            }
            i += 1;
        } else if ch == '?' {
            proof { lemma_compile_single(s, i as int, prev); }
            compiled.push(Pat::Single);
            assert(compiled@ =~= before + seq![Pat::Single]);
            assert((before + seq![Pat::Single]) + compile_rest(s.skip(i + 1), false) =~= before + (seq![Pat::Single] + compile_rest(s.skip(i + 1), false)));
            i += 1;
        } else if ch == '\\' {
            if i + 1 < chars.len() {
                proof { lemma_compile_escape(s, i as int, prev); }
                let next = chars[i + 1];
                compiled.push(Pat::Literal(next));
                assert(Pat::Literal(next) == literal_pat(next));
                assert(compiled@ =~= before + seq![literal_pat(next)]);
                assert((before + seq![literal_pat(next)]) + compile_rest(s.skip(i + 2), false) =~= before + (seq![literal_pat(next)] + compile_rest(s.skip(i + 2), false)));
                i += 2;
            } else {
                proof { lemma_compile_trailing_escape(s, i as int, prev); }
                compiled.push(Pat::Literal('\\'));
                assert(Pat::Literal('\\') == literal_pat('\\'));
                assert(s.skip(i + 1) =~= Seq::<char>::empty());
                assert(compiled@ =~= before + seq![literal_pat('\\')]);
                assert(compile_rest(s.skip(i + 1), false) =~= Seq::<Pat>::empty());
                assert(compiled@ + compile_rest(s.skip(i + 1), false) =~= before + seq![literal_pat('\\')]);
                i += 1;
            }
        } else {
            proof { lemma_compile_literal(s, i as int, prev); }
            compiled.push(Pat::Literal(ch));
            assert(Pat::Literal(ch) == literal_pat(ch));
            assert(compiled@ =~= before + seq![literal_pat(ch)]);
            assert((before + seq![literal_pat(ch)]) + compile_rest(s.skip(i + 1), false) =~= before + (seq![literal_pat(ch)] + compile_rest(s.skip(i + 1), false)));
            i += 1;
        }
    }
    assert(s.skip(i as int) =~= Seq::<char>::empty());
    assert(compiled@ =~= compile_rest(s, false));
    compiled
}

/// A star at `s` matches from `u` only through a match of what follows the
/// star from some later point.
proof fn lemma_star_expand(p: Seq<Pat>, v: Seq<char>, s: int, u: int)
    requires
        0 <= s < p.len(),
        p[s] == Pat::Many,
        0 <= u <= v.len(),
        glob_from(p, v, s, u),
    ensures
        exists|w: int| u <= w <= v.len() && #[trigger] glob_from(p, v, s + 1, w),
    decreases v.len() - u,
{
    if glob_from(p, v, s + 1, u) {
        assert(glob_from(p, v, s + 1, u));
    } else {
        lemma_star_expand(p, v, s, u + 1);
    }
}

/// A star that matches from `b` also matches from any earlier `a`: it
/// absorbs the characters in between.
proof fn lemma_star_monotone(p: Seq<Pat>, v: Seq<char>, q: int, a: int, b: int)
    requires
        0 <= q < p.len(),
        p[q] == Pat::Many,
        0 <= a <= b <= v.len(),
        glob_from(p, v, q, b),
    ensures
        glob_from(p, v, q, a),
    decreases b - a,
{
    if a < b {
        lemma_star_monotone(p, v, q, a + 1, b);
    }
}

/// A star-free stretch of the pattern matches one character per element.
proof fn lemma_segment(p: Seq<Pat>, v: Seq<char>, lo: int, q: int, w: int)
    requires
        0 <= lo <= q < p.len(),
        forall|k: int| lo <= k < q ==> p[k] != Pat::Many,
        0 <= w <= v.len(),
        glob_from(p, v, lo, w),
    ensures
        w + (q - lo) <= v.len(),
        glob_from(p, v, q, w + (q - lo)),
    decreases q - lo,
{
    if lo < q {
        assert(p[lo] != Pat::Many);
        lemma_segment(p, v, lo + 1, q, w + 1);
    }
}

/// Whether the value matches the glob pattern, in time linear in the product
/// of their lengths at worst: the matcher backtracks only to the latest `*`.
pub fn glob_matches(pattern: &str, value: &str) -> (matched: bool)
    ensures
        matched == spec_glob_matches(pattern@, value@),
{
    let compiled = compile_glob(pattern);
    let chars = chars_of(value);
    glob_matches_compiled(&compiled, &chars)
}

/// Matches a value against a compiled pattern with no adjacent stars.
pub fn glob_matches_compiled(pattern: &Vec<Pat>, value: &Vec<char>) -> (matched: bool)
    requires
        no_adjacent_many(pattern@),
    ensures
        matched == pattern_matches(pattern@, value@),
{
    let ghost p = pattern@;
    let ghost v = value@;
    let ghost m = glob_from(p, v, 0, 0);
    let mut px: usize = 0;
    let mut nx: usize = 0;
    let mut next_px: usize = 0;
    let mut next_nx: u128 = 0;
    while px < pattern.len() || nx < value.len()
        invariant
            p == pattern@,
            v == value@,
            m == glob_from(p, v, 0, 0),
            no_adjacent_many(p),
            px <= p.len(),
            nx <= v.len(),
            next_nx <= v.len() + 1,
            next_nx == 0 ==> m == glob_from(p, v, px as int, nx as int),
            next_nx > 0 ==> next_px < p.len() && p[next_px as int] == Pat::Many,
            next_nx > 0 && px > next_px ==> {
                &&& px - next_px - 1 == nx - (next_nx - 1)
                &&& forall|k: int| next_px < k < px ==> p[k] != Pat::Many
                &&& m == (glob_from(p, v, px as int, nx as int) || (next_nx <= v.len()
                    && glob_from(p, v, next_px as int, next_nx as int)))
            },
            next_nx > 0 && px <= next_px ==> px == next_px && nx == next_nx && nx <= v.len()
                && m == glob_from(p, v, px as int, nx as int),
        decreases
            2 * (v.len() + 1 - next_nx) + (if px > next_px || next_nx == 0 { 1int } else { 0int }),
            p.len() - px + v.len() - nx,
    {
        if px < pattern.len() {
            match pattern[px] {
                Pat::Literal(ch) => {
                    if nx < value.len() && value[nx] == ch {
                        px += 1;
                        nx += 1;
                        continue;
                    }
                },
                Pat::Single => {
                    if nx < value.len() {
                        px += 1;
                        nx += 1;
                        continue;
                    }
                },
                Pat::Many => {
                    proof {
                        if next_nx > 0 && px > next_px {
                            if next_nx <= v.len() && glob_from(p, v, next_px as int, next_nx as int) {
                                lemma_star_expand(p, v, next_px as int, next_nx as int);
                                let w = choose|w: int| next_nx <= w <= v.len() && #[trigger] glob_from(p, v, next_px + 1, w);
                                lemma_segment(p, v, next_px + 1, px as int, w);
                                lemma_star_monotone(p, v, px as int, nx as int, w + (px - next_px - 1));
                            }
                            if px == next_px + 1 {
                                assert(p[next_px as int] == Pat::Many);
                            }
                        }
                    }
                    next_px = px;
                    next_nx = nx as u128 + 1;
                    px += 1;
                    continue;
                },
            }
        }
        if next_nx > 0 && next_nx <= value.len() as u128 {
            px = next_px;
            nx = next_nx as usize;
            continue;
        }
        return false;
    }
    true
}

} // verus!

verus! {

/// Whether `needle` occurs in `hay` as a contiguous run.
pub open spec fn contains_seq(hay: Seq<char>, needle: Seq<char>) -> bool {
    exists|i: int| 0 <= i && i + needle.len() <= hay.len() && #[trigger] hay.subrange(i, i + needle.len()) == needle
}

/// Whether `needle` occurs in `hay`.
pub fn find_chars(hay: &Vec<char>, needle: &Vec<char>) -> (found: bool)
    ensures
        found == contains_seq(hay@, needle@),
{
    if needle.len() > hay.len() {
        return false;
    }
    let last = hay.len() - needle.len();
    let mut i: usize = 0;
    let hay_len = hay.len();
    loop
        invariant
            hay_len == hay@.len(),
            needle@.len() <= hay@.len(),
            last == hay@.len() - needle@.len(),
            i <= last,
            forall|j: int| 0 <= j < i ==> #[trigger] hay@.subrange(j, j + needle@.len()) != needle@,
        decreases last - i,
    {
        let mut k: usize = 0;
        let mut same = true;
        while k < needle.len()
            invariant
                needle@.len() <= hay@.len(),
                hay@.len() <= usize::MAX,
                i + needle@.len() <= hay@.len(),
                i <= last,
                last == hay@.len() - needle@.len(),
                k <= needle@.len(),
                same == (forall|m: int| 0 <= m < k ==> hay@[i + m] == needle@[m]),
            decreases needle@.len() - k,
        {
            if hay[i + k] != needle[k] {
                same = false;
            }
            k += 1;
        }
        if same {
            assert(hay@.subrange(i as int, i + needle@.len()) =~= needle@);
            return true;
        }
        assert(hay@.subrange(i as int, i + needle@.len()) != needle@) by {
            let m = choose|m: int| 0 <= m < needle@.len() && hay@[i + m] != needle@[m];
            assert(hay@.subrange(i as int, i + needle@.len())[m] == hay@[i + m]);
        }
        if i == last {
            assert forall|j: int| 0 <= j && j + needle@.len() <= hay@.len() implies #[trigger] hay@.subrange(j, j + needle@.len()) != needle@ by {
                assert(j <= last);
            }
            return false;
        }
        i += 1;
    }
}

/// What a key and a value do under a match type and a comparator: `:is`
/// compares whole values, `:contains` looks for the key inside the value (an
/// empty key is always found), `:matches` compares against a glob. The
/// casemap comparator folds ASCII letters to lowercase first; the octet
/// comparator compares the characters as they are.
pub open spec fn spec_value_matches(
    match_type: MatchType,
    comparator: Comparator,
    key: Seq<char>,
    value: Seq<char>,
) -> bool {
    let (k, v) = match comparator {
        Comparator::Octet => (key, value),
        Comparator::AsciiCaseMap => (lower_chars(key), lower_chars(value)),
    };
    match match_type {
        MatchType::Is => v == k,
        MatchType::Contains => key.len() == 0 || contains_seq(v, k),
        MatchType::Matches => spec_glob_matches(k, v),
    }
}

/// Compares one key with one value.
pub fn value_matches(match_type: MatchType, comparator: Comparator, key: &str, value: &str) -> (matched: bool)
    ensures
        matched == spec_value_matches(match_type, comparator, key@, value@),
{
    let key_chars = chars_of(key);
    let value_chars = chars_of(value);
    let key_empty = key_chars.len() == 0;
    let (k, v) = match comparator {
        Comparator::Octet => (key_chars, value_chars),
        Comparator::AsciiCaseMap => (lower_vec(key_chars.as_slice()), lower_vec(value_chars.as_slice())),
    };
    match match_type {
        MatchType::Is => chars_eq(v.as_slice(), k.as_slice()),
        MatchType::Contains => {
            if key_empty {
                return true;
            }
            find_chars(&v, &k)
        },
        MatchType::Matches => {
            let pattern = string_of_chars(k.as_slice());
            let compiled = compile_glob(pattern.as_str());
            glob_matches_compiled(&compiled, &v)
        },
    }
}

} // verus!
