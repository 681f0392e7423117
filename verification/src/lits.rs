//! The ordered literal-reading heuristics: a literal's text is tried against
//! every reading in a fixed order, and every reading that matches contributes
//! one token; a literal no reading recognizes yields the catch-all token.

use vstd::prelude::*;

use crate::token::Token;
use crate::token::TokenV;
use crate::tree::LiteralText;

verus! {

/// The numeric base a reading parses in.
pub open spec fn base_of(hex: bool) -> int {
    if hex { 16 } else { 10 }
}

/// Whether `c` is a digit of the base: `0`-`9`, and for base 16 also
/// `a`-`f` and `A`-`F`.
pub open spec fn digit_ok(c: char, hex: bool) -> bool {
    (48 <= c as int && c as int <= 57) || (hex && ((97 <= c as int && c as int <= 102) || (65
        <= c as int && c as int <= 70)))
}

/// The numeric value of a digit character.
pub open spec fn digit_val(c: char) -> int {
    if 48 <= c as int && c as int <= 57 {
        c as int - 48
    } else if 97 <= c as int && c as int <= 102 {
        c as int - 87
    } else {
        c as int - 55
    }
}

/// The value of a digit string, most significant digit first.
pub open spec fn digits_val(s: Seq<char>, hex: bool) -> int
    decreases s.len(),
{
    if s.len() == 0 {
        0
    } else {
        digits_val(s.drop_last(), hex) * base_of(hex) + digit_val(s.last())
    }
}

pub open spec fn all_digits(s: Seq<char>, hex: bool) -> bool {
    forall|i: int| 0 <= i < s.len() ==> digit_ok(s[i], hex)
}

/// The digits of a numeric string after an optional leading sign.
pub open spec fn num_body(s: Seq<char>) -> Seq<char> {
    if s.len() > 0 && (s[0] == '+' || s[0] == '-') {
        s.drop_first()
    } else {
        s
    }
}

pub open spec fn num_neg(s: Seq<char>) -> bool {
    s.len() > 0 && s[0] == '-'
}

/// The signed value of a numeric string: an optional `+` or `-` sign followed
/// by one or more digits of the base, and nothing else.
pub open spec fn signed_val(s: Seq<char>, hex: bool) -> Option<int> {
    let b = num_body(s);
    if b.len() > 0 && all_digits(b, hex) {
        if num_neg(s) {
            Some(-digits_val(b, hex))
        } else {
            Some(digits_val(b, hex))
        }
    } else {
        None
    }
}

/// The signed value where it exists and fits in a 128-bit signed integer.
pub open spec fn int_of(s: Seq<char>, hex: bool) -> Option<i128> {
    match signed_val(s, hex) {
        Some(v) => if i128::MIN as int <= v && v <= i128::MAX as int {
            Some(v as i128)
        } else {
            None
        },
        None => None,
    }
}

/// The decimal integer reading of a literal's text.
pub open spec fn dec_i128_of(s: Seq<char>) -> Option<i128> {
    int_of(s, false)
}

/// The text with every leading repetition of the character removed.
pub open spec fn trim_start_char(s: Seq<char>, c: char) -> Seq<char>
    decreases s.len(),
{
    if s.len() > 0 && s[0] == c {
        trim_start_char(s.drop_first(), c)
    } else {
        s
    }
}

/// The text with every trailing repetition of the character removed.
pub open spec fn trim_end_char(s: Seq<char>, c: char) -> Seq<char>
    decreases s.len(),
{
    if s.len() > 0 && s.last() == c {
        trim_end_char(s.drop_last(), c)
    } else {
        s
    }
}

/// The text with every leading repetition of the two-character prefix removed.
pub open spec fn trim_start_pair(s: Seq<char>, c0: char, c1: char) -> Seq<char>
    decreases s.len(),
{
    if s.len() >= 2 && s[0] == c0 && s[1] == c1 {
        trim_start_pair(s.skip(2), c0, c1)
    } else {
        s
    }
}

/// The whitespace characters, as the host language's trimming knows them.
pub open spec fn is_space(c: char) -> bool {
    c as int == 32 || (9 <= c as int && c as int <= 13) || c as int == 0x85 || c as int == 0xa0
        || c as int == 0x1680 || (0x2000 <= c as int && c as int <= 0x200a) || c as int == 0x2028
        || c as int == 0x2029 || c as int == 0x202f || c as int == 0x205f || c as int == 0x3000
}

pub open spec fn trim_start_space(s: Seq<char>) -> Seq<char>
    decreases s.len(),
{
    if s.len() > 0 && is_space(s[0]) {
        trim_start_space(s.drop_first())
    } else {
        s
    }
}

pub open spec fn trim_end_space(s: Seq<char>) -> Seq<char>
    decreases s.len(),
{
    if s.len() > 0 && is_space(s.last()) {
        trim_end_space(s.drop_last())
    } else {
        s
    }
}

/// The hexadecimal integer reading: the text carries a `0x` prefix, and what
/// stands after every leading `0x` repetition is a signed base-16 number.
pub open spec fn hex_i128_of(s: Seq<char>) -> Option<i128> {
    if s.len() >= 2 && s[0] == '0' && s[1] == 'x' {
        int_of(trim_start_pair(s, '0', 'x'), true)
    } else {
        None
    }
}

/// The byte-character reading: text of the exact shape `b'<one character>'`.
pub open spec fn byte_char_of(s: Seq<char>) -> Option<char> {
    if s.len() == 4 && s[0] == 'b' && s[1] == '\'' && s[3] == '\'' {
        Some(s[2])
    } else {
        None
    }
}

/// What stands between a character literal's quotes after whitespace trimming.
pub open spec fn char_inner(s: Seq<char>) -> Seq<char> {
    trim_end_space(trim_start_space(trim_end_char(trim_start_char(s, '\''), '\'')))
}

/// The character reading: text wrapped in single quotes whose inside, with
/// whitespace trimmed, is exactly one character.
pub open spec fn char_of(s: Seq<char>) -> Option<char> {
    if s.len() >= 1 && s[0] == '\'' && s[s.len() - 1] == '\'' && char_inner(s).len() == 1 {
        Some(char_inner(s)[0])
    } else {
        None
    }
}

/// The string reading: text wrapped in double quotes; the inside is kept
/// verbatim, with no escape decoding.
pub open spec fn string_inner_of(s: Seq<char>) -> Option<Seq<char>> {
    if s.len() >= 1 && s[0] == '"' && s[s.len() - 1] == '"' {
        Some(trim_end_char(trim_start_char(s, '"'), '"'))
    } else {
        None
    }
}

/// The byte-string reading: text wrapped as `b"<...>"`; the inside is kept
/// verbatim and yields the same token kind as a plain string.
pub open spec fn byte_string_inner_of(s: Seq<char>) -> Option<Seq<char>> {
    if s.len() >= 2 && s[0] == 'b' && s[1] == '"' && s[s.len() - 1] == '"' {
        Some(trim_start_pair(trim_end_char(s, '"'), 'b', '"'))
    } else {
        None
    }
}

/// What an integer reading contributes: one token where it matched.
pub open spec fn hit_of_int(o: Option<i128>) -> Seq<TokenV> {
    if o is Some {
        seq![TokenV::Integer(o->0)]
    } else {
        seq![]
    }
}

/// What the floating reading contributes: one token where it matched.
pub open spec fn hit_of_float(o: Option<u64>) -> Seq<TokenV> {
    if o is Some {
        seq![TokenV::Float(o->0)]
    } else {
        seq![]
    }
}

/// What the byte-character reading contributes.
pub open spec fn hit_of_byte_char(o: Option<char>) -> Seq<TokenV> {
    if o is Some {
        seq![TokenV::ByteChar(o->0)]
    } else {
        seq![]
    }
}

/// What the character reading contributes.
pub open spec fn hit_of_char(o: Option<char>) -> Seq<TokenV> {
    if o is Some {
        seq![TokenV::Char(o->0)]
    } else {
        seq![]
    }
}

/// What a string or byte-string reading contributes.
pub open spec fn hit_of_string(o: Option<Seq<char>>) -> Seq<TokenV> {
    if o is Some {
        seq![TokenV::String(o->0)]
    } else {
        seq![]
    }
}

/// The tokens contributed by the readings that match, in reading order.
pub open spec fn lit_hits(text: Seq<char>, float_bits: Option<u64>) -> Seq<TokenV> {
    hit_of_int(dec_i128_of(text)) + hit_of_float(float_bits) + hit_of_int(hex_i128_of(text))
        + hit_of_byte_char(byte_char_of(text)) + hit_of_char(char_of(text)) + hit_of_string(
        string_inner_of(text),
    ) + hit_of_string(byte_string_inner_of(text))
}

/// What a literal classifies to: every matching reading's token in order, or
/// the catch-all token holding the raw text where no reading matched.
pub open spec fn lit_tokens(text: Seq<char>, float_bits: Option<u64>) -> Seq<TokenV> {
    if lit_hits(text, float_bits).len() == 0 {
        seq![TokenV::Literal(text)]
    } else {
        lit_hits(text, float_bits)
    }
}

/// The model of a token sequence.
pub open spec fn toks_view(s: Seq<Token>) -> Seq<TokenV> {
    s.map_values(|t: Token| t@)
}

proof fn lemma_digits_val_nonneg(s: Seq<char>, hex: bool)
    requires
        all_digits(s, hex),
    ensures
        digits_val(s, hex) >= 0,
    decreases s.len(),
{
    if s.len() > 0 {
        assert(all_digits(s.drop_last(), hex)) by {
            assert(forall|i: int|
                0 <= i < s.len() - 1 ==> s.drop_last()[i] == s[i] && digit_ok(s[i], hex));
        }
        lemma_digits_val_nonneg(s.drop_last(), hex);
        let d = digits_val(s.drop_last(), hex);
        if hex {
            assert(d * 16 >= 0);
        } else {
            assert(d * 10 >= 0);
        }
        assert(digit_ok(s.last(), hex));
    }
}

/// A digit string's value only grows as digits are appended: the value of a
/// prefix never exceeds the value of the whole.
proof fn lemma_digits_val_prefix_le(s: Seq<char>, hex: bool, k: int)
    requires
        all_digits(s, hex),
        0 <= k <= s.len(),
    ensures
        digits_val(s.subrange(0, k), hex) <= digits_val(s, hex),
    decreases s.len() - k,
{
    if k == s.len() {
        assert(s.subrange(0, k) =~= s);
    } else {
        let p = s.subrange(0, k);
        let q = s.subrange(0, k + 1);
        assert(q.drop_last() =~= p);
        assert(all_digits(p, hex));
        assert(all_digits(q, hex));
        lemma_digits_val_nonneg(p, hex);
        assert(digit_ok(q.last(), hex));
        let dp = digits_val(p, hex);
        if hex {
            assert(dp * 16 >= dp);
        } else {
            assert(dp * 10 >= dp);
        }
        assert(digits_val(q, hex) >= dp);
        lemma_digits_val_prefix_le(s, hex, k + 1);
    }
}

proof fn lemma_trim_start_char(s: Seq<char>, c: char, lo: int)
    requires
        0 <= lo <= s.len(),
        forall|j: int| 0 <= j < lo ==> s[j] == c,
        lo < s.len() ==> s[lo] != c,
    ensures
        trim_start_char(s, c) =~= s.skip(lo),
    decreases lo,
{
    if lo == 0 {
        assert(s.skip(0) =~= s);
    } else {
        assert(s[0] == c);
        let t = s.drop_first();
        lemma_trim_start_char(t, c, lo - 1);
        assert(t.skip(lo - 1) =~= s.skip(lo));
    }
}

proof fn lemma_trim_end_char(s: Seq<char>, c: char, hi: int)
    requires
        0 <= hi <= s.len(),
        forall|j: int| hi <= j < s.len() ==> s[j] == c,
        hi > 0 ==> s[hi - 1] != c,
    ensures
        trim_end_char(s, c) =~= s.take(hi),
    decreases s.len(),
{
    if hi == s.len() {
        assert(s.take(hi) =~= s);
    } else {
        assert(s.last() == c);
        let t = s.drop_last();
        lemma_trim_end_char(t, c, hi);
        assert(t.take(hi) =~= s.take(hi));
    }
}

proof fn lemma_trim_start_space(s: Seq<char>, lo: int)
    requires
        0 <= lo <= s.len(),
        forall|j: int| 0 <= j < lo ==> is_space(s[j]),
        lo < s.len() ==> !is_space(s[lo]),
    ensures
        trim_start_space(s) =~= s.skip(lo),
    decreases lo,
{
    if lo == 0 {
        assert(s.skip(0) =~= s);
    } else {
        assert(is_space(s[0]));
        let t = s.drop_first();
        lemma_trim_start_space(t, lo - 1);
        assert(t.skip(lo - 1) =~= s.skip(lo));
    }
}

proof fn lemma_trim_end_space(s: Seq<char>, hi: int)
    requires
        0 <= hi <= s.len(),
        forall|j: int| hi <= j < s.len() ==> is_space(s[j]),
        hi > 0 ==> !is_space(s[hi - 1]),
    ensures
        trim_end_space(s) =~= s.take(hi),
    decreases s.len(),
{
    if hi == s.len() {
        assert(s.take(hi) =~= s);
    } else {
        assert(is_space(s.last()));
        let t = s.drop_last();
        lemma_trim_end_space(t, hi);
        assert(t.take(hi) =~= s.take(hi));
    }
}

proof fn lemma_trim_start_pair(s: Seq<char>, c0: char, c1: char, lo: int)
    requires
        0 <= lo <= s.len(),
        lo % 2 == 0,
        forall|j: int| 0 <= j < lo ==> #[trigger] s[j] == (if j % 2 == 0 {
            c0
        } else {
            c1
        }),
        lo + 2 <= s.len() ==> !(s[lo] == c0 && s[lo + 1] == c1),
    ensures
        trim_start_pair(s, c0, c1) =~= s.skip(lo),
    decreases lo,
{
    if lo == 0 {
        assert(s.skip(0) =~= s);
    } else {
        assert(s[0] == c0);
        assert(s[1] == c1);
        let t = s.skip(2);
        assert forall|j: int| 0 <= j < lo - 2 implies #[trigger] t[j] == (if j % 2 == 0 {
            c0
        } else {
            c1
        }) by {
            assert(t[j] == s[j + 2]);
            assert((j + 2) % 2 == j % 2);
        }
        lemma_trim_start_pair(t, c0, c1, lo - 2);
        assert(t.skip(lo - 2) =~= s.skip(lo));
    }
}

/// Whether `c` is a whitespace character.
pub fn is_space_c(c: char) -> (r: bool)
    ensures
        r == is_space(c),
{
    let u = c as u32;
    u == 32 || (9 <= u && u <= 13) || u == 0x85 || u == 0xa0 || u == 0x1680 || (0x2000 <= u && u
        <= 0x200a) || u == 0x2028 || u == 0x2029 || u == 0x202f || u == 0x205f || u == 0x3000
}

/// One guarded accumulation step: `mag * base + d` where it stays within
/// `limit`, and nothing where it would exceed it.
fn step_mag(mag: u128, base: u128, d: u128, limit: u128) -> (r: Option<u128>)
    ensures
        r matches Some(m) ==> m as int == mag as int * base as int + d as int && m <= limit,
        r is None ==> mag as int * base as int + d as int > limit as int,
{
    match mag.checked_mul(base) {
        Some(m) => match m.checked_add(d) {
            Some(m2) => if m2 <= limit {
                Some(m2)
            } else {
                None
            },
            None => None,
        },
        None => None,
    }
}

/// Reads a signed integer from the whole text, in base 10, or base 16 when
/// `hex` is set: an optional sign, then one or more digits, and the value
/// must fit in an `i128`.
pub fn parse_int(s: &str, hex: bool) -> (r: Option<i128>)
    ensures
        r == int_of(s@, hex),
{
    let n = s.unicode_len();
    if n == 0 {
        return None;
    }
    let c0 = s.get_char(0);
    let neg = c0 == '-';
    let start: usize = if c0 == '-' || c0 == '+' {
        1
    } else {
        0
    };
    let ghost body = num_body(s@);
    proof {
        assert(body =~= s@.subrange(start as int, n as int));
    }
    if start == n {
        return None;
    }
    let limit: u128 = if neg {
        170141183460469231731687303715884105728u128
    } else {
        170141183460469231731687303715884105727u128
    };
    let base: u128 = if hex {
        16
    } else {
        10
    };
    let mut mag: u128 = 0;
    let mut i: usize = start;
    while i < n
        invariant
            start <= i <= n,
            n == s@.len(),
            start == 1 ==> (s@[0] == '-' || s@[0] == '+'),
            neg == num_neg(s@),
            start == (if s@.len() > 0 && (s@[0] == '+' || s@[0] == '-') {
                1int
            } else {
                0int
            }),
            body == num_body(s@),
            body =~= s@.subrange(start as int, n as int),
            all_digits(s@.subrange(start as int, i as int), hex),
            mag as int == digits_val(s@.subrange(start as int, i as int), hex),
            mag <= limit,
            limit as int == if neg {
                0x80000000000000000000000000000000int
            } else {
                0x7fffffffffffffffffffffffffffffffint
            },
            base as int == base_of(hex),
        decreases n - i,
    {
        let c = s.get_char(i);
        let u = c as u32;
        let ok = if hex {
            (48 <= u && u <= 57) || (97 <= u && u <= 102) || (65 <= u && u <= 70)
        } else {
            48 <= u && u <= 57
        };
        if !ok {
            proof {
                assert(body[i - start] == s@[i as int]);
                assert(!digit_ok(body[i - start], hex));
                assert(!all_digits(body, hex));
            }
            return None;
        }
        let d32: u32 = if u <= 57 {
            u - 48
        } else if u >= 97 {
            u - 87
        } else {
            u - 55
        };
        let d = d32 as u128;
        proof {
            assert(d as int == digit_val(s@[i as int]));
        }
        match step_mag(mag, base, d, limit) {
            Some(m2) => {
                proof {
                    let p = s@.subrange(start as int, i as int);
                    let q = s@.subrange(start as int, i + 1);
                    assert(q.drop_last() =~= p);
                    assert(q.last() == s@[i as int]);
                }
                mag = m2;
                i = i + 1;
            },
            None => {
                proof {
                    let p = s@.subrange(start as int, i as int);
                    let q = s@.subrange(start as int, i + 1);
                    assert(q.drop_last() =~= p);
                    assert(q.last() == s@[i as int]);
                    assert(digit_ok(q.last(), hex));
                    assert(digits_val(q.drop_last(), hex) == mag as int);
                    assert(digit_val(q.last()) == d as int);
                    assert(digits_val(q, hex) == mag as int * base_of(hex) + d as int);
                    assert(digits_val(q, hex) > limit as int);
                    if all_digits(body, hex) {
                        assert(q =~= body.subrange(0, i + 1 - start));
                        lemma_digits_val_prefix_le(body, hex, i + 1 - start);
                        assert(digits_val(body, hex) > limit as int);
                        if neg {
                            assert(signed_val(s@, hex) == Some(-digits_val(body, hex)));
                            assert(-digits_val(body, hex) < i128::MIN as int);
                        } else {
                            assert(signed_val(s@, hex) == Some(digits_val(body, hex)));
                            assert(digits_val(body, hex) > i128::MAX as int);
                        }
                        assert(int_of(s@, hex) is None);
                    } else {
                        assert(signed_val(s@, hex) is None);
                        assert(int_of(s@, hex) is None);
                    }
                }
                return None;
            },
        }
    }
    proof {
        assert(s@.subrange(start as int, n as int) =~= body);
        assert(all_digits(body, hex));
        assert(mag as int == digits_val(body, hex));
        lemma_digits_val_nonneg(body, hex);
    }
    if neg {
        if mag == 170141183460469231731687303715884105728u128 {
            Some(i128::MIN)
        } else {
            Some(-(mag as i128))
        }
    } else {
        Some(mag as i128)
    }
}

/// Appends the decimal integer reading of the text, where it has one.
fn push_dec(out: &mut Vec<Token>, s: &str)
    ensures
        toks_view(final(out)@) == toks_view(old(out)@) + hit_of_int(dec_i128_of(s@)),
{
    let ghost pre = out@;
    match parse_int(s, false) {
        Some(v) => {
            out.push(Token::Integer(v));
        },
        None => (),
    }
    assert(toks_view(out@) =~= toks_view(pre) + hit_of_int(dec_i128_of(s@)));
}

/// Appends the floating reading made at the boundary, where there is one.
fn push_float(out: &mut Vec<Token>, fb: Option<u64>)
    ensures
        toks_view(final(out)@) == toks_view(old(out)@) + hit_of_float(fb),
{
    let ghost pre = out@;
    match fb {
        Some(b) => {
            out.push(Token::Float(b));
        },
        None => (),
    }
    assert(toks_view(out@) =~= toks_view(pre) + hit_of_float(fb));
}

/// Appends the hexadecimal integer reading of the text, where it has one.
fn push_hex(out: &mut Vec<Token>, s: &str, n: usize)
    requires
        n as int == s@.len(),
    ensures
        toks_view(final(out)@) == toks_view(old(out)@) + hit_of_int(hex_i128_of(s@)),
{
    let ghost pre = out@;
    if n >= 2 && s.get_char(0) == '0' && s.get_char(1) == 'x' {
        let mut lo: usize = 0;
        while n - lo >= 2 && s.get_char(lo) == '0' && s.get_char(lo + 1) == 'x'
            invariant
                n as int == s@.len(),
                lo <= n,
                lo % 2 == 0,
                forall|j: int| 0 <= j < lo ==> #[trigger] s@[j] == (if j % 2 == 0 {
                    '0'
                } else {
                    'x'
                }),
            decreases n - lo,
        {
            lo = lo + 2;
        }
        proof {
            lemma_trim_start_pair(s@, '0', 'x', lo as int);
        }
        let rest = s.substring_char(lo, n);
        proof {
            assert(rest@ =~= s@.skip(lo as int));
        }
        match parse_int(rest, true) {
            Some(v) => {
                out.push(Token::Integer(v));
            },
            None => (),
        }
    }
    assert(toks_view(out@) =~= toks_view(pre) + hit_of_int(hex_i128_of(s@)));
}

/// Appends the byte-character reading of the text, where it has one.
fn push_byte_char(out: &mut Vec<Token>, s: &str, n: usize)
    requires
        n as int == s@.len(),
    ensures
        toks_view(final(out)@) == toks_view(old(out)@) + hit_of_byte_char(byte_char_of(s@)),
{
    let ghost pre = out@;
    if n == 4 && s.get_char(0) == 'b' && s.get_char(1) == '\'' && s.get_char(3) == '\'' {
        let c = s.get_char(2);
        out.push(Token::ByteChar(c));
    }
    assert(toks_view(out@) =~= toks_view(pre) + hit_of_byte_char(byte_char_of(s@)));
}

/// Appends the character reading of the text, where it has one.
fn push_char(out: &mut Vec<Token>, s: &str, n: usize)
    requires
        n as int == s@.len(),
    ensures
        toks_view(final(out)@) == toks_view(old(out)@) + hit_of_char(char_of(s@)),
{
    let ghost pre = out@;
    if n >= 1 && s.get_char(0) == '\'' && s.get_char(n - 1) == '\'' {
        let mut lo: usize = 0;
        while lo < n && s.get_char(lo) == '\''
            invariant
                n as int == s@.len(),
                lo <= n,
                forall|j: int| 0 <= j < lo ==> s@[j] == '\'',
            decreases n - lo,
        {
            lo = lo + 1;
        }
        let mut hi: usize = n;
        while hi > lo && s.get_char(hi - 1) == '\''
            invariant
                n as int == s@.len(),
                lo <= hi <= n,
                forall|j: int| hi <= j < n ==> s@[j] == '\'',
            decreases hi,
        {
            hi = hi - 1;
        }
        let ghost w1 = trim_start_char(s@, '\'');
        let ghost w2 = trim_end_char(w1, '\'');
        proof {
            lemma_trim_start_char(s@, '\'', lo as int);
            assert(w1 =~= s@.subrange(lo as int, n as int));
            assert forall|j: int| hi - lo <= j < w1.len() implies w1[j] == '\'' by {
                assert(w1[j] == s@[lo + j]);
            }
            lemma_trim_end_char(w1, '\'', hi - lo as int);
            assert(w2 =~= s@.subrange(lo as int, hi as int));
        }
        let mut lo2: usize = lo;
        while lo2 < hi && is_space_c(s.get_char(lo2))
            invariant
                n as int == s@.len(),
                lo <= lo2 <= hi <= n,
                forall|j: int| lo <= j < lo2 ==> is_space(s@[j]),
            decreases hi - lo2,
        {
            lo2 = lo2 + 1;
        }
        let ghost w3 = trim_start_space(w2);
        proof {
            assert forall|j: int| 0 <= j < lo2 - lo implies is_space(w2[j]) by {
                assert(w2[j] == s@[lo + j]);
            }
            lemma_trim_start_space(w2, lo2 - lo as int);
            assert(w3 =~= s@.subrange(lo2 as int, hi as int));
        }
        let mut hi2: usize = hi;
        while hi2 > lo2 && is_space_c(s.get_char(hi2 - 1))
            invariant
                n as int == s@.len(),
                lo2 <= hi2 <= hi <= n,
                forall|j: int| hi2 <= j < hi ==> is_space(s@[j]),
            decreases hi2,
        {
            hi2 = hi2 - 1;
        }
        let ghost w4 = trim_end_space(w3);
        proof {
            assert forall|j: int| hi2 - lo2 <= j < w3.len() implies is_space(w3[j]) by {
                assert(w3[j] == s@[lo2 + j]);
            }
            lemma_trim_end_space(w3, hi2 - lo2 as int);
            assert(w4 =~= s@.subrange(lo2 as int, hi2 as int));
            assert(char_inner(s@) == w4);
        }
        if hi2 > lo2 && hi2 - lo2 == 1 {
            let c = s.get_char(lo2);
            proof {
                assert(char_inner(s@)[0] == c);
            }
            out.push(Token::Char(c));
        }
    }
    assert(toks_view(out@) =~= toks_view(pre) + hit_of_char(char_of(s@)));
}

/// Appends the string reading of the text, where it has one: the inside of
/// the double quotes, verbatim.
fn push_string(out: &mut Vec<Token>, s: &str, n: usize)
    requires
        n as int == s@.len(),
    ensures
        toks_view(final(out)@) == toks_view(old(out)@) + hit_of_string(string_inner_of(s@)),
{
    let ghost pre = out@;
    if n >= 1 && s.get_char(0) == '"' && s.get_char(n - 1) == '"' {
        let mut lo: usize = 0;
        while lo < n && s.get_char(lo) == '"'
            invariant
                n as int == s@.len(),
                lo <= n,
                forall|j: int| 0 <= j < lo ==> s@[j] == '"',
            decreases n - lo,
        {
            lo = lo + 1;
        }
        let mut hi: usize = n;
        while hi > lo && s.get_char(hi - 1) == '"'
            invariant
                n as int == s@.len(),
                lo <= hi <= n,
                forall|j: int| hi <= j < n ==> s@[j] == '"',
            decreases hi,
        {
            hi = hi - 1;
        }
        let ghost w1 = trim_start_char(s@, '"');
        proof {
            lemma_trim_start_char(s@, '"', lo as int);
            assert(w1 =~= s@.subrange(lo as int, n as int));
            assert forall|j: int| hi - lo <= j < w1.len() implies w1[j] == '"' by {
                assert(w1[j] == s@[lo + j]);
            }
            lemma_trim_end_char(w1, '"', hi - lo as int);
            assert(trim_end_char(w1, '"') =~= s@.subrange(lo as int, hi as int));
        }
        let inner = s.substring_char(lo, hi).to_string();
        out.push(Token::String(inner));
    }
    assert(toks_view(out@) =~= toks_view(pre) + hit_of_string(string_inner_of(s@)));
}

/// Appends the byte-string reading of the text, where it has one: the
/// inside, verbatim, as the same token kind as a plain string.
fn push_byte_string(out: &mut Vec<Token>, s: &str, n: usize)
    requires
        n as int == s@.len(),
    ensures
        toks_view(final(out)@) == toks_view(old(out)@) + hit_of_string(byte_string_inner_of(s@)),
{
    let ghost pre = out@;
    if n >= 2 && s.get_char(0) == 'b' && s.get_char(1) == '"' && s.get_char(n - 1) == '"' {
        let mut hi: usize = n;
        while hi > 0 && s.get_char(hi - 1) == '"'
            invariant
                n as int == s@.len(),
                hi <= n,
                forall|j: int| hi <= j < n ==> s@[j] == '"',
            decreases hi,
        {
            hi = hi - 1;
        }
        let ghost e1 = trim_end_char(s@, '"');
        proof {
            lemma_trim_end_char(s@, '"', hi as int);
            assert(e1 =~= s@.subrange(0, hi as int));
        }
        let mut lo: usize = 0;
        while hi - lo >= 2 && s.get_char(lo) == 'b' && s.get_char(lo + 1) == '"'
            invariant
                n as int == s@.len(),
                lo <= hi <= n,
                lo % 2 == 0,
                forall|j: int| 0 <= j < lo ==> #[trigger] s@[j] == (if j % 2 == 0 {
                    'b'
                } else {
                    '"'
                }),
            decreases hi - lo,
        {
            lo = lo + 2;
        }
        proof {
            assert forall|j: int| 0 <= j < lo implies #[trigger] e1[j] == (if j % 2 == 0 {
                'b'
            } else {
                '"'
            }) by {
                assert(e1[j] == s@[j]);
            }
            lemma_trim_start_pair(e1, 'b', '"', lo as int);
            assert(trim_start_pair(e1, 'b', '"') =~= s@.subrange(lo as int, hi as int));
        }
        let inner = s.substring_char(lo, hi).to_string();
        out.push(Token::String(inner));
    }
    assert(toks_view(out@) =~= toks_view(pre) + hit_of_string(byte_string_inner_of(s@)));
}

/// Classifies one literal: tries every reading of its text in order,
/// appending one token for each reading that matches, and yields the single
/// catch-all token where none did.
pub fn literal_tokens(lt: &LiteralText) -> (r: Vec<Token>)
    ensures
        toks_view(r@) == lit_tokens(lt.text@, lt.float_bits),
{
    let s: &str = lt.text.as_str();
    let n = s.unicode_len();
    let mut out: Vec<Token> = Vec::new();
    assert(toks_view(out@) =~= Seq::<TokenV>::empty());
    push_dec(&mut out, s);
    push_float(&mut out, lt.float_bits);
    push_hex(&mut out, s, n);
    push_byte_char(&mut out, s, n);
    push_char(&mut out, s, n);
    push_string(&mut out, s, n);
    push_byte_string(&mut out, s, n);
    proof {
        assert(toks_view(out@) =~= lit_hits(s@, lt.float_bits));
    }
    if out.len() == 0 {
        out.push(Token::Literal(lt.text.clone()));
        assert(toks_view(out@) =~= seq![TokenV::Literal(lt.text@)]);
    }
    out
}

} // verus!
