//! A line-oriented OBJ-subset importer: `v` / `vt` / `vn` / `f` records are
//! parsed into per-kind token lists and the faces are deduplicated into a
//! merged vertex buffer with one entry per distinct
//! (position, uv, normal) index triple.
//!
//! Numeric components are validated against the decimal grammars of the
//! standard library's integer and float parsers and kept verbatim as
//! character tokens; turning a validated token into a machine float is the
//! GPU layer's concern, outside this crate.

use vstd::prelude::*;
use vstd::string::StrSliceExecFns;

verus! {

/// The Unicode `White_Space` characters, the separators of
/// `split_whitespace`.
pub open spec fn spec_is_space(c: char) -> bool {
    ||| c as u32 == 0x9
    ||| c as u32 == 0xA
    ||| c as u32 == 0xB
    ||| c as u32 == 0xC
    ||| c as u32 == 0xD
    ||| c as u32 == 0x20
    ||| c as u32 == 0x85
    ||| c as u32 == 0xA0
    ||| c as u32 == 0x1680
    ||| (0x2000 <= c as u32 && c as u32 <= 0x200A)
    ||| c as u32 == 0x2028
    ||| c as u32 == 0x2029
    ||| c as u32 == 0x202F
    ||| c as u32 == 0x3000
    ||| c as u32 == 0x205F
}

fn is_space(c: char) -> (r: bool)
    ensures
        r == spec_is_space(c),
{
    let u: u32 = c as u32;
    u == 0x9 || u == 0xA || u == 0xB || u == 0xC || u == 0xD || u == 0x20 || u == 0x85
        || u == 0xA0 || u == 0x1680 || (0x2000 <= u && u <= 0x200A) || u == 0x2028 || u == 0x2029
        || u == 0x202F || u == 0x3000 || u == 0x205F
}

/// The characters of a text line.
pub fn chars_of(s: &str) -> (r: Vec<char>)
    ensures
        r@ == s@,
{
    let n = s.unicode_len();
    let mut r: Vec<char> = Vec::new();
    let mut i: usize = 0;
    while i < n
        invariant
            i <= n,
            n == s@.len(),
            r@ == s@.take(i as int),
        decreases n - i,
    {
        r.push(s.get_char(i));
        i = i + 1;
    }
    proof {
        assert(r@ =~= s@);
    }
    r
}

/// The whitespace-separated tokens of `s`, read left to right with `cur` as
/// the partial token already collected.
#[verifier::opaque]
pub open spec fn spec_tokens_go(s: Seq<char>, cur: Seq<char>) -> Seq<Seq<char>>
    decreases s.len(),
{
    if s.len() == 0 {
        if cur.len() == 0 {
            Seq::empty()
        } else {
            seq![cur]
        }
    } else if spec_is_space(s[0]) {
        if cur.len() == 0 {
            spec_tokens_go(s.drop_first(), cur)
        } else {
            seq![cur] + spec_tokens_go(s.drop_first(), Seq::empty())
        }
    } else {
        spec_tokens_go(s.drop_first(), cur.push(s[0]))
    }
}

/// The whitespace-separated tokens of `s`: maximal nonempty runs of
/// non-whitespace characters.
pub open spec fn spec_tokens(s: Seq<char>) -> Seq<Seq<char>> {
    spec_tokens_go(s, Seq::empty())
}

/// Splits a line into its whitespace-separated tokens.
#[verifier::loop_isolation(false)]
pub fn tokenize(s: &Vec<char>) -> (r: Vec<Vec<char>>)
    ensures
        r.deep_view() == spec_tokens(s@),
{
    let mut out: Vec<Vec<char>> = Vec::new();
    let mut cur: Vec<char> = Vec::new();
    let n = s.len();
    let mut i: usize = 0;
    proof {
        reveal(spec_tokens_go);
        assert(s@.skip(0) =~= s@);
    }
    while i < n
        invariant
            i <= n,
            out.deep_view() + spec_tokens_go(s@.skip(i as int), cur@) == spec_tokens(s@),
        decreases n - i,
    {
        proof {
            reveal(spec_tokens_go);
            assert(s@.skip(i as int)[0] == s@[i as int]);
            assert(s@.skip(i as int).drop_first() =~= s@.skip(i as int + 1));
        }
        let c = s[i];
        if is_space(c) {
            if cur.len() > 0 {
                let ghost old_out = out.deep_view();
                let ghost tok = cur@;
                out.push(cur);
                cur = Vec::new();
                proof {
                    assert(out.deep_view() =~~= old_out.push(tok));
                    assert(old_out.push(tok) + spec_tokens_go(s@.skip(i as int + 1), cur@)
                        =~~= old_out + (seq![tok] + spec_tokens_go(
                        s@.skip(i as int + 1),
                        Seq::empty(),
                    )));
                }
            }
        } else {
            cur.push(c);
        }
        i = i + 1;
    }
    proof {
        reveal(spec_tokens_go);
        assert(s@.skip(n as int) =~= Seq::<char>::empty());
    }
    if cur.len() > 0 {
        let ghost old_out = out.deep_view();
        let ghost tok = cur@;
        out.push(cur);
        proof {
            assert(out.deep_view() =~~= old_out.push(tok));
            assert(old_out.push(tok) =~~= old_out + seq![tok]);
        }
    }
    out
}

/// An ASCII decimal digit.
pub open spec fn spec_is_digit(c: char) -> bool {
    0x30 <= c as u32 && c as u32 <= 0x39
}

pub open spec fn spec_digit_val(c: char) -> int {
    c as u32 - 0x30
}

pub open spec fn spec_all_digits(s: Seq<char>) -> bool {
    forall|i: int| 0 <= i < s.len() ==> spec_is_digit(s[i])
}

/// The value of a digit string, most significant digit first.
pub open spec fn spec_digits_val(s: Seq<char>) -> int
    decreases s.len(),
{
    if s.len() == 0 {
        0
    } else {
        spec_digits_val(s.drop_last()) * 10 + spec_digit_val(s.last())
    }
}

proof fn lemma_digits_val_nonneg(s: Seq<char>)
    requires
        spec_all_digits(s),
    ensures
        spec_digits_val(s) >= 0,
    decreases s.len(),
{
    if s.len() > 0 {
        assert(spec_all_digits(s.drop_last()));
        lemma_digits_val_nonneg(s.drop_last());
        vstd::arithmetic::mul::lemma_mul_nonnegative(spec_digits_val(s.drop_last()), 10);
    }
}

/// A digit string is worth at least any of its prefixes.
proof fn lemma_digits_val_prefix_le(s: Seq<char>, j: int)
    requires
        spec_all_digits(s),
        0 <= j <= s.len(),
    ensures
        spec_digits_val(s.take(j)) <= spec_digits_val(s),
    decreases s.len(),
{
    if j < s.len() {
        let d = s.drop_last();
        assert(spec_all_digits(d));
        assert(d.take(j) =~= s.take(j));
        lemma_digits_val_prefix_le(d, j);
        lemma_digits_val_nonneg(d);
        vstd::arithmetic::mul::lemma_mul_inequality(spec_digits_val(d), spec_digits_val(d) * 10,
            1);
        assert(spec_digits_val(d) <= spec_digits_val(d) * 10) by (nonlinear_arith)
            requires
                spec_digits_val(d) >= 0,
        ;
    } else {
        assert(s.take(j) =~= s);
    }
}

/// The sign-stripped body of an unsigned decimal token: `u32::from_str`
/// accepts an optional leading `+`.
pub open spec fn spec_u32_body(t: Seq<char>) -> Seq<char> {
    if t.len() > 0 && t[0] == '+' {
        t.drop_first()
    } else {
        t
    }
}

/// What `u32::from_str` yields: `Some` exactly for an optional `+` followed
/// by one or more digits whose value is in range.
#[verifier::opaque]
pub open spec fn spec_parse_u32(t: Seq<char>) -> Option<u32> {
    let b = spec_u32_body(t);
    if b.len() > 0 && spec_all_digits(b) && spec_digits_val(b) <= u32::MAX {
        Some(spec_digits_val(b) as u32)
    } else {
        None
    }
}

/// Reads an unsigned decimal token, with the exact acceptance behaviour of
/// the standard library's `u32` parser.
pub fn parse_u32(t: &Vec<char>) -> (r: Option<u32>)
    ensures
        r == spec_parse_u32(t@),
{
    proof {
        reveal(spec_parse_u32);
    }
    let n = t.len();
    let start: usize = if n > 0 && t[0] == '+' {
        1
    } else {
        0
    };
    let ghost b = spec_u32_body(t@);
    proof {
        assert(b =~= t@.skip(start as int));
    }
    if start == n {
        return None;
    }
    let mut acc: u32 = 0;
    let mut i: usize = start;
    proof {
        assert(b.take(0) =~= Seq::<char>::empty());
    }
    while i < n
        invariant
            start <= i <= n,
            n == t@.len(),
            start == 1 ==> t@[0] == '+',
            start == 0 || start == 1,
            b == t@.skip(start as int),
            b == spec_u32_body(t@),
            spec_all_digits(b.take(i - start)),
            acc == spec_digits_val(b.take(i - start)),
        decreases n - i,
    {
        let c = t[i];
        let u: u32 = c as u32;
        proof {
            reveal(spec_parse_u32);
            assert(b[i - start] == t@[i as int]);
            assert(b.take(i + 1 - start).drop_last() =~= b.take(i - start));
            assert(b.take(i + 1 - start).last() == t@[i as int]);
        }
        if u < 0x30 || u > 0x39 {
            proof {
                assert(!spec_is_digit(b[i - start]));
            }
            return None;
        }
        let d: u32 = u - 0x30;
        if acc > (u32::MAX - d) / 10 {
            proof {
                let q: int = (u32::MAX - d) as int / 10;
                vstd::arithmetic::div_mod::lemma_fundamental_div_mod((u32::MAX - d) as int, 10);
                vstd::arithmetic::div_mod::lemma_mod_bound((u32::MAX - d) as int, 10);
                assert(acc as int * 10 + d as int > u32::MAX as int);
                assert(spec_all_digits(b.take(i + 1 - start)));
                if spec_all_digits(b) {
                    lemma_digits_val_prefix_le(b, i + 1 - start);
                }
            }
            return None;
        }
        acc = acc * 10 + d;
        i = i + 1;
    }
    proof {
        reveal(spec_parse_u32);
        assert(b.take(n - start) =~= b);
    }
    Some(acc)
}

/// The ASCII-lowercase code of a character.
pub open spec fn spec_lower_u(c: char) -> u32 {
    if 0x41 <= c as u32 && c as u32 <= 0x5A {
        (c as u32 + 0x20) as u32
    } else {
        c as u32
    }
}

/// Case-insensitive match of `s` against an already-lowercase word.
pub open spec fn spec_ci_is(s: Seq<char>, lower: Seq<char>) -> bool {
    s.len() == lower.len() && forall|i: int|
        0 <= i < s.len() ==> spec_lower_u(s[i]) == lower[i] as u32
}

fn ci_is_from(t: &Vec<char>, start: usize, pat: &Vec<char>) -> (r: bool)
    requires
        start <= t@.len(),
    ensures
        r == spec_ci_is(t@.skip(start as int), pat@),
{
    let n = t.len();
    if n - start != pat.len() {
        return false;
    }
    let mut i: usize = 0;
    while i < pat.len()
        invariant
            i <= pat@.len(),
            n == t@.len(),
            start + pat@.len() == t@.len(),
            forall|k: int| 0 <= k < i ==> spec_lower_u(t@.skip(start as int)[k]) == pat@[k] as u32,
        decreases pat@.len() - i,
    {
        let c = t[start + i];
        let u: u32 = c as u32;
        let lower: u32 = if 0x41 <= u && u <= 0x5A {
            u + 0x20
        } else {
            u
        };
        if lower != pat[i] as u32 {
            return false;
        }
        i = i + 1;
    }
    true
}

/// `inf`, `infinity` or `nan` in any letter case.
pub open spec fn spec_is_special_float(b: Seq<char>) -> bool {
    ||| spec_ci_is(b, seq!['i', 'n', 'f'])
    ||| spec_ci_is(b, seq!['i', 'n', 'f', 'i', 'n', 'i', 't', 'y'])
    ||| spec_ci_is(b, seq!['n', 'a', 'n'])
}

/// The sign-stripped body of a float token: an optional leading `+` or `-`.
pub open spec fn spec_sign_body(t: Seq<char>) -> Seq<char> {
    if t.len() > 0 && (t[0] == '+' || t[0] == '-') {
        t.drop_first()
    } else {
        t
    }
}

/// Index of the first exponent marker (`e` or `E`), or the length when
/// there is none.
pub open spec fn spec_exp_pos(s: Seq<char>) -> nat
    decreases s.len(),
{
    if s.len() == 0 {
        0
    } else if s[0] == 'e' || s[0] == 'E' {
        0
    } else {
        1 + spec_exp_pos(s.drop_first())
    }
}

proof fn lemma_exp_pos_unique(s: Seq<char>, k: int)
    requires
        0 <= k <= s.len(),
        forall|j: int| 0 <= j < k ==> !(s[j] == 'e' || s[j] == 'E'),
        k < s.len() ==> (s[k] == 'e' || s[k] == 'E'),
    ensures
        k == spec_exp_pos(s),
    decreases k,
{
    if k > 0 {
        assert(!(s[0] == 'e' || s[0] == 'E'));
        lemma_exp_pos_unique(s.drop_first(), k - 1);
    }
}

/// How many `.` characters a mantissa holds.
pub open spec fn spec_dot_count(s: Seq<char>) -> int
    decreases s.len(),
{
    if s.len() == 0 {
        0
    } else {
        spec_dot_count(s.drop_last()) + if s.last() == '.' {
            1int
        } else {
            0int
        }
    }
}

/// A mantissa: digits with at most one decimal point among them, and at
/// least one digit.
pub open spec fn spec_is_mantissa(m: Seq<char>) -> bool {
    &&& forall|i: int| 0 <= i < m.len() ==> (spec_is_digit(m[i]) || m[i] == '.')
    &&& spec_dot_count(m) <= 1
    &&& exists|i: int| 0 <= i < m.len() && spec_is_digit(m[i])
}

/// An exponent part: an optional sign, then one or more digits.
pub open spec fn spec_is_exp(x: Seq<char>) -> bool {
    let b = spec_sign_body(x);
    b.len() > 0 && spec_all_digits(b)
}

/// What `f32::from_str` accepts: an optional sign, then `inf`, `infinity`
/// or `nan` in any case, or a mantissa with an optional exponent.
#[verifier::opaque]
pub open spec fn spec_is_float(t: Seq<char>) -> bool {
    let b = spec_sign_body(t);
    ||| spec_is_special_float(b)
    ||| {
        let e = spec_exp_pos(b) as int;
        if e >= b.len() {
            spec_is_mantissa(b)
        } else {
            spec_is_mantissa(b.take(e)) && spec_is_exp(b.skip(e + 1))
        }
    }
}

fn all_digits_from(t: &Vec<char>, start: usize) -> (r: bool)
    requires
        start <= t@.len(),
    ensures
        r == spec_all_digits(t@.skip(start as int)),
{
    let n = t.len();
    let ghost s = t@.skip(start as int);
    let mut i: usize = start;
    while i < n
        invariant
            start <= i <= n,
            n == t@.len(),
            s == t@.skip(start as int),
            forall|k: int| 0 <= k < i - start ==> spec_is_digit(s[k]),
        decreases n - i,
    {
        let u: u32 = t[i] as u32;
        proof {
            assert(s[i - start] == t@[i as int]);
        }
        if u < 0x30 || u > 0x39 {
            proof {
                assert(!spec_is_digit(s[i - start]));
            }
            return false;
        }
        i = i + 1;
    }
    true
}

/// Validates the mantissa characters in `t[start .. end]`.
fn mantissa_ok(t: &Vec<char>, start: usize, end: usize) -> (r: bool)
    requires
        start <= end <= t@.len(),
    ensures
        r == spec_is_mantissa(t@.subrange(start as int, end as int)),
{
    let ghost m = t@.subrange(start as int, end as int);
    let mut dots: usize = 0;
    let mut has_digit: bool = false;
    let mut i: usize = start;
    proof {
        assert(m.take(0) =~= Seq::<char>::empty());
    }
    while i < end
        invariant
            start <= i <= end <= t@.len(),
            m == t@.subrange(start as int, end as int),
            dots <= 1,
            forall|k: int| 0 <= k < i - start ==> (spec_is_digit(m[k]) || m[k] == '.'),
            dots == spec_dot_count(m.take(i - start)),
            has_digit == exists|k: int| 0 <= k < i - start && spec_is_digit(m[k]),
        decreases end - i,
    {
        let c = t[i];
        let u: u32 = c as u32;
        proof {
            assert(m[i - start] == t@[i as int]);
            assert(m.take(i + 1 - start).drop_last() =~= m.take(i - start));
            assert(m.take(i + 1 - start).last() == m[i - start]);
        }
        if 0x30 <= u && u <= 0x39 {
            has_digit = true;
            proof {
                assert(spec_is_digit(m[i - start]));
            }
        } else if c == '.' {
            dots = dots + 1;
            if dots > 1 {
                proof {
                    lemma_dot_count_prefix_le(m, i + 1 - start);
                    assert(!(spec_dot_count(m) <= 1));
                }
                return false;
            }
        } else {
            proof {
                assert(!(spec_is_digit(m[i - start]) || m[i - start] == '.'));
            }
            return false;
        }
        i = i + 1;
    }
    proof {
        assert(m.take(end - start) =~= m);
    }
    has_digit
}

/// Checks a token against the float grammar of the standard library's
/// `f32` parser.
pub fn is_float_token(t: &Vec<char>) -> (r: bool)
    ensures
        r == spec_is_float(t@),
{
    proof {
        reveal(spec_is_float);
    }
    let n = t.len();
    let start: usize = if n > 0 && (t[0] == '+' || t[0] == '-') {
        1
    } else {
        0
    };
    let ghost b = spec_sign_body(t@);
    proof {
        assert(b =~= t@.skip(start as int));
    }
    let pat_inf: Vec<char> = vec!['i', 'n', 'f'];
    let pat_infinity: Vec<char> = vec!['i', 'n', 'f', 'i', 'n', 'i', 't', 'y'];
    let pat_nan: Vec<char> = vec!['n', 'a', 'n'];
    proof {
        assert(pat_inf@ =~= seq!['i', 'n', 'f']);
        assert(pat_infinity@ =~= seq!['i', 'n', 'f', 'i', 'n', 'i', 't', 'y']);
        assert(pat_nan@ =~= seq!['n', 'a', 'n']);
    }
    if ci_is_from(t, start, &pat_inf) || ci_is_from(t, start, &pat_infinity) || ci_is_from(
        t,
        start,
        &pat_nan,
    ) {
        return true;
    }
    // locate the exponent marker within the body
    let mut e: usize = start;
    while e < n && !(t[e] == 'e' || t[e] == 'E')
        invariant
            start <= e <= n,
            n == t@.len(),
            b == t@.skip(start as int),
            forall|j: int| 0 <= j < e - start ==> !(b[j] == 'e' || b[j] == 'E'),
        decreases n - e,
    {
        proof {
            assert(b[e - start] == t@[e as int]);
        }
        e = e + 1;
    }
    proof {
        if e < n {
            assert(b[e - start] == t@[e as int]);
        }
        lemma_exp_pos_unique(b, e - start);
    }
    let m_ok = mantissa_ok(t, start, e);
    proof {
        assert(t@.subrange(start as int, e as int) =~= b.take(e - start));
        if e == n {
            assert(b.take(e - start) =~= b);
        }
    }
    if e == n {
        return m_ok;
    }
    if !m_ok {
        return false;
    }
    // the exponent part after the marker
    let x_start: usize = if e + 1 < n && (t[e + 1] == '+' || t[e + 1] == '-') {
        e + 2
    } else {
        e + 1
    };
    proof {
        assert(b.skip(e - start + 1) =~= t@.skip(e as int + 1));
        assert(spec_sign_body(t@.skip(e as int + 1)) =~= t@.skip(x_start as int));
    }
    if x_start == n {
        return false;
    }
    all_digits_from(t, x_start)
}

/// The distinct, inspectable failure kinds of the importer. `FileRead` is
/// for the layer that reads the file's bytes; the parser itself never
/// produces it.
#[derive(Clone, Copy, Debug, PartialEq, Eq, Structural)]
pub enum ObjParseError {
    FileRead,
    MissingType,
    MissingVertex,
    NonFloatVertex,
    MissingFaceVert,
    NonTriangularFace,
    InvalidFaceVert,
    InvalidFaceUv,
    InvalidFaceNorm,
    MissingTexCoord,
    NonFloatTexCoord,
}

/// A face vertex as the file states it: indices into the position, uv and
/// normal lists, already converted to 0-based.
#[derive(Clone, Copy, Debug, Hash, PartialEq, Eq, Structural)]
pub struct FaceIndices {
    pub vert: u32,
    pub uv: u32,
    pub norm: u32,
}

/// Index of the first `/`, or the length when there is none.
pub open spec fn spec_slash_pos(s: Seq<char>) -> nat
    decreases s.len(),
{
    if s.len() == 0 {
        0
    } else if s[0] == '/' {
        0
    } else {
        1 + spec_slash_pos(s.drop_first())
    }
}

proof fn lemma_slash_pos_unique(s: Seq<char>, k: int)
    requires
        0 <= k <= s.len(),
        forall|j: int| 0 <= j < k ==> s[j] != '/',
        k < s.len() ==> s[k] == '/',
    ensures
        k == spec_slash_pos(s),
    decreases k,
{
    if k > 0 {
        assert(s[0] != '/');
        lemma_slash_pos_unique(s.drop_first(), k - 1);
    }
}

/// Position of the first `/` at or after `from`, or the end.
fn find_slash(t: &Vec<char>, from: usize) -> (p: usize)
    requires
        from <= t@.len(),
    ensures
        from <= p <= t@.len(),
        p - from == spec_slash_pos(t@.skip(from as int)),
{
    let n = t.len();
    let ghost s = t@.skip(from as int);
    let mut p: usize = from;
    while p < n && t[p] != '/'
        invariant
            from <= p <= n,
            n == t@.len(),
            s == t@.skip(from as int),
            forall|j: int| 0 <= j < p - from ==> s[j] != '/',
        decreases n - p,
    {
        proof {
            assert(s[p - from] == t@[p as int]);
        }
        p = p + 1;
    }
    proof {
        if p < n {
            assert(s[p - from] == t@[p as int]);
        }
        lemma_slash_pos_unique(s, p - from);
    }
    p
}

/// A copy of `t[a .. b]`.
fn subvec(t: &Vec<char>, a: usize, b: usize) -> (r: Vec<char>)
    requires
        a <= b <= t@.len(),
    ensures
        r@ == t@.subrange(a as int, b as int),
{
    let mut r: Vec<char> = Vec::new();
    let mut i: usize = a;
    while i < b
        invariant
            a <= i <= b <= t@.len(),
            r@ == t@.subrange(a as int, i as int),
        decreases b - i,
    {
        r.push(t[i]);
        proof {
            assert(r@ =~= t@.subrange(a as int, i as int + 1));
        }
        i = i + 1;
    }
    r
}

/// How one `i/j/k` face-vertex token reads: three 1-based unsigned decimal
/// indices separated by `/`, each made 0-based; anything else is the error
/// of the first part that is missing, malformed or zero.
#[verifier::opaque]
pub open spec fn spec_parse_face_vert(s: Seq<char>) -> Result<FaceIndices, ObjParseError> {
    let sp1 = spec_slash_pos(s) as int;
    match spec_parse_u32(s.take(sp1)) {
        Option::None => Result::Err(ObjParseError::InvalidFaceVert),
        Option::Some(v) => if v == 0 {
            Result::Err(ObjParseError::InvalidFaceVert)
        } else if sp1 >= s.len() {
            Result::Err(ObjParseError::InvalidFaceUv)
        } else {
            let r1 = s.skip(sp1 + 1);
            let sp2 = spec_slash_pos(r1) as int;
            match spec_parse_u32(r1.take(sp2)) {
                Option::None => Result::Err(ObjParseError::InvalidFaceUv),
                Option::Some(u) => if u == 0 {
                    Result::Err(ObjParseError::InvalidFaceUv)
                } else if sp2 >= r1.len() {
                    Result::Err(ObjParseError::InvalidFaceNorm)
                } else {
                    let r2 = r1.skip(sp2 + 1);
                    let sp3 = spec_slash_pos(r2) as int;
                    match spec_parse_u32(r2.take(sp3)) {
                        Option::None => Result::Err(ObjParseError::InvalidFaceNorm),
                        Option::Some(w) => if w == 0 {
                            Result::Err(ObjParseError::InvalidFaceNorm)
                        } else {
                            Result::Ok(
                                FaceIndices {
                                    vert: (v - 1) as u32,
                                    uv: (u - 1) as u32,
                                    norm: (w - 1) as u32,
                                },
                            )
                        },
                    }
                },
            }
        },
    }
}

fn parse_face_vert(t: &Vec<char>) -> (r: Result<FaceIndices, ObjParseError>)
    ensures
        r == spec_parse_face_vert(t@),
{
    proof {
        reveal(spec_parse_face_vert);
    }
    let n = t.len();
    let sp1 = find_slash(t, 0);
    proof {
        assert(t@.skip(0) =~= t@);
        assert(t@.subrange(0, sp1 as int) =~= t@.take(sp1 as int));
    }
    let part1 = subvec(t, 0, sp1);
    let v = match parse_u32(&part1) {
        Option::Some(v) => v,
        Option::None => {
            return Result::Err(ObjParseError::InvalidFaceVert);
        },
    };
    if v == 0 {
        return Result::Err(ObjParseError::InvalidFaceVert);
    }
    if sp1 >= n {
        return Result::Err(ObjParseError::InvalidFaceUv);
    }
    let ghost r1 = t@.skip(sp1 + 1);
    let sp2 = find_slash(t, sp1 + 1);
    proof {
        assert(r1.skip(0) =~= r1);
        assert(r1 =~= t@.skip(sp1 as int + 1));
        assert(spec_slash_pos(r1) == sp2 - (sp1 + 1));
        assert(t@.subrange(sp1 as int + 1, sp2 as int) =~= r1.take(sp2 - (sp1 + 1)));
    }
    let part2 = subvec(t, sp1 + 1, sp2);
    let u = match parse_u32(&part2) {
        Option::Some(u) => u,
        Option::None => {
            return Result::Err(ObjParseError::InvalidFaceUv);
        },
    };
    if u == 0 {
        return Result::Err(ObjParseError::InvalidFaceUv);
    }
    if sp2 >= n {
        return Result::Err(ObjParseError::InvalidFaceNorm);
    }
    let ghost r2 = r1.skip(sp2 - (sp1 + 1) + 1);
    let sp3 = find_slash(t, sp2 + 1);
    proof {
        assert(r2 =~= t@.skip(sp2 as int + 1));
        assert(spec_slash_pos(r2) == sp3 - (sp2 + 1));
        assert(t@.subrange(sp2 as int + 1, sp3 as int) =~= r2.take(sp3 - (sp2 + 1)));
    }
    let part3 = subvec(t, sp2 + 1, sp3);
    let w = match parse_u32(&part3) {
        Option::Some(w) => w,
        Option::None => {
            return Result::Err(ObjParseError::InvalidFaceNorm);
        },
    };
    if w == 0 {
        return Result::Err(ObjParseError::InvalidFaceNorm);
    }
    Result::Ok(FaceIndices { vert: v - 1, uv: u - 1, norm: w - 1 })
}

/// How an `f` record's tokens read: exactly three face-vertex tokens, each
/// `i/j/k`; fewer than three is a missing face vertex, more than three is a
/// non-triangular face, and both are refused.
pub open spec fn spec_parse_face(toks: Seq<Seq<char>>) -> Result<Seq<FaceIndices>, ObjParseError> {
    if toks.len() > 3 {
        Result::Err(ObjParseError::NonTriangularFace)
    } else if toks.len() == 0 {
        Result::Err(ObjParseError::MissingFaceVert)
    } else {
        match spec_parse_face_vert(toks[0]) {
            Result::Err(e) => Result::Err(e),
            Result::Ok(f0) => if toks.len() == 1 {
                Result::Err(ObjParseError::MissingFaceVert)
            } else {
                match spec_parse_face_vert(toks[1]) {
                    Result::Err(e) => Result::Err(e),
                    Result::Ok(f1) => if toks.len() == 2 {
                        Result::Err(ObjParseError::MissingFaceVert)
                    } else {
                        match spec_parse_face_vert(toks[2]) {
                            Result::Err(e) => Result::Err(e),
                            Result::Ok(f2) => Result::Ok(seq![f0, f1, f2]),
                        }
                    },
                }
            },
        }
    }
}

/// Reads the three face vertices of an `f` record; a face with any other
/// vertex count is refused.
pub fn parse_face(toks: &Vec<Vec<char>>) -> (r: Result<[FaceIndices; 3], ObjParseError>)
    ensures
        match spec_parse_face(toks.deep_view()) {
            Result::Ok(fs) => r matches Result::Ok(arr) && arr@ == fs,
            Result::Err(e) => r == Result::<[FaceIndices; 3], ObjParseError>::Err(e),
        },
{
    proof {
        assert(forall|i: int|
            0 <= i < toks@.len() ==> toks.deep_view()[i] == #[trigger] toks@[i]@);
    }
    if toks.len() > 3 {
        return Result::Err(ObjParseError::NonTriangularFace);
    }
    if toks.len() == 0 {
        return Result::Err(ObjParseError::MissingFaceVert);
    }
    let f0 = match parse_face_vert(&toks[0]) {
        Result::Ok(f) => f,
        Result::Err(e) => {
            return Result::Err(e);
        },
    };
    if toks.len() == 1 {
        return Result::Err(ObjParseError::MissingFaceVert);
    }
    let f1 = match parse_face_vert(&toks[1]) {
        Result::Ok(f) => f,
        Result::Err(e) => {
            return Result::Err(e);
        },
    };
    if toks.len() == 2 {
        return Result::Err(ObjParseError::MissingFaceVert);
    }
    let f2 = match parse_face_vert(&toks[2]) {
        Result::Ok(f) => f,
        Result::Err(e) => {
            return Result::Err(e);
        },
    };
    let arr = [f0, f1, f2];
    proof {
        assert(arr@ =~= seq![f0, f1, f2]);
    }
    Result::Ok(arr)
}

/// How a `v` record's tokens read: three float components, then an
/// optional fourth that defaults to `1.0`; tokens past the fourth are
/// ignored.
pub open spec fn spec_parse_vertex(toks: Seq<Seq<char>>) -> Result<Seq<Seq<char>>, ObjParseError> {
    if toks.len() == 0 {
        Result::Err(ObjParseError::MissingVertex)
    } else if !spec_is_float(toks[0]) {
        Result::Err(ObjParseError::NonFloatVertex)
    } else if toks.len() == 1 {
        Result::Err(ObjParseError::MissingVertex)
    } else if !spec_is_float(toks[1]) {
        Result::Err(ObjParseError::NonFloatVertex)
    } else if toks.len() == 2 {
        Result::Err(ObjParseError::MissingVertex)
    } else if !spec_is_float(toks[2]) {
        Result::Err(ObjParseError::NonFloatVertex)
    } else if toks.len() == 3 {
        Result::Ok(seq![toks[0], toks[1], toks[2], seq!['1', '.', '0']])
    } else if !spec_is_float(toks[3]) {
        Result::Err(ObjParseError::NonFloatVertex)
    } else {
        Result::Ok(seq![toks[0], toks[1], toks[2], toks[3]])
    }
}

/// Reads a position record's components, validated and kept verbatim.
pub fn parse_vertex(toks: &Vec<Vec<char>>) -> (r: Result<[Vec<char>; 4], ObjParseError>)
    ensures
        match spec_parse_vertex(toks.deep_view()) {
            Result::Ok(cs) => r matches Result::Ok(arr) && arr.deep_view() == cs,
            Result::Err(e) => r == Result::<[Vec<char>; 4], ObjParseError>::Err(e),
        },
{
    proof {
        assert(forall|i: int|
            0 <= i < toks@.len() ==> toks.deep_view()[i] == #[trigger] toks@[i]@);
    }
    if toks.len() == 0 {
        return Result::Err(ObjParseError::MissingVertex);
    }
    if !is_float_token(&toks[0]) {
        return Result::Err(ObjParseError::NonFloatVertex);
    }
    if toks.len() == 1 {
        return Result::Err(ObjParseError::MissingVertex);
    }
    if !is_float_token(&toks[1]) {
        return Result::Err(ObjParseError::NonFloatVertex);
    }
    if toks.len() == 2 {
        return Result::Err(ObjParseError::MissingVertex);
    }
    if !is_float_token(&toks[2]) {
        return Result::Err(ObjParseError::NonFloatVertex);
    }
    let c0 = copy_token(&toks[0]);
    let c1 = copy_token(&toks[1]);
    let c2 = copy_token(&toks[2]);
    if toks.len() == 3 {
        let w: Vec<char> = vec!['1', '.', '0'];
        proof {
            assert(w@ =~= seq!['1', '.', '0']);
        }
        let arr = [c0, c1, c2, w];
        proof {
            assert(arr.deep_view() =~~= seq![
                toks.deep_view()[0],
                toks.deep_view()[1],
                toks.deep_view()[2],
                seq!['1', '.', '0'],
            ]);
        }
        return Result::Ok(arr);
    }
    if !is_float_token(&toks[3]) {
        return Result::Err(ObjParseError::NonFloatVertex);
    }
    let c3 = copy_token(&toks[3]);
    let arr = [c0, c1, c2, c3];
    proof {
        assert(arr.deep_view() =~~= seq![
            toks.deep_view()[0],
            toks.deep_view()[1],
            toks.deep_view()[2],
            toks.deep_view()[3],
        ]);
    }
    Result::Ok(arr)
}

/// How a `vn` record's tokens read: exactly three float components; extra
/// tokens are ignored.
pub open spec fn spec_parse_vertex_3(toks: Seq<Seq<char>>) -> Result<
    Seq<Seq<char>>,
    ObjParseError,
> {
    if toks.len() == 0 {
        Result::Err(ObjParseError::MissingVertex)
    } else if !spec_is_float(toks[0]) {
        Result::Err(ObjParseError::NonFloatVertex)
    } else if toks.len() == 1 {
        Result::Err(ObjParseError::MissingVertex)
    } else if !spec_is_float(toks[1]) {
        Result::Err(ObjParseError::NonFloatVertex)
    } else if toks.len() == 2 {
        Result::Err(ObjParseError::MissingVertex)
    } else if !spec_is_float(toks[2]) {
        Result::Err(ObjParseError::NonFloatVertex)
    } else {
        Result::Ok(seq![toks[0], toks[1], toks[2]])
    }
}

/// Reads a normal record's components, validated and kept verbatim.
pub fn parse_vertex_3(toks: &Vec<Vec<char>>) -> (r: Result<[Vec<char>; 3], ObjParseError>)
    ensures
        match spec_parse_vertex_3(toks.deep_view()) {
            Result::Ok(cs) => r matches Result::Ok(arr) && arr.deep_view() == cs,
            Result::Err(e) => r == Result::<[Vec<char>; 3], ObjParseError>::Err(e),
        },
{
    proof {
        assert(forall|i: int|
            0 <= i < toks@.len() ==> toks.deep_view()[i] == #[trigger] toks@[i]@);
    }
    if toks.len() == 0 {
        return Result::Err(ObjParseError::MissingVertex);
    }
    if !is_float_token(&toks[0]) {
        return Result::Err(ObjParseError::NonFloatVertex);
    }
    if toks.len() == 1 {
        return Result::Err(ObjParseError::MissingVertex);
    }
    if !is_float_token(&toks[1]) {
        return Result::Err(ObjParseError::NonFloatVertex);
    }
    if toks.len() == 2 {
        return Result::Err(ObjParseError::MissingVertex);
    }
    if !is_float_token(&toks[2]) {
        return Result::Err(ObjParseError::NonFloatVertex);
    }
    let arr = [copy_token(&toks[0]), copy_token(&toks[1]), copy_token(&toks[2])];
    proof {
        assert(arr.deep_view() =~~= seq![
            toks.deep_view()[0],
            toks.deep_view()[1],
            toks.deep_view()[2],
        ]);
    }
    Result::Ok(arr)
}

/// How a `vt` record's tokens read: exactly two float components; extra
/// tokens are ignored.
pub open spec fn spec_parse_tex_coord(toks: Seq<Seq<char>>) -> Result<
    Seq<Seq<char>>,
    ObjParseError,
> {
    if toks.len() == 0 {
        Result::Err(ObjParseError::MissingTexCoord)
    } else if !spec_is_float(toks[0]) {
        Result::Err(ObjParseError::NonFloatTexCoord)
    } else if toks.len() == 1 {
        Result::Err(ObjParseError::MissingTexCoord)
    } else if !spec_is_float(toks[1]) {
        Result::Err(ObjParseError::NonFloatTexCoord)
    } else {
        Result::Ok(seq![toks[0], toks[1]])
    }
}

/// Reads a texture-coordinate record's components, validated and kept
/// verbatim.
pub fn parse_tex_coord(toks: &Vec<Vec<char>>) -> (r: Result<[Vec<char>; 2], ObjParseError>)
    ensures
        match spec_parse_tex_coord(toks.deep_view()) {
            Result::Ok(cs) => r matches Result::Ok(arr) && arr.deep_view() == cs,
            Result::Err(e) => r == Result::<[Vec<char>; 2], ObjParseError>::Err(e),
        },
{
    proof {
        assert(forall|i: int|
            0 <= i < toks@.len() ==> toks.deep_view()[i] == #[trigger] toks@[i]@);
    }
    if toks.len() == 0 {
        return Result::Err(ObjParseError::MissingTexCoord);
    }
    if !is_float_token(&toks[0]) {
        return Result::Err(ObjParseError::NonFloatTexCoord);
    }
    if toks.len() == 1 {
        return Result::Err(ObjParseError::MissingTexCoord);
    }
    if !is_float_token(&toks[1]) {
        return Result::Err(ObjParseError::NonFloatTexCoord);
    }
    let arr = [copy_token(&toks[0]), copy_token(&toks[1])];
    proof {
        assert(arr.deep_view() =~~= seq![toks.deep_view()[0], toks.deep_view()[1]]);
    }
    Result::Ok(arr)
}

/// A copy of a whole token.
fn copy_token(t: &Vec<char>) -> (r: Vec<char>)
    ensures
        r@ == t@,
{
    let r = subvec(t, 0, t.len());
    proof {
        assert(t@.subrange(0, t@.len() as int) =~= t@);
    }
    r
}

/// One merged output vertex: the position, uv and normal components,
/// verbatim, of one distinct (position, uv, normal) index triple.
#[derive(Debug)]
pub struct VertData {
    pub vert: [Vec<char>; 4],
    pub uv: [Vec<char>; 2],
    pub norm: [Vec<char>; 3],
}

/// A deduplicated mesh: merged vertices, and per face three indices into
/// them.
#[derive(Debug)]
pub struct Mesh {
    pub vertices: Vec<VertData>,
    pub faces: Vec<[u32; 3]>,
}

impl DeepView for FaceIndices {
    type V = FaceIndices;

    open spec fn deep_view(&self) -> FaceIndices {
        *self
    }
}

/// The face vertices of all faces, in order.
pub open spec fn spec_flat_faces(faces: Seq<Seq<FaceIndices>>) -> Seq<FaceIndices>
    decreases faces.len(),
{
    if faces.len() == 0 {
        Seq::empty()
    } else {
        spec_flat_faces(faces.drop_last()) + faces.last()
    }
}

/// Indexing into the flattened face list, for faces of three vertices.
pub proof fn lemma_flat_faces_index(faces: Seq<Seq<FaceIndices>>, j: int, k: int)
    requires
        forall|i: int| 0 <= i < faces.len() ==> #[trigger] faces[i].len() == 3,
        0 <= j < faces.len(),
        0 <= k < 3,
    ensures
        spec_flat_faces(faces).len() == 3 * faces.len(),
        spec_flat_faces(faces)[3 * j + k] == faces[j][k],
    decreases faces.len(),
{
    lemma_flat_faces_len(faces);
    if j + 1 < faces.len() {
        lemma_flat_faces_index(faces.drop_last(), j, k);
    }
}

pub proof fn lemma_flat_faces_len(faces: Seq<Seq<FaceIndices>>)
    requires
        forall|i: int| 0 <= i < faces.len() ==> #[trigger] faces[i].len() == 3,
    ensures
        spec_flat_faces(faces).len() == 3 * faces.len(),
    decreases faces.len(),
{
    if faces.len() > 0 {
        lemma_flat_faces_len(faces.drop_last());
    }
}

/// The first position of `x` in `s` (meaningful when `s` contains `x`).
pub open spec fn spec_pos_of(s: Seq<FaceIndices>, x: FaceIndices) -> int
    decreases s.len(),
{
    if s.len() == 0 {
        0
    } else if s[0] == x {
        0
    } else {
        1 + spec_pos_of(s.drop_first(), x)
    }
}

proof fn lemma_pos_of_unique(s: Seq<FaceIndices>, x: FaceIndices, j: int)
    requires
        0 <= j < s.len(),
        s[j] == x,
        forall|k: int| 0 <= k < j ==> s[k] != x,
    ensures
        j == spec_pos_of(s, x),
    decreases j,
{
    if j > 0 {
        lemma_pos_of_unique(s.drop_first(), x, j - 1);
    }
}

/// The first occurrence of a triple among the merged ones.
fn find_merged(seen: &Vec<FaceIndices>, x: FaceIndices) -> (r: Option<usize>)
    ensures
        match r {
            Option::Some(i) => seen@.contains(x) && i < seen@.len() && i == spec_pos_of(seen@, x),
            Option::None => !seen@.contains(x),
        },
{
    let n = seen.len();
    let mut i: usize = 0;
    while i < n
        invariant
            i <= n,
            n == seen@.len(),
            forall|k: int| 0 <= k < i ==> seen@[k] != x,
        decreases n - i,
    {
        if seen[i] == x {
            proof {
                lemma_pos_of_unique(seen@, x, i as int);
            }
            return Option::Some(i);
        }
        i = i + 1;
    }
    Option::None
}

/// The deduplication of the first `i` flattened face vertices: the merged
/// triples in order of first occurrence, and for each processed face
/// vertex the index of its triple among them.
pub open spec fn spec_dedup(flat: Seq<FaceIndices>, i: int) -> (Seq<FaceIndices>, Seq<u32>)
    decreases i,
{
    if i <= 0 {
        (Seq::empty(), Seq::empty())
    } else {
        let (m, o) = spec_dedup(flat, i - 1);
        if m.contains(flat[i - 1]) {
            (m, o.push(spec_pos_of(m, flat[i - 1]) as u32))
        } else {
            (m.push(flat[i - 1]), o.push(m.len() as u32))
        }
    }
}

pub proof fn lemma_dedup_lens(flat: Seq<FaceIndices>, i: int)
    requires
        0 <= i,
    ensures
        spec_dedup(flat, i).0.len() <= i,
        spec_dedup(flat, i).1.len() == i,
    decreases i,
{
    if i > 0 {
        lemma_dedup_lens(flat, i - 1);
    }
}

proof fn lemma_pos_of_in_range(s: Seq<FaceIndices>, x: FaceIndices)
    requires
        s.contains(x),
    ensures
        0 <= spec_pos_of(s, x) < s.len(),
    decreases s.len(),
{
    if s[0] != x {
        let j = choose|j: int| 0 <= j < s.len() && s[j] == x;
        assert(s.drop_first()[j - 1] == x);
        lemma_pos_of_in_range(s.drop_first(), x);
    }
}

/// Every index the deduplication hands out points into its merged list.
pub proof fn lemma_dedup_indices_in_range(flat: Seq<FaceIndices>, i: int)
    requires
        0 <= i <= u32::MAX as int,
    ensures
        forall|k: int|
            0 <= k < i ==> (#[trigger] spec_dedup(flat, i).1[k]) < spec_dedup(flat, i).0.len(),
    decreases i,
{
    if i > 0 {
        lemma_dedup_indices_in_range(flat, i - 1);
        lemma_dedup_lens(flat, i - 1);
        let m = spec_dedup(flat, i - 1).0;
        if m.contains(flat[i - 1]) {
            lemma_pos_of_in_range(m, flat[i - 1]);
        }
    }
}

/// Every face index a deduplicated mesh stores points into its merged
/// vertex list.
pub proof fn lemma_mesh_indices_in_range(
    m: Mesh,
    verts: Seq<Seq<Seq<char>>>,
    uvs: Seq<Seq<Seq<char>>>,
    norms: Seq<Seq<Seq<char>>>,
    faces: Seq<Seq<FaceIndices>>,
)
    requires
        mesh_matches(m, verts, uvs, norms, faces),
        forall|i: int| 0 <= i < faces.len() ==> #[trigger] faces[i].len() == 3,
        3 * faces.len() <= u32::MAX as int,
    ensures
        forall|j: int, k: int|
            0 <= j < m.faces@.len() && 0 <= k < 3 ==> (#[trigger] m.faces@[j]@[k]) < m.vertices@.len(),
{
    let flat = spec_flat_faces(faces);
    lemma_flat_faces_len(faces);
    lemma_dedup_indices_in_range(flat, flat.len() as int);
}

/// The components a merged vertex copies for the triple `f`.
pub open spec fn vert_data_matches(
    vd: VertData,
    verts: Seq<Seq<Seq<char>>>,
    uvs: Seq<Seq<Seq<char>>>,
    norms: Seq<Seq<Seq<char>>>,
    f: FaceIndices,
) -> bool {
    &&& vd.vert.deep_view() == verts[f.vert as int]
    &&& vd.uv.deep_view() == uvs[f.uv as int]
    &&& vd.norm.deep_view() == norms[f.norm as int]
}

fn make_vert_data(
    vertices: &Vec<[Vec<char>; 4]>,
    tex_coords: &Vec<[Vec<char>; 2]>,
    normals: &Vec<[Vec<char>; 3]>,
    f: FaceIndices,
) -> (vd: VertData)
    requires
        (f.vert as int) < vertices@.len(),
        (f.uv as int) < tex_coords@.len(),
        (f.norm as int) < normals@.len(),
    ensures
        vert_data_matches(
            vd,
            vertices.deep_view(),
            tex_coords.deep_view(),
            normals.deep_view(),
            f,
        ),
{
    let v = &vertices[f.vert as usize];
    let u = &tex_coords[f.uv as usize];
    let n = &normals[f.norm as usize];
    let vd = VertData {
        vert: [copy_token(&v[0]), copy_token(&v[1]), copy_token(&v[2]), copy_token(&v[3])],
        uv: [copy_token(&u[0]), copy_token(&u[1])],
        norm: [copy_token(&n[0]), copy_token(&n[1]), copy_token(&n[2])],
    };
    proof {
        assert(vd.vert.deep_view() =~~= vertices.deep_view()[f.vert as int]);
        assert(vd.uv.deep_view() =~~= tex_coords.deep_view()[f.uv as int]);
        assert(vd.norm.deep_view() =~~= normals.deep_view()[f.norm as int]);
    }
    vd
}

/// Merges one face vertex: returns the index of its triple, appending a
/// new merged vertex on first occurrence.
fn merge_face_vert(
    seen: &mut Vec<FaceIndices>,
    out_verts: &mut Vec<VertData>,
    vertices: &Vec<[Vec<char>; 4]>,
    tex_coords: &Vec<[Vec<char>; 2]>,
    normals: &Vec<[Vec<char>; 3]>,
    fi: FaceIndices,
) -> (idx: u32)
    requires
        (fi.vert as int) < vertices@.len(),
        (fi.uv as int) < tex_coords@.len(),
        (fi.norm as int) < normals@.len(),
        old(seen)@.len() == old(out_verts)@.len(),
        old(seen)@.len() < u32::MAX as int,
        forall|k: int|
            0 <= k < old(seen)@.len() ==> vert_data_matches(
                #[trigger] old(out_verts)@[k],
                vertices.deep_view(),
                tex_coords.deep_view(),
                normals.deep_view(),
                old(seen)@[k],
            ),
    ensures
        final(seen)@.len() == final(out_verts)@.len(),
        forall|k: int|
            0 <= k < final(seen)@.len() ==> vert_data_matches(
                #[trigger] final(out_verts)@[k],
                vertices.deep_view(),
                tex_coords.deep_view(),
                normals.deep_view(),
                final(seen)@[k],
            ),
        old(seen)@.contains(fi) ==> final(seen)@ == old(seen)@ && final(out_verts)@ == old(
            out_verts,
        )@ && idx == spec_pos_of(old(seen)@, fi),
        !old(seen)@.contains(fi) ==> final(seen)@ == old(seen)@.push(fi) && idx == old(
            seen,
        )@.len(),
{
    match find_merged(seen, fi) {
        Option::Some(i) => i as u32,
        Option::None => {
            let vd = make_vert_data(vertices, tex_coords, normals, fi);
            out_verts.push(vd);
            let idx = seen.len() as u32;
            seen.push(fi);
            idx
        },
    }
}

/// What deduplication produces for the given source lists and faces.
pub open spec fn mesh_matches(
    m: Mesh,
    verts: Seq<Seq<Seq<char>>>,
    uvs: Seq<Seq<Seq<char>>>,
    norms: Seq<Seq<Seq<char>>>,
    faces: Seq<Seq<FaceIndices>>,
) -> bool {
    let flat = spec_flat_faces(faces);
    let md = spec_dedup(flat, flat.len() as int);
    &&& m.vertices@.len() == md.0.len()
    &&& forall|k: int|
        0 <= k < md.0.len() ==> vert_data_matches(
            #[trigger] m.vertices@[k],
            verts,
            uvs,
            norms,
            md.0[k],
        )
    &&& m.faces@.len() == faces.len()
    &&& forall|j: int, k: int|
        0 <= j < faces.len() && 0 <= k < 3 ==> #[trigger] m.faces@[j]@[k] == md.1[3 * j + k]
}

/// Builds the deduplicated mesh: one output vertex per distinct
/// (position, uv, normal) triple, in order of first occurrence, and each
/// face rewritten to indices into the merged vertices.
#[verifier::loop_isolation(false)]
pub fn obj_data_to_mesh(
    vertices: &Vec<[Vec<char>; 4]>,
    tex_coords: &Vec<[Vec<char>; 2]>,
    normals: &Vec<[Vec<char>; 3]>,
    faces: &Vec<[FaceIndices; 3]>,
) -> (r: Mesh)
    requires
        forall|j: int, k: int|
            0 <= j < faces@.len() && 0 <= k < 3 ==> {
                &&& (#[trigger] faces@[j]@[k]).vert < vertices@.len()
                &&& faces@[j]@[k].uv < tex_coords@.len()
                &&& faces@[j]@[k].norm < normals@.len()
            },
        3 * faces@.len() <= u32::MAX as int,
    ensures
        mesh_matches(
            r,
            vertices.deep_view(),
            tex_coords.deep_view(),
            normals.deep_view(),
            faces.deep_view(),
        ),
{
    let ghost fd = faces.deep_view();
    let ghost flat = spec_flat_faces(fd);
    proof {
        assert(forall|i: int| 0 <= i < fd.len() ==> #[trigger] fd[i].len() == 3);
        lemma_flat_faces_len(fd);
        assert(forall|j: int| 0 <= j < faces@.len() ==> #[trigger] fd[j] =~= faces@[j]@);
    }
    let mut seen: Vec<FaceIndices> = Vec::new();
    let mut out_verts: Vec<VertData> = Vec::new();
    let mut out_faces: Vec<[u32; 3]> = Vec::new();
    let ghost mut ofl: Seq<u32> = Seq::empty();
    let n = faces.len();
    let mut j: usize = 0;
    while j < n
        invariant
            j <= n,
            seen@ == spec_dedup(flat, 3 * j as int).0,
            ofl == spec_dedup(flat, 3 * j as int).1,
            seen@.len() == out_verts@.len(),
            forall|k: int|
                0 <= k < seen@.len() ==> vert_data_matches(
                    #[trigger] out_verts@[k],
                    vertices.deep_view(),
                    tex_coords.deep_view(),
                    normals.deep_view(),
                    seen@[k],
                ),
            out_faces@.len() == j,
            ofl.len() == 3 * j,
            forall|j2: int, k: int|
                0 <= j2 < j && 0 <= k < 3 ==> #[trigger] out_faces@[j2]@[k] == ofl[3 * j2 + k],
        decreases n - j,
    {
        proof {
            lemma_dedup_lens(flat, 3 * j as int);
            lemma_flat_faces_index(fd, j as int, 0);
            lemma_flat_faces_index(fd, j as int, 1);
            lemma_flat_faces_index(fd, j as int, 2);
        }
        let fi0 = faces[j][0];
        let fi1 = faces[j][1];
        let fi2 = faces[j][2];
        let ghost pre = seen@;
        let i0 = merge_face_vert(&mut seen, &mut out_verts, vertices, tex_coords, normals, fi0);
        proof {
            assert(spec_dedup(flat, 3 * j as int + 1).0 == seen@);
            ofl = ofl.push(i0);
            assert(spec_dedup(flat, 3 * j as int + 1).1 == ofl);
            lemma_dedup_lens(flat, 3 * j as int + 1);
        }
        let i1 = merge_face_vert(&mut seen, &mut out_verts, vertices, tex_coords, normals, fi1);
        proof {
            assert(spec_dedup(flat, 3 * j as int + 2).0 == seen@);
            ofl = ofl.push(i1);
            assert(spec_dedup(flat, 3 * j as int + 2).1 == ofl);
            lemma_dedup_lens(flat, 3 * j as int + 2);
        }
        let i2 = merge_face_vert(&mut seen, &mut out_verts, vertices, tex_coords, normals, fi2);
        proof {
            assert(spec_dedup(flat, 3 * j as int + 3).0 == seen@);
            ofl = ofl.push(i2);
            assert(spec_dedup(flat, 3 * j as int + 3).1 == ofl);
        }
        let of: [u32; 3] = [i0, i1, i2];
        out_faces.push(of);
        proof {
            assert(of@ =~= seq![i0, i1, i2]);
        }
        j = j + 1;
    }
    Mesh { vertices: out_verts, faces: out_faces }
}

/// What parsing one line can fail with: the parse error of its record
/// kind, a missing type token on a blank line, and nothing on a line of an
/// unrecognized type (which is skipped).
pub open spec fn spec_line_error(line: Seq<char>) -> Option<ObjParseError> {
    let toks = spec_tokens(line);
    if toks.len() == 0 {
        Option::Some(ObjParseError::MissingType)
    } else if toks[0] == seq!['v'] {
        match spec_parse_vertex(toks.drop_first()) {
            Result::Ok(_) => Option::None,
            Result::Err(e) => Option::Some(e),
        }
    } else if toks[0] == seq!['f'] {
        match spec_parse_face(toks.drop_first()) {
            Result::Ok(_) => Option::None,
            Result::Err(e) => Option::Some(e),
        }
    } else if toks[0] == seq!['v', 't'] {
        match spec_parse_tex_coord(toks.drop_first()) {
            Result::Ok(_) => Option::None,
            Result::Err(e) => Option::Some(e),
        }
    } else if toks[0] == seq!['v', 'n'] {
        match spec_parse_vertex_3(toks.drop_first()) {
            Result::Ok(_) => Option::None,
            Result::Err(e) => Option::Some(e),
        }
    } else {
        Option::None
    }
}

/// The first line error in `lines`, scanning from the front.
pub open spec fn spec_obj_error(lines: Seq<Seq<char>>) -> Option<ObjParseError>
    decreases lines.len(),
{
    if lines.len() == 0 {
        Option::None
    } else if spec_line_error(lines[0]) is Some {
        spec_line_error(lines[0])
    } else {
        spec_obj_error(lines.drop_first())
    }
}

/// The components of every well-formed `v` record, in file order.
pub open spec fn spec_obj_verts(lines: Seq<Seq<char>>) -> Seq<Seq<Seq<char>>>
    decreases lines.len(),
{
    if lines.len() == 0 {
        Seq::empty()
    } else {
        let rest = spec_obj_verts(lines.drop_first());
        let toks = spec_tokens(lines[0]);
        if toks.len() > 0 && toks[0] == seq!['v'] {
            match spec_parse_vertex(toks.drop_first()) {
                Result::Ok(cs) => seq![cs] + rest,
                Result::Err(_) => rest,
            }
        } else {
            rest
        }
    }
}

/// The components of every well-formed `vt` record, in file order.
pub open spec fn spec_obj_uvs(lines: Seq<Seq<char>>) -> Seq<Seq<Seq<char>>>
    decreases lines.len(),
{
    if lines.len() == 0 {
        Seq::empty()
    } else {
        let rest = spec_obj_uvs(lines.drop_first());
        let toks = spec_tokens(lines[0]);
        if toks.len() > 0 && toks[0] == seq!['v', 't'] {
            match spec_parse_tex_coord(toks.drop_first()) {
                Result::Ok(cs) => seq![cs] + rest,
                Result::Err(_) => rest,
            }
        } else {
            rest
        }
    }
}

/// The components of every well-formed `vn` record, in file order.
pub open spec fn spec_obj_norms(lines: Seq<Seq<char>>) -> Seq<Seq<Seq<char>>>
    decreases lines.len(),
{
    if lines.len() == 0 {
        Seq::empty()
    } else {
        let rest = spec_obj_norms(lines.drop_first());
        let toks = spec_tokens(lines[0]);
        if toks.len() > 0 && toks[0] == seq!['v', 'n'] {
            match spec_parse_vertex_3(toks.drop_first()) {
                Result::Ok(cs) => seq![cs] + rest,
                Result::Err(_) => rest,
            }
        } else {
            rest
        }
    }
}

/// The face-vertex triples of every well-formed `f` record, in file order.
pub open spec fn spec_obj_faces(lines: Seq<Seq<char>>) -> Seq<Seq<FaceIndices>>
    decreases lines.len(),
{
    if lines.len() == 0 {
        Seq::empty()
    } else {
        let rest = spec_obj_faces(lines.drop_first());
        let toks = spec_tokens(lines[0]);
        if toks.len() > 0 && toks[0] == seq!['f'] {
            match spec_parse_face(toks.drop_first()) {
                Result::Ok(fs) => seq![fs] + rest,
                Result::Err(_) => rest,
            }
        } else {
            rest
        }
    }
}

/// The first face vertex whose index reaches past its source list, as the
/// error of that index kind.
pub open spec fn spec_face_bounds_error(
    flat: Seq<FaceIndices>,
    nv: int,
    nu: int,
    nn: int,
) -> Option<ObjParseError>
    decreases flat.len(),
{
    if flat.len() == 0 {
        Option::None
    } else if flat[0].vert >= nv {
        Option::Some(ObjParseError::InvalidFaceVert)
    } else if flat[0].uv >= nu {
        Option::Some(ObjParseError::InvalidFaceUv)
    } else if flat[0].norm >= nn {
        Option::Some(ObjParseError::InvalidFaceNorm)
    } else {
        spec_face_bounds_error(flat.drop_first(), nv, nu, nn)
    }
}

pub proof fn lemma_face_bounds_none(flat: Seq<FaceIndices>, nv: int, nu: int, nn: int)
    requires
        spec_face_bounds_error(flat, nv, nu, nn) is None,
    ensures
        forall|t: int|
            0 <= t < flat.len() ==> (#[trigger] flat[t]).vert < nv && flat[t].uv < nu
                && flat[t].norm < nn,
    decreases flat.len(),
{
    if flat.len() > 0 {
        lemma_face_bounds_none(flat.drop_first(), nv, nu, nn);
        assert(forall|t: int|
            1 <= t < flat.len() ==> #[trigger] flat[t] == flat.drop_first()[t - 1]);
    }
}

fn token_is1(t: &Vec<char>, c: char) -> (r: bool)
    ensures
        r == (t@ == seq![c]),
{
    let r = t.len() == 1 && t[0] == c;
    proof {
        if r {
            assert(t@ =~= seq![c]);
        }
    }
    r
}

fn token_is2(t: &Vec<char>, c0: char, c1: char) -> (r: bool)
    ensures
        r == (t@ == seq![c0, c1]),
{
    let r = t.len() == 2 && t[0] == c0 && t[1] == c1;
    proof {
        if r {
            assert(t@ =~= seq![c0, c1]);
        }
    }
    r
}

/// The tokens after the record's type token.
fn rest_tokens(toks: &Vec<Vec<char>>) -> (r: Vec<Vec<char>>)
    requires
        toks@.len() >= 1,
    ensures
        r.deep_view() == toks.deep_view().drop_first(),
{
    let mut r: Vec<Vec<char>> = Vec::new();
    let n = toks.len();
    let mut i: usize = 1;
    while i < n
        invariant
            1 <= i <= n,
            n == toks@.len(),
            r.deep_view() =~~= toks.deep_view().subrange(1, i as int),
        decreases n - i,
    {
        let ghost pre = r.deep_view();
        r.push(copy_token(&toks[i]));
        proof {
            assert(toks.deep_view()[i as int] == toks@[i as int]@);
            assert(r.deep_view() =~~= pre.push(toks@[i as int]@));
            assert(r.deep_view() =~~= toks.deep_view().subrange(1, i as int + 1));
        }
        i = i + 1;
    }
    proof {
        assert(toks.deep_view().subrange(1, n as int) =~~= toks.deep_view().drop_first());
    }
    r
}

/// Scans the faces, in order, for the first index out of range of its
/// source list.
#[verifier::loop_isolation(false)]
fn face_bounds_check(faces: &Vec<[FaceIndices; 3]>, nv: usize, nu: usize, nn: usize) -> (r:
    Option<ObjParseError>)
    ensures
        r == spec_face_bounds_error(
            spec_flat_faces(faces.deep_view()),
            nv as int,
            nu as int,
            nn as int,
        ),
{
    let ghost flat = spec_flat_faces(faces.deep_view());
    proof {
        assert(forall|i: int|
            0 <= i < faces.deep_view().len() ==> #[trigger] faces.deep_view()[i].len() == 3);
        lemma_flat_faces_len(faces.deep_view());
        assert(flat.skip(0) =~= flat);
    }
    let nf = faces.len();
    let mut j: usize = 0;
    while j < nf
        invariant
            j <= nf,
            spec_face_bounds_error(flat, nv as int, nu as int, nn as int)
                == spec_face_bounds_error(
                flat.skip(3 * j as int),
                nv as int,
                nu as int,
                nn as int,
            ),
        decreases nf - j,
    {
        proof {
            lemma_flat_faces_index(faces.deep_view(), j as int, 0);
            lemma_flat_faces_index(faces.deep_view(), j as int, 1);
            lemma_flat_faces_index(faces.deep_view(), j as int, 2);
            assert(faces.deep_view()[j as int] =~= faces@[j as int]@);
        }
        let mut k: usize = 0;
        while k < 3
            invariant
                k <= 3,
                j < nf,
                spec_face_bounds_error(flat, nv as int, nu as int, nn as int)
                    == spec_face_bounds_error(
                    flat.skip(3 * j as int + k as int),
                    nv as int,
                    nu as int,
                    nn as int,
                ),
                forall|k2: int|
                    0 <= k2 < 3 ==> flat[3 * j as int + k2] == faces@[j as int]@.index(k2),
            decreases 3 - k,
        {
            let ghost t = 3 * j as int + k as int;
            proof {
                assert(flat.skip(t)[0] == flat[t]);
                assert(flat.skip(t).drop_first() =~= flat.skip(t + 1));
            }
            let fi = faces[j][k];
            if fi.vert as usize >= nv {
                return Option::Some(ObjParseError::InvalidFaceVert);
            }
            if fi.uv as usize >= nu {
                return Option::Some(ObjParseError::InvalidFaceUv);
            }
            if fi.norm as usize >= nn {
                return Option::Some(ObjParseError::InvalidFaceNorm);
            }
            k = k + 1;
        }
        j = j + 1;
    }
    proof {
        assert(flat.skip(3 * nf as int) =~= Seq::<FaceIndices>::empty());
    }
    Option::None
}

/// What one line adds to the position list.
pub open spec fn spec_line_verts(l: Seq<char>) -> Seq<Seq<Seq<char>>> {
    let toks = spec_tokens(l);
    if toks.len() > 0 && toks[0] == seq!['v'] {
        match spec_parse_vertex(toks.drop_first()) {
            Result::Ok(cs) => seq![cs],
            Result::Err(_) => Seq::empty(),
        }
    } else {
        Seq::empty()
    }
}

/// What one line adds to the texture-coordinate list.
pub open spec fn spec_line_uvs(l: Seq<char>) -> Seq<Seq<Seq<char>>> {
    let toks = spec_tokens(l);
    if toks.len() > 0 && toks[0] == seq!['v', 't'] {
        match spec_parse_tex_coord(toks.drop_first()) {
            Result::Ok(cs) => seq![cs],
            Result::Err(_) => Seq::empty(),
        }
    } else {
        Seq::empty()
    }
}

/// What one line adds to the normal list.
pub open spec fn spec_line_norms(l: Seq<char>) -> Seq<Seq<Seq<char>>> {
    let toks = spec_tokens(l);
    if toks.len() > 0 && toks[0] == seq!['v', 'n'] {
        match spec_parse_vertex_3(toks.drop_first()) {
            Result::Ok(cs) => seq![cs],
            Result::Err(_) => Seq::empty(),
        }
    } else {
        Seq::empty()
    }
}

/// What one line adds to the face list.
pub open spec fn spec_line_faces(l: Seq<char>) -> Seq<Seq<FaceIndices>> {
    let toks = spec_tokens(l);
    if toks.len() > 0 && toks[0] == seq!['f'] {
        match spec_parse_face(toks.drop_first()) {
            Result::Ok(fs) => seq![fs],
            Result::Err(_) => Seq::empty(),
        }
    } else {
        Seq::empty()
    }
}

/// Unfolding the collectors one line at a time.
proof fn lemma_obj_step(lines: Seq<Seq<char>>)
    requires
        lines.len() > 0,
    ensures
        spec_obj_verts(lines) == spec_line_verts(lines[0]) + spec_obj_verts(lines.drop_first()),
        spec_obj_uvs(lines) == spec_line_uvs(lines[0]) + spec_obj_uvs(lines.drop_first()),
        spec_obj_norms(lines) == spec_line_norms(lines[0]) + spec_obj_norms(lines.drop_first()),
        spec_obj_faces(lines) == spec_line_faces(lines[0]) + spec_obj_faces(lines.drop_first()),
{
    assert(spec_obj_verts(lines) =~= spec_line_verts(lines[0]) + spec_obj_verts(
        lines.drop_first(),
    ));
    assert(spec_obj_uvs(lines) =~= spec_line_uvs(lines[0]) + spec_obj_uvs(lines.drop_first()));
    assert(spec_obj_norms(lines) =~= spec_line_norms(lines[0]) + spec_obj_norms(
        lines.drop_first(),
    ));
    assert(spec_obj_faces(lines) =~= spec_line_faces(lines[0]) + spec_obj_faces(
        lines.drop_first(),
    ));
}

/// Parses one line and appends its record to the matching list; yields the
/// line's error instead if it has one.
#[verifier::rlimit(100)]
#[verifier::spinoff_prover]
fn scan_one_line(
    line: &String,
    vertices: &mut Vec<[Vec<char>; 4]>,
    tex_coords: &mut Vec<[Vec<char>; 2]>,
    normals: &mut Vec<[Vec<char>; 3]>,
    faces: &mut Vec<[FaceIndices; 3]>,
) -> (r: Option<ObjParseError>)
    ensures
        match r {
            Option::None => {
                &&& spec_line_error(line@) is None
                &&& final(vertices).deep_view() == old(vertices).deep_view() + spec_line_verts(
                    line@,
                )
                &&& final(tex_coords).deep_view() == old(tex_coords).deep_view() + spec_line_uvs(
                    line@,
                )
                &&& final(normals).deep_view() == old(normals).deep_view() + spec_line_norms(
                    line@,
                )
                &&& final(faces).deep_view() == old(faces).deep_view() + spec_line_faces(line@)
            },
            Option::Some(e) => spec_line_error(line@) == Option::Some(e),
        },
{
    let line_chars = chars_of(line.as_str());
    let toks = tokenize(&line_chars);
    if toks.len() == 0 {
        return Option::Some(ObjParseError::MissingType);
    }
    proof {
        assert(toks.deep_view()[0] == toks@[0]@);
    }
    if token_is1(&toks[0], 'v') {
        let rest = rest_tokens(&toks);
        match parse_vertex(&rest) {
            Result::Ok(arr) => {
                let ghost pre = vertices.deep_view();
                vertices.push(arr);
                proof {
                    assert(seq!['v'] != seq!['f']) by {
                        assert(seq!['v'].index(0) == 'v');
                        assert(seq!['f'].index(0) == 'f');
                    }
                    assert(seq!['v'].len() == 1 && seq!['v', 't'].len() == 2 && seq![
                        'v',
                        'n',
                    ].len() == 2);
                    assert(vertices.deep_view() =~= pre + spec_line_verts(line@));
                    assert(tex_coords.deep_view() =~= tex_coords.deep_view() + spec_line_uvs(
                        line@,
                    ));
                    assert(normals.deep_view() =~= normals.deep_view() + spec_line_norms(line@));
                    assert(faces.deep_view() =~= faces.deep_view() + spec_line_faces(line@));
                }
                Option::None
            },
            Result::Err(e) => Option::Some(e),
        }
    } else if token_is1(&toks[0], 'f') {
        let rest = rest_tokens(&toks);
        match parse_face(&rest) {
            Result::Ok(arr) => {
                let ghost pre = faces.deep_view();
                faces.push(arr);
                proof {
                    assert(seq!['f'] != seq!['v']) by {
                        assert(seq!['v'].index(0) == 'v');
                        assert(seq!['f'].index(0) == 'f');
                    }
                    assert(seq!['f'].len() == 1 && seq!['v', 't'].len() == 2 && seq![
                        'v',
                        'n',
                    ].len() == 2);
                    assert(arr.deep_view() =~= arr@);
                    assert(faces.deep_view() =~= pre + spec_line_faces(line@));
                    assert(vertices.deep_view() =~= vertices.deep_view() + spec_line_verts(
                        line@,
                    ));
                    assert(tex_coords.deep_view() =~= tex_coords.deep_view() + spec_line_uvs(
                        line@,
                    ));
                    assert(normals.deep_view() =~= normals.deep_view() + spec_line_norms(line@));
                }
                Option::None
            },
            Result::Err(e) => Option::Some(e),
        }
    } else if token_is2(&toks[0], 'v', 't') {
        let rest = rest_tokens(&toks);
        match parse_tex_coord(&rest) {
            Result::Ok(arr) => {
                let ghost pre = tex_coords.deep_view();
                tex_coords.push(arr);
                proof {
                    assert(seq!['v', 't'] != seq!['v', 'n']) by {
                        assert(seq!['v', 't'].index(1) == 't');
                        assert(seq!['v', 'n'].index(1) == 'n');
                    }
                    assert(seq!['v'].len() == 1 && seq!['f'].len() == 1 && seq![
                        'v',
                        't',
                    ].len() == 2);
                    assert(tex_coords.deep_view() =~= pre + spec_line_uvs(line@));
                    assert(vertices.deep_view() =~= vertices.deep_view() + spec_line_verts(
                        line@,
                    ));
                    assert(normals.deep_view() =~= normals.deep_view() + spec_line_norms(line@));
                    assert(faces.deep_view() =~= faces.deep_view() + spec_line_faces(line@));
                }
                Option::None
            },
            Result::Err(e) => Option::Some(e),
        }
    } else if token_is2(&toks[0], 'v', 'n') {
        let rest = rest_tokens(&toks);
        match parse_vertex_3(&rest) {
            Result::Ok(arr) => {
                let ghost pre = normals.deep_view();
                normals.push(arr);
                proof {
                    assert(seq!['v', 'n'] != seq!['v', 't']) by {
                        assert(seq!['v', 't'].index(1) == 't');
                        assert(seq!['v', 'n'].index(1) == 'n');
                    }
                    assert(seq!['v'].len() == 1 && seq!['f'].len() == 1 && seq![
                        'v',
                        'n',
                    ].len() == 2);
                    assert(normals.deep_view() =~= pre + spec_line_norms(line@));
                    assert(vertices.deep_view() =~= vertices.deep_view() + spec_line_verts(
                        line@,
                    ));
                    assert(tex_coords.deep_view() =~= tex_coords.deep_view() + spec_line_uvs(
                        line@,
                    ));
                    assert(faces.deep_view() =~= faces.deep_view() + spec_line_faces(line@));
                }
                Option::None
            },
            Result::Err(e) => Option::Some(e),
        }
    } else {
        proof {
            assert(vertices.deep_view() =~= vertices.deep_view() + spec_line_verts(line@));
            assert(tex_coords.deep_view() =~= tex_coords.deep_view() + spec_line_uvs(line@));
            assert(normals.deep_view() =~= normals.deep_view() + spec_line_norms(line@));
            assert(faces.deep_view() =~= faces.deep_view() + spec_line_faces(line@));
        }
        Option::None
    }
}

/// Parses every line, collecting the four record lists; stops at the
/// first line error.
#[verifier::loop_isolation(false)]
#[verifier::rlimit(100)]
#[verifier::spinoff_prover]
fn scan_lines(lines: &Vec<String>) -> (r: Result<
    (Vec<[Vec<char>; 4]>, Vec<[Vec<char>; 2]>, Vec<[Vec<char>; 3]>, Vec<[FaceIndices; 3]>),
    ObjParseError,
>)
    ensures
        ({
            let ls = lines.deep_view();
            match r {
                Result::Ok(t) => {
                    &&& spec_obj_error(ls) is None
                    &&& t.0.deep_view() == spec_obj_verts(ls)
                    &&& t.1.deep_view() == spec_obj_uvs(ls)
                    &&& t.2.deep_view() == spec_obj_norms(ls)
                    &&& t.3.deep_view() == spec_obj_faces(ls)
                },
                Result::Err(e) => spec_obj_error(ls) == Option::Some(e),
            }
        }),
{
    let ghost ls = lines.deep_view();
    let mut vertices: Vec<[Vec<char>; 4]> = Vec::new();
    let mut tex_coords: Vec<[Vec<char>; 2]> = Vec::new();
    let mut normals: Vec<[Vec<char>; 3]> = Vec::new();
    let mut faces: Vec<[FaceIndices; 3]> = Vec::new();
    let n = lines.len();
    let mut li: usize = 0;
    proof {
        assert(ls.skip(0) =~= ls);
    }
    while li < n
        invariant
            li <= n,
            spec_obj_error(ls) == spec_obj_error(ls.skip(li as int)),
            vertices.deep_view() + spec_obj_verts(ls.skip(li as int)) == spec_obj_verts(ls),
            tex_coords.deep_view() + spec_obj_uvs(ls.skip(li as int)) == spec_obj_uvs(ls),
            normals.deep_view() + spec_obj_norms(ls.skip(li as int)) == spec_obj_norms(ls),
            faces.deep_view() + spec_obj_faces(ls.skip(li as int)) == spec_obj_faces(ls),
        decreases n - li,
    {
        proof {
            assert(ls.skip(li as int)[0] == ls[li as int]);
            assert(ls.skip(li as int).drop_first() =~= ls.skip(li as int + 1));
            assert(ls[li as int] == lines@[li as int]@);
            lemma_obj_step(ls.skip(li as int));
        }
        let ghost pre_v = vertices.deep_view();
        let ghost pre_u = tex_coords.deep_view();
        let ghost pre_n = normals.deep_view();
        let ghost pre_f = faces.deep_view();
        match scan_one_line(&lines[li], &mut vertices, &mut tex_coords, &mut normals, &mut faces) {
            Option::Some(e) => {
                return Result::Err(e);
            },
            Option::None => {},
        }
        proof {
            let l = ls[li as int];
            assert(vertices.deep_view() + spec_obj_verts(ls.skip(li as int + 1)) =~= pre_v
                + (spec_line_verts(l) + spec_obj_verts(ls.skip(li as int + 1))));
            assert(tex_coords.deep_view() + spec_obj_uvs(ls.skip(li as int + 1)) =~= pre_u
                + (spec_line_uvs(l) + spec_obj_uvs(ls.skip(li as int + 1))));
            assert(normals.deep_view() + spec_obj_norms(ls.skip(li as int + 1)) =~= pre_n
                + (spec_line_norms(l) + spec_obj_norms(ls.skip(li as int + 1))));
            assert(faces.deep_view() + spec_obj_faces(ls.skip(li as int + 1)) =~= pre_f
                + (spec_line_faces(l) + spec_obj_faces(ls.skip(li as int + 1))));
        }
        li = li + 1;
    }
    proof {
        assert(ls.skip(n as int) =~= Seq::<Seq<char>>::empty());
        assert(vertices.deep_view() =~= spec_obj_verts(ls));
        assert(tex_coords.deep_view() =~= spec_obj_uvs(ls));
        assert(normals.deep_view() =~= spec_obj_norms(ls));
        assert(faces.deep_view() =~= spec_obj_faces(ls));
    }
    Result::Ok((vertices, tex_coords, normals, faces))
}

/// The flattened list lines up with per-face indexing.
pub proof fn lemma_flat_faces_all(faces: Seq<Seq<FaceIndices>>)
    requires
        forall|i: int| 0 <= i < faces.len() ==> #[trigger] faces[i].len() == 3,
    ensures
        spec_flat_faces(faces).len() == 3 * faces.len(),
        forall|j: int, k: int|
            0 <= j < faces.len() && 0 <= k < 3 ==> #[trigger] faces[j][k] == spec_flat_faces(
                faces,
            )[3 * j + k],
{
    lemma_flat_faces_len(faces);
    assert forall|j: int, k: int|
        0 <= j < faces.len() && 0 <= k < 3 implies #[trigger] faces[j][k] == spec_flat_faces(
        faces,
    )[3 * j + k] by {
        lemma_flat_faces_index(faces, j, k);
    }
}

impl Mesh {
    /// Parses the lines of an OBJ file and builds the deduplicated mesh.
    /// Lines of unrecognized types are skipped; every other failure is the
    /// first error the scan meets: a parse error in file order, then an
    /// exhausted index space, then the first face index out of range.
    pub fn from_obj_file(lines: &Vec<String>) -> (r: Result<Mesh, ObjParseError>)
        ensures
            ({
                let ls = lines.deep_view();
                let fs = spec_obj_faces(ls);
                let flat = spec_flat_faces(fs);
                let nv = spec_obj_verts(ls).len() as int;
                let nu = spec_obj_uvs(ls).len() as int;
                let nn = spec_obj_norms(ls).len() as int;
                match r {
                    Result::Ok(mesh) => {
                        &&& spec_obj_error(ls) is None
                        &&& 3 * fs.len() <= u32::MAX as int
                        &&& spec_face_bounds_error(flat, nv, nu, nn) is None
                        &&& mesh_matches(
                            mesh,
                            spec_obj_verts(ls),
                            spec_obj_uvs(ls),
                            spec_obj_norms(ls),
                            fs,
                        )
                    },
                    Result::Err(e) => match spec_obj_error(ls) {
                        Option::Some(pe) => e == pe,
                        Option::None => if 3 * fs.len() > u32::MAX as int {
                            e == ObjParseError::InvalidFaceVert
                        } else {
                            spec_face_bounds_error(flat, nv, nu, nn) == Option::Some(e)
                        },
                    },
                }
            }),
    {
        let ghost ls = lines.deep_view();
        let (vertices, tex_coords, normals, faces) = match scan_lines(lines) {
            Result::Ok(t) => t,
            Result::Err(e) => {
                return Result::Err(e);
            },
        };
        proof {
            assert(forall|i: int|
                0 <= i < faces.deep_view().len() ==> #[trigger] faces.deep_view()[i].len() == 3);
            lemma_flat_faces_len(faces.deep_view());
        }
        if faces.len() > (u32::MAX / 3) as usize {
            return Result::Err(ObjParseError::InvalidFaceVert);
        }
        let ghost flat = spec_flat_faces(faces.deep_view());
        match face_bounds_check(&faces, vertices.len(), tex_coords.len(), normals.len()) {
            Option::Some(e) => {
                return Result::Err(e);
            },
            Option::None => {},
        }
        proof {
            lemma_face_bounds_none(
                flat,
                vertices@.len() as int,
                tex_coords@.len() as int,
                normals@.len() as int,
            );
            lemma_flat_faces_all(faces.deep_view());
            assert forall|j2: int, k2: int|
                0 <= j2 < faces@.len() && 0 <= k2 < 3 implies {
                    &&& (#[trigger] faces@[j2]@[k2]).vert < vertices@.len()
                    &&& faces@[j2]@[k2].uv < tex_coords@.len()
                    &&& faces@[j2]@[k2].norm < normals@.len()
                } by {
                let fd = faces.deep_view();
                assert(fd[j2] =~= faces@[j2]@);
                assert(faces@[j2]@[k2] == fd[j2][k2]);
                assert(fd[j2][k2] == flat[3 * j2 + k2]);
                assert(0 <= 3 * j2 + k2 < flat.len());
            }
        }
        Result::Ok(obj_data_to_mesh(&vertices, &tex_coords, &normals, &faces))
    }
}

/// A longer mantissa prefix never has fewer dots.
proof fn lemma_dot_count_prefix_le(s: Seq<char>, j: int)
    requires
        0 <= j <= s.len(),
    ensures
        spec_dot_count(s.take(j)) <= spec_dot_count(s),
    decreases s.len(),
{
    if j < s.len() {
        let d = s.drop_last();
        assert(d.take(j) =~= s.take(j));
        lemma_dot_count_prefix_le(d, j);
    } else {
        assert(s.take(j) =~= s);
    }
}

} // verus!
