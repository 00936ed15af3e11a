//! Parser for a line-oriented text mesh format.
//!
//! The format is a triangle-only subset of the common `v`/`vt`/`vn`/`f`
//! vertex description: `v x y z` appends a position, `vt u v` a texture
//! coordinate, `vn x y z` a normal, and `f a/b/c a/b/c a/b/c` resolves
//! three 1-based index triples into three fully expanded vertices. Lines
//! with any other first token are ignored.
//!
//! The parser never interprets the numeric value of a coordinate: each
//! coordinate is kept as its source token, validated against a decimal
//! number grammar, so that the host can convert the tokens to whatever
//! floating-point width the driver wants at upload time.

use vstd::prelude::*;
use vstd::slice::{slice_subrange, slice_to_vec};
use vstd::string::StringSliceAdditionalSpecFns;

verus! {

/// The reason a mesh text was rejected.
#[derive(Clone, Copy, PartialEq, Eq, Structural, Debug)]
pub enum ParseErrorKind {
    /// A token that should have been a number (a coordinate or a face
    /// index) does not fit the numeric grammar, or an index does not fit
    /// the machine's word.
    BadNumber,
    /// A face line does not consist of exactly three `a/b/c` triples.
    BadFace,
    /// A coordinate line has fewer coordinate tokens than its kind needs.
    MissingCoord,
    /// A face index is zero or refers past the end of the list it indexes.
    OutOfRange,
}

/// A rejected mesh text: the first offending line (1-based) and why.
#[derive(Clone, Copy, PartialEq, Eq, Structural, Debug)]
pub struct ParseError {
    pub line: usize,
    pub kind: ParseErrorKind,
}

pub const NL: u8 = 0x0a;
pub const SLASH: u8 = 0x2f;

/// Whitespace separating tokens within one line. The line separator
/// itself (`\n`) never occurs inside a line; a carriage return before it
/// is treated as ordinary whitespace, so `\r\n` line ends need no special
/// case.
pub open spec fn is_ws(b: u8) -> bool {
    b == 0x20 || b == 0x09 || b == 0x0d || b == 0x0b || b == 0x0c
}

pub open spec fn is_digit(b: u8) -> bool {
    0x30 <= b <= 0x39
}

/// Index of the first occurrence of `b` in `s`, or `s.len()` if absent.
pub open spec fn find_byte(s: Seq<u8>, b: u8) -> int
    decreases s.len(),
{
    if s.len() == 0 {
        0
    } else if s[0] == b {
        0
    } else {
        1 + find_byte(s.drop_first(), b)
    }
}

pub proof fn lemma_find_byte(s: Seq<u8>, b: u8)
    ensures
        0 <= find_byte(s, b) <= s.len(),
        forall|j: int| 0 <= j < find_byte(s, b) ==> s[j] != b,
        find_byte(s, b) < s.len() ==> s[find_byte(s, b)] == b,
    decreases s.len(),
{
    if s.len() > 0 && s[0] != b {
        lemma_find_byte(s.drop_first(), b);
        assert forall|j: int| 0 <= j < find_byte(s, b) implies s[j] != b by {
            if j > 0 {
                assert(s[j] == s.drop_first()[j - 1]);
            }
        }
    }
}

/// `find_byte` is determined by where the byte actually sits: if no byte
/// before `i` is `b`, and `i` is either the end or a `b`, then `i` is what
/// `find_byte` returns.
pub proof fn lemma_find_byte_at(s: Seq<u8>, b: u8, i: int)
    requires
        0 <= i <= s.len(),
        forall|j: int| 0 <= j < i ==> s[j] != b,
        i < s.len() ==> s[i] == b,
    ensures
        find_byte(s, b) == i,
    decreases s.len(),
{
    if s.len() > 0 && s[0] != b {
        assert(forall|j: int| 0 <= j < i - 1 ==> s.drop_first()[j] != b);
        lemma_find_byte_at(s.drop_first(), b, i - 1);
    }
}

/// The lines of a text: split on `\n`, the separator not kept, and no
/// empty trailing line after a final `\n`.
pub open spec fn line_split(s: Seq<u8>) -> Seq<Seq<u8>>
    decreases s.len(),
        via line_split_decreases
{
    if s.len() == 0 {
        seq![]
    } else {
        let i = find_byte(s, NL);
        if i == s.len() {
            seq![s]
        } else {
            seq![s.take(i)] + line_split(s.skip(i + 1))
        }
    }
}

#[via_fn]
proof fn line_split_decreases(s: Seq<u8>) {
    lemma_find_byte(s, NL);
}

/// Length of the token starting at the head of `l` (0 if `l` starts with
/// whitespace or is empty).
pub open spec fn token_len(l: Seq<u8>) -> nat
    decreases l.len(),
{
    if l.len() == 0 || is_ws(l[0]) {
        0
    } else {
        1 + token_len(l.drop_first())
    }
}

pub proof fn lemma_token_len(l: Seq<u8>)
    ensures
        token_len(l) <= l.len(),
        forall|j: int| 0 <= j < token_len(l) ==> !is_ws(l[j]),
        token_len(l) < l.len() ==> is_ws(l[token_len(l) as int]),
    decreases l.len(),
{
    if l.len() > 0 && !is_ws(l[0]) {
        lemma_token_len(l.drop_first());
        assert forall|j: int| 0 <= j < token_len(l) implies !is_ws(l[j]) by {
            if j > 0 {
                assert(l[j] == l.drop_first()[j - 1]);
            }
        }
    }
}

/// Like `lemma_find_byte_at`: the token length is wherever the first
/// whitespace byte actually sits.
pub proof fn lemma_token_len_at(l: Seq<u8>, i: int)
    requires
        0 <= i <= l.len(),
        forall|j: int| 0 <= j < i ==> !is_ws(l[j]),
        i < l.len() ==> is_ws(l[i]),
    ensures
        token_len(l) == i,
    decreases l.len(),
{
    if l.len() > 0 && !is_ws(l[0]) {
        assert(forall|j: int| 0 <= j < i - 1 ==> !is_ws(l.drop_first()[j]));
        lemma_token_len_at(l.drop_first(), i - 1);
    }
}

/// The whitespace-separated tokens of one line, in order.
pub open spec fn tokenize(l: Seq<u8>) -> Seq<Seq<u8>>
    decreases l.len(),
        via tokenize_decreases
{
    if l.len() == 0 {
        seq![]
    } else if is_ws(l[0]) {
        tokenize(l.drop_first())
    } else {
        let n = token_len(l) as int;
        seq![l.take(n)] + tokenize(l.skip(n))
    }
}

#[via_fn]
proof fn tokenize_decreases(l: Seq<u8>) {
    lemma_token_len(l);
}

pub open spec fn all_digits(s: Seq<u8>) -> bool {
    forall|i: int| 0 <= i < s.len() ==> is_digit(s[i])
}

/// A non-empty run of decimal digits.
pub open spec fn is_uint_token(s: Seq<u8>) -> bool {
    s.len() >= 1 && all_digits(s)
}

/// The value of a digit run, most significant digit first.
pub open spec fn uint_val(s: Seq<u8>) -> nat
    recommends
        all_digits(s),
    decreases s.len(),
{
    if s.len() == 0 {
        0
    } else {
        (uint_val(s.drop_last()) * 10 + (s.last() - 0x30)) as nat
    }
}

/// A longer digit run never has a smaller value.
pub proof fn lemma_uint_val_prefix(s: Seq<u8>, k: int)
    requires
        all_digits(s),
        0 <= k <= s.len(),
    ensures
        uint_val(s) >= uint_val(s.take(k)),
    decreases s.len(),
{
    if k < s.len() {
        assert(s.drop_last().take(k) =~= s.take(k));
        assert(forall|i: int| 0 <= i < s.len() - 1 ==> is_digit(s.drop_last()[i]));
        lemma_uint_val_prefix(s.drop_last(), k);
        assert(is_digit(s.last()));
    } else {
        assert(s.take(k) =~= s);
    }
}

pub open spec fn is_sign(b: u8) -> bool {
    b == 0x2b || b == 0x2d
}

pub open spec fn strip_sign(s: Seq<u8>) -> Seq<u8> {
    if s.len() > 0 && is_sign(s[0]) {
        s.drop_first()
    } else {
        s
    }
}

pub const DOT: u8 = 0x2e;

/// Digits with at most one decimal point somewhere among them, and at
/// least one digit: `12`, `12.`, `12.5` and `.5` qualify; `.`, `` and
/// `1.2.3` do not.
pub open spec fn is_mantissa(s: Seq<u8>) -> bool {
    let i = find_byte(s, DOT);
    if i == s.len() {
        is_uint_token(s)
    } else {
        s.len() >= 2 && all_digits(s.take(i)) && all_digits(s.skip(i + 1))
    }
}

pub open spec fn is_exp_mark(b: u8) -> bool {
    b == 0x65 || b == 0x45
}

/// Index of the first exponent mark (`e` or `E`) in `s`, or `s.len()`.
pub open spec fn find_exp(s: Seq<u8>) -> int
    decreases s.len(),
{
    if s.len() == 0 {
        0
    } else if is_exp_mark(s[0]) {
        0
    } else {
        1 + find_exp(s.drop_first())
    }
}

pub proof fn lemma_find_exp_at(s: Seq<u8>, i: int)
    requires
        0 <= i <= s.len(),
        forall|j: int| 0 <= j < i ==> !is_exp_mark(s[j]),
        i < s.len() ==> is_exp_mark(s[i]),
    ensures
        find_exp(s) == i,
    decreases s.len(),
{
    if s.len() > 0 && !is_exp_mark(s[0]) {
        assert(forall|j: int| 0 <= j < i - 1 ==> s.drop_first()[j] == s[j + 1]);
        lemma_find_exp_at(s.drop_first(), i - 1);
    }
}

/// The decimal number grammar for coordinates: an optional sign, a
/// mantissa, and an optional exponent (`e` or `E`, optional sign, digits).
pub open spec fn is_number_token(s: Seq<u8>) -> bool {
    let u = strip_sign(s);
    let e = find_exp(u);
    if e == u.len() {
        is_mantissa(u)
    } else {
        is_mantissa(u.take(e)) && is_uint_token(strip_sign(u.skip(e + 1)))
    }
}

/// A 1-based face index: a digit run whose value fits the machine word.
pub open spec fn index_ok(part: Seq<u8>) -> bool {
    is_uint_token(part) && uint_val(part) <= usize::MAX
}

/// The three index components of a face-vertex token `a/b/c`, split at
/// the first two slashes, or `None` if there are fewer than two slashes.
pub open spec fn face_parts(t: Seq<u8>) -> Option<(Seq<u8>, Seq<u8>, Seq<u8>)> {
    let i = find_byte(t, SLASH);
    if i == t.len() {
        None
    } else {
        let rest = t.skip(i + 1);
        let j = find_byte(rest, SLASH);
        if j == rest.len() {
            None
        } else {
            Some((t.take(i), rest.take(j), rest.skip(j + 1)))
        }
    }
}

/// One vertex of the parse: its eight coordinate tokens, in upload order
/// (position x y z, texture u v, normal x y z).
pub type VertexTokens = Seq<Seq<u8>>;

/// The parser's accumulated state: the three flat coordinate token lists
/// (positions at stride 3, texture coordinates at stride 2, normals at
/// stride 3) and the expanded vertex output.
#[verifier::ext_equal]
pub ghost struct ObjState {
    pub v: Seq<Seq<u8>>,
    pub vt: Seq<Seq<u8>>,
    pub vn: Seq<Seq<u8>>,
    pub out: Seq<VertexTokens>,
}

pub open spec fn init_state() -> ObjState {
    ObjState { v: seq![], vt: seq![], vn: seq![], out: seq![] }
}

/// The direct concatenation of the referenced position triple, texture
/// pair and normal triple, each list read at its own stride, for the
/// 1-based indices `ai`, `bi`, `ci`.
pub open spec fn resolved_vertex(st: ObjState, ai: int, bi: int, ci: int) -> VertexTokens {
    seq![
        st.v[3 * (ai - 1)],
        st.v[3 * (ai - 1) + 1],
        st.v[3 * (ai - 1) + 2],
        st.vt[2 * (bi - 1)],
        st.vt[2 * (bi - 1) + 1],
        st.vn[3 * (ci - 1)],
        st.vn[3 * (ci - 1) + 1],
        st.vn[3 * (ci - 1) + 2],
    ]
}

/// Resolve one `a/b/c` face-vertex token against the current lists: the
/// result is the direct concatenation of the referenced position triple,
/// texture pair and normal triple, each list read at its own stride.
pub open spec fn face_vertex(st: ObjState, t: Seq<u8>) -> Result<VertexTokens, ParseErrorKind> {
    match face_parts(t) {
        None => Err(ParseErrorKind::BadFace),
        Some((a, b, c)) => {
            if !index_ok(a) || !index_ok(b) || !index_ok(c) {
                Err(ParseErrorKind::BadNumber)
            } else {
                let ai = uint_val(a) as int;
                let bi = uint_val(b) as int;
                let ci = uint_val(c) as int;
                if ai == 0 || 3 * ai > st.v.len() {
                    Err(ParseErrorKind::OutOfRange)
                } else if bi == 0 || 2 * bi > st.vt.len() {
                    Err(ParseErrorKind::OutOfRange)
                } else if ci == 0 || 3 * ci > st.vn.len() {
                    Err(ParseErrorKind::OutOfRange)
                } else {
                    Ok(resolved_vertex(st, ai, bi, ci))
                }
            }
        },
    }
}

pub const KW_V: u8 = 0x76;
pub const KW_T: u8 = 0x74;
pub const KW_N: u8 = 0x6e;
pub const KW_F: u8 = 0x66;

/// What one line does to the parser state. A blank line, or one whose
/// first token is not `v`, `vt`, `vn` or `f`, changes nothing.
pub open spec fn step_line(st: ObjState, line: Seq<u8>) -> Result<ObjState, ParseErrorKind> {
    let toks = tokenize(line);
    if toks.len() == 0 {
        Ok(st)
    } else if toks[0] == seq![KW_V] {
        if toks.len() < 4 {
            Err(ParseErrorKind::MissingCoord)
        } else if !is_number_token(toks[1]) || !is_number_token(toks[2]) || !is_number_token(
            toks[3],
        ) {
            Err(ParseErrorKind::BadNumber)
        } else {
            Ok(ObjState { v: st.v + seq![toks[1], toks[2], toks[3]], vt: st.vt, vn: st.vn, out: st.out })
        }
    } else if toks[0] == seq![KW_V, KW_T] {
        if toks.len() < 3 {
            Err(ParseErrorKind::MissingCoord)
        } else if !is_number_token(toks[1]) || !is_number_token(toks[2]) {
            Err(ParseErrorKind::BadNumber)
        } else {
            Ok(ObjState { v: st.v, vt: st.vt + seq![toks[1], toks[2]], vn: st.vn, out: st.out })
        }
    } else if toks[0] == seq![KW_V, KW_N] {
        if toks.len() < 4 {
            Err(ParseErrorKind::MissingCoord)
        } else if !is_number_token(toks[1]) || !is_number_token(toks[2]) || !is_number_token(
            toks[3],
        ) {
            Err(ParseErrorKind::BadNumber)
        } else {
            Ok(ObjState { v: st.v, vt: st.vt, vn: st.vn + seq![toks[1], toks[2], toks[3]], out: st.out })
        }
    } else if toks[0] == seq![KW_F] {
        if toks.len() != 4 {
            Err(ParseErrorKind::BadFace)
        } else {
            match face_vertex(st, toks[1]) {
                Err(k) => Err(k),
                Ok(v1) => match face_vertex(st, toks[2]) {
                    Err(k) => Err(k),
                    Ok(v2) => match face_vertex(st, toks[3]) {
                        Err(k) => Err(k),
                        Ok(v3) => Ok(
                            ObjState {
                                v: st.v,
                                vt: st.vt,
                                vn: st.vn,
                                out: st.out + seq![v1, v2, v3],
                            },
                        ),
                    },
                },
            }
        }
    } else {
        Ok(st)
    }
}

/// Run the parser over the lines from index `i` on. An error carries the
/// 0-based index of the line it arose on.
pub open spec fn run_from(st: ObjState, ls: Seq<Seq<u8>>, i: int) -> Result<
    ObjState,
    (int, ParseErrorKind),
>
    decreases ls.len() - i,
{
    if i < 0 || i >= ls.len() {
        Ok(st)
    } else {
        match step_line(st, ls[i]) {
            Ok(st2) => run_from(st2, ls, i + 1),
            Err(k) => Err((i, k)),
        }
    }
}

/// The meaning of a whole mesh text: the expanded vertex list, or the
/// first error and the 0-based index of its line.
pub open spec fn parse_obj(s: Seq<u8>) -> Result<Seq<VertexTokens>, (int, ParseErrorKind)> {
    match run_from(init_state(), line_split(s), 0) {
        Ok(st) => Ok(st.out),
        Err(e) => Err(e),
    }
}

fn ws(b: u8) -> (r: bool)
    ensures
        r == is_ws(b),
{
    b == 0x20 || b == 0x09 || b == 0x0d || b == 0x0b || b == 0x0c
}

/// Split one line into its whitespace-separated tokens.
fn tokenize_line(line: &[u8]) -> (r: Vec<Vec<u8>>)
    ensures
        r.deep_view() == tokenize(line@),
{
    let mut toks: Vec<Vec<u8>> = Vec::new();
    let mut p: usize = 0;
    proof {
        assert(line@.skip(0) =~= line@);
        assert(toks.deep_view() + tokenize(line@) =~= tokenize(line@));
    }
    while p < line.len()
        invariant
            p <= line.len(),
            tokenize(line@) == toks.deep_view() + tokenize(line@.skip(p as int)),
        decreases line.len() - p,
    {
        if ws(line[p]) {
            proof {
                assert(line@.skip(p as int).drop_first() =~= line@.skip(p as int + 1));
            }
            p = p + 1;
        } else {
            let start = p;
            p = p + 1;
            while p < line.len() && !ws(line[p])
                invariant
                    start < p <= line.len(),
                    forall|j: int| start <= j < p ==> !is_ws(line@[j]),
                decreases line.len() - p,
            {
                p = p + 1;
            }
            let tok = slice_to_vec(slice_subrange(line, start, p));
            proof {
                let rest = line@.skip(start as int);
                assert(forall|j: int|
                    0 <= j < p - start ==> rest[j] == line@[start + j] && !is_ws(rest[j]));
                if p < line.len() {
                    assert(rest[p - start] == line@[p as int]);
                }
                lemma_token_len_at(rest, p - start);
                assert(rest.take(p - start) =~= line@.subrange(start as int, p as int));
                assert(rest.skip(p - start) =~= line@.skip(p as int));
                assert(toks.deep_view().push(tok@) + tokenize(line@.skip(p as int)) =~= toks.deep_view()
                    + tokenize(rest));
            }
            let ghost old_toks = toks.deep_view();
            toks.push(tok);
            proof {
                assert(toks.deep_view() =~~= old_toks.push(tok@));
            }
        }
    }
    proof {
        assert(line@.skip(line@.len() as int) =~= Seq::<u8>::empty());
        assert(tokenize(Seq::<u8>::empty()) =~= Seq::<Seq<u8>>::empty());
        assert(toks.deep_view() + Seq::<Seq<u8>>::empty() =~= toks.deep_view());
    }
    toks
}

/// Are the bytes of `t` in `[from, to)` all decimal digits?
fn digits_range(t: &[u8], from: usize, to: usize) -> (r: bool)
    requires
        from <= to <= t@.len(),
    ensures
        r == all_digits(t@.subrange(from as int, to as int)),
{
    let ghost seg = t@.subrange(from as int, to as int);
    let mut i = from;
    while i < to
        invariant
            from <= i <= to <= t@.len(),
            seg == t@.subrange(from as int, to as int),
            forall|j: int| 0 <= j < i - from ==> is_digit(seg[j]),
        decreases to - i,
    {
        let b = t[i];
        proof {
            assert(seg[i - from] == t@[i as int]);
        }
        if !(0x30 <= b && b <= 0x39) {
            return false;
        }
        i = i + 1;
    }
    true
}

/// Does `t` in `[from, to)` hold a mantissa: digits with at most one
/// decimal point and at least one digit?
fn check_mantissa(t: &[u8], from: usize, to: usize) -> (r: bool)
    requires
        from <= to <= t@.len(),
    ensures
        r == is_mantissa(t@.subrange(from as int, to as int)),
{
    let ghost seg = t@.subrange(from as int, to as int);
    let mut d = from;
    while d < to && t[d] != DOT
        invariant
            from <= d <= to <= t@.len(),
            forall|j: int| from <= j < d ==> t@[j] != DOT,
        decreases to - d,
    {
        d = d + 1;
    }
    proof {
        assert(forall|j: int| 0 <= j < d - from ==> seg[j] == t@[from + j] && seg[j] != DOT);
        if d < to {
            assert(seg[d - from] == t@[d as int]);
        }
        lemma_find_byte_at(seg, DOT, d - from);
    }
    if d == to {
        let r = to > from && digits_range(t, from, to);
        proof {
            assert(seg =~= t@.subrange(from as int, to as int));
        }
        r
    } else {
        let r = to - from >= 2 && digits_range(t, from, d) && digits_range(t, d + 1, to);
        proof {
            assert(seg.take(d - from) =~= t@.subrange(from as int, d as int));
            assert(seg.skip(d - from + 1) =~= t@.subrange(d as int + 1, to as int));
        }
        r
    }
}

fn sign(b: u8) -> (r: bool)
    ensures
        r == is_sign(b),
{
    b == 0x2b || b == 0x2d
}

/// Does the whole of `t` fit the coordinate number grammar?
fn check_number(t: &[u8]) -> (r: bool)
    ensures
        r == is_number_token(t@),
{
    let n = t.len();
    let s0: usize = if n > 0 && sign(t[0]) {
        1
    } else {
        0
    };
    let ghost u = strip_sign(t@);
    proof {
        assert(u =~= t@.subrange(s0 as int, n as int));
    }
    // find the exponent mark, if any
    let mut e = s0;
    while e < n && !(t[e] == 0x65 || t[e] == 0x45)
        invariant
            s0 <= e <= n == t@.len(),
            forall|j: int| s0 <= j < e ==> !is_exp_mark(t@[j]),
        decreases n - e,
    {
        e = e + 1;
    }
    proof {
        assert(forall|j: int| 0 <= j < e - s0 ==> u[j] == t@[s0 + j] && !is_exp_mark(u[j]));
        if e < n {
            assert(u[e - s0] == t@[e as int]);
        }
        lemma_find_exp_at(u, e - s0);
    }
    if e == n {
        let r = check_mantissa(t, s0, n);
        proof {
            assert(u =~= t@.subrange(s0 as int, n as int));
        }
        r
    } else {
        // exponent part: optional sign, then at least one digit
        let es: usize = if e + 1 < n && sign(t[e + 1]) {
            e + 2
        } else {
            e + 1
        };
        let ghost ex = strip_sign(u.skip(e - s0 + 1));
        proof {
            assert(u.skip(e - s0 + 1) =~= t@.subrange(e as int + 1, n as int));
            assert(ex =~= t@.subrange(es as int, n as int));
            assert(u.take(e - s0) =~= t@.subrange(s0 as int, e as int));
        }
        let m_ok = check_mantissa(t, s0, e);
        let r = m_ok && es < n && digits_range(t, es, n);
        r
    }
}

/// Parse a 1-based face index. `Some` exactly when the token is a digit
/// run whose value fits the machine word; the value is then exact.
fn parse_index(t: &[u8]) -> (r: Option<usize>)
    ensures
        match r {
            Some(v) => index_ok(t@) && v == uint_val(t@),
            None => !index_ok(t@),
        },
{
    let n = t.len();
    if n == 0 {
        return None;
    }
    let mut acc: usize = 0;
    let mut i: usize = 0;
    while i < n
        invariant
            0 <= i <= n == t@.len(),
            forall|j: int| 0 <= j < i ==> is_digit(t@[j]),
            acc == uint_val(t@.take(i as int)),
        decreases n - i,
    {
        let b = t[i];
        if !(0x30 <= b && b <= 0x39) {
            return None;
        }
        let d = (b - 0x30) as usize;
        proof {
            assert(t@.take(i as int + 1).drop_last() =~= t@.take(i as int));
            assert(t@.take(i as int + 1).last() == t@[i as int]);
        }
        let step = match acc.checked_mul(10) {
            Some(m) => m.checked_add(d),
            None => None,
        };
        match step {
            Some(v) => {
                acc = v;
            },
            None => {
                // the prefix through this digit is already past the word
                proof {
                    if all_digits(t@) {
                        lemma_uint_val_prefix(t@, i as int + 1);
                    }
                }
                return None;
            },
        }
        i = i + 1;
    }
    proof {
        assert(t@.take(n as int) =~= t@);
    }
    Some(acc)
}

/// One coordinate, kept as its source token. The parser validates the
/// token against the number grammar but never interprets its value: the
/// host converts it to the driver's floating-point width at upload time.
#[derive(Debug)]
pub struct Scalar {
    pub text: Vec<u8>,
}

impl View for Scalar {
    type V = Seq<u8>;

    open spec fn view(&self) -> Seq<u8> {
        self.text@
    }
}

impl Scalar {
    pub open spec fn wf(&self) -> bool {
        is_number_token(self@)
    }

    pub fn as_bytes(&self) -> (r: &Vec<u8>)
        ensures
            r@ == self@,
    {
        &self.text
    }
}

/// One expanded vertex: position, texture coordinate and normal, in
/// upload order. Immutable once parsed.
#[derive(Debug)]
pub struct Vertex {
    pub px: Scalar,
    pub py: Scalar,
    pub pz: Scalar,
    pub tu: Scalar,
    pub tv: Scalar,
    pub nx: Scalar,
    pub ny: Scalar,
    pub nz: Scalar,
}

impl View for Vertex {
    type V = VertexTokens;

    open spec fn view(&self) -> VertexTokens {
        seq![self.px@, self.py@, self.pz@, self.tu@, self.tv@, self.nx@, self.ny@, self.nz@]
    }
}

impl Vertex {
    pub open spec fn wf(&self) -> bool {
        self.px.wf() && self.py.wf() && self.pz.wf() && self.tu.wf() && self.tv.wf()
            && self.nx.wf() && self.ny.wf() && self.nz.wf()
    }
}

/// A parsed mesh: a flat triangle list, three consecutive vertices to a
/// triangle, in face declaration order.
#[derive(Debug)]
pub struct Mesh {
    pub buf: Vec<Vertex>,
}

impl View for Mesh {
    type V = Seq<VertexTokens>;

    open spec fn view(&self) -> Seq<VertexTokens> {
        Seq::new(self.buf@.len(), |i: int| self.buf@[i]@)
    }
}

impl Mesh {
    /// Every coordinate token fits the number grammar, and the vertices
    /// form whole triangles.
    pub open spec fn wf(&self) -> bool {
        self@.len() % 3 == 0 && forall|i: int| 0 <= i < self.buf@.len() ==> (
        #[trigger] self.buf@[i]).wf()
    }

    pub fn vertex_count(&self) -> (r: usize)
        ensures
            r == self@.len(),
    {
        self.buf.len()
    }

    /// The coordinate tokens in upload order: vertex after vertex, each
    /// contributing its eight tokens in interleaved order. The host
    /// converts each token to the driver's float width and uploads the
    /// result as one flat buffer.
    pub fn flat_tokens(&self) -> (r: Vec<Vec<u8>>)
        ensures
            r.deep_view() == flat_tokens_of(self@),
    {
        let mut out: Vec<Vec<u8>> = Vec::new();
        let mut i: usize = 0;
        proof {
            assert(self@.take(0) =~= Seq::<VertexTokens>::empty());
            assert(out.deep_view() =~= flat_tokens_of(self@.take(0)));
        }
        while i < self.buf.len()
            invariant
                i <= self.buf@.len(),
                self@.len() == self.buf@.len(),
                out.deep_view() == flat_tokens_of(self@.take(i as int)),
            decreases self.buf@.len() - i,
        {
            let ghost pre = out.deep_view();
            let vx = &self.buf[i];
            out.push(copy_bytes(&vx.px.text));
            out.push(copy_bytes(&vx.py.text));
            out.push(copy_bytes(&vx.pz.text));
            out.push(copy_bytes(&vx.tu.text));
            out.push(copy_bytes(&vx.tv.text));
            out.push(copy_bytes(&vx.nx.text));
            out.push(copy_bytes(&vx.ny.text));
            out.push(copy_bytes(&vx.nz.text));
            proof {
                assert(out.deep_view() =~~= pre + self.buf@[i as int]@);
                assert(self@.take(i as int + 1).drop_last() =~= self@.take(i as int));
                assert(self@.take(i as int + 1).last() == self@[i as int]);
            }
            i = i + 1;
        }
        proof {
            assert(self@.take(self.buf@.len() as int) =~= self@);
        }
        out
    }
}

/// All the coordinate tokens of a vertex list, vertex after vertex, each
/// vertex contributing its eight tokens in order.
pub open spec fn flat_tokens_of(vs: Seq<VertexTokens>) -> Seq<Seq<u8>>
    decreases vs.len(),
{
    if vs.len() == 0 {
        seq![]
    } else {
        flat_tokens_of(vs.drop_last()) + vs.last()
    }
}

/// The parser's working state; the view ties it to the `ObjState` the
/// specification runs on.
struct Lists {
    v: Vec<Vec<u8>>,
    vt: Vec<Vec<u8>>,
    vn: Vec<Vec<u8>>,
    out: Vec<Vertex>,
}

impl Lists {
    spec fn model(&self) -> ObjState {
        ObjState {
            v: self.v.deep_view(),
            vt: self.vt.deep_view(),
            vn: self.vn.deep_view(),
            out: Seq::new(self.out@.len(), |i: int| self.out@[i]@),
        }
    }

    spec fn wf(&self) -> bool {
        &&& forall|i: int|
            0 <= i < self.model().v.len() ==> is_number_token(#[trigger] self.model().v[i])
        &&& forall|i: int|
            0 <= i < self.model().vt.len() ==> is_number_token(#[trigger] self.model().vt[i])
        &&& forall|i: int|
            0 <= i < self.model().vn.len() ==> is_number_token(#[trigger] self.model().vn[i])
        &&& forall|i: int| 0 <= i < self.out@.len() ==> (#[trigger] self.out@[i]).wf()
    }
}

fn copy_bytes(v: &Vec<u8>) -> (r: Vec<u8>)
    ensures
        r@ == v@,
{
    slice_to_vec(v.as_slice())
}

proof fn lemma_deep_view_index(v: &Vec<Vec<u8>>, k: int)
    requires
        0 <= k < v@.len(),
    ensures
        v.deep_view().len() == v@.len(),
        v.deep_view()[k] == v@[k]@,
{
    assert(v.deep_view()[k] =~= v@[k]@);
}

proof fn lemma_deep_view_push(pre: Seq<Seq<u8>>, v: &Vec<Vec<u8>>, x: Seq<u8>)
    requires
        v@.len() >= 1,
        pre.len() == v@.len() - 1,
        forall|k: int| 0 <= k < pre.len() ==> pre[k] == v.deep_view()[k],
        v@[v@.len() - 1]@ == x,
    ensures
        v.deep_view() == pre.push(x),
{
    assert(v.deep_view()[v@.len() - 1] =~= v@[v@.len() - 1]@);
    assert(v.deep_view() =~= pre.push(x));
}

/// Resolve one `a/b/c` face-vertex token against the current lists.
fn resolve_face_vertex(ls: &Lists, t: &[u8]) -> (r: Result<Vertex, ParseErrorKind>)
    requires
        ls.wf(),
    ensures
        match r {
            Ok(vx) => face_vertex(ls.model(), t@) == Ok::<VertexTokens, ParseErrorKind>(vx@)
                && vx.wf(),
            Err(k) => face_vertex(ls.model(), t@) == Err::<VertexTokens, ParseErrorKind>(k),
        },
{
    let n = t.len();
    let mut i: usize = 0;
    while i < n && t[i] != SLASH
        invariant
            0 <= i <= n == t@.len(),
            forall|j: int| 0 <= j < i ==> t@[j] != SLASH,
        decreases n - i,
    {
        i = i + 1;
    }
    proof {
        lemma_find_byte_at(t@, SLASH, i as int);
    }
    if i == n {
        return Err(ParseErrorKind::BadFace);
    }
    let ghost rest = t@.skip(i as int + 1);
    let mut j: usize = i + 1;
    while j < n && t[j] != SLASH
        invariant
            i < j <= n == t@.len(),
            forall|k: int| i < k < j ==> t@[k] != SLASH,
        decreases n - j,
    {
        j = j + 1;
    }
    proof {
        assert(forall|k: int| 0 <= k < j - i - 1 ==> rest[k] == t@[i + 1 + k] && rest[k] != SLASH);
        if j < n {
            assert(rest[j - i - 1] == t@[j as int]);
        }
        lemma_find_byte_at(rest, SLASH, j - i - 1);
    }
    if j == n {
        return Err(ParseErrorKind::BadFace);
    }
    let ghost pa = t@.take(i as int);
    let ghost pb = rest.take(j - i - 1);
    let ghost pc = rest.skip(j - i);
    proof {
        assert(face_parts(t@) == Some((pa, pb, pc)));
        assert(pa =~= t@.subrange(0, i as int));
        assert(pb =~= t@.subrange(i as int + 1, j as int));
        assert(pc =~= t@.subrange(j as int + 1, n as int));
    }
    let a = parse_index(slice_subrange(t, 0, i));
    let b = parse_index(slice_subrange(t, i + 1, j));
    let c = parse_index(slice_subrange(t, j + 1, n));
    let (ai, bi, ci) = match (a, b, c) {
        (Some(x), Some(y), Some(z)) => (x, y, z),
        _ => {
            return Err(ParseErrorKind::BadNumber);
        },
    };
    // position triple, stride 3
    let v_len = ls.v.len();
    if ai == 0 {
        return Err(ParseErrorKind::OutOfRange);
    }
    let p3 = match ai.checked_mul(3) {
        Some(m) => m,
        None => {
            proof {
                assert(3 * (ai as int) > v_len as int);
            }
            return Err(ParseErrorKind::OutOfRange);
        },
    };
    if p3 > v_len {
        return Err(ParseErrorKind::OutOfRange);
    }
    // texture pair, stride 2
    let vt_len = ls.vt.len();
    if bi == 0 {
        return Err(ParseErrorKind::OutOfRange);
    }
    let t2 = match bi.checked_mul(2) {
        Some(m) => m,
        None => {
            proof {
                assert(2 * (bi as int) > vt_len as int);
            }
            return Err(ParseErrorKind::OutOfRange);
        },
    };
    if t2 > vt_len {
        return Err(ParseErrorKind::OutOfRange);
    }
    // normal triple, stride 3
    let vn_len = ls.vn.len();
    if ci == 0 {
        return Err(ParseErrorKind::OutOfRange);
    }
    let n3 = match ci.checked_mul(3) {
        Some(m) => m,
        None => {
            proof {
                assert(3 * (ci as int) > vn_len as int);
            }
            return Err(ParseErrorKind::OutOfRange);
        },
    };
    if n3 > vn_len {
        return Err(ParseErrorKind::OutOfRange);
    }
    let pbase = p3 - 3;
    let tbase = t2 - 2;
    let nbase = n3 - 3;
    let vx = Vertex {
        px: Scalar { text: copy_bytes(&ls.v[pbase]) },
        py: Scalar { text: copy_bytes(&ls.v[pbase + 1]) },
        pz: Scalar { text: copy_bytes(&ls.v[pbase + 2]) },
        tu: Scalar { text: copy_bytes(&ls.vt[tbase]) },
        tv: Scalar { text: copy_bytes(&ls.vt[tbase + 1]) },
        nx: Scalar { text: copy_bytes(&ls.vn[nbase]) },
        ny: Scalar { text: copy_bytes(&ls.vn[nbase + 1]) },
        nz: Scalar { text: copy_bytes(&ls.vn[nbase + 2]) },
    };
    proof {
        lemma_deep_view_index(&ls.v, pbase as int);
        lemma_deep_view_index(&ls.v, pbase as int + 1);
        lemma_deep_view_index(&ls.v, pbase as int + 2);
        lemma_deep_view_index(&ls.vt, tbase as int);
        lemma_deep_view_index(&ls.vt, tbase as int + 1);
        lemma_deep_view_index(&ls.vn, nbase as int);
        lemma_deep_view_index(&ls.vn, nbase as int + 1);
        lemma_deep_view_index(&ls.vn, nbase as int + 2);
        assert(vx@ =~= face_vertex(ls.model(), t@)->Ok_0);
    }
    Ok(vx)
}

/// Apply one line to the working state.
#[verifier::rlimit(60)]
fn step(ls: &mut Lists, line: &[u8]) -> (r: Result<(), ParseErrorKind>)
    requires
        old(ls).wf(),
    ensures
        match r {
            Ok(_) => step_line(old(ls).model(), line@) == Ok::<ObjState, ParseErrorKind>(
                final(ls).model(),
            ) && final(ls).wf(),
            Err(k) => step_line(old(ls).model(), line@) == Err::<ObjState, ParseErrorKind>(k)
                && *final(ls) == *old(ls),
        },
{
    let toks = tokenize_line(line);
    let ghost tseq = tokenize(line@);
    if toks.len() == 0 {
        return Ok(());
    }
    let first_len = toks[0].len();
    let kw_v = first_len == 1 && toks[0][0] == KW_V;
    let kw_vt = first_len == 2 && toks[0][0] == KW_V && toks[0][1] == KW_T;
    let kw_vn = first_len == 2 && toks[0][0] == KW_V && toks[0][1] == KW_N;
    let kw_f = first_len == 1 && toks[0][0] == KW_F;
    proof {
        lemma_deep_view_index(&toks, 0);
        assert(kw_v == (tseq[0] == seq![KW_V])) by {
            if kw_v {
                assert(tseq[0] =~= seq![KW_V]);
            } else if tseq[0] == seq![KW_V] {
                assert(toks@[0]@.len() == 1 && toks@[0]@[0] == KW_V);
            }
        }
        assert(kw_vt == (tseq[0] == seq![KW_V, KW_T])) by {
            if kw_vt {
                assert(tseq[0] =~= seq![KW_V, KW_T]);
            } else if tseq[0] == seq![KW_V, KW_T] {
                assert(toks@[0]@.len() == 2 && toks@[0]@[0] == KW_V && toks@[0]@[1] == KW_T);
            }
        }
        assert(kw_vn == (tseq[0] == seq![KW_V, KW_N])) by {
            if kw_vn {
                assert(tseq[0] =~= seq![KW_V, KW_N]);
            } else if tseq[0] == seq![KW_V, KW_N] {
                assert(toks@[0]@.len() == 2 && toks@[0]@[0] == KW_V && toks@[0]@[1] == KW_N);
            }
        }
        assert(kw_f == (tseq[0] == seq![KW_F])) by {
            if kw_f {
                assert(tseq[0] =~= seq![KW_F]);
            } else if tseq[0] == seq![KW_F] {
                assert(toks@[0]@.len() == 1 && toks@[0]@[0] == KW_F);
            }
        }
    }
    if kw_v {
        if toks.len() < 4 {
            return Err(ParseErrorKind::MissingCoord);
        }
        proof {
            lemma_deep_view_index(&toks, 1);
            lemma_deep_view_index(&toks, 2);
            lemma_deep_view_index(&toks, 3);
        }
        if !check_number(toks[1].as_slice()) || !check_number(toks[2].as_slice()) || !check_number(
            toks[3].as_slice(),
        ) {
            return Err(ParseErrorKind::BadNumber);
        }
        let ghost pre = ls.v.deep_view();
        ls.v.push(copy_bytes(&toks[1]));
        proof {
            lemma_deep_view_push(pre, &ls.v, tseq[1]);
        }
        let ghost pre = ls.v.deep_view();
        ls.v.push(copy_bytes(&toks[2]));
        proof {
            lemma_deep_view_push(pre, &ls.v, tseq[2]);
        }
        let ghost pre = ls.v.deep_view();
        ls.v.push(copy_bytes(&toks[3]));
        proof {
            lemma_deep_view_push(pre, &ls.v, tseq[3]);
            assert(ls.model().v =~= old(ls).model().v + seq![tseq[1], tseq[2], tseq[3]]);
            assert(ls.model() =~~= step_line(old(ls).model(), line@)->Ok_0);
        }
        Ok(())
    } else if kw_vt {
        if toks.len() < 3 {
            return Err(ParseErrorKind::MissingCoord);
        }
        proof {
            lemma_deep_view_index(&toks, 1);
            lemma_deep_view_index(&toks, 2);
        }
        if !check_number(toks[1].as_slice()) || !check_number(toks[2].as_slice()) {
            return Err(ParseErrorKind::BadNumber);
        }
        let ghost pre = ls.vt.deep_view();
        ls.vt.push(copy_bytes(&toks[1]));
        proof {
            lemma_deep_view_push(pre, &ls.vt, tseq[1]);
        }
        let ghost pre = ls.vt.deep_view();
        ls.vt.push(copy_bytes(&toks[2]));
        proof {
            lemma_deep_view_push(pre, &ls.vt, tseq[2]);
            assert(ls.model().vt =~= old(ls).model().vt + seq![tseq[1], tseq[2]]);
            assert(ls.model() =~~= step_line(old(ls).model(), line@)->Ok_0);
        }
        Ok(())
    } else if kw_vn {
        if toks.len() < 4 {
            return Err(ParseErrorKind::MissingCoord);
        }
        proof {
            lemma_deep_view_index(&toks, 1);
            lemma_deep_view_index(&toks, 2);
            lemma_deep_view_index(&toks, 3);
        }
        if !check_number(toks[1].as_slice()) || !check_number(toks[2].as_slice()) || !check_number(
            toks[3].as_slice(),
        ) {
            return Err(ParseErrorKind::BadNumber);
        }
        let ghost pre = ls.vn.deep_view();
        ls.vn.push(copy_bytes(&toks[1]));
        proof {
            lemma_deep_view_push(pre, &ls.vn, tseq[1]);
        }
        let ghost pre = ls.vn.deep_view();
        ls.vn.push(copy_bytes(&toks[2]));
        proof {
            lemma_deep_view_push(pre, &ls.vn, tseq[2]);
        }
        let ghost pre = ls.vn.deep_view();
        ls.vn.push(copy_bytes(&toks[3]));
        proof {
            lemma_deep_view_push(pre, &ls.vn, tseq[3]);
            assert(ls.model().vn =~= old(ls).model().vn + seq![tseq[1], tseq[2], tseq[3]]);
            assert(ls.model() =~~= step_line(old(ls).model(), line@)->Ok_0);
        }
        Ok(())
    } else if kw_f {
        if toks.len() != 4 {
            return Err(ParseErrorKind::BadFace);
        }
        proof {
            lemma_deep_view_index(&toks, 1);
            lemma_deep_view_index(&toks, 2);
            lemma_deep_view_index(&toks, 3);
        }
        let v1 = match resolve_face_vertex(ls, toks[1].as_slice()) {
            Ok(v) => v,
            Err(k) => {
                return Err(k);
            },
        };
        let v2 = match resolve_face_vertex(ls, toks[2].as_slice()) {
            Ok(v) => v,
            Err(k) => {
                return Err(k);
            },
        };
        let v3 = match resolve_face_vertex(ls, toks[3].as_slice()) {
            Ok(v) => v,
            Err(k) => {
                return Err(k);
            },
        };
        let ghost g1 = v1@;
        let ghost g2 = v2@;
        let ghost g3 = v3@;
        ls.out.push(v1);
        ls.out.push(v2);
        ls.out.push(v3);
        proof {
            assert(ls.model().out =~= old(ls).model().out + seq![g1, g2, g3]);
            assert(ls.model() =~~= step_line(old(ls).model(), line@)->Ok_0);
        }
        Ok(())
    } else {
        Ok(())
    }
}

/// For every well-formed face-vertex token whose three indices are
/// numeric and in range, the resolved vertex is exactly the direct
/// concatenation of the referenced position, texture-coordinate and
/// normal tokens: no reordering, and each list read at its own stride.
pub proof fn lemma_face_resolution(st: ObjState, t: Seq<u8>, a: Seq<u8>, b: Seq<u8>, c: Seq<u8>)
    requires
        face_parts(t) == Some((a, b, c)),
        index_ok(a),
        index_ok(b),
        index_ok(c),
        uint_val(a) >= 1,
        3 * uint_val(a) <= st.v.len(),
        uint_val(b) >= 1,
        2 * uint_val(b) <= st.vt.len(),
        uint_val(c) >= 1,
        3 * uint_val(c) <= st.vn.len(),
    ensures
        face_vertex(st, t) == Ok::<VertexTokens, ParseErrorKind>(
            resolved_vertex(st, uint_val(a) as int, uint_val(b) as int, uint_val(c) as int),
        ),
{
}

/// A face-vertex token with a non-numeric index component (or one too
/// large for the machine word) never resolves: it is a hard parse error,
/// not a silent default to index zero.
pub proof fn lemma_bad_index_rejected(st: ObjState, t: Seq<u8>, a: Seq<u8>, b: Seq<u8>, c: Seq<u8>)
    requires
        face_parts(t) == Some((a, b, c)),
        !index_ok(a) || !index_ok(b) || !index_ok(c),
    ensures
        face_vertex(st, t) == Err::<VertexTokens, ParseErrorKind>(ParseErrorKind::BadNumber),
{
}

/// A face-vertex token whose indices are numeric but where one of them is
/// zero or refers past the end of the list it indexes never resolves:
/// there is no out-of-bounds read, only a hard parse error.
pub proof fn lemma_out_of_range_rejected(
    st: ObjState,
    t: Seq<u8>,
    a: Seq<u8>,
    b: Seq<u8>,
    c: Seq<u8>,
)
    requires
        face_parts(t) == Some((a, b, c)),
        index_ok(a),
        index_ok(b),
        index_ok(c),
        uint_val(a) == 0 || 3 * uint_val(a) > st.v.len() || uint_val(b) == 0 || 2 * uint_val(b)
            > st.vt.len() || uint_val(c) == 0 || 3 * uint_val(c) > st.vn.len(),
    ensures
        face_vertex(st, t) == Err::<VertexTokens, ParseErrorKind>(ParseErrorKind::OutOfRange),
{
}

/// A face line fails as soon as any of its three face-vertex tokens
/// fails to resolve; no vertex of a broken face is ever emitted.
pub proof fn lemma_face_line_fails(st: ObjState, line: Seq<u8>)
    requires
        tokenize(line).len() == 4,
        tokenize(line)[0] == seq![KW_F],
        exists|k: int|
            1 <= k <= 3 && face_vertex(st, #[trigger] tokenize(line)[k]) is Err,
    ensures
        step_line(st, line) is Err,
{
    let toks = tokenize(line);
    assert(toks[0] != seq![KW_V] && toks[0] != seq![KW_V, KW_T] && toks[0] != seq![KW_V, KW_N])
        by {
        assert(seq![KW_F][0] == KW_F && seq![KW_V][0] == KW_V);
        assert(seq![KW_F].len() == 1 && seq![KW_V, KW_T].len() == 2);
    }
}

/// The parser's state after the first `i` lines, provided they all
/// succeed; otherwise the first error among them.
pub open spec fn run_prefix(ls: Seq<Seq<u8>>, i: int) -> Result<ObjState, (int, ParseErrorKind)>
    decreases i,
{
    if i <= 0 {
        Ok(init_state())
    } else {
        match run_prefix(ls, i - 1) {
            Ok(st) => match step_line(st, ls[i - 1]) {
                Ok(st2) => Ok(st2),
                Err(k) => Err((i - 1, k)),
            },
            Err(e) => Err(e),
        }
    }
}

/// Running the whole text is running its first `i` lines and then the
/// rest from wherever they left off.
proof fn lemma_run_split(ls: Seq<Seq<u8>>, i: int)
    requires
        0 <= i <= ls.len(),
    ensures
        run_from(init_state(), ls, 0) == (match run_prefix(ls, i) {
            Ok(st) => run_from(st, ls, i),
            Err(e) => Err(e),
        }),
    decreases i,
{
    if i > 0 {
        lemma_run_split(ls, i - 1);
    }
}

/// A face line one of whose face-vertex tokens does not resolve against
/// the state the preceding lines built makes the whole text fail: no
/// vertex of a broken face is ever emitted, and no out-of-bounds list
/// read ever happens.
pub proof fn lemma_broken_face_rejects_text(s: Seq<u8>, i: int, st: ObjState)
    requires
        0 <= i < line_split(s).len(),
        run_prefix(line_split(s), i) == Ok::<ObjState, (int, ParseErrorKind)>(st),
        tokenize(line_split(s)[i]).len() == 4,
        tokenize(line_split(s)[i])[0] == seq![KW_F],
        exists|k: int|
            1 <= k <= 3 && face_vertex(st, #[trigger] tokenize(line_split(s)[i])[k]) is Err,
    ensures
        parse_obj(s) is Err,
{
    lemma_face_line_fails(st, line_split(s)[i]);
    lemma_run_split(line_split(s), i);
}

/// A text has no more lines than bytes.
pub proof fn lemma_line_split_count(s: Seq<u8>)
    ensures
        line_split(s).len() <= s.len(),
    decreases s.len(),
{
    if s.len() > 0 {
        lemma_find_byte(s, NL);
        let i = find_byte(s, NL);
        if i < s.len() {
            lemma_line_split_count(s.skip(i + 1));
        }
    }
}

/// One line appends zero whole faces or one: three vertices at a time.
proof fn lemma_step_line_out_len(st: ObjState, l: Seq<u8>)
    ensures
        step_line(st, l) matches Ok(st2) ==> st2.out.len() == st.out.len() || st2.out.len()
            == st.out.len() + 3,
{
}

#[verifier::rlimit(100)]
#[verifier::spinoff_prover]
proof fn lemma_run_from_out_len(st: ObjState, ls: Seq<Seq<u8>>, i: int)
    ensures
        run_from(st, ls, i) matches Ok(st2) ==> st2.out.len() % 3 == st.out.len() % 3,
    decreases ls.len() - i,
{
    if 0 <= i < ls.len() {
        match step_line(st, ls[i]) {
            Ok(st2) => {
                lemma_step_line_out_len(st, ls[i]);
                lemma_run_from_out_len(st2, ls, i + 1);
            },
            Err(_) => {},
        }
    }
}

/// Every successfully parsed mesh is a whole triangle list: faces only
/// ever contribute three vertices at once, so the vertex count of any
/// parse is a multiple of three.
pub proof fn lemma_whole_triangles(s: Seq<u8>)
    ensures
        parse_obj(s) matches Ok(out) ==> out.len() % 3 == 0,
{
    lemma_run_from_out_len(init_state(), line_split(s), 0);
}

impl Mesh {
    /// Parse a mesh text. Returns the expanded triangle list exactly as
    /// `parse_obj` gives it, or the first offending line (1-based) and
    /// the reason.
    #[verifier::rlimit(60)]
    pub fn from_str(source: &str) -> (r: Result<Mesh, ParseError>)
        ensures
            match r {
                Ok(m) => parse_obj(source.spec_bytes()) == Ok::<
                    Seq<VertexTokens>,
                    (int, ParseErrorKind),
                >(m@) && m.wf(),
                Err(e) => parse_obj(source.spec_bytes()) == Err::<
                    Seq<VertexTokens>,
                    (int, ParseErrorKind),
                >((e.line - 1, e.kind)) && e.line >= 1,
            },
    {
        let bytes: &[u8] = source.as_bytes();
        let n = bytes.len();
        let ghost all = line_split(bytes@);
        let mut st = Lists { v: Vec::new(), vt: Vec::new(), vn: Vec::new(), out: Vec::new() };
        let mut pos: usize = 0;
        let mut li: usize = 0;
        proof {
            lemma_line_split_count(bytes@);
            assert(st.model() =~~= init_state());
            assert(bytes@.skip(0) =~= bytes@);
        }
        while pos < n
            invariant
                n == bytes@.len(),
                bytes@ == source.spec_bytes(),
                pos <= n,
                li <= all.len(),
                all == line_split(bytes@),
                all.len() <= n,
                line_split(bytes@.skip(pos as int)) == all.skip(li as int),
                st.wf(),
                run_from(init_state(), all, 0) == run_from(st.model(), all, li as int),
            decreases n - pos,
        {
            let mut e = pos;
            while e < n && bytes[e] != NL
                invariant
                    pos <= e <= n == bytes@.len(),
                    forall|j: int| pos <= j < e ==> bytes@[j] != NL,
                decreases n - e,
            {
                e = e + 1;
            }
            let ghost rest = bytes@.skip(pos as int);
            proof {
                assert(forall|j: int|
                    0 <= j < e - pos ==> rest[j] == bytes@[pos + j] && rest[j] != NL);
                if e < n {
                    assert(rest[e - pos] == bytes@[e as int]);
                }
                lemma_find_byte_at(rest, NL, e - pos);
                if e < n {
                    assert(rest.skip(e - pos + 1) =~= bytes@.skip(e as int + 1));
                }
                assert(rest.take(e - pos) =~= bytes@.subrange(pos as int, e as int));
                assert(all.skip(li as int).len() >= 1);
                assert(all[li as int] == all.skip(li as int)[0]);
            }
            let line = slice_subrange(bytes, pos, e);
            proof {
                assert(line@ == all[li as int]);
            }
            let ghost pre_model = st.model();
            let res = step(&mut st, line);
            match res {
                Ok(_) => {},
                Err(k) => {
                    proof {
                        assert(run_from(pre_model, all, li as int) == Err::<
                            ObjState,
                            (int, ParseErrorKind),
                        >((li as int, k)));
                    }
                    return Err(ParseError { line: li + 1, kind: k });
                },
            }
            proof {
                assert(run_from(pre_model, all, li as int) == run_from(
                    st.model(),
                    all,
                    li as int + 1,
                ));
                if e == n {
                    assert(bytes@.skip(n as int) =~= Seq::<u8>::empty());
                    assert(all.skip(li as int).len() == 1);
                    assert(all.skip(li as int + 1) =~= Seq::<Seq<u8>>::empty());
                } else {
                    assert(all.skip(li as int).drop_first() =~= all.skip(li as int + 1));
                    assert((seq![rest.take(e - pos)] + line_split(rest.skip(e - pos + 1)))
                        .drop_first() =~= line_split(rest.skip(e - pos + 1)));
                }
            }
            li = li + 1;
            pos = if e == n {
                n
            } else {
                e + 1
            };
        }
        proof {
            assert(bytes@.skip(pos as int) =~= Seq::<u8>::empty());
            assert(all.skip(li as int).len() == all.len() - li);
            lemma_whole_triangles(bytes@);
        }
        let m = Mesh { buf: st.out };
        proof {
            assert(m@ =~~= parse_obj(source.spec_bytes())->Ok_0);
        }
        Ok(m)
    }
}

} // verus!
