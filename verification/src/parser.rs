//! The entity parser: record tokenizer, numeric-field reader, and the
//! per-entity state machines that build vertex paths.
//!
//! The input text carries one logical record per two physical lines
//! (group code, then value), both trimmed.  Entities are dispatched on
//! the entity-kind marker record; unknown records inside an entity are
//! skipped, an entity that never completes is dropped silently, and a
//! malformed numeric literal in a recognized field is fatal for the
//! whole conversion.
use vstd::prelude::*;
use vstd::string::StrSliceExecFns;
use crate::num::PICO;
use crate::vertex::{Vertex, PartialVertex, V_MAX};
use crate::polyline::{PolyLine, PathView};
use crate::arc::Arc;
use crate::circle::Circle;
use crate::spline::Spline;
use crate::bulge::VertexWithBulge;

verus! {

/// The group codes the entity parsers react to; every other code is
/// carried as `Other` and skipped.
#[derive(Clone, Copy, PartialEq, Eq, Structural, Debug)]
pub enum Tag {
    /// Group code 0: entity terminator / next-entity marker.
    Start,
    /// Group code 100: entity-kind marker.
    Kind,
    /// Group codes 10 / 20: primary x / y coordinate.
    X,
    Y,
    /// Group codes 11 / 21: secondary x / y coordinate.
    X2,
    Y2,
    /// Group code 40: radius.
    Radius,
    /// Group code 42: vertex bulge.
    Bulge,
    /// Group codes 50 / 51: start / end angle in degrees.
    AngStart,
    AngEnd,
    /// Group code 70: polyline flags.
    Flags,
    /// Group code 73: spline control-point count.
    CtrlCount,
    Other,
}

/// One tokenized record: its classified group code and its raw
/// (trimmed) value text.
pub struct Pair {
    pub tag: Tag,
    pub value: String,
}

/// Whitespace trimmed from both ends of each physical line: the
/// Unicode White_Space set.
pub open spec fn is_space(c: char) -> bool {
    ||| 9 <= c as u32 <= 13
    ||| c as u32 == 32
    ||| c as u32 == 0x85
    ||| c as u32 == 0xA0
    ||| c as u32 == 0x1680
    ||| 0x2000 <= c as u32 <= 0x200A
    ||| c as u32 == 0x2028
    ||| c as u32 == 0x2029
    ||| c as u32 == 0x202F
    ||| c as u32 == 0x205F
    ||| c as u32 == 0x3000
}

/// Executable test for the Unicode White_Space set.
fn is_space_char(c: char) -> (r: bool)
    ensures
        r == is_space(c),
{
    let u: u32 = c as u32;
    (9 <= u && u <= 13) || u == 32 || u == 0x85 || u == 0xA0 || u == 0x1680
        || (0x2000 <= u && u <= 0x200A) || u == 0x2028 || u == 0x2029 || u == 0x202F
        || u == 0x205F || u == 0x3000
}

/// Index of the first non-space character at or after `i`.
pub open spec fn trim_start_idx(s: Seq<char>, i: int) -> int
    decreases s.len() - i,
{
    if 0 <= i < s.len() && is_space(s[i]) {
        trim_start_idx(s, i + 1)
    } else {
        i
    }
}

/// Index just after the last non-space character at or before `j - 1`.
pub open spec fn trim_end_idx(s: Seq<char>, j: int) -> int
    decreases j,
{
    if 0 < j <= s.len() && is_space(s[j - 1]) {
        trim_end_idx(s, j - 1)
    } else {
        j
    }
}

/// The line with surrounding whitespace removed.
pub open spec fn spec_trim(s: Seq<char>) -> Seq<char> {
    let a = trim_start_idx(s, 0);
    let b = trim_end_idx(s, s.len() as int);
    if a <= b {
        s.subrange(a, b)
    } else {
        Seq::empty()
    }
}

/// The physical lines of the text: split at newlines, one carriage
/// return stripped before each newline, no trailing empty line.
pub open spec fn spec_lines(s: Seq<char>, i: int, cur: Seq<char>) -> Seq<Seq<char>>
    decreases s.len() - i,
{
    if i < 0 || i >= s.len() {
        if cur.len() == 0 {
            Seq::empty()
        } else {
            seq![cur]
        }
    } else if s[i] == '\n' {
        let line = if cur.len() > 0 && cur.last() == '\r' {
            cur.drop_last()
        } else {
            cur
        };
        seq![line] + spec_lines(s, i + 1, Seq::empty())
    } else {
        spec_lines(s, i + 1, cur.push(s[i]))
    }
}

/// The classified group code of a trimmed code line.
pub open spec fn spec_classify(code: Seq<char>) -> Tag {
    if code == "0"@ {
        Tag::Start
    } else if code == "100"@ {
        Tag::Kind
    } else if code == "10"@ {
        Tag::X
    } else if code == "20"@ {
        Tag::Y
    } else if code == "11"@ {
        Tag::X2
    } else if code == "21"@ {
        Tag::Y2
    } else if code == "40"@ {
        Tag::Radius
    } else if code == "42"@ {
        Tag::Bulge
    } else if code == "50"@ {
        Tag::AngStart
    } else if code == "51"@ {
        Tag::AngEnd
    } else if code == "70"@ {
        Tag::Flags
    } else if code == "73"@ {
        Tag::CtrlCount
    } else {
        Tag::Other
    }
}

/// The record stream: consecutive trimmed lines paired up (code then
/// value); a trailing unpaired line is dropped.
pub open spec fn spec_pair_up(lines: Seq<Seq<char>>, i: int) -> Seq<(Tag, Seq<char>)>
    decreases lines.len() - i,
{
    if i < 0 || i + 1 >= lines.len() {
        Seq::empty()
    } else {
        seq![(spec_classify(spec_trim(lines[i])), spec_trim(lines[i + 1]))]
            + spec_pair_up(lines, i + 2)
    }
}

/// The whole tokenization of the input text.
pub open spec fn spec_pairs(s: Seq<char>) -> Seq<(Tag, Seq<char>)> {
    spec_pair_up(spec_lines(s, 0, Seq::empty()), 0)
}

/// The views of a tokenized record vector.
pub open spec fn pair_views(ps: Seq<Pair>) -> Seq<(Tag, Seq<char>)> {
    ps.map_values(|p: Pair| (p.tag, p.value@))
}

/// The characters of a string slice, as a vector.
fn str_chars(s: &str) -> (r: Vec<char>)
    ensures
        r@ == s@,
{
    let n: usize = s.unicode_len();
    let mut r: Vec<char> = Vec::new();
    let mut i: usize = 0;
    while i < n
        invariant
            i <= n,
            n == s@.len(),
            r@ == s@.subrange(0, i as int),
        decreases n - i,
    {
        r.push(s.get_char(i));
        proof {
            assert(r@ =~= s@.subrange(0, i as int + 1));
        }
        i = i + 1;
    }
    proof {
        assert(r@ =~= s@);
    }
    r
}

/// Whether a character vector equals a string literal's text.
fn chars_eq_lit(v: &Vec<char>, lit: &str) -> (r: bool)
    ensures
        r == (v@ == lit@),
{
    let n: usize = lit.unicode_len();
    if v.len() != n {
        proof {
            assert(v@ != lit@);
        }
        return false;
    }
    let mut i: usize = 0;
    while i < n
        invariant
            i <= n,
            n == lit@.len(),
            v@.len() == n,
            forall|j: int| 0 <= j < i ==> v@[j] == lit@[j],
        decreases n - i,
    {
        if v[i] != lit.get_char(i) {
            return false;
        }
        i = i + 1;
    }
    proof {
        assert(v@ =~= lit@);
    }
    true
}

/// Whether a string equals a string literal's text.
fn str_eq_lit(s: &String, lit: &str) -> (r: bool)
    ensures
        r == (s@ == lit@),
{
    let v: Vec<char> = str_chars(s.as_str());
    chars_eq_lit(&v, lit)
}

/// Trim whitespace from both ends of a line.
fn trim_chars(v: &Vec<char>) -> (r: Vec<char>)
    ensures
        r@ == spec_trim(v@),
{
    let n: usize = v.len();
    let mut a: usize = 0;
    while a < n && is_space_char(v[a])
        invariant
            a <= n,
            n == v@.len(),
            trim_start_idx(v@, 0) == trim_start_idx(v@, a as int),
        decreases n - a,
    {
        a = a + 1;
    }
    let mut b: usize = n;
    while b > 0 && is_space_char(v[b - 1])
        invariant
            b <= n,
            n == v@.len(),
            trim_end_idx(v@, n as int) == trim_end_idx(v@, b as int),
        decreases b,
    {
        b = b - 1;
    }
    assert(a == trim_start_idx(v@, 0));
    assert(b == trim_end_idx(v@, n as int));
    let mut r: Vec<char> = Vec::new();
    if a >= b {
        proof {
            assert(r@ =~= spec_trim(v@));
        }
        return r;
    }
    let mut i: usize = a;
    while i < b
        invariant
            a <= i <= b <= n,
            n == v@.len(),
            r@ == v@.subrange(a as int, i as int),
        decreases b - i,
    {
        r.push(v[i]);
        proof {
            assert(r@ =~= v@.subrange(a as int, i as int + 1));
        }
        i = i + 1;
    }
    proof {
        assert(r@ =~= spec_trim(v@));
    }
    r
}

/// Relies on `String::push`: appends exactly the given character to
/// the string, one per element of the vector.
#[verifier::external_body]
fn chars_to_string(v: &Vec<char>) -> (r: String)
    ensures
        r@ == v@,
{
    let mut s = String::new();
    for c in v.iter() {
        s.push(*c);
    }
    s
}

/// Classify a trimmed code line.
fn classify(code: &Vec<char>) -> (t: Tag)
    ensures
        t == spec_classify(code@),
{
    if chars_eq_lit(code, "0") {
        Tag::Start
    } else if chars_eq_lit(code, "100") {
        Tag::Kind
    } else if chars_eq_lit(code, "10") {
        Tag::X
    } else if chars_eq_lit(code, "20") {
        Tag::Y
    } else if chars_eq_lit(code, "11") {
        Tag::X2
    } else if chars_eq_lit(code, "21") {
        Tag::Y2
    } else if chars_eq_lit(code, "40") {
        Tag::Radius
    } else if chars_eq_lit(code, "42") {
        Tag::Bulge
    } else if chars_eq_lit(code, "50") {
        Tag::AngStart
    } else if chars_eq_lit(code, "51") {
        Tag::AngEnd
    } else if chars_eq_lit(code, "70") {
        Tag::Flags
    } else if chars_eq_lit(code, "73") {
        Tag::CtrlCount
    } else {
        Tag::Other
    }
}

/// A decimal digit.
pub open spec fn is_digit(c: char) -> bool {
    48 <= c as u32 <= 57
}

/// The numeric value of one digit.
pub open spec fn digit_val(c: char) -> int {
    (c as u32) - 48
}

/// Every character of the sequence is a digit.
pub open spec fn all_digits(s: Seq<char>) -> bool {
    forall|i: int| 0 <= i < s.len() ==> is_digit(#[trigger] s[i])
}

/// The value of a digit string, most significant first.
pub open spec fn digits_val(s: Seq<char>) -> int
    decreases s.len(),
{
    if s.len() == 0 {
        0
    } else {
        digits_val(s.drop_last()) * 10 + digit_val(s.last())
    }
}

/// Powers of ten.
pub open spec fn pow10(k: nat) -> int
    decreases k,
{
    if k == 0 {
        1
    } else {
        10 * pow10((k - 1) as nat)
    }
}

/// Index of the first decimal point at or after `i`.
pub open spec fn find_dot(s: Seq<char>, i: int) -> int
    decreases s.len() - i,
{
    if i < 0 || i >= s.len() {
        s.len() as int
    } else if s[i] == '.' {
        i
    } else {
        find_dot(s, i + 1)
    }
}

proof fn lemma_digits_step(s: Seq<char>, k: int)
    requires
        0 <= k < s.len(),
    ensures
        digits_val(s.take(k + 1)) == digits_val(s.take(k)) * 10 + digit_val(s[k]),
{
    assert(s.take(k + 1).drop_last() =~= s.take(k));
    assert(s.take(k + 1).last() == s[k]);
}

proof fn lemma_digits_bound(s: Seq<char>)
    requires
        all_digits(s),
    ensures
        0 <= digits_val(s) < pow10(s.len()),
    decreases s.len(),
{
    if s.len() > 0 {
        assert(all_digits(s.drop_last()));
        lemma_digits_bound(s.drop_last());
        assert(is_digit(s.last()));
    }
}

proof fn lemma_digits_prefix_gt(s: Seq<char>, k: int, bound: int)
    requires
        all_digits(s),
        0 <= k <= s.len(),
        0 < bound,
        digits_val(s.take(k)) > bound,
    ensures
        digits_val(s) > bound,
    decreases s.len() - k,
{
    if k == s.len() {
        assert(s.take(k) =~= s);
    } else {
        assert(all_digits(s.take(k)));
        lemma_digits_bound(s.take(k));
        lemma_digits_step(s, k);
        lemma_digits_prefix_gt(s, k + 1, bound);
    }
}

proof fn lemma_find_dot_skip(s: Seq<char>, k: int)
    requires
        0 <= k <= s.len(),
        forall|j: int| 0 <= j < k ==> s[j] != '.',
    ensures
        find_dot(s, 0) == find_dot(s, k),
    decreases k,
{
    if k > 0 {
        lemma_find_dot_skip(s, k - 1);
    }
}

proof fn lemma_pow10_add(a: nat, b: nat)
    ensures
        pow10(a + b) == pow10(a) * pow10(b),
    decreases a,
{
    if a == 0 {
        assert(pow10(0 + b) == 1 * pow10(b)) by (nonlinear_arith)
            requires pow10(0 + b) == pow10(b);
    } else {
        lemma_pow10_add((a - 1) as nat, b);
        assert((a - 1) + b == (a + b) - 1);
        assert(pow10(a + b) == 10 * pow10(((a + b) - 1) as nat));
        assert(10 * (pow10((a - 1) as nat) * pow10(b))
            == (10 * pow10((a - 1) as nat)) * pow10(b)) by (nonlinear_arith);
    }
}

proof fn lemma_pow10_vals()
    ensures
        pow10(12) == 1_000_000_000_000,
        pow10(19) == 10_000_000_000_000_000_000,
{
    reveal_with_fuel(pow10, 21);
}

/// The numeric value of a trimmed coordinate field, in pico-units:
/// an optional sign, then decimal digits with one optional decimal
/// point somewhere among them (at least one digit in all).  This
/// plain-decimal grammar is the intended wire format: exponent
/// notation (`1e3`) and the special floating-point spellings (`inf`,
/// `nan`) are deliberately outside it and malformed, as the
/// exact-arithmetic model admits only literals it can represent
/// exactly.  Fraction digits beyond the twelfth are ignored; a
/// magnitude of 500001 or more drawing units, or any other shape of
/// text, is malformed.
pub open spec fn spec_parse_value(s: Seq<char>) -> Option<i64> {
    let neg = s.len() > 0 && s[0] == '-';
    let t = if s.len() > 0 && (s[0] == '-' || s[0] == '+') {
        s.skip(1)
    } else {
        s
    };
    let dp = find_dot(t, 0);
    let ip = t.take(dp);
    let fp = if dp < t.len() {
        t.skip(dp + 1)
    } else {
        Seq::empty()
    };
    if ip.len() + fp.len() == 0 || !all_digits(ip) || !all_digits(fp) {
        None
    } else if digits_val(ip) > 500_000 {
        None
    } else {
        let fk = if fp.len() > 12 {
            fp.take(12)
        } else {
            fp
        };
        let v = digits_val(ip) * (PICO as int) + digits_val(fk) * pow10((12 - fk.len()) as nat);
        Some((if neg { -v } else { v }) as i64)
    }
}

/// Read a numeric field into pico-units; `None` is a fatal malformed
/// literal.
#[verifier::rlimit(100)]
#[verifier::spinoff_prover]
pub fn parse_value(s: &str) -> (r: Option<i64>)
    ensures
        r == spec_parse_value(s@),
        r matches Some(v) ==> -V_MAX <= v <= V_MAX,
{
    let cs: Vec<char> = str_chars(s);
    let n: usize = cs.len();
    let mut base: usize = 0;
    let mut neg: bool = false;
    if n > 0 && (cs[0] == '-' || cs[0] == '+') {
        neg = cs[0] == '-';
        base = 1;
    }
    let ghost t = if base == 1 { s@.skip(1) } else { s@ };
    proof {
        assert(t =~= s@.subrange(base as int, n as int));
    }
    // Locate the decimal point.
    let mut dp: usize = base;
    while dp < n && cs[dp] != '.'
        invariant
            base <= dp <= n,
            n == s@.len(),
            cs@ == s@,
            t == s@.subrange(base as int, n as int),
            base <= 1,
            find_dot(t, 0) == find_dot(t, dp - base),
            forall|j: int| base <= j < dp ==> s@[j] != '.',
        decreases n - dp,
    {
        dp = dp + 1;
    }
    assert(find_dot(t, 0) == dp - base) by {
        if dp < n {
            assert(t[dp - base] == '.');
        }
    }
    let ghost ip = t.take(dp - base);
    let ghost fp = if dp - base < t.len() { t.skip(dp - base + 1) } else { Seq::<char>::empty() };
    // Check the digit count.
    if dp == n && dp == base {
        return None;
    }
    if dp < n && dp + 1 == n && dp == base {
        return None;
    }
    // Scan the integer digits.
    let mut i: usize = base;
    let mut ival: i64 = 0;
    let mut big: bool = false;
    while i < dp
        invariant
            base <= i <= dp <= n,
            n == s@.len(),
            cs@ == s@,
            base <= 1,
            t == s@.subrange(base as int, n as int),
            all_digits(ip.take(i - base)),
            ip == t.take(dp - base),
            !big ==> 0 <= ival <= 500_000 && ival == digits_val(ip.take(i - base)),
            big ==> digits_val(ip.take(i - base)) > 500_000 && all_digits(ip.take(i - base)),
        decreases dp - i,
    {
        let c: char = cs[i];
        let u: u32 = c as u32;
        if u < 48 || u > 57 {
            proof {
                assert(ip[i - base] == s@[i as int]);
                assert(!all_digits(ip));
            }
            return None;
        }
        let d: i64 = (u - 48) as i64;
        proof {
            assert(ip.take(i - base + 1) =~= ip.take(i - base).push(ip[i - base]));
            lemma_digits_step(ip, i - base);
            if big {
                assert(digits_val(ip.take(i - base)) >= 0) by {
                    lemma_digits_bound(ip.take(i - base));
                }
            }
        }
        if !big {
            ival = ival * 10 + d;
            if ival > 500_000 {
                big = true;
            }
        }
        i = i + 1;
    }
    proof {
        assert(ip.take(dp - base) =~= ip);
    }
    if big {
        proof {
            lemma_digits_prefix_gt(ip, dp - base, 500_000);
        }
        return None;
    }
    // Scan the fraction digits; only the first twelve carry value.
    let mut j: usize = if dp < n { dp + 1 } else { dp };
    let ghost fstart = j;
    let mut fval: i64 = 0;
    let mut fd: usize = 0;
    proof {
        if dp < n {
            assert(fp =~= t.skip(dp - base + 1));
        }
        assert(fp.take(0) =~= Seq::<char>::empty());
    }
    while j < n
        invariant
            fstart <= j <= n,
            n == s@.len(),
            cs@ == s@,
            base <= 1,
            base <= dp <= n,
            fstart == (if dp < n { dp + 1int } else { dp as int }),
            t == s@.subrange(base as int, n as int),
            fp == (if dp - base < t.len() { t.skip(dp - base + 1) } else { Seq::<char>::empty() }),
            all_digits(fp.take(j - fstart)),
            fd == if j - fstart > 12 { 12int } else { j - fstart },
            0 <= fval < pow10(fd as nat),
            fval == digits_val(fp.take(fd as int)),
        decreases n - j,
    {
        let c: char = cs[j];
        let u: u32 = c as u32;
        if u < 48 || u > 57 {
            proof {
                assert(fp[j - fstart] == s@[j as int]);
                assert(!all_digits(fp));
            }
            return None;
        }
        let d: i64 = (u - 48) as i64;
        proof {
            assert(fp.take(j - fstart + 1) =~= fp.take(j - fstart).push(fp[j - fstart]));
        }
        if fd < 12 {
            proof {
                lemma_digits_step(fp, fd as int);
                assert(fp[fd as int] == s@[j as int]);
                lemma_pow10_vals();
                lemma_pow10_add(fd as nat, (12 - fd) as nat);
                lemma_pow10_pos((12 - fd) as nat);
                assert(pow10(fd as nat) <= pow10(12)) by (nonlinear_arith)
                    requires
                        pow10(fd as nat) * pow10((12 - fd) as nat) == pow10(12),
                        pow10((12 - fd) as nat) >= 1,
                        pow10(fd as nat) >= 1;
            }
            fval = fval * 10 + d;
            fd = fd + 1;
        }
        j = j + 1;
    }
    proof {
        assert(fp.take(n - fstart) =~= fp);
        let fk = if fp.len() > 12 { fp.take(12) } else { fp };
        if fp.len() > 12 {
            assert(fp.take(12) =~= fk);
        } else {
            assert(fp.take(fp.len() as int) =~= fp);
        }
        assert(fval == digits_val(fk));
        assert(fd == if fp.len() > 12 { 12int } else { fp.len() as int });
        lemma_pow10_vals();
        lemma_pow10_add(fd as nat, (12 - fd) as nat);
        lemma_pow10_pos((12 - fd) as nat);
        assert(0 <= fval * pow10((12 - fd) as nat)
            && fval * pow10((12 - fd) as nat) < pow10(12)) by (nonlinear_arith)
            requires
                0 <= fval < pow10(fd as nat),
                pow10(fd as nat) * pow10((12 - fd) as nat) == pow10(12),
                pow10((12 - fd) as nat) >= 1;
    }
    let mut scale: i64 = 1;
    let mut k: usize = 0;
    let kk: usize = 12 - fd;
    while k < kk
        invariant
            0 <= k <= kk <= 12,
            scale == pow10(k as nat),
            1 <= scale <= 1_000_000_000_000,
        decreases kk - k,
    {
        proof {
            lemma_pow10_vals();
            lemma_pow10_add(k as nat, (12 - k) as nat);
            assert(scale * pow10((12 - k) as nat) == pow10(12));
            assert(pow10((12 - k) as nat) >= 10) by {
                assert(12 - k >= 1);
                assert(pow10((12 - k) as nat) == 10 * pow10((12 - k - 1) as nat));
                lemma_pow10_pos((12 - k - 1) as nat);
            }
            assert(scale * 10 <= pow10(12)) by (nonlinear_arith)
                requires
                    scale * pow10((12 - k) as nat) == pow10(12),
                    pow10((12 - k) as nat) >= 10,
                    scale >= 1;
        }
        scale = scale * 10;
        k = k + 1;
    }
    proof {
        lemma_pow10_vals();
        let fk = if fp.len() > 12 { fp.take(12) } else { fp };
        assert(0 <= fval * scale < 1_000_000_000_000) by (nonlinear_arith)
            requires
                0 <= fval * pow10((12 - fd) as nat),
                fval * pow10((12 - fd) as nat) < pow10(12),
                scale == pow10((12 - fd) as nat),
                pow10(12) == 1_000_000_000_000;
    }
    let v: i64 = ival * PICO + fval * scale;
    if neg {
        Some(-v)
    } else {
        Some(v)
    }
}

proof fn lemma_pow10_pos(k: nat)
    ensures
        pow10(k) >= 1,
    decreases k,
{
    if k > 0 {
        lemma_pow10_pos((k - 1) as nat);
    }
}

/// The spline control-point count: plain decimal digits only, up to
/// nineteen of them; anything else is a fatal malformed literal.
pub open spec fn spec_parse_count(s: Seq<char>) -> Option<u64> {
    if s.len() == 0 || s.len() > 19 || !all_digits(s) {
        None
    } else {
        Some(digits_val(s) as u64)
    }
}

/// Read a control-point count field.
pub fn parse_count(s: &str) -> (r: Option<u64>)
    ensures
        r == spec_parse_count(s@),
{
    let cs: Vec<char> = str_chars(s);
    let n: usize = cs.len();
    if n == 0 || n > 19 {
        return None;
    }
    let mut i: usize = 0;
    let mut val: u64 = 0;
    while i < n
        invariant
            0 <= i <= n <= 19,
            n == s@.len(),
            cs@ == s@,
            all_digits(s@.take(i as int)),
            val == digits_val(s@.take(i as int)),
            0 <= val < pow10(i as nat),
        decreases n - i,
    {
        let c: char = cs[i];
        let u: u32 = c as u32;
        if u < 48 || u > 57 {
            proof {
                assert(!all_digits(s@));
            }
            return None;
        }
        let d: u64 = (u - 48) as u64;
        proof {
            lemma_digits_step(s@, i as int);
            lemma_pow10_vals();
            lemma_pow10_pos(i as nat);
            assert(pow10(i as nat + 1) <= pow10(19)) by {
                lemma_pow10_add((i + 1) as nat, (19 - i - 1) as nat);
                lemma_pow10_pos((19 - i - 1) as nat);
                assert(pow10((i + 1) as nat) * pow10((19 - i - 1) as nat) == pow10(19));
                assert(pow10((i + 1) as nat) <= pow10(19)) by (nonlinear_arith)
                    requires
                        pow10((i + 1) as nat) * pow10((19 - i - 1) as nat) == pow10(19),
                        pow10((19 - i - 1) as nat) >= 1,
                        pow10((i + 1) as nat) >= 1;
            }
            assert(val * 10 + d < pow10((i + 1) as nat)) by (nonlinear_arith)
                requires 0 <= val < pow10(i as nat), 0 <= d <= 9,
                    pow10((i + 1) as nat) == 10 * pow10(i as nat);
        }
        val = val * 10 + d;
        i = i + 1;
    }
    proof {
        assert(s@.take(n as int) =~= s@);
    }
    Some(val)
}

/// Tokenize the input text into classified (code, value) records.
pub fn collect_pairs(dxf_contents: &str) -> (r: Vec<Pair>)
    ensures
        pair_views(r@) == spec_pairs(dxf_contents@),
{
    let ghost s = dxf_contents@;
    let chars: Vec<char> = str_chars(dxf_contents);
    let mut lines: Vec<Vec<char>> = Vec::new();
    let mut cur: Vec<char> = Vec::new();
    let mut i: usize = 0;
    let ghost lv = |l: Vec<char>| l@;
    while i < chars.len()
        invariant
            i <= chars@.len(),
            chars@ == s,
            lines@.map_values(lv) + spec_lines(s, i as int, cur@)
                == spec_lines(s, 0, Seq::empty()),
        decreases chars@.len() - i,
    {
        let ghost lines0 = lines@.map_values(lv);
        let c: char = chars[i];
        if c == '\n' {
            let line: Vec<char> = if cur.len() > 0 && cur[cur.len() - 1] == '\r' {
                let mut t = cur;
                t.pop();
                t
            } else {
                cur
            };
            lines.push(line);
            cur = Vec::new();
            proof {
                assert(lines@.map_values(lv) =~= lines0 + seq![line@]);
                assert(lines0 + (seq![line@] + spec_lines(s, i as int + 1, Seq::empty()))
                    =~= (lines0 + seq![line@]) + spec_lines(s, i as int + 1, Seq::empty()));
            }
        } else {
            let mut t = cur;
            t.push(c);
            cur = t;
        }
        i = i + 1;
    }
    if cur.len() > 0 {
        let ghost lines0 = lines@.map_values(lv);
        lines.push(cur);
        proof {
            assert(lines@.map_values(lv) =~= lines0 + seq![cur@]);
        }
    } else {
        proof {
            assert(lines@.map_values(lv) + Seq::<Seq<char>>::empty()
                =~= lines@.map_values(lv));
        }
    }
    let ghost lsv = lines@.map_values(lv);
    assert(lsv == spec_lines(s, 0, Seq::empty()));
    let mut pairs: Vec<Pair> = Vec::new();
    let mut j: usize = 0;
    while j < lines.len() && j + 1 < lines.len()
        invariant
            j <= lines@.len() + 1,
            lsv == lines@.map_values(lv),
            lsv == spec_lines(s, 0, Seq::empty()),
            pair_views(pairs@) + spec_pair_up(lsv, j as int) == spec_pair_up(lsv, 0),
        decreases lines@.len() - j,
    {
        let ghost p0 = pair_views(pairs@);
        let code: Vec<char> = trim_chars(&lines[j]);
        let value: Vec<char> = trim_chars(&lines[j + 1]);
        let tag: Tag = classify(&code);
        let vs: String = chars_to_string(&value);
        pairs.push(Pair { tag, value: vs });
        proof {
            assert(pair_views(pairs@) =~= p0 + seq![(tag, value@)]);
            assert(p0 + (seq![(tag, value@)] + spec_pair_up(lsv, j as int + 2))
                =~= (p0 + seq![(tag, value@)]) + spec_pair_up(lsv, j as int + 2));
        }
        j = j + 2;
    }
    proof {
        assert(spec_pair_up(lsv, j as int) =~= Seq::<(Tag, Seq<char>)>::empty());
        assert(pair_views(pairs@) + Seq::<(Tag, Seq<char>)>::empty() =~= pair_views(pairs@));
    }
    pairs
}


/// A malformed numeric literal in a recognized field; fatal for the
/// whole conversion.
#[derive(Clone, Copy, PartialEq, Eq, Structural, Debug)]
pub struct MalformedNumber;

#[derive(Clone, Copy, PartialEq, Eq, Structural, Debug)]
pub enum LineParserState {
    Start,
    End,
}

#[derive(Clone, Copy, PartialEq, Eq, Structural, Debug)]
pub enum PolylineParserState {
    Closed,
    Vertex,
    Finish,
}

#[derive(Clone, Copy, PartialEq, Eq, Structural, Debug)]
pub enum SplineParserState {
    ControlPointCount,
    ControlPoint,
}

#[derive(Clone, Copy, PartialEq, Eq, Structural, Debug)]
pub enum CircleParserState {
    Centre,
    Radius,
    Arc,
    Finish,
}

/// A parsed circle-family entity: a full circle when no angle pair
/// was present, a partial arc when both angles were.
#[derive(Clone, Copy, PartialEq, Eq, Structural, Debug)]
pub enum CircleEntity {
    FullCircle(Circle),
    Partial(Arc),
}

/// The line sub-parser: a start coordinate pair, then an end pair, in
/// fixed field order; two completed points make an open two-vertex
/// path.  It consumes records until it completes (or the stream ends).
pub open spec fn spec_parse_line(
    ps: Seq<(Tag, Seq<char>)>,
    i: int,
    st: LineParserState,
    px: Option<i64>,
    py: Option<i64>,
    vs: Seq<Vertex>,
) -> (Result<Option<PathView>, ()>, int)
    decreases ps.len() - i, 1int,
{
    if i < 0 || i >= ps.len() {
        (Result::Ok(None), ps.len() as int)
    } else {
        let tag = ps[i].0;
        let val = ps[i].1;
        if (tag == Tag::X && st == LineParserState::Start)
            || (tag == Tag::X2 && st == LineParserState::End) {
            match spec_parse_value(val) {
                None => (Result::Err(()), i + 1),
                Some(v) => spec_line_after(ps, i, st, Some(v), py, vs),
            }
        } else if (tag == Tag::Y && st == LineParserState::Start)
            || (tag == Tag::Y2 && st == LineParserState::End) {
            match spec_parse_value(val) {
                None => (Result::Err(()), i + 1),
                Some(v) => spec_line_after(ps, i, st, px, Some(v), vs),
            }
        } else {
            spec_parse_line(ps, i + 1, st, px, py, vs)
        }
    }
}

/// The line sub-parser's completion step after a processed record.
pub open spec fn spec_line_after(
    ps: Seq<(Tag, Seq<char>)>,
    i: int,
    st: LineParserState,
    px: Option<i64>,
    py: Option<i64>,
    vs: Seq<Vertex>,
) -> (Result<Option<PathView>, ()>, int)
    decreases ps.len() - i, 0int,
{
    if i < 0 || i >= ps.len() {
        (Result::Ok(None), ps.len() as int)
    } else if px is Some && py is Some {
        let vs2 = vs.push(Vertex { x: px->0, y: py->0 });
        if vs2.len() == 2 {
            (Result::Ok(Some((vs2, false))), i + 1)
        } else {
            spec_parse_line(ps, i + 1, LineParserState::End, None, None, vs2)
        }
    } else {
        spec_parse_line(ps, i + 1, st, px, py, vs)
    }
}

/// Run the line sub-parser over the record stream from `start`.
fn parse_line(pairs: &Vec<Pair>, start: usize) -> (r: (Result<Option<PolyLine>, MalformedNumber>, usize))
    requires
        start <= pairs@.len(),
    ensures
        ({
            let sp = spec_parse_line(pair_views(pairs@), start as int, LineParserState::Start,
                None, None, Seq::empty());
            &&& r.1 == sp.1
            &&& start <= r.1 <= pairs@.len()
            &&& (r.0 matches Ok(Some(pl)) ==> sp.0 matches Ok(Some(pv)) && pl.view_of() == pv
                && crate::polyline::wf_path(pl.view_of()))
            &&& (r.0 matches Ok(None) ==> sp.0 matches Ok(None))
            &&& (r.0 is Err ==> sp.0 is Err)
        }),
{
    let ghost ps = pair_views(pairs@);
    let ghost sp = spec_parse_line(ps, start as int, LineParserState::Start, None, None,
        Seq::empty());
    let mut vertices: Vec<Vertex> = Vec::new();
    let mut st: LineParserState = LineParserState::Start;
    let mut vert: PartialVertex = PartialVertex::new();
    let mut i: usize = start;
    while i < pairs.len()
        invariant
            start <= i <= pairs@.len(),
            ps == pair_views(pairs@),
            sp == spec_parse_line(ps, i as int, st, vert.x, vert.y, vertices@),
            vertices@.len() <= 1,
            forall|j: int| 0 <= j < vertices@.len()
                ==> crate::vertex::in_bounds(#[trigger] vertices@[j]),
            vert.x matches Some(v) ==> -V_MAX <= v <= V_MAX,
            vert.y matches Some(v) ==> -V_MAX <= v <= V_MAX,
        decreases pairs@.len() - i,
    {
        let ghost ost = st;
        let ghost ovs = vertices@;
        let tag: Tag = pairs[i].tag;
        proof {
            assert(ps[i as int] == (pairs@[i as int].tag, pairs@[i as int].value@));
        }
        let hit_x = (tag == Tag::X && st == LineParserState::Start)
            || (tag == Tag::X2 && st == LineParserState::End);
        let hit_y = (tag == Tag::Y && st == LineParserState::Start)
            || (tag == Tag::Y2 && st == LineParserState::End);
        if hit_x || hit_y {
            match parse_value(pairs[i].value.as_str()) {
                None => {
                    proof {
                        assert(sp.1 == i + 1 && sp.0 is Err);
                    }
                    return (Result::Err(MalformedNumber), i + 1);
                },
                Some(v) => {
                    if hit_x {
                        vert.x = Some(v);
                    } else {
                        vert.y = Some(v);
                    }
                },
            }
            proof {
                assert(sp == spec_line_after(ps, i as int, ost, vert.x, vert.y, ovs));
            }
            match Vertex::from_partial(&vert) {
                Some(v) => {
                    vertices.push(v);
                    vert = PartialVertex::new();
                    st = LineParserState::End;
                    proof {
                        assert(vertices@ == ovs.push(v));
                    }
                    if vertices.len() == 2 {
                        proof {
                            assert(sp.1 == i + 1
                                && sp.0 == Result::<Option<PathView>, ()>::Ok(
                                    Some((vertices@, false))));
                        }
                        return (Result::Ok(Some(PolyLine { vertices, closed: false })), i + 1);
                    }
                    proof {
                        assert(sp == spec_parse_line(ps, i as int + 1, LineParserState::End,
                            None, None, vertices@));
                    }
                },
                None => {
                    proof {
                        assert(sp == spec_parse_line(ps, i as int + 1, st, vert.x, vert.y,
                            vertices@));
                    }
                },
            }
        } else {
            proof {
                assert(sp == spec_parse_line(ps, i as int + 1, st, vert.x, vert.y, vertices@));
            }
        }
        i = i + 1;
    }
    proof {
        assert(sp == (Result::<Option<PathView>, ()>::Ok(None), pairs@.len() as int));
    }
    (Result::Ok(None), i)
}

/// The polyline sub-parser: a closed-flag record, then vertices (a
/// coordinate pair, optionally followed by a bulge); the next
/// entity-terminator record ends it.  Fewer than two vertices drop
/// the entity; otherwise the bulge-tagged list is expanded into the
/// final path.  A bulge record before any completed vertex also drops
/// the entity.
pub open spec fn spec_parse_polyline(
    ps: Seq<(Tag, Seq<char>)>,
    i: int,
    st: PolylineParserState,
    px: Option<i64>,
    py: Option<i64>,
    closed: bool,
    vbs: Seq<VertexWithBulge>,
) -> (Result<Option<PathView>, ()>, int)
    decreases ps.len() - i, 1int,
{
    if i < 0 || i >= ps.len() {
        (Result::Ok(None), ps.len() as int)
    } else {
        let tag = ps[i].0;
        let val = ps[i].1;
        if tag == Tag::Flags && st == PolylineParserState::Closed {
            spec_polyline_after(ps, i, PolylineParserState::Vertex, px, py, val == "1"@, vbs)
        } else if tag == Tag::X && st == PolylineParserState::Vertex {
            match spec_parse_value(val) {
                None => (Result::Err(()), i + 1),
                Some(v) => spec_polyline_after(ps, i, st, Some(v), py, closed, vbs),
            }
        } else if tag == Tag::Y && st == PolylineParserState::Vertex {
            match spec_parse_value(val) {
                None => (Result::Err(()), i + 1),
                Some(v) => spec_polyline_after(ps, i, st, px, Some(v), closed, vbs),
            }
        } else if tag == Tag::Bulge && st == PolylineParserState::Vertex {
            if vbs.len() == 0 {
                (Result::Ok(None), i + 1)
            } else {
                match spec_parse_value(val) {
                    None => (Result::Err(()), i + 1),
                    Some(v) => {
                        let lastv = vbs.last();
                        let vbs2 = vbs.update(vbs.len() - 1,
                            VertexWithBulge { vertex: lastv.vertex, bulge: v });
                        spec_polyline_after(ps, i, st, px, py, closed, vbs2)
                    },
                }
            }
        } else if tag == Tag::Start {
            spec_polyline_after(ps, i, PolylineParserState::Finish, px, py, closed, vbs)
        } else {
            spec_parse_polyline(ps, i + 1, st, px, py, closed, vbs)
        }
    }
}

/// The polyline sub-parser's completion and termination step.
pub open spec fn spec_polyline_after(
    ps: Seq<(Tag, Seq<char>)>,
    i: int,
    st: PolylineParserState,
    px: Option<i64>,
    py: Option<i64>,
    closed: bool,
    vbs: Seq<VertexWithBulge>,
) -> (Result<Option<PathView>, ()>, int)
    decreases ps.len() - i, 0int,
{
    if i < 0 || i >= ps.len() {
        (Result::Ok(None), ps.len() as int)
    } else {
        let vbs2 = if px is Some && py is Some {
            vbs.push(VertexWithBulge { vertex: Vertex { x: px->0, y: py->0 }, bulge: 0 })
        } else {
            vbs
        };
        let px2: Option<i64> = if px is Some && py is Some { None } else { px };
        let py2: Option<i64> = if px is Some && py is Some { None } else { py };
        if st == PolylineParserState::Finish {
            if vbs2.len() > 1 {
                (Result::Ok(Some((crate::bulge::spec_explode(vbs2), closed))), i + 1)
            } else {
                (Result::Ok(None), i + 1)
            }
        } else {
            spec_parse_polyline(ps, i + 1, st, px2, py2, closed, vbs2)
        }
    }
}

/// Run the polyline sub-parser over the record stream from `start`.
fn parse_polyline(pairs: &Vec<Pair>, start: usize) -> (r: (Result<Option<PolyLine>, MalformedNumber>, usize))
    requires
        start <= pairs@.len(),
    ensures
        ({
            let sp = spec_parse_polyline(pair_views(pairs@), start as int,
                PolylineParserState::Closed, None, None, false, Seq::empty());
            &&& r.1 == sp.1
            &&& start <= r.1 <= pairs@.len()
            &&& (r.0 matches Ok(Some(pl)) ==> sp.0 matches Ok(Some(pv)) && pl.view_of() == pv
                && crate::polyline::wf_path(pl.view_of()))
            &&& (r.0 matches Ok(None) ==> sp.0 matches Ok(None))
            &&& (r.0 is Err ==> sp.0 is Err)
        }),
{
    let ghost ps = pair_views(pairs@);
    let ghost sp = spec_parse_polyline(ps, start as int, PolylineParserState::Closed, None, None,
        false, Seq::empty());
    let mut vbs: Vec<VertexWithBulge> = Vec::new();
    let mut st: PolylineParserState = PolylineParserState::Closed;
    let mut vert: PartialVertex = PartialVertex::new();
    let mut closed: bool = false;
    let mut i: usize = start;
    while i < pairs.len()
        invariant
            start <= i <= pairs@.len(),
            ps == pair_views(pairs@),
            sp == spec_parse_polyline(ps, i as int, st, vert.x, vert.y, closed, vbs@),
            forall|j: int| 0 <= j < vbs@.len() ==> crate::bulge::wf_vb(#[trigger] vbs@[j]),
            vert.x matches Some(v) ==> -V_MAX <= v <= V_MAX,
            vert.y matches Some(v) ==> -V_MAX <= v <= V_MAX,
        decreases pairs@.len() - i,
    {
        let ghost oclosed = closed;
        let tag: Tag = pairs[i].tag;
        proof {
            assert(ps[i as int] == (pairs@[i as int].tag, pairs@[i as int].value@));
        }
        let mut processed = true;
        if tag == Tag::Flags && st == PolylineParserState::Closed {
            closed = str_eq_lit(&pairs[i].value, "1");
            st = PolylineParserState::Vertex;
        } else if tag == Tag::X && st == PolylineParserState::Vertex {
            match parse_value(pairs[i].value.as_str()) {
                None => {
                    proof {
                        assert(sp.1 == i + 1 && sp.0 is Err);
                    }
                    return (Result::Err(MalformedNumber), i + 1);
                },
                Some(v) => {
                    vert.x = Some(v);
                },
            }
        } else if tag == Tag::Y && st == PolylineParserState::Vertex {
            match parse_value(pairs[i].value.as_str()) {
                None => {
                    proof {
                        assert(sp.1 == i + 1 && sp.0 is Err);
                    }
                    return (Result::Err(MalformedNumber), i + 1);
                },
                Some(v) => {
                    vert.y = Some(v);
                },
            }
        } else if tag == Tag::Bulge && st == PolylineParserState::Vertex {
            if vbs.len() == 0 {
                proof {
                    assert(sp.1 == i + 1 && sp.0 matches Ok(None));
                }
                return (Result::Ok(None), i + 1);
            }
            match parse_value(pairs[i].value.as_str()) {
                None => {
                    proof {
                        assert(sp.1 == i + 1 && sp.0 is Err);
                    }
                    return (Result::Err(MalformedNumber), i + 1);
                },
                Some(v) => {
                    let li: usize = vbs.len() - 1;
                    let lastv: VertexWithBulge = vbs[li];
                    vbs.set(li, VertexWithBulge { vertex: lastv.vertex, bulge: v });
                },
            }
        } else if tag == Tag::Start {
            st = PolylineParserState::Finish;
        } else {
            processed = false;
        }
        if processed {
            proof {
                assert(sp == spec_polyline_after(ps, i as int, st, vert.x, vert.y, closed,
                    vbs@));
            }
            let ghost mvbs = vbs@;
            match Vertex::from_partial(&vert) {
                Some(v) => {
                    vbs.push(VertexWithBulge { vertex: v, bulge: 0 });
                    vert = PartialVertex::new();
                    proof {
                        assert(vbs@ == mvbs.push(VertexWithBulge { vertex: v, bulge: 0 }));
                    }
                },
                None => {},
            }
            if st == PolylineParserState::Finish {
                if vbs.len() > 1 {
                    let ghost fvbs = vbs@;
                    let expanded: Vec<Vertex> = crate::bulge::explode_bulged_vertices(vbs);
                    proof {
                        assert(sp.1 == i + 1
                            && sp.0 == Result::<Option<PathView>, ()>::Ok(
                                Some((crate::bulge::spec_explode(fvbs), oclosed))));
                        assert(expanded@.len() >= 1);
                    }
                    return (Result::Ok(Some(PolyLine { vertices: expanded, closed })), i + 1);
                }
                proof {
                    assert(sp.1 == i + 1 && sp.0 matches Ok(None));
                }
                return (Result::Ok(None), i + 1);
            }
            proof {
                assert(sp == spec_parse_polyline(ps, i as int + 1, st, vert.x, vert.y, closed,
                    vbs@));
            }
        } else {
            proof {
                assert(sp == spec_parse_polyline(ps, i as int + 1, st, vert.x, vert.y, closed,
                    vbs@));
            }
        }
        i = i + 1;
    }
    proof {
        assert(sp == (Result::<Option<PathView>, ()>::Ok(None), pairs@.len() as int));
    }
    (Result::Ok(None), i)
}

/// The spline sub-parser: a control-point-count record, then that
/// many coordinate pairs; only a count of four yields a spline.
pub open spec fn spec_parse_spline(
    ps: Seq<(Tag, Seq<char>)>,
    i: int,
    st: SplineParserState,
    px: Option<i64>,
    py: Option<i64>,
    expected: int,
    cps: Seq<Vertex>,
) -> (Result<Option<Seq<Vertex>>, ()>, int)
    decreases ps.len() - i, 1int,
{
    if i < 0 || i >= ps.len() {
        (Result::Ok(None), ps.len() as int)
    } else {
        let tag = ps[i].0;
        let val = ps[i].1;
        if tag == Tag::CtrlCount && st == SplineParserState::ControlPointCount {
            match spec_parse_count(val) {
                None => (Result::Err(()), i + 1),
                Some(e) => spec_spline_after(ps, i, SplineParserState::ControlPoint, px, py,
                    e as int, cps),
            }
        } else if tag == Tag::X && st == SplineParserState::ControlPoint {
            match spec_parse_value(val) {
                None => (Result::Err(()), i + 1),
                Some(v) => spec_spline_after(ps, i, st, Some(v), py, expected, cps),
            }
        } else if tag == Tag::Y && st == SplineParserState::ControlPoint {
            match spec_parse_value(val) {
                None => (Result::Err(()), i + 1),
                Some(v) => spec_spline_after(ps, i, st, px, Some(v), expected, cps),
            }
        } else {
            spec_parse_spline(ps, i + 1, st, px, py, expected, cps)
        }
    }
}

/// The spline sub-parser's completion step.
pub open spec fn spec_spline_after(
    ps: Seq<(Tag, Seq<char>)>,
    i: int,
    st: SplineParserState,
    px: Option<i64>,
    py: Option<i64>,
    expected: int,
    cps: Seq<Vertex>,
) -> (Result<Option<Seq<Vertex>>, ()>, int)
    decreases ps.len() - i, 0int,
{
    if i < 0 || i >= ps.len() {
        (Result::Ok(None), ps.len() as int)
    } else {
        let cps2 = if px is Some && py is Some {
            cps.push(Vertex { x: px->0, y: py->0 })
        } else {
            cps
        };
        let px2: Option<i64> = if px is Some && py is Some { None } else { px };
        let py2: Option<i64> = if px is Some && py is Some { None } else { py };
        if st == SplineParserState::ControlPoint && expected == cps2.len() {
            if cps2.len() == 4 {
                (Result::Ok(Some(cps2)), i + 1)
            } else {
                (Result::Ok(None), i + 1)
            }
        } else {
            spec_parse_spline(ps, i + 1, st, px2, py2, expected, cps2)
        }
    }
}

/// Run the spline sub-parser over the record stream from `start`.
fn parse_spline(pairs: &Vec<Pair>, start: usize) -> (r: (Result<Option<Spline>, MalformedNumber>, usize))
    requires
        start <= pairs@.len(),
    ensures
        ({
            let sp = spec_parse_spline(pair_views(pairs@), start as int,
                SplineParserState::ControlPointCount, None, None, 0, Seq::empty());
            &&& r.1 == sp.1
            &&& start <= r.1 <= pairs@.len()
            &&& (r.0 matches Ok(Some(s)) ==> sp.0 matches Ok(Some(cv))
                && s.control_points@ == cv && crate::spline::wf_spline(s))
            &&& (r.0 matches Ok(None) ==> sp.0 matches Ok(None))
            &&& (r.0 is Err ==> sp.0 is Err)
        }),
{
    let ghost ps = pair_views(pairs@);
    let ghost sp = spec_parse_spline(ps, start as int, SplineParserState::ControlPointCount,
        None, None, 0, Seq::empty());
    let mut cps: Vec<Vertex> = Vec::new();
    let mut st: SplineParserState = SplineParserState::ControlPointCount;
    let mut vert: PartialVertex = PartialVertex::new();
    let mut expected: u64 = 0;
    let mut i: usize = start;
    while i < pairs.len()
        invariant
            start <= i <= pairs@.len(),
            ps == pair_views(pairs@),
            sp == spec_parse_spline(ps, i as int, st, vert.x, vert.y, expected as int, cps@),
            forall|j: int| 0 <= j < cps@.len()
                ==> -V_MAX <= (#[trigger] cps@[j]).x <= V_MAX && -V_MAX <= cps@[j].y <= V_MAX,
            vert.x matches Some(v) ==> -V_MAX <= v <= V_MAX,
            vert.y matches Some(v) ==> -V_MAX <= v <= V_MAX,
        decreases pairs@.len() - i,
    {
        let tag: Tag = pairs[i].tag;
        proof {
            assert(ps[i as int] == (pairs@[i as int].tag, pairs@[i as int].value@));
        }
        let mut processed = true;
        if tag == Tag::CtrlCount && st == SplineParserState::ControlPointCount {
            match parse_count(pairs[i].value.as_str()) {
                None => {
                    proof {
                        assert(sp.1 == i + 1 && sp.0 is Err);
                    }
                    return (Result::Err(MalformedNumber), i + 1);
                },
                Some(e) => {
                    expected = e;
                    st = SplineParserState::ControlPoint;
                },
            }
        } else if tag == Tag::X && st == SplineParserState::ControlPoint {
            match parse_value(pairs[i].value.as_str()) {
                None => {
                    proof {
                        assert(sp.1 == i + 1 && sp.0 is Err);
                    }
                    return (Result::Err(MalformedNumber), i + 1);
                },
                Some(v) => {
                    vert.x = Some(v);
                },
            }
        } else if tag == Tag::Y && st == SplineParserState::ControlPoint {
            match parse_value(pairs[i].value.as_str()) {
                None => {
                    proof {
                        assert(sp.1 == i + 1 && sp.0 is Err);
                    }
                    return (Result::Err(MalformedNumber), i + 1);
                },
                Some(v) => {
                    vert.y = Some(v);
                },
            }
        } else {
            processed = false;
        }
        if processed {
            proof {
                assert(sp == spec_spline_after(ps, i as int, st, vert.x, vert.y,
                    expected as int, cps@));
            }
            let ghost mcps = cps@;
            match Vertex::from_partial(&vert) {
                Some(v) => {
                    cps.push(v);
                    vert = PartialVertex::new();
                    proof {
                        assert(cps@ == mcps.push(v));
                    }
                },
                None => {},
            }
            if st == SplineParserState::ControlPoint && expected == (cps.len() as u64) {
                if cps.len() == 4 {
                    proof {
                        assert(sp.1 == i + 1
                            && sp.0 == Result::<Option<Seq<Vertex>>, ()>::Ok(Some(cps@)));
                    }
                    return (Result::Ok(Some(Spline { control_points: cps })), i + 1);
                }
                proof {
                    assert(sp.1 == i + 1 && sp.0 matches Ok(None));
                }
                return (Result::Ok(None), i + 1);
            }
            proof {
                assert(sp == spec_parse_spline(ps, i as int + 1, st, vert.x, vert.y,
                    expected as int, cps@));
            }
        } else {
            proof {
                assert(sp == spec_parse_spline(ps, i as int + 1, st, vert.x, vert.y,
                    expected as int, cps@));
            }
        }
        i = i + 1;
    }
    proof {
        assert(sp == (Result::<Option<Seq<Vertex>>, ()>::Ok(None), pairs@.len() as int));
    }
    (Result::Ok(None), i)
}

/// The circle/arc sub-parser: a centre pair, then a radius; start and
/// end angle records may follow before the entity terminator.  At the
/// terminator the entity resolves — only once centre and radius are
/// confirmed — to a partial arc when both angles arrived (the end
/// angle advanced a full turn if numerically below the start angle),
/// and to a full circle otherwise; without centre and confirmed
/// non-negative radius it is dropped.
pub open spec fn spec_parse_circle(
    ps: Seq<(Tag, Seq<char>)>,
    i: int,
    st: CircleParserState,
    px: Option<i64>,
    py: Option<i64>,
    rad: Option<i64>,
    sa: Option<i64>,
    ea: Option<i64>,
) -> (Result<Option<CircleEntity>, ()>, int)
    decreases ps.len() - i, 1int,
{
    if i < 0 || i >= ps.len() {
        (Result::Ok(None), ps.len() as int)
    } else {
        let tag = ps[i].0;
        let val = ps[i].1;
        if tag == Tag::X && st == CircleParserState::Centre {
            match spec_parse_value(val) {
                None => (Result::Err(()), i + 1),
                Some(v) => spec_circle_after(ps, i, st, Some(v), py, rad, sa, ea),
            }
        } else if tag == Tag::Y && st == CircleParserState::Centre {
            match spec_parse_value(val) {
                None => (Result::Err(()), i + 1),
                Some(v) => spec_circle_after(ps, i, st, px, Some(v), rad, sa, ea),
            }
        } else if tag == Tag::Radius && st == CircleParserState::Radius {
            match spec_parse_value(val) {
                None => (Result::Err(()), i + 1),
                Some(v) => spec_circle_after(ps, i, CircleParserState::Arc, px, py, Some(v),
                    sa, ea),
            }
        } else if tag == Tag::AngStart && st == CircleParserState::Arc {
            match spec_parse_value(val) {
                None => (Result::Err(()), i + 1),
                Some(v) => spec_circle_after(ps, i, st, px, py, rad, Some(v), ea),
            }
        } else if tag == Tag::AngEnd && st == CircleParserState::Arc {
            match spec_parse_value(val) {
                None => (Result::Err(()), i + 1),
                Some(v) => spec_circle_after(ps, i, st, px, py, rad, sa, Some(v)),
            }
        } else if tag == Tag::Start {
            spec_circle_after(ps, i, CircleParserState::Finish, px, py, rad, sa, ea)
        } else {
            spec_parse_circle(ps, i + 1, st, px, py, rad, sa, ea)
        }
    }
}

/// The circle/arc sub-parser's confirmation and termination step.
pub open spec fn spec_circle_after(
    ps: Seq<(Tag, Seq<char>)>,
    i: int,
    st: CircleParserState,
    px: Option<i64>,
    py: Option<i64>,
    rad: Option<i64>,
    sa: Option<i64>,
    ea: Option<i64>,
) -> (Result<Option<CircleEntity>, ()>, int)
    decreases ps.len() - i, 0int,
{
    if i < 0 || i >= ps.len() {
        (Result::Ok(None), ps.len() as int)
    } else if st == CircleParserState::Finish {
        if px is Some && py is Some && rad is Some && rad->0 >= 0 {
            let centre = Vertex { x: px->0, y: py->0 };
            if sa is Some && ea is Some {
                let s = sa->0;
                let e0 = ea->0;
                let e = if e0 < s { e0 + 360 * (PICO as int) } else { e0 as int };
                (Result::Ok(Some(CircleEntity::Partial(Arc {
                    centre,
                    radius: rad->0,
                    start_angle: s,
                    end_angle: e as i64,
                }))), i + 1)
            } else {
                (Result::Ok(Some(CircleEntity::FullCircle(Circle {
                    centre,
                    radius: rad->0,
                }))), i + 1)
            }
        } else {
            (Result::Ok(None), i + 1)
        }
    } else {
        let st2 = if rad is None && px is Some && py is Some {
            CircleParserState::Radius
        } else {
            st
        };
        spec_parse_circle(ps, i + 1, st2, px, py, rad, sa, ea)
    }
}

/// Run the circle/arc sub-parser over the record stream from `start`.
fn parse_circle(pairs: &Vec<Pair>, start: usize) -> (r: (Result<Option<CircleEntity>, MalformedNumber>, usize))
    requires
        start <= pairs@.len(),
    ensures
        ({
            let sp = spec_parse_circle(pair_views(pairs@), start as int,
                CircleParserState::Centre, None, None, None, None, None);
            &&& r.1 == sp.1
            &&& start <= r.1 <= pairs@.len()
            &&& (r.0 matches Ok(e) ==> sp.0 matches Ok(se) && e == se)
            &&& (r.0 is Err ==> sp.0 is Err)
            &&& (r.0 matches Ok(Some(CircleEntity::FullCircle(c)))
                ==> crate::circle::wf_circle(c))
            &&& (r.0 matches Ok(Some(CircleEntity::Partial(a))) ==> crate::arc::wf_arc(a))
        }),
{
    let ghost ps = pair_views(pairs@);
    let ghost sp = spec_parse_circle(ps, start as int, CircleParserState::Centre, None, None,
        None, None, None);
    let mut st: CircleParserState = CircleParserState::Centre;
    let mut vert: PartialVertex = PartialVertex::new();
    let mut rad: Option<i64> = None;
    let mut sa: Option<i64> = None;
    let mut ea: Option<i64> = None;
    let mut i: usize = start;
    while i < pairs.len()
        invariant
            start <= i <= pairs@.len(),
            ps == pair_views(pairs@),
            sp == spec_parse_circle(ps, i as int, st, vert.x, vert.y, rad, sa, ea),
            vert.x matches Some(v) ==> -V_MAX <= v <= V_MAX,
            vert.y matches Some(v) ==> -V_MAX <= v <= V_MAX,
            rad matches Some(v) ==> -V_MAX <= v <= V_MAX,
            sa matches Some(v) ==> -V_MAX <= v <= V_MAX,
            ea matches Some(v) ==> -V_MAX <= v <= V_MAX,
        decreases pairs@.len() - i,
    {
        let tag: Tag = pairs[i].tag;
        proof {
            assert(ps[i as int] == (pairs@[i as int].tag, pairs@[i as int].value@));
        }
        let mut processed = true;
        if tag == Tag::X && st == CircleParserState::Centre {
            match parse_value(pairs[i].value.as_str()) {
                None => {
                    proof {
                        assert(sp.1 == i + 1 && sp.0 is Err);
                    }
                    return (Result::Err(MalformedNumber), i + 1);
                },
                Some(v) => {
                    vert.x = Some(v);
                },
            }
        } else if tag == Tag::Y && st == CircleParserState::Centre {
            match parse_value(pairs[i].value.as_str()) {
                None => {
                    proof {
                        assert(sp.1 == i + 1 && sp.0 is Err);
                    }
                    return (Result::Err(MalformedNumber), i + 1);
                },
                Some(v) => {
                    vert.y = Some(v);
                },
            }
        } else if tag == Tag::Radius && st == CircleParserState::Radius {
            match parse_value(pairs[i].value.as_str()) {
                None => {
                    proof {
                        assert(sp.1 == i + 1 && sp.0 is Err);
                    }
                    return (Result::Err(MalformedNumber), i + 1);
                },
                Some(v) => {
                    rad = Some(v);
                    st = CircleParserState::Arc;
                },
            }
        } else if tag == Tag::AngStart && st == CircleParserState::Arc {
            match parse_value(pairs[i].value.as_str()) {
                None => {
                    proof {
                        assert(sp.1 == i + 1 && sp.0 is Err);
                    }
                    return (Result::Err(MalformedNumber), i + 1);
                },
                Some(v) => {
                    sa = Some(v);
                },
            }
        } else if tag == Tag::AngEnd && st == CircleParserState::Arc {
            match parse_value(pairs[i].value.as_str()) {
                None => {
                    proof {
                        assert(sp.1 == i + 1 && sp.0 is Err);
                    }
                    return (Result::Err(MalformedNumber), i + 1);
                },
                Some(v) => {
                    ea = Some(v);
                },
            }
        } else if tag == Tag::Start {
            st = CircleParserState::Finish;
        } else {
            processed = false;
        }
        if processed {
            proof {
                assert(sp == spec_circle_after(ps, i as int, st, vert.x, vert.y, rad, sa, ea));
            }
            if st == CircleParserState::Finish {
                match (Vertex::from_partial(&vert), rad) {
                    (Some(centre), Some(rv)) => {
                        if rv >= 0 {
                            match (sa, ea) {
                                (Some(s), Some(e0)) => {
                                    let e: i64 = if e0 < s { e0 + 360 * PICO } else { e0 };
                                    proof {
                                        assert(sp.1 == i + 1
                                            && sp.0 == Result::<Option<CircleEntity>, ()>::Ok(
                                                Some(CircleEntity::Partial(Arc {
                                                    centre,
                                                    radius: rv,
                                                    start_angle: s,
                                                    end_angle: e,
                                                }))));
                                    }
                                    return (Result::Ok(Some(CircleEntity::Partial(Arc {
                                        centre,
                                        radius: rv,
                                        start_angle: s,
                                        end_angle: e,
                                    }))), i + 1);
                                },
                                _ => {
                                    proof {
                                        assert(sp.1 == i + 1
                                            && sp.0 == Result::<Option<CircleEntity>, ()>::Ok(
                                                Some(CircleEntity::FullCircle(Circle {
                                                    centre,
                                                    radius: rv,
                                                }))));
                                    }
                                    return (Result::Ok(Some(CircleEntity::FullCircle(Circle {
                                        centre,
                                        radius: rv,
                                    }))), i + 1);
                                },
                            }
                        }
                        proof {
                            assert(sp.1 == i + 1 && sp.0 matches Ok(None));
                        }
                        return (Result::Ok(None), i + 1);
                    },
                    _ => {
                        proof {
                            assert(sp.1 == i + 1 && sp.0 matches Ok(None));
                        }
                        return (Result::Ok(None), i + 1);
                    },
                }
            }
            if rad.is_none() {
                match Vertex::from_partial(&vert) {
                    Some(_) => {
                        st = CircleParserState::Radius;
                    },
                    None => {},
                }
            }
            proof {
                assert(sp == spec_parse_circle(ps, i as int + 1, st, vert.x, vert.y, rad,
                    sa, ea));
            }
        } else {
            proof {
                assert(sp == spec_parse_circle(ps, i as int + 1, st, vert.x, vert.y, rad,
                    sa, ea));
            }
        }
        i = i + 1;
    }
    proof {
        assert(sp == (Result::<Option<CircleEntity>, ()>::Ok(None), pairs@.len() as int));
    }
    (Result::Ok(None), i)
}


/// The index the dispatcher resumes from after a sub-parser that
/// stopped at `r`: always ahead of `i`, never past the end.
pub open spec fn resume_at(i: int, n: int, r: int) -> int {
    if r < i + 1 {
        i + 1
    } else if r > n {
        n
    } else {
        r
    }
}

/// The dispatcher: scan for entity-kind markers, run the matching
/// sub-parser, and collect the paths it yields, in source order.  A
/// malformed numeric literal anywhere makes the whole conversion
/// yield nothing.
pub open spec fn spec_convert(ps: Seq<(Tag, Seq<char>)>, i: int, acc: Seq<PathView>)
    -> Option<Seq<PathView>>
    decreases ps.len() - i,
{
    if i < 0 || i >= ps.len() {
        Some(acc)
    } else {
        let tag = ps[i].0;
        let val = ps[i].1;
        if tag == Tag::Kind && val == "AcDbLine"@ {
            let r = spec_parse_line(ps, i + 1, LineParserState::Start, None, None, Seq::empty());
            let ni = resume_at(i, ps.len() as int, r.1);
            match r.0 {
                Result::Err(_) => None,
                Result::Ok(None) => spec_convert(ps, ni, acc),
                Result::Ok(Some(pv)) => spec_convert(ps, ni, acc.push(pv)),
            }
        } else if tag == Tag::Kind && val == "AcDbPolyline"@ {
            let r = spec_parse_polyline(ps, i + 1, PolylineParserState::Closed, None, None,
                false, Seq::empty());
            let ni = resume_at(i, ps.len() as int, r.1);
            match r.0 {
                Result::Err(_) => None,
                Result::Ok(None) => spec_convert(ps, ni, acc),
                Result::Ok(Some(pv)) => spec_convert(ps, ni, acc.push(pv)),
            }
        } else if tag == Tag::Kind && val == "AcDbSpline"@ {
            let r = spec_parse_spline(ps, i + 1, SplineParserState::ControlPointCount, None,
                None, 0, Seq::empty());
            let ni = resume_at(i, ps.len() as int, r.1);
            match r.0 {
                Result::Err(_) => None,
                Result::Ok(None) => spec_convert(ps, ni, acc),
                Result::Ok(Some(cv)) => spec_convert(ps, ni,
                    acc.push(crate::spline::spec_spline_path_of(cv))),
            }
        } else if tag == Tag::Kind && val == "AcDbCircle"@ {
            let r = spec_parse_circle(ps, i + 1, CircleParserState::Centre, None, None, None,
                None, None);
            let ni = resume_at(i, ps.len() as int, r.1);
            match r.0 {
                Result::Err(_) => None,
                Result::Ok(None) => spec_convert(ps, ni, acc),
                Result::Ok(Some(CircleEntity::FullCircle(c))) => spec_convert(ps, ni,
                    acc.push(crate::circle::spec_circle_path(c))),
                Result::Ok(Some(CircleEntity::Partial(a))) => spec_convert(ps, ni,
                    acc.push(crate::arc::spec_arc_path(a))),
            }
        } else {
            spec_convert(ps, i + 1, acc)
        }
    }
}

/// The whole conversion of the input text into a path list.
pub open spec fn spec_parse(s: Seq<char>) -> Option<Seq<PathView>> {
    spec_convert(spec_pairs(s), 0, Seq::empty())
}

#[verifier::rlimit(100)]
#[verifier::spinoff_prover]
fn convert(pairs: &Vec<Pair>) -> (r: Option<Vec<PolyLine>>)
    ensures
        ({
            let sc = spec_convert(pair_views(pairs@), 0, Seq::empty());
            &&& (r matches Some(v) ==> sc == Some(crate::polyline::views(v@))
                && forall|j: int| 0 <= j < v@.len()
                    ==> crate::polyline::wf_path(#[trigger] v@[j].view_of()))
            &&& (r is None ==> sc is None)
        }),
{
    let ghost ps = pair_views(pairs@);
    let ghost sc = spec_convert(ps, 0, Seq::empty());
    let mut out: Vec<PolyLine> = Vec::new();
    proof {
        assert(crate::polyline::views(out@) =~= Seq::<PathView>::empty());
    }
    let mut i: usize = 0;
    while i < pairs.len()
        invariant
            0 <= i <= pairs@.len(),
            ps == pair_views(pairs@),
            sc == spec_convert(ps, i as int, crate::polyline::views(out@)),
            forall|j: int| 0 <= j < out@.len()
                ==> crate::polyline::wf_path(#[trigger] out@[j].view_of()),
        decreases pairs@.len() - i,
    {
        let ghost oviews = crate::polyline::views(out@);
        let tag: Tag = pairs[i].tag;
        proof {
            assert(ps[i as int] == (pairs@[i as int].tag, pairs@[i as int].value@));
        }
        if tag == Tag::Kind {
            if str_eq_lit(&pairs[i].value, "AcDbLine") {
                let (res, ni) = parse_line(pairs, i + 1);
                proof {
                    assert(resume_at(i as int, ps.len() as int,
                        spec_parse_line(ps, i as int + 1, LineParserState::Start, None, None,
                            Seq::empty()).1) == ni);
                }
                match res {
                    Result::Err(_) => {
                        proof {
                            assert(sc is None);
                        }
                        return None;
                    },
                    Result::Ok(Some(pl)) => {
                        let ghost pv = pl.view_of();
                        out.push(pl);
                        proof {
                            assert(crate::polyline::views(out@) =~= oviews.push(pv));
                        }
                    },
                    Result::Ok(None) => {},
                }
                i = ni;
            } else if str_eq_lit(&pairs[i].value, "AcDbPolyline") {
                let (res, ni) = parse_polyline(pairs, i + 1);
                proof {
                    assert(resume_at(i as int, ps.len() as int,
                        spec_parse_polyline(ps, i as int + 1, PolylineParserState::Closed,
                            None, None, false, Seq::empty()).1) == ni);
                }
                match res {
                    Result::Err(_) => {
                        proof {
                            assert(sc is None);
                        }
                        return None;
                    },
                    Result::Ok(Some(pl)) => {
                        let ghost pv = pl.view_of();
                        out.push(pl);
                        proof {
                            assert(crate::polyline::views(out@) =~= oviews.push(pv));
                        }
                    },
                    Result::Ok(None) => {},
                }
                i = ni;
            } else if str_eq_lit(&pairs[i].value, "AcDbSpline") {
                let (res, ni) = parse_spline(pairs, i + 1);
                proof {
                    assert(resume_at(i as int, ps.len() as int,
                        spec_parse_spline(ps, i as int + 1,
                            SplineParserState::ControlPointCount, None, None, 0,
                            Seq::empty()).1) == ni);
                }
                match res {
                    Result::Err(_) => {
                        proof {
                            assert(sc is None);
                        }
                        return None;
                    },
                    Result::Ok(Some(sp_ent)) => {
                        let ghost cv = sp_ent.control_points@;
                        let pl: PolyLine = sp_ent.into_polyline();
                        let ghost pv = pl.view_of();
                        proof {
                            assert(pv == crate::spline::spec_spline_path_of(cv));
                        }
                        out.push(pl);
                        proof {
                            assert(crate::polyline::views(out@) =~= oviews.push(pv));
                        }
                    },
                    Result::Ok(None) => {},
                }
                i = ni;
            } else if str_eq_lit(&pairs[i].value, "AcDbCircle") {
                let (res, ni) = parse_circle(pairs, i + 1);
                proof {
                    assert(resume_at(i as int, ps.len() as int,
                        spec_parse_circle(ps, i as int + 1, CircleParserState::Centre, None,
                            None, None, None, None).1) == ni);
                }
                match res {
                    Result::Err(_) => {
                        proof {
                            assert(sc is None);
                        }
                        return None;
                    },
                    Result::Ok(Some(CircleEntity::FullCircle(c))) => {
                        let pl: PolyLine = c.into_polyline();
                        let ghost pv = pl.view_of();
                        proof {
                            assert(pv == crate::circle::spec_circle_path(c));
                        }
                        out.push(pl);
                        proof {
                            assert(crate::polyline::views(out@) =~= oviews.push(pv));
                        }
                    },
                    Result::Ok(Some(CircleEntity::Partial(a))) => {
                        let pl: PolyLine = a.into_polyline();
                        let ghost pv = pl.view_of();
                        proof {
                            assert(pv == crate::arc::spec_arc_path(a));
                        }
                        out.push(pl);
                        proof {
                            assert(crate::polyline::views(out@) =~= oviews.push(pv));
                        }
                    },
                    Result::Ok(None) => {},
                }
                i = ni;
            } else {
                i = i + 1;
            }
        } else {
            i = i + 1;
        }
    }
    proof {
        assert(sc == Some(crate::polyline::views(out@)));
    }
    Some(out)
}

/// Parse the whole input text into its path list, in source order;
/// `None` reports a malformed numeric literal (fatal, no partial
/// result).
pub fn parse(dxf_contents: &str) -> (r: Option<Vec<PolyLine>>)
    ensures
        (r matches Some(v) ==> spec_parse(dxf_contents@) == Some(crate::polyline::views(v@))
            && forall|j: int| 0 <= j < v@.len()
                ==> crate::polyline::wf_path(#[trigger] v@[j].view_of())),
        r is None ==> spec_parse(dxf_contents@) is None,
{
    let pairs: Vec<Pair> = collect_pairs(dxf_contents);
    convert(&pairs)
}

} // verus!
