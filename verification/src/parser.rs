//! The query parser: a recursive-descent reading of the grammar, specified
//! by spec-level parsing functions over `Seq<char>` and implemented by
//! executable functions proved equal to them.
//!
//! Each parsing function takes the input and a position and yields the
//! parsed shape with the position after it, or nothing on a mismatch.

use vstd::prelude::*;
use crate::ast::{
    Direction, Expr, MatchClause, NodePattern, Pattern, Query, ReadingClause, RelationshipPattern,
    ReturnClause, Union, SpecExpr, SpecMatchClause, SpecNodePattern, SpecPattern, SpecQuery,
    SpecRelPattern, SpecReturnClause, SpecUnion, SpecReadingClause, exprv, matchv, nodev, patternv,
    queryv, relv, returnv, unionv, EqualExpr, NotEqualExpr, LessExpr, LessEqualExpr, GreaterExpr,
    GreaterEqualExpr, AndExpr, OrExpr, XorExpr, NotExpr, AddExpr, SubExpr, MultExpr, DivExpr,
    PowerExpr, UnarySubExpr, PropertyLookup,
};
use crate::error::{Error, ErrorKind};
use crate::render::render_expr;
use crate::types::{spec_norm, Num};

verus! {

// ------------------------------------------------------------------
// Character classes
// ------------------------------------------------------------------

/// Whitespace between tokens.
pub open spec fn is_ws(c: char) -> bool {
    c == ' ' || c == '\t' || c == '\r' || c == '\n'
}

/// Characters a symbolic name is made of: ASCII letters, digits, the
/// underscore, and anything beyond ASCII.
pub open spec fn is_name_char(c: char) -> bool {
    ('0' <= c && c <= '9') || ('a' <= c && c <= 'z') || ('A' <= c && c <= 'Z') || c == '_' || (
    c as u32) > 127
}

/// A decimal digit.
pub open spec fn is_digit(c: char) -> bool {
    '0' <= c && c <= '9'
}

/// A hexadecimal digit.
pub open spec fn is_hex_digit(c: char) -> bool {
    ('0' <= c && c <= '9') || ('a' <= c && c <= 'f') || ('A' <= c && c <= 'F')
}

/// The value of a decimal digit.
pub open spec fn digit_val(c: char) -> nat {
    (c as nat - '0' as nat) as nat
}

/// The value of a hexadecimal digit.
pub open spec fn hex_val(c: char) -> nat {
    if '0' <= c && c <= '9' {
        (c as nat - '0' as nat) as nat
    } else if 'a' <= c && c <= 'f' {
        (c as nat - 'a' as nat + 10) as nat
    } else {
        (c as nat - 'A' as nat + 10) as nat
    }
}

/// Case-insensitive equality on ASCII letters; exact elsewhere.
pub open spec fn eq_nc(a: char, b: char) -> bool {
    a == b || ('A' <= a && a <= 'Z' && a as int + 32 == b as int) || ('A' <= b && b <= 'Z'
        && b as int + 32 == a as int)
}

// ------------------------------------------------------------------
// Scanners
// ------------------------------------------------------------------

/// The first position at or after `i` that does not hold whitespace.
pub open spec fn scan_ws(s: Seq<char>, i: int) -> int
    decreases s.len() - i,
{
    if 0 <= i < s.len() && is_ws(s[i]) {
        scan_ws(s, i + 1)
    } else {
        i
    }
}

/// The first position at or after `i` that does not hold a name character.
pub open spec fn scan_name(s: Seq<char>, i: int) -> int
    decreases s.len() - i,
{
    if 0 <= i < s.len() && is_name_char(s[i]) {
        scan_name(s, i + 1)
    } else {
        i
    }
}

/// The first position at or after `i` that does not hold a decimal digit.
pub open spec fn scan_digits(s: Seq<char>, i: int) -> int
    decreases s.len() - i,
{
    if 0 <= i < s.len() && is_digit(s[i]) {
        scan_digits(s, i + 1)
    } else {
        i
    }
}

/// The first position at or after `i` that does not hold a hex digit.
pub open spec fn scan_hex(s: Seq<char>, i: int) -> int
    decreases s.len() - i,
{
    if 0 <= i < s.len() && is_hex_digit(s[i]) {
        scan_hex(s, i + 1)
    } else {
        i
    }
}

/// The first position at or after `i` holding `q` (or the end).
pub open spec fn scan_until(s: Seq<char>, i: int, q: char) -> int
    decreases s.len() - i,
{
    if 0 <= i < s.len() && s[i] != q {
        scan_until(s, i + 1, q)
    } else {
        i
    }
}

/// Whether `t` occurs at `i` in `s`, ignoring ASCII case.
pub open spec fn has_tag_nc(s: Seq<char>, i: int, t: Seq<char>) -> bool {
    &&& 0 <= i
    &&& i + t.len() <= s.len()
    &&& forall|k: int| 0 <= k < t.len() ==> eq_nc(s[i + k], t[k])
}

/// Whether `t` occurs at `i` in `s` exactly.
pub open spec fn has_tag(s: Seq<char>, i: int, t: Seq<char>) -> bool {
    &&& 0 <= i
    &&& i + t.len() <= s.len()
    &&& s.subrange(i, i + t.len()) == t
}

// ------------------------------------------------------------------
// Executable scanners
// ------------------------------------------------------------------

/// Whether position `i` holds a whitespace character.
fn ws_at(s: &str, i: usize) -> (r: bool)
    ensures
        r == (i < s@.len() && is_ws(s@[i as int])),
{
    if i < s.unicode_len() {
        let c = s.get_char(i);
        c == ' ' || c == '\t' || c == '\r' || c == '\n'
    } else {
        false
    }
}

/// Whether position `i` holds a name character.
fn name_char_at(s: &str, i: usize) -> (r: bool)
    ensures
        r == (i < s@.len() && is_name_char(s@[i as int])),
{
    if i < s.unicode_len() {
        let c = s.get_char(i);
        ('0' <= c && c <= '9') || ('a' <= c && c <= 'z') || ('A' <= c && c <= 'Z') || c == '_' || (
        c as u32) > 127
    } else {
        false
    }
}

/// Whether position `i` holds a decimal digit.
fn digit_at(s: &str, i: usize) -> (r: bool)
    ensures
        r == (i < s@.len() && is_digit(s@[i as int])),
{
    if i < s.unicode_len() {
        let c = s.get_char(i);
        '0' <= c && c <= '9'
    } else {
        false
    }
}

/// Whether position `i` holds a hex digit.
fn hex_at(s: &str, i: usize) -> (r: bool)
    ensures
        r == (i < s@.len() && is_hex_digit(s@[i as int])),
{
    if i < s.unicode_len() {
        let c = s.get_char(i);
        ('0' <= c && c <= '9') || ('a' <= c && c <= 'f') || ('A' <= c && c <= 'F')
    } else {
        false
    }
}

/// Whether position `i` holds exactly the character `c`.
fn char_at(s: &str, i: usize, c: char) -> (r: bool)
    ensures
        r == (i < s@.len() && s@[i as int] == c),
{
    if i < s.unicode_len() {
        let got = s.get_char(i);
        got == c
    } else {
        false
    }
}

/// Skips whitespace from `pos`.
fn ws(s: &str, pos: usize) -> (r: usize)
    requires
        pos <= s@.len(),
    ensures
        r == scan_ws(s@, pos as int),
        pos <= r <= s@.len(),
{
    let n = s.unicode_len();
    let mut i: usize = pos;
    while ws_at(s, i)
        invariant
            n == s@.len(),
            pos <= i <= s@.len(),
            scan_ws(s@, i as int) == scan_ws(s@, pos as int),
        decreases s@.len() - i,
    {
        i = i + 1;
    }
    i
}

/// Scans name characters from `pos`.
fn name_end(s: &str, pos: usize) -> (r: usize)
    requires
        pos <= s@.len(),
    ensures
        r == scan_name(s@, pos as int),
        pos <= r <= s@.len(),
{
    let n = s.unicode_len();
    let mut i: usize = pos;
    while name_char_at(s, i)
        invariant
            n == s@.len(),
            pos <= i <= s@.len(),
            scan_name(s@, i as int) == scan_name(s@, pos as int),
        decreases s@.len() - i,
    {
        i = i + 1;
    }
    i
}

/// Scans decimal digits from `pos`.
fn digits_end(s: &str, pos: usize) -> (r: usize)
    requires
        pos <= s@.len(),
    ensures
        r == scan_digits(s@, pos as int),
        pos <= r <= s@.len(),
{
    let n = s.unicode_len();
    let mut i: usize = pos;
    while digit_at(s, i)
        invariant
            n == s@.len(),
            pos <= i <= s@.len(),
            scan_digits(s@, i as int) == scan_digits(s@, pos as int),
        decreases s@.len() - i,
    {
        i = i + 1;
    }
    i
}

/// Scans hex digits from `pos`.
fn hex_end(s: &str, pos: usize) -> (r: usize)
    requires
        pos <= s@.len(),
    ensures
        r == scan_hex(s@, pos as int),
        pos <= r <= s@.len(),
{
    let n = s.unicode_len();
    let mut i: usize = pos;
    while hex_at(s, i)
        invariant
            n == s@.len(),
            pos <= i <= s@.len(),
            scan_hex(s@, i as int) == scan_hex(s@, pos as int),
        decreases s@.len() - i,
    {
        i = i + 1;
    }
    i
}

/// Scans up to the next occurrence of `q` from `pos`.
fn until_end(s: &str, pos: usize, q: char) -> (r: usize)
    requires
        pos <= s@.len(),
    ensures
        r == scan_until(s@, pos as int, q),
        pos <= r <= s@.len(),
{
    let mut i: usize = pos;
    let n = s.unicode_len();
    while i < n && !char_at(s, i, q)
        invariant
            pos <= i <= s@.len(),
            n == s@.len(),
            scan_until(s@, i as int, q) == scan_until(s@, pos as int, q),
        decreases s@.len() - i,
    {
        i = i + 1;
    }
    i
}

/// Case-insensitive equality of two characters.
fn eq_nc_exec(a: char, b: char) -> (r: bool)
    ensures
        r == eq_nc(a, b),
{
    a == b || ('A' <= a && a <= 'Z' && (a as u32) + 32 == (b as u32)) || ('A' <= b && b <= 'Z' && (b
        as u32) + 32 == (a as u32))
}

/// Whether `t` occurs at `pos` in `s`, ignoring ASCII case.
fn tag_nc_at(s: &str, pos: usize, t: &str) -> (r: bool)
    requires
        pos <= s@.len(),
    ensures
        r == has_tag_nc(s@, pos as int, t@),
{
    let tn = t.unicode_len();
    let n = s.unicode_len();
    if tn > n - pos || pos > n {
        return false;
    }
    let mut k: usize = 0;
    while k < tn
        invariant
            n == s@.len(),
            pos + tn <= n,
            tn == t@.len(),
            k <= tn,
            forall|j: int| 0 <= j < k ==> eq_nc(s@[pos + j], t@[j]),
        decreases tn - k,
    {
        let a = s.get_char(pos + k);
        let b = t.get_char(k);
        if !eq_nc_exec(a, b) {
            return false;
        }
        k = k + 1;
    }
    true
}

/// Whether `t` occurs at `pos` in `s` exactly.
fn tag_at(s: &str, pos: usize, t: &str) -> (r: bool)
    requires
        pos <= s@.len(),
    ensures
        r == has_tag(s@, pos as int, t@),
{
    let tn = t.unicode_len();
    let n = s.unicode_len();
    if tn > n - pos || pos > n {
        proof {
            assert(!has_tag(s@, pos as int, t@));
        }
        return false;
    }
    let mut k: usize = 0;
    while k < tn
        invariant
            n == s@.len(),
            pos + tn <= n,
            tn == t@.len(),
            k <= tn,
            forall|j: int| 0 <= j < k ==> s@[pos + j] == t@[j],
        decreases tn - k,
    {
        let a = s.get_char(pos + k);
        let b = t.get_char(k);
        if a != b {
            proof {
                assert(s@.subrange(pos as int, pos + t@.len())[k as int] != t@[k as int]);
            }
            return false;
        }
        k = k + 1;
    }
    proof {
        assert(s@.subrange(pos as int, pos + t@.len()) =~= t@);
    }
    true
}

/// The substring `[from, to)` as an owned string.
fn take_range(s: &str, from: usize, to: usize) -> (r: String)
    requires
        from <= to <= s@.len(),
    ensures
        r@ == s@.subrange(from as int, to as int),
{
    let piece = s.substring_char(from, to);
    String::from_str(piece)
}

// ------------------------------------------------------------------
// Number and string literals
// ------------------------------------------------------------------

/// Ten to the `k`.
pub open spec fn pow10(k: nat) -> nat
    decreases k,
{
    if k == 0 {
        1
    } else {
        10 * pow10((k - 1) as nat)
    }
}

/// Sixteen to the `k`.
pub open spec fn pow16(k: nat) -> nat
    decreases k,
{
    if k == 0 {
        1
    } else {
        16 * pow16((k - 1) as nat)
    }
}

/// The value of a run of decimal digit characters.
pub open spec fn digits_val(s: Seq<char>) -> nat
    decreases s.len(),
{
    if s.len() == 0 {
        0
    } else {
        digits_val(s.drop_last()) * 10 + digit_val(s.last())
    }
}

/// The value of a run of hex digit characters.
pub open spec fn hex_digits_val(s: Seq<char>) -> nat
    decreases s.len(),
{
    if s.len() == 0 {
        0
    } else {
        hex_digits_val(s.drop_last()) * 16 + hex_val(s.last())
    }
}

/// A run of digits is bounded by ten to its length.
pub proof fn lemma_digits_val_bound(s: Seq<char>)
    requires
        forall|k: int| 0 <= k < s.len() ==> is_digit(s[k]),
    ensures
        digits_val(s) < pow10(s.len()),
    decreases s.len(),
{
    if s.len() > 0 {
        lemma_digits_val_bound(s.drop_last());
        assert(digit_val(s.last()) <= 9);
    }
}

/// Splitting a digit run: the left part is shifted by the right's length.
pub proof fn lemma_digits_val_append(a: Seq<char>, b: Seq<char>)
    ensures
        digits_val(a + b) == digits_val(a) * pow10(b.len()) + digits_val(b),
    decreases b.len(),
{
    if b.len() == 0 {
        assert(a + b =~= a);
        assert(pow10(b.len()) == 1);
        assert(digits_val(b) == 0);
        assert(digits_val(a) * pow10(b.len()) == digits_val(a)) by (nonlinear_arith)
            requires
                pow10(b.len()) == 1,
        ;
    } else {
        lemma_digits_val_append(a, b.drop_last());
        assert((a + b).drop_last() =~= a + b.drop_last());
        assert((a + b).last() == b.last());
        let x = digits_val(a);
        let p = pow10((b.len() - 1) as nat);
        let y = digits_val(b.drop_last());
        let d = digit_val(b.last());
        assert(pow10(b.len()) == 10 * p);
        assert(digits_val(a + b) == (x * p + y) * 10 + d);
        assert((x * p + y) * 10 + d == x * (10 * p) + (y * 10 + d)) by (nonlinear_arith);
        assert(x * (10 * p) == x * pow10(b.len())) by (nonlinear_arith)
            requires
                pow10(b.len()) == 10 * p,
        ;
        assert(digits_val(b) == y * 10 + d);
        assert(digits_val(a + b) == x * pow10(b.len()) + digits_val(b));
    }
}

/// Everything scanned by `scan_digits` is a digit.
pub proof fn lemma_scan_digits_chars(s: Seq<char>, i: int)
    requires
        0 <= i <= s.len(),
    ensures
        forall|k: int| i <= k < scan_digits(s, i) ==> is_digit(s[k]),
    decreases s.len() - i,
{
    if i < s.len() && is_digit(s[i]) {
        lemma_scan_digits_chars(s, i + 1);
    }
}

/// Everything scanned by `scan_hex` is a hex digit.
pub proof fn lemma_scan_hex_chars(s: Seq<char>, i: int)
    requires
        0 <= i <= s.len(),
    ensures
        forall|k: int| i <= k < scan_hex(s, i) ==> is_hex_digit(s[k]),
    decreases s.len() - i,
{
    if i < s.len() && is_hex_digit(s[i]) {
        lemma_scan_hex_chars(s, i + 1);
    }
}

/// `scan_until` stops on the sought character or the end.
pub proof fn lemma_scan_until_hit(s: Seq<char>, i: int, q: char)
    requires
        0 <= i <= s.len(),
    ensures
        scan_until(s, i, q) == s.len() || s[scan_until(s, i, q)] == q,
    decreases s.len() - i,
{
    if i < s.len() && s[i] != q {
        lemma_scan_until_hit(s, i + 1, q);
    }
}

/// A parsed decimal literal: an integer part, optionally `.` and a
/// fraction, at most nineteen digits in all, normalized.
pub open spec fn sp_decimal(s: Seq<char>, i: int) -> Option<(Num, int)> {
    let j = scan_digits(s, i);
    if i < j {
        if j < s.len() && s[j] == '.' && scan_digits(s, j + 1) > j + 1 {
            let frac_end = scan_digits(s, j + 1);
            let digits = s.subrange(i, j) + s.subrange(j + 1, frac_end);
            if digits.len() <= 19 {
                Some((spec_norm(false, digits_val(digits), (frac_end - j - 1) as nat), frac_end))
            } else {
                None
            }
        } else {
            let digits = s.subrange(i, j);
            if digits.len() <= 19 {
                Some((spec_norm(false, digits_val(digits), 0), j))
            } else {
                None
            }
        }
    } else {
        None
    }
}

/// A parsed number literal: a hex integer under a `0x` prefix (at most
/// sixteen digits, fitting a signed machine integer), else a decimal.
pub open spec fn sp_number(s: Seq<char>, i: int) -> Option<(Num, int)> {
    if has_tag_nc(s, i, "0x"@) && scan_hex(s, i + 2) > i + 2 {
        let j = scan_hex(s, i + 2);
        let digits = s.subrange(i + 2, j);
        if digits.len() <= 16 && hex_digits_val(digits) <= i64::MAX {
            Some((Num { neg: false, mant: hex_digits_val(digits) as u64, scale: 0 }, j))
        } else {
            None
        }
    } else {
        sp_decimal(s, i)
    }
}

/// A parsed string literal: the characters between a pair of double or
/// single quotes, with no escape processing.
pub open spec fn sp_string(s: Seq<char>, i: int) -> Option<(Seq<char>, int)> {
    if 0 <= i < s.len() && s[i] == '"' {
        let j = scan_until(s, i + 1, '"');
        if j < s.len() {
            Some((s.subrange(i + 1, j), j + 1))
        } else {
            None
        }
    } else if 0 <= i < s.len() && s[i] == '\'' {
        let j = scan_until(s, i + 1, '\'');
        if j < s.len() {
            Some((s.subrange(i + 1, j), j + 1))
        } else {
            None
        }
    } else {
        None
    }
}

/// A parsed boolean literal: `true` or `false`, any case, not running
/// into a longer name.
pub open spec fn sp_bool(s: Seq<char>, i: int) -> Option<(bool, int)> {
    if has_tag_nc(s, i, "true"@) && !(i + 4 < s.len() && is_name_char(s[i + 4])) {
        Some((true, i + 4))
    } else if has_tag_nc(s, i, "false"@) && !(i + 5 < s.len() && is_name_char(s[i + 5])) {
        Some((false, i + 5))
    } else {
        None
    }
}

/// A parsed symbolic name: one or more name characters.
pub open spec fn sp_symbolic_name(s: Seq<char>, i: int) -> Option<(Seq<char>, int)> {
    let j = scan_name(s, i);
    if 0 <= i < j {
        Some((s.subrange(i, j), j))
    } else {
        None
    }
}

/// Accumulates the value of the decimal digits in `[from, to)`.
fn dec_accum(s: &str, from: usize, to: usize) -> (r: u64)
    requires
        from <= to <= s@.len(),
        to - from <= 19,
        forall|k: int| from <= k < to ==> is_digit(s@[k]),
    ensures
        r as nat == digits_val(s@.subrange(from as int, to as int)),
        (r as nat) < pow10((to - from) as nat),
{
    proof {
        reveal_with_fuel(pow10, 21);
    }
    let mut acc: u64 = 0;
    let mut i: usize = from;
    proof {
        assert(s@.subrange(from as int, from as int) =~= Seq::<char>::empty());
    }
    while i < to
        invariant
            from <= i <= to <= s@.len(),
            to - from <= 19,
            forall|k: int| from <= k < to ==> is_digit(s@[k]),
            acc as nat == digits_val(s@.subrange(from as int, i as int)),
            (acc as nat) < pow10((i - from) as nat),
        decreases to - i,
    {
        proof {
            reveal_with_fuel(pow10, 21);
            assert(s@.subrange(from as int, i + 1).drop_last() =~= s@.subrange(
                from as int,
                i as int,
            ));
            assert(s@.subrange(from as int, i + 1).last() == s@[i as int]);
            assert(pow10((i - from) as nat) <= pow10(18)) by {
                lemma_pow10_mono((i - from) as nat, 18);
            }
        }
        let c = s.get_char(i);
        let d: u64 = (c as u32 as u64) - 48;
        acc = acc * 10 + d;
        i = i + 1;
    }
    proof {
        lemma_pow10_mono((to - from) as nat, 19);
    }
    acc
}

/// Ten to the `k` grows with `k`.
pub proof fn lemma_pow10_mono(a: nat, b: nat)
    requires
        a <= b,
    ensures
        pow10(a) <= pow10(b),
    decreases b,
{
    if a < b && b > 0 {
        lemma_pow10_mono(a, (b - 1) as nat);
        assert(pow10(b) == 10 * pow10((b - 1) as nat));
    }
}

/// Sixteen to the `k` grows with `k`.
pub proof fn lemma_pow16_mono(a: nat, b: nat)
    requires
        a <= b,
    ensures
        pow16(a) <= pow16(b),
    decreases b,
{
    if a < b && b > 0 {
        lemma_pow16_mono(a, (b - 1) as nat);
        assert(pow16(b) == 16 * pow16((b - 1) as nat));
    }
}

/// Accumulates the value of the hex digits in `[from, to)`.
fn hex_accum(s: &str, from: usize, to: usize) -> (r: u64)
    requires
        from <= to <= s@.len(),
        to - from <= 16,
        forall|k: int| from <= k < to ==> is_hex_digit(s@[k]),
    ensures
        r as nat == hex_digits_val(s@.subrange(from as int, to as int)),
        (r as nat) < pow16((to - from) as nat),
{
    proof {
        reveal_with_fuel(pow16, 18);
    }
    let mut acc: u64 = 0;
    let mut i: usize = from;
    proof {
        assert(s@.subrange(from as int, from as int) =~= Seq::<char>::empty());
    }
    while i < to
        invariant
            from <= i <= to <= s@.len(),
            to - from <= 16,
            forall|k: int| from <= k < to ==> is_hex_digit(s@[k]),
            acc as nat == hex_digits_val(s@.subrange(from as int, i as int)),
            (acc as nat) < pow16((i - from) as nat),
        decreases to - i,
    {
        proof {
            reveal_with_fuel(pow16, 18);
            assert(s@.subrange(from as int, i + 1).drop_last() =~= s@.subrange(
                from as int,
                i as int,
            ));
            assert(s@.subrange(from as int, i + 1).last() == s@[i as int]);
            assert(pow16((i - from) as nat) <= pow16(15)) by {
                lemma_pow16_mono((i - from) as nat, 15);
            }
        }
        let c = s.get_char(i);
        let d: u64 = if '0' <= c && c <= '9' {
            (c as u32 as u64) - 48
        } else if 'a' <= c && c <= 'f' {
            (c as u32 as u64) - 97 + 10
        } else {
            (c as u32 as u64) - 65 + 10
        };
        acc = acc * 16 + d;
        i = i + 1;
    }
    proof {
        lemma_pow16_mono((to - from) as nat, 16);
    }
    acc
}

/// Parses a number literal at `pos`.
#[verifier::rlimit(50)]
fn parse_number(s: &str, pos: usize) -> (r: Option<(Num, usize)>)
    requires
        pos <= s@.len(),
    ensures
        match r {
            Some((n, j)) => sp_number(s@, pos as int) == Some((n, j as int)) && pos <= j <= s@.len(),
            None => sp_number(s@, pos as int) is None,
        },
{
    let n = s.unicode_len();
    proof {
        reveal_strlit("0x");
    }
    if tag_nc_at(s, pos, "0x") {
        let h = hex_end(s, pos + 2);
        if h > pos + 2 {
            proof {
                lemma_scan_hex_chars(s@, pos + 2);
            }
            if h - (pos + 2) <= 16 {
                let v = hex_accum(s, pos + 2, h);
                proof {
                    reveal_with_fuel(pow16, 18);
                    lemma_pow16_mono((h - (pos + 2)) as nat, 16);
                }
                if v <= 0x7fff_ffff_ffff_ffffu64 {
                    return Some((Num { neg: false, mant: v, scale: 0 }, h));
                } else {
                    return None;
                }
            } else {
                proof {
                    assert(s@.subrange(pos + 2, scan_hex(s@, pos + 2)).len() > 16);
                }
                return None;
            }
        }
    }
    // Decimal literal.
    let j = digits_end(s, pos);
    if j == pos {
        return None;
    }
    proof {
        lemma_scan_digits_chars(s@, pos as int);
    }
    if char_at(s, j, '.') {
        let fe = digits_end(s, j + 1);
        if fe > j + 1 {
            proof {
                lemma_scan_digits_chars(s@, j + 1);
            }
            let ghost digits = s@.subrange(pos as int, j as int) + s@.subrange(j + 1, fe as int);
            if (j - pos) + (fe - j - 1) <= 19 {
                let v1 = dec_accum(s, pos, j);
                let v2 = dec_accum(s, j + 1, fe);
                let scale: u32 = (fe - j - 1) as u32;
                let shift = pow10_u64(scale);
                proof {
                    lemma_digits_val_append(
                        s@.subrange(pos as int, j as int),
                        s@.subrange(j + 1, fe as int),
                    );
                    assert(digits.len() == (j - pos) + (fe - j - 1));
                    lemma_digits_val_bound(digits);
                    lemma_pow10_mono(digits.len(), 19);
                    reveal_with_fuel(pow10, 21);
                    assert(v1 as nat * pow10((fe - j - 1) as nat) + v2 as nat == digits_val(digits));
                }
                let v = v1 * shift + v2;
                let m = Num::norm(false, v, scale);
                return Some((m, fe));
            } else {
                proof {
                    assert(digits.len() > 19);
                }
                return None;
            }
        }
    }
    if j - pos <= 19 {
        let v = dec_accum(s, pos, j);
        let m = Num::norm(false, v, 0);
        Some((m, j))
    } else {
        proof {
            assert(s@.subrange(pos as int, scan_digits(s@, pos as int)).len() > 19);
        }
        None
    }
}

/// Ten to the `k` as a machine integer, for small `k`.
fn pow10_u64(k: u32) -> (r: u64)
    requires
        k <= 19,
    ensures
        r as nat == pow10(k as nat),
{
    proof {
        reveal_with_fuel(pow10, 21);
    }
    let mut acc: u64 = 1;
    let mut i: u32 = 0;
    while i < k
        invariant
            i <= k <= 19,
            acc as nat == pow10(i as nat),
        decreases k - i,
    {
        proof {
            reveal_with_fuel(pow10, 21);
            lemma_pow10_mono(i as nat, 18);
            assert(pow10(18) < u64::MAX / 10) by {
                reveal_with_fuel(pow10, 21);
            }
        }
        acc = acc * 10;
        i = i + 1;
    }
    acc
}

/// Parses a string literal at `pos`.
fn parse_string(s: &str, pos: usize) -> (r: Option<(String, usize)>)
    requires
        pos <= s@.len(),
    ensures
        match r {
            Some((t, j)) => sp_string(s@, pos as int) == Some((t@, j as int)) && pos < j
                <= s@.len(),
            None => sp_string(s@, pos as int) is None,
        },
{
    let n = s.unicode_len();
    if char_at(s, pos, '"') {
        let j = until_end(s, pos + 1, '"');
        proof {
            lemma_scan_until_hit(s@, pos + 1, '"');
        }
        if char_at(s, j, '"') {
            let t = take_range(s, pos + 1, j);
            Some((t, j + 1))
        } else {
            None
        }
    } else if char_at(s, pos, '\'') {
        let j = until_end(s, pos + 1, '\'');
        proof {
            lemma_scan_until_hit(s@, pos + 1, '\'');
        }
        if char_at(s, j, '\'') {
            let t = take_range(s, pos + 1, j);
            Some((t, j + 1))
        } else {
            None
        }
    } else {
        None
    }
}

/// Parses a boolean literal at `pos`.
fn parse_bool(s: &str, pos: usize) -> (r: Option<(bool, usize)>)
    requires
        pos <= s@.len(),
    ensures
        match r {
            Some((b, j)) => sp_bool(s@, pos as int) == Some((b, j as int)) && pos < j <= s@.len(),
            None => sp_bool(s@, pos as int) is None,
        },
{
    let n = s.unicode_len();
    proof {
        reveal_strlit("true");
        reveal_strlit("false");
    }
    if tag_nc_at(s, pos, "true") && !name_char_at(s, pos + 4) {
        Some((true, pos + 4))
    } else if tag_nc_at(s, pos, "false") && !name_char_at(s, pos + 5) {
        Some((false, pos + 5))
    } else {
        None
    }
}

/// Parses a symbolic name at `pos`.
fn parse_symbolic_name(s: &str, pos: usize) -> (r: Option<(String, usize)>)
    requires
        pos <= s@.len(),
    ensures
        match r {
            Some((t, j)) => sp_symbolic_name(s@, pos as int) == Some((t@, j as int)) && pos < j
                <= s@.len(),
            None => sp_symbolic_name(s@, pos as int) is None,
        },
{
    let j = name_end(s, pos);
    if j > pos {
        let t = take_range(s, pos, j);
        Some((t, j))
    } else {
        None
    }
}

// ------------------------------------------------------------------
// Expression grammar, tightest binding first
// ------------------------------------------------------------------

/// An atom: a number, string or boolean literal, else a variable.
pub open spec fn sp_atom(s: Seq<char>, i: int) -> Option<(SpecExpr, int)> {
    match sp_number(s, i) {
        Some((n, j)) => Some((SpecExpr::Number(n), j)),
        None => match sp_string(s, i) {
            Some((t, j)) => Some((SpecExpr::Str(t), j)),
            None => match sp_bool(s, i) {
                Some((b, j)) => Some((SpecExpr::Boolean(b), j)),
                None => match sp_symbolic_name(s, i) {
                    Some((nm, j)) => Some((SpecExpr::Variable(nm), j)),
                    None => None,
                },
            },
        },
    }
}

/// An atom, optionally followed by one `.property` lookup.
pub open spec fn sp_lookup(s: Seq<char>, i: int) -> Option<(SpecExpr, int)> {
    match sp_atom(s, i) {
        None => None,
        Some((a, j)) => {
            let j2 = scan_ws(s, j);
            if 0 <= j2 < s.len() && s[j2] == '.' {
                let j3 = scan_ws(s, j2 + 1);
                match sp_symbolic_name(s, j3) {
                    Some((nm, k)) => Some((SpecExpr::Lookup(Box::new(a), nm), k)),
                    None => Some((a, j)),
                }
            } else {
                Some((a, j))
            }
        },
    }
}

/// An optional unary sign over a lookup.
pub open spec fn sp_unary(s: Seq<char>, i: int) -> Option<(SpecExpr, int)> {
    if 0 <= i < s.len() && (s[i] == '+' || s[i] == '-') {
        let j = scan_ws(s, i + 1);
        match sp_lookup(s, j) {
            Some((c, k)) => Some((SpecExpr::UnarySub(Box::new(c)), k)),
            None => None,
        }
    } else {
        sp_lookup(s, i)
    }
}

/// A power expression: a unary, optionally `^` and a second unary.
pub open spec fn sp_pow(s: Seq<char>, i: int) -> Option<(SpecExpr, int)> {
    match sp_unary(s, i) {
        None => None,
        Some((l, j)) => {
            let j2 = scan_ws(s, j);
            if 0 <= j2 < s.len() && s[j2] == '^' {
                let j3 = scan_ws(s, j2 + 1);
                match sp_unary(s, j3) {
                    Some((r, k)) => Some((SpecExpr::Power(Box::new(l), Box::new(r)), k)),
                    None => Some((l, j)),
                }
            } else {
                Some((l, j))
            }
        },
    }
}

/// A multiplicative expression: a power, optionally `*` or `/` and a
/// second power.
pub open spec fn sp_mul(s: Seq<char>, i: int) -> Option<(SpecExpr, int)> {
    match sp_pow(s, i) {
        None => None,
        Some((l, j)) => {
            let j2 = scan_ws(s, j);
            if 0 <= j2 < s.len() && (s[j2] == '*' || s[j2] == '/') {
                let j3 = scan_ws(s, j2 + 1);
                match sp_pow(s, j3) {
                    Some((r, k)) => if s[j2] == '*' {
                        Some((SpecExpr::Mult(Box::new(l), Box::new(r)), k))
                    } else {
                        Some((SpecExpr::Div(Box::new(l), Box::new(r)), k))
                    },
                    None => Some((l, j)),
                }
            } else {
                Some((l, j))
            }
        },
    }
}

/// An additive expression: a multiplicative, optionally `+` or `-` and a
/// second multiplicative.
pub open spec fn sp_add(s: Seq<char>, i: int) -> Option<(SpecExpr, int)> {
    match sp_mul(s, i) {
        None => None,
        Some((l, j)) => {
            let j2 = scan_ws(s, j);
            if 0 <= j2 < s.len() && (s[j2] == '+' || s[j2] == '-') {
                let j3 = scan_ws(s, j2 + 1);
                match sp_mul(s, j3) {
                    Some((r, k)) => if s[j2] == '+' {
                        Some((SpecExpr::Add(Box::new(l), Box::new(r)), k))
                    } else {
                        Some((SpecExpr::Sub(Box::new(l), Box::new(r)), k))
                    },
                    None => Some((l, j)),
                }
            } else {
                Some((l, j))
            }
        },
    }
}

/// A comparison operator.
pub enum CompOp {
    Eq,
    Ne,
    Lt,
    Le,
    Gt,
    Ge,
}

/// The comparison operator at `j`, two-character forms first.
pub open spec fn sp_comp_op(s: Seq<char>, j: int) -> Option<(CompOp, int)> {
    if has_tag(s, j, "!="@) {
        Some((CompOp::Ne, j + 2))
    } else if has_tag(s, j, "<="@) {
        Some((CompOp::Le, j + 2))
    } else if has_tag(s, j, ">="@) {
        Some((CompOp::Ge, j + 2))
    } else if has_tag(s, j, "="@) {
        Some((CompOp::Eq, j + 1))
    } else if has_tag(s, j, "<"@) {
        Some((CompOp::Lt, j + 1))
    } else if has_tag(s, j, ">"@) {
        Some((CompOp::Gt, j + 1))
    } else {
        None
    }
}

/// The comparison node for an operator and its sides.
pub open spec fn mk_comp(op: CompOp, l: SpecExpr, r: SpecExpr) -> SpecExpr {
    match op {
        CompOp::Eq => SpecExpr::Equal(Box::new(l), Box::new(r)),
        CompOp::Ne => SpecExpr::NotEqual(Box::new(l), Box::new(r)),
        CompOp::Lt => SpecExpr::Less(Box::new(l), Box::new(r)),
        CompOp::Le => SpecExpr::LessEqual(Box::new(l), Box::new(r)),
        CompOp::Gt => SpecExpr::Greater(Box::new(l), Box::new(r)),
        CompOp::Ge => SpecExpr::GreaterEqual(Box::new(l), Box::new(r)),
    }
}

/// A comparison: an additive, optionally an operator and a second
/// additive.
pub open spec fn sp_comp(s: Seq<char>, i: int) -> Option<(SpecExpr, int)> {
    match sp_add(s, i) {
        None => None,
        Some((l, j)) => {
            let j2 = scan_ws(s, j);
            match sp_comp_op(s, j2) {
                None => Some((l, j)),
                Some((op, j3)) => {
                    let j4 = scan_ws(s, j3);
                    match sp_add(s, j4) {
                        Some((r, k)) => Some((mk_comp(op, l, r), k)),
                        None => Some((l, j)),
                    }
                },
            }
        },
    }
}

/// An optional `NOT` over a comparison; the keyword needs following
/// whitespace, else it reads as a name.
pub open spec fn sp_not(s: Seq<char>, i: int) -> Option<(SpecExpr, int)> {
    if has_tag_nc(s, i, "NOT"@) && scan_ws(s, i + 3) > i + 3 {
        match sp_comp(s, scan_ws(s, i + 3)) {
            Some((c, k)) => Some((SpecExpr::Not(Box::new(c)), k)),
            None => None,
        }
    } else {
        sp_comp(s, i)
    }
}

/// The position after a whitespace-delimited keyword following `j`, if
/// it is there: whitespace, the keyword, whitespace.
pub open spec fn sp_kw_tail(s: Seq<char>, j: int, kw: Seq<char>) -> Option<int> {
    let j2 = scan_ws(s, j);
    if j2 > j && has_tag_nc(s, j2, kw) && scan_ws(s, j2 + kw.len()) > j2 + kw.len() {
        Some(scan_ws(s, j2 + kw.len()))
    } else {
        None
    }
}

/// A conjunction: a `NOT` level, optionally `AND` and a second one.
pub open spec fn sp_and(s: Seq<char>, i: int) -> Option<(SpecExpr, int)> {
    match sp_not(s, i) {
        None => None,
        Some((l, j)) => match sp_kw_tail(s, j, "AND"@) {
            None => Some((l, j)),
            Some(j3) => match sp_not(s, j3) {
                Some((r, k)) => Some((SpecExpr::And(Box::new(l), Box::new(r)), k)),
                None => Some((l, j)),
            },
        },
    }
}

/// An exclusive disjunction: a conjunction, optionally `XOR` and a
/// second one.
pub open spec fn sp_xor(s: Seq<char>, i: int) -> Option<(SpecExpr, int)> {
    match sp_and(s, i) {
        None => None,
        Some((l, j)) => match sp_kw_tail(s, j, "XOR"@) {
            None => Some((l, j)),
            Some(j3) => match sp_and(s, j3) {
                Some((r, k)) => Some((SpecExpr::Xor(Box::new(l), Box::new(r)), k)),
                None => Some((l, j)),
            },
        },
    }
}

/// A disjunction: an exclusive disjunction, optionally `OR` and a
/// second one. The loosest level: a whole expression.
#[verifier::opaque]
pub open spec fn sp_expr(s: Seq<char>, i: int) -> Option<(SpecExpr, int)> {
    match sp_xor(s, i) {
        None => None,
        Some((l, j)) => match sp_kw_tail(s, j, "OR"@) {
            None => Some((l, j)),
            Some(j3) => match sp_xor(s, j3) {
                Some((r, k)) => Some((SpecExpr::Or(Box::new(l), Box::new(r)), k)),
                None => Some((l, j)),
            },
        },
    }
}

/// Parses an atom at `pos`.
fn parse_atom(s: &str, pos: usize) -> (r: Option<(Expr, usize)>)
    requires
        pos <= s@.len(),
    ensures
        match r {
            Some((e, j)) => sp_atom(s@, pos as int) == Some((exprv(e), j as int)) && pos <= j
                <= s@.len(),
            None => sp_atom(s@, pos as int) is None,
        },
{
    match parse_number(s, pos) {
        Some((n, j)) => Some((Expr::NumberLit(n), j)),
        None => match parse_string(s, pos) {
            Some((t, j)) => Some((Expr::StringLit(t), j)),
            None => match parse_bool(s, pos) {
                Some((b, j)) => Some((Expr::BooleanLit(b), j)),
                None => match parse_symbolic_name(s, pos) {
                    Some((t, j)) => Some((Expr::Variable(t), j)),
                    None => None,
                },
            },
        },
    }
}

/// Parses a lookup level at `pos`.
fn parse_lookup(s: &str, pos: usize) -> (r: Option<(Expr, usize)>)
    requires
        pos <= s@.len(),
    ensures
        match r {
            Some((e, j)) => sp_lookup(s@, pos as int) == Some((exprv(e), j as int)) && pos <= j
                <= s@.len(),
            None => sp_lookup(s@, pos as int) is None,
        },
{
    let n = s.unicode_len();
    match parse_atom(s, pos) {
        None => None,
        Some((a, j)) => {
            let j2 = ws(s, j);
            if char_at(s, j2, '.') {
                let j3 = ws(s, j2 + 1);
                match parse_symbolic_name(s, j3) {
                    Some((nm, k)) => Some((
                        Expr::PropertyLookup(PropertyLookup { child: Box::new(a), prop_name: nm }),
                        k,
                    )),
                    None => Some((a, j)),
                }
            } else {
                Some((a, j))
            }
        },
    }
}

/// Parses a unary level at `pos`.
fn parse_unary(s: &str, pos: usize) -> (r: Option<(Expr, usize)>)
    requires
        pos <= s@.len(),
    ensures
        match r {
            Some((e, j)) => sp_unary(s@, pos as int) == Some((exprv(e), j as int)) && pos <= j
                <= s@.len(),
            None => sp_unary(s@, pos as int) is None,
        },
{
    let n = s.unicode_len();
    if char_at(s, pos, '+') || char_at(s, pos, '-') {
        let j = ws(s, pos + 1);
        match parse_lookup(s, j) {
            Some((c, k)) => Some((Expr::UnarySubExpr(UnarySubExpr { child: Box::new(c) }), k)),
            None => None,
        }
    } else {
        parse_lookup(s, pos)
    }
}

/// Parses a power level at `pos`.
fn parse_pow(s: &str, pos: usize) -> (r: Option<(Expr, usize)>)
    requires
        pos <= s@.len(),
    ensures
        match r {
            Some((e, j)) => sp_pow(s@, pos as int) == Some((exprv(e), j as int)) && pos <= j
                <= s@.len(),
            None => sp_pow(s@, pos as int) is None,
        },
{
    let n = s.unicode_len();
    match parse_unary(s, pos) {
        None => None,
        Some((l, j)) => {
            let j2 = ws(s, j);
            if char_at(s, j2, '^') {
                let j3 = ws(s, j2 + 1);
                match parse_unary(s, j3) {
                    Some((r2, k)) => Some((
                        Expr::PowerExpr(PowerExpr { lhs: Box::new(l), rhs: Box::new(r2) }),
                        k,
                    )),
                    None => Some((l, j)),
                }
            } else {
                Some((l, j))
            }
        },
    }
}

/// Parses a multiplicative level at `pos`.
fn parse_mul(s: &str, pos: usize) -> (r: Option<(Expr, usize)>)
    requires
        pos <= s@.len(),
    ensures
        match r {
            Some((e, j)) => sp_mul(s@, pos as int) == Some((exprv(e), j as int)) && pos <= j
                <= s@.len(),
            None => sp_mul(s@, pos as int) is None,
        },
{
    let n = s.unicode_len();
    match parse_pow(s, pos) {
        None => None,
        Some((l, j)) => {
            let j2 = ws(s, j);
            let star = char_at(s, j2, '*');
            if star || char_at(s, j2, '/') {
                let j3 = ws(s, j2 + 1);
                match parse_pow(s, j3) {
                    Some((r2, k)) => if star {
                        Some((Expr::MultExpr(MultExpr { lhs: Box::new(l), rhs: Box::new(r2) }), k))
                    } else {
                        Some((Expr::DivExpr(DivExpr { lhs: Box::new(l), rhs: Box::new(r2) }), k))
                    },
                    None => Some((l, j)),
                }
            } else {
                Some((l, j))
            }
        },
    }
}

/// Parses an additive level at `pos`.
fn parse_add(s: &str, pos: usize) -> (r: Option<(Expr, usize)>)
    requires
        pos <= s@.len(),
    ensures
        match r {
            Some((e, j)) => sp_add(s@, pos as int) == Some((exprv(e), j as int)) && pos <= j
                <= s@.len(),
            None => sp_add(s@, pos as int) is None,
        },
{
    let n = s.unicode_len();
    match parse_mul(s, pos) {
        None => None,
        Some((l, j)) => {
            let j2 = ws(s, j);
            let plus = char_at(s, j2, '+');
            if plus || char_at(s, j2, '-') {
                let j3 = ws(s, j2 + 1);
                match parse_mul(s, j3) {
                    Some((r2, k)) => if plus {
                        Some((Expr::AddExpr(AddExpr { lhs: Box::new(l), rhs: Box::new(r2) }), k))
                    } else {
                        Some((Expr::SubExpr(SubExpr { lhs: Box::new(l), rhs: Box::new(r2) }), k))
                    },
                    None => Some((l, j)),
                }
            } else {
                Some((l, j))
            }
        },
    }
}

/// Reads the comparison operator at `pos`, if any.
fn parse_comp_op(s: &str, pos: usize) -> (r: Option<(CompOp, usize)>)
    requires
        pos <= s@.len(),
    ensures
        match r {
            Some((op, j)) => sp_comp_op(s@, pos as int) == Some((op, j as int)) && pos < j
                <= s@.len(),
            None => sp_comp_op(s@, pos as int) is None,
        },
{
    let n = s.unicode_len();
    proof {
        reveal_strlit("!=");
        reveal_strlit("<=");
        reveal_strlit(">=");
        reveal_strlit("=");
        reveal_strlit("<");
        reveal_strlit(">");
    }
    if tag_at(s, pos, "!=") {
        Some((CompOp::Ne, pos + 2))
    } else if tag_at(s, pos, "<=") {
        Some((CompOp::Le, pos + 2))
    } else if tag_at(s, pos, ">=") {
        Some((CompOp::Ge, pos + 2))
    } else if tag_at(s, pos, "=") {
        Some((CompOp::Eq, pos + 1))
    } else if tag_at(s, pos, "<") {
        Some((CompOp::Lt, pos + 1))
    } else if tag_at(s, pos, ">") {
        Some((CompOp::Gt, pos + 1))
    } else {
        None
    }
}

/// Parses a comparison level at `pos`.
fn parse_comp(s: &str, pos: usize) -> (r: Option<(Expr, usize)>)
    requires
        pos <= s@.len(),
    ensures
        match r {
            Some((e, j)) => sp_comp(s@, pos as int) == Some((exprv(e), j as int)) && pos <= j
                <= s@.len(),
            None => sp_comp(s@, pos as int) is None,
        },
{
    match parse_add(s, pos) {
        None => None,
        Some((l, j)) => {
            let j2 = ws(s, j);
            match parse_comp_op(s, j2) {
                None => Some((l, j)),
                Some((op, j3)) => {
                    let j4 = ws(s, j3);
                    match parse_add(s, j4) {
                        Some((r2, k)) => {
                            let node = match op {
                                CompOp::Eq => Expr::EqualExpr(
                                    EqualExpr { lhs: Box::new(l), rhs: Box::new(r2) },
                                ),
                                CompOp::Ne => Expr::NotEqualExpr(
                                    NotEqualExpr { lhs: Box::new(l), rhs: Box::new(r2) },
                                ),
                                CompOp::Lt => Expr::LessExpr(
                                    LessExpr { lhs: Box::new(l), rhs: Box::new(r2) },
                                ),
                                CompOp::Le => Expr::LessEqualExpr(
                                    LessEqualExpr { lhs: Box::new(l), rhs: Box::new(r2) },
                                ),
                                CompOp::Gt => Expr::GreaterExpr(
                                    GreaterExpr { lhs: Box::new(l), rhs: Box::new(r2) },
                                ),
                                CompOp::Ge => Expr::GreaterEqualExpr(
                                    GreaterEqualExpr { lhs: Box::new(l), rhs: Box::new(r2) },
                                ),
                            };
                            Some((node, k))
                        },
                        None => Some((l, j)),
                    }
                },
            }
        },
    }
}

/// Parses a `NOT` level at `pos`.
fn parse_not(s: &str, pos: usize) -> (r: Option<(Expr, usize)>)
    requires
        pos <= s@.len(),
    ensures
        match r {
            Some((e, j)) => sp_not(s@, pos as int) == Some((exprv(e), j as int)) && pos <= j
                <= s@.len(),
            None => sp_not(s@, pos as int) is None,
        },
{
    let n = s.unicode_len();
    proof {
        reveal_strlit("NOT");
    }
    if tag_nc_at(s, pos, "NOT") {
        let j = ws(s, pos + 3);
        if j > pos + 3 {
            return match parse_comp(s, j) {
                Some((c, k)) => Some((Expr::NotExpr(NotExpr { child: Box::new(c) }), k)),
                None => None,
            };
        }
    }
    parse_comp(s, pos)
}

/// When `kw` follows `pos` between whitespace, the position after; the
/// keyword is matched case-insensitively.
fn kw_tail(s: &str, pos: usize, kw: &str) -> (r: Option<usize>)
    requires
        pos <= s@.len(),
    ensures
        match r {
            Some(j3) => sp_kw_tail(s@, pos as int, kw@) == Some(j3 as int) && pos < j3 <= s@.len(),
            None => sp_kw_tail(s@, pos as int, kw@) is None,
        },
{
    let n = s.unicode_len();
    let j2 = ws(s, pos);
    if j2 > pos && tag_nc_at(s, j2, kw) {
        let klen = kw.unicode_len();
        let j3 = ws(s, j2 + klen);
        if j3 > j2 + klen {
            return Some(j3);
        }
    }
    None
}

/// Parses a conjunction level at `pos`.
fn parse_and(s: &str, pos: usize) -> (r: Option<(Expr, usize)>)
    requires
        pos <= s@.len(),
    ensures
        match r {
            Some((e, j)) => sp_and(s@, pos as int) == Some((exprv(e), j as int)) && pos <= j
                <= s@.len(),
            None => sp_and(s@, pos as int) is None,
        },
{
    match parse_not(s, pos) {
        None => None,
        Some((l, j)) => match kw_tail(s, j, "AND") {
            None => Some((l, j)),
            Some(j3) => match parse_not(s, j3) {
                Some((r2, k)) => Some((
                    Expr::AndExpr(AndExpr { lhs: Box::new(l), rhs: Box::new(r2) }),
                    k,
                )),
                None => Some((l, j)),
            },
        },
    }
}

/// Parses an exclusive-disjunction level at `pos`.
fn parse_xor(s: &str, pos: usize) -> (r: Option<(Expr, usize)>)
    requires
        pos <= s@.len(),
    ensures
        match r {
            Some((e, j)) => sp_xor(s@, pos as int) == Some((exprv(e), j as int)) && pos <= j
                <= s@.len(),
            None => sp_xor(s@, pos as int) is None,
        },
{
    match parse_and(s, pos) {
        None => None,
        Some((l, j)) => match kw_tail(s, j, "XOR") {
            None => Some((l, j)),
            Some(j3) => match parse_and(s, j3) {
                Some((r2, k)) => Some((
                    Expr::XorExpr(XorExpr { lhs: Box::new(l), rhs: Box::new(r2) }),
                    k,
                )),
                None => Some((l, j)),
            },
        },
    }
}

/// Parses a whole expression at `pos`.
pub fn parse_expression(s: &str, pos: usize) -> (r: Option<(Expr, usize)>)
    requires
        pos <= s@.len(),
    ensures
        match r {
            Some((e, j)) => sp_expr(s@, pos as int) == Some((exprv(e), j as int)) && pos <= j
                <= s@.len(),
            None => sp_expr(s@, pos as int) is None,
        },
{
    proof {
        reveal(sp_expr);
    }
    match parse_xor(s, pos) {
        None => None,
        Some((l, j)) => match kw_tail(s, j, "OR") {
            None => Some((l, j)),
            Some(j3) => match parse_xor(s, j3) {
                Some((r2, k)) => Some((
                    Expr::OrExpr(OrExpr { lhs: Box::new(l), rhs: Box::new(r2) }),
                    k,
                )),
                None => Some((l, j)),
            },
        },
    }
}

// ------------------------------------------------------------------
// Patterns and clauses
// ------------------------------------------------------------------

/// A run of `:Name` labels, as many as are there.
pub open spec fn sp_labels(s: Seq<char>, i: int) -> (Seq<Seq<char>>, int)
    decreases s.len() - i,
{
    if 0 <= i < s.len() && s[i] == ':' {
        let j = scan_name(s, i + 1);
        if i + 1 < j <= s.len() {
            let (rest, end) = sp_labels(s, j);
            (seq![s.subrange(i + 1, j)] + rest, end)
        } else {
            (Seq::empty(), i)
        }
    } else {
        (Seq::empty(), i)
    }
}

/// A node pattern: `(`, an optional name, labels, `)`.
pub open spec fn sp_node_pattern(s: Seq<char>, i: int) -> Option<(SpecNodePattern, int)> {
    if 0 <= i < s.len() && s[i] == '(' {
        let j = scan_ws(s, i + 1);
        let nm_end = scan_name(s, j);
        let name = s.subrange(j, nm_end);
        let j2 = scan_ws(s, nm_end);
        let (labels, j3) = sp_labels(s, j2);
        let j4 = scan_ws(s, j3);
        if 0 <= j4 < s.len() && s[j4] == ')' {
            Some((SpecNodePattern { name, labels }, j4 + 1))
        } else {
            None
        }
    } else {
        None
    }
}

/// The bracketed body of a relationship pattern: `[`, an optional name,
/// types, `]`.
pub open spec fn sp_rel_body(s: Seq<char>, i: int) -> Option<(Seq<char>, Seq<Seq<char>>, int)> {
    if 0 <= i < s.len() && s[i] == '[' {
        let j = scan_ws(s, i + 1);
        let nm_end = scan_name(s, j);
        let name = s.subrange(j, nm_end);
        let j2 = scan_ws(s, nm_end);
        let (types, j3) = sp_labels(s, j2);
        let j4 = scan_ws(s, j3);
        if 0 <= j4 < s.len() && s[j4] == ']' {
            Some((name, types, j4 + 1))
        } else {
            None
        }
    } else {
        None
    }
}

/// A relationship pattern, `<-[..]-` pointing left or `-[..]->` pointing
/// right.
pub open spec fn sp_rel_pattern(s: Seq<char>, i: int) -> Option<(SpecRelPattern, int)> {
    if 0 <= i < s.len() && s[i] == '<' {
        let j = scan_ws(s, i + 1);
        if 0 <= j < s.len() && s[j] == '-' {
            let j2 = scan_ws(s, j + 1);
            match sp_rel_body(s, j2) {
                Some((name, types, j3)) => {
                    let j4 = scan_ws(s, j3);
                    if 0 <= j4 < s.len() && s[j4] == '-' {
                        Some((SpecRelPattern { name, direction: Direction::Left, types }, j4 + 1))
                    } else {
                        None
                    }
                },
                None => None,
            }
        } else {
            None
        }
    } else if 0 <= i < s.len() && s[i] == '-' {
        let j = scan_ws(s, i + 1);
        match sp_rel_body(s, j) {
            Some((name, types, j2)) => {
                let j3 = scan_ws(s, j2);
                if 0 <= j3 < s.len() && s[j3] == '-' {
                    let j4 = scan_ws(s, j3 + 1);
                    if 0 <= j4 < s.len() && s[j4] == '>' {
                        Some((SpecRelPattern { name, direction: Direction::Right, types }, j4 + 1))
                    } else {
                        None
                    }
                } else {
                    None
                }
            },
            None => None,
        }
    } else {
        None
    }
}

/// The continuation of a path: as many `rel node` steps as are there,
/// the relationships and nodes in step order.
pub open spec fn sp_pattern_tail(s: Seq<char>, i: int) -> (
    Seq<SpecRelPattern>,
    Seq<SpecNodePattern>,
    int,
)
    decreases s.len() - i,
{
    let j = scan_ws(s, i);
    match sp_rel_pattern(s, j) {
        Some((rel, j2)) => {
            let j3 = scan_ws(s, j2);
            match sp_node_pattern(s, j3) {
                Some((node, j4)) => if i < j4 <= s.len() {
                    let (rels, nodes, end) = sp_pattern_tail(s, j4);
                    (seq![rel] + rels, seq![node] + nodes, end)
                } else {
                    (Seq::empty(), Seq::empty(), i)
                },
                None => (Seq::empty(), Seq::empty(), i),
            }
        },
        None => (Seq::empty(), Seq::empty(), i),
    }
}

/// A path pattern: a node, then `rel node` steps.
pub open spec fn sp_pattern(s: Seq<char>, i: int) -> Option<(SpecPattern, int)> {
    match sp_node_pattern(s, i) {
        Some((n0, j)) => {
            let (rels, nodes, end) = sp_pattern_tail(s, j);
            Some((SpecPattern { nodes: seq![n0] + nodes, rels }, end))
        },
        None => None,
    }
}

/// Further comma-separated patterns, as many as are there.
pub open spec fn sp_patterns_tail(s: Seq<char>, i: int) -> (Seq<SpecPattern>, int)
    decreases s.len() - i,
{
    let j = scan_ws(s, i);
    if 0 <= j < s.len() && s[j] == ',' {
        let j2 = scan_ws(s, j + 1);
        match sp_pattern(s, j2) {
            Some((p, j3)) => if i < j3 <= s.len() {
                let (rest, end) = sp_patterns_tail(s, j3);
                (seq![p] + rest, end)
            } else {
                (Seq::empty(), i)
            },
            None => (Seq::empty(), i),
        }
    } else {
        (Seq::empty(), i)
    }
}

/// A `MATCH` clause: patterns and an optional `WHERE` predicate.
pub open spec fn sp_match_clause(s: Seq<char>, i: int) -> Option<(SpecMatchClause, int)> {
    if has_tag_nc(s, i, "MATCH"@) && scan_ws(s, i + 5) > i + 5 {
        let j = scan_ws(s, i + 5);
        match sp_pattern(s, j) {
            Some((p0, j2)) => {
                let (rest, j3) = sp_patterns_tail(s, j2);
                let pats = seq![p0] + rest;
                match sp_kw_tail(s, j3, "WHERE"@) {
                    Some(j4) => match sp_expr(s, j4) {
                        Some((e, j5)) => Some(
                            (SpecMatchClause { pattern: pats, filter: seq![e] }, j5),
                        ),
                        None => Some((SpecMatchClause { pattern: pats, filter: Seq::empty() }, j3)),
                    },
                    None => Some((SpecMatchClause { pattern: pats, filter: Seq::empty() }, j3)),
                }
            },
            None => None,
        }
    } else {
        None
    }
}

/// A projection item: an expression, aliased by `AS name` or by its own
/// canonical text.
pub open spec fn sp_projection_item(s: Seq<char>, i: int) -> Option<((SpecExpr, Seq<char>), int)> {
    match sp_expr(s, i) {
        Some((e, j)) => match sp_kw_tail(s, j, "AS"@) {
            Some(j2) => match sp_symbolic_name(s, j2) {
                Some((nm, j3)) => Some(((e, nm), j3)),
                None => Some(((e, crate::render::render(e)), j)),
            },
            None => Some(((e, crate::render::render(e)), j)),
        },
        None => None,
    }
}

/// Further comma-separated projection items, as many as are there.
pub open spec fn sp_projections_tail(s: Seq<char>, i: int) -> (Seq<(SpecExpr, Seq<char>)>, int)
    decreases s.len() - i,
{
    let j = scan_ws(s, i);
    if 0 <= j < s.len() && s[j] == ',' {
        let j2 = scan_ws(s, j + 1);
        match sp_projection_item(s, j2) {
            Some((item, j3)) => if i < j3 <= s.len() {
                let (rest, end) = sp_projections_tail(s, j3);
                (seq![item] + rest, end)
            } else {
                (Seq::empty(), i)
            },
            None => (Seq::empty(), i),
        }
    } else {
        (Seq::empty(), i)
    }
}

/// A `RETURN` clause: `*` and/or a projection list.
pub open spec fn sp_return_clause(s: Seq<char>, i: int) -> Option<(SpecReturnClause, int)> {
    if has_tag_nc(s, i, "RETURN"@) && scan_ws(s, i + 6) > i + 6 {
        let j = scan_ws(s, i + 6);
        if 0 <= j < s.len() && s[j] == '*' {
            let (projs, end) = sp_projections_tail(s, j + 1);
            Some((SpecReturnClause { star: true, projections: projs }, end))
        } else {
            match sp_projection_item(s, j) {
                Some((item, j2)) => {
                    let (rest, end) = sp_projections_tail(s, j2);
                    Some((SpecReturnClause { star: false, projections: seq![item] + rest }, end))
                },
                None => None,
            }
        }
    } else {
        None
    }
}

/// A whole query: one `MATCH`, one `RETURN`.
pub open spec fn sp_query(s: Seq<char>, i: int) -> Option<(SpecQuery, int)> {
    match sp_match_clause(s, i) {
        Some((m, j)) => {
            let j2 = scan_ws(s, j);
            match sp_return_clause(s, j2) {
                Some((rc, j3)) => Some(
                    (
                        SpecQuery {
                            unions: seq![
                                SpecUnion {
                                    reading_clause: Some(SpecReadingClause::Match(m)),
                                    updating_clauses: Seq::empty(),
                                    return_clause: rc,
                                },
                            ],
                            sort_items: Seq::empty(),
                            ordering: None,
                            skip: None,
                            limit: None,
                        },
                        j3,
                    ),
                ),
                None => None,
            }
        },
        None => None,
    }
}

/// Parsing a whole text: leading whitespace, then a query. As in the
/// grammar's reference reading, what follows the query (an optional `;`
/// terminator among it) is ignored.
pub open spec fn sp_parse(s: Seq<char>) -> Option<SpecQuery> {
    match sp_query(s, scan_ws(s, 0)) {
        Some((q, j)) => Some(q),
        None => None,
    }
}

// ------------------------------------------------------------------
// Executable pattern and clause parsers
// ------------------------------------------------------------------

/// The shapes of a list of names.
pub open spec fn namesv(v: Seq<String>) -> Seq<Seq<char>> {
    Seq::new(v.len(), |i: int| v[i]@)
}

/// The shapes of a list of relationship patterns.
pub open spec fn relsv(v: Seq<RelationshipPattern>) -> Seq<SpecRelPattern> {
    Seq::new(v.len(), |i: int| relv(v[i]))
}

/// The shapes of a list of node patterns.
pub open spec fn nodesv(v: Seq<NodePattern>) -> Seq<SpecNodePattern> {
    Seq::new(v.len(), |i: int| nodev(v[i]))
}

/// The shapes of a list of patterns.
pub open spec fn patsv(v: Seq<Pattern>) -> Seq<SpecPattern> {
    Seq::new(v.len(), |i: int| patternv(v[i]))
}

/// The shapes of a projection list.
pub open spec fn projsv(v: Seq<(Expr, String)>) -> Seq<(SpecExpr, Seq<char>)> {
    Seq::new(v.len(), |i: int| (exprv(v[i].0), v[i].1@))
}

/// Parses a run of `:Name` labels at `pos`.
fn parse_labels(s: &str, pos: usize) -> (r: (Vec<String>, usize))
    requires
        pos <= s@.len(),
    ensures
        ({
            let (ls, end) = sp_labels(s@, pos as int);
            &&& namesv(r.0@) == ls
            &&& r.1 as int == end
            &&& pos <= r.1 <= s@.len()
        }),
    decreases s@.len() - pos,
{
    let n = s.unicode_len();
    if char_at(s, pos, ':') {
        let j = name_end(s, pos + 1);
        if j > pos + 1 {
            let lbl = take_range(s, pos + 1, j);
            let (mut rest, end) = parse_labels(s, j);
            let mut out: Vec<String> = Vec::new();
            out.push(lbl);
            out.append(&mut rest);
            proof {
                assert(namesv(out@) =~= sp_labels(s@, pos as int).0);
            }
            return (out, end);
        }
    }
    proof {
        assert(namesv(Seq::<String>::empty()) =~= Seq::<Seq<char>>::empty());
    }
    (Vec::new(), pos)
}

/// Parses a node pattern at `pos`.
fn parse_node_pattern(s: &str, pos: usize) -> (r: Option<(NodePattern, usize)>)
    requires
        pos <= s@.len(),
    ensures
        match r {
            Some((np, j)) => sp_node_pattern(s@, pos as int) == Some((nodev(np), j as int)) && pos
                < j <= s@.len(),
            None => sp_node_pattern(s@, pos as int) is None,
        },
{
    let n = s.unicode_len();
    if char_at(s, pos, '(') {
        let j = ws(s, pos + 1);
        let nm_end = name_end(s, j);
        let name = take_range(s, j, nm_end);
        let j2 = ws(s, nm_end);
        let (labels, j3) = parse_labels(s, j2);
        let j4 = ws(s, j3);
        if char_at(s, j4, ')') {
            let np = NodePattern { name, labels };
            proof {
                assert(nodev(np).labels =~= namesv(np.labels@));
            }
            Some((np, j4 + 1))
        } else {
            None
        }
    } else {
        None
    }
}

/// Parses the bracketed body of a relationship pattern at `pos`.
fn parse_rel_body(s: &str, pos: usize) -> (r: Option<(String, Vec<String>, usize)>)
    requires
        pos <= s@.len(),
    ensures
        match r {
            Some((name, types, j)) => sp_rel_body(s@, pos as int) == Some(
                (name@, namesv(types@), j as int),
            ) && pos < j <= s@.len(),
            None => sp_rel_body(s@, pos as int) is None,
        },
{
    let n = s.unicode_len();
    if char_at(s, pos, '[') {
        let j = ws(s, pos + 1);
        let nm_end = name_end(s, j);
        let name = take_range(s, j, nm_end);
        let j2 = ws(s, nm_end);
        let (types, j3) = parse_labels(s, j2);
        let j4 = ws(s, j3);
        if char_at(s, j4, ']') {
            Some((name, types, j4 + 1))
        } else {
            None
        }
    } else {
        None
    }
}

/// Parses a relationship pattern at `pos`.
fn parse_rel_pattern(s: &str, pos: usize) -> (r: Option<(RelationshipPattern, usize)>)
    requires
        pos <= s@.len(),
    ensures
        match r {
            Some((rp, j)) => sp_rel_pattern(s@, pos as int) == Some((relv(rp), j as int)) && pos < j
                <= s@.len(),
            None => sp_rel_pattern(s@, pos as int) is None,
        },
{
    let n = s.unicode_len();
    if char_at(s, pos, '<') {
        let j = ws(s, pos + 1);
        if char_at(s, j, '-') {
            let j2 = ws(s, j + 1);
            match parse_rel_body(s, j2) {
                Some((name, types, j3)) => {
                    let j4 = ws(s, j3);
                    if char_at(s, j4, '-') {
                        let rp = RelationshipPattern { name, direction: Direction::Left, types };
                        proof {
                            assert(relv(rp).types =~= namesv(rp.types@));
                        }
                        Some((rp, j4 + 1))
                    } else {
                        None
                    }
                },
                None => None,
            }
        } else {
            None
        }
    } else if char_at(s, pos, '-') {
        let j = ws(s, pos + 1);
        match parse_rel_body(s, j) {
            Some((name, types, j2)) => {
                let j3 = ws(s, j2);
                if char_at(s, j3, '-') {
                    let j4 = ws(s, j3 + 1);
                    if char_at(s, j4, '>') {
                        let rp = RelationshipPattern { name, direction: Direction::Right, types };
                        proof {
                            assert(relv(rp).types =~= namesv(rp.types@));
                        }
                        Some((rp, j4 + 1))
                    } else {
                        None
                    }
                } else {
                    None
                }
            },
            None => None,
        }
    } else {
        None
    }
}

/// Parses the `rel node` steps of a path at `pos`.
fn parse_pattern_tail(s: &str, pos: usize) -> (r: (Vec<RelationshipPattern>, Vec<NodePattern>, usize))
    requires
        pos <= s@.len(),
    ensures
        ({
            let (rels, nodes, end) = sp_pattern_tail(s@, pos as int);
            &&& relsv(r.0@) == rels
            &&& nodesv(r.1@) == nodes
            &&& r.0@.len() == r.1@.len()
            &&& r.2 as int == end
            &&& pos <= r.2 <= s@.len()
        }),
    decreases s@.len() - pos,
{
    let j = ws(s, pos);
    match parse_rel_pattern(s, j) {
        Some((rel, j2)) => {
            let j3 = ws(s, j2);
            match parse_node_pattern(s, j3) {
                Some((node, j4)) => {
                    let (mut rels_rest, mut nodes_rest, end) = parse_pattern_tail(s, j4);
                    let mut rels: Vec<RelationshipPattern> = Vec::new();
                    let mut nodes: Vec<NodePattern> = Vec::new();
                    rels.push(rel);
                    rels.append(&mut rels_rest);
                    nodes.push(node);
                    nodes.append(&mut nodes_rest);
                    proof {
                        assert(relsv(rels@) =~= sp_pattern_tail(s@, pos as int).0);
                        assert(nodesv(nodes@) =~= sp_pattern_tail(s@, pos as int).1);
                    }
                    (rels, nodes, end)
                },
                None => {
                    proof {
                        assert(relsv(Seq::<RelationshipPattern>::empty()) =~= Seq::<
                            SpecRelPattern,
                        >::empty());
                        assert(nodesv(Seq::<NodePattern>::empty()) =~= Seq::<
                            SpecNodePattern,
                        >::empty());
                    }
                    (Vec::new(), Vec::new(), pos)
                },
            }
        },
        None => {
            proof {
                assert(relsv(Seq::<RelationshipPattern>::empty()) =~= Seq::<
                    SpecRelPattern,
                >::empty());
                assert(nodesv(Seq::<NodePattern>::empty()) =~= Seq::<SpecNodePattern>::empty());
            }
            (Vec::new(), Vec::new(), pos)
        },
    }
}

/// Parses a path pattern at `pos`.
fn parse_pattern(s: &str, pos: usize) -> (r: Option<(Pattern, usize)>)
    requires
        pos <= s@.len(),
    ensures
        match r {
            Some((p, j)) => sp_pattern(s@, pos as int) == Some((patternv(p), j as int)) && pos < j
                <= s@.len() && patternv(p).wf(),
            None => sp_pattern(s@, pos as int) is None,
        },
{
    match parse_node_pattern(s, pos) {
        Some((n0, j)) => {
            let (rels, mut nodes_rest, end) = parse_pattern_tail(s, j);
            let mut nodes: Vec<NodePattern> = Vec::new();
            nodes.push(n0);
            nodes.append(&mut nodes_rest);
            let p = Pattern { nodes, rels };
            proof {
                assert(patternv(p).nodes =~= seq![nodev(n0)] + sp_pattern_tail(s@, j as int).1);
                assert(patternv(p).rels =~= sp_pattern_tail(s@, j as int).0);
            }
            Some((p, end))
        },
        None => None,
    }
}

/// Parses further comma-separated patterns at `pos`.
fn parse_patterns_tail(s: &str, pos: usize) -> (r: (Vec<Pattern>, usize))
    requires
        pos <= s@.len(),
    ensures
        ({
            let (pats, end) = sp_patterns_tail(s@, pos as int);
            &&& patsv(r.0@) == pats
            &&& r.1 as int == end
            &&& pos <= r.1 <= s@.len()
            &&& forall|k: int| 0 <= k < r.0@.len() ==> (#[trigger] patternv(r.0@[k])).wf()
        }),
    decreases s@.len() - pos,
{
    let n = s.unicode_len();
    let j = ws(s, pos);
    if char_at(s, j, ',') {
        let j2 = ws(s, j + 1);
        match parse_pattern(s, j2) {
            Some((p, j3)) => {
                let (mut rest, end) = parse_patterns_tail(s, j3);
                let mut out: Vec<Pattern> = Vec::new();
                out.push(p);
                out.append(&mut rest);
                proof {
                    assert(patsv(out@) =~= sp_patterns_tail(s@, pos as int).0);
                }
                return (out, end);
            },
            None => {},
        }
    }
    proof {
        assert(patsv(Seq::<Pattern>::empty()) =~= Seq::<SpecPattern>::empty());
    }
    (Vec::new(), pos)
}

/// Parses a `MATCH` clause at `pos`.
fn parse_match_clause(s: &str, pos: usize) -> (r: Option<(MatchClause, usize)>)
    requires
        pos <= s@.len(),
    ensures
        match r {
            Some((m, j)) => sp_match_clause(s@, pos as int) == Some((matchv(m), j as int)) && pos
                < j <= s@.len() && matchv(m).wf(),
            None => sp_match_clause(s@, pos as int) is None,
        },
{
    let n = s.unicode_len();
    proof {
        reveal_strlit("MATCH");
        reveal_strlit("WHERE");
    }
    if tag_nc_at(s, pos, "MATCH") {
        let j = ws(s, pos + 5);
        if j > pos + 5 {
            return match parse_pattern(s, j) {
                Some((p0, j2)) => {
                    let (mut rest, j3) = parse_patterns_tail(s, j2);
                    let mut pattern: Vec<Pattern> = Vec::new();
                    pattern.push(p0);
                    pattern.append(&mut rest);
                    let mut filter: Vec<Expr> = Vec::new();
                    let mut end: usize = j3;
                    match kw_tail(s, j3, "WHERE") {
                        Some(j4) => {
                            match parse_expression(s, j4) {
                                Some((e, j5)) => {
                                    filter.push(e);
                                    end = j5;
                                },
                                None => {},
                            }
                        },
                        None => {},
                    }
                    let m = MatchClause { pattern, filter };
                    proof {
                        assert(matchv(m).pattern =~= seq![patternv(m.pattern@[0])] + patsv(
                            m.pattern@.drop_first(),
                        ));
                        assert(patsv(m.pattern@.drop_first()) =~= sp_patterns_tail(
                            s@,
                            j2 as int,
                        ).0);
                        if m.filter@.len() == 1 {
                            assert(matchv(m).filter =~= seq![exprv(m.filter@[0])]);
                        } else {
                            assert(matchv(m).filter =~= Seq::<SpecExpr>::empty());
                        }
                    }
                    Some((m, end))
                },
                None => None,
            };
        }
    }
    None
}

/// Parses a projection item at `pos`.
#[verifier::rlimit(100)]
#[verifier::spinoff_prover]
fn parse_projection_item(s: &str, pos: usize) -> (r: Option<((Expr, String), usize)>)
    requires
        pos <= s@.len(),
    ensures
        match r {
            Some((item, j)) => sp_projection_item(s@, pos as int) == Some(
                ((exprv(item.0), item.1@), j as int),
            ) && pos <= j <= s@.len(),
            None => sp_projection_item(s@, pos as int) is None,
        },
{
    proof {
        reveal_strlit("AS");
    }
    match parse_expression(s, pos) {
        Some((e, j)) => {
            match kw_tail(s, j, "AS") {
                Some(j2) => {
                    match parse_symbolic_name(s, j2) {
                        Some((nm, j3)) => Some(((e, nm), j3)),
                        None => {
                            let alias = render_expr(&e);
                            Some(((e, alias), j))
                        },
                    }
                },
                None => {
                    let alias = render_expr(&e);
                    Some(((e, alias), j))
                },
            }
        },
        None => None,
    }
}

/// Parses further comma-separated projection items at `pos`.
fn parse_projections_tail(s: &str, pos: usize) -> (r: (Vec<(Expr, String)>, usize))
    requires
        pos <= s@.len(),
    ensures
        ({
            let (projs, end) = sp_projections_tail(s@, pos as int);
            &&& projsv(r.0@) == projs
            &&& r.1 as int == end
            &&& pos <= r.1 <= s@.len()
        }),
    decreases s@.len() - pos,
{
    let n = s.unicode_len();
    let j = ws(s, pos);
    if char_at(s, j, ',') {
        let j2 = ws(s, j + 1);
        match parse_projection_item(s, j2) {
            Some((item, j3)) => {
                let (mut rest, end) = parse_projections_tail(s, j3);
                let mut out: Vec<(Expr, String)> = Vec::new();
                out.push(item);
                out.append(&mut rest);
                proof {
                    assert(projsv(out@) =~= sp_projections_tail(s@, pos as int).0);
                }
                return (out, end);
            },
            None => {},
        }
    }
    proof {
        assert(projsv(Seq::<(Expr, String)>::empty()) =~= Seq::<(SpecExpr, Seq<char>)>::empty());
    }
    (Vec::new(), pos)
}

/// Parses a `RETURN` clause at `pos`.
#[verifier::rlimit(80)]
fn parse_return_clause(s: &str, pos: usize) -> (r: Option<(ReturnClause, usize)>)
    requires
        pos <= s@.len(),
    ensures
        match r {
            Some((rc, j)) => sp_return_clause(s@, pos as int) == Some((returnv(rc), j as int))
                && pos <= j <= s@.len(),
            None => sp_return_clause(s@, pos as int) is None,
        },
{
    let n = s.unicode_len();
    proof {
        reveal_strlit("RETURN");
    }
    if tag_nc_at(s, pos, "RETURN") {
        let j = ws(s, pos + 6);
        if j > pos + 6 {
            if char_at(s, j, '*') {
                let (projections, end) = parse_projections_tail(s, j + 1);
                let rc = ReturnClause { star: true, projections };
                proof {
                    assert(returnv(rc).projections =~= projsv(rc.projections@));
                }
                return Some((rc, end));
            }
            return match parse_projection_item(s, j) {
                Some((item, j2)) => {
                    let (mut rest, end) = parse_projections_tail(s, j2);
                    let mut projections: Vec<(Expr, String)> = Vec::new();
                    projections.push(item);
                    projections.append(&mut rest);
                    let rc = ReturnClause { star: false, projections };
                    proof {
                        assert(returnv(rc).projections =~= seq![
                            (exprv(rc.projections@[0].0), rc.projections@[0].1@),
                        ] + projsv(rc.projections@.drop_first()));
                        assert(projsv(rc.projections@.drop_first()) =~= sp_projections_tail(
                            s@,
                            j2 as int,
                        ).0);
                    }
                    Some((rc, end))
                },
                None => None,
            };
        }
    }
    None
}

/// Parses a whole query at `pos`.
fn parse_query(s: &str, pos: usize) -> (r: Option<(Query, usize)>)
    requires
        pos <= s@.len(),
    ensures
        match r {
            Some((q, j)) => sp_query(s@, pos as int) == Some((queryv(q), j as int)) && pos <= j
                <= s@.len() && queryv(q).wf(),
            None => sp_query(s@, pos as int) is None,
        },
{
    match parse_match_clause(s, pos) {
        Some((m, j)) => {
            let j2 = ws(s, j);
            match parse_return_clause(s, j2) {
                Some((rc, j3)) => {
                    let q = Query {
                        unions: vec![
                            Union {
                                reading_clause: Some(ReadingClause::Match(m)),
                                updating_clauses: Vec::new(),
                                return_clause: rc,
                            },
                        ],
                        sort_items: Vec::new(),
                        ordering: None,
                        skip: None,
                        limit: None,
                    };
                    proof {
                        assert(queryv(q).unions =~= sp_query(s@, pos as int)->Some_0.0.unions);
                        assert(queryv(q).sort_items =~= Seq::<SpecExpr>::empty());
                        assert(queryv(q) == sp_query(s@, pos as int)->Some_0.0);
                    }
                    Some((q, j3))
                },
                None => None,
            }
        },
        None => None,
    }
}

/// The parser: one `MATCH`, an optional `WHERE`, one `RETURN`.
pub struct Parser {}

impl Parser {
    /// A parser.
    pub fn new() -> (r: Parser) {
        Parser {  }
    }

    /// Parses query text into its syntax tree. Succeeds exactly when the
    /// grammar matches, and then returns the tree the grammar describes,
    /// every pattern in it path-shaped; a mismatch is a parse error.
    pub fn parse(&self, input: &str) -> (r: Result<Query, Error>)
        ensures
            match r {
                Ok(q) => sp_parse(input@) == Some(queryv(q)) && queryv(q).wf(),
                Err(e) => sp_parse(input@) is None && e.kind == ErrorKind::Parse,
            },
    {
        let start = ws(input, 0);
        match parse_query(input, start) {
            Some((q, _)) => Ok(q),
            None => {
                let msg = String::from_str("query does not match the grammar: ").concat(input);
                Err(Error { msg, kind: ErrorKind::Parse })
            },
        }
    }
}

} // verus!
