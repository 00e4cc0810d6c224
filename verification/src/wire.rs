//! Bytes on the wire: scanning helpers and the textual fixed-point number
//! format used by the joystick messages.
//!
//! A number token is an optional sign, a run of integer digits, and an
//! optional `.` followed by fraction digits, with at least one digit in all.
//! Its value is kept in milli-units; fraction digits beyond the third are
//! dropped, and a whole part above [`MAX_WHOLE`] is rejected as out of the
//! protocol's range.

use vstd::prelude::*;

verus! {

/// Line delimiter `\n`.
pub const NL: u8 = 10;

/// Decimal point `.`.
pub const DOT: u8 = 46;

/// Sign `-`.
pub const MINUS: u8 = 45;

/// Sign `+`.
pub const PLUS: u8 = 43;

/// Largest whole part a number token may carry.
pub const MAX_WHOLE: u64 = 999999;

/// Milli-units per whole unit.
pub const SCALE: u64 = 1000;

/// Index of the first occurrence of `b` in `s`, if any.
pub open spec fn find_byte(s: Seq<u8>, b: u8) -> Option<int>
    decreases s.len(),
{
    if s.len() == 0 {
        None
    } else if s[0] == b {
        Some(0int)
    } else {
        match find_byte(s.skip(1), b) {
            Some(i) => Some(i + 1),
            None => None,
        }
    }
}

/// What [`find_byte`] returns: the first index holding `b`, or `None` when
/// `b` does not occur.
pub proof fn lemma_find_byte(s: Seq<u8>, b: u8)
    ensures
        match find_byte(s, b) {
            Some(i) => 0 <= i < s.len() && s[i] == b && forall|j: int| 0 <= j < i ==> s[j] != b,
            None => forall|j: int| 0 <= j < s.len() ==> s[j] != b,
        },
    decreases s.len(),
{
    if s.len() > 0 && s[0] != b {
        let t = s.skip(1);
        lemma_find_byte(t, b);
        assert(forall|j: int| 0 <= j < t.len() ==> t[j] == s[j + 1]);
        match find_byte(t, b) {
            Some(i) => {
                assert(s[i + 1] == t[i]);
                assert forall|j: int| 0 <= j < i + 1 implies s[j] != b by {
                    if j > 0 {
                        assert(s[j] == t[j - 1]);
                    }
                }
            },
            None => {
                assert forall|j: int| 0 <= j < s.len() implies s[j] != b by {
                    if j > 0 {
                        assert(s[j] == t[j - 1]);
                    }
                }
            },
        }
    }
}

/// `b` first occurs in `s` at `i` exactly when `find_byte` says so.
pub proof fn lemma_find_byte_at(s: Seq<u8>, b: u8, i: int)
    requires
        0 <= i < s.len(),
        s[i] == b,
        forall|j: int| 0 <= j < i ==> s[j] != b,
    ensures
        find_byte(s, b) == Some(i),
{
    lemma_find_byte(s, b);
    match find_byte(s, b) {
        Some(k) => {
            if k < i {
                assert(s[k] != b);
            } else if k > i {
                assert(s[i] != b);
            }
        },
        None => {
            assert(s[i] != b);
        },
    }
}

/// When `b` occurs nowhere in `s`, `find_byte` reports nothing.
pub proof fn lemma_find_byte_none(s: Seq<u8>, b: u8)
    requires
        forall|j: int| 0 <= j < s.len() ==> s[j] != b,
    ensures
        find_byte(s, b) is None,
{
    lemma_find_byte(s, b);
    match find_byte(s, b) {
        Some(k) => {
            assert(s[k] != b);
        },
        None => {},
    }
}

/// `b` is an ASCII decimal digit.
pub open spec fn is_digit(b: u8) -> bool {
    48 <= b <= 57
}

/// Numeric value of a digit byte.
pub open spec fn digit_val(b: u8) -> int {
    b - 48
}

/// Digit byte for a value in `0..10`.
pub open spec fn digit_byte(d: int) -> u8 {
    (48 + d) as u8
}

/// Every byte of `s` is a decimal digit.
pub open spec fn all_digits(s: Seq<u8>) -> bool {
    forall|i: int| 0 <= i < s.len() ==> is_digit(s[i])
}

/// Value of a digit run, most significant digit first.
pub open spec fn digits_val(s: Seq<u8>) -> int
    decreases s.len(),
{
    if s.len() == 0 {
        0
    } else {
        digits_val(s.drop_last()) * 10 + digit_val(s.last())
    }
}

/// A digit run's value is nonnegative.
pub proof fn lemma_digits_val_nonneg(s: Seq<u8>)
    requires
        all_digits(s),
    ensures
        digits_val(s) >= 0,
    decreases s.len(),
{
    if s.len() > 0 {
        assert(all_digits(s.drop_last()));
        lemma_digits_val_nonneg(s.drop_last());
    }
}

/// Appending a digit multiplies the run's value by ten and adds the digit.
pub proof fn lemma_digits_val_push(s: Seq<u8>, b: u8)
    ensures
        digits_val(s.push(b)) == digits_val(s) * 10 + digit_val(b),
{
    assert(s.push(b).drop_last() =~= s);
    assert(s.push(b).last() == b);
}

/// Milli-units carried by the fraction digits: the first three, padded with
/// zeros; later digits are dropped.
pub open spec fn frac_milli(s: Seq<u8>) -> int {
    let d0 = if s.len() > 0 {
        digit_val(s[0])
    } else {
        0
    };
    let d1 = if s.len() > 1 {
        digit_val(s[1])
    } else {
        0
    };
    let d2 = if s.len() > 2 {
        digit_val(s[2])
    } else {
        0
    };
    d0 * 100 + d1 * 10 + d2
}

/// Value in milli-units of an unsigned number token, or `None` when the
/// token is malformed or its whole part is out of range.
pub open spec fn parse_unsigned_milli(s: Seq<u8>) -> Option<int> {
    match find_byte(s, DOT) {
        Some(i) => parse_parts(s.take(i), s.skip(i + 1)),
        None => parse_parts(s, Seq::<u8>::empty()),
    }
}

/// Value of a whole-digit run and a fraction-digit run together.
pub open spec fn parse_parts(whole: Seq<u8>, frac: Seq<u8>) -> Option<int> {
    if all_digits(whole) && all_digits(frac) && whole.len() + frac.len() > 0 && digits_val(whole)
        <= MAX_WHOLE {
        Some(digits_val(whole) * SCALE + frac_milli(frac))
    } else {
        None
    }
}

/// Value in milli-units of a signed number token.
pub open spec fn parse_milli(s: Seq<u8>) -> Option<int> {
    if s.len() > 0 && s[0] == MINUS {
        match parse_unsigned_milli(s.skip(1)) {
            Some(v) => Some(-v),
            None => None,
        }
    } else if s.len() > 0 && s[0] == PLUS {
        parse_unsigned_milli(s.skip(1))
    } else {
        parse_unsigned_milli(s)
    }
}

/// Textual form of a nonnegative milli-unit value up to one whole unit:
/// the whole digit, then the nonzero fraction digits, if any.
pub open spec fn fmt_mag(m: int) -> Seq<u8>
    recommends
        0 <= m <= SCALE,
{
    let ip = m / (SCALE as int);
    let fr = m % (SCALE as int);
    let d0 = fr / 100;
    let d1 = (fr / 10) % 10;
    let d2 = fr % 10;
    if fr == 0 {
        seq![digit_byte(ip)]
    } else if d2 != 0 {
        seq![digit_byte(ip), DOT, digit_byte(d0), digit_byte(d1), digit_byte(d2)]
    } else if d1 != 0 {
        seq![digit_byte(ip), DOT, digit_byte(d0), digit_byte(d1)]
    } else {
        seq![digit_byte(ip), DOT, digit_byte(d0)]
    }
}

/// Textual form of a milli-unit axis value within one unit of zero.
pub open spec fn fmt_milli(v: int) -> Seq<u8>
    recommends
        -(SCALE as int) <= v <= SCALE,
{
    if v < 0 {
        seq![MINUS] + fmt_mag(-v)
    } else {
        fmt_mag(v)
    }
}

/// Appends the textual form of `v` milli-units to `out`.
pub fn write_milli(out: &mut Vec<u8>, v: i32)
    requires
        -1000 <= v <= 1000,
    ensures
        final(out)@ == old(out)@ + fmt_milli(v as int),
{
    let ghost pre = out@;
    let m: u32 = if v < 0 {
        out.push(MINUS);
        (-v) as u32
    } else {
        v as u32
    };
    let ip: u32 = m / 1000;
    let fr: u32 = m % 1000;
    let d0: u32 = fr / 100;
    let d1: u32 = (fr / 10) % 10;
    let d2: u32 = fr % 10;
    out.push(48 + ip as u8);
    if fr != 0 {
        out.push(DOT);
        out.push(48 + d0 as u8);
        if d1 != 0 || d2 != 0 {
            out.push(48 + d1 as u8);
        }
        if d2 != 0 {
            out.push(48 + d2 as u8);
        }
    }
    proof {
        assert(out@ =~= pre + fmt_milli(v as int));
    }
}

/// Parses a signed fixed-point number token into milli-units.
///
/// Returns exactly what [`parse_milli`] gives on the token's bytes.
#[verifier::rlimit(50)]
pub fn parse_milli_token(s: &Vec<u8>) -> (r: Option<i32>)
    ensures
        match parse_milli(s@) {
            Some(v) => r == Some(v as i32) && -999999999 <= v <= 999999999,
            None => r is None,
        },
{
    let n = s.len();
    let mut i: usize = 0;
    let mut neg = false;
    if n > 0 && (s[0] == MINUS || s[0] == PLUS) {
        neg = s[0] == MINUS;
        i = 1;
    }
    let start = i;

    let mut whole: u64 = 0;
    let mut too_big = false;
    while i < n && s[i] >= 48 && s[i] <= 57
        invariant
            start <= i <= n,
            n == s@.len(),
            start <= 1,
            start == 1 ==> s@[0] == MINUS || s@[0] == PLUS,
            start == 0 ==> n == 0 || (s@[0] != MINUS && s@[0] != PLUS),
            forall|j: int| start <= j < i ==> is_digit(s@[j]) && s@[j] != DOT,
            all_digits(s@.subrange(start as int, i as int)),
            !too_big ==> whole == digits_val(s@.subrange(start as int, i as int)) && whole
                <= MAX_WHOLE,
            too_big ==> digits_val(s@.subrange(start as int, i as int)) > MAX_WHOLE,
        decreases n - i,
    {
        let ghost pre = s@.subrange(start as int, i as int);
        let d = (s[i] - 48) as u64;
        proof {
            assert(s@.subrange(start as int, i as int + 1) =~= pre.push(s@[i as int]));
            lemma_digits_val_push(pre, s@[i as int]);
            if too_big {
                lemma_digits_val_nonneg(pre);
            }
        }
        if !too_big {
            if whole * 10 + d > MAX_WHOLE {
                too_big = true;
            } else {
                whole = whole * 10 + d;
            }
        }
        i += 1;
    }
    let int_digits = i - start;
    let ghost whole_part = s@.subrange(start as int, i as int);

    let mut d0: u64 = 0;
    let mut d1: u64 = 0;
    let mut d2: u64 = 0;
    let mut frac_digits: usize = 0;
    let ghost mut frac_start: int = n as int + 1;

    if i < n {
        if s[i] != DOT {
            proof {
                lemma_parse_none_on_junk(s@, start as int, i as int);
            }
            return None;
        }
        i += 1;
        proof {
            frac_start = i as int;
        }
        while i < n
            invariant
                frac_start <= i <= n,
                n == s@.len(),
                start <= 1,
                start == 1 ==> s@[0] == MINUS || s@[0] == PLUS,
                start == 0 ==> n == 0 || (s@[0] != MINUS && s@[0] != PLUS),
                start as int + 1 <= frac_start,
                s@[frac_start - 1] == DOT,
                forall|j: int| start <= j < frac_start - 1 ==> is_digit(s@[j]) && s@[j] != DOT,
                frac_digits == i - frac_start,
                all_digits(s@.subrange(frac_start, i as int)),
                frac_digits >= 1 ==> d0 == digit_val(s@[frac_start]),
                frac_digits >= 2 ==> d1 == digit_val(s@[frac_start + 1]),
                frac_digits >= 3 ==> d2 == digit_val(s@[frac_start + 2]),
                frac_digits == 0 ==> d0 == 0 && d1 == 0 && d2 == 0,
                frac_digits == 1 ==> d1 == 0 && d2 == 0,
                frac_digits == 2 ==> d2 == 0,
                d0 <= 9 && d1 <= 9 && d2 <= 9,
            decreases n - i,
        {
            let b = s[i];
            if b < 48 || b > 57 {
                proof {
                    lemma_parse_none_on_bad_frac(
                        s@,
                        start as int,
                        frac_start - 1,
                        frac_start,
                        i as int,
                    );
                }
                return None;
            }
            if frac_digits == 0 {
                d0 = (b - 48) as u64;
            } else if frac_digits == 1 {
                d1 = (b - 48) as u64;
            } else if frac_digits == 2 {
                d2 = (b - 48) as u64;
            }
            frac_digits += 1;
            proof {
                assert(s@.subrange(frac_start, i + 1) =~= s@.subrange(frac_start, i as int).push(
                    s@[i as int],
                ));
            }
            i += 1;
        }
    }
    let ghost frac_part = if frac_start <= n { s@.subrange(frac_start, n as int) } else { Seq::<
        u8,
    >::empty() };
    proof {
        lemma_parse_shape(s@, start as int, whole_part, frac_start, n as int);
        assert(s@.skip(0) =~= s@);
        assert(parse_unsigned_milli(s@.skip(start as int)) == parse_parts(whole_part, frac_part));
        assert(whole_part.len() == int_digits);
        assert(frac_part.len() == frac_digits);
    }

    if int_digits == 0 && frac_digits == 0 {
        return None;
    }
    if too_big {
        return None;
    }
    let frac: u64 = d0 * 100 + d1 * 10 + d2;
    let milli: u64 = whole * 1000 + frac;
    proof {
        assert(frac_milli(frac_part) == frac);
        assert(parse_parts(whole_part, frac_part) == Some((whole * SCALE + frac) as int));
        assert(milli <= 999999999);
    }
    if neg {
        Some(-(milli as i32))
    } else {
        Some(milli as i32)
    }
}

/// After the sign, every byte up to `stop` is a digit, and the byte at
/// `stop` is neither a digit nor a dot: the token cannot parse.
proof fn lemma_parse_none_on_junk(s: Seq<u8>, start: int, stop: int)
    requires
        0 <= start <= stop < s.len(),
        start <= 1,
        start == 1 ==> s[0] == MINUS || s[0] == PLUS,
        start == 0 ==> s.len() == 0 || (s[0] != MINUS && s[0] != PLUS),
        forall|j: int| start <= j < stop ==> is_digit(s[j]) && s[j] != DOT,
        !is_digit(s[stop]),
        s[stop] != DOT,
    ensures
        parse_milli(s) is None,
{
    let body = s.skip(start);
    assert(start == 0 ==> body =~= s);
    assert(forall|j: int| 0 <= j < body.len() ==> body[j] == s[j + start]);
    lemma_find_byte(body, DOT);
    match find_byte(body, DOT) {
        Some(i) => {
            // The first dot lies past `stop - start`, so the whole part
            // reaching it contains the non-digit byte.
            assert(body[stop - start] == s[stop]);
            if i <= stop - start {
                assert(s[i + start] == DOT);
            }
            assert(i > stop - start);
            assert(body.take(i)[stop - start] == s[stop]);
            assert(!all_digits(body.take(i)));
        },
        None => {
            assert(body[stop - start] == s[stop]);
            assert(!all_digits(body));
        },
    }
}

/// A non-digit byte among the fraction digits: the token cannot parse.
proof fn lemma_parse_none_on_bad_frac(s: Seq<u8>, start: int, dot: int, frac_start: int, bad: int)
    requires
        0 <= start <= dot < s.len(),
        start <= 1,
        start == 1 ==> s[0] == MINUS || s[0] == PLUS,
        start == 0 ==> s.len() == 0 || (s[0] != MINUS && s[0] != PLUS),
        forall|j: int| start <= j < dot ==> is_digit(s[j]) && s[j] != DOT,
        s[dot] == DOT,
        frac_start == dot + 1,
        frac_start <= bad < s.len(),
        !is_digit(s[bad]),
    ensures
        parse_milli(s) is None,
{
    let body = s.skip(start);
    assert(start == 0 ==> body =~= s);
    assert(forall|j: int| 0 <= j < body.len() ==> body[j] == s[j + start]);
    assert(body[dot - start] == s[dot]);
    lemma_find_byte_at(body, DOT, dot - start);
    let frac = body.skip(dot - start + 1);
    assert(frac[bad - frac_start] == s[bad]);
    assert(!all_digits(frac));
}

/// The scanned shape of a fully consumed token matches the grammar's
/// decomposition: the spec splits `s` into the same whole and fraction runs
/// the scanner saw.
proof fn lemma_parse_shape(s: Seq<u8>, start: int, whole: Seq<u8>, frac_start: int, n: int)
    requires
        n == s.len(),
        0 <= start <= n,
        start <= 1,
        start == 1 ==> s[0] == MINUS || s[0] == PLUS,
        start == 0 ==> s.len() == 0 || (s[0] != MINUS && s[0] != PLUS),
        whole == s.subrange(start, if frac_start > n { n } else { frac_start - 1 }),
        frac_start > n ==> whole == s.subrange(start, n),
        frac_start <= n ==> frac_start >= start + 1 && s[frac_start - 1] == DOT,
        forall|j: int|
            start <= j < (if frac_start > n {
                n
            } else {
                frac_start - 1
            }) ==> is_digit(s[j]) && s[j] != DOT,
        frac_start <= n ==> all_digits(s.subrange(frac_start, n)),
    ensures
        frac_start > n ==> parse_unsigned_milli(s.skip(start)) == parse_parts(
            whole,
            Seq::<u8>::empty(),
        ),
        frac_start <= n ==> parse_unsigned_milli(s.skip(start)) == parse_parts(
            whole,
            s.subrange(frac_start, n),
        ),
{
    let body = s.skip(start);
    assert(start == 0 ==> body =~= s);
    assert(forall|j: int| 0 <= j < body.len() ==> body[j] == s[j + start]);
    if frac_start > n {
        // No dot anywhere in the body.
        lemma_find_byte_none(body, DOT);
        assert(body =~= s.subrange(start, n));
    } else {
        let dot = frac_start - 1;
        assert(body[dot - start] == s[dot]);
        lemma_find_byte_at(body, DOT, dot - start);
        assert(body.take(dot - start) =~= s.subrange(start, dot));
        assert(body.skip(dot - start + 1) =~= s.subrange(frac_start, n));
    }
}

} // verus!
