//! Integers are represented as strings in the emitted output.
//!
//! [`to_decimal`] normalizes a numeric literal in binary, octal,
//! hexadecimal or decimal notation to its decimal spelling, with the same
//! acceptance rules as a signed 64-bit radix parse: an optional sign, at
//! least one digit of the radix, and a value within the 64-bit range.

use vstd::prelude::*;
use vstd::string::StrSliceExecFns;

verus! {

/// The parse failed: the digits were missing, malformed, or out of range.
#[derive(Debug, Clone, Copy, PartialEq, Eq, Structural)]
pub struct ParseIntError;

/// Value of one digit character, or 36 when the character is no digit in
/// any radix.
pub open spec fn digit_val(c: char) -> int {
    if '0' <= c && c <= '9' {
        c as int - 48
    } else if 'a' <= c && c <= 'z' {
        c as int - 87
    } else if 'A' <= c && c <= 'Z' {
        c as int - 55
    } else {
        36
    }
}

/// A non-empty run of digits of the radix.
pub open spec fn digits_ok(s: Seq<char>, radix: int) -> bool {
    s.len() > 0 && forall|i: int| 0 <= i < s.len() ==> digit_val(#[trigger] s[i]) < radix
}

/// The unsigned value of a digit run.
pub open spec fn digits_val(s: Seq<char>, radix: int) -> int
    decreases s.len(),
{
    if s.len() == 0 {
        0
    } else {
        digits_val(s.drop_last(), radix) * radix + digit_val(s.last())
    }
}

/// Whether the run starts with an explicit sign.
pub open spec fn has_sign(s: Seq<char>) -> bool {
    s.len() > 0 && (s[0] == '+' || s[0] == '-')
}

/// The digit run after any sign.
pub open spec fn sign_body(s: Seq<char>) -> Seq<char> {
    if has_sign(s) {
        s.drop_first()
    } else {
        s
    }
}

/// The signed value of a signed digit run.
pub open spec fn signed_val(s: Seq<char>, radix: int) -> int {
    if s.len() > 0 && s[0] == '-' {
        -digits_val(sign_body(s), radix)
    } else {
        digits_val(sign_body(s), radix)
    }
}

/// Whether a signed digit run parses as a signed 64-bit value.
pub open spec fn parse_ok(s: Seq<char>, radix: int) -> bool {
    &&& digits_ok(sign_body(s), radix)
    &&& i64::MIN <= signed_val(s, radix) <= i64::MAX
}

/// The radix a literal selects: a leading `0b`/`0x` introduces binary or
/// hexadecimal, any other leading zero makes the whole literal octal, and
/// everything else is decimal.
pub open spec fn radix_of(s: Seq<char>) -> int {
    if s.len() > 1 && s[0] == '0' {
        if s[1] == 'b' || s[1] == 'B' {
            2
        } else if s[1] == 'x' || s[1] == 'X' {
            16
        } else {
            8
        }
    } else {
        10
    }
}

/// The part of a literal the radix parse sees.
pub open spec fn num_part(s: Seq<char>) -> Seq<char> {
    if s.len() > 1 && s[0] == '0' && (s[1] == 'b' || s[1] == 'B' || s[1] == 'x' || s[1] == 'X') {
        s.skip(2)
    } else {
        s
    }
}

/// The decimal digits of a non-negative value, most significant first.
pub open spec fn dec_digits(n: int) -> Seq<char>
    decreases n,
{
    if n < 10 {
        seq![((48 + (if n >= 0 {
            n
        } else {
            0
        })) as u8) as char]
    } else {
        dec_digits(n / 10).push(((48 + n % 10) as u8) as char)
    }
}

/// The decimal spelling of a signed value.
pub open spec fn dec_string(n: int) -> Seq<char> {
    if n < 0 {
        seq!['-'] + dec_digits(-n)
    } else {
        dec_digits(n)
    }
}

/// Appending a digit never shrinks the value.
proof fn lemma_digits_val_grows(s: Seq<char>, radix: int, k: int)
    requires
        2 <= radix <= 36,
        0 <= k <= s.len(),
        forall|i: int| 0 <= i < s.len() ==> 0 <= digit_val(#[trigger] s[i]) < radix,
    ensures
        digits_val(s, radix) >= digits_val(s.take(k), radix),
        digits_val(s, radix) >= 0,
    decreases s.len(),
{
    if s.len() == 0 {
    } else {
        assert(forall|i: int|
            0 <= i < s.drop_last().len() ==> #[trigger] s.drop_last()[i] == s[i]);
        lemma_digits_val_grows(s.drop_last(), radix, if k <= s.len() - 1 {
            k
        } else {
            s.len() - 1
        });
        assert(digits_val(s, radix) >= digits_val(s.drop_last(), radix)) by {
            assert(digit_val(s.last()) >= 0);
            assert(digits_val(s.drop_last(), radix) * radix >= digits_val(
                s.drop_last(),
                radix,
            )) by (nonlinear_arith)
                requires
                    radix >= 2,
                    digits_val(s.drop_last(), radix) >= 0,
            ;
        }
        if k == s.len() {
            assert(s.take(k) =~= s);
        } else {
            assert(s.take(k) =~= s.drop_last().take(k));
        }
    }
}

/// Every digit is below the radix, so the value is non-negative.
proof fn lemma_digits_val_step(s: Seq<char>, radix: int, k: int)
    requires
        0 <= k < s.len(),
    ensures
        digits_val(s.take(k + 1), radix) == digits_val(s.take(k), radix) * radix + digit_val(
            s[k],
        ),
{
    assert(s.take(k + 1).drop_last() =~= s.take(k));
    assert(s.take(k + 1).last() == s[k]);
}

/// Parse a non-empty run of digits of the radix into an unsigned
/// 64-bit-bounded magnitude, against the bound `limit`.
fn parse_digits(s: &str, start: usize, radix: u32, limit: u64) -> (r: Result<u64, ParseIntError>)
    requires
        start <= s@.len() <= usize::MAX,
        2 <= radix <= 36,
        limit == i64::MAX as u64 || limit == i64::MAX as u64 + 1,
    ensures
        ({
            let body = s@.skip(start as int);
            &&& (r is Ok <==> digits_ok(body, radix as int) && digits_val(body, radix as int)
                <= limit)
            &&& (r is Ok ==> r->Ok_0 == digits_val(body, radix as int))
        }),
{
    let ghost body = s@.skip(start as int);
    let n = s.unicode_len();
    if start >= n {
        proof {
            assert(body.len() == 0);
        }
        return Err(ParseIntError);
    }
    let mut mag: u64 = 0;
    let mut j: usize = start;
    while j < n
        invariant
            n == s@.len(),
            start <= j <= n,
            start < n,
            2 <= radix <= 36,
            i64::MAX as u64 <= limit <= i64::MAX as u64 + 1,
            body == s@.skip(start as int),
            body.len() == n - start,
            forall|i: int| 0 <= i < j - start ==> 0 <= digit_val(#[trigger] body[i]) < radix,
            mag == digits_val(body.take(j - start), radix as int),
            mag <= limit,
        decreases n - j,
    {
        let c = s.get_char(j);
        proof {
            assert(body[j - start] == s@[j as int]);
        }
        let code = c as u32;
        let d: u32 = if '0' <= c && c <= '9' {
            code - 48
        } else if 'a' <= c && c <= 'z' {
            code - 87
        } else if 'A' <= c && c <= 'Z' {
            code - 55
        } else {
            36
        };
        if d >= radix {
            proof {
                assert(digit_val(body[j - start]) >= radix);
                assert(!digits_ok(body, radix as int));
            }
            return Err(ParseIntError);
        }
        proof {
            assert(d == digit_val(body[j - start]));
            lemma_digits_val_step(body, radix as int, j - start);
        }
        proof {
            assert((d as u64) <= limit);
        }
        if mag > (limit - (d as u64)) / (radix as u64) {
            proof {
                let k = j - start;
                assert(digits_val(body.take(k + 1), radix as int) > limit) by (nonlinear_arith)
                    requires
                        digits_val(body.take(k + 1), radix as int) == digits_val(
                            body.take(k),
                            radix as int,
                        ) * radix + digit_val(body[k]),
                        digits_val(body.take(k), radix as int) == mag,
                        digit_val(body[k]) == d,
                        mag > ((limit - d) as u64 / (radix as u64)) as int,
                        mag >= 0,
                        0 <= d < radix,
                        2 <= radix <= 36,
                        d <= limit,
                        limit >= 0,
                ;
                assert(forall|i: int|
                    0 <= i < body.len() && !(0 <= digit_val(#[trigger] body[i]) < radix)
                        ==> !digits_ok(body, radix as int));
                if digits_ok(body, radix as int) {
                    assert(forall|i: int|
                        0 <= i < body.len() ==> 0 <= digit_val(#[trigger] body[i]) < radix);
                    lemma_digits_val_grows(body, radix as int, k + 1);
                }
            }
            return Err(ParseIntError);
        }
        proof {
            assert(mag * (radix as u64) + d <= limit) by (nonlinear_arith)
                requires
                    mag <= ((limit - d) as u64 / (radix as u64)) as int,
                    0 <= d < radix,
                    2 <= radix <= 36,
                    mag >= 0,
                    d <= limit,
                    limit >= 0,
            ;
        }
        mag = mag * (radix as u64) + (d as u64);
        j += 1;
    }
    proof {
        assert(body.take(n - start) =~= body);
        assert(digits_ok(body, radix as int));
    }
    Ok(mag)
}

/// Relies on String::from_utf8: bytes in the ASCII range decode to the
/// characters with the same code points.
#[verifier::external_body]
fn string_from_ascii(bytes: Vec<u8>) -> (r: String)
    requires
        forall|i: int| 0 <= i < bytes@.len() ==> bytes@[i] < 128,
    ensures
        r@.len() == bytes@.len(),
        forall|i: int| 0 <= i < bytes@.len() ==> r@[i] == (bytes@[i] as char),
{
    String::from_utf8(bytes).unwrap_or_default()
}

/// Render a signed 64-bit value in decimal.
pub fn render_decimal(v: i64) -> (r: String)
    ensures
        r@ == dec_string(v as int),
{
    let neg = v < 0;
    // Track the magnitude in unsigned arithmetic so the smallest value
    // needs no special case.
    let mut m: u64 = if v < 0 {
        (-(v + 1)) as u64 + 1
    } else {
        v as u64
    };
    let ghost m0 = m;
    let mut rev: Vec<u8> = Vec::new();
    loop
        invariant
            m <= m0,
            dec_digits(m0 as int) =~= dec_digits(m as int) + reversed_digits(rev@),
            forall|i: int| 0 <= i < rev@.len() ==> 48 <= #[trigger] rev@[i] < 58,
        ensures
            m < 10,
            dec_digits(m0 as int) =~= dec_digits(m as int) + reversed_digits(rev@),
            forall|i: int| 0 <= i < rev@.len() ==> 48 <= #[trigger] rev@[i] < 58,
        decreases m,
    {
        if m < 10 {
            break ;
        }
        let ghost rev0 = rev@;
        let d = (m % 10) as u8;
        rev.push(48 + d);
        proof {
            assert(rev@.drop_last() =~= rev0);
            assert(dec_digits(m as int) == dec_digits(m as int / 10).push(
                ((48 + m as int % 10) as u8) as char,
            ));
            lemma_reversed_push(rev0, (48 + d) as u8);
            assert(dec_digits(m as int / 10) + (seq![((48 + d) as char)] + reversed_digits(rev0))
                =~= (dec_digits(m as int / 10) + seq![((48 + d) as char)]) + reversed_digits(
                rev0,
            ));
            assert(dec_digits(m as int / 10) + seq![((48 + d) as char)] =~= dec_digits(
                m as int,
            ));
        }
        m = m / 10;
    }
    let mut out: Vec<u8> = Vec::new();
    if neg {
        out.push(45);
    }
    out.push(48 + (m as u8));
    let ghost head_len = out@.len();
    let mut k: usize = rev.len();
    while k > 0
        invariant
            0 <= k <= rev@.len(),
            out@.len() == head_len + (rev@.len() - k),
            head_len >= 1,
            out@.subrange(0, head_len as int) == (if neg {
                seq![45u8, ((48 + m) as u8)]
            } else {
                seq![((48 + m) as u8)]
            }),
            forall|i: int|
                head_len <= i < out@.len() ==> #[trigger] out@[i] == rev@[rev@.len() - 1 - (i
                    - head_len)],
            forall|i: int| 0 <= i < rev@.len() ==> 48 <= #[trigger] rev@[i] < 58,
            m < 10,
        decreases k,
    {
        let ghost out0 = out@;
        out.push(rev[k - 1]);
        proof {
            assert(out@.subrange(0, head_len as int) =~= out0.subrange(0, head_len as int));
        }
        k -= 1;
    }
    proof {
        assert forall|i: int| 0 <= i < out@.len() implies #[trigger] out@[i] < 128 by {
            if i < head_len {
                assert(out@.subrange(0, head_len as int)[i] == out@[i]);
            }
        }
    }
    let r = string_from_ascii(out);
    proof {
        lemma_render_chars(r@, m as int, rev@, m0 as int, neg, v as int, head_len as int, out@);
    }
    r
}

/// The digit characters of a reversed byte stack, oldest digit last.
pub open spec fn reversed_digits(rev: Seq<u8>) -> Seq<char>
    decreases rev.len(),
{
    if rev.len() == 0 {
        Seq::empty()
    } else {
        seq![(rev.last() as char)] + reversed_digits(rev.drop_last())
    }
}

proof fn lemma_reversed_push(rev: Seq<u8>, b: u8)
    ensures
        reversed_digits(rev.push(b)) == seq![(b as char)] + reversed_digits(rev),
{
    assert(rev.push(b).drop_last() =~= rev);
    assert(rev.push(b).last() == b);
}

/// Assemble the final correspondence between the byte buffer and the
/// decimal spelling.
proof fn lemma_render_chars(
    rs: Seq<char>,
    m: int,
    rev: Seq<u8>,
    m0: int,
    neg: bool,
    v: int,
    head_len: int,
    out: Seq<u8>,
)
    requires
        m0 >= 0,
        0 <= m < 10,
        dec_digits(m0) == dec_digits(m) + reversed_digits(rev),
        forall|i: int| 0 <= i < rev.len() ==> 48 <= #[trigger] rev[i] < 58,
        head_len == (if neg {
            2int
        } else {
            1int
        }),
        out.len() == head_len + rev.len(),
        out.subrange(0, head_len) == (if neg {
            seq![45u8, (48 + m) as u8]
        } else {
            seq![((48 + m) as u8)]
        }),
        forall|i: int|
            head_len <= i < out.len() ==> #[trigger] out[i] == rev[rev.len() - 1 - (i
                - head_len)],
        rs.len() == out.len(),
        forall|i: int| 0 <= i < out.len() ==> #[trigger] rs[i] == (out[i] as char),
        neg ==> v < 0 && m0 == -v,
        !neg ==> v >= 0 && m0 == v,
    ensures
        rs == dec_string(v),
{
    lemma_reversed_index(rev);
    assert(dec_digits(m) =~= seq![((48 + m) as u8) as char]);
    assert(dec_digits(m0).len() == 1 + rev.len());
    assert(forall|i: int|
        0 <= i < head_len ==> #[trigger] out.subrange(0, head_len)[i] == out[i]);
    assert forall|i: int| 0 <= i < rs.len() implies rs[i] == dec_string(v)[i] by {
        if neg {
            if i == 0 {
                assert(out.subrange(0, head_len)[0] == out[0]);
                assert(out[0] == 45);
                assert(rs[0] == (45u8 as char));
                assert(dec_string(v)[0] == '-');
                assert((45u8 as char) == '-');
            } else if i == 1 {
                assert(out.subrange(0, head_len)[1] == out[1]);
                assert(out[1] == (48 + m) as u8);
                assert(dec_string(v)[1] == dec_digits(m0)[0]);
                assert(dec_digits(m0)[0] == dec_digits(m)[0]);
            } else {
                assert(out[i] == rev[rev.len() - 1 - (i - 2)]);
                assert(dec_string(v)[i] == dec_digits(m0)[i - 1]);
                assert(dec_digits(m0)[i - 1] == reversed_digits(rev)[i - 2]);
                assert(reversed_digits(rev)[i - 2] == (rev[rev.len() - 1 - (i - 2)] as char));
            }
        } else {
            if i == 0 {
                assert(out.subrange(0, head_len)[0] == out[0]);
                assert(out[0] == (48 + m) as u8);
                assert(dec_string(v)[0] == dec_digits(m0)[0]);
                assert(dec_digits(m0)[0] == dec_digits(m)[0]);
            } else {
                assert(out[i] == rev[rev.len() - 1 - (i - 1)]);
                assert(dec_string(v)[i] == dec_digits(m0)[i]);
                assert(dec_digits(m0)[i] == reversed_digits(rev)[i - 1]);
                assert(reversed_digits(rev)[i - 1] == (rev[rev.len() - 1 - (i - 1)] as char));
            }
        }
    }
    assert(rs =~= dec_string(v));
}

/// Index form of [`reversed_digits`].
proof fn lemma_reversed_index(rev: Seq<u8>)
    ensures
        reversed_digits(rev).len() == rev.len(),
        forall|i: int|
            0 <= i < rev.len() ==> #[trigger] reversed_digits(rev)[i] == (rev[rev.len() - 1
                - i] as char),
    decreases rev.len(),
{
    if rev.len() > 0 {
        lemma_reversed_index(rev.drop_last());
        assert forall|i: int| 0 <= i < rev.len() implies #[trigger] reversed_digits(rev)[i] == (
        rev[rev.len() - 1 - i] as char) by {
            if i > 0 {
                assert(reversed_digits(rev)[i] == reversed_digits(rev.drop_last())[i - 1]);
                assert(rev.drop_last()[rev.drop_last().len() - 1 - (i - 1)] == rev[rev.len() - 1
                    - i]);
            }
        }
    }
}


/// Normalize a numeric literal to its decimal spelling.
///
/// A leading `0b`/`0B` or `0x`/`0X` selects binary or hexadecimal for the
/// rest of the literal; any other literal with a leading zero and a second
/// character is octal as a whole; everything else is decimal.  The selected
/// part must be an optional sign followed by at least one digit of the
/// radix, and its value must fit a signed 64-bit integer; any other input
/// is rejected.
pub fn to_decimal(s: &str) -> (r: Result<String, ParseIntError>)
    ensures
        r is Ok <==> parse_ok(num_part(s@), radix_of(s@)),
        r is Ok ==> r->Ok_0@ == dec_string(signed_val(num_part(s@), radix_of(s@))),
{
    let n = s.unicode_len();
    let mut radix: u32 = 10;
    let mut start0: usize = 0;
    if n > 1 && s.get_char(0) == '0' {
        let c1 = s.get_char(1);
        if c1 == 'b' || c1 == 'B' {
            radix = 2;
            start0 = 2;
        } else if c1 == 'x' || c1 == 'X' {
            radix = 16;
            start0 = 2;
        } else {
            radix = 8;
            start0 = 0;
        }
    }
    let ghost num = num_part(s@);
    proof {
        assert(num =~= s@.skip(start0 as int));
        assert(radix == radix_of(s@));
    }
    let mut neg = false;
    let mut dstart: usize = start0;
    if start0 < n {
        let c = s.get_char(start0);
        if c == '-' {
            neg = true;
            dstart = start0 + 1;
        } else if c == '+' {
            dstart = start0 + 1;
        }
    }
    proof {
        assert(sign_body(num) =~= s@.skip(dstart as int));
        if num.len() > 0 && num[0] == '-' {
            assert(neg);
        } else {
            assert(!neg);
        }
    }
    let limit: u64 = if neg {
        i64::MAX as u64 + 1
    } else {
        i64::MAX as u64
    };
    match parse_digits(s, dstart, radix, limit) {
        Err(e) => {
            proof {
                if parse_ok(num, radix as int) {
                    assert(digits_ok(sign_body(num), radix as int));
                    assert(forall|i: int|
                        0 <= i < sign_body(num).len() ==> 0 <= digit_val(
                            #[trigger] sign_body(num)[i],
                        ) < radix);
                    lemma_digits_val_grows(
                        sign_body(num),
                        radix as int,
                        sign_body(num).len() as int,
                    );
                    assert(digits_val(sign_body(num), radix as int) <= limit);
                }
            }
            Err(e)
        },
        Ok(mag) => {
            let v: i64 = if neg {
                if mag == i64::MAX as u64 + 1 {
                    i64::MIN
                } else {
                    -(mag as i64)
                }
            } else {
                mag as i64
            };
            proof {
                assert(v as int == signed_val(num, radix as int));
                assert(parse_ok(num, radix as int));
            }
            Ok(render_decimal(v))
        },
    }
}

} // verus!
