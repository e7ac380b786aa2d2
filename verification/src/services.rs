//! The domain service handlers: echo and base-10 to binary conversion.
//!
//! Both are pure functions from a request payload to a reply payload, so
//! one slow or failing request can never corrupt the handling of the
//! next. The conversion service parses its payload as a signed 64-bit
//! decimal integer and answers with the integer's two's-complement binary
//! text prefixed `0b`; a payload that is no such integer gets a fixed
//! error text rather than a failure.

use vstd::prelude::*;
use vstd::string::*;

verus! {

/// A decimal digit.
pub open spec fn is_digit(c: char) -> bool {
    '0' <= c && c <= '9'
}

/// The numeric value of one decimal digit.
pub open spec fn digit_val(c: char) -> int {
    c as int - '0' as int
}

/// Every character is a decimal digit.
pub open spec fn all_digits(s: Seq<char>) -> bool {
    forall|i: int| 0 <= i < s.len() ==> is_digit(#[trigger] s[i])
}

/// The value of a digit string read in base 10.
pub open spec fn dec_val(s: Seq<char>) -> int
    decreases s.len(),
{
    if s.len() == 0 {
        0
    } else {
        dec_val(s.drop_last()) * 10 + digit_val(s.last())
    }
}

/// The digits of a signed decimal string: everything after an optional
/// leading `+` or `-`.
pub open spec fn int_body(s: Seq<char>) -> Seq<char> {
    if s.len() > 0 && (s[0] == '+' || s[0] == '-') {
        s.drop_first()
    } else {
        s
    }
}

/// Whether a signed decimal string denotes a negative number.
pub open spec fn int_negative(s: Seq<char>) -> bool {
    s.len() > 0 && s[0] == '-'
}

/// The strings accepted as a signed 64-bit integer: an optional sign,
/// then one or more digits, with the value in range.
pub open spec fn is_i64_str(s: Seq<char>) -> bool {
    &&& int_body(s).len() > 0
    &&& all_digits(int_body(s))
    &&& if int_negative(s) {
        dec_val(int_body(s)) <= 0x8000_0000_0000_0000
    } else {
        dec_val(int_body(s)) <= 0x7fff_ffff_ffff_ffff
    }
}

/// The value a signed decimal string denotes.
pub open spec fn i64_str_val(s: Seq<char>) -> int {
    if int_negative(s) {
        -dec_val(int_body(s))
    } else {
        dec_val(int_body(s))
    }
}

proof fn lemma_dec_val_nonneg(s: Seq<char>)
    requires
        all_digits(s),
    ensures
        dec_val(s) >= 0,
    decreases s.len(),
{
    if s.len() > 0 {
        lemma_dec_val_nonneg(s.drop_last());
    }
}

/// Reading more digits never shrinks the value.
proof fn lemma_dec_val_prefix_le(s: Seq<char>, i: int)
    requires
        all_digits(s),
        0 <= i <= s.len(),
    ensures
        dec_val(s.subrange(0, i)) <= dec_val(s),
    decreases s.len(),
{
    if i == s.len() {
        assert(s.subrange(0, i) =~= s);
    } else {
        assert(s.drop_last() =~= s.subrange(0, s.len() - 1));
        assert(s.drop_last().subrange(0, i) =~= s.subrange(0, i));
        lemma_dec_val_prefix_le(s.drop_last(), i);
        lemma_dec_val_nonneg(s.drop_last());
        lemma_dec_val_nonneg(s.subrange(0, i));
    }
}

/// Parses a string as a signed 64-bit decimal integer, accepting exactly
/// an optional `+` or `-` followed by one or more digits whose value is
/// in range.
pub fn parse_i64(s: &str) -> (r: Option<i64>)
    ensures
        match r {
            Some(v) => is_i64_str(s@) && v as int == i64_str_val(s@),
            None => !is_i64_str(s@),
        },
{
    let n = s.unicode_len();
    if n == 0 {
        return None;
    }
    let first = s.get_char(0);
    let neg = first == '-';
    let start: usize = if first == '-' || first == '+' {
        1
    } else {
        0
    };
    proof {
        assert(int_body(s@) =~= s@.subrange(start as int, n as int));
    }
    if start == n {
        return None;
    }
    let limit: u128 = if neg {
        0x8000_0000_0000_0000
    } else {
        0x7fff_ffff_ffff_ffff
    };
    let mut acc: u128 = 0;
    let mut i: usize = start;
    proof {
        assert(s@.subrange(start as int, start as int) =~= Seq::<char>::empty());
    }
    while i < n
        invariant
            n == s@.len(),
            start <= i <= n,
            n > start,
            int_body(s@) =~= s@.subrange(start as int, n as int),
            all_digits(s@.subrange(start as int, i as int)),
            acc == dec_val(s@.subrange(start as int, i as int)),
            acc <= limit,
            limit == if neg {
                0x8000_0000_0000_0000u128
            } else {
                0x7fff_ffff_ffff_ffffu128
            },
            neg == int_negative(s@),
        decreases n - i,
    {
        let c = s.get_char(i);
        let ghost body = int_body(s@);
        if !('0' <= c && c <= '9') {
            proof {
                assert(body[i - start] == c);
                assert(!is_digit(body[i - start]));
            }
            return None;
        }
        let d: u128 = ((c as u32) - ('0' as u32)) as u128;
        let next = acc * 10 + d;
        proof {
            assert(s@.subrange(start as int, i as int + 1).drop_last() =~= s@.subrange(
                start as int,
                i as int,
            ));
            assert(s@.subrange(start as int, i as int + 1).last() == s@[i as int]);
        }
        if next > limit {
            proof {
                if is_i64_str(s@) {
                    assert(body.subrange(0, i - start + 1) =~= s@.subrange(
                        start as int,
                        i as int + 1,
                    ));
                    lemma_dec_val_prefix_le(body, i - start + 1);
                }
            }
            return None;
        }
        acc = next;
        i = i + 1;
    }
    proof {
        assert(s@.subrange(start as int, n as int) =~= int_body(s@));
    }
    if neg {
        if acc == 0x8000_0000_0000_0000 {
            Some(-0x8000_0000_0000_0000i64)
        } else {
            Some(-((acc as u64) as i64))
        }
    } else {
        Some((acc as u64) as i64)
    }
}

/// The binary digits of a number, most significant first; none for zero.
pub open spec fn bin_digits(v: nat) -> Seq<char>
    decreases v,
{
    if v == 0 {
        Seq::empty()
    } else {
        bin_digits(v / 2) + seq![
            if v % 2 == 1 {
                '1'
            } else {
                '0'
            },
        ]
    }
}

/// The binary text of a number: its digits, or `0` for zero.
pub open spec fn spec_binary(v: nat) -> Seq<char> {
    if v == 0 {
        seq!['0']
    } else {
        bin_digits(v)
    }
}

/// The 64-bit two's-complement image of a signed value, as a number.
pub open spec fn spec_u64_bits(v: int) -> nat {
    if v >= 0 {
        v as nat
    } else {
        (v + 0x1_0000_0000_0000_0000) as nat
    }
}

/// Appends the binary digits of `u` to `out`.
fn push_bin(u: u64, out: &mut String)
    ensures
        final(out)@ == old(out)@ + bin_digits(u as nat),
    decreases u,
{
    if u == 0 {
        proof {
            assert(old(out)@ + bin_digits(0) =~= old(out)@);
        }
        return ;
    }
    push_bin(u / 2, out);
    if u % 2 == 1 {
        out.append("1");
        proof {
            reveal_strlit("1");
            assert(final(out)@ =~= old(out)@ + bin_digits(u as nat));
        }
    } else {
        out.append("0");
        proof {
            reveal_strlit("0");
            assert(final(out)@ =~= old(out)@ + bin_digits(u as nat));
        }
    }
}

/// The binary text of an unsigned 64-bit value.
pub fn to_binary(u: u64) -> (r: String)
    ensures
        r@ == spec_binary(u as nat),
{
    let mut out = String::new();
    if u == 0 {
        out.append("0");
        proof {
            reveal_strlit("0");
            assert(out@ =~= spec_binary(0));
        }
    } else {
        push_bin(u, &mut out);
        proof {
            assert(out@ =~= spec_binary(u as nat));
        }
    }
    out
}

/// The 64-bit two's-complement image of a signed value.
pub fn i64_bits(v: i64) -> (u: u64)
    ensures
        u as nat == spec_u64_bits(v as int),
{
    if v >= 0 {
        v as u64
    } else {
        let w: i128 = (v as i128) + 0x1_0000_0000_0000_0000i128;
        w as u64
    }
}

/// One decimal digit as a character.
pub open spec fn digit_char(d: nat) -> char {
    if d == 0 {
        '0'
    } else if d == 1 {
        '1'
    } else if d == 2 {
        '2'
    } else if d == 3 {
        '3'
    } else if d == 4 {
        '4'
    } else if d == 5 {
        '5'
    } else if d == 6 {
        '6'
    } else if d == 7 {
        '7'
    } else if d == 8 {
        '8'
    } else {
        '9'
    }
}

/// The decimal digits of a number, most significant first; none for zero.
pub open spec fn dec_digits(v: nat) -> Seq<char>
    decreases v,
{
    if v == 0 {
        Seq::empty()
    } else {
        dec_digits(v / 10) + seq![digit_char(v % 10)]
    }
}

/// The decimal text of a number: its digits, or `0` for zero.
pub open spec fn spec_decimal(v: nat) -> Seq<char> {
    if v == 0 {
        seq!['0']
    } else {
        dec_digits(v)
    }
}

/// One decimal digit as text.
fn digit_str(d: u64) -> (r: &'static str)
    requires
        d < 10,
    ensures
        r@ == seq![digit_char(d as nat)],
{
    if d == 0 {
        proof {
            reveal_strlit("0");
            assert("0"@ =~= seq![digit_char(0)]);
        }
        "0"
    } else if d == 1 {
        proof {
            reveal_strlit("1");
            assert("1"@ =~= seq![digit_char(1)]);
        }
        "1"
    } else if d == 2 {
        proof {
            reveal_strlit("2");
            assert("2"@ =~= seq![digit_char(2)]);
        }
        "2"
    } else if d == 3 {
        proof {
            reveal_strlit("3");
            assert("3"@ =~= seq![digit_char(3)]);
        }
        "3"
    } else if d == 4 {
        proof {
            reveal_strlit("4");
            assert("4"@ =~= seq![digit_char(4)]);
        }
        "4"
    } else if d == 5 {
        proof {
            reveal_strlit("5");
            assert("5"@ =~= seq![digit_char(5)]);
        }
        "5"
    } else if d == 6 {
        proof {
            reveal_strlit("6");
            assert("6"@ =~= seq![digit_char(6)]);
        }
        "6"
    } else if d == 7 {
        proof {
            reveal_strlit("7");
            assert("7"@ =~= seq![digit_char(7)]);
        }
        "7"
    } else if d == 8 {
        proof {
            reveal_strlit("8");
            assert("8"@ =~= seq![digit_char(8)]);
        }
        "8"
    } else {
        proof {
            reveal_strlit("9");
            assert("9"@ =~= seq![digit_char(9)]);
        }
        "9"
    }
}

/// Appends the decimal digits of `u` to `out`.
fn push_dec(u: u64, out: &mut String)
    ensures
        final(out)@ == old(out)@ + dec_digits(u as nat),
    decreases u,
{
    if u == 0 {
        proof {
            assert(old(out)@ + dec_digits(0) =~= old(out)@);
        }
        return ;
    }
    push_dec(u / 10, out);
    let digit = digit_str(u % 10);
    out.append(digit);
    proof {
        assert(final(out)@ =~= old(out)@ + dec_digits(u as nat));
    }
}

/// The decimal text of an unsigned 64-bit value.
pub fn to_decimal(u: u64) -> (r: String)
    ensures
        r@ == spec_decimal(u as nat),
{
    let mut out = String::new();
    if u == 0 {
        out.append("0");
        proof {
            reveal_strlit("0");
            assert(out@ =~= spec_decimal(0));
        }
    } else {
        push_dec(u, &mut out);
        proof {
            assert(out@ =~= spec_decimal(u as nat));
        }
    }
    out
}

/// The echo service: replies with the request text behind an `Echo: `
/// prefix.
pub fn echo_reply(msg: &str) -> (r: String)
    ensures
        r@ == "Echo: "@ + msg@,
{
    let mut out = "Echo: ".to_owned();
    out.append(msg);
    out
}

/// The conversion service: replies with the two's-complement binary text
/// of the request read as a signed 64-bit decimal integer, prefixed
/// `0b`, or with a fixed error text when the request is no such integer.
pub fn convert_reply(msg: &str) -> (r: String)
    ensures
        is_i64_str(msg@) ==> r@ == "0b"@ + spec_binary(spec_u64_bits(i64_str_val(msg@))),
        !is_i64_str(msg@) ==> r@ == "Error: not an integer"@,
{
    match parse_i64(msg) {
        Some(v) => {
            let u = i64_bits(v);
            let mut out = "0b".to_owned();
            if u == 0 {
                out.append("0");
                proof {
                    reveal_strlit("0");
                    assert(out@ =~= "0b"@ + spec_binary(0));
                }
            } else {
                push_bin(u, &mut out);
            }
            out
        },
        None => "Error: not an integer".to_owned(),
    }
}

} // verus!
