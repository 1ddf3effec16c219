//! Byte-level text primitives shared by the protocol parsers: conversions
//! between byte sequences and strings, decimal parsing and formatting, and
//! parsing of signed decimal coordinates into micro-degrees.

use vstd::prelude::*;
use vstd::string::StrSliceExecFns;

verus! {

/// The characters a byte sequence turns into, one character per byte.
/// The legacy protocol documents are ASCII, where this agrees with UTF-8.
pub open spec fn chars_of_bytes(s: Seq<u8>) -> Seq<char> {
    Seq::new(s.len(), |i: int| s[i] as char)
}

/// Relies on `String::push`: appends one character to the string.
#[verifier::external_body]
fn push_char(s: &mut String, c: char)
    ensures
        final(s)@ == old(s)@.push(c),
{
    s.push(c);
}

/// Builds the string whose characters are the given bytes, one per byte.
pub fn bytes_to_string(v: &[u8]) -> (r: String)
    ensures
        r@ == chars_of_bytes(v@),
{
    let mut r = String::new();
    let mut i: usize = 0;
    while i < v.len()
        invariant
            i <= v@.len(),
            r@ == chars_of_bytes(v@.subrange(0, i as int)),
        decreases v@.len() - i,
    {
        push_char(&mut r, v[i] as char);
        assert(chars_of_bytes(v@.subrange(0, i + 1 as int)) == chars_of_bytes(
            v@.subrange(0, i as int),
        ).push(v@[i as int] as char));
        i = i + 1;
    }
    assert(v@.subrange(0, v@.len() as int) == v@);
    r
}

/// Whether the bytes spell, one character per byte, the same text as `t`.
pub fn str_eq_bytes(a: &[u8], t: &str) -> (r: bool)
    ensures
        r == (chars_of_bytes(a@) == t@),
{
    let n = t.unicode_len();
    if a.len() != n {
        assert(chars_of_bytes(a@).len() != t@.len());
        return false;
    }
    let mut i: usize = 0;
    while i < n
        invariant
            i <= n == a@.len() == t@.len(),
            forall|j: int| 0 <= j < i ==> chars_of_bytes(a@)[j] == t@[j],
        decreases n - i,
    {
        let c = t.get_char(i);
        if a[i] as char != c {
            assert(chars_of_bytes(a@)[i as int] != t@[i as int]);
            return false;
        }
        assert(chars_of_bytes(a@)[i as int] == t@[i as int]);
        i = i + 1;
    }
    assert(chars_of_bytes(a@) =~= t@);
    true
}

/// Whether `b` is an ASCII decimal digit.
pub open spec fn is_digit(b: u8) -> bool {
    48 <= b <= 57
}

/// Whether `s` is one or more ASCII decimal digits.
pub open spec fn all_digits(s: Seq<u8>) -> bool {
    forall|i: int| 0 <= i < s.len() ==> is_digit(#[trigger] s[i])
}

/// The value of a sequence of decimal digit bytes.
pub open spec fn dec_val(s: Seq<u8>) -> nat
    decreases s.len(),
{
    if s.len() == 0 {
        0
    } else {
        dec_val(s.drop_last()) * 10 + (s.last() - 48) as nat
    }
}

/// What parsing an unsigned decimal numeral yields: defined exactly when the
/// input is one or more digits and its value fits in a `u64`.
pub open spec fn spec_parse_u64(s: Seq<u8>) -> Option<u64> {
    if s.len() > 0 && all_digits(s) && dec_val(s) <= u64::MAX {
        Some(dec_val(s) as u64)
    } else {
        None
    }
}

/// Parses an unsigned decimal numeral.
pub fn parse_u64(s: &[u8]) -> (r: Option<u64>)
    ensures
        r == spec_parse_u64(s@),
{
    if s.len() == 0 {
        return None;
    }
    let mut acc: u64 = 0;
    let mut too_big: bool = false;
    let mut i: usize = 0;
    while i < s.len()
        invariant
            i <= s@.len(),
            all_digits(s@.subrange(0, i as int)),
            !too_big ==> acc == dec_val(s@.subrange(0, i as int)),
            too_big ==> dec_val(s@.subrange(0, i as int)) > u64::MAX,
            forall|j: int| 0 <= j < i ==> is_digit(#[trigger] s@[j]),
        decreases s@.len() - i,
    {
        let b = s[i];
        if b < 48 || b > 57 {
            return None;
        }
        let d: u64 = (b - 48) as u64;
        let ghost pre = s@.subrange(0, i as int);
        let ghost cur = s@.subrange(0, i + 1 as int);
        assert(cur.drop_last() =~= pre);
        assert(dec_val(cur) == dec_val(pre) * 10 + d);
        if too_big {
            assert(dec_val(pre) * 10 >= dec_val(pre)) by (nonlinear_arith)
                requires
                    dec_val(pre) >= 0,
            ;
        } else {
            if acc > (u64::MAX - d) / 10 {
                too_big = true;
                assert(dec_val(pre) * 10 + d > u64::MAX) by (nonlinear_arith)
                    requires
                        dec_val(pre) == acc,
                        acc > ((u64::MAX - d) / 10) as int,
                        0 <= d <= 9,
                ;
            } else {
                assert(acc * 10 + d <= u64::MAX) by (nonlinear_arith)
                    requires
                        acc <= ((u64::MAX - d) / 10) as int,
                        0 <= d <= 9,
                ;
                acc = acc * 10 + d;
            }
        }
        i = i + 1;
    }
    assert(s@.subrange(0, s@.len() as int) =~= s@);
    if too_big {
        None
    } else {
        Some(acc)
    }
}

/// Parses an unsigned decimal numeral that must also fit in a `usize`.
pub fn parse_usize(s: &[u8]) -> (r: Option<usize>)
    ensures
        r is Some <==> (spec_parse_u64(s@) is Some && spec_parse_u64(s@).unwrap()
            <= usize::MAX),
        r is Some ==> r.unwrap() == spec_parse_u64(s@).unwrap(),
{
    match parse_u64(s) {
        Some(v) => {
            if v <= usize::MAX as u64 {
                Some(v as usize)
            } else {
                None
            }
        },
        None => None,
    }
}

/// Parses an unsigned decimal numeral that must also fit in a `u32`.
pub fn parse_u32(s: &[u8]) -> (r: Option<u32>)
    ensures
        r is Some <==> (spec_parse_u64(s@) is Some && spec_parse_u64(s@).unwrap()
            <= u32::MAX),
        r is Some ==> r.unwrap() == spec_parse_u64(s@).unwrap(),
{
    match parse_u64(s) {
        Some(v) => {
            if v <= u32::MAX as u64 {
                Some(v as u32)
            } else {
                None
            }
        },
        None => None,
    }
}

/// The index of the first occurrence of `b` in `s`, if any.
pub open spec fn find_byte(s: Seq<u8>, b: u8) -> Option<int>
    decreases s.len(),
{
    if s.len() == 0 {
        None
    } else if s[0] == b {
        Some(0)
    } else {
        match find_byte(s.skip(1), b) {
            Some(i) => Some(i + 1),
            None => None,
        }
    }
}

/// What `find_byte` yields: the first position holding `b`.
pub proof fn lemma_find_byte(s: Seq<u8>, b: u8)
    ensures
        match find_byte(s, b) {
            Some(i) => 0 <= i < s.len() && s[i] == b && forall|j: int|
                0 <= j < i ==> s[j] != b,
            None => forall|j: int| 0 <= j < s.len() ==> s[j] != b,
        },
    decreases s.len(),
{
    if s.len() > 0 && s[0] != b {
        lemma_find_byte(s.skip(1), b);
        match find_byte(s.skip(1), b) {
            Some(i) => {
                assert(forall|j: int| 1 <= j < i + 1 ==> s[j] == s.skip(1)[j - 1]);
            },
            None => {
                assert(forall|j: int| 1 <= j < s.len() ==> s[j] == s.skip(1)[j - 1]);
            },
        }
    }
}

/// Finds the first occurrence of `b` in `s`.
pub fn find_byte_at(s: &[u8], b: u8) -> (r: Option<usize>)
    ensures
        match r {
            Some(i) => find_byte(s@, b) == Some(i as int),
            None => find_byte(s@, b) is None,
        },
{
    let mut i: usize = 0;
    while i < s.len()
        invariant
            i <= s@.len(),
            forall|j: int| 0 <= j < i ==> s@[j] != b,
        decreases s@.len() - i,
    {
        if s[i] == b {
            proof {
                lemma_find_byte(s@, b);
                if find_byte(s@, b) is None {
                    assert(false);
                }
                let k = find_byte(s@, b).unwrap();
                assert(k == i);
            }
            return Some(i);
        }
        i = i + 1;
    }
    proof {
        lemma_find_byte(s@, b);
        if find_byte(s@, b) is Some {
            let k = find_byte(s@, b).unwrap();
            assert(s@[k] != b);
        }
    }
    None
}

/// Ten to the power `n`.
pub open spec fn pow10(n: nat) -> nat
    decreases n,
{
    if n == 0 {
        1
    } else {
        10 * pow10((n - 1) as nat)
    }
}

/// The value, in millionths, of a fractional-digit run: the first six digits
/// are kept (scaled so that one digit counts as tenths, two as hundredths,
/// and so on); digits beyond the sixth are dropped.
pub open spec fn frac_micro(fr: Seq<u8>) -> nat {
    if fr.len() >= 6 {
        dec_val(fr.take(6))
    } else {
        dec_val(fr) * pow10((6 - fr.len()) as nat)
    }
}

/// What parsing a signed decimal coordinate yields, in micro-units: an
/// optional minus sign, one or more integer digits, and optionally a point
/// followed by one or more fractional digits.
pub open spec fn spec_parse_micro(s: Seq<u8>) -> Option<int> {
    let neg = s.len() > 0 && s[0] == 45;
    let body = if neg {
        s.skip(1)
    } else {
        s
    };
    let sign: int = if neg {
        -1
    } else {
        1
    };
    match find_byte(body, 46) {
        None => if body.len() > 0 && all_digits(body) {
            Some(sign * (dec_val(body) * 1000000))
        } else {
            None
        },
        Some(p) => {
            let ip = body.take(p);
            let fr = body.skip(p + 1);
            if ip.len() > 0 && fr.len() > 0 && all_digits(ip) && all_digits(fr) {
                Some(sign * (dec_val(ip) * 1000000 + frac_micro(fr)))
            } else {
                None
            }
        },
    }
}

/// Parses a signed decimal coordinate into micro-units, rejecting values
/// whose magnitude exceeds `limit`.
#[verifier::loop_isolation(false)]
pub fn parse_micro_deg(s: &[u8], limit: i64) -> (r: Option<i64>)
    requires
        0 <= limit <= 0x7fff_ffff_ffff,
    ensures
        match spec_parse_micro(s@) {
            Some(v) => if -limit <= v <= limit {
                r == Some(v as i64)
            } else {
                r is None
            },
            None => r is None,
        },
{
    let neg = s.len() > 0 && s[0] == 45;
    let body: &[u8] = if neg {
        vstd::slice::slice_subrange(s, 1, s.len())
    } else {
        s
    };
    let ghost sign: int = if neg {
        -1
    } else {
        1
    };
    proof {
        if neg {
            assert(body@ =~= s@.skip(1));
        }
    }
    let lim = limit as u64;
    proof {
        vstd::arithmetic::div_mod::lemma_fundamental_div_mod(lim as int, 1000000);
    }
    let cap: u64 = lim / 1000000;
    let magnitude: u64;
    match find_byte_at(body, 46) {
        None => {
            match parse_u64(body) {
                Some(v) => {
                    if v > cap {
                        proof {
                            lemma_sign_mul(sign, (dec_val(body@) * 1000000) as int);
                        }
                        return None;
                    }
                    magnitude = v * 1000000;
                },
                None => {
                    proof {
                        // An overflowing numeral is beyond any permitted limit.
                        if body@.len() > 0 && all_digits(body@) {
                            lemma_micro_scale_grows(dec_val(body@));
                            lemma_sign_mul(sign, (dec_val(body@) * 1000000) as int);
                        }
                    }
                    return None;
                },
            }
        },
        Some(p) => {
            proof {
                lemma_find_byte(body@, 46);
            }
            let ip = vstd::slice::slice_subrange(body, 0, p);
            let fr = vstd::slice::slice_subrange(body, p + 1, body.len());
            proof {
                assert(ip@ =~= body@.take(p as int));
                assert(fr@ =~= body@.skip(p + 1));
            }
            if fr.len() == 0 {
                return None;
            }
            let ipv: u64;
            match parse_u64(ip) {
                Some(v) => {
                    if v > cap {
                        proof {
                            lemma_sign_mul(
                                sign,
                                (dec_val(ip@) * 1000000 + frac_micro(fr@)) as int,
                            );
                        }
                        return None;
                    }
                    ipv = v;
                },
                None => {
                    proof {
                        if ip@.len() > 0 && all_digits(ip@) {
                            lemma_micro_scale_grows(dec_val(ip@));
                            lemma_sign_mul(
                                sign,
                                (dec_val(ip@) * 1000000 + frac_micro(fr@)) as int,
                            );
                        }
                    }
                    return None;
                },
            }
            if fr.len() > 6 {
                // Digits past the sixth carry no weight but must still be digits.
                let mut k: usize = 6;
                while k < fr.len()
                    invariant
                        6 <= k <= fr@.len(),
                        forall|j: int| 6 <= j < k ==> is_digit(#[trigger] fr@[j]),
                    decreases fr@.len() - k,
                {
                    let b = fr[k];
                    if b < 48 || b > 57 {
                        proof {
                            assert(!is_digit(fr@[k as int]));
                            assert(!all_digits(fr@));
                            assert(find_byte(body@, 46) == Some(p as int));
                            assert(body@.skip(p as int + 1) == fr@);
                            assert(spec_parse_micro(s@) is None);
                        }
                        return None;
                    }
                    k = k + 1;
                }
            }
            let fr6: &[u8] = if fr.len() >= 6 {
                vstd::slice::slice_subrange(fr, 0, 6)
            } else {
                fr
            };
            proof {
                if fr@.len() >= 6 {
                    assert(fr6@ =~= fr@.take(6));
                }
                lemma_pow10_vals();
            }
            let frv: u64;
            match parse_u64(fr6) {
                Some(v) => {
                    let mut scaled: u64 = v;
                    let mut k: usize = fr6.len();
                    assert(dec_val(fr6@) <= 999999) by {
                        lemma_dec_val_digit_bound(fr6@);
                        lemma_pow10_vals();
                    }
                    proof {
                        lemma_pow10_vals();
                        assert((k - fr6@.len()) as nat == 0);
                        lemma_mul_one(dec_val(fr6@), pow10((k - fr6@.len()) as nat));
                    }
                    while k < 6
                        invariant
                            1 <= fr6@.len() <= k <= 6,
                            scaled == dec_val(fr6@) * pow10((k - fr6@.len()) as nat),
                            dec_val(fr6@) <= 999999,
                        decreases 6 - k,
                    {
                        proof {
                            lemma_pow10_vals();
                            lemma_pow10_le(((k - fr6@.len()) as nat), 5);
                            assert(scaled <= 999999 * 100000) by (nonlinear_arith)
                                requires
                                    scaled == dec_val(fr6@) * pow10((k - fr6@.len()) as nat),
                                    dec_val(fr6@) <= 999999,
                                    pow10((k - fr6@.len()) as nat) <= 100000,
                            ;
                            assert(pow10((k + 1 - fr6@.len()) as nat) == 10 * pow10(
                                (k - fr6@.len()) as nat,
                            ));
                            assert(dec_val(fr6@) * pow10((k + 1 - fr6@.len()) as nat) == (dec_val(
                                fr6@,
                            ) * pow10((k - fr6@.len()) as nat)) * 10) by (nonlinear_arith)
                                requires
                                    pow10((k + 1 - fr6@.len()) as nat) == 10 * pow10(
                                        (k - fr6@.len()) as nat,
                                    ),
                            ;
                        }
                        scaled = scaled * 10;
                        k = k + 1;
                    }
                    frv = scaled;
                    proof {
                        lemma_pow10_vals();
                        lemma_pow10_le(((6 - fr6@.len()) as nat), 5);
                        assert(frv <= 999999 * 100000) by (nonlinear_arith)
                            requires
                                frv == dec_val(fr6@) * pow10((6 - fr6@.len()) as nat),
                                dec_val(fr6@) <= 999999,
                                pow10((6 - fr6@.len()) as nat) <= 100000,
                        ;
                        if fr@.len() >= 6 {
                            lemma_mul_one(dec_val(fr6@), pow10((6 - fr6@.len()) as nat));
                            assert(frv == frac_micro(fr@));
                            assert(forall|j: int| 0 <= j < 6 ==> fr@[j] == fr6@[j]);
                        } else {
                            assert(fr6@ == fr@);
                            assert(frv == frac_micro(fr@));
                        }
                        assert(all_digits(fr@));
                    }
                },
                None => {
                    proof {
                        if all_digits(fr@) {
                            assert(fr6@.len() > 0);
                            assert(all_digits(fr6@));
                            lemma_dec_val_digit_bound(fr6@);
                            lemma_pow10_vals();
                        }
                    }
                    return None;
                },
            }
            magnitude = ipv * 1000000 + frv;
        },
    }
    proof {
        lemma_sign_mul(sign, magnitude as int);
    }
    if magnitude > lim {
        return None;
    }
    if neg {
        Some(-(magnitude as i64))
    } else {
        Some(magnitude as i64)
    }
}

/// Scaling a coordinate's integer part to micro-units never shrinks it.
proof fn lemma_micro_scale_grows(v: nat)
    ensures
        v * 1000000 >= v,
{
    assert(v * 1000000 >= v) by (nonlinear_arith);
}

/// Multiplying by one changes nothing.
proof fn lemma_mul_one(x: nat, y: nat)
    requires
        y == 1,
    ensures
        x * y == x,
{
    assert(x * y == x) by (nonlinear_arith)
        requires
            y == 1,
    ;
}

/// Multiplying by a sign of one or minus one keeps or flips the value.
proof fn lemma_sign_mul(sign: int, x: int)
    requires
        sign == 1 || sign == -1,
    ensures
        sign == 1 ==> sign * x == x,
        sign == -1 ==> sign * x == -x,
{
    if sign == 1 {
        assert(sign * x == x) by (nonlinear_arith)
            requires
                sign == 1,
        ;
    }
    if sign == -1 {
        assert(sign * x == -x) by (nonlinear_arith)
            requires
                sign == -1,
        ;
    }
}

/// The small powers of ten, spelled out.
proof fn lemma_pow10_vals()
    ensures
        pow10(0) == 1,
        pow10(1) == 10,
        pow10(2) == 100,
        pow10(3) == 1000,
        pow10(4) == 10000,
        pow10(5) == 100000,
        pow10(6) == 1000000,
{
    assert(pow10(0) == 1);
    assert(pow10(1) == 10);
    assert(pow10(2) == 100);
    assert(pow10(3) == 1000);
    assert(pow10(4) == 10000);
    assert(pow10(5) == 100000);
    assert(pow10(6) == 1000000);
}

/// Powers of ten are monotone in the exponent.
proof fn lemma_pow10_le(a: nat, b: nat)
    requires
        a <= b,
    ensures
        pow10(a) <= pow10(b),
    decreases b,
{
    if a < b {
        lemma_pow10_le(a, (b - 1) as nat);
        assert(pow10(b) == 10 * pow10((b - 1) as nat));
        assert(10 * pow10((b - 1) as nat) >= pow10((b - 1) as nat)) by (nonlinear_arith);
    }
}

/// A run of at most `n` digits is worth less than ten to the `n`.
proof fn lemma_dec_val_digit_bound(s: Seq<u8>)
    requires
        all_digits(s),
        s.len() <= 6,
    ensures
        dec_val(s) < pow10(s.len()),
    decreases s.len(),
{
    if s.len() > 0 {
        assert(all_digits(s.drop_last()));
        lemma_dec_val_digit_bound(s.drop_last());
        assert(dec_val(s.drop_last()) * 10 + 9 < pow10(s.len())) by (nonlinear_arith)
            requires
                dec_val(s.drop_last()) < pow10((s.len() - 1) as nat),
                pow10(s.len()) == 10 * pow10((s.len() - 1) as nat),
        ;
    }
}

/// The decimal digit character for a value below ten.
pub open spec fn digit_char(d: nat) -> char {
    ((48 + d) as u8) as char
}

/// The decimal numeral of `n`, most significant digit first.
pub open spec fn spec_dec_str(n: nat) -> Seq<char>
    decreases n,
{
    if n < 10 {
        seq![digit_char(n)]
    } else {
        spec_dec_str(n / 10).push(digit_char(n % 10))
    }
}

/// Renders `n` as its decimal numeral.
pub fn u64_to_string(n: u64) -> (r: String)
    ensures
        r@ == spec_dec_str(n as nat),
    decreases n,
{
    if n < 10 {
        let mut r = String::new();
        push_char(&mut r, (48 + n as u8) as char);
        assert(r@ =~= seq![digit_char(n as nat)]);
        r
    } else {
        let mut r = u64_to_string(n / 10);
        push_char(&mut r, (48 + (n % 10) as u8) as char);
        r
    }
}

} // verus!
