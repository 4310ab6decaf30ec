//! Verified text utilities: decimal formatting and parsing of 64-bit
//! integers, and substring search over character sequences. These back the
//! pagination cursor format and the watch-keyword and title-search filters.

use vstd::prelude::*;

verus! {

/// The character for a single decimal digit value.
pub open spec fn digit_char(d: int) -> char
    recommends
        0 <= d <= 9,
{
    if d == 0 {
        '0'
    } else if d == 1 {
        '1'
    } else if d == 2 {
        '2'
    } else if d == 3 {
        '3'
    } else if d == 4 {
        '4'
    } else if d == 5 {
        '5'
    } else if d == 6 {
        '6'
    } else if d == 7 {
        '7'
    } else if d == 8 {
        '8'
    } else {
        '9'
    }
}

/// The character for a decimal digit value.
fn to_digit_char(d: u64) -> (c: char)
    requires
        d <= 9,
    ensures
        c == digit_char(d as int),
{
    match d {
        0 => '0',
        1 => '1',
        2 => '2',
        3 => '3',
        4 => '4',
        5 => '5',
        6 => '6',
        7 => '7',
        8 => '8',
        _ => '9',
    }
}

/// Decimal digit sequence of a non-negative integer, most significant first.
pub open spec fn spec_nat_digits(n: int) -> Seq<char>
    recommends
        n >= 0,
    decreases n,
{
    if n < 10 {
        seq![digit_char(n)]
    } else {
        spec_nat_digits(n / 10).push(digit_char(n % 10))
    }
}

/// Decimal rendering of a signed integer: a leading `-` for negatives,
/// then the digits of its magnitude.
pub open spec fn spec_i64_digits(n: int) -> Seq<char> {
    if n < 0 {
        seq!['-'] + spec_nat_digits(-n)
    } else {
        spec_nat_digits(n)
    }
}

/// Relies on `String::from_iter` over `char`: the resulting string holds
/// exactly the characters of the iterator, in order.
#[verifier::external_body]
pub(crate) fn chars_to_string(v: &Vec<char>) -> (r: String)
    ensures
        r@ == v@,
{
    v.iter().collect()
}

/// Appends the decimal digits of `n` to `out`, most significant first.
pub fn push_nat_digits(n: u64, out: &mut Vec<char>)
    ensures
        final(out)@ == old(out)@ + spec_nat_digits(n as int),
    decreases n,
{
    if n < 10 {
        let c = to_digit_char(n);
        out.push(c);
    } else {
        push_nat_digits(n / 10, out);
        let c = to_digit_char(n % 10);
        out.push(c);
        proof {
            assert(out@ =~= old(out)@ + spec_nat_digits(n as int));
        }
    }
}

/// Appends the decimal rendering of a signed 64-bit integer to `out`.
pub fn push_i64_digits(n: i64, out: &mut Vec<char>)
    ensures
        final(out)@ == old(out)@ + spec_i64_digits(n as int),
{
    if n < 0 {
        out.push('-');
        let mag: u64 = (-(n as i128)) as u64;
        push_nat_digits(mag, out);
        proof {
            assert(out@ =~= old(out)@ + spec_i64_digits(n as int));
        }
    } else {
        push_nat_digits(n as u64, out);
    }
}

/// Renders a signed 64-bit integer in decimal.
pub fn i64_to_string(n: i64) -> (r: String)
    ensures
        r@ == spec_i64_digits(n as int),
{
    let mut out: Vec<char> = Vec::new();
    push_i64_digits(n, &mut out);
    chars_to_string(&out)
}

/// Whether `c` is a decimal digit.
pub open spec fn is_digit(c: char) -> bool {
    48 <= c as u32 <= 57
}

/// Whether `s` is a non-empty, all-digit sequence.
pub open spec fn all_digits(s: Seq<char>) -> bool {
    s.len() > 0 && forall|i: int| 0 <= i < s.len() ==> is_digit(#[trigger] s[i])
}

/// Value of a digit sequence read in base ten.
pub open spec fn digits_value(s: Seq<char>) -> int
    decreases s.len(),
{
    if s.len() == 0 {
        0
    } else {
        digits_value(s.drop_last()) * 10 + (s.last() as u32 - 48)
    }
}

/// What parsing a decimal signed 64-bit integer yields: an optional sign,
/// then one or more digits, and a value inside the `i64` range; anything
/// else is rejected.
pub open spec fn spec_parse_i64(s: Seq<char>) -> Option<i64> {
    let signed = s.len() > 0 && (s[0] == '+' || s[0] == '-');
    let body = if signed {
        s.skip(1)
    } else {
        s
    };
    let neg = s.len() > 0 && s[0] == '-';
    if all_digits(body) {
        let v = if neg {
            -digits_value(body)
        } else {
            digits_value(body)
        };
        if i64::MIN <= v <= i64::MAX {
            Some(v as i64)
        } else {
            None
        }
    } else {
        None
    }
}

proof fn lemma_digits_value_nonneg(s: Seq<char>)
    ensures
        digits_value(s) >= 0 || !all_digits(s),
    decreases s.len(),
{
    if s.len() > 0 {
        lemma_digits_value_nonneg(s.drop_last());
        if all_digits(s) {
            assert(all_digits(s.drop_last()) || s.len() == 1);
        }
    }
}

/// Parses the decimal body `s[from..]` as a magnitude, tracking overflow
/// past `cap`. Mirrors `spec_parse_i64`'s digit handling.
fn parse_digits(s: &Vec<char>, from: usize) -> (r: Option<u128>)
    requires
        from <= s@.len(),
    ensures
        match r {
            Some(v) => all_digits(s@.skip(from as int)) && v == digits_value(
                s@.skip(from as int),
            ) && v <= u64::MAX,
            None => !all_digits(s@.skip(from as int)) || digits_value(s@.skip(from as int))
                > u64::MAX,
        },
{
    let ghost body = s@.skip(from as int);
    if from == s.len() {
        return None;
    }
    let mut acc: u128 = 0;
    let mut big: bool = false;
    let mut i: usize = from;
    while i < s.len()
        invariant
            from <= i <= s@.len(),
            body == s@.skip(from as int),
            all_digits(s@.subrange(from as int, i as int)) || i == from,
            !big ==> acc == digits_value(s@.subrange(from as int, i as int)) && acc <= u64::MAX,
            big ==> digits_value(s@.subrange(from as int, i as int)) > u64::MAX,
            big ==> all_digits(s@.subrange(from as int, i as int)),
        decreases s@.len() - i,
    {
        let c = s[i];
        let cv = c as u32;
        if !(48 <= cv && cv <= 57) {
            proof {
                assert(s@.skip(from as int)[i - from] == s@[i as int]);
                assert(!is_digit(body[i - from]));
            }
            return None;
        }
        let ghost pre = s@.subrange(from as int, i as int);
        let ghost post = s@.subrange(from as int, i + 1 as int);
        proof {
            assert(post.drop_last() =~= pre);
            assert(post.last() == s@[i as int]);
            assert(forall|j: int|
                0 <= j < post.len() ==> post[j] == s@[from + j] && (j < pre.len() ==> post[j]
                    == pre[j]));
        }
        if big {
            proof {
                let v = digits_value(pre);
                assert(digits_value(post) == v * 10 + (s@[i as int] as u32 - 48));
                assert(v * 10 >= v) by (nonlinear_arith)
                    requires
                        v >= 0 || v > u64::MAX,
                ;
                assert(digits_value(post) > u64::MAX);
            }
        } else {
            let d: u128 = (cv - 48) as u128;
            acc = acc * 10 + d;
            if acc > u64::MAX as u128 {
                big = true;
            }
        }
        i += 1;
    }
    proof {
        assert(s@.subrange(from as int, s@.len() as int) =~= body);
    }
    if big {
        None
    } else {
        Some(acc)
    }
}

/// Parses a signed 64-bit integer from decimal text, accepting an optional
/// leading `+` or `-`, exactly as `spec_parse_i64` describes.
pub fn parse_i64(s: &Vec<char>) -> (r: Option<i64>)
    ensures
        r == spec_parse_i64(s@),
{
    proof {
        lemma_digits_value_nonneg(if s@.len() > 0 && (s@[0] == '+' || s@[0] == '-') {
            s@.skip(1)
        } else {
            s@
        });
    }
    let signed = s.len() > 0 && (s[0] == '+' || s[0] == '-');
    let neg = s.len() > 0 && s[0] == '-';
    let from: usize = if signed {
        1
    } else {
        0
    };
    proof {
        if !signed {
            assert(s@.skip(0) =~= s@);
        }
    }
    match parse_digits(s, from) {
        None => None,
        Some(mag) => {
            if neg {
                if mag <= i64::MAX as u128 + 1 {
                    Some((-(mag as i128)) as i64)
                } else {
                    None
                }
            } else {
                if mag <= i64::MAX as u128 {
                    Some(mag as i64)
                } else {
                    None
                }
            }
        },
    }
}

/// Whether `needle` occurs in `hay` starting at position `i`.
pub open spec fn occurs_at(hay: Seq<char>, needle: Seq<char>, i: int) -> bool {
    0 <= i && i + needle.len() <= hay.len() && hay.subrange(i, i + needle.len()) == needle
}

/// Whether `needle` occurs anywhere in `hay`; an empty needle always does.
pub open spec fn contains_seq(hay: Seq<char>, needle: Seq<char>) -> bool {
    exists|i: int| occurs_at(hay, needle, i)
}

/// Whether `needle` occurs at exactly position `i` of `hay`.
fn matches_at(hay: &Vec<char>, needle: &Vec<char>, i: usize) -> (r: bool)
    requires
        i + needle@.len() <= hay@.len(),
    ensures
        r == occurs_at(hay@, needle@, i as int),
{
    let hlen = hay.len();
    let nlen = needle.len();
    let mut j: usize = 0;
    while j < needle.len()
        invariant
            0 <= j <= needle@.len(),
            i + needle@.len() <= hay@.len(),
            hlen == hay@.len(),
            nlen == needle@.len(),
            forall|k: int| 0 <= k < j ==> hay@[i + k] == needle@[k],
        decreases needle@.len() - j,
    {
        if hay[i + j] != needle[j] {
            proof {
                assert(hay@.subrange(i as int, i + needle@.len())[j as int] == hay@[i + j]);
            }
            return false;
        }
        j += 1;
    }
    proof {
        assert(hay@.subrange(i as int, i + needle@.len()) =~= needle@);
    }
    true
}

/// Substring search: whether `needle` occurs in `hay`.
pub fn contains_chars(hay: &Vec<char>, needle: &Vec<char>) -> (r: bool)
    ensures
        r == contains_seq(hay@, needle@),
{
    if needle.len() > hay.len() {
        proof {
            assert(forall|i: int| !occurs_at(hay@, needle@, i));
        }
        return false;
    }
    if needle.len() == 0 {
        proof {
            assert(hay@.subrange(0, 0) =~= needle@);
            assert(occurs_at(hay@, needle@, 0));
        }
        return true;
    }
    let hlen = hay.len();
    let mut i: usize = 0;
    let last = hay.len() - needle.len();
    while i <= last
        invariant
            0 <= i <= last + 1,
            last == hay@.len() - needle@.len(),
            needle@.len() >= 1,
            hlen == hay@.len(),
            forall|k: int| 0 <= k < i ==> !occurs_at(hay@, needle@, k),
        decreases last - i + 1,
    {
        if matches_at(hay, needle, i) {
            return true;
        }
        i += 1;
    }
    proof {
        assert(forall|k: int| !occurs_at(hay@, needle@, k));
    }
    false
}

/// Every character of a rendered non-negative number is a decimal digit.
pub proof fn lemma_nat_digits_are_digits(n: int)
    requires
        n >= 0,
    ensures
        all_digits(spec_nat_digits(n)),
        digits_value(spec_nat_digits(n)) == n,
    decreases n,
{
    if n < 10 {
        let s = spec_nat_digits(n);
        assert(s.len() == 1);
        assert(s[0] == digit_char(n));
        assert(is_digit(digit_char(n)));
        assert(s.drop_last() =~= Seq::<char>::empty());
        assert(digits_value(s.drop_last()) == 0);
        assert(digits_value(s) == 0 * 10 + (s.last() as u32 - 48));
    } else {
        lemma_nat_digits_are_digits(n / 10);
        let s = spec_nat_digits(n);
        let p = spec_nat_digits(n / 10);
        assert(s == p.push(digit_char(n % 10)));
        assert(s.drop_last() =~= p);
        assert(s.last() == digit_char(n % 10));
        assert(is_digit(digit_char(n % 10)));
        assert forall|i: int| 0 <= i < s.len() implies is_digit(#[trigger] s[i]) by {
            if i < p.len() {
                assert(s[i] == p[i]);
            }
        }
        assert(digits_value(s) == n / 10 * 10 + n % 10);
    }
}

/// Parsing the decimal rendering of a signed 64-bit integer gives it back.
pub proof fn lemma_parse_digits_roundtrip(n: i64)
    ensures
        spec_parse_i64(spec_i64_digits(n as int)) == Some(n),
{
    let s = spec_i64_digits(n as int);
    if n < 0 {
        lemma_nat_digits_are_digits(-(n as int));
        let mag = spec_nat_digits(-(n as int));
        assert(s == seq!['-'] + mag);
        assert(s[0] == '-');
        assert(s.skip(1) =~= mag);
        assert(s.len() > 0);
    } else {
        lemma_nat_digits_are_digits(n as int);
        assert(s == spec_nat_digits(n as int));
        assert(s.len() > 0);
        assert(s[0] != '+' && s[0] != '-') by {
            assert(is_digit(s[0]));
            assert('+' as u32 == 43 && '-' as u32 == 45);
        }
    }
}

/// No character of a rendered signed 64-bit integer is a colon.
pub proof fn lemma_i64_digits_no_colon(n: int)
    ensures
        forall|i: int| 0 <= i < spec_i64_digits(n).len() ==> (#[trigger] spec_i64_digits(n)[i])
            != ':',
{
    let s = spec_i64_digits(n);
    if n < 0 {
        lemma_nat_digits_are_digits(-n);
        let mag = spec_nat_digits(-n);
        assert forall|i: int| 0 <= i < s.len() implies (#[trigger] s[i]) != ':' by {
            if i == 0 {
                assert(s[0] == '-');
                assert('-' as u32 == 45 && ':' as u32 == 58);
            } else {
                assert(s[i] == mag[i - 1]);
                assert(is_digit(mag[i - 1]));
                assert(':' as u32 == 58);
            }
        }
    } else {
        lemma_nat_digits_are_digits(n);
        assert forall|i: int| 0 <= i < s.len() implies (#[trigger] s[i]) != ':' by {
            assert(is_digit(s[i]));
            assert(':' as u32 == 58);
        }
    }
}

/// Relies on `str::chars` collected into a `Vec`: yields the string's
/// characters in order.
#[verifier::external_body]
pub fn str_chars(s: &str) -> (r: Vec<char>)
    ensures
        r@ == s@,
{
    s.chars().collect()
}

} // verus!
