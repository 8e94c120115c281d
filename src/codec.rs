use vstd::prelude::*;

verus! {

/// Whether `c` is an ASCII decimal digit.
pub open spec fn is_digit(c: char) -> bool {
    '0' <= c <= '9'
}

pub open spec fn digit_value(c: char) -> int {
    (c as int) - ('0' as int)
}

pub open spec fn all_digits(s: Seq<char>) -> bool {
    forall|i: int| 0 <= i < s.len() ==> is_digit(#[trigger] s[i])
}

/// The number that a string of decimal digits denotes.
pub open spec fn digits_value(s: Seq<char>) -> int
    decreases s.len(),
{
    if s.len() == 0 {
        0
    } else {
        digits_value(s.drop_last()) * 10 + digit_value(s.last())
    }
}

/// The integer that `s` writes in decimal: an optional sign, then one or more
/// digits; `None` for any other text.
pub open spec fn decimal_value(s: Seq<char>) -> Option<int> {
    if s.len() > 0 && (s[0] == '-' || s[0] == '+') {
        let rest = s.subrange(1, s.len() as int);
        if rest.len() > 0 && all_digits(rest) {
            Some(if s[0] == '-' { -digits_value(rest) } else { digits_value(rest) })
        } else {
            None
        }
    } else if s.len() > 0 && all_digits(s) {
        Some(digits_value(s))
    } else {
        None
    }
}

/// The `i64` that `s` writes in decimal, when it fits.
pub open spec fn parse_i64_spec(s: Seq<char>) -> Option<i64> {
    match decimal_value(s) {
        Some(v) => if i64::MIN <= v <= i64::MAX {
            Some(v as i64)
        } else {
            None
        },
        None => None,
    }
}

/// The decimal digits of `n`, without leading zeros.
pub open spec fn digits_of(n: nat) -> Seq<char>
    decreases n,
{
    if n < 10 {
        seq![(n + '0' as nat) as char]
    } else {
        digits_of(n / 10).push(((n % 10) + '0' as nat) as char)
    }
}

/// The text of `v` in decimal, with a minus sign when negative.
pub open spec fn decimal_text(v: int) -> Seq<char> {
    if v < 0 {
        seq!['-'] + digits_of((-v) as nat)
    } else {
        digits_of(v as nat)
    }
}

/// Digits never lose value as more of them are read.
pub proof fn lemma_digits_value_grows(s: Seq<char>, i: int)
    requires
        all_digits(s),
        0 <= i <= s.len(),
    ensures
        digits_value(s.take(i)) <= digits_value(s),
        0 <= digits_value(s.take(i)),
    decreases s.len() - i,
{
    if i < s.len() {
        lemma_digits_value_grows(s, i + 1);
        assert(s.take(i + 1).drop_last() =~= s.take(i));
        assert(is_digit(s[i]));
    } else {
        assert(s.take(i) =~= s);
        lemma_digits_value_nonneg(s);
    }
}

pub proof fn lemma_digits_value_nonneg(s: Seq<char>)
    requires
        all_digits(s),
    ensures
        0 <= digits_value(s),
    decreases s.len(),
{
    if s.len() > 0 {
        assert(is_digit(s.last()));
        assert(all_digits(s.drop_last()));
        lemma_digits_value_nonneg(s.drop_last());
    }
}

/// Reads the digits of `s` from index `start` on, or `None` when a character
/// is no digit or the value passes `limit`.
fn read_digits(s: &str, start: usize, limit: u64) -> (r: Option<u64>)
    requires
        start <= s@.len(),
    ensures
        r matches Some(v) ==> all_digits(s@.subrange(start as int, s@.len() as int)) && v
            == digits_value(s@.subrange(start as int, s@.len() as int)) && v <= limit,
        r is None ==> !all_digits(s@.subrange(start as int, s@.len() as int)) || digits_value(
            s@.subrange(start as int, s@.len() as int),
        ) > limit,
{
    let n = s.unicode_len();
    let ghost all = s@.subrange(start as int, s@.len() as int);
    let mut acc: u64 = 0;
    let mut i: usize = start;
    while i < n
        invariant
            n == s@.len(),
            start <= i <= n,
            all == s@.subrange(start as int, s@.len() as int),
            all_digits(all.take(i - start)),
            acc == digits_value(all.take(i - start)),
            acc <= limit,
        decreases n - i,
    {
        let c = s.get_char(i);
        let ghost k = i - start;
        assert(all[k] == c);
        assert(all.take(k + 1).drop_last() =~= all.take(k));
        if c < '0' || c > '9' {
            assert(!is_digit(all[k]));
            return None;
        }
        let d = (c as u32 - '0' as u32) as u64;
        assert(all_digits(all.take(k + 1)));
        if d > limit || acc > (limit - d) / 10 {
            proof {
                assert(acc * 10 + d > limit) by (nonlinear_arith)
                    requires d > limit || acc > (limit - d) / 10, acc >= 0, d >= 0;
                if all_digits(all) {
                    lemma_digits_value_grows(all, k + 1);
                }
            }
            return None;
        }
        assert(acc * 10 + d <= limit) by (nonlinear_arith)
            requires acc <= (limit - d) / 10, d <= limit;
        acc = acc * 10 + d;
        i = i + 1;
    }
    assert(all.take(i - start) =~= all);
    Some(acc)
}

/// Magnitude of `i64::MIN`.
pub const I64_MIN_MAGNITUDE: u64 = 9223372036854775808;

/// The `i64` that `s` writes in decimal (optional sign, then digits), or
/// `None` when `s` is no such text or the value does not fit.
pub fn parse_i64(s: &str) -> (r: Option<i64>)
    ensures
        r == parse_i64_spec(s@),
{
    let n = s.unicode_len();
    if n == 0 {
        return None;
    }
    let c0 = s.get_char(0);
    if c0 == '-' || c0 == '+' {
        if n == 1 {
            return None;
        }
        let limit: u64 = if c0 == '-' { I64_MIN_MAGNITUDE } else { i64::MAX as u64 };
        match read_digits(s, 1, limit) {
            None => None,
            Some(m) => {
                if c0 == '+' {
                    Some(m as i64)
                } else if m == I64_MIN_MAGNITUDE {
                    Some(i64::MIN)
                } else {
                    Some(-(m as i64))
                }
            },
        }
    } else {
        let r = read_digits(s, 0, i64::MAX as u64);
        assert(s@.subrange(0, s@.len() as int) =~= s@);
        match r {
            None => None,
            Some(m) => Some(m as i64),
        }
    }
}

/// Text that holds no integer where one was expected.
#[derive(Debug, Clone, Copy, PartialEq, Eq, Structural)]
pub struct InvalidId;

/// Reads an id written as a decimal string.
pub fn decode_id(s: &str) -> (r: Result<i64, InvalidId>)
    ensures
        parse_i64_spec(s@) matches Some(v) ==> r == Ok::<i64, InvalidId>(v),
        parse_i64_spec(s@) is None ==> r is Err,
{
    match parse_i64(s) {
        Some(v) => Ok(v),
        None => Err(InvalidId),
    }
}

/// Reads an optional id written as a decimal string; the empty string stands
/// for no id.
pub fn decode_optional_id(s: &str) -> (r: Result<Option<i64>, InvalidId>)
    ensures
        s@.len() == 0 ==> r == Ok::<Option<i64>, InvalidId>(None),
        s@.len() > 0 ==> (parse_i64_spec(s@) matches Some(v) ==> r == Ok::<Option<i64>, InvalidId>(
            Some(v),
        )),
        s@.len() > 0 && parse_i64_spec(s@) is None ==> r is Err,
{
    if s.unicode_len() == 0 {
        return Ok(None);
    }
    match parse_i64(s) {
        Some(v) => Ok(Some(v)),
        None => Err(InvalidId),
    }
}

/// Relies on `ToString::to_string` for `i64`, which writes the value through
/// its `Display` impl: decimal digits without leading zeros, led by `-` when
/// negative.
#[verifier::external_body]
fn i64_to_string(v: i64) -> (r: String)
    ensures
        r@ == decimal_text(v as int),
{
    v.to_string()
}

/// Writes an id as a decimal string, so that clients whose numbers are
/// 64-bit floats keep every digit.
pub fn encode_id(v: i64) -> (r: String)
    ensures
        r@ == decimal_text(v as int),
{
    i64_to_string(v)
}

/// Writes an optional id as a decimal string; `None` stays `None`.
pub fn encode_optional_id(v: Option<i64>) -> (r: Option<String>)
    ensures
        v is None ==> r is None,
        v matches Some(x) ==> r matches Some(t) && t@ == decimal_text(x as int),
{
    match v {
        Some(x) => Some(encode_id(x)),
        None => None,
    }
}

/// The digits of `n` are digits and denote `n`.
pub proof fn lemma_digits_of(n: nat)
    ensures
        all_digits(digits_of(n)),
        digits_of(n).len() > 0,
        digits_value(digits_of(n)) == n,
    decreases n,
{
    if n >= 10 {
        lemma_digits_of(n / 10);
        let d = digits_of(n);
        assert(d.drop_last() =~= digits_of(n / 10));
        assert(n == (n / 10) * 10 + n % 10);
        assert(d.last() == ((n % 10) + '0' as nat) as char);
        assert(digit_value(d.last()) == n % 10);
        assert(digits_value(d) == digits_value(d.drop_last()) * 10 + digit_value(d.last()));
        assert(digits_value(d.drop_last()) == n / 10);
        assert forall|i: int| 0 <= i < d.len() implies is_digit(#[trigger] d[i]) by {
            if i < d.len() - 1 {
                assert(d[i] == digits_of(n / 10)[i]);
            }
        }
    } else {
        let d = digits_of(n);
        assert(d.drop_last() =~= Seq::<char>::empty());
        assert(d.last() == (n + '0' as nat) as char);
        assert(digit_value(d.last()) == n);
        assert(digits_value(d.drop_last()) == 0);
        assert(digits_value(d) == digits_value(d.drop_last()) * 10 + digit_value(d.last()));
    }
}

/// Reading an id back from the text it was written as gives the same id.
pub proof fn lemma_id_round_trip(v: i64)
    ensures
        parse_i64_spec(decimal_text(v as int)) == Some(v),
{
    if v < 0 {
        let m = (-(v as int)) as nat;
        lemma_digits_of(m);
        let t = decimal_text(v as int);
        assert(t.subrange(1, t.len() as int) =~= digits_of(m));
        assert(t[0] == '-');
    } else {
        lemma_digits_of(v as nat);
        let t = decimal_text(v as int);
        assert(is_digit(t[0]));
    }
}

} // verus!
