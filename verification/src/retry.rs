//! Retry policy values and the `Retry-After` header parser.
//!
//! The backoff loop itself performs sleeps and network calls and lives in the
//! application; the pure pieces — the configuration record and the header
//! parser — are verified here.

use vstd::prelude::*;

verus! {

/// Configuration for the exponential-backoff retry loop.
#[derive(Debug, Clone, Copy, PartialEq, Eq, Structural)]
pub struct RetryConfig {
    pub max_retries: u32,
    pub base_delay_ms: u64,
    pub max_delay_ms: u64,
}

pub const DEFAULT_MAX_RETRIES: u32 = 3;

pub const DEFAULT_BASE_DELAY_MS: u64 = 1000;

pub const DEFAULT_MAX_DELAY_MS: u64 = 32000;

impl Default for RetryConfig {
    /// The stock policy: three retries, one second base delay, 32 s cap.
    fn default() -> (r: Self)
        ensures
            r.max_retries == DEFAULT_MAX_RETRIES,
            r.base_delay_ms == DEFAULT_BASE_DELAY_MS,
            r.max_delay_ms == DEFAULT_MAX_DELAY_MS,
    {
        RetryConfig {
            max_retries: DEFAULT_MAX_RETRIES,
            base_delay_ms: DEFAULT_BASE_DELAY_MS,
            max_delay_ms: DEFAULT_MAX_DELAY_MS,
        }
    }
}

impl RetryConfig {
    pub fn new() -> (r: Self)
        ensures
            r.max_retries == DEFAULT_MAX_RETRIES,
            r.base_delay_ms == DEFAULT_BASE_DELAY_MS,
            r.max_delay_ms == DEFAULT_MAX_DELAY_MS,
    {
        Self::default()
    }

    pub fn with_max_retries(self, retries: u32) -> (r: Self)
        ensures
            r == (RetryConfig { max_retries: retries, ..self }),
    {
        RetryConfig { max_retries: retries, ..self }
    }

    pub fn with_base_delay(self, delay_ms: u64) -> (r: Self)
        ensures
            r == (RetryConfig { base_delay_ms: delay_ms, ..self }),
    {
        RetryConfig { base_delay_ms: delay_ms, ..self }
    }
}

/// The digit run of a decimal string: everything after an optional leading
/// `+` sign, which `u64` parsing accepts.
pub open spec fn decimal_digits(s: Seq<char>) -> Seq<char> {
    if s.len() > 0 && s[0] == '+' {
        s.skip(1)
    } else {
        s
    }
}

pub open spec fn is_decimal_digit(c: char) -> bool {
    '0' <= c <= '9'
}

pub open spec fn all_decimal_digits(s: Seq<char>) -> bool {
    forall|i: int| 0 <= i < s.len() ==> is_decimal_digit(#[trigger] s[i])
}

/// The number denoted by a digit string, most significant digit first.
pub open spec fn decimal_value(s: Seq<char>) -> nat
    decreases s.len(),
{
    if s.len() == 0 {
        0
    } else {
        decimal_value(s.drop_last()) * 10 + ((s.last() as int - '0' as int) as nat)
    }
}

/// A string parses as a `u64` when it is one or more digits, after an
/// optional leading `+`, and the value fits.
pub open spec fn parses_as_u64(s: Seq<char>) -> bool {
    &&& decimal_digits(s).len() > 0
    &&& all_decimal_digits(decimal_digits(s))
    &&& decimal_value(decimal_digits(s)) <= u64::MAX
}

proof fn lemma_decimal_value_prefix_le(s: Seq<char>, k: int)
    requires
        0 <= k <= s.len(),
        all_decimal_digits(s),
    ensures
        decimal_value(s.take(k)) <= decimal_value(s),
    decreases s.len() - k,
{
    if k < s.len() {
        lemma_decimal_value_prefix_le(s, k + 1);
        assert(s.take(k + 1).drop_last() =~= s.take(k));
        assert(decimal_value(s.take(k + 1)) == decimal_value(s.take(k)) * 10 + (s.take(k + 1).last() as nat
            - '0' as nat));
        assert(decimal_value(s.take(k)) <= decimal_value(s.take(k)) * 10);
    } else {
        assert(s.take(k) =~= s);
    }
}

/// Parse a `Retry-After` header value as a number of seconds, exactly as
/// `u64` string parsing would: an optional `+`, then decimal digits, with
/// the result required to fit in 64 bits.
pub fn parse_retry_after(header_value: &str) -> (r: Option<u64>)
    ensures
        r is Some <==> parses_as_u64(header_value@),
        r matches Some(v) ==> v == decimal_value(decimal_digits(header_value@)),
{
    let n: usize = header_value.unicode_len();
    let ghost digits = decimal_digits(header_value@);
    let mut i: usize = 0;
    if n > 0 && header_value.get_char(0) == '+' {
        i = 1;
    }
    let ghost start = i as int;
    if i == n {
        // empty digit run
        return None;
    }
    let mut acc: u64 = 0;
    while i < n
        invariant
            0 <= start <= i as int <= n,
            start < n,
            n == header_value@.len(),
            digits == decimal_digits(header_value@),
            digits =~= header_value@.skip(start),
            all_decimal_digits(digits.take(i - start)),
            acc == decimal_value(digits.take(i - start)),
        decreases n - i,
    {
        let c = header_value.get_char(i);
        if !('0' <= c && c <= '9') {
            proof {
                let k = i - start;
                assert(digits[k] == header_value@.skip(start)[k]);
                assert(!is_decimal_digit(digits[k]));
            }
            return None;
        }
        let d: u64 = (c as u32 as u64) - ('0' as u32 as u64);
        assert(d == (c as int - '0' as int) as nat);
        if acc > (u64::MAX - d) / 10 {
            // the value can only grow as more digits arrive
            proof {
                assert(acc * 10 + d > u64::MAX) by (nonlinear_arith)
                    requires
                        acc > (u64::MAX - d) / 10,
                        d <= 9,
                ;
                let k = i - start;
                assert(digits[k] == header_value@.skip(start)[k]);
                assert(digits[k] == c);
                assert(digits.take(k + 1).drop_last() =~= digits.take(k));
                assert(digits.take(k + 1).last() == digits[k]);
                assert(decimal_value(digits.take(k + 1)) > u64::MAX);
                if all_decimal_digits(digits) {
                    lemma_decimal_value_prefix_le(digits, k + 1);
                }
            }
            return None;
        }
        assert(acc * 10 + d <= u64::MAX) by (nonlinear_arith)
            requires
                acc <= (u64::MAX - d) / 10,
                d <= 9,
        ;
        proof {
            let k = i - start;
            assert(digits[k] == header_value@.skip(start)[k]);
            assert(digits[k] == c);
            assert(digits.take(k + 1).drop_last() =~= digits.take(k));
            assert(digits.take(k + 1).last() == digits[k]);
        }
        acc = acc * 10 + d;
        i = i + 1;
    }
    proof {
        assert(digits.take(i - start) =~= digits);
    }
    Some(acc)
}

} // verus!
