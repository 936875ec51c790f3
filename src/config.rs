use vstd::prelude::*;

verus! {

/// An ASCII decimal digit.
pub open spec fn is_digit(c: char) -> bool {
    '0' <= c && c <= '9'
}

/// The number written by a string of decimal digits.
pub open spec fn digits_value(s: Seq<char>) -> int
    decreases s.len(),
{
    if s.len() == 0 {
        0
    } else {
        digits_value(s.drop_last()) * 10 + (s.last() as int - '0' as int)
    }
}

/// The text after an optional leading `+`.
pub open spec fn unsigned_body(s: Seq<char>) -> Seq<char> {
    if s.len() > 0 && s[0] == '+' {
        s.drop_first()
    } else {
        s
    }
}

/// `s` is an unsigned decimal number no larger than `max`: an optional `+`,
/// then one digit or more.
pub open spec fn parses_unsigned(s: Seq<char>, max: int) -> bool {
    let d = unsigned_body(s);
    &&& d.len() > 0
    &&& forall|i: int| 0 <= i < d.len() ==> is_digit(#[trigger] d[i])
    &&& digits_value(d) <= max
}

/// A setting read as a number no larger than `max`: its value when it parses,
/// else `default`.
pub open spec fn setting_value(value: Option<Seq<char>>, max: int, default: int) -> int {
    match value {
        Some(s) => if parses_unsigned(s, max) {
            digits_value(unsigned_body(s))
        } else {
            default
        },
        None => default,
    }
}

pub(crate) proof fn lemma_digits_value_grows(s: Seq<char>, k: int)
    requires
        0 <= k <= s.len(),
        forall|i: int| 0 <= i < s.len() ==> is_digit(#[trigger] s[i]),
    ensures
        digits_value(s.subrange(0, k)) <= digits_value(s),
        0 <= digits_value(s.subrange(0, k)),
    decreases s.len(),
{
    if k < s.len() {
        lemma_digits_value_grows(s.drop_last(), k);
        assert(s.drop_last().subrange(0, k) =~= s.subrange(0, k));
    } else {
        assert(s.subrange(0, k) =~= s);
        if s.len() > 0 {
            lemma_digits_value_grows(s.drop_last(), k - 1);
            assert(s.drop_last().subrange(0, k - 1) =~= s.drop_last());
        }
    }
}

/// Reads `s` as an unsigned decimal number no larger than `max`, as std's
/// `FromStr` for unsigned integers does: an optional `+`, then digits only.
pub fn parse_unsigned(s: &str, max: u64) -> (r: Option<u64>)
    ensures
        r is Some <==> parses_unsigned(s@, max as int),
        r is Some ==> r->0 == digits_value(unsigned_body(s@)),
{
    let n = s.unicode_len();
    let mut start: usize = 0;
    if n > 0 && s.get_char(0) == '+' {
        start = 1;
    }
    let ghost d = unsigned_body(s@);
    assert(d =~= s@.subrange(start as int, n as int));
    if start >= n {
        return None;
    }
    let mut acc: u64 = 0;
    let mut i: usize = start;
    while i < n
        invariant
            start <= i <= n,
            n == s@.len(),
            d =~= s@.subrange(start as int, n as int),
            d == unsigned_body(s@),
            forall|j: int| 0 <= j < i - start ==> is_digit(#[trigger] d[j]),
            acc == digits_value(d.subrange(0, i - start)),
            acc <= max,
        decreases n - i,
    {
        let c = s.get_char(i);
        assert(c == d[i - start]);
        if c < '0' || c > '9' {
            assert(!is_digit(d[i - start]));
            return None;
        }
        let digit: u64 = (c as u32 - '0' as u32) as u64;
        let next: u128 = acc as u128 * 10 + digit as u128;
        proof {
            assert(d.subrange(0, i + 1 - start).drop_last() =~= d.subrange(0, i - start));
            assert(d.subrange(0, i + 1 - start).last() == c);
            assert(digits_value(d.subrange(0, i + 1 - start)) == acc * 10 + digit);
        }
        if next > max as u128 {
            proof {
                let k = i + 1 - start;
                if forall|j: int| 0 <= j < d.len() ==> is_digit(#[trigger] d[j]) {
                    lemma_digits_value_grows(d, k);
                }
            }
            return None;
        }
        acc = next as u64;
        i = i + 1;
    }
    assert(d.subrange(0, n - start) =~= d);
    Some(acc)
}

/// A numeric setting: the parsed value, or `default` when it is absent or
/// malformed.
pub fn setting_or(value: Option<&str>, max: u64, default: u64) -> (r: u64)
    ensures
        r == setting_value(
            match value {
                Some(s) => Some(s@),
                None => None,
            },
            max as int,
            default as int,
        ),
{
    match value {
        Some(s) => match parse_unsigned(s, max) {
            Some(v) => v,
            None => default,
        },
        None => default,
    }
}

/// The tunables of one gateway instance.
#[derive(Debug, Clone)]
pub struct Config {
    pub server_port: u16,
    pub token: String,
    pub default_processor_url: String,
    pub fallback_processor_url: String,
    pub batch_size: usize,
    pub queue_buffer_size: usize,
    pub circuit_breaker_threshold: u32,
    pub circuit_breaker_timeout_secs: u64,
}

/// A text setting: the given value, or `default` when absent.
fn text_or(value: Option<&str>, default: &str) -> (r: String)
    ensures
        r@ == match value {
            Some(s) => s@,
            None => default@,
        },
{
    match value {
        Some(s) => String::from_str(s),
        None => String::from_str(default),
    }
}

impl Config {
    /// The configuration from the raw values of `PORT`, `TOKEN`,
    /// `DEFAULT_PROCESSOR_URL`, `FALLBACK_PROCESSOR_URL`, `BATCH_SIZE`,
    /// `QUEUE_BUFFER_SIZE`, `CIRCUIT_BREAKER_THRESHOLD` and
    /// `CIRCUIT_BREAKER_TIMEOUT`; an absent or malformed number takes its
    /// default (9999, 50, 1000, 5, 30), an absent text too ("123",
    /// `http://payment-processor-default:8080`,
    /// `http://payment-processor-fallback:8080`).
    pub fn from_settings(
        port: Option<&str>,
        token: Option<&str>,
        default_url: Option<&str>,
        fallback_url: Option<&str>,
        batch_size: Option<&str>,
        queue_buffer_size: Option<&str>,
        threshold: Option<&str>,
        timeout_secs: Option<&str>,
    ) -> (c: Config)
        ensures
            c.server_port == setting_value(opt_view(port), u16::MAX as int, 9999),
            c.token@ == (match token {
                Some(s) => s@,
                None => "123"@,
            }),
            c.default_processor_url@ == (match default_url {
                Some(s) => s@,
                None => "http://payment-processor-default:8080"@,
            }),
            c.fallback_processor_url@ == (match fallback_url {
                Some(s) => s@,
                None => "http://payment-processor-fallback:8080"@,
            }),
            c.batch_size == setting_value(opt_view(batch_size), usize::MAX as int, 50),
            c.queue_buffer_size == setting_value(opt_view(queue_buffer_size), usize::MAX as int, 1000),
            c.circuit_breaker_threshold == setting_value(opt_view(threshold), u32::MAX as int, 5),
            c.circuit_breaker_timeout_secs == setting_value(opt_view(timeout_secs), u64::MAX as int, 30),
    {
        Config {
            server_port: setting_or(port, u16::MAX as u64, 9999) as u16,
            token: text_or(token, "123"),
            default_processor_url: text_or(default_url, "http://payment-processor-default:8080"),
            fallback_processor_url: text_or(fallback_url, "http://payment-processor-fallback:8080"),
            batch_size: setting_or(batch_size, usize::MAX as u64, 50) as usize,
            queue_buffer_size: setting_or(queue_buffer_size, usize::MAX as u64, 1000) as usize,
            circuit_breaker_threshold: setting_or(threshold, u32::MAX as u64, 5) as u32,
            circuit_breaker_timeout_secs: setting_or(timeout_secs, u64::MAX, 30),
        }
    }
}

/// The view of an optional text.
pub open spec fn opt_view(value: Option<&str>) -> Option<Seq<char>> {
    match value {
        Some(s) => Some(s@),
        None => None,
    }
}

} // verus!
