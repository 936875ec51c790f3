use vstd::prelude::*;
use crate::config::{digits_value, is_digit};

verus! {

/// The character of a decimal digit.
pub open spec fn digit_char(d: nat) -> char {
    if d == 0 {
        '0'
    } else if d == 1 {
        '1'
    } else if d == 2 {
        '2'
    } else if d == 3 {
        '3'
    } else if d == 4 {
        '4'
    } else if d == 5 {
        '5'
    } else if d == 6 {
        '6'
    } else if d == 7 {
        '7'
    } else if d == 8 {
        '8'
    } else {
        '9'
    }
}

/// `n` written in decimal, without leading zeros.
pub open spec fn decimal(n: nat) -> Seq<char>
    decreases n,
{
    if n < 10 {
        seq![digit_char(n)]
    } else {
        decimal(n / 10).push(digit_char(n % 10))
    }
}

/// An amount of cents written as dollars with two decimals, as `$12.34`.
pub open spec fn currency_text(amount: nat) -> Seq<char> {
    seq!['$'] + decimal(amount / 100) + seq!['.', digit_char((amount % 100) / 10), digit_char(
        amount % 10,
    )]
}

fn digit_text(d: u64) -> (r: &'static str)
    requires
        d < 10,
    ensures
        r@ == seq![digit_char(d as nat)],
{
    proof {
        reveal_strlit("0");
        reveal_strlit("1");
        reveal_strlit("2");
        reveal_strlit("3");
        reveal_strlit("4");
        reveal_strlit("5");
        reveal_strlit("6");
        reveal_strlit("7");
        reveal_strlit("8");
        reveal_strlit("9");
    }
    match d {
        0 => "0",
        1 => "1",
        2 => "2",
        3 => "3",
        4 => "4",
        5 => "5",
        6 => "6",
        7 => "7",
        8 => "8",
        _ => "9",
    }
}

fn push_decimal(out: &mut String, n: u64)
    ensures
        final(out)@ == old(out)@ + decimal(n as nat),
    decreases n,
{
    if n >= 10 {
        push_decimal(out, n / 10);
    }
    out.append(digit_text(n % 10));
    proof {
        if n >= 10 {
            assert(final(out)@ =~= old(out)@ + decimal(n as nat));
        } else {
            assert(final(out)@ =~= old(out)@ + decimal(n as nat));
        }
    }
}

/// Cents written as dollars with two decimals: 2550 is `$25.50`.
pub fn format_currency(amount: u64) -> (r: String)
    ensures
        r@ == currency_text(amount as nat),
{
    let mut out = String::from_str("$");
    push_decimal(&mut out, amount / 100);
    out.append(".");
    out.append(digit_text((amount % 100) / 10));
    out.append(digit_text(amount % 10));
    proof {
        reveal_strlit("$");
        reveal_strlit(".");
        assert(out@ =~= currency_text(amount as nat));
    }
    out
}

/// Why a text is not an amount.
#[derive(Debug, Clone, Copy, PartialEq, Eq, Structural)]
pub enum CurrencyError {
    /// Not a decimal number of dollars.
    Invalid,
    /// More cents than a `u64` holds.
    TooLarge,
}

/// The text without its `$` and `,` marks.
pub open spec fn without_marks(s: Seq<char>) -> Seq<char>
    decreases s.len(),
{
    if s.len() == 0 {
        s
    } else if s.last() == '$' || s.last() == ',' {
        without_marks(s.drop_last())
    } else {
        without_marks(s.drop_last()).push(s.last())
    }
}

pub open spec fn all_digits(s: Seq<char>) -> bool {
    forall|i: int| 0 <= i < s.len() ==> is_digit(#[trigger] s[i])
}

/// Whole dollars and decimals of an amount text: digits, or digits, a `.`
/// and digits.
pub open spec fn amount_parts(b: Seq<char>) -> Option<(Seq<char>, Seq<char>)> {
    if all_digits(b) {
        Some((b, Seq::<char>::empty()))
    } else if exists|d: int|
        0 <= d < b.len() && b[d] == '.' && all_digits(b.take(d)) && all_digits(
            #[trigger] b.skip(d + 1),
        ) {
        let d = choose|d: int|
            0 <= d < b.len() && b[d] == '.' && all_digits(b.take(d)) && all_digits(
                #[trigger] b.skip(d + 1),
            );
        Some((b.take(d), b.skip(d + 1)))
    } else {
        None
    }
}

/// The value of a digit character.
pub open spec fn digit_value(c: char) -> int {
    c as int - '0' as int
}

/// Cents of `whole` dollars and the first two `decimals`; later decimals are
/// dropped.
pub open spec fn cents_of(whole: Seq<char>, decimals: Seq<char>) -> int {
    digits_value(whole) * 100 + (if decimals.len() > 0 {
        digit_value(decimals[0]) * 10
    } else {
        0
    }) + (if decimals.len() > 1 {
        digit_value(decimals[1])
    } else {
        0
    })
}

/// The amount a text names: marks dropped, an optional `+`, then dollars
/// with optional decimals, holding one digit at least.
pub open spec fn currency_value(s: Seq<char>) -> Option<int> {
    let body = unsigned_text(without_marks(s));
    match amount_parts(body) {
        Some(parts) => if parts.0.len() + parts.1.len() > 0 {
            Some(cents_of(parts.0, parts.1))
        } else {
            None
        },
        None => None,
    }
}

pub open spec fn unsigned_text(s: Seq<char>) -> Seq<char> {
    if s.len() > 0 && s[0] == '+' {
        s.drop_first()
    } else {
        s
    }
}

fn strip_marks(s: &str) -> (r: Vec<char>)
    ensures
        r@ == without_marks(s@),
{
    let n = s.unicode_len();
    let mut out: Vec<char> = Vec::new();
    let mut i: usize = 0;
    while i < n
        invariant
            i <= n,
            n == s@.len(),
            out@ == without_marks(s@.subrange(0, i as int)),
        decreases n - i,
    {
        let c = s.get_char(i);
        if c != '$' && c != ',' {
            out.push(c);
        }
        proof {
            assert(s@.subrange(0, i + 1).drop_last() =~= s@.subrange(0, i as int));
            assert(s@.subrange(0, i + 1).last() == c);
        }
        i = i + 1;
    }
    assert(s@.subrange(0, n as int) =~= s@);
    out
}

/// The number written by the digits `v[from..to]`, if it stays within `max`.
fn digits_within(v: &Vec<char>, from: usize, to: usize, max: u64) -> (r: Option<u64>)
    requires
        from <= to <= v@.len(),
        all_digits(v@.subrange(from as int, to as int)),
    ensures
        r is Some <==> digits_value(v@.subrange(from as int, to as int)) <= max,
        r is Some ==> r->0 == digits_value(v@.subrange(from as int, to as int)),
{
    let ghost d = v@.subrange(from as int, to as int);
    let mut acc: u64 = 0;
    let mut i: usize = from;
    while i < to
        invariant
            from <= i <= to,
            to <= v@.len(),
            d == v@.subrange(from as int, to as int),
            all_digits(d),
            acc == digits_value(d.subrange(0, i - from)),
            acc <= max,
        decreases to - i,
    {
        let c = v[i];
        assert(c == d[i - from]);
        assert(is_digit(d[i - from]));
        let digit: u64 = (c as u32 - '0' as u32) as u64;
        let next: u128 = acc as u128 * 10 + digit as u128;
        proof {
            assert(d.subrange(0, i + 1 - from).drop_last() =~= d.subrange(0, i - from));
            assert(d.subrange(0, i + 1 - from).last() == c);
            assert(digits_value(d.subrange(0, i + 1 - from)) == acc * 10 + digit);
        }
        if next > max as u128 {
            proof {
                crate::config::lemma_digits_value_grows(d, i + 1 - from);
            }
            return None;
        }
        acc = next as u64;
        i = i + 1;
    }
    assert(d.subrange(0, to - from) =~= d);
    Some(acc)
}

proof fn lemma_not_amount(v: Seq<char>, start: int, dot: int, k: int)
    requires
        0 <= start <= dot <= v.len(),
        forall|j: int| start <= j < dot ==> v[j] != '.',
        dot < v.len() ==> v[dot] == '.',
        start <= k < v.len(),
        k != dot,
        !is_digit(v[k]),
    ensures
        amount_parts(v.subrange(start, v.len() as int)) is None,
{
    let b = v.subrange(start, v.len() as int);
    assert(!is_digit(b[k - start]));
    assert(!all_digits(b));
    if exists|d: int|
        0 <= d < b.len() && b[d] == '.' && all_digits(b.take(d)) && all_digits(
            #[trigger] b.skip(d + 1),
        ) {
        let d = choose|d: int|
            0 <= d < b.len() && b[d] == '.' && all_digits(b.take(d)) && all_digits(
                #[trigger] b.skip(d + 1),
            );
        assert(start + d >= dot) by {
            if start + d < dot {
                assert(v[start + d] != '.');
            }
        }
        assert(start + d <= dot) by {
            if start + d > dot {
                assert(b.take(d)[dot - start] == '.');
            }
        }
        if k < dot {
            assert(b.take(d)[k - start] == b[k - start]);
        } else {
            assert(b.skip(d + 1)[k - start - d - 1] == b[k - start]);
        }
    }
}

proof fn lemma_amount_split(v: Seq<char>, start: int, dot: int)
    requires
        0 <= start <= dot <= v.len(),
        forall|j: int| start <= j < dot ==> v[j] != '.',
        dot < v.len() ==> v[dot] == '.',
        forall|j: int| start <= j < v.len() && j != dot ==> is_digit(#[trigger] v[j]),
    ensures
        all_digits(v.subrange(start, dot)),
        dot < v.len() ==> all_digits(v.subrange(dot + 1, v.len() as int)),
        amount_parts(v.subrange(start, v.len() as int)) == Some(
            (
                v.subrange(start, dot),
                if dot < v.len() {
                    v.subrange(dot + 1, v.len() as int)
                } else {
                    Seq::<char>::empty()
                },
            ),
        ),
{
    let b = v.subrange(start, v.len() as int);
    let n = v.len() as int;
    assert forall|i: int| 0 <= i < v.subrange(start, dot).len() implies is_digit(
        #[trigger] v.subrange(start, dot)[i],
    ) by {
        assert(v.subrange(start, dot)[i] == v[start + i]);
    }
    if dot < n {
        assert forall|i: int| 0 <= i < v.subrange(dot + 1, n).len() implies is_digit(
            #[trigger] v.subrange(dot + 1, n)[i],
        ) by {
            assert(v.subrange(dot + 1, n)[i] == v[dot + 1 + i]);
        }
        let d0 = dot - start;
        assert(b.take(d0) =~= v.subrange(start, dot));
        assert(b.skip(d0 + 1) =~= v.subrange(dot + 1, n));
        assert(b[d0] == '.');
        assert(!is_digit(b[d0]));
        assert(!all_digits(b));
        let d = choose|d: int|
            0 <= d < b.len() && b[d] == '.' && all_digits(b.take(d)) && all_digits(
                #[trigger] b.skip(d + 1),
            );
        assert(d == d0) by {
            if d < d0 {
                assert(v[start + d] != '.');
            } else if d > d0 {
                assert(b.take(d)[d0] == '.');
            }
        }
    } else {
        assert(b =~= v.subrange(start, dot));
    }
}

/// The position of the first `.` in `v[start..]`, or the length.
fn find_dot(v: &Vec<char>, start: usize) -> (r: usize)
    requires
        start <= v@.len(),
    ensures
        start <= r <= v@.len(),
        forall|j: int| start <= j < r ==> v@[j] != '.',
        r < v@.len() ==> v@[r as int] == '.',
{
    let n = v.len();
    let mut dot: usize = start;
    while dot < n && v[dot] != '.'
        invariant
            start <= dot <= n,
            n == v@.len(),
            forall|j: int| start <= j < dot ==> v@[j] != '.',
        decreases n - dot,
    {
        dot = dot + 1;
    }
    dot
}

/// Whether every character of `v[start..]` but the one at `skip` is a digit.
fn digits_besides(v: &Vec<char>, start: usize, skip: usize) -> (r: bool)
    requires
        start <= v@.len(),
    ensures
        r <==> forall|j: int| start <= j < v@.len() && j != skip ==> is_digit(#[trigger] v@[j]),
{
    let n = v.len();
    let mut k: usize = start;
    while k < n
        invariant
            start <= k <= n,
            n == v@.len(),
            forall|j: int| start <= j < k && j != skip ==> is_digit(#[trigger] v@[j]),
        decreases n - k,
    {
        if k != skip && (v[k] < '0' || v[k] > '9') {
            assert(!is_digit(v@[k as int]));
            return false;
        }
        k = k + 1;
    }
    true
}

/// Cents of the amount `v[start..]` whose `.`, if any, is at `dot`.
fn amount_cents(v: &Vec<char>, start: usize, dot: usize) -> (r: Result<u64, CurrencyError>)
    requires
        start <= dot <= v@.len(),
        all_digits(v@.subrange(start as int, dot as int)),
        dot < v@.len() ==> all_digits(v@.subrange(dot + 1, v@.len() as int)),
    ensures
        ({
            let frac = if dot < v@.len() {
                v@.subrange(dot + 1, v@.len() as int)
            } else {
                Seq::<char>::empty()
            };
            let c = cents_of(v@.subrange(start as int, dot as int), frac);
            &&& c <= u64::MAX ==> r is Ok && r->Ok_0 == c
            &&& c > u64::MAX ==> r is Err && r->Err_0 == CurrencyError::TooLarge
        }),
{
    let n = v.len();
    let ghost whole = v@.subrange(start as int, dot as int);
    let ghost frac = if dot < n {
        v@.subrange(dot + 1, n as int)
    } else {
        Seq::<char>::empty()
    };
    proof {
        crate::config::lemma_digits_value_grows(whole, 0);
        assert(whole.subrange(0, 0) =~= Seq::<char>::empty());
    }
    let w = match digits_within(v, start, dot, u64::MAX / 100) {
        Some(w) => w,
        None => {
            assert(digits_value(whole) * 100 > u64::MAX) by (nonlinear_arith)
                requires
                    digits_value(whole) > u64::MAX / 100,
            ;
            return Err(CurrencyError::TooLarge);
        },
    };
    let mut cents: u128 = w as u128 * 100;
    if dot < n && n - dot > 1 {
        assert(frac[0] == v@[dot + 1]);
        assert(is_digit(frac[0]));
        cents = cents + (v[dot + 1] as u32 - '0' as u32) as u128 * 10;
    }
    if dot < n && n - dot > 2 {
        assert(frac[1] == v@[dot + 2]);
        assert(is_digit(frac[1]));
        cents = cents + (v[dot + 2] as u32 - '0' as u32) as u128;
    }
    if cents > u64::MAX as u128 {
        return Err(CurrencyError::TooLarge);
    }
    Ok(cents as u64)
}

/// A dollar text such as `$1,234.50` read as cents: `$` and `,` are
/// dropped, then an optional `+`, digits, and optionally `.` and more
/// digits, of which the first two count.
pub fn parse_currency(currency_str: &str) -> (r: Result<u64, CurrencyError>)
    ensures
        currency_value(currency_str@) is None ==> r is Err && r->Err_0 == CurrencyError::Invalid,
        currency_value(currency_str@) is Some && currency_value(currency_str@)->0 <= u64::MAX ==> r is Ok
            && r->Ok_0 == currency_value(currency_str@)->0,
        currency_value(currency_str@) is Some && currency_value(currency_str@)->0 > u64::MAX ==> r is Err
            && r->Err_0 == CurrencyError::TooLarge,
{
    let v = strip_marks(currency_str);
    let n = v.len();
    let mut start: usize = 0;
    if n > 0 && v[0] == '+' {
        start = 1;
    }
    assert(unsigned_text(v@) =~= v@.subrange(start as int, n as int));
    let dot = find_dot(&v, start);
    if !digits_besides(&v, start, dot) {
        proof {
            let k = choose|k: int| !(start <= k < v@.len() && k != dot ==> is_digit(#[trigger] v@[k]));
            lemma_not_amount(v@, start as int, dot as int, k);
        }
        return Err(CurrencyError::Invalid);
    }
    proof {
        lemma_amount_split(v@, start as int, dot as int);
    }
    let frac_len: usize = if dot < n {
        n - dot - 1
    } else {
        0
    };
    if dot - start + frac_len == 0 {
        return Err(CurrencyError::Invalid);
    }
    amount_cents(&v, start, dot)
}

proof fn lemma_digit_char(d: nat)
    requires
        d < 10,
    ensures
        is_digit(digit_char(d)),
        digit_value(digit_char(d)) == d,
{
}

proof fn lemma_decimal_digits(n: nat)
    ensures
        all_digits(decimal(n)),
        decimal(n).len() > 0,
        digits_value(decimal(n)) == n,
    decreases n,
{
    lemma_digit_char(n % 10);
    if n >= 10 {
        lemma_decimal_digits(n / 10);
        let d = decimal(n);
        assert(d.drop_last() =~= decimal(n / 10));
        assert(d.last() == digit_char(n % 10));
        assert(n == (n / 10) * 10 + n % 10) by (nonlinear_arith);
        assert(digits_value(d) == digits_value(d.drop_last()) * 10 + digit_value(d.last()));
        assert forall|i: int| 0 <= i < d.len() implies is_digit(#[trigger] d[i]) by {
            if i < d.len() - 1 {
                assert(d[i] == decimal(n / 10)[i]);
            }
        }
    } else {
        let d = decimal(n);
        assert(d.drop_last() =~= Seq::<char>::empty());
        assert(d.last() == digit_char(n));
        assert(digits_value(d) == digits_value(d.drop_last()) * 10 + digit_value(d.last()));
    }
}

proof fn lemma_without_marks_plain(s: Seq<char>)
    requires
        forall|i: int| 0 <= i < s.len() ==> #[trigger] s[i] != '$' && s[i] != ',',
    ensures
        without_marks(s) == s,
    decreases s.len(),
{
    if s.len() > 0 {
        lemma_without_marks_plain(s.drop_last());
        assert(s.drop_last().push(s.last()) =~= s);
    }
}

proof fn lemma_without_marks_leading_dollar(s: Seq<char>)
    ensures
        without_marks(seq!['$'] + s) == without_marks(s),
    decreases s.len(),
{
    if s.len() > 0 {
        lemma_without_marks_leading_dollar(s.drop_last());
        assert((seq!['$'] + s).drop_last() =~= seq!['$'] + s.drop_last());
        assert((seq!['$'] + s).last() == s.last());
    } else {
        assert((seq!['$'] + s).drop_last() =~= Seq::<char>::empty());
        assert((seq!['$'] + s).last() == '$');
        assert(without_marks(Seq::<char>::empty()) == Seq::<char>::empty());
        assert(s =~= Seq::<char>::empty());
    }
}

/// Reading back what `format_currency` writes gives the amount again.
pub proof fn lemma_currency_round_trip(amount: nat)
    ensures
        currency_value(currency_text(amount)) == Some(amount as int),
{
    let q = amount / 100;
    let d1 = (amount % 100) / 10;
    let d2 = amount % 10;
    lemma_decimal_digits(q);
    lemma_digit_char(d1);
    lemma_digit_char(d2);
    let dec = decimal(q);
    let b = dec + seq!['.', digit_char(d1), digit_char(d2)];
    assert(currency_text(amount) =~= seq!['$'] + b);
    lemma_without_marks_leading_dollar(b);
    assert forall|i: int| 0 <= i < b.len() implies #[trigger] b[i] != '$' && b[i] != ',' by {
        if i < dec.len() {
            assert(is_digit(dec[i]));
        }
    }
    lemma_without_marks_plain(b);
    assert(is_digit(dec[0]));
    assert(unsigned_text(b) == b);
    let dot = dec.len() as int;
    assert forall|j: int| 0 <= j < dot implies b[j] != '.' by {
        assert(is_digit(dec[j]));
    }
    assert forall|j: int| 0 <= j < b.len() && j != dot implies is_digit(#[trigger] b[j]) by {
        if j < dot {
            assert(is_digit(dec[j]));
        }
    }
    lemma_amount_split(b, 0, dot);
    assert(b.subrange(0, dot) =~= dec);
    let frac = b.subrange(dot + 1, b.len() as int);
    assert(frac =~= seq![digit_char(d1), digit_char(d2)]);
    assert(cents_of(dec, frac) == q * 100 + d1 * 10 + d2);
}

} // verus!
