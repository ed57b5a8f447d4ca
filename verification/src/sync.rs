//! Bookkeeping of the template cache: the `last_synced` timestamp file, its
//! freshness window, and the choice between the cached templates and a new
//! download.
use vstd::prelude::*;

use crate::text::{chars_of, push_char, trim, trim_spec, trim_start_spec};

verus! {

/// How long (in seconds) a download of the templates stays fresh.
pub const SYNC_WINDOW_SECS: u64 = 24 * 3600;

// ---------------------------------------------------------------------------
// Decimal numerals
// ---------------------------------------------------------------------------

pub open spec fn is_digit(c: char) -> bool {
    '0' <= c <= '9'
}

pub open spec fn digit_value(c: char) -> nat {
    ((c as int) - ('0' as int)) as nat
}

/// The character of the decimal digit `d` (`d < 10`).
pub open spec fn digit_char(d: nat) -> char {
    (('0' as int) + d) as char
}

/// The number that the decimal digits `d` spell (most significant first).
pub open spec fn digits_value(d: Seq<char>) -> nat
    decreases d.len(),
{
    if d.len() == 0 {
        0
    } else {
        digits_value(d.drop_last()) * 10 + digit_value(d.last())
    }
}

pub open spec fn all_digits(d: Seq<char>) -> bool {
    forall|i: int| 0 <= i < d.len() ==> is_digit(#[trigger] d[i])
}

/// What `u64::from_str` accepts: an optional `+`, then one or more decimal
/// digits whose value fits in a `u64`.
pub open spec fn parse_u64_spec(s: Seq<char>) -> Option<u64> {
    let d = if s.len() > 0 && s[0] == '+' {
        s.drop_first()
    } else {
        s
    };
    if d.len() > 0 && all_digits(d) && digits_value(d) <= u64::MAX {
        Some(digits_value(d) as u64)
    } else {
        None
    }
}

/// The decimal numeral of `n`, without leading zeros (what `u64::to_string` writes).
pub open spec fn decimal_spec(n: nat) -> Seq<char>
    decreases n,
{
    if n < 10 {
        seq![digit_char(n)]
    } else {
        decimal_spec(n / 10).push(digit_char(n % 10))
    }
}

proof fn lemma_digits_value_take(d: Seq<char>, i: int)
    requires
        0 <= i <= d.len(),
    ensures
        digits_value(d.take(i)) <= digits_value(d),
    decreases d.len() - i,
{
    if i < d.len() {
        lemma_digits_value_take(d, i + 1);
        assert(d.take(i + 1).drop_last() =~= d.take(i));
    } else {
        assert(d.take(i) =~= d);
    }
}

/// Parses `s` as `u64::from_str` does.
pub fn parse_u64(s: &str) -> (r: Option<u64>)
    ensures
        r == parse_u64_spec(s@),
{
    let cs = chars_of(s);
    let start: usize = if cs.len() > 0 && cs[0] == '+' {
        1
    } else {
        0
    };
    let ghost d = if s@.len() > 0 && s@[0] == '+' {
        s@.drop_first()
    } else {
        s@
    };
    assert(d =~= cs@.subrange(start as int, cs@.len() as int));
    let ghost result = if d.len() > 0 && all_digits(d) && digits_value(d) <= u64::MAX {
        Some(digits_value(d) as u64)
    } else {
        None
    };
    assert(parse_u64_spec(s@) == result);
    if start == cs.len() {
        return None;
    }
    let n = cs.len();
    for i in start..n
        invariant
            n == cs@.len(),
            start <= n,
            parse_u64_spec(s@) == result,
            result == (if d.len() > 0 && all_digits(d) && digits_value(d) <= u64::MAX {
                Some(digits_value(d) as u64)
            } else {
                None
            }),
            d =~= cs@.subrange(start as int, n as int),
            forall|k: int| 0 <= k < i - start ==> is_digit(#[trigger] d[k]),
    {
        if !('0' <= cs[i] && cs[i] <= '9') {
            assert(!is_digit(d[i - start]));
            return None;
        }
    }
    let mut value: u64 = 0;
    for i in start..n
        invariant
            n == cs@.len(),
            start < n,
            parse_u64_spec(s@) == result,
            result == (if d.len() > 0 && all_digits(d) && digits_value(d) <= u64::MAX {
                Some(digits_value(d) as u64)
            } else {
                None
            }),
            d =~= cs@.subrange(start as int, n as int),
            all_digits(d),
            value as nat == digits_value(d.take(i - start)),
    {
        let ghost j = i - start;
        assert(d.take(j + 1).drop_last() =~= d.take(j));
        assert(d.take(j + 1).last() == cs@[i as int]);
        let digit: u64 = (cs[i] as u32 - '0' as u32) as u64;
        if value > (u64::MAX - digit) / 10 {
            proof {
                lemma_digits_value_take(d, j + 1);
            }
            return None;
        }
        value = value * 10 + digit;
    }
    assert(d.take(n - start) =~= d);
    Some(value)
}

/// Appends the decimal numeral of `n` to `out`.
fn push_decimal(out: &mut String, n: u64)
    ensures
        final(out)@ == old(out)@ + decimal_spec(n as nat),
    decreases n,
{
    if n >= 10 {
        push_decimal(out, n / 10);
    }
    let d: u8 = (n % 10) as u8;
    let c: char = (48u8 + d) as char;
    assert(c == digit_char((n % 10) as nat));
    push_char(out, c);
    proof {
        if n >= 10 {
            assert(old(out)@ + decimal_spec(n as nat) =~= old(out)@ + decimal_spec((n / 10) as nat)
                + seq![c]);
        }
    }
}

/// The decimal numeral of `n`.
pub fn format_u64(n: u64) -> (s: String)
    ensures
        s@ == decimal_spec(n as nat),
{
    let mut s = String::new();
    push_decimal(&mut s, n);
    assert(s@ =~= decimal_spec(n as nat));
    s
}

proof fn lemma_decimal_digits(n: nat)
    ensures
        all_digits(decimal_spec(n)),
        digits_value(decimal_spec(n)) == n,
        decimal_spec(n).len() > 0,
    decreases n,
{
    assert(digit_value(digit_char(n % 10)) == n % 10);
    if n >= 10 {
        lemma_decimal_digits(n / 10);
        assert(decimal_spec(n).drop_last() =~= decimal_spec(n / 10));
        assert((n / 10) * 10 + n % 10 == n) by (nonlinear_arith);
        assert(digits_value(decimal_spec(n)) == digits_value(decimal_spec(n / 10)) * 10
            + digit_value(digit_char(n % 10)));
    } else {
        assert(decimal_spec(n).drop_last() =~= Seq::<char>::empty());
        assert(digits_value(Seq::<char>::empty()) == 0);
        assert(digits_value(decimal_spec(n).drop_last()) == 0);
        assert(decimal_spec(n).last() == digit_char(n));
        assert(digits_value(decimal_spec(n)) == digit_value(digit_char(n)));
    }
}

/// Reading back a written numeral gives the number that was written.
pub proof fn lemma_parse_format_roundtrip(n: u64)
    ensures
        parse_u64_spec(decimal_spec(n as nat)) == Some(n),
{
    lemma_decimal_digits(n as nat);
}

// ---------------------------------------------------------------------------
// The `last_synced` file
// ---------------------------------------------------------------------------

/// The timestamp that the text of a `last_synced` file records, if any.
pub open spec fn timestamp_spec(contents: Seq<char>) -> Option<u64> {
    parse_u64_spec(trim_spec(contents))
}

/// Whether a download recorded at `last` is still fresh at `now` (both in
/// whole seconds since the Unix epoch; `now` is `None` before the epoch).
pub open spec fn is_fresh_spec(last: Option<u64>, now: Option<u64>) -> bool {
    match (last, now) {
        (Some(ts), Some(n)) => ts <= n && n - ts < SYNC_WINDOW_SECS,
        _ => false,
    }
}

/// A recorded timestamp can be turned back into a system time: the epoch
/// plus that many seconds must not overflow the clock's `i64` seconds.
pub open spec fn timestamp_in_range(contents: Option<Seq<char>>) -> bool {
    match contents {
        Some(t) => match timestamp_spec(t) {
            Some(ts) => ts <= i64::MAX,
            None => true,
        },
        None => true,
    }
}

/// The text written to the `last_synced` file for a download at `now_secs`.
pub fn format_timestamp(now_secs: u64) -> (s: String)
    ensures
        s@ == decimal_spec(now_secs as nat),
{
    format_u64(now_secs)
}

/// The timestamp recorded in the text of a `last_synced` file, surrounding
/// whitespace ignored.
pub fn parse_timestamp(contents: &str) -> (r: Option<u64>)
    ensures
        r == timestamp_spec(contents@),
{
    parse_u64(trim(contents))
}

/// Whether the cached templates are fresh: `contents` is the text of the
/// `last_synced` file (`None` when it could not be read) and `now_secs` the
/// current time.
pub fn check_last_synced(contents: Option<&str>, now_secs: Option<u64>) -> (fresh: bool)
    requires
        timestamp_in_range(
            match contents {
                Some(t) => Some(t@),
                None => None,
            },
        ),
    ensures
        fresh == is_fresh_spec(
            match contents {
                Some(t) => timestamp_spec(t@),
                None => None,
            },
            now_secs,
        ),
{
    let last = match contents {
        Some(t) => parse_timestamp(t),
        None => None,
    };
    match (last, now_secs) {
        (Some(ts), Some(n)) => ts <= n && n - ts < SYNC_WINDOW_SECS,
        _ => false,
    }
}

/// A timestamp written now reads back as written, can be read back by the
/// freshness check exactly when it fits the clock's `i64` seconds (as every
/// reading of the clock does), and is fresh for the whole window after it and
/// no longer.
pub proof fn lemma_written_timestamp_is_fresh(written: u64, now: u64)
    ensures
        timestamp_spec(decimal_spec(written as nat)) == Some(written),
        timestamp_in_range(Some(decimal_spec(written as nat))) <==> written <= i64::MAX,
        is_fresh_spec(timestamp_spec(decimal_spec(written as nat)), Some(now)) <==> (written <= now
            && now < written + SYNC_WINDOW_SECS),
{
    lemma_decimal_digits(written as nat);
    let d = decimal_spec(written as nat);
    assert(is_digit(d[0]) && is_digit(d.last()));
    assert(trim_start_spec(d) == d);
    assert(trim_spec(d) == d);
    lemma_parse_format_roundtrip(written);
}

// ---------------------------------------------------------------------------
// Choosing between the cache and a download
// ---------------------------------------------------------------------------

/// Where the templates come from.
#[derive(Debug, Clone, Copy, PartialEq, Eq, Structural)]
pub enum CacheAction {
    /// Use the cached templates as they are.
    UseCached,
    /// Download the templates first, and use the download.
    Download,
    /// Use the cached templates now, and download new ones in the background
    /// for the next run.
    UseCachedAndRefresh,
}

/// Where the templates come from. `interactive` is the picker's mode (no
/// languages on the command line); `has_cached` tells whether extracted
/// templates exist, and `fresh` whether their download is fresh (it is only
/// looked at when `has_cached` holds).
pub fn cache_action(interactive: bool, has_cached: bool, fresh: bool) -> (a: CacheAction)
    ensures
        !has_cached ==> a == CacheAction::Download,
        has_cached && fresh ==> a == CacheAction::UseCached,
        has_cached && !fresh ==> a == (if interactive {
            CacheAction::UseCachedAndRefresh
        } else {
            CacheAction::Download
        }),
{
    if !has_cached {
        CacheAction::Download
    } else if fresh {
        CacheAction::UseCached
    } else if interactive {
        CacheAction::UseCachedAndRefresh
    } else {
        CacheAction::Download
    }
}

} // verus!
