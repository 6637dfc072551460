//! The amount grammar: an optional `-`, an optional commodity symbol, an
//! optional `-`, then digits with at most one `.` among or before them.
//! Quantities are counted in hundredths; further decimals are dropped.
use crate::accounting::Amount;
use vstd::prelude::*;
use vstd::string::StrSliceExecFns;

verus! {

pub open spec fn is_dec(c: char) -> bool {
    '0' <= c <= '9'
}

pub open spec fn all_dec(s: Seq<char>) -> bool {
    forall|i: int| 0 <= i < s.len() ==> is_dec(#[trigger] s[i])
}

pub open spec fn digit_value(c: char) -> int {
    c as int - '0' as int
}

/// The number that a run of decimal digits writes.
pub open spec fn digits_value(s: Seq<char>) -> int
    decreases s.len(),
{
    if s.len() == 0 {
        0
    } else {
        digits_value(s.drop_last()) * 10 + digit_value(s.last())
    }
}

/// Where the commodity symbol that starts at `i` ends: before a digit, a
/// `-` or a `.`.
pub open spec fn symbol_end(s: Seq<char>, i: int) -> int
    decreases s.len() - i,
{
    if i < 0 || i >= s.len() || is_dec(s[i]) || s[i] == '-' || s[i] == '.' {
        i
    } else {
        symbol_end(s, i + 1)
    }
}

/// The first `.` at or after `i`, or the length.
pub open spec fn dot_index(s: Seq<char>, i: int) -> int
    decreases s.len() - i,
{
    if i < 0 || i >= s.len() || s[i] == '.' {
        i
    } else {
        dot_index(s, i + 1)
    }
}

/// The hundredths that the decimals after the point give.
pub open spec fn hundredths(frac: Seq<char>) -> int {
    (if frac.len() >= 1 {
        digit_value(frac[0]) * 10
    } else {
        0
    }) + (if frac.len() >= 2 {
        digit_value(frac[1])
    } else {
        0
    })
}

/// The unsigned quantity, in hundredths, that the numeric part of an amount
/// writes: digits with at most one `.`, and at least one digit.
pub open spec fn number_value(num: Seq<char>) -> Option<int> {
    let d = dot_index(num, 0);
    let whole = num.subrange(0, d);
    let frac = if d < num.len() {
        num.subrange(d + 1, num.len() as int)
    } else {
        Seq::empty()
    };
    if !all_dec(whole) || !all_dec(frac) || whole.len() + frac.len() == 0 {
        None
    } else {
        Some(digits_value(whole) * 100 + hundredths(frac))
    }
}

/// Whether `-` leads the text.
pub open spec fn leads_minus(s: Seq<char>) -> bool {
    s.len() > 0 && s[0] == '-'
}

/// Where the commodity symbol starts.
pub open spec fn symbol_start(s: Seq<char>) -> int {
    if leads_minus(s) {
        1
    } else {
        0
    }
}

/// Whether `-` follows the commodity symbol.
pub open spec fn inner_minus(s: Seq<char>) -> bool {
    let b = symbol_end(s, symbol_start(s));
    b < s.len() && s[b] == '-'
}

/// Where the numeric part starts.
pub open spec fn number_start(s: Seq<char>) -> int {
    let b = symbol_end(s, symbol_start(s));
    if inner_minus(s) {
        b + 1
    } else {
        b
    }
}

/// The commodity symbol and the signed quantity, in hundredths, that an
/// amount's text writes; `None` where it is not an amount or the quantity
/// does not fit 64 bits.
pub open spec fn amount_parts(s: Seq<char>) -> Option<(Seq<char>, int)> {
    if leads_minus(s) && inner_minus(s) {
        None
    } else {
        match number_value(s.subrange(number_start(s), s.len() as int)) {
            None => None,
            Some(v) => {
                let q = if leads_minus(s) || inner_minus(s) {
                    -v
                } else {
                    v
                };
                if i64::MIN <= q <= i64::MAX {
                    Some((s.subrange(symbol_start(s), symbol_end(s, symbol_start(s))), q))
                } else {
                    None
                }
            },
        }
    }
}

proof fn lemma_digits_grow(s: Seq<char>, k: int)
    requires
        0 <= k <= s.len(),
        all_dec(s),
    ensures
        0 <= digits_value(s.subrange(0, k)) <= digits_value(s),
    decreases s.len() - k,
{
    if k < s.len() {
        lemma_digits_grow(s, k + 1);
        assert(s.subrange(0, k + 1).drop_last() =~= s.subrange(0, k));
        lemma_digits_nonneg(s.subrange(0, k));
    } else {
        assert(s.subrange(0, k) =~= s);
        lemma_digits_nonneg(s);
    }
}

proof fn lemma_digits_nonneg(s: Seq<char>)
    requires
        all_dec(s),
    ensures
        digits_value(s) >= 0,
    decreases s.len(),
{
    if s.len() > 0 {
        assert(all_dec(s.drop_last())) by {
            assert forall|i: int| 0 <= i < s.drop_last().len() implies is_dec(#[trigger] s.drop_last()[i]) by {
                assert(s.drop_last()[i] == s[i]);
            }
        }
        lemma_digits_nonneg(s.drop_last());
    }
}

/// The characters of `s[from..to]`, as a sequence.
fn chars_of(s: &str, from: usize, to: usize) -> (r: Vec<char>)
    requires
        from <= to <= s@.len(),
    ensures
        r@ == s@.subrange(from as int, to as int),
{
    let mut out: Vec<char> = Vec::new();
    let mut i = from;
    while i < to
        invariant
            from <= i <= to <= s@.len(),
            out@ == s@.subrange(from as int, i as int),
        decreases to - i,
    {
        out.push(s.get_char(i));
        proof {
            assert(out@ =~= s@.subrange(from as int, i as int + 1));
        }
        i = i + 1;
    }
    out
}

/// Whether `s[from..to]` holds decimal digits only.
fn all_digits(s: &Vec<char>, from: usize, to: usize) -> (r: bool)
    requires
        from <= to <= s@.len(),
    ensures
        r == all_dec(s@.subrange(from as int, to as int)),
{
    let mut i = from;
    while i < to
        invariant
            from <= i <= to <= s@.len(),
            all_dec(s@.subrange(from as int, i as int)),
        decreases to - i,
    {
        let c = s[i];
        if !('0' <= c && c <= '9') {
            assert(s@.subrange(from as int, to as int)[i - from] == c);
            return false;
        }
        assert forall|k: int| 0 <= k < i + 1 - from implies is_dec(#[trigger] s@.subrange(from as int, i + 1)[k]) by {
            if k < i - from {
                assert(s@.subrange(from as int, i + 1)[k] == s@.subrange(from as int, i as int)[k]);
            }
        }
        i = i + 1;
    }
    assert(s@.subrange(from as int, to as int) =~= s@.subrange(from as int, i as int));
    true
}

/// The number that the digits `s[from..to]` write, where it is at most
/// 10^17; `None` where it is larger or a character is no digit.
fn digits_upto(s: &Vec<char>, from: usize, to: usize) -> (r: Option<u64>)
    requires
        from <= to <= s@.len(),
        all_dec(s@.subrange(from as int, to as int)),
    ensures
        r matches Some(x) ==> x == digits_value(s@.subrange(from as int, to as int)) && x <= 100_000_000_000_000_000,
        r is None ==> digits_value(s@.subrange(from as int, to as int)) > 100_000_000_000_000_000,
{
    let ghost ws = s@.subrange(from as int, to as int);
    let mut v: u64 = 0;
    let mut i = from;
    while i < to
        invariant
            from <= i <= to <= s@.len(),
            ws == s@.subrange(from as int, to as int),
            all_dec(ws),
            v == digits_value(s@.subrange(from as int, i as int)),
            v <= 100_000_000_000_000_000,
        decreases to - i,
    {
        let c = s[i];
        assert(ws[i - from] == c);
        assert(s@.subrange(from as int, i + 1).drop_last() =~= s@.subrange(from as int, i as int));
        let nv = v * 10 + (c as u64 - '0' as u64);
        if nv > 100_000_000_000_000_000 {
            proof {
                assert(ws.subrange(0, i + 1 - from) =~= s@.subrange(from as int, i + 1));
                lemma_digits_grow(ws, i + 1 - from);
            }
            return None;
        }
        v = nv;
        i = i + 1;
    }
    assert(s@.subrange(from as int, i as int) =~= ws);
    Some(v)
}

/// The unsigned quantity in hundredths that `s[n..]` writes, where it is at
/// most 2^63; `None` where it is larger or no number.
fn number_exec(s: &Vec<char>, n: usize) -> (r: Option<u64>)
    requires
        n <= s@.len(),
    ensures
        r matches Some(x) ==> number_value(s@.subrange(n as int, s@.len() as int)) == Some(x as int)
            && x <= 0x8000_0000_0000_0000u64,
        r is None ==> (number_value(s@.subrange(n as int, s@.len() as int)) matches Some(v) ==> v > 0x8000_0000_0000_0000u64),
{
    let len = s.len();
    let ghost num = s@.subrange(n as int, len as int);
    let mut d = n;
    while d < len && s[d] != '.'
        invariant
            n <= d <= len == s@.len(),
            num == s@.subrange(n as int, len as int),
            dot_index(num, 0) == dot_index(num, d - n),
        decreases len - d,
    {
        d = d + 1;
    }
    let f0 = if d < len {
        d + 1
    } else {
        len
    };
    assert(num.subrange(0, d - n) =~= s@.subrange(n as int, d as int));
    if d < len {
        assert(num.subrange(d - n + 1, num.len() as int) =~= s@.subrange(f0 as int, len as int));
    } else {
        assert(Seq::<char>::empty() =~= s@.subrange(f0 as int, len as int));
    }
    if !all_digits(s, n, d) || !all_digits(s, f0, len) || (d == n && f0 == len) {
        return None;
    }
    let ghost frac = s@.subrange(f0 as int, len as int);
    let mut h: u64 = 0;
    if f0 < len {
        assert(frac[0] == s@[f0 as int]);
        assert(is_dec(frac[0]));
        h = (s[f0] as u64 - '0' as u64) * 10;
        if f0 + 1 < len {
            assert(frac[1] == s@[f0 + 1]);
            assert(is_dec(frac[1]));
            h = h + (s[f0 + 1] as u64 - '0' as u64);
        }
    }
    assert(h <= 99);
    match digits_upto(s, n, d) {
        Some(v) => {
            let total = v * 100 + h;
            if total > 0x8000_0000_0000_0000u64 {
                None
            } else {
                Some(total)
            }
        },
        None => None,
    }
}

/// Reads the amount that a text writes.
pub fn parse_amount(text: &str) -> (r: Option<Amount>)
    ensures
        match amount_parts(text@) {
            Some((c, q)) => (r matches Some(a) && a.commodity@ == c && a.quantity == q),
            None => r is None,
        },
{
    let len = text.unicode_len();
    let s = chars_of(text, 0, len);
    assert(s@ =~= text@);
    let lead = len > 0 && s[0] == '-';
    let a: usize = if lead {
        1
    } else {
        0
    };
    let mut b = a;
    while b < len && !(('0' <= s[b] && s[b] <= '9') || s[b] == '-' || s[b] == '.')
        invariant
            a <= b <= len == s@.len(),
            symbol_end(s@, a as int) == symbol_end(s@, b as int),
        decreases len - b,
    {
        b = b + 1;
    }
    let sign = b < len && s[b] == '-';
    if lead && sign {
        return None;
    }
    let n = if sign {
        b + 1
    } else {
        b
    };
    let commodity = text.substring_char(a, b).to_string();
    match number_exec(&s, n) {
        Some(total) => {
            if lead || sign {
                let q: i64 = if total == 0x8000_0000_0000_0000u64 {
                    i64::MIN
                } else {
                    -(total as i64)
                };
                Some(Amount { commodity, quantity: q })
            } else if total > i64::MAX as u64 {
                None
            } else {
                Some(Amount { commodity, quantity: total as i64 })
            }
        },
        None => None,
    }
}

} // verus!
