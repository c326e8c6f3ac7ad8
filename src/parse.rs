//! Reading the textual fields of a record.
use vstd::prelude::*;
use vstd::string::StringSliceAdditionalSpecFns;
use crate::decimal::{pow10, Decimal};
use crate::transaction_type::TransactionType;

verus! {

/// At most this many digits are accepted in an amount.
pub const MAX_DIGITS: u32 = 18;

pub open spec fn is_digit(b: u8) -> bool {
    48 <= b <= 57
}

/// What a left-to-right reading of an unsigned amount has gathered so far.
pub struct Scan {
    /// The digits read, as one integer.
    pub value: int,
    /// How many digits stood after the decimal point.
    pub scale: nat,
    /// How many digits were read.
    pub digits: nat,
    pub dot: bool,
    /// Nothing but digits and at most one `.` so far.
    pub ok: bool,
}

pub open spec fn scan(s: Seq<u8>) -> Scan
    decreases s.len(),
{
    if s.len() == 0 {
        Scan { value: 0, scale: 0, digits: 0, dot: false, ok: true }
    } else {
        let p = scan(s.drop_last());
        let b = s.last();
        if !p.ok {
            p
        } else if is_digit(b) {
            Scan {
                value: p.value * 10 + (b - 48),
                scale: if p.dot {
                    p.scale + 1
                } else {
                    p.scale
                },
                digits: p.digits + 1,
                ..p
            }
        } else if b == 46 && !p.dot {
            Scan { dot: true, ..p }
        } else {
            Scan { ok: false, ..p }
        }
    }
}

/// The amount written in `s`: an optional `-` or `+`, then digits with at most
/// one `.` among them, at least one and at most `MAX_DIGITS` digits in all.
pub open spec fn decimal_of(s: Seq<u8>) -> Option<Decimal> {
    let neg = s.len() > 0 && s[0] == 45;
    let signed = s.len() > 0 && (s[0] == 45 || s[0] == 43);
    let body = if signed {
        s.drop_first()
    } else {
        s
    };
    let st = scan(body);
    if st.ok && 1 <= st.digits <= MAX_DIGITS {
        Some(
            Decimal {
                mantissa: (if neg {
                    -st.value
                } else {
                    st.value
                }) as i64,
                scale: st.scale as u32,
            },
        )
    } else {
        None
    }
}

proof fn lemma_scan_bounds(s: Seq<u8>)
    ensures
        0 <= scan(s).value < pow10(scan(s).digits),
        scan(s).scale <= scan(s).digits,
    decreases s.len(),
{
    if s.len() > 0 {
        let p = scan(s.drop_last());
        lemma_scan_bounds(s.drop_last());
        if p.ok && is_digit(s.last()) {
            let v = p.value;
            let q = pow10(p.digits) as int;
            assert(v * 10 + 9 < q * 10) by (nonlinear_arith)
                requires
                    0 <= v < q,
            ;
        }
    }
}

/// Reads an amount such as `-12.5`; see `decimal_of`.
pub fn parse_decimal(s: &[u8]) -> (r: Option<Decimal>)
    ensures
        r == decimal_of(s@),
{
    let n = s.len();
    let neg = n > 0 && s[0] == 45;
    let signed = n > 0 && (s[0] == 45 || s[0] == 43);
    let start: usize = if signed {
        1
    } else {
        0
    };
    let ghost body = if signed {
        s@.drop_first()
    } else {
        s@
    };
    let mut value: i64 = 0;
    let mut scale: u32 = 0;
    let mut digits: u32 = 0;
    let mut dot = false;
    let mut i: usize = start;
    while i < n
        invariant
            start <= i <= n == s@.len(),
            signed == (s@.len() > 0 && (s@[0] == 45 || s@[0] == 43)),
            neg == (s@.len() > 0 && s@[0] == 45),
            body == (if signed {
                s@.drop_first()
            } else {
                s@
            }),
            body == s@.subrange(start as int, n as int),
            ({
                let st = scan(body.take(i - start));
                &&& st.ok
                &&& st.value == value
                &&& st.scale == scale
                &&& st.digits == digits
                &&& st.dot == dot
                &&& digits <= MAX_DIGITS
            }),
            0 <= value,
        decreases n - i,
    {
        let ghost pre = body.take(i - start);
        let ghost next = body.take(i + 1 - start);
        assert(next.drop_last() =~= pre);
        assert(next.last() == s@[i as int]);
        proof {
            lemma_scan_bounds(pre);
        }
        let b = s[i];
        if 48 <= b && b <= 57 {
            if digits == MAX_DIGITS {
                proof {
                    assert(scan(next).digits == digits + 1);
                    lemma_scan_more_digits(body, (i + 1 - start) as int);
                    assert(decimal_of(s@) == None::<Decimal>);
                }
                return None;
            }
            proof {
                crate::decimal::lemma_pow10_monotone(digits as nat, 17);
                reveal_with_fuel(pow10, 18);
            }
            value = value * 10 + (b - 48) as i64;
            if dot {
                scale = scale + 1;
            }
            digits = digits + 1;
        } else if b == 46 && !dot {
            dot = true;
        } else {
            proof {
                assert(!scan(next).ok);
                lemma_scan_stays_failed(body, (i + 1 - start) as int);
                assert(decimal_of(s@) == None::<Decimal>);
            }
            return None;
        }
        i = i + 1;
    }
    assert(body.take(n - start) =~= body);
    if digits == 0 {
        return None;
    }
    let m = if neg {
        -value
    } else {
        value
    };
    Some(Decimal { mantissa: m, scale })
}

/// Once the reading has failed, it stays failed.
proof fn lemma_scan_stays_failed(s: Seq<u8>, k: int)
    requires
        0 <= k <= s.len(),
        !scan(s.take(k)).ok,
    ensures
        !scan(s).ok,
    decreases s.len() - k,
{
    if k < s.len() {
        assert(s.take(k + 1).drop_last() =~= s.take(k));
        lemma_scan_stays_failed(s, k + 1);
    } else {
        assert(s.take(k) =~= s);
    }
}

/// More than `MAX_DIGITS` digits: the reading fails or keeps too many digits.
proof fn lemma_scan_more_digits(s: Seq<u8>, k: int)
    requires
        0 <= k <= s.len(),
        !scan(s.take(k)).ok || scan(s.take(k)).digits > MAX_DIGITS,
    ensures
        !scan(s).ok || scan(s).digits > MAX_DIGITS,
    decreases s.len() - k,
{
    if k < s.len() {
        assert(s.take(k + 1).drop_last() =~= s.take(k));
        lemma_scan_more_digits(s, k + 1);
    } else {
        assert(s.take(k) =~= s);
    }
}

/// The kind named by `s`: each kind's upper-case name, or its lower-case alias.
pub open spec fn type_of_name(s: Seq<u8>) -> Option<TransactionType> {
    if s == "DEPOSIT".spec_bytes() || s == "deposit".spec_bytes() {
        Some(TransactionType::DEPOSIT)
    } else if s == "WITHDRAW".spec_bytes() || s == "withdrawal".spec_bytes() {
        Some(TransactionType::WITHDRAW)
    } else if s == "DISPUTE".spec_bytes() || s == "dispute".spec_bytes() {
        Some(TransactionType::DISPUTE)
    } else if s == "RESOLVE".spec_bytes() || s == "resolve".spec_bytes() {
        Some(TransactionType::RESOLVE)
    } else if s == "CHARGEBACK".spec_bytes() || s == "chargeback".spec_bytes() {
        Some(TransactionType::CHARGEBACK)
    } else {
        None
    }
}

fn bytes_eq(a: &[u8], b: &[u8]) -> (r: bool)
    ensures
        r == (a@ == b@),
{
    if a.len() != b.len() {
        return false;
    }
    let mut i: usize = 0;
    while i < a.len()
        invariant
            a@.len() == b@.len(),
            i <= a@.len(),
            a@.take(i as int) == b@.take(i as int),
        decreases a@.len() - i,
    {
        if a[i] != b[i] {
            assert(a@.take(i + 1)[i as int] != b@.take(i + 1)[i as int]);
            return false;
        }
        assert(a@.take(i + 1) =~= a@.take(i as int).push(a@[i as int]));
        assert(b@.take(i + 1) =~= b@.take(i as int).push(b@[i as int]));
        i = i + 1;
    }
    assert(a@ =~= a@.take(a@.len() as int));
    assert(b@ =~= b@.take(b@.len() as int));
    true
}

impl TransactionType {
    /// Reads the kind named by `s`; see `type_of_name`.
    pub fn from_name(s: &[u8]) -> (r: Option<TransactionType>)
        ensures
            r == type_of_name(s@),
    {
        if bytes_eq(s, "DEPOSIT".as_bytes()) || bytes_eq(s, "deposit".as_bytes()) {
            Some(TransactionType::DEPOSIT)
        } else if bytes_eq(s, "WITHDRAW".as_bytes()) || bytes_eq(s, "withdrawal".as_bytes()) {
            Some(TransactionType::WITHDRAW)
        } else if bytes_eq(s, "DISPUTE".as_bytes()) || bytes_eq(s, "dispute".as_bytes()) {
            Some(TransactionType::DISPUTE)
        } else if bytes_eq(s, "RESOLVE".as_bytes()) || bytes_eq(s, "resolve".as_bytes()) {
            Some(TransactionType::RESOLVE)
        } else if bytes_eq(s, "CHARGEBACK".as_bytes()) || bytes_eq(s, "chargeback".as_bytes()) {
            Some(TransactionType::CHARGEBACK)
        } else {
            None
        }
    }
}

} // verus!
