//! The exit code carried by the user interface's quit event.
use vstd::prelude::*;
use vstd::string::StringSliceAdditionalSpecFns;

verus! {

/// An ASCII decimal digit.
pub open spec fn is_digit(c: u8) -> bool {
    48 <= c <= 57
}

/// The value of a run of decimal digits, most significant first.
pub open spec fn digits_value(d: Seq<u8>) -> int
    decreases d.len(),
{
    if d.len() == 0 {
        0
    } else {
        digits_value(d.drop_last()) * 10 + (d.last() - 48)
    }
}

/// Every byte of `d` is a digit.
pub open spec fn all_digits(d: Seq<u8>) -> bool {
    forall|i: int| 0 <= i < d.len() ==> is_digit(#[trigger] d[i])
}

/// `s` without its leading sign, if it has one.
pub open spec fn unsigned_part(s: Seq<u8>) -> Seq<u8> {
    if s.len() > 0 && (s[0] == 45 || s[0] == 43) {
        s.drop_first()
    } else {
        s
    }
}

/// The `i32` that the text `s` denotes in decimal: an optional `+` or `-`,
/// then one digit or more, and a value within `i32`'s range; `None` for any
/// other text.
pub open spec fn parse_i32(s: Seq<u8>) -> Option<int> {
    let d = unsigned_part(s);
    let v = if s.len() > 0 && s[0] == 45 {
        -digits_value(d)
    } else {
        digits_value(d)
    };
    if d.len() > 0 && all_digits(d) && i32::MIN <= v <= i32::MAX {
        Some(v)
    } else {
        None
    }
}

/// The exit code of a quit payload: the integer it denotes, or 0 when it
/// denotes none.
pub open spec fn exit_code_of(s: Seq<u8>) -> int {
    match parse_i32(s) {
        Some(v) => v,
        None => 0,
    }
}

/// Appending digits never makes the value smaller.
proof fn lemma_digits_value_grows(d: Seq<u8>, k: int)
    requires
        0 <= k <= d.len(),
        all_digits(d),
    ensures
        0 <= digits_value(d.take(k)) <= digits_value(d),
    decreases d.len(),
{
    if d.len() > 0 {
        if k == d.len() {
            assert(d.take(k) =~= d);
            lemma_digits_value_grows(d.drop_last(), k - 1);
        } else {
            lemma_digits_value_grows(d.drop_last(), k);
            assert(d.drop_last().take(k) =~= d.take(k));
        }
    }
}

/// The process exit code requested by a quit payload.
pub fn exit_code(payload: &str) -> (r: i32)
    ensures
        r as int == exit_code_of(payload.spec_bytes()),
{
    let b = payload.as_bytes();
    let ghost s = payload.spec_bytes();
    let n = b.len();
    let neg = n > 0 && b[0] == 45;
    let start: usize = if n > 0 && (b[0] == 45 || b[0] == 43) {
        1
    } else {
        0
    };
    let ghost d = unsigned_part(s);
    assert(d =~= s.subrange(start as int, n as int));
    if start == n {
        return 0;
    }
    let mut v: i64 = 0;
    let mut i: usize = start;
    while i < n
        invariant
            s == payload.spec_bytes(),
            b@ == s,
            n == s.len(),
            d == unsigned_part(s),
            start <= i <= n,
            d == s.subrange(start as int, n as int),
            forall|j: int| 0 <= j < i - start ==> is_digit(#[trigger] d[j]),
            v == digits_value(d.take(i - start)),
            0 <= v <= 2147483648,
        decreases n - i,
    {
        let c = b[i];
        if c < 48 || c > 57 {
            assert(!is_digit(d[i - start]));
            return 0;
        }
        proof {
            assert(d.take(i + 1 - start).drop_last() =~= d.take(i - start));
        }
        v = v * 10 + (c - 48) as i64;
        if v > 2147483648 {
            proof {
                if all_digits(d) {
                    lemma_digits_value_grows(d, i + 1 - start);
                }
            }
            return 0;
        }
        i = i + 1;
    }
    proof {
        assert(d.take(n - start) =~= d);
    }
    if neg {
        (-v) as i32
    } else if v <= 2147483647 {
        v as i32
    } else {
        0
    }
}

} // verus!
