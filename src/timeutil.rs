use std::time::{Duration, SystemTime};
use vstd::prelude::*;
use vstd::string::{StrSliceExecFns, StringExecFns};

use crate::context::duration_nanos;

verus! {

#[verifier::external_type_specification]
#[verifier::external_body]
pub struct ExSystemTime(SystemTime);

/// Relies on `std::time::SystemTime::now`: the wall-clock time.
#[verifier::external_body]
fn system_now() -> (r: SystemTime) {
    SystemTime::now()
}

/// Relies on `std::time::SystemTime::UNIX_EPOCH`.
#[verifier::external_body]
fn unix_epoch() -> (r: SystemTime) {
    SystemTime::UNIX_EPOCH
}

/// Relies on `std::time::SystemTime::duration_since`: `None` where `earlier`
/// is later than `t`.
#[verifier::external_body]
fn duration_since(t: &SystemTime, earlier: &SystemTime) -> (r: Option<Duration>) {
    t.duration_since(*earlier).ok()
}

/// Relies on `std::time::Duration::ZERO`.
#[verifier::external_body]
fn zero_duration() -> (r: Duration) {
    Duration::ZERO
}

/// The distance of the wall clock from the Unix epoch, with `1` when the
/// clock is past it, `0` when before it, and `-1` (and zero) when neither
/// could be measured.
pub fn times() -> (r: (Duration, i8))
    ensures
        r.1 == 1 || r.1 == 0 || r.1 == -1,
{
    let now = system_now();
    let epoch = unix_epoch();
    match duration_since(&now, &epoch) {
        Some(n) => (n, 1),
        None => match duration_since(&epoch, &now) {
            Some(n) => (n, 0),
            None => (zero_duration(), -1),
        },
    }
}

/// The time from `tm_old` to `tm_new`, zero when `tm_new` is earlier.
pub fn tms_since(tm_new: SystemTime, tm_old: SystemTime) -> (r: Duration) {
    match duration_since(&tm_new, &tm_old) {
        Some(n) => n,
        None => zero_duration(),
    }
}

/// The time since `tm_old`, zero when it lies in the future.
pub fn tms_now_since(tm_old: SystemTime) -> (r: Duration) {
    tms_since(system_now(), tm_old)
}

/// The low 32 bits of the nanoseconds since the epoch: a cheap varying number.
pub fn randtms() -> (r: u32) {
    let (tms, _) = times();
    (duration_nanos(&tms) % 0x1_0000_0000) as u32
}

/// `randtms` in decimal.
pub fn randoms() -> (r: String) {
    randtms().to_string()
}

/// Moves the seed `rds` into `[a, b]`: taken modulo `b` when above it, then
/// doubled (plus one) while below `a`; a doubling that would pass `b` stops
/// at `a`. A seed that reaches 0 gives 0, and so does an empty range.
pub fn range_from(seed: u32, a: u32, b: u32) -> (r: u32)
    ensures
        (b == 0 || a > b) ==> r == 0,
        !(b == 0 || a > b) ==> r == 0 || (a <= r && r <= b),
        !(b == 0 || a > b) && a <= seed && seed <= b ==> r == seed,
{
    if b == 0 || a > b {
        return 0;
    }
    let mut rds = seed;
    if rds > b {
        rds = rds % b;
    }
    while rds != 0 && rds < a
        invariant
            0 < b,
            a <= b,
            rds <= b,
            a <= seed <= b ==> rds == seed,
        decreases b - rds,
    {
        if rds > (b - 1) / 2 {
            return a;
        }
        rds = rds * 2 + 1;
    }
    rds
}

/// A varying number in `[a, b]`, or 0 (see `range_from`).
pub fn randtms_ang(a: u32, b: u32) -> (r: u32)
    ensures
        (b == 0 || a > b) ==> r == 0,
        !(b == 0 || a > b) ==> r == 0 || (a <= r && r <= b),
{
    range_from(randtms(), a, b)
}

/// The characters that `random` draws from.
pub open spec fn random_alphabet() -> Seq<char> {
    seq![
        '0', '1', '2', '3', '4', '5', '6', '7', '8', '9', 'A', 'a', 'B', 'b', 'C', 'c', 'D', 'd', 'E', 'e',
        'F', 'f', 'G', 'g', 'H', 'h', 'I', 'i', 'J', 'j', 'K', 'k', 'L', 'l', 'M', 'm', 'N', 'n', 'O', 'o',
        'P', 'p', 'Q', 'q', 'R', 'r', 'S', 's', 'T', 't', 'U', 'u', 'V', 'v', 'W', 'w', 'X', 'x', 'Y', 'y',
        'Z', 'z',
    ]
}

/// `ln` characters drawn from `random_alphabet`.
pub fn random(ln: usize) -> (r: String)
    ensures
        r@.len() == ln,
        forall|i: int| 0 <= i < ln ==> random_alphabet().contains(#[trigger] r@[i]),
{
    let bs = "0123456789AaBbCcDdEeFfGgHhIiJjKkLlMmNnOoPpQqRrSsTtUuVvWwXxYyZz";
    proof {
        reveal_strlit("0123456789AaBbCcDdEeFfGgHhIiJjKkLlMmNnOoPpQqRrSsTtUuVvWwXxYyZz");
        assert(bs@ =~= random_alphabet());
    }
    let mut res = String::new();
    let mut k: usize = 0;
    while k < ln
        invariant
            0 <= k <= ln,
            bs@ == random_alphabet(),
            res@.len() == k,
            forall|i: int| 0 <= i < k ==> random_alphabet().contains(#[trigger] res@[i]),
        decreases ln - k,
    {
        let i = randtms_ang(0, 61);
        let c = bs.substring_char(i as usize, i as usize + 1);
        let ghost before = res@;
        res.append(c);
        proof {
            assert(res@[k as int] == random_alphabet()[i as int]);
            assert forall|j: int| 0 <= j < k + 1 implies random_alphabet().contains(#[trigger] res@[j]) by {
                if j < k {
                    assert(res@[j] == before[j]);
                } else {
                    assert(random_alphabet()[i as int] == res@[j]);
                }
            }
        }
        k = k + 1;
    }
    res
}

} // verus!
