//! Medians and quartiles of whole numbers, exact to a quarter.

use crate::text::{dec, push_dec};
use vstd::prelude::*;

verus! {

/// A number in quarters.
#[derive(Clone, Copy, Debug, PartialEq, Eq, Structural)]
pub struct Quarters(pub u128);

/// What stands behind the point.
pub open spec fn fraction(n: nat) -> Seq<char> {
    if n % 4 == 1 {
        ".25"@
    } else if n % 4 == 2 {
        ".5"@
    } else if n % 4 == 3 {
        ".75"@
    } else {
        ""@
    }
}

/// So many quarters in decimals, with no more of them than it takes.
pub open spec fn quarters_text(n: nat) -> Seq<char> {
    dec(n / 4) + fraction(n)
}

impl Quarters {
    /// The number in decimals.
    pub fn to_string(&self) -> (r: String)
        ensures
            r@ == quarters_text(self.0 as nat),
    {
        let mut t = String::new();
        push_dec(&mut t, self.0 / 4);
        let f: &str = if self.0 % 4 == 1 {
            ".25"
        } else if self.0 % 4 == 2 {
            ".5"
        } else if self.0 % 4 == 3 {
            ".75"
        } else {
            ""
        };
        t.push_str(f);
        assert(t@ =~= quarters_text(self.0 as nat));
        t
    }
}

// ---------- order ----------

/// A number put in its place among ascending ones.
pub open spec fn slot(s: Seq<u128>, x: u128) -> Seq<u128>
    decreases s.len(),
{
    if s.len() == 0 || s.last() <= x {
        s.push(x)
    } else {
        slot(s.drop_last(), x).push(s.last())
    }
}

/// Numbers in ascending order.
pub open spec fn ascend(xs: Seq<u128>) -> Seq<u128>
    decreases xs.len(),
{
    if xs.len() == 0 {
        Seq::empty()
    } else {
        slot(ascend(xs.drop_last()), xs.last())
    }
}

pub open spec fn rising(s: Seq<u128>) -> bool {
    forall|i: int, j: int| 0 <= i <= j < s.len() ==> s[i] <= s[j]
}

proof fn slot_ok(s: Seq<u128>, x: u128)
    requires
        rising(s),
    ensures
        rising(slot(s, x)),
        slot(s, x).len() == s.len() + 1,
        slot(s, x).to_multiset() == s.to_multiset().insert(x),
        forall|i: int| 0 <= i < slot(s, x).len() ==> #[trigger] slot(s, x)[i] == x || s.contains(
            slot(s, x)[i],
        ),
    decreases s.len(),
{
    if s.len() == 0 || s.last() <= x {
        s.to_multiset_ensures();
        assert forall|i: int| 0 <= i < slot(s, x).len() implies #[trigger] slot(s, x)[i] == x
            || s.contains(slot(s, x)[i]) by {
            if i < s.len() {
                assert(s[i] == slot(s, x)[i]);
            }
        }
    } else {
        let d = s.drop_last();
        slot_ok(d, x);
        let t = slot(d, x);
        t.to_multiset_ensures();
        d.to_multiset_ensures();
        assert(d.push(s.last()) =~= s);
        assert(slot(s, x).to_multiset() =~= s.to_multiset().insert(x));
        assert forall|i: int| 0 <= i < slot(s, x).len() implies #[trigger] slot(s, x)[i] == x
            || s.contains(slot(s, x)[i]) by {
            if i < t.len() {
                assert(t[i] == slot(s, x)[i]);
                if t[i] != x {
                    let j = choose|j: int| 0 <= j < d.len() && d[j] == t[i];
                    assert(s[j] == t[i]);
                }
            } else {
                assert(s[s.len() - 1] == slot(s, x)[i]);
            }
        }
        assert forall|i: int, j: int| 0 <= i <= j < slot(s, x).len() implies slot(s, x)[i] <= slot(
            s,
            x,
        )[j] by {
            if j == t.len() && i < j {
                assert(slot(s, x)[i] == t[i]);
                if t[i] != x {
                    let k = choose|k: int| 0 <= k < d.len() && d[k] == t[i];
                    assert(s[k] <= s[s.len() - 1]);
                }
            }
        }
    }
}

/// What is in order is what was there, each number as often, and it ascends.
pub proof fn ascend_ok(xs: Seq<u128>)
    ensures
        rising(ascend(xs)),
        ascend(xs).len() == xs.len(),
        ascend(xs).to_multiset() == xs.to_multiset(),
    decreases xs.len(),
{
    if xs.len() > 0 {
        let d = xs.drop_last();
        ascend_ok(d);
        slot_ok(ascend(d), xs.last());
        d.to_multiset_ensures();
        assert(d.push(xs.last()) =~= xs);
    } else {
        assert(ascend(xs) =~= xs);
    }
}

proof fn slot_at(s: Seq<u128>, x: u128, i: int)
    requires
        0 <= i <= s.len(),
        forall|j: int| i <= j < s.len() ==> s[j] > x,
        i > 0 ==> s[i - 1] <= x,
    ensures
        slot(s, x) == s.insert(i, x),
    decreases s.len(),
{
    if i == s.len() {
        assert(s.insert(i, x) =~= s.push(x));
    } else {
        let d = s.drop_last();
        assert forall|j: int| i <= j < d.len() implies d[j] > x by {
            assert(d[j] == s[j]);
        }
        slot_at(d, x, i);
        assert(d.insert(i, x).push(s.last()) =~= s.insert(i, x));
    }
}

fn in_order(xs: &Vec<u128>) -> (r: Vec<u128>)
    ensures
        r@ == ascend(xs@),
{
    let mut out: Vec<u128> = Vec::new();
    let mut i: usize = 0;
    while i < xs.len()
        invariant
            i <= xs@.len(),
            out@ == ascend(xs@.take(i as int)),
        decreases xs@.len() - i,
    {
        let x = xs[i];
        let mut k: usize = out.len();
        while k > 0 && out[k - 1] > x
            invariant
                k <= out@.len(),
                forall|j: int| k <= j < out@.len() ==> out@[j] > x,
            decreases k,
        {
            k -= 1;
        }
        proof {
            slot_at(out@, x, k as int);
            assert(xs@.take(i + 1).drop_last() =~= xs@.take(i as int));
        }
        out.insert(k, x);
        i += 1;
    }
    assert(xs@.take(i as int) =~= xs@);
    out
}

// ---------- quantiles ----------

/// Small enough to be counted in quarters.
pub open spec fn small(x: u128) -> bool {
    x <= 0x0FFF_FFFF_FFFF_FFFF_FFFF_FFFF_FFFF_FFFF
}

pub open spec fn all_small(xs: Seq<u128>) -> bool {
    forall|i: int| 0 <= i < xs.len() ==> small(#[trigger] xs[i])
}

/// The quantile at `k` quarters of the way through the numbers in order, in quarters, between two
/// numbers in proportion. Nought for no numbers.
pub open spec fn quantile_of(xs: Seq<u128>, k: int) -> int {
    if xs.len() == 0 {
        0
    } else {
        let s = ascend(xs);
        let at = k * (xs.len() - 1);
        let lo = at / 4;
        let hi = if at % 4 == 0 {
            lo
        } else {
            lo + 1
        };
        4 * s[lo] + (s[hi] - s[lo]) * (at % 4)
    }
}

/// The middle number in order, or the mean of the two in the middle, in quarters. Nought for no
/// numbers.
pub open spec fn median_of(xs: Seq<u128>) -> int {
    let s = ascend(xs);
    let n = xs.len() as int;
    if n == 0 {
        0
    } else if n % 2 == 1 {
        4 * s[n / 2]
    } else {
        2 * (s[n / 2 - 1] + s[n / 2])
    }
}

proof fn ascend_small(xs: Seq<u128>)
    requires
        all_small(xs),
    ensures
        all_small(ascend(xs)),
    decreases xs.len(),
{
    if xs.len() > 0 {
        let d = xs.drop_last();
        assert forall|i: int| 0 <= i < d.len() implies small(#[trigger] d[i]) by {
            assert(d[i] == xs[i]);
        }
        ascend_small(d);
        ascend_ok(d);
        slot_ok(ascend(d), xs.last());
        assert(small(xs[xs.len() - 1]));
        let s = slot(ascend(d), xs.last());
        assert forall|i: int| 0 <= i < s.len() implies small(#[trigger] s[i]) by {
            if s[i] != xs.last() {
                let j = choose|j: int| 0 <= j < ascend(d).len() && ascend(d)[j] == s[i];
                assert(small(ascend(d)[j]));
            }
        }
    }
}

/// The quantile at `k` quarters of the way.
pub fn quantile(xs: &Vec<u128>, k: u8) -> (r: Quarters)
    requires
        k <= 4,
        all_small(xs@),
    ensures
        r.0 == quantile_of(xs@, k as int),
{
    if xs.len() == 0 {
        return Quarters(0);
    }
    proof {
        ascend_ok(xs@);
        ascend_small(xs@);
    }
    let s = in_order(xs);
    let n: u128 = (xs.len() - 1) as u128;
    let at: u128 = match k {
        0 => 0,
        1 => n,
        2 => n * 2,
        3 => n * 3,
        _ => n * 4,
    };
    assert(at == k * n) by (nonlinear_arith)
        requires
            k == 0 && at == 0 || k == 1 && at == n || k == 2 && at == n * 2 || k == 3 && at == n
                * 3 || k == 4 && at == n * 4,
    ;
    assert(at <= 4 * n);
    let lo: usize = (at / 4) as usize;
    assert(lo <= n);
    let f: u128 = at % 4;
    if f == 0 {
        assert(small(s@[lo as int]));
        proof {
            let d = s@[lo as int] - s@[lo as int];
            assert(d * 0 == 0);
        }
        return Quarters(4 * s[lo]);
    }
    assert(lo + 1 <= n);
    let a = s[lo];
    let b = s[lo + 1];
    assert(small(s@[lo as int]) && small(s@[lo + 1]));
    assert(a <= b);
    let d: u128 = b - a;
    let part: u128 = if f == 1 {
        d
    } else if f == 2 {
        d * 2
    } else {
        d * 3
    };
    assert(part == d * f) by (nonlinear_arith)
        requires
            f == 1 && part == d || f == 2 && part == d * 2 || f == 3 && part == d * 3,
    ;
    Quarters(4 * a + part)
}

/// The median.
pub fn median(xs: &Vec<u128>) -> (r: Quarters)
    requires
        all_small(xs@),
    ensures
        r.0 == median_of(xs@),
{
    let n = xs.len();
    if n == 0 {
        return Quarters(0);
    }
    proof {
        ascend_ok(xs@);
        ascend_small(xs@);
    }
    let s = in_order(xs);
    if n % 2 == 1 {
        assert(small(s@[n as int / 2]));
        Quarters(4 * s[n / 2])
    } else {
        assert(small(s@[n as int / 2]) && small(s@[n as int / 2 - 1]));
        Quarters(2 * (s[n / 2 - 1] + s[n / 2]))
    }
}

/// The median is the quantile half of the way through.
pub proof fn median_is_the_middle_quantile(xs: Seq<u128>)
    ensures
        median_of(xs) == quantile_of(xs, 2),
{
    let n = xs.len() as int;
    if n > 0 {
        let s = ascend(xs);
        if n % 2 == 1 {
            assert(2 * (n - 1) % 4 == 0);
            assert(2 * (n - 1) / 4 == n / 2);
            let d = s[n / 2] - s[n / 2];
            assert(d * 0 == 0);
        } else {
            assert(2 * (n - 1) % 4 == 2);
            assert(2 * (n - 1) / 4 == n / 2 - 1);
            let d = s[n / 2] - s[n / 2 - 1];
            assert(d * 2 == d + d);
        }
    }
}

/// A quantile lies between the least and the greatest of the numbers.
pub proof fn quantiles_lie_within(xs: Seq<u128>, k: int)
    requires
        xs.len() > 0,
        0 <= k <= 4,
    ensures
        4 * ascend(xs)[0] <= quantile_of(xs, k) <= 4 * ascend(xs)[xs.len() - 1],
{
    ascend_ok(xs);
    let s = ascend(xs);
    let n = xs.len() - 1;
    let at = k * n;
    assert(0 <= at <= 4 * n) by (nonlinear_arith)
        requires
            at == k * n,
            0 <= k <= 4,
            n >= 0,
    ;
    let lo = at / 4;
    let f = at % 4;
    let hi = if f == 0 {
        lo
    } else {
        lo + 1
    };
    assert(0 <= lo <= hi <= n);
    let d = s[hi] - s[lo];
    assert(s[0] <= s[lo] <= s[hi] <= s[n]);
    assert(0 <= d * f <= 4 * d) by (nonlinear_arith)
        requires
            0 <= f < 4,
            d >= 0,
    ;
}

} // verus!
