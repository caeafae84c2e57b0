//! Lua values as plain data, and when two of them are deeply equal.

use vstd::prelude::*;

verus! {

/// A Lua value, taken out of its Lua state: what deep equality looks at.
///
/// Floating-point numbers stand here as their bits.
#[derive(Debug, PartialEq, Eq)]
pub enum LuaData {
    /// `nil`
    Nil,
    /// `true` or `false`
    Boolean(bool),
    /// An integer number.
    Integer(i64),
    /// A floating-point number.
    Number {
        /// Its bits.
        bits: u64,
    },
    /// A string, which need not be valid UTF-8.
    Text(Vec<u8>),
    /// A table, as its pairs of keys and values in some order.
    Table(Vec<(LuaData, LuaData)>),
    /// A function, thread, userdata or other opaque value.
    Opaque,
}

/// The bits of the double without its sign.
pub open spec fn magnitude(bits: u64) -> u64 {
    bits & 0x7fff_ffff_ffff_ffff
}

/// The double with these bits is not a number.
pub open spec fn is_nan(bits: u64) -> bool {
    magnitude(bits) > 0x7ff0_0000_0000_0000
}

/// The doubles with these bits compare equal: neither is NaN, and they are the
/// same or both zero.
pub open spec fn same_double(a: u64, b: u64) -> bool {
    &&& !is_nan(a)
    &&& !is_nan(b)
    &&& a == b || (magnitude(a) == 0 && magnitude(b) == 0)
}

/// The exponent field of the double.
pub open spec fn exponent(bits: u64) -> u64 {
    (bits >> 52) & 0x7ff
}

/// The fraction field of the double.
pub open spec fn fraction(bits: u64) -> u64 {
    bits & 0x000f_ffff_ffff_ffff
}

/// The sign bit of the double is set.
pub open spec fn negative(bits: u64) -> bool {
    bits >> 63 == 1
}

/// The significand of the double, as an integer; doubles with the lowest
/// exponent lack the leading bit.
pub open spec fn significand(bits: u64) -> int {
    if exponent(bits) == 0 {
        fraction(bits) as int
    } else {
        fraction(bits) + 0x0010_0000_0000_0000
    }
}

/// By how many powers of two the significand counts more than it does in the
/// smallest doubles.
pub open spec fn shift(bits: u64) -> nat {
    if exponent(bits) == 0 {
        0
    } else {
        (exponent(bits) - 1) as nat
    }
}

/// Two to the power of `k`.
pub open spec fn power_of_two(k: nat) -> nat {
    vstd::arithmetic::power2::pow2(k)
}

/// The exact value of a finite double, as a multiple of the smallest positive
/// double, which is two to the power of -1074.
pub open spec fn units(bits: u64) -> int {
    let size = significand(bits) * power_of_two(shift(bits));
    if negative(bits) {
        -size
    } else {
        size
    }
}

/// The double with these bits is exactly the integer `value`.
pub open spec fn double_is(bits: u64, value: int) -> bool {
    exponent(bits) < 0x7ff && units(bits) == value * power_of_two(1074)
}

impl LuaData {
    /// The two values are deeply equal: tables whose pairs can be paired off
    /// one to one, deeply equal in key and value; numbers by exact value,
    /// across integers and floats; strings by their bytes; opaque values never.
    pub open spec fn deep_equal(self, other: LuaData) -> bool
        decreases self,
    {
        match (self, other) {
            (LuaData::Nil, LuaData::Nil) => true,
            (LuaData::Boolean(a), LuaData::Boolean(b)) => a == b,
            (LuaData::Integer(a), LuaData::Integer(b)) => a == b,
            (LuaData::Number { bits: a }, LuaData::Number { bits: b }) => same_double(a, b),
            (LuaData::Integer(a), LuaData::Number { bits: b }) => double_is(b, a as int),
            (LuaData::Number { bits: a }, LuaData::Integer(b)) => double_is(a, b as int),
            (LuaData::Text(a), LuaData::Text(b)) => a@ == b@,
            (LuaData::Table(a), LuaData::Table(b)) => a@.len() == b@.len() && exists|m: Seq<int>|
                {
                    &&& #[trigger] picks(m, b@.len())
                    &&& forall|i: int|
                        #![trigger m[i]]
                        0 <= i < a@.len() ==> paired(a@[i], b@[m[i]])
                },
            _ => false,
        }
    }
}

/// `m` picks each of the numbers below `n` once.
pub open spec fn picks(m: Seq<int>, n: nat) -> bool {
    &&& m.len() == n
    &&& m.no_duplicates()
    &&& forall|i: int| 0 <= i < n ==> 0 <= #[trigger] m[i] < n
}

/// The pairs are deeply equal in key and value.
pub open spec fn paired(pair: (LuaData, LuaData), other: (LuaData, LuaData)) -> bool
    decreases pair,
{
    pair.0.deep_equal(other.0) && pair.1.deep_equal(other.1)
}

/// `m` pairs each of `a` with one of `b`, and no two with the same.
pub open spec fn pairing(
    a: Seq<(LuaData, LuaData)>,
    b: Seq<(LuaData, LuaData)>,
    m: Seq<int>,
) -> bool {
    &&& a.len() == b.len()
    &&& picks(m, b.len())
    &&& forall|i: int| #![trigger m[i]] 0 <= i < a.len() ==> paired(a[i], b[m[i]])
}

/// Whether the doubles with these bits compare equal.
fn same_number(a: u64, b: u64) -> (same: bool)
    ensures
        same == same_double(a, b),
{
    let left: u64 = a & 0x7fff_ffff_ffff_ffff;
    let right: u64 = b & 0x7fff_ffff_ffff_ffff;
    left <= 0x7ff0_0000_0000_0000 && right <= 0x7ff0_0000_0000_0000 && (a == b || (left == 0
        && right == 0))
}

/// Whether two strings have the same bytes.
fn same_bytes(a: &Vec<u8>, b: &Vec<u8>) -> (same: bool)
    ensures
        same == (a@ == b@),
{
    if a.len() != b.len() {
        return false;
    }
    let mut k: usize = 0;
    while k < a.len()
        invariant
            k <= a@.len(),
            a@.len() == b@.len(),
            forall|j: int| 0 <= j < k ==> a@[j] == b@[j],
        decreases a.len() - k,
    {
        if a[k] != b[k] {
            return false;
        }
        k = k + 1;
    }
    assert(a@ =~= b@);
    true
}

/// `x` times two to the power of `k`.
fn scaled(x: u64, k: u64) -> (y: u128)
    requires
        k <= 60,
    ensures
        y == x * power_of_two(k as nat),
{
    let mut y: u128 = x as u128;
    let mut n: u64 = 0;
    proof {
        vstd::arithmetic::power2::lemma2_to64();
        assert(x * power_of_two(0) == x) by (nonlinear_arith)
            requires
                power_of_two(0) == 1,
        ;
    }
    while n < k
        invariant
            n <= k <= 60,
            y == x * power_of_two(n as nat),
        decreases k - n,
    {
        proof {
            vstd::arithmetic::power2::lemma2_to64();
            vstd::arithmetic::power2::lemma2_to64_rest();
            vstd::arithmetic::power2::lemma_pow2_unfold((n + 1) as nat);
            if n < 60 {
                vstd::arithmetic::power2::lemma_pow2_strictly_increases(n as nat, 60);
            }
            let p = power_of_two(n as nat);
            assert(x * p <= 0xffff_ffff_ffff_ffff * 0x1000_0000_0000_0000) by (nonlinear_arith)
                requires
                    0 <= x <= 0xffff_ffff_ffff_ffff,
                    0 <= p <= 0x1000_0000_0000_0000,
            ;
            assert(2 * (x * p) == x * (2 * p)) by (nonlinear_arith);
        }
        y = 2 * y;
        n = n + 1;
    }
    y
}

/// The fields of a double are within their bounds.
proof fn lemma_fields(bits: u64)
    ensures
        exponent(bits) <= 0x7ff,
        fraction(bits) < 0x0010_0000_0000_0000,
        0 <= significand(bits) < 0x0020_0000_0000_0000,
        exponent(bits) > 0 ==> significand(bits) >= 0x0010_0000_0000_0000,
{
    assert((bits >> 52) & 0x7ff <= 0x7ff) by (bit_vector);
    assert(bits & 0x000f_ffff_ffff_ffff < 0x0010_0000_0000_0000) by (bit_vector);
}

/// Whether the double with these bits is exactly the integer `value`.
fn is_integer(bits: u64, value: i64) -> (same: bool)
    ensures
        same == double_is(bits, value as int),
{
    let exp: u64 = (bits >> 52) & 0x7ff;
    let frac: u64 = bits & 0x000f_ffff_ffff_ffff;
    let minus = bits >> 63 == 1;
    proof {
        lemma_fields(bits);
    }
    if exp == 0x7ff {
        return false;
    }
    let sig: u64 = if exp == 0 {
        frac
    } else {
        frac + 0x0010_0000_0000_0000
    };
    let steps: u64 = if exp == 0 {
        0
    } else {
        exp - 1
    };
    let size: u64 = if value >= 0 {
        value as u64
    } else {
        (-(value + 1)) as u64 + 1
    };
    let ghost unit = power_of_two(1074) as int;
    let ghost power = power_of_two(steps as nat) as int;
    proof {
        vstd::arithmetic::power2::lemma_pow2_pos(1074);
        vstd::arithmetic::power2::lemma_pow2_pos(steps as nat);
        lemma_signs(sig as int, power, value as int, unit, minus);
        assert(size == if value >= 0 {
            value as int
        } else {
            -(value as int)
        });
    }
    if sig == 0 || size == 0 {
        return sig == 0 && size == 0;
    }
    if minus != (value < 0) {
        return false;
    }
    assert(double_is(bits, value as int) == (sig * power == size * unit));
    if steps >= 1074 {
        let k: u64 = steps - 1074;
        let ghost factor = power_of_two(k as nat) as int;
        proof {
            vstd::arithmetic::power2::lemma_pow2_adds(k as nat, 1074);
            assert((sig * power == size * unit) == (sig * factor == size)) by (nonlinear_arith)
                requires
                    power == factor * unit,
                    unit > 0,
            ;
        }
        if k > 11 {
            proof {
                vstd::arithmetic::power2::lemma2_to64();
                if k > 12 {
                    vstd::arithmetic::power2::lemma_pow2_strictly_increases(12, k as nat);
                }
                assert(sig * factor > 0xffff_ffff_ffff_ffff) by (nonlinear_arith)
                    requires
                        sig >= 0x0010_0000_0000_0000,
                        factor >= 4096,
                ;
            }
            return false;
        }
        scaled(sig, k) == size as u128
    } else {
        let k: u64 = 1074 - steps;
        let ghost factor = power_of_two(k as nat) as int;
        proof {
            vstd::arithmetic::power2::lemma_pow2_adds(k as nat, steps as nat);
            assert((sig * power == size * unit) == (sig == size * factor)) by (nonlinear_arith)
                requires
                    unit == factor * power,
                    power > 0,
            ;
        }
        if k > 52 {
            proof {
                vstd::arithmetic::power2::lemma2_to64();
                vstd::arithmetic::power2::lemma2_to64_rest();
                if k > 53 {
                    vstd::arithmetic::power2::lemma_pow2_strictly_increases(53, k as nat);
                }
                assert(size * factor >= 0x0020_0000_0000_0000) by (nonlinear_arith)
                    requires
                        size >= 1,
                        factor >= 0x0020_0000_0000_0000,
                ;
            }
            return false;
        }
        scaled(size, k) == sig as u128
    }
}

/// A product of a significand and a power can equal that of a value and a unit
/// only where both are zero or both have the same sign, and does so where
/// their sizes agree.
proof fn lemma_signs(sig: int, power: int, value: int, unit: int, minus: bool)
    requires
        sig >= 0,
        power > 0,
        unit > 0,
    ensures
        ({
            let size = if value >= 0 {
                value
            } else {
                -value
            };
            let same = (if minus {
                -(sig * power)
            } else {
                sig * power
            }) == value * unit;
            &&& sig == 0 || value == 0 ==> same == (sig == 0 && value == 0)
            &&& sig > 0 && value != 0 && minus != (value < 0) ==> !same
            &&& sig > 0 && value != 0 && minus == (value < 0) ==> same == (sig * power == size
                * unit)
        }),
{
    assert(sig > 0 ==> sig * power > 0) by (nonlinear_arith)
        requires
            power > 0,
    ;
    assert(sig == 0 ==> sig * power == 0) by (nonlinear_arith);
    assert(value > 0 ==> value * unit > 0) by (nonlinear_arith)
        requires
            unit > 0,
    ;
    assert(value < 0 ==> value * unit < 0) by (nonlinear_arith)
        requires
            unit > 0,
    ;
    assert(value == 0 ==> value * unit == 0) by (nonlinear_arith);
    assert((-value) * unit == -(value * unit)) by (nonlinear_arith);
}

/// Whether two values are deeply equal: structurally identical, tables
/// recursively; `1` and `1.0` are equal; functions and other opaque values
/// never are — contexts should be data.
pub fn deep_eq(a: &LuaData, b: &LuaData) -> (same: bool)
    ensures
        same == a.deep_equal(*b),
    decreases a,
{
    match (a, b) {
        (LuaData::Nil, LuaData::Nil) => true,
        (LuaData::Boolean(x), LuaData::Boolean(y)) => *x == *y,
        (LuaData::Integer(x), LuaData::Integer(y)) => *x == *y,
        (LuaData::Number { bits: x }, LuaData::Number { bits: y }) => same_number(*x, *y),
        (LuaData::Integer(x), LuaData::Number { bits: y }) => is_integer(*y, *x),
        (LuaData::Number { bits: x }, LuaData::Integer(y)) => is_integer(*x, *y),
        (LuaData::Text(x), LuaData::Text(y)) => same_bytes(x, y),
        (LuaData::Table(x), LuaData::Table(y)) => {
            if x.len() != y.len() {
                return false;
            }
            proof {
                lemma_tables(*a, *b);
            }
            let mut used: Vec<bool> = Vec::new();
            while used.len() < y.len()
                invariant
                    used@.len() <= y@.len(),
                    forall|j: int| 0 <= j < used@.len() ==> !#[trigger] used@[j],
                decreases y.len() - used.len(),
            {
                used.push(false);
            }
            let ghost mut taken: Seq<int> = Seq::empty();
            let mut i: usize = 0;
            while i < x.len()
                invariant
                    *a == LuaData::Table(*x),
                    *b == LuaData::Table(*y),
                    i <= x@.len(),
                    x@.len() == y@.len(),
                    a.deep_equal(*b) == pairable(x@, y@),
                    used@.len() == y@.len(),
                    marks(used@, taken),
                    taken.len() == i,
                    partly(x@, y@, taken),
                    pairable(x@, y@) ==> extendable(x@, y@, taken),
                decreases x.len() - i,
            {
                assert(decreases_to!(a => a->Table_0));
                assert(decreases_to!((a->Table_0)@ => (a->Table_0)@[i as int]));
                match partner_of(&x[i], y, &used) {
                    Some(j) => {
                        proof {
                            if pairable(x@, y@) {
                                lemma_extended(x@, y@, taken, j as int);
                            }
                            lemma_taken_more(x@, y@, used@, taken, j as int);
                            taken = taken.push(j as int);
                        }
                        used.set(j, true);
                    },
                    None => {
                        proof {
                            lemma_stuck(x@, y@, used@, taken);
                        }
                        return false;
                    },
                }
                i = i + 1;
            }
            assert(pairing(x@, y@, taken));
            true
        },
        _ => false,
    }
}

/// The first of `pairs` that is not `used` and deeply equal to `pair`.
fn partner_of(
    pair: &(LuaData, LuaData),
    pairs: &Vec<(LuaData, LuaData)>,
    used: &Vec<bool>,
) -> (found: Option<usize>)
    requires
        used@.len() == pairs@.len(),
    ensures
        match found {
            Some(j) => j < pairs@.len() && !used@[j as int] && paired(*pair, pairs@[j as int]),
            None => forall|k: int|
                0 <= k < pairs@.len() && !used@[k] ==> !paired(*pair, #[trigger] pairs@[k]),
        },
    decreases pair,
{
    let mut j: usize = 0;
    while j < pairs.len()
        invariant
            used@.len() == pairs@.len(),
            j <= pairs@.len(),
            forall|k: int|
                0 <= k < j && !used@[k] ==> !paired(*pair, #[trigger] pairs@[k]),
        decreases pairs.len() - j,
    {
        if !used[j] && deep_eq(&pair.0, &pairs[j].0) && deep_eq(&pair.1, &pairs[j].1) {
            return Some(j);
        }
        j = j + 1;
    }
    None
}

/// The pairs of `x` and `y` can be paired off.
pub open spec fn pairable(x: Seq<(LuaData, LuaData)>, y: Seq<(LuaData, LuaData)>) -> bool {
    exists|m: Seq<int>| #[trigger] pairing(x, y, m)
}

/// Tables are deeply equal where their pairs can be paired off.
proof fn lemma_tables(a: LuaData, b: LuaData)
    requires
        a is Table,
        b is Table,
    ensures
        a.deep_equal(b) == pairable((a->Table_0)@, (b->Table_0)@),
{
    let x = (a->Table_0)@;
    let y = (b->Table_0)@;
    if a.deep_equal(b) {
        let m = choose|m: Seq<int>|
            {
                &&& #[trigger] picks(m, y.len())
                &&& forall|i: int| #![trigger m[i]] 0 <= i < x.len() ==> paired(x[i], y[m[i]])
            };
        assert(pairing(x, y, m));
    }
    if pairable(x, y) {
        let m = choose|m: Seq<int>| #[trigger] pairing(x, y, m);
        assert(picks(m, y.len()));
    }
}

/// `used` marks the partners taken.
spec fn marks(used: Seq<bool>, taken: Seq<int>) -> bool {
    forall|j: int| 0 <= j < used.len() ==> #[trigger] used[j] == taken.contains(j)
}

/// The first pairs of `x` have the partners `taken`, all different.
spec fn partly(x: Seq<(LuaData, LuaData)>, y: Seq<(LuaData, LuaData)>, taken: Seq<int>) -> bool {
    &&& taken.len() <= x.len()
    &&& taken.no_duplicates()
    &&& forall|i: int|
        #![trigger taken[i]]
        0 <= i < taken.len() ==> 0 <= taken[i] < y.len() && paired(x[i], y[taken[i]])
}

/// Some way to pair `x` and `y` off begins with `taken`.
spec fn extendable(
    x: Seq<(LuaData, LuaData)>,
    y: Seq<(LuaData, LuaData)>,
    taken: Seq<int>,
) -> bool {
    exists|m: Seq<int>| #[trigger]
        pairing(x, y, m) && forall|i: int|
            #![trigger taken[i]]
            0 <= i < taken.len() ==> m[i] == taken[i]
}

/// Taking one more partner.
proof fn lemma_taken_more(
    x: Seq<(LuaData, LuaData)>,
    y: Seq<(LuaData, LuaData)>,
    used: Seq<bool>,
    taken: Seq<int>,
    j: int,
)
    requires
        marks(used, taken),
        partly(x, y, taken),
        taken.len() < x.len(),
        used.len() == y.len(),
        0 <= j < y.len(),
        !used[j],
        paired(x[taken.len() as int], y[j]),
    ensures
        marks(used.update(j, true), taken.push(j)),
        partly(x, y, taken.push(j)),
{
    let more = taken.push(j);
    assert(!taken.contains(j));
    assert forall|k: int| 0 <= k < used.len() implies #[trigger] used.update(j, true)[k]
        == more.contains(k) by {
        if taken.contains(k) {
            let i = taken.index_of(k);
            assert(more[i] == k);
        }
        if k == j {
            assert(more[taken.len() as int] == j);
        }
        if more.contains(k) {
            let i = more.index_of(k);
            if i < taken.len() {
                assert(taken[i] == k);
            }
        }
        assert(used[k] == taken.contains(k));
    }
    assert forall|i: int, k: int| 0 <= i < more.len() && 0 <= k < more.len() && i != k implies more[i]
        != more[k] by {
        if i < taken.len() && k < taken.len() {
            assert(taken[i] != taken[k]);
        } else if i < taken.len() {
            assert(taken[i] != j);
        } else {
            assert(taken[k] != j);
        }
    }
}

/// Where the next pair has no partner left, `taken` leads nowhere.
proof fn lemma_stuck(
    x: Seq<(LuaData, LuaData)>,
    y: Seq<(LuaData, LuaData)>,
    used: Seq<bool>,
    taken: Seq<int>,
)
    requires
        marks(used, taken),
        taken.len() < x.len(),
        used.len() == y.len(),
        forall|k: int|
            0 <= k < y.len() && !used[k] ==> !paired(x[taken.len() as int], #[trigger] y[k]),
    ensures
        !extendable(x, y, taken),
{
    if extendable(x, y, taken) {
        let m = choose|m: Seq<int>| #[trigger]
            pairing(x, y, m) && forall|i: int|
                #![trigger taken[i]]
                0 <= i < taken.len() ==> m[i] == taken[i];
        let n = taken.len() as int;
        let k = m[n];
        if taken.contains(k) {
            let i = taken.index_of(k);
            assert(m[i] == taken[i]);
        }
        assert(used[k] == taken.contains(k));
        let other = y[k];
        assert(paired(x[n], y[m[n]]));
    }
}

/// Whichever partner the next pair takes, the rest can still be paired off: the
/// pair that would have had it is deeply equal to the next pair, and so can
/// have its partner instead.
proof fn lemma_extended(
    x: Seq<(LuaData, LuaData)>,
    y: Seq<(LuaData, LuaData)>,
    taken: Seq<int>,
    j: int,
)
    requires
        extendable(x, y, taken),
        taken.len() < x.len(),
        0 <= j < y.len(),
        !taken.contains(j),
        paired(x[taken.len() as int], y[j]),
    ensures
        extendable(x, y, taken.push(j)),
{
    let m = choose|m: Seq<int>| #[trigger]
        pairing(x, y, m) && forall|i: int|
            #![trigger taken[i]]
            0 <= i < taken.len() ==> m[i] == taken[i];
    let n = taken.len() as int;
    lemma_all_taken(m, j);
    let h = choose|h: int| 0 <= h < m.len() && #[trigger] m[h] == j;
    if h < n {
        assert(m[h] == taken[h]);
        assert(taken.contains(j));
    }
    let swapped = m.update(h, m[n]).update(n, j);
    assert(paired(x[h], y[m[h]]));
    assert(paired(x[n], y[m[n]]));
    lemma_paired_symmetric(x[n], y[j]);
    lemma_paired_transitive(x[h], y[j], x[n]);
    lemma_paired_transitive(x[h], x[n], y[m[n]]);
    assert forall|i: int| #![trigger swapped[i]] 0 <= i < x.len() implies paired(
        x[i],
        y[swapped[i]],
    ) by {
        assert(paired(x[i], y[m[i]]));
    }
    assert forall|i: int, k: int|
        0 <= i < swapped.len() && 0 <= k < swapped.len() && i != k implies swapped[i]
        != swapped[k] by {
        assert(m[n] != m[h] || n == h);
        assert(m[i] != m[k]);
        if i != n && i != h {
            assert(m[i] != m[n] && m[i] != m[h]);
        }
        if k != n && k != h {
            assert(m[k] != m[n] && m[k] != m[h]);
        }
    }
    assert forall|i: int| 0 <= i < swapped.len() implies 0 <= #[trigger] swapped[i] < y.len() by {
        assert(0 <= m[i] < y.len() && 0 <= m[n] < y.len());
    }
    assert(picks(swapped, y.len()));
    assert(pairing(x, y, swapped));
    let more = taken.push(j);
    assert forall|i: int| #![trigger more[i]] 0 <= i < more.len() implies swapped[i] == more[i] by {
        if i < n {
            assert(m[i] == taken[i]);
        }
    }
}

/// Deeply equal pairs are so both ways.
proof fn lemma_paired_symmetric(p: (LuaData, LuaData), q: (LuaData, LuaData))
    requires
        paired(p, q),
    ensures
        paired(q, p),
{
    law_deep_equality_is_symmetric(p.0, q.0);
    law_deep_equality_is_symmetric(p.1, q.1);
}

/// Deep equality of pairs carries over.
proof fn lemma_paired_transitive(
    p: (LuaData, LuaData),
    q: (LuaData, LuaData),
    r: (LuaData, LuaData),
)
    requires
        paired(p, q),
        paired(q, r),
    ensures
        paired(p, r),
{
    law_deep_equality_is_transitive(p.0, q.0, r.0);
    law_deep_equality_is_transitive(p.1, q.1, r.1);
}

impl LuaData {
    /// The value is data all through: no opaque value and no NaN in it.
    pub open spec fn is_data(self) -> bool
        decreases self,
    {
        match self {
            LuaData::Nil => true,
            LuaData::Boolean(_) => true,
            LuaData::Integer(_) => true,
            LuaData::Number { bits } => !is_nan(bits),
            LuaData::Text(_) => true,
            LuaData::Table(pairs) => forall|i: int|
                0 <= i < pairs@.len() ==> (#[trigger] pairs@[i]).0.is_data()
                    && pairs@[i].1.is_data(),
            LuaData::Opaque => false,
        }
    }
}

/// Data is deeply equal to itself, so that a context matches itself across
/// edits.
pub proof fn law_data_equals_itself(data: LuaData)
    requires
        data.is_data(),
    ensures
        data.deep_equal(data),
    decreases data,
{
    if data is Table {
        let pairs = (data->Table_0)@;
        let m = Seq::new(pairs.len(), |i: int| i);
        assert forall|i: int| #![trigger m[i]] 0 <= i < pairs.len() implies paired(
            pairs[i],
            pairs[m[i]],
        ) by {
            assert(decreases_to!(data => data->Table_0));
            assert(decreases_to!((data->Table_0)@ => (data->Table_0)@[i]));
            let pair = pairs[i];
            law_data_equals_itself(pairs[i].0);
            law_data_equals_itself(pairs[i].1);
        }
        assert(picks(m, pairs.len()));
        assert(pairing(pairs, pairs, m));
        lemma_tables(data, data);
    }
}

/// An opaque value — a function, say — is deeply equal to nothing, not even to
/// itself.
pub proof fn law_opaque_equals_nothing(data: LuaData)
    ensures
        !LuaData::Opaque.deep_equal(data),
        !data.deep_equal(LuaData::Opaque),
{
}

/// Numbers below `n` that are all different are all the numbers below `n`.
proof fn lemma_all_taken(picks: Seq<int>, j: int)
    requires
        forall|i: int| 0 <= i < picks.len() ==> 0 <= #[trigger] picks[i] < picks.len(),
        forall|i: int, k: int| 0 <= i < k < picks.len() ==> picks[i] != picks[k],
        0 <= j < picks.len(),
    ensures
        exists|i: int| 0 <= i < picks.len() && #[trigger] picks[i] == j,
{
    let n = picks.len() as int;
    let all = vstd::set_lib::set_int_range(0, n);
    vstd::set_lib::lemma_int_range(0, n);
    picks.unique_seq_to_set();
    let taken = picks.to_set();
    assert(taken.subset_of(all));
    vstd::set_lib::lemma_subset_equality(taken, all);
    assert(taken.contains(j));
}

/// Two finite doubles of one value are the same, or both zero.
proof fn lemma_units_tell_apart(a: u64, b: u64)
    requires
        exponent(a) < 0x7ff,
        exponent(b) < 0x7ff,
        units(a) == units(b),
    ensures
        same_double(a, b),
{
    lemma_fields(a);
    lemma_fields(b);
    assert((a >> 52) & 0x7ff < 0x7ff ==> a & 0x7fff_ffff_ffff_ffff <= 0x7ff0_0000_0000_0000)
        by (bit_vector);
    assert((b >> 52) & 0x7ff < 0x7ff ==> b & 0x7fff_ffff_ffff_ffff <= 0x7ff0_0000_0000_0000)
        by (bit_vector);
    let (sa, sb) = (significand(a), significand(b));
    let (pa, pb) = (power_of_two(shift(a)) as int, power_of_two(shift(b)) as int);
    vstd::arithmetic::power2::lemma_pow2_pos(shift(a));
    vstd::arithmetic::power2::lemma_pow2_pos(shift(b));
    assert(sa > 0 ==> sa * pa > 0) by (nonlinear_arith)
        requires
            pa > 0,
    ;
    assert(sb > 0 ==> sb * pb > 0) by (nonlinear_arith)
        requires
            pb > 0,
    ;
    assert(sa == 0 ==> sa * pa == 0) by (nonlinear_arith);
    assert(sb == 0 ==> sb * pb == 0) by (nonlinear_arith);
    assert((a >> 52) & 0x7ff == 0 && a & 0x000f_ffff_ffff_ffff == 0 ==> a & 0x7fff_ffff_ffff_ffff
        == 0) by (bit_vector);
    assert((b >> 52) & 0x7ff == 0 && b & 0x000f_ffff_ffff_ffff == 0 ==> b & 0x7fff_ffff_ffff_ffff
        == 0) by (bit_vector);
    if sa > 0 {
        assert(sa * pa == sb * pb);
        if shift(a) < shift(b) {
            lemma_larger_shift(sa, sb, shift(a), shift(b));
        } else if shift(b) < shift(a) {
            lemma_larger_shift(sb, sa, shift(b), shift(a));
        }
        assert(sa == sb) by (nonlinear_arith)
            requires
                sa * pa == sb * pb,
                pa == pb,
                pa > 0,
        ;
        assert(a >> 63 == 0 || a >> 63 == 1) by (bit_vector);
        assert(b >> 63 == 0 || b >> 63 == 1) by (bit_vector);
        assert(a >> 63 == b >> 63 && (a >> 52) & 0x7ff == (b >> 52) & 0x7ff && a
            & 0x000f_ffff_ffff_ffff == b & 0x000f_ffff_ffff_ffff ==> a == b) by (bit_vector);
    }
}

/// A significand that counts more outweighs one that counts less.
proof fn lemma_larger_shift(s: int, t: int, j: nat, k: nat)
    requires
        j < k,
        0 <= s < 0x0020_0000_0000_0000,
        t >= 0x0010_0000_0000_0000,
    ensures
        s * power_of_two(j) < t * power_of_two(k),
{
    vstd::arithmetic::power2::lemma_pow2_pos(j);
    vstd::arithmetic::power2::lemma_pow2_unfold(j + 1);
    if j + 1 < k {
        vstd::arithmetic::power2::lemma_pow2_strictly_increases(j + 1, k);
    }
    let (p, q) = (power_of_two(j) as int, power_of_two(k) as int);
    assert(s * p < t * q) by (nonlinear_arith)
        requires
            0 <= s < 0x0020_0000_0000_0000,
            t >= 0x0010_0000_0000_0000,
            p > 0,
            q >= 2 * p,
    ;
}

/// A double is at most one integer.
proof fn lemma_one_integer(bits: u64, v: int, w: int)
    requires
        double_is(bits, v),
        double_is(bits, w),
    ensures
        v == w,
{
    vstd::arithmetic::power2::lemma_pow2_pos(1074);
    let unit = power_of_two(1074) as int;
    assert(v == w) by (nonlinear_arith)
        requires
            v * unit == w * unit,
            unit > 0,
    ;
}

/// Doubles that compare equal are the same integer, if any.
proof fn lemma_same_integer(a: u64, b: u64, v: int)
    requires
        same_double(a, b),
        double_is(a, v),
    ensures
        double_is(b, v),
{
    if a != b {
        assert(a & 0x7fff_ffff_ffff_ffff == 0 ==> (a >> 52) & 0x7ff == 0 && a
            & 0x000f_ffff_ffff_ffff == 0) by (bit_vector);
        assert(b & 0x7fff_ffff_ffff_ffff == 0 ==> (b >> 52) & 0x7ff == 0 && b
            & 0x000f_ffff_ffff_ffff == 0) by (bit_vector);
        assert(0 * power_of_two(0) == 0);
    }
}

/// Deep equality goes both ways.
pub proof fn law_deep_equality_is_symmetric(a: LuaData, b: LuaData)
    requires
        a.deep_equal(b),
    ensures
        b.deep_equal(a),
    decreases a,
{
    if a is Table {
        let x = (a->Table_0)@;
        let y = (b->Table_0)@;
        lemma_tables(a, b);
        lemma_tables(b, a);
        let m = choose|m: Seq<int>| #[trigger] pairing(x, y, m);
        let n = x.len();
        let back = Seq::new(n, |j: int| choose|i: int| 0 <= i < m.len() && #[trigger] m[i] == j);
        assert forall|j: int| 0 <= j < n implies (0 <= #[trigger] back[j] < n) && m[back[j]] == j by {
            lemma_all_taken(m, j);
        }
        assert forall|j: int| #![trigger back[j]] 0 <= j < n implies paired(y[j], x[back[j]]) by {
            let i = back[j];
            assert(paired(x[i], y[m[i]]));
            assert(decreases_to!(a => a->Table_0));
            assert(decreases_to!((a->Table_0)@ => (a->Table_0)@[i]));
            let (p, q) = (x[i], y[j]);
            law_deep_equality_is_symmetric(x[i].0, y[j].0);
            law_deep_equality_is_symmetric(x[i].1, y[j].1);
        }
        assert forall|j: int, k: int| 0 <= j < n && 0 <= k < n && j != k implies back[j]
            != back[k] by {
            assert(m[back[j]] == j && m[back[k]] == k);
        }
        assert(picks(back, n));
        assert(pairing(y, x, back));
    }
}

/// Deep equality carries over: values deeply equal to one value are deeply
/// equal to each other.
pub proof fn law_deep_equality_is_transitive(a: LuaData, b: LuaData, c: LuaData)
    requires
        a.deep_equal(b),
        b.deep_equal(c),
    ensures
        a.deep_equal(c),
    decreases a,
{
    match (a, b, c) {
        (LuaData::Integer(v), LuaData::Number { bits }, LuaData::Integer(w)) => {
            lemma_one_integer(bits, v as int, w as int);
        },
        (LuaData::Number { bits: p }, LuaData::Integer(_), LuaData::Number { bits: q }) => {
            lemma_units_tell_apart(p, q);
        },
        (LuaData::Integer(v), LuaData::Number { bits: p }, LuaData::Number { bits: q }) => {
            lemma_same_integer(p, q, v as int);
        },
        (LuaData::Number { bits: p }, LuaData::Number { bits: q }, LuaData::Integer(v)) => {
            lemma_same_integer(q, p, v as int);
        },
        _ => {},
    }
    if a is Table {
        let (x, y, z) = ((a->Table_0)@, (b->Table_0)@, (c->Table_0)@);
        lemma_tables(a, b);
        lemma_tables(b, c);
        lemma_tables(a, c);
        let m = choose|m: Seq<int>| #[trigger] pairing(x, y, m);
        let k = choose|k: Seq<int>| #[trigger] pairing(y, z, k);
        let n = x.len();
        let onward = Seq::new(n, |i: int| k[m[i]]);
        assert forall|i: int| #![trigger onward[i]] 0 <= i < n implies (0 <= onward[i] < n) && paired(
            x[i],
            z[onward[i]],
        ) by {
            assert(paired(x[i], y[m[i]]));
            assert(paired(y[m[i]], z[k[m[i]]]));
            assert(decreases_to!(a => a->Table_0));
            assert(decreases_to!((a->Table_0)@ => (a->Table_0)@[i]));
            let (p, q, r) = (x[i], y[m[i]], z[onward[i]]);
            law_deep_equality_is_transitive(p.0, q.0, r.0);
            law_deep_equality_is_transitive(p.1, q.1, r.1);
        }
        assert forall|i: int, j: int| 0 <= i < n && 0 <= j < n && i != j implies onward[i]
            != onward[j] by {
            assert(m[i] != m[j]);
            assert(k[m[i]] != k[m[j]]);
        }
        assert(picks(onward, n));
        assert(pairing(x, z, onward));
    }
}

/// The bits of a double put together from a sign, an exponent and a fraction
/// come apart into these.
pub proof fn law_doubles_come_apart(sign: u64, power: u64, rest: u64, bits: u64)
    requires
        sign <= 1,
        power <= 0x7ff,
        rest <= 0x000f_ffff_ffff_ffff,
        bits == (sign << 63) | (power << 52) | rest,
    ensures
        negative(bits) == (sign == 1),
        exponent(bits) == power,
        fraction(bits) == rest,
        is_nan(bits) == (power == 0x7ff && rest != 0),
        power > 0 ==> significand(bits) == 0x0010_0000_0000_0000 + rest,
        power == 0 ==> significand(bits) == rest,
        units(bits) == (if sign == 1 {
            -(significand(bits) * vstd::arithmetic::power2::pow2(shift(bits)))
        } else {
            significand(bits) * vstd::arithmetic::power2::pow2(shift(bits))
        }),
        power > 0 ==> shift(bits) == power - 1,
        power == 0 ==> shift(bits) == 0,
{
    assert(bits >> 63 == sign && (bits >> 52) & 0x7ff == power && bits & 0x000f_ffff_ffff_ffff
        == rest && ((bits & 0x7fff_ffff_ffff_ffff > 0x7ff0_0000_0000_0000) <==> (power == 0x7ff
        && rest != 0))) by (bit_vector)
        requires
            sign <= 1,
            power <= 0x7ff,
            rest <= 0x000f_ffff_ffff_ffff,
            bits == (sign << 63) | (power << 52) | rest,
    ;
}

/// Doubles are equal by value: finite ones exactly where they are the same
/// multiple of the smallest double, so that both zeros are equal, others where
/// they are the same infinity, and what is not a number equals nothing.
pub proof fn law_doubles_are_equal_by_value(a: u64, b: u64)
    ensures
        exponent(a) < 0x7ff && exponent(b) < 0x7ff ==> same_double(a, b) == (units(a) == units(b)),
        exponent(a) == 0x7ff && fraction(a) != 0 ==> !same_double(a, b) && !same_double(b, a),
        exponent(a) == 0x7ff && fraction(a) == 0 ==> same_double(a, b) == (a == b),
{
    assert((a >> 52) & 0x7ff == 0x7ff ==> ((a & 0x7fff_ffff_ffff_ffff > 0x7ff0_0000_0000_0000)
        <==> a & 0x000f_ffff_ffff_ffff != 0) && a & 0x7fff_ffff_ffff_ffff != 0) by (bit_vector);
    if exponent(a) < 0x7ff && exponent(b) < 0x7ff {
        if units(a) == units(b) {
            lemma_units_tell_apart(a, b);
        }
        if same_double(a, b) && a != b {
            assert(a & 0x7fff_ffff_ffff_ffff == 0 ==> (a >> 52) & 0x7ff == 0 && a
                & 0x000f_ffff_ffff_ffff == 0) by (bit_vector);
            assert(b & 0x7fff_ffff_ffff_ffff == 0 ==> (b >> 52) & 0x7ff == 0 && b
                & 0x000f_ffff_ffff_ffff == 0) by (bit_vector);
            assert(0 * power_of_two(0) == 0);
        }
    }
}

/// Values are equal within their kind: `nil` to `nil`, booleans, integers and
/// strings where they are the same, doubles by value, integers and doubles where
/// the double is that integer, and values of other kinds never.
pub proof fn law_values_are_equal_within_their_kind(a: LuaData, b: LuaData)
    ensures
        match (a, b) {
            (LuaData::Nil, LuaData::Nil) => a.deep_equal(b),
            (LuaData::Boolean(x), LuaData::Boolean(y)) => a.deep_equal(b) == (x == y),
            (LuaData::Integer(x), LuaData::Integer(y)) => a.deep_equal(b) == (x == y),
            (LuaData::Number { bits: x }, LuaData::Number { bits: y }) => exponent(x) < 0x7ff
                && exponent(y) < 0x7ff ==> a.deep_equal(b) == (units(x) == units(y)),
            (LuaData::Integer(x), LuaData::Number { bits: y }) => a.deep_equal(b) == (exponent(y)
                < 0x7ff && units(y) == x * vstd::arithmetic::power2::pow2(1074)),
            (LuaData::Number { bits: x }, LuaData::Integer(y)) => a.deep_equal(b) == (exponent(x)
                < 0x7ff && units(x) == y * vstd::arithmetic::power2::pow2(1074)),
            (LuaData::Text(x), LuaData::Text(y)) => a.deep_equal(b) == (x@ == y@),
            (LuaData::Table(_), LuaData::Table(_)) => true,
            _ => !a.deep_equal(b),
        },
{
    if let (LuaData::Number { bits: x }, LuaData::Number { bits: y }) = (a, b) {
        law_doubles_are_equal_by_value(x, y);
    }
}

/// Equal tables have as many entries, and each entry of the one has an equal
/// entry in the other, key and value.
pub proof fn law_equal_tables_hold_equal_entries(
    a: LuaData,
    b: LuaData,
    x: Seq<(LuaData, LuaData)>,
    y: Seq<(LuaData, LuaData)>,
    n: int,
)
    requires
        a matches LuaData::Table(pairs) && pairs@ == x,
        b matches LuaData::Table(pairs) && pairs@ == y,
        a.deep_equal(b),
        0 <= n < x.len(),
    ensures
        x.len() == y.len(),
        exists|j: int|
            0 <= j < y.len() && x[n].0.deep_equal((#[trigger] y[j]).0) && x[n].1.deep_equal(y[j].1),
        exists|i: int|
            0 <= i < x.len() && (#[trigger] x[i]).0.deep_equal(y[n].0) && x[i].1.deep_equal(y[n].1),
{
    lemma_tables(a, b);
    let m = choose|m: Seq<int>| #[trigger] pairing(x, y, m);
    assert(paired(x[n], y[m[n]]));
    lemma_all_taken(m, n);
    let i = choose|i: int| 0 <= i < m.len() && #[trigger] m[i] == n;
    assert(paired(x[i], y[m[i]]));
}

/// The order of a table's entries does not matter: tables with equal entries in
/// another order are equal.
pub proof fn law_order_of_entries_does_not_matter(a: LuaData, b: LuaData, place: Seq<int>)
    requires
        a is Table,
        b is Table,
        place.len() == (a->Table_0)@.len(),
        (a->Table_0)@.len() == (b->Table_0)@.len(),
        forall|i: int, j: int| 0 <= i < j < place.len() ==> place[i] != place[j],
        forall|i: int|
            0 <= i < place.len() ==> 0 <= #[trigger] place[i] < place.len()
                && (a->Table_0)@[i].0.deep_equal((b->Table_0)@[place[i]].0)
                && (a->Table_0)@[i].1.deep_equal((b->Table_0)@[place[i]].1),
    ensures
        a.deep_equal(b),
{
    let x = (a->Table_0)@;
    let y = (b->Table_0)@;
    lemma_tables(a, b);
    assert forall|i: int| #![trigger place[i]] 0 <= i < x.len() implies paired(
        x[i],
        y[place[i]],
    ) by {}
    assert(pairing(x, y, place));
}

} // verus!
