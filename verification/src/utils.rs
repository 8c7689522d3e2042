//! What several modules share: constants, and sizes for people to read.
use crate::text;
use crate::text::push_decimal;
use vstd::arithmetic::power2;
use vstd::prelude::*;
use vstd::string::*;

verus! {

/// Bytes in a sector, as the kernel counts the size of a block device.
pub const SECTOR: u64 = 512;

/// The largest number of sectors whose bytes can be counted in 64 bits.
pub const MAX_SECTORS: u64 = 0x7f_ffff_ffff_ffff;

/// The image that gets written.
pub const IMAGE_FILE: &'static str = "/image/image.img";

/// Where the installation medium is mounted.
pub const BOOT_MEDIA_DIR: &'static str = "/media/cdrom";

/// The whole number nearest to `n / d`; of two, the even one.
pub open spec fn nearest(n: nat, d: nat) -> nat {
    let q = n / d;
    let r = n % d;
    if 2 * r < d || (2 * r == d && q % 2 == 0) {
        q
    } else {
        q + 1
    }
}

/// How many low bits of `n` do not fit into 53.
pub open spec fn spare_bits(n: nat) -> nat
    decreases n,
{
    if n < 0x20_0000_0000_0000 {
        0
    } else {
        1 + spare_bits(n / 2)
    }
}

/// `n` as a number with 53 significant bits.
pub open spec fn significant(n: nat) -> nat {
    let unit = power2::pow2(spare_bits(n));
    nearest(n, unit) * unit
}

/// How many bits stand behind the point of `a / b` when it is written with 53
/// significant bits, counting down from `k`.
pub open spec fn fraction_bits(a: nat, b: nat, k: nat) -> nat
    decreases k,
{
    if k == 0 || a * power2::pow2(k) < b * 0x20_0000_0000_0000 {
        k
    } else {
        fraction_bits(a, b, (k - 1) as nat)
    }
}

/// `a / b` in tenths: the quotient is first brought to 53 significant bits, as
/// a binary floating-point number of double precision has, and then to tenths.
pub open spec fn tenths(a: nat, b: nat) -> nat {
    let n = significant(a);
    let one = power2::pow2(fraction_bits(n, b, 52));
    nearest(10 * nearest(n * one, b), one)
}

/// A number of units with one digit behind the point.
pub open spec fn point_text(t: nat) -> Seq<char> {
    text::decimal(t / 10) + "."@ + text::decimal(t % 10)
}

/// `bytes` in units of `unit` bytes.
pub open spec fn in_units(bytes: nat, unit: nat) -> Seq<char> {
    if bytes % unit == 0 {
        text::decimal(bytes / unit)
    } else {
        point_text(tenths(bytes, unit))
    }
}

/// `bytes` in the largest decimal unit that it reaches.
pub open spec fn size_text(bytes: nat) -> Seq<char> {
    if bytes >= 1_000_000_000_000 {
        in_units(bytes, 1_000_000_000_000) + "TB"@
    } else if bytes >= 1_000_000_000 {
        in_units(bytes, 1_000_000_000) + "GB"@
    } else if bytes >= 1_000_000 {
        in_units(bytes, 1_000_000) + "MB"@
    } else if bytes >= 1_000 {
        in_units(bytes, 1_000) + "KB"@
    } else {
        text::decimal(bytes) + "B"@
    }
}

fn nearest_of(n: u128, d: u128) -> (r: u128)
    requires
        0 < d <= 0x1_0000_0000_0000_0000,
        n < 0x1000_0000_0000_0000_0000_0000_0000_0000,
    ensures
        r == nearest(n as nat, d as nat),
        r <= n / d + 1,
{
    let q: u128 = n / d;
    let r: u128 = n % d;
    assert(q <= n) by (nonlinear_arith)
        requires
            q == n / d,
            d > 0,
    ;
    if 2 * r < d || (2 * r == d && q % 2 == 0) {
        q
    } else {
        q + 1
    }
}

fn significant_of(n: u64) -> (r: u128)
    ensures
        r == significant(n as nat),
        r <= 0x2_0000_0000_0000_0000,
{
    let mut rest: u64 = n;
    let mut unit: u64 = 1;
    let ghost mut k: nat = 0;
    proof {
        power2::lemma2_to64();
    }
    while rest >= 0x20_0000_0000_0000
        invariant
            spare_bits(n as nat) == k + spare_bits(rest as nat),
            unit == power2::pow2(k),
            rest * unit <= n,
            1 <= unit,
            unit == 1 || rest >= 1,
        decreases rest,
    {
        assert(unit <= 0x800) by (nonlinear_arith)
            requires
                rest * unit <= n,
                rest >= 0x20_0000_0000_0000,
                n <= 0xffff_ffff_ffff_ffff,
        ;
        proof {
            power2::lemma_pow2_unfold(k + 1);
            k = k + 1;
        }
        let half: u64 = rest / 2;
        assert(half * (2 * unit) <= n) by (nonlinear_arith)
            requires
                2 * half <= rest,
                rest * unit <= n,
                unit >= 1,
        ;
        rest = half;
        unit = 2 * unit;
    }
    let q: u128 = nearest_of(n as u128, unit as u128);
    assert(q * unit <= n + unit && unit <= n + 1) by (nonlinear_arith)
        requires
            q <= n / unit + 1,
            unit >= 1,
            rest * unit <= n,
            rest >= 1 || unit == 1,
    ;
    q * unit as u128
}

/// `a / b` in tenths.
fn tenths_of(a: u64, b: u64) -> (r: u128)
    requires
        0 < b <= 1_000_000_000_000,
    ensures
        r == tenths(a as nat, b as nat),
{
    let n: u128 = significant_of(a);
    let mut one: u128 = 0x10_0000_0000_0000;
    let mut k: u32 = 52;
    proof {
        power2::lemma2_to64_rest();
    }
    let limit: u128 = b as u128 * 0x20_0000_0000_0000;
    assert(n * one <= 0x2_0000_0000_0000_0000 * 0x10_0000_0000_0000) by (nonlinear_arith)
        requires
            n <= 0x2_0000_0000_0000_0000,
            one == 0x10_0000_0000_0000,
    ;
    while k > 0 && n * one >= limit
        invariant
            k <= 52,
            one == power2::pow2(k as nat),
            1 <= one <= 0x10_0000_0000_0000,
            n <= 0x2_0000_0000_0000_0000,
            0 <= n * one <= 0x2_0000_0000_0000_0000 * 0x10_0000_0000_0000,
            limit == b * 0x20_0000_0000_0000,
            fraction_bits(n as nat, b as nat, 52) == fraction_bits(n as nat, b as nat, k as nat),
        decreases k,
    {
        proof {
            power2::lemma_pow2_unfold(k as nat);
            power2::lemma_pow2_pos((k - 1) as nat);
        }
        let half: u128 = one / 2;
        assert(half >= 1 && half <= one);
        assert(0 <= n * half <= n * one) by (nonlinear_arith)
            requires
                0 <= half <= one,
                n >= 0,
        ;
        one = half;
        k = k - 1;
    }
    let m: u128 = nearest_of(n * one, b as u128);
    assert(m <= 0x2_0000_0000_0000_0000 * 0x10_0000_0000_0000 + 1) by (nonlinear_arith)
        requires
            m <= (n * one) / (b as int) + 1,
            0 <= n * one <= 0x2_0000_0000_0000_0000 * 0x10_0000_0000_0000,
            b > 0,
    ;
    nearest_of(10 * m, one)
}

fn push_wide(s: &mut String, n: u128)
    ensures
        final(s)@ == old(s)@ + text::decimal(n as nat),
    decreases n,
{
    if n <= u64::MAX as u128 {
        push_decimal(s, n as u64);
    } else {
        push_wide(s, n / 10);
        let ghost before = s@;
        push_decimal(s, (n % 10) as u64);
        assert(text::decimal((n % 10) as nat) =~= seq![text::digit((n % 10) as nat)]);
        assert(s@ =~= old(s)@ + text::decimal(n as nat));
    }
}

fn units_of(bytes: u64, unit: u64, name: &str) -> (r: String)
    requires
        0 < unit <= 1_000_000_000_000,
    ensures
        r@ == in_units(bytes as nat, unit as nat) + name@,
{
    let mut s = String::new();
    if bytes % unit == 0 {
        push_decimal(&mut s, bytes / unit);
        assert(s@ =~= in_units(bytes as nat, unit as nat));
    } else {
        let t: u128 = tenths_of(bytes, unit);
        push_wide(&mut s, t / 10);
        s.append(".");
        push_wide(&mut s, t % 10);
        assert(s@ =~= in_units(bytes as nat, unit as nat));
    }
    s.append(name);
    s
}

/// `bytes` in the largest decimal unit that it reaches, with one digit behind
/// the point unless it is a whole number of units.
pub fn format_bytes(bytes: u64) -> (r: String)
    ensures
        r@ == size_text(bytes as nat),
{
    if bytes >= 1_000_000_000_000 {
        units_of(bytes, 1_000_000_000_000, "TB")
    } else if bytes >= 1_000_000_000 {
        units_of(bytes, 1_000_000_000, "GB")
    } else if bytes >= 1_000_000 {
        units_of(bytes, 1_000_000, "MB")
    } else if bytes >= 1_000 {
        units_of(bytes, 1_000, "KB")
    } else {
        let mut s = text::decimal_of(bytes);
        s.append("B");
        s
    }
}

/// A whole number of a decimal unit is written as that number and the unit, and
/// a size below one kilobyte in bytes.
pub proof fn law_whole_sizes_are_written_whole(n: nat)
    requires
        0 < n < 1000,
    ensures
        size_text(n) == text::decimal(n) + "B"@,
        size_text(n * 1_000) == text::decimal(n) + "KB"@,
        size_text(n * 1_000_000) == text::decimal(n) + "MB"@,
        size_text(n * 1_000_000_000) == text::decimal(n) + "GB"@,
        size_text(n * 1_000_000_000_000) == text::decimal(n) + "TB"@,
{
}

proof fn lemma_nearest(n: nat, d: nat)
    requires
        d > 0,
    ensures
        2 * (nearest(n, d) * d - n) <= d,
        2 * (n - nearest(n, d) * d) <= d,
{
    vstd::arithmetic::div_mod::lemma_fundamental_div_mod(n as int, d as int);
    let q = n / d;
    assert((q + 1) * d == q * d + d) by (nonlinear_arith);
    assert(q * d == d * q) by (nonlinear_arith);
}

proof fn lemma_fraction_bits(a: nat, b: nat, k: nat)
    requires
        a < 0x20_0000_0000_0000,
        b >= 1000,
        k >= 9,
    ensures
        fraction_bits(a, b, k) >= 9,
    decreases k,
{
    if k == 9 {
        power2::lemma2_to64();
        assert(a * 512 < b * 0x20_0000_0000_0000) by (nonlinear_arith)
            requires
                a < 0x20_0000_0000_0000,
                b >= 1000,
        ;
    } else if a * power2::pow2(k) >= b * 0x20_0000_0000_0000 {
        lemma_fraction_bits(a, b, (k - 1) as nat);
    }
}

/// A number of tenths of a unit is off by no more than half of one, but for a
/// hundredth that binary fractions may cost.
pub proof fn law_sizes_are_rounded_to_tenths(bytes: nat, unit: nat)
    requires
        1000 <= unit,
        bytes < 0x20_0000_0000_0000,
    ensures
        100 * (tenths(bytes, unit) * unit - 10 * bytes) <= 51 * unit,
        100 * (10 * bytes - tenths(bytes, unit) * unit) <= 51 * unit,
{
    power2::lemma2_to64();
    assert(significant(bytes) == bytes) by {
        assert(spare_bits(bytes) == 0);
        assert(power2::pow2(0) == 1);
        assert(bytes / 1 == bytes && bytes % 1 == 0);
        assert(nearest(bytes, 1) == bytes);
        assert(bytes * 1 == bytes) by (nonlinear_arith);
    }
    let k = fraction_bits(bytes, unit, 52);
    lemma_fraction_bits(bytes, unit, 52);
    let p = power2::pow2(k);
    power2::lemma_pow2_pos(k);
    assert(p >= 512) by {
        if k > 9 {
            power2::lemma_pow2_strictly_increases(9, k);
        }
    }
    let m = nearest(bytes * p, unit);
    let t = nearest(10 * m, p);
    lemma_nearest(bytes * p, unit);
    lemma_nearest(10 * m, p);
    assert(t == tenths(bytes, unit));
    lemma_tenths(bytes as int, unit as int, p as int, m as int, t as int);
}

proof fn lemma_tenths(a: int, b: int, p: int, m: int, t: int)
    requires
        p >= 512,
        b > 0,
        2 * (m * b - a * p) <= b,
        2 * (a * p - m * b) <= b,
        2 * (t * p - 10 * m) <= p,
        2 * (10 * m - t * p) <= p,
    ensures
        100 * (t * b - 10 * a) <= 51 * b,
        100 * (10 * a - t * b) <= 51 * b,
{
    let x = t * b - 10 * a;
    assert(2 * (t * p * b - 10 * m * b) <= p * b && 2 * (10 * m * b - t * p * b) <= p * b)
        by (nonlinear_arith)
        requires
            b > 0,
            2 * (t * p - 10 * m) <= p,
            2 * (10 * m - t * p) <= p,
    ;
    assert(x * p == t * p * b - 10 * (a * p)) by (nonlinear_arith)
        requires
            x == t * b - 10 * a,
    ;
    assert(10 * m * b == 10 * (m * b)) by (nonlinear_arith);
    assert(2 * (x * p) <= p * b + 10 * b);
    assert(-2 * (x * p) <= p * b + 10 * b);
    assert(512 * b <= p * b) by (nonlinear_arith)
        requires
            p >= 512,
            b > 0,
    ;
    assert(100 * (x * p) <= 51 * (p * b));
    assert(-100 * (x * p) <= 51 * (p * b));
    assert(100 * x <= 51 * b && -100 * x <= 51 * b) by (nonlinear_arith)
        requires
            100 * (x * p) <= 51 * (p * b),
            -100 * (x * p) <= 51 * (p * b),
            p >= 512,
    ;
}

/// The unit of a size is the largest that it reaches.
pub proof fn law_sizes_name_the_largest_unit(bytes: nat)
    ensures
        1_000_000_000_000 <= bytes ==> size_text(bytes) == in_units(bytes, 1_000_000_000_000)
            + "TB"@,
        1_000_000_000 <= bytes < 1_000_000_000_000 ==> size_text(bytes) == in_units(
            bytes,
            1_000_000_000,
        ) + "GB"@,
        1_000_000 <= bytes < 1_000_000_000 ==> size_text(bytes) == in_units(bytes, 1_000_000)
            + "MB"@,
        1_000 <= bytes < 1_000_000 ==> size_text(bytes) == in_units(bytes, 1_000) + "KB"@,
{
}

/// A quotient is rounded to the nearest whole number, and to the even one where
/// two are equally near.
pub proof fn law_quotients_are_rounded(n: nat, d: nat, q: nat)
    requires
        d > 0,
        2 * (q * d - n) < d && 2 * (n - q * d) < d || q % 2 == 0 && (2 * (q * d - n) == d || 2 * (n
            - q * d) == d),
    ensures
        nearest(n, d) == q,
{
    lemma_nearest(n, d);
    let m = nearest(n, d);
    vstd::arithmetic::div_mod::lemma_fundamental_div_mod(n as int, d as int);
    let k = n / d;
    assert(k * d == d * k) by (nonlinear_arith);
    if m != q {
        assert(m * d - q * d == (m - q) * d) by (nonlinear_arith);
        assert(m - q >= 1 ==> (m - q) * d >= d) by (nonlinear_arith)
            requires
                d > 0,
        ;
        assert(m - q <= -1 ==> (m - q) * d <= -d) by (nonlinear_arith)
            requires
                d > 0,
        ;
        assert(m - q >= 2 ==> (m - q) * d >= 2 * d) by (nonlinear_arith)
            requires
                d > 0,
        ;
        assert(m - q <= -2 ==> (m - q) * d <= -2 * d) by (nonlinear_arith)
            requires
                d > 0,
        ;
        assert((k + 1) * d == k * d + d) by (nonlinear_arith);
    }
}

} // verus!
