use vstd::prelude::*;
use vstd::arithmetic::div_mod::{
    lemma_fundamental_div_mod, lemma_fundamental_div_mod_converse, lemma_mod_pos_bound,
};

use crate::frame::LumaMap;

verus! {

/// The largest of the first `n` samples of `s` (zero when `n` is zero).
pub open spec fn peak_upto(s: Seq<u8>, n: nat) -> u8
    decreases n,
{
    if n == 0 {
        0
    } else {
        let m = peak_upto(s, (n - 1) as nat);
        if s[n - 1] > m {
            s[n - 1]
        } else {
            m
        }
    }
}

/// The largest sample of a map.
pub open spec fn peak(s: Seq<u8>) -> u8 {
    peak_upto(s, s.len())
}

/// The adaptive threshold: half the peak, rounded down.
pub open spec fn threshold(s: Seq<u8>) -> u8 {
    (peak(s) / 2) as u8
}

/// The weight that the sample at `i` contributes: the sample itself when it
/// lies strictly above `t`, else nothing.
pub open spec fn weight(s: Seq<u8>, t: u8, i: int) -> nat {
    if s[i] > t {
        s[i] as nat
    } else {
        0
    }
}

/// Sum of the weights of the first `n` samples.
pub open spec fn total_weight(s: Seq<u8>, t: u8, n: nat) -> nat
    decreases n,
{
    if n == 0 {
        0
    } else {
        total_weight(s, t, (n - 1) as nat) + weight(s, t, n - 1)
    }
}

/// Sum over the first `n` samples of column times weight, for rows `width` wide.
pub open spec fn moment_x(s: Seq<u8>, width: nat, t: u8, n: nat) -> nat
    decreases n,
{
    if n == 0 {
        0
    } else {
        moment_x(s, width, t, (n - 1) as nat) + (((n - 1) as int % width as int) as nat) * weight(s, t, n - 1)
    }
}

/// Sum over the first `n` samples of row times weight, for rows `width` wide.
pub open spec fn moment_y(s: Seq<u8>, width: nat, t: u8, n: nat) -> nat
    decreases n,
{
    if n == 0 {
        0
    } else {
        moment_y(s, width, t, (n - 1) as nat) + (((n - 1) as int / width as int) as nat) * weight(s, t, n - 1)
    }
}

/// The light found in a difference map `width` pixels wide: `None` when no
/// sample lies above the threshold, else the weighted centroid of those that
/// do (rounded down) together with the threshold.
pub open spec fn blob_of(s: Seq<u8>, width: nat) -> Option<(u64, u64, u8)> {
    let t = threshold(s);
    let total = total_weight(s, t, s.len());
    if total == 0 {
        None
    } else {
        Some(((moment_x(s, width, t, s.len()) / total) as u64, (moment_y(s, width, t, s.len()) / total) as u64, t))
    }
}

proof fn lemma_quotient_at_most(a: nat, b: nat, d: nat)
    requires
        d > 0,
        a <= b * d,
    ensures
        a / d <= b,
{
    lemma_fundamental_div_mod(a as int, d as int);
    lemma_mod_pos_bound(a as int, d as int);
    let q = a as int / d as int;
    let r = a as int % d as int;
    assert(q <= b) by (nonlinear_arith)
        requires
            a == d * q + r,
            0 <= r,
            a <= b * d,
            d > 0,
    ;
}

/// Bounds on the running sums over a map of `width` x `height` samples.
proof fn lemma_sums_bounded(s: Seq<u8>, width: nat, height: nat, t: u8, n: nat)
    requires
        width > 0,
        n <= width * height,
    ensures
        total_weight(s, t, n) <= 255 * n,
        moment_x(s, width, t, n) <= (width - 1) * total_weight(s, t, n),
        moment_y(s, width, t, n) <= (height - 1) * total_weight(s, t, n),
    decreases n,
{
    if n > 0 {
        lemma_sums_bounded(s, width, height, t, (n - 1) as nat);
        let i = n - 1;
        let w = weight(s, t, i);
        lemma_mod_pos_bound(i, width as int);
        lemma_fundamental_div_mod(i, width as int);
        let col = i % width as int;
        let row = i / width as int;
        assert(0 <= row) by (nonlinear_arith)
            requires
                i == width * row + col,
                0 <= col < width,
                0 <= i,
        ;
        assert(row <= height - 1) by (nonlinear_arith)
            requires
                i == width * row + col,
                0 <= col,
                i < width * height,
                width > 0,
        ;
        assert(col * w <= (width - 1) * w) by (nonlinear_arith)
            requires
                0 <= col <= width - 1,
        ;
        assert(row * w <= (height - 1) * w) by (nonlinear_arith)
            requires
                0 <= row <= height - 1,
        ;
        assert((width - 1) * total_weight(s, t, (n - 1) as nat) + (width - 1) * w == (width - 1) * (
        total_weight(s, t, (n - 1) as nat) + w)) by (nonlinear_arith);
        assert((height - 1) * total_weight(s, t, (n - 1) as nat) + (height - 1) * w == (height - 1) * (
        total_weight(s, t, (n - 1) as nat) + w)) by (nonlinear_arith);
    }
}

/// A light found in a `width` x `height` difference map lies inside the
/// map, and its reported intensity is half the map's peak, so never above it.
pub proof fn lemma_blob_within_frame(s: Seq<u8>, width: nat, height: nat)
    requires
        width > 0,
        height > 0,
        s.len() == width * height,
    ensures
        blob_of(s, width) matches Some((x, y, intensity)) ==> {
            &&& x < width
            &&& y < height
            &&& intensity == peak(s) / 2
            &&& intensity <= peak(s)
        },
{
    let t = threshold(s);
    let n = s.len();
    let total = total_weight(s, t, n);
    if total > 0 {
        lemma_sums_bounded(s, width, height, t, n);
        lemma_quotient_at_most(moment_x(s, width, t, n), (width - 1) as nat, total);
        lemma_quotient_at_most(moment_y(s, width, t, n), (height - 1) as nat, total);
    }
}

proof fn lemma_total_zero(s: Seq<u8>, t: u8, n: nat)
    requires
        n <= s.len(),
        forall|i: int| 0 <= i < n ==> s[i] <= t,
    ensures
        total_weight(s, t, n) == 0,
    decreases n,
{
    if n > 0 {
        lemma_total_zero(s, t, (n - 1) as nat);
    }
}

proof fn lemma_total_includes(s: Seq<u8>, t: u8, n: nat, k: int)
    requires
        0 <= k < n,
    ensures
        total_weight(s, t, n) >= weight(s, t, k),
    decreases n,
{
    if k < n - 1 {
        lemma_total_includes(s, t, (n - 1) as nat, k);
    }
}

proof fn lemma_peak_upto(s: Seq<u8>, n: nat)
    requires
        0 < n <= s.len(),
    ensures
        forall|i: int| 0 <= i < n ==> s[i] <= peak_upto(s, n),
        exists|k: int| 0 <= k < n && s[k] == peak_upto(s, n),
    decreases n,
{
    if n > 1 {
        lemma_peak_upto(s, (n - 1) as nat);
        let k = choose|k: int| 0 <= k < n - 1 && s[k] == peak_upto(s, (n - 1) as nat);
        if s[n - 1] <= peak_upto(s, (n - 1) as nat) {
            assert(0 <= k < n && s[k] == peak_upto(s, n));
        }
    } else {
        assert(peak_upto(s, 0) == 0);
        assert(s[0] == peak_upto(s, n));
    }
}

/// `peak` is the global maximum of a non-empty map: no sample exceeds it and
/// some sample equals it.
pub proof fn lemma_peak_is_maximum(s: Seq<u8>)
    requires
        s.len() > 0,
    ensures
        forall|i: int| 0 <= i < s.len() ==> s[i] <= peak(s),
        exists|k: int| 0 <= k < s.len() && s[k] == peak(s),
{
    lemma_peak_upto(s, s.len());
}

/// No light is found in a difference map exactly when every sample of it is
/// zero; in particular an all-zero map yields none.
pub proof fn lemma_no_blob_iff_dark(s: Seq<u8>, width: nat)
    ensures
        blob_of(s, width) is None <==> forall|i: int| 0 <= i < s.len() ==> s[i] == 0,
{
    let t = threshold(s);
    let n = s.len();
    if forall|i: int| 0 <= i < n ==> s[i] == 0 {
        lemma_total_zero(s, t, n);
    } else {
        let j = choose|j: int| 0 <= j < n && s[j] != 0;
        lemma_peak_upto(s, n);
        let k = choose|k: int| 0 <= k < n && s[k] == peak_upto(s, n);
        assert(s[j] <= peak(s));
        assert(s[k] > t);
        lemma_total_includes(s, t, n, k);
    }
}

/// Finds the light in a difference map: the adaptive threshold is half the
/// peak sample; the samples strictly above it give an intensity-weighted
/// centroid, rounded down, reported with the threshold.
pub fn find_blob(diff: &LumaMap) -> (r: Option<(u64, u64, u8)>)
    requires
        diff@.wf(),
    ensures
        r == blob_of(diff@.data, diff@.width),
        r is None <==> forall|i: int| 0 <= i < diff@.data.len() ==> diff@.data[i] == 0,
        r matches Some((x, y, intensity)) ==> x < diff@.width && y < diff@.height
            && intensity <= peak(diff@.data),
{
    let data = diff.samples();
    let n = data.len();
    let width = diff.width() as u64;
    let ghost s = data@;
    let ghost h = diff@.height;
    let mut m: u8 = 0;
    let mut i: usize = 0;
    while i < n
        invariant
            i <= n,
            n == s.len(),
            s == data@,
            m == peak_upto(s, i as nat),
        decreases n - i,
    {
        if data[i] > m {
            m = data[i];
        }
        i = i + 1;
    }
    let t: u8 = m / 2;
    let mut sum_x: u128 = 0;
    let mut sum_y: u128 = 0;
    let mut total: u128 = 0;
    let mut x: u64 = 0;
    let mut y: u64 = 0;
    i = 0;
    while i < n
        invariant
            i <= n,
            n == s.len(),
            s == data@,
            s.len() == width * h,
            width > 0,
            width <= u32::MAX,
            h <= u32::MAX,
            t == threshold(s),
            x < width,
            i == y * width + x,
            sum_x == moment_x(s, width as nat, t, i as nat),
            sum_y == moment_y(s, width as nat, t, i as nat),
            total == total_weight(s, t, i as nat),
        decreases n - i,
    {
        let d: u8 = data[i];
        proof {
            lemma_fundamental_div_mod_converse(i as int, width as int, y as int, x as int);
            lemma_sums_bounded(s, width as nat, h, t, (i + 1) as nat);
            let nw = (width - 1) as int;
            let nh = (h - 1) as int;
            let tot = total_weight(s, t, (i + 1) as nat) as int;
            assert(nw * tot <= 0xffff_ffff * (255 * 0x1_0000_0000_0000_0000)) by (nonlinear_arith)
                requires
                    0 <= nw <= 0xffff_ffff,
                    0 <= tot <= 255 * (i + 1),
                    i < 0x1_0000_0000_0000_0000,
            ;
            assert(nh * tot <= 0xffff_ffff * (255 * 0x1_0000_0000_0000_0000)) by (nonlinear_arith)
                requires
                    0 <= nh <= 0xffff_ffff,
                    0 <= tot <= 255 * (i + 1),
                    i < 0x1_0000_0000_0000_0000,
            ;
            assert(y < h) by (nonlinear_arith)
                requires
                    i == y * width + x,
                    i < width * h,
                    0 <= x,
                    width > 0,
            ;
        }
        if d > t {
            sum_x = sum_x + (x as u128) * (d as u128);
            sum_y = sum_y + (y as u128) * (d as u128);
            total = total + d as u128;
        }
        i = i + 1;
        x = x + 1;
        if x == width {
            proof {
                assert((y + 1) * width == y * width + width) by (nonlinear_arith);
            }
            x = 0;
            y = y + 1;
        }
    }
    proof {
        lemma_no_blob_iff_dark(s, width as nat);
        lemma_blob_within_frame(s, width as nat, h);
        lemma_sums_bounded(s, width as nat, h, t, n as nat);
        if total > 0 {
            lemma_quotient_at_most(sum_x as nat, (width - 1) as nat, total as nat);
            lemma_quotient_at_most(sum_y as nat, (h - 1) as nat, total as nat);
        }
    }
    if total == 0 {
        None
    } else {
        Some(((sum_x / total) as u64, (sum_y / total) as u64, t))
    }
}

} // verus!
