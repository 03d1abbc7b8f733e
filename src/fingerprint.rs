//! 64-bit perceptual frame fingerprints and their Hamming distance.

use vstd::prelude::*;

verus! {

/// Number of set bits among the lowest `n` bits of `x`.
pub open spec fn popcount_low(x: u64, n: nat) -> nat
    decreases n,
{
    if n == 0 {
        0
    } else {
        popcount_low(x, (n - 1) as nat) + (if (x >> ((n - 1) as u64)) & 1 == 1 { 1nat } else { 0nat })
    }
}

/// Number of set bits of `x`.
pub open spec fn popcount(x: u64) -> nat {
    popcount_low(x, 64)
}

/// Number of bit positions in which `a` and `b` differ.
pub open spec fn bit_difference(a: u64, b: u64) -> nat {
    popcount(a ^ b)
}

proof fn lemma_xor_self_bits(h: u64, i: u64)
    requires
        i < 64,
    ensures
        ((h ^ h) >> i) & 1 == 0,
{
    assert(((h ^ h) >> i) & 1 == 0) by (bit_vector);
}

proof fn lemma_xor_symmetric(a: u64, b: u64)
    ensures
        a ^ b == b ^ a,
{
    assert(a ^ b == b ^ a) by (bit_vector);
}

proof fn lemma_xor_bit_triangle(a: u64, b: u64, c: u64, i: u64)
    requires
        i < 64,
    ensures
        ((a ^ c) >> i) & 1 == 1 ==> (((a ^ b) >> i) & 1 == 1 || ((b ^ c) >> i) & 1 == 1),
        ((a ^ c) >> i) & 1 == 1 || ((a ^ c) >> i) & 1 == 0,
{
    assert(((a ^ c) >> i) & 1 == 1 ==> (((a ^ b) >> i) & 1 == 1 || ((b ^ c) >> i) & 1 == 1))
        by (bit_vector);
    assert(((a ^ c) >> i) & 1 == 1 || ((a ^ c) >> i) & 1 == 0) by (bit_vector);
}

proof fn lemma_popcount_low_bound(x: u64, n: nat)
    ensures
        popcount_low(x, n) <= n,
    decreases n,
{
    if n > 0 {
        lemma_popcount_low_bound(x, (n - 1) as nat);
    }
}

proof fn lemma_popcount_low_self(h: u64, n: nat)
    requires
        n <= 64,
    ensures
        popcount_low(h ^ h, n) == 0,
    decreases n,
{
    if n > 0 {
        lemma_popcount_low_self(h, (n - 1) as nat);
        lemma_xor_self_bits(h, (n - 1) as u64);
    }
}

proof fn lemma_popcount_low_triangle(a: u64, b: u64, c: u64, n: nat)
    requires
        n <= 64,
    ensures
        popcount_low(a ^ c, n) <= popcount_low(a ^ b, n) + popcount_low(b ^ c, n),
    decreases n,
{
    if n > 0 {
        lemma_popcount_low_triangle(a, b, c, (n - 1) as nat);
        lemma_xor_bit_triangle(a, b, c, (n - 1) as u64);
    }
}

/// A fingerprint is at distance zero from itself.
pub proof fn lemma_distance_self(h: u64)
    ensures
        bit_difference(h, h) == 0,
{
    lemma_popcount_low_self(h, 64);
}

/// The distance between two fingerprints does not depend on their order.
pub proof fn lemma_distance_symmetric(a: u64, b: u64)
    ensures
        bit_difference(a, b) == bit_difference(b, a),
{
    lemma_xor_symmetric(a, b);
}

/// The distance obeys the triangle inequality and never exceeds the 64 bits
/// of a fingerprint.
pub proof fn lemma_distance_triangle(a: u64, b: u64, c: u64)
    ensures
        bit_difference(a, c) <= bit_difference(a, b) + bit_difference(b, c),
        bit_difference(a, c) <= 64,
{
    lemma_popcount_low_triangle(a, b, c, 64);
    lemma_popcount_low_bound(a ^ c, 64);
}


/// Side of the block grid a frame is reduced to.
pub const HASH_GRID: usize = 8;

/// Largest distance at which a frame still counts as a repeat of the last
/// accepted frame on its monitor.
pub const DEDUP_THRESHOLD: u32 = 5;

/// One captured screen image: RGBA bytes, row-major, four bytes per pixel.
pub struct CapturedFrame {
    pub data: Vec<u8>,
    pub width: u32,
    pub height: u32,
    /// Capture time, milliseconds since the Unix epoch.
    pub timestamp_ms: i64,
}

/// Integer luminance of the pixel whose red byte is at `idx`.
pub open spec fn luma(data: Seq<u8>, idx: int) -> int {
    (data[idx] as int * 299 + data[idx + 1] as int * 587 + data[idx + 2] as int * 114) / 1000
}

/// Sum of the luminance of `n` pixels of row `y` starting at column `x0`.
pub open spec fn row_luma_sum(data: Seq<u8>, w: int, y: int, x0: int, n: nat) -> int
    decreases n,
{
    if n == 0 {
        0
    } else {
        row_luma_sum(data, w, y, x0, (n - 1) as nat) + luma(data, (y * w + x0 + n - 1) * 4)
    }
}

/// Sum of the luminance of the `bw` by `m` pixel rectangle at `(x0, y0)`.
pub open spec fn rect_luma_sum(data: Seq<u8>, w: int, x0: int, bw: nat, y0: int, m: nat) -> int
    decreases m,
{
    if m == 0 {
        0
    } else {
        rect_luma_sum(data, w, x0, bw, y0, (m - 1) as nat) + row_luma_sum(data, w, y0 + m - 1, x0, bw)
    }
}

/// Mean luminance of block `i` (row-major) of the 8 by 8 grid over a
/// `w` by `h` frame, both at least 8.
pub open spec fn block_value(data: Seq<u8>, w: int, h: int, i: int) -> int {
    let bw = w / 8;
    let bh = h / 8;
    rect_luma_sum(data, w, (i % 8) * bw, bw as nat, (i / 8) * bh, bh as nat) / (bw * bh)
}

/// Sum of the first `n` block values.
pub open spec fn blocks_total(data: Seq<u8>, w: int, h: int, n: nat) -> int
    decreases n,
{
    if n == 0 {
        0
    } else {
        blocks_total(data, w, h, (n - 1) as nat) + block_value(data, w, h, n - 1)
    }
}

/// Mean of the 64 block values.
pub open spec fn blocks_mean(data: Seq<u8>, w: int, h: int) -> int {
    blocks_total(data, w, h, 64) / 64
}

/// Sum of the first `n` bytes, wrapped to 64 bits.
pub open spec fn byte_sum_wrapping(data: Seq<u8>, n: nat) -> u64
    decreases n,
{
    if n == 0 {
        0
    } else {
        ((byte_sum_wrapping(data, (n - 1) as nat) + data[n - 1] as int) % 0x1_0000_0000_0000_0000) as u64
    }
}

/// Whether a frame is too small for the 8 by 8 grid.
pub open spec fn below_grid(w: int, h: int) -> bool {
    w / 8 == 0 || h / 8 == 0
}

/// Whether bit `i` of `x` is set.
pub open spec fn bit_set(x: u64, i: int) -> bool {
    (x >> (i as u64)) & 1 == 1
}

impl CapturedFrame {
    /// Hamming distance between two fingerprints: the number of differing bits.
    pub fn hash_distance(hash1: u64, hash2: u64) -> (r: u32)
        ensures
            r as nat == bit_difference(hash1, hash2),
            r <= 64,
    {
        let x = hash1 ^ hash2;
        let mut count: u32 = 0;
        let mut i: u64 = 0;
        while i < 64
            invariant
                i <= 64,
                count as nat == popcount_low(x, i as nat),
                count <= i,
            decreases 64 - i,
        {
            if (x >> i) & 1 == 1 {
                count = count + 1;
            }
            i = i + 1;
        }
        count
    }

    /// The buffer holds exactly `width * height` RGBA pixels.
    pub open spec fn wf(&self) -> bool {
        self.data@.len() == self.width as int * self.height as int * 4
    }

    /// 64-bit average hash: bit `i` is set iff block `i` of the 8 by 8 grid is
    /// at least as bright as the mean block. A frame smaller than the grid
    /// hashes to the wrapped sum of its bytes.
    pub fn compute_perceptual_hash(&self) -> (r: u64)
        requires
            self.wf(),
        ensures
            below_grid(self.width as int, self.height as int) ==> r == byte_sum_wrapping(
                self.data@,
                self.data@.len(),
            ),
            !below_grid(self.width as int, self.height as int) ==> forall|i: int|
                0 <= i < 64 ==> (bit_set(r, i) <==> block_value(
                    self.data@,
                    self.width as int,
                    self.height as int,
                    i,
                ) >= blocks_mean(self.data@, self.width as int, self.height as int)),
    {
        let w = self.width as usize;
        let h = self.height as usize;
        let bw = w / HASH_GRID;
        let bh = h / HASH_GRID;
        if bw == 0 || bh == 0 {
            let mut acc: u64 = 0;
            let mut k: usize = 0;
            while k < self.data.len()
                invariant
                    k <= self.data@.len(),
                    acc == byte_sum_wrapping(self.data@, k as nat),
                decreases self.data@.len() - k,
            {
                acc = acc.wrapping_add(self.data[k] as u64);
                k = k + 1;
            }
            return acc;
        }
        let n = self.data.len();
        assert(n == w * h * 4);
        let ghost data = self.data@;
        let ghost wi = w as int;
        let ghost hi = h as int;
        proof {
            lemma_grid_bounds(wi, hi);
        }
        let mut values: Vec<u64> = Vec::new();
        let mut total: u64 = 0;
        let mut i: usize = 0;
        while i < 64
            invariant
                w == self.width,
                h == self.height,
                data == self.data@,
                wi == w,
                hi == h,
                self.wf(),
                w * h * 4 <= usize::MAX,
                bw == w / 8,
                bh == h / 8,
                bw >= 1,
                bh >= 1,
                bw * bh <= 0x100_0000_0000_0000,
                i <= 64,
                values@.len() == i,
                forall|j: int| 0 <= j < i ==> values@[j] == block_value(data, wi, hi, j),
                forall|j: int| 0 <= j < i ==> values@[j] <= 255,
                total == blocks_total(data, wi, hi, i as nat),
                total <= 255 * i,
            decreases 64 - i,
        {
            let v = block_luma(&self.data, w, h, bw, bh, i);
            values.push(v);
            total = total + v;
            i = i + 1;
        }
        let mean = total / 64;
        let mut hash: u64 = 0;
        let mut k: usize = 0;
        proof {
            assert forall|j: int| 0 <= j < 64 implies !bit_set(0u64, j) by {
                lemma_zero_bits(j as u64);
            }
        }
        while k < 64
            invariant
                values@.len() == 64,
                k <= 64,
                forall|j: int| 0 <= j < k ==> (bit_set(hash, j) <==> values@[j] >= mean),
                forall|j: int| k <= j < 64 ==> !bit_set(hash, j),
            decreases 64 - k,
        {
            let ghost old_hash = hash;
            if values[k] >= mean {
                hash = hash | (1u64 << (k as u64));
                proof {
                    assert forall|j: int| 0 <= j < 64 implies (bit_set(hash, j) <==> (j == k
                        || bit_set(old_hash, j))) by {
                        lemma_set_bit(old_hash, k as u64, j as u64);
                    }
                }
            }
            k = k + 1;
        }
        hash
    }
}

proof fn lemma_set_bit(x: u64, k: u64, j: u64)
    requires
        k < 64,
        j < 64,
    ensures
        (((x | (1u64 << k)) >> j) & 1 == 1) <==> (j == k || (x >> j) & 1 == 1),
{
    assert((((x | (1u64 << k)) >> j) & 1 == 1) <==> (j == k || (x >> j) & 1 == 1))
        by (bit_vector)
        requires
            k < 64,
            j < 64,
    ;
}

proof fn lemma_zero_bits(j: u64)
    ensures
        (0u64 >> j) & 1 != 1,
{
    assert((0u64 >> j) & 1 != 1) by (bit_vector);
}

proof fn lemma_grid_bounds(w: int, h: int)
    requires
        w >= 8,
        h >= 8,
        w * h * 4 <= usize::MAX,
    ensures
        (w / 8) * (h / 8) <= 0x100_0000_0000_0000,
{
    assert((w / 8) * (h / 8) * 64 <= w * h) by (nonlinear_arith)
        requires
            w >= 8,
            h >= 8,
    ;
}

/// Mean luminance of block `i` of the grid.
fn block_luma(data: &Vec<u8>, w: usize, h: usize, bw: usize, bh: usize, i: usize) -> (v: u64)
    requires
        data@.len() == w * h * 4,
        w * h * 4 <= usize::MAX,
        bw == w / 8,
        bh == h / 8,
        bw >= 1,
        bh >= 1,
        bw * bh <= 0x100_0000_0000_0000,
        i < 64,
    ensures
        v == block_value(data@, w as int, h as int, i as int),
        v <= 255,
{
    proof {
        assert((i % 8) * bw + bw <= w) by (nonlinear_arith)
            requires
                bw == w / 8,
                i < 64,
        ;
        assert((i / 8) * bh + bh <= h) by (nonlinear_arith)
            requires
                bh == h / 8,
                i < 64,
        ;
        assert(bw * bh <= w * h) by (nonlinear_arith)
            requires
                bw == w / 8,
                bh == h / 8,
        ;
    }
    let x0 = (i % 8) * bw;
    let y0 = (i / 8) * bh;
    let mut sum: u64 = 0;
    let mut dy: usize = 0;
    while dy < bh
        invariant
            data@.len() == w * h * 4,
            x0 + bw <= w,
            y0 + bh <= h,
            w * h * 4 <= usize::MAX,
            bw * bh <= w * h,
            bw * bh <= 0x100_0000_0000_0000,
            dy <= bh,
            sum == rect_luma_sum(data@, w as int, x0 as int, bw as nat, y0 as int, dy as nat),
            sum <= 255 * (dy * bw),
        decreases bh - dy,
    {
        let y = y0 + dy;
        let mut dx: usize = 0;
        proof {
            assert(dy * bw + bw <= bh * bw) by (nonlinear_arith)
                requires
                    dy < bh,
            ;
        }
        while dx < bw
            invariant
                data@.len() == w * h * 4,
                x0 + bw <= w,
                w * h * 4 <= usize::MAX,
                y == y0 + dy,
                y < h,
                dy < bh,
                dy * bw + bw <= bh * bw,
                bw * bh <= 0x100_0000_0000_0000,
                dx <= bw,
                sum == rect_luma_sum(data@, w as int, x0 as int, bw as nat, y0 as int, dy as nat)
                    + row_luma_sum(data@, w as int, y as int, x0 as int, dx as nat),
                sum <= 255 * (dy * bw + dx),
            decreases bw - dx,
        {
            let x = x0 + dx;
            proof {
                assert(y * w + x < w * h) by (nonlinear_arith)
                    requires
                        y < h,
                        x < w,
                ;
                assert(y * w <= w * h) by (nonlinear_arith)
                    requires
                        y < h,
                ;
            }
            let idx = (y * w + x) * 4;
            let r = data[idx] as u64;
            let g = data[idx + 1] as u64;
            let b = data[idx + 2] as u64;
            let l = (r * 299 + g * 587 + b * 114) / 1000;
            proof {
                assert(255 * (dy * bw + dx) + 255 == 255 * (dy * bw + dx + 1)) by (nonlinear_arith);
                assert(255 * (dy * bw + dx + 1) <= 255 * (bh * bw)) by (nonlinear_arith)
                    requires
                        dy * bw + dx + 1 <= bh * bw,
                ;
            }
            sum = sum + l;
            dx = dx + 1;
        }
        proof {
            assert(dy * bw + bw == (dy + 1) * bw) by (nonlinear_arith);
        }
        dy = dy + 1;
    }
    let count = (bw * bh) as u64;
    proof {
        assert(sum <= 255 * (bw * bh)) by (nonlinear_arith)
            requires
                sum <= 255 * (bh * bw),
        ;
        assert(count >= 1) by (nonlinear_arith)
            requires
                count == bw * bh,
                bw >= 1,
                bh >= 1,
        ;
        assert(sum / count <= 255) by (nonlinear_arith)
            requires
                sum <= 255 * count,
                count >= 1,
        ;
    }
    sum / count
}

} // verus!
