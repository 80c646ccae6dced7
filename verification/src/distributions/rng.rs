//! Counter-based random numbers that are the same on every device.
//!
//! Everything draws from one generator: Philox-4x32-10. A draw is a pure function of
//! where it is needed (the element index and a stream number) and of the seed, and
//! every operation is a 32-bit multiply, add or exclusive or, so the bits a draw
//! produces do not depend on how a launch was shaped.
//!
//! There are two ways to index the stream. A *lane* draw gives element `i` lane
//! `i % 4` of counter `(i / 4, i_hi, stream, 0)`; a *block* draw gives it all four
//! lanes of counter `(i, i_hi, stream, 1)`. The trailing counter word keeps the two
//! apart.

use vstd::prelude::*;

verus! {

/// The generator's first multiplier.
pub const PHILOX_M0: u32 = 0xD251_1F53;

/// The generator's second multiplier.
pub const PHILOX_M1: u32 = 0xCD9E_8D57;

/// The key bump for the first word.
pub const PHILOX_W0: u32 = 0x9E37_79B9;

/// The key bump for the second word.
pub const PHILOX_W1: u32 = 0xBB67_AE85;

/// The counter word of lane draws.
pub const DOMAIN_LANE: u32 = 0;

/// The counter word of block draws.
pub const DOMAIN_BLOCK: u32 = 1;

/// The four words one evaluation produces.
#[derive(Clone, Copy, Debug, PartialEq, Eq, Structural)]
pub struct Bits4 {
    /// First word.
    pub a: u32,
    /// Second word.
    pub b: u32,
    /// Third word.
    pub c: u32,
    /// Fourth word.
    pub d: u32,
}

/// The number of values a word can take.
pub open spec fn word() -> int {
    0x1_0000_0000
}

/// The high word of a product.
pub open spec fn high(a: u32, b: u32) -> u32 {
    ((a * b) / word()) as u32
}

/// The low word of a product.
pub open spec fn low(a: u32, b: u32) -> u32 {
    ((a * b) % word()) as u32
}

/// A word bumped `n` times.
pub open spec fn bumped(k: u32, w: u32, n: nat) -> u32 {
    ((k + n * w) % word()) as u32
}

/// One round: each half of the counter is multiplied out and folded into the other.
pub open spec fn round(x: Bits4, k0: u32, k1: u32) -> Bits4 {
    Bits4 {
        a: high(PHILOX_M1, x.c) ^ x.b ^ k0,
        b: low(PHILOX_M1, x.c),
        c: high(PHILOX_M0, x.a) ^ x.d ^ k1,
        d: low(PHILOX_M0, x.a),
    }
}

/// `n` rounds, the key bumped between them.
pub open spec fn rounds(x: Bits4, key_lo: u32, key_hi: u32, n: nat) -> Bits4
    decreases n,
{
    if n == 0 {
        x
    } else {
        round(
            rounds(x, key_lo, key_hi, (n - 1) as nat),
            bumped(key_lo, PHILOX_W0, (n - 1) as nat),
            bumped(key_hi, PHILOX_W1, (n - 1) as nat),
        )
    }
}

/// What the generator makes of a counter under a key.
pub open spec fn philox(c0: u32, c1: u32, c2: u32, c3: u32, key_lo: u32, key_hi: u32) -> Bits4 {
    rounds(Bits4 { a: c0, b: c1, c: c2, d: c3 }, key_lo, key_hi, 10)
}

/// One of the four words, by its number.
pub open spec fn lane(block: Bits4, i: u32) -> u32 {
    if i == 1 {
        block.b
    } else if i == 2 {
        block.c
    } else if i == 3 {
        block.d
    } else {
        block.a
    }
}

/// The word element `index` draws from a stream.
pub open spec fn lane_draw(index: u32, index_hi: u32, stream: u32, key_lo: u32, key_hi: u32) -> u32 {
    lane(
        philox((index / 4) as u32, index_hi, stream, DOMAIN_LANE, key_lo, key_hi),
        (index % 4) as u32,
    )
}

proof fn lemma_product_range(a: u32, b: u32)
    ensures
        0 <= a * b <= 0xFFFF_FFFE_0000_0001,
        (a * b) / word() < word(),
{
    assert(0 <= a * b <= 0xFFFF_FFFF * 0xFFFF_FFFF) by (nonlinear_arith)
        requires
            0 <= a <= 0xFFFF_FFFF,
            0 <= b <= 0xFFFF_FFFF,
    ;
}

/// The high word of `a * b`, in pure 32-bit arithmetic: four 16-bit partial products,
/// recombined the way long multiplication does it.
pub fn mulhi_split(a: u32, b: u32) -> (r: u32)
    ensures
        r == high(a, b),
{
    let a0: u32 = a & 0xffff;
    let a1: u32 = a >> 16;
    let b0: u32 = b & 0xffff;
    let b1: u32 = b >> 16;
    proof {
        assert(a & 0xffff == a % 0x1_0000 && a >> 16 == a / 0x1_0000) by (bit_vector);
        assert(b & 0xffff == b % 0x1_0000 && b >> 16 == b / 0x1_0000) by (bit_vector);
        lemma_halves(a0, b0);
        lemma_halves(a0, b1);
        lemma_halves(a1, b0);
        lemma_halves(a1, b1);
    }
    let p00: u32 = a0 * b0;
    let p01: u32 = a0 * b1;
    let p10: u32 = a1 * b0;
    let p11: u32 = a1 * b1;
    proof {
        assert(p00 >> 16 == p00 / 0x1_0000) by (bit_vector);
        assert(p01 & 0xffff == p01 % 0x1_0000 && p01 >> 16 == p01 / 0x1_0000) by (bit_vector);
        assert(p10 & 0xffff == p10 % 0x1_0000 && p10 >> 16 == p10 / 0x1_0000) by (bit_vector);
    }
    let mid: u32 = (p00 >> 16) + (p01 & 0xffff) + (p10 & 0xffff);
    proof {
        assert(mid >> 16 == mid / 0x1_0000) by (bit_vector);
        let (x0, x1, y0, y1) = (a0 as int, a1 as int, b0 as int, b1 as int);
        assert(a == x1 * 0x1_0000 + x0);
        assert(b == y1 * 0x1_0000 + y0);
        assert((x1 * 0x1_0000 + x0) * (y1 * 0x1_0000 + y0) == (x1 * y1) * 0x1_0000_0000 + (x0 * y1
            + x1 * y0) * 0x1_0000 + x0 * y0) by (nonlinear_arith);
        assert(a * b == p11 * 0x1_0000_0000 + (p01 + p10) * 0x1_0000 + p00);
        lemma_product_range(a, b);
    }
    p11 + (p01 >> 16) + (p10 >> 16) + (mid >> 16)
}

proof fn lemma_halves(x: u32, y: u32)
    requires
        x <= 0xffff,
        y <= 0xffff,
    ensures
        0 <= x * y <= 0xFFFE_0001,
{
    assert(0 <= x * y <= 0xffff * 0xffff) by (nonlinear_arith)
        requires
            0 <= x <= 0xffff,
            0 <= y <= 0xffff,
    ;
}

/// The same word, from a 64-bit multiply.
pub fn mulhi_wide(a: u32, b: u32) -> (r: u32)
    ensures
        r == high(a, b),
{
    proof {
        lemma_product_range(a, b);
    }
    let full: u64 = (a as u64) * (b as u64);
    proof {
        assert(full >> 32 == full / 0x1_0000_0000) by (bit_vector);
    }
    (full >> 32) as u32
}

/// The high word of `a * b`, by whichever route a device has.
pub fn mulhi(a: u32, b: u32, wide: bool) -> (r: u32)
    ensures
        r == high(a, b),
{
    if wide {
        mulhi_wide(a, b)
    } else {
        mulhi_split(a, b)
    }
}

proof fn lemma_bump(k: u32, w: u32, n: nat)
    ensures
        bumped(k, w, n + 1) == (bumped(k, w, n) + w) % word(),
{
    let x = k + n * w;
    assert(k + (n + 1) * w == x + w) by (nonlinear_arith)
        requires
            x == k + n * w,
    ;
    assert((x % word() + w) % word() == (x + w) % word()) by {
        vstd::arithmetic::div_mod::lemma_add_mod_noop_right(w as int, x, word());
    }
}

/// Ten rounds over a four-word counter and a two-word key. The last round leaves the
/// key alone.
pub fn philox4x32_10(
    c0: u32,
    c1: u32,
    c2: u32,
    c3: u32,
    key_lo: u32,
    key_hi: u32,
    wide: bool,
) -> (r: Bits4)
    ensures
        r == philox(c0, c1, c2, c3, key_lo, key_hi),
{
    let mut x = Bits4 { a: c0, b: c1, c: c2, d: c3 };
    let ghost start = x;
    let mut k0: u32 = key_lo;
    let mut k1: u32 = key_hi;
    let mut n: u32 = 0;
    proof {
        assert(bumped(key_lo, PHILOX_W0, 0) == key_lo);
        assert(bumped(key_hi, PHILOX_W1, 0) == key_hi);
    }
    while n < 10
        invariant
            n <= 10,
            x == rounds(start, key_lo, key_hi, n as nat),
            n < 10 ==> k0 == bumped(key_lo, PHILOX_W0, n as nat),
            n < 10 ==> k1 == bumped(key_hi, PHILOX_W1, n as nat),
        decreases 10 - n,
    {
        let hi0: u32 = mulhi(PHILOX_M0, x.a, wide);
        let lo0: u32 = PHILOX_M0.wrapping_mul(x.a);
        let hi1: u32 = mulhi(PHILOX_M1, x.c, wide);
        let lo1: u32 = PHILOX_M1.wrapping_mul(x.c);
        x = Bits4 { a: hi1 ^ x.b ^ k0, b: lo1, c: hi0 ^ x.d ^ k1, d: lo0 };
        if n < 9 {
            proof {
                lemma_bump(key_lo, PHILOX_W0, n as nat);
                lemma_bump(key_hi, PHILOX_W1, n as nat);
            }
            k0 = k0.wrapping_add(PHILOX_W0);
            k1 = k1.wrapping_add(PHILOX_W1);
        }
        n += 1;
    }
    x
}

/// Four random words for element `index` of a stream: for samplers that need more
/// than one uniform per element.
pub fn draw_block(
    index: u32,
    index_hi: u32,
    stream: u32,
    key_lo: u32,
    key_hi: u32,
    wide: bool,
) -> (r: Bits4)
    ensures
        r == philox(index, index_hi, stream, DOMAIN_BLOCK, key_lo, key_hi),
{
    philox4x32_10(index, index_hi, stream, DOMAIN_BLOCK, key_lo, key_hi, wide)
}

/// The four words that elements `4 * group` to `4 * group + 3` read from a stream.
pub fn draw_lane_block(
    group: u32,
    index_hi: u32,
    stream: u32,
    key_lo: u32,
    key_hi: u32,
    wide: bool,
) -> (r: Bits4)
    ensures
        r == philox(group, index_hi, stream, DOMAIN_LANE, key_lo, key_hi),
{
    philox4x32_10(group, index_hi, stream, DOMAIN_LANE, key_lo, key_hi, wide)
}

/// The word of a given lane; a lane past the last is the first.
pub fn lane_of(block: Bits4, i: u32) -> (r: u32)
    ensures
        r == lane(block, i),
{
    if i == 1 {
        block.b
    } else if i == 2 {
        block.c
    } else if i == 3 {
        block.d
    } else {
        block.a
    }
}

/// One random word for element `index` of a stream. Four consecutive elements share
/// an evaluation and take a lane each.
pub fn draw_lane(
    index: u32,
    index_hi: u32,
    stream: u32,
    key_lo: u32,
    key_hi: u32,
    wide: bool,
) -> (r: u32)
    ensures
        r == lane_draw(index, index_hi, stream, key_lo, key_hi),
{
    proof {
        assert(index >> 2 == index / 4 && index & 3 == index % 4) by (bit_vector);
    }
    let block = draw_lane_block(index >> 2, index_hi, stream, key_lo, key_hi, wide);
    lane_of(block, index & 3)
}

/// The two words of a 64-bit number, low word first.
pub fn words(n: u64) -> (r: (u32, u32))
    ensures
        r.0 + word() * r.1 == n,
{
    proof {
        assert((n as u32) == n % 0x1_0000_0000 && ((n >> 32) as u32) == n / 0x1_0000_0000)
            by (bit_vector);
    }
    (n as u32, (n >> 32) as u32)
}

/// The 64-bit number with the given words.
pub open spec fn joined(lo: u32, hi: u32) -> int {
    lo + word() * hi
}

/// The draw index of element `i` of a launch whose indices start at an offset: the
/// sum, carried into the high word. It wraps around at the end of the range.
pub fn draw_index(offset_lo: u32, offset_hi: u32, i: u32) -> (r: (u32, u32))
    ensures
        joined(r.0, r.1) == (joined(offset_lo, offset_hi) + i) % (word() * word()),
{
    let lo: u32 = offset_lo.wrapping_add(i);
    let hi: u32 = if lo < offset_lo {
        offset_hi.wrapping_add(1)
    } else {
        offset_hi
    };
    proof {
        let n = joined(offset_lo, offset_hi) + i;
        let whole = word() * word();
        assert(whole == 0x1_0000_0000_0000_0000);
        if n < whole {
            vstd::arithmetic::div_mod::lemma_small_mod(n as nat, whole as nat);
        } else {
            vstd::arithmetic::div_mod::lemma_fundamental_div_mod_converse(
                n,
                whole,
                1,
                n - whole,
            );
        }
    }
    (lo, hi)
}

/// The counter words of group `group` of a launch that draws four elements at a time
/// from an offset that is a multiple of four.
pub fn draw_group(offset_lo: u32, offset_hi: u32, group: u32) -> (r: (u32, u32))
    requires
        offset_lo % 4 == 0,
        group < 0x4000_0000,
    ensures
        4 * r.0 + word() * r.1 == (joined(offset_lo, offset_hi) + 4 * group) % (word() * word()),
        r.0 < 0x4000_0000,
{
    let (lo, hi) = draw_index(offset_lo, offset_hi, 4 * group);
    proof {
        let whole = word() * word();
        let n = joined(offset_lo, offset_hi) + 4 * group;
        assert(whole == 0x1_0000_0000_0000_0000);
        assert(joined(lo, hi) % 4 == 0) by {
            if n < whole {
                vstd::arithmetic::div_mod::lemma_small_mod(n as nat, whole as nat);
            } else {
                vstd::arithmetic::div_mod::lemma_fundamental_div_mod_converse(
                    n,
                    whole,
                    1,
                    n - whole,
                );
            }
        }
    }
    (lo / 4, hi)
}

/// The cell of the unit interval that a word picks, out of `2^23` equal ones.
pub open spec fn cell(bits: u32) -> int {
    bits as int / 512
}

/// A draw in the open interval `(0, 1)`, as the numerator over `2^24`: the midpoint
/// of the cell that the top 23 bits pick. Neither endpoint is ever reached.
pub fn unit_open(bits: u32) -> (r: u32)
    ensures
        r == 2 * cell(bits) + 1,
        0 < r < 0x100_0000,
{
    proof {
        assert(bits >> 9 == bits / 512) by (bit_vector);
    }
    2 * (bits >> 9) + 1
}

/// A draw in the half-open interval `[0, 1)`, as the numerator over `2^23`: the left
/// edge of the cell that the top 23 bits pick.
pub fn unit_half_open(bits: u32) -> (r: u32)
    ensures
        r == cell(bits),
        r < 0x80_0000,
{
    proof {
        assert(bits >> 9 == bits / 512) by (bit_vector);
    }
    bits >> 9
}

// -- laws ----------------------------------------------------------------------------

/// Element `4 g + l` reads lane `l` of group `g`'s evaluation, so drawing one element
/// at a time and drawing four at a time give the same words.
pub proof fn law_lane_is_part_of_group(
    g: u32,
    l: u32,
    index_hi: u32,
    stream: u32,
    key_lo: u32,
    key_hi: u32,
)
    requires
        g < 0x4000_0000,
        l < 4,
    ensures
        lane_draw((4 * g + l) as u32, index_hi, stream, key_lo, key_hi) == lane(
            philox(g, index_hi, stream, DOMAIN_LANE, key_lo, key_hi),
            l,
        ),
{
}

/// Rows drawn at stepped offsets are the rows of one large draw: element `i` of the
/// batch at offset `j * batch` has the index of element `j * batch + i`.
pub proof fn law_stepped_offsets_are_one_draw(offset: int, batch: int, j: int, i: int)
    requires
        0 <= i < batch,
        0 <= j,
        0 <= offset,
    ensures
        ((offset + j * batch) % (word() * word()) + i) % (word() * word()) == (offset + (j * batch
            + i)) % (word() * word()),
{
    vstd::arithmetic::div_mod::lemma_add_mod_noop_right(
        i,
        offset + j * batch,
        word() * word(),
    );
    assert(i + (offset + j * batch) == offset + (j * batch + i));
}

proof fn lemma_odd_injective(m: u32, inverse: int, quotient: int, x: u32, y: u32)
    requires
        inverse * m == quotient * word() + 1,
        low(m, x) == low(m, y),
    ensures
        x == y,
{
    lemma_undo(m, inverse, quotient, x);
    lemma_undo(m, inverse, quotient, y);
}

proof fn lemma_undo(m: u32, inverse: int, quotient: int, x: u32)
    requires
        inverse * m == quotient * word() + 1,
    ensures
        (inverse * low(m, x)) % word() == x,
{
    let p = m * x;
    lemma_product_range(m, x);
    let q = p / word();
    let l = p % word();
    assert(p == q * word() + l) by {
        vstd::arithmetic::div_mod::lemma_fundamental_div_mod(p, word());
        assert(word() * q == q * word()) by (nonlinear_arith);
    }
    assert(inverse * l == (quotient * x - inverse * q) * word() + x) by {
        assert(inverse * p == (inverse * m) * x) by (nonlinear_arith)
            requires
                p == m * x,
        ;
        assert((quotient * word() + 1) * x == quotient * x * word() + x) by (nonlinear_arith);
        assert(inverse * (q * word() + l) == inverse * q * word() + inverse * l)
            by (nonlinear_arith);
        assert((quotient * x - inverse * q) * word() == quotient * x * word() - inverse * q
            * word()) by (nonlinear_arith);
    }
    vstd::arithmetic::div_mod::lemma_fundamental_div_mod_converse(
        inverse * l,
        word(),
        quotient * x - inverse * q,
        x as int,
    );
}

proof fn lemma_xor_injective(h: u32, k: u32, x: u32, y: u32)
    requires
        h ^ x ^ k == h ^ y ^ k,
    ensures
        x == y,
{
    assert(x == y) by (bit_vector)
        requires
            h ^ x ^ k == h ^ y ^ k,
    ;
}

proof fn lemma_round_injective(x: Bits4, y: Bits4, k0: u32, k1: u32)
    requires
        round(x, k0, k1) == round(y, k0, k1),
    ensures
        x == y,
{
    lemma_odd_injective(PHILOX_M0, 0x991a7cdb, 0x7dc83e89, x.a, y.a);
    lemma_odd_injective(PHILOX_M1, 0x6d7cae67, 0x57f0a70f, x.c, y.c);
    lemma_xor_injective(high(PHILOX_M1, x.c), k0, x.b, y.b);
    lemma_xor_injective(high(PHILOX_M0, x.a), k1, x.d, y.d);
}

proof fn lemma_rounds_injective(x: Bits4, y: Bits4, key_lo: u32, key_hi: u32, n: nat)
    requires
        rounds(x, key_lo, key_hi, n) == rounds(y, key_lo, key_hi, n),
    ensures
        x == y,
    decreases n,
{
    if n > 0 {
        let m = (n - 1) as nat;
        lemma_round_injective(
            rounds(x, key_lo, key_hi, m),
            rounds(y, key_lo, key_hi, m),
            bumped(key_lo, PHILOX_W0, m),
            bumped(key_hi, PHILOX_W1, m),
        );
        lemma_rounds_injective(x, y, key_lo, key_hi, m);
    }
}

/// Under one key, distinct counters give distinct blocks.
pub proof fn law_distinct_counters_distinct_blocks(x: Bits4, y: Bits4, key_lo: u32, key_hi: u32)
    requires
        x != y,
    ensures
        philox(x.a, x.b, x.c, x.d, key_lo, key_hi) != philox(y.a, y.b, y.c, y.d, key_lo, key_hi),
{
    if philox(x.a, x.b, x.c, x.d, key_lo, key_hi) == philox(
        y.a,
        y.b,
        y.c,
        y.d,
        key_lo,
        key_hi,
    ) {
        lemma_rounds_injective(x, y, key_lo, key_hi, 10);
    }
}

/// A lane draw and a block draw never read the same evaluation.
pub proof fn law_lanes_and_blocks_are_apart(
    group: u32,
    index: u32,
    hi: u32,
    index_hi: u32,
    stream: u32,
    other: u32,
    key_lo: u32,
    key_hi: u32,
)
    ensures
        philox(group, hi, stream, DOMAIN_LANE, key_lo, key_hi) != philox(
            index,
            index_hi,
            other,
            DOMAIN_BLOCK,
            key_lo,
            key_hi,
        ),
{
    law_distinct_counters_distinct_blocks(
        Bits4 { a: group, b: hi, c: stream, d: DOMAIN_LANE },
        Bits4 { a: index, b: index_hi, c: other, d: DOMAIN_BLOCK },
        key_lo,
        key_hi,
    );
}

} // verus!
