//! Deterministic random bits (xorshift64*).
use vstd::prelude::*;

verus! {

/// A source of random bits. Equal seeds give equal bits.
pub struct Rng(u64);

/// The state after one step.
pub open spec fn next_state(x: u64) -> u64 {
    let a = x ^ (x >> 12);
    let b = a ^ (a << 25);
    b ^ (b >> 27)
}

/// The bits that a state gives out.
pub open spec fn scrambled(x: u64) -> u64 {
    ((x * 0x2545F4914F6CDD1D) % 0x1_0000_0000_0000_0000) as u64
}

proof fn lemma_step_keeps_nonzero(x: u64)
    requires
        x != 0,
    ensures
        next_state(x) != 0,
{
    let a = x ^ (x >> 12);
    assert(a != 0) by (bit_vector)
        requires
            x != 0,
            a == x ^ (x >> 12),
    ;
    let b = a ^ (a << 25);
    assert(b != 0) by (bit_vector)
        requires
            a != 0,
            b == a ^ (a << 25),
    ;
    let c = b ^ (b >> 27);
    assert(c != 0) by (bit_vector)
        requires
            b != 0,
            c == b ^ (b >> 27),
    ;
}

impl View for Rng {
    type V = u64;

    closed spec fn view(&self) -> u64 {
        self.0
    }
}

impl Rng {
    /// The state is never zero: from there no step leads away.
    #[verifier::type_invariant]
    spec fn alive(self) -> bool {
        self.0 != 0
    }

    pub fn new(seed: u64) -> (r: Self)
        ensures
            r@ == seed | 1,
            r@ != 0,
    {
        assert(seed | 1 != 0) by (bit_vector);
        Rng(seed | 1)
    }

    /// The next 64 bits.
    pub fn next_u64(&mut self) -> (r: u64)
        ensures
            final(self)@ == next_state(old(self)@),
            final(self)@ != 0,
            r == scrambled(final(self)@),
    {
        proof {
            use_type_invariant(&*self);
            lemma_step_keeps_nonzero(self.0);
        }
        let mut x: u64 = self.0;
        x = x ^ (x >> 12);
        x = x ^ (x << 25);
        x = x ^ (x >> 27);
        self.0 = x;
        x.wrapping_mul(0x2545F4914F6CDD1D)
    }

    /// The next 24 bits: a draw from the unit interval, in steps of one part in two to the 24th.
    pub fn next_24_bits(&mut self) -> (r: u32)
        ensures
            final(self)@ == next_state(old(self)@),
            final(self)@ != 0,
            r == scrambled(final(self)@) >> 40,
            r < 0x100_0000,
    {
        let bits: u64 = self.next_u64();
        assert(bits >> 40 < 0x100_0000) by (bit_vector);
        (bits >> 40) as u32
    }
}

/// The seed for one sample of one pixel.
pub open spec fn seed_of(px: u32, py: u32, sample: u32) -> u64 {
    ((px as u64) << 40) ^ ((py as u64) << 20) ^ (sample as u64) ^ 0x9E3779B9u64
}

/// The seed for one sample of one pixel: it depends on nothing else, so that a tile that is
/// rendered again comes out the same.
pub fn pixel_seed(px: u32, py: u32, sample: u32) -> (r: u64)
    ensures
        r == seed_of(px, py, sample),
{
    ((px as u64) << 40) ^ ((py as u64) << 20) ^ (sample as u64) ^ 0x9E3779B9
}

/// Different samples of pixels start from different seeds, as long as the coordinates stay
/// below two to the 20th.
pub proof fn seeds_differ(px: u32, py: u32, s: u32, qx: u32, qy: u32, t: u32)
    requires
        px < 0x10_0000,
        py < 0x10_0000,
        s < 0x10_0000,
        qx < 0x10_0000,
        qy < 0x10_0000,
        t < 0x10_0000,
        seed_of(px, py, s) == seed_of(qx, qy, t),
    ensures
        px == qx,
        py == qy,
        s == t,
{
    let a = px as u64;
    let b = py as u64;
    let c = s as u64;
    let d = qx as u64;
    let e = qy as u64;
    let f = t as u64;
    assert(a == d && b == e && c == f) by (bit_vector)
        requires
            a < 0x10_0000,
            b < 0x10_0000,
            c < 0x10_0000,
            d < 0x10_0000,
            e < 0x10_0000,
            f < 0x10_0000,
            (a << 40) ^ (b << 20) ^ c ^ 0x9E3779B9u64 == (d << 40) ^ (e << 20) ^ f ^ 0x9E3779B9u64,
    ;
}

/// A step treats each bit by itself: the step of two states that are combined bit by bit is the
/// combination of their steps.
pub proof fn steps_are_linear(x: u64, y: u64)
    ensures
        next_state(x ^ y) == next_state(x) ^ next_state(y),
        next_state(0) == 0,
{
    let z = x ^ y;
    let (a, b, c) = (x ^ (x >> 12), y ^ (y >> 12), z ^ (z >> 12));
    assert(c == a ^ b) by (bit_vector)
        requires
            z == x ^ y,
            a == x ^ (x >> 12),
            b == y ^ (y >> 12),
            c == z ^ (z >> 12),
    ;
    let (d, e, f) = (a ^ (a << 25), b ^ (b << 25), c ^ (c << 25));
    assert(f == d ^ e) by (bit_vector)
        requires
            c == a ^ b,
            d == a ^ (a << 25),
            e == b ^ (b << 25),
            f == c ^ (c << 25),
    ;
    assert(f ^ (f >> 27) == (d ^ (d >> 27)) ^ (e ^ (e >> 27))) by (bit_vector)
        requires
            f == d ^ e,
    ;
    assert(next_state(0) == 0) by (bit_vector);
}

/// The bits that a state gives out grow with it in equal steps, counted around.
pub proof fn bits_grow_in_equal_steps(x: u64)
    requires
        x < u64::MAX,
    ensures
        scrambled(0) == 0,
        scrambled((x + 1) as u64) == (scrambled(x) + 0x2545F4914F6CDD1D)
            % 0x1_0000_0000_0000_0000,
{
    let k = 0x2545F4914F6CDD1Dint;
    let m = 0x1_0000_0000_0000_0000int;
    assert((x + 1) * k == x * k + k);
    vstd::arithmetic::div_mod::lemma_add_mod_noop(x * k, k, m);
    assert(k % m == k);
}

/// The seed of a sample takes up the sample's number, and the coordinates of its pixel further up,
/// bit by bit.
pub proof fn seeds_take_up_sample_and_pixel(px: u32, py: u32, sample: u32)
    ensures
        seed_of(0, 0, 0) == 0x9E3779B9,
        seed_of(px, py, sample) ^ seed_of(px, py, 0) == sample as u64,
        seed_of(px, py, 0) ^ seed_of(px, 0, 0) == (py as u64) << 20,
        seed_of(px, 0, 0) ^ seed_of(0, 0, 0) == (px as u64) << 40,
{
    let (a, b, c) = (px as u64, py as u64, sample as u64);
    assert((0u64 << 40) ^ (0u64 << 20) ^ 0u64 ^ 0x9E3779B9u64 == 0x9E3779B9u64) by (bit_vector);
    assert(((a << 40) ^ (b << 20) ^ c ^ 0x9E3779B9u64) ^ ((a << 40) ^ (b << 20) ^ 0u64
        ^ 0x9E3779B9u64) == c) by (bit_vector);
    assert(((a << 40) ^ (b << 20) ^ 0u64 ^ 0x9E3779B9u64) ^ ((a << 40) ^ (0u64 << 20) ^ 0u64
        ^ 0x9E3779B9u64) == b << 20) by (bit_vector);
    assert(((a << 40) ^ (0u64 << 20) ^ 0u64 ^ 0x9E3779B9u64) ^ ((0u64 << 40) ^ (0u64 << 20) ^ 0u64
        ^ 0x9E3779B9u64) == a << 40) by (bit_vector);
}

/// A step takes three turns. In each the state is combined bit by bit with what it is divided by
/// 4096, then with what it is 33 554 432 times, as far as 64 bits reach, then with what it is divided
/// by 134 217 728.
pub proof fn steps_take_three_turns(x: u64)
    ensures
        exists|a: u64, b: u64| #[trigger]
            (a ^ x) == x / 4096 && #[trigger] (b ^ a) == (a * 33_554_432) % 0x1_0000_0000_0000_0000
                && next_state(x) ^ b == b / 134_217_728,
{
    let a = x ^ (x >> 12);
    let b = a ^ (a << 25);
    assert(a ^ x == x / 4096) by (bit_vector)
        requires
            a == x ^ (x >> 12),
    ;
    assert(b ^ a == (a * 33_554_432) % 0x1_0000_0000_0000_0000) by (bit_vector)
        requires
            b == a ^ (a << 25),
    ;
    let c = next_state(x);
    assert(c ^ b == b / 134_217_728) by (bit_vector)
        requires
            c == b ^ (b >> 27),
    ;
}

} // verus!
