//! The MD5 block function and a streaming context that exposes its raw state.
//!
//! The context accumulates bytes into 64-byte blocks and runs the block
//! function of RFC 1321 on each full block. It never pads and never
//! finalises: whoever feeds it decides what the last blocks hold, and reads
//! the four state words as they are.

use vstd::prelude::*;

verus! {

/// The four working registers of the block function.
pub struct Registers {
    pub a: u32,
    pub b: u32,
    pub c: u32,
    pub d: u32,
}

/// Rotation of a 32-bit word to the left by `n` bits, for `0 < n < 32`.
pub open spec fn rotate_left(x: u32, n: u32) -> u32 {
    (x << n) | (x >> ((32 - n) as u32))
}

/// The additive constant of each of the 64 steps: the integer part of
/// `2^32 * |sin(i + 1)|` for step `i`.
pub open spec fn round_constants() -> Seq<u32> {
    seq![
        0xd76aa478u32, 0xe8c7b756, 0x242070db, 0xc1bdceee,
        0xf57c0faf, 0x4787c62a, 0xa8304613, 0xfd469501,
        0x698098d8, 0x8b44f7af, 0xffff5bb1, 0x895cd7be,
        0x6b901122, 0xfd987193, 0xa679438e, 0x49b40821,
        0xf61e2562, 0xc040b340, 0x265e5a51, 0xe9b6c7aa,
        0xd62f105d, 0x02441453, 0xd8a1e681, 0xe7d3fbc8,
        0x21e1cde6, 0xc33707d6, 0xf4d50d87, 0x455a14ed,
        0xa9e3e905, 0xfcefa3f8, 0x676f02d9, 0x8d2a4c8a,
        0xfffa3942, 0x8771f681, 0x6d9d6122, 0xfde5380c,
        0xa4beea44, 0x4bdecfa9, 0xf6bb4b60, 0xbebfbc70,
        0x289b7ec6, 0xeaa127fa, 0xd4ef3085, 0x04881d05,
        0xd9d4d039, 0xe6db99e5, 0x1fa27cf8, 0xc4ac5665,
        0xf4292244, 0x432aff97, 0xab9423a7, 0xfc93a039,
        0x655b59c3, 0x8f0ccc92, 0xffeff47d, 0x85845dd1,
        0x6fa87e4f, 0xfe2ce6e0, 0xa3014314, 0x4e0811a1,
        0xf7537e82, 0xbd3af235, 0x2ad7d2bb, 0xeb86d391,
    ]
}

/// The rotation amounts, four per round.
pub open spec fn shift_amounts() -> Seq<u32> {
    seq![7u32, 12, 17, 22, 5, 9, 14, 20, 4, 11, 16, 23, 6, 10, 15, 21]
}

/// The rotation amount of step `i`.
pub open spec fn shift_amount(i: int) -> u32 {
    shift_amounts()[4 * (i / 16) + i % 4]
}

/// Which word of the block step `i` adds.
pub open spec fn word_index(i: int) -> int {
    if i < 16 {
        i
    } else if i < 32 {
        (5 * i + 1) % 16
    } else if i < 48 {
        (3 * i + 5) % 16
    } else {
        (7 * i) % 16
    }
}

/// The selection function of the first round.
pub open spec fn mix_f(x: u32, y: u32, z: u32) -> u32 {
    (x & y) | (!x & z)
}

/// The selection function of the second round.
pub open spec fn mix_g(x: u32, y: u32, z: u32) -> u32 {
    (x & z) | (y & !z)
}

/// The parity function of the third round.
pub open spec fn mix_h(x: u32, y: u32, z: u32) -> u32 {
    x ^ y ^ z
}

/// The function of the fourth round.
pub open spec fn mix_i(x: u32, y: u32, z: u32) -> u32 {
    y ^ (x | !z)
}

/// The nonlinear function that step `i` applies to three of the registers.
pub open spec fn mix(i: int, x: u32, y: u32, z: u32) -> u32 {
    if i < 16 {
        mix_f(x, y, z)
    } else if i < 32 {
        mix_g(x, y, z)
    } else if i < 48 {
        mix_h(x, y, z)
    } else {
        mix_i(x, y, z)
    }
}

/// The register that one step computes: `b + ((a + m + x + ac) <<< s)`, all
/// sums modulo `2^32`.
pub open spec fn step_value(a: u32, b: u32, m: u32, x: u32, s: u32, ac: u32) -> u32 {
    b.wrapping_add(rotate_left(a.wrapping_add(m).wrapping_add(x).wrapping_add(ac), s))
}

/// Step `i` of the block function: one register is recomputed and the four
/// rotate by one place.
pub open spec fn step(r: Registers, block: Seq<u32>, i: int) -> Registers {
    Registers {
        a: r.d,
        b: step_value(
            r.a,
            r.b,
            mix(i, r.b, r.c, r.d),
            block[word_index(i)],
            shift_amount(i),
            round_constants()[i],
        ),
        c: r.b,
        d: r.c,
    }
}

/// The registers after steps `lo`, `lo + 1`, ..., `hi - 1`, starting from `r`.
pub open spec fn steps(r: Registers, block: Seq<u32>, lo: int, hi: int) -> Registers
    decreases hi - lo,
{
    if hi <= lo {
        r
    } else {
        step(steps(r, block, lo, hi - 1), block, hi - 1)
    }
}

/// The block function of RFC 1321: 64 steps on a copy of the state, whose
/// outcome is added to the state word by word. `state` has four words and
/// `block` sixteen.
#[verifier::opaque]
pub open spec fn md5_transform(state: Seq<u32>, block: Seq<u32>) -> Seq<u32> {
    let r = steps(Registers { a: state[0], b: state[1], c: state[2], d: state[3] }, block, 0, 64);
    seq![
        state[0].wrapping_add(r.a),
        state[1].wrapping_add(r.b),
        state[2].wrapping_add(r.c),
        state[3].wrapping_add(r.d),
    ]
}

/// Running steps `lo..mid` and then `mid..hi` is running steps `lo..hi`.
pub proof fn lemma_steps_split(r: Registers, block: Seq<u32>, lo: int, mid: int, hi: int)
    requires
        lo <= mid <= hi,
    ensures
        steps(steps(r, block, lo, mid), block, mid, hi) == steps(r, block, lo, hi),
    decreases hi - mid,
{
    if mid < hi {
        lemma_steps_split(r, block, lo, mid, hi - 1);
    }
}

fn rotl(x: u32, n: u32) -> (r: u32)
    requires
        0 < n < 32,
    ensures
        r == rotate_left(x, n),
{
    (x << n) | (x >> (32 - n))
}

fn combine(a: u32, b: u32, m: u32, x: u32, s: u32, ac: u32) -> (r: u32)
    requires
        0 < s < 32,
    ensures
        r == step_value(a, b, m, x, s, ac),
{
    let sum: u32 = a.wrapping_add(m).wrapping_add(x).wrapping_add(ac);
    b.wrapping_add(rotl(sum, s))
}

fn step_f(a: u32, b: u32, c: u32, d: u32, x: u32, s: u32, ac: u32) -> (r: u32)
    requires
        0 < s < 32,
    ensures
        r == step_value(a, b, mix_f(b, c, d), x, s, ac),
{
    combine(a, b, (b & c) | (!b & d), x, s, ac)
}

fn step_g(a: u32, b: u32, c: u32, d: u32, x: u32, s: u32, ac: u32) -> (r: u32)
    requires
        0 < s < 32,
    ensures
        r == step_value(a, b, mix_g(b, c, d), x, s, ac),
{
    combine(a, b, (b & d) | (c & !d), x, s, ac)
}

fn step_h(a: u32, b: u32, c: u32, d: u32, x: u32, s: u32, ac: u32) -> (r: u32)
    requires
        0 < s < 32,
    ensures
        r == step_value(a, b, mix_h(b, c, d), x, s, ac),
{
    combine(a, b, b ^ c ^ d, x, s, ac)
}

fn step_i(a: u32, b: u32, c: u32, d: u32, x: u32, s: u32, ac: u32) -> (r: u32)
    requires
        0 < s < 32,
    ensures
        r == step_value(a, b, mix_i(b, c, d), x, s, ac),
{
    combine(a, b, c ^ (b | !d), x, s, ac)
}

/// The first sixteen steps of the block function.
#[verifier::rlimit(50)]
fn round_one(r: Registers, input: &[u32; 16]) -> (out: Registers)
    ensures
        out == steps(r, input@, 0, 16),
{
    assert(steps(r, input@, 0, 0) == r);
    let mut a: u32 = r.a;
    let mut b: u32 = r.b;
    let mut c: u32 = r.c;
    let mut d: u32 = r.d;
    a = step_f(a, b, c, d, input[0], 7, 3614090360);
    assert(Registers { a: d, b: a, c: b, d: c } == steps(r, input@, 0, 1));
    d = step_f(d, a, b, c, input[1], 12, 3905402710);
    assert(Registers { a: c, b: d, c: a, d: b } == steps(r, input@, 0, 2));
    c = step_f(c, d, a, b, input[2], 17, 606105819);
    assert(Registers { a: b, b: c, c: d, d: a } == steps(r, input@, 0, 3));
    b = step_f(b, c, d, a, input[3], 22, 3250441966);
    assert(Registers { a, b, c, d } == steps(r, input@, 0, 4));
    a = step_f(a, b, c, d, input[4], 7, 4118548399);
    assert(Registers { a: d, b: a, c: b, d: c } == steps(r, input@, 0, 5));
    d = step_f(d, a, b, c, input[5], 12, 1200080426);
    assert(Registers { a: c, b: d, c: a, d: b } == steps(r, input@, 0, 6));
    c = step_f(c, d, a, b, input[6], 17, 2821735955);
    assert(Registers { a: b, b: c, c: d, d: a } == steps(r, input@, 0, 7));
    b = step_f(b, c, d, a, input[7], 22, 4249261313);
    assert(Registers { a, b, c, d } == steps(r, input@, 0, 8));
    a = step_f(a, b, c, d, input[8], 7, 1770035416);
    assert(Registers { a: d, b: a, c: b, d: c } == steps(r, input@, 0, 9));
    d = step_f(d, a, b, c, input[9], 12, 2336552879);
    assert(Registers { a: c, b: d, c: a, d: b } == steps(r, input@, 0, 10));
    c = step_f(c, d, a, b, input[10], 17, 4294925233);
    assert(Registers { a: b, b: c, c: d, d: a } == steps(r, input@, 0, 11));
    b = step_f(b, c, d, a, input[11], 22, 2304563134);
    assert(Registers { a, b, c, d } == steps(r, input@, 0, 12));
    a = step_f(a, b, c, d, input[12], 7, 1804603682);
    assert(Registers { a: d, b: a, c: b, d: c } == steps(r, input@, 0, 13));
    d = step_f(d, a, b, c, input[13], 12, 4254626195);
    assert(Registers { a: c, b: d, c: a, d: b } == steps(r, input@, 0, 14));
    c = step_f(c, d, a, b, input[14], 17, 2792965006);
    assert(Registers { a: b, b: c, c: d, d: a } == steps(r, input@, 0, 15));
    b = step_f(b, c, d, a, input[15], 22, 1236535329);
    assert(Registers { a, b, c, d } == steps(r, input@, 0, 16));
    Registers { a, b, c, d }
}

/// The second sixteen steps of the block function.
#[verifier::rlimit(50)]
fn round_two(r: Registers, input: &[u32; 16]) -> (out: Registers)
    ensures
        out == steps(r, input@, 16, 32),
{
    assert(steps(r, input@, 16, 16) == r);
    let mut a: u32 = r.a;
    let mut b: u32 = r.b;
    let mut c: u32 = r.c;
    let mut d: u32 = r.d;
    a = step_g(a, b, c, d, input[1], 5, 4129170786);
    assert(Registers { a: d, b: a, c: b, d: c } == steps(r, input@, 16, 17));
    d = step_g(d, a, b, c, input[6], 9, 3225465664);
    assert(Registers { a: c, b: d, c: a, d: b } == steps(r, input@, 16, 18));
    c = step_g(c, d, a, b, input[11], 14, 643717713);
    assert(Registers { a: b, b: c, c: d, d: a } == steps(r, input@, 16, 19));
    b = step_g(b, c, d, a, input[0], 20, 3921069994);
    assert(Registers { a, b, c, d } == steps(r, input@, 16, 20));
    a = step_g(a, b, c, d, input[5], 5, 3593408605);
    assert(Registers { a: d, b: a, c: b, d: c } == steps(r, input@, 16, 21));
    d = step_g(d, a, b, c, input[10], 9, 38016083);
    assert(Registers { a: c, b: d, c: a, d: b } == steps(r, input@, 16, 22));
    c = step_g(c, d, a, b, input[15], 14, 3634488961);
    assert(Registers { a: b, b: c, c: d, d: a } == steps(r, input@, 16, 23));
    b = step_g(b, c, d, a, input[4], 20, 3889429448);
    assert(Registers { a, b, c, d } == steps(r, input@, 16, 24));
    a = step_g(a, b, c, d, input[9], 5, 568446438);
    assert(Registers { a: d, b: a, c: b, d: c } == steps(r, input@, 16, 25));
    d = step_g(d, a, b, c, input[14], 9, 3275163606);
    assert(Registers { a: c, b: d, c: a, d: b } == steps(r, input@, 16, 26));
    c = step_g(c, d, a, b, input[3], 14, 4107603335);
    assert(Registers { a: b, b: c, c: d, d: a } == steps(r, input@, 16, 27));
    b = step_g(b, c, d, a, input[8], 20, 1163531501);
    assert(Registers { a, b, c, d } == steps(r, input@, 16, 28));
    a = step_g(a, b, c, d, input[13], 5, 2850285829);
    assert(Registers { a: d, b: a, c: b, d: c } == steps(r, input@, 16, 29));
    d = step_g(d, a, b, c, input[2], 9, 4243563512);
    assert(Registers { a: c, b: d, c: a, d: b } == steps(r, input@, 16, 30));
    c = step_g(c, d, a, b, input[7], 14, 1735328473);
    assert(Registers { a: b, b: c, c: d, d: a } == steps(r, input@, 16, 31));
    b = step_g(b, c, d, a, input[12], 20, 2368359562);
    assert(Registers { a, b, c, d } == steps(r, input@, 16, 32));
    Registers { a, b, c, d }
}

/// The third sixteen steps of the block function.
#[verifier::rlimit(50)]
fn round_three(r: Registers, input: &[u32; 16]) -> (out: Registers)
    ensures
        out == steps(r, input@, 32, 48),
{
    assert(steps(r, input@, 32, 32) == r);
    let mut a: u32 = r.a;
    let mut b: u32 = r.b;
    let mut c: u32 = r.c;
    let mut d: u32 = r.d;
    a = step_h(a, b, c, d, input[5], 4, 4294588738);
    assert(Registers { a: d, b: a, c: b, d: c } == steps(r, input@, 32, 33));
    d = step_h(d, a, b, c, input[8], 11, 2272392833);
    assert(Registers { a: c, b: d, c: a, d: b } == steps(r, input@, 32, 34));
    c = step_h(c, d, a, b, input[11], 16, 1839030562);
    assert(Registers { a: b, b: c, c: d, d: a } == steps(r, input@, 32, 35));
    b = step_h(b, c, d, a, input[14], 23, 4259657740);
    assert(Registers { a, b, c, d } == steps(r, input@, 32, 36));
    a = step_h(a, b, c, d, input[1], 4, 2763975236);
    assert(Registers { a: d, b: a, c: b, d: c } == steps(r, input@, 32, 37));
    d = step_h(d, a, b, c, input[4], 11, 1272893353);
    assert(Registers { a: c, b: d, c: a, d: b } == steps(r, input@, 32, 38));
    c = step_h(c, d, a, b, input[7], 16, 4139469664);
    assert(Registers { a: b, b: c, c: d, d: a } == steps(r, input@, 32, 39));
    b = step_h(b, c, d, a, input[10], 23, 3200236656);
    assert(Registers { a, b, c, d } == steps(r, input@, 32, 40));
    a = step_h(a, b, c, d, input[13], 4, 681279174);
    assert(Registers { a: d, b: a, c: b, d: c } == steps(r, input@, 32, 41));
    d = step_h(d, a, b, c, input[0], 11, 3936430074);
    assert(Registers { a: c, b: d, c: a, d: b } == steps(r, input@, 32, 42));
    c = step_h(c, d, a, b, input[3], 16, 3572445317);
    assert(Registers { a: b, b: c, c: d, d: a } == steps(r, input@, 32, 43));
    b = step_h(b, c, d, a, input[6], 23, 76029189);
    assert(Registers { a, b, c, d } == steps(r, input@, 32, 44));
    a = step_h(a, b, c, d, input[9], 4, 3654602809);
    assert(Registers { a: d, b: a, c: b, d: c } == steps(r, input@, 32, 45));
    d = step_h(d, a, b, c, input[12], 11, 3873151461);
    assert(Registers { a: c, b: d, c: a, d: b } == steps(r, input@, 32, 46));
    c = step_h(c, d, a, b, input[15], 16, 530742520);
    assert(Registers { a: b, b: c, c: d, d: a } == steps(r, input@, 32, 47));
    b = step_h(b, c, d, a, input[2], 23, 3299628645);
    assert(Registers { a, b, c, d } == steps(r, input@, 32, 48));
    Registers { a, b, c, d }
}

/// The fourth sixteen steps of the block function.
#[verifier::rlimit(50)]
fn round_four(r: Registers, input: &[u32; 16]) -> (out: Registers)
    ensures
        out == steps(r, input@, 48, 64),
{
    assert(steps(r, input@, 48, 48) == r);
    let mut a: u32 = r.a;
    let mut b: u32 = r.b;
    let mut c: u32 = r.c;
    let mut d: u32 = r.d;
    a = step_i(a, b, c, d, input[0], 6, 4096336452);
    assert(Registers { a: d, b: a, c: b, d: c } == steps(r, input@, 48, 49));
    d = step_i(d, a, b, c, input[7], 10, 1126891415);
    assert(Registers { a: c, b: d, c: a, d: b } == steps(r, input@, 48, 50));
    c = step_i(c, d, a, b, input[14], 15, 2878612391);
    assert(Registers { a: b, b: c, c: d, d: a } == steps(r, input@, 48, 51));
    b = step_i(b, c, d, a, input[5], 21, 4237533241);
    assert(Registers { a, b, c, d } == steps(r, input@, 48, 52));
    a = step_i(a, b, c, d, input[12], 6, 1700485571);
    assert(Registers { a: d, b: a, c: b, d: c } == steps(r, input@, 48, 53));
    d = step_i(d, a, b, c, input[3], 10, 2399980690);
    assert(Registers { a: c, b: d, c: a, d: b } == steps(r, input@, 48, 54));
    c = step_i(c, d, a, b, input[10], 15, 4293915773);
    assert(Registers { a: b, b: c, c: d, d: a } == steps(r, input@, 48, 55));
    b = step_i(b, c, d, a, input[1], 21, 2240044497);
    assert(Registers { a, b, c, d } == steps(r, input@, 48, 56));
    a = step_i(a, b, c, d, input[8], 6, 1873313359);
    assert(Registers { a: d, b: a, c: b, d: c } == steps(r, input@, 48, 57));
    d = step_i(d, a, b, c, input[15], 10, 4264355552);
    assert(Registers { a: c, b: d, c: a, d: b } == steps(r, input@, 48, 58));
    c = step_i(c, d, a, b, input[6], 15, 2734768916);
    assert(Registers { a: b, b: c, c: d, d: a } == steps(r, input@, 48, 59));
    b = step_i(b, c, d, a, input[13], 21, 1309151649);
    assert(Registers { a, b, c, d } == steps(r, input@, 48, 60));
    a = step_i(a, b, c, d, input[4], 6, 4149444226);
    assert(Registers { a: d, b: a, c: b, d: c } == steps(r, input@, 48, 61));
    d = step_i(d, a, b, c, input[11], 10, 3174756917);
    assert(Registers { a: c, b: d, c: a, d: b } == steps(r, input@, 48, 62));
    c = step_i(c, d, a, b, input[2], 15, 718787259);
    assert(Registers { a: b, b: c, c: d, d: a } == steps(r, input@, 48, 63));
    b = step_i(b, c, d, a, input[9], 21, 3951481745);
    assert(Registers { a, b, c, d } == steps(r, input@, 48, 64));
    Registers { a, b, c, d }
}

/// Runs the block function on `state` with the sixteen words of `input`.
pub fn transform(state: &mut [u32; 4], input: &[u32; 16])
    ensures
        final(state)@ == md5_transform(old(state)@, input@),
{
    reveal(md5_transform);
    let start = Registers { a: state[0], b: state[1], c: state[2], d: state[3] };
    let r1 = round_one(start, input);
    let r2 = round_two(r1, input);
    let r3 = round_three(r2, input);
    let r4 = round_four(r3, input);
    proof {
        lemma_steps_split(start, input@, 0, 16, 32);
        lemma_steps_split(start, input@, 0, 32, 48);
        lemma_steps_split(start, input@, 0, 48, 64);
    }
    state[0] = state[0].wrapping_add(r4.a);
    state[1] = state[1].wrapping_add(r4.b);
    state[2] = state[2].wrapping_add(r4.c);
    state[3] = state[3].wrapping_add(r4.d);
    assert(state@ =~= md5_transform(old(state)@, input@));
}

/// The state that a fresh context starts from.
pub open spec fn initial_state() -> Seq<u32> {
    seq![0x67452301u32, 0xefcdab89, 0x98badcfe, 0x10325476]
}

/// The 32-bit word that the four bytes from `at` on spell, lowest byte first.
pub open spec fn le_word(bytes: Seq<u8>, at: int) -> u32 {
    (bytes[at] + 0x100 * bytes[at + 1] + 0x1_0000 * bytes[at + 2] + 0x100_0000 * bytes[at + 3]) as u32
}

/// The sixteen words of a 64-byte block.
pub open spec fn block_words(block: Seq<u8>) -> Seq<u32> {
    Seq::new(16, |j: int| le_word(block, 4 * j))
}

/// The state after the block function has run on each full 64-byte block of
/// `data` in turn. Bytes behind the last full block do not count.
pub open spec fn md5_blocks(state: Seq<u32>, data: Seq<u8>) -> Seq<u32>
    decreases data.len(),
{
    let n = data.len() as int / 64;
    if n <= 0 {
        state
    } else {
        md5_transform(
            md5_blocks(state, data.take(64 * (n - 1))),
            block_words(data.subrange(64 * (n - 1), 64 * n)),
        )
    }
}

/// The bytes behind the last full 64-byte block of `data`.
pub open spec fn trailing(data: Seq<u8>) -> Seq<u8> {
    data.skip(64 * (data.len() as int / 64))
}

/// Only the full blocks of `data` matter to `md5_blocks`.
pub proof fn lemma_blocks_ignore_trailing(state: Seq<u32>, data: Seq<u8>)
    ensures
        md5_blocks(state, data) == md5_blocks(state, data.take(64 * (data.len() as int / 64))),
{
    let n = data.len() as int / 64;
    let whole = data.take(64 * n);
    if n > 0 {
        assert(whole.take(64 * (n - 1)) =~= data.take(64 * (n - 1)));
        assert(whole.subrange(64 * (n - 1), 64 * n) =~= data.subrange(64 * (n - 1), 64 * n));
    }
}

/// Two streams with the same full blocks give the same state.
pub proof fn lemma_blocks_same_prefix(state: Seq<u32>, x: Seq<u8>, y: Seq<u8>)
    requires
        x.len() / 64 == y.len() / 64,
        x.take(64 * (x.len() as int / 64)) == y.take(64 * (x.len() as int / 64)),
    ensures
        md5_blocks(state, x) == md5_blocks(state, y),
{
    lemma_blocks_ignore_trailing(state, x);
    lemma_blocks_ignore_trailing(state, y);
}

/// Feeding `x`, a whole number of blocks, and then `y` is feeding `x + y`.
pub proof fn lemma_blocks_concat(state: Seq<u32>, x: Seq<u8>, y: Seq<u8>)
    requires
        x.len() % 64 == 0,
    ensures
        md5_blocks(state, x + y) == md5_blocks(md5_blocks(state, x), y),
    decreases y.len(),
{
    let n = y.len() as int / 64;
    let m = x.len() as int / 64;
    let xy = x + y;
    assert(xy.len() as int / 64 == m + n);
    if n <= 0 {
        assert(xy.take(64 * m) =~= x);
        lemma_blocks_ignore_trailing(state, xy);
    } else {
        let shorter = y.take(64 * (n - 1));
        lemma_blocks_concat(state, x, shorter);
        assert(xy.take(64 * (m + n - 1)) =~= x + shorter);
        assert(xy.subrange(64 * (m + n - 1), 64 * (m + n)) =~= y.subrange(64 * (n - 1), 64 * n));
    }
}

/// What a context stands for: the state words, the bytes of the block that
/// is not full yet, and the number of bits consumed so far, modulo `2^64`.
/// What the buffer holds behind the pending bytes is no part of it;
/// `buffer_after` says what every byte of the buffer is.
pub struct ContextView {
    pub state: Seq<u32>,
    pub pending: Seq<u8>,
    pub bits: nat,
}

impl ContextView {
    /// What holds of the view of every context.
    pub open spec fn wf(self) -> bool {
        &&& self.state.len() == 4
        &&& self.bits < 0x1_0000_0000_0000_0000
        &&& self.pending.len() == (self.bits / 8) % 64
    }
}

/// The view of a context that has consumed nothing.
pub open spec fn fresh_view() -> ContextView {
    ContextView { state: initial_state(), pending: Seq::empty(), bits: 0 }
}

/// The view after `data` has been consumed from view `v`: the block function
/// has run on every block that became full, and the rest is pending.
#[verifier::opaque]
pub open spec fn absorb(v: ContextView, data: Seq<u8>) -> ContextView {
    ContextView {
        state: md5_blocks(v.state, v.pending + data),
        pending: trailing(v.pending + data),
        bits: ((v.bits + 8 * data.len()) % 0x1_0000_0000_0000_0000) as nat,
    }
}

/// What consuming does to each part of the view: the state has gone
/// through every block that became full, the rest is pending, and the bit
/// count has grown by eight for each byte, modulo `2^64`.
pub proof fn lemma_absorb_parts(v: ContextView, data: Seq<u8>)
    ensures
        absorb(v, data).state == md5_blocks(v.state, v.pending + data),
        absorb(v, data).pending == trailing(v.pending + data),
        absorb(v, data).bits == (v.bits + 8 * data.len()) % 0x1_0000_0000_0000_0000,
{
    reveal(absorb);
}

/// Consuming nothing changes nothing.
pub proof fn lemma_absorb_nothing(v: ContextView)
    requires
        v.wf(),
    ensures
        absorb(v, Seq::empty()) == v,
{
    reveal(absorb);
    assert(v.pending + Seq::<u8>::empty() =~= v.pending);
    assert(trailing(v.pending) =~= v.pending);
}

/// Consuming keeps a view well formed.
pub proof fn lemma_absorb_wf(v: ContextView, data: Seq<u8>)
    requires
        v.wf(),
    ensures
        absorb(v, data).wf(),
{
    reveal(absorb);
    lemma_blocks_len(v.state, v.pending + data);
    lemma_pending_len(v.bits as int, data.len() as int);
    let stream = v.pending + data;
    assert(trailing(stream).len() == stream.len() % 64);
}

/// The byte count in the open block follows the bit count: eight bits a
/// byte, sixty-four bytes a block, and `2^64` is a whole number of blocks.
proof fn lemma_pending_len(bits: int, n: int)
    requires
        0 <= bits,
        0 <= n,
    ensures
        (((bits + 8 * n) % 0x1_0000_0000_0000_0000) / 8) % 64 == ((bits / 8) % 64 + n) % 64,
{
    let m = 0x1_0000_0000_0000_0000int;
    let c = (bits + 8 * n) / m;
    let after = (bits + 8 * n) % m;
    assert(after == bits + 8 * (n - c * 0x2000_0000_0000_0000));
    assert(after / 8 == bits / 8 + n - c * 0x2000_0000_0000_0000);
    let k = (bits / 8) / 64;
    assert(after / 8 == (bits / 8) % 64 + n + 64 * (k - c * 0x80_0000_0000_0000));
}

/// The block function keeps the state at four words.
pub proof fn lemma_blocks_len(state: Seq<u32>, data: Seq<u8>)
    requires
        state.len() == 4,
    ensures
        md5_blocks(state, data).len() == 4,
    decreases data.len(),
{
    reveal(md5_transform);
    let n = data.len() as int / 64;
    if n > 0 {
        lemma_blocks_len(state, data.take(64 * (n - 1)));
    }
}

/// Data may be fed in one piece or split at any point: consuming `a` and
/// then `b` leaves the context as consuming `a + b` does.
pub proof fn lemma_absorb_concat(v: ContextView, a: Seq<u8>, b: Seq<u8>)
    requires
        v.wf(),
    ensures
        absorb(absorb(v, a), b) == absorb(v, a + b),
{
    reveal(absorb);
    let first = v.pending + a;
    let q = first.len() as int / 64;
    let whole = first.take(64 * q);
    let rest = trailing(first);
    let second = rest + b;
    let all = v.pending + (a + b);
    assert(all =~= whole + second);
    assert(md5_blocks(md5_blocks(v.state, first), second) == md5_blocks(v.state, all)) by {
        lemma_blocks_concat(v.state, whole, second);
        lemma_blocks_ignore_trailing(v.state, first);
    }
    assert(trailing(second) == trailing(all)) by {
        let p = second.len() as int / 64;
        assert(all.len() == 64 * q + second.len());
        assert(all.len() as int / 64 == q + p);
        assert(second.skip(64 * p) =~= all.skip(64 * (q + p)));
    }
    assert(absorb(absorb(v, a), b).bits == absorb(v, a + b).bits) by {
        let m = 0x1_0000_0000_0000_0000int;
        let x = v.bits as int + 8 * a.len() as int;
        let y = 8 * b.len() as int;
        assert(((x % m) + y) % m == (x + y) % m) by {
            vstd::arithmetic::div_mod::lemma_add_mod_noop(x, y, m);
            vstd::arithmetic::div_mod::lemma_add_mod_noop(x % m, y, m);
            vstd::arithmetic::div_mod::lemma_mod_twice(x, m);
        }
        assert((a + b).len() == a.len() + b.len());
    }
}

/// The pieces of `chunks`, one after the other, as one stream.
pub open spec fn joined(chunks: Seq<Seq<u8>>) -> Seq<u8>
    decreases chunks.len(),
{
    if chunks.len() == 0 {
        Seq::empty()
    } else {
        joined(chunks.drop_last()) + chunks.last()
    }
}

/// The view after each piece of `chunks` has been consumed in turn.
pub open spec fn absorb_each(v: ContextView, chunks: Seq<Seq<u8>>) -> ContextView
    decreases chunks.len(),
{
    if chunks.len() == 0 {
        v
    } else {
        absorb(absorb_each(v, chunks.drop_last()), chunks.last())
    }
}

/// However a stream is cut into pieces, consuming the pieces in turn
/// leaves the context as consuming the whole stream at once does.
pub proof fn lemma_absorb_each(v: ContextView, chunks: Seq<Seq<u8>>)
    requires
        v.wf(),
    ensures
        absorb_each(v, chunks) == absorb(v, joined(chunks)),
    decreases chunks.len(),
{
    if chunks.len() == 0 {
        lemma_absorb_nothing(v);
    } else {
        lemma_absorb_each(v, chunks.drop_last());
        lemma_absorb_concat(v, joined(chunks.drop_last()), chunks.last());
    }
}

/// The buffer after `data` has been written into it byte by byte, the
/// first byte at place `pending`, each next byte one place on, and from the
/// last place on to the first. Places that no byte reaches keep what they
/// held.
pub open spec fn buffer_after(buffer: Seq<u8>, pending: int, data: Seq<u8>) -> Seq<u8>
    decreases data.len(),
{
    if data.len() == 0 {
        buffer
    } else {
        buffer_after(buffer, pending, data.drop_last()).update(
            (pending + data.len() - 1) % 64,
            data.last(),
        )
    }
}

/// Writing keeps the buffer at its length.
pub proof fn lemma_buffer_after_len(buffer: Seq<u8>, pending: int, data: Seq<u8>)
    requires
        buffer.len() == 64,
    ensures
        buffer_after(buffer, pending, data).len() == 64,
    decreases data.len(),
{
    if data.len() > 0 {
        lemma_buffer_after_len(buffer, pending, data.drop_last());
    }
}

/// Writing `a` and then `b` where `a` ended leaves the buffer as writing
/// `a + b` does.
pub proof fn lemma_buffer_after_concat(buffer: Seq<u8>, pending: int, a: Seq<u8>, b: Seq<u8>)
    requires
        0 <= pending,
    ensures
        buffer_after(buffer_after(buffer, pending, a), (pending + a.len()) % 64, b)
            == buffer_after(buffer, pending, a + b),
    decreases b.len(),
{
    if b.len() == 0 {
        assert(a + b =~= a);
    } else {
        lemma_buffer_after_concat(buffer, pending, a, b.drop_last());
        assert((a + b).drop_last() =~= a + b.drop_last());
        assert((a + b).last() == b.last());
        assert(((pending + a.len()) % 64 + b.len() - 1) % 64 == (pending + (a + b).len() - 1) % 64)
            by {
            let k = pending + a.len();
            assert((k % 64 + (b.len() - 1)) % 64 == (k + (b.len() - 1)) % 64) by {
                vstd::arithmetic::div_mod::lemma_add_mod_noop(k, b.len() - 1, 64);
                vstd::arithmetic::div_mod::lemma_add_mod_noop(k % 64, b.len() - 1, 64);
                vstd::arithmetic::div_mod::lemma_mod_twice(k, 64);
            }
        }
    }
}

/// A streaming context: bytes go in, in pieces of any size, and the state
/// words can be read at any time.
///
/// Every value of the fields stands for a context, so all three are open
/// to read and to set.
pub struct Context {
    /// The block that is being filled. Only its first bytes count, as many
    /// as the bit count says are pending.
    pub buffer: [u8; 64],
    /// The number of bits consumed so far, modulo `2^64`: the low word,
    /// then the high word.
    pub count: [u32; 2],
    /// The four state words.
    pub state: [u32; 4],
}

impl Clone for Context {
    fn clone(&self) -> (copy: Self)
        ensures
            copy == *self,
            copy@ == self@,
    {
        Context { buffer: self.buffer, count: self.count, state: self.state }
    }
}

impl View for Context {
    type V = ContextView;

    closed spec fn view(&self) -> ContextView {
        let bits = self.count@[0] + 0x1_0000_0000 * self.count@[1];
        ContextView {
            state: self.state@,
            pending: self.buffer@.take((bits / 8) % 64),
            bits: bits as nat,
        }
    }
}

/// The longest piece that the bit counter takes in one update.
pub const MAX_CHUNK: usize = 0xffff_ffff;

impl Context {
    /// The view of every context is well formed.
    pub proof fn lemma_view(&self)
        ensures
            self@.wf(),
    {
    }

    /// How the view reads the fields: the state is the field `state`, the
    /// bit count is the two words of `count`, and the pending bytes are the
    /// first bytes of `buffer`.
    pub proof fn lemma_view_fields(&self)
        ensures
            self@.state == self.state@,
            self@.bits == self.count@[0] + 0x1_0000_0000 * self.count@[1],
            self@.pending == self.buffer@.take(((self@.bits / 8) % 64) as int),
    {
    }

    /// The four state words as they stand, with no finalisation applied.
    pub fn state(&self) -> (words: [u32; 4])
        ensures
            words@ == self@.state,
    {
        self.state
    }

    /// A context that has consumed nothing: the state words are the
    /// initial ones, the bit count is zero, and the buffer holds 64 zero
    /// bytes, none of them pending.
    pub fn new() -> (ctx: Context)
        ensures
            ctx@ == fresh_view(),
            ctx.state@ == initial_state(),
            ctx.count@ == seq![0u32, 0u32],
            ctx.buffer@ == Seq::new(64, |i: int| 0u8),
    {
        let ctx = Context {
            buffer: [0u8; 64],
            count: [0u32, 0u32],
            state: [0x67452301u32, 0xefcdab89u32, 0x98badcfeu32, 0x10325476u32],
        };
        assert(ctx.state@ =~= initial_state());
        assert(ctx.count@ =~= seq![0u32, 0u32]);
        assert(ctx.buffer@ =~= Seq::new(64, |i: int| 0u8));
        assert(ctx.buffer@.take(0) =~= Seq::<u8>::empty());
        ctx
    }

    /// Consume data.
    ///
    /// Every block of 64 bytes that becomes full goes through the block
    /// function; what is left stays pending for the next call.
    pub fn consume(&mut self, data: &[u8])
        ensures
            final(self)@ == absorb(old(self)@, data@),
            final(self).state@ == final(self)@.state,
            final(self).buffer@ == buffer_after(
                old(self).buffer@,
                old(self)@.pending.len() as int,
                data@,
            ),
    {
        let total: usize = data.len();
        let mut start: usize = 0;
        let ghost held = self@.pending.len() as int;
        proof {
            self.lemma_view();
            lemma_absorb_nothing(self@);
            assert(data@.take(0) =~= Seq::<u8>::empty());
        }
        while start < total
            invariant
                start <= total,
                total == data@.len(),
                held == old(self)@.pending.len(),
                self@ == absorb(old(self)@, data@.take(start as int)),
                self.buffer@ == buffer_after(old(self).buffer@, held, data@.take(start as int)),
            decreases total - start,
        {
            let len: usize = if total - start > MAX_CHUNK {
                MAX_CHUNK
            } else {
                total - start
            };
            let chunk = vstd::slice::slice_subrange(data, start, start + len);
            proof {
                let fed = data@.take(start as int);
                old(self).lemma_view();
                lemma_absorb_concat(old(self)@, fed, chunk@);
                assert(fed + chunk@ =~= data@.take(start + len));
                lemma_absorb_parts(old(self)@, fed);
                assert(self@.pending.len() == (held + fed.len()) % 64);
                lemma_buffer_after_concat(old(self).buffer@, held, fed, chunk@);
            }
            consume(self, chunk);
            start += len;
        }
        assert(data@.take(total as int) =~= data@);
    }
}

/// Consumes one piece of at most `MAX_CHUNK` bytes.
#[verifier::rlimit(50)]
fn consume(ctx: &mut Context, data: &[u8])
    requires
        data@.len() <= MAX_CHUNK,
    ensures
        final(ctx)@ == absorb(old(ctx)@, data@),
        final(ctx).buffer@ == buffer_after(old(ctx).buffer@, old(ctx)@.pending.len() as int, data@),
{
    let mut input: [u32; 16] = [0u32; 16];
    let mut k: usize = ((ctx.count[0] >> 3) & 0x3f) as usize;
    let length: u32 = data.len() as u32;
    let ghost before = ctx@;
    let ghost c0 = ctx.count@[0];
    let ghost c1 = ctx.count@[1];
    proof {
        assert(((c0 >> 3) & 0x3f) == (c0 / 8) % 64) by (bit_vector);
        assert(k == before.pending.len());
    }
    ctx.count[0] = ctx.count[0].wrapping_add(length << 3);
    if ctx.count[0] < length << 3 {
        ctx.count[1] = ctx.count[1].wrapping_add(1);
    }
    ctx.count[1] = ctx.count[1].wrapping_add(length >> 29);
    proof {
        let low = length << 3;
        let high = length >> 29;
        assert(low + 0x1_0000_0000 * high == 8 * length) by (bit_vector)
            requires
                low == length << 3,
                high == length >> 29,
        ;
        assert(ctx.count@[0] + 0x1_0000_0000 * ctx.count@[1] == (c0 + 0x1_0000_0000 * c1 + 8
            * length) % 0x1_0000_0000_0000_0000);
    }
    let ghost counted = ctx.count;
    let ghost found = ctx.buffer@;
    proof {
        lemma_pending_len(before.bits as int, data@.len() as int);
        lemma_absorb_nothing(before);
        assert(data@.take(0) =~= Seq::<u8>::empty());
    }
    let mut i: usize = 0;
    while i < data.len()
        invariant
            i <= data@.len(),
            before.wf(),
            ctx.count == counted,
            k == (before.pending + data@.take(i as int)).len() % 64,
            ctx.state@ == md5_blocks(before.state, before.pending + data@.take(i as int)),
            ctx.buffer@.take(k as int) == trailing(before.pending + data@.take(i as int)),
            ctx.buffer@ == buffer_after(found, before.pending.len() as int, data@.take(i as int)),
        decreases data@.len() - i,
    {
        let ghost stream = before.pending + data@.take(i as int);
        let ghost longer = before.pending + data@.take(i + 1);
        let ghost n = stream.len() as int / 64;
        proof {
            assert(longer =~= stream.push(data@[i as int]));
            assert(longer.take(64 * n) =~= stream.take(64 * n));
            assert(data@.take(i + 1).drop_last() =~= data@.take(i as int));
        }
        let ghost held = ctx.buffer@.take(k as int);
        ctx.buffer[k] = data[i];
        k += 1;
        proof {
            assert(held.len() == stream.len() - 64 * n);
            assert(ctx.buffer@.take(k as int) =~= held.push(data@[i as int]));
            assert(longer.skip(64 * n) =~= stream.skip(64 * n).push(data@[i as int]));
            assert(ctx.buffer@ == buffer_after(
                found,
                before.pending.len() as int,
                data@.take(i + 1),
            ));
        }
        if k == 0x40 {
            let mut j: usize = 0;
            let mut w: usize = 0;
            while w < 16
                invariant
                    w <= 16,
                    j == 4 * w,
                    forall|t: int| 0 <= t < w ==> #[trigger] input@[t] == le_word(ctx.buffer@, 4 * t),
                decreases 16 - w,
            {
                let b0: u8 = ctx.buffer[j];
                let b1: u8 = ctx.buffer[j + 1];
                let b2: u8 = ctx.buffer[j + 2];
                let b3: u8 = ctx.buffer[j + 3];
                let word: u32 = ((b3 as u32) << 24) | ((b2 as u32) << 16) | ((b1 as u32) << 8) | (
                b0 as u32);
                assert(word == b0 + 0x100 * b1 + 0x1_0000 * b2 + 0x100_0000 * b3) by (bit_vector)
                    requires
                        word == ((b3 as u32) << 24) | ((b2 as u32) << 16) | ((b1 as u32) << 8) | (
                        b0 as u32),
                ;
                input[w] = word;
                j += 4;
                w += 1;
            }
            proof {
                assert(input@ =~= block_words(ctx.buffer@));
                assert(ctx.buffer@ =~= longer.subrange(64 * n, 64 * (n + 1)));
                lemma_blocks_ignore_trailing(before.state, stream);
            }
            transform(&mut ctx.state, &input);
            k = 0;
            assert(ctx.buffer@.take(0) =~= trailing(longer));
        } else {
            proof {
                lemma_blocks_same_prefix(before.state, stream, longer);
            }
        }
        i += 1;
    }
    proof {
        reveal(absorb);
        assert(data@.take(i as int) =~= data@);
    }
}

} // verus!
