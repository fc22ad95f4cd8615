//! The MD4 digest: padding, block parsing, the three-round compression
//! function and the accumulation of the registers across blocks.
#![allow(non_snake_case)]

use vstd::prelude::*;

verus! {

/// `if x then y else z`, bit by bit.
pub open spec fn sel(x: u32, y: u32, z: u32) -> u32 {
    (x & y) | (!x & z)
}

/// Bitwise majority of three words.
pub open spec fn maj(x: u32, y: u32, z: u32) -> u32 {
    (x & y) | (x & z) | (y & z)
}

/// Bitwise parity of three words.
pub open spec fn parity(x: u32, y: u32, z: u32) -> u32 {
    x ^ y ^ z
}

/// Round-one nonlinear function: selects `Y` where `X` is set, `Z` elsewhere.
pub fn F(X: u32, Y: u32, Z: u32) -> (r: u32)
    ensures
        r == sel(X, Y, Z),
{
    (X & Y) | (!X & Z)
}

/// Round-two nonlinear function: bitwise majority.
pub fn G(X: u32, Y: u32, Z: u32) -> (r: u32)
    ensures
        r == maj(X, Y, Z),
{
    (X & Y) | (X & Z) | (Y & Z)
}

/// Round-three nonlinear function: bitwise parity.
pub fn H(X: u32, Y: u32, Z: u32) -> (r: u32)
    ensures
        r == parity(X, Y, Z),
{
    X ^ Y ^ Z
}

/// Initial value of register A.
pub const A: u32 = 0x67452301;

/// Initial value of register B.
pub const B: u32 = 0xefcdab89;

/// Initial value of register C.
pub const C: u32 = 0x98badcfe;

/// Initial value of register D.
pub const D: u32 = 0x10325476;

/// Round-two additive constant.
pub const ROUND2_K: u32 = 0x5A827999;

/// Round-three additive constant.
pub const ROUND3_K: u32 = 0x6ED9EBA1;

/// Addition modulo 2^32.
pub open spec fn add32(a: u32, b: u32) -> u32 {
    ((a + b) % 0x1_0000_0000) as u32
}

/// Circular left rotation of a 32-bit word by `s` positions (taken modulo 32).
pub open spec fn rotl(x: u32, s: u32) -> u32 {
    let r = s % 32;
    if r == 0 {
        x
    } else {
        (x << r) | (x >> ((32 - r) as u32))
    }
}

/// One round-one step: `rotl(a + F(b, c, d) + w, s)`.
pub open spec fn step1(a: u32, b: u32, c: u32, d: u32, w: u32, s: u8) -> u32 {
    rotl(add32(add32(a, sel(b, c, d)), w), s as u32)
}

/// One round-two step: `rotl(a + G(b, c, d) + w + K2, s)`.
pub open spec fn step2(a: u32, b: u32, c: u32, d: u32, w: u32, s: u8) -> u32 {
    rotl(add32(add32(add32(a, maj(b, c, d)), w), ROUND2_K), s as u32)
}

/// One round-three step: `rotl(a + H(b, c, d) + w + K3, s)`.
pub open spec fn step3(a: u32, b: u32, c: u32, d: u32, w: u32, s: u8) -> u32 {
    rotl(add32(add32(add32(a, parity(b, c, d)), w), ROUND3_K), s as u32)
}

/// Addition modulo 2^32.
fn add_mod32(a: u32, b: u32) -> (r: u32)
    ensures
        r == add32(a, b),
{
    a.wrapping_add(b)
}

/// Circular left rotation by `s` positions, taken modulo 32.
fn rotate_left(x: u32, s: u32) -> (r: u32)
    ensures
        r == rotl(x, s),
{
    let r = s % 32;
    if r == 0 {
        x
    } else {
        (x << r) | (x >> (32 - r))
    }
}

/// Round-one step function.
pub fn T1(a: u32, b: u32, c: u32, d: u32, word: u32, s: u8) -> (r: u32)
    ensures
        r == step1(a, b, c, d, word, s),
{
    rotate_left(add_mod32(add_mod32(a, F(b, c, d)), word), s as u32)
}

/// Round-two step function.
pub fn T2(a: u32, b: u32, c: u32, d: u32, word: u32, s: u8) -> (r: u32)
    ensures
        r == step2(a, b, c, d, word, s),
{
    rotate_left(add_mod32(add_mod32(add_mod32(a, G(b, c, d)), word), ROUND2_K), s as u32)
}

/// Round-three step function.
pub fn T3(a: u32, b: u32, c: u32, d: u32, word: u32, s: u8) -> (r: u32)
    ensures
        r == step3(a, b, c, d, word, s),
{
    rotate_left(add_mod32(add_mod32(add_mod32(a, H(b, c, d)), word), ROUND3_K), s as u32)
}

/// Number of zero bytes that follow the `0x80` marker for a message of
/// `size` bytes, so that `size + 1 + k` is 56 modulo 64.
pub open spec fn zero_fill(size: nat) -> nat {
    let r = size % 64;
    if r < 56 {
        (55 - r) as nat
    } else {
        (119 - r) as nat
    }
}

/// Padding for a message of `size` bytes: `0x80` followed by `zero_fill(size)` zeros.
pub open spec fn padding(size: nat) -> Seq<u8> {
    seq![0x80u8] + Seq::new(zero_fill(size), |i: int| 0u8)
}

/// The `n` low bytes of `x`, least significant first.
pub open spec fn le_bytes(x: nat, n: nat) -> Seq<u8>
    decreases n,
{
    if n == 0 {
        Seq::empty()
    } else {
        seq![(x % 256) as u8] + le_bytes(x / 256, (n - 1) as nat)
    }
}

/// Padding bytes for a message of `size` bytes.
pub fn pad(size: usize) -> (r: Vec<u8>)
    ensures
        r@ == padding(size as nat),
        1 <= r@.len() <= 64,
        r@[0] == 0x80u8,
        forall|i: int| 1 <= i < r@.len() ==> r@[i] == 0u8,
        (size + r@.len() + 8) % 64 == 0,
{
    let last = size % 64;
    let zeros: usize = if last < 56 {
        55 - last
    } else {
        63 - (last - 56)
    };
    let mut v: Vec<u8> = Vec::new();
    v.push(0x80u8);
    let mut i: usize = 0;
    while i < zeros
        invariant
            i <= zeros,
            zeros == zero_fill(size as nat),
            v@ == seq![0x80u8] + Seq::new(i as nat, |j: int| 0u8),
        decreases zeros - i,
    {
        v.push(0u8);
        i = i + 1;
        assert(v@ =~= seq![0x80u8] + Seq::new(i as nat, |j: int| 0u8));
    }
    v
}

/// The `n` low bytes of `x`, least significant first.
fn le_encode(x: u64, n: usize) -> (r: Vec<u8>)
    ensures
        r@ == le_bytes(x as nat, n as nat),
        r@.len() == n,
{
    let mut v: Vec<u8> = Vec::new();
    let mut rest: u64 = x;
    let mut i: usize = 0;
    while i < n
        invariant
            i <= n,
            v@.len() == i,
            v@ + le_bytes(rest as nat, (n - i) as nat) == le_bytes(x as nat, n as nat),
        decreases n - i,
    {
        let byte = (rest & 0xff) as u8;
        let next = rest >> 8;
        assert(rest & 0xff == rest % 256 && rest >> 8 == rest / 256) by (bit_vector);
        assert(le_bytes(rest as nat, (n - i) as nat) =~= seq![byte] + le_bytes(
            next as nat,
            (n - i - 1) as nat,
        ));
        v.push(byte);
        rest = next;
        i = i + 1;
        assert(v@ + le_bytes(rest as nat, (n - i) as nat) =~= le_bytes(x as nat, n as nat));
    }
    v
}

/// Eight-byte little-endian encoding of a bit length.
pub fn append_size(dword: u64) -> (r: Vec<u8>)
    ensures
        r@ == le_bytes(dword as nat, 8),
        r@.len() == 8,
{
    le_encode(dword, 8)
}

/// `le_bytes(x, n)` has `n` bytes.
pub proof fn lemma_le_bytes_len(x: nat, n: nat)
    ensures
        le_bytes(x, n).len() == n,
    decreases n,
{
    if n > 0 {
        lemma_le_bytes_len(x / 256, (n - 1) as nat);
    }
}

/// Four registers, in the order A, B, C, D.
pub type Regs = (u32, u32, u32, u32);

/// Message-word index used at step `i` (0 to 15) of round `r` (0 to 2).
pub open spec fn word_index(r: int, i: int) -> int {
    if r == 0 {
        i
    } else if r == 1 {
        seq![0int, 4, 8, 12, 1, 5, 9, 13, 2, 6, 10, 14, 3, 7, 11, 15][i]
    } else {
        seq![0int, 8, 4, 12, 2, 10, 6, 14, 1, 9, 5, 13, 3, 11, 7, 15][i]
    }
}

/// Rotation amount used at step `i` of round `r`.
pub open spec fn shift_amount(r: int, i: int) -> u8 {
    if r == 0 {
        seq![3u8, 7, 11, 19][i % 4]
    } else if r == 1 {
        seq![3u8, 5, 9, 13][i % 4]
    } else {
        seq![3u8, 9, 11, 15][i % 4]
    }
}

/// The step function of round `r`.
pub open spec fn step(r: int, a: u32, b: u32, c: u32, d: u32, w: u32, s: u8) -> u32 {
    if r == 0 {
        step1(a, b, c, d, w, s)
    } else if r == 1 {
        step2(a, b, c, d, w, s)
    } else {
        step3(a, b, c, d, w, s)
    }
}

/// Step `i` of round `r` on the registers `st`: the roles (a, b, c, d) turn
/// by one register at each step, and only the register in role `a` is written.
pub open spec fn apply_step(r: int, st: Regs, x: Seq<u32>, i: int) -> Regs {
    let (a, b, c, d) = st;
    let w = x[word_index(r, i)];
    let s = shift_amount(r, i);
    if i % 4 == 0 {
        (step(r, a, b, c, d, w, s), b, c, d)
    } else if i % 4 == 1 {
        (a, b, c, step(r, d, a, b, c, w, s))
    } else if i % 4 == 2 {
        (a, b, step(r, c, d, a, b, w, s), d)
    } else {
        (a, step(r, b, c, d, a, w, s), c, d)
    }
}

/// The registers after the first `n` steps of round `r` on block `x`.
pub open spec fn round_prefix(r: int, st: Regs, x: Seq<u32>, n: nat) -> Regs
    decreases n,
{
    if n == 0 {
        st
    } else {
        apply_step(r, round_prefix(r, st, x, (n - 1) as nat), x, n - 1)
    }
}

/// The registers after all sixteen steps of round `r` on block `x`.
pub open spec fn round(r: int, st: Regs, x: Seq<u32>) -> Regs {
    round_prefix(r, st, x, 16)
}

/// The three rounds on one block, without the final addition.
pub open spec fn compress(st: Regs, x: Seq<u32>) -> Regs {
    round(2, round(1, round(0, st, x), x), x)
}

/// Round one on `block`: sixteen applications of `T1`.
pub fn round1(a: u32, b: u32, c: u32, d: u32, block: &[u32]) -> (r: Regs)
    requires
        block@.len() == 16,
    ensures
        r == round(0, (a, b, c, d), block@),
{
    let shifts: [u8; 4] = [3, 7, 11, 19];
    let (mut a, mut b, mut c, mut d) = (a, b, c, d);
    let ghost start = (a, b, c, d);
    let mut i: usize = 0;
    while i < 16
        invariant
            i <= 16,
            block@.len() == 16,
            shifts@ == seq![3u8, 7, 11, 19],
            (a, b, c, d) == round_prefix(0, start, block@, i as nat),
        decreases 16 - i,
    {
        let w = block[i];
        let s = shifts[i % 4];
        if i % 4 == 0 {
            a = T1(a, b, c, d, w, s);
        } else if i % 4 == 1 {
            d = T1(d, a, b, c, w, s);
        } else if i % 4 == 2 {
            c = T1(c, d, a, b, w, s);
        } else {
            b = T1(b, c, d, a, w, s);
        }
        i = i + 1;
    }
    (a, b, c, d)
}

/// Round two on `block`: sixteen applications of `T2`, taking the message
/// words in the order of `word_index(1, _)`.
pub fn round2(a: u32, b: u32, c: u32, d: u32, block: &[u32]) -> (r: Regs)
    requires
        block@.len() == 16,
    ensures
        r == round(1, (a, b, c, d), block@),
{
    let order: [usize; 16] = [0, 4, 8, 12, 1, 5, 9, 13, 2, 6, 10, 14, 3, 7, 11, 15];
    let shifts: [u8; 4] = [3, 5, 9, 13];
    let (mut a, mut b, mut c, mut d) = (a, b, c, d);
    let ghost start = (a, b, c, d);
    let mut i: usize = 0;
    while i < 16
        invariant
            i <= 16,
            block@.len() == 16,
            shifts@ == seq![3u8, 5, 9, 13],
            order@ =~= seq![0, 4, 8, 12, 1, 5, 9, 13, 2, 6, 10, 14, 3, 7, 11, 15],
            (a, b, c, d) == round_prefix(1, start, block@, i as nat),
        decreases 16 - i,
    {
        let w = block[order[i]];
        let s = shifts[i % 4];
        if i % 4 == 0 {
            a = T2(a, b, c, d, w, s);
        } else if i % 4 == 1 {
            d = T2(d, a, b, c, w, s);
        } else if i % 4 == 2 {
            c = T2(c, d, a, b, w, s);
        } else {
            b = T2(b, c, d, a, w, s);
        }
        i = i + 1;
    }
    (a, b, c, d)
}

/// Round three on `block`: sixteen applications of `T3`, taking the message
/// words in the order of `word_index(2, _)`.
pub fn round3(a: u32, b: u32, c: u32, d: u32, block: &[u32]) -> (r: Regs)
    requires
        block@.len() == 16,
    ensures
        r == round(2, (a, b, c, d), block@),
{
    let order: [usize; 16] = [0, 8, 4, 12, 2, 10, 6, 14, 1, 9, 5, 13, 3, 11, 7, 15];
    let shifts: [u8; 4] = [3, 9, 11, 15];
    let (mut a, mut b, mut c, mut d) = (a, b, c, d);
    let ghost start = (a, b, c, d);
    let mut i: usize = 0;
    while i < 16
        invariant
            i <= 16,
            block@.len() == 16,
            shifts@ == seq![3u8, 9, 11, 15],
            order@ =~= seq![0, 8, 4, 12, 2, 10, 6, 14, 1, 9, 5, 13, 3, 11, 7, 15],
            (a, b, c, d) == round_prefix(2, start, block@, i as nat),
        decreases 16 - i,
    {
        let w = block[order[i]];
        let s = shifts[i % 4];
        if i % 4 == 0 {
            a = T3(a, b, c, d, w, s);
        } else if i % 4 == 1 {
            d = T3(d, a, b, c, w, s);
        } else if i % 4 == 2 {
            c = T3(c, d, a, b, w, s);
        } else {
            b = T3(b, c, d, a, w, s);
        }
        i = i + 1;
    }
    (a, b, c, d)
}

/// The three rounds on one block.
pub fn process_block(a: u32, b: u32, c: u32, d: u32, block: &[u32]) -> (r: Regs)
    requires
        block@.len() == 16,
    ensures
        r == compress((a, b, c, d), block@),
{
    let (a, b, c, d) = round1(a, b, c, d, block);
    let (a, b, c, d) = round2(a, b, c, d, block);
    let (a, b, c, d) = round3(a, b, c, d, block);
    (a, b, c, d)
}

/// The little-endian 32-bit word held by bytes `j .. j + 4` of `p`.
pub open spec fn word_at(p: Seq<u8>, j: int) -> u32 {
    (p[j] as int + p[j + 1] as int * 0x100 + p[j + 2] as int * 0x1_0000 + p[j + 3] as int
        * 0x100_0000) as u32
}

/// Block `k` of `p`: the sixteen words of bytes `64 * k .. 64 * k + 64`.
pub open spec fn block_words(p: Seq<u8>, k: int) -> Seq<u32> {
    Seq::new(16, |i: int| word_at(p, 64 * k + 4 * i))
}

/// Register-wise addition modulo 2^32.
pub open spec fn add_regs(s: Regs, t: Regs) -> Regs {
    (add32(s.0, t.0), add32(s.1, t.1), add32(s.2, t.2), add32(s.3, t.3))
}

/// The registers after the first `n` blocks of `p`.
pub open spec fn absorb(p: Seq<u8>, n: nat) -> Regs
    decreases n,
{
    if n == 0 {
        (A, B, C, D)
    } else {
        let st = absorb(p, (n - 1) as nat);
        add_regs(st, compress(st, block_words(p, n - 1)))
    }
}

/// Message length in bits, modulo 2^64.
pub open spec fn bit_length(len: nat) -> nat {
    (len * 8) % 0x1_0000_0000_0000_0000
}

/// The message followed by its padding and its 8-byte bit length.
pub open spec fn padded(m: Seq<u8>) -> Seq<u8> {
    m + padding(m.len()) + le_bytes(bit_length(m.len()), 8)
}

/// The final registers A, B, C, D for message `m`.
pub open spec fn registers(m: Seq<u8>) -> Regs {
    absorb(padded(m), padded(m).len() / 64)
}

/// The 16-byte digest of `m`: each final register, least significant byte first.
pub open spec fn md4_digest(m: Seq<u8>) -> Seq<u8> {
    let (a, b, c, d) = registers(m);
    le_bytes(a as nat, 4) + le_bytes(b as nat, 4) + le_bytes(c as nat, 4) + le_bytes(d as nat, 4)
}

proof fn lemma_word_bits(b0: u8, b1: u8, b2: u8, b3: u8)
    ensures
        (b0 as u32) | (b1 as u32) << 8 | (b2 as u32) << 16 | (b3 as u32) << 24
            == (b0 as int + b1 as int * 0x100 + b2 as int * 0x1_0000 + b3 as int * 0x100_0000) as u32,
{
    assert((b0 as u32) | (b1 as u32) << 8 | (b2 as u32) << 16 | (b3 as u32) << 24
        == (b0 as u32) + (b1 as u32) * 0x100 + (b2 as u32) * 0x1_0000 + (b3 as u32) * 0x100_0000) by (bit_vector);
}

/// Sixteen little-endian words of block `k` of `buffer`.
fn read_block(buffer: &Vec<u8>, k: usize) -> (r: Vec<u32>)
    requires
        64 * k + 64 <= buffer@.len(),
    ensures
        r@ == block_words(buffer@, k as int),
{
    let n = buffer.len();
    let mut block: Vec<u32> = Vec::new();
    let mut i: usize = 0;
    while i < 16
        invariant
            i <= 16,
            n == buffer@.len(),
            64 * k + 64 <= buffer@.len(),
            block@ =~= Seq::new(i as nat, |t: int| word_at(buffer@, 64 * k + 4 * t)),
        decreases 16 - i,
    {
        let j = k * 64 + i * 4;
        proof {
            lemma_word_bits(buffer@[j as int], buffer@[j + 1], buffer@[j + 2], buffer@[j + 3]);
        }
        let w = (buffer[j] as u32) | (buffer[j + 1] as u32) << 8 | (buffer[j + 2] as u32) << 16
            | (buffer[j + 3] as u32) << 24;
        block.push(w);
        i = i + 1;
    }
    block
}

/// Appends padding and length to `buffer` and runs every block through the
/// compression function: the final registers A, B, C, D.
fn md4_registers(buffer: Vec<u8>) -> (r: Regs)
    ensures
        r == registers(buffer@),
{
    let ghost m = buffer@;
    let mut buffer = buffer;
    let len = buffer.len();
    let mut tail = pad(len);
    buffer.append(&mut tail);
    let mut size = append_size((len as u64).wrapping_mul(8));
    buffer.append(&mut size);
    assert(buffer@ == padded(m));
    let blocks = buffer.len() / 64;
    let (mut a, mut b, mut c, mut d) = (A, B, C, D);
    let mut k: usize = 0;
    while k < blocks
        invariant
            k <= blocks,
            blocks == buffer@.len() / 64,
            buffer@ == padded(m),
            (a, b, c, d) == absorb(buffer@, k as nat),
        decreases blocks - k,
    {
        assert(64 * k + 64 <= buffer@.len()) by (nonlinear_arith)
            requires
                k < blocks,
                blocks == buffer@.len() / 64,
        ;
        let block = read_block(&buffer, k);
        let (ra, rb, rc, rd) = process_block(a, b, c, d, block.as_slice());
        a = add_mod32(a, ra);
        b = add_mod32(b, rb);
        c = add_mod32(c, rc);
        d = add_mod32(d, rd);
        k = k + 1;
    }
    (a, b, c, d)
}


/// The word whose big-endian bytes are `b[0], b[1], b[2], b[3]`.
pub open spec fn be_word(b: Seq<u8>) -> u32 {
    (b[0] as int * 0x100_0000 + b[1] as int * 0x1_0000 + b[2] as int * 0x100 + b[3] as int) as u32
}

proof fn lemma_be_bits(b0: u8, b1: u8, b2: u8, b3: u8)
    ensures
        (b0 as u32) << 24 | (b1 as u32) << 16 | (b2 as u32) << 8 | (b3 as u32)
            == (b0 as int * 0x100_0000 + b1 as int * 0x1_0000 + b2 as int * 0x100 + b3 as int) as u32,
{
    assert((b0 as u32) << 24 | (b1 as u32) << 16 | (b2 as u32) << 8 | (b3 as u32)
        == (b0 as u32) * 0x100_0000 + (b1 as u32) * 0x1_0000 + (b2 as u32) * 0x100 + (b3 as u32)) by (bit_vector);
}

/// Reads bytes `j .. j + 4` of `v` as a big-endian word.
fn read_be(v: &Vec<u8>, j: usize) -> (r: u32)
    requires
        j + 4 <= v@.len(),
    ensures
        r == be_word(v@.subrange(j as int, j + 4)),
{
    let n = v.len();
    assert(j + 4 <= n);
    proof {
        lemma_be_bits(v@[j as int], v@[j + 1], v@[j + 2], v@[j + 3]);
    }
    (v[j] as u32) << 24 | (v[j + 1] as u32) << 16 | (v[j + 2] as u32) << 8 | (v[j + 3] as u32)
}

/// The MD4 digest of `message`: sixteen bytes, registers A, B, C, D in turn,
/// each least significant byte first.
pub fn digest(message: &[u8]) -> (r: Vec<u8>)
    ensures
        r@ == md4_digest(message@),
        r@.len() == 16,
{
    let (a, b, c, d) = md4_registers(vstd::slice::slice_to_vec(message));
    let mut out = le_encode(a as u64, 4);
    let mut rest = le_encode(b as u64, 4);
    out.append(&mut rest);
    let mut rest = le_encode(c as u64, 4);
    out.append(&mut rest);
    let mut rest = le_encode(d as u64, 4);
    out.append(&mut rest);
    out
}

/// The MD4 digest of `buffer` as four words: word `i` reads digest bytes
/// `4i .. 4i + 4` most significant first, so that printing the words in
/// hexadecimal, in order, prints the digest.
pub fn process_buffer(buffer: Vec<u8>) -> (r: Regs)
    ensures
        r.0 == be_word(md4_digest(buffer@).subrange(0, 4)),
        r.1 == be_word(md4_digest(buffer@).subrange(4, 8)),
        r.2 == be_word(md4_digest(buffer@).subrange(8, 12)),
        r.3 == be_word(md4_digest(buffer@).subrange(12, 16)),
{
    let out = digest(buffer.as_slice());
    (read_be(&out, 0), read_be(&out, 4), read_be(&out, 8), read_be(&out, 12))
}


/// Every digest is sixteen bytes long, whatever the message.
pub proof fn lemma_digest_length(m: Seq<u8>)
    ensures
        md4_digest(m).len() == 16,
{
    let (a, b, c, d) = registers(m);
    lemma_le_bytes_len(a as nat, 4);
    lemma_le_bytes_len(b as nat, 4);
    lemma_le_bytes_len(c as nat, 4);
    lemma_le_bytes_len(d as nat, 4);
}

/// The message, its padding and the 8-byte length together fill a whole
/// number of 64-byte blocks.
pub proof fn lemma_padded_length(m: Seq<u8>)
    ensures
        padded(m).len() == m.len() + padding(m.len()).len() + 8,
        padded(m).len() % 64 == 0,
{
    lemma_le_bytes_len(bit_length(m.len()), 8);
}

/// The padding is one `0x80` byte followed by zeros, 1 to 64 bytes in all.
pub proof fn lemma_padding_shape(size: nat)
    ensures
        1 <= padding(size).len() <= 64,
        padding(size)[0] == 0x80u8,
        forall|i: int| 1 <= i < padding(size).len() ==> padding(size)[i] == 0u8,
{
}

/// Equal messages have equal digests.
pub proof fn lemma_digest_deterministic(m1: Seq<u8>, m2: Seq<u8>)
    requires
        m1 == m2,
    ensures
        md4_digest(m1) == md4_digest(m2),
{
}

} // verus!
