#![allow(non_snake_case)]

use hash::md4::{append_size, digest, pad, process_block, process_buffer, round1, round2, round3};
use hash::md4::{F, G, H, T1, T2, T3};

fn hex(bytes: &[u8]) -> String {
    bytes.iter().map(|b| format!("{:02x}", b)).collect()
}

#[test]
fn test_pad() {
    let mut result = pad(0);
    assert_eq!(result.len(), 56);
    assert_eq!(result[0], 0x80);
    result = pad(1);
    assert_eq!(result.len(), 55);
    assert_eq!(result[0], 0x80);
    result = pad(55);
    assert_eq!(result.len(), 1);
    assert_eq!(result[0], 0x80);
    result = pad(56);
    assert_eq!(result.len(), 64);
    assert_eq!(result[0], 0x80);
    result = pad(57);
    assert_eq!(result.len(), 63);
    assert_eq!(result[0], 0x80);
    result = pad(63);
    assert_eq!(result.len(), 57);
    assert_eq!(result[0], 0x80);
    result = pad(64);
    assert_eq!(result.len(), 56);
    assert_eq!(result[0], 0x80);
    result = pad(65);
    assert_eq!(result.len(), 55);
    assert_eq!(result[0], 0x80);
}

#[test]
fn append_size_test() {
    assert_eq!(append_size(0), vec![0, 0, 0, 0, 0, 0, 0, 0]);
    assert_eq!(append_size(1), vec![1, 0, 0, 0, 0, 0, 0, 0]);
    assert_eq!(append_size(256), vec![0, 1, 0, 0, 0, 0, 0, 0]);
    assert_eq!(append_size(0xDEADBEEFCAFEBABE), vec![0xBE, 0xBA, 0xFE, 0xCA, 0xEF, 0xBE, 0xAD, 0xDE]);
}

#[test]
fn test_F() {
    assert_eq!(F(0b00001111000000000000000000000000,
                 0b00110011000000000000000000000000,
                 0b01010101000000000000000000000000),
                 0b01010011000000000000000000000000);
}

#[test]
fn test_G() {
    assert_eq!(G(0b00001111000000000000000000000000,
                 0b00110011000000000000000000000000,
                 0b01010101000000000000000000000000),
                 0b00010111000000000000000000000000);
}

#[test]
fn test_H() {
    assert_eq!(H(0b00001111000000000000000000000000,
                 0b00110011000000000000000000000000,
                 0b01010101000000000000000000000000),
                 0b01101001000000000000000000000000);
}

#[test]
fn test_T1() {
    assert_eq!(T1(
        0b10011010110100001100010001001100,
        0b00001111000000000000000000000000,
        0b00110011000000000000000000000000,
        0b01010101000000000000000000000000,
        0b01101001110100001101010011100010,
        3,
    ), 0b10111101000011001100100101110010);
}

#[test]
fn test_T2() {
    assert_eq!(T2(
        0b10011010110100001100010001001100,
        0b00001111000000000000000000000000,
        0b00110011000000000000000000000000,
        0b01010101000000000000000000000000,
        0b01101001110100001101010011100010,
        3,
    ), 0b10110001001000001001011000111011);
}

#[test]
fn test_T3() {
    assert_eq!(T3(
        0b10011010110100001100010001001100,
        0b00001111000000000000000000000000,
        0b00110011000000000000000000000000,
        0b01010101000000000000000000000000,
        0b01101001110100001101010011100010,
        3,
    ), 0b11100011110111000010011001111110);
}

#[test]
fn test_process_buffer() {
    assert_eq!((0x31d6cfe0, 0xd16ae931, 0xb73c59d7, 0xe0c089c0), process_buffer("".to_string().into_bytes()));
    assert_eq!((0xbde52cb3, 0x1de33e46, 0x245e05fb, 0xdbd6fb24), process_buffer("a".to_string().into_bytes()));
    assert_eq!((0xa448017a, 0xaf21d852, 0x5fc10ae8, 0x7aa6729d), process_buffer("abc".to_string().into_bytes()));
    assert_eq!((0xd9130a81, 0x64549fe8, 0x18874806, 0xe1c7014b), process_buffer("message digest".to_string().into_bytes()));
    assert_eq!((0xd79e1c30, 0x8aa5bbcd, 0xeea8ed63, 0xdf412da9), process_buffer("abcdefghijklmnopqrstuvwxyz".to_string().into_bytes()));
    assert_eq!((0x043f8582, 0xf241db35, 0x1ce627e1, 0x53e7f0e4), process_buffer("ABCDEFGHIJKLMNOPQRSTUVWXYZabcdefghijklmnopqrstuvwxyz0123456789".to_string().into_bytes()));
    assert_eq!((0xe33b4ddc, 0x9c38f219, 0x9c3e7b16, 0x4fcc0536), process_buffer("12345678901234567890123456789012345678901234567890123456789012345678901234567890".to_string().into_bytes()));
}

#[test]
fn digest_known_answers() {
    assert_eq!(hex(&digest(b"")), "31d6cfe0d16ae931b73c59d7e0c089c0");
    assert_eq!(hex(&digest(b"a")), "bde52cb31de33e46245e05fbdbd6fb24");
    assert_eq!(hex(&digest(b"abc")), "a448017aaf21d8525fc10ae87aa6729d");
    assert_eq!(hex(&digest(b"message digest")), "d9130a8164549fe818874806e1c7014b");
    assert_eq!(hex(&digest(b"abcdefghijklmnopqrstuvwxyz")), "d79e1c308aa5bbcdeea8ed63df412da9");
    assert_eq!(
        hex(&digest(b"12345678901234567890123456789012345678901234567890123456789012345678901234567890")),
        "e33b4ddc9c38f2199c3e7b164fcc0536"
    );
}

#[test]
fn digest_block_boundaries() {
    let cases: [(usize, &str); 7] = [
        (55, "c889c81dd86c4d2e025778944ea02881"),
        (56, "d5f9a9e9257077a5f08b0b92f348b0ad"),
        (63, "7ea3da77432d44c323671097d1348fc8"),
        (64, "52f5076fabd22680234a3fa9f9dc5732"),
        (65, "330e377bf231f3cacfecc2c182fe7e5b"),
        (119, "e65dd227ccef97fa1d34d70189120f76"),
        (120, "b03ddbd470b47c013e0c7ab2ddd763db"),
    ];
    for (n, expected) in cases.iter() {
        assert_eq!(hex(&digest(&vec![b'a'; *n])), *expected, "length {}", n);
    }
}

#[test]
fn digest_is_sixteen_bytes() {
    for n in 0..200usize {
        let msg: Vec<u8> = (0..n).map(|i| (i * 7) as u8).collect();
        assert_eq!(digest(&msg).len(), 16);
    }
}

#[test]
fn padded_length_is_block_multiple() {
    for n in 0..300usize {
        let p = pad(n);
        assert_eq!((n + p.len() + 8) % 64, 0);
        assert!(1 <= p.len() && p.len() <= 64);
        assert_eq!(p[0], 0x80);
        assert!(p[1..].iter().all(|&b| b == 0));
    }
}

#[test]
fn digest_is_deterministic() {
    let msg = b"The quick brown fox jumps over the lazy dog".to_vec();
    assert_eq!(digest(&msg), digest(&msg.clone()));
    assert_eq!(process_buffer(msg.clone()), process_buffer(msg));
}

#[test]
fn one_bit_change_flips_many_digest_bits() {
    let base = b"message digest".to_vec();
    let mut flipped = base.clone();
    flipped[3] ^= 0x01;
    let x = digest(&base);
    let y = digest(&flipped);
    let differing: u32 = x.iter().zip(y.iter()).map(|(a, b)| (a ^ b).count_ones()).sum();
    assert!(differing >= 32 && differing <= 96, "{} bits differ", differing);
}

#[test]
fn process_buffer_matches_digest_bytes() {
    let msg = b"abc".to_vec();
    let bytes = digest(&msg);
    let (a, b, c, d) = process_buffer(msg);
    let words = [a, b, c, d];
    for i in 0..4 {
        let be = u32::from_be_bytes([bytes[4 * i], bytes[4 * i + 1], bytes[4 * i + 2], bytes[4 * i + 3]]);
        assert_eq!(words[i], be);
    }
}

#[test]
fn block_of_zeros_through_rounds() {
    let block = [0u32; 16];
    let r1 = round1(0x67452301, 0xefcdab89, 0x98badcfe, 0x10325476, &block);
    let r2 = round2(r1.0, r1.1, r1.2, r1.3, &block);
    let r3 = round3(r2.0, r2.1, r2.2, r2.3, &block);
    assert_eq!(process_block(0x67452301, 0xefcdab89, 0x98badcfe, 0x10325476, &block), r3);
}

#[test]
fn step_functions_wrap_around() {
    assert_eq!(T1(0xffffffff, 0, 0, 0, 1, 0), 0);
    assert_eq!(T1(0x80000000, 0, 0, 0, 0, 1), 1);
    assert_eq!(T1(1, 0, 0, 0, 0, 32), 1);
    assert_eq!(T2(0, 0, 0, 0, 0, 0), 0x5A827999);
    assert_eq!(T3(0, 0, 0, 0, 0, 0), 0x6ED9EBA1);
}
