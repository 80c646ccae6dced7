//! The counter-based generator.

use mamba3::distributions::rng::{
    draw_block, draw_group, draw_index, draw_lane, draw_lane_block, lane_of, mulhi, mulhi_split,
    mulhi_wide, philox4x32_10, unit_half_open, unit_open, words, Bits4,
};

fn list(b: Bits4) -> Vec<u32> {
    vec![b.a, b.b, b.c, b.d]
}

#[test]
fn philox_of_zeros() {
    let want = vec![0x6627_e8d5, 0xe169_c58d, 0xbc57_ac4c, 0x9b00_dbd8];
    assert_eq!(list(philox4x32_10(0, 0, 0, 0, 0, 0, true)), want);
    assert_eq!(list(philox4x32_10(0, 0, 0, 0, 0, 0, false)), want);
}

#[test]
fn philox_of_ones() {
    let m = u32::MAX;
    assert_eq!(
        list(philox4x32_10(m, m, m, m, m, m, true)),
        vec![0x408f_276d, 0x41c8_3b0e, 0xa20b_c7c6, 0x6d54_51fd]
    );
}

#[test]
fn philox_of_pi() {
    assert_eq!(
        list(philox4x32_10(
            0x243f_6a88,
            0x85a3_08d3,
            0x1319_8a2e,
            0x0370_7344,
            0xa409_3822,
            0x299f_31d0,
            false
        )),
        vec![0xd16c_fe09, 0x94fd_cceb, 0x5001_e420, 0x2412_6ea1]
    );
}

#[test]
fn high_words_agree_however_they_are_computed() {
    for (a, b) in [
        (0u32, 0u32),
        (u32::MAX, u32::MAX),
        (0xD251_1F53, 0x1234_5678),
        (0xCD9E_8D57, 0xffff_0001),
        (0x0001_0000, 0x0001_0000),
    ] {
        let want = ((a as u64 * b as u64) >> 32) as u32;
        assert_eq!(mulhi_split(a, b), want);
        assert_eq!(mulhi_wide(a, b), want);
        assert_eq!(mulhi(a, b, true), want);
        assert_eq!(mulhi(a, b, false), want);
    }
}

#[test]
fn four_elements_share_a_block() {
    for i in 0..12u32 {
        let block = draw_lane_block(i / 4, 3, 7, 11, 13, true);
        assert_eq!(draw_lane(i, 3, 7, 11, 13, true), lane_of(block, i % 4));
    }
}

#[test]
fn a_lane_past_the_last_is_the_first() {
    let block = Bits4 { a: 1, b: 2, c: 3, d: 4 };
    assert_eq!(lane_of(block, 9), 1);
    assert_eq!(lane_of(Bits4 { a: 1, b: 2, c: 3, d: 4 }, 3), 4);
}

#[test]
fn blocks_and_lanes_read_different_counters() {
    let block = draw_block(0, 0, 0, 5, 6, true);
    let lane = draw_lane_block(0, 0, 0, 5, 6, true);
    assert_ne!(list(block), list(lane));
}

#[test]
fn indices_carry_into_the_high_word() {
    assert_eq!(draw_index(u32::MAX, 0, 1), (0, 1));
    assert_eq!(draw_index(u32::MAX - 1, 4, 1), (u32::MAX, 4));
    assert_eq!(draw_index(u32::MAX, u32::MAX, 1), (0, 0));
}

#[test]
fn groups_carry_into_the_high_word() {
    assert_eq!(draw_group(0xffff_fffc, 2, 1), (0, 3));
    assert_eq!(draw_group(8, 0, 5), (7, 0));
}

#[test]
fn words_split_a_number() {
    assert_eq!(words(0x0123_4567_89ab_cdef), (0x89ab_cdef, 0x0123_4567));
}

#[test]
fn uniforms_keep_off_the_ends() {
    assert_eq!(unit_open(0), 1);
    assert_eq!(unit_open(u32::MAX), 0x00ff_ffff);
    assert_eq!(unit_half_open(0), 0);
    assert_eq!(unit_half_open(u32::MAX), 0x007f_ffff);
    assert_eq!(unit_open(0x8000_0000), 0x0080_0001);
}

#[test]
fn one_draw_of_eight_is_two_draws_of_four() {
    let whole: Vec<u32> = (0..8).map(|i| draw_lane(i, 0, 1, 2, 3, true)).collect();
    let mut parts: Vec<u32> = Vec::new();
    for start in [0u32, 4] {
        for i in 0..4 {
            let (lo, hi) = draw_index(start, 0, i);
            parts.push(draw_lane(lo, hi, 1, 2, 3, true));
        }
    }
    assert_eq!(whole, parts);
}
