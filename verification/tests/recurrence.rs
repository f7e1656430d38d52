use jumphash::jump::{advance, jump, next_jump, MULTIPLIER};

fn mix(seed: &mut u64) -> u64 {
    *seed = seed.wrapping_add(0x9e37_79b9_7f4a_7c15);
    let mut z: u64 = *seed;
    z = (z ^ (z >> 30)).wrapping_mul(0xbf58_476d_1ce4_e5b9);
    z = (z ^ (z >> 27)).wrapping_mul(0x94d0_49bb_1331_11eb);
    z ^ (z >> 31)
}

fn binary64_next(bucket: u32, state: u64) -> u64 {
    let ratio: f64 = ((1u64 << 31) as f64) / (((state >> 33) + 1) as f64);
    ((bucket as u64 + 1) as f64 * ratio) as u64
}

fn binary64_jump(digest: u64, slot_count: u32) -> u32 {
    let mut h: u64 = digest;
    let (mut b, mut j) = (-1i64, 0i64);
    while j < slot_count as i64 {
        b = j;
        h = h.wrapping_mul(2862933555777941757).wrapping_add(1);
        j = ((b.wrapping_add(1) as f64) * (((1u64 << 31) as f64) / (((h >> 33) + 1) as f64)))
            as i64;
    }
    b as u32
}

#[test]
fn advance_is_the_congruential_step() {
    assert_eq!(MULTIPLIER, 2862933555777941757);
    assert_eq!(advance(0), 1);
    assert_eq!(advance(1), 2862933555777941758);
    assert_eq!(advance(u64::MAX), 15583810517931609860);
    assert_eq!(advance(15483751432953222849), 12352315024009424062);
    let mut seed: u64 = 1;
    for _ in 0..10_000 {
        let h: u64 = mix(&mut seed);
        assert_eq!(advance(h), h.wrapping_mul(2862933555777941757).wrapping_add(1));
    }
}

#[test]
fn next_jump_exact_values() {
    assert_eq!(next_jump(0, 0), 2147483648);
    assert_eq!(next_jump(0, u64::MAX), 1);
    assert_eq!(next_jump(u32::MAX, 0), 9223372036854775808);
    assert_eq!(next_jump(u32::MAX, u64::MAX), 4294967296);
    assert_eq!(next_jump(0, 1 << 33), 1073741824);
    assert_eq!(next_jump(2, 2 << 33), 2147483648);
    assert_eq!(next_jump(9, 6 << 33), 3067833782);
    assert_eq!(next_jump(999, 0x1234_5678_9abc_def0), 14062);
    assert_eq!(next_jump(12345, 0xfedc_ba98_7654_3210), 12401);
}

#[test]
fn next_jump_matches_binary64_arithmetic() {
    let mut seed: u64 = 7;
    for i in 0u32..200_000 {
        let state: u64 = match i % 4 {
            0 => mix(&mut seed),
            1 => mix(&mut seed) >> 20,
            2 => mix(&mut seed) | (0x7fff_ffff << 33),
            _ => mix(&mut seed) & ((1 << 36) - 1),
        };
        let bucket: u32 = match i % 3 {
            0 => mix(&mut seed) as u32,
            1 => (mix(&mut seed) % 1000) as u32,
            _ => u32::MAX - (mix(&mut seed) % 3) as u32,
        };
        assert_eq!(next_jump(bucket, state), binary64_next(bucket, state));
    }
}

#[test]
fn next_jump_goes_up() {
    let mut seed: u64 = 99;
    for _ in 0..50_000 {
        let state: u64 = mix(&mut seed);
        let bucket: u32 = mix(&mut seed) as u32;
        assert!(next_jump(bucket, state) > bucket as u64);
    }
    assert!(next_jump(u32::MAX, u64::MAX) > u32::MAX as u64);
}

#[test]
fn jump_exact_values() {
    assert_eq!(jump(0, 1), 0);
    assert_eq!(jump(0, 2), 0);
    assert_eq!(jump(0, 1000), 0);
    assert_eq!(jump(1, 1000), 549);
    assert_eq!(jump(0xdead_beef, 1000), 285);
    assert_eq!(jump(u64::MAX, 1000), 313);
    assert_eq!(jump(0x0123_4567_89ab_cdef, 10_000_000), 7870248);
    assert_eq!(jump(42, u32::MAX), 1603940301);
    assert_eq!(jump(0, u32::MAX), 2147483648);
    assert_eq!(jump(15483751432953222849, 10_000_000), 8970050);
    assert_eq!(jump(12720938724704517959, 1000), 10);
    assert_eq!(jump(3476900567878811119, 1000), 392);
}

#[test]
fn jump_matches_binary64_recurrence() {
    let mut seed: u64 = 2024;
    let counts: [u32; 10] = [1, 2, 3, 10, 100, 1000, 65_536, 10_000_000, 1 << 31, u32::MAX];
    for _ in 0..4_000 {
        let digest: u64 = mix(&mut seed);
        for n in counts {
            assert_eq!(jump(digest, n), binary64_jump(digest, n));
        }
        let n: u32 = (mix(&mut seed) as u32).max(1);
        assert_eq!(jump(digest, n), binary64_jump(digest, n));
    }
}

#[test]
fn jump_is_in_range() {
    let mut seed: u64 = 5;
    for _ in 0..5_000 {
        let digest: u64 = mix(&mut seed);
        let n: u32 = (mix(&mut seed) as u32).max(1);
        assert!(jump(digest, n) < n);
        assert!(jump(digest, 1 + n % 16) < 1 + n % 16);
    }
}

#[test]
fn jump_with_one_slot_is_zero() {
    let mut seed: u64 = 6;
    assert_eq!(jump(0, 1), 0);
    assert_eq!(jump(u64::MAX, 1), 0);
    for _ in 0..20_000 {
        assert_eq!(jump(mix(&mut seed), 1), 0);
    }
}

#[test]
fn jump_growth_by_one_slot() {
    let mut seed: u64 = 8;
    for _ in 0..300 {
        let digest: u64 = mix(&mut seed);
        let mut before: u32 = jump(digest, 1);
        for n in 1u32..400 {
            let after: u32 = jump(digest, n + 1);
            assert!(after == before || after == n);
            before = after;
        }
    }
}

#[test]
fn jump_growth_between_any_two_counts() {
    let mut seed: u64 = 9;
    for _ in 0..3_000 {
        let digest: u64 = mix(&mut seed);
        let a: u32 = (mix(&mut seed) as u32).max(1);
        let b: u32 = (mix(&mut seed) as u32).max(1);
        let (fewer, more) = if a <= b { (a, b) } else { (b, a) };
        let small: u32 = jump(digest, fewer);
        let large: u32 = jump(digest, more);
        assert!(large == small || (fewer <= large && large < more));
    }
}

#[test]
fn jump_spreads_keys_evenly() {
    let mut seed: u64 = 10;
    let mut counts: [u32; 10] = [0; 10];
    for _ in 0..20_000 {
        counts[jump(mix(&mut seed), 10) as usize] += 1;
    }
    for c in counts {
        assert!(c > 1_700 && c < 2_300);
    }
}
