use tymux::ratio::{split_extent, sums_to_one};
use tymux::Ratio;

fn ratio(value: f32) -> Ratio {
    Ratio { bits: value.to_bits() }
}

fn bits() -> Vec<u32> {
    let mut out: Vec<u32> = vec![
        0,
        1,
        0x8000_0000,
        0x007f_ffff,
        0x0080_0000,
        0x3f00_0000,
        0x3f7f_ffff,
        0x3f80_0000,
        0x3f80_0001,
        0x7f7f_ffff,
        0x7f80_0000,
        0xff80_0000,
        0x7fc0_0000,
        0xffc0_0001,
        0xbf00_0000,
    ];
    let mut state: u64 = 42;
    for _ in 0..400 {
        state = state.wrapping_mul(6364136223846793005).wrapping_add(1442695040888963407);
        out.push((state >> 32) as u32);
    }
    for i in 0..200u32 {
        out.push((i as f32 / 199.0).to_bits());
    }
    out
}

#[test]
fn shares_are_the_rounded_down_binary32_product() {
    for bits in bits() {
        let value = f32::from_bits(bits);
        for extent in [0u16, 1, 2, 3, 7, 10, 24, 79, 80, 81, 200, 255, 401, 999, 65534, 65535] {
            let expected = ((extent as f32) * value).floor() as u16;
            assert_eq!(split_extent(extent, Ratio { bits }), expected, "{extent} of {value}");
        }
    }
}

#[test]
fn half_takes_half() {
    for extent in 0..=65535u16 {
        assert_eq!(split_extent(extent, Ratio::half()), extent / 2);
    }
}

#[test]
fn proper_ratios_take_at_most_all() {
    for i in 0..=1000u32 {
        let share = ratio(i as f32 / 1000.0);
        for extent in [0u16, 1, 24, 80, 65535] {
            assert!(split_extent(extent, share) <= extent);
        }
    }
}

fn sum_is_off(first: f32, second: f32) -> bool {
    let sum: f32 = [first, second].iter().sum();
    (sum - 1.0).abs() > 0.01
}

#[test]
fn sums_are_judged_as_binary32_judges_them() {
    let all = bits();
    for &a in &all {
        for &b in &all {
            let expected = !sum_is_off(f32::from_bits(a), f32::from_bits(b));
            assert_eq!(
                sums_to_one(Ratio { bits: a }, Ratio { bits: b }),
                expected,
                "{} + {}",
                f32::from_bits(a),
                f32::from_bits(b)
            );
        }
    }
}

#[test]
fn sums_near_the_bounds_are_judged_as_binary32_judges_them() {
    for start in [0.99f32, 1.01f32] {
        for step in -3000i32..3000 {
            let first = f32::from_bits((start.to_bits() as i32 + step) as u32);
            for second in
                [0.0f32, -0.0, 1e-9, -1e-9, 3e-8, -3e-8, 1e-40, -1e-40, 1.0, -1.0, 1e8, -1e8]
            {
                assert_eq!(
                    sums_to_one(ratio(first), ratio(second)),
                    !sum_is_off(first, second),
                    "{first} + {second}"
                );
                let third = first - second;
                assert_eq!(
                    sums_to_one(ratio(third), ratio(second)),
                    !sum_is_off(third, second),
                    "{third} + {second}"
                );
            }
        }
    }
}

#[test]
fn two_halves_make_one() {
    assert!(sums_to_one(Ratio::half(), Ratio::half()));
    assert!(!sums_to_one(ratio(0.5), ratio(0.2)));
    assert_eq!(f32::from_bits(Ratio::half().bits), 0.5);
}

#[test]
fn ratios_are_equal_as_numbers() {
    assert_eq!(ratio(0.0), ratio(-0.0));
    assert_eq!(ratio(0.25), ratio(0.25));
    assert_ne!(ratio(0.25), ratio(0.5));
    assert_ne!(ratio(f32::NAN), ratio(f32::NAN));
}
