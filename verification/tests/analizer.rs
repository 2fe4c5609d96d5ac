use cezanne::analizer::{
    block_samples, extremes, magnitude_key, positive_bins, spectrum_size, LAST_MAGNITUDE,
};

#[test]
fn spectrum_is_half_the_frames() {
    assert_eq!(spectrum_size(1024, 1), 512);
    assert_eq!(spectrum_size(2048, 2), 512);
    assert_eq!(spectrum_size(6 * 1024, 6), 512);
    assert_eq!(spectrum_size(2014, 2), 503);
    assert_eq!(spectrum_size(0, 1), 0);
    assert_eq!(spectrum_size(1, 1), 0);
    assert_eq!(spectrum_size(7, 2), 1);
}

#[test]
fn spectrum_length_does_not_depend_on_channels() {
    for channels in 1u16..=8 {
        assert_eq!(spectrum_size(channels as usize * 1024, channels), 512);
        assert_eq!(spectrum_size(channels as usize * 2014, channels), 1007);
    }
}

#[test]
fn positive_bins_skip_the_constant_component() {
    assert_eq!(positive_bins(&[10, 11, 12, 13, 14, 15, 16, 17]), vec![11, 12, 13, 14]);
    assert_eq!(positive_bins(&[10, 11, 12, 13, 14]), vec![11, 12]);
    assert_eq!(positive_bins(&[10, 11]), vec![11]);
}

#[test]
fn positive_bins_of_short_transforms_are_empty() {
    let none: [u8; 0] = [];
    assert_eq!(positive_bins(&none), Vec::<u8>::new());
    assert_eq!(positive_bins(&[5u8]), Vec::<u8>::new());
}

#[test]
fn positive_bins_carry_any_value() {
    let transform: Vec<f32> = vec![9.0, 0.5, 0.25, 0.125];
    assert_eq!(positive_bins(&transform), vec![0.5, 0.25]);
}

#[test]
fn extremes_find_the_first_lowest_and_highest() {
    assert_eq!(extremes(&[5, 3, 9, 3, 9, 4]), Some((1, 2)));
    assert_eq!(extremes(&[1, 2]), Some((0, 1)));
    assert_eq!(extremes(&[2, 1]), Some((1, 0)));
    assert_eq!(extremes(&[0, 0x7f80_0000, 0]), Some((0, 1)));
}

#[test]
fn extremes_of_a_flat_input_are_none() {
    assert_eq!(extremes(&[]), None);
    assert_eq!(extremes(&[7]), None);
    assert_eq!(extremes(&[0, 0, 0, 0]), None);
    assert_eq!(extremes(&[u32::MAX, u32::MAX]), None);
}

#[test]
fn extremes_order_magnitudes_by_their_bits() {
    let magnitudes: [f32; 5] = [0.25, 0.0, 3.5, 1.0e-3, 3.5];
    let bits: Vec<u32> = magnitudes.iter().map(|m| m.to_bits()).collect();
    assert_eq!(extremes(&bits), Some((1, 2)));
}

#[test]
fn extremes_count_what_is_no_magnitude_as_zero() {
    let bits = |values: &[f32]| values.iter().map(|m| m.to_bits()).collect::<Vec<u32>>();
    assert_eq!(extremes(&bits(&[f32::NAN, 1.0, 2.0])), Some((0, 2)));
    assert_eq!(extremes(&bits(&[1.0, -3.0, 2.0])), Some((1, 2)));
    assert_eq!(extremes(&bits(&[0.0, -0.0, f32::NAN, -1.0])), None);
    assert_eq!(extremes(&bits(&[1.0, f32::INFINITY])), Some((0, 1)));
    assert_eq!(extremes(&[0, u32::MAX, 0]), None);
}

#[test]
fn magnitude_key_orders_as_the_numbers_do() {
    let values: [f32; 7] = [0.0, f32::MIN_POSITIVE / 4.0, 1.0e-20, 0.5, 1.0, 3.0e20, f32::INFINITY];
    for pair in values.windows(2) {
        assert!(magnitude_key(pair[0].to_bits()) < magnitude_key(pair[1].to_bits()));
    }
    for value in values {
        assert_eq!(magnitude_key(value.to_bits()), value.to_bits());
    }
    assert_eq!(LAST_MAGNITUDE, f32::INFINITY.to_bits());
    assert_eq!(magnitude_key(f32::NAN.to_bits()), 0);
    assert_eq!(magnitude_key((-1.0f32).to_bits()), 0);
    assert_eq!(magnitude_key((-0.0f32).to_bits()), 0);
    assert_eq!(magnitude_key(0x7f80_0001), 0);
}

#[test]
fn block_samples_counts_every_channel() {
    assert_eq!(block_samples(1024, 1), Some(1024));
    assert_eq!(block_samples(2014, 2), Some(4028));
    assert_eq!(block_samples(0, 2), Some(0));
    assert_eq!(block_samples(5, 0), Some(0));
    assert_eq!(block_samples(usize::MAX, 1), Some(usize::MAX));
    assert_eq!(block_samples(usize::MAX, 2), None);
    assert_eq!(block_samples(usize::MAX / 2 + 1, 2), None);
}

#[test]
fn a_block_of_any_channel_count_has_the_same_spectrum_length() {
    for channels in 1u16..=6 {
        let samples = block_samples(2014, channels).unwrap();
        assert_eq!(spectrum_size(samples, channels), 1007);
    }
}
