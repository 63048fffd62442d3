//! Samples of frames, and the lattice of the gamut table.
use erika::luma::{sample_nv12_luma, sample_p010_luma};
use erika::lut::{lattice_point, LatticePoint, LUT_SIZE_C, LUT_SIZE_H, LUT_SIZE_I, LUT_TEXELS};

#[test]
fn small_frames_are_sampled_whole() {
    let luma: Vec<u8> = (0..12u8).collect();
    let samples = sample_nv12_luma(&luma, 4, 3).unwrap();
    assert_eq!(samples, (0..12u16).collect::<Vec<u16>>());
}

#[test]
fn large_frames_are_sampled_on_a_grid() {
    let luma = vec![7u8; 1920 * 1080];
    let samples = sample_nv12_luma(&luma, 1920, 1080).unwrap();
    // Every 40th of 1920 columns, every 22nd of 1080 rows.
    assert_eq!(samples.len(), 48 * 50);
    assert!(samples.iter().all(|sample| *sample == 7));

    let width = 100u32;
    let luma: Vec<u8> = (0..100 * 2).map(|pixel| (pixel % 100) as u8 + (pixel / 100) as u8).collect();
    let samples = sample_nv12_luma(&luma, width, 2).unwrap();
    assert_eq!(samples.len(), 100);
    assert_eq!(&samples[..3], &[0, 2, 4]);
    assert_eq!(&samples[50..53], &[1, 3, 5]);
}

#[test]
fn ten_bit_samples_are_the_upper_bits() {
    let white = (1023u16 << 6).to_le_bytes();
    let one = (1u16 << 6).to_le_bytes();
    let mut luma = Vec::new();
    luma.extend_from_slice(&white);
    luma.extend_from_slice(&one);
    luma.extend_from_slice(&[0x3f, 0]);
    luma.extend_from_slice(&[0xff, 0xff]);
    assert_eq!(sample_p010_luma(&luma, 2, 2), Some(vec![1023, 1, 0, 1023]));
    // The lower six bits make no difference.
    let noisy: Vec<u8> =
        luma.iter().enumerate().map(|(at, byte)| if at % 2 == 0 { byte ^ 0x15 } else { *byte }).collect();
    assert_eq!(sample_p010_luma(&noisy, 2, 2), sample_p010_luma(&luma, 2, 2));
}

#[test]
fn short_planes_and_empty_frames_have_no_samples() {
    assert_eq!(sample_nv12_luma(&[1, 2, 3], 2, 2), None);
    assert_eq!(sample_nv12_luma(&[1, 2, 3], 0, 2), None);
    assert_eq!(sample_nv12_luma(&[1, 2, 3], 2, 0), None);
    assert_eq!(sample_p010_luma(&[1, 2, 3], 2, 1), None);
    assert_eq!(sample_p010_luma(&[0, 0, 64, 0], 2, 1), Some(vec![0, 1]));
}

#[test]
fn texels_are_ordered_by_hue_then_intensity_then_chroma() {
    assert_eq!(LUT_TEXELS, LUT_SIZE_I * LUT_SIZE_C * LUT_SIZE_H);
    let mut texel = 0;
    for hue in 0..LUT_SIZE_H {
        for intensity in 0..LUT_SIZE_I {
            for chroma in 0..LUT_SIZE_C {
                assert_eq!(lattice_point(texel), LatticePoint { hue, intensity, chroma });
                texel += 1;
            }
        }
    }
    assert_eq!(texel, LUT_TEXELS);
}

#[test]
fn the_grid_is_sparse_whatever_the_size() {
    for (width, columns) in [(1, 1), (47, 47), (95, 95), (96, 48), (100, 50), (3840, 48), (65535, 49)] {
        let luma = vec![0u8; width as usize];
        assert_eq!(sample_nv12_luma(&luma, width, 1).unwrap().len(), columns, "{width}");
        assert_eq!(sample_nv12_luma(&luma, 1, width).unwrap().len(), columns, "{width}");
    }
}
