use engine::layout::{orient_mel, repeat_each, transpose, vocoder_input, vocoder_waveform};

#[test]
fn repeat_spreads_each_value() {
    assert_eq!(repeat_each(&vec![1.5f32, -2.0], 3), vec![1.5, 1.5, 1.5, -2.0, -2.0, -2.0]);
    assert_eq!(repeat_each(&vec![7i64], 0), Vec::<i64>::new());
}

#[test]
fn transpose_swaps_rows_and_columns() {
    assert_eq!(transpose(&vec![1, 2, 3, 4, 5, 6], 2, 3), vec![1, 4, 2, 5, 3, 6]);
    assert_eq!(transpose(&vec![1, 4, 2, 5, 3, 6], 3, 2), vec![1, 2, 3, 4, 5, 6]);
}

#[test]
fn mel_is_turned_to_frames_of_bins() {
    let data: Vec<u32> = (0..160).collect();
    // 80 x 2: bins first, so it is transposed to 2 frames of 80 bins.
    let (m, frames, bins) = orient_mel(&data, 80, 2);
    assert_eq!((frames, bins), (2, 80));
    assert_eq!(m[0], 0);
    assert_eq!(m[1], 2);
    assert_eq!(m[80], 1);
    // 2 x 80 is already frames of bins.
    let (m, frames, bins) = orient_mel(&data, 2, 80);
    assert_eq!((frames, bins, m), (2, 80, data.clone()));
    // Neither dimension is 80: left as it is.
    let (m, frames, bins) = orient_mel(&data, 4, 40);
    assert_eq!((frames, bins, m), (4, 40, data));
}

#[test]
fn vocoder_input_widens_80_bins_to_384() {
    let data: Vec<u32> = (0..160).collect();
    let (w, width) = vocoder_input(&data, 2, 80).unwrap();
    assert_eq!(width, 384);
    assert_eq!(w.len(), 768);
    assert_eq!(w[0], 0);
    assert_eq!(w[80], 0);
    assert_eq!(w[383], 383 % 80);
    assert_eq!(w[384], 80);
    assert_eq!(w[384 + 81], 81);
    let wide: Vec<u32> = (0..768).collect();
    assert_eq!(vocoder_input(&wide, 2, 384).unwrap(), (wide.clone(), 384));
    assert_eq!(
        vocoder_input(&wide, 3, 256).unwrap_err().message,
        "Unsupported mel-spectrogram dimension: 256, expected 80 or 384"
    );
}

#[test]
fn vocoder_waveform_reads_columns() {
    assert_eq!(vocoder_waveform(&vec![1, 2, 3], 3, 1), vec![1, 2, 3]);
    assert_eq!(vocoder_waveform(&vec![1, 2, 3], 1, 3), vec![1, 2, 3]);
    assert_eq!(vocoder_waveform(&vec![1, 2, 3, 4], 2, 2), vec![1, 3, 2, 4]);
}

use engine::layout::FrameBuffer;

#[test]
fn frame_buffer_hands_out_whole_frames() {
    let mut b: FrameBuffer<f32> = FrameBuffer::new();
    assert_eq!(b.push(&[0.1, 0.2], 4), None);
    assert_eq!(b.push(&[0.3, 0.4, 0.5], 4), Some(vec![0.1, 0.2, 0.3, 0.4]));
    assert_eq!(b.push(&[0.6], 4), None);
    assert_eq!(b.push(&[0.7, 0.8, 0.9, 1.0], 4), Some(vec![0.5, 0.6, 0.7, 0.8]));
    b.clear();
    assert_eq!(b.push(&[1.5, 2.5, 3.5, 4.5], 4), Some(vec![1.5, 2.5, 3.5, 4.5]));
    assert_eq!(b.push(&[], 4), None);
}
