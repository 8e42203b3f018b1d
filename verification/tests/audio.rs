use engine::audio::{pcm_problem, PcmProblem};
use engine::audio::{add_pause, encode_wav, parse_wav, split_audio_to_chunks, AudioEnhancementConfig, AudioEnhancer};
use engine::tts::encode_pcm_to_wav;

#[test]
fn enhancement_defaults() {
    let c = AudioEnhancementConfig::default();
    assert!(c.enable_fade && c.enable_pause);
    assert_eq!((c.fade_duration_ms, c.pause_duration_ms, c.sample_rate, c.channels), (20, 100, 22050, 1));
    let e = AudioEnhancer::default();
    assert!(!e.passes_through());
    assert!(e.appends_pause(true, false));
    assert!(e.appends_pause(false, true));
    assert!(!e.appends_pause(false, false));
    let off = AudioEnhancer::new(AudioEnhancementConfig { enable_fade: false, enable_pause: false, ..c });
    assert!(off.passes_through());
}

#[test]
fn written_wav_has_the_standard_header_and_reads_back() {
    let samples = vec![1i16, -1, 300, i16::MIN, i16::MAX];
    let wav = encode_wav(&samples, 16000, 1).unwrap();
    assert_eq!(wav.len(), 44 + 10);
    assert_eq!(&wav[0..4], b"RIFF");
    assert_eq!(&wav[4..8], &(36u32 + 10).to_le_bytes());
    assert_eq!(&wav[36..40], b"data");
    assert_eq!(&wav[40..44], &10u32.to_le_bytes());
    let (back, rate, channels) = parse_wav(&wav).unwrap();
    assert_eq!((rate, channels), (16000, 1));
    assert_eq!(back, samples);
}

#[test]
fn written_wav_matches_the_reference_bytes() {
    let wav = encode_wav(&[1, -1], 16000, 1).unwrap();
    let mut want = b"RIFF".to_vec();
    want.extend_from_slice(&[40, 0, 0, 0]);
    want.extend_from_slice(b"WAVEfmt ");
    want.extend_from_slice(&[16, 0, 0, 0, 1, 0, 1, 0, 0x80, 0x3E, 0, 0, 0x00, 0x7D, 0, 0, 2, 0, 16, 0]);
    want.extend_from_slice(b"data");
    want.extend_from_slice(&[4, 0, 0, 0, 1, 0, 0xFF, 0xFF]);
    assert_eq!(wav, want);
}

#[test]
fn standard_wav_reads_exactly() {
    let pcm: Vec<u8> = [5i16, -6, 7].iter().flat_map(|s| s.to_le_bytes()).collect();
    let wav = encode_pcm_to_wav(&pcm, 22050, 1).unwrap();
    assert_eq!(parse_wav(&wav).unwrap(), (vec![5, -6, 7], 22050, 1));
    let stereo = encode_pcm_to_wav(&pcm, 8000, 2).unwrap();
    // Three samples make one whole stereo frame.
    assert_eq!(parse_wav(&stereo).unwrap(), (vec![5, -6], 8000, 2));
}

#[test]
fn wav_errors() {
    assert_eq!(parse_wav(&[0u8; 10]).unwrap_err().message, "Invalid WAV file: too short");
    let mut bad = encode_pcm_to_wav(&[0, 0], 16000, 1).unwrap();
    bad[0] = b'X';
    assert_eq!(parse_wav(&bad).unwrap_err().message, "Invalid WAV file: missing RIFF header");
    let mut bad = encode_pcm_to_wav(&[0, 0], 16000, 1).unwrap();
    bad[8] = b'X';
    assert_eq!(parse_wav(&bad).unwrap_err().message, "Invalid WAV file: missing WAVE identifier");
    let mut bad = encode_pcm_to_wav(&[0, 0], 16000, 1).unwrap();
    bad[20] = 3;
    assert_eq!(parse_wav(&bad).unwrap_err().message, "Unsupported audio format: 3");
    let mut bad = encode_pcm_to_wav(&[0, 0], 16000, 1).unwrap();
    bad[34] = 8;
    assert_eq!(parse_wav(&bad).unwrap_err().message, "Unsupported bits per sample: 8");
    let mut bad = encode_pcm_to_wav(&[0, 0, 0, 0], 16000, 1).unwrap();
    bad[36..40].copy_from_slice(b"junk");
    assert_eq!(parse_wav(&bad).unwrap_err().message, "Invalid WAV file: missing data chunk");
}

#[test]
fn pauses_are_silence_per_channel() {
    let mut s = vec![1i16, 2];
    add_pause(&mut s, 3, 2);
    assert_eq!(s, vec![1, 2, 0, 0, 0, 0, 0, 0]);
}

#[test]
fn chunks_cover_the_audio() {
    let audio: Vec<u8> = (0..10u8).collect();
    let chunks = split_audio_to_chunks(&audio, 2, 1000);
    assert_eq!(chunks.len(), 3);
    assert_eq!(chunks[0], (vec![0, 1, 2, 3], 0, false));
    assert_eq!(chunks[1], (vec![4, 5, 6, 7], 2, false));
    assert_eq!(chunks[2], (vec![8, 9], 4, true));
    let joined: Vec<u8> = chunks.iter().flat_map(|c| c.0.clone()).collect();
    assert_eq!(joined, audio);
    assert_eq!(split_audio_to_chunks(&[], 2048, 16000), vec![(vec![], 0, true)]);
}

#[test]
fn malformed_wav_gives_errors() {
    let good = encode_pcm_to_wav(&[1, 0, 2, 0], 16000, 1).unwrap();
    // No channels in the format.
    let mut bad = good.clone();
    bad[22] = 0;
    assert_eq!(parse_wav(&bad).unwrap_err().message, "Invalid WAV file: no channels");
    // Samples under a byte.
    let mut bad = good.clone();
    bad[34] = 4;
    assert_eq!(parse_wav(&bad).unwrap_err().message, "Unsupported bits per sample: 4");
    // A `fmt ` chunk cut short at the end of the data: a 17-byte chunk leads to a
    // `fmt ` header at offset 37 of 46 bytes, whose format field lies past the end.
    let mut tail = good[..12].to_vec();
    tail.extend_from_slice(b"junk");
    tail.extend_from_slice(&17u32.to_le_bytes());
    tail.extend_from_slice(&[0u8; 17]);
    tail.extend_from_slice(b"fmt ");
    tail.extend_from_slice(&16u32.to_le_bytes());
    tail.push(1);
    assert_eq!(tail.len(), 46);
    assert_eq!(parse_wav(&tail).unwrap_err().message, "Invalid WAV file: truncated chunk");
}

#[test]
fn pcm_blocks_are_checked_for_whole_samples_and_length() {
    assert_eq!(pcm_problem(3, 16000), Some(PcmProblem::OddLength));
    assert_eq!(pcm_problem(318, 16000), Some(PcmProblem::TooShort));
    assert_eq!(pcm_problem(320, 16000), None);
    assert_eq!(pcm_problem(0, 16000), Some(PcmProblem::TooShort));
    assert_eq!(pcm_problem(0, 0), None);
    assert_eq!(pcm_problem(7, 0), Some(PcmProblem::OddLength));
}
