use grace::audio::{i16_le_bytes, wav_samples, CaptureBuffer, WavFormat, SAMPLE_RATE, STORE_THRESHOLD};

#[test]
fn one_sample_is_read_per_four_bytes() {
    assert_eq!(wav_samples(&[0x01, 0x00, 0xff, 0xff, 0x02, 0x00, 0x03, 0x00]), vec![1, -1]);
    assert_eq!(wav_samples(&[0x34, 0x12, 0, 0, 0, 0, 0]), vec![0x1234]);
    assert_eq!(wav_samples(&[0x34, 0x12, 0]), Vec::<i16>::new());
    assert_eq!(wav_samples(&[0x00, 0x80, 0, 0]), vec![i16::MIN]);
}

#[test]
fn samples_are_encoded_little_endian() {
    assert_eq!(
        i16_le_bytes(&[1, -1, 256, i16::MIN, i16::MAX]),
        vec![1, 0, 255, 255, 0, 1, 0, 128, 255, 127]
    );
    assert_eq!(i16_le_bytes(&[]), Vec::<u8>::new());
}

#[test]
fn reading_encoded_samples_gives_their_first_half() {
    let samples: Vec<i16> = vec![5, -300, 32767, -32768, 0, 12];
    assert_eq!(wav_samples(&i16_le_bytes(&samples)), vec![5, -300, 32767]);
    let odd: Vec<i16> = vec![7, 8, 9];
    assert_eq!(wav_samples(&i16_le_bytes(&odd)), vec![7]);
}

#[test]
fn the_recording_format_is_mono_16_bit() {
    let f = WavFormat::recording();
    assert_eq!(f, WavFormat { channels: 1, sample_rate: 44100, bits_per_sample: 16, integer_samples: true });
    assert_eq!(SAMPLE_RATE, 44100);
}

#[test]
fn the_buffer_hands_out_everything_once_over_the_threshold() {
    let mut b = CaptureBuffer::new();
    assert!(b.push(&vec![1u8; 60000]).is_none());
    assert_eq!(b.pending().len(), 60000);
    let out = b.push(&vec![2u8; 50000]).expect("over the threshold");
    assert_eq!(out.len(), 110000);
    assert!(out[..60000].iter().all(|&x| x == 1));
    assert!(out[60000..].iter().all(|&x| x == 2));
    assert!(b.pending().is_empty());
}

#[test]
fn exactly_the_threshold_stays_pending() {
    let mut b = CaptureBuffer::new();
    assert!(b.push(&vec![0u8; STORE_THRESHOLD]).is_none());
    assert_eq!(b.pending().len(), STORE_THRESHOLD);
    assert_eq!(b.push(&[9]).map(|v| v.len()), Some(STORE_THRESHOLD + 1));
}

#[test]
fn buffering_loses_nothing() {
    let mut b = CaptureBuffer::new();
    let mut all = Vec::new();
    let mut stored = Vec::new();
    for i in 0..40u32 {
        let chunk: Vec<u8> = (0..(7919 * (i as usize % 5) + 13)).map(|k| (k as u32 + i) as u8).collect();
        all.extend_from_slice(&chunk);
        if let Some(out) = b.push(&chunk) {
            assert!(out.len() > STORE_THRESHOLD);
            stored.extend_from_slice(&out);
        }
        assert!(b.pending().len() <= STORE_THRESHOLD);
    }
    stored.extend_from_slice(b.pending());
    assert_eq!(stored, all);
}
