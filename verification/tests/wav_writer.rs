use chronicler::audio::wav_writer::{
    apply_patch, block_align, encode_samples, le32_bytes, repair, repair_plan, write_header,
    WavWriter, PLACEHOLDER_SIZE,
};

fn u32_le(bytes: &[u8], at: usize) -> u32 {
    u32::from_le_bytes(bytes[at..at + 4].try_into().unwrap())
}

fn u16_le(bytes: &[u8], at: usize) -> u16 {
    u16::from_le_bytes(bytes[at..at + 2].try_into().unwrap())
}

/// Finalize a writer whose whole output is held in `file`.
fn finalize_into(w: &WavWriter, file: &mut Vec<u8>) {
    for p in w.finalize().iter() {
        apply_patch(file, p);
    }
}

#[test]
fn header_describes_16khz_mono_16bit_pcm() {
    let mut bytes = Vec::new();
    let w = WavWriter::new(&mut bytes);
    finalize_into(&w, &mut bytes);

    assert_eq!(&bytes[0..4], b"RIFF");
    assert_eq!(&bytes[8..12], b"WAVE");
    assert_eq!(&bytes[12..16], b"fmt ");
    assert_eq!(u32_le(&bytes, 16), 16, "fmt chunk size");
    assert_eq!(u16_le(&bytes, 20), 1, "PCM format tag");
    assert_eq!(u16_le(&bytes, 22), 1, "mono");
    assert_eq!(u32_le(&bytes, 24), 16_000, "sample rate");
    assert_eq!(u32_le(&bytes, 28), 32_000, "byte rate = 16000*1*2");
    assert_eq!(u16_le(&bytes, 32), 2, "block align = 1ch*16bit");
    assert_eq!(u16_le(&bytes, 34), 16, "bits per sample");
    assert_eq!(&bytes[36..40], b"data");
}

#[test]
fn start_writes_placeholder_sizes() {
    // Before finalize, both size fields carry the sentinel so a forced-kill
    // partial is detectable on next launch.
    let mut bytes = Vec::new();
    let _w = WavWriter::new(&mut bytes);
    assert_eq!(u32_le(&bytes, 4), PLACEHOLDER_SIZE, "RIFF size sentinel");
    assert_eq!(u32_le(&bytes, 40), PLACEHOLDER_SIZE, "data size sentinel");
}

#[test]
fn finalize_patches_sizes_for_known_pcm() {
    let mut bytes = Vec::new();
    let mut w = WavWriter::new(&mut bytes);
    let samples = [0i16; 100];
    w.append(&mut bytes, &samples);
    finalize_into(&w, &mut bytes);

    let data_bytes = 100 * 2;
    assert_eq!(u32_le(&bytes, 40), data_bytes, "data chunk size");
    assert_eq!(u32_le(&bytes, 4), 36 + data_bytes, "RIFF size = 36 + data");
    assert_eq!(bytes.len() as u32, 44 + data_bytes, "header + payload");
}

#[test]
fn repair_recovers_unfinalized_file() {
    // Simulate a forced kill: header + PCM written, never finalized.
    let mut partial = Vec::new();
    let mut w = WavWriter::new(&mut partial);
    w.append(&mut partial, &[0i16; 50]);

    let mut stream = partial.clone();
    let repaired = repair(&mut stream);
    assert!(repaired, "sentinel-bearing file should be repaired");

    let data_bytes = 50 * 2;
    assert_eq!(u32_le(&stream, 40), data_bytes, "data size recomputed");
    assert_eq!(u32_le(&stream, 4), 36 + data_bytes, "RIFF size recomputed");
}

#[test]
fn repair_rounds_down_to_whole_frame() {
    // 5 trailing PCM bytes = 2 whole 2-byte frames + 1 stray byte; the size
    // field must count only whole frames (4 bytes).
    let mut bytes = vec![0u8; 44 + 5];
    bytes[0..4].copy_from_slice(b"RIFF");
    bytes[8..12].copy_from_slice(b"WAVE");
    bytes[12..16].copy_from_slice(b"fmt ");
    bytes[36..40].copy_from_slice(b"data");
    bytes[4..8].copy_from_slice(&PLACEHOLDER_SIZE.to_le_bytes());
    bytes[40..44].copy_from_slice(&PLACEHOLDER_SIZE.to_le_bytes());

    assert!(repair(&mut bytes));
    assert_eq!(u32_le(&bytes, 40), 4, "rounded down to 2 whole frames");
    assert_eq!(u32_le(&bytes, 4), 36 + 4);
}

#[test]
fn repair_is_noop_on_finalized_file() {
    let mut finalized = Vec::new();
    let mut w = WavWriter::new(&mut finalized);
    w.append(&mut finalized, &[0i16; 10]);
    finalize_into(&w, &mut finalized);

    let mut stream = finalized.clone();
    assert!(!repair(&mut stream), "already finalized");
    assert_eq!(stream, finalized, "bytes unchanged");
}

#[test]
fn repair_ignores_file_shorter_than_header() {
    let mut bytes = vec![0xFFu8; 43];
    let before = bytes.clone();
    assert!(!repair(&mut bytes));
    assert_eq!(bytes, before);
}

#[test]
fn repaired_partial_equals_finalized_file() {
    let samples: Vec<i16> = vec![1, -1, 300, -300, i16::MAX, i16::MIN, 0];
    let mut finalized = Vec::new();
    let mut w = WavWriter::new(&mut finalized);
    w.append(&mut finalized, &samples[..3]);
    w.append(&mut finalized, &samples[3..]);
    let mut partial = finalized.clone();
    finalize_into(&w, &mut finalized);

    assert!(repair(&mut partial));
    assert_eq!(partial, finalized);
    assert!(!repair(&mut partial), "repair is idempotent");
}

#[test]
fn repair_plan_names_both_size_fields() {
    let p = repair_plan(44 + 7, [0xFF; 4]).expect("unfinalized");
    assert_eq!(p[0].offset, 4);
    assert_eq!(p[0].bytes, (36u32 + 6).to_le_bytes());
    assert_eq!(p[1].offset, 40);
    assert_eq!(p[1].bytes, 6u32.to_le_bytes());
    assert!(repair_plan(44 + 7, [0xFE, 0xFF, 0xFF, 0xFF]).is_none());
    assert!(repair_plan(43, [0xFF; 4]).is_none());
}

#[test]
fn samples_are_little_endian_twos_complement() {
    let mut out = vec![9u8];
    encode_samples(&mut out, &[0x1234, -2, i16::MIN]);
    assert_eq!(out, vec![9, 0x34, 0x12, 0xFE, 0xFF, 0x00, 0x80]);
}

#[test]
fn append_counts_pcm_bytes() {
    let mut out = Vec::new();
    let mut w = WavWriter::new(&mut out);
    assert_eq!(w.data_bytes(), 0);
    w.append(&mut out, &[5i16; 7]);
    w.append(&mut out, &[]);
    assert_eq!(w.data_bytes(), 14);
    assert_eq!(out.len(), 44 + 14);
}

#[test]
fn header_size_fields_and_constants() {
    assert_eq!(block_align(), 2);
    assert_eq!(le32_bytes(0x0102_0304), [4, 3, 2, 1]);
    let mut out = Vec::new();
    write_header(&mut out, 0xAABB_CCDD, 0x0000_0102);
    assert_eq!(out.len(), 44);
    assert_eq!(&out[4..8], &[0xDD, 0xCC, 0xBB, 0xAA]);
    assert_eq!(&out[40..44], &[0x02, 0x01, 0, 0]);
}
