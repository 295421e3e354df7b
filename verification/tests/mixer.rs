//! The mixer scenarios at 16 kHz mono, where no down-mixing or resampling
//! happens, run on the library's mix buffer with f32 samples.
use chronicler::audio::mixer::MixBuffer;
use chronicler::audio::StreamId;

/// i16 value a normalized f32 sample maps to (the mixer's scaling).
fn scaled(x: f32) -> i16 {
    (x.clamp(-1.0, 1.0) * 32767.0).round() as i16
}

fn push(m: &mut MixBuffer<f32>, stream: StreamId, ts_ns: i64, samples: Vec<f32>) {
    m.add_frame(stream, ts_ns, &samples, 0.0, |a: f32, b: f32| a + b);
}

fn flush(m: &mut MixBuffer<f32>) -> Vec<i16> {
    m.flush().into_iter().map(scaled).collect()
}

#[test]
fn mono_16k_passes_through_with_scaling() {
    let mut m = MixBuffer::new();
    push(&mut m, StreamId::Mic, 0, vec![0.5; 4]);
    let out = flush(&mut m);
    assert_eq!(out.len(), 4);
    for s in out {
        assert!((s - scaled(0.5)).abs() <= 1, "got {s}");
    }
}

#[test]
fn sums_two_aligned_streams() {
    let mut m = MixBuffer::new();
    push(&mut m, StreamId::Mic, 0, vec![0.5, 0.5]);
    push(&mut m, StreamId::Loopback, 0, vec![0.25, 0.25]);
    let out = flush(&mut m);
    assert_eq!(out.len(), 2);
    for s in out {
        assert!((s - scaled(0.75)).abs() <= 1, "expected ~0.75 sum, got {s}");
    }
}

#[test]
fn clamps_summed_overflow() {
    let mut m = MixBuffer::new();
    push(&mut m, StreamId::Mic, 0, vec![0.8]);
    push(&mut m, StreamId::Loopback, 0, vec![0.8]);
    let out = flush(&mut m);
    assert_eq!(out[0], 32767, "1.6 must clamp to i16::MAX");
}

#[test]
fn aligns_impulse_by_timestamp_not_sample_count() {
    let mut m = MixBuffer::new();
    push(&mut m, StreamId::Mic, 0, vec![0.0; 8000]);
    let one_second_ns = 1_000_000_000;
    let mut impulse = vec![0.0; 10];
    impulse[0] = 1.0;
    push(&mut m, StreamId::Mic, one_second_ns, impulse);

    let out = flush(&mut m);
    let argmax = out
        .iter()
        .enumerate()
        .max_by_key(|(_, v)| v.abs())
        .map(|(i, _)| i)
        .unwrap();
    let tolerance = 800; // 50 ms at 16 kHz
    assert!(
        (argmax as i64 - 16_000).abs() <= tolerance,
        "impulse at index {argmax}, expected ~16000 (±50 ms); sample-count bug would give ~8000"
    );
}

#[test]
fn gap_in_one_stream_is_silence_and_does_not_stall() {
    let mut m = MixBuffer::new();
    push(&mut m, StreamId::Mic, 0, vec![0.5; 32_000]);
    push(&mut m, StreamId::Loopback, 0, vec![0.5; 8_000]);
    let gap_end_ns = 1_500_000_000; // 1.5 s
    push(&mut m, StreamId::Loopback, gap_end_ns, vec![0.5; 8_000]);

    let out = flush(&mut m);
    assert_eq!(out.len(), 32_000, "must cover full mic timeline, no stall");
    assert!((out[0] - scaled(1.0)).abs() <= 1, "overlap region = both");
    assert!(
        (out[16_000] - scaled(0.5)).abs() <= 1,
        "gap region = mic only (loopback silence)"
    );
}

#[test]
fn drain_ready_keeps_buffer_bounded() {
    let mut m = MixBuffer::new();
    let chunk = 1600usize; // 100 ms at 16 kHz
    for i in 0..200i64 {
        push(&mut m, StreamId::Mic, i * 100_000_000, vec![0.1; chunk]);
        push(&mut m, StreamId::Loopback, i * 100_000_000, vec![0.1; chunk]);
        let _ = m.drain_ready();
        assert!(
            m.timeline().buffered_len() < 8000,
            "buffer grew unbounded: {} at iter {i}",
            m.timeline().buffered_len()
        );
    }
}
