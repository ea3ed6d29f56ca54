use rubato::Resampler;
use silent_stream::channel::RingChannel;
use silent_stream::engine::{
    deliver_frame, input_needed, make_silent_frame, needs_converter, next_step, select_devices,
    FrameResult, StartError, Step, CHANNEL_CAPACITY, FRAME_LEN, PROCESSING_RATE,
};
use silent_stream::stream::{capture_block, emit_frame, pull_frame, render_block, SILENCE};

fn words(samples: &[f32]) -> Vec<u32> {
    samples.iter().map(|s| s.to_bits()).collect()
}

fn samples(words: &[u32]) -> Vec<f32> {
    words.iter().map(|w| f32::from_bits(*w)).collect()
}

fn drain(chan: &mut RingChannel) -> Vec<u32> {
    let mut out = Vec::new();
    while let Some(w) = chan.pop() {
        out.push(w);
    }
    out
}

fn ramp(n: usize, scale: f32) -> Vec<f32> {
    (0..n).map(|i| (i as f32) * scale - 0.5).collect()
}

fn rms(frame: &[f32]) -> f32 {
    let sum_sq: f32 = frame.iter().map(|s| s * s).sum();
    (sum_sq / frame.len() as f32).sqrt()
}

#[test]
fn channel_is_fifo() {
    let mut chan = RingChannel::new(4);
    assert_eq!(chan.capacity(), 4);
    assert_eq!(chan.len(), 0);
    assert!(chan.push(7));
    assert!(chan.push(9));
    assert_eq!(chan.len(), 2);
    assert_eq!(chan.pop(), Some(7));
    assert_eq!(chan.pop(), Some(9));
    assert_eq!(chan.pop(), None);
}

#[test]
fn full_channel_drops_pushes() {
    let mut chan = RingChannel::new(3);
    for w in 1..=3u32 {
        assert!(chan.push(w));
    }
    assert!(chan.is_full());
    assert!(!chan.push(99));
    assert_eq!(chan.len(), 3);
    assert_eq!(drain(&mut chan), vec![1, 2, 3]);
}

#[test]
fn channel_never_exceeds_capacity() {
    let mut chan = RingChannel::new(CHANNEL_CAPACITY);
    let block: Vec<u32> = (0..10_000u32).collect();
    capture_block(&mut chan, &block, 1);
    assert_eq!(chan.len(), CHANNEL_CAPACITY);
    let kept = drain(&mut chan);
    assert_eq!(kept, (0..CHANNEL_CAPACITY as u32).collect::<Vec<u32>>());
}

#[test]
fn capture_takes_first_channel() {
    let mut chan = RingChannel::new(16);
    let data = words(&[0.1, -0.1, 0.2, -0.2, 0.3, -0.3]);
    capture_block(&mut chan, &data, 2);
    assert_eq!(samples(&drain(&mut chan)), vec![0.1, 0.2, 0.3]);
}

#[test]
fn capture_counts_partial_frame() {
    let mut chan = RingChannel::new(16);
    let data: Vec<u32> = vec![10, 11, 12, 20, 21, 22, 30];
    capture_block(&mut chan, &data, 3);
    assert_eq!(drain(&mut chan), vec![10, 20, 30]);
}

#[test]
fn capture_drops_when_full() {
    let mut chan = RingChannel::new(2);
    chan.push(5);
    capture_block(&mut chan, &[1, 2, 3, 4], 1);
    assert_eq!(drain(&mut chan), vec![5, 1]);
}

#[test]
fn render_upmixes_and_fills_silence() {
    let mut chan = RingChannel::new(8);
    chan.push(0.25f32.to_bits());
    chan.push((-0.5f32).to_bits());
    let out = render_block(&mut chan, 8, 2);
    assert_eq!(samples(&out), vec![0.25, 0.25, -0.5, -0.5, 0.0, 0.0, 0.0, 0.0]);
    assert_eq!(chan.len(), 0);
}

#[test]
fn render_consumes_one_word_per_frame() {
    let mut chan = RingChannel::new(8);
    for w in [1u32, 2, 3, 4] {
        chan.push(w);
    }
    let out = render_block(&mut chan, 5, 2);
    assert_eq!(out, vec![1, 1, 2, 2, 3]);
    assert_eq!(drain(&mut chan), vec![4]);
}

#[test]
fn render_empty_block() {
    let mut chan = RingChannel::new(4);
    chan.push(3);
    let out = render_block(&mut chan, 0, 2);
    assert!(out.is_empty());
    assert_eq!(chan.len(), 1);
}

#[test]
fn silence_is_zero_bits() {
    assert_eq!(SILENCE, 0.0f32.to_bits());
}

#[test]
fn pull_waits_for_a_whole_frame() {
    let mut chan = RingChannel::new(CHANNEL_CAPACITY);
    let data: Vec<u32> = (0..479u32).collect();
    capture_block(&mut chan, &data, 1);
    assert!(pull_frame(&mut chan, FRAME_LEN).is_none());
    assert_eq!(chan.len(), 479);
}

#[test]
fn no_resample_path_pulls_raw_frames_in_order() {
    assert!(!needs_converter(PROCESSING_RATE));
    assert!(needs_converter(44100));
    let needed = input_needed(None);
    assert_eq!(needed, 480);
    let mut chan = RingChannel::new(CHANNEL_CAPACITY);
    let data: Vec<u32> = (0..1000u32).collect();
    capture_block(&mut chan, &data, 1);
    let first = pull_frame(&mut chan, needed).unwrap();
    let second = pull_frame(&mut chan, needed).unwrap();
    assert_eq!(first, (0..480u32).collect::<Vec<u32>>());
    assert_eq!(second, (480..960u32).collect::<Vec<u32>>());
    assert!(pull_frame(&mut chan, needed).is_none());
    assert_eq!(chan.len(), 40);
}

#[test]
fn loop_steps() {
    assert_eq!(next_step(false, 1000, 480), Step::Stop);
    assert_eq!(next_step(true, 479, 480), Step::Wait);
    assert_eq!(next_step(true, 480, 480), Step::Pull(480));
    assert_eq!(next_step(true, 600, 441), Step::Pull(441));
    assert_eq!(input_needed(Some(441)), 441);
}

#[test]
fn bad_device_index_is_refused() {
    assert_eq!(select_devices(2, 3, 2, 0), Err(StartError::InvalidInputIndex));
    assert_eq!(select_devices(2, 3, 0, 3), Err(StartError::InvalidOutputIndex));
    assert_eq!(select_devices(0, 0, 0, 0), Err(StartError::InvalidInputIndex));
    assert_eq!(select_devices(2, 3, 1, 2), Ok((1, 2)));
    assert_eq!(StartError::InvalidInputIndex.message(), "Invalid input device index");
    assert_eq!(StartError::InvalidOutputIndex.message(), "Invalid output device index");
}

#[test]
fn bypass_passes_input_unchanged() {
    let mut out = RingChannel::new(CHANNEL_CAPACITY);
    let mut volume = 0.125f32.to_bits();
    let input = words(&ramp(FRAME_LEN, 0.002));
    deliver_frame(&mut out, &mut volume, &input, FrameResult::Bypassed);
    assert_eq!(drain(&mut out), input);
    assert_eq!(f32::from_bits(volume), 0.125);
}

#[test]
fn gated_frame_is_silence() {
    let mut out = RingChannel::new(CHANNEL_CAPACITY);
    let mut volume = 0.25f32.to_bits();
    let input = words(&ramp(FRAME_LEN, 0.002));
    deliver_frame(&mut out, &mut volume, &input, FrameResult::Gated);
    let emitted = samples(&drain(&mut out));
    assert_eq!(emitted.len(), 480);
    assert!(emitted.iter().all(|s| *s == 0.0));
    assert_eq!(f32::from_bits(volume), 0.25);
    assert_eq!(make_silent_frame(), vec![0u32; 480]);
}

#[test]
fn voiced_frame_sets_volume_to_its_rms() {
    let mut out = RingChannel::new(CHANNEL_CAPACITY);
    let mut volume = 0.0f32.to_bits();
    let denoised = ramp(FRAME_LEN, 0.001);
    let level = rms(&denoised);
    let input = words(&ramp(FRAME_LEN, 0.002));
    let result = FrameResult::Voiced { frame: words(&denoised), level: level.to_bits() };
    deliver_frame(&mut out, &mut volume, &input, result);
    let emitted = samples(&drain(&mut out));
    assert_eq!(emitted, denoised);
    assert!((f32::from_bits(volume) - rms(&emitted)).abs() < 1e-5);
}

#[test]
fn ten_silent_frames_stay_silent() {
    let mut out = RingChannel::new(CHANNEL_CAPACITY);
    let mut volume = 0.0f32.to_bits();
    let input = words(&vec![0.0f32; FRAME_LEN]);
    for _ in 0..10 {
        deliver_frame(&mut out, &mut volume, &input, FrameResult::Gated);
    }
    let emitted = drain(&mut out);
    assert_eq!(emitted.len(), 4800);
    assert!(emitted.iter().all(|w| f32::from_bits(*w) == 0.0));
    assert_eq!(f32::from_bits(volume), 0.0);
}

#[test]
fn converter_request_yields_one_frame() {
    assert!(needs_converter(44100));
    let mut converter =
        rubato::FftFixedOut::<f32>::new(44100, PROCESSING_RATE as usize, FRAME_LEN, 2, 1).unwrap();
    let needed = input_needed(Some(converter.input_frames_next()));
    let mut chan = RingChannel::new(CHANNEL_CAPACITY);
    let data = words(&ramp(needed + 10, 0.0001));
    capture_block(&mut chan, &data, 1);
    assert_eq!(next_step(true, chan.len(), needed), Step::Pull(needed));
    let frame = pull_frame(&mut chan, needed).unwrap();
    assert_eq!(frame.len(), needed);
    let produced = converter.process(&[samples(&frame)], None).unwrap();
    assert_eq!(produced[0].len(), 480);
    assert_eq!(chan.len(), 10);
}

#[test]
fn bypass_toggle_keeps_resident_samples() {
    let mut out = RingChannel::new(CHANNEL_CAPACITY);
    let mut volume = 0.0f32.to_bits();
    let first = words(&ramp(FRAME_LEN, 0.002));
    let second = words(&ramp(FRAME_LEN, 0.001));
    deliver_frame(&mut out, &mut volume, &first, FrameResult::Bypassed);
    deliver_frame(&mut out, &mut volume, &second, FrameResult::Gated);
    let emitted = drain(&mut out);
    assert_eq!(&emitted[..FRAME_LEN], &first[..]);
    assert!(emitted[FRAME_LEN..].iter().all(|w| *w == SILENCE));
}

#[test]
fn emit_drops_overflow() {
    let mut out = RingChannel::new(4);
    out.push(1);
    emit_frame(&mut out, &vec![2, 3, 4, 5, 6]);
    assert_eq!(drain(&mut out), vec![1, 2, 3, 4]);
}

#[test]
fn skipped_frame_sends_nothing() {
    let mut out = RingChannel::new(CHANNEL_CAPACITY);
    out.push(42);
    let mut volume = 0.5f32.to_bits();
    let input = words(&ramp(FRAME_LEN, 0.002));
    deliver_frame(&mut out, &mut volume, &input, FrameResult::Skipped);
    assert_eq!(drain(&mut out), vec![42]);
    assert_eq!(f32::from_bits(volume), 0.5);
}
