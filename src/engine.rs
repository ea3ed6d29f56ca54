use vstd::prelude::*;
use crate::channel::RingChannel;
use crate::stream::{SILENCE, push_all, emit_frame};

verus! {

/// Samples per processing frame (10 ms at the processing rate).
pub const FRAME_LEN: usize = 480;

/// The fixed internal processing rate, in hertz.
pub const PROCESSING_RATE: u32 = 48000;

/// Capacity of each sample channel, about 100 ms of audio.
pub const CHANNEL_CAPACITY: usize = 8192;

/// Milliseconds the processing loop sleeps while starved for input.
pub const STARVED_SLEEP_MS: u64 = 5;

/// A frame of silence.
pub open spec fn silent_frame() -> Seq<u32> {
    Seq::new(FRAME_LEN as nat, |i: int| SILENCE)
}

/// A sample-rate converter is needed exactly when the capture device's rate
/// differs from the processing rate.
pub fn needs_converter(device_rate: u32) -> (r: bool)
    ensures
        r == (device_rate != PROCESSING_RATE),
{
    device_rate != PROCESSING_RATE
}

/// The number of input samples one processing frame consumes: what the
/// converter asks for when one is active, a whole frame otherwise.
pub fn input_needed(converter_request: Option<usize>) -> (r: usize)
    ensures
        converter_request.is_some() ==> r == converter_request.unwrap(),
        converter_request.is_none() ==> r == FRAME_LEN,
{
    match converter_request {
        Some(n) => n,
        None => FRAME_LEN,
    }
}

/// Creates an empty sample channel of the engine's capacity.
pub fn new_sample_channel() -> (r: RingChannel)
    ensures
        r@ == Seq::<u32>::empty(),
        r.cap() == CHANNEL_CAPACITY,
        r.wf(),
{
    RingChannel::new(CHANNEL_CAPACITY)
}

/// What the processing loop does next.
#[derive(PartialEq, Eq, Structural, Clone, Copy, Debug)]
pub enum Step {
    /// The running flag is clear: leave the loop.
    Stop,
    /// Too few samples are buffered: sleep briefly and look again.
    Wait,
    /// Take this many samples and process one frame.
    Pull(usize),
}

/// Decides the loop's next step from the running flag, the number of
/// buffered input samples and the number one frame needs.
pub fn next_step(running: bool, buffered: usize, needed: usize) -> (r: Step)
    ensures
        !running ==> r == Step::Stop,
        running && buffered < needed ==> r == Step::Wait,
        running && buffered >= needed ==> r == Step::Pull(needed),
{
    if !running {
        Step::Stop
    } else if buffered < needed {
        Step::Wait
    } else {
        Step::Pull(needed)
    }
}

/// Why a session could not be started.
#[derive(PartialEq, Eq, Structural, Clone, Copy, Debug)]
pub enum StartError {
    /// The input device index is not below the number of input devices.
    InvalidInputIndex,
    /// The output device index is not below the number of output devices.
    InvalidOutputIndex,
}

impl StartError {
    /// A description of the error for the user.
    pub fn message(&self) -> (r: &'static str)
        ensures
            *self == StartError::InvalidInputIndex ==> r@ == "Invalid input device index"@,
            *self == StartError::InvalidOutputIndex ==> r@ == "Invalid output device index"@,
    {
        match self {
            StartError::InvalidInputIndex => "Invalid input device index",
            StartError::InvalidOutputIndex => "Invalid output device index",
        }
    }
}

/// Checks the selected device indices against the catalog sizes; the input
/// index is checked first.
pub fn select_devices(
    input_count: usize,
    output_count: usize,
    input_index: usize,
    output_index: usize,
) -> (r: Result<(usize, usize), StartError>)
    ensures
        input_index >= input_count ==> r == Err::<(usize, usize), StartError>(StartError::InvalidInputIndex),
        input_index < input_count && output_index >= output_count
            ==> r == Err::<(usize, usize), StartError>(StartError::InvalidOutputIndex),
        input_index < input_count && output_index < output_count
            ==> r == Ok::<(usize, usize), StartError>((input_index, output_index)),
{
    if input_index >= input_count {
        Err(StartError::InvalidInputIndex)
    } else if output_index >= output_count {
        Err(StartError::InvalidOutputIndex)
    } else {
        Ok((input_index, output_index))
    }
}

/// What became of one frame after the bypass check and, unless bypassed,
/// the denoiser and the voice gate.
pub enum FrameResult {
    /// Bypass was on: the denoiser was not run.
    Bypassed,
    /// Sample-rate conversion failed: the frame is skipped.
    Skipped,
    /// The voice probability was below the threshold.
    Gated,
    /// The voice probability reached the threshold: the denoised frame,
    /// descaled, and the bit pattern of its root-mean-square level.
    Voiced { frame: Vec<u32>, level: u32 },
}

/// The frame sent downstream for `input` given what became of it.
pub open spec fn emitted(input: Seq<u32>, result: FrameResult) -> Seq<u32> {
    match result {
        FrameResult::Bypassed => input,
        FrameResult::Skipped => Seq::<u32>::empty(),
        FrameResult::Gated => silent_frame(),
        FrameResult::Voiced { frame, level } => frame@,
    }
}

/// The volume reading after a frame: only a voiced frame changes it.
pub open spec fn volume_after(volume: u32, result: FrameResult) -> u32 {
    match result {
        FrameResult::Voiced { frame, level } => level,
        _ => volume,
    }
}

/// In bypass the input frame is what goes downstream, and the volume reading
/// is left as it was; with room in the output channel the frame is appended
/// sample for sample.
pub proof fn lemma_bypass_fidelity(queued: Seq<u32>, input: Seq<u32>, cap: nat, volume: u32)
    requires
        queued.len() <= cap,
    ensures
        emitted(input, FrameResult::Bypassed) == input,
        volume_after(volume, FrameResult::Bypassed) == volume,
        queued.len() + input.len() <= cap
            ==> push_all(queued, emitted(input, FrameResult::Bypassed), cap) == queued + input,
{
    crate::stream::lemma_channel_bounded(queued, input, cap);
}

/// A frame whose voice probability falls below the threshold sends exactly
/// one frame of zero samples downstream and leaves the volume reading as it
/// was.
pub proof fn lemma_gate_silence(input: Seq<u32>, volume: u32)
    ensures
        emitted(input, FrameResult::Gated).len() == FRAME_LEN,
        forall|i: int| 0 <= i < FRAME_LEN ==> #[trigger] emitted(input, FrameResult::Gated)[i] == 0u32,
        volume_after(volume, FrameResult::Gated) == volume,
{
}

/// A voiced frame sends the denoised frame downstream and the volume
/// reading becomes the level measured on that same frame.
pub proof fn lemma_gate_voiced(input: Seq<u32>, frame: Vec<u32>, level: u32, volume: u32)
    ensures
        emitted(input, FrameResult::Voiced { frame, level }) == frame@,
        volume_after(volume, FrameResult::Voiced { frame, level }) == level,
{
}

/// Sending a frame downstream, in bypass or not, voiced or not, leaves the
/// samples already waiting in the output channel as they were: a change of
/// setting reaches only frames sent after it.
pub proof fn lemma_resident_samples_kept(queued: Seq<u32>, input: Seq<u32>, result: FrameResult, cap: nat)
    requires
        queued.len() <= cap,
    ensures
        push_all(queued, emitted(input, result), cap).take(queued.len() as int) == queued,
{
    crate::stream::lemma_queued_words_kept(queued, emitted(input, result), cap);
}

/// Returns a frame of silence.
pub fn make_silent_frame() -> (r: Vec<u32>)
    ensures
        r@ == silent_frame(),
{
    let mut r: Vec<u32> = Vec::with_capacity(FRAME_LEN);
    let mut i: usize = 0;
    while i < FRAME_LEN
        invariant
            i <= FRAME_LEN,
            r@.len() == i,
            forall|j: int| 0 <= j < i ==> #[trigger] r@[j] == SILENCE,
        decreases FRAME_LEN - i,
    {
        r.push(SILENCE);
        i = i + 1;
    }
    assert(r@ =~= silent_frame());
    r
}

/// Sends the frame chosen for `input` into the output channel, dropping
/// samples that find it full, and updates the volume reading.
pub fn deliver_frame(out: &mut RingChannel, volume: &mut u32, input: &Vec<u32>, result: FrameResult)
    requires
        old(out).wf(),
    ensures
        final(out).wf(),
        final(out).cap() == old(out).cap(),
        final(out)@ == push_all(old(out)@, emitted(input@, result), old(out).cap()),
        *final(volume) == volume_after(*old(volume), result),
{
    match result {
        FrameResult::Bypassed => {
            emit_frame(out, input);
        },
        FrameResult::Skipped => {
            assert(old(out)@ + Seq::<u32>::empty() =~= old(out)@);
        },
        FrameResult::Gated => {
            let silence = make_silent_frame();
            emit_frame(out, &silence);
        },
        FrameResult::Voiced { frame, level } => {
            emit_frame(out, &frame);
            *volume = level;
        },
    }
}

} // verus!
