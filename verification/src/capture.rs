//! The capture side of the pipeline: the per-camera worker's decision
//! step (frame-dropping backpressure, fault reporting, live
//! reconfiguration) and the aggregator's batch assembly.

use vstd::prelude::*;
use vstd::string::StringSliceAdditionalSpecFns;
use crate::image_data::Image;

verus! {

/// What went wrong in one capture attempt.
#[derive(Clone, Copy, Debug, PartialEq, Eq, Structural)]
pub enum FaultKind {
    DeviceMissing,
    ReadFailed,
    ConversionFailed,
}

/// A per-camera fault: its kind and the camera slot it belongs to.
#[derive(Clone, Copy, Debug, PartialEq, Eq, Structural)]
pub struct CaptureFault {
    pub kind: FaultKind,
    pub slot: usize,
}

impl CaptureFault {
    /// A human-readable description of the fault.
    pub fn message(&self) -> (r: &'static str)
        ensures
            self.kind is DeviceMissing ==> r@ == "Error: Camera does not exist."@,
            self.kind is ReadFailed ==> r@ == "Error: Could not read frame from camera."@,
            self.kind is ConversionFailed ==> r@ == "Error: Could not convert frame to image."@,
    {
        match self.kind {
            FaultKind::DeviceMissing => "Error: Camera does not exist.",
            FaultKind::ReadFailed => "Error: Could not read frame from camera.",
            FaultKind::ConversionFailed => "Error: Could not convert frame to image.",
        }
    }
}

/// What a capture worker's channel delivers to the aggregator each
/// cycle: a decoded frame or a fault marker.
#[derive(Debug)]
pub enum Frame {
    Image(Image),
    Error(FaultKind),
}

/// The camera a worker currently owns: a device index when the last
/// open succeeded, nothing after a failed open.
#[derive(Clone, Copy, Debug, PartialEq, Eq, Structural)]
pub enum CamState {
    Missing,
    Active { device_index: i32 },
}

/// A worker's own state: its slot, its camera, and how many frames it
/// has dropped and faults it has reported so far.
#[derive(Clone, Copy, Debug, PartialEq, Eq, Structural)]
pub struct WorkerState {
    pub slot: usize,
    pub cam: CamState,
    pub dropped_frames: u64,
    pub faults_sent: u64,
}

/// The outcome of this iteration's device read (meaningful only while
/// the camera is active).
#[derive(Clone, Copy, Debug, PartialEq, Eq, Structural)]
pub enum ReadOutcome {
    Frame,
    ReadError,
    ConvertError,
}

/// What the non-blocking poll of the dedicated reconfiguration channel
/// returned this iteration.
#[derive(Clone, Copy, Debug, PartialEq, Eq, Structural)]
pub enum ReconfigPoll {
    NoMessage,
    Opened { device_index: i32 },
    Failed,
}

/// What the worker does this iteration.  `SendFrame` is a non-blocking
/// send; `DropFrameWaitShort` discards the frame and backs off briefly;
/// `SendFaultWaitLong` is a blocking fault report followed by the longer
/// back-off.
#[derive(Clone, Copy, Debug, PartialEq, Eq, Structural)]
pub enum WorkerAction {
    SendFrame,
    DropFrameWaitShort,
    SendFaultWaitLong { kind: FaultKind },
}

/// The camera state after handling one reconfiguration poll: a
/// successful open replaces the handle wholesale, a failed open clears
/// it, no message leaves it alone.
pub open spec fn cam_after(cam: CamState, reconfig: ReconfigPoll) -> CamState {
    match reconfig {
        ReconfigPoll::NoMessage => cam,
        ReconfigPoll::Opened { device_index } => CamState::Active { device_index },
        ReconfigPoll::Failed => CamState::Missing,
    }
}

/// The action one iteration takes: with no camera, report
/// `DeviceMissing`; with a frame in hand, send it unless the channel is
/// full, in which case the frame is dropped rather than queued; a failed
/// read or conversion is reported as a blocking fault.
pub open spec fn action_of(st: WorkerState, read: ReadOutcome, channel_full: bool) -> WorkerAction {
    match st.cam {
        CamState::Missing => WorkerAction::SendFaultWaitLong { kind: FaultKind::DeviceMissing },
        CamState::Active { .. } => match read {
            ReadOutcome::Frame => if channel_full {
                WorkerAction::DropFrameWaitShort
            } else {
                WorkerAction::SendFrame
            },
            ReadOutcome::ReadError => WorkerAction::SendFaultWaitLong {
                kind: FaultKind::ReadFailed,
            },
            ReadOutcome::ConvertError => WorkerAction::SendFaultWaitLong {
                kind: FaultKind::ConversionFailed,
            },
        },
    }
}

/// One iteration of the capture worker's loop, as a pure decision: which
/// action to take, and the worker's next state.  A full frame channel
/// costs exactly the one new frame — the worker never blocks on it — and
/// only the reconfiguration poll can change which camera is owned.
pub fn worker_step(st: &WorkerState, read: ReadOutcome, channel_full: bool, reconfig: ReconfigPoll)
    -> (r: (WorkerState, WorkerAction))
    requires
        st.dropped_frames < u64::MAX,
        st.faults_sent < u64::MAX,
    ensures
        r.1 == action_of(*st, read, channel_full),
        r.0.slot == st.slot,
        r.0.cam == cam_after(st.cam, reconfig),
        r.0.dropped_frames == st.dropped_frames + (
        if action_of(*st, read, channel_full) is DropFrameWaitShort {
            1int
        } else {
            0int
        }),
        r.0.faults_sent == st.faults_sent + (
        if action_of(*st, read, channel_full) is SendFaultWaitLong {
            1int
        } else {
            0int
        }),
{
    let action: WorkerAction = match st.cam {
        CamState::Missing => WorkerAction::SendFaultWaitLong { kind: FaultKind::DeviceMissing },
        CamState::Active { .. } => match read {
            ReadOutcome::Frame => if channel_full {
                WorkerAction::DropFrameWaitShort
            } else {
                WorkerAction::SendFrame
            },
            ReadOutcome::ReadError => WorkerAction::SendFaultWaitLong {
                kind: FaultKind::ReadFailed,
            },
            ReadOutcome::ConvertError => WorkerAction::SendFaultWaitLong {
                kind: FaultKind::ConversionFailed,
            },
        },
    };
    let dropped = if matches!(action, WorkerAction::DropFrameWaitShort) {
        st.dropped_frames + 1
    } else {
        st.dropped_frames
    };
    let faults = if matches!(action, WorkerAction::SendFaultWaitLong { .. }) {
        st.faults_sent + 1
    } else {
        st.faults_sent
    };
    let cam = match reconfig {
        ReconfigPoll::NoMessage => st.cam,
        ReconfigPoll::Opened { device_index } => CamState::Active { device_index },
        ReconfigPoll::Failed => CamState::Missing,
    };
    (WorkerState { slot: st.slot, cam, dropped_frames: dropped, faults_sent: faults }, action)
}

/// One slot of an assembled batch: the image to run inference on, and
/// the fault marker when the slot's camera produced no frame this cycle.
#[derive(Debug)]
pub struct BatchSlot {
    pub image: Image,
    pub error: Option<FaultKind>,
}

/// Assembles one cycle's batch from what each camera's channel
/// delivered, in fixed slot order: a frame fills its slot; a fault fills
/// the slot with the zero-sized placeholder image and the fault marker.
/// Each slot depends on that slot's input alone, so one camera's fault
/// never disturbs another slot, and nothing from earlier cycles can
/// leak in.
pub fn assemble_batch(inputs: Vec<Frame>) -> (b: Vec<BatchSlot>)
    ensures
        b.len() == inputs.len(),
        forall|i: int|
            0 <= i < inputs.len() ==> match #[trigger] inputs[i] {
                Frame::Image(img) => b[i].image == img && b[i].error is None,
                Frame::Error(k) => b[i].image.width == 0 && b[i].image.height == 0
                    && b[i].image.data.len() == 0 && b[i].error == Some(k),
            },
{
    let ghost inputs0 = inputs@;
    let mut inputs = inputs;
    let mut b: Vec<BatchSlot> = Vec::new();
    let ghost mut i: int = 0;
    while inputs.len() > 0
        invariant
            0 <= i <= inputs0.len(),
            i + inputs@.len() == inputs0.len(),
            inputs@ == inputs0.skip(i),
            b.len() == i,
            forall|k: int|
                0 <= k < i ==> match #[trigger] inputs0[k] {
                    Frame::Image(img) => b[k].image == img && b[k].error is None,
                    Frame::Error(f) => b[k].image.width == 0 && b[k].image.height == 0
                        && b[k].image.data.len() == 0 && b[k].error == Some(f),
                },
        decreases inputs@.len(),
    {
        let input = inputs.remove(0);
        assert(input == inputs0[i]);
        let slot = match input {
            Frame::Image(img) => BatchSlot { image: img, error: None },
            Frame::Error(k) => BatchSlot { image: Image::placeholder(), error: Some(k) },
        };
        b.push(slot);
        proof {
            i = i + 1;
            assert(inputs@ =~= inputs0.skip(i));
        }
    }
    b
}

/// ASCII whitespace, as the reconfiguration payload uses it.
pub open spec fn is_space(b: u8) -> bool {
    b == 32 || b == 9 || b == 10 || b == 13
}

/// An ASCII decimal digit.
pub open spec fn is_digit(b: u8) -> bool {
    48 <= b <= 57
}

/// First index at or past `i` holding a non-space byte.
pub open spec fn skip_spaces(s: Seq<u8>, i: int) -> int
    decreases s.len() - i,
{
    if i < 0 || i >= s.len() || !is_space(s[i]) {
        i
    } else {
        skip_spaces(s, i + 1)
    }
}

/// First index at or past `i` holding a space (or the end).
pub open spec fn token_end(s: Seq<u8>, i: int) -> int
    decreases s.len() - i,
{
    if i < 0 || i >= s.len() || is_space(s[i]) {
        i
    } else {
        token_end(s, i + 1)
    }
}

/// The bytes of `[i, j)` are all digits.
pub open spec fn all_digits(s: Seq<u8>, i: int, j: int) -> bool {
    forall|k: int| i <= k < j ==> is_digit(#[trigger] s[k])
}

/// The decimal value of the digit run `[i, j)`.
pub open spec fn digits_value(s: Seq<u8>, i: int, j: int) -> int
    decreases j - i,
{
    if j <= i {
        0
    } else {
        digits_value(s, i, j - 1) * 10 + (s[j - 1] - 48)
    }
}

/// What the first whitespace-separated token of the payload parses to:
/// the decimal value of an optionally `-`-signed digit run, and `-1` for
/// an empty payload, a malformed token, or a magnitude past `i32::MAX`.
pub open spec fn parsed_payload(s: Seq<u8>) -> int {
    let i = skip_spaces(s, 0);
    let j = token_end(s, i);
    if i >= s.len() {
        -1
    } else if s[i] == 45 && i + 1 < j && all_digits(s, i + 1, j) && digits_value(s, i + 1, j)
        <= i32::MAX {
        -digits_value(s, i + 1, j)
    } else if s[i] != 45 && all_digits(s, i, j) && digits_value(s, i, j) <= i32::MAX {
        digits_value(s, i, j)
    } else {
        -1
    }
}

/// Parses the first whitespace-separated integer of a reconfiguration
/// payload; anything malformed comes back as `-1`, the invalid index.
/// The payload is expected to be ASCII, with `-1` for anything else.
pub fn parse_reconfig_payload(msg: &str) -> (r: i32)
    ensures
        r == parsed_payload(msg.spec_bytes()),
{
    let bytes = msg.as_bytes();
    let len = bytes.len();
    let ghost s = msg.spec_bytes();
    let mut i: usize = 0;
    while i < len && (bytes[i] == 32 || bytes[i] == 9 || bytes[i] == 10 || bytes[i] == 13)
        invariant
            bytes@ == s,
            len == s.len(),
            0 <= i <= len,
            skip_spaces(s, 0) == skip_spaces(s, i as int),
        decreases len - i,
    {
        i += 1;
    }
    assert(skip_spaces(s, i as int) == i);
    if i >= len {
        return -1;
    }
    let start = i;
    let mut j: usize = i;
    while j < len && !(bytes[j] == 32 || bytes[j] == 9 || bytes[j] == 10 || bytes[j] == 13)
        invariant
            bytes@ == s,
            len == s.len(),
            start <= j <= len,
            token_end(s, start as int) == token_end(s, j as int),
        decreases len - j,
    {
        j += 1;
    }
    assert(token_end(s, j as int) == j);
    proof {
        lemma_token_end_ge(s, start as int + 1);
    }
    let neg = bytes[start] == 45;
    let dstart = if neg {
        start + 1
    } else {
        start
    };
    if neg && dstart >= j {
        return -1;
    }
    let mut value: i64 = 0;
    let mut k: usize = dstart;
    while k < j
        invariant
            bytes@ == s,
            s == msg.spec_bytes(),
            len == s.len(),
            dstart <= k <= j <= len,
            all_digits(s, dstart as int, k as int),
            value == digits_value(s, dstart as int, k as int),
            0 <= value <= i32::MAX,
            skip_spaces(s, 0) == start as int,
            start < len,
            token_end(s, start as int) == j as int,
            neg == (s[start as int] == 45),
            dstart as int == if neg {
                start as int + 1
            } else {
                start as int
            },
            neg ==> dstart < j,
        decreases j - k,
    {
        let b = bytes[k];
        if b < 48 || b > 57 {
            proof {
                assert(!is_digit(s[k as int]));
                assert(!all_digits(s, dstart as int, j as int));
            }
            return -1;
        }
        proof {
            assert(all_digits(s, dstart as int, k as int + 1));
            assert(digits_value(s, dstart as int, k as int + 1) == digits_value(
                s,
                dstart as int,
                k as int,
            ) * 10 + (s[k as int] - 48));
        }
        value = value * 10 + ((b - 48) as i64);
        if value > i32::MAX as i64 {
            proof {
                assert(all_digits(s, dstart as int, k + 1) ==> digits_value(s, dstart as int, k + 1)
                    > i32::MAX);
                lemma_digits_grow(s, dstart as int, k + 1, j as int);
            }
            return -1;
        }
        k += 1;
    }
    if neg {
        -(value as i32)
    } else {
        value as i32
    }
}

/// A token never ends before it starts.
proof fn lemma_token_end_ge(s: Seq<u8>, i: int)
    requires
        0 <= i,
    ensures
        token_end(s, i) >= i,
    decreases s.len() - i,
{
    if i < s.len() && !is_space(s[i]) {
        lemma_token_end_ge(s, i + 1);
    }
}

/// Digit values only grow as the run extends.
proof fn lemma_digits_grow(s: Seq<u8>, i: int, j: int, j2: int)
    requires
        i <= j <= j2,
    ensures
        all_digits(s, i, j2) && digits_value(s, i, j) > i32::MAX ==> digits_value(s, i, j2)
            > i32::MAX,
    decreases j2 - j,
{
    if j < j2 {
        lemma_digits_grow(s, i, j + 1, j2);
        if all_digits(s, i, j2) && digits_value(s, i, j) > i32::MAX {
            assert(digits_value(s, i, j + 1) == digits_value(s, i, j) * 10 + (s[j] - 48));
            assert(digits_value(s, i, j) * 10 >= digits_value(s, i, j)) by (nonlinear_arith)
                requires
                    digits_value(s, i, j) > 0,
            ;
        }
    }
}

/// Whether a reconfiguration message names a real batch slot; invalid
/// slots are ignored.
pub fn slot_is_valid(slot: i32, num_cameras: usize) -> (r: bool)
    ensures
        r == (0 <= slot < num_cameras),
{
    slot >= 0 && (slot as usize) < num_cameras
}

} // verus!
