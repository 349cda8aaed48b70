//! CAN bus framing: how a message is cut into standard data frames, and how
//! the module reacts to a frame waiting in its inbox.

use vstd::prelude::*;

verus! {

/// Largest 11-bit (standard) CAN identifier.
pub const MAX_STANDARD_ID: u16 = 0x7ff;

/// Number of data bytes a classic CAN data frame carries at most.
pub const FRAME_CAPACITY: usize = 8;

/// Identifier on which a module announces itself to the server.
pub const ANNOUNCE_ID: u8 = 0xff;

/// Standard identifier of the frames the server sends to the modules; the
/// receive filter of a module passes only this identifier.
pub const SERVER_CONFIG_ID: u16 = 0xfe;

/// Filter mask that compares every bit of a standard identifier.
pub const MATCH_ALL_MASK: u16 = 0x7ff;

/// Bit rate of the bus, in bits per second.
pub const CAN_BITRATE: u32 = 1_000_000;

/// First data byte of a frame by which the server orders a module to reset.
pub const RESET_COMMAND: u8 = 5;

/// A standard CAN data frame: an 11-bit identifier and its data bytes.
pub struct CanFrame {
    pub id: u16,
    pub data: Vec<u8>,
}

impl CanFrame {
    /// The frame can be put on the bus: a standard identifier and one to
    /// eight data bytes.
    pub open spec fn is_sendable(&self) -> bool {
        &&& self.id <= MAX_STANDARD_ID
        &&& 1 <= self.data@.len() <= FRAME_CAPACITY
    }
}

pub open spec fn min(a: int, b: int) -> int {
    if a <= b {
        a
    } else {
        b
    }
}

/// The `i`-th piece of `data` when it is cut into pieces of eight bytes.
pub open spec fn frame_chunk(data: Seq<u8>, i: int) -> Seq<u8> {
    data.subrange(8 * i, min(8 * i + 8, data.len() as int))
}

/// Number of frames that carry `len` bytes: eight bytes per frame.
pub open spec fn frame_count(len: nat) -> nat {
    (len + 7) / 8
}

/// The data bytes of each frame, in order.
pub open spec fn payloads(frames: Seq<CanFrame>) -> Seq<Seq<u8>> {
    frames.map_values(|f: CanFrame| f.data@)
}

/// Copies `data[start..end]` into a new vector.
fn copy_range(data: &[u8], start: usize, end: usize) -> (out: Vec<u8>)
    requires
        start <= end <= data@.len(),
    ensures
        out@ == data@.subrange(start as int, end as int),
{
    let mut out: Vec<u8> = Vec::new();
    let mut i: usize = start;
    while i < end
        invariant
            start <= i <= end <= data@.len(),
            out@ == data@.subrange(start as int, i as int),
        decreases end - i,
    {
        out.push(data[i]);
        i = i + 1;
    }
    out
}

/// Cuts a message into the data frames that carry it on the bus, all with
/// the identifier `id`: eight bytes per frame, the last frame holding the
/// rest. An empty message needs no frame. Read in order, the frames give
/// back the message.
pub fn can_frames(id: u8, data: &[u8]) -> (frames: Vec<CanFrame>)
    ensures
        frames@.len() == frame_count(data@.len()),
        forall|i: int|
            0 <= i < frames@.len() ==> {
                &&& (#[trigger] frames@[i]).id == id as u16
                &&& frames@[i].data@ == frame_chunk(data@, i)
                &&& frames@[i].is_sendable()
            },
        payloads(frames@).flatten() == data@,
        frames@.len() == (data@.len() + 7) / 8,
        forall|i: int|
            0 <= i < frames@.len() - 1 ==> (#[trigger] frames@[i]).data@.len() == 8,
        forall|i: int|
            0 <= i < frames@.len() ==> (#[trigger] frames@[i]).data@ == data@.subrange(
                8 * i,
                if 8 * i + 8 <= data@.len() {
                    8 * i + 8
                } else {
                    data@.len() as int
                },
            ),
{
    let mut frames: Vec<CanFrame> = Vec::new();
    let mut pos: usize = 0;
    while pos < data.len()
        invariant
            pos <= data@.len(),
            pos == min(8 * frames@.len() as int, data@.len() as int),
            frames@.len() > 0 ==> 8 * (frames@.len() - 1) < data@.len(),
            forall|i: int|
                0 <= i < frames@.len() ==> {
                    &&& (#[trigger] frames@[i]).id == id as u16
                    &&& frames@[i].data@ == frame_chunk(data@, i)
                    &&& frames@[i].is_sendable()
                },
            payloads(frames@).flatten() == data@.take(pos as int),
        decreases data@.len() - pos,
    {
        let end: usize = if data.len() - pos > FRAME_CAPACITY {
            pos + FRAME_CAPACITY
        } else {
            data.len()
        };
        let chunk = copy_range(data, pos, end);
        let frame = CanFrame { id: id as u16, data: chunk };
        proof {
            let k = frames@.len() as int;
            assert(chunk@ == frame_chunk(data@, k));
            payloads(frames@).lemma_flatten_push(chunk@);
            frames@.lemma_push_map_commute(|f: CanFrame| f.data@, frame);
            assert(data@.take(pos as int) + chunk@ =~= data@.take(end as int));
        }
        frames.push(frame);
        pos = end;
    }
    assert(data@.take(pos as int) =~= data@);
    assert forall|i: int| 0 <= i < frames@.len() - 1 implies (#[trigger] frames@[i]).data@.len() == 8 by {
        assert(8 * i + 8 <= 8 * (frames@.len() - 1));
    }
    frames
}

/// Cutting a message into pieces of one to eight bytes, all but the last
/// of exactly eight bytes, can be done in one way only: there are
/// `(len + 7) / 8` pieces and piece `i` is bytes `8 * i` up to `8 * i + 8`
/// (or the end) of the message.
pub proof fn lemma_frame_cut_is_unique(data: Seq<u8>, parts: Seq<Seq<u8>>)
    requires
        parts.flatten() == data,
        forall|i: int| 0 <= i < parts.len() ==> 1 <= (#[trigger] parts[i]).len() <= 8,
        forall|i: int| 0 <= i < parts.len() - 1 ==> (#[trigger] parts[i]).len() == 8,
    ensures
        parts.len() == (data.len() + 7) / 8,
        forall|i: int|
            0 <= i < parts.len() ==> #[trigger] parts[i] == data.subrange(
                8 * i,
                if 8 * i + 8 <= data.len() {
                    8 * i + 8
                } else {
                    data.len() as int
                },
            ),
    decreases parts.len(),
{
    if parts.len() == 0 {
    } else if parts.len() == 1 {
        assert(parts.drop_first() =~= Seq::<Seq<u8>>::empty());
        assert(parts.drop_first().flatten() =~= Seq::<u8>::empty());
        assert(data =~= parts[0]);
        assert(parts[0] =~= data.subrange(0, data.len() as int));
    } else {
        let rest = parts.drop_first();
        let tail = rest.flatten();
        assert(data == parts[0] + tail);
        assert(parts[0].len() == 8);
        assert forall|i: int| 0 <= i < rest.len() implies 1 <= (#[trigger] rest[i]).len() <= 8 by {
            assert(rest[i] == parts[i + 1]);
        }
        assert forall|i: int| 0 <= i < rest.len() - 1 implies (#[trigger] rest[i]).len() == 8 by {
            assert(rest[i] == parts[i + 1]);
        }
        lemma_frame_cut_is_unique(tail, rest);
        assert(tail.len() >= 1) by {
            assert(rest[0].len() >= 1);
        }
        assert(data.len() == 8 + tail.len());
        assert forall|i: int| 0 <= i < parts.len() implies #[trigger] parts[i] == data.subrange(
            8 * i,
            if 8 * i + 8 <= data.len() {
                8 * i + 8
            } else {
                data.len() as int
            },
        ) by {
            if i == 0 {
                assert(parts[0] =~= data.subrange(0, 8));
            } else {
                assert(parts[i] == rest[i - 1]);
                assert(rest[i - 1] == tail.subrange(
                    8 * (i - 1),
                    if 8 * (i - 1) + 8 <= tail.len() {
                        8 * (i - 1) + 8
                    } else {
                        tail.len() as int
                    },
                ));
                assert(parts[i] =~= data.subrange(
                    8 * i,
                    if 8 * i + 8 <= data.len() {
                        8 * i + 8
                    } else {
                        data.len() as int
                    },
                ));
            }
        }
    }
}

/// What the module does with the frame, if any, that waits in its inbox.
#[derive(PartialEq, Eq, Structural, Debug, Clone, Copy)]
pub enum InboxAction {
    /// No frame was waiting.
    Empty,
    /// The server ordered a reset.
    Reset,
    /// The frame is handed to the caller.
    Deliver,
}

/// Decides on the frame read from the inbox: nothing read gives `Empty`, a
/// frame whose first byte is the reset command gives `Reset`, and any other
/// frame is delivered.
pub fn inbox_action(received: Option<&[u8]>) -> (action: InboxAction)
    requires
        received matches Some(d) ==> d@.len() > 0,
    ensures
        action == (match received {
            None => InboxAction::Empty,
            Some(d) => if d@[0] == RESET_COMMAND {
                InboxAction::Reset
            } else {
                InboxAction::Deliver
            },
        }),
{
    match received {
        None => InboxAction::Empty,
        Some(d) => {
            if d[0] == RESET_COMMAND {
                InboxAction::Reset
            } else {
                InboxAction::Deliver
            }
        },
    }
}

} // verus!
