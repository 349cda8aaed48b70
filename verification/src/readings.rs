//! Byte layouts of the sensor readings a module handles: the motion
//! sensor's report frame, the GNSS receiver's stream, and the thermocouple
//! converter's word.

use vstd::prelude::*;

verus! {

/// I2C address of the GNSS receiver.
pub const GNSS_ADDRESS: u8 = 0x42;

/// Register of the GNSS receiver that starts the two-byte count of bytes
/// waiting (most significant byte first).
pub const GNSS_AVAILABLE_REGISTER: u8 = 0xfd;

/// Largest number of stream bytes read from the GNSS receiver at once.
pub const GNSS_READ_CHUNK: usize = 256;

/// Little-endian bytes of a 16-bit word.
pub open spec fn le_bytes(v: u16) -> Seq<u8> {
    seq![(v % 256) as u8, (v / 256) as u8]
}

/// The report frame of a motion-sensor reading: the label's low byte, then
/// the three half-precision values, each as its little-endian bits.
pub open spec fn reading_text(label: char, bits: Seq<u16>) -> Seq<u8> {
    seq![(label as u32 % 256) as u8] + le_bytes(bits[0]) + le_bytes(bits[1]) + le_bytes(bits[2])
}

/// Builds the seven-byte report of a three-axis reading whose values are
/// given by their half-precision bits, tagged with `label`. The label's
/// char value is cut to its low byte.
pub fn reading_payload(label: char, bits: [u16; 3]) -> (payload: [u8; 7])
    ensures
        payload@ == reading_text(label, bits@),
        payload@[0] as u32 == label as u32 % 256,
        forall|i: int|
            0 <= i < 3 ==> payload@[1 + 2 * i] + 256 * payload@[2 + 2 * i] == #[trigger] bits@[i],
{
    let tag: u8 = (label as u32 % 256) as u8;
    let x = bits[0];
    let y = bits[1];
    let z = bits[2];
    let payload: [u8; 7] = [
        tag,
        (x % 256) as u8,
        (x / 256) as u8,
        (y % 256) as u8,
        (y / 256) as u8,
        (z % 256) as u8,
        (z / 256) as u8,
    ];
    assert(payload@ =~= reading_text(label, bits@));
    proof {
        lemma_reading_text_layout(label, bits@);
    }
    payload
}

/// A report is seven bytes: the label's char value cut to its low byte, then
/// each of the three words, low byte first, from which it is read back.
pub proof fn lemma_reading_text_layout(label: char, bits: Seq<u16>)
    requires
        bits.len() == 3,
    ensures
        reading_text(label, bits).len() == 7,
        reading_text(label, bits)[0] as u32 == label as u32 % 256,
        forall|i: int|
            0 <= i < 3 ==> reading_text(label, bits)[1 + 2 * i] + 256 * reading_text(label, bits)[2
                + 2 * i] == #[trigger] bits[i],
{
}

/// Number of stream bytes the GNSS receiver reports waiting, from its two
/// count registers (most significant first).
pub fn gnss_bytes_available(avail: [u8; 2]) -> (count: usize)
    ensures
        count == avail@[0] * 256 + avail@[1],
{
    let hi = avail[0];
    let lo = avail[1];
    let count: usize = (hi as usize) << 8 | lo as usize;
    assert(((hi as usize) << 8 | lo as usize) == hi * 256 + lo) by (bit_vector);
    count
}

/// The next read from the GNSS stream while `remaining` bytes wait: none
/// once nothing waits, else up to 256 bytes, with the count left after it.
pub fn gnss_next_read(remaining: usize) -> (step: Option<(usize, usize)>)
    ensures
        step == gnss_step(remaining as nat),
        step is None <==> remaining == 0,
        step matches Some((n, rest)) ==> {
            &&& n + rest == remaining
            &&& 1 <= n <= 256
            &&& (rest > 0 ==> n == 256)
        },
{
    if remaining == 0 {
        None
    } else if remaining > GNSS_READ_CHUNK {
        Some((GNSS_READ_CHUNK, remaining - GNSS_READ_CHUNK))
    } else {
        Some((remaining, 0))
    }
}

/// One step of reading the GNSS stream: the size of the next read and the
/// count left after it, or none once nothing waits.
pub open spec fn gnss_step(remaining: nat) -> Option<(usize, usize)> {
    if remaining == 0 {
        None
    } else if remaining > 256 {
        Some((256usize, (remaining - 256) as usize))
    } else {
        Some((remaining as usize, 0usize))
    }
}

/// The sizes of the successive reads that drain `remaining` waiting bytes.
pub open spec fn gnss_reads(remaining: nat) -> Seq<nat>
    decreases remaining,
{
    if remaining == 0 {
        Seq::empty()
    } else if remaining > 256 {
        seq![256nat] + gnss_reads((remaining - 256) as nat)
    } else {
        seq![remaining]
    }
}

pub open spec fn total(s: Seq<nat>) -> nat
    decreases s.len(),
{
    if s.len() == 0 {
        0
    } else {
        s[0] + total(s.drop_first())
    }
}

/// Draining the GNSS stream reads every waiting byte exactly once, in
/// reads of one to 256 bytes, all but the last of them 256 bytes long:
/// `(count + 255) / 256` reads in all.
pub proof fn lemma_gnss_reads_drain(count: nat)
    ensures
        total(gnss_reads(count)) == count,
        gnss_reads(count).len() == (count + 255) / 256,
        forall|i: int|
            0 <= i < gnss_reads(count).len() ==> 1 <= #[trigger] gnss_reads(count)[i] <= 256,
        forall|i: int| 0 <= i < gnss_reads(count).len() - 1 ==> #[trigger] gnss_reads(count)[i] == 256,
    decreases count,
{
    if count > 256 {
        let rest = (count - 256) as nat;
        lemma_gnss_reads_drain(rest);
        let s = gnss_reads(count);
        assert(s.drop_first() =~= gnss_reads(rest));
        assert forall|i: int| 0 <= i < s.len() implies 1 <= #[trigger] s[i] <= 256 by {
            if i > 0 {
                assert(s[i] == gnss_reads(rest)[i - 1]);
            }
        }
        assert forall|i: int| 0 <= i < s.len() - 1 implies #[trigger] s[i] == 256 by {
            if i > 0 {
                assert(s[i] == gnss_reads(rest)[i - 1]);
            }
        }
    } else if count > 0 {
        let s = gnss_reads(count);
        assert(s.drop_first() =~= Seq::<nat>::empty());
        assert(total(s.drop_first()) == 0);
    }
}

/// Each step of draining the GNSS stream reads the first of the remaining
/// reads and leaves the rest of them.
pub proof fn lemma_gnss_step_follows_reads(remaining: nat)
    requires
        remaining <= usize::MAX,
    ensures
        gnss_step(remaining) matches Some((n, rest)) ==> {
            &&& gnss_reads(remaining).len() > 0
            &&& n == gnss_reads(remaining)[0]
            &&& gnss_reads(rest as nat) =~= gnss_reads(remaining).drop_first()
        },
        gnss_step(remaining) is None <==> gnss_reads(remaining).len() == 0,
{
    if remaining > 256 {
        assert(gnss_reads(remaining).drop_first() =~= gnss_reads((remaining - 256) as nat));
    } else if remaining > 0 {
        assert(gnss_reads(remaining).drop_first() =~= Seq::<nat>::empty());
        assert(gnss_reads(0) =~= Seq::<nat>::empty());
    }
}

/// The thermocouple converter's reading, in quarter degrees Celsius: the
/// big-endian word it sends, without its three low status bits.
pub fn thermocouple_quarter_degrees(word: [u8; 2]) -> (quarters: u16)
    ensures
        quarters == (word@[0] * 256 + word@[1]) / 8,
{
    let hi = word[0];
    let lo = word[1];
    let raw: u16 = ((hi as u16) << 8) | lo as u16;
    assert((((hi as u16) << 8) | lo as u16) == hi * 256 + lo) by (bit_vector);
    let quarters: u16 = raw >> 3;
    assert(raw >> 3 == raw / 8) by (bit_vector);
    quarters
}

} // verus!
