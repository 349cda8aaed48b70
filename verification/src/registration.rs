//! How a module joins the bus: it seeds itself from two ADC readings,
//! waits a seed-dependent time, announces the seed as a decimal number,
//! and, once the server echoes that announcement, takes the identifier the
//! server assigns and answers with its name and kind.

use vstd::prelude::*;
use vstd::string::StringSliceAdditionalSpecFns;

verus! {

/// Width, in digits, to which the announced seed is padded with zeros.
pub const ANNOUNCE_WIDTH: usize = 7;

/// Capacity of the buffer that the configuration message is written into.
pub const CONFIG_CAPACITY: usize = 64;

/// Decimal digits (ASCII) of `n`, most significant first, without leading zeros.
pub open spec fn decimal_digits(n: nat) -> Seq<u8>
    decreases n,
{
    if n < 10 {
        seq![(48 + n) as u8]
    } else {
        decimal_digits(n / 10).push((48 + n % 10) as u8)
    }
}

/// `digits` preceded by as many ASCII zeros as it lacks to be `width` long.
pub open spec fn zero_padded(digits: Seq<u8>, width: nat) -> Seq<u8> {
    if digits.len() >= width {
        digits
    } else {
        Seq::new((width - digits.len()) as nat, |i: int| 48u8) + digits
    }
}

/// The announcement of a module whose seed is `seed`: its decimal digits,
/// padded with zeros to seven digits.
pub open spec fn announce_text(seed: u32) -> Seq<u8> {
    zero_padded(decimal_digits(seed as nat), ANNOUNCE_WIDTH as nat)
}

/// The configuration message `ID:<name>,TYPE:<kind>` and a line feed.
pub open spec fn config_text(name: Seq<u8>, kind: Seq<u8>) -> Seq<u8> {
    seq![73u8, 68u8, 58u8] + name + seq![44u8, 84u8, 89u8, 80u8, 69u8, 58u8] + kind + seq![10u8]
}

/// The number an ASCII digit string stands for.
pub open spec fn digits_value(s: Seq<u8>) -> int
    decreases s.len(),
{
    if s.len() == 0 {
        0
    } else {
        digits_value(s.drop_last()) * 10 + (s.last() - 48)
    }
}

pub open spec fn is_ascii_digit(b: u8) -> bool {
    48 <= b <= 57
}

/// Seed of a module: the product of two ADC readings of floating inputs.
pub fn rng_from_adc(first: u16, second: u16) -> (seed: u32)
    ensures
        seed == first * second,
{
    assert(first * second <= 65535 * 65535) by (nonlinear_arith)
        requires
            first <= 65535,
            second <= 65535,
    ;
    (first as u32) * (second as u32)
}

/// Milliseconds a module waits before announcing itself: the low byte of its
/// seed, so that modules powered up together do not all talk at once.
pub fn stagger_delay_ms(seed: u32) -> (ms: u64)
    ensures
        ms == seed % 256,
{
    let low = seed & 0xff;
    assert(seed & 0xff == seed % 256) by (bit_vector);
    low as u64
}

/// Appends the decimal digits of `n` to `out`.
fn push_decimal(out: &mut Vec<u8>, n: u32)
    ensures
        final(out)@ == old(out)@ + decimal_digits(n as nat),
    decreases n,
{
    if n < 10 {
        out.push(48 + n as u8);
    } else {
        push_decimal(out, n / 10);
        out.push(48 + (n % 10) as u8);
    }
}

/// The seed written in decimal, padded with zeros to seven digits.
pub fn announce_payload(seed: u32) -> (text: Vec<u8>)
    ensures
        text@ == announce_text(seed),
        digits_value(text@) == seed,
        ANNOUNCE_WIDTH <= text@.len() <= 10,
        text@.len() == ANNOUNCE_WIDTH || text@[0] != 48,
        forall|i: int| 0 <= i < text@.len() ==> is_ascii_digit(#[trigger] text@[i]),
{
    let mut digits: Vec<u8> = Vec::new();
    push_decimal(&mut digits, seed);
    assert(digits@ =~= decimal_digits(seed as nat));
    let mut text: Vec<u8> = Vec::new();
    if digits.len() < ANNOUNCE_WIDTH {
        let pad: usize = ANNOUNCE_WIDTH - digits.len();
        let mut i: usize = 0;
        while i < pad
            invariant
                i <= pad,
                text@ == Seq::new(i as nat, |j: int| 48u8),
            decreases pad - i,
        {
            text.push(48);
            i = i + 1;
            assert(text@ =~= Seq::new(i as nat, |j: int| 48u8));
        }
    }
    let ghost prefix = text@;
    let mut k: usize = 0;
    while k < digits.len()
        invariant
            k <= digits@.len(),
            text@ == prefix + digits@.take(k as int),
        decreases digits@.len() - k,
    {
        text.push(digits[k]);
        k = k + 1;
        assert(text@ =~= prefix + digits@.take(k as int));
    }
    assert(digits@.take(k as int) =~= digits@);
    assert(text@ =~= announce_text(seed));
    proof {
        lemma_announce_encodes_seed(seed);
    }
    text
}

/// Appends the bytes of `s` to `out`.
fn push_bytes(out: &mut Vec<u8>, s: &[u8])
    ensures
        final(out)@ == old(out)@ + s@,
{
    let mut i: usize = 0;
    let ghost start = out@;
    while i < s.len()
        invariant
            i <= s@.len(),
            out@ == start + s@.take(i as int),
        decreases s@.len() - i,
    {
        out.push(s[i]);
        i = i + 1;
        assert(out@ =~= start + s@.take(i as int));
    }
    assert(s@.take(i as int) =~= s@);
}

/// The configuration message a module sends once it has an identifier:
/// `ID:<name>,TYPE:<kind>` and a line feed. It must fit the 64-byte buffer
/// it is written into (ten bytes besides the name and the kind).
pub fn config_payload(name: &str, kind: &str) -> (text: Vec<u8>)
    requires
        name.len() + kind.len() + 10 <= CONFIG_CAPACITY,
    ensures
        text@ == config_text(name.spec_bytes(), kind.spec_bytes()),
        text@.len() == name.spec_bytes().len() + kind.spec_bytes().len() + 10,
        text@.subrange(0, 3) == seq![73u8, 68u8, 58u8],
        text@.subrange(3, 3 + name.spec_bytes().len() as int) == name.spec_bytes(),
        text@.subrange(3 + name.spec_bytes().len() as int, 9 + name.spec_bytes().len() as int) == seq![
            44u8,
            84u8,
            89u8,
            80u8,
            69u8,
            58u8,
        ],
        text@.subrange(
            9 + name.spec_bytes().len() as int,
            9 + name.spec_bytes().len() as int + kind.spec_bytes().len() as int,
        ) == kind.spec_bytes(),
        text@.last() == 10u8,
{
    let name_bytes = name.as_bytes();
    let kind_bytes = kind.as_bytes();
    let mut text: Vec<u8> = Vec::new();
    text.push(73);
    text.push(68);
    text.push(58);
    push_bytes(&mut text, name_bytes);
    text.push(44);
    text.push(84);
    text.push(89);
    text.push(80);
    text.push(69);
    text.push(58);
    push_bytes(&mut text, kind_bytes);
    text.push(10);
    assert(text@ =~= config_text(name.spec_bytes(), kind.spec_bytes()));
    proof {
        lemma_config_text_layout(name.spec_bytes(), kind.spec_bytes());
    }
    text
}

/// The configuration message is `ID:` (73, 68, 58), the name's bytes as
/// they are, `,TYPE:` (44, 84, 89, 80, 69, 58), the kind's bytes as they
/// are, and a line feed (10): ten bytes besides the name and the kind.
pub proof fn lemma_config_text_layout(name: Seq<u8>, kind: Seq<u8>)
    ensures
        config_text(name, kind).len() == name.len() + kind.len() + 10,
        config_text(name, kind).subrange(0, 3) == seq![73u8, 68u8, 58u8],
        config_text(name, kind).subrange(3, 3 + name.len() as int) == name,
        config_text(name, kind).subrange(3 + name.len() as int, 9 + name.len() as int) == seq![
            44u8,
            84u8,
            89u8,
            80u8,
            69u8,
            58u8,
        ],
        config_text(name, kind).subrange(9 + name.len() as int, 9 + name.len() as int + kind.len() as int) == kind,
        config_text(name, kind).last() == 10u8,
{
    let t = config_text(name, kind);
    assert(t.subrange(0, 3) =~= seq![73u8, 68u8, 58u8]);
    assert(t.subrange(3, 3 + name.len() as int) =~= name);
    assert(t.subrange(3 + name.len() as int, 9 + name.len() as int) =~= seq![44u8, 84u8, 89u8, 80u8, 69u8, 58u8]);
    assert(t.subrange(9 + name.len() as int, 9 + name.len() as int + kind.len() as int) =~= kind);
}


/// The digits of `n` are ASCII digits, at least one and at most ten of them
/// for a 32-bit value, and they stand for `n`.
proof fn lemma_decimal_digits(n: nat)
    ensures
        digits_value(decimal_digits(n)) == n,
        decimal_digits(n).len() >= 1,
        n > 0 ==> decimal_digits(n)[0] != 48,
        forall|i: int|
            0 <= i < decimal_digits(n).len() ==> is_ascii_digit(#[trigger] decimal_digits(n)[i]),
    decreases n,
{
    if n >= 10 {
        lemma_decimal_digits(n / 10);
        let s = decimal_digits(n);
        assert(s.drop_last() =~= decimal_digits(n / 10));
        assert(s[0] == decimal_digits(n / 10)[0]);
        assert(s.last() == 48 + n % 10);
        assert((n / 10) * 10 + n % 10 == n);
    } else {
        let s = decimal_digits(n);
        assert(s.drop_last() =~= Seq::<u8>::empty());
        assert(digits_value(s.drop_last()) == 0);
    }
}

/// Ten to the power `k`.
pub open spec fn pow10(k: nat) -> nat
    decreases k,
{
    if k == 0 {
        1
    } else {
        10 * pow10((k - 1) as nat)
    }
}

/// A number below ten to the `k` has at most `k` digits.
proof fn lemma_decimal_len(n: nat, k: nat)
    requires
        k >= 1,
        n < pow10(k),
    ensures
        decimal_digits(n).len() <= k,
    decreases k,
{
    if n >= 10 {
        assert(k >= 2) by {
            if k == 1 {
                assert(pow10(1) == 10 * pow10(0));
            }
        }
        assert(n / 10 < pow10((k - 1) as nat));
        lemma_decimal_len(n / 10, (k - 1) as nat);
    }
}

/// A run of ASCII zeros stands for zero.
proof fn lemma_zeros_value(k: nat)
    ensures
        digits_value(Seq::new(k, |i: int| 48u8)) == 0,
    decreases k,
{
    if k > 0 {
        lemma_zeros_value((k - 1) as nat);
        assert(Seq::new(k, |i: int| 48u8).drop_last() =~= Seq::new((k - 1) as nat, |i: int| 48u8));
    }
}

/// Leading ASCII zeros do not change the number a digit string stands for.
proof fn lemma_leading_zeros(k: nat, d: Seq<u8>)
    ensures
        digits_value(Seq::new(k, |i: int| 48u8) + d) == digits_value(d),
    decreases d.len(),
{
    let z = Seq::new(k, |i: int| 48u8);
    if d.len() == 0 {
        assert(z + d =~= z);
        lemma_zeros_value(k);
    } else {
        lemma_leading_zeros(k, d.drop_last());
        assert((z + d).drop_last() =~= z + d.drop_last());
    }
}

/// The announcement of a seed is seven to ten ASCII digits, with no zero in
/// front beyond the seven-digit width, and, read as a decimal number, gives
/// the seed back. Only one digit string has these properties.
pub proof fn lemma_announce_encodes_seed(seed: u32)
    ensures
        digits_value(announce_text(seed)) == seed,
        ANNOUNCE_WIDTH <= announce_text(seed).len() <= 10,
        announce_text(seed).len() == ANNOUNCE_WIDTH || announce_text(seed)[0] != 48,
        forall|i: int|
            0 <= i < announce_text(seed).len() ==> is_ascii_digit(#[trigger] announce_text(seed)[i]),
{
    let d = decimal_digits(seed as nat);
    lemma_decimal_digits(seed as nat);
    assert(pow10(10) == 10000000000) by {
        reveal_with_fuel(pow10, 11);
    }
    lemma_decimal_len(seed as nat, 10);
    if d.len() < ANNOUNCE_WIDTH {
        let k = (ANNOUNCE_WIDTH - d.len()) as nat;
        lemma_leading_zeros(k, d);
        let t = announce_text(seed);
        assert(t == Seq::new(k, |i: int| 48u8) + d);
        assert forall|i: int| 0 <= i < t.len() implies is_ascii_digit(#[trigger] t[i]) by {
            if i >= k {
                assert(t[i] == d[i - k]);
            }
        }
    }
}


/// `a` and `b` hold the same bytes.
fn bytes_equal(a: &[u8], b: &[u8]) -> (same: bool)
    ensures
        same == (a@ == b@),
{
    if a.len() != b.len() {
        return false;
    }
    let mut i: usize = 0;
    while i < a.len()
        invariant
            i <= a@.len(),
            a@.len() == b@.len(),
            a@.take(i as int) == b@.take(i as int),
        decreases a@.len() - i,
    {
        if a[i] != b[i] {
            assert(a@[i as int] != b@[i as int]);
            return false;
        }
        assert(a@.take(i + 1) =~= a@.take(i as int).push(a@[i as int]));
        assert(b@.take(i + 1) =~= b@.take(i as int).push(b@[i as int]));
        i = i + 1;
    }
    assert(a@ =~= a@.take(i as int));
    assert(b@ =~= b@.take(i as int));
    true
}

/// Where a module stands in joining the bus.
#[derive(PartialEq, Eq, Structural, Debug, Clone, Copy)]
pub enum JoinPhase {
    /// The announcement is out; the module waits for the server to echo it.
    Listening,
    /// The echo came; the next frame on the bus carries the identifier.
    Assigning,
    /// The module has been given this identifier.
    Joined(u8),
}

/// What the module does next while it joins.
#[derive(PartialEq, Eq, Structural, Debug, Clone, Copy)]
pub enum JoinAction {
    /// Keep polling the inbox for the echo.
    PollInbox,
    /// Read the next frame from the bus: it carries the identifier.
    ReadAssignment,
    /// Send the configuration message on this identifier; joining is done.
    SendConfig(u8),
}

/// The join handshake of one module, from its announcement to the
/// identifier the server assigns it.
pub struct JoinSession {
    announce: Vec<u8>,
    phase: JoinPhase,
}

impl JoinSession {
    /// The announcement this module sent.
    pub closed spec fn announce_view(&self) -> Seq<u8> {
        self.announce@
    }

    /// Where it stands.
    pub closed spec fn phase_view(&self) -> JoinPhase {
        self.phase
    }

    /// Starts joining for a module seeded with `seed`: it listens for the
    /// echo of its announcement.
    pub fn new(seed: u32) -> (session: JoinSession)
        ensures
            session.announce_view() == announce_text(seed),
            session.phase_view() == JoinPhase::Listening,
    {
        JoinSession { announce: announce_payload(seed), phase: JoinPhase::Listening }
    }

    /// The announcement, to be sent on the announce identifier.
    pub fn announce(&self) -> (text: &[u8])
        ensures
            text@ == self.announce_view(),
    {
        self.announce.as_slice()
    }

    /// Where the session stands.
    pub fn phase(&self) -> (phase: JoinPhase)
        ensures
            phase == self.phase_view(),
    {
        self.phase
    }

    /// A frame was delivered from the inbox while listening. Only an exact
    /// echo of the announcement moves the session on, to read the
    /// assignment; any other frame is not for this module.
    pub fn on_inbox_frame(&mut self, data: &[u8]) -> (action: JoinAction)
        requires
            old(self).phase_view() == JoinPhase::Listening,
        ensures
            final(self).announce_view() == old(self).announce_view(),
            data@ == old(self).announce_view() ==> {
                &&& final(self).phase_view() == JoinPhase::Assigning
                &&& action == JoinAction::ReadAssignment
            },
            data@ != old(self).announce_view() ==> {
                &&& final(self).phase_view() == JoinPhase::Listening
                &&& action == JoinAction::PollInbox
            },
    {
        if bytes_equal(data, self.announce.as_slice()) {
            self.phase = JoinPhase::Assigning;
            JoinAction::ReadAssignment
        } else {
            JoinAction::PollInbox
        }
    }

    /// The frame after the echo arrived: its first byte is the module's
    /// identifier, on which it then sends its configuration message
    /// (`config_payload`).
    pub fn on_assignment(&mut self, data: &[u8]) -> (action: JoinAction)
        requires
            old(self).phase_view() == JoinPhase::Assigning,
            data@.len() > 0,
        ensures
            final(self).announce_view() == old(self).announce_view(),
            final(self).phase_view() == JoinPhase::Joined(data@[0]),
            action == JoinAction::SendConfig(data@[0]),
    {
        let id = data[0];
        self.phase = JoinPhase::Joined(id);
        JoinAction::SendConfig(id)
    }
}

} // verus!
