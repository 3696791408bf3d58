use vstd::prelude::*;

use crate::command::Command;

verus! {

/// One wire frame: exactly 7 bytes, stored in transmission order
/// `[key, command|checksum, rolling code (big-endian), address (little-endian)]`,
/// already whitened. A frame is immutable once built, apart from the explicit
/// whitening transforms below.
#[derive(Debug, Clone, Copy)]
pub struct Frame {
    key: u8,
    command_and_checksum: u8,
    rolling_code_high: u8,
    rolling_code_low: u8,
    address_low: u8,
    address_mid: u8,
    address_high: u8,
}

impl View for Frame {
    type V = Seq<u8>;

    closed spec fn view(&self) -> Seq<u8> {
        seq![
            self.key,
            self.command_and_checksum,
            self.rolling_code_high,
            self.rolling_code_low,
            self.address_low,
            self.address_mid,
            self.address_high,
        ]
    }
}

/// Byte `i` of the whitened form of `s`: byte 0 is kept, and every later byte
/// is XORed with its already-whitened predecessor.
pub open spec fn whitened_at(s: Seq<u8>, i: int) -> u8
    recommends
        0 <= i < s.len(),
    decreases i,
{
    if i <= 0 {
        s[0]
    } else {
        s[i] ^ whitened_at(s, i - 1)
    }
}

/// The whitening (obfuscation) transform: a strictly ordered XOR chain, each
/// byte after the first XORed with the whitened byte before it.
pub open spec fn whiten(s: Seq<u8>) -> Seq<u8> {
    Seq::new(s.len(), |i: int| whitened_at(s, i))
}

/// The de-whitening transform: each byte after the first XORed with the raw
/// byte before it, from which the XOR chain of `whiten` unwinds.
pub open spec fn dewhiten(s: Seq<u8>) -> Seq<u8> {
    Seq::new(s.len(), |i: int| if i == 0 { s[0] } else { s[i] ^ s[i - 1] })
}

/// XOR cancels itself: masking with the same byte twice is the identity.
proof fn lemma_xor_cancel(a: u8, b: u8)
    ensures
        (a ^ b) ^ b == a,
{
    assert((a ^ b) ^ b == a) by (bit_vector);
}

/// De-whitening a whitened sequence restores the original bytes.
pub proof fn lemma_dewhiten_whiten(s: Seq<u8>)
    requires
        s.len() > 0,
    ensures
        dewhiten(whiten(s)) == s,
{
    let w = whiten(s);
    assert forall|i: int| 0 <= i < s.len() implies dewhiten(w)[i] == s[i] by {
        if i > 0 {
            lemma_xor_cancel(s[i], whitened_at(s, i - 1));
        }
    }
    assert(dewhiten(whiten(s)) =~= s);
}

/// The 4-bit checksum of a frame: the XOR-fold of every nibble of the seven
/// pre-whitening bytes, masked to 4 bits. Only the high nibble of the command
/// byte takes part, since the checksum itself occupies the low nibble.
pub open spec fn checksum(
    key: u8,
    command_byte: u8,
    rolling_code_high: u8,
    rolling_code_low: u8,
    address_low: u8,
    address_mid: u8,
    address_high: u8,
) -> u8 {
    ((key >> 4) ^ key ^ (command_byte >> 4) ^ (rolling_code_high >> 4) ^ rolling_code_high
        ^ (rolling_code_low >> 4) ^ rolling_code_low ^ (address_low >> 4) ^ address_low
        ^ (address_mid >> 4) ^ address_mid ^ (address_high >> 4) ^ address_high) & 0xF
}

/// The seven frame bytes before whitening: key, command byte with the
/// checksum folded into its low nibble, the rolling code big-endian, and the
/// address little-endian. The byte-order asymmetry is part of the wire format.
pub open spec fn plain_bytes(key: u8, command: Command, rolling_code: u16, address: u32) -> Seq<
    u8,
> {
    let rolling_code_high = (rolling_code >> 8) as u8;
    let rolling_code_low = rolling_code as u8;
    let address_low = address as u8;
    let address_mid = (address >> 8) as u8;
    let address_high = (address >> 16) as u8;
    let cks = checksum(
        key,
        command.spec_byte(),
        rolling_code_high,
        rolling_code_low,
        address_low,
        address_mid,
        address_high,
    );
    seq![
        key,
        command.spec_byte() | cks,
        rolling_code_high,
        rolling_code_low,
        address_low,
        address_mid,
        address_high,
    ]
}

/// The bytes of a fully built frame: the pre-whitening bytes passed through
/// the whitening transform.
pub open spec fn built_bytes(key: u8, command: Command, rolling_code: u16, address: u32) -> Seq<
    u8,
> {
    whiten(plain_bytes(key, command, rolling_code, address))
}

impl Frame {
    /// Whiten the frame in place: XOR every byte after the key with the
    /// already-whitened byte before it, in strict left-to-right order.
    pub fn obfuscate(&mut self)
        ensures
            final(self)@ == whiten(old(self)@),
    {
        self.command_and_checksum = self.command_and_checksum ^ self.key;
        self.rolling_code_high = self.rolling_code_high ^ self.command_and_checksum;
        self.rolling_code_low = self.rolling_code_low ^ self.rolling_code_high;
        self.address_low = self.address_low ^ self.rolling_code_low;
        self.address_mid = self.address_mid ^ self.address_low;
        self.address_high = self.address_high ^ self.address_mid;
        proof {
            reveal_with_fuel(whitened_at, 8);
            assert(self@ =~= whiten(old(self)@));
        }
    }

    /// De-whiten the frame in place: XOR every byte after the key with the
    /// raw byte before it, unwinding the chain of `obfuscate`.
    pub fn deobfuscate(&mut self)
        ensures
            final(self)@ == dewhiten(old(self)@),
    {
        self.address_high = self.address_high ^ self.address_mid;
        self.address_mid = self.address_mid ^ self.address_low;
        self.address_low = self.address_low ^ self.rolling_code_low;
        self.rolling_code_low = self.rolling_code_low ^ self.rolling_code_high;
        self.rolling_code_high = self.rolling_code_high ^ self.command_and_checksum;
        self.command_and_checksum = self.command_and_checksum ^ self.key;
        proof {
            assert(self@ =~= dewhiten(old(self)@));
        }
    }

    /// A fresh builder with no field set.
    pub fn builder() -> (b: FrameBuilder)
        ensures
            b.key is None,
            b.command is None,
            b.rolling_code is None,
            b.remote_address is None,
    {
        FrameBuilder {
            key: None,
            command: None,
            rolling_code: None,
            remote_address: None,
        }
    }

    /// The rolling-code field of the frame, decoded big-endian from bytes 2
    /// and 3 exactly as they stand (whitened, for a built frame).
    pub fn rolling_code(&self) -> (code: u16)
        ensures
            code == self@[2] * 0x100 + self@[3],
    {
        (self.rolling_code_high as u16) * 0x100 + (self.rolling_code_low as u16)
    }

    /// The 7 frame bytes in transmission order. A frame is always exactly
    /// 7 bytes, whatever it was built from.
    pub fn as_bytes(&self) -> (bytes: Vec<u8>)
        ensures
            bytes@ == self@,
            bytes@.len() == 7,
    {
        let mut bytes: Vec<u8> = Vec::new();
        bytes.push(self.key);
        bytes.push(self.command_and_checksum);
        bytes.push(self.rolling_code_high);
        bytes.push(self.rolling_code_low);
        bytes.push(self.address_low);
        bytes.push(self.address_mid);
        bytes.push(self.address_high);
        proof {
            assert(bytes@ =~= self@);
        }
        bytes
    }
}

/// Collects the four frame fields; `build` succeeds exactly when all four
/// have been given. The address is the 24-bit identity of the paired
/// receiver, so its setter admits only values below 2^24.
#[derive(Debug, Clone)]
pub struct FrameBuilder {
    pub key: Option<u8>,
    pub command: Option<Command>,
    pub rolling_code: Option<u16>,
    pub remote_address: Option<u32>,
}

impl Default for FrameBuilder {
    /// A builder with no field set, as `Frame::builder` returns.
    fn default() -> (b: FrameBuilder)
        ensures
            b.key is None,
            b.command is None,
            b.rolling_code is None,
            b.remote_address is None,
    {
        FrameBuilder { key: None, command: None, rolling_code: None, remote_address: None }
    }
}

impl FrameBuilder {
    /// Set the whitening key.
    pub fn key(self, key: u8) -> (b: FrameBuilder)
        ensures
            b == (FrameBuilder { key: Some(key), ..self }),
    {
        FrameBuilder { key: Some(key), ..self }
    }

    /// Set the command.
    pub fn command(self, command: Command) -> (b: FrameBuilder)
        ensures
            b == (FrameBuilder { command: Some(command), ..self }),
    {
        FrameBuilder { command: Some(command), ..self }
    }

    /// Set the rolling code.
    pub fn rolling_code(self, rolling_code: u16) -> (b: FrameBuilder)
        ensures
            b == (FrameBuilder { rolling_code: Some(rolling_code), ..self }),
    {
        FrameBuilder { rolling_code: Some(rolling_code), ..self }
    }

    /// Set the 24-bit remote address.
    pub fn remote_address(self, remote_address: u32) -> (b: FrameBuilder)
        requires
            remote_address < 0x1000000,
        ensures
            b == (FrameBuilder { remote_address: Some(remote_address), ..self }),
    {
        FrameBuilder { remote_address: Some(remote_address), ..self }
    }

    /// Build the frame: compute the checksum over the unwhitened bytes, fold
    /// it into the command byte's low nibble, and whiten. All four fields
    /// are required, so verified callers cannot reach the `None` case; an
    /// unverified caller that left a field unset still gets `None` back.
    pub fn build(&self) -> (frame: Option<Frame>)
        requires
            self.key is Some,
            self.command is Some,
            self.rolling_code is Some,
            self.remote_address is Some,
        ensures
            frame is Some <==> (self.key is Some && self.command is Some
                && self.rolling_code is Some && self.remote_address is Some),
            frame matches Some(f) ==> f@ == built_bytes(
                self.key->0,
                self.command->0,
                self.rolling_code->0,
                self.remote_address->0,
            ),
    {
        let key = match self.key {
            Some(key) => key,
            None => { return None },
        };
        let command = match self.command {
            Some(command) => command,
            None => { return None },
        };
        let rolling_code = match self.rolling_code {
            Some(rolling_code) => rolling_code,
            None => { return None },
        };
        let remote_address = match self.remote_address {
            Some(remote_address) => remote_address,
            None => { return None },
        };

        let command_byte = command.byte();
        let rolling_code_high = (rolling_code >> 8) as u8;
        let rolling_code_low = rolling_code as u8;
        let address_low = remote_address as u8;
        let address_mid = (remote_address >> 8) as u8;
        let address_high = (remote_address >> 16) as u8;

        let cks = ((key >> 4) ^ key ^ (command_byte >> 4) ^ (rolling_code_high >> 4)
            ^ rolling_code_high ^ (rolling_code_low >> 4) ^ rolling_code_low
            ^ (address_low >> 4) ^ address_low ^ (address_mid >> 4) ^ address_mid
            ^ (address_high >> 4) ^ address_high) & 0xF;

        let mut frame = Frame {
            key,
            command_and_checksum: command_byte | cks,
            rolling_code_high,
            rolling_code_low,
            address_low,
            address_mid,
            address_high,
        };
        proof {
            assert(frame@ =~= plain_bytes(key, command, rolling_code, remote_address));
        }
        frame.obfuscate();

        Some(frame)
    }
}

/// The whitened output of a build de-whitens back to the pre-whitening
/// bytes, and the checksum recomputed from those de-whitened bytes equals
/// the checksum embedded in the command byte's low nibble at build time.
pub proof fn lemma_checksum_roundtrip(key: u8, command: Command, rolling_code: u16, address: u32)
    ensures
        dewhiten(built_bytes(key, command, rolling_code, address)) == plain_bytes(
            key,
            command,
            rolling_code,
            address,
        ),
        ({
            let d = dewhiten(built_bytes(key, command, rolling_code, address));
            d[1] & 0xF == checksum(d[0], d[1], d[2], d[3], d[4], d[5], d[6])
        }),
{
    let p = plain_bytes(key, command, rolling_code, address);
    lemma_dewhiten_whiten(p);
    let code = command.spec_code();
    let cb = command.spec_byte();
    assert(code <= 0xA);
    lemma_code_byte_low_nibble_empty(code);
    let chain = (key >> 4) ^ key ^ (cb >> 4) ^ (p[2] >> 4) ^ p[2] ^ (p[3] >> 4) ^ p[3] ^ (p[4]
        >> 4) ^ p[4] ^ (p[5] >> 4) ^ p[5] ^ (p[6] >> 4) ^ p[6];
    let cks = checksum(key, cb, p[2], p[3], p[4], p[5], p[6]);
    assert(cks == chain & 0xF);
    lemma_nibble_mask_idempotent(chain);
    lemma_checksum_embedding(cb, cks);
}

/// A command byte (4-bit code shifted into the high nibble) has an empty low
/// nibble.
proof fn lemma_code_byte_low_nibble_empty(code: u8)
    by (bit_vector)
    requires
        code <= 0xA,
    ensures
        ((code * 0x10) as u8) & 0x0F == 0,
{
}

/// Masking to the low nibble is idempotent.
proof fn lemma_nibble_mask_idempotent(x: u8)
    by (bit_vector)
    ensures
        (x & 0xF) & 0xF == x & 0xF,
{
}

/// One transmission a sender was asked to perform: the frame's bytes, the
/// repetition count it was asked for, and whether the send succeeded.
pub struct Transmission {
    pub bytes: Seq<u8>,
    pub repetitions: nat,
    pub succeeded: bool,
}

/// Anything that can transmit a built frame. The ghost `sent` log records
/// every transmission a sender was asked to perform, so callers can state
/// what was handed over; the library's own implementations say on their
/// inherent methods exactly what leaves the line besides.
pub trait SendFrame {
    type Error;

    /// Every transmission this sender was asked to perform, in order, and
    /// whether it succeeded.
    spec fn sent(&self) -> Seq<Transmission>;

    /// Whether this kind of sender can fail at all. A sender that declares
    /// itself infallible promises that every send succeeds.
    open spec fn spec_infallible() -> bool {
        false
    }

    /// Send a frame once.
    fn send_frame(&mut self, frame: &Frame) -> (result: Result<(), Self::Error>)
        ensures
            result is Ok ==> final(self).sent() == old(self).sent().push(
                (Transmission { bytes: frame@, repetitions: 0, succeeded: true }),
            ),
            result is Err ==> final(self).sent() == old(self).sent().push(
                (Transmission { bytes: frame@, repetitions: 0, succeeded: false }),
            ),
            Self::spec_infallible() ==> result is Ok,
    {
        self.send_frame_repeat(frame, 0)
    }

    /// Send a frame, then repeat it `repetitions` more times, so the total
    /// number sent is `1 + repetitions`.
    fn send_frame_repeat(&mut self, frame: &Frame, repetitions: usize) -> (result: Result<
        (),
        Self::Error,
    >)
        ensures
            result is Ok ==> final(self).sent() == old(self).sent().push(
                (Transmission {
                    bytes: frame@,
                    repetitions: repetitions as nat,
                    succeeded: true,
                }),
            ),
            result is Err ==> final(self).sent() == old(self).sent().push(
                (Transmission {
                    bytes: frame@,
                    repetitions: repetitions as nat,
                    succeeded: false,
                }),
            ),
            Self::spec_infallible() ==> result is Ok,
    ;
}

/// Folding a 4-bit checksum into the empty low nibble of the command byte
/// leaves both recoverable: the low nibble is the checksum, the high nibble
/// is the command's.
proof fn lemma_checksum_embedding(cb: u8, cks: u8)
    by (bit_vector)
    requires
        cb & 0x0F == 0,
        cks & 0xF == cks,
    ensures
        (cb | cks) & 0xF == cks,
        (cb | cks) >> 4 == cb >> 4,
{
}

} // verus!
