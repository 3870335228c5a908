//! The UV-K5 read, write and reset sessions, as state machines: each
//! step consumes the payload of the radio's last reply and says which
//! frame to send next, or what the session produced. The caller moves
//! the bytes over the serial line.
use vstd::prelude::*;

use super::error::UvK5Error;
use super::wire::{
    build_frame, build_write_payload, hello_bytes, read_command, reset_bytes, spec_frame,
    spec_read_command, spec_write_payload, EEPROM_SIZE, HELLO, READ_BLOCK, WRITABLE_SIZE,
    WRITE_BLOCK, WRITE_REPLY_OPCODE,
};
use crate::step::SessionStep;
use crate::text::latin1;

verus! {

/// The frame that opens every session.
pub fn hello_frame() -> (f: Vec<u8>)
    ensures
        f@ == spec_frame(hello_bytes()),
{
    let h = HELLO;
    assert(h@ =~= hello_bytes());
    build_frame(&h)
}

/// The run of printable ASCII (`0x20..=0x7E`) at the front of `bytes`.
pub open spec fn printable_prefix(bytes: Seq<u8>) -> Seq<u8>
    decreases bytes.len(),
{
    if bytes.len() == 0 || !(0x20 <= bytes[0] <= 0x7E) {
        seq![]
    } else {
        seq![bytes[0]] + printable_prefix(bytes.drop_first())
    }
}

/// The firmware identity a hello reply carries: the printable ASCII run
/// starting at byte 4.
pub open spec fn firmware_text(reply: Seq<u8>) -> Seq<char> {
    latin1(printable_prefix(reply.skip(4)))
}

/// The firmware identity of a hello reply; a reply shorter than five
/// bytes means the radio did not answer the hello.
pub fn firmware_of(reply: &[u8]) -> (r: Result<String, UvK5Error>)
    ensures
        match r {
            Ok(s) => reply@.len() >= 5 && s@ == firmware_text(reply@),
            Err(e) => reply@.len() < 5 && e == UvK5Error::NoHelloReply,
        },
{
    if reply.len() < 5 {
        return Err(UvK5Error::NoHelloReply);
    }
    let mut s = String::new();
    let mut i: usize = 4;
    let ghost tail = reply@.skip(4);
    assert(reply@.skip(4) =~= tail);
    while i < reply.len() && 0x20 <= reply[i] && reply[i] <= 0x7E
        invariant
            4 <= i <= reply@.len(),
            tail == reply@.skip(4),
            latin1(printable_prefix(tail)) == s@ + latin1(printable_prefix(reply@.skip(i as int))),
        decreases reply@.len() - i,
    {
        let b = reply[i];
        let ghost rest = reply@.skip(i as int);
        assert(rest.drop_first() =~= reply@.skip(i + 1));
        assert(printable_prefix(rest) == seq![b] + printable_prefix(reply@.skip(i + 1)));
        assert(latin1(seq![b] + printable_prefix(reply@.skip(i + 1))) =~= seq![b as char]
            + latin1(printable_prefix(reply@.skip(i + 1))));
        let ghost before = s@;
        crate::text::push_char(&mut s, b as char);
        assert(before + (seq![b as char] + latin1(printable_prefix(reply@.skip(i + 1))))
            =~= s@ + latin1(printable_prefix(reply@.skip(i + 1))));
        i = i + 1;
    }
    assert(printable_prefix(reply@.skip(i as int)) =~= Seq::<u8>::empty());
    assert(s@ + latin1(Seq::<u8>::empty()) =~= s@);
    Ok(s)
}

/// The data of a read reply: everything after its 8-byte header.
pub fn read_mem_data(reply: &[u8]) -> (r: Result<Vec<u8>, UvK5Error>)
    ensures
        match r {
            Ok(d) => reply@.len() >= 8 && d@ == reply@.skip(8),
            Err(e) => reply@.len() < 8 && e == UvK5Error::ShortEeprom { got: reply@.len() as usize },
        },
{
    if reply.len() < 8 {
        return Err(UvK5Error::ShortEeprom { got: reply.len() });
    }
    let mut d: Vec<u8> = Vec::new();
    d.extend_from_slice(&reply[8..reply.len()]);
    assert(d@ =~= reply@.skip(8));
    Ok(d)
}

/// Whether `reply` acknowledges a write at `offset`: it carries the
/// write-reply opcode and echoes `offset` (little-endian, bytes 4..6).
pub open spec fn write_acknowledged(offset: u16, reply: Seq<u8>) -> bool {
    reply.len() >= 8 && reply[0] == 0x1E && reply[4] + 256 * reply[5] == offset
}

/// The error a reply that does not acknowledge a write at `offset`
/// is reported with: a reply without the opcode (or shorter than 8
/// bytes) with its first bytes, a reply echoing another address with
/// that address.
pub open spec fn write_reply_error(offset: u16, reply: Seq<u8>, e: UvK5Error) -> bool {
    match e {
        UvK5Error::BadWriteReply { offset: o, reply: head } => !(reply.len() >= 8 && reply[0]
            == 0x1E) && o == offset && head@ == reply.take(
            if reply.len() < 8 {
                reply.len() as int
            } else {
                8
            },
        ),
        UvK5Error::BadWriteAddress { expected, got } => reply.len() >= 8 && reply[0] == 0x1E
            && expected == offset && got == reply[4] + 256 * reply[5] && got != offset,
        _ => false,
    }
}

/// Check the radio's reply to a write at `offset`.
pub fn check_write_reply(offset: u16, reply: &[u8]) -> (r: Result<(), UvK5Error>)
    ensures
        (r is Ok) == write_acknowledged(offset, reply@),
        r matches Err(e) ==> write_reply_error(offset, reply@, e),
{
    if reply.len() >= 8 && reply[0] == WRITE_REPLY_OPCODE {
        let echoed: u16 = reply[4] as u16 + (reply[5] as u16) * 256;
        if echoed != offset {
            return Err(UvK5Error::BadWriteAddress { expected: offset, got: echoed });
        }
        Ok(())
    } else {
        let head_len = if reply.len() < 8 {
            reply.len()
        } else {
            8
        };
        let mut head: Vec<u8> = Vec::new();
        head.extend_from_slice(&reply[0..head_len]);
        assert(head@ =~= reply@.take(head_len as int));
        Err(UvK5Error::BadWriteReply { offset, reply: head })
    }
}

/// The frame that makes the radio reboot (`DD 05 00 00`), so a freshly
/// written image takes effect.
pub fn reset_radio() -> (f: Vec<u8>)
    ensures
        f@ == spec_frame(reset_bytes()),
{
    let p: [u8; 4] = [0xDD, 0x05, 0x00, 0x00];
    assert(p@ =~= reset_bytes());
    build_frame(&p)
}

// -------- reading --------

/// A download of the whole 8 KiB EEPROM in 128-byte blocks.
pub struct EepromRead {
    data: Vec<u8>,
    next: usize,
    greeted: bool,
}

impl EepromRead {
    /// Whether the hello has been answered.
    pub closed spec fn greeted(&self) -> bool {
        self.greeted
    }

    /// Address of the block requested last.
    pub closed spec fn next(&self) -> int {
        self.next as int
    }

    /// Data received so far.
    pub closed spec fn data(&self) -> Seq<u8> {
        self.data@
    }

    /// Internal consistency: a pending block lies inside the EEPROM.
    pub closed spec fn wf(&self) -> bool {
        self.greeted ==> self.next < EEPROM_SIZE
    }

    /// Take the payload of the radio's reply to the last frame sent.
    /// After the hello: request block 0. After each block: append its
    /// data, then request the next block, or, once the whole EEPROM has
    /// been requested, hand back its first `EEPROM_SIZE` bytes.
    pub fn on_reply(&mut self, reply: &[u8]) -> (r: Result<SessionStep<Vec<u8>>, UvK5Error>)
        requires
            old(self).wf(),
        ensures
            final(self).wf(),
            !old(self).greeted() ==> match r {
                Ok(SessionStep::Send(f)) => reply@.len() >= 5 && final(self).greeted()
                    && final(self).next() == 0 && final(self).data() == old(self).data()
                    && f@ == spec_frame(spec_read_command(0, 0x80)),
                Ok(SessionStep::Finished(_)) => false,
                Err(e) => reply@.len() < 5 && e == UvK5Error::NoHelloReply,
            },
            old(self).greeted() ==> {
                let data = old(self).data() + reply@.skip(8);
                let next = old(self).next() + 0x80;
                match r {
                    Ok(SessionStep::Send(f)) => reply@.len() >= 8 && next < 0x2000
                        && final(self).greeted() && final(self).next() == next && final(self).data()
                        == data && f@ == spec_frame(spec_read_command(next as u16, 0x80)),
                    Ok(SessionStep::Finished(e)) => reply@.len() >= 8 && next >= 0x2000
                        && data.len() >= 0x2000 && e@ == data.take(0x2000),
                    Err(e) => {
                        ||| reply@.len() < 8 && e == UvK5Error::ShortEeprom {
                            got: reply@.len() as usize,
                        }
                        ||| reply@.len() >= 8 && next >= 0x2000 && data.len() < 0x2000 && e
                            == UvK5Error::ShortEeprom { got: data.len() as usize }
                    },
                }
            },
    {
        if !self.greeted {
            if reply.len() < 5 {
                return Err(UvK5Error::NoHelloReply);
            }
            self.greeted = true;
            self.next = 0;
            return Ok(SessionStep::Send(build_frame(read_command(0, READ_BLOCK).as_slice())));
        }
        let chunk = match read_mem_data(reply) {
            Ok(c) => c,
            Err(e) => {
                return Err(e);
            },
        };
        self.data.extend_from_slice(chunk.as_slice());
        self.next = self.next + READ_BLOCK as usize;
        if self.next < EEPROM_SIZE {
            let frame = build_frame(read_command(self.next as u16, READ_BLOCK).as_slice());
            return Ok(SessionStep::Send(frame));
        }
        if self.data.len() < EEPROM_SIZE {
            self.greeted = false;
            return Err(UvK5Error::ShortEeprom { got: self.data.len() });
        }
        let mut out: Vec<u8> = Vec::new();
        out.extend_from_slice(&self.data.as_slice()[0..EEPROM_SIZE]);
        self.greeted = false;
        Ok(SessionStep::Finished(out))
    }
}

/// Start a download of the whole EEPROM: the session and the hello
/// frame to send first.
pub fn read_eeprom() -> (r: (EepromRead, Vec<u8>))
    ensures
        r.0.wf(),
        !r.0.greeted(),
        r.0.data() == Seq::<u8>::empty(),
        r.1@ == spec_frame(hello_bytes()),
{
    (EepromRead { data: Vec::new(), next: 0, greeted: false }, hello_frame())
}

// -------- writing --------

/// An upload of the channels-and-settings region in 128-byte blocks.
pub struct EepromWrite {
    image: Vec<u8>,
    next: usize,
    greeted: bool,
}

impl EepromWrite {
    /// Whether the hello has been answered.
    pub closed spec fn greeted(&self) -> bool {
        self.greeted
    }

    /// Address of the block written last.
    pub closed spec fn next(&self) -> int {
        self.next as int
    }

    /// The bytes being written: the first `WRITABLE_SIZE` bytes of the
    /// image.
    pub closed spec fn image(&self) -> Seq<u8> {
        self.image@
    }

    /// Internal consistency: the image is exactly the writable region and
    /// a pending block is a whole block inside it.
    pub closed spec fn wf(&self) -> bool {
        &&& self.image@.len() == WRITABLE_SIZE
        &&& self.greeted ==> self.next % 0x80 == 0 && self.next + 0x80 <= WRITABLE_SIZE
    }

    /// Take the payload of the radio's reply to the last frame sent.
    /// After the hello: write block 0. After each block: check that the
    /// radio acknowledged it, then write the next block, or report the
    /// number of bytes written once the whole writable region is done.
    /// Every block written lies inside `0..WRITABLE_SIZE`.
    pub fn on_reply(&mut self, reply: &[u8]) -> (r: Result<SessionStep<usize>, UvK5Error>)
        requires
            old(self).wf(),
        ensures
            write_step(*old(self), reply@, r, *final(self)),
    {
        if !self.greeted {
            if reply.len() < 5 {
                return Err(UvK5Error::NoHelloReply);
            }
            self.greeted = true;
            self.next = 0;
            let payload = build_write_payload(0, &self.image.as_slice()[0..0x80]);
            assert(self.image@.subrange(0, 0x80) =~= self.image@.take(0x80));
            return Ok(SessionStep::Send(build_frame(payload.as_slice())));
        }
        let addr = self.next as u16;
        match check_write_reply(addr, reply) {
            Ok(()) => {},
            Err(e) => {
                return Err(e);
            },
        }
        let next = self.next + WRITE_BLOCK as usize;
        if next < WRITABLE_SIZE {
            self.next = next;
            let payload = build_write_payload(
                next as u16,
                &self.image.as_slice()[next..next + WRITE_BLOCK as usize],
            );
            return Ok(SessionStep::Send(build_frame(payload.as_slice())));
        }
        self.greeted = false;
        Ok(SessionStep::Finished(WRITABLE_SIZE))
    }
}

/// One step of an upload: `EepromWrite::on_reply` on `reply` takes the
/// session from `s` to `t` and answers `r`. The image never changes.
/// Before the hello is answered, a reply of at least five bytes leads to
/// the frame writing block 0. After that, an acknowledgement of the block
/// at `s.next()` leads to the frame writing the following block, or to
/// the end once the block ending at `WRITABLE_SIZE` is acknowledged; any
/// other reply is an error.
pub open spec fn write_step(
    s: EepromWrite,
    reply: Seq<u8>,
    r: Result<SessionStep<usize>, UvK5Error>,
    t: EepromWrite,
) -> bool {
    &&& t.wf()
    &&& t.image() == s.image()
    &&& !s.greeted() ==> match r {
        Ok(SessionStep::Send(f)) => reply.len() >= 5 && t.greeted() && t.next() == 0 && f@
            == spec_frame(spec_write_payload(0, s.image().take(0x80))),
        Ok(SessionStep::Finished(_)) => false,
        Err(e) => reply.len() < 5 && e == UvK5Error::NoHelloReply,
    }
    &&& s.greeted() ==> {
        let next = s.next() + 0x80;
        match r {
            Ok(SessionStep::Send(f)) => write_acknowledged(s.next() as u16, reply) && next + 0x80
                <= 0x1d00 && t.greeted() && t.next() == next && f@ == spec_frame(
                spec_write_payload(next as u16, s.image().subrange(next, next + 0x80)),
            ),
            Ok(SessionStep::Finished(n)) => write_acknowledged(s.next() as u16, reply) && next
                == 0x1d00 && n == WRITABLE_SIZE,
            Err(e) => !write_acknowledged(s.next() as u16, reply) && write_reply_error(
                s.next() as u16,
                reply,
                e,
            ),
        }
    }
}

/// Start an upload. The image must be exactly `WRITABLE_SIZE` bytes
/// (channels and settings) or `EEPROM_SIZE` bytes (a full dump, whose
/// calibration tail is dropped); only its first `WRITABLE_SIZE` bytes are
/// ever written. Returns the session and the hello frame to send first.
pub fn write_eeprom(image: &[u8]) -> (r: Result<(EepromWrite, Vec<u8>), UvK5Error>)
    ensures
        match r {
            Ok((s, f)) => (image@.len() == WRITABLE_SIZE || image@.len() == EEPROM_SIZE)
                && s.wf() && !s.greeted() && s.image() == image@.take(WRITABLE_SIZE as int) && f@
                == spec_frame(hello_bytes()),
            Err(e) => !(image@.len() == WRITABLE_SIZE || image@.len() == EEPROM_SIZE) && e
                == UvK5Error::BadImageSize { got: image@.len() as usize },
        },
{
    if !(image.len() == WRITABLE_SIZE || image.len() == EEPROM_SIZE) {
        return Err(UvK5Error::BadImageSize { got: image.len() });
    }
    let mut writable: Vec<u8> = Vec::new();
    writable.extend_from_slice(&image[0..WRITABLE_SIZE]);
    assert(writable@ =~= image@.take(WRITABLE_SIZE as int));
    Ok((EepromWrite { image: writable, next: 0, greeted: false }, hello_frame()))
}


/// The frame that writes block `k` of an upload: the 128 bytes at
/// `k * 0x80` of the image, sent to that address.
pub open spec fn write_block_frame(image: Seq<u8>, k: int) -> Seq<u8> {
    spec_frame(spec_write_payload((k * 0x80) as u16, image.subrange(k * 0x80, k * 0x80 + 0x80)))
}

/// The frames of an upload read nothing of the image past
/// `WRITABLE_SIZE`: two images that agree on their first `WRITABLE_SIZE`
/// bytes (such as a full dump and its writable prefix) are sent as the
/// same frames.
pub proof fn lemma_write_frames_ignore_tail(a: Seq<u8>, b: Seq<u8>)
    requires
        a.len() >= WRITABLE_SIZE,
        b.len() >= WRITABLE_SIZE,
        a.take(WRITABLE_SIZE as int) == b.take(WRITABLE_SIZE as int),
    ensures
        forall|k: int|
            0 <= k < 58 ==> #[trigger] write_block_frame(a, k) == write_block_frame(b, k),
{
    assert forall|k: int| 0 <= k < 58 implies #[trigger] write_block_frame(a, k)
        == write_block_frame(b, k) by {
        assert(a.subrange(k * 0x80, k * 0x80 + 0x80) =~= a.take(WRITABLE_SIZE as int).subrange(
            k * 0x80,
            k * 0x80 + 0x80,
        ));
        assert(b.subrange(k * 0x80, k * 0x80 + 0x80) =~= b.take(WRITABLE_SIZE as int).subrange(
            k * 0x80,
            k * 0x80 + 0x80,
        ));
    }
}

/// The first `k` steps of an upload that was answered as a healthy
/// radio answers: after them the session waits for the acknowledgement
/// of block `k - 1`, and step `j < k` sent block `j`.
proof fn lemma_write_session_prefix(
    states: Seq<EepromWrite>,
    replies: Seq<Seq<u8>>,
    results: Seq<Result<SessionStep<usize>, UvK5Error>>,
    k: int,
)
    requires
        1 <= k <= 58,
        states.len() == 60,
        replies.len() == 59,
        results.len() == 59,
        states[0].wf(),
        !states[0].greeted(),
        forall|j: int|
            #![trigger results[j]]
            0 <= j < 59 ==> write_step(states[j], replies[j], results[j], states[j + 1]),
        replies[0].len() >= 5,
        forall|j: int|
            #![trigger replies[j]]
            1 <= j < 59 ==> write_acknowledged(((j - 1) * 0x80) as u16, replies[j]),
    ensures
        states[k].greeted(),
        states[k].next() == (k - 1) * 0x80,
        states[k].image() == states[0].image(),
        forall|j: int|
            0 <= j < k ==> (#[trigger] results[j] matches Ok(SessionStep::Send(f)) && f@
                == write_block_frame(states[0].image(), j)),
    decreases k,
{
    if k == 1 {
        assert(write_step(states[0], replies[0], results[0], states[1]));
        assert(states[0].image().take(0x80) =~= states[0].image().subrange(0, 0x80));
    } else {
        lemma_write_session_prefix(states, replies, results, k - 1);
        let s = states[k - 1];
        assert(write_step(s, replies[k - 1], results[k - 1], states[k]));
        assert(write_acknowledged(((k - 2) * 0x80) as u16, replies[k - 1]));
        assert(s.next() as u16 == ((k - 2) * 0x80) as u16);
    }
}

/// A whole upload to a radio that answers the hello and acknowledges
/// every block: started on an image of `WRITABLE_SIZE` or `EEPROM_SIZE`
/// bytes (after the hello frame that `write_eeprom` returns), the 59
/// replies (the hello reply, then an acknowledgement of each block at
/// `0x0000, 0x0080, ..., 0x1C80`) make the session send exactly the
/// frames writing blocks 0 to 57 of the image, in order, and then finish
/// with `WRITABLE_SIZE` bytes written. Nothing past `WRITABLE_SIZE` is
/// sent: the frames are those of the image's writable prefix.
pub proof fn lemma_write_session(
    image: Seq<u8>,
    states: Seq<EepromWrite>,
    replies: Seq<Seq<u8>>,
    results: Seq<Result<SessionStep<usize>, UvK5Error>>,
)
    requires
        image.len() == WRITABLE_SIZE || image.len() == EEPROM_SIZE,
        states.len() == 60,
        replies.len() == 59,
        results.len() == 59,
        states[0].wf(),
        !states[0].greeted(),
        states[0].image() == image.take(WRITABLE_SIZE as int),
        forall|j: int|
            #![trigger results[j]]
            0 <= j < 59 ==> write_step(states[j], replies[j], results[j], states[j + 1]),
        replies[0].len() >= 5,
        forall|j: int|
            #![trigger replies[j]]
            1 <= j < 59 ==> write_acknowledged(((j - 1) * 0x80) as u16, replies[j]),
    ensures
        forall|j: int|
            0 <= j < 58 ==> (#[trigger] results[j] matches Ok(SessionStep::Send(f)) && f@
                == write_block_frame(image, j) && f@ == write_block_frame(
                image.take(WRITABLE_SIZE as int),
                j,
            )),
        results[58] == Ok::<SessionStep<usize>, UvK5Error>(SessionStep::Finished(WRITABLE_SIZE)),
{
    lemma_write_session_prefix(states, replies, results, 58);
    let w = image.take(WRITABLE_SIZE as int);
    assert(w.take(WRITABLE_SIZE as int) =~= image.take(WRITABLE_SIZE as int));
    lemma_write_frames_ignore_tail(image, w);
    let s = states[58];
    assert(write_step(s, replies[58], results[58], states[59]));
    assert(write_acknowledged((57 * 0x80) as u16, replies[58]));
}

} // verus!
