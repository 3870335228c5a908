//! The KG-Q336 live read, as a state machine: each step takes the radio's
//! last reply frame and says which frame to send next, or hands back the
//! image. The caller moves the bytes over the serial line.
//!
//! The radio is woken by three back-to-back copies of the read command
//! for `0x0040`; only one reply comes back. The reader then walks
//! `0x0040..0x8000` in `READ_BLOCK` steps, placing each block at its own
//! address of a 32 KiB image (bytes below `0x0040` stay zero), and ends
//! the session with the `CMD_END` frame.
use vstd::prelude::*;

use super::error::KgQ336Error;
use super::wire::{
    addr_bytes, build_read_cmd, spec_frame, split_read_reply, InFrame, CMD_RD, DIR_OUT, READ_BLOCK,
    SOF,
};
use crate::step::SessionStep;

verus! {

/// First address the radio answers.
pub const READ_START: u16 = 0x0040;

/// End of the address window the reader walks.
pub const READ_END: u16 = 0x8000;

/// Number of copies of the first read command that wake the radio.
pub const WAKEUP_BLASTS: usize = 3;

/// The bytes of the `CMD_END` frame.
pub open spec fn end_frame_bytes() -> Seq<u8> {
    seq![0x7Cu8, 0x81, 0xFF, 0x00, 0xD7]
}

/// The read command for one block at `addr`.
pub open spec fn read_block_frame(addr: u16) -> Seq<u8> {
    spec_frame(CMD_RD, DIR_OUT, addr_bytes(addr).push(READ_BLOCK))
}

/// How many payload-plus-checksum bytes follow a 4-byte inbound header,
/// or `BadSof` when the header does not start a frame.
pub fn inbound_body_len(header: [u8; 4]) -> (r: Result<usize, KgQ336Error>)
    ensures
        match r {
            Ok(n) => header@[0] == SOF && n == header@[3] + 1,
            Err(e) => header@[0] != SOF && e == KgQ336Error::BadSof { got: header@[0] },
        },
{
    if header[0] != SOF {
        return Err(KgQ336Error::BadSof { got: header[0] });
    }
    Ok(header[3] as usize + 1)
}

/// A live read of the radio's 32 KiB memory.
pub struct CodeplugRead {
    image: Vec<u8>,
    next: u16,
}

impl CodeplugRead {
    /// The image read so far.
    pub closed spec fn image(&self) -> Seq<u8> {
        self.image@
    }

    /// The address requested last.
    pub closed spec fn next(&self) -> int {
        self.next as int
    }

    /// The image is 32 KiB, its first `0x40` bytes are zero, and the
    /// pending block address is a block boundary inside the window.
    pub closed spec fn wf(&self) -> bool {
        &&& self.image@.len() == 0x8000
        &&& 0x40 <= self.next < 0x8000
        &&& self.next % 0x40 == 0
        &&& forall|i: int| 0 <= i < 0x40 ==> #[trigger] self.image@[i] == 0
    }

    /// The address of the block requested last.
    pub fn next_addr(&self) -> (a: u16)
        ensures
            a == self.next(),
    {
        self.next
    }

    /// Take the radio's reply to the last read command. The reply must be
    /// a `CMD_RD` frame echoing the requested address; its data is placed
    /// at that address. Then the next block is requested, or, past the
    /// end of the window, the image is handed back with the `CMD_END`
    /// frame to send.
    pub fn on_reply(&mut self, frame: &InFrame) -> (r: Result<
        SessionStep<(Vec<u8>, Vec<u8>)>,
        KgQ336Error,
    >)
        requires
            old(self).wf(),
            frame.payload@.len() <= 2 + 0x8000 - old(self).next(),
        ensures
            final(self).wf(),
            ({
                let p = frame.payload@;
                let at = old(self).next();
                let echoed = p[0] * 256 + p[1];
                let data = p.subrange(2, p.len() as int);
                let image = old(self).image().take(at) + data + old(self).image().skip(
                    at + data.len(),
                );
                let next = at + 0x40;
                if frame.cmd != CMD_RD {
                    r == Err::<SessionStep<(Vec<u8>, Vec<u8>)>, KgQ336Error>(
                        KgQ336Error::BadReplyCmd { want: CMD_RD, got: frame.cmd },
                    )
                } else if p.len() < 2 {
                    r == Err::<SessionStep<(Vec<u8>, Vec<u8>)>, KgQ336Error>(
                        KgQ336Error::ShortFrame { got: p.len() as usize, want: 2 },
                    )
                } else if echoed != at {
                    r == Err::<SessionStep<(Vec<u8>, Vec<u8>)>, KgQ336Error>(
                        KgQ336Error::BadReadAddress { expected: at as u16, got: echoed as u16 },
                    )
                } else if next < 0x8000 {
                    &&& final(self).image() == image
                    &&& final(self).next() == next
                    &&& r matches Ok(SessionStep::Send(f)) && f@ == read_block_frame(next as u16)
                } else {
                    r matches Ok(SessionStep::Finished((img, end))) && img@ == image && end@
                        == end_frame_bytes()
                }
            }),
    {
        if frame.cmd != CMD_RD {
            return Err(KgQ336Error::BadReplyCmd { want: CMD_RD, got: frame.cmd });
        }
        let (echoed, data) = match split_read_reply(frame.payload.as_slice()) {
            Ok(x) => x,
            Err(e) => {
                return Err(e);
            },
        };
        if echoed != self.next {
            return Err(KgQ336Error::BadReadAddress { expected: self.next, got: echoed });
        }
        let at = self.next as usize;
        let ghost before = self.image@;
        let mut j: usize = 0;
        while j < data.len()
            invariant
                at + data@.len() <= 0x8000,
                0x40 <= at,
                self.next as int == at,
                j <= data@.len(),
                self.image@.len() == 0x8000,
                before.len() == 0x8000,
                forall|i: int|
                    0 <= i < 0x8000 ==> #[trigger] self.image@[i] == if at <= i < at + j {
                        data@[i - at]
                    } else {
                        before[i]
                    },
            decreases data@.len() - j,
        {
            self.image.set(at + j, data[j]);
            j = j + 1;
        }
        assert(self.image@ =~= before.take(at as int) + data@ + before.skip(at + data@.len()));
        assert forall|i: int| 0 <= i < 0x40 implies #[trigger] self.image@[i] == 0 by {
            assert(self.image@[i] == before[i]);
        }
        let next = at + READ_BLOCK as usize;
        if next < READ_END as usize {
            self.next = next as u16;
            return Ok(SessionStep::Send(build_read_cmd(self.next, READ_BLOCK)));
        }
        let mut img: Vec<u8> = Vec::new();
        img.extend_from_slice(self.image.as_slice());
        let end: Vec<u8> = vec![0x7C, 0x81, 0xFF, 0x00, 0xD7];
        assert(end@ =~= end_frame_bytes());
        Ok(SessionStep::Finished((img, end)))
    }
}

/// Start a live read: the session, and the wake-up burst to send first
/// (three copies of the read command for `0x0040`).
pub fn read_codeplug() -> (r: (CodeplugRead, Vec<u8>))
    ensures
        r.0.wf(),
        r.0.next() == 0x40,
        r.0.image() == Seq::new(0x8000, |i: int| 0u8),
        r.1@ == read_block_frame(0x40) + read_block_frame(0x40) + read_block_frame(0x40),
{
    let image: Vec<u8> = vec![0u8; READ_END as usize];
    let probe = build_read_cmd(READ_START, READ_BLOCK);
    let mut burst: Vec<u8> = Vec::new();
    let mut k: usize = 0;
    while k < WAKEUP_BLASTS
        invariant
            k <= 3,
            probe@ == read_block_frame(0x40),
            k == 0 ==> burst@ == Seq::<u8>::empty(),
            k == 1 ==> burst@ == read_block_frame(0x40),
            k == 2 ==> burst@ == read_block_frame(0x40) + read_block_frame(0x40),
            k == 3 ==> burst@ == read_block_frame(0x40) + read_block_frame(0x40)
                + read_block_frame(0x40),
        decreases 3 - k,
    {
        let ghost b = burst@;
        burst.extend_from_slice(probe.as_slice());
        if k == 0 {
            assert(burst@ =~= read_block_frame(0x40));
        }
        k = k + 1;
    }
    assert(image@ =~= Seq::new(0x8000, |i: int| 0u8));
    (CodeplugRead { image, next: READ_START }, burst)
}

} // verus!
