//! The adapter session: what is sent to the adapter and how its echo is checked.
use crate::framer::{chunk_view, next_chunk, Framer};
use crate::text::{encode_hex, hex_text, CR, LF};
use vstd::prelude::*;

verus! {

/// The rate the adapter talks at after a reset.
pub const DEFAULT_BAUD_RATE: u32 = 38_400;

/// Error type for low-level communication with the adapter.
#[derive(Debug, PartialEq, Eq)]
pub enum Error {
    /// The transport failed; the text says how.
    Transport(String),
    /// The adapter did not echo the line that was sent.
    EchoMismatch { sent: Vec<u8>, received: Option<Vec<u8>> },
}

/// An API for reading OBD-II response data.
pub trait Obd2Reader {
    /// Tries to get a single non-empty line from the device, without its terminator.
    /// `Ok(None)` when no line came in time.
    fn get_line(&mut self) -> Result<Option<Vec<u8>>, Error>;

    /// Gets an entire reply, up to the prompt, which is not included; it may be empty.
    /// `Ok(None)` when no prompt came in time.
    fn get_response(&mut self) -> Result<Option<Vec<u8>>, Error>;
}

/// A lower-level API for using an OBD-II device.
pub trait Obd2BaseDevice: Obd2Reader {
    /// Resets the device, then the OBD-II interface.
    fn reset(&mut self) -> Result<(), Error>;

    /// Sends the OBD-II command whose bytes are `data`.
    fn send_cmd(&mut self, data: &[u8]) -> Result<(), Error>;

    /// Sends an OBD-II command and gets the reply text, mostly hex data.
    fn cmd(&mut self, cmd: &[u8]) -> Result<Option<Vec<u8>>, Error> {
        self.send_cmd(cmd)?;
        self.get_response()
    }
}

/// Whether `a` and `b` hold the same bytes.
pub fn same_bytes(a: &[u8], b: &[u8]) -> (r: bool)
    ensures
        r == (a@ == b@),
{
    if a.len() != b.len() {
        return false;
    }
    let mut i: usize = 0;
    while i < a.len()
        invariant
            i <= a@.len() == b@.len(),
            a@.take(i as int) == b@.take(i as int),
        decreases a.len() - i,
    {
        if a[i] != b[i] {
            assert(a@.take(i + 1)[i as int] != b@.take(i + 1)[i as int]);
            return false;
        }
        assert(a@.take(i + 1) =~= b@.take(i + 1));
        i += 1;
    }
    assert(a@ =~= a@.take(i as int));
    assert(b@ =~= b@.take(i as int));
    true
}

/// The bytes to write for one line of text: the text, then CR LF.
pub fn line_to_send(text: &[u8]) -> (r: Vec<u8>)
    ensures
        r@ == text@ + seq![CR, LF],
{
    let mut out: Vec<u8> = Vec::new();
    let mut i: usize = 0;
    while i < text.len()
        invariant
            i <= text@.len(),
            out@ == text@.take(i as int),
        decreases text.len() - i,
    {
        out.push(text[i]);
        assert(out@ =~= text@.take(i + 1));
        i += 1;
    }
    out.push(CR);
    out.push(LF);
    assert(out@ =~= text@ + seq![CR, LF]);
    out
}

/// Checks the adapter's echo of a line that was sent: it must be that very line.
pub fn check_echo(sent: &[u8], received: Option<Vec<u8>>) -> (r: Result<(), Error>)
    ensures
        r is Ok <==> chunk_view(received) == Some(sent@),
        r matches Err(Error::EchoMismatch { sent: s, received: g }) ==> s@ == sent@ && g == received,
        !(r matches Err(Error::Transport(_))),
{
    let matched = match &received {
        Some(line) => same_bytes(line.as_slice(), sent),
        None => false,
    };
    if matched {
        Ok(())
    } else {
        let mut copy: Vec<u8> = Vec::new();
        copy.extend_from_slice(sent);
        Err(Error::EchoMismatch { sent: copy, received })
    }
}

/// The state of a session with an ELM327 adapter: the bytes received and not yet
/// framed, and the baud rate last known to work.
pub struct Elm327 {
    framer: Framer,
    baud_rate: u32,
}

impl Elm327 {
    /// A session at the default rate with nothing received.
    pub fn new() -> (r: Elm327)
        ensures
            r.queued() == Seq::<u8>::empty(),
            r.rate() == DEFAULT_BAUD_RATE,
    {
        Elm327 { framer: Framer::new(), baud_rate: DEFAULT_BAUD_RATE }
    }

    /// The raw bytes received and not yet framed.
    pub closed spec fn queued(&self) -> Seq<u8> {
        self.framer@
    }

    /// The baud rate last known to work.
    pub closed spec fn rate(&self) -> u32 {
        self.baud_rate
    }

    /// The baud rate last known to work.
    pub fn baud_rate(&self) -> (r: u32)
        ensures
            r == self.rate(),
    {
        self.baud_rate
    }

    /// Records a baud rate that the adapter was found to work at.
    pub fn set_baud_rate(&mut self, rate: u32)
        ensures
            final(self).rate() == rate,
            final(self).queued() == old(self).queued(),
    {
        self.baud_rate = rate;
    }

    /// Queues bytes read from the link.
    pub fn receive(&mut self, data: &[u8])
        ensures
            final(self).queued() == old(self).queued() + data@,
            final(self).rate() == old(self).rate(),
    {
        self.framer.feed(data);
    }

    /// Drops the bytes received and not yet framed.
    pub fn flush(&mut self)
        ensures
            final(self).queued() == Seq::<u8>::empty(),
            final(self).rate() == old(self).rate(),
    {
        self.framer.clear();
    }

    /// The next non-empty line received, if a whole one is queued.
    pub fn get_line(&mut self) -> (r: Option<Vec<u8>>)
        ensures
            chunk_view(r) == next_chunk(old(self).queued(), LF, false).0,
            final(self).queued() == next_chunk(old(self).queued(), LF, false).1,
            final(self).rate() == old(self).rate(),
    {
        self.framer.read_line()
    }

    /// The reply up to the prompt, if the prompt is queued.
    pub fn get_response(&mut self) -> (r: Option<Vec<u8>>)
        ensures
            chunk_view(r) == next_chunk(old(self).queued(), crate::PROMPT, true).0,
            final(self).queued() == next_chunk(old(self).queued(), crate::PROMPT, true).1,
            final(self).rate() == old(self).rate(),
    {
        self.framer.read_response()
    }

    /// The line text for an OBD-II command: its bytes in upper-case hex.
    pub fn command_text(data: &[u8]) -> (r: Vec<u8>)
        ensures
            r@ == hex_text(data@),
    {
        encode_hex(data)
    }
}

} // verus!
