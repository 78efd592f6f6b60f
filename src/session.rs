//! The adapter's control sequences: bringing the session up, resetting it, and
//! searching for a faster baud rate. Each is a plan of link actions that the
//! caller performs in order, feeding back what the adapter said where asked.
use crate::device::same_bytes;
use crate::framer::chunk_view;
use crate::text::{encode_hex, hex_text};
use vstd::prelude::*;

verus! {

/// One action on the link to the adapter.
#[derive(Debug, Clone, Copy, PartialEq, Eq)]
pub enum Step {
    /// Purge the transport's receive and transmit buffers.
    Purge,
    /// Wait this many milliseconds for the adapter to settle.
    Pause(u32),
    /// Send this line, check the adapter's echo of it, then read its reply up to the prompt.
    Command(&'static str),
}

/// The steps that reset the adapter: an IC reset, then a protocol reset with a
/// probe request, between purges of the link.
pub open spec fn reset_plan() -> Seq<Step> {
    seq![
        Step::Purge,
        Step::Command("ATZ"),
        Step::Pause(500),
        Step::Command("ATSP0"),
        Step::Command("0100"),
        Step::Purge,
    ]
}

/// The steps that bring a new session up: wake the adapter, then reset it.
pub open spec fn connect_plan() -> Seq<Step> {
    seq![Step::Purge, Step::Pause(500), Step::Command(" "), Step::Pause(500)] + reset_plan()
}

/// The steps that reset the adapter.
pub fn reset_steps() -> (r: Vec<Step>)
    ensures
        r@ == reset_plan(),
{
    let r = vec![
        Step::Purge,
        Step::Command("ATZ"),
        Step::Pause(500),
        Step::Command("ATSP0"),
        Step::Command("0100"),
        Step::Purge,
    ];
    assert(r@ =~= reset_plan());
    r
}

/// The steps that bring a new session up.
pub fn connect_steps() -> (r: Vec<Step>)
    ensures
        r@ == connect_plan(),
{
    let mut r = vec![Step::Purge, Step::Pause(500), Step::Command(" "), Step::Pause(500)];
    let mut rest = reset_steps();
    r.append(&mut rest);
    assert(r@ =~= connect_plan());
    r
}

/// The first baud rate divisor tried.
pub const FIRST_DIVISOR: u8 = 90;

/// One past the last baud rate divisor tried.
pub const END_DIVISOR: u8 = 104;

/// Where a baud rate search stands.
#[derive(Debug, Clone, Copy, PartialEq, Eq)]
pub enum BaudPhase {
    /// Ask the adapter for the current divisor.
    Request,
    /// Wait for the adapter's `OK`.
    AwaitOk,
    /// Switch the link to the new rate.
    Switch,
    /// Wait for the adapter's version banner at the new rate.
    AwaitBanner,
    /// Confirm the new rate to the adapter.
    Confirm,
    /// Wait for the adapter's `OK` of the confirmation.
    AwaitConfirm,
    /// Switch the link back to the rate known to work.
    Restore,
    /// Drop the rest of the adapter's reply.
    Drain,
    /// Rest before the next divisor.
    Rest,
    /// The search is over.
    Done,
}

/// What a baud rate search asks of the link.
#[derive(Debug, PartialEq, Eq)]
pub enum BaudAction {
    /// Send this line; the adapter must echo it.
    SendLine(Vec<u8>),
    /// Send these bytes as they are.
    SendRaw(Vec<u8>),
    /// Read one line, or learn that none came in time.
    ReadLine,
    /// Switch the link to this rate.
    SetRate(u32),
    /// Read and drop the adapter's reply up to the prompt.
    DrainReply,
    /// Wait this many milliseconds.
    Pause(u32),
    /// The search is over: the divisor and rate found, if any.
    Finished(Option<(u8, u32)>),
}

/// The adapter's acknowledgement, `OK`.
pub open spec fn ok_text() -> Seq<u8> {
    seq![0x4f, 0x4b]
}

/// The version banner that the adapter prints at a new rate.
pub open spec fn banner_text() -> Seq<u8> {
    seq![0x45, 0x4c, 0x4d, 0x33, 0x32, 0x37, 0x20, 0x76, 0x31, 0x2e, 0x35]
}

/// The request for baud rate divisor `d`: `ATBRD` and `d` in two hex digits.
pub open spec fn divisor_request(d: u8) -> Seq<u8> {
    seq![0x41, 0x54, 0x42, 0x52, 0x44] + hex_text(seq![d])
}

/// The baud rate that divisor `d` gives.
pub open spec fn rate_of(d: u8) -> u32 {
    (4_000_000int / (d as int)) as u32
}

/// A search for a faster baud rate, trying each divisor from 90 to 103 in turn.
/// Every failed try switches the link back to the rate known to work before the
/// next one.
pub struct BaudSearch {
    divisor: u8,
    phase: BaudPhase,
    rate: u32,
    found: bool,
    aborted: bool,
}

impl BaudSearch {
    /// The divisor being tried.
    pub closed spec fn divisor(&self) -> u8 {
        self.divisor
    }

    /// Where the search stands.
    pub closed spec fn phase(&self) -> BaudPhase {
        self.phase
    }

    /// The rate known to work.
    pub closed spec fn rate(&self) -> u32 {
        self.rate
    }

    /// Whether the adapter confirmed the divisor being tried.
    pub closed spec fn found(&self) -> bool {
        self.found
    }

    /// Whether an action of the search failed, so that it ends after restoring the link.
    pub closed spec fn aborted(&self) -> bool {
        self.aborted
    }

    /// Whether the link may run at a rate other than the one known to work.
    pub open spec fn switched(&self) -> bool {
        match self.phase() {
            BaudPhase::Switch | BaudPhase::AwaitBanner | BaudPhase::Confirm
            | BaudPhase::AwaitConfirm | BaudPhase::Restore => true,
            _ => false,
        }
    }

    /// Whether the search's state is one it can reach.
    pub closed spec fn wf(&self) -> bool {
        FIRST_DIVISOR <= self.divisor < END_DIVISOR
    }

    /// The phase after the current one, given the line read if the phase reads one.
    pub open spec fn next_phase(&self, line: Option<Seq<u8>>) -> BaudPhase {
        match self.phase() {
            BaudPhase::Request => BaudPhase::AwaitOk,
            BaudPhase::AwaitOk => if line == Some(ok_text()) {
                BaudPhase::Switch
            } else {
                BaudPhase::Drain
            },
            BaudPhase::Switch => BaudPhase::AwaitBanner,
            BaudPhase::AwaitBanner => if line == Some(banner_text()) {
                BaudPhase::Confirm
            } else {
                BaudPhase::Restore
            },
            BaudPhase::Confirm => BaudPhase::AwaitConfirm,
            BaudPhase::AwaitConfirm => if line == Some(ok_text()) {
                BaudPhase::Done
            } else {
                BaudPhase::Restore
            },
            BaudPhase::Restore => if self.aborted() {
                BaudPhase::Done
            } else {
                BaudPhase::Drain
            },
            BaudPhase::Drain => BaudPhase::Rest,
            BaudPhase::Rest => if self.divisor() + 1 < END_DIVISOR {
                BaudPhase::Request
            } else {
                BaudPhase::Done
            },
            BaudPhase::Done => BaudPhase::Done,
        }
    }

    /// A search at its first divisor, from the rate known to work.
    pub fn new(rate: u32) -> (r: BaudSearch)
        ensures
            r.wf(),
            r.divisor() == FIRST_DIVISOR,
            r.phase() == BaudPhase::Request,
            r.rate() == rate,
            !r.found(),
            !r.aborted(),
    {
        BaudSearch {
            divisor: FIRST_DIVISOR,
            phase: BaudPhase::Request,
            rate,
            found: false,
            aborted: false,
        }
    }

    /// The rate known to work.
    pub fn known_rate(&self) -> (r: u32)
        ensures
            r == self.rate(),
    {
        self.rate
    }

    /// What to do now. Once the search is over the result says what it found.
    pub fn action(&self) -> (r: BaudAction)
        requires
            self.wf(),
        ensures
            match self.phase() {
                BaudPhase::Request => r matches BaudAction::SendLine(t) && t@ == divisor_request(
                    self.divisor(),
                ),
                BaudPhase::AwaitOk => r == BaudAction::ReadLine,
                BaudPhase::Switch => r == BaudAction::SetRate(rate_of(self.divisor())),
                BaudPhase::AwaitBanner => r == BaudAction::ReadLine,
                BaudPhase::Confirm => r matches BaudAction::SendRaw(t) && t@ == seq![crate::text::CR],
                BaudPhase::AwaitConfirm => r == BaudAction::ReadLine,
                BaudPhase::Restore => r == BaudAction::SetRate(self.rate()),
                BaudPhase::Drain => r == BaudAction::DrainReply,
                BaudPhase::Rest => r == BaudAction::Pause(200),
                BaudPhase::Done => r == BaudAction::Finished(
                    if self.found() {
                        Some((self.divisor(), self.rate()))
                    } else {
                        None
                    },
                ),
            },
    {
        match self.phase {
            BaudPhase::Request => {
                let mut t = vec![0x41u8, 0x54, 0x42, 0x52, 0x44];
                let mut d = encode_hex(&[self.divisor]);
                assert(seq![self.divisor] == [self.divisor]@);
                t.append(&mut d);
                assert(t@ =~= divisor_request(self.divisor));
                BaudAction::SendLine(t)
            },
            BaudPhase::AwaitOk => BaudAction::ReadLine,
            BaudPhase::Switch => BaudAction::SetRate(4_000_000 / (self.divisor as u32)),
            BaudPhase::AwaitBanner => BaudAction::ReadLine,
            BaudPhase::Confirm => BaudAction::SendRaw(vec![crate::text::CR]),
            BaudPhase::AwaitConfirm => BaudAction::ReadLine,
            BaudPhase::Restore => BaudAction::SetRate(self.rate),
            BaudPhase::Drain => BaudAction::DrainReply,
            BaudPhase::Rest => BaudAction::Pause(200),
            BaudPhase::Done => {
                if self.found {
                    BaudAction::Finished(Some((self.divisor, self.rate)))
                } else {
                    BaudAction::Finished(None)
                }
            },
        }
    }

    /// Records that the current action failed. The search then ends; if the link may
    /// already run at the rate being tried, it first switches back to the rate known
    /// to work.
    pub fn fail(&mut self)
        requires
            old(self).wf(),
        ensures
            final(self).wf(),
            final(self).aborted(),
            final(self).phase() == if old(self).switched() {
                BaudPhase::Restore
            } else {
                BaudPhase::Done
            },
            final(self).divisor() == old(self).divisor(),
            final(self).rate() == old(self).rate(),
            final(self).found() == (old(self).found() && !old(self).switched()),
    {
        self.aborted = true;
        match self.phase {
            BaudPhase::Switch | BaudPhase::AwaitBanner | BaudPhase::Confirm
            | BaudPhase::AwaitConfirm | BaudPhase::Restore => {
                self.phase = BaudPhase::Restore;
                self.found = false;
            },
            _ => {
                self.phase = BaudPhase::Done;
            },
        }
    }

    /// Moves on once the current action is done; `line` is what was read, for the
    /// phases that read a line.
    pub fn advance(&mut self, line: Option<Vec<u8>>)
        requires
            old(self).wf(),
        ensures
            final(self).wf(),
            final(self).phase() == old(self).next_phase(chunk_view(line)),
            final(self).divisor() == if old(self).phase() == BaudPhase::Rest && old(self).divisor()
                + 1 < END_DIVISOR {
                (old(self).divisor() + 1) as u8
            } else {
                old(self).divisor()
            },
            final(self).rate() == if old(self).phase() == BaudPhase::AwaitConfirm && chunk_view(line)
                == Some(ok_text()) {
                rate_of(old(self).divisor())
            } else {
                old(self).rate()
            },
            final(self).found() == (old(self).found() || (old(self).phase()
                == BaudPhase::AwaitConfirm && chunk_view(line) == Some(ok_text()))),
            final(self).aborted() == old(self).aborted(),
    {
        let ok = vec![0x4fu8, 0x4b];
        let banner = vec![0x45u8, 0x4c, 0x4d, 0x33, 0x32, 0x37, 0x20, 0x76, 0x31, 0x2e, 0x35];
        assert(ok@ =~= ok_text());
        assert(banner@ =~= banner_text());
        let is_ok = match &line {
            Some(l) => same_bytes(l.as_slice(), ok.as_slice()),
            None => false,
        };
        let is_banner = match &line {
            Some(l) => same_bytes(l.as_slice(), banner.as_slice()),
            None => false,
        };
        match self.phase {
            BaudPhase::Request => {
                self.phase = BaudPhase::AwaitOk;
            },
            BaudPhase::AwaitOk => {
                self.phase = if is_ok {
                    BaudPhase::Switch
                } else {
                    BaudPhase::Drain
                };
            },
            BaudPhase::Switch => {
                self.phase = BaudPhase::AwaitBanner;
            },
            BaudPhase::AwaitBanner => {
                self.phase = if is_banner {
                    BaudPhase::Confirm
                } else {
                    BaudPhase::Restore
                };
            },
            BaudPhase::Confirm => {
                self.phase = BaudPhase::AwaitConfirm;
            },
            BaudPhase::AwaitConfirm => {
                if is_ok {
                    self.rate = 4_000_000 / (self.divisor as u32);
                    self.found = true;
                    self.phase = BaudPhase::Done;
                } else {
                    self.phase = BaudPhase::Restore;
                }
            },
            BaudPhase::Restore => {
                self.phase = if self.aborted {
                    BaudPhase::Done
                } else {
                    BaudPhase::Drain
                };
            },
            BaudPhase::Drain => {
                self.phase = BaudPhase::Rest;
            },
            BaudPhase::Rest => {
                if self.divisor + 1 < END_DIVISOR {
                    self.divisor = self.divisor + 1;
                    self.phase = BaudPhase::Request;
                } else {
                    self.phase = BaudPhase::Done;
                }
            },
            BaudPhase::Done => {},
        }
    }
}

/// A search never continues at an unconfirmed rate: once the link has switched, a
/// missing or wrong banner or acknowledgement leads to switching back to the rate
/// known to work, and only after that to the next divisor.
pub proof fn lemma_failure_restores(s: BaudSearch, line: Option<Seq<u8>>)
    requires
        !s.aborted(),
        (s.phase() == BaudPhase::AwaitBanner && line != Some(banner_text())) || (s.phase()
            == BaudPhase::AwaitConfirm && line != Some(ok_text())),
    ensures
        s.next_phase(line) == BaudPhase::Restore,
{
}

/// A search whose action failed after the link switched rates restores the rate
/// known to work and then ends.
pub proof fn lemma_abort_restores(s: BaudSearch)
    requires
        s.aborted(),
        s.phase() == BaudPhase::Restore,
    ensures
        s.next_phase(None) == BaudPhase::Done,
{
}

} // verus!
