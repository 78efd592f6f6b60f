//! The catalog of named signals: each is a request (service 1 and a PID), a
//! payload width, and a rule that turns the raw number into a value.
use crate::commands::{
    be_value, dtc_of, first_wrong_len, lemma_be_value_bound, lemma_first_wrong_len_bounds,
    length_result, number_outcome, pow256, width_values, Dtc,
};
use crate::device::{self, Obd2BaseDevice};
use crate::error::Error;
use crate::interface::{obd_outcome, payload_view, request_of, Obd2};
use vstd::prelude::*;

verus! {

/// A physical value as an exact fraction: `value / divisor`.
#[derive(Debug, Clone, Copy, PartialEq, Eq)]
pub struct Scaled {
    pub value: i64,
    pub divisor: u32,
}

/// One oxygen sensor reading: the sensor voltage in volts and the associated short
/// term fuel trim as a fraction (about -1 to 1).
#[derive(Debug, Clone, Copy, PartialEq, Eq)]
pub struct OxygenSensorData {
    pub voltage: Scaled,
    pub shrft: Scaled,
}

/// The value `(raw + offset) * factor / divisor`.
pub open spec fn scaled(raw: nat, offset: int, factor: int, divisor: u32) -> Scaled {
    Scaled { value: ((raw + offset) * factor) as i64, divisor }
}

/// The oxygen sensor reading in a two-byte number: 0.005 V per unit of the high byte,
/// and `(low - 128) / 128` of trim.
pub open spec fn oxygen_of(raw: nat) -> OxygenSensorData {
    OxygenSensorData {
        voltage: scaled(raw / 256, 0, 5, 1000),
        shrft: scaled(raw % 256, -128, 1, 128),
    }
}

/// Whether `r` is `s` with `f` applied to each number.
pub open spec fn decoded<T>(
    r: Result<Vec<T>, Error>,
    s: Result<Seq<nat>, Error>,
    f: spec_fn(nat) -> T,
) -> bool {
    match (r, s) {
        (Ok(v), Ok(w)) => v@ == w.map_values(f),
        (Err(e), Err(g)) => e == g,
        _ => false,
    }
}

/// Every number read with width `n` fits in `n` bytes.
pub proof fn lemma_width_values_bound(ps: Seq<Seq<u8>>, n: usize)
    ensures
        width_values(ps, n) matches Ok(w) ==> forall|i: int|
            0 <= i < w.len() ==> #[trigger] w[i] < pow256(n as nat),
{
    lemma_first_wrong_len_bounds(ps, n as nat);
    if first_wrong_len(ps, n as nat) >= ps.len() {
        assert forall|i: int| 0 <= i < ps.len() implies #[trigger] be_value(ps[i]) < pow256(
            n as nat,
        ) by {
            lemma_be_value_bound(ps[i]);
        }
    }
}

proof fn lemma_pow256_small()
    ensures
        pow256(1) == 256,
        pow256(2) == 65536,
        pow256(4) == 4294967296,
{
    assert(pow256(0) == 1);
    assert(pow256(1) == 256);
    assert(pow256(2) == 65536);
    assert(pow256(3) == 16777216);
}

/// Numbers of `width` bytes, one per ECU, each below `256^width`.
fn bounded_numbers<T: Obd2BaseDevice>(
    obd: &mut Obd2<T>,
    service: u8,
    pid: u8,
    width: usize,
) -> (r: Result<Vec<u32>, Error>)
    requires
        width <= 4,
    ensures
        final(obd).requests() == old(obd).requests().push(request_of(service, Some(pid))),
        exists|reply: Result<Option<Seq<u8>>, device::Error>|
            {
                let s = #[trigger] number_outcome(reply, service, pid, width);
                &&& decoded(r, s, |n: nat| n as u32)
                &&& s matches Ok(w) ==> forall|i: int|
                    0 <= i < w.len() ==> #[trigger] w[i] < pow256(width as nat)
            },
{
    let r = obd.get_numbers(service, pid, width);
    let ghost reply = choose|reply: Result<Option<Seq<u8>>, device::Error>|
        crate::commands::numbers_match(r, number_outcome(reply, service, pid, width));
    proof {
        let s = number_outcome(reply, service, pid, width);
        if let Ok(ps) = crate::interface::obd_outcome(reply, service, Some(pid)) {
            lemma_width_values_bound(ps, width);
        }
        if r is Ok && s is Ok {
            assert(r->Ok_0@ =~= s->Ok_0.map_values(|n: nat| n as u32));
        }
    }
    r
}

impl<T: Obd2BaseDevice> Obd2<T> {
    /// One byte per ECU from service `service`, PID `pid`.
    pub fn get_bytes(&mut self, service: u8, pid: u8) -> (r: Result<Vec<u8>, Error>)
        ensures
            final(self).requests() == old(self).requests().push(request_of(service, Some(pid))),
            exists|reply: Result<Option<Seq<u8>>, device::Error>|
                decoded(r, #[trigger] number_outcome(reply, service, pid, 1), |n: nat| n as u8),
    {
        let ns = bounded_numbers(self, service, pid, 1)?;
        let ghost reply = choose|reply: Result<Option<Seq<u8>>, device::Error>|
            {
                let s = #[trigger] number_outcome(reply, service, pid, 1);
                &&& decoded(Ok::<Vec<u32>, Error>(ns), s, |n: nat| n as u32)
                &&& s matches Ok(w) ==> forall|i: int|
                    0 <= i < w.len() ==> #[trigger] w[i] < pow256(1)
            };
        let ghost w = number_outcome(reply, service, pid, 1)->Ok_0;
        assert(pow256(1) == 256) by {
            assert(pow256(0) == 1);
        }
        let mut out: Vec<u8> = Vec::new();
        let mut i: usize = 0;
        while i < ns.len()
            invariant
                i <= ns@.len() == w.len(),
                ns@ == w.map_values(|n: nat| n as u32),
                forall|j: int| 0 <= j < w.len() ==> #[trigger] w[j] < 256,
                out@ == w.take(i as int).map_values(|n: nat| n as u8),
            decreases ns.len() - i,
        {
            assert(w[i as int] < 256);
            out.push(ns[i] as u8);
            assert(out@ =~= w.take(i + 1).map_values(|n: nat| n as u8));
            i += 1;
        }
        assert(w.take(w.len() as int) == w);
        Ok(out)
    }

    /// Two bytes per ECU, big-endian.
    fn read_words(&mut self, service: u8, pid: u8) -> (r: Result<Vec<u16>, Error>)
        ensures
            final(self).requests() == old(self).requests().push(request_of(service, Some(pid))),
            exists|reply: Result<Option<Seq<u8>>, device::Error>|
                decoded(r, #[trigger] number_outcome(reply, service, pid, 2), |n: nat| n as u16),
    {
        let ns = bounded_numbers(self, service, pid, 2)?;
        let ghost reply = choose|reply: Result<Option<Seq<u8>>, device::Error>|
            {
                let s = #[trigger] number_outcome(reply, service, pid, 2);
                &&& decoded(Ok::<Vec<u32>, Error>(ns), s, |n: nat| n as u32)
                &&& s matches Ok(w) ==> forall|i: int|
                    0 <= i < w.len() ==> #[trigger] w[i] < pow256(2 as nat)
            };
        let ghost w = number_outcome(reply, service, pid, 2)->Ok_0;
        proof {
            lemma_pow256_small();
        }
        let mut out: Vec<u16> = Vec::new();
        let mut i: usize = 0;
        while i < ns.len()
            invariant
                i <= ns@.len() == w.len(),
                ns@ == w.map_values(|n: nat| n as u32),
                forall|j: int| 0 <= j < w.len() ==> #[trigger] w[j] < pow256(2 as nat),
                pow256(2 as nat) <= 65536,
                out@ == w.take(i as int).map_values(|n: nat| n as u16),
            decreases ns.len() - i,
        {
            let n = ns[i];
            assert(n as nat == w[i as int]);
            assert(n < 65536);
            out.push(n as u16);
            assert(out@ =~= w.take(i + 1).map_values(|n: nat| n as u16));
            i += 1;
        }
        assert(w.take(w.len() as int) == w);
        Ok(out)
    }

    /// Four bytes per ECU, big-endian.
    fn read_double_words(&mut self, service: u8, pid: u8) -> (r: Result<Vec<u32>, Error>)
        ensures
            final(self).requests() == old(self).requests().push(request_of(service, Some(pid))),
            exists|reply: Result<Option<Seq<u8>>, device::Error>|
                decoded(r, #[trigger] number_outcome(reply, service, pid, 4), |n: nat| n as u32),
    {
        let ns = bounded_numbers(self, service, pid, 4)?;
        let ghost reply = choose|reply: Result<Option<Seq<u8>>, device::Error>|
            {
                let s = #[trigger] number_outcome(reply, service, pid, 4);
                &&& decoded(Ok::<Vec<u32>, Error>(ns), s, |n: nat| n as u32)
                &&& s matches Ok(w) ==> forall|i: int|
                    0 <= i < w.len() ==> #[trigger] w[i] < pow256(4 as nat)
            };
        let ghost w = number_outcome(reply, service, pid, 4)->Ok_0;
        proof {
            lemma_pow256_small();
        }
        let mut out: Vec<u32> = Vec::new();
        let mut i: usize = 0;
        while i < ns.len()
            invariant
                i <= ns@.len() == w.len(),
                ns@ == w.map_values(|n: nat| n as u32),
                forall|j: int| 0 <= j < w.len() ==> #[trigger] w[j] < pow256(4 as nat),
                pow256(4 as nat) <= 4294967296,
                out@ == w.take(i as int).map_values(|n: nat| n as u32),
            decreases ns.len() - i,
        {
            let n = ns[i];
            assert(n as nat == w[i as int]);
            assert(n < 4294967296);
            out.push(n);
            assert(out@ =~= w.take(i + 1).map_values(|n: nat| n as u32));
            i += 1;
        }
        assert(w.take(w.len() as int) == w);
        Ok(out)
    }

    /// One byte per ECU as `(raw + offset) * factor`.
    fn read_offset_bytes(&mut self, service: u8, pid: u8, offset: i16, factor: i16) -> (r: Result<Vec<i16>, Error>)
        requires
            -128 <= offset <= 0,
            1 <= factor <= 3,
        ensures
            final(self).requests() == old(self).requests().push(request_of(service, Some(pid))),
            exists|reply: Result<Option<Seq<u8>>, device::Error>|
                decoded(r, #[trigger] number_outcome(reply, service, pid, 1), |n: nat| ((n + offset) * factor) as i16),
    {
        let ns = bounded_numbers(self, service, pid, 1)?;
        let ghost reply = choose|reply: Result<Option<Seq<u8>>, device::Error>|
            {
                let s = #[trigger] number_outcome(reply, service, pid, 1);
                &&& decoded(Ok::<Vec<u32>, Error>(ns), s, |n: nat| n as u32)
                &&& s matches Ok(w) ==> forall|i: int|
                    0 <= i < w.len() ==> #[trigger] w[i] < pow256(1 as nat)
            };
        let ghost w = number_outcome(reply, service, pid, 1)->Ok_0;
        proof {
            lemma_pow256_small();
        }
        let mut out: Vec<i16> = Vec::new();
        let mut i: usize = 0;
        while i < ns.len()
            invariant
                -128 <= offset <= 0,
                1 <= factor <= 3,
                i <= ns@.len() == w.len(),
                ns@ == w.map_values(|n: nat| n as u32),
                forall|j: int| 0 <= j < w.len() ==> #[trigger] w[j] < pow256(1 as nat),
                pow256(1 as nat) <= 256,
                out@ == w.take(i as int).map_values(|n: nat| ((n + offset) * factor) as i16),
            decreases ns.len() - i,
        {
            let n = ns[i];
            assert(n as nat == w[i as int]);
            assert(n < 256);
            assert(-384 <= (n as int + offset as int) * (factor as int) <= 765) by (nonlinear_arith)
                requires
                    -128 <= n as int + offset as int <= 255,
                    1 <= factor as int <= 3,
            ;
            out.push(((n as i16) + offset) * factor);
            assert(out@ =~= w.take(i + 1).map_values(|n: nat| ((n + offset) * factor) as i16));
            i += 1;
        }
        assert(w.take(w.len() as int) == w);
        Ok(out)
    }

    /// A number of `width` bytes per ECU as `(raw + offset) * factor / divisor`.
    fn read_scaled(&mut self, service: u8, pid: u8, width: usize, offset: i32, factor: i32, divisor: u32) -> (r: Result<Vec<Scaled>, Error>)
        requires
            width == 1 || width == 2,
            -128 <= offset <= 0,
            1 <= factor <= 5,
        ensures
            final(self).requests() == old(self).requests().push(request_of(service, Some(pid))),
            exists|reply: Result<Option<Seq<u8>>, device::Error>|
                decoded(r, #[trigger] number_outcome(reply, service, pid, width), |n: nat| scaled(n, offset as int, factor as int, divisor)),
    {
        let ns = bounded_numbers(self, service, pid, width)?;
        let ghost reply = choose|reply: Result<Option<Seq<u8>>, device::Error>|
            {
                let s = #[trigger] number_outcome(reply, service, pid, width);
                &&& decoded(Ok::<Vec<u32>, Error>(ns), s, |n: nat| n as u32)
                &&& s matches Ok(w) ==> forall|i: int|
                    0 <= i < w.len() ==> #[trigger] w[i] < pow256(width as nat)
            };
        let ghost w = number_outcome(reply, service, pid, width)->Ok_0;
        proof {
            lemma_pow256_small();
        }
        let mut out: Vec<Scaled> = Vec::new();
        let mut i: usize = 0;
        while i < ns.len()
            invariant
                width == 1 || width == 2,
                -128 <= offset <= 0,
                1 <= factor <= 5,
                i <= ns@.len() == w.len(),
                ns@ == w.map_values(|n: nat| n as u32),
                forall|j: int| 0 <= j < w.len() ==> #[trigger] w[j] < pow256(width as nat),
                pow256(width as nat) <= 65536,
                out@ == w.take(i as int).map_values(|n: nat| scaled(n, offset as int, factor as int, divisor)),
            decreases ns.len() - i,
        {
            let n = ns[i];
            assert(n as nat == w[i as int]);
            assert(n < 65536);
            assert(-640 <= (n as int + offset as int) * (factor as int) <= 327675) by (nonlinear_arith)
                requires
                    -128 <= n as int + offset as int <= 65535,
                    1 <= factor as int <= 5,
            ;
            out.push(Scaled { value: ((n as i64) + (offset as i64)) * (factor as i64), divisor });
            assert(out@ =~= w.take(i + 1).map_values(|n: nat| scaled(n, offset as int, factor as int, divisor)));
            i += 1;
        }
        assert(w.take(w.len() as int) == w);
        Ok(out)
    }

    /// An oxygen sensor reading per ECU.
    fn read_oxygen(&mut self, service: u8, pid: u8) -> (r: Result<Vec<OxygenSensorData>, Error>)
        ensures
            final(self).requests() == old(self).requests().push(request_of(service, Some(pid))),
            exists|reply: Result<Option<Seq<u8>>, device::Error>|
                decoded(r, #[trigger] number_outcome(reply, service, pid, 2), |n: nat| oxygen_of(n)),
    {
        let ns = bounded_numbers(self, service, pid, 2)?;
        let ghost reply = choose|reply: Result<Option<Seq<u8>>, device::Error>|
            {
                let s = #[trigger] number_outcome(reply, service, pid, 2);
                &&& decoded(Ok::<Vec<u32>, Error>(ns), s, |n: nat| n as u32)
                &&& s matches Ok(w) ==> forall|i: int|
                    0 <= i < w.len() ==> #[trigger] w[i] < pow256(2 as nat)
            };
        let ghost w = number_outcome(reply, service, pid, 2)->Ok_0;
        proof {
            lemma_pow256_small();
        }
        let mut out: Vec<OxygenSensorData> = Vec::new();
        let mut i: usize = 0;
        while i < ns.len()
            invariant
                i <= ns@.len() == w.len(),
                ns@ == w.map_values(|n: nat| n as u32),
                forall|j: int| 0 <= j < w.len() ==> #[trigger] w[j] < pow256(2 as nat),
                pow256(2 as nat) <= 65536,
                out@ == w.take(i as int).map_values(|n: nat| oxygen_of(n)),
            decreases ns.len() - i,
        {
            let n = ns[i];
            assert(n as nat == w[i as int]);
            assert(n < 65536);
            out.push(OxygenSensorData {
                voltage: Scaled { value: ((n / 256) as i64) * 5, divisor: 1000 },
                shrft: Scaled { value: ((n % 256) as i64) - 128, divisor: 128 },
            });
            assert(out@ =~= w.take(i + 1).map_values(|n: nat| oxygen_of(n)));
            i += 1;
        }
        assert(w.take(w.len() as int) == w);
        Ok(out)
    }

    /// A trouble code per ECU from a two-byte value.
    fn read_dtcs(&mut self, service: u8, pid: u8) -> (r: Result<Vec<Dtc>, Error>)
        ensures
            final(self).requests() == old(self).requests().push(request_of(service, Some(pid))),
            exists|reply: Result<Option<Seq<u8>>, device::Error>|
                decoded(r, #[trigger] number_outcome(reply, service, pid, 2), |n: nat| dtc_of(n as u16)),
    {
        let ns = bounded_numbers(self, service, pid, 2)?;
        let ghost reply = choose|reply: Result<Option<Seq<u8>>, device::Error>|
            {
                let s = #[trigger] number_outcome(reply, service, pid, 2);
                &&& decoded(Ok::<Vec<u32>, Error>(ns), s, |n: nat| n as u32)
                &&& s matches Ok(w) ==> forall|i: int|
                    0 <= i < w.len() ==> #[trigger] w[i] < pow256(2 as nat)
            };
        let ghost w = number_outcome(reply, service, pid, 2)->Ok_0;
        proof {
            lemma_pow256_small();
        }
        let mut out: Vec<Dtc> = Vec::new();
        let mut i: usize = 0;
        while i < ns.len()
            invariant
                i <= ns@.len() == w.len(),
                ns@ == w.map_values(|n: nat| n as u32),
                forall|j: int| 0 <= j < w.len() ==> #[trigger] w[j] < pow256(2 as nat),
                pow256(2 as nat) <= 65536,
                out@ == w.take(i as int).map_values(|n: nat| dtc_of(n as u16)),
            decreases ns.len() - i,
        {
            let n = ns[i];
            assert(n as nat == w[i as int]);
            assert(n < 65536);
            out.push(Dtc::from_u16(n as u16));
            assert(out@ =~= w.take(i + 1).map_values(|n: nat| dtc_of(n as u16)));
            i += 1;
        }
        assert(w.take(w.len() as int) == w);
        Ok(out)
    }

    /// Gets which service 1 PIDs from $01 to $20 are supported, as a bit field.
    pub fn get_service_1_pid_support_1(&mut self) -> (r: Result<Vec<u32>, Error>)
        ensures
            final(self).requests() == old(self).requests().push(request_of(0x01, Some(0x00))),
            exists|reply: Result<Option<Seq<u8>>, device::Error>|
                decoded(r, #[trigger] number_outcome(reply, 0x01, 0x00, 4), |n: nat| n as u32),
    {
        self.read_double_words(0x01, 0x00)
    }

    /// Gets the DTC that caused the current freeze frame.
    pub fn get_freeze_frame_dtc(&mut self) -> (r: Result<Vec<Dtc>, Error>)
        ensures
            final(self).requests() == old(self).requests().push(request_of(0x01, Some(0x02))),
            exists|reply: Result<Option<Seq<u8>>, device::Error>|
                decoded(r, #[trigger] number_outcome(reply, 0x01, 0x02, 2), |n: nat| dtc_of(n as u16)),
    {
        self.read_dtcs(0x01, 0x02)
    }

    /// Gets the calculated engine load (out of 255).
    pub fn get_engine_load(&mut self) -> (r: Result<Vec<u8>, Error>)
        ensures
            final(self).requests() == old(self).requests().push(request_of(0x01, Some(0x04))),
            exists|reply: Result<Option<Seq<u8>>, device::Error>|
                decoded(r, #[trigger] number_outcome(reply, 0x01, 0x04, 1), |n: nat| n as u8),
    {
        self.get_bytes(0x01, 0x04)
    }

    /// Gets the temperature of the engine's coolant in degrees Celsius.
    pub fn get_engine_coolant_temperature(&mut self) -> (r: Result<Vec<i16>, Error>)
        ensures
            final(self).requests() == old(self).requests().push(request_of(0x01, Some(0x05))),
            exists|reply: Result<Option<Seq<u8>>, device::Error>|
                decoded(r, #[trigger] number_outcome(reply, 0x01, 0x05, 1), |n: nat| (n - 40) as i16),
    {
        let r = self.read_offset_bytes(0x01, 0x05, -40, 1);
        assert((|n: nat| ((n + -40i16) * 1i16) as i16) =~= (|n: nat| (n - 40) as i16));
        r
    }

    /// Gets the short term fuel trim for bank 1, about -1 to 1; negative means leaner.
    pub fn get_short_term_fuel_trim_1(&mut self) -> (r: Result<Vec<Scaled>, Error>)
        ensures
            final(self).requests() == old(self).requests().push(request_of(0x01, Some(0x06))),
            exists|reply: Result<Option<Seq<u8>>, device::Error>|
                decoded(r, #[trigger] number_outcome(reply, 0x01, 0x06, 1), |n: nat| scaled(n, -128, 1, 128)),
    {
        self.read_scaled(0x01, 0x06, 1, -128, 1, 128)
    }

    /// Gets the long term fuel trim for bank 1, about -1 to 1; negative means leaner.
    pub fn get_long_term_fuel_trim_1(&mut self) -> (r: Result<Vec<Scaled>, Error>)
        ensures
            final(self).requests() == old(self).requests().push(request_of(0x01, Some(0x07))),
            exists|reply: Result<Option<Seq<u8>>, device::Error>|
                decoded(r, #[trigger] number_outcome(reply, 0x01, 0x07, 1), |n: nat| scaled(n, -128, 1, 128)),
    {
        self.read_scaled(0x01, 0x07, 1, -128, 1, 128)
    }

    /// Gets the short term fuel trim for bank 2, about -1 to 1; negative means leaner.
    pub fn get_short_term_fuel_trim_2(&mut self) -> (r: Result<Vec<Scaled>, Error>)
        ensures
            final(self).requests() == old(self).requests().push(request_of(0x01, Some(0x08))),
            exists|reply: Result<Option<Seq<u8>>, device::Error>|
                decoded(r, #[trigger] number_outcome(reply, 0x01, 0x08, 1), |n: nat| scaled(n, -128, 1, 128)),
    {
        self.read_scaled(0x01, 0x08, 1, -128, 1, 128)
    }

    /// Gets the long term fuel trim for bank 2, about -1 to 1; negative means leaner.
    pub fn get_long_term_fuel_trim_2(&mut self) -> (r: Result<Vec<Scaled>, Error>)
        ensures
            final(self).requests() == old(self).requests().push(request_of(0x01, Some(0x09))),
            exists|reply: Result<Option<Seq<u8>>, device::Error>|
                decoded(r, #[trigger] number_outcome(reply, 0x01, 0x09, 1), |n: nat| scaled(n, -128, 1, 128)),
    {
        self.read_scaled(0x01, 0x09, 1, -128, 1, 128)
    }

    /// Gets the fuel pressure (gauge) in kPa.
    pub fn get_fuel_pressure(&mut self) -> (r: Result<Vec<i16>, Error>)
        ensures
            final(self).requests() == old(self).requests().push(request_of(0x01, Some(0x0A))),
            exists|reply: Result<Option<Seq<u8>>, device::Error>|
                decoded(r, #[trigger] number_outcome(reply, 0x01, 0x0A, 1), |n: nat| (n * 3) as i16),
    {
        let r = self.read_offset_bytes(0x01, 0x0A, 0, 3);
        assert((|n: nat| ((n + 0i16) * 3i16) as i16) =~= (|n: nat| (n * 3) as i16));
        r
    }

    /// Gets the absolute intake manifold pressure in kPa.
    pub fn get_engine_manifold_pressure(&mut self) -> (r: Result<Vec<Scaled>, Error>)
        ensures
            final(self).requests() == old(self).requests().push(request_of(0x01, Some(0x0B))),
            exists|reply: Result<Option<Seq<u8>>, device::Error>|
                decoded(r, #[trigger] number_outcome(reply, 0x01, 0x0B, 2), |n: nat| scaled(n, 0, 1, 1)),
    {
        self.read_scaled(0x01, 0x0B, 2, 0, 1, 1)
    }

    /// Gets the engine speed in revolutions per minute, in steps of 0.25.
    pub fn get_rpm(&mut self) -> (r: Result<Vec<Scaled>, Error>)
        ensures
            final(self).requests() == old(self).requests().push(request_of(0x01, Some(0x0C))),
            exists|reply: Result<Option<Seq<u8>>, device::Error>|
                decoded(r, #[trigger] number_outcome(reply, 0x01, 0x0C, 2), |n: nat| scaled(n, 0, 1, 4)),
    {
        self.read_scaled(0x01, 0x0C, 2, 0, 1, 4)
    }

    /// Gets the speed of the vehicle in km/h.
    pub fn get_speed(&mut self) -> (r: Result<Vec<u8>, Error>)
        ensures
            final(self).requests() == old(self).requests().push(request_of(0x01, Some(0x0D))),
            exists|reply: Result<Option<Seq<u8>>, device::Error>|
                decoded(r, #[trigger] number_outcome(reply, 0x01, 0x0D, 1), |n: nat| n as u8),
    {
        self.get_bytes(0x01, 0x0D)
    }

    /// Gets the timing advance in degrees before top dead centre.
    pub fn get_timing_advance(&mut self) -> (r: Result<Vec<Scaled>, Error>)
        ensures
            final(self).requests() == old(self).requests().push(request_of(0x01, Some(0x0E))),
            exists|reply: Result<Option<Seq<u8>>, device::Error>|
                decoded(r, #[trigger] number_outcome(reply, 0x01, 0x0E, 1), |n: nat| scaled(n, -128, 1, 2)),
    {
        self.read_scaled(0x01, 0x0E, 1, -128, 1, 2)
    }

    /// Gets the intake manifold air temperature in degrees Celsius.
    pub fn get_intake_air_temperature(&mut self) -> (r: Result<Vec<i16>, Error>)
        ensures
            final(self).requests() == old(self).requests().push(request_of(0x01, Some(0x0F))),
            exists|reply: Result<Option<Seq<u8>>, device::Error>|
                decoded(r, #[trigger] number_outcome(reply, 0x01, 0x0F, 1), |n: nat| (n - 40) as i16),
    {
        let r = self.read_offset_bytes(0x01, 0x0F, -40, 1);
        assert((|n: nat| ((n + -40i16) * 1i16) as i16) =~= (|n: nat| (n - 40) as i16));
        r
    }

    /// Gets the mass air flow rate in g/s.
    pub fn get_air_flow_rate(&mut self) -> (r: Result<Vec<Scaled>, Error>)
        ensures
            final(self).requests() == old(self).requests().push(request_of(0x01, Some(0x10))),
            exists|reply: Result<Option<Seq<u8>>, device::Error>|
                decoded(r, #[trigger] number_outcome(reply, 0x01, 0x10, 2), |n: nat| scaled(n, 0, 1, 100)),
    {
        self.read_scaled(0x01, 0x10, 2, 0, 1, 100)
    }

    /// Gets the absolute throttle position (out of 255).
    pub fn get_throttle_position(&mut self) -> (r: Result<Vec<u8>, Error>)
        ensures
            final(self).requests() == old(self).requests().push(request_of(0x01, Some(0x11))),
            exists|reply: Result<Option<Seq<u8>>, device::Error>|
                decoded(r, #[trigger] number_outcome(reply, 0x01, 0x11, 1), |n: nat| n as u8),
    {
        self.get_bytes(0x01, 0x11)
    }

    /// Gets the commanded secondary air status (bit field).
    pub fn get_commanded_secondary_air_status(&mut self) -> (r: Result<Vec<u8>, Error>)
        ensures
            final(self).requests() == old(self).requests().push(request_of(0x01, Some(0x12))),
            exists|reply: Result<Option<Seq<u8>>, device::Error>|
                decoded(r, #[trigger] number_outcome(reply, 0x01, 0x12, 1), |n: nat| n as u8),
    {
        self.get_bytes(0x01, 0x12)
    }

    /// Gets which oxygen sensors are present, one nibble per bank (two-bank layout).
    pub fn get_oxygen_sensors_2_bank(&mut self) -> (r: Result<Vec<u8>, Error>)
        ensures
            final(self).requests() == old(self).requests().push(request_of(0x01, Some(0x13))),
            exists|reply: Result<Option<Seq<u8>>, device::Error>|
                decoded(r, #[trigger] number_outcome(reply, 0x01, 0x13, 1), |n: nat| n as u8),
    {
        self.get_bytes(0x01, 0x13)
    }

    /// Gets oxygen sensor 1's voltage and associated short term fuel trim.
    pub fn get_oxygen_sensor_1(&mut self) -> (r: Result<Vec<OxygenSensorData>, Error>)
        ensures
            final(self).requests() == old(self).requests().push(request_of(0x01, Some(0x14))),
            exists|reply: Result<Option<Seq<u8>>, device::Error>|
                decoded(r, #[trigger] number_outcome(reply, 0x01, 0x14, 2), |n: nat| oxygen_of(n)),
    {
        self.read_oxygen(0x01, 0x14)
    }

    /// Gets oxygen sensor 2's voltage and associated short term fuel trim.
    pub fn get_oxygen_sensor_2(&mut self) -> (r: Result<Vec<OxygenSensorData>, Error>)
        ensures
            final(self).requests() == old(self).requests().push(request_of(0x01, Some(0x15))),
            exists|reply: Result<Option<Seq<u8>>, device::Error>|
                decoded(r, #[trigger] number_outcome(reply, 0x01, 0x15, 2), |n: nat| oxygen_of(n)),
    {
        self.read_oxygen(0x01, 0x15)
    }

    /// Gets oxygen sensor 3's voltage and associated short term fuel trim.
    pub fn get_oxygen_sensor_3(&mut self) -> (r: Result<Vec<OxygenSensorData>, Error>)
        ensures
            final(self).requests() == old(self).requests().push(request_of(0x01, Some(0x16))),
            exists|reply: Result<Option<Seq<u8>>, device::Error>|
                decoded(r, #[trigger] number_outcome(reply, 0x01, 0x16, 2), |n: nat| oxygen_of(n)),
    {
        self.read_oxygen(0x01, 0x16)
    }

    /// Gets oxygen sensor 4's voltage and associated short term fuel trim.
    pub fn get_oxygen_sensor_4(&mut self) -> (r: Result<Vec<OxygenSensorData>, Error>)
        ensures
            final(self).requests() == old(self).requests().push(request_of(0x01, Some(0x17))),
            exists|reply: Result<Option<Seq<u8>>, device::Error>|
                decoded(r, #[trigger] number_outcome(reply, 0x01, 0x17, 2), |n: nat| oxygen_of(n)),
    {
        self.read_oxygen(0x01, 0x17)
    }

    /// Gets oxygen sensor 5's voltage and associated short term fuel trim.
    pub fn get_oxygen_sensor_5(&mut self) -> (r: Result<Vec<OxygenSensorData>, Error>)
        ensures
            final(self).requests() == old(self).requests().push(request_of(0x01, Some(0x18))),
            exists|reply: Result<Option<Seq<u8>>, device::Error>|
                decoded(r, #[trigger] number_outcome(reply, 0x01, 0x18, 2), |n: nat| oxygen_of(n)),
    {
        self.read_oxygen(0x01, 0x18)
    }

    /// Gets oxygen sensor 6's voltage and associated short term fuel trim.
    pub fn get_oxygen_sensor_6(&mut self) -> (r: Result<Vec<OxygenSensorData>, Error>)
        ensures
            final(self).requests() == old(self).requests().push(request_of(0x01, Some(0x19))),
            exists|reply: Result<Option<Seq<u8>>, device::Error>|
                decoded(r, #[trigger] number_outcome(reply, 0x01, 0x19, 2), |n: nat| oxygen_of(n)),
    {
        self.read_oxygen(0x01, 0x19)
    }

    /// Gets oxygen sensor 7's voltage and associated short term fuel trim.
    pub fn get_oxygen_sensor_7(&mut self) -> (r: Result<Vec<OxygenSensorData>, Error>)
        ensures
            final(self).requests() == old(self).requests().push(request_of(0x01, Some(0x1A))),
            exists|reply: Result<Option<Seq<u8>>, device::Error>|
                decoded(r, #[trigger] number_outcome(reply, 0x01, 0x1A, 2), |n: nat| oxygen_of(n)),
    {
        self.read_oxygen(0x01, 0x1A)
    }

    /// Gets oxygen sensor 8's voltage and associated short term fuel trim.
    pub fn get_oxygen_sensor_8(&mut self) -> (r: Result<Vec<OxygenSensorData>, Error>)
        ensures
            final(self).requests() == old(self).requests().push(request_of(0x01, Some(0x1B))),
            exists|reply: Result<Option<Seq<u8>>, device::Error>|
                decoded(r, #[trigger] number_outcome(reply, 0x01, 0x1B, 2), |n: nat| oxygen_of(n)),
    {
        self.read_oxygen(0x01, 0x1B)
    }

    /// Gets which OBD standard this vehicle is designed to support.
    pub fn get_obd_requirements(&mut self) -> (r: Result<Vec<u8>, Error>)
        ensures
            final(self).requests() == old(self).requests().push(request_of(0x01, Some(0x1C))),
            exists|reply: Result<Option<Seq<u8>>, device::Error>|
                decoded(r, #[trigger] number_outcome(reply, 0x01, 0x1C, 1), |n: nat| n as u8),
    {
        self.get_bytes(0x01, 0x1C)
    }

    /// Gets which oxygen sensors are present, two bits per bank (four-bank layout).
    pub fn get_oxygen_sensors_4_bank(&mut self) -> (r: Result<Vec<u8>, Error>)
        ensures
            final(self).requests() == old(self).requests().push(request_of(0x01, Some(0x1D))),
            exists|reply: Result<Option<Seq<u8>>, device::Error>|
                decoded(r, #[trigger] number_outcome(reply, 0x01, 0x1D, 1), |n: nat| n as u8),
    {
        self.get_bytes(0x01, 0x1D)
    }

    /// Gets the auxiliary input status; the lowest bit tells whether power take-off is active.
    pub fn get_auxiliary_input_status(&mut self) -> (r: Result<Vec<u8>, Error>)
        ensures
            final(self).requests() == old(self).requests().push(request_of(0x01, Some(0x1E))),
            exists|reply: Result<Option<Seq<u8>>, device::Error>|
                decoded(r, #[trigger] number_outcome(reply, 0x01, 0x1E, 1), |n: nat| n as u8),
    {
        self.get_bytes(0x01, 0x1E)
    }

    /// Gets the time since the engine was started, in seconds.
    pub fn get_run_time(&mut self) -> (r: Result<Vec<u16>, Error>)
        ensures
            final(self).requests() == old(self).requests().push(request_of(0x01, Some(0x1F))),
            exists|reply: Result<Option<Seq<u8>>, device::Error>|
                decoded(r, #[trigger] number_outcome(reply, 0x01, 0x1F, 2), |n: nat| n as u16),
    {
        self.read_words(0x01, 0x1F)
    }

    /// Gets which service 1 PIDs from $21 to $40 are supported, as a bit field.
    pub fn get_service_1_pid_support_2(&mut self) -> (r: Result<Vec<u32>, Error>)
        ensures
            final(self).requests() == old(self).requests().push(request_of(0x01, Some(0x20))),
            exists|reply: Result<Option<Seq<u8>>, device::Error>|
                decoded(r, #[trigger] number_outcome(reply, 0x01, 0x20, 4), |n: nat| n as u32),
    {
        self.read_double_words(0x01, 0x20)
    }

    /// Gets the fuel tank level (out of 255).
    pub fn get_fuel_level(&mut self) -> (r: Result<Vec<u8>, Error>)
        ensures
            final(self).requests() == old(self).requests().push(request_of(0x01, Some(0x2F))),
            exists|reply: Result<Option<Seq<u8>>, device::Error>|
                decoded(r, #[trigger] number_outcome(reply, 0x01, 0x2F, 1), |n: nat| n as u8),
    {
        self.get_bytes(0x01, 0x2F)
    }

    /// Gets the fuel system status of systems A and B: two bytes per ECU.
    pub fn get_fuel_system_status(&mut self) -> (r: Result<Vec<Vec<u8>>, Error>)
        ensures
            final(self).requests() == old(self).requests().push(request_of(0x01, Some(0x03))),
            exists|reply: Result<Option<Seq<u8>>, device::Error>|
                payload_view(r) == match #[trigger] obd_outcome(reply, 0x01, Some(0x03)) {
                    Err(e) => Err(e),
                    Ok(ps) => length_result(ps, 2),
                },
    {
        self.obd_command_len(0x01, 0x03, 2)
    }
}

} // verus!
