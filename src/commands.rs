//! The decode framework: turns each ECU's raw payload into typed values.
use crate::device::Obd2BaseDevice;
use crate::error::Error;
use crate::interface::{obd_outcome, payload_view, request_of, Obd2};
use crate::text::{
    all_ascii, ascii_chars, ascii_string, string_from_utf8, tail, upper_digit, views,
};
use vstd::prelude::*;
use vstd::utf8::{decode_utf8, valid_utf8};

verus! {

/// DTC (diagnostic trouble code) metadata of one ECU.
#[derive(Debug, Clone, Copy, PartialEq, Eq)]
pub struct DtcsInfo {
    /// Whether the "check engine" light is illuminated.
    pub malfunction_indicator_light: bool,
    /// Number of DTCs for this ECU.
    pub dtc_count: u8,
    /// Bit field showing availability of seven common tests; the upper bit is unused.
    pub common_test_availability: u8,
    /// Whether the engine is a compression-ignition (Diesel) engine.
    pub is_compression_engine: bool,
    /// Bit field showing availability of sixteen engine-specific tests, whose meaning
    /// depends on `is_compression_engine`.
    pub specific_test_availability: u16,
}

/// An individual trouble code from an ECU: a category and a numeric code.
#[derive(Debug, Clone, Copy, PartialEq, Eq)]
pub enum Dtc {
    /// Powertrain, written with `'P'`.
    Powertrain(u16),
    /// Chassis, written with `'C'`.
    Chassis(u16),
    /// Body, written with `'B'`.
    Body(u16),
    /// Network, written with `'U'`.
    Network(u16),
}

/// The index of the first payload whose length is not `n`, or `ps.len()` if none.
pub open spec fn first_wrong_len(ps: Seq<Seq<u8>>, n: nat) -> int
    decreases ps.len(),
{
    if ps.len() == 0 {
        0
    } else {
        let k = first_wrong_len(ps.drop_last(), n);
        if k < ps.len() - 1 {
            k
        } else if ps.last().len() != n {
            ps.len() - 1
        } else {
            ps.len() as int
        }
    }
}

/// The payloads if each has exactly `n` bytes; else a length error for the first that has not.
pub open spec fn length_result(ps: Seq<Seq<u8>>, n: usize) -> Result<Seq<Seq<u8>>, Error> {
    let k = first_wrong_len(ps, n as nat);
    if k >= ps.len() {
        Ok(ps)
    } else {
        Err(Error::IncorrectResponseLength("length", n, ps[k].len() as usize))
    }
}

/// The payloads if exactly `count` ECUs responded; else a count error.
pub open spec fn count_result(ps: Seq<Seq<u8>>, count: usize) -> Result<Seq<Seq<u8>>, Error> {
    if ps.len() == count {
        Ok(ps)
    } else {
        Err(Error::IncorrectResponseLength("count", count, ps.len() as usize))
    }
}

/// The unsigned number that `p` holds, most significant byte first.
pub open spec fn be_value(p: Seq<u8>) -> nat
    decreases p.len(),
{
    if p.len() == 0 {
        0
    } else {
        (be_value(p.drop_last()) * 256 + p.last()) as nat
    }
}

/// `256` to the power `n`.
pub open spec fn pow256(n: nat) -> nat
    decreases n,
{
    if n == 0 {
        1
    } else {
        256 * pow256((n - 1) as nat)
    }
}

/// The big-endian value of each payload, if each has exactly `n` bytes.
pub open spec fn width_values(ps: Seq<Seq<u8>>, n: usize) -> Result<Seq<nat>, Error> {
    match length_result(ps, n) {
        Err(e) => Err(e),
        Ok(_) => Ok(Seq::new(ps.len(), |i: int| be_value(ps[i]))),
    }
}

/// The DTC metadata in a four-byte payload.
pub open spec fn dtcs_info_of(p: Seq<u8>) -> DtcsInfo {
    DtcsInfo {
        malfunction_indicator_light: (p[0] & 0x80) == 0x80,
        dtc_count: p[0] & 0x7f,
        common_test_availability: ((p[1] & 0xf0) >> 1u8) | (p[1] & 0x07),
        is_compression_engine: (p[1] & 0x08) == 0x08,
        specific_test_availability: ((p[2] as u16) * 256 + (p[3] as u16)) as u16,
    }
}

/// The DTC metadata of each ECU, if each payload has exactly four bytes.
pub open spec fn dtcs_infos(ps: Seq<Seq<u8>>) -> Result<Seq<DtcsInfo>, Error> {
    match length_result(ps, 4) {
        Err(e) => Err(e),
        Ok(_) => Ok(Seq::new(ps.len(), |i: int| dtcs_info_of(ps[i]))),
    }
}

/// The letter that names a trouble code's category.
pub open spec fn dtc_letter(d: Dtc) -> u8 {
    match d {
        Dtc::Powertrain(_) => 0x50,
        Dtc::Chassis(_) => 0x43,
        Dtc::Body(_) => 0x42,
        Dtc::Network(_) => 0x55,
    }
}

/// A trouble code's number.
pub open spec fn dtc_number(d: Dtc) -> u16 {
    match d {
        Dtc::Powertrain(n) => n,
        Dtc::Chassis(n) => n,
        Dtc::Body(n) => n,
        Dtc::Network(n) => n,
    }
}

/// `n` in upper-case hexadecimal, padded with zeros to at least three digits.
pub open spec fn code_text(n: u16) -> Seq<u8> {
    let low = seq![
        upper_digit((n / 256 % 16) as int),
        upper_digit((n / 16 % 16) as int),
        upper_digit((n % 16) as int),
    ];
    if n < 0x1000 {
        low
    } else {
        seq![upper_digit((n / 4096) as int)] + low
    }
}

/// How a trouble code is written: its category letter, then its number in hex.
pub open spec fn dtc_text(d: Dtc) -> Seq<u8> {
    seq![dtc_letter(d)] + code_text(dtc_number(d))
}

/// The trouble code that the 16-bit value `v` encodes: the top two bits give the
/// category, the other fourteen the code.
pub open spec fn dtc_of(v: u16) -> Dtc {
    let n = v & 0x3fff;
    let c = v >> 14u16;
    if c == 0 {
        Dtc::Powertrain(n)
    } else if c == 1 {
        Dtc::Chassis(n)
    } else if c == 2 {
        Dtc::Body(n)
    } else {
        Dtc::Network(n)
    }
}

/// The category of a stored DTC from the first byte of its pair; the code itself is
/// not rebuilt from this format and reads 0.
pub open spec fn listed_dtc(b: u8) -> Dtc {
    let c = b / 64;
    if c == 0 {
        Dtc::Powertrain(0)
    } else if c == 1 {
        Dtc::Chassis(0)
    } else if c == 2 {
        Dtc::Body(0)
    } else {
        Dtc::Network(0)
    }
}

/// The stored DTCs in one payload: a leading 0, then one pair of bytes per code.
pub open spec fn dtc_list_of(p: Seq<u8>) -> Option<Seq<Dtc>> {
    if p.len() >= 1 && p[0] == 0 && p.len() % 2 == 1 {
        Some(Seq::new(((p.len() - 1) / 2) as nat, |i: int| listed_dtc(p[1 + 2 * i])))
    } else {
        None
    }
}

/// The stored DTCs of each ECU, if every payload is in the supported format.
pub open spec fn dtc_lists(ps: Seq<Seq<u8>>) -> Result<Seq<Seq<Dtc>>, Error> {
    if forall|i: int| 0 <= i < ps.len() ==> (#[trigger] dtc_list_of(ps[i])) is Some {
        Ok(Seq::new(ps.len(), |i: int| dtc_list_of(ps[i])->0))
    } else {
        Err(Error::InvalidDtcList)
    }
}

/// The vehicle identification number, a single-ECU value: exactly one ECU must
/// answer, and its payload's bytes after the first are UTF-8 text.
pub open spec fn vin_of(ps: Seq<Seq<u8>>) -> Result<Seq<char>, Error> {
    if ps.len() != 1 {
        Err(Error::IncorrectResponseLength("count", 1, ps.len() as usize))
    } else if ps[0].len() == 0 {
        Err(Error::IncorrectResponseLength("length", 1, 0))
    } else if valid_utf8(ps[0].skip(1)) {
        Ok(decode_utf8(ps[0].skip(1)))
    } else {
        Err(Error::InvalidText)
    }
}

/// Plain views of a decoded list.
pub open spec fn values_view<T>(r: Result<Vec<T>, Error>) -> Result<Seq<T>, Error> {
    match r {
        Ok(v) => Ok(v@),
        Err(e) => Err(e),
    }
}

/// Plain views of decoded DTC lists.
pub open spec fn dtc_lists_view(r: Result<Vec<Vec<Dtc>>, Error>) -> Result<Seq<Seq<Dtc>>, Error> {
    match r {
        Ok(v) => Ok(v@.map_values(|x: Vec<Dtc>| x@)),
        Err(e) => Err(e),
    }
}

/// Whether the numbers in `r` are those in `s`, each within `u32`.
pub open spec fn numbers_match(r: Result<Vec<u32>, Error>, s: Result<Seq<nat>, Error>) -> bool {
    match (r, s) {
        (Ok(v), Ok(w)) => v@.len() == w.len() && forall|i: int|
            0 <= i < w.len() ==> v@[i] as nat == #[trigger] w[i],
        (Err(e), Err(f)) => e == f,
        _ => false,
    }
}

/// What a request for `service` and `pid` yields, read as big-endian numbers of `n` bytes.
pub open spec fn number_outcome(
    reply: Result<Option<Seq<u8>>, crate::device::Error>,
    service: u8,
    pid: u8,
    n: usize,
) -> Result<Seq<nat>, Error> {
    match obd_outcome(reply, service, Some(pid)) {
        Err(e) => Err(e),
        Ok(ps) => width_values(ps, n),
    }
}

pub proof fn lemma_first_wrong_len_bounds(ps: Seq<Seq<u8>>, n: nat)
    ensures
        0 <= first_wrong_len(ps, n) <= ps.len(),
        first_wrong_len(ps, n) < ps.len() ==> ps[first_wrong_len(ps, n)].len() != n,
        forall|j: int| 0 <= j < first_wrong_len(ps, n) ==> (#[trigger] ps[j]).len() == n,
    decreases ps.len(),
{
    if ps.len() > 0 {
        lemma_first_wrong_len_bounds(ps.drop_last(), n);
        let k = first_wrong_len(ps.drop_last(), n);
        assert forall|j: int| 0 <= j < first_wrong_len(ps, n) implies (#[trigger] ps[j]).len()
            == n by {
            if j < ps.len() - 1 {
                assert(ps.drop_last()[j] == ps[j]);
            }
        }
        if k < ps.len() - 1 {
            assert(ps.drop_last()[k] == ps[k]);
        }
    }
}

proof fn lemma_first_wrong_len_is(ps: Seq<Seq<u8>>, n: nat, k: int)
    requires
        0 <= k <= ps.len(),
        k < ps.len() ==> ps[k].len() != n,
        forall|j: int| 0 <= j < k ==> (#[trigger] ps[j]).len() == n,
    ensures
        first_wrong_len(ps, n) == k,
{
    lemma_first_wrong_len_bounds(ps, n);
    let f = first_wrong_len(ps, n);
    if f < k {
        assert(ps[f].len() == n);
    } else if k < f {
        assert(ps[k].len() == n);
    }
}

pub proof fn lemma_be_value_bound(p: Seq<u8>)
    ensures
        be_value(p) < pow256(p.len()),
    decreases p.len(),
{
    if p.len() > 0 {
        lemma_be_value_bound(p.drop_last());
        let a = be_value(p.drop_last());
        let m = pow256(p.drop_last().len());
        let b = p.last();
        assert(a * 256 + b < 256 * m) by (nonlinear_arith)
            requires
                a < m,
                b < 256,
        ;
    }
}

/// Fewer responders than a command expects is a count error that names both counts.
pub proof fn lemma_missing_responders(ps: Seq<Seq<u8>>, count: usize)
    requires
        ps.len() < count,
    ensures
        count_result(ps, count) == Err::<Seq<Seq<u8>>, Error>(
            Error::IncorrectResponseLength("count", count, ps.len() as usize),
        ),
{
}

/// A response with no data bytes never decodes as a value of nonzero width, however
/// many bytes that width asks for: it is a length error naming that width and zero.
pub proof fn lemma_empty_payload(ps: Seq<Seq<u8>>, n: usize)
    requires
        n > 0,
        ps.len() > 0,
        ps[0].len() == 0,
    ensures
        width_values(ps, n) == Err::<Seq<nat>, Error>(Error::IncorrectResponseLength("length", n, 0)),
        length_result(ps, n) == Err::<Seq<Seq<u8>>, Error>(
            Error::IncorrectResponseLength("length", n, 0),
        ),
{
    lemma_first_wrong_len_is(ps, n as nat, 0);
}

/// Checks that every payload has exactly `n` bytes.
pub fn check_lengths(responses: Vec<Vec<u8>>, n: usize) -> (r: Result<Vec<Vec<u8>>, Error>)
    ensures
        payload_view(r) == length_result(views(responses@), n),
{
    let mut i: usize = 0;
    while i < responses.len()
        invariant
            i <= responses@.len(),
            forall|j: int| 0 <= j < i ==> (#[trigger] views(responses@)[j]).len() == n,
        decreases responses.len() - i,
    {
        let l = responses[i].len();
        if l != n {
            proof {
                lemma_first_wrong_len_is(views(responses@), n as nat, i as int);
            }
            return Err(Error::IncorrectResponseLength("length", n, l));
        }
        i += 1;
    }
    proof {
        lemma_first_wrong_len_is(views(responses@), n as nat, i as int);
    }
    Ok(responses)
}

/// Checks that exactly `count` ECUs responded.
pub fn check_count(responses: Vec<Vec<u8>>, count: usize) -> (r: Result<Vec<Vec<u8>>, Error>)
    ensures
        payload_view(r) == count_result(views(responses@), count),
{
    let l = responses.len();
    if l == count {
        Ok(responses)
    } else {
        Err(Error::IncorrectResponseLength("count", count, l))
    }
}

/// The big-endian number in `p`, of at most four bytes.
pub fn be_number(p: &[u8]) -> (r: u32)
    requires
        p@.len() <= 4,
    ensures
        r as nat == be_value(p@),
{
    let mut acc: u32 = 0;
    let mut i: usize = 0;
    while i < p.len()
        invariant
            i <= p@.len() <= 4,
            acc as nat == be_value(p@.take(i as int)),
        decreases p.len() - i,
    {
        proof {
            assert(p@.take(i + 1).drop_last() == p@.take(i as int));
            lemma_be_value_bound(p@.take(i as int));
            assert(pow256(0) == 1);
            assert(pow256(1) == 256);
            assert(pow256(2) == 65536);
            assert(pow256(3) == 16777216);
        }
        acc = acc * 256 + p[i] as u32;
        i += 1;
    }
    assert(p@.take(p@.len() as int) == p@);
    acc
}

/// The big-endian number in each payload, which must have exactly `n` bytes.
pub fn decode_numbers(responses: Vec<Vec<u8>>, n: usize) -> (r: Result<Vec<u32>, Error>)
    requires
        n <= 4,
    ensures
        numbers_match(r, width_values(views(responses@), n)),
{
    let ps = check_lengths(responses, n)?;
    proof {
        lemma_first_wrong_len_bounds(views(ps@), n as nat);
        assert forall|j: int| 0 <= j < ps@.len() implies (#[trigger] ps@[j])@.len() == n by {
            assert(views(ps@)[j] == ps@[j]@);
        }
    }
    let mut out: Vec<u32> = Vec::new();
    let mut i: usize = 0;
    while i < ps.len()
        invariant
            n <= 4,
            i <= ps@.len(),
            forall|j: int| 0 <= j < ps@.len() ==> (#[trigger] ps@[j])@.len() == n,
            out@.len() == i,
            forall|j: int| 0 <= j < i ==> out@[j] as nat == be_value(#[trigger] ps@[j]@),
        decreases ps.len() - i,
    {
        let v = be_number(ps[i].as_slice());
        out.push(v);
        i += 1;
    }
    proof {
        lemma_first_wrong_len_bounds(views(ps@), n as nat);
        assert forall|j: int| 0 <= j < ps@.len() implies (#[trigger] ps@[j])@.len() == n by {
            assert(views(ps@)[j] == ps@[j]@);
        }
    }
    Ok(out)
}

/// The DTC metadata in a four-byte payload.
pub fn dtcs_info(p: &[u8]) -> (r: DtcsInfo)
    requires
        p@.len() == 4,
    ensures
        r == dtcs_info_of(p@),
{
    DtcsInfo {
        malfunction_indicator_light: (p[0] & 0x80) == 0x80,
        dtc_count: p[0] & 0x7f,
        common_test_availability: ((p[1] & 0xf0) >> 1u8) | (p[1] & 0x07),
        is_compression_engine: (p[1] & 0x08) == 0x08,
        specific_test_availability: (p[2] as u16) * 256 + (p[3] as u16),
    }
}

/// The DTC metadata of each ECU; each payload must have exactly four bytes.
pub fn decode_dtcs_infos(responses: Vec<Vec<u8>>) -> (r: Result<Vec<DtcsInfo>, Error>)
    ensures
        values_view(r) == dtcs_infos(views(responses@)),
{
    let ps = check_lengths(responses, 4)?;
    proof {
        lemma_first_wrong_len_bounds(views(ps@), 4);
        assert forall|j: int| 0 <= j < ps@.len() implies (#[trigger] ps@[j])@.len() == 4 by {
            assert(views(ps@)[j] == ps@[j]@);
        }
    }
    let mut out: Vec<DtcsInfo> = Vec::new();
    let mut i: usize = 0;
    while i < ps.len()
        invariant
            i <= ps@.len(),
            forall|j: int| 0 <= j < ps@.len() ==> (#[trigger] ps@[j])@.len() == 4,
            out@ == Seq::new(i as nat, |j: int| dtcs_info_of(views(ps@)[j])),
        decreases ps.len() - i,
    {
        let d = dtcs_info(ps[i].as_slice());
        out.push(d);
        assert(out@ =~= Seq::new((i + 1) as nat, |j: int| dtcs_info_of(views(ps@)[j])));
        i += 1;
    }
    proof {
        lemma_first_wrong_len_bounds(views(ps@), 4);
    }
    Ok(out)
}

impl Dtc {
    /// The trouble code that a 16-bit value encodes.
    pub fn from_u16(v: u16) -> (r: Dtc)
        ensures
            r == dtc_of(v),
    {
        let n = v & 0x3fff;
        let c = v >> 14u16;
        if c == 0 {
            Dtc::Powertrain(n)
        } else if c == 1 {
            Dtc::Chassis(n)
        } else if c == 2 {
            Dtc::Body(n)
        } else {
            Dtc::Network(n)
        }
    }

    /// The upper-case hex digit for `n` below 16.
    fn digit(n: u16) -> (r: u8)
        requires
            n < 16,
        ensures
            r == upper_digit(n as int),
            r < 0x80,
    {
        let b = n as u8;
        if b < 10 {
            0x30 + b
        } else {
            0x37 + b
        }
    }

    /// The ASCII text of this code: its category letter, then its number in hex,
    /// at least three digits.
    pub fn text(&self) -> (r: Vec<u8>)
        ensures
            r@ == dtc_text(*self),
            all_ascii(r@),
    {
        let (letter, n) = match self {
            Dtc::Powertrain(n) => (0x50u8, *n),
            Dtc::Chassis(n) => (0x43u8, *n),
            Dtc::Body(n) => (0x42u8, *n),
            Dtc::Network(n) => (0x55u8, *n),
        };
        let mut out: Vec<u8> = Vec::new();
        out.push(letter);
        if n >= 0x1000 {
            out.push(Self::digit(n / 4096));
        }
        out.push(Self::digit(n / 256 % 16));
        out.push(Self::digit(n / 16 % 16));
        out.push(Self::digit(n % 16));
        assert(out@ =~= dtc_text(*self));
        out
    }

    /// The code as it is written, such as `P301`.
    pub fn to_string(&self) -> (r: String)
        ensures
            r@ == ascii_chars(dtc_text(*self)),
    {
        ascii_string(self.text())
    }
}

impl From<u16> for Dtc {
    fn from(v: u16) -> (r: Dtc)
        ensures
            r == dtc_of(v),
    {
        Dtc::from_u16(v)
    }
}

impl vstd::std_specs::convert::FromSpecImpl<u16> for Dtc {
    open spec fn obeys_from_spec() -> bool {
        true
    }

    open spec fn from_spec(v: u16) -> Dtc {
        dtc_of(v)
    }
}

/// The stored DTCs of one payload, if it is in the supported format.
pub fn dtc_list(p: &[u8]) -> (r: Option<Vec<Dtc>>)
    ensures
        match r {
            Some(v) => dtc_list_of(p@) == Some(v@),
            None => dtc_list_of(p@) is None,
        },
{
    if p.len() == 0 || p[0] != 0 || p.len() % 2 == 0 {
        return None;
    }
    let mut out: Vec<Dtc> = Vec::new();
    let mut i: usize = 1;
    while i < p.len()
        invariant
            1 <= i <= p@.len(),
            i % 2 == 1,
            p@.len() % 2 == 1,
            out@ == Seq::new(((i - 1) / 2) as nat, |j: int| listed_dtc(p@[1 + 2 * j])),
        decreases p.len() - i,
    {
        let c = p[i] / 64;
        let d = if c == 0 {
            Dtc::Powertrain(0)
        } else if c == 1 {
            Dtc::Chassis(0)
        } else if c == 2 {
            Dtc::Body(0)
        } else {
            Dtc::Network(0)
        };
        out.push(d);
        assert(out@ =~= Seq::new(((i + 1) / 2) as nat, |j: int| listed_dtc(p@[1 + 2 * j])));
        i += 2;
    }
    Some(out)
}

/// The stored DTCs of each ECU; every payload must be in the supported format.
pub fn decode_dtc_lists(responses: Vec<Vec<u8>>) -> (r: Result<Vec<Vec<Dtc>>, Error>)
    ensures
        dtc_lists_view(r) == dtc_lists(views(responses@)),
{
    let mut out: Vec<Vec<Dtc>> = Vec::new();
    let mut i: usize = 0;
    while i < responses.len()
        invariant
            i <= responses@.len(),
            forall|j: int| 0 <= j < i ==> (#[trigger] dtc_list_of(views(responses@)[j])) is Some,
            out@.len() == i,
            forall|j: int| 0 <= j < i ==> (#[trigger] out@[j])@ == dtc_list_of(views(responses@)[j])->0,
        decreases responses.len() - i,
    {
        match dtc_list(responses[i].as_slice()) {
            Some(d) => {
                assert(views(responses@)[i as int] == responses@[i as int]@);
                out.push(d);
            },
            None => {
                assert(dtc_list_of(views(responses@)[i as int]) is None);
                return Err(Error::InvalidDtcList);
            },
        }
        i += 1;
    }
    assert(out@.map_values(|x: Vec<Dtc>| x@) =~= Seq::new(
        responses@.len(),
        |j: int| dtc_list_of(views(responses@)[j])->0,
    ));
    Ok(out)
}

/// The vehicle identification number in the only ECU's payload.
pub fn decode_vin(responses: Vec<Vec<u8>>) -> (r: Result<String, Error>)
    ensures
        match (r, vin_of(views(responses@))) {
            (Ok(s), Ok(t)) => s@ == t,
            (Err(e), Err(f)) => e == f,
            _ => false,
        },
{
    let n = responses.len();
    if n != 1 {
        return Err(Error::IncorrectResponseLength("count", 1, n));
    }
    let only = responses[0].as_slice();
    assert(only@ == views(responses@)[0]);
    if only.len() == 0 {
        return Err(Error::IncorrectResponseLength("length", 1, 0));
    }
    let text = tail(only, 1);
    match string_from_utf8(text) {
        Some(s) => Ok(s),
        None => Err(Error::InvalidText),
    }
}

impl<T: Obd2BaseDevice> Obd2<T> {
    /// Sends a request and gets each ECU's data, which must be exactly `length` bytes.
    pub fn obd_command_len(&mut self, mode: u8, pid: u8, length: usize) -> (r: Result<
        Vec<Vec<u8>>,
        Error,
    >)
        ensures
            final(self).requests() == old(self).requests().push(request_of(mode, Some(pid))),
            exists|reply: Result<Option<Seq<u8>>, crate::device::Error>|
                payload_view(r) == match #[trigger] obd_outcome(reply, mode, Some(pid)) {
                    Err(e) => Err(e),
                    Ok(ps) => length_result(ps, length),
                },
    {
        let sent = self.obd_command(mode, pid);
        let ghost reply = choose|reply: Result<Option<Seq<u8>>, crate::device::Error>|
            payload_view(sent) == obd_outcome(reply, mode, Some(pid));
        match sent {
            Err(e) => Err(e),
            Ok(ps) => check_lengths(ps, length),
        }
    }

    /// Like `obd_command_len`, and exactly `count` ECUs must respond.
    pub fn obd_command_cnt_len(&mut self, mode: u8, pid: u8, count: usize, length: usize) -> (r:
        Result<Vec<Vec<u8>>, Error>)
        ensures
            final(self).requests() == old(self).requests().push(request_of(mode, Some(pid))),
            exists|reply: Result<Option<Seq<u8>>, crate::device::Error>|
                payload_view(r) == match #[trigger] obd_outcome(reply, mode, Some(pid)) {
                    Err(e) => Err(e),
                    Ok(ps) => match length_result(ps, length) {
                        Err(e) => Err(e),
                        Ok(qs) => count_result(qs, count),
                    },
                },
    {
        let sent = self.obd_command(mode, pid);
        let ghost reply = choose|reply: Result<Option<Seq<u8>>, crate::device::Error>|
            payload_view(sent) == obd_outcome(reply, mode, Some(pid));
        match sent {
            Err(e) => Err(e),
            Ok(ps) => match check_lengths(ps, length) {
                Err(e) => Err(e),
                Ok(qs) => check_count(qs, count),
            },
        }
    }

    /// Retrieves the VIN (vehicle identification number).
    pub fn get_vin(&mut self) -> (r: Result<String, Error>)
        ensures
            final(self).requests() == old(self).requests().push(request_of(0x09, Some(0x02))),
            exists|reply: Result<Option<Seq<u8>>, crate::device::Error>|
                match (r, #[trigger] obd_outcome(reply, 0x09, Some(0x02))) {
                    (Ok(s), Ok(ps)) => vin_of(ps) == Ok::<Seq<char>, Error>(s@),
                    (Err(e), Ok(ps)) => vin_of(ps) == Err::<Seq<char>, Error>(e),
                    (Err(e), Err(f)) => e == f,
                    _ => false,
                },
    {
        let sent = self.obd_command(0x09, 0x02);
        let ghost reply = choose|reply: Result<Option<Seq<u8>>, crate::device::Error>|
            payload_view(sent) == obd_outcome(reply, 0x09, Some(0x02));
        match sent {
            Err(e) => Err(e),
            Ok(ps) => decode_vin(ps),
        }
    }

    /// Gets the DTC metadata of each ECU.
    pub fn get_dtc_info(&mut self) -> (r: Result<Vec<DtcsInfo>, Error>)
        ensures
            final(self).requests() == old(self).requests().push(request_of(0x01, Some(0x01))),
            exists|reply: Result<Option<Seq<u8>>, crate::device::Error>|
                values_view(r) == match #[trigger] obd_outcome(reply, 0x01, Some(0x01)) {
                    Err(e) => Err(e),
                    Ok(ps) => dtcs_infos(ps),
                },
    {
        let sent = self.obd_command(0x01, 0x01);
        let ghost reply = choose|reply: Result<Option<Seq<u8>>, crate::device::Error>|
            payload_view(sent) == obd_outcome(reply, 0x01, Some(0x01));
        match sent {
            Err(e) => Err(e),
            Ok(ps) => decode_dtcs_infos(ps),
        }
    }

    /// Gets the stored DTCs of each ECU.
    pub fn get_dtcs(&mut self) -> (r: Result<Vec<Vec<Dtc>>, Error>)
        ensures
            final(self).requests() == old(self).requests().push(request_of(0x03, None)),
            exists|reply: Result<Option<Seq<u8>>, crate::device::Error>|
                dtc_lists_view(r) == match #[trigger] obd_outcome(reply, 0x03, None) {
                    Err(e) => Err(e),
                    Ok(ps) => dtc_lists(ps),
                },
    {
        let sent = self.obd_mode_command(0x03);
        let ghost reply = choose|reply: Result<Option<Seq<u8>>, crate::device::Error>|
            payload_view(sent) == obd_outcome(reply, 0x03, None);
        match sent {
            Err(e) => Err(e),
            Ok(ps) => decode_dtc_lists(ps),
        }
    }

    /// Reads `service`/`pid` as one big-endian number of `width` bytes per ECU.
    pub fn get_numbers(&mut self, service: u8, pid: u8, width: usize) -> (r: Result<
        Vec<u32>,
        Error,
    >)
        requires
            width <= 4,
        ensures
            final(self).requests() == old(self).requests().push(request_of(service, Some(pid))),
            exists|reply: Result<Option<Seq<u8>>, crate::device::Error>|
                numbers_match(r, #[trigger] number_outcome(reply, service, pid, width)),
    {
        let sent = self.obd_command(service, pid);
        let ghost reply = choose|reply: Result<Option<Seq<u8>>, crate::device::Error>|
            payload_view(sent) == obd_outcome(reply, service, Some(pid));
        let r = match sent {
            Err(e) => Err(e),
            Ok(ps) => decode_numbers(ps, width),
        };
        assert(numbers_match(r, number_outcome(reply, service, pid, width)));
        r
    }
}

} // verus!
