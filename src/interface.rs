//! The command dispatcher: sends OBD-II requests through a device and turns the
//! adapter's reply text into one raw payload per responding ECU.
use crate::device::{self, Obd2BaseDevice};
use crate::error::{DeviceError, Error};
use crate::text::{
    find_byte, first_index, hex_digit, hex_digit_value, hex_value, is_hex_digit, lemma_first_index_bounds,
    lemma_views_append, lemma_views_push, lines, parse_hex_tokens, split_lines, split_tokens, tail,
    token_bytes, tokens, upper_digit, views, COLON,
};
use vstd::prelude::*;

verus! {

/// Whether the reply marks its lines with an index: a hex digit followed by a colon.
pub open spec fn is_multiline(r: Seq<u8>) -> bool {
    exists|i: int| 0 <= i && i + 1 < r.len() && #[trigger] is_hex_digit(r[i]) && r[i + 1] == COLON
}

/// The tokens of each line that holds any, in order.
pub open spec fn line_tokens(ls: Seq<Seq<u8>>) -> Seq<Seq<Seq<u8>>>
    decreases ls.len(),
{
    if ls.len() == 0 {
        Seq::empty()
    } else {
        let p = line_tokens(ls.drop_last());
        let t = tokens(ls.last());
        if t.len() == 0 {
            p
        } else {
            p.push(t)
        }
    }
}

/// Whether `idx` is the single hex digit for line index `n`.
pub open spec fn index_matches(idx: Seq<u8>, n: int) -> bool {
    idx.len() == 1 && is_hex_digit(idx[0]) && hex_value(idx[0]) == n
}

/// The data tokens of a multi-line reply, with the number of indexed lines; `None`
/// when an indexed line does not carry the next index (counting modulo 16).
/// Lines without a colon carry no data.
pub open spec fn multiline_tokens(ls: Seq<Seq<u8>>) -> Option<(Seq<Seq<u8>>, nat)>
    decreases ls.len(),
{
    if ls.len() == 0 {
        Some((Seq::empty(), 0nat))
    } else {
        match multiline_tokens(ls.drop_last()) {
            None => None,
            Some((ts, n)) => {
                let l = ls.last();
                let k = first_index(l, COLON);
                if k >= l.len() {
                    Some((ts, n))
                } else if index_matches(l.take(k), (n % 16) as int) {
                    Some((ts + tokens(l.skip(k + 1)), n + 1))
                } else {
                    None
                }
            },
        }
    }
}

/// The bytes of each response's tokens, or `None` if any token is malformed.
pub open spec fn responses_bytes(rs: Seq<Seq<Seq<u8>>>) -> Option<Seq<Seq<u8>>>
    decreases rs.len(),
{
    if rs.len() == 0 {
        Some(Seq::empty())
    } else {
        match (responses_bytes(rs.drop_last()), token_bytes(rs.last())) {
            (Some(p), Some(b)) => Some(p.push(b)),
            _ => None,
        }
    }
}

/// The token lists of a single-line reply: one per ECU.
pub open spec fn single_line_result(r: Seq<u8>) -> Result<Seq<Seq<Seq<u8>>>, Error> {
    let rs = line_tokens(lines(r));
    if rs.len() == 0 {
        Err(Error::NoEcuResponses)
    } else {
        Ok(rs)
    }
}

/// The tokens of a multi-line reply, concatenated in line order.
pub open spec fn multiline_result(r: Seq<u8>) -> Result<Seq<Seq<u8>>, Error> {
    match multiline_tokens(lines(r)) {
        Some((ts, _)) => Ok(ts),
        None => Err(Error::LineOutOfOrder),
    }
}

/// The raw payload of each responding ECU in a reply, in the order received.
pub open spec fn reply_payloads(r: Seq<u8>) -> Result<Seq<Seq<u8>>, Error> {
    if is_multiline(r) {
        match multiline_result(r) {
            Err(e) => Err(e),
            Ok(ts) => match token_bytes(ts) {
                Some(b) => Ok(seq![b]),
                None => Err(Error::InvalidHex),
            },
        }
    } else {
        match single_line_result(r) {
            Err(e) => Err(e),
            Ok(rs) => match responses_bytes(rs) {
                Some(ps) => Ok(ps),
                None => Err(Error::InvalidHex),
            },
        }
    }
}

/// How many envelope bytes a response carries: the service, and the PID if any.
pub open spec fn envelope_len(pid: Option<u8>) -> int {
    if pid is Some {
        2
    } else {
        1
    }
}

/// Whether response `p` starts with `0x40 | service`, then `pid` if there is one.
pub open spec fn envelope_ok(p: Seq<u8>, service: u8, pid: Option<u8>) -> bool {
    &&& p.len() >= envelope_len(pid)
    &&& p[0] == (0x40u8 | service)
    &&& (pid matches Some(id) ==> p[1] == id)
}

/// The payloads with their envelopes removed, if every envelope is the expected one.
pub open spec fn stripped(ps: Seq<Seq<u8>>, service: u8, pid: Option<u8>) -> Result<
    Seq<Seq<u8>>,
    Error,
> {
    if forall|i: int| 0 <= i < ps.len() ==> envelope_ok(#[trigger] ps[i], service, pid) {
        Ok(Seq::new(ps.len(), |i: int| ps[i].skip(envelope_len(pid))))
    } else {
        Err(Error::UnexpectedEnvelope)
    }
}

/// What a command yields from what the device returned for it.
pub open spec fn reply_outcome(reply: Result<Option<Seq<u8>>, device::Error>) -> Result<
    Seq<Seq<u8>>,
    Error,
> {
    match reply {
        Err(e) => Err(Error::Device(DeviceError(e))),
        Ok(None) => Err(Error::NoResponse),
        Ok(Some(r)) => reply_payloads(r),
    }
}

/// What a request for `service` (and `pid`) yields from what the device returned.
pub open spec fn obd_outcome(
    reply: Result<Option<Seq<u8>>, device::Error>,
    service: u8,
    pid: Option<u8>,
) -> Result<Seq<Seq<u8>>, Error> {
    match reply_outcome(reply) {
        Err(e) => Err(e),
        Ok(ps) => stripped(ps, service, pid),
    }
}

/// A list of payloads as plain values.
pub open spec fn payload_view(r: Result<Vec<Vec<u8>>, Error>) -> Result<Seq<Seq<u8>>, Error> {
    match r {
        Ok(v) => Ok(views(v@)),
        Err(e) => Err(e),
    }
}

/// A list of token lists as plain values.
pub open spec fn token_lists(v: Seq<Vec<Vec<u8>>>) -> Seq<Seq<Seq<u8>>> {
    v.map_values(|x: Vec<Vec<u8>>| views(x@))
}

/// A device result as plain values.
pub open spec fn device_reply_view(r: Result<Option<Vec<u8>>, device::Error>) -> Result<
    Option<Seq<u8>>,
    device::Error,
> {
    match r {
        Ok(Some(v)) => Ok(Some(v@)),
        Ok(None) => Ok(None),
        Err(e) => Err(e),
    }
}

proof fn lemma_multiline_none(ls: Seq<Seq<u8>>, i: int)
    requires
        0 <= i <= ls.len(),
        multiline_tokens(ls.take(i)) is None,
    ensures
        multiline_tokens(ls) is None,
    decreases ls.len() - i,
{
    if i == ls.len() {
        assert(ls.take(i) == ls);
    } else {
        assert(ls.drop_last().take(i) == ls.take(i));
        lemma_multiline_none(ls.drop_last(), i);
    }
}

proof fn lemma_responses_none(rs: Seq<Seq<Seq<u8>>>, i: int)
    requires
        0 <= i <= rs.len(),
        responses_bytes(rs.take(i)) is None,
    ensures
        responses_bytes(rs) is None,
    decreases rs.len() - i,
{
    if i == rs.len() {
        assert(rs.take(i) == rs);
    } else {
        assert(rs.drop_last().take(i) == rs.take(i));
        lemma_responses_none(rs.drop_last(), i);
    }
}

/// A line of a multi-line reply: the hex digit for index `n`, a colon, then `data`.
pub open spec fn indexed_line(n: int, data: Seq<u8>) -> Seq<u8> {
    seq![upper_digit(n), COLON] + data
}

proof fn lemma_indexed_line(n: int, data: Seq<u8>)
    requires
        0 <= n < 16,
    ensures
        first_index(indexed_line(n, data), COLON) == 1,
        indexed_line(n, data).take(1) == seq![upper_digit(n)],
        indexed_line(n, data).skip(2) == data,
        indexed_line(n, data).len() >= 2,
{
    let l = indexed_line(n, data);
    lemma_first_index_bounds(l, COLON);
    let f = first_index(l, COLON);
    assert(l[0] == upper_digit(n));
    assert(l[1] == COLON);
    if f > 1 {
        assert(l[1] != COLON);
    }
    assert(l.take(1) =~= seq![upper_digit(n)]);
    assert(l.skip(2) =~= data);
}

/// Reassembly keeps the order of the line indices: lines indexed 0, 1, 2 give their
/// data tokens in that order, while the same lines arriving as 0, 2, 1 are refused.
pub proof fn lemma_multiline_order(d0: Seq<u8>, d1: Seq<u8>, d2: Seq<u8>)
    ensures
        multiline_tokens(seq![indexed_line(0, d0), indexed_line(1, d1), indexed_line(2, d2)])
            == Some((tokens(d0) + tokens(d1) + tokens(d2), 3nat)),
        multiline_tokens(
            seq![indexed_line(0, d0), indexed_line(2, d2), indexed_line(1, d1)],
        ) is None,
{
    let l0 = indexed_line(0, d0);
    let l1 = indexed_line(1, d1);
    let l2 = indexed_line(2, d2);
    lemma_indexed_line(0, d0);
    lemma_indexed_line(1, d1);
    lemma_indexed_line(2, d2);
    assert(index_matches(seq![upper_digit(0)], 0));
    assert(index_matches(seq![upper_digit(1)], 1));
    assert(index_matches(seq![upper_digit(2)], 2));
    assert(!index_matches(seq![upper_digit(2)], 1));
    let e = Seq::<Seq<u8>>::empty();
    assert(multiline_tokens(e) == Some((e, 0nat)));
    let s1 = seq![l0];
    assert(s1.drop_last() =~= e);
    assert(s1.last() == l0);
    assert(e + tokens(d0) =~= tokens(d0));
    assert(multiline_tokens(s1) == Some((tokens(d0), 1nat)));
    let s2 = seq![l0, l1];
    assert(s2.drop_last() =~= s1);
    assert(s2.last() == l1);
    assert(multiline_tokens(s2) == Some((tokens(d0) + tokens(d1), 2nat)));
    let s3 = seq![l0, l1, l2];
    assert(s3.drop_last() =~= s2);
    assert(s3.last() == l2);
    let b2 = seq![l0, l2];
    assert(b2.drop_last() =~= s1);
    assert(b2.last() == l2);
    assert(multiline_tokens(b2) is None);
    let b3 = seq![l0, l2, l1];
    assert(b3.drop_last() =~= b2);
}

/// The data tokens of several lines, concatenated in order.
pub open spec fn joined_tokens(ds: Seq<Seq<u8>>) -> Seq<Seq<u8>>
    decreases ds.len(),
{
    if ds.len() == 0 {
        Seq::empty()
    } else {
        joined_tokens(ds.drop_last()) + tokens(ds.last())
    }
}

/// Line `k` carries index `ids[k]` and data `ds[k]`.
pub open spec fn indexed_lines(ids: Seq<int>, ds: Seq<Seq<u8>>) -> Seq<Seq<u8>> {
    Seq::new(ds.len(), |k: int| indexed_line(ids[k], ds[k]))
}

proof fn lemma_index_digit(a: int, b: int)
    requires
        0 <= a < 16,
        0 <= b < 16,
    ensures
        index_matches(seq![upper_digit(a)], b) <==> a == b,
{
}

/// Multi-line reassembly in general: when line `k` carries index `k` modulo 16, the
/// result is every line's data tokens in order; when any line carries another
/// index, the reply is refused. Nothing is reordered or filled in.
pub proof fn lemma_multiline_indices(ids: Seq<int>, ds: Seq<Seq<u8>>)
    requires
        ids.len() == ds.len(),
        forall|k: int| 0 <= k < ids.len() ==> 0 <= #[trigger] ids[k] < 16,
    ensures
        (forall|k: int| 0 <= k < ids.len() ==> #[trigger] ids[k] == k % 16) ==> multiline_tokens(
            indexed_lines(ids, ds),
        ) == Some((joined_tokens(ds), ds.len())),
        (exists|k: int| 0 <= k < ids.len() && #[trigger] ids[k] != k % 16) ==> multiline_tokens(
            indexed_lines(ids, ds),
        ) is None,
    decreases ds.len(),
{
    let ls = indexed_lines(ids, ds);
    if ds.len() == 0 {
        assert(ls =~= Seq::<Seq<u8>>::empty());
    } else {
        let n = ds.len() - 1;
        let pi = ids.drop_last();
        let pd = ds.drop_last();
        assert forall|k: int| 0 <= k < pi.len() implies 0 <= #[trigger] pi[k] < 16 by {
            assert(pi[k] == ids[k]);
        }
        lemma_multiline_indices(pi, pd);
        assert(ls.drop_last() =~= indexed_lines(pi, pd));
        assert(ls.last() == indexed_line(ids[n], ds[n]));
        assert(0 <= ids[n] < 16);
        lemma_indexed_line(ids[n], ds[n]);
        lemma_index_digit(ids[n], n % 16);
        if forall|k: int| 0 <= k < ids.len() ==> #[trigger] ids[k] == k % 16 {
            assert forall|k: int| 0 <= k < pi.len() implies #[trigger] pi[k] == k % 16 by {
                assert(pi[k] == ids[k]);
            }
            assert(ids[n] == n % 16);
            assert(ds.last() == ds[n]);
        }
        if exists|k: int| 0 <= k < ids.len() && #[trigger] ids[k] != k % 16 {
            let k = choose|k: int| 0 <= k < ids.len() && #[trigger] ids[k] != k % 16;
            if k < n {
                assert(pi[k] == ids[k]);
            } else if forall|j: int| 0 <= j < pi.len() ==> #[trigger] pi[j] == j % 16 {
                assert(ids[n] != n % 16);
            } else {
                let j = choose|j: int| 0 <= j < pi.len() && #[trigger] pi[j] != j % 16;
                assert(pi[j] != j % 16);
            }
        }
    }
}

/// Whether the reply marks its lines with an index.
pub fn multiline_reply(r: &[u8]) -> (b: bool)
    ensures
        b == is_multiline(r@),
{
    let mut i: usize = 0;
    while i < r.len() && i + 1 < r.len()
        invariant
            forall|j: int|
                0 <= j < i && j + 1 < r@.len() ==> !(#[trigger] is_hex_digit(r@[j]) && r@[j + 1]
                    == COLON),
        decreases r.len() - i,
    {
        if hex_digit(r[i]) && r[i + 1] == COLON {
            return true;
        }
        i += 1;
    }
    false
}

/// The command bytes of an OBD-II request: the mode, then the PID if there is one.
pub open spec fn request_of(mode: u8, pid: Option<u8>) -> Seq<u8> {
    match pid {
        Some(p) => seq![mode, p],
        None => seq![mode],
    }
}

/// The command bytes of an OBD-II request for `mode` (and `pid`).
pub fn request_bytes(mode: u8, pid: Option<u8>) -> (r: Vec<u8>)
    ensures
        r@ == request_of(mode, pid),
{
    let mut r: Vec<u8> = Vec::new();
    r.push(mode);
    match pid {
        Some(p) => r.push(p),
        None => {},
    }
    assert(r@ =~= request_of(mode, pid));
    r
}

/// An OBD-II interface over a device.
pub struct Obd2<T: Obd2BaseDevice> {
    device: T,
    sent: Ghost<Seq<Seq<u8>>>,
}

impl<T: Obd2BaseDevice> Obd2<T> {
    /// Wraps a device.
    pub fn new(device: T) -> (r: Self)
        ensures
            r.inner_device() == device,
            r.requests() == Seq::<Seq<u8>>::empty(),
    {
        Obd2 { device, sent: Ghost(Seq::empty()) }
    }

    /// The command bytes handed to the device so far, oldest first.
    pub closed spec fn requests(&self) -> Seq<Seq<u8>> {
        self.sent@
    }

    /// The device this interface talks through.
    pub closed spec fn inner_device(&self) -> T {
        self.device
    }

    /// The device this interface talks through.
    pub fn device(&self) -> (r: &T)
        ensures
            *r == self.inner_device(),
    {
        &self.device
    }

    /// Splits a single-line reply into the tokens of each ECU's line.
    pub fn parse_command(response: &[u8]) -> (r: Result<Vec<Vec<Vec<u8>>>, Error>)
        ensures
            match (r, single_line_result(response@)) {
                (Ok(v), Ok(s)) => token_lists(v@) == s,
                (Err(e), Err(f)) => e == f,
                _ => false,
            },
    {
        let ls = split_lines(response);
        let mut out: Vec<Vec<Vec<u8>>> = Vec::new();
        let mut i: usize = 0;
        while i < ls.len()
            invariant
                i <= ls@.len(),
                views(ls@) == lines(response@),
                token_lists(out@) == line_tokens(views(ls@).take(i as int)),
            decreases ls.len() - i,
        {
            let ts = split_tokens(ls[i].as_slice());
            proof {
                assert(views(ls@).take(i + 1).drop_last() == views(ls@).take(i as int));
                assert(views(ls@).take(i + 1).last() == ls@[i as int]@);
            }
            if ts.len() > 0 {
                out.push(ts);
                assert(token_lists(out@) =~= line_tokens(views(ls@).take(i + 1)));
            }
            i += 1;
        }
        assert(views(ls@).take(ls@.len() as int) == views(ls@));
        if out.len() == 0 {
            Err(Error::NoEcuResponses)
        } else {
            Ok(out)
        }
    }

    /// Reassembles a multi-line reply: the data tokens of the indexed lines, in order.
    /// Each indexed line must carry the next index, 0 to F and round again.
    pub fn parse_command_multiline(response: &[u8]) -> (r: Result<Vec<Vec<u8>>, Error>)
        ensures
            payload_view(r) == multiline_result(response@),
    {
        let ls = split_lines(response);
        let mut out: Vec<Vec<u8>> = Vec::new();
        let mut n: u8 = 0;
        let ghost mut count: nat = 0;
        let mut i: usize = 0;
        while i < ls.len()
            invariant
                i <= ls@.len(),
                views(ls@) == lines(response@),
                multiline_tokens(views(ls@).take(i as int)) == Some((views(out@), count)),
                n == count % 16,
            decreases ls.len() - i,
        {
            let line = ls[i].as_slice();
            let k = find_byte(line, COLON);
            proof {
                assert(views(ls@).take(i + 1).drop_last() == views(ls@).take(i as int));
                assert(views(ls@).take(i + 1).last() == line@);
                lemma_first_index_bounds(line@, COLON);
            }
            if k < line.len() {
                let index_ok = k == 1 && hex_digit(line[0]) && hex_digit_value(line[0]) == n;
                proof {
                    if k == 1 {
                        assert(line@.take(1)[0] == line@[0]);
                    }
                }
                if !index_ok {
                    proof {
                        lemma_multiline_none(views(ls@), i + 1);
                    }
                    return Err(Error::LineOutOfOrder);
                }
                let data = tail(line, k + 1);
                let mut ts = split_tokens(data.as_slice());
                proof {
                    lemma_views_append(out@, ts@);
                }
                out.append(&mut ts);
                n = if n == 15 {
                    0
                } else {
                    n + 1
                };
                proof {
                    count = count + 1;
                }
            }
            i += 1;
        }
        assert(views(ls@).take(ls@.len() as int) == views(ls@));
        Ok(out)
    }

    /// The raw payload of each responding ECU in the reply text.
    pub fn decode_reply(response: &[u8]) -> (r: Result<Vec<Vec<u8>>, Error>)
        ensures
            payload_view(r) == reply_payloads(response@),
    {
        if multiline_reply(response) {
            let ts = Self::parse_command_multiline(response)?;
            match parse_hex_tokens(&ts) {
                Some(b) => {
                    let mut out: Vec<Vec<u8>> = Vec::new();
                    out.push(b);
                    assert(views(out@) =~= seq![b@]);
                    Ok(out)
                },
                None => Err(Error::InvalidHex),
            }
        } else {
            let rs = Self::parse_command(response)?;
            let mut out: Vec<Vec<u8>> = Vec::new();
            let mut i: usize = 0;
            while i < rs.len()
                invariant
                    i <= rs@.len(),
                    !is_multiline(response@),
                    single_line_result(response@) == Ok::<Seq<Seq<Seq<u8>>>, Error>(
                        token_lists(rs@),
                    ),
                    responses_bytes(token_lists(rs@).take(i as int)) == Some(views(out@)),
                decreases rs.len() - i,
            {
                proof {
                    assert(token_lists(rs@).take(i + 1).drop_last() == token_lists(rs@).take(
                        i as int,
                    ));
                    assert(token_lists(rs@).take(i + 1).last() == views(rs@[i as int]@));
                }
                match parse_hex_tokens(&rs[i]) {
                    Some(b) => {
                        proof {
                            lemma_views_push(out@, b);
                        }
                        out.push(b);
                    },
                    None => {
                        proof {
                            lemma_responses_none(token_lists(rs@), i + 1);
                        }
                        return Err(Error::InvalidHex);
                    },
                }
                i += 1;
            }
            assert(token_lists(rs@).take(rs@.len() as int) == token_lists(rs@));
            Ok(out)
        }
    }

    /// Checks that every response starts with `0x40 | service` (and `pid`, if given)
    /// and removes those envelope bytes.
    pub fn strip_envelopes(responses: Vec<Vec<u8>>, service: u8, pid: Option<u8>) -> (r: Result<
        Vec<Vec<u8>>,
        Error,
    >)
        ensures
            payload_view(r) == stripped(views(responses@), service, pid),
    {
        let skip: usize = if pid.is_some() {
            2
        } else {
            1
        };
        let mut out: Vec<Vec<u8>> = Vec::new();
        let mut i: usize = 0;
        while i < responses.len()
            invariant
                i <= responses@.len(),
                skip == envelope_len(pid),
                forall|j: int| 0 <= j < i ==> envelope_ok(#[trigger] views(responses@)[j], service, pid),
                views(out@) == Seq::new(i as nat, |j: int| views(responses@)[j].skip(skip as int)),
            decreases responses.len() - i,
        {
            let p = responses[i].as_slice();
            let ok = p.len() >= skip && p[0] == (0x40u8 | service) && match pid {
                Some(id) => p[1] == id,
                None => true,
            };
            if !ok {
                assert(!envelope_ok(views(responses@)[i as int], service, pid));
                return Err(Error::UnexpectedEnvelope);
            }
            let rest = tail(p, skip);
            proof {
                lemma_views_push(out@, rest);
            }
            out.push(rest);
            assert(views(out@) =~= Seq::new(
                (i + 1) as nat,
                |j: int| views(responses@)[j].skip(skip as int),
            ));
            i += 1;
        }
        Ok(out)
    }

    /// The payloads of each ECU, from what the device returned for a command.
    pub fn command_reply(reply: Result<Option<Vec<u8>>, device::Error>) -> (r: Result<
        Vec<Vec<u8>>,
        Error,
    >)
        ensures
            payload_view(r) == reply_outcome(device_reply_view(reply)),
    {
        match reply {
            Err(e) => Err(Error::Device(DeviceError(e))),
            Ok(None) => Err(Error::NoResponse),
            Ok(Some(text)) => Self::decode_reply(text.as_slice()),
        }
    }

    /// Sends the command bytes and decodes the reply into one payload per ECU.
    pub fn command(&mut self, command: &[u8]) -> (r: Result<Vec<Vec<u8>>, Error>)
        ensures
            final(self).requests() == old(self).requests().push(command@),
            exists|reply: Result<Option<Seq<u8>>, device::Error>|
                payload_view(r) == reply_outcome(reply),
    {
        let reply = self.device.cmd(command);
        self.sent = Ghost(self.sent@.push(command@));
        let ghost seen = device_reply_view(reply);
        let r = Self::command_reply(reply);
        assert(payload_view(r) == reply_outcome(seen));
        r
    }

    /// Sends an OBD-II request for `mode` and `pid` and gets each ECU's data, with the
    /// echoed mode and PID checked and removed.
    pub fn obd_command(&mut self, mode: u8, pid: u8) -> (r: Result<Vec<Vec<u8>>, Error>)
        ensures
            final(self).requests() == old(self).requests().push(request_of(mode, Some(pid))),
            exists|reply: Result<Option<Seq<u8>>, device::Error>|
                payload_view(r) == obd_outcome(reply, mode, Some(pid)),
    {
        let request = request_bytes(mode, Some(pid));
        let sent = self.command(request.as_slice());
        let ghost reply = choose|reply: Result<Option<Seq<u8>>, device::Error>|
            payload_view(sent) == reply_outcome(reply);
        let r = match sent {
            Err(e) => Err(e),
            Ok(ps) => Self::strip_envelopes(ps, mode, Some(pid)),
        };
        assert(payload_view(r) == obd_outcome(reply, mode, Some(pid)));
        r
    }

    /// Sends an OBD-II request for `mode` alone and gets each ECU's data, with the
    /// echoed mode checked and removed.
    pub fn obd_mode_command(&mut self, mode: u8) -> (r: Result<Vec<Vec<u8>>, Error>)
        ensures
            final(self).requests() == old(self).requests().push(request_of(mode, None)),
            exists|reply: Result<Option<Seq<u8>>, device::Error>|
                payload_view(r) == obd_outcome(reply, mode, None),
    {
        let request = request_bytes(mode, None);
        let sent = self.command(request.as_slice());
        let ghost reply = choose|reply: Result<Option<Seq<u8>>, device::Error>|
            payload_view(sent) == reply_outcome(reply);
        let r = match sent {
            Err(e) => Err(e),
            Ok(ps) => Self::strip_envelopes(ps, mode, None),
        };
        assert(payload_view(r) == obd_outcome(reply, mode, None));
        r
    }
}

} // verus!
