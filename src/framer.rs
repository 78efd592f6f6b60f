//! Turns the adapter's raw byte stream into terminator-delimited chunks.
//!
//! The framer only ever looks at bytes it already holds. A read that finds no
//! terminator leaves the queue as it found it (but for empty lines that it may
//! skip), so the caller can wait for more bytes, feed them, and read again
//! without losing any of the chunk it was waiting for.
use crate::text::{tail, CR, LF};
use vstd::prelude::*;

verus! {

/// What a raw byte becomes in a chunk: a carriage return is a line feed, while a
/// line feed and a null byte (the link's idle marker) vanish.
pub open spec fn translate(b: u8) -> Option<u8> {
    if b == CR {
        Some(LF)
    } else if b == LF || b == 0 {
        None
    } else {
        Some(b)
    }
}

/// The translated bytes of `raw`, in order.
pub open spec fn normalized(raw: Seq<u8>) -> Seq<u8>
    decreases raw.len(),
{
    if raw.len() == 0 {
        Seq::empty()
    } else {
        let p = normalized(raw.drop_last());
        match translate(raw.last()) {
            Some(b) => p.push(b),
            None => p,
        }
    }
}

/// Whether raw byte `b` ends a chunk that is terminated by `t`.
pub open spec fn ends_chunk(b: u8, t: u8) -> bool {
    translate(b) == Some(t)
}

/// The index of the first byte of `q` that ends a chunk, or `q.len()` if none does.
pub open spec fn first_end(q: Seq<u8>, t: u8) -> int
    decreases q.len(),
{
    if q.len() == 0 {
        0
    } else {
        let k = first_end(q.drop_last(), t);
        if k < q.len() - 1 {
            k
        } else if ends_chunk(q.last(), t) {
            q.len() - 1
        } else {
            q.len() as int
        }
    }
}

/// The next chunk in `q` (its translated bytes before the terminator) and the raw
/// bytes left after that terminator. Empty chunks are skipped unless `allow_empty`.
/// Without a terminator there is no chunk and `q` stays as it is.
pub open spec fn next_chunk(q: Seq<u8>, t: u8, allow_empty: bool) -> (Option<Seq<u8>>, Seq<u8>)
    decreases q.len(),
    via next_chunk_decreases
{
    let k = first_end(q, t);
    if k >= q.len() {
        (None, q)
    } else {
        let c = normalized(q.take(k));
        if c.len() == 0 && !allow_empty {
            next_chunk(q.skip(k + 1), t, allow_empty)
        } else {
            (Some(c), q.skip(k + 1))
        }
    }
}

#[via_fn]
proof fn next_chunk_decreases(q: Seq<u8>, t: u8, allow_empty: bool) {
    lemma_first_end_bounds(q, t);
}

pub proof fn lemma_first_end_bounds(q: Seq<u8>, t: u8)
    ensures
        0 <= first_end(q, t) <= q.len(),
        first_end(q, t) < q.len() ==> ends_chunk(q[first_end(q, t)], t),
        forall|j: int| 0 <= j < first_end(q, t) ==> !ends_chunk(#[trigger] q[j], t),
    decreases q.len(),
{
    if q.len() > 0 {
        lemma_first_end_bounds(q.drop_last(), t);
        let k = first_end(q.drop_last(), t);
        assert forall|j: int| 0 <= j < first_end(q, t) implies !ends_chunk(#[trigger] q[j], t) by {
            if j < q.len() - 1 {
                assert(q.drop_last()[j] == q[j]);
            }
        }
        if k < q.len() - 1 {
            assert(q.drop_last()[k] == q[k]);
        }
    }
}

/// `first_end` is the one index that ends a chunk with no earlier such index.
proof fn lemma_first_end_is(q: Seq<u8>, t: u8, k: int)
    requires
        0 <= k <= q.len(),
        k < q.len() ==> ends_chunk(q[k], t),
        forall|j: int| 0 <= j < k ==> !ends_chunk(#[trigger] q[j], t),
    ensures
        first_end(q, t) == k,
{
    lemma_first_end_bounds(q, t);
    let f = first_end(q, t);
    if f < k {
        assert(!ends_chunk(q[f], t));
    } else if k < f {
        assert(!ends_chunk(q[k], t));
    }
}

/// Bytes that pass through framing unchanged: no CR, LF or null byte.
pub open spec fn plain_text(s: Seq<u8>) -> bool {
    forall|i: int| 0 <= i < s.len() ==> #[trigger] s[i] != CR && s[i] != LF && s[i] != 0
}

proof fn lemma_normalized_plain(s: Seq<u8>)
    requires
        plain_text(s),
    ensures
        normalized(s) == s,
    decreases s.len(),
{
    if s.len() > 0 {
        assert(plain_text(s.drop_last())) by {
            assert forall|i: int| 0 <= i < s.drop_last().len() implies #[trigger] s.drop_last()[i]
                != CR && s.drop_last()[i] != LF && s.drop_last()[i] != 0 by {
                assert(s.drop_last()[i] == s[i]);
            }
        }
        lemma_normalized_plain(s.drop_last());
        assert(s.drop_last().push(s.last()) =~= s);
    }
}

proof fn lemma_normalized_leading_lf(s: Seq<u8>)
    ensures
        normalized(seq![LF] + s) == normalized(s),
    decreases s.len(),
{
    if s.len() == 0 {
        assert(seq![LF] + s =~= seq![LF]);
        assert(seq![LF].drop_last() =~= Seq::<u8>::empty());
        assert(seq![LF].last() == LF);
        assert(normalized(seq![LF]) == normalized(Seq::<u8>::empty()));
    } else {
        assert((seq![LF] + s).drop_last() =~= seq![LF] + s.drop_last());
        assert((seq![LF] + s).last() == s.last());
        lemma_normalized_leading_lf(s.drop_last());
    }
}

/// Bytes queued after a line feed frame as they would without it.
proof fn lemma_leading_lf(next: Seq<u8>, t: u8)
    requires
        t != 0,
    ensures
        next_chunk(seq![LF] + next, t, false).0 == next_chunk(next, t, false).0,
{
    let q = seq![LF] + next;
    lemma_first_end_bounds(next, t);
    let k = first_end(next, t);
    assert forall|j: int| 0 <= j < k + 1 implies !ends_chunk(#[trigger] q[j], t) by {
        if j > 0 {
            assert(q[j] == next[j - 1]);
        }
    }
    if k < next.len() {
        assert(q[k + 1] == next[k]);
    }
    lemma_first_end_is(q, t, k + 1);
    if k < next.len() {
        assert(q.take(k + 1) =~= seq![LF] + next.take(k));
        lemma_normalized_leading_lf(next.take(k));
        assert(q.skip(k + 2) =~= next.skip(k + 1));
    }
}

/// The adapter may end a line with CR or with CR LF: either way the line reads as the
/// same content, and so does the line after it.
pub proof fn lemma_line_endings(content: Seq<u8>, next: Seq<u8>)
    requires
        content.len() > 0,
        plain_text(content),
    ensures
        next_chunk(content + seq![CR] + next, LF, false) == (Some(content), next),
        next_chunk(content + seq![CR, LF] + next, LF, false) == (Some(content), seq![LF] + next),
        next_chunk(seq![LF] + next, LF, false).0 == next_chunk(next, LF, false).0,
{
    let a = content + seq![CR] + next;
    let b = content + seq![CR, LF] + next;
    let n = content.len() as int;
    assert forall|j: int| 0 <= j < n implies !ends_chunk(#[trigger] a[j], LF) by {
        assert(a[j] == content[j]);
    }
    assert forall|j: int| 0 <= j < n implies !ends_chunk(#[trigger] b[j], LF) by {
        assert(b[j] == content[j]);
    }
    assert(a[n] == CR);
    assert(b[n] == CR);
    lemma_first_end_is(a, LF, n);
    lemma_first_end_is(b, LF, n);
    assert(a.take(n) =~= content);
    assert(b.take(n) =~= content);
    lemma_normalized_plain(content);
    assert(a.skip(n + 1) =~= next);
    assert(b.skip(n + 1) =~= seq![LF] + next);
    lemma_leading_lf(next, LF);
}

/// `first_end` does not move when more bytes arrive after a terminator.
proof fn lemma_first_end_append(q: Seq<u8>, more: Seq<u8>, t: u8)
    requires
        first_end(q, t) < q.len(),
    ensures
        first_end(q + more, t) == first_end(q, t),
{
    lemma_first_end_bounds(q, t);
    let k = first_end(q, t);
    let r = q + more;
    assert forall|j: int| 0 <= j < k implies !ends_chunk(#[trigger] r[j], t) by {
        assert(r[j] == q[j]);
    }
    assert(r[k] == q[k]);
    lemma_first_end_is(r, t, k);
}

/// A read that times out loses nothing: once more bytes arrive, reading what was
/// kept followed by them yields what one read over all the bytes would.
pub proof fn lemma_resume(q: Seq<u8>, more: Seq<u8>, t: u8, allow_empty: bool)
    requires
        next_chunk(q, t, allow_empty).0 is None,
    ensures
        next_chunk(next_chunk(q, t, allow_empty).1 + more, t, allow_empty) == next_chunk(
            q + more,
            t,
            allow_empty,
        ),
    decreases q.len(),
{
    lemma_first_end_bounds(q, t);
    let k = first_end(q, t);
    if k < q.len() {
        lemma_first_end_append(q, more, t);
        assert((q + more).take(k) =~= q.take(k));
        assert((q + more).skip(k + 1) =~= q.skip(k + 1) + more);
        lemma_resume(q.skip(k + 1), more, t, allow_empty);
    }
}

/// A chunk's translated bytes as a plain value.
pub open spec fn chunk_view(r: Option<Vec<u8>>) -> Option<Seq<u8>> {
    match r {
        Some(v) => Some(v@),
        None => None,
    }
}

/// A receive queue of raw bytes from the adapter.
pub struct Framer {
    queue: Vec<u8>,
}

impl View for Framer {
    type V = Seq<u8>;

    closed spec fn view(&self) -> Seq<u8> {
        self.queue@
    }
}

/// The translated form of `raw`.
fn normalize(raw: &[u8], end: usize) -> (r: Vec<u8>)
    requires
        end <= raw@.len(),
    ensures
        r@ == normalized(raw@.take(end as int)),
{
    let mut out: Vec<u8> = Vec::new();
    let mut i: usize = 0;
    while i < end
        invariant
            i <= end <= raw@.len(),
            out@ == normalized(raw@.take(i as int)),
        decreases end - i,
    {
        let b = raw[i];
        proof {
            assert(raw@.take(i + 1).drop_last() == raw@.take(i as int));
            assert(raw@.take(i + 1).last() == b);
        }
        if b == CR {
            out.push(LF);
        } else if b != LF && b != 0 {
            out.push(b);
        }
        i += 1;
    }
    out
}

impl Framer {
    /// A framer with nothing queued.
    pub fn new() -> (r: Framer)
        ensures
            r@ == Seq::<u8>::empty(),
    {
        Framer { queue: Vec::new() }
    }

    /// Queues bytes that arrived from the link, after those already queued.
    pub fn feed(&mut self, data: &[u8])
        ensures
            final(self)@ == old(self)@ + data@,
    {
        let mut i: usize = 0;
        while i < data.len()
            invariant
                i <= data@.len(),
                self@ == old(self)@ + data@.take(i as int),
            decreases data.len() - i,
        {
            self.queue.push(data[i]);
            assert(self@ =~= old(self)@ + data@.take(i + 1));
            i += 1;
        }
        assert(data@.take(data@.len() as int) == data@);
    }

    /// Drops everything queued.
    pub fn clear(&mut self)
        ensures
            final(self)@ == Seq::<u8>::empty(),
    {
        self.queue.clear();
    }

    /// The raw bytes queued and not yet framed.
    pub fn pending(&self) -> (r: &[u8])
        ensures
            r@ == self@,
    {
        self.queue.as_slice()
    }

    /// Takes the next chunk terminated by `terminator`, without the terminator.
    /// Returns `None`, keeping the unfinished chunk queued, when no terminator is queued.
    pub fn read_until(&mut self, terminator: u8, allow_empty: bool) -> (r: Option<Vec<u8>>)
        ensures
            chunk_view(r) == next_chunk(old(self)@, terminator, allow_empty).0,
            final(self)@ == next_chunk(old(self)@, terminator, allow_empty).1,
    {
        loop
            invariant
                next_chunk(self@, terminator, allow_empty) == next_chunk(
                    old(self)@,
                    terminator,
                    allow_empty,
                ),
            decreases self@.len(),
        {
            let mut k: usize = 0;
            while k < self.queue.len()
                invariant
                    k <= self@.len(),
                    forall|j: int| 0 <= j < k ==> !ends_chunk(#[trigger] self@[j], terminator),
                ensures
                    k <= self@.len(),
                    forall|j: int| 0 <= j < k ==> !ends_chunk(#[trigger] self@[j], terminator),
                    k < self@.len() ==> ends_chunk(self@[k as int], terminator),
                decreases self@.len() - k,
            {
                let b = self.queue[k];
                let ends = if b == CR {
                    terminator == LF
                } else {
                    b != LF && b != 0 && b == terminator
                };
                if ends {
                    break;
                }
                k += 1;
            }
            proof {
                lemma_first_end_is(self@, terminator, k as int);
            }
            if k == self.queue.len() {
                return None;
            }
            let chunk = normalize(self.queue.as_slice(), k);
            let rest = tail(self.queue.as_slice(), k + 1);
            self.queue = rest;
            if chunk.len() > 0 || allow_empty {
                return Some(chunk);
            }
        }
    }

    /// Takes the next non-empty line, without its terminator.
    pub fn read_line(&mut self) -> (r: Option<Vec<u8>>)
        ensures
            chunk_view(r) == next_chunk(old(self)@, LF, false).0,
            final(self)@ == next_chunk(old(self)@, LF, false).1,
    {
        self.read_until(LF, false)
    }

    /// Takes everything up to the adapter's prompt, without the prompt; it may be empty.
    pub fn read_response(&mut self) -> (r: Option<Vec<u8>>)
        ensures
            chunk_view(r) == next_chunk(old(self)@, crate::PROMPT, true).0,
            final(self)@ == next_chunk(old(self)@, crate::PROMPT, true).1,
    {
        self.read_until(crate::PROMPT, true)
    }
}

} // verus!
