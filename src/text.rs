//! ASCII text as the adapter prints it: lines, whitespace-separated tokens and
//! two-digit hexadecimal bytes.
use vstd::prelude::*;
use vstd::utf8::{decode_utf8, pop_first_scalar, valid_utf8};

verus! {

/// Line feed, the logical line terminator once a chunk has been framed.
pub const LF: u8 = 0x0a;

/// Carriage return, the adapter's own line terminator.
pub const CR: u8 = 0x0d;

/// Separates a line index from the data in a multi-line reply.
pub const COLON: u8 = 0x3a;

/// Whether `b` separates tokens within one line.
pub open spec fn is_space(b: u8) -> bool {
    b == 0x20 || b == 0x09 || b == 0x0b || b == 0x0c || b == CR
}

/// Whether `b` is an ASCII hexadecimal digit, in either case.
pub open spec fn is_hex_digit(b: u8) -> bool {
    (0x30 <= b <= 0x39) || (0x41 <= b <= 0x46) || (0x61 <= b <= 0x66)
}

/// The value of a hexadecimal digit.
pub open spec fn hex_value(d: u8) -> int {
    if d <= 0x39 {
        d - 0x30
    } else if d <= 0x46 {
        d - 0x37
    } else {
        d - 0x57
    }
}

/// The upper-case hexadecimal digit for `n` in `0..16`.
pub open spec fn upper_digit(n: int) -> u8 {
    if n < 10 {
        (0x30 + n) as u8
    } else {
        (0x37 + n) as u8
    }
}

/// The views of a sequence of byte vectors.
pub open spec fn views(v: Seq<Vec<u8>>) -> Seq<Seq<u8>> {
    v.map_values(|x: Vec<u8>| x@)
}

/// The pieces of `s` between line feeds: one more piece than there are line feeds.
pub open spec fn lines(s: Seq<u8>) -> Seq<Seq<u8>>
    decreases s.len(),
{
    if s.len() == 0 {
        seq![Seq::empty()]
    } else {
        let p = lines(s.drop_last());
        if s.last() == LF {
            p.push(Seq::empty())
        } else {
            p.update(p.len() - 1, p.last().push(s.last()))
        }
    }
}

/// The maximal runs of non-space bytes in `s`, in order.
pub open spec fn tokens(s: Seq<u8>) -> Seq<Seq<u8>>
    decreases s.len(),
{
    if s.len() == 0 {
        Seq::empty()
    } else {
        let p = tokens(s.drop_last());
        let b = s.last();
        if is_space(b) {
            p
        } else if s.len() >= 2 && !is_space(s[s.len() - 2]) {
            p.update(p.len() - 1, p.last().push(b))
        } else {
            p.push(seq![b])
        }
    }
}

/// The byte that a token of exactly two hexadecimal digits stands for.
pub open spec fn token_byte(t: Seq<u8>) -> Option<u8> {
    if t.len() == 2 && is_hex_digit(t[0]) && is_hex_digit(t[1]) {
        Some((16 * hex_value(t[0]) + hex_value(t[1])) as u8)
    } else {
        None
    }
}

/// The bytes that a list of tokens stands for, or `None` if any token is malformed.
pub open spec fn token_bytes(ts: Seq<Seq<u8>>) -> Option<Seq<u8>>
    decreases ts.len(),
{
    if ts.len() == 0 {
        Some(Seq::empty())
    } else {
        match (token_bytes(ts.drop_last()), token_byte(ts.last())) {
            (Some(p), Some(b)) => Some(p.push(b)),
            _ => None,
        }
    }
}

/// Each byte as two upper-case hexadecimal digits, with no separators.
pub open spec fn hex_text(s: Seq<u8>) -> Seq<u8>
    decreases s.len(),
{
    if s.len() == 0 {
        Seq::empty()
    } else {
        hex_text(s.drop_last()) + seq![upper_digit(s.last() as int / 16), upper_digit(s.last() as int % 16)]
    }
}

pub proof fn lemma_lines_len(s: Seq<u8>)
    ensures
        lines(s).len() >= 1,
    decreases s.len(),
{
    if s.len() > 0 {
        lemma_lines_len(s.drop_last());
    }
}

proof fn lemma_tokens_open(s: Seq<u8>)
    requires
        s.len() > 0,
        !is_space(s.last()),
    ensures
        tokens(s).len() >= 1,
    decreases s.len(),
{
    if s.len() >= 2 && !is_space(s[s.len() - 2]) {
        lemma_tokens_open(s.drop_last());
    }
}


/// The index of the first `c` in `s`, or `s.len()` if there is none.
pub open spec fn first_index(s: Seq<u8>, c: u8) -> int
    decreases s.len(),
{
    if s.len() == 0 {
        0
    } else {
        let k = first_index(s.drop_last(), c);
        if k < s.len() - 1 {
            k
        } else if s.last() == c {
            s.len() - 1
        } else {
            s.len() as int
        }
    }
}

pub proof fn lemma_first_index_bounds(s: Seq<u8>, c: u8)
    ensures
        0 <= first_index(s, c) <= s.len(),
        first_index(s, c) < s.len() ==> s[first_index(s, c)] == c,
        forall|j: int| 0 <= j < first_index(s, c) ==> #[trigger] s[j] != c,
    decreases s.len(),
{
    if s.len() > 0 {
        lemma_first_index_bounds(s.drop_last(), c);
        let k = first_index(s.drop_last(), c);
        assert forall|j: int| 0 <= j < first_index(s, c) implies #[trigger] s[j] != c by {
            if j < s.len() - 1 {
                assert(s.drop_last()[j] == s[j]);
            }
        }
        if k < s.len() - 1 {
            assert(s.drop_last()[k] == s[k]);
        }
    }
}

/// The index of the first `c` in `s`, or `s.len()` if there is none.
pub fn find_byte(s: &[u8], c: u8) -> (r: usize)
    ensures
        r == first_index(s@, c),
{
    let mut k: usize = 0;
    while k < s.len()
        invariant
            k <= s@.len(),
            forall|j: int| 0 <= j < k ==> #[trigger] s@[j] != c,
        ensures
            k <= s@.len(),
            forall|j: int| 0 <= j < k ==> #[trigger] s@[j] != c,
            k < s@.len() ==> s@[k as int] == c,
        decreases s.len() - k,
    {
        if s[k] == c {
            break;
        }
        k += 1;
    }
    proof {
        lemma_first_index_bounds(s@, c);
        let f = first_index(s@, c);
        if f < k {
            assert(s@[f] != c);
        } else if k < f {
            assert(s@[k as int] != c);
        }
    }
    k
}

/// The bytes of `s` from `start` on.
pub fn tail(s: &[u8], start: usize) -> (r: Vec<u8>)
    requires
        start <= s@.len(),
    ensures
        r@ == s@.skip(start as int),
{
    let mut out: Vec<u8> = Vec::new();
    let mut i: usize = start;
    while i < s.len()
        invariant
            start <= i <= s@.len(),
            out@ == s@.subrange(start as int, i as int),
        decreases s.len() - i,
    {
        out.push(s[i]);
        assert(out@ =~= s@.subrange(start as int, i + 1));
        i += 1;
    }
    assert(out@ =~= s@.skip(start as int));
    out
}

pub proof fn lemma_views_append(a: Seq<Vec<u8>>, b: Seq<Vec<u8>>)
    ensures
        views(a + b) == views(a) + views(b),
{
    assert(views(a + b) =~= views(a) + views(b));
}

pub proof fn lemma_views_push(v: Seq<Vec<u8>>, x: Vec<u8>)
    ensures
        views(v.push(x)) == views(v).push(x@),
{
    assert(views(v.push(x)) =~= views(v).push(x@));
}

/// Whether `b` is a hexadecimal digit.
pub fn hex_digit(b: u8) -> (r: bool)
    ensures
        r == is_hex_digit(b),
{
    (0x30 <= b && b <= 0x39) || (0x41 <= b && b <= 0x46) || (0x61 <= b && b <= 0x66)
}

/// The value of hexadecimal digit `d`.
pub fn hex_digit_value(d: u8) -> (r: u8)
    requires
        is_hex_digit(d),
    ensures
        r == hex_value(d),
        r < 16,
{
    if d <= 0x39 {
        d - 0x30
    } else if d <= 0x46 {
        d - 0x37
    } else {
        d - 0x57
    }
}

/// Splits `s` at every line feed.
pub fn split_lines(s: &[u8]) -> (r: Vec<Vec<u8>>)
    ensures
        views(r@) == lines(s@),
{
    let mut done: Vec<Vec<u8>> = Vec::new();
    let mut cur: Vec<u8> = Vec::new();
    let mut i: usize = 0;
    while i < s.len()
        invariant
            i <= s.len(),
            views(done@).push(cur@) == lines(s@.take(i as int)),
        decreases s.len() - i,
    {
        let b = s[i];
        proof {
            assert(s@.take(i + 1).drop_last() == s@.take(i as int));
            lemma_lines_len(s@.take(i as int));
        }
        if b == LF {
            proof {
                lemma_views_push(done@, cur);
            }
            done.push(cur);
            cur = Vec::new();
            assert(views(done@).push(cur@) == lines(s@.take(i + 1)));
        } else {
            cur.push(b);
            assert(views(done@).push(cur@) =~= lines(s@.take(i + 1)));
        }
        i += 1;
    }
    proof {
        lemma_views_push(done@, cur);
        assert(s@.take(s@.len() as int) == s@);
    }
    done.push(cur);
    done
}

/// Splits `s` into its whitespace-separated tokens.
pub fn split_tokens(s: &[u8]) -> (r: Vec<Vec<u8>>)
    ensures
        views(r@) == tokens(s@),
{
    let mut done: Vec<Vec<u8>> = Vec::new();
    let mut cur: Vec<u8> = Vec::new();
    let mut i: usize = 0;
    while i < s.len()
        invariant
            i <= s.len(),
            cur@.len() > 0 <==> (i > 0 && !is_space(s@[i - 1])),
            cur@.len() > 0 ==> views(done@).push(cur@) == tokens(s@.take(i as int)),
            cur@.len() == 0 ==> views(done@) == tokens(s@.take(i as int)),
        decreases s.len() - i,
    {
        let b = s[i];
        proof {
            assert(s@.take(i + 1).drop_last() == s@.take(i as int));
            assert(s@.take(i + 1).last() == b);
            if i > 0 {
                assert(s@.take(i + 1)[i - 1] == s@[i - 1]);
            }
        }
        if b == 0x20 || b == 0x09 || b == 0x0b || b == 0x0c || b == CR {
            if cur.len() > 0 {
                proof {
                    lemma_views_push(done@, cur);
                }
                done.push(cur);
                cur = Vec::new();
            }
        } else {
            if cur.len() > 0 {
                proof {
                    lemma_tokens_open(s@.take(i as int));
                }
                cur.push(b);
                assert(views(done@).push(cur@) =~= tokens(s@.take(i + 1)));
            } else {
                cur.push(b);
                assert(cur@ =~= seq![b]);
            }
        }
        i += 1;
    }
    proof {
        assert(s@.take(s@.len() as int) == s@);
    }
    if cur.len() > 0 {
        proof {
            lemma_views_push(done@, cur);
        }
        done.push(cur);
    }
    done
}

/// The byte that a two-digit hexadecimal token stands for.
pub fn parse_hex_byte(t: &[u8]) -> (r: Option<u8>)
    ensures
        r == token_byte(t@),
{
    if t.len() == 2 && hex_digit(t[0]) && hex_digit(t[1]) {
        let hi = hex_digit_value(t[0]);
        let lo = hex_digit_value(t[1]);
        Some(hi * 16 + lo)
    } else {
        None
    }
}

/// The bytes that `ts` stands for, or `None` at the first malformed token.
pub fn parse_hex_tokens(ts: &Vec<Vec<u8>>) -> (r: Option<Vec<u8>>)
    ensures
        match r {
            Some(v) => token_bytes(views(ts@)) == Some(v@),
            None => token_bytes(views(ts@)) is None,
        },
{
    let mut out: Vec<u8> = Vec::new();
    let mut i: usize = 0;
    while i < ts.len()
        invariant
            i <= ts.len(),
            token_bytes(views(ts@).take(i as int)) == Some(out@),
        decreases ts.len() - i,
    {
        proof {
            assert(views(ts@).take(i + 1).drop_last() == views(ts@).take(i as int));
        }
        match parse_hex_byte(ts[i].as_slice()) {
            Some(b) => {
                out.push(b);
            },
            None => {
                proof {
                    lemma_token_bytes_none(views(ts@), i as int);
                }
                return None;
            },
        }
        i += 1;
    }
    proof {
        assert(views(ts@).take(ts@.len() as int) == views(ts@));
    }
    Some(out)
}

/// A malformed token makes every longer list malformed too.
proof fn lemma_token_bytes_none(ts: Seq<Seq<u8>>, i: int)
    requires
        0 <= i < ts.len(),
        token_byte(ts[i]) is None,
    ensures
        token_bytes(ts) is None,
    decreases ts.len(),
{
    if i < ts.len() - 1 {
        lemma_token_bytes_none(ts.drop_last(), i);
    }
}

/// Upper-case hexadecimal text for `bytes`, two digits per byte.
pub fn encode_hex(bytes: &[u8]) -> (r: Vec<u8>)
    ensures
        r@ == hex_text(bytes@),
{
    let mut out: Vec<u8> = Vec::new();
    let mut i: usize = 0;
    while i < bytes.len()
        invariant
            i <= bytes.len(),
            out@ == hex_text(bytes@.take(i as int)),
        decreases bytes.len() - i,
    {
        let b = bytes[i];
        let hi = b / 16;
        let lo = b % 16;
        let dh = if hi < 10 { 0x30 + hi } else { 0x37 + hi };
        let dl = if lo < 10 { 0x30 + lo } else { 0x37 + lo };
        proof {
            assert(bytes@.take(i + 1).drop_last() == bytes@.take(i as int));
        }
        out.push(dh);
        out.push(dl);
        assert(out@ =~= hex_text(bytes@.take(i + 1)));
        i += 1;
    }
    proof {
        assert(bytes@.take(bytes@.len() as int) == bytes@);
    }
    out
}

/// Relies on `String::from_utf8`: it accepts exactly the valid UTF-8 byte
/// sequences and decodes them into their characters.
#[verifier::external_body]
pub(crate) fn string_from_utf8(bytes: Vec<u8>) -> (r: Option<String>)
    ensures
        r is Some <==> valid_utf8(bytes@),
        r matches Some(s) ==> s@ == decode_utf8(bytes@),
{
    String::from_utf8(bytes).ok()
}

/// Whether every byte of `b` is ASCII.
pub open spec fn all_ascii(b: Seq<u8>) -> bool {
    forall|i: int| 0 <= i < b.len() ==> #[trigger] b[i] < 0x80
}

/// The characters that ASCII bytes stand for.
pub open spec fn ascii_chars(b: Seq<u8>) -> Seq<char> {
    b.map_values(|x: u8| x as char)
}

/// ASCII bytes are valid UTF-8, one character per byte.
pub proof fn lemma_ascii_utf8(b: Seq<u8>)
    requires
        all_ascii(b),
    ensures
        valid_utf8(b),
        decode_utf8(b) == ascii_chars(b),
    decreases b.len(),
{
    if b.len() > 0 {
        let x = b[0];
        assert(x < 0x80);
        assert(x & 0x7f == x) by (bit_vector)
            requires
                x < 0x80,
        ;
        let rest = b.subrange(1, b.len() as int);
        assert(pop_first_scalar(b) == rest);
        assert(all_ascii(rest)) by {
            assert forall|i: int| 0 <= i < rest.len() implies #[trigger] rest[i] < 0x80 by {
                assert(rest[i] == b[i + 1]);
            }
        }
        lemma_ascii_utf8(rest);
        assert(ascii_chars(b) =~= seq![x as char] + ascii_chars(rest));
    }
}

/// The text that ASCII bytes spell.
pub fn ascii_string(b: Vec<u8>) -> (r: String)
    requires
        all_ascii(b@),
    ensures
        r@ == ascii_chars(b@),
{
    proof {
        lemma_ascii_utf8(b@);
    }
    match string_from_utf8(b) {
        Some(s) => s,
        None => String::new(),
    }
}

} // verus!
