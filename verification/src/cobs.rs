//! COBS (Consistent Overhead Byte Stuffing) codec.
//!
//! Eliminates `0x00` bytes from data so they can serve as frame delimiters.
//! GFDI frames on the wire: `[0x00] [COBS-encoded data] [0x00]`.

use vstd::prelude::*;

verus! {

/// Number of leading non-zero bytes of `s`.
pub open spec fn run_len(s: Seq<u8>) -> nat
    decreases s.len(),
{
    if s.len() == 0 || s[0] == 0 {
        0
    } else {
        1 + run_len(s.drop_first())
    }
}

/// Length of the next encoded block: the leading non-zero run, at most 254 bytes.
pub open spec fn block_len(s: Seq<u8>) -> nat {
    if run_len(s) < 254 { run_len(s) } else { 254 }
}

/// How many input bytes one encoded block consumes: the block itself, plus
/// the zero byte that directly follows it when the block is short. A full
/// block of 254 bytes stands for no zero; a zero after it starts the next
/// block.
pub open spec fn block_consumed(s: Seq<u8>) -> nat {
    let r = block_len(s);
    if r < 254 && r < s.len() && s[r as int] == 0 { r + 1 } else { r }
}

/// The COBS encoding: each block is a code byte (block length + 1) followed
/// by up to 254 non-zero bytes; a zero byte that directly follows a short
/// block is absorbed into it, while a full block (code 0xFF) absorbs none.
pub open spec fn encode_spec(s: Seq<u8>) -> Seq<u8>
    decreases s.len(),
{
    if s.len() == 0 {
        Seq::empty()
    } else {
        let r = block_len(s);
        let k = block_consumed(s);
        if 0 < k <= s.len() {
            seq![(r + 1) as u8] + s.take(r as int) + encode_spec(s.skip(k as int))
        } else {
            Seq::empty()
        }
    }
}

/// Decoding of the blocks of `e` before the trailing-zero cleanup; `None`
/// when a code byte announces more bytes than remain. A zero code byte ends
/// decoding.
pub open spec fn decode_blocks(e: Seq<u8>) -> Option<Seq<u8>>
    decreases e.len(),
{
    if e.len() == 0 {
        Some(Seq::empty())
    } else {
        let code = e[0];
        if code == 0 {
            Some(Seq::empty())
        } else if code > e.len() {
            None
        } else {
            let rest = e.skip(code as int);
            match decode_blocks(rest) {
                None => None,
                Some(t) => Some(
                    e.subrange(1, code as int) + (if code < 0xFF && rest.len() > 0 {
                        seq![0u8]
                    } else {
                        Seq::empty()
                    }) + t,
                ),
            }
        }
    }
}

/// COBS decoding: the decoded blocks, with one trailing zero byte removed.
pub open spec fn decode_spec(e: Seq<u8>) -> Option<Seq<u8>> {
    match decode_blocks(e) {
        None => None,
        Some(o) => Some(if o.len() > 0 && o.last() == 0 { o.drop_last() } else { o }),
    }
}

/// The inputs that COBS round-trips through this codec: those that do not
/// end in a zero byte (the decoder drops one trailing zero).
pub open spec fn roundtrips(d: Seq<u8>) -> bool {
    d.len() == 0 || d.last() != 0
}

proof fn lemma_run_len(s: Seq<u8>)
    ensures
        run_len(s) <= s.len(),
        forall|j: int| 0 <= j < run_len(s) ==> s[j] != 0,
        run_len(s) < s.len() ==> s[run_len(s) as int] == 0,
    decreases s.len(),
{
    if s.len() > 0 && s[0] != 0 {
        lemma_run_len(s.drop_first());
        assert forall|j: int| 0 <= j < run_len(s) implies s[j] != 0 by {
            if j > 0 {
                assert(s[j] == s.drop_first()[j - 1]);
            }
        }
    }
}

proof fn lemma_run_len_exact(s: Seq<u8>, k: int)
    requires
        0 <= k <= s.len(),
        forall|j: int| 0 <= j < k ==> s[j] != 0,
    ensures
        run_len(s) >= k,
        (k == s.len() || s[k] == 0) ==> run_len(s) == k,
    decreases k,
{
    if k > 0 {
        lemma_run_len_exact(s.drop_first(), k - 1);
    } else {
        lemma_run_len(s);
    }
}

proof fn lemma_block(s: Seq<u8>)
    requires
        s.len() > 0,
    ensures
        block_len(s) <= 254,
        block_len(s) <= s.len(),
        0 < block_consumed(s) <= s.len(),
        forall|j: int| 0 <= j < block_len(s) ==> s[j] != 0,
        block_len(s) < 254 && block_len(s) < s.len() ==> s[block_len(s) as int] == 0,
{
    lemma_run_len(s);
}

/// Every byte that `encode_spec` produces is non-zero.
pub proof fn lemma_encode_no_zero(s: Seq<u8>)
    ensures
        forall|j: int| 0 <= j < encode_spec(s).len() ==> encode_spec(s)[j] != 0,
    decreases s.len(),
{
    if s.len() > 0 {
        lemma_block(s);
        let r = block_len(s);
        let k = block_consumed(s);
        lemma_encode_no_zero(s.skip(k as int));
        let e = encode_spec(s);
        let t = encode_spec(s.skip(k as int));
        assert(e == seq![(r + 1) as u8] + s.take(r as int) + t);
        assert forall|j: int| 0 <= j < e.len() implies e[j] != 0 by {
            if j == 0 {
            } else if j < r + 1 {
                assert(e[j] == s[j - 1]);
            } else {
                assert(e[j] == t[j - r - 1]);
            }
        }
    }
}

/// A non-empty input has a non-empty encoding.
pub proof fn lemma_encode_nonempty(s: Seq<u8>)
    ensures
        s.len() > 0 ==> encode_spec(s).len() > 0,
{
    if s.len() > 0 {
        lemma_block(s);
    }
}

/// Round trip from a block boundary `start` of `d`.
proof fn lemma_roundtrip_from(d: Seq<u8>, start: int)
    requires
        roundtrips(d),
        0 <= start <= d.len(),
    ensures
        decode_blocks(encode_spec(d.skip(start))) == Some(d.skip(start)),
    decreases d.len() - start,
{
    let s = d.skip(start);
    if s.len() > 0 {
        lemma_block(s);
        let r = block_len(s) as int;
        let k = block_consumed(s) as int;
        let t = encode_spec(s.skip(k));
        let e = encode_spec(s);
        assert(e == seq![(r + 1) as u8] + s.take(r) + t);
        assert(s.skip(k) =~= d.skip(start + k));
        lemma_roundtrip_from(d, start + k);
        lemma_encode_nonempty(s.skip(k));
        assert(e[0] == (r + 1) as u8);
        assert(e.skip(r + 1) =~= t);
        assert(e.subrange(1, r + 1) =~= s.take(r));
        if r < 254 && k == r + 1 && t.len() == 0 {
            assert(s.skip(k).len() == 0);
            assert(d.last() == d[start + r]);
            assert(false);
        }
        if r < 254 && t.len() > 0 {
            assert(k == r + 1);
            assert(s =~= s.take(r) + seq![0u8] + s.skip(k));
        } else {
            assert(s =~= s.take(r) + s.skip(k));
        }
    } else {
        assert(encode_spec(s) =~= Seq::<u8>::empty());
    }
}

/// COBS round trip: every input that does not end in a zero byte decodes
/// back to itself.
pub proof fn lemma_cobs_roundtrip(d: Seq<u8>)
    requires
        roundtrips(d),
    ensures
        decode_spec(encode_spec(d)) == Some(d),
{
    lemma_roundtrip_from(d, 0);
    assert(d.skip(0) =~= d);
}

/// Append `data[a..b]` to `out`.
fn push_range(out: &mut Vec<u8>, data: &[u8], a: usize, b: usize)
    requires
        a <= b <= data.len(),
    ensures
        final(out)@ == old(out)@ + data@.subrange(a as int, b as int),
{
    let mut j = a;
    while j < b
        invariant
            a <= j <= b <= data.len(),
            out@ == old(out)@ + data@.subrange(a as int, j as int),
        decreases b - j,
    {
        out.push(data[j]);
        j += 1;
        assert(data@.subrange(a as int, j as int) =~= data@.subrange(a as int, j - 1) + seq![data@[j - 1]]);
    }
}

/// Encode `data` using COBS. The output contains no `0x00` bytes.
pub fn encode(data: &[u8]) -> (out: Vec<u8>)
    ensures
        out@ == encode_spec(data@),
        forall|j: int| 0 <= j < out@.len() ==> out@[j] != 0,
{
    let mut out: Vec<u8> = Vec::new();
    let mut i: usize = 0;
    assert(data@.skip(0) =~= data@);
    while i < data.len()
        invariant
            i <= data.len(),
            encode_spec(data@) == out@ + encode_spec(data@.skip(i as int)),
        decreases data.len() - i,
    {
        let start = i;
        while i < data.len() && data[i] != 0 && i - start < 0xFE
            invariant
                start <= i <= data.len(),
                i - start <= 0xFE,
                forall|j: int| start <= j < i ==> data@[j] != 0,
            decreases data.len() - i,
        {
            i += 1;
        }
        let ghost s = data@.skip(start as int);
        proof {
            let k = (i - start) as int;
            assert forall|j: int| 0 <= j < k implies s[j] != 0 by {
                assert(s[j] == data@[start + j]);
            }
            lemma_run_len_exact(s, k);
            lemma_block(s);
        }
        let code = (i - start + 1) as u8;
        out.push(code);
        push_range(&mut out, data, start, i);
        // A zero after a short block is absorbed into it; after a full
        // block it starts the next one.
        if i < data.len() && data[i] == 0 && i - start < 0xFE {
            i += 1;
        }
        proof {
            let r = block_len(s) as int;
            assert(data@.subrange(start as int, start + r) =~= s.take(r));
            assert(s.skip(block_consumed(s) as int) =~= data@.skip(i as int));
        }
    }
    proof {
        assert(data@.skip(i as int) =~= Seq::<u8>::empty());
        lemma_encode_no_zero(data@);
    }
    out
}

/// Decode COBS-encoded `data` back to the original bytes.
///
/// # Errors
///
/// Returns `Err` if the data is malformed (unexpected end of input).
pub fn decode(data: &[u8]) -> (r: Result<Vec<u8>, DecodeError>)
    ensures
        match r {
            Ok(v) => decode_spec(data@) == Some(v@),
            Err(_) => decode_spec(data@).is_none(),
        },
{
    let mut out: Vec<u8> = Vec::new();
    let mut i: usize = 0;
    assert(data@.skip(0) =~= data@);
    while i < data.len()
        invariant_except_break
            i <= data.len(),
            decode_blocks(data@) == match decode_blocks(data@.skip(i as int)) {
                Some(t) => Some(out@ + t),
                None => None,
            },
        ensures
            decode_blocks(data@) == Some(out@),
        decreases data.len() - i,
    {
        let code = data[i];
        if code == 0 {
            assert(decode_blocks(data@.skip(i as int)) == Some(Seq::<u8>::empty()));
            assert(out@ + Seq::<u8>::empty() =~= out@);
            break;
        }
        let ghost e = data@.skip(i as int);
        let ghost i0 = i;
        let ghost out0 = out@;
        i += 1;
        let mut c: u8 = 1;
        while c < code
            invariant
                1 <= c <= code,
                i == i0 + c,
                i0 < data.len(),
                e == data@.skip(i0 as int),
                code == e[0],
                i <= data.len(),
                out@ == out0 + data@.subrange(i0 + 1, i as int),
                decode_blocks(data@) == match decode_blocks(e) {
                    Some(t) => Some(out0 + t),
                    None => None,
                },
            decreases code - c,
        {
            if i >= data.len() {
                assert(code > e.len());
                return Err(DecodeError);
            }
            out.push(data[i]);
            i += 1;
            c += 1;
            assert(data@.subrange(i0 + 1, i as int) =~= data@.subrange(i0 + 1, i - 1) + seq![data@[i - 1]]);
        }
        proof {
            assert(e.subrange(1, code as int) =~= data@.subrange(i0 + 1, i as int));
            assert(e.skip(code as int) =~= data@.skip(i as int));
        }
        if code < 0xFF && i < data.len() {
            out.push(0x00);
        }
        proof {
            let rest = data@.skip(i as int);
            match decode_blocks(rest) {
                Some(t) => {
                    if code < 0xFF && rest.len() > 0 {
                        assert(out0 + (e.subrange(1, code as int) + seq![0u8] + t) =~= out@ + t);
                    } else {
                        assert(out0 + (e.subrange(1, code as int) + Seq::<u8>::empty() + t) =~= out@ + t);
                    }
                },
                None => {},
            }
        }
    }
    if out.len() > 0 && out[out.len() - 1] == 0x00 {
        out.pop();
        proof {
            assert(out@ =~= decode_blocks(data@).unwrap().drop_last());
        }
    }
    Ok(out)
}

/// COBS decode error — malformed input.
#[derive(Debug, Clone, Copy, PartialEq, Eq, Structural)]
pub struct DecodeError;

impl DecodeError {
    /// Human-readable description of the error.
    pub fn message(&self) -> (s: &'static str)
        ensures
            s@ == "COBS decode error: malformed input"@,
    {
        "COBS decode error: malformed input"
    }
}

} // verus!
