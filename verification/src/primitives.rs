//! The low-level decoding primitives: the padding calculator, the aligned
//! length-prefixed byte reader, and the literal keyword matcher. Every field
//! of the wire format is one of these.
use crate::outcome::{parse_failed, tag_result, NarError, ParseOut};
use vstd::bytes::{
    lemma_auto_spec_u64_to_from_le_bytes, spec_u64_from_le_bytes, spec_u64_to_le_bytes,
    u64_from_le_bytes, u64_to_le_bytes,
};
use vstd::prelude::*;
use vstd::slice::slice_subrange;

verus! {

/// Number of filler bytes that advance a count of `n` consumed bytes to the
/// next multiple of 8: zero when `n` is already a multiple of 8, otherwise
/// `8 - n % 8`.
pub open spec fn spec_padding(n: nat) -> nat {
    if n % 8 == 0 {
        0
    } else {
        (8 - n % 8) as nat
    }
}

/// Filler length required after `n` payload bytes to restore 8-byte
/// alignment.
pub fn padding(n: usize) -> (p: usize)
    ensures
        p == spec_padding(n as nat),
        p < 8,
        (n + p) % 8 == 0,
{
    if n % 8 == 0 {
        0
    } else {
        8 - n % 8
    }
}

/// A view into the decoded buffer: `len` bytes starting at offset `start`.
/// The decoder hands out ranges rather than copies, so a decoded tree stays
/// a family of views into the one buffer it was decoded from.
#[derive(Debug, Clone, Copy, PartialEq, Eq)]
pub struct ByteRange {
    pub start: usize,
    pub len: usize,
}

impl ByteRange {
    /// The bytes of `s` that this range designates.
    pub open spec fn slice_of(self, s: Seq<u8>) -> Seq<u8> {
        s.subrange(self.start as int, self.start + self.len)
    }

    /// The range lies inside `s`.
    pub open spec fn wf(self, s: Seq<u8>) -> bool {
        self.start + self.len <= s.len()
    }
}

/// An aligned length-prefixed field at `pos`: an 8-byte little-endian
/// length, that many payload bytes, then unchecked filler up to the next
/// multiple of 8. The payload content is never inspected. The outcome is
/// `Incomplete` whenever the input ends before the filler does; this field
/// never fails permanently.
pub open spec fn spec_padded_bytes(s: Seq<u8>, pos: int) -> ParseOut<Seq<u8>> {
    let avail = s.len() - pos;
    if avail < 8 {
        ParseOut::Incomplete { need: 8 - avail }
    } else {
        let len = spec_u64_from_le_bytes(s.subrange(pos, pos + 8)) as int;
        let total = 8 + len + spec_padding(len as nat);
        if avail < total {
            ParseOut::Incomplete { need: total - avail }
        } else {
            ParseOut::Done { next: pos + total, val: s.subrange(pos + 8, pos + 8 + len) }
        }
    }
}

/// Reads an aligned length-prefixed field at `pos`. On success the returned
/// position is just past the filler and the returned range designates the
/// payload inside `i`, starting right after the length field; no bytes are
/// copied.
pub fn padded_bytes(i: &[u8], pos: usize) -> (r: Result<(usize, ByteRange), NarError>)
    requires
        pos <= i@.len(),
    ensures
        match r {
            Ok(p) => {
                &&& p.1.wf(i@)
                &&& p.1.start == pos + 8
                &&& spec_padded_bytes(i@, pos as int) == (ParseOut::Done {
                    next: p.0 as int,
                    val: p.1.slice_of(i@),
                })
                &&& pos < p.0 <= i@.len()
            },
            Err(e) => parse_failed(spec_padded_bytes(i@, pos as int), e),
        },
{
    let avail = i.len() - pos;
    if avail < 8 {
        return Err(NarError::Incomplete((8 - avail) as u64));
    }
    let lenfield = slice_subrange(i, pos, pos + 8);
    let len = u64_from_le_bytes(lenfield);
    let rest = avail - 8;
    if (rest as u64) < len {
        let missing = len - rest as u64;
        let pad64: u64 = if len % 8 == 0 {
            0
        } else {
            8 - len % 8
        };
        let need: u64 = if missing > u64::MAX - pad64 {
            u64::MAX
        } else {
            missing + pad64
        };
        return Err(NarError::Incomplete(need));
    }
    let dlen = len as usize;
    let pad = padding(dlen);
    if rest - dlen < pad {
        return Err(NarError::Incomplete((pad - (rest - dlen)) as u64));
    }
    Ok((pos + 8 + dlen + pad, ByteRange { start: pos + 8, len: dlen }))
}

/// The framing that introduces the literal `t` on the wire: the 8-byte
/// little-endian encoding of `t`'s length followed by `t` itself. The
/// filler that completes the field is not part of the prefix, since its
/// content goes unchecked.
pub open spec fn tag_prefix(t: Seq<u8>) -> Seq<u8> {
    spec_u64_to_le_bytes(t.len() as u64) + t
}

/// A tag at `pos`: the aligned length-prefixed encoding of exactly the
/// literal `t`. A byte that differs from the expected framing within the
/// available input is a permanent mismatch; running out of input while
/// every available byte still agrees is `Incomplete`; the filler bytes are
/// skipped unchecked.
pub open spec fn spec_padded_tag(s: Seq<u8>, pos: int, t: Seq<u8>) -> ParseOut<()> {
    let avail = s.len() - pos;
    let framed = 8 + t.len();
    let total = framed + spec_padding(t.len());
    if exists|j: int| 0 <= j < avail && j < framed && s[pos + j] != #[trigger] tag_prefix(t)[j] {
        ParseOut::Fail { why: NarError::TagMismatch }
    } else if avail < total {
        ParseOut::Incomplete { need: total - avail }
    } else {
        ParseOut::Done { next: pos + total, val: () }
    }
}

/// Matches the aligned length-prefixed encoding of exactly the literal `t`
/// at `pos`, comparing the length field and the payload byte for byte and
/// skipping the filler, and returns the position after the filler.
pub fn padded_tag(i: &[u8], pos: usize, t: &[u8]) -> (r: Result<usize, NarError>)
    requires
        pos <= i@.len(),
        t@.len() <= usize::MAX - 15,
    ensures
        tag_result(spec_padded_tag(i@, pos as int, t@), r),
{
    proof {
        lemma_auto_spec_u64_to_from_le_bytes();
    }
    let avail = i.len() - pos;
    let lenbytes = u64_to_le_bytes(t.len() as u64);
    let framed = 8 + t.len();
    let mut j: usize = 0;
    while j < framed && j < avail
        invariant
            pos <= i@.len(),
            i@.len() <= usize::MAX,
            avail == i@.len() - pos,
            framed == 8 + t@.len(),
            lenbytes@ == spec_u64_to_le_bytes(t@.len() as u64),
            lenbytes@.len() == 8,
            tag_prefix(t@).len() == framed,
            j <= framed,
            j <= avail,
            forall|k: int| 0 <= k < j ==> i@[pos + k] == #[trigger] tag_prefix(t@)[k],
        decreases framed - j,
    {
        let expect: u8 = if j < 8 {
            lenbytes[j]
        } else {
            t[j - 8]
        };
        proof {
            assert(tag_prefix(t@)[j as int] == expect);
        }
        if i[pos + j] != expect {
            proof {
                assert(i@[pos + j] != tag_prefix(t@)[j as int]);
            }
            return Err(NarError::TagMismatch);
        }
        j += 1;
    }
    let pad = padding(t.len());
    let total = framed + pad;
    if avail < total {
        return Err(NarError::Incomplete((total - avail) as u64));
    }
    Ok(pos + total)
}

} // verus!
