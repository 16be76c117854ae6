//! The decoder's stated laws, proved against the grammar model: every
//! production consumes input monotonically, decoding is deterministic,
//! aligned fields keep 8-byte alignment, the executable flag tracks its
//! marker, directory order is preserved, payloads come back byte-for-byte,
//! and corrupting a tag's declared length is a permanent failure.
use crate::grammar::{
    spec_block_body, spec_dir_blocks, spec_directory, spec_entry, spec_nar, spec_regular,
    spec_regular_contents, spec_symlink, spec_variants,
};
use crate::outcome::{NarError, ParseOut};
use crate::primitives::{spec_padded_bytes, spec_padded_tag, spec_padding, tag_prefix};
use crate::tags::{
    tag_close, tag_directory, tag_entry, tag_executable, tag_magic, tag_name, tag_node, tag_open,
    tag_type,
};
use crate::tree::SpecEntry;
use vstd::bytes::{
    lemma_auto_spec_u64_to_from_le_bytes, spec_u64_from_le_bytes, spec_u64_to_le_bytes,
};
use vstd::prelude::*;

verus! {

/// Decoding is a pure function of the buffer's bytes: two buffers holding
/// equal bytes decode to equal outcomes, so decoding the same buffer twice
/// yields structurally identical trees.
pub proof fn lemma_decode_deterministic(a: Seq<u8>, b: Seq<u8>)
    requires
        a == b,
    ensures
        spec_nar(a) == spec_nar(b),
{
}

/// After an aligned length-prefixed field, the consumed byte count is a
/// multiple of 8.
pub proof fn lemma_padded_bytes_aligned(s: Seq<u8>, pos: int)
    ensures
        spec_padded_bytes(s, pos) matches ParseOut::Done { next, .. } ==> (next - pos) % 8 == 0,
{
    if spec_padded_bytes(s, pos) is Done {
        let len = spec_u64_from_le_bytes(s.subrange(pos, pos + 8)) as int;
        assert((8 + len + spec_padding(len as nat)) % 8 == 0);
    }
}

/// After a tag, the consumed byte count is a multiple of 8.
pub proof fn lemma_padded_tag_aligned(s: Seq<u8>, pos: int, t: Seq<u8>)
    ensures
        spec_padded_tag(s, pos, t) matches ParseOut::Done { next, .. } ==> (next - pos) % 8 == 0,
{
    if spec_padded_tag(s, pos, t) is Done {
        assert((8 + t.len() + spec_padding(t.len())) % 8 == 0);
    }
}

/// A tag that succeeds consumed its whole frame: at least the 8-byte length
/// field, and no more than the input holds.
pub proof fn lemma_tag_advances(s: Seq<u8>, pos: int, t: Seq<u8>)
    ensures
        spec_padded_tag(s, pos, t) matches ParseOut::Done { next, .. } ==> pos + 8 <= next
            <= s.len(),
{
}

/// An aligned length-prefixed field that succeeds advances by at least its
/// length field, and never past the end of the input.
pub proof fn lemma_bytes_advances(s: Seq<u8>, pos: int)
    ensures
        spec_padded_bytes(s, pos) matches ParseOut::Done { next, .. } ==> pos + 8 <= next
            <= s.len(),
{
}

/// A decoded entry consumes at least one field and stays inside the input.
#[verifier::rlimit(100)]
#[verifier::spinoff_prover]
pub proof fn lemma_entry_advances(s: Seq<u8>, pos: int)
    ensures
        spec_entry(s, pos) matches ParseOut::Done { next, .. } ==> pos < next <= s.len(),
    decreases s.len() - pos, 4int,
{
    reveal_with_fuel(spec_entry, 2);
    if let ParseOut::Done { next: p1, .. } = spec_padded_tag(s, pos, tag_open()) {
        lemma_variants_advances(s, p1);
        if let ParseOut::Done { next: p2, .. } = spec_variants(s, p1) {
            lemma_tag_advances(s, p2, tag_close());
        }
    }
}

/// Variant dispatch consumes at least the `type` keyword on success.
#[verifier::rlimit(100)]
#[verifier::spinoff_prover]
pub proof fn lemma_variants_advances(s: Seq<u8>, pos: int)
    ensures
        spec_variants(s, pos) matches ParseOut::Done { next, .. } ==> pos < next <= s.len(),
    decreases s.len() - pos, 3int,
{
    reveal_with_fuel(spec_variants, 2);
    reveal(spec_regular);
    reveal(spec_regular_contents);
    reveal(spec_symlink);
    if let ParseOut::Done { next: p1, .. } = spec_padded_tag(s, pos, tag_type()) {
        if let ParseOut::Done { next: p2, .. } = spec_padded_tag(s, p1, tag_directory()) {
            lemma_directory_advances(s, p2);
        }
    }
}

/// A directory body never moves backwards and stays inside the input.
#[verifier::rlimit(100)]
#[verifier::spinoff_prover]
pub proof fn lemma_directory_advances(s: Seq<u8>, pos: int)
    ensures
        spec_directory(s, pos) matches ParseOut::Done { next, .. } ==> pos <= next <= s.len(),
    decreases s.len() - pos, 2int,
{
    reveal_with_fuel(spec_directory, 2);
    lemma_dir_blocks_advances(s, pos);
}

/// A block list never moves backwards and stays inside the input. When it
/// is empty, the failing lookahead tag still needs a byte of input, so the
/// position is strictly inside the buffer.
#[verifier::rlimit(100)]
#[verifier::spinoff_prover]
pub proof fn lemma_dir_blocks_advances(s: Seq<u8>, pos: int)
    ensures
        spec_dir_blocks(s, pos) matches ParseOut::Done { next, .. } ==> pos <= next <= s.len(),
    decreases s.len() - pos, 1int,
{
    reveal_with_fuel(spec_dir_blocks, 2);
    match spec_padded_tag(s, pos, tag_entry()) {
        ParseOut::Fail { .. } => {
            // the mismatch witness lies inside the input
            assert(pos < s.len());
        },
        ParseOut::Done { next: p1, .. } => {
            if let ParseOut::Done { next: p2, .. } = spec_block_body(s, p1) {
                if pos < p2 <= s.len() {
                    lemma_dir_blocks_advances(s, p2);
                }
            }
        },
        ParseOut::Incomplete { .. } => {},
    }
}

/// A block body consumes at least its parentheses and fields.
#[verifier::rlimit(100)]
#[verifier::spinoff_prover]
pub proof fn lemma_block_body_advances(s: Seq<u8>, pos: int)
    ensures
        spec_block_body(s, pos) matches ParseOut::Done { next, .. } ==> pos < next <= s.len(),
    decreases s.len() - pos, 0int,
{
    reveal_with_fuel(spec_block_body, 2);
    if let ParseOut::Done { next: p1, .. } = spec_padded_tag(s, pos, tag_open()) {
        if let ParseOut::Done { next: p2, .. } = spec_padded_tag(s, p1, tag_name()) {
            if let ParseOut::Done { next: p3, .. } = spec_padded_bytes(s, p2) {
                if let ParseOut::Done { next: p4, .. } = spec_padded_tag(s, p3, tag_node()) {
                    lemma_entry_advances(s, p4);
                    if let ParseOut::Done { next: p5, .. } = spec_entry(s, p4) {
                        lemma_tag_advances(s, p5, tag_close());
                    }
                }
            }
        }
    }
}

/// A regular-file body decodes with `executable == true` exactly when the
/// executable marker tag is present at its start; when the marker is
/// absent, the flag is `false`.
pub proof fn lemma_executable_flag(s: Seq<u8>, pos: int)
    ensures
        spec_regular(s, pos) matches ParseOut::Done { val, .. } ==> val matches SpecEntry::Regular {
            executable,
            ..
        } && (executable <==> spec_padded_tag(s, pos, tag_executable()) is Done),
{
    reveal(spec_regular);
    reveal(spec_regular_contents);
}

/// Directory entries decode in the exact order they appear in the byte
/// stream: when a block decodes at the head of the list and the remaining
/// blocks decode after it, the whole list is that head followed by the
/// rest, in order.
#[verifier::rlimit(100)]
#[verifier::spinoff_prover]
pub proof fn lemma_directory_order(s: Seq<u8>, pos: int)
    ensures
        spec_padded_tag(s, pos, tag_entry()) matches ParseOut::Done { next: p1, .. }
            ==> spec_block_body(s, p1) matches ParseOut::Done { next: p2, val: head }
            ==> spec_dir_blocks(s, p2) matches ParseOut::Done { next: p3, val: rest }
            ==> spec_dir_blocks(s, pos) == (ParseOut::Done { next: p3, val: seq![head] + rest }),
{
    reveal_with_fuel(spec_dir_blocks, 2);
    if let ParseOut::Done { next: p1, .. } = spec_padded_tag(s, pos, tag_entry()) {
        lemma_block_body_advances(s, p1);
    }
}

/// The contents view handed back for an aligned field is byte-for-byte the
/// payload region of the original input — whatever bytes it holds,
/// embedded zero bytes and non-ASCII bytes included.
pub proof fn lemma_contents_exact(s: Seq<u8>, pos: int)
    requires
        0 <= pos,
    ensures
        spec_padded_bytes(s, pos) matches ParseOut::Done { val, .. } ==> val == s.subrange(
            pos + 8,
            pos + 8 + val.len(),
        ),
{
}

/// Corruption at the whole-archive level: a buffer whose leading length
/// field does not declare the magic header's length fails permanently.
pub proof fn lemma_corrupt_magic_rejected(s: Seq<u8>)
    requires
        s.len() >= 8,
        spec_u64_from_le_bytes(s.subrange(0, 8)) != tag_magic().len(),
    ensures
        spec_nar(s) == (ParseOut::Fail::<SpecEntry> { why: NarError::TagMismatch }),
{
    reveal(spec_nar);
    lemma_tag_length_corruption(s, 0, tag_magic());
}

/// Corrupting the declared length of a tag, so that it no longer equals
/// the literal's length, makes the tag fail permanently — never crash and
/// never succeed.
pub proof fn lemma_tag_length_corruption(s: Seq<u8>, pos: int, t: Seq<u8>)
    requires
        0 <= pos,
        pos + 8 <= s.len(),
        t.len() <= u64::MAX,
        spec_u64_from_le_bytes(s.subrange(pos, pos + 8)) != t.len(),
    ensures
        spec_padded_tag(s, pos, t) == (ParseOut::Fail::<()> { why: NarError::TagMismatch }),
{
    lemma_auto_spec_u64_to_from_le_bytes();
    let lenbytes = spec_u64_to_le_bytes(t.len() as u64);
    let actual = s.subrange(pos, pos + 8);
    assert(lenbytes.len() == 8);
    if forall|j: int| 0 <= j < 8 ==> actual[j] == #[trigger] lenbytes[j] {
        assert(actual =~= lenbytes);
        assert(spec_u64_from_le_bytes(lenbytes) == t.len() as u64);
        assert(false);
    }
    let j = choose|j: int| 0 <= j < 8 && actual[j] != #[trigger] lenbytes[j];
    assert(s[pos + j] != tag_prefix(t)[j]);
}

} // verus!
