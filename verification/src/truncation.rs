//! Truncation safety: cutting a buffer short at any byte boundary before
//! the end of a valid encoding turns the decode into a suspension
//! (`Incomplete`) — never a crash, never a different success, and a
//! permanent failure never becomes a success.
use crate::grammar::{
    spec_block_body, spec_dir_blocks, spec_directory, spec_entry, spec_nar, spec_regular,
    spec_regular_contents, spec_symlink, spec_variants,
};
use crate::laws::{lemma_block_body_advances, lemma_dir_blocks_advances, lemma_entry_advances, lemma_tag_advances, lemma_variants_advances};
use crate::outcome::{NarError, ParseOut};
use crate::primitives::{spec_padded_bytes, spec_padded_tag, tag_prefix};
use crate::tags::{
    tag_close, tag_contents, tag_directory, tag_empty, tag_entry, tag_executable, tag_magic,
    tag_name, tag_node, tag_open, tag_regular, tag_symlink, tag_target, tag_type,
};
use vstd::bytes::{
    lemma_auto_spec_u64_to_from_le_bytes, spec_u64_to_le_bytes, spec_u64_to_le_bytes_to_open,
};
use vstd::prelude::*;

verus! {

/// What truncating the buffer to its first `k` bytes does to a production
/// that never looks past what it consumes: an outcome decided entirely
/// before the cut is unchanged, one that reaches past the cut becomes
/// `Incomplete`, and a permanent failure stays itself or becomes
/// `Incomplete` — never a success.
pub open spec fn truncates_to<T>(full: ParseOut<T>, cut: ParseOut<T>, k: int) -> bool {
    match full {
        ParseOut::Done { next, .. } => if next <= k {
            cut == full
        } else {
            cut is Incomplete
        },
        ParseOut::Incomplete { .. } => cut is Incomplete,
        ParseOut::Fail { .. } => cut == full || cut is Incomplete,
    }
}

/// The truncation guarantee for productions that end by looking one token
/// ahead (a directory's block list): a success decided before the cut
/// survives whenever the failing `entry` lookahead is still decidable in
/// the shorter buffer, and in any case never becomes a different success.
pub open spec fn truncates_to_lookahead<T>(
    full: ParseOut<T>,
    cut: ParseOut<T>,
    cutbuf: Seq<u8>,
    k: int,
) -> bool {
    match full {
        ParseOut::Done { next, .. } => {
            &&& next <= k ==> (cut == full || cut is Incomplete)
            &&& (next <= k && spec_padded_tag(cutbuf, next, tag_entry()) is Fail) ==> cut == full
            &&& next > k ==> cut is Incomplete
        },
        ParseOut::Incomplete { .. } => cut is Incomplete,
        ParseOut::Fail { .. } => cut == full || cut is Incomplete,
    }
}

/// A byte that differs from the tag's framing within the input makes the
/// tag fail permanently, whatever else the input holds.
proof fn lemma_tag_byte_mismatch(s: Seq<u8>, pos: int, t: Seq<u8>, j: int)
    requires
        0 <= pos,
        0 <= j < 8 + t.len(),
        pos + j < s.len(),
        s[pos + j] != tag_prefix(t)[j],
    ensures
        spec_padded_tag(s, pos, t) == (ParseOut::Fail::<()> { why: NarError::TagMismatch }),
{
    assert(0 <= j < s.len() - pos && j < 8 + t.len() && s[pos + j] != tag_prefix(t)[j]);
}

/// A tag that succeeds pins every byte of its framing.
proof fn lemma_tag_done_byte(s: Seq<u8>, pos: int, t: Seq<u8>, j: int)
    requires
        spec_padded_tag(s, pos, t) is Done,
        0 <= j < 8 + t.len(),
    ensures
        s[pos + j] == tag_prefix(t)[j],
{
    if s[pos + j] != tag_prefix(t)[j] {
        assert(s.len() - pos >= 8 + t.len() + crate::primitives::spec_padding(t.len()));
        assert(0 <= j < s.len() - pos && j < 8 + t.len() && s[pos + j] != tag_prefix(t)[j]);
    }
}

/// The first byte of a tag's framing is the literal's length, for the
/// short literals the grammar uses.
proof fn lemma_tag_prefix_head(t: Seq<u8>)
    requires
        t.len() < 256,
    ensures
        tag_prefix(t)[0] == t.len() as u8,
{
    lemma_auto_spec_u64_to_from_le_bytes();
    let n = t.len() as u64;
    spec_u64_to_le_bytes_to_open(n);
    assert(n & 0xff == n) by (bit_vector)
        requires
            n < 256,
    ;
    assert(spec_u64_to_le_bytes(n).len() == 8);
}

/// The ninth byte of a tag's framing is the literal's first byte.
proof fn lemma_tag_prefix_ninth(t: Seq<u8>)
    requires
        t.len() >= 1,
    ensures
        tag_prefix(t)[8] == t[0],
{
    lemma_auto_spec_u64_to_from_le_bytes();
    assert(spec_u64_to_le_bytes(t.len() as u64).len() == 8);
}

/// Truncating the buffer below a tag's frame suspends the tag; cutting
/// after it leaves it unchanged; a mismatch survives as long as it is
/// still visible.
pub proof fn lemma_trunc_tag(s: Seq<u8>, k: int, pos: int, t: Seq<u8>)
    requires
        0 <= pos <= k <= s.len(),
    ensures
        truncates_to(spec_padded_tag(s, pos, t), spec_padded_tag(s.subrange(0, k), pos, t), k),
{
    let c = s.subrange(0, k);
    let framed = 8 + t.len();
    let total = framed + crate::primitives::spec_padding(t.len());
    let full = spec_padded_tag(s, pos, t);
    let cut = spec_padded_tag(c, pos, t);
    assert(forall|x: int| 0 <= x < k ==> c[x] == s[x]);
    match full {
        ParseOut::Done { next, .. } => {
            // every byte of the frame matches in the full buffer, so no
            // mismatch can appear in the shorter one
            assert(forall|j: int|
                0 <= j < k - pos && j < framed ==> c[pos + j] == #[trigger] tag_prefix(t)[j]) by {
                assert forall|j: int| 0 <= j < k - pos && j < framed implies c[pos + j]
                    == #[trigger] tag_prefix(t)[j] by {
                    lemma_tag_done_byte(s, pos, t, j);
                }
            }
            if next <= k {
                assert(cut == full);
            } else {
                assert(cut is Incomplete);
            }
        },
        ParseOut::Incomplete { .. } => {
            assert(forall|j: int|
                0 <= j < s.len() - pos && j < framed ==> s[pos + j] == #[trigger] tag_prefix(
                    t,
                )[j]);
            assert(cut is Incomplete);
        },
        ParseOut::Fail { .. } => {
            let j0 = choose|j: int|
                0 <= j < s.len() - pos && j < framed && s[pos + j] != #[trigger] tag_prefix(t)[j];
            if cut is Done {
                // the cut kept the whole frame, whose bytes agree with the
                // full buffer, so the mismatch would still be there
                assert(k - pos >= total);
                assert(c[pos + j0] != tag_prefix(t)[j0]);
                assert(false);
            }
            if cut is Fail {
                assert(cut == full);
            }
        },
    }
}

/// Truncating the buffer below an aligned field suspends it; cutting after
/// it leaves the field and its payload unchanged.
pub proof fn lemma_trunc_bytes(s: Seq<u8>, k: int, pos: int)
    requires
        0 <= pos <= k <= s.len(),
    ensures
        truncates_to(spec_padded_bytes(s, pos), spec_padded_bytes(s.subrange(0, k), pos), k),
{
    let c = s.subrange(0, k);
    let full = spec_padded_bytes(s, pos);
    let cut = spec_padded_bytes(c, pos);
    if k - pos >= 8 {
        assert(c.subrange(pos, pos + 8) =~= s.subrange(pos, pos + 8));
        let len = vstd::bytes::spec_u64_from_le_bytes(s.subrange(pos, pos + 8)) as int;
        let total = 8 + len + crate::primitives::spec_padding(len as nat);
        if let ParseOut::Done { next, .. } = full {
            if next <= k {
                assert(c.subrange(pos + 8, pos + 8 + len) =~= s.subrange(pos + 8, pos + 8 + len));
                assert(cut == full);
            }
        }
    }
}

/// Truncation safety for a regular file's contents section.
#[verifier::rlimit(100)]
#[verifier::spinoff_prover]
pub proof fn lemma_trunc_regular_contents(s: Seq<u8>, k: int, pos: int, executable: bool)
    requires
        0 <= pos <= k <= s.len(),
    ensures
        truncates_to(
            spec_regular_contents(s, pos, executable),
            spec_regular_contents(s.subrange(0, k), pos, executable),
            k,
        ),
{
    reveal(spec_regular_contents);
    lemma_trunc_tag(s, k, pos, tag_contents());
    if let ParseOut::Done { next: p1, .. } = spec_padded_tag(s, pos, tag_contents()) {
        if p1 <= k {
            lemma_trunc_bytes(s, k, p1);
        }
    }
}

/// Truncation safety for a regular file's body, executable marker
/// included. When the marker is absent in the full buffer, the contents
/// keyword that took its place keeps the marker tag failing after the cut.
#[verifier::rlimit(100)]
#[verifier::spinoff_prover]
pub proof fn lemma_trunc_regular(s: Seq<u8>, k: int, pos: int)
    requires
        0 <= pos <= k <= s.len(),
    ensures
        truncates_to(spec_regular(s, pos), spec_regular(s.subrange(0, k), pos), k),
{
    reveal(spec_regular);
    reveal(spec_regular_contents);
    let c = s.subrange(0, k);
    lemma_trunc_tag(s, k, pos, tag_executable());
    match spec_padded_tag(s, pos, tag_executable()) {
        ParseOut::Done { next: p1, .. } => {
            if p1 <= k {
                lemma_trunc_tag(s, k, p1, tag_empty());
                if let ParseOut::Done { next: p2, .. } = spec_padded_tag(s, p1, tag_empty()) {
                    if p2 <= k {
                        lemma_trunc_regular_contents(s, k, p2, true);
                    }
                }
            }
        },
        ParseOut::Fail { .. } => {
            lemma_trunc_regular_contents(s, k, pos, false);
            if let ParseOut::Done { next, .. } = spec_regular_contents(s, pos, false) {
                if next <= k {
                    // the contents keyword stands where the marker would:
                    // its length byte 8 differs from the marker's 10, so
                    // the marker tag still fails in the shorter buffer
                    assert(spec_padded_tag(s, pos, tag_contents()) is Done);
                    lemma_tag_done_byte(s, pos, tag_contents(), 0);
                    lemma_tag_prefix_head(tag_contents());
                    lemma_tag_prefix_head(tag_executable());
                    lemma_tag_advances(s, pos, tag_contents());
                    assert(c[pos] == s[pos]);
                    lemma_tag_byte_mismatch(c, pos, tag_executable(), 0);
                }
            }
        },
        ParseOut::Incomplete { .. } => {},
    }
}

/// Truncation safety for a symbolic link's body.
#[verifier::rlimit(100)]
#[verifier::spinoff_prover]
pub proof fn lemma_trunc_symlink(s: Seq<u8>, k: int, pos: int)
    requires
        0 <= pos <= k <= s.len(),
    ensures
        truncates_to(spec_symlink(s, pos), spec_symlink(s.subrange(0, k), pos), k),
{
    reveal(spec_symlink);
    lemma_trunc_tag(s, k, pos, tag_target());
    if let ParseOut::Done { next: p1, .. } = spec_padded_tag(s, pos, tag_target()) {
        if p1 <= k {
            lemma_trunc_bytes(s, k, p1);
        }
    }
}

/// Truncation safety for one directory entry block's body.
#[verifier::rlimit(100)]
#[verifier::spinoff_prover]
pub proof fn lemma_trunc_block_body(s: Seq<u8>, k: int, pos: int)
    requires
        0 <= pos <= k <= s.len(),
    ensures
        truncates_to(spec_block_body(s, pos), spec_block_body(s.subrange(0, k), pos), k),
    decreases s.len() - pos, 0int,
{
    reveal_with_fuel(spec_block_body, 2);
    let c = s.subrange(0, k);
    if let ParseOut::Done { next: q1, .. } = spec_padded_tag(s, pos, tag_open()) {
        if let ParseOut::Done { next: q2, .. } = spec_padded_tag(s, q1, tag_name()) {
            if let ParseOut::Done { next: q3, .. } = spec_padded_bytes(s, q2) {
                if let ParseOut::Done { next: q4, .. } = spec_padded_tag(s, q3, tag_node()) {
                    lemma_entry_advances(s, q4);
                }
            }
        }
    }
    lemma_trunc_tag(s, k, pos, tag_open());
    if let ParseOut::Done { next: p1, .. } = spec_padded_tag(s, pos, tag_open()) {
        if p1 <= k {
            lemma_trunc_tag(s, k, p1, tag_name());
            if let ParseOut::Done { next: p2, .. } = spec_padded_tag(s, p1, tag_name()) {
                if p2 <= k {
                    lemma_trunc_bytes(s, k, p2);
                    if let ParseOut::Done { next: p3, .. } = spec_padded_bytes(s, p2) {
                        if p3 <= k {
                            lemma_trunc_tag(s, k, p3, tag_node());
                            if let ParseOut::Done { next: p4, .. } = spec_padded_tag(
                                s,
                                p3,
                                tag_node(),
                            ) {
                                lemma_entry_advances(s, p4);
                                if p4 <= k {
                                    lemma_trunc_entry(s, k, p4);
                                    if let ParseOut::Done { next: p5, .. } = spec_entry(s, p4) {
                                        if p5 <= k {
                                            lemma_trunc_tag(s, k, p5, tag_close());
                                        }
                                    }
                                }
                            }
                        }
                    }
                }
            }
        }
    }
}

/// Truncation safety for a directory's block list. The list's end is
/// decided by a lookahead just past it, so a cut that lands on that
/// lookahead suspends the decode; the enclosing production always re-decides
/// the lookahead from its own next token.
#[verifier::rlimit(100)]
#[verifier::spinoff_prover]
pub proof fn lemma_trunc_dir_blocks(s: Seq<u8>, k: int, pos: int)
    requires
        0 <= pos <= k <= s.len(),
    ensures
        truncates_to_lookahead(
            spec_dir_blocks(s, pos),
            spec_dir_blocks(s.subrange(0, k), pos),
            s.subrange(0, k),
            k,
        ),
    decreases s.len() - pos, 1int,
{
    reveal_with_fuel(spec_dir_blocks, 2);
    let c = s.subrange(0, k);
    if let ParseOut::Done { next: q1, .. } = spec_padded_tag(s, pos, tag_entry()) {
        lemma_block_body_advances(s, q1);
        if let ParseOut::Done { next: q2, .. } = spec_block_body(s, q1) {
            lemma_dir_blocks_advances(s, q2);
        }
    }
    lemma_trunc_tag(s, k, pos, tag_entry());
    match spec_padded_tag(s, pos, tag_entry()) {
        ParseOut::Fail { .. } => {},
        ParseOut::Incomplete { .. } => {},
        ParseOut::Done { next: p1, .. } => {
            if p1 <= k {
                lemma_trunc_block_body(s, k, p1);
                if let ParseOut::Done { next: p2, .. } = spec_block_body(s, p1) {
                    lemma_block_body_advances(s, p1);
                    lemma_dir_blocks_advances(s, p2);
                    if p2 <= k {
                        lemma_trunc_dir_blocks(s, k, p2);
                    }
                }
            }
        },
    }
}

/// Truncation safety for a directory body.
#[verifier::rlimit(100)]
#[verifier::spinoff_prover]
pub proof fn lemma_trunc_directory(s: Seq<u8>, k: int, pos: int)
    requires
        0 <= pos <= k <= s.len(),
    ensures
        truncates_to_lookahead(
            spec_directory(s, pos),
            spec_directory(s.subrange(0, k), pos),
            s.subrange(0, k),
            k,
        ),
    decreases s.len() - pos, 2int,
{
    reveal_with_fuel(spec_directory, 2);
    lemma_trunc_dir_blocks(s, k, pos);
}

/// Truncation safety for variant dispatch. Once a variant's keyword has
/// matched in the full buffer, the other keywords keep failing in the
/// shorter one, because the matched keyword's bytes still contradict them.
#[verifier::rlimit(100)]
#[verifier::spinoff_prover]
pub proof fn lemma_trunc_variants(s: Seq<u8>, k: int, pos: int)
    requires
        0 <= pos <= k <= s.len(),
    ensures
        truncates_to_lookahead(
            spec_variants(s, pos),
            spec_variants(s.subrange(0, k), pos),
            s.subrange(0, k),
            k,
        ),
    decreases s.len() - pos, 3int,
{
    reveal_with_fuel(spec_variants, 2);
    reveal(spec_regular);
    reveal(spec_regular_contents);
    reveal(spec_symlink);
    let c = s.subrange(0, k);
    if let ParseOut::Done { next: q1, .. } = spec_padded_tag(s, pos, tag_type()) {
        if let ParseOut::Done { next: q2, .. } = spec_padded_tag(s, q1, tag_directory()) {
            crate::laws::lemma_directory_advances(s, q2);
        }
    }
    lemma_trunc_tag(s, k, pos, tag_type());
    if let ParseOut::Done { next: p1, .. } = spec_padded_tag(s, pos, tag_type()) {
        if p1 <= k {
            lemma_trunc_tag(s, k, p1, tag_regular());
            lemma_tag_prefix_head(tag_regular());
            lemma_tag_prefix_head(tag_symlink());
            lemma_tag_prefix_head(tag_directory());
            match spec_padded_tag(s, p1, tag_regular()) {
                ParseOut::Incomplete { .. } => {},
                ParseOut::Done { next: p2, .. } => {
                    if p2 <= k {
                        lemma_trunc_regular(s, k, p2);
                    }
                },
                ParseOut::Fail { .. } => {
                    lemma_trunc_tag(s, k, p1, tag_symlink());
                    match spec_padded_tag(s, p1, tag_symlink()) {
                        ParseOut::Incomplete { .. } => {},
                        ParseOut::Done { next: p2, .. } => {
                            if p2 <= k {
                                lemma_trunc_symlink(s, k, p2);
                                if let ParseOut::Done { next, .. } = spec_symlink(s, p2) {
                                    if next <= k {
                                        // the matched `symlink` keyword keeps
                                        // `regular` failing after the cut: the
                                        // two literals differ in their first
                                        // character
                                        lemma_tag_done_byte(s, p1, tag_symlink(), 8);
                                        lemma_tag_prefix_ninth(tag_symlink());
                                        lemma_tag_prefix_ninth(tag_regular());
                                        assert(c[p1 + 8] == s[p1 + 8]);
                                        lemma_tag_byte_mismatch(c, p1, tag_regular(), 8);
                                    }
                                }
                            }
                        },
                        ParseOut::Fail { .. } => {
                            lemma_trunc_tag(s, k, p1, tag_directory());
                            match spec_padded_tag(s, p1, tag_directory()) {
                                ParseOut::Incomplete { .. } => {},
                                ParseOut::Fail { .. } => {},
                                ParseOut::Done { next: p2, .. } => {
                                    crate::laws::lemma_directory_advances(s, p2);
                                    if p2 <= k {
                                        lemma_trunc_directory(s, k, p2);
                                        if let ParseOut::Done { next, .. } = spec_directory(s, p2) {
                                            if next <= k {
                                                // the matched `directory` keyword
                                                // keeps the other two failing
                                                // after the cut: its length 9
                                                // differs from their length 7
                                                lemma_tag_done_byte(s, p1, tag_directory(), 0);
                                                assert(c[p1] == s[p1]);
                                                lemma_tag_byte_mismatch(c, p1, tag_regular(), 0);
                                                lemma_tag_byte_mismatch(c, p1, tag_symlink(), 0);
                                            }
                                        }
                                    }
                                },
                            }
                        },
                    }
                },
            }
        }
    }
}

/// Truncation safety for one entry. The closing parenthesis that follows
/// the variant decides any block-list lookahead inside it, so an entry cut
/// anywhere before its end suspends, and one cut after its end is
/// unchanged.
#[verifier::rlimit(100)]
#[verifier::spinoff_prover]
pub proof fn lemma_trunc_entry(s: Seq<u8>, k: int, pos: int)
    requires
        0 <= pos <= k <= s.len(),
    ensures
        truncates_to(spec_entry(s, pos), spec_entry(s.subrange(0, k), pos), k),
    decreases s.len() - pos, 4int,
{
    reveal_with_fuel(spec_entry, 2);
    let c = s.subrange(0, k);
    if let ParseOut::Done { next: q1, .. } = spec_padded_tag(s, pos, tag_open()) {
        lemma_variants_advances(s, q1);
    }
    lemma_trunc_tag(s, k, pos, tag_open());
    if let ParseOut::Done { next: p1, .. } = spec_padded_tag(s, pos, tag_open()) {
        if p1 <= k {
            lemma_trunc_variants(s, k, p1);
            lemma_variants_advances(s, p1);
            if let ParseOut::Done { next: p2, .. } = spec_variants(s, p1) {
                if p2 <= k {
                    lemma_trunc_tag(s, k, p2, tag_close());
                    if let ParseOut::Done { next: p3, .. } = spec_padded_tag(s, p2, tag_close()) {
                        if p3 <= k {
                            // the closing parenthesis that follows decides
                            // the lookahead: its length 1 contradicts the
                            // `entry` keyword's length 5 after the cut
                            lemma_tag_done_byte(s, p2, tag_close(), 0);
                            lemma_tag_prefix_head(tag_close());
                            lemma_tag_prefix_head(tag_entry());
                            lemma_tag_advances(s, p2, tag_close());
                            assert(c[p2] == s[p2]);
                            lemma_tag_byte_mismatch(c, p2, tag_entry(), 0);
                        }
                    }
                }
            }
        }
    }
}

/// Truncation safety for the whole archive — the stated law: for a buffer
/// whose decode succeeds, truncating at any byte boundary before the first
/// unconsumed offset yields `Incomplete`, never a different success and
/// never a permanent error; truncating at or after that offset leaves the
/// decode unchanged.
#[verifier::rlimit(100)]
#[verifier::spinoff_prover]
pub proof fn lemma_truncation_incomplete(s: Seq<u8>, k: int)
    requires
        0 <= k <= s.len(),
    ensures
        spec_nar(s) matches ParseOut::Done { next, .. } ==> (k < next ==> spec_nar(
            s.subrange(0, k),
        ) is Incomplete),
        spec_nar(s) matches ParseOut::Done { next, .. } ==> (next <= k ==> spec_nar(
            s.subrange(0, k),
        ) == spec_nar(s)),
{
    reveal(spec_nar);
    lemma_trunc_tag(s, k, 0, tag_magic());
    lemma_tag_advances(s, 0, tag_magic());
    if let ParseOut::Done { next: p1, .. } = spec_padded_tag(s, 0, tag_magic()) {
        lemma_entry_advances(s, p1);
        if p1 <= k {
            lemma_trunc_entry(s, k, p1);
        }
    }
}

} // verus!
