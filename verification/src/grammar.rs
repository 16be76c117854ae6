//! The archive grammar: one spec production per nonterminal, and one
//! executable parser per production, each proved to return exactly the
//! production's outcome.
//!
//! The grammar (all fields aligned length-prefixed):
//!
//! ```text
//! archive   = tag("nix-archive-1") entry
//! entry     = tag("(") (regular | symlink | directory) tag(")")
//! regular   = tag("type") tag("regular") [tag("executable") tag("")] tag("contents") bytes
//! symlink   = tag("type") tag("symlink") tag("target") bytes
//! directory = tag("type") tag("directory") entry_block*
//! entry_block = tag("entry") tag("(") tag("name") bytes tag("node") entry tag(")")
//! ```
//!
//! Dispatch among the three variants commits on the keyword after `type`:
//! the first of `regular`, `symlink`, `directory` whose tag matches wins,
//! and if none matches the production fails with `NoMatchingVariant`. A
//! directory's block list ends at the first position where the next token
//! is not `entry`. `Incomplete` anywhere propagates unchanged; a permanent
//! failure anywhere aborts the whole decode.
use crate::outcome::{parse_failed, NarError, ParseOut};
use crate::primitives::{padded_bytes, spec_padded_bytes, spec_padded_tag, ByteRange};
use crate::tags::{
    match_close, match_contents, match_directory, match_empty, match_entry, match_executable,
    match_magic, match_name, match_node, match_open, match_regular, match_symlink, match_target,
    match_type, tag_close, tag_contents, tag_directory, tag_empty, tag_entry, tag_executable,
    tag_magic, tag_name, tag_node, tag_open, tag_regular, tag_symlink, tag_target, tag_type,
};
use crate::tree::{
    entries_view, entries_wf, entry_view, entry_wf, lemma_entries_push, Entry, SpecEntry,
};
use vstd::prelude::*;

verus! {

/// The body of a regular file after its optional executable marker: the
/// `contents` keyword, then the raw file bytes.
#[verifier::opaque]
pub open spec fn spec_regular_contents(s: Seq<u8>, pos: int, executable: bool) -> ParseOut<
    SpecEntry,
> {
    match spec_padded_tag(s, pos, tag_contents()) {
        ParseOut::Incomplete { need } => ParseOut::Incomplete { need },
        ParseOut::Fail { why } => ParseOut::Fail { why },
        ParseOut::Done { next: p1, .. } => match spec_padded_bytes(s, p1) {
            ParseOut::Incomplete { need } => ParseOut::Incomplete { need },
            ParseOut::Fail { why } => ParseOut::Fail { why },
            ParseOut::Done { next: p2, val } => ParseOut::Done {
                next: p2,
                val: SpecEntry::Regular { executable, contents: val },
            },
        },
    }
}

/// A regular file, after `type regular`: an optional `executable` marker
/// (whose value is the empty tag), then the contents. The file is
/// executable exactly when the marker tag matches.
#[verifier::opaque]
pub open spec fn spec_regular(s: Seq<u8>, pos: int) -> ParseOut<SpecEntry> {
    match spec_padded_tag(s, pos, tag_executable()) {
        ParseOut::Incomplete { need } => ParseOut::Incomplete { need },
        ParseOut::Fail { .. } => spec_regular_contents(s, pos, false),
        ParseOut::Done { next: p1, .. } => match spec_padded_tag(s, p1, tag_empty()) {
            ParseOut::Incomplete { need } => ParseOut::Incomplete { need },
            ParseOut::Fail { why } => ParseOut::Fail { why },
            ParseOut::Done { next: p2, .. } => spec_regular_contents(s, p2, true),
        },
    }
}

/// A symbolic link, after `type symlink`: the `target` keyword, then the
/// raw target bytes.
#[verifier::opaque]
pub open spec fn spec_symlink(s: Seq<u8>, pos: int) -> ParseOut<SpecEntry> {
    match spec_padded_tag(s, pos, tag_target()) {
        ParseOut::Incomplete { need } => ParseOut::Incomplete { need },
        ParseOut::Fail { why } => ParseOut::Fail { why },
        ParseOut::Done { next: p1, .. } => match spec_padded_bytes(s, p1) {
            ParseOut::Incomplete { need } => ParseOut::Incomplete { need },
            ParseOut::Fail { why } => ParseOut::Fail { why },
            ParseOut::Done { next: p2, val } => ParseOut::Done {
                next: p2,
                val: SpecEntry::Symlink { target: val },
            },
        },
    }
}

/// The inside of an entry block after its `entry` keyword: parentheses
/// around the child's name and its node.
#[verifier::opaque]
pub open spec fn spec_block_body(s: Seq<u8>, pos: int) -> ParseOut<(Seq<u8>, SpecEntry)>
    decreases s.len() - pos, 0int,
{
    match spec_padded_tag(s, pos, tag_open()) {
        ParseOut::Incomplete { need } => ParseOut::Incomplete { need },
        ParseOut::Fail { why } => ParseOut::Fail { why },
        ParseOut::Done { next: p1, .. } => match spec_padded_tag(s, p1, tag_name()) {
            ParseOut::Incomplete { need } => ParseOut::Incomplete { need },
            ParseOut::Fail { why } => ParseOut::Fail { why },
            ParseOut::Done { next: p2, .. } => match spec_padded_bytes(s, p2) {
                ParseOut::Incomplete { need } => ParseOut::Incomplete { need },
                ParseOut::Fail { why } => ParseOut::Fail { why },
                ParseOut::Done { next: p3, val: name } => match spec_padded_tag(s, p3, tag_node()) {
                    ParseOut::Incomplete { need } => ParseOut::Incomplete { need },
                    ParseOut::Fail { why } => ParseOut::Fail { why },
                    ParseOut::Done { next: p4, .. } => match spec_entry(s, p4) {
                        ParseOut::Incomplete { need } => ParseOut::Incomplete { need },
                        ParseOut::Fail { why } => ParseOut::Fail { why },
                        ParseOut::Done { next: p5, val: node } => match spec_padded_tag(
                            s,
                            p5,
                            tag_close(),
                        ) {
                            ParseOut::Incomplete { need } => ParseOut::Incomplete { need },
                            ParseOut::Fail { why } => ParseOut::Fail { why },
                            ParseOut::Done { next: p6, .. } => ParseOut::Done {
                                next: p6,
                                val: (name, node),
                            },
                        },
                    },
                },
            },
        },
    }
}

/// A directory's block list from `pos`: zero or more entry blocks. No count
/// is encoded; the list ends at the first position where the next token is
/// not `entry`. Blocks decode in input order: the block at the head of the
/// input is the head of the sequence.
#[verifier::opaque]
pub open spec fn spec_dir_blocks(s: Seq<u8>, pos: int) -> ParseOut<Seq<(Seq<u8>, SpecEntry)>>
    decreases s.len() - pos, 1int,
{
    match spec_padded_tag(s, pos, tag_entry()) {
        ParseOut::Fail { .. } => ParseOut::Done { next: pos, val: Seq::empty() },
        ParseOut::Incomplete { need } => ParseOut::Incomplete { need },
        ParseOut::Done { next: p1, .. } => match spec_block_body(s, p1) {
            ParseOut::Incomplete { need } => ParseOut::Incomplete { need },
            ParseOut::Fail { why } => ParseOut::Fail { why },
            ParseOut::Done { next: p2, val: nv } => if pos < p2 <= s.len() {
                match spec_dir_blocks(s, p2) {
                    ParseOut::Incomplete { need } => ParseOut::Incomplete { need },
                    ParseOut::Fail { why } => ParseOut::Fail { why },
                    ParseOut::Done { next: p3, val: rest } => ParseOut::Done {
                        next: p3,
                        val: seq![nv] + rest,
                    },
                }
            } else {
                // A decoded block always advances the position, since its
                // framing alone spans several fields; this branch cannot be
                // reached and only keeps the recursion visibly well-founded.
                ParseOut::Fail { why: NarError::TagMismatch }
            },
        },
    }
}

/// A directory, after `type directory`: just its block list.
#[verifier::opaque]
pub open spec fn spec_directory(s: Seq<u8>, pos: int) -> ParseOut<SpecEntry>
    decreases s.len() - pos, 2int,
{
    match spec_dir_blocks(s, pos) {
        ParseOut::Incomplete { need } => ParseOut::Incomplete { need },
        ParseOut::Fail { why } => ParseOut::Fail { why },
        ParseOut::Done { next, val } => ParseOut::Done {
            next,
            val: SpecEntry::Directory { entries: val },
        },
    }
}

/// Variant dispatch after the opening parenthesis: the `type` keyword, then
/// the first of `regular`, `symlink`, `directory` whose tag matches wins.
/// If none matches, the production fails with `NoMatchingVariant`.
#[verifier::opaque]
pub open spec fn spec_variants(s: Seq<u8>, pos: int) -> ParseOut<SpecEntry>
    decreases s.len() - pos, 3int,
{
    match spec_padded_tag(s, pos, tag_type()) {
        ParseOut::Incomplete { need } => ParseOut::Incomplete { need },
        ParseOut::Fail { why } => ParseOut::Fail { why },
        ParseOut::Done { next: p1, .. } => match spec_padded_tag(s, p1, tag_regular()) {
            ParseOut::Incomplete { need } => ParseOut::Incomplete { need },
            ParseOut::Done { next: p2, .. } => spec_regular(s, p2),
            ParseOut::Fail { .. } => match spec_padded_tag(s, p1, tag_symlink()) {
                ParseOut::Incomplete { need } => ParseOut::Incomplete { need },
                ParseOut::Done { next: p2, .. } => spec_symlink(s, p2),
                ParseOut::Fail { .. } => match spec_padded_tag(s, p1, tag_directory()) {
                    ParseOut::Incomplete { need } => ParseOut::Incomplete { need },
                    ParseOut::Done { next: p2, .. } => spec_directory(s, p2),
                    ParseOut::Fail { .. } => ParseOut::Fail {
                        why: NarError::NoMatchingVariant,
                    },
                },
            },
        },
    }
}

/// One tree node: parentheses around one of the three variants.
#[verifier::opaque]
pub open spec fn spec_entry(s: Seq<u8>, pos: int) -> ParseOut<SpecEntry>
    decreases s.len() - pos, 4int,
{
    match spec_padded_tag(s, pos, tag_open()) {
        ParseOut::Incomplete { need } => ParseOut::Incomplete { need },
        ParseOut::Fail { why } => ParseOut::Fail { why },
        ParseOut::Done { next: p1, .. } => match spec_variants(s, p1) {
            ParseOut::Incomplete { need } => ParseOut::Incomplete { need },
            ParseOut::Fail { why } => ParseOut::Fail { why },
            ParseOut::Done { next: p2, val } => match spec_padded_tag(s, p2, tag_close()) {
                ParseOut::Incomplete { need } => ParseOut::Incomplete { need },
                ParseOut::Fail { why } => ParseOut::Fail { why },
                ParseOut::Done { next: p3, .. } => ParseOut::Done { next: p3, val },
            },
        },
    }
}

/// The whole archive: the magic header, then one entry. Trailing bytes
/// after the entry are left unconsumed.
#[verifier::opaque]
pub open spec fn spec_nar(s: Seq<u8>) -> ParseOut<SpecEntry> {
    match spec_padded_tag(s, 0, tag_magic()) {
        ParseOut::Incomplete { need } => ParseOut::Incomplete { need },
        ParseOut::Fail { why } => ParseOut::Fail { why },
        ParseOut::Done { next: p1, .. } => spec_entry(s, p1),
    }
}

/// How an executable node parser reports the outcome of its spec
/// production: on success the returned tree is well-formed over the buffer,
/// models exactly the production's value, and the returned position is the
/// production's; every failure carries the production's reason.
pub open spec fn node_result(
    o: ParseOut<SpecEntry>,
    r: Result<(usize, Entry), NarError>,
    s: Seq<u8>,
    pos: int,
) -> bool {
    match r {
        Ok(p) => {
            &&& entry_wf(p.1, s)
            &&& o == (ParseOut::Done { next: p.0 as int, val: entry_view(p.1, s) })
            &&& pos <= p.0 <= s.len()
        },
        Err(e) => parse_failed(o, e),
    }
}

/// Prefixing already-decoded blocks onto the outcome of the remaining block
/// list.
pub open spec fn prepend_blocks(
    pre: Seq<(Seq<u8>, SpecEntry)>,
    o: ParseOut<Seq<(Seq<u8>, SpecEntry)>>,
) -> ParseOut<Seq<(Seq<u8>, SpecEntry)>> {
    match o {
        ParseOut::Done { next, val } => ParseOut::Done { next, val: pre + val },
        ParseOut::Incomplete { need } => ParseOut::Incomplete { need },
        ParseOut::Fail { why } => ParseOut::Fail { why },
    }
}

fn regular_contents(i: &[u8], pos: usize, executable: bool) -> (r: Result<
    (usize, Entry),
    NarError,
>)
    requires
        pos <= i@.len(),
    ensures
        node_result(spec_regular_contents(i@, pos as int, executable), r, i@, pos as int),
{
    reveal(spec_regular_contents);
    match match_contents(i, pos) {
        Err(e) => Err(e),
        Ok(p1) => match padded_bytes(i, p1) {
            Err(e) => Err(e),
            Ok((p2, rng)) => Ok((p2, Entry::Regular(executable, rng))),
        },
    }
}

fn regular(i: &[u8], pos: usize) -> (r: Result<(usize, Entry), NarError>)
    requires
        pos <= i@.len(),
    ensures
        node_result(spec_regular(i@, pos as int), r, i@, pos as int),
{
    reveal(spec_regular);
    match match_executable(i, pos) {
        Err(NarError::Incomplete(n)) => Err(NarError::Incomplete(n)),
        Err(_) => regular_contents(i, pos, false),
        Ok(p1) => match match_empty(i, p1) {
            Err(e) => Err(e),
            Ok(p2) => regular_contents(i, p2, true),
        },
    }
}

fn symlink(i: &[u8], pos: usize) -> (r: Result<(usize, Entry), NarError>)
    requires
        pos <= i@.len(),
    ensures
        node_result(spec_symlink(i@, pos as int), r, i@, pos as int),
{
    reveal(spec_symlink);
    match match_target(i, pos) {
        Err(e) => Err(e),
        Ok(p1) => match padded_bytes(i, p1) {
            Err(e) => Err(e),
            Ok((p2, rng)) => Ok((p2, Entry::Symlink(rng))),
        },
    }
}

#[verifier::rlimit(100)]
#[verifier::spinoff_prover]
fn block_body(i: &[u8], pos: usize) -> (r: Result<(usize, (ByteRange, Entry)), NarError>)
    requires
        pos <= i@.len(),
    ensures
        match r {
            Ok(p) => {
                &&& p.1.0.wf(i@)
                &&& entry_wf(p.1.1, i@)
                &&& spec_block_body(i@, pos as int) == (ParseOut::Done {
                    next: p.0 as int,
                    val: (p.1.0.slice_of(i@), entry_view(p.1.1, i@)),
                })
                &&& pos < p.0 <= i@.len()
            },
            Err(e) => parse_failed(spec_block_body(i@, pos as int), e),
        },
    decreases i@.len() - pos,
{
    proof {
        reveal_with_fuel(spec_block_body, 2);
    }
    match match_open(i, pos) {
        Err(e) => Err(e),
        Ok(p1) => match match_name(i, p1) {
            Err(e) => Err(e),
            Ok(p2) => match padded_bytes(i, p2) {
                Err(e) => Err(e),
                Ok((p3, name)) => match match_node(i, p3) {
                    Err(e) => Err(e),
                    Ok(p4) => match entry(i, p4) {
                        Err(e) => Err(e),
                        Ok((p5, node)) => match match_close(i, p5) {
                            Err(e) => Err(e),
                            Ok(p6) => Ok((p6, (name, node))),
                        },
                    },
                },
            },
        },
    }
}

#[verifier::rlimit(100)]
#[verifier::spinoff_prover]
fn directory(i: &[u8], pos: usize) -> (r: Result<(usize, Entry), NarError>)
    requires
        pos <= i@.len(),
    ensures
        node_result(spec_directory(i@, pos as int), r, i@, pos as int),
    decreases i@.len() - pos,
{
    let ghost pos0 = pos as int;
    let ilen = i.len();
    let mut cur: usize = pos;
    let mut es: Vec<(ByteRange, Entry)> = Vec::new();
    proof {
        reveal_with_fuel(spec_directory, 2);
        reveal_with_fuel(spec_dir_blocks, 2);
        assert(i@.len() == ilen as int);
        assert(entries_view(es@, i@) =~= Seq::<(Seq<u8>, SpecEntry)>::empty());
        if let ParseOut::Done { val, .. } = spec_dir_blocks(i@, pos0) {
            assert(entries_view(es@, i@) + val =~= val);
        }
    }
    loop
        invariant
            pos0 == pos as int,
            pos <= i@.len(),
            pos0 <= cur <= i@.len(),
            i@.len() <= usize::MAX,
            entries_wf(es@, i@),
            spec_dir_blocks(i@, pos0) == prepend_blocks(
                entries_view(es@, i@),
                spec_dir_blocks(i@, cur as int),
            ),
        decreases i@.len() - cur,
    {
        proof {
            reveal_with_fuel(spec_directory, 2);
            reveal_with_fuel(spec_dir_blocks, 2);
        }
        match match_entry(i, cur) {
            Err(NarError::Incomplete(n)) => {
                return Err(NarError::Incomplete(n));
            },
            Err(_) => {
                // The next token is not `entry`: the block list ends here.
                proof {
                    assert(spec_dir_blocks(i@, cur as int) == (ParseOut::Done {
                        next: cur as int,
                        val: Seq::<(Seq<u8>, SpecEntry)>::empty(),
                    }));
                    assert(entries_view(es@, i@) + Seq::<(Seq<u8>, SpecEntry)>::empty()
                        =~= entries_view(es@, i@));
                }
                return Ok((cur, Entry::Directory(es)));
            },
            Ok(p1) => {
                match block_body(i, p1) {
                    Err(e) => {
                        return Err(e);
                    },
                    Ok((p2, pair)) => {
                        proof {
                            lemma_entries_push(es@, pair, i@);
                            let pv = (pair.0.slice_of(i@), entry_view(pair.1, i@));
                            let rest_out = spec_dir_blocks(i@, p2 as int);
                            assert(spec_dir_blocks(i@, cur as int) == prepend_blocks(
                                seq![pv],
                                rest_out,
                            ));
                            if let ParseOut::Done { val: rest, .. } = rest_out {
                                assert(entries_view(es@, i@).push(pv) + rest =~= entries_view(
                                    es@,
                                    i@,
                                ) + (seq![pv] + rest));
                            }
                        }
                        es.push(pair);
                        cur = p2;
                    },
                }
            },
        }
    }
}

#[verifier::rlimit(100)]
#[verifier::spinoff_prover]
fn variants(i: &[u8], pos: usize) -> (r: Result<(usize, Entry), NarError>)
    requires
        pos <= i@.len(),
    ensures
        node_result(spec_variants(i@, pos as int), r, i@, pos as int),
    decreases i@.len() - pos,
{
    proof {
        reveal_with_fuel(spec_variants, 2);
    }
    match match_type(i, pos) {
        Err(e) => Err(e),
        Ok(p1) => match match_regular(i, p1) {
            Err(NarError::Incomplete(n)) => Err(NarError::Incomplete(n)),
            Ok(p2) => regular(i, p2),
            Err(_) => match match_symlink(i, p1) {
                Err(NarError::Incomplete(n)) => Err(NarError::Incomplete(n)),
                Ok(p2) => symlink(i, p2),
                Err(_) => match match_directory(i, p1) {
                    Err(NarError::Incomplete(n)) => Err(NarError::Incomplete(n)),
                    Ok(p2) => directory(i, p2),
                    Err(_) => Err(NarError::NoMatchingVariant),
                },
            },
        },
    }
}

#[verifier::rlimit(100)]
#[verifier::spinoff_prover]
fn entry(i: &[u8], pos: usize) -> (r: Result<(usize, Entry), NarError>)
    requires
        pos <= i@.len(),
    ensures
        node_result(spec_entry(i@, pos as int), r, i@, pos as int),
    decreases i@.len() - pos,
{
    proof {
        reveal_with_fuel(spec_entry, 2);
    }
    match match_open(i, pos) {
        Err(e) => Err(e),
        Ok(p1) => match variants(i, p1) {
            Err(e) => Err(e),
            Ok((p2, node)) => match match_close(i, p2) {
                Err(e) => Err(e),
                Ok(p3) => Ok((p3, node)),
            },
        },
    }
}

/// Decodes a whole archive from the start of `i`: the magic header, then
/// the tree. On success the returned offset is the first unconsumed byte;
/// the returned tree holds ranges into `i` and models exactly what the
/// grammar says the bytes encode.
pub fn nar(i: &[u8]) -> (r: Result<(usize, Entry), NarError>)
    ensures
        node_result(spec_nar(i@), r, i@, 0),
{
    reveal(spec_nar);
    match match_magic(i, 0) {
        Err(e) => Err(e),
        Ok(p1) => entry(i, p1),
    }
}

} // verus!
