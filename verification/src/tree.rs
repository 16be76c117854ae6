//! The decoded tree: the executable `Entry` holding ranges into the decoded
//! buffer, and its mathematical shadow `SpecEntry` holding the byte
//! sequences those ranges designate.
use crate::primitives::ByteRange;
use vstd::prelude::*;

verus! {

broadcast use vstd::std_specs::vec::group_vec_axioms;

/// The mathematical model of one decoded filesystem node. Where the
/// executable tree stores a range into the buffer, the model stores the
/// bytes themselves.
pub enum SpecEntry {
    Regular { executable: bool, contents: Seq<u8> },
    Symlink { target: Seq<u8> },
    Directory { entries: Seq<(Seq<u8>, SpecEntry)> },
}

/// One decoded filesystem node. Names, link targets and file contents are
/// `ByteRange` views into the buffer the tree was decoded from — never
/// copies — so the tree is only meaningful alongside that buffer.
#[derive(Debug, PartialEq, Eq)]
pub enum Entry {
    /// A regular file: whether the `executable` marker was present, and the
    /// range of its contents.
    Regular(bool, ByteRange),
    /// A symbolic link: the range of its raw target bytes.
    Symlink(ByteRange),
    /// A directory: its named children, in the exact order they appear in
    /// the byte stream.
    Directory(Vec<(ByteRange, Entry)>),
}

/// What `e` denotes over the buffer `s`: every range replaced by the bytes
/// it designates.
pub open spec fn entry_view(e: Entry, s: Seq<u8>) -> SpecEntry
    decreases e,
{
    match e {
        Entry::Regular(x, r) => SpecEntry::Regular { executable: x, contents: r.slice_of(s) },
        Entry::Symlink(r) => SpecEntry::Symlink { target: r.slice_of(s) },
        Entry::Directory(es) => SpecEntry::Directory { entries: entries_view(es@, s) },
    }
}

/// The models of a directory's children, in order.
pub open spec fn entries_view(es: Seq<(ByteRange, Entry)>, s: Seq<u8>) -> Seq<(Seq<u8>, SpecEntry)>
    decreases es,
{
    if es.len() == 0 {
        Seq::empty()
    } else {
        entries_view(es.drop_last(), s).push(
            (es.last().0.slice_of(s), entry_view(es.last().1, s)),
        )
    }
}

/// Every range in the tree lies inside `s`.
pub open spec fn entry_wf(e: Entry, s: Seq<u8>) -> bool
    decreases e,
{
    match e {
        Entry::Regular(_, r) => r.wf(s),
        Entry::Symlink(r) => r.wf(s),
        Entry::Directory(es) => entries_wf(es@, s),
    }
}

/// Every range under a directory's children lies inside `s`.
pub open spec fn entries_wf(es: Seq<(ByteRange, Entry)>, s: Seq<u8>) -> bool
    decreases es,
{
    if es.len() == 0 {
        true
    } else {
        entries_wf(es.drop_last(), s) && es.last().0.wf(s) && entry_wf(es.last().1, s)
    }
}

/// Appending a child to a directory's children appends its model to the
/// children's model, and keeps well-formedness exactly when the new child
/// is well-formed.
pub proof fn lemma_entries_push(es: Seq<(ByteRange, Entry)>, p: (ByteRange, Entry), s: Seq<u8>)
    ensures
        entries_view(es.push(p), s) == entries_view(es, s).push(
            (p.0.slice_of(s), entry_view(p.1, s)),
        ),
        entries_wf(es.push(p), s) <==> (entries_wf(es, s) && p.0.wf(s) && entry_wf(p.1, s)),
{
    assert(es.push(p).drop_last() =~= es);
    assert(es.push(p).last() == p);
}

} // verus!
