//! The fixed ASCII literals that frame the archive grammar, and one
//! executable matcher for each. Every matcher is the keyword matcher of
//! `primitives` applied to one literal.
use crate::outcome::{tag_result, NarError};
use crate::primitives::{padded_tag, spec_padded_tag};
use vstd::prelude::*;

verus! {

pub open spec fn tag_open() -> Seq<u8> {
    seq![40u8]
}

pub open spec fn tag_close() -> Seq<u8> {
    seq![41u8]
}

pub open spec fn tag_type() -> Seq<u8> {
    seq![116u8, 121, 112, 101]
}

pub open spec fn tag_regular() -> Seq<u8> {
    seq![114u8, 101, 103, 117, 108, 97, 114]
}

pub open spec fn tag_symlink() -> Seq<u8> {
    seq![115u8, 121, 109, 108, 105, 110, 107]
}

pub open spec fn tag_directory() -> Seq<u8> {
    seq![100u8, 105, 114, 101, 99, 116, 111, 114, 121]
}

pub open spec fn tag_executable() -> Seq<u8> {
    seq![101u8, 120, 101, 99, 117, 116, 97, 98, 108, 101]
}

/// The empty literal, used as the trailing value of the executable marker.
pub open spec fn tag_empty() -> Seq<u8> {
    Seq::<u8>::empty()
}

pub open spec fn tag_contents() -> Seq<u8> {
    seq![99u8, 111, 110, 116, 101, 110, 116, 115]
}

pub open spec fn tag_target() -> Seq<u8> {
    seq![116u8, 97, 114, 103, 101, 116]
}

pub open spec fn tag_name() -> Seq<u8> {
    seq![110u8, 97, 109, 101]
}

pub open spec fn tag_node() -> Seq<u8> {
    seq![110u8, 111, 100, 101]
}

pub open spec fn tag_entry() -> Seq<u8> {
    seq![101u8, 110, 116, 114, 121]
}

/// The archive magic header.
pub open spec fn tag_magic() -> Seq<u8> {
    seq![110u8, 105, 120, 45, 97, 114, 99, 104, 105, 118, 101, 45, 49]
}

pub fn match_open(i: &[u8], pos: usize) -> (r: Result<usize, NarError>)
    requires
        pos <= i@.len(),
    ensures
        tag_result(spec_padded_tag(i@, pos as int, tag_open()), r),
{
    let t: [u8; 1] = [40];
    let r = padded_tag(i, pos, t.as_slice());
    proof {
        assert(t@ =~= tag_open());
    }
    r
}

pub fn match_close(i: &[u8], pos: usize) -> (r: Result<usize, NarError>)
    requires
        pos <= i@.len(),
    ensures
        tag_result(spec_padded_tag(i@, pos as int, tag_close()), r),
{
    let t: [u8; 1] = [41];
    let r = padded_tag(i, pos, t.as_slice());
    proof {
        assert(t@ =~= tag_close());
    }
    r
}

pub fn match_type(i: &[u8], pos: usize) -> (r: Result<usize, NarError>)
    requires
        pos <= i@.len(),
    ensures
        tag_result(spec_padded_tag(i@, pos as int, tag_type()), r),
{
    let t: [u8; 4] = [116, 121, 112, 101];
    let r = padded_tag(i, pos, t.as_slice());
    proof {
        assert(t@ =~= tag_type());
    }
    r
}

pub fn match_regular(i: &[u8], pos: usize) -> (r: Result<usize, NarError>)
    requires
        pos <= i@.len(),
    ensures
        tag_result(spec_padded_tag(i@, pos as int, tag_regular()), r),
{
    let t: [u8; 7] = [114, 101, 103, 117, 108, 97, 114];
    let r = padded_tag(i, pos, t.as_slice());
    proof {
        assert(t@ =~= tag_regular());
    }
    r
}

pub fn match_symlink(i: &[u8], pos: usize) -> (r: Result<usize, NarError>)
    requires
        pos <= i@.len(),
    ensures
        tag_result(spec_padded_tag(i@, pos as int, tag_symlink()), r),
{
    let t: [u8; 7] = [115, 121, 109, 108, 105, 110, 107];
    let r = padded_tag(i, pos, t.as_slice());
    proof {
        assert(t@ =~= tag_symlink());
    }
    r
}

pub fn match_directory(i: &[u8], pos: usize) -> (r: Result<usize, NarError>)
    requires
        pos <= i@.len(),
    ensures
        tag_result(spec_padded_tag(i@, pos as int, tag_directory()), r),
{
    let t: [u8; 9] = [100, 105, 114, 101, 99, 116, 111, 114, 121];
    let r = padded_tag(i, pos, t.as_slice());
    proof {
        assert(t@ =~= tag_directory());
    }
    r
}

pub fn match_executable(i: &[u8], pos: usize) -> (r: Result<usize, NarError>)
    requires
        pos <= i@.len(),
    ensures
        tag_result(spec_padded_tag(i@, pos as int, tag_executable()), r),
{
    let t: [u8; 10] = [101, 120, 101, 99, 117, 116, 97, 98, 108, 101];
    let r = padded_tag(i, pos, t.as_slice());
    proof {
        assert(t@ =~= tag_executable());
    }
    r
}

pub fn match_empty(i: &[u8], pos: usize) -> (r: Result<usize, NarError>)
    requires
        pos <= i@.len(),
    ensures
        tag_result(spec_padded_tag(i@, pos as int, tag_empty()), r),
{
    let t: [u8; 0] = [];
    let r = padded_tag(i, pos, t.as_slice());
    proof {
        assert(t@ =~= tag_empty());
    }
    r
}

pub fn match_contents(i: &[u8], pos: usize) -> (r: Result<usize, NarError>)
    requires
        pos <= i@.len(),
    ensures
        tag_result(spec_padded_tag(i@, pos as int, tag_contents()), r),
{
    let t: [u8; 8] = [99, 111, 110, 116, 101, 110, 116, 115];
    let r = padded_tag(i, pos, t.as_slice());
    proof {
        assert(t@ =~= tag_contents());
    }
    r
}

pub fn match_target(i: &[u8], pos: usize) -> (r: Result<usize, NarError>)
    requires
        pos <= i@.len(),
    ensures
        tag_result(spec_padded_tag(i@, pos as int, tag_target()), r),
{
    let t: [u8; 6] = [116, 97, 114, 103, 101, 116];
    let r = padded_tag(i, pos, t.as_slice());
    proof {
        assert(t@ =~= tag_target());
    }
    r
}

pub fn match_name(i: &[u8], pos: usize) -> (r: Result<usize, NarError>)
    requires
        pos <= i@.len(),
    ensures
        tag_result(spec_padded_tag(i@, pos as int, tag_name()), r),
{
    let t: [u8; 4] = [110, 97, 109, 101];
    let r = padded_tag(i, pos, t.as_slice());
    proof {
        assert(t@ =~= tag_name());
    }
    r
}

pub fn match_node(i: &[u8], pos: usize) -> (r: Result<usize, NarError>)
    requires
        pos <= i@.len(),
    ensures
        tag_result(spec_padded_tag(i@, pos as int, tag_node()), r),
{
    let t: [u8; 4] = [110, 111, 100, 101];
    let r = padded_tag(i, pos, t.as_slice());
    proof {
        assert(t@ =~= tag_node());
    }
    r
}

pub fn match_entry(i: &[u8], pos: usize) -> (r: Result<usize, NarError>)
    requires
        pos <= i@.len(),
    ensures
        tag_result(spec_padded_tag(i@, pos as int, tag_entry()), r),
{
    let t: [u8; 5] = [101, 110, 116, 114, 121];
    let r = padded_tag(i, pos, t.as_slice());
    proof {
        assert(t@ =~= tag_entry());
    }
    r
}

pub fn match_magic(i: &[u8], pos: usize) -> (r: Result<usize, NarError>)
    requires
        pos <= i@.len(),
    ensures
        tag_result(spec_padded_tag(i@, pos as int, tag_magic()), r),
{
    let t: [u8; 13] = [110, 105, 120, 45, 97, 114, 99, 104, 105, 118, 101, 45, 49];
    let r = padded_tag(i, pos, t.as_slice());
    proof {
        assert(t@ =~= tag_magic());
    }
    r
}

} // verus!
