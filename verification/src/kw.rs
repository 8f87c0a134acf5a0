//! The fixed words of the markup language, as byte sequences, with
//! executable recognizers proved against them.

use vstd::prelude::*;

use crate::util::bytes_eq;

verus! {

pub open spec fn kw_begin() -> Seq<u8> {
    seq![98u8, 101, 103, 105, 110]
}

pub open spec fn kw_end() -> Seq<u8> {
    seq![101u8, 110, 100]
}

pub open spec fn kw_setup() -> Seq<u8> {
    seq![115u8, 101, 116, 117, 112]
}

pub open spec fn kw_document() -> Seq<u8> {
    seq![100u8, 111, 99, 117, 109, 101, 110, 116]
}

pub open spec fn kw_python() -> Seq<u8> {
    seq![112u8, 121, 116, 104, 111, 110]
}

pub open spec fn kw_documentclass() -> Seq<u8> {
    seq![100u8, 111, 99, 117, 109, 101, 110, 116, 99, 108, 97, 115, 115]
}

pub open spec fn kw_title() -> Seq<u8> {
    seq![116u8, 105, 116, 108, 101]
}

pub open spec fn kw_author() -> Seq<u8> {
    seq![97u8, 117, 116, 104, 111, 114]
}

pub open spec fn kw_matrix() -> Seq<u8> {
    seq![109u8, 97, 116, 114, 105, 120]
}

pub open spec fn kw_sum() -> Seq<u8> {
    seq![115u8, 117, 109]
}

pub open spec fn kw_fraction() -> Seq<u8> {
    seq![102u8, 114, 97, 99, 116, 105, 111, 110]
}

pub fn is_begin(w: &[u8]) -> (r: bool)
    ensures
        r <==> w@ == kw_begin(),
{
    let a: [u8; 5] = [98, 101, 103, 105, 110];
    let r = bytes_eq(w, a.as_slice());
    proof {
        assert(a@ =~= kw_begin());
    }
    r
}

pub fn is_end(w: &[u8]) -> (r: bool)
    ensures
        r <==> w@ == kw_end(),
{
    let a: [u8; 3] = [101, 110, 100];
    let r = bytes_eq(w, a.as_slice());
    proof {
        assert(a@ =~= kw_end());
    }
    r
}

pub fn is_setup(w: &[u8]) -> (r: bool)
    ensures
        r <==> w@ == kw_setup(),
{
    let a: [u8; 5] = [115, 101, 116, 117, 112];
    let r = bytes_eq(w, a.as_slice());
    proof {
        assert(a@ =~= kw_setup());
    }
    r
}

pub fn is_document(w: &[u8]) -> (r: bool)
    ensures
        r <==> w@ == kw_document(),
{
    let a: [u8; 8] = [100, 111, 99, 117, 109, 101, 110, 116];
    let r = bytes_eq(w, a.as_slice());
    proof {
        assert(a@ =~= kw_document());
    }
    r
}

pub fn is_python(w: &[u8]) -> (r: bool)
    ensures
        r <==> w@ == kw_python(),
{
    let a: [u8; 6] = [112, 121, 116, 104, 111, 110];
    let r = bytes_eq(w, a.as_slice());
    proof {
        assert(a@ =~= kw_python());
    }
    r
}

pub fn is_documentclass(w: &[u8]) -> (r: bool)
    ensures
        r <==> w@ == kw_documentclass(),
{
    let a: [u8; 13] = [100, 111, 99, 117, 109, 101, 110, 116, 99, 108, 97, 115, 115];
    let r = bytes_eq(w, a.as_slice());
    proof {
        assert(a@ =~= kw_documentclass());
    }
    r
}

pub fn is_title(w: &[u8]) -> (r: bool)
    ensures
        r <==> w@ == kw_title(),
{
    let a: [u8; 5] = [116, 105, 116, 108, 101];
    let r = bytes_eq(w, a.as_slice());
    proof {
        assert(a@ =~= kw_title());
    }
    r
}

pub fn is_author(w: &[u8]) -> (r: bool)
    ensures
        r <==> w@ == kw_author(),
{
    let a: [u8; 6] = [97, 117, 116, 104, 111, 114];
    let r = bytes_eq(w, a.as_slice());
    proof {
        assert(a@ =~= kw_author());
    }
    r
}

pub fn is_matrix(w: &[u8]) -> (r: bool)
    ensures
        r <==> w@ == kw_matrix(),
{
    let a: [u8; 6] = [109, 97, 116, 114, 105, 120];
    let r = bytes_eq(w, a.as_slice());
    proof {
        assert(a@ =~= kw_matrix());
    }
    r
}

pub fn is_sum(w: &[u8]) -> (r: bool)
    ensures
        r <==> w@ == kw_sum(),
{
    let a: [u8; 3] = [115, 117, 109];
    let r = bytes_eq(w, a.as_slice());
    proof {
        assert(a@ =~= kw_sum());
    }
    r
}

pub fn is_fraction(w: &[u8]) -> (r: bool)
    ensures
        r <==> w@ == kw_fraction(),
{
    let a: [u8; 8] = [102, 114, 97, 99, 116, 105, 111, 110];
    let r = bytes_eq(w, a.as_slice());
    proof {
        assert(a@ =~= kw_fraction());
    }
    r
}

} // verus!
