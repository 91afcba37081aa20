//! Searching a run of bytes, and the bytes of ASCII text.

use vstd::prelude::*;
use vstd::string::StringSliceAdditionalSpecFns;

verus! {

/// The bytes of ASCII text: one byte for each character.
pub open spec fn ascii_bytes(text: Seq<char>) -> Seq<u8> {
    text.map_values(|c: char| c as u8)
}

/// `needle` stands in `hay` at position `at`.
pub open spec fn occurs_at(hay: Seq<u8>, needle: Seq<u8>, at: int) -> bool {
    &&& 0 <= at
    &&& at + needle.len() <= hay.len()
    &&& hay.subrange(at, at + needle.len()) == needle
}

/// `needle` stands somewhere in `hay`.
pub open spec fn contains_run(hay: Seq<u8>, needle: Seq<u8>) -> bool {
    exists|at: int| occurs_at(hay, needle, at)
}

/// The bytes of text that is known to be ASCII.
pub(crate) fn bytes_of_ascii(text: &str) -> (bytes: &[u8])
    requires
        text.is_ascii(),
    ensures
        bytes@ == ascii_bytes(text@),
{
    let bytes = text.as_bytes();
    proof {
        vstd::string::is_ascii_spec_bytes(text);
        assert(text.spec_bytes() =~= ascii_bytes(text@));
    }
    bytes
}

/// Whether `needle` stands in `hay` at `at`.
pub(crate) fn bytes_occur_at(hay: &[u8], needle: &[u8], at: usize) -> (found: bool)
    requires
        at + needle.len() <= hay.len(),
    ensures
        found == occurs_at(hay@, needle@, at as int),
{
    let hay_len = hay.len();
    let mut j: usize = 0;
    while j < needle.len()
        invariant
            j <= needle.len(),
            hay_len == hay@.len(),
            at + needle@.len() <= hay@.len(),
            forall|k: int| 0 <= k < j ==> hay@[at + k] == needle@[k],
        decreases needle.len() - j,
    {
        if hay[at + j] != needle[j] {
            assert(hay@.subrange(at as int, at + needle@.len())[j as int] != needle@[j as int]);
            return false;
        }
        j += 1;
    }
    assert(hay@.subrange(at as int, at + needle@.len()) =~= needle@);
    true
}

/// Whether `needle` stands somewhere in `hay`. The empty run stands in every
/// run.
pub fn contains_bytes(hay: &[u8], needle: &[u8]) -> (found: bool)
    ensures
        found == contains_run(hay@, needle@),
{
    if needle.len() == 0 {
        assert(occurs_at(hay@, needle@, 0)) by {
            assert(hay@.subrange(0, 0) =~= needle@);
        }
        return true;
    }
    if needle.len() > hay.len() {
        return false;
    }
    let starts: usize = hay.len() - needle.len() + 1;
    let mut at: usize = 0;
    while at < starts
        invariant
            at <= starts,
            starts == hay@.len() - needle@.len() + 1,
            forall|k: int| 0 <= k < at ==> !occurs_at(hay@, needle@, k),
        decreases starts - at,
    {
        if bytes_occur_at(hay, needle, at) {
            return true;
        }
        at += 1;
    }
    false
}

} // verus!
