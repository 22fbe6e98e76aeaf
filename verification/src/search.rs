//! Substring containment over byte sequences.
//!
//! The protocol recognises its sentinel tokens by containment in the
//! engine's receive accumulator, never by exact match, so that a token
//! split across several reads, or surrounded by chatter, is still found.

use vstd::prelude::*;

verus! {

/// `needle` occurs contiguously somewhere in `hay`.
pub open spec fn contains_seq(hay: Seq<u8>, needle: Seq<u8>) -> bool {
    exists|i: int|
        0 <= i && i + needle.len() <= hay.len() && (#[trigger] hay.subrange(i, i + needle.len()))
            == needle
}

/// The chunks of `chunks`, joined front to back.
pub open spec fn concat_all(chunks: Seq<Seq<u8>>) -> Seq<u8>
    decreases chunks.len(),
{
    if chunks.len() == 0 {
        Seq::<u8>::empty()
    } else {
        chunks[0] + concat_all(chunks.drop_first())
    }
}

/// A sequence that embeds `needle` between any two flanks contains it.
pub proof fn lemma_contains_embedded(before: Seq<u8>, needle: Seq<u8>, after: Seq<u8>)
    ensures
        contains_seq(before + needle + after, needle),
{
    let i = before.len() as int;
    assert((before + needle + after).subrange(i, i + needle.len() as int) =~= needle);
}

/// `hay` matches `needle` exactly at offset `at`.
fn match_at(hay: &[u8], needle: &[u8], at: usize) -> (matched: bool)
    requires
        at + needle@.len() <= hay@.len(),
    ensures
        matched == (hay@.subrange(at as int, at + needle@.len()) == needle@),
{
    let hl = hay.len();
    let n = needle.len();
    let mut j: usize = 0;
    while j < n
        invariant
            n == needle@.len(),
            hl == hay@.len(),
            at + n <= hay@.len(),
            j <= n,
            forall|k: int| 0 <= k < j ==> hay@[at + k] == needle@[k],
        decreases n - j,
    {
        if hay[at + j] != needle[j] {
            proof {
                assert(hay@.subrange(at as int, at + needle@.len())[j as int] == hay@[at + j]);
            }
            return false;
        }
        j += 1;
    }
    proof {
        assert(hay@.subrange(at as int, at + needle@.len()) =~= needle@);
    }
    true
}

/// Substring search, the way the engine looks for sentinel tokens.
pub fn contains_bytes(hay: &[u8], needle: &[u8]) -> (found: bool)
    ensures
        found == contains_seq(hay@, needle@),
{
    let hlen = hay.len();
    let nlen = needle.len();
    if nlen == 0 {
        proof {
            assert(hay@.subrange(0, 0 + needle@.len() as int) =~= needle@);
        }
        return true;
    }
    if nlen > hlen {
        return false;
    }
    let mut i: usize = 0;
    while i <= hlen - nlen
        invariant
            hlen == hay@.len(),
            nlen == needle@.len(),
            1 <= nlen <= hlen,
            i <= hlen - nlen + 1,
            forall|k: int|
                0 <= k < i ==> (#[trigger] hay@.subrange(k, k + needle@.len())) != needle@,
        decreases hlen - nlen + 1 - i,
    {
        if match_at(hay, needle, i) {
            return true;
        }
        i += 1;
    }
    false
}

/// Append every byte of `src` to `dst`, the way the accumulator grows.
pub fn push_all(dst: &mut Vec<u8>, src: &[u8])
    ensures
        final(dst)@ == old(dst)@ + src@,
{
    let n = src.len();
    let mut k: usize = 0;
    while k < n
        invariant
            n == src@.len(),
            k <= n,
            dst@ == old(dst)@ + src@.take(k as int),
        decreases n - k,
    {
        dst.push(src[k]);
        k += 1;
        proof {
            assert(old(dst)@ + src@.take(k as int) =~= (old(dst)@ + src@.take(k - 1)).push(
                src@[k - 1],
            ));
        }
    }
    proof {
        assert(old(dst)@ + src@.take(n as int) =~= old(dst)@ + src@);
    }
}

/// A fresh vector holding the same bytes.
pub fn copy_bytes(src: &[u8]) -> (copy: Vec<u8>)
    ensures
        copy@ == src@,
{
    let mut copy: Vec<u8> = Vec::new();
    push_all(&mut copy, src);
    copy
}

} // verus!
