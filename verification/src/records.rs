//! Firmware records and the source they are drawn from.
//!
//! A firmware image is an ordered sequence of text lines.  Each line is
//! trimmed of surrounding whitespace before use; a line that is blank after
//! trimming is skipped and never transmitted.  The engine consumes the lines
//! through the [`RecordSource`] capability, front to back, exactly once.

use vstd::prelude::*;

verus! {

/// The whitespace bytes that trimming removes: space and the ASCII control
/// range tab through carriage return.
pub open spec fn is_space(b: u8) -> bool {
    b == 32 || (9 <= b && b <= 13)
}

/// `s` with its leading whitespace removed.
pub open spec fn trim_front(s: Seq<u8>) -> Seq<u8>
    decreases s.len(),
{
    if s.len() > 0 && is_space(s[0]) {
        trim_front(s.drop_first())
    } else {
        s
    }
}

/// `s` with its trailing whitespace removed.
pub open spec fn trim_back(s: Seq<u8>) -> Seq<u8>
    decreases s.len(),
{
    if s.len() > 0 && is_space(s.last()) {
        trim_back(s.drop_last())
    } else {
        s
    }
}

/// `s` with whitespace removed from both ends: the record a line denotes.
pub open spec fn trim_spec(s: Seq<u8>) -> Seq<u8> {
    trim_back(trim_front(s))
}

/// A line that denotes no record at all.
pub open spec fn is_blank(s: Seq<u8>) -> bool {
    trim_spec(s).len() == 0
}

/// When the first `k` bytes are whitespace and byte `k` is not (or is past
/// the end), trimming the front drops exactly those `k` bytes.
proof fn lemma_trim_front_skip(s: Seq<u8>, k: int)
    requires
        0 <= k <= s.len(),
        forall|j: int| 0 <= j < k ==> is_space(#[trigger] s[j]),
        k == s.len() || !is_space(s[k]),
    ensures
        trim_front(s) == s.skip(k),
    decreases k,
{
    if k == 0 {
        assert(s.skip(0) =~= s);
    } else {
        lemma_trim_front_skip(s.drop_first(), k - 1);
        assert(s.drop_first().skip(k - 1) =~= s.skip(k));
    }
}

/// When the bytes from `k` on are whitespace and byte `k - 1` is not (or
/// `k` is zero), trimming the back keeps exactly the first `k` bytes.
proof fn lemma_trim_back_take(s: Seq<u8>, k: int)
    requires
        0 <= k <= s.len(),
        forall|j: int| k <= j < s.len() ==> is_space(#[trigger] s[j]),
        k == 0 || !is_space(s[k - 1]),
    ensures
        trim_back(s) == s.take(k),
    decreases s.len(),
{
    if k == s.len() {
        assert(s.take(k) =~= s);
    } else {
        assert(is_space(s.last()));
        lemma_trim_back_take(s.drop_last(), k);
        assert(s.drop_last() =~= s.take(s.len() - 1));
        assert(s.take(s.len() - 1).take(k) =~= s.take(k));
    }
}

/// Whether `b` is whitespace.
pub fn is_space_byte(b: u8) -> (space: bool)
    ensures
        space == is_space(b),
{
    b == 32 || (9 <= b && b <= 13)
}

/// The record a raw line denotes: the line with surrounding whitespace
/// removed.
pub fn trim_bytes(line: &[u8]) -> (trimmed: Vec<u8>)
    ensures
        trimmed@ == trim_spec(line@),
{
    let len = line.len();
    let mut lo: usize = 0;
    while lo < len && is_space_byte(line[lo])
        invariant
            len == line@.len(),
            lo <= len,
            forall|j: int| 0 <= j < lo ==> is_space(#[trigger] line@[j]),
        decreases len - lo,
    {
        lo += 1;
    }
    let mut hi: usize = len;
    while hi > lo && is_space_byte(line[hi - 1])
        invariant
            len == line@.len(),
            lo <= hi <= len,
            forall|j: int| hi <= j < len ==> is_space(#[trigger] line@[j]),
        decreases hi,
    {
        hi -= 1;
    }
    let mut trimmed: Vec<u8> = Vec::new();
    let mut k: usize = lo;
    while k < hi
        invariant
            len == line@.len(),
            lo <= k <= hi <= len,
            trimmed@ == line@.subrange(lo as int, k as int),
        decreases hi - k,
    {
        trimmed.push(line[k]);
        k += 1;
        proof {
            assert(line@.subrange(lo as int, k as int) =~= line@.subrange(
                lo as int,
                k - 1,
            ).push(line@[k - 1]));
        }
    }
    proof {
        lemma_trim_front_skip(line@, lo as int);
        lemma_trim_back_take(line@.skip(lo as int), hi - lo);
        assert(line@.skip(lo as int).take(hi - lo) =~= line@.subrange(lo as int, hi as int));
    }
    trimmed
}

/// The views of a sequence of byte vectors.
pub open spec fn views_of(v: Seq<Vec<u8>>) -> Seq<Seq<u8>> {
    v.map(|i: int, c: Vec<u8>| c@)
}

/// An ordered, finite, forward-only source of raw firmware lines.
///
/// `remaining` is the sequence of lines not yet handed out; `next` yields
/// them in order, `None` once exhausted.  The engine consumes a source
/// exactly once, front to back.
pub trait RecordSource {
    /// The lines this source will still yield, in order.  An
    /// implementation living outside the verifier leaves this at its
    /// default: whatever its file holds, unspecified here.
    open spec fn remaining(&self) -> Seq<Seq<u8>> {
        arbitrary()
    }

    /// The next raw line, or `None` when the source is exhausted.
    fn next(&mut self) -> (line: Option<Vec<u8>>)
        ensures
            (line matches Some(l) ==> old(self).remaining().len() > 0 && l@ == old(
                self,
            ).remaining()[0] && final(self).remaining() == old(self).remaining().drop_first()),
            (line is None ==> old(self).remaining().len() == 0 && final(self).remaining() == old(
                self,
            ).remaining()),
    ;
}

/// A record source over lines held in memory, in file order.
pub struct VecSource {
    pub lines: Vec<Vec<u8>>,
    pub cursor: usize,
}

impl VecSource {
    /// A source that will yield every line of `lines`, front to back.
    pub fn new(lines: Vec<Vec<u8>>) -> (source: VecSource)
        ensures
            source.remaining() == views_of(lines@),
    {
        VecSource { lines, cursor: 0 }
    }
}

impl RecordSource for VecSource {
    open spec fn remaining(&self) -> Seq<Seq<u8>> {
        if self.cursor as int <= self.lines@.len() {
            views_of(self.lines@).skip(self.cursor as int)
        } else {
            Seq::empty()
        }
    }

    fn next(&mut self) -> (line: Option<Vec<u8>>) {
        if self.cursor < self.lines.len() {
            let l = crate::search::copy_bytes(self.lines[self.cursor].as_slice());
            self.cursor = self.cursor + 1;
            proof {
                assert(views_of(old(self).lines@).skip(old(self).cursor as int).drop_first()
                    =~= views_of(self.lines@).skip(self.cursor as int));
            }
            Some(l)
        } else {
            None
        }
    }
}

} // verus!
