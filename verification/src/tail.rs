//! The tail cursor: an incremental read position over an append-only text.
//!
//! The cursor itself holds only the offset of the first character it has not
//! yet handed out. Callers pass in the text's current content; the real file
//! handle, and the read that fetches the content, live with the caller.

use vstd::prelude::*;
use vstd::string::StrSliceExecFns;
use vstd::string::StringExecFns;

verus! {

/// A read offset into an append-only text, advanced by every drain.
pub struct TailCursor {
    offset: usize,
}

impl TailCursor {
    /// The number of characters already consumed.
    pub closed spec fn offset(&self) -> int {
        self.offset as int
    }

    /// A fresh cursor that has consumed nothing.
    pub fn new() -> (c: TailCursor)
        ensures
            c.offset() == 0,
    {
        TailCursor { offset: 0 }
    }

    /// Establishes the baseline: everything currently in `content` is treated
    /// as already consumed, so only later appends count as new.
    pub fn seek_to_end(&mut self, content: &str)
        ensures
            final(self).offset() == content@.len(),
    {
        self.offset = content.unicode_len();
    }

    /// Appends to `buf` exactly the characters of `content` beyond the last
    /// drain (or the baseline), and advances the cursor to the current end,
    /// so that an immediate second drain of the same content appends nothing.
    ///
    /// The text must not have shrunk since the last drain; a truncated or
    /// replaced log is outside this cursor's contract.
    pub fn drain_new(&mut self, content: &str, buf: &mut String)
        requires
            old(self).offset() <= content@.len(),
        ensures
            final(self).offset() == content@.len(),
            old(self).offset() <= final(self).offset(),
            final(buf)@ == old(buf)@ + content@.subrange(old(self).offset(), content@.len() as int),
    {
        let n = content.unicode_len();
        let piece = content.substring_char(self.offset, n);
        buf.append(piece);
        self.offset = n;
    }
}

/// Draining after one external append yields exactly the appended text, and
/// a drain that follows with no further growth yields nothing: the drained
/// ranges of consecutive drains tile the text without gap or overlap.
pub proof fn lemma_drain_exactly_once(base: Seq<char>, appended: Seq<char>)
    ensures
        (base + appended).subrange(base.len() as int, (base + appended).len() as int)
            == appended,
        (base + appended).subrange((base + appended).len() as int, (base + appended).len() as int)
            == Seq::<char>::empty(),
{
    assert((base + appended).subrange(base.len() as int, (base + appended).len() as int)
        =~= appended);
    assert((base + appended).subrange((base + appended).len() as int, (base + appended).len() as int)
        =~= Seq::<char>::empty());
}

} // verus!
