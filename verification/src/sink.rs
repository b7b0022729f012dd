//! Where renderers put their bytes.
use vstd::prelude::*;

use crate::render::text::TextRenderError;

verus! {

/// A destination for rendered bytes.
///
/// `Vec<u8>` is one; a program that streams to a file or a terminal wraps its
/// writer in a type of its own that implements this trait.
pub trait ByteSink {
    /// True when `written` tracks what the sink received. A sink that does
    /// not say so promises nothing about its contents.
    open spec fn tracks_output() -> bool {
        false
    }

    /// Everything written so far, for a sink that tracks its output.
    open spec fn written(&self) -> Seq<u8> {
        Seq::empty()
    }

    /// True when writes to this sink always succeed.
    open spec fn never_fails() -> bool {
        false
    }

    /// Whether this sink, as it stands, may answer `r` to a write of `data`.
    /// A sink that does not say allows any answer.
    open spec fn answers(&self, data: Seq<u8>, r: Result<(), TextRenderError>) -> bool {
        true
    }

    /// Appends `data`.
    fn write_bytes(&mut self, data: &[u8]) -> (r: Result<(), TextRenderError>)
        ensures
            old(self).answers(data@, r),
            Self::tracks_output() && r is Ok ==> final(self).written() == old(self).written()
                + data@,
            Self::never_fails() ==> r is Ok,
    ;
}

impl ByteSink for Vec<u8> {
    open spec fn tracks_output() -> bool {
        true
    }

    open spec fn written(&self) -> Seq<u8> {
        self@
    }

    open spec fn never_fails() -> bool {
        true
    }

    open spec fn answers(&self, data: Seq<u8>, r: Result<(), TextRenderError>) -> bool {
        r is Ok
    }

    fn write_bytes(&mut self, data: &[u8]) -> (r: Result<(), TextRenderError>) {
        let n = data.len();
        let ghost start = self@;
        let mut i: usize = 0;
        while i < n
            invariant
                n == data@.len(),
                i <= n,
                self@ == start + data@.subrange(0, i as int),
            decreases n - i,
        {
            self.push(data[i]);
            i = i + 1;
            assert(data@.subrange(0, i as int) =~= data@.subrange(0, i - 1).push(data@[i - 1]));
        }
        assert(data@.subrange(0, n as int) =~= data@);
        Ok(())
    }
}

} // verus!
