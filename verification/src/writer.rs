//! The writer state threaded through every renderer: output buffer, borrowed
//! source bytes, skip budget, and the diagnostics sink.

use vstd::prelude::*;
use vstd::string::StringExecFns;
use vstd::utf8::valid_utf8;

verus! {

/// The line-break byte appended after each fully rendered leaf statement.
pub const NEWLINE: u8 = 10;

/// The one fatal error: a byte range of the source cannot be interpreted as
/// valid text.
#[derive(Clone, Copy, PartialEq, Eq, Structural, Debug)]
pub enum EncodingError {
    InvalidByteSequence,
}

/// Names the renderer that reported a structural surprise.
#[derive(Clone, Copy, PartialEq, Eq, Structural, Debug)]
pub enum RendererId {
    Assertion,
    HardcodedSymbol,
}

impl RendererId {
    /// The renderer's name as the diagnostics channel prints it.
    pub open spec fn spec_name(self) -> Seq<char> {
        match self {
            RendererId::Assertion => "write_assertion"@,
            RendererId::HardcodedSymbol => "write_hardcoded_symbol"@,
        }
    }

    /// The renderer's name as the diagnostics channel prints it.
    pub fn name(&self) -> (s: &'static str)
        ensures
            s@ == self.spec_name(),
    {
        match self {
            RendererId::Assertion => "write_assertion",
            RendererId::HardcodedSymbol => "write_hardcoded_symbol",
        }
    }
}

/// One structural surprise: a child of the named kind was not anticipated by
/// the named renderer, was skipped, and produced no output.
pub struct Diagnostic {
    pub kind_name: String,
    pub renderer: RendererId,
}

impl Diagnostic {
    /// The advisory message carried by the diagnostics channel, naming the
    /// unexpected kind and the renderer that skipped it.
    pub fn message(&self) -> (m: String)
        ensures
            m@ == "Unexpected kind "@ + self.kind_name@ + " in "@ + self.renderer.spec_name()
                + "."@,
    {
        let mut m = String::new();
        m.append("Unexpected kind ");
        m.append(self.kind_name.as_str());
        m.append(" in ");
        m.append(self.renderer.name());
        m.append(".");
        proof {
            assert(m@ =~= "Unexpected kind "@ + self.kind_name@ + " in "@
                + self.renderer.spec_name() + "."@);
        }
        m
    }
}

/// The shared mutable state of one formatting pass over one file: the
/// append-only output buffer, the borrowed source bytes for verbatim
/// slicing, the pending skip count of siblings already consumed by a prior
/// renderer's lookahead, and the structural-surprise diagnostics.
pub struct Writer<'s> {
    pub output: Vec<u8>,
    pub source: &'s [u8],
    pub skip: usize,
    pub diagnostics: Vec<Diagnostic>,
}

/// Relies on core::str::from_utf8: it returns Ok exactly when the bytes are
/// a valid UTF-8 encoding, which is what vstd's valid_utf8 states.
#[verifier::external_body]
fn utf8_check(bytes: &[u8]) -> (r: bool)
    ensures
        r == valid_utf8(bytes@),
{
    core::str::from_utf8(bytes).is_ok()
}

impl<'s> Writer<'s> {
    /// A fresh writer over the given source: empty output, no pending skip,
    /// no diagnostics.
    pub fn new(source: &'s [u8]) -> (w: Writer<'s>)
        ensures
            w.output@ == Seq::<u8>::empty(),
            w.source@ == source@,
            w.skip == 0,
            w.diagnostics@ == Seq::<Diagnostic>::empty(),
    {
        Writer { output: Vec::new(), source, skip: 0, diagnostics: Vec::new() }
    }

    /// Appends exactly one line break to the output.
    pub fn breakl(&mut self)
        ensures
            final(self).output@ == old(self).output@ + seq![NEWLINE],
            final(self).source@ == old(self).source@,
            final(self).skip == old(self).skip,
            final(self).diagnostics@ == old(self).diagnostics@,
    {
        self.output.push(NEWLINE);
    }

    /// Appends the source bytes `start..end` to the output, exactly as they
    /// stand, after checking that they are valid text; on invalid bytes the
    /// output is left unchanged and the encoding error is returned.
    pub fn emit_range(&mut self, start: usize, end: usize) -> (res: Result<(), EncodingError>)
        requires
            start <= end <= old(self).source@.len(),
        ensures
            final(self).source@ == old(self).source@,
            final(self).skip == old(self).skip,
            final(self).diagnostics@ == old(self).diagnostics@,
            res is Ok <==> valid_utf8(old(self).source@.subrange(start as int, end as int)),
            res is Ok ==> final(self).output@ == old(self).output@ + old(self).source@.subrange(
                start as int,
                end as int,
            ),
            res is Err ==> final(self).output@ == old(self).output@,
    {
        let valid = utf8_check(&self.source[start..end]);
        if !valid {
            return Err(EncodingError::InvalidByteSequence);
        }
        proof {
            assert(self.source@.subrange(start as int, start as int) =~= Seq::<u8>::empty());
            assert(self.output@ + Seq::<u8>::empty() =~= self.output@);
        }
        let mut k: usize = start;
        while k < end
            invariant
                start <= k <= end <= self.source@.len(),
                self.source@ == old(self).source@,
                self.skip == old(self).skip,
                self.diagnostics@ == old(self).diagnostics@,
                self.output@ == old(self).output@ + self.source@.subrange(start as int, k as int),
            decreases end - k,
        {
            let b = self.source[k];
            self.output.push(b);
            proof {
                assert(self.source@.subrange(start as int, k + 1) =~= self.source@.subrange(
                    start as int,
                    k as int,
                ) + seq![self.source@[k as int]]);
            }
            k = k + 1;
        }
        Ok(())
    }
}

} // verus!
