use vstd::prelude::*;
use vstd::string::StringSliceAdditionalSpecFns;
use vstd::utf8::is_char_boundary;

verus! {

/// A half-open byte range `from..to` into a source string.
#[derive(Debug, Copy, Clone, PartialEq, Eq, Structural)]
pub struct Span {
    pub from: usize,
    pub to: usize,
}

impl Span {
    pub fn new(from: usize, to: usize) -> (span: Self)
        ensures
            span.from == from,
            span.to == to,
    {
        Span { from, to }
    }

    /// Number of bytes the span covers.
    pub fn len(&self) -> (n: usize)
        requires
            self.from <= self.to,
        ensures
            n == self.to - self.from,
    {
        self.to - self.from
    }

    /// The bytes of `source` that the span covers.
    pub open spec fn spec_select(self, source: Seq<u8>) -> Seq<u8> {
        source.subrange(self.from as int, self.to as int)
    }

    /// The part of `source` that the span covers.  Both ends must lie on
    /// character boundaries of `source`.
    pub fn select<'a>(&self, source: &'a str) -> (part: &'a str)
        requires
            self.from <= self.to,
            self.to <= source.spec_bytes().len(),
            is_char_boundary(source.spec_bytes(), self.from as int),
            is_char_boundary(source.spec_bytes(), self.to as int),
        ensures
            part.spec_bytes() == self.spec_select(source.spec_bytes()),
    {
        let ghost bytes = source.spec_bytes();
        let (_, rest) = source.split_at(self.from);
        proof {
            vstd::utf8::encode_utf8_valid_utf8(source@);
            boundary_after_split(bytes, self.from as int, self.to as int);
        }
        let (part, _) = rest.split_at(self.to - self.from);
        assert(part.spec_bytes() =~= bytes.subrange(self.from as int, self.to as int));
        part
    }
}

/// A character boundary at `to` is still one after cutting off the text before
/// the boundary `from`.
proof fn boundary_after_split(bytes: Seq<u8>, from: int, to: int)
    requires
        vstd::utf8::valid_utf8(bytes),
        0 <= from <= to <= bytes.len(),
        is_char_boundary(bytes, from),
        is_char_boundary(bytes, to),
    ensures
        is_char_boundary(bytes.subrange(from, bytes.len() as int), to - from),
{
    let rest = bytes.subrange(from, bytes.len() as int);
    vstd::utf8::valid_utf8_split(bytes, from);
    vstd::utf8::is_char_boundary_start_end_of_seq(rest);
    if 0 < to - from < rest.len() {
        vstd::utf8::is_char_boundary_iff_not_is_continuation_byte(bytes, to);
        vstd::utf8::is_char_boundary_iff_not_is_continuation_byte(rest, to - from);
    }
}

} // verus!
