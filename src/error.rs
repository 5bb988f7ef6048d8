use vstd::prelude::*;

verus! {

/// Why a decode failed. Every failure is a deterministic function of the
/// bytes that were read.
#[derive(Clone, Copy, Debug, PartialEq, Eq, Structural)]
pub enum DecodeError {
    /// The bytes ended before a field or a value did.
    TruncatedInput,
    /// Bad magic string, page size, or another fixed header field.
    MalformedHeader,
    /// A B-tree page starts with a tag that names no page type.
    UnknownPageType(u8),
    /// A page's declared offsets run past the page's physical end.
    PageTooShort,
    /// A cell could not be decoded from its byte window.
    InvalidCell,
    /// A record column uses serial type 10 or 11.
    ReservedSerialType(u64),
    /// A record's body is shorter or longer than its serial types demand.
    ColumnCountMismatch,
    /// A schema catalog row is not a five-column row with an integer root page.
    MalformedSchemaRow,
    /// A page number is zero or lies past the end of the file.
    PageOutOfRange(u32),
    /// A table B-tree is deeper than any well-formed file allows, or is not
    /// a table B-tree where one was expected.
    CorruptTree,
}

/// `Ok(s + t)` where `r` is `Ok(t)`; `r` itself where it is an error. The
/// decoders that gather a sequence item by item are specified with it.
pub open spec fn prepend_ok<A>(s: Seq<A>, r: Result<Seq<A>, DecodeError>) -> Result<
    Seq<A>,
    DecodeError,
> {
    match r {
        Ok(t) => Ok(s + t),
        Err(e) => Err(e),
    }
}

/// Prepending twice is prepending the concatenation.
pub proof fn lemma_prepend_ok_assoc<A>(a: Seq<A>, b: Seq<A>, r: Result<Seq<A>, DecodeError>)
    ensures
        prepend_ok(a, prepend_ok(b, r)) == prepend_ok(a + b, r),
{
    if let Ok(t) = r {
        assert(a + (b + t) == (a + b) + t);
    }
}

} // verus!
