//! Parsing of the configured memory ceiling from a human-readable size
//! string such as `"16GB"` or `"1000MB"`.

use vstd::prelude::*;
use vstd::string::StringExecFns;

verus! {

/// What the size-string parser of the `byte_unit` crate yields for a given
/// input, truncated to 64 bits; `None` where it rejects the input.
pub uninterp spec fn parsed_memory(s: Seq<char>) -> Option<u64>;

/// The size parser's own description of why it rejected the input,
/// meaningful where `parsed_memory` is `None`.
pub uninterp spec fn parse_error_text(s: Seq<char>) -> Seq<char>;

/// Relies on `byte_unit::Byte::from_str` and `byte_unit::Byte::get_bytes`:
/// parsing a size string into its byte count (decimal units for `KB`/`MB`/
/// `GB`, binary for `KiB`/`MiB`/`GiB`), and on `byte_unit::ByteError`'s
/// `Display` for the description of a rejected input. Both results depend
/// on the characters of the input alone, and no input makes them panic.
#[verifier::external_body]
fn byte_unit_parse(s: &str) -> (r: Result<u64, String>)
    ensures
        match r {
            Ok(n) => parsed_memory(s@) == Some(n),
            Err(e) => parsed_memory(s@) is None && e@ == parse_error_text(s@),
        },
{
    match byte_unit::Byte::from_str(s) {
        Ok(b) => Ok(b.get_bytes() as u64),
        Err(e) => Err(e.to_string()),
    }
}

/// Parses a memory-size string into a byte count. Returns `Ok` exactly on
/// the inputs the size parser accepts; otherwise the error names the
/// failure and carries the parser's own description of it.
pub fn parse_memory(mem_str: &str) -> (r: Result<u64, String>)
    ensures
        (r is Ok) <==> (parsed_memory(mem_str@) is Some),
        r is Ok ==> parsed_memory(mem_str@) == Some(r->Ok_0),
        r is Err ==> (r->Err_0)@ == "Failed to parse memory size: "@ + parse_error_text(mem_str@),
{
    match byte_unit_parse(mem_str) {
        Ok(n) => Ok(n),
        Err(e) => {
            let mut msg = String::from_str("Failed to parse memory size: ");
            msg.append(e.as_str());
            Err(msg)
        },
    }
}

} // verus!
