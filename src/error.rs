use vstd::prelude::*;

verus! {

/// What can end a session with a failure.
#[derive(Clone, Copy, Debug, PartialEq, Eq, Structural)]
pub enum HexError {
    /// A character that is neither a hex digit nor a separator that may be skipped.
    MalformedInput(char),
    /// The session ended with an unpaired hex digit.
    OddLength,
    /// The downstream consumer closed the output stream.
    BrokenPipe,
    /// Any other failure to read a source or to write the sink.
    IoFailure,
}

/// The error reported for an offending input byte.
pub open spec fn malformed(c: u8) -> HexError {
    HexError::MalformedInput(c as char)
}

/// Error for an offending input byte, carrying the byte as a character.
pub fn malformed_input(c: u8) -> (r: HexError)
    ensures
        r == malformed(c),
{
    HexError::MalformedInput(c as char)
}

/// Treats a closed downstream consumer as a normal end: `Err(BrokenPipe)`
/// becomes `Ok(())`, every other outcome is passed on unchanged.
pub fn filter_broken_pipe(r: Result<(), HexError>) -> (res: Result<(), HexError>)
    ensures
        res == (match r {
            Err(HexError::BrokenPipe) => Ok(()),
            other => other,
        }),
{
    match r {
        Err(HexError::BrokenPipe) => Ok(()),
        other => other,
    }
}

} // verus!
