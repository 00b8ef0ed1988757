//! What a client can find wrong with a server's answer.

use vstd::prelude::*;

verus! {

/// Why a client gave up on an answer or on a session.
#[derive(Debug)]
pub enum DCClientError {
    /// The server replied that it failed, or replied out of turn.
    ServerError(String),
    /// What came back does not have the hash that was asked for.
    MismatchedHash,
    /// A signature did not verify.
    BadSignature,
    /// A proof did not lead to a signed or proven hash.
    BadProof(String),
    /// The connection ended before all answers had come.
    StreamEnded,
    Other(String),
}

/// What the next item of a stream is: the item, or the news that the
/// stream has ended.
pub fn next_item<T>(next: Option<T>) -> (result: Result<T, DCClientError>)
    ensures
        match next {
            Some(item) => result == Ok::<T, DCClientError>(item),
            None => result matches Err(DCClientError::StreamEnded),
        },
{
    match next {
        Some(item) => Ok(item),
        None => Err(DCClientError::StreamEnded),
    }
}

} // verus!
