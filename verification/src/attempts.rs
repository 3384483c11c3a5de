//! The choice of names that nothing has yet.

use vstd::prelude::*;

use crate::error::{failure, AppError, Outcome, Result};

verus! {

/// How the creation of a file or directory under a new name ended.
#[derive(Clone, Debug, PartialEq, Eq)]
pub enum CreationReply {
    /// It was created.
    Created,
    /// Something has that name already.
    Taken,
    /// It cannot be created; the text says why.
    Failed(String),
}

/// What follows an attempt.
#[derive(Clone, Copy, Debug, PartialEq, Eq, Structural)]
pub enum NextAttempt {
    /// The name is found.
    Finished,
    /// Another name is tried; the number counts the attempts that were made.
    Again(u32),
}

/// What follows an attempt when others were made before, and the message when
/// nothing does.
pub open spec fn after_attempt(
    made: u32,
    limit: u32,
    reply: CreationReply,
    exhausted: Seq<char>,
) -> Outcome<NextAttempt> {
    match reply {
        CreationReply::Created => Ok(NextAttempt::Finished),
        CreationReply::Failed(message) => Err(message@),
        CreationReply::Taken => if made + 1 < limit {
            Ok(NextAttempt::Again((made + 1) as u32))
        } else {
            Err(exhausted)
        },
    }
}

/// Decide what follows an attempt.
pub fn next_attempt(made: u32, limit: u32, reply: CreationReply, exhausted: &str) -> (result: Result<
    NextAttempt,
>)
    ensures
        match result {
            Ok(next) => after_attempt(made, limit, reply, exhausted@) == Ok::<
                NextAttempt,
                Seq<char>,
            >(next),
            Err(error) => after_attempt(made, limit, reply, exhausted@) == Err::<
                NextAttempt,
                Seq<char>,
            >(error@),
        },
{
    match reply {
        CreationReply::Created => Ok(NextAttempt::Finished),
        CreationReply::Failed(message) => Err(AppError::new(message)),
        CreationReply::Taken => if limit > 0 && made < limit - 1 {
            Ok(NextAttempt::Again(made + 1))
        } else {
            Err(failure(exhausted))
        },
    }
}

/// The attempts that are made when every name is taken.
pub open spec fn after_collisions(count: nat, limit: u32, exhausted: Seq<char>) -> Outcome<
    NextAttempt,
>
    decreases count,
{
    if count == 0 {
        Ok(NextAttempt::Again(0))
    } else {
        match after_collisions((count - 1) as nat, limit, exhausted) {
            Ok(NextAttempt::Again(made)) => after_attempt(
                made,
                limit,
                CreationReply::Taken,
                exhausted,
            ),
            other => other,
        }
    }
}

/// When every name is taken, names are tried up to the limit and no further.
pub proof fn attempts_are_limited(count: nat, limit: u32, exhausted: Seq<char>)
    requires
        limit > 0,
    ensures
        after_collisions(count, limit, exhausted) == if count < limit {
            Ok(NextAttempt::Again(count as u32))
        } else {
            Err::<NextAttempt, Seq<char>>(exhausted)
        },
    decreases count,
{
    if count > 0 {
        attempts_are_limited((count - 1) as nat, limit, exhausted);
    }
}

} // verus!
