//! Writing a value together with the identifier of its concrete type: a map
//! with one entry, whose key is the identifier and whose value is the value's
//! own encoding.
//!
//! The protocol is a transition function. A driver holds the encoder: it does
//! what the state asks for, reports whether the encoder took it, and goes on
//! with the state that `step` returns, until that state is final.

use vstd::prelude::*;

verus! {

/// A value of an interface, `trait_object`, with the identifier `id` of its
/// concrete type.
pub struct SerializeTraitObject<'o, I, O: ?Sized> {
    pub id: I,
    pub trait_object: &'o O,
}

/// Why an encode failed.
pub enum EncodeError<E> {
    /// The encoder refused the map, the identifier or the value.
    Encoder(E),
    /// The driver reported what the state did not await.
    OutOfTurn,
}

/// How far an encode has come, and with it what the driver is to do next.
pub enum WriteState<E> {
    /// The driver opens a map and announces `ENTRIES` entries.
    OpenMap,
    /// The driver writes the entry: the identifier as key, the value's own
    /// encoding as value.
    WriteEntry,
    /// The driver closes the map.
    CloseMap,
    /// The encode is over.
    Done,
    /// The encode is over, and failed.
    Failed { error: EncodeError<E> },
}

/// The number of entries in the map that carries a value.
pub const ENTRIES: usize = 1;

/// The state after the driver reports `outcome` for what `state` asked for.
pub open spec fn next_write<E>(state: WriteState<E>, outcome: Result<(), E>) -> WriteState<E> {
    match state {
        WriteState::Failed { error } => WriteState::Failed { error },
        _ => match outcome {
            Err(error) => WriteState::Failed { error: EncodeError::Encoder(error) },
            Ok(_) => match state {
                WriteState::OpenMap => WriteState::WriteEntry,
                WriteState::WriteEntry => WriteState::CloseMap,
                WriteState::CloseMap => WriteState::Done,
                _ => WriteState::Failed { error: EncodeError::OutOfTurn },
            },
        },
    }
}

/// The state after the outcomes of `outcomes`, one after the other.
pub open spec fn run_write<E>(state: WriteState<E>, outcomes: Seq<Result<(), E>>) -> WriteState<E>
    decreases outcomes.len(),
{
    if outcomes.len() == 0 {
        state
    } else {
        run_write(next_write(state, outcomes[0]), outcomes.drop_first())
    }
}

/// The entries that stand in the map once the encode of `id` and `payload` has
/// come to `state`: none before the entry is written, and after it the one
/// entry of `id` and `payload`.
pub open spec fn written<I, P, E>(state: WriteState<E>, id: I, payload: P) -> Seq<(I, P)> {
    match state {
        WriteState::CloseMap | WriteState::Done => seq![(id, payload)],
        _ => Seq::empty(),
    }
}

impl<'o, I, O: ?Sized> SerializeTraitObject<'o, I, O> {
    /// The state in which an encode starts.
    pub fn start<E>(&self) -> (state: WriteState<E>)
        ensures
            state == WriteState::<E>::OpenMap,
    {
        WriteState::OpenMap
    }

    /// The state after the driver reports `outcome` for what `state` asked for.
    pub fn step<E>(&self, state: WriteState<E>, outcome: Result<(), E>) -> (next: WriteState<E>)
        ensures
            next == next_write(state, outcome),
    {
        match state {
            WriteState::Failed { error } => WriteState::Failed { error },
            _ => match outcome {
                Err(error) => WriteState::Failed { error: EncodeError::Encoder(error) },
                Ok(_) => match state {
                    WriteState::OpenMap => WriteState::WriteEntry,
                    WriteState::WriteEntry => WriteState::CloseMap,
                    WriteState::CloseMap => WriteState::Done,
                    _ => WriteState::Failed { error: EncodeError::OutOfTurn },
                },
            },
        }
    }

    /// What the encode ended with. A state that is not final gives the error
    /// of a driver out of turn.
    pub fn finish<E>(&self, state: WriteState<E>) -> (r: Result<(), EncodeError<E>>)
        ensures
            r == match state {
                WriteState::Done => Ok::<(), EncodeError<E>>(()),
                WriteState::Failed { error } => Err(error),
                _ => Err(EncodeError::OutOfTurn),
            },
    {
        match state {
            WriteState::Done => Ok(()),
            WriteState::Failed { error } => Err(error),
            _ => Err(EncodeError::OutOfTurn),
        }
    }
}

/// An encode whose three steps the encoder takes writes one entry, and that
/// entry is the identifier with the value; it asks for the map to be opened,
/// for the entry and for the map to be closed, in this order.
pub proof fn law_encode_writes_one_entry<I, P, E>(id: I, payload: P)
    ensures
        next_write(WriteState::<E>::OpenMap, Ok(())) == WriteState::<E>::WriteEntry,
        next_write(WriteState::<E>::WriteEntry, Ok(())) == WriteState::<E>::CloseMap,
        next_write(WriteState::<E>::CloseMap, Ok(())) == WriteState::<E>::Done,
        run_write(WriteState::<E>::OpenMap, seq![Ok(()), Ok(()), Ok(())]) == WriteState::<E>::Done,
        written(WriteState::<E>::Done, id, payload) == seq![(id, payload)],
{
    let outcomes = seq![Ok::<(), E>(()), Ok(()), Ok(())];
    let tail = outcomes.drop_first();
    let last = tail.drop_first();
    assert(last.drop_first().len() == 0);
    assert(run_write(WriteState::<E>::Done, last.drop_first()) == WriteState::<E>::Done);
    assert(run_write(WriteState::<E>::CloseMap, last) == WriteState::<E>::Done);
    assert(run_write(WriteState::<E>::WriteEntry, tail) == WriteState::<E>::Done);
}

/// An encode that has failed stays failed, with the error it failed with.
pub proof fn law_encode_failure_is_final<E>(error: EncodeError<E>, outcomes: Seq<Result<(), E>>)
    ensures
        run_write(WriteState::Failed { error }, outcomes) == (WriteState::Failed { error }),
    decreases outcomes.len(),
{
    if outcomes.len() > 0 {
        law_encode_failure_is_final(error, outcomes.drop_first());
    }
}

/// The first step that the encoder refuses ends the encode with the
/// encoder's error, whatever is reported after it.
pub proof fn law_encode_stops_at_refusal<E>(
    state: WriteState<E>,
    error: E,
    rest: Seq<Result<(), E>>,
)
    requires
        !(state is Failed),
    ensures
        run_write(state, seq![Err(error)] + rest) == (WriteState::Failed {
            error: EncodeError::Encoder(error),
        }),
{
    let outcomes = seq![Err::<(), E>(error)] + rest;
    assert(outcomes.drop_first() =~= rest);
    law_encode_failure_is_final(EncodeError::Encoder(error), rest);
}

} // verus!
