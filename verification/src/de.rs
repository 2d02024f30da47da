//! Reading values that travel with the identifier of their concrete type: one
//! such value, a sequence of them, and a mapping with them as keys or values.
//!
//! Each protocol is a transition function. A driver holds the decoder: it does
//! what the state awaits, reports what came of it as an event, and goes on
//! with the state that `step` returns, until that state is final.

use std::collections::HashMap;
use std::hash::Hash;
use std::marker::PhantomData;
use vstd::prelude::*;
use vstd::std_specs::hash::{obeys_key_model, axiom_random_state_builds_valid_hashers};
use vstd::string::StringExecFns;
use crate::id::Key;
use crate::registry::{GetError, Lookup, Registry};
use crate::ser::{written, WriteState};

verus! {

/// What becomes of a value whose identifier the registry does not know.
#[derive(Clone, Copy, PartialEq, Eq, Debug, Structural)]
pub enum Mode {
    /// The decode fails.
    Strict,
    /// The value is read and dropped, and the decode gives no value.
    Permissive,
}

/// Why the decode of one id-value pair failed.
pub enum DecodeError<I, E> {
    /// The registry gave no decode function for the identifier that was read.
    Registry(GetError<I>),
    /// The map did not hold exactly one id-value pair.
    NotOnePair,
    /// The underlying decoder failed while the map was read.
    Format(E),
    /// The decode function that is registered for `id` failed on the value.
    Payload { id: I, error: E },
    /// The driver reported what the state did not await.
    OutOfTurn,
}

/// What the driver reports to the decode of one id-value pair.
pub enum Event<I, V, E> {
    /// The key of the next entry, read as an identifier.
    Key(I),
    /// The map holds an entry that was not read yet.
    More,
    /// The map holds no further entry.
    End,
    /// The value of the entry, decoded with the function that was awaited.
    Value(V),
    /// The value of the entry was read and dropped.
    Skipped,
    /// The underlying decoder or the decode function failed.
    Failure(E),
}

/// How far the decode of one id-value pair has come, and with it what the
/// driver is to do next.
pub enum State<I, F, V, E> {
    /// The driver reads the key of the first entry as an identifier.
    AwaitKey,
    /// The driver decodes the value of the entry with `decode`.
    AwaitValue { id: I, decode: F },
    /// The driver reads the value of the entry and drops it.
    AwaitSkip,
    /// The driver looks whether the map holds a further entry.
    AwaitEnd { value: Option<V> },
    /// The decode is over, with the value of the pair, or with none where the
    /// identifier was unknown and that is no failure.
    Done { value: Option<V> },
    /// The decode is over, and failed.
    Failed { error: DecodeError<I, E> },
}

/// The state after `event`, where `found` is what the registry holds for the
/// identifier that a `Key` event brings.
pub open spec fn next_state<I, F, V, E>(
    found: Lookup<F>,
    mode: Mode,
    state: State<I, F, V, E>,
    event: Event<I, V, E>,
) -> State<I, F, V, E> {
    match state {
        State::Failed { error } => State::Failed { error },
        _ => match event {
            Event::Failure(error) => match state {
                State::AwaitValue { id, decode } => State::Failed {
                    error: DecodeError::Payload { id, error },
                },
                _ => State::Failed { error: DecodeError::Format(error) },
            },
            Event::Key(id) => match state {
                State::AwaitKey => match found {
                    Lookup::Registered(decode) => State::AwaitValue { id, decode },
                    Lookup::MultipleRegistrations => State::Failed {
                        error: DecodeError::Registry(GetError::MultipleRegistrations { id }),
                    },
                    Lookup::NotRegistered => match mode {
                        Mode::Strict => State::Failed {
                            error: DecodeError::Registry(GetError::NotRegistered { id }),
                        },
                        Mode::Permissive => State::AwaitSkip,
                    },
                },
                State::AwaitEnd { value } => State::Failed { error: DecodeError::NotOnePair },
                _ => State::Failed { error: DecodeError::OutOfTurn },
            },
            Event::More => match state {
                State::AwaitEnd { value } => State::Failed { error: DecodeError::NotOnePair },
                _ => State::Failed { error: DecodeError::OutOfTurn },
            },
            Event::End => match state {
                State::AwaitKey => State::Failed { error: DecodeError::NotOnePair },
                State::AwaitEnd { value } => State::Done { value },
                _ => State::Failed { error: DecodeError::OutOfTurn },
            },
            Event::Value(value) => match state {
                State::AwaitValue { id, decode } => State::AwaitEnd { value: Some(value) },
                _ => State::Failed { error: DecodeError::OutOfTurn },
            },
            Event::Skipped => match state {
                State::AwaitSkip => State::AwaitEnd { value: None },
                _ => State::Failed { error: DecodeError::OutOfTurn },
            },
        },
    }
}

/// What `registry` holds for the identifier that `event` brings, where it
/// brings one.
pub open spec fn found_for<R: Registry, V, E>(registry: &R, event: Event<R::Identifier, V, E>) -> Lookup<
    R::DeserializeFn,
> {
    match event {
        Event::Key(id) => registry.lookup(id.segments()),
        _ => Lookup::NotRegistered,
    }
}

/// The state after `event`.
pub fn advance<R: Registry, V, E>(
    registry: &R,
    mode: Mode,
    state: State<R::Identifier, R::DeserializeFn, V, E>,
    event: Event<R::Identifier, V, E>,
) -> (next: State<R::Identifier, R::DeserializeFn, V, E>) where R::DeserializeFn: Copy
    ensures
        next == next_state(found_for(registry, event), mode, state, event),
{
    match state {
        State::Failed { error } => State::Failed { error },
        State::AwaitKey => match event {
            Event::Key(id) => {
                let kept = id.duplicate();
                match registry.get_deserialize_fn(id) {
                    Ok(decode) => State::AwaitValue { id: kept, decode: *decode },
                    Err(GetError::NotRegistered { id }) => match mode {
                        Mode::Strict => State::Failed {
                            error: DecodeError::Registry(GetError::NotRegistered { id }),
                        },
                        Mode::Permissive => State::AwaitSkip,
                    },
                    Err(error) => State::Failed { error: DecodeError::Registry(error) },
                }
            },
            Event::End => State::Failed { error: DecodeError::NotOnePair },
            Event::Failure(error) => State::Failed { error: DecodeError::Format(error) },
            _ => State::Failed { error: DecodeError::OutOfTurn },
        },
        State::AwaitValue { id, decode } => match event {
            Event::Value(value) => State::AwaitEnd { value: Some(value) },
            Event::Failure(error) => State::Failed { error: DecodeError::Payload { id, error } },
            _ => State::Failed { error: DecodeError::OutOfTurn },
        },
        State::AwaitSkip => match event {
            Event::Skipped => State::AwaitEnd { value: None },
            Event::Failure(error) => State::Failed { error: DecodeError::Format(error) },
            _ => State::Failed { error: DecodeError::OutOfTurn },
        },
        State::AwaitEnd { value } => match event {
            Event::End => State::Done { value },
            Event::Key(_) => State::Failed { error: DecodeError::NotOnePair },
            Event::More => State::Failed { error: DecodeError::NotOnePair },
            Event::Failure(error) => State::Failed { error: DecodeError::Format(error) },
            _ => State::Failed { error: DecodeError::OutOfTurn },
        },
        State::Done { value } => match event {
            Event::Failure(error) => State::Failed { error: DecodeError::Format(error) },
            _ => State::Failed { error: DecodeError::OutOfTurn },
        },
    }
}

/// The state after the events of `events`, one after the other.
pub open spec fn run<R: Registry, V, E>(
    registry: &R,
    mode: Mode,
    state: State<R::Identifier, R::DeserializeFn, V, E>,
    events: Seq<Event<R::Identifier, V, E>>,
) -> State<R::Identifier, R::DeserializeFn, V, E>
    decreases events.len(),
{
    if events.len() == 0 {
        state
    } else {
        run(
            registry,
            mode,
            next_state(found_for(registry, events[0]), mode, state, events[0]),
            events.drop_first(),
        )
    }
}

/// What a map that does not hold exactly one id-value pair is met with: the
/// words for what was expected in its place.
pub open spec fn expecting_text(name: Seq<char>) -> Seq<char> {
    "an id-value pair for `Box<dyn "@ + name + ">`"@
}

/// The text of `error`, for an interface that is named `name` and a map that
/// was expected to hold `expecting`.
pub open spec fn error_text<I: Key, E>(error: DecodeError<I, E>, expecting: Seq<char>) -> Seq<char> {
    match error {
        DecodeError::Registry(inner) => inner.message(),
        DecodeError::NotOnePair => expecting,
        DecodeError::Format(_) => "the underlying decoder failed"@,
        DecodeError::Payload { id, error } => "the value for id '"@ + id.debug_text()
            + "' could not be decoded"@,
        DecodeError::OutOfTurn => "the decoder was driven out of turn"@,
    }
}

/// The text of `error`, where a map that is not one id-value pair is met with
/// `expecting`.
pub fn describe<I: Key, E>(error: &DecodeError<I, E>, expecting: String) -> (text: String)
    ensures
        text@ == error_text(*error, expecting@),
{
    match error {
        DecodeError::Registry(inner) => inner.to_string(),
        DecodeError::NotOnePair => expecting,
        DecodeError::Format(_) => String::from_str("the underlying decoder failed"),
        DecodeError::Payload { id, error } => {
            let mut text = String::from_str("the value for id '");
            text.append(id.to_debug().as_str());
            text.append("' could not be decoded");
            text
        },
        DecodeError::OutOfTurn => String::from_str("the decoder was driven out of turn"),
    }
}

/// Reads one value from a map of one id-value pair, with the decode functions
/// of a registry. An identifier that the registry does not know fails the
/// decode.
pub struct DeserializeTraitObject<'r, R>(pub &'r R);

impl<'r, R> Clone for DeserializeTraitObject<'r, R> {
    fn clone(&self) -> (r: Self)
        ensures
            r == *self,
    {
        DeserializeTraitObject(self.0)
    }
}

impl<'r, R> Copy for DeserializeTraitObject<'r, R> {

}

impl<'r, R: Registry> DeserializeTraitObject<'r, R> {
    /// What the decode expects to read.
    pub fn expecting(&self) -> (text: String)
        ensures
            text@ == expecting_text(self.0.trait_object_name()),
    {
        let mut text = String::from_str("an id-value pair for `Box<dyn ");
        text.append(self.0.get_trait_object_name());
        text.append(">`");
        text
    }

    /// The state in which a decode starts.
    pub fn start<V, E>(&self) -> (state: State<R::Identifier, R::DeserializeFn, V, E>)
        ensures
            state == State::<R::Identifier, R::DeserializeFn, V, E>::AwaitKey,
    {
        State::AwaitKey
    }

    /// The state after `event`.
    pub fn step<V, E>(
        &self,
        state: State<R::Identifier, R::DeserializeFn, V, E>,
        event: Event<R::Identifier, V, E>,
    ) -> (next: State<R::Identifier, R::DeserializeFn, V, E>) where R::DeserializeFn: Copy
        ensures
            next == next_state(found_for(self.0, event), Mode::Strict, state, event),
    {
        advance(self.0, Mode::Strict, state, event)
    }

    /// What the decode ended with. A state that is not final, or one that ended
    /// without a value, gives the error of a driver out of turn.
    pub fn finish<V, E>(&self, state: State<R::Identifier, R::DeserializeFn, V, E>) -> (r: Result<
        V,
        DecodeError<R::Identifier, E>,
    >)
        ensures
            r == match state {
                State::Done { value: Some(value) } => Ok::<V, DecodeError<R::Identifier, E>>(value),
                State::Failed { error } => Err(error),
                _ => Err(DecodeError::OutOfTurn),
            },
    {
        match state {
            State::Done { value: Some(value) } => Ok(value),
            State::Failed { error } => Err(error),
            _ => Err(DecodeError::OutOfTurn),
        }
    }

    /// The text of `error`.
    pub fn message<E>(&self, error: &DecodeError<R::Identifier, E>) -> (text: String)
        ensures
            text@ == error_text(*error, expecting_text(self.0.trait_object_name())),
    {
        describe(error, self.expecting())
    }
}

/// A decode that has failed stays failed, with the error it failed with,
/// whatever the driver reports after it.
pub proof fn law_failure_is_final<R: Registry, V, E>(
    registry: &R,
    mode: Mode,
    error: DecodeError<R::Identifier, E>,
    events: Seq<Event<R::Identifier, V, E>>,
)
    ensures
        run(registry, mode, State::<R::Identifier, R::DeserializeFn, V, E>::Failed { error }, events)
            == (State::<R::Identifier, R::DeserializeFn, V, E>::Failed { error }),
    decreases events.len(),
{
    if events.len() > 0 {
        law_failure_is_final(registry, mode, error, events.drop_first());
    }
}

/// A map of one pair whose identifier has a decode function gives the value
/// that this function decodes, in either mode.
pub proof fn law_pair_decodes<R: Registry, V, E>(
    registry: &R,
    mode: Mode,
    id: R::Identifier,
    decode: R::DeserializeFn,
    value: V,
)
    requires
        registry.lookup(id.segments()) == Lookup::Registered(decode),
    ensures
        next_state::<R::Identifier, R::DeserializeFn, V, E>(
            registry.lookup(id.segments()),
            mode,
            State::AwaitKey,
            Event::Key(id),
        ) == (State::<R::Identifier, R::DeserializeFn, V, E>::AwaitValue { id, decode }),
        run::<R, V, E>(
            registry,
            mode,
            State::AwaitKey,
            seq![Event::Key(id), Event::Value(value), Event::End],
        ) == (State::<R::Identifier, R::DeserializeFn, V, E>::Done { value: Some(value) }),
{
    let events = seq![Event::<R::Identifier, V, E>::Key(id), Event::Value(value), Event::End];
    lemma_run_three(registry, mode, State::<R::Identifier, R::DeserializeFn, V, E>::AwaitKey, events);
}

/// The state after three events, step by step.
proof fn lemma_run_three<R: Registry, V, E>(
    registry: &R,
    mode: Mode,
    state: State<R::Identifier, R::DeserializeFn, V, E>,
    events: Seq<Event<R::Identifier, V, E>>,
)
    requires
        events.len() == 3,
    ensures
        run(registry, mode, state, events) == next_state(
            found_for(registry, events[2]),
            mode,
            next_state(
                found_for(registry, events[1]),
                mode,
                next_state(found_for(registry, events[0]), mode, state, events[0]),
                events[1],
            ),
            events[2],
        ),
{
    let first = next_state(found_for(registry, events[0]), mode, state, events[0]);
    let tail = events.drop_first();
    let second = next_state(found_for(registry, tail[0]), mode, first, tail[0]);
    let last = tail.drop_first();
    let third = next_state(found_for(registry, last[0]), mode, second, last[0]);
    assert(last.drop_first().len() == 0);
    assert(run(registry, mode, third, last.drop_first()) == third);
    assert(run(registry, mode, second, last) == third);
    assert(run(registry, mode, first, tail) == third);
}

/// An identifier that the registry does not know fails a strict decode with
/// `NotRegistered`, whatever follows. A permissive decode reads the value,
/// drops it and ends without a value.
pub proof fn law_unknown_identifier<R: Registry, V, E>(
    registry: &R,
    id: R::Identifier,
    rest: Seq<Event<R::Identifier, V, E>>,
)
    requires
        registry.lookup(id.segments()) is NotRegistered,
    ensures
        run::<R, V, E>(registry, Mode::Strict, State::AwaitKey, seq![Event::Key(id)] + rest) == (State::<
            R::Identifier,
            R::DeserializeFn,
            V,
            E,
        >::Failed { error: DecodeError::Registry(GetError::NotRegistered { id }) }),
        run::<R, V, E>(
            registry,
            Mode::Permissive,
            State::AwaitKey,
            seq![Event::Key(id), Event::Skipped, Event::End],
        ) == (State::<R::Identifier, R::DeserializeFn, V, E>::Done { value: None }),
{
    let events = seq![Event::<R::Identifier, V, E>::Key(id)] + rest;
    assert(events.drop_first() =~= rest);
    law_failure_is_final::<R, V, E>(
        registry,
        Mode::Strict,
        DecodeError::Registry(GetError::NotRegistered { id }),
        rest,
    );
    lemma_run_three::<R, V, E>(
        registry,
        Mode::Permissive,
        State::AwaitKey,
        seq![Event::Key(id), Event::Skipped, Event::End],
    );
}

/// An identifier that was registered more than once fails the decode with
/// `MultipleRegistrations`, in either mode and whatever follows.
pub proof fn law_ambiguous_identifier<R: Registry, V, E>(
    registry: &R,
    mode: Mode,
    id: R::Identifier,
    rest: Seq<Event<R::Identifier, V, E>>,
)
    requires
        registry.lookup(id.segments()) is MultipleRegistrations,
    ensures
        run::<R, V, E>(registry, mode, State::AwaitKey, seq![Event::Key(id)] + rest) == (State::<
            R::Identifier,
            R::DeserializeFn,
            V,
            E,
        >::Failed { error: DecodeError::Registry(GetError::MultipleRegistrations { id }) }),
{
    let events = seq![Event::<R::Identifier, V, E>::Key(id)] + rest;
    assert(events.drop_first() =~= rest);
    law_failure_is_final::<R, V, E>(
        registry,
        mode,
        DecodeError::Registry(GetError::MultipleRegistrations { id }),
        rest,
    );
}

/// A map without an entry fails the decode with `NotOnePair`, whatever the
/// registry holds.
pub proof fn law_empty_map<R: Registry, V, E>(
    registry: &R,
    mode: Mode,
    rest: Seq<Event<R::Identifier, V, E>>,
)
    ensures
        run::<R, V, E>(registry, mode, State::AwaitKey, seq![Event::End] + rest) == (State::<
            R::Identifier,
            R::DeserializeFn,
            V,
            E,
        >::Failed { error: DecodeError::NotOnePair }),
{
    let events = seq![Event::<R::Identifier, V, E>::End] + rest;
    assert(events.drop_first() =~= rest);
    law_failure_is_final::<R, V, E>(registry, mode, DecodeError::NotOnePair, rest);
}

/// A map that holds an entry after its first pair fails the decode with
/// `NotOnePair`, whatever the first pair gave.
pub proof fn law_second_entry<R: Registry, V, E>(
    registry: &R,
    mode: Mode,
    value: Option<V>,
    rest: Seq<Event<R::Identifier, V, E>>,
)
    ensures
        run::<R, V, E>(registry, mode, State::AwaitEnd { value }, seq![Event::More] + rest) == (State::<
            R::Identifier,
            R::DeserializeFn,
            V,
            E,
        >::Failed { error: DecodeError::NotOnePair }),
{
    let events = seq![Event::<R::Identifier, V, E>::More] + rest;
    assert(events.drop_first() =~= rest);
    law_failure_is_final::<R, V, E>(registry, mode, DecodeError::NotOnePair, rest);
}

/// A strict decode ends well on one course of events only: the key of a
/// registered identifier, the value, the end of the map. It then gives that
/// value.
pub proof fn law_strict_success<R: Registry, V, E>(
    registry: &R,
    events: Seq<Event<R::Identifier, V, E>>,
    value: Option<V>,
)
    requires
        run::<R, V, E>(registry, Mode::Strict, State::AwaitKey, events) == (State::<
            R::Identifier,
            R::DeserializeFn,
            V,
            E,
        >::Done { value }),
    ensures
        events.len() == 3,
        events[0] is Key,
        registry.lookup(events[0]->Key_0.segments()) is Registered,
        events[1] is Value,
        events[2] is End,
        value == Some(events[1]->Value_0),
{
    lemma_success(registry, Mode::Strict, events, value);
}

/// A permissive decode ends well on two courses of events only: as a strict
/// one does, or with the key of an unknown identifier, its value dropped, and
/// the end of the map; it then gives no value.
pub proof fn law_permissive_success<R: Registry, V, E>(
    registry: &R,
    events: Seq<Event<R::Identifier, V, E>>,
    value: Option<V>,
)
    requires
        run::<R, V, E>(registry, Mode::Permissive, State::AwaitKey, events) == (State::<
            R::Identifier,
            R::DeserializeFn,
            V,
            E,
        >::Done { value }),
    ensures
        events.len() == 3,
        events[0] is Key,
        events[2] is End,
        match registry.lookup(events[0]->Key_0.segments()) {
            Lookup::Registered(_) => events[1] is Value && value == Some(events[1]->Value_0),
            Lookup::NotRegistered => events[1] is Skipped && value is None,
            Lookup::MultipleRegistrations => false,
        },
{
    lemma_success(registry, Mode::Permissive, events, value);
}

/// The courses of events on which a decode ends well.
proof fn lemma_success<R: Registry, V, E>(
    registry: &R,
    mode: Mode,
    events: Seq<Event<R::Identifier, V, E>>,
    value: Option<V>,
)
    requires
        run::<R, V, E>(registry, mode, State::AwaitKey, events) == (State::<
            R::Identifier,
            R::DeserializeFn,
            V,
            E,
        >::Done { value }),
    ensures
        events.len() == 3,
        events[0] is Key,
        events[2] is End,
        match registry.lookup(events[0]->Key_0.segments()) {
            Lookup::Registered(_) => events[1] is Value && value == Some(events[1]->Value_0),
            Lookup::NotRegistered => mode == Mode::Permissive && events[1] is Skipped && value is None,
            Lookup::MultipleRegistrations => false,
        },
{
    let s0 = State::<R::Identifier, R::DeserializeFn, V, E>::AwaitKey;
    if events.len() == 0 {
        assert(run(registry, mode, s0, events) == s0);
    } else {
        let s1 = next_state(found_for(registry, events[0]), mode, s0, events[0]);
        let e1 = events.drop_first();
        assert(run(registry, mode, s0, events) == run(registry, mode, s1, e1));
        if s1 is Failed {
            law_failure_is_final::<R, V, E>(registry, mode, s1->Failed_error, e1);
        } else if e1.len() == 0 {
            assert(run(registry, mode, s1, e1) == s1);
        } else {
            let s2 = next_state(found_for(registry, e1[0]), mode, s1, e1[0]);
            let e2 = e1.drop_first();
            assert(e1[0] == events[1]);
            assert(run(registry, mode, s1, e1) == run(registry, mode, s2, e2));
            if s2 is Failed {
                law_failure_is_final::<R, V, E>(registry, mode, s2->Failed_error, e2);
            } else if e2.len() == 0 {
                assert(run(registry, mode, s2, e2) == s2);
            } else {
                let s3 = next_state(found_for(registry, e2[0]), mode, s2, e2[0]);
                let e3 = e2.drop_first();
                assert(e2[0] == events[2]);
                assert(run(registry, mode, s2, e2) == run(registry, mode, s3, e3));
                if s3 is Failed {
                    law_failure_is_final::<R, V, E>(registry, mode, s3->Failed_error, e3);
                } else if e3.len() == 0 {
                    assert(run(registry, mode, s3, e3) == s3);
                } else {
                    let s4 = next_state(found_for(registry, e3[0]), mode, s3, e3[0]);
                    assert(s3 is Done);
                    assert(s4 is Failed);
                    assert(run(registry, mode, s3, e3) == run(registry, mode, s4, e3.drop_first()));
                    law_failure_is_final::<R, V, E>(registry, mode, s4->Failed_error, e3.drop_first());
                }
            }
        }
    }
}

/// What the driver reports to the decode of a map that holds `entries`, where
/// each value is decoded without failure: the first pair and whether the map
/// ends after it.
pub open spec fn reading<I, V, E>(entries: Seq<(I, V)>) -> Seq<Event<I, V, E>> {
    if entries.len() == 0 {
        seq![Event::End]
    } else if entries.len() == 1 {
        seq![Event::Key(entries[0].0), Event::Value(entries[0].1), Event::End]
    } else {
        seq![Event::Key(entries[0].0), Event::Value(entries[0].1), Event::More]
    }
}

/// What was written for a value under an identifier that has a decode
/// function is read back as that value, in either mode.
pub proof fn law_round_trip<R: Registry, V, E, W>(
    registry: &R,
    mode: Mode,
    id: R::Identifier,
    decode: R::DeserializeFn,
    value: V,
)
    requires
        registry.lookup(id.segments()) == Lookup::Registered(decode),
    ensures
        run::<R, V, E>(
            registry,
            mode,
            State::AwaitKey,
            reading(written(WriteState::<W>::Done, id, value)),
        ) == (State::<R::Identifier, R::DeserializeFn, V, E>::Done { value: Some(value) }),
{
    let entries = written(WriteState::<W>::Done, id, value);
    assert(entries.len() == 1);
    assert(entries[0] == (id, value));
    law_pair_decodes::<R, V, E>(registry, mode, id, decode, value);
}

/// A map without an entry fails the decode with `NotOnePair`, and so does a
/// map with more than one entry whose first pair was read.
pub proof fn law_not_one_pair<R: Registry, V, E>(
    registry: &R,
    mode: Mode,
    entries: Seq<(R::Identifier, V)>,
)
    requires
        entries.len() != 1,
        entries.len() > 1 ==> registry.lookup(entries[0].0.segments()) is Registered,
    ensures
        run::<R, V, E>(registry, mode, State::AwaitKey, reading(entries)) == (State::<
            R::Identifier,
            R::DeserializeFn,
            V,
            E,
        >::Failed { error: DecodeError::NotOnePair }),
{
    if entries.len() == 0 {
        assert(reading::<R::Identifier, V, E>(entries) =~= seq![Event::End] + Seq::empty());
        law_empty_map::<R, V, E>(registry, mode, Seq::empty());
    } else {
        lemma_run_three::<R, V, E>(registry, mode, State::AwaitKey, reading(entries));
    }
}

/// Why the decode of a sequence or of a mapping failed.
pub enum CollectError<E> {
    /// The underlying decoder, or the decode of an element, failed.
    Failure(E),
    /// The driver reported what the state did not await.
    OutOfTurn,
}

/// What the driver reports to the decode of a sequence.
pub enum SeqEvent<V, E> {
    /// The next element.
    Element(V),
    /// The next element was read, and gave no value.
    Absent,
    /// The sequence holds no further element.
    End,
    /// The underlying decoder, or the decode of an element, failed.
    Failure(E),
}

/// How far the decode of a sequence has come.
pub enum SeqState<V, E> {
    /// The driver reads the next element; `items` came before it.
    Collecting { items: Vec<V> },
    /// The decode is over; `items` are the elements in the order read.
    Done { items: Vec<V> },
    /// The decode is over, and failed.
    Failed { error: CollectError<E> },
}

/// A `SeqState` with its elements as a sequence.
pub ghost enum SeqProgress<V, E> {
    Collecting { items: Seq<V> },
    Done { items: Seq<V> },
    Failed { error: CollectError<E> },
}

impl<V, E> View for SeqState<V, E> {
    type V = SeqProgress<V, E>;

    open spec fn view(&self) -> SeqProgress<V, E> {
        match *self {
            SeqState::Collecting { items } => SeqProgress::Collecting { items: items@ },
            SeqState::Done { items } => SeqProgress::Done { items: items@ },
            SeqState::Failed { error } => SeqProgress::Failed { error },
        }
    }
}

/// The state of a sequence's decode after `event`.
pub open spec fn next_progress<V, E>(state: SeqProgress<V, E>, event: SeqEvent<V, E>) -> SeqProgress<
    V,
    E,
> {
    match state {
        SeqProgress::Failed { error } => SeqProgress::Failed { error },
        SeqProgress::Done { items } => match event {
            SeqEvent::Failure(error) => SeqProgress::Failed { error: CollectError::Failure(error) },
            _ => SeqProgress::Failed { error: CollectError::OutOfTurn },
        },
        SeqProgress::Collecting { items } => match event {
            SeqEvent::Element(value) => SeqProgress::Collecting { items: items.push(value) },
            SeqEvent::Absent => SeqProgress::Collecting { items },
            SeqEvent::End => SeqProgress::Done { items },
            SeqEvent::Failure(error) => SeqProgress::Failed { error: CollectError::Failure(error) },
        },
    }
}

/// The most elements that storage is set aside for before they are read.
pub const PRESIZE_LIMIT: usize = 4096;

impl<V, E> SeqState<V, E> {
    /// The state in which the decode of a sequence starts. `size_hint` is how
    /// many elements the decoder expects, where it says so; it sets storage
    /// aside, up to `PRESIZE_LIMIT` elements, and decides nothing else.
    pub fn start(size_hint: Option<usize>) -> (state: Self)
        ensures
            state@ == (SeqProgress::<V, E>::Collecting { items: Seq::empty() }),
    {
        let items = match size_hint {
            Some(capacity) => Vec::with_capacity(
                if capacity < PRESIZE_LIMIT {
                    capacity
                } else {
                    PRESIZE_LIMIT
                },
            ),
            None => Vec::new(),
        };
        SeqState::Collecting { items }
    }

    /// The state after `event`.
    pub fn step(self, event: SeqEvent<V, E>) -> (next: Self)
        ensures
            next@ == next_progress(self@, event),
    {
        match self {
            SeqState::Failed { error } => SeqState::Failed { error },
            SeqState::Done { items } => match event {
                SeqEvent::Failure(error) => SeqState::Failed { error: CollectError::Failure(error) },
                _ => SeqState::Failed { error: CollectError::OutOfTurn },
            },
            SeqState::Collecting { items } => match event {
                SeqEvent::Element(value) => {
                    let mut items = items;
                    items.push(value);
                    SeqState::Collecting { items }
                },
                SeqEvent::Absent => SeqState::Collecting { items },
                SeqEvent::End => SeqState::Done { items },
                SeqEvent::Failure(error) => SeqState::Failed { error: CollectError::Failure(error) },
            },
        }
    }

    /// What the decode ended with. A state that is not final gives the error
    /// of a driver out of turn.
    pub fn finish(self) -> (r: Result<Vec<V>, CollectError<E>>)
        ensures
            match self@ {
                SeqProgress::Done { items } => r is Ok && r->Ok_0@ == items,
                SeqProgress::Failed { error } => r == Err::<Vec<V>, CollectError<E>>(error),
                SeqProgress::Collecting { items } => r == Err::<Vec<V>, CollectError<E>>(
                    CollectError::OutOfTurn,
                ),
            },
    {
        match self {
            SeqState::Done { items } => Ok(items),
            SeqState::Failed { error } => Err(error),
            SeqState::Collecting { items } => Err(CollectError::OutOfTurn),
        }
    }
}

/// The state of a sequence's decode after the events of `events`.
pub open spec fn run_progress<V, E>(state: SeqProgress<V, E>, events: Seq<SeqEvent<V, E>>) -> SeqProgress<
    V,
    E,
>
    decreases events.len(),
{
    if events.len() == 0 {
        state
    } else {
        run_progress(next_progress(state, events[0]), events.drop_first())
    }
}

/// The values among `events`, in their order: those of its `Element` events.
pub open spec fn present<V, E>(events: Seq<SeqEvent<V, E>>) -> Seq<V>
    decreases events.len(),
{
    if events.len() == 0 {
        Seq::empty()
    } else {
        match events[0] {
            SeqEvent::Element(value) => seq![value] + present(events.drop_first()),
            _ => present(events.drop_first()),
        }
    }
}

/// Whether each of `events` is an element, with a value or without.
pub open spec fn elements_only<V, E>(events: Seq<SeqEvent<V, E>>) -> bool {
    forall|i: int| 0 <= i < events.len() ==> (#[trigger] events[i] is Element || events[i] is Absent)
}

/// A sequence that is read to its end gives the values of its elements in the
/// order in which they were read, after those that were there before; an
/// element without a value leaves no trace.
pub proof fn law_sequence_keeps_order<V, E>(before: Seq<V>, events: Seq<SeqEvent<V, E>>)
    requires
        elements_only(events),
    ensures
        run_progress(SeqProgress::Collecting { items: before }, events + seq![SeqEvent::End]) == (
        SeqProgress::<V, E>::Done { items: before + present(events) }),
    decreases events.len(),
{
    let all = events + seq![SeqEvent::<V, E>::End];
    let state = SeqProgress::<V, E>::Collecting { items: before };
    if events.len() == 0 {
        assert(all.drop_first().len() == 0);
        assert(run_progress(next_progress(state, all[0]), all.drop_first()) == next_progress(
            state,
            all[0],
        ));
        assert(before + present(events) =~= before);
    } else {
        let tail = events.drop_first();
        assert(all.drop_first() =~= tail + seq![SeqEvent::<V, E>::End]);
        assert(all[0] == events[0]);
        assert(elements_only(tail)) by {
            assert forall|i: int| 0 <= i < tail.len() implies (#[trigger] tail[i] is Element
                || tail[i] is Absent) by {
                assert(tail[i] == events[i + 1]);
            }
        }
        match events[0] {
            SeqEvent::Element(value) => {
                law_sequence_keeps_order(before.push(value), tail);
                assert(before.push(value) + present(tail) =~= before + present(events));
            },
            _ => {
                law_sequence_keeps_order(before, tail);
            },
        }
    }
}

/// Every element with a value, and no other, is in what a sequence gives:
/// values that are read in order come out in that order.
pub proof fn law_sequence_of_values<V, E>(values: Seq<V>)
    ensures
        elements_only(values.map_values(|value: V| SeqEvent::<V, E>::Element(value))),
        present(values.map_values(|value: V| SeqEvent::<V, E>::Element(value))) == values,
        run_progress(
            SeqProgress::Collecting { items: Seq::empty() },
            values.map_values(|value: V| SeqEvent::<V, E>::Element(value)) + seq![SeqEvent::End],
        ) == (SeqProgress::<V, E>::Done { items: values }),
{
    let events = values.map_values(|value: V| SeqEvent::<V, E>::Element(value));
    lemma_present_of_values::<V, E>(values);
    law_sequence_keeps_order(Seq::<V>::empty(), events);
    assert(Seq::<V>::empty() + values =~= values);
}

/// The values of a sequence of `Element` events are the values they hold.
proof fn lemma_present_of_values<V, E>(values: Seq<V>)
    ensures
        elements_only(values.map_values(|value: V| SeqEvent::<V, E>::Element(value))),
        present(values.map_values(|value: V| SeqEvent::<V, E>::Element(value))) == values,
    decreases values.len(),
{
    let events = values.map_values(|value: V| SeqEvent::<V, E>::Element(value));
    if values.len() == 0 {
        assert(present(events) =~= values);
    } else {
        let tail = values.drop_first();
        lemma_present_of_values::<V, E>(tail);
        assert(events.drop_first() =~= tail.map_values(|value: V| SeqEvent::<V, E>::Element(value)));
        assert(events[0] == SeqEvent::<V, E>::Element(values[0]));
        assert(seq![values[0]] + tail =~= values);
    }
}

/// Reads a sequence of values that each travel as one id-value pair, with the
/// decode functions of a registry.
pub struct DeserializeVecWithTraitObject<'r, R>(pub &'r R);

impl<'r, R: Registry> DeserializeVecWithTraitObject<'r, R> {
    /// What the decode expects to read.
    pub fn expecting(&self) -> (text: String)
        ensures
            text@ == "a sequence of '"@ + expecting_text(self.0.trait_object_name()) + "'"@,
    {
        let mut text = String::from_str("a sequence of '");
        text.append(self.element().expecting().as_str());
        text.append("'");
        text
    }

    /// What reads each element.
    pub fn element(&self) -> (seed: DeserializeTraitObject<'r, R>)
        ensures
            seed.0 == self.0,
    {
        DeserializeTraitObject(self.0)
    }
}

/// What the driver reports to the decode of a mapping.
pub enum MapEvent<K, V, E> {
    /// The key of the next entry.
    Key(K),
    /// The key of the next entry was read, and gave no value.
    AbsentKey,
    /// The value of the entry whose key was read last.
    Value(V),
    /// The value of that entry was read, and gave no value.
    AbsentValue,
    /// The mapping holds no further entry.
    End,
    /// The underlying decoder, or the decode of a key or a value, failed.
    Failure(E),
}

/// How far the decode of a mapping has come.
pub enum MapState<K, V, E> {
    /// The driver reads the key of the next entry; `map` holds the entries
    /// before it.
    AwaitKey { map: HashMap<K, V> },
    /// The driver reads the value of the entry with `key`, which is to be
    /// dropped where that key gave no value.
    AwaitValue { map: HashMap<K, V>, key: Option<K> },
    /// The decode is over, with `map`.
    Done { map: HashMap<K, V> },
    /// The decode is over, and failed.
    Failed { error: CollectError<E> },
}

/// A `MapState` with its entries as a map.
#[verifier::reject_recursive_types(K)]
pub ghost enum MapProgress<K, V, E> {
    AwaitKey { map: Map<K, V> },
    AwaitValue { map: Map<K, V>, key: Option<K> },
    Done { map: Map<K, V> },
    Failed { error: CollectError<E> },
}

impl<K, V, E> View for MapState<K, V, E> {
    type V = MapProgress<K, V, E>;

    open spec fn view(&self) -> MapProgress<K, V, E> {
        match *self {
            MapState::AwaitKey { map } => MapProgress::AwaitKey { map: map@ },
            MapState::AwaitValue { map, key } => MapProgress::AwaitValue { map: map@, key },
            MapState::Done { map } => MapProgress::Done { map: map@ },
            MapState::Failed { error } => MapProgress::Failed { error },
        }
    }
}

/// The state of a mapping's decode after `event`. A value goes in under the
/// key that was read before it, in place of what that key held; an entry whose
/// key or value gave no value leaves the map as it was.
pub open spec fn next_entries<K, V, E>(state: MapProgress<K, V, E>, event: MapEvent<K, V, E>) -> MapProgress<
    K,
    V,
    E,
> {
    match state {
        MapProgress::Failed { error } => MapProgress::Failed { error },
        _ => match event {
            MapEvent::Failure(error) => MapProgress::Failed { error: CollectError::Failure(error) },
            MapEvent::Key(key) => match state {
                MapProgress::AwaitKey { map } => MapProgress::AwaitValue { map, key: Some(key) },
                _ => MapProgress::Failed { error: CollectError::OutOfTurn },
            },
            MapEvent::AbsentKey => match state {
                MapProgress::AwaitKey { map } => MapProgress::AwaitValue { map, key: None },
                _ => MapProgress::Failed { error: CollectError::OutOfTurn },
            },
            MapEvent::Value(value) => match state {
                MapProgress::AwaitValue { map, key: Some(key) } => MapProgress::AwaitKey {
                    map: map.insert(key, value),
                },
                MapProgress::AwaitValue { map, key: None } => MapProgress::AwaitKey { map },
                _ => MapProgress::Failed { error: CollectError::OutOfTurn },
            },
            MapEvent::AbsentValue => match state {
                MapProgress::AwaitValue { map, key } => MapProgress::AwaitKey { map },
                _ => MapProgress::Failed { error: CollectError::OutOfTurn },
            },
            MapEvent::End => match state {
                MapProgress::AwaitKey { map } => MapProgress::Done { map },
                _ => MapProgress::Failed { error: CollectError::OutOfTurn },
            },
        },
    }
}

/// Whether `event` in `state` puts an entry into the map.
pub open spec fn inserts<K, V, E>(state: MapProgress<K, V, E>, event: MapEvent<K, V, E>) -> bool {
    state matches MapProgress::AwaitValue { key: Some(_), .. } && event is Value
}

impl<K: Eq + Hash, V, E> MapState<K, V, E> {
    /// The state in which the decode of a mapping starts. `size_hint` is how
    /// many entries the decoder expects, where it says so; it sets storage
    /// aside, up to `PRESIZE_LIMIT` entries, and decides nothing else.
    pub fn start(size_hint: Option<usize>) -> (state: Self)
        ensures
            state@ == (MapProgress::<K, V, E>::AwaitKey { map: Map::empty() }),
    {
        let map = match size_hint {
            Some(capacity) => HashMap::with_capacity(
                if capacity < PRESIZE_LIMIT {
                    capacity
                } else {
                    PRESIZE_LIMIT
                },
            ),
            None => HashMap::new(),
        };
        MapState::AwaitKey { map }
    }

    /// The state after `event`. What an entry does to the map is known where
    /// the keys hash and compare as the model of the map asks.
    pub fn step(self, event: MapEvent<K, V, E>) -> (next: Self)
        ensures
            obeys_key_model::<K>() || !inserts(self@, event) ==> next@ == next_entries(self@, event),
            inserts(self@, event) ==> next@ is AwaitKey,
    {
        broadcast use axiom_random_state_builds_valid_hashers;

        match self {
            MapState::Failed { error } => MapState::Failed { error },
            MapState::AwaitKey { map } => match event {
                MapEvent::Key(key) => MapState::AwaitValue { map, key: Some(key) },
                MapEvent::AbsentKey => MapState::AwaitValue { map, key: None },
                MapEvent::End => MapState::Done { map },
                MapEvent::Failure(error) => MapState::Failed { error: CollectError::Failure(error) },
                _ => MapState::Failed { error: CollectError::OutOfTurn },
            },
            MapState::AwaitValue { map, key } => match event {
                MapEvent::Value(value) => match key {
                    Some(key) => {
                        let mut map = map;
                        map.insert(key, value);
                        MapState::AwaitKey { map }
                    },
                    None => MapState::AwaitKey { map },
                },
                MapEvent::AbsentValue => MapState::AwaitKey { map },
                MapEvent::Failure(error) => MapState::Failed { error: CollectError::Failure(error) },
                _ => MapState::Failed { error: CollectError::OutOfTurn },
            },
            MapState::Done { map } => match event {
                MapEvent::Failure(error) => MapState::Failed { error: CollectError::Failure(error) },
                _ => MapState::Failed { error: CollectError::OutOfTurn },
            },
        }
    }

    /// What the decode ended with. A state that is not final gives the error
    /// of a driver out of turn.
    pub fn finish(self) -> (r: Result<HashMap<K, V>, CollectError<E>>)
        ensures
            match self@ {
                MapProgress::Done { map } => r is Ok && r->Ok_0@ == map,
                MapProgress::Failed { error } => r == Err::<HashMap<K, V>, CollectError<E>>(error),
                _ => r == Err::<HashMap<K, V>, CollectError<E>>(CollectError::OutOfTurn),
            },
    {
        match self {
            MapState::Done { map } => Ok(map),
            MapState::Failed { error } => Err(error),
            _ => Err(CollectError::OutOfTurn),
        }
    }
}

/// The state of a mapping's decode after the events of `events`.
pub open spec fn run_entries<K, V, E>(state: MapProgress<K, V, E>, events: Seq<MapEvent<K, V, E>>) -> MapProgress<
    K,
    V,
    E,
>
    decreases events.len(),
{
    if events.len() == 0 {
        state
    } else {
        run_entries(next_entries(state, events[0]), events.drop_first())
    }
}

/// What the driver reports for the entries of `pairs`, each with a key and a
/// value: the key, then the value, entry after entry.
pub open spec fn entry_events<K, V, E>(pairs: Seq<(K, V)>) -> Seq<MapEvent<K, V, E>>
    decreases pairs.len(),
{
    if pairs.len() == 0 {
        Seq::empty()
    } else {
        seq![MapEvent::Key(pairs[0].0), MapEvent::Value(pairs[0].1)] + entry_events(
            pairs.drop_first(),
        )
    }
}

/// `before` with the entries of `pairs` put in, first to last.
pub open spec fn collected<K, V>(before: Map<K, V>, pairs: Seq<(K, V)>) -> Map<K, V>
    decreases pairs.len(),
{
    if pairs.len() == 0 {
        before
    } else {
        collected(before.insert(pairs[0].0, pairs[0].1), pairs.drop_first())
    }
}

/// A mapping that is read to its end gives the entries that were there before
/// with those that were read put in, first to last.
pub proof fn law_mapping_collects<K, V, E>(before: Map<K, V>, pairs: Seq<(K, V)>)
    ensures
        run_entries(
            MapProgress::AwaitKey { map: before },
            entry_events::<K, V, E>(pairs) + seq![MapEvent::End],
        ) == (MapProgress::<K, V, E>::Done { map: collected(before, pairs) }),
    decreases pairs.len(),
{
    let state = MapProgress::<K, V, E>::AwaitKey { map: before };
    let events = entry_events::<K, V, E>(pairs) + seq![MapEvent::End];
    if pairs.len() == 0 {
        assert(events.drop_first().len() == 0);
        assert(run_entries(next_entries(state, events[0]), events.drop_first()) == next_entries(
            state,
            events[0],
        ));
    } else {
        let tail = pairs.drop_first();
        let after_key = next_entries(state, events[0]);
        let rest = events.drop_first();
        let after_value = next_entries(after_key, rest[0]);
        assert(events[0] == MapEvent::<K, V, E>::Key(pairs[0].0));
        assert(rest[0] == MapEvent::<K, V, E>::Value(pairs[0].1));
        assert(rest.drop_first() =~= entry_events::<K, V, E>(tail) + seq![MapEvent::End]);
        assert(run_entries(state, events) == run_entries(after_key, rest));
        assert(run_entries(after_key, rest) == run_entries(after_value, rest.drop_first()));
        law_mapping_collects::<K, V, E>(before.insert(pairs[0].0, pairs[0].1), tail);
    }
}

/// The keys of what is collected are those that were there before and those
/// of the entries read.
pub proof fn law_collected_keys<K, V>(before: Map<K, V>, pairs: Seq<(K, V)>, key: K)
    ensures
        collected(before, pairs).contains_key(key) <==> (before.contains_key(key) || exists|i: int|
            0 <= i < pairs.len() && (#[trigger] pairs[i]).0 == key),
    decreases pairs.len(),
{
    if pairs.len() > 0 {
        let tail = pairs.drop_first();
        let first = before.insert(pairs[0].0, pairs[0].1);
        law_collected_keys(first, tail, key);
        if exists|i: int| 0 <= i < tail.len() && (#[trigger] tail[i]).0 == key {
            let i = choose|i: int| 0 <= i < tail.len() && (#[trigger] tail[i]).0 == key;
            assert(pairs[i + 1] == tail[i]);
        }
        if exists|i: int| 0 <= i < pairs.len() && (#[trigger] pairs[i]).0 == key {
            let i = choose|i: int| 0 <= i < pairs.len() && (#[trigger] pairs[i]).0 == key;
            if i > 0 {
                assert(tail[i - 1] == pairs[i]);
            }
        }
    }
}

/// Each key holds the value of the last entry that was read with it; which
/// entries came before or between, and in what order the map keeps them, does
/// not matter.
pub proof fn law_last_entry_wins<K, V>(before: Map<K, V>, pairs: Seq<(K, V)>, i: int)
    requires
        0 <= i < pairs.len(),
        forall|j: int| i < j < pairs.len() ==> (#[trigger] pairs[j]).0 != pairs[i].0,
    ensures
        collected(before, pairs).contains_key(pairs[i].0),
        collected(before, pairs)[pairs[i].0] == pairs[i].1,
    decreases pairs.len(),
{
    let tail = pairs.drop_first();
    let first = before.insert(pairs[0].0, pairs[0].1);
    if i == 0 {
        assert forall|j: int| 0 <= j < tail.len() implies (#[trigger] tail[j]).0 != pairs[0].0 by {
            assert(tail[j] == pairs[j + 1]);
        }
        lemma_untouched_key(first, tail, pairs[0].0);
    } else {
        assert(tail[i - 1] == pairs[i]);
        assert forall|j: int| i - 1 < j < tail.len() implies (#[trigger] tail[j]).0 != tail[i - 1].0 by {
            assert(tail[j] == pairs[j + 1]);
        }
        law_last_entry_wins(first, tail, i - 1);
    }
}

/// A key that no entry is read with keeps what it held.
pub proof fn lemma_untouched_key<K, V>(before: Map<K, V>, pairs: Seq<(K, V)>, key: K)
    requires
        forall|j: int| 0 <= j < pairs.len() ==> (#[trigger] pairs[j]).0 != key,
    ensures
        collected(before, pairs).contains_key(key) == before.contains_key(key),
        before.contains_key(key) ==> collected(before, pairs)[key] == before[key],
    decreases pairs.len(),
{
    if pairs.len() > 0 {
        let tail = pairs.drop_first();
        assert(pairs[0].0 != key);
        assert forall|j: int| 0 <= j < tail.len() implies (#[trigger] tail[j]).0 != key by {
            assert(tail[j] == pairs[j + 1]);
        }
        lemma_untouched_key(before.insert(pairs[0].0, pairs[0].1), tail, key);
    }
}

/// Reads a mapping, its keys with `key_deserialize_seed` and its values with
/// `value_deserialize_seed`. A seed is a `DeserializeTraitObject` where that
/// side travels as id-value pairs, and a `PhantomData` of its type where it
/// is read as it stands.
pub struct DeserializeMapWith<K, V> {
    key_deserialize_seed: K,
    value_deserialize_seed: V,
}

impl<K: Copy, V: Copy> DeserializeMapWith<K, V> {
    /// What reads each key.
    pub closed spec fn key_seed(&self) -> K {
        self.key_deserialize_seed
    }

    /// What reads each value.
    pub closed spec fn value_seed(&self) -> V {
        self.value_deserialize_seed
    }

    /// What reads each key.
    pub fn key_deserialize_seed(&self) -> (seed: K)
        ensures
            seed == self.key_seed(),
    {
        self.key_deserialize_seed
    }

    /// What reads each value.
    pub fn value_deserialize_seed(&self) -> (seed: V)
        ensures
            seed == self.value_seed(),
    {
        self.value_deserialize_seed
    }

    /// What the decode expects to read.
    pub fn expecting(&self) -> (text: String)
        ensures
            text@ == "a map with custom key and value `DeserializeSeed` impls"@,
    {
        String::from_str("a map with custom key and value `DeserializeSeed` impls")
    }
}

impl<'k, V, R: Registry> DeserializeMapWith<DeserializeTraitObject<'k, R>, PhantomData<V>> {
    /// Reads a mapping whose keys travel as id-value pairs, with the decode
    /// functions of `registry`, and whose values are read as they stand.
    pub fn trait_object_key(registry: &'k R) -> (r: Self)
        ensures
            r.key_seed().0 == registry,
            r.value_seed() == PhantomData::<V>,
    {
        DeserializeMapWith {
            key_deserialize_seed: DeserializeTraitObject(registry),
            value_deserialize_seed: PhantomData,
        }
    }
}

impl<'v, K, R: Registry> DeserializeMapWith<PhantomData<K>, DeserializeTraitObject<'v, R>> {
    /// Reads a mapping whose keys are read as they stand and whose values
    /// travel as id-value pairs, with the decode functions of `registry`.
    pub fn trait_object_value(registry: &'v R) -> (r: Self)
        ensures
            r.key_seed() == PhantomData::<K>,
            r.value_seed().0 == registry,
    {
        DeserializeMapWith {
            key_deserialize_seed: PhantomData,
            value_deserialize_seed: DeserializeTraitObject(registry),
        }
    }
}

impl<'k, 'v, RK: Registry, RV: Registry> DeserializeMapWith<
    DeserializeTraitObject<'k, RK>,
    DeserializeTraitObject<'v, RV>,
> {
    /// Reads a mapping whose keys and values both travel as id-value pairs:
    /// the keys with the decode functions of `key_registry`, the values with
    /// those of `value_registry`.
    pub fn trait_object_key_and_value(key_registry: &'k RK, value_registry: &'v RV) -> (r: Self)
        ensures
            r.key_seed().0 == key_registry,
            r.value_seed().0 == value_registry,
    {
        DeserializeMapWith {
            key_deserialize_seed: DeserializeTraitObject(key_registry),
            value_deserialize_seed: DeserializeTraitObject(value_registry),
        }
    }
}

} // verus!
