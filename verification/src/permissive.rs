//! Reading values whose concrete type may be unknown to the registry: such a
//! value is dropped in place of failing the decode. An identifier that was
//! registered more than once still fails it.

use vstd::prelude::*;
use vstd::string::StringExecFns;
use crate::de::{advance, describe, error_text, found_for, next_state, DecodeError, Event, Mode, State};
use crate::registry::Registry;

verus! {

/// What a map that does not hold exactly one id-value pair is met with in a
/// permissive decode.
pub open spec fn permissive_expecting_text(name: Seq<char>) -> Seq<char> {
    "an id-value pair for `Option<Box<dyn "@ + name + ">>`"@
}

/// Reads one value from a map of one id-value pair, with the decode functions
/// of a registry. Where the registry does not know the identifier, the value
/// is read and dropped, and the decode gives `None`.
pub struct PermissiveDeserializeTraitObject<'a, R>(pub &'a R);

impl<'a, R> Clone for PermissiveDeserializeTraitObject<'a, R> {
    fn clone(&self) -> (r: Self)
        ensures
            r == *self,
    {
        PermissiveDeserializeTraitObject(self.0)
    }
}

impl<'a, R> Copy for PermissiveDeserializeTraitObject<'a, R> {

}

impl<'a, R: Registry> PermissiveDeserializeTraitObject<'a, R> {
    /// What the decode expects to read.
    pub fn expecting(&self) -> (text: String)
        ensures
            text@ == permissive_expecting_text(self.0.trait_object_name()),
    {
        let mut text = String::from_str("an id-value pair for `Option<Box<dyn ");
        text.append(self.0.get_trait_object_name());
        text.append(">>`");
        text
    }

    /// The state in which a decode starts.
    pub fn start<V, E>(&self) -> (state: State<R::Identifier, R::DeserializeFn, V, E>)
        ensures
            state == State::<R::Identifier, R::DeserializeFn, V, E>::AwaitKey,
    {
        State::AwaitKey
    }

    /// The state after `event`.
    pub fn step<V, E>(
        &self,
        state: State<R::Identifier, R::DeserializeFn, V, E>,
        event: Event<R::Identifier, V, E>,
    ) -> (next: State<R::Identifier, R::DeserializeFn, V, E>) where R::DeserializeFn: Copy
        ensures
            next == next_state(found_for(self.0, event), Mode::Permissive, state, event),
    {
        advance(self.0, Mode::Permissive, state, event)
    }

    /// What the decode ended with: the value, or `None` where the identifier
    /// was unknown. A state that is not final gives the error of a driver out
    /// of turn.
    pub fn finish<V, E>(&self, state: State<R::Identifier, R::DeserializeFn, V, E>) -> (r: Result<
        Option<V>,
        DecodeError<R::Identifier, E>,
    >)
        ensures
            r == match state {
                State::Done { value } => Ok::<Option<V>, DecodeError<R::Identifier, E>>(value),
                State::Failed { error } => Err(error),
                _ => Err(DecodeError::OutOfTurn),
            },
    {
        match state {
            State::Done { value } => Ok(value),
            State::Failed { error } => Err(error),
            _ => Err(DecodeError::OutOfTurn),
        }
    }

    /// The text of `error`.
    pub fn message<E>(&self, error: &DecodeError<R::Identifier, E>) -> (text: String)
        ensures
            text@ == error_text(*error, permissive_expecting_text(self.0.trait_object_name())),
    {
        describe(error, self.expecting())
    }
}

} // verus!
