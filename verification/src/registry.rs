//! Registries: from the identifier of a concrete type to the function that
//! decodes it.

use vstd::prelude::*;
use vstd::string::StringExecFns;
use crate::id::Key;

verus! {

/// What a registry holds for one identifier.
pub enum Lookup<F> {
    /// Nothing was registered for the identifier.
    NotRegistered,
    /// More than one function was registered, so none of them can be used.
    MultipleRegistrations,
    /// The function to decode with.
    Registered(F),
}

/// Why a registry gave no decode function for `id`.
#[derive(Copy, Clone, Ord, PartialOrd, Eq, PartialEq, Hash, Debug)]
pub enum GetError<I> {
    /// No deserialize function was registered for `id`.
    NotRegistered { id: I },
    /// Multiple deserialize functions were registered for `id`.
    MultipleRegistrations { id: I },
}

impl<I: Key> GetError<I> {
    /// The text of the error.
    pub open spec fn message(&self) -> Seq<char> {
        match *self {
            GetError::NotRegistered { id } => "no deserialize function was registered for id '"@
                + id.debug_text() + "'"@,
            GetError::MultipleRegistrations { id } =>
                "multiple deserialize functions were registered for id '"@ + id.debug_text() + "'"@,
        }
    }

    /// The error as text.
    pub fn to_string(&self) -> (text: String)
        ensures
            text@ == self.message(),
    {
        match self {
            GetError::NotRegistered { id } => {
                let mut text = String::from_str("no deserialize function was registered for id '");
                text.append(id.to_debug().as_str());
                text.append("'");
                text
            },
            GetError::MultipleRegistrations { id } => {
                let mut text = String::from_str(
                    "multiple deserialize functions were registered for id '",
                );
                text.append(id.to_debug().as_str());
                text.append("'");
                text
            },
        }
    }
}

/// A mapping from identifiers to decode functions for one interface. It is
/// filled by `register` while it is built and read by `get_deserialize_fn`
/// afterwards; nothing is ever removed.
pub trait Registry {
    /// The type of the identifiers.
    type Identifier: Key;

    /// The type of the decode functions.
    type DeserializeFn;

    /// What the registry holds for the identifier with these segments.
    spec fn lookup(&self, key: Seq<Seq<char>>) -> Lookup<Self::DeserializeFn>;

    /// The name of the interface, for diagnostics.
    spec fn trait_object_name(&self) -> Seq<char>;

    /// Registers `deserialize_fn` for `id`. This never fails: what a repeated
    /// registration leads to shows when the identifier is looked up.
    fn register(&mut self, id: Self::Identifier, deserialize_fn: Self::DeserializeFn)
        ensures
            old(self).lookup(id.segments()) is NotRegistered ==> final(self).lookup(id.segments())
                == Lookup::Registered(deserialize_fn),
            !(old(self).lookup(id.segments()) is NotRegistered) ==> !(final(self).lookup(
                id.segments(),
            ) is NotRegistered),
            forall|key: Seq<Seq<char>>|
                key != id.segments() ==> final(self).lookup(key) == old(self).lookup(key),
            final(self).trait_object_name() == old(self).trait_object_name(),
    ;

    /// The decode function for `id`, or why there is none.
    fn get_deserialize_fn(&self, id: Self::Identifier) -> (r: Result<
        &Self::DeserializeFn,
        GetError<Self::Identifier>,
    >)
        ensures
            match self.lookup(id.segments()) {
                Lookup::Registered(f) => r == Ok::<&Self::DeserializeFn, GetError<Self::Identifier>>(&f),
                Lookup::NotRegistered => r == Err::<&Self::DeserializeFn, GetError<Self::Identifier>>(
                    GetError::NotRegistered { id },
                ),
                Lookup::MultipleRegistrations => r == Err::<
                    &Self::DeserializeFn,
                    GetError<Self::Identifier>,
                >(GetError::MultipleRegistrations { id }),
            },
    ;

    /// The name of the interface, for diagnostics.
    fn get_trait_object_name(&self) -> (name: &'static str)
        ensures
            name@ == self.trait_object_name(),
    ;
}

/// Slots keyed by identifiers. Where two entries have the same segments, the
/// first of them counts; `put` never adds a second.
struct Slots<I, S> {
    entries: Vec<(I, S)>,
}

impl<I: Key, S> Slots<I, S> {
    /// Whether the entry at `i` is the first that is keyed by `key`.
    spec fn keyed(self, i: int, key: Seq<Seq<char>>) -> bool {
        &&& 0 <= i < self.entries@.len()
        &&& self.entries@[i].0.segments() == key
        &&& forall|k: int| 0 <= k < i ==> (#[trigger] self.entries@[k]).0.segments() != key
    }

    /// The slots by the segments of their identifiers.
    closed spec fn view(self) -> Map<Seq<Seq<char>>, S> {
        Map::new(
            |key: Seq<Seq<char>>| exists|i: int| self.keyed(i, key),
            |key: Seq<Seq<char>>| self.entries@[choose|i: int| self.keyed(i, key)].1,
        )
    }

    /// The entry that counts for a key is the slot that the view holds for it.
    proof fn lemma_keyed(self, i: int, key: Seq<Seq<char>>)
        requires
            self.keyed(i, key),
        ensures
            self@.contains_key(key),
            self@[key] == self.entries@[i].1,
    {
        let c = choose|c: int| self.keyed(c, key);
        assert(self.keyed(c, key));
        if c < i {
            assert(self.entries@[c].0.segments() != key);
        }
        if i < c {
            assert(self.entries@[i].0.segments() != key);
        }
    }

    fn new() -> (r: Self)
        ensures
            r@ == Map::<Seq<Seq<char>>, S>::empty(),
    {
        let r = Slots { entries: Vec::new() };
        assert(r@ =~= Map::<Seq<Seq<char>>, S>::empty());
        r
    }

    /// Where the slot of `id` stands, if there is one.
    fn position(&self, id: &I) -> (r: Option<usize>)
        ensures
            match r {
                Some(i) => self.keyed(i as int, id.segments()),
                None => forall|k: int|
                    0 <= k < self.entries@.len() ==> (#[trigger] self.entries@[k]).0.segments()
                        != id.segments(),
            },
    {
        let mut i: usize = 0;
        while i < self.entries.len()
            invariant
                i <= self.entries@.len(),
                forall|k: int|
                    0 <= k < i ==> (#[trigger] self.entries@[k]).0.segments() != id.segments(),
            decreases self.entries@.len() - i,
        {
            if self.entries[i].0.same(id) {
                return Some(i);
            }
            i += 1;
        }
        None
    }

    /// The slot of `id`, if there is one.
    fn get(&self, id: &I) -> (r: Option<&S>)
        ensures
            match r {
                Some(slot) => self@.contains_key(id.segments()) && self@[id.segments()] == *slot,
                None => !self@.contains_key(id.segments()),
            },
    {
        match self.position(id) {
            Some(i) => {
                proof {
                    self.lemma_keyed(i as int, id.segments());
                }
                Some(&self.entries[i].1)
            },
            None => {
                proof {
                    if self@.contains_key(id.segments()) {
                        let c = choose|c: int| self.keyed(c, id.segments());
                        assert(self.keyed(c, id.segments()));
                        assert(self.entries@[c].0.segments() != id.segments());
                    }
                }
                None
            },
        }
    }

    /// Sets the slot of `id`, whether it had one or not.
    fn put(&mut self, id: I, slot: S)
        ensures
            final(self)@ == old(self)@.insert(id.segments(), slot),
    {
        let ghost key = id.segments();
        let ghost before = *self;
        let found = self.position(&id);
        match found {
            Some(i) => {
                self.entries.set(i, (id, slot));
            },
            None => {
                self.entries.push((id, slot));
            },
        }
        proof {
            let after = *self;
            let at = match found {
                Some(i) => i as int,
                None => before.entries@.len() as int,
            };
            assert(after.entries@[at] == (id, slot));
            assert forall|k: int| 0 <= k < before.entries@.len() && k != at implies #[trigger] after.entries@[k]
                == before.entries@[k] by {}
            assert(after.keyed(at, key)) by {
                assert forall|k: int| 0 <= k < at implies (#[trigger] after.entries@[k]).0.segments() != key by {
                    assert(after.entries@[k] == before.entries@[k]);
                    assert(before.entries@[k].0.segments() != key);
                }
            }
            after.lemma_keyed(at, key);
            let target = before@.insert(key, slot);
            assert forall|k: Seq<Seq<char>>|
                (#[trigger] after@.dom().contains(k)) == target.dom().contains(k) && (after@.dom().contains(k)
                    ==> after@[k] == target[k]) by {
                if k == key {
                } else if after@.contains_key(k) {
                    let c = choose|c: int| after.keyed(c, k);
                    assert(after.keyed(c, k));
                    assert(c != at);
                    assert(before.keyed(c, k)) by {
                        assert(after.entries@[c] == before.entries@[c]);
                        assert forall|m: int| 0 <= m < c implies (#[trigger] before.entries@[m]).0.segments() != k by {
                            assert(after.entries@[m].0.segments() != k);
                            if m != at {
                                assert(after.entries@[m] == before.entries@[m]);
                            }
                        }
                    }
                    before.lemma_keyed(c, k);
                    after.lemma_keyed(c, k);
                } else if before@.contains_key(k) {
                    let c = choose|c: int| before.keyed(c, k);
                    assert(before.keyed(c, k));
                    assert(c != at);
                    assert(after.keyed(c, k)) by {
                        assert(after.entries@[c] == before.entries@[c]);
                        assert forall|m: int| 0 <= m < c implies (#[trigger] after.entries@[m]).0.segments() != k by {
                            assert(before.entries@[m].0.segments() != k);
                            if m != at {
                                assert(after.entries@[m] == before.entries@[m]);
                            }
                        }
                    }
                    before.lemma_keyed(c, k);
                    after.lemma_keyed(c, k);
                }
            }
            assert(after@ =~= target);
        }
    }
}

/// What a registry that refuses repeated registrations holds for `key`: an
/// emptied slot says that the identifier was registered more than once.
pub open spec fn resolve<F>(slots: Map<Seq<Seq<char>>, Option<F>>, key: Seq<Seq<char>>) -> Lookup<
    F,
> {
    if !slots.contains_key(key) {
        Lookup::NotRegistered
    } else {
        match slots[key] {
            Some(f) => Lookup::Registered(f),
            None => Lookup::MultipleRegistrations,
        }
    }
}

/// The slots after `f` is registered for `key` in a registry that refuses
/// repeated registrations: a new key gets `f`; a key that has a slot gets it
/// emptied, whatever it held.
pub open spec fn after_register<F>(
    slots: Map<Seq<Seq<char>>, Option<F>>,
    key: Seq<Seq<char>>,
    f: F,
) -> Map<Seq<Seq<char>>, Option<F>> {
    if slots.contains_key(key) {
        slots.insert(key, None)
    } else {
        slots.insert(key, Some(f))
    }
}

/// The registry that refuses repeated registrations: an identifier that is
/// registered twice can no longer be resolved, and stays so.
pub struct MapRegistry<F, I = &'static str> {
    deserialize_fns: Slots<I, Option<F>>,
    trait_object_name: &'static str,
}

impl<F, I: Key> View for MapRegistry<F, I> {
    type V = Map<Seq<Seq<char>>, Option<F>>;

    /// The slots by the segments of their identifiers; an emptied slot is `None`.
    closed spec fn view(&self) -> Map<Seq<Seq<char>>, Option<F>> {
        self.deserialize_fns@
    }
}

impl<F, I: Key> MapRegistry<F, I> {
    /// The name that the registry was made with.
    pub closed spec fn name(&self) -> Seq<char> {
        self.trait_object_name@
    }

    /// An empty registry for the interface named `trait_object_name`.
    pub fn new(trait_object_name: &'static str) -> (r: Self)
        ensures
            r@ == Map::<Seq<Seq<char>>, Option<F>>::empty(),
            r.name() == trait_object_name@,
    {
        MapRegistry { deserialize_fns: Slots::new(), trait_object_name }
    }
}

impl<F, I: Key> Registry for MapRegistry<F, I> {
    type Identifier = I;

    type DeserializeFn = F;

    open spec fn lookup(&self, key: Seq<Seq<char>>) -> Lookup<F> {
        resolve(self@, key)
    }

    open spec fn trait_object_name(&self) -> Seq<char> {
        self.name()
    }

    fn register(&mut self, id: I, deserialize_fn: F)
        ensures
            final(self)@ == after_register(old(self)@, id.segments(), deserialize_fn),
            final(self).name() == old(self).name(),
    {
        let taken = self.deserialize_fns.get(&id).is_some();
        if taken {
            self.deserialize_fns.put(id, None);
        } else {
            self.deserialize_fns.put(id, Some(deserialize_fn));
        }
    }

    fn get_deserialize_fn(&self, id: I) -> (r: Result<&F, GetError<I>>) {
        match self.deserialize_fns.get(&id) {
            None => Err(GetError::NotRegistered { id }),
            Some(None) => Err(GetError::MultipleRegistrations { id }),
            Some(Some(deserialize_fn)) => Ok(deserialize_fn),
        }
    }

    fn get_trait_object_name(&self) -> (name: &'static str) {
        self.trait_object_name
    }
}

/// What a registry that keeps the first registration holds for `key`.
pub open spec fn resolve_first<F>(slots: Map<Seq<Seq<char>>, F>, key: Seq<Seq<char>>) -> Lookup<F> {
    if slots.contains_key(key) {
        Lookup::Registered(slots[key])
    } else {
        Lookup::NotRegistered
    }
}

/// The slots after `f` is registered for `key` in a registry that keeps the
/// first registration: a key that has a function keeps it.
pub open spec fn after_register_first<F>(
    slots: Map<Seq<Seq<char>>, F>,
    key: Seq<Seq<char>>,
    f: F,
) -> Map<Seq<Seq<char>>, F> {
    if slots.contains_key(key) {
        slots
    } else {
        slots.insert(key, f)
    }
}

/// The registry that keeps the first registration of an identifier and passes
/// over the later ones in silence. It is for callers who know that every
/// repeated registration brings the same function again; where two different
/// functions meet, it hides the conflict.
pub struct FirstMapRegistry<F, I = &'static str> {
    deserialize_fns: Slots<I, F>,
    trait_object_name: &'static str,
}

impl<F, I: Key> View for FirstMapRegistry<F, I> {
    type V = Map<Seq<Seq<char>>, F>;

    /// The functions by the segments of their identifiers.
    closed spec fn view(&self) -> Map<Seq<Seq<char>>, F> {
        self.deserialize_fns@
    }
}

impl<F, I: Key> FirstMapRegistry<F, I> {
    /// The name that the registry was made with.
    pub closed spec fn name(&self) -> Seq<char> {
        self.trait_object_name@
    }

    /// An empty registry for the interface named `trait_object_name`.
    pub fn new(trait_object_name: &'static str) -> (r: Self)
        ensures
            r@ == Map::<Seq<Seq<char>>, F>::empty(),
            r.name() == trait_object_name@,
    {
        FirstMapRegistry { deserialize_fns: Slots::new(), trait_object_name }
    }
}

impl<F, I: Key> Registry for FirstMapRegistry<F, I> {
    type Identifier = I;

    type DeserializeFn = F;

    open spec fn lookup(&self, key: Seq<Seq<char>>) -> Lookup<F> {
        resolve_first(self@, key)
    }

    open spec fn trait_object_name(&self) -> Seq<char> {
        self.name()
    }

    fn register(&mut self, id: I, deserialize_fn: F)
        ensures
            final(self)@ == after_register_first(old(self)@, id.segments(), deserialize_fn),
            final(self).name() == old(self).name(),
    {
        let taken = self.deserialize_fns.get(&id).is_some();
        if !taken {
            self.deserialize_fns.put(id, deserialize_fn);
        }
    }

    fn get_deserialize_fn(&self, id: I) -> (r: Result<&F, GetError<I>>) {
        match self.deserialize_fns.get(&id) {
            None => Err(GetError::NotRegistered { id }),
            Some(deserialize_fn) => Ok(deserialize_fn),
        }
    }

    fn get_trait_object_name(&self) -> (name: &'static str) {
        self.trait_object_name
    }
}

/// An identifier that is registered for the first time resolves to the
/// function it was registered with.
pub proof fn law_fresh_registration<F>(slots: Map<Seq<Seq<char>>, Option<F>>, key: Seq<Seq<char>>, f: F)
    requires
        !slots.contains_key(key),
    ensures
        resolve(after_register(slots, key, f), key) == Lookup::Registered(f),
{
}

/// An identifier that is registered twice can no longer be resolved, whatever
/// the two functions are and whatever the registry held before.
pub proof fn law_repeated_registration<F>(
    slots: Map<Seq<Seq<char>>, Option<F>>,
    key: Seq<Seq<char>>,
    f: F,
    g: F,
)
    ensures
        resolve(after_register(after_register(slots, key, f), key, g), key)
            == Lookup::<F>::MultipleRegistrations,
{
}

/// An identifier that can no longer be resolved stays so: a further
/// registration changes nothing.
pub proof fn law_refusal_is_permanent<F>(slots: Map<Seq<Seq<char>>, Option<F>>, key: Seq<Seq<char>>, f: F)
    requires
        resolve(slots, key) is MultipleRegistrations,
    ensures
        after_register(slots, key, f) == slots,
        resolve(after_register(slots, key, f), key) is MultipleRegistrations,
{
    assert(after_register(slots, key, f) =~= slots);
}

/// A registration leaves every other identifier as it was, and removes none.
pub proof fn law_registration_is_local<F>(
    slots: Map<Seq<Seq<char>>, Option<F>>,
    key: Seq<Seq<char>>,
    f: F,
    other: Seq<Seq<char>>,
)
    ensures
        other != key ==> resolve(after_register(slots, key, f), other) == resolve(slots, other),
        !(resolve(after_register(slots, key, f), key) is NotRegistered),
{
}

/// Where the first registration is kept, an identifier that is registered
/// twice resolves to the first function: with two functions that do the same,
/// the decode is that of either.
pub proof fn law_first_registration_wins<F>(slots: Map<Seq<Seq<char>>, F>, key: Seq<Seq<char>>, f: F, g: F)
    ensures
        !slots.contains_key(key) ==> resolve_first(
            after_register_first(after_register_first(slots, key, f), key, g),
            key,
        ) == Lookup::Registered(f),
        slots.contains_key(key) ==> after_register_first(slots, key, g) == slots,
        forall|other: Seq<Seq<char>>|
            other != key ==> resolve_first(after_register_first(slots, key, g), other) == resolve_first(
                slots,
                other,
            ),
{
}

} // verus!
