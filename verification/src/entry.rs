use vstd::prelude::*;

verus! {

/// Runtime type identification for registered implementations.
///
/// The registration layer implements this for each concrete plugin type,
/// returning the stable token that also stands in the [`Entry`] built for
/// that type. Lookup by concrete type compares these tokens.
pub trait AsAny {
    /// The type-identity token of the implementing type.
    fn type_token(&self) -> u64;
}

/// Conversion from a registration record into an [`Entry`].
///
/// The registration layer implements this for the record types it gathers
/// before the store is built; the record itself travels on as the entry's
/// instance value.
pub trait IntoEntry: Sized {
    /// Consume the record and produce the entry it describes.
    fn into_entry(self) -> Entry<Self>;
}

/// One registered implementation: its ordering key, its type-identity
/// token, its display name, and the instance value it carries.
///
/// The ordering key controls the entry's position when a store is iterated;
/// the type-identity token is unique per concrete implementation and is the
/// key for deduplication and concrete lookup; the instance value is opaque
/// to the store's bookkeeping and is only handed back to the caller.
pub struct Entry<P> {
    /// Ordering key: entries iterate in ascending order of this key.
    pub ordering: u32,
    /// Stable token uniquely identifying the registered concrete type.
    pub type_id: u64,
    /// Human-readable label, typically the implementation's type name.
    pub name: &'static str,
    /// The registered instance value.
    pub instance: P,
}

impl<P> Entry<P> {
    /// Build the entry for one registered implementation.
    pub fn create_entry(instance: P, type_id: u64, name: &'static str, ordering: u32) -> (e:
        Entry<P>)
        ensures
            e == (Entry { ordering, type_id, name, instance }),
    {
        Entry { ordering, type_id, name, instance }
    }

    /// The name of the stained type.
    pub fn name(&self) -> (n: &'static str)
        ensures
            n == self.name,
    {
        self.name
    }

    /// The entry's ordering key.
    pub fn ordering(&self) -> (o: u32)
        ensures
            o == self.ordering,
    {
        self.ordering
    }

    /// The entry's type-identity token.
    pub fn type_identity(&self) -> (t: u64)
        ensures
            t == self.type_id,
    {
        self.type_id
    }

    /// Shared access to the instance value.
    pub fn read(&self) -> (p: &P)
        ensures
            *p == self.instance,
    {
        &self.instance
    }

    /// Exclusive access to the instance value; the rest of the entry is
    /// left unchanged.
    pub fn write(&mut self) -> (p: &mut P)
        ensures
            *p == old(self).instance,
            final(self).instance == *final(p),
            final(self).ordering == old(self).ordering,
            final(self).type_id == old(self).type_id,
            final(self).name == old(self).name,
    {
        &mut self.instance
    }

    /// Shared access to the instance value, guarded by a type check:
    /// the caller states the token of the concrete type it expects, and a
    /// mismatch is a plain miss, not a fault.
    pub fn read_concrete(&self, type_id: u64) -> (r: Option<&P>)
        ensures
            match r {
                Some(p) => self.type_id == type_id && *p == self.instance,
                None => self.type_id != type_id,
            },
    {
        if self.type_id == type_id {
            Some(&self.instance)
        } else {
            None
        }
    }

    /// Exclusive access to the instance value, guarded by the same type
    /// check as [`Entry::read_concrete`]; on a miss the entry is unchanged.
    pub fn write_concrete(&mut self, type_id: u64) -> (r: Option<&mut P>)
        ensures
            match r {
                Some(p) => {
                    &&& old(self).type_id == type_id
                    &&& *p == old(self).instance
                    &&& final(self).instance == *final(p)
                },
                None => old(self).type_id != type_id && *final(self) == *old(self),
            },
            final(self).ordering == old(self).ordering,
            final(self).type_id == old(self).type_id,
            final(self).name == old(self).name,
    {
        if self.type_id == type_id {
            Some(&mut self.instance)
        } else {
            None
        }
    }
}

} // verus!
