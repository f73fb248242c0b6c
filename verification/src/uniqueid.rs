use vstd::prelude::*;

verus! {

/// An identifier that wraps a positive integer and can produce the
/// identifier that follows it.
pub trait UniqueId: Sized + Copy {
    /// The integer this identifier stands for.
    spec fn id_value(&self) -> int;

    /// Builds the identifier with the given integer.
    fn with_value(value: usize) -> (id: Self)
        ensures
            id.id_value() == value,
    ;

    /// The integer this identifier stands for.
    fn value(&self) -> (v: usize)
        ensures
            v == self.id_value(),
    ;

    /// The identifier after this one.
    fn next(&self) -> (n: Self)
        requires
            self.id_value() < usize::MAX,
        ensures
            n.id_value() == self.id_value() + 1,
    ;
}

/// Hands out identifiers in increasing order, starting at 1.
pub struct IdGenerator<T: UniqueId> {
    current_id: T,
}

impl<T: UniqueId> IdGenerator<T> {
    /// The integer of the identifier that the next call of `next` returns.
    pub closed spec fn upcoming(&self) -> int {
        self.current_id.id_value()
    }

    /// A generator whose first identifier is 1.
    pub fn new() -> (g: IdGenerator<T>)
        ensures
            g.upcoming() == 1,
    {
        IdGenerator { current_id: T::with_value(1) }
    }

    /// Returns a fresh identifier and advances the generator.
    pub fn next(&mut self) -> (id: T)
        requires
            old(self).upcoming() < usize::MAX,
        ensures
            id.id_value() == old(self).upcoming(),
            final(self).upcoming() == old(self).upcoming() + 1,
    {
        let ret = self.current_id;
        self.current_id = self.current_id.next();
        ret
    }
}

} // verus!
