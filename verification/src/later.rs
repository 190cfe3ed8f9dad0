use vstd::prelude::*;

verus! {

/// A value that we guarantee to initialize before we use it,
/// but that starts out uninitialized.
pub struct Later<T> {
    value: Option<T>,
}

impl<T> View for Later<T> {
    type V = Option<T>;

    closed spec fn view(&self) -> Option<T> {
        self.value
    }
}

impl<T> Later<T> {
    pub fn new() -> (r: Self)
        ensures
            r@ == None::<T>,
    {
        Later { value: None }
    }

    pub fn set(&mut self, value: T)
        ensures
            final(self)@ == Some(value),
    {
        self.value = Some(value);
    }

    pub fn is_set(&self) -> (r: bool)
        ensures
            r == self@ is Some,
    {
        self.value.is_some()
    }

    /// The value, which must have been set: what dereferencing gives.
    pub fn get(&self) -> (r: &T)
        requires
            self@ is Some,
        ensures
            *r == self@->0,
    {
        match &self.value {
            Some(v) => v,
            None => vstd::pervasive::unreached(),
        }
    }
}

impl<T> Default for Later<T> {
    fn default() -> (r: Self)
        ensures
            r@ == None::<T>,
    {
        Later::new()
    }
}

impl<T: Clone> Clone for Later<T> {
    fn clone(&self) -> (r: Self)
        ensures
            r@ is Some <==> self@ is Some,
            r@ is Some ==> cloned::<T>(self@.unwrap(), r@.unwrap()),
    {
        Later { value: self.value.clone() }
    }
}

} // verus!
