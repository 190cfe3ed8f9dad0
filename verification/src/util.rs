use vstd::prelude::*;
use vstd::std_specs::hash::{builds_valid_hashers, obeys_key_model};
use std::collections::HashMap;
use std::hash::{BuildHasher, Hash};
use std::sync::Arc;
use crate::compile::token::string_eq;

verus! {

pub fn id<T>(t: T) -> (r: T)
    ensures
        r == t,
{
    t
}

/// Hands a value to a function, so that `expr.pipe(f)` reads in the order
/// the steps happen.
pub trait Pipe<T, F: FnOnce(Self) -> T>: Sized {
    fn pipe(self, f: F) -> (r: T)
        requires
            call_requires(f, (self,)),
        ensures
            call_ensures(f, (self,), r),
    ;
}

impl<S, T, F: FnOnce(S) -> T> Pipe<T, F> for S {
    fn pipe(self, f: F) -> (r: T) {
        f(self)
    }
}

/// To avoid double-boxing. When boxing
/// a struct s as an instance of a trait,
/// `s.into()` doesn't infer that the type
/// should be `Box<Trait>`.
pub trait IntoBox<T>: Sized {
    fn into_box(self) -> Box<T>;
}

impl<T> IntoBox<T> for Box<T> {
    fn into_box(self) -> Box<T>
        returns
            self,
    {
        self
    }
}

impl<T> IntoBox<T> for T {
    fn into_box(self) -> (r: Box<T>)
        ensures
            *r == self,
    {
        Box::new(self)
    }
}

/// Inserts into a map only when the key is not there yet.
pub trait InsertUnique<K, V> {
    fn insert_unique(&mut self, key: K, value: V) -> Result<(), (K, V)>;
}

impl<K: Hash + Eq, V, H: BuildHasher> InsertUnique<K, V> for HashMap<K, V, H> {
    /// Inserts `key` and `value` unless `key` is already a key, in which case
    /// the map is unchanged and the pair is handed back. What is promised
    /// holds where the key type hashes and compares by its value and the
    /// hasher builder is a valid one, as vstd states of std's maps; for
    /// integer keys and std's `RandomState`, `broadcast use
    /// vstd::std_specs::hash::group_hash_axioms` shows both at the call site.
    fn insert_unique(&mut self, key: K, value: V) -> (r: Result<(), (K, V)>)
        ensures
            obeys_key_model::<K>() && builds_valid_hashers::<H>() ==> match r {
                Ok(()) => !old(self)@.contains_key(key) && final(self)@ == old(self)@.insert(
                    key,
                    value,
                ),
                Err((k, v)) => old(self)@.contains_key(key) && k == key && v == value
                    && final(self)@ == old(self)@,
            },
    {
        broadcast use vstd::std_specs::hash::group_hash_axioms;

        if self.contains_key(&key) {
            Err((key, value))
        } else {
            self.insert(key, value);
            Ok(())
        }
    }
}

/// A store of strings that hands out one shared copy of each.
pub struct SharedString {
    strings: Vec<Arc<String>>,
}

impl SharedString {
    /// The strings held, in the order they were first asked for.
    pub closed spec fn held(&self) -> Seq<Seq<char>> {
        Seq::new(self.strings@.len(), |i: int| self.strings@[i]@)
    }

    /// No string is held twice.
    pub closed spec fn wf(&self) -> bool {
        forall|i: int, j: int|
            0 <= i < j < self.strings@.len() ==> (#[trigger] self.strings@[i])@ != (#[trigger] self.strings@[j])@
    }

    /// A store that holds nothing.
    pub fn new() -> (r: Self)
        ensures
            r.wf(),
            r.held() == Seq::<Seq<char>>::empty(),
    {
        SharedString { strings: Vec::new() }
    }

    /// The shared copy of `s`: the one held when `s` was asked for before,
    /// else a new one, which is kept.
    pub fn get(&mut self, s: &str) -> (r: Arc<String>)
        requires
            old(self).wf(),
        ensures
            final(self).wf(),
            r@ == s@,
            old(self).held().contains(s@) ==> final(self).held() == old(self).held(),
            !old(self).held().contains(s@) ==> final(self).held() == old(self).held().push(s@),
    {
        let wanted = <String as vstd::string::StringExecFns>::from_str(s);
        let mut i: usize = 0;
        while i < self.strings.len()
            invariant
                old(self).wf(),
                *self == *old(self),
                i <= self.strings@.len(),
                wanted@ == s@,
                forall|j: int| 0 <= j < i ==> (#[trigger] self.strings@[j])@ != s@,
            decreases self.strings@.len() - i,
        {
            if string_eq(&*self.strings[i], &wanted) {
                proof {
                    assert(self.held()[i as int] == s@);
                }
                return self.strings[i].clone();
            }
            i = i + 1;
        }
        proof {
            assert forall|k: int| 0 <= k < self.held().len() implies self.held()[k] != s@ by {
                assert(self.held()[k] == self.strings@[k]@);
            }
        }
        let shared = Arc::new(wanted);
        self.strings.push(shared.clone());
        proof {
            assert(self.held() =~= old(self).held().push(s@));
        }
        shared
    }
}

} // verus!
