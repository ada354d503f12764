//! A value that tasks wait for.

use vstd::prelude::*;
use vstd::std_specs::cmp::PartialEqSpec;

verus! {

/// The value that tasks wait for. Whoever changes it wakes all that wait, and
/// each of them asks again whether its wait is over.
#[derive(Debug)]
pub struct WaitFlag<T> {
    pub value: T,
}

impl<T: Default> Default for WaitFlag<T> {
    fn default() -> (r: Self)
        ensures
            call_ensures(T::default, (), r.value),
    {
        WaitFlag { value: T::default() }
    }
}

impl<T: Copy + Eq> WaitFlag<T> {
    pub fn new(value: T) -> (r: Self)
        ensures
            r.value == value,
    {
        WaitFlag { value }
    }

    pub fn set(&mut self, value: T)
        ensures
            final(self).value == value,
    {
        self.value = value;
    }

    pub fn get(&self) -> (r: T)
        ensures
            r == self.value,
    {
        self.value
    }

    /// Changes the value by a function.
    pub fn modify(&mut self, func: impl FnOnce(&mut T))
        requires
            forall|x: &mut T| *x == old(self).value ==> call_requires(func, (x,)),
        ensures
            exists|x: &mut T| #![trigger call_ensures(func, (x,), ())]
                *x == old(self).value && *final(x) == final(self).value && call_ensures(func, (x,), ()),
    {
        func(&mut self.value);
    }

    /// Whether the wait for a value is over.
    pub fn wait(&self, value: T) -> (r: bool)
        ensures
            T::obeys_eq_spec() ==> r == self.value.eq_spec(&value),
    {
        self.value == value
    }
}

} // verus!
