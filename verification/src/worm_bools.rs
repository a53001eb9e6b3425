//! A boolean that can be set to `true` once and never goes back to `false`.

use std::ops::{Deref, Not};
use vstd::prelude::*;
use vstd::std_specs::ops::NotSpecImpl;

verus! {

/// Boolean which can only be set to true.
#[derive(Debug, Clone, Copy)]
pub struct RiseOnlyBool(bool);

impl RiseOnlyBool {
    /// The value held.
    pub closed spec fn risen(self) -> bool {
        self.0
    }

    /// The boolean as it is after `rise_if(value)`.
    pub closed spec fn after_rise(self, value: bool) -> RiseOnlyBool {
        RiseOnlyBool(self.0 || value)
    }

    /// Create a new instance (if given true, there is no way to toggle back).
    pub fn new(value: bool) -> (b: Self)
        ensures
            b.risen() == value,
    {
        Self(value)
    }

    /// Set the boolean if `value` is true and it is not set yet; returns the value held
    /// afterwards.
    pub fn rise_if(&mut self, value: bool) -> (now: bool)
        ensures
            *final(self) == old(self).after_rise(value),
            final(self).risen() == (old(self).risen() || value),
            now == final(self).risen(),
    {
        if !self.0 && value {
            self.0 = value;
        }
        self.0
    }

    /// Get the value of this boolean.
    pub fn value(&self) -> (v: bool)
        ensures
            v == self.risen(),
    {
        self.0
    }

    /// What `after_rise` does to the value held; two instances that hold the same value are
    /// equal.
    pub proof fn lemma_after_rise(self, value: bool)
        ensures
            self.after_rise(value).risen() == (self.risen() || value),
            self.risen() ==> self.after_rise(value) == self,
            !value ==> self.after_rise(value) == self,
    {
    }

    /// An instance is determined by the value it holds.
    pub proof fn lemma_risen_determines(self, other: RiseOnlyBool)
        requires
            self.risen() == other.risen(),
        ensures
            self == other,
    {
    }
}

impl Default for RiseOnlyBool {
    fn default() -> (b: Self)
        ensures
            !b.risen(),
    {
        Self(false)
    }
}

impl Not for RiseOnlyBool {
    type Output = bool;

    fn not(self) -> (r: bool) {
        !self.value()
    }
}

impl NotSpecImpl for RiseOnlyBool {
    open spec fn obeys_not_spec() -> bool {
        true
    }

    open spec fn not_req(self) -> bool {
        true
    }

    open spec fn not_spec(self) -> bool {
        !self.risen()
    }
}

impl Deref for RiseOnlyBool {
    type Target = bool;

    fn deref(&self) -> (r: &bool)
        ensures
            *r == self.risen(),
    {
        &self.0
    }
}

} // verus!
