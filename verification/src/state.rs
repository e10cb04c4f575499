//! A `Clone`-able, type-keyed bag of shared values: at most one value per
//! type, and every clone of a bag reads and writes the same storage.

use vstd::prelude::*;

use std::any::{Any, TypeId};
use std::cell::RefCell;
use std::collections::HashMap;
use std::rc::Rc;

verus! {

/// The bag. Its storage erases each value's type behind `dyn Any` and is
/// shared between clones through `Rc<RefCell<..>>`; Verus can declare neither
/// `Any` nor reason about `RefCell` contents, so the storage is opaque here.
#[verifier::external_body]
pub struct SharedState {
    bag: Rc<RefCell<HashMap<TypeId, Box<dyn Any>>>>,
}

impl Clone for SharedState {
    /// Another handle on the same bag (`Rc::clone`): values inserted through
    /// either handle are visible through both.
    #[verifier::external_body]
    fn clone(&self) -> Self {
        SharedState { bag: Rc::clone(&self.bag) }
    }
}

impl Default for SharedState {
    /// A new, empty bag (`Rc::new` around an empty `HashMap`).
    #[verifier::external_body]
    fn default() -> Self {
        SharedState { bag: Rc::new(RefCell::new(HashMap::new())) }
    }
}

impl SharedState {
    /// Stores `value` under its type, replacing the value stored there
    /// before (`HashMap::insert` on the shared bag, keyed by `TypeId::of`).
    /// What the bag holds is shared state that Verus does not track, so
    /// nothing is stated about later reads.
    #[verifier::external_body]
    pub fn insert<T: Clone + 'static>(&self, value: T) {
        self.bag.borrow_mut().insert(TypeId::of::<T>(), Box::new(value));
    }

    /// A clone of the value stored under `T`, if any (`HashMap::get`,
    /// `downcast_ref` and `Clone::clone` on the shared bag). The result
    /// depends on earlier inserts into any clone of this bag, which Verus
    /// does not track, so nothing is stated about it.
    #[verifier::external_body]
    pub fn get<T: Clone + 'static>(&self) -> Option<T> {
        self.bag.borrow().get(&TypeId::of::<T>()).and_then(|value| value.downcast_ref::<T>()).cloned()
    }

    /// The value stored under `T`; when there is none, `make` builds it once,
    /// it is stored, and that very value is returned.
    pub fn get_or_insert_with<T: Clone + 'static, F: FnOnce() -> T>(&self, make: F) -> (value: T)
        requires
            make.requires(()),
    {
        if let Some(value) = self.get::<T>() {
            return value;
        }
        let value = make();
        self.insert(value.clone());
        value
    }
}

} // verus!
