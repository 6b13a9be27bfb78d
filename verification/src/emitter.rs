//! The per-compilation-unit emission context.
//!
//! One [`Emitter`] is constructed per compilation unit and owns the three
//! monotonic identifier generators (labels, local slots, iterators) together
//! with the frozen options and global state.  The relabeling passes never
//! touch the generators; only the fresh-label cloner allocates from the
//! label generator.

use vstd::prelude::*;

use crate::iterator::Iter;
use crate::label;
use crate::local;

verus! {

/// Frozen compiler options; constant after the emitter is constructed and
/// opaque to this subsystem.
#[derive(Debug, Default, Clone, Copy, PartialEq, Eq, Structural)]
pub struct Options {}

/// Global state fixed after closure conversion; opaque to this subsystem.
#[derive(Debug, Default, Clone, Copy, PartialEq, Eq, Structural)]
pub struct GlobalState {}

/// The emission context of one compilation unit.
#[derive(Debug, Default)]
pub struct Emitter {
    /// Options are frozen after the emitter is constructed.
    opts: Options,
    /// State is frozen and set after closure conversion.
    state: GlobalState,
    /// Part of the context, changed externally through [`Context`].
    systemlib: bool,
    label_gen: label::Gen,
    local_gen: local::Gen,
    iterator: Iter,
}

impl Emitter {
    pub closed spec fn spec_label_gen(self) -> label::Gen {
        self.label_gen
    }

    pub closed spec fn spec_local_gen(self) -> local::Gen {
        self.local_gen
    }

    pub closed spec fn spec_iterator(self) -> Iter {
        self.iterator
    }

    pub closed spec fn spec_options(self) -> Options {
        self.opts
    }

    pub closed spec fn spec_systemlib(self) -> bool {
        self.systemlib
    }

    pub fn new(opts: Options, state: GlobalState) -> (e: Emitter)
        ensures
            e.spec_options() == opts,
            e.spec_label_gen().spec_next_id() == 0,
            e.spec_local_gen().spec_counter() == 0,
            e.spec_iterator().spec_next() == 0,
            !e.spec_systemlib(),
    {
        Emitter {
            opts,
            state,
            systemlib: false,
            label_gen: label::Gen::new(),
            local_gen: local::Gen::new(),
            iterator: Iter::new(),
        }
    }

    pub fn options(&self) -> (r: &Options)
        ensures
            *r == self.spec_options(),
    {
        &self.opts
    }

    /// Destruct the emitter but salvage its options, for emitting a fatal
    /// program.
    pub fn into_options(self) -> (r: Options)
        ensures
            r == self.spec_options(),
    {
        self.opts
    }

    pub fn iterator_mut(&mut self) -> (r: &mut Iter)
        ensures
            *r == old(self).spec_iterator(),
            final(self).spec_iterator() == *final(r),
            final(self).spec_label_gen() == old(self).spec_label_gen(),
            final(self).spec_local_gen() == old(self).spec_local_gen(),
            final(self).spec_options() == old(self).spec_options(),
            final(self).spec_systemlib() == old(self).spec_systemlib(),
    {
        &mut self.iterator
    }

    pub fn label_gen_mut(&mut self) -> (r: &mut label::Gen)
        ensures
            *r == old(self).spec_label_gen(),
            final(self).spec_label_gen() == *final(r),
            final(self).spec_local_gen() == old(self).spec_local_gen(),
            final(self).spec_iterator() == old(self).spec_iterator(),
            final(self).spec_options() == old(self).spec_options(),
            final(self).spec_systemlib() == old(self).spec_systemlib(),
    {
        &mut self.label_gen
    }

    pub fn local_gen_mut(&mut self) -> (r: &mut local::Gen)
        ensures
            *r == old(self).spec_local_gen(),
            final(self).spec_local_gen() == *final(r),
            final(self).spec_label_gen() == old(self).spec_label_gen(),
            final(self).spec_iterator() == old(self).spec_iterator(),
            final(self).spec_options() == old(self).spec_options(),
            final(self).spec_systemlib() == old(self).spec_systemlib(),
    {
        &mut self.local_gen
    }
}

/// Interface for changing the context's behaviour, exposed to the driver.
pub trait Context {
    spec fn ctx_systemlib(&self) -> bool;

    fn set_systemlib(&mut self, flag: bool)
        ensures
            final(self).ctx_systemlib() == flag,
    ;

    fn systemlib(&self) -> (r: bool)
        ensures
            r == self.ctx_systemlib(),
    ;
}

impl Context for Emitter {
    closed spec fn ctx_systemlib(&self) -> bool {
        self.systemlib
    }

    fn set_systemlib(&mut self, flag: bool) {
        self.systemlib = flag;
    }

    fn systemlib(&self) -> (r: bool) {
        self.systemlib
    }
}

/// A lazily initialized state slot that another compilation stage fills in.
#[derive(Debug)]
pub struct DynState<T> {
    slot: Option<T>,
}

impl<T> DynState<T> {
    pub closed spec fn spec_slot(&self) -> Option<T> {
        self.slot
    }

    pub fn new() -> (r: DynState<T>)
        ensures
            r.spec_slot() is None,
    {
        DynState { slot: None }
    }

    /// Return the held state, first installing `init`'s result if the slot
    /// is still empty.
    pub fn get_or_init<F: FnOnce() -> T>(&mut self, init: F) -> (r: &mut T)
        requires
            old(self).spec_slot() is None ==> call_requires(init, ()),
        ensures
            old(self).spec_slot() is Some ==> *r == old(self).spec_slot()->0,
            old(self).spec_slot() is None ==> call_ensures(init, (), *r),
            final(self).spec_slot() == Some(*final(r)),
    {
        if self.slot.is_none() {
            self.slot = Some(init());
        }
        match &mut self.slot {
            Some(t) => t,
            None => {
                proof {
                    assert(false);
                }
                unreached()
            },
        }
    }

    /// The held state, if initialized.
    pub fn as_ref(&self) -> (r: Option<&T>)
        ensures
            r is Some <==> self.spec_slot() is Some,
            r is Some ==> *r->0 == self.spec_slot()->0,
    {
        match &self.slot {
            Some(t) => Some(t),
            None => None,
        }
    }
}

impl<T> Default for DynState<T> {
    fn default() -> (r: Self)
        ensures
            r.spec_slot() is None,
    {
        DynState { slot: None }
    }
}

} // verus!
