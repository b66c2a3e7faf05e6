use vstd::prelude::*;
use crate::watched_shaders::{DependencySignal, WatchedShaders};

verus! {

/// What one call of [`PipelineSlot::maybe_rebuild`] did.
#[derive(Debug, PartialEq, Eq)]
pub enum RebuildOutcome<E> {
    /// The signal was clean: nothing was built.
    Skipped,
    /// A new object was built and now stands in the slot.
    Rebuilt,
    /// The build failed; the slot still holds what it held before.
    Failed(E),
}

/// Holds a subsystem's derived object (a pipeline), built lazily the first time its
/// dependency signal fires and rebuilt in place on every later firing.
pub struct PipelineSlot<T> {
    object: Option<T>,
}

impl<T> PipelineSlot<T> {
    /// The object in the slot, if one was ever built.
    pub closed spec fn current(&self) -> Option<T> {
        self.object
    }

    /// An empty slot: nothing built yet.
    pub fn new() -> (r: Self)
        ensures
            r.current() is None,
    {
        PipelineSlot { object: None }
    }

    /// True iff an object has been built at least once.
    pub fn is_ready(&self) -> (r: bool)
        ensures
            r == self.current() is Some,
    {
        self.object.is_some()
    }

    /// The object in the slot.
    pub fn object(&self) -> (r: &Option<T>)
        ensures
            *r == self.current(),
    {
        &self.object
    }

    /// Rebuilds the object when `dirty` is set, by calling `build` once.
    ///
    /// On success the new object replaces the old one; on failure the old one (or the
    /// absence of one) is kept and the error is handed back. A clean signal builds nothing.
    pub fn maybe_rebuild<E, F: FnOnce() -> Result<T, E>>(&mut self, dirty: bool, build: F) -> (r:
        RebuildOutcome<E>)
        requires
            dirty ==> build.requires(()),
        ensures
            !dirty ==> r is Skipped && final(self).current() == old(self).current(),
            dirty ==> exists|b: Result<T, E>|
                build.ensures((), b) && match b {
                    Ok(o) => r is Rebuilt && final(self).current() == Some(o),
                    Err(e) => r == RebuildOutcome::<E>::Failed(e) && final(self).current() == old(
                        self,
                    ).current(),
                },
    {
        if !dirty {
            return RebuildOutcome::Skipped;
        }
        let b = build();
        match b {
            Ok(o) => {
                self.object = Some(o);
                RebuildOutcome::Rebuilt
            },
            Err(e) => RebuildOutcome::Failed(e),
        }
    }

    /// A subsystem's per-tick update: rebuilds the object exactly when `signal` is in this
    /// tick's dirty set, with a single call of `build` however many of its shaders changed.
    pub fn update_system<E, F: FnOnce() -> Result<T, E>>(
        &mut self,
        shaders: &WatchedShaders,
        signal: &DependencySignal,
        build: F,
    ) -> (r: RebuildOutcome<E>)
        requires
            shaders.wf(),
            shaders.is_dirty(*signal) ==> build.requires(()),
        ensures
            !shaders.is_dirty(*signal) ==> r is Skipped && final(self).current() == old(
                self,
            ).current(),
            shaders.is_dirty(*signal) ==> exists|b: Result<T, E>|
                build.ensures((), b) && match b {
                    Ok(o) => r is Rebuilt && final(self).current() == Some(o),
                    Err(e) => r == RebuildOutcome::<E>::Failed(e) && final(self).current() == old(
                        self,
                    ).current(),
                },
    {
        let dirty = shaders.is_dependency_signaled(signal);
        self.maybe_rebuild(dirty, build)
    }

    /// Emits one frame's work through `record` and returns what that work uses.
    ///
    /// Before the first successful build this does nothing at all: `record` is not called
    /// and the used-object list is empty.
    pub fn render<U, G: FnOnce(&T) -> Vec<U>>(&self, record: G) -> (r: Vec<U>)
        requires
            self.current() matches Some(o) ==> record.requires((&o,)),
        ensures
            self.current() is None ==> r@.len() == 0,
            self.current() matches Some(o) ==> record.ensures((&o,), r),
    {
        match &self.object {
            None => Vec::new(),
            Some(o) => record(o),
        }
    }
}

} // verus!
