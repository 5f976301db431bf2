//! A table with one slot per severity.

use vstd::prelude::*;
use crate::level::Level;
use crate::level::LEVEL_COUNT;

verus! {

/// One value of `T` for each of the five severities.
#[derive(Debug)]
pub struct LevelMap<T> {
    map: [T; 5],
}

impl<T> LevelMap<T> {
    /// The slots in the order of the severities.
    pub closed spec fn view(&self) -> Seq<T> {
        self.map@
    }

    /// The value kept for `level`.
    pub open spec fn spec_get(&self, level: Level) -> T {
        self@[level.spec_index()]
    }

    /// The table always holds exactly five slots.
    pub proof fn lemma_len(&self)
        ensures
            self@.len() == LEVEL_COUNT,
    {
    }

    /// Builds the table by asking `f` for the value of each severity, from
    /// `Trace` to `Error`.
    pub fn from_fn<F: Fn(Level) -> T>(f: F) -> (table: LevelMap<T>)
        requires
            forall|level: Level| f.requires((level,)),
        ensures
            table@.len() == LEVEL_COUNT,
            forall|level: Level| f.ensures((level,), #[trigger] table.spec_get(level)),
    {
        let trace = f(Level::Trace);
        let debug = f(Level::Debug);
        let info = f(Level::Info);
        let warn = f(Level::Warn);
        let error = f(Level::Error);
        let table = LevelMap { map: [trace, debug, info, warn, error] };
        assert forall|level: Level| f.ensures((level,), #[trigger] table.spec_get(level)) by {
            match level {
                Level::Trace => {},
                Level::Debug => {},
                Level::Info => {},
                Level::Warn => {},
                Level::Error => {},
            }
        }
        table
    }

    /// The value kept for `level`.
    pub fn get(&self, level: Level) -> (value: &T)
        ensures
            *value == self.spec_get(level),
    {
        &self.map[level.index()]
    }

    /// All five values, in the order of the severities.
    pub fn values(&self) -> (values: &[T])
        ensures
            values@ == self@,
            values@.len() == LEVEL_COUNT,
    {
        self.map.as_slice()
    }

    /// The value kept for `level`, for changing it in place.
    pub fn get_mut(&mut self, level: Level) -> (value: &mut T)
        ensures
            *value == old(self).spec_get(level),
            final(self)@ == old(self)@.update(level.spec_index(), *final(value)),
    {
        &mut self.map[level.index()]
    }

    /// All five values, for changing them in place.
    pub fn values_mut(&mut self) -> (values: &mut [T])
        ensures
            values@ == old(self)@,
            final(self)@ == final(values)@,
    {
        &mut self.map
    }
}

} // verus!
