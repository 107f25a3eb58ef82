//! The function table through which a module without a linker reaches the
//! producer library.

use vstd::prelude::*;
use crate::abi::AVtableV1;
use crate::capi::Liba;

verus! {

/// The table that this module uses, once one was installed.
#[derive(Debug, Clone, Copy, PartialEq, Eq, Structural)]
pub struct Table {
    pub installed: Option<AVtableV1>,
}

impl Table {
    /// No table yet.
    pub fn new() -> (r: Table)
        ensures
            r == (Table { installed: None }),
    {
        Table { installed: None }
    }

    /// The state after `vt` was offered: the first table stays.
    pub open spec fn offered(self, vt: AVtableV1) -> Table {
        match self.installed {
            Some(_) => self,
            None => Table { installed: Some(vt) },
        }
    }

    /// Installs the table; the first one stays.
    pub fn init_vtable(&mut self, vt: AVtableV1)
        ensures
            *final(self) == old(self).offered(vt),
    {
        if self.installed.is_none() {
            self.installed = Some(vt);
        }
    }

    /// Whether a table was installed.
    pub fn is_installed(&self) -> (r: bool)
        ensures
            r == (self.installed is Some),
    {
        self.installed.is_some()
    }

    /// The table.
    pub fn vt(&self) -> (r: AVtableV1)
        requires
            self.installed is Some,
        ensures
            self.installed == Some(r),
    {
        self.installed.unwrap()
    }

    /// The library that the table leads to, among those that are loaded. Its
    /// entry points are the table's.
    pub fn library<'a>(&self, loaded: &'a mut Vec<Liba>) -> (r: &'a mut Liba)
        requires
            self.installed matches Some(t) && t.home < old(loaded)@.len(),
        ensures
            *r == old(loaded)@[self.installed->Some_0.home as int],
            final(loaded)@ == old(loaded)@.update(self.installed->Some_0.home as int, *final(r)),
    {
        let i = self.vt().home as usize;
        let n = loaded.len();
        assert(i < n);
        &mut loaded[i]
    }
}

/// Whoever offers a table later changes nothing, and an offer to an empty
/// place is taken.
pub proof fn law_first_table_stays(t: Table, first: AVtableV1, later: AVtableV1)
    ensures
        t.offered(first).offered(later) == t.offered(first),
        t.installed is None ==> t.offered(first).installed == Some(first),
{
}

} // verus!
