//! Window metadata as the host lists it. Enumerating and focusing windows is
//! platform work the embedding program does; the model here is the handle
//! and title it reports.

use vstd::prelude::*;

verus! {

/// One top-level window: an opaque platform handle and its title.
#[derive(Debug)]
pub struct WindowInfo {
    pub handle: isize,
    pub title: String,
}

impl WindowInfo {
    /// A field-for-field copy.
    pub fn duplicate(&self) -> (r: WindowInfo)
        ensures
            r.handle == self.handle,
            r.title@ == self.title@,
    {
        WindowInfo { handle: self.handle, title: self.title.clone() }
    }
}

} // verus!
