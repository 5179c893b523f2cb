//! The importers the application offers.
use crate::import::ImporterRegistry;
use vstd::prelude::*;

verus! {

/// A registry with the Fluke, Seaward and Kewtech importers, in that order.
pub fn registry() -> (r: ImporterRegistry)
    ensures
        r.importer_count() == 3,
        r.metas() == seq![
            crate::fluke::fluke_metadata(),
            crate::seaward::seaward_metadata(),
            crate::kewtech::kewtech_metadata(),
        ],
{
    let mut registry = ImporterRegistry::new();
    crate::fluke::register(&mut registry);
    crate::seaward::register(&mut registry);
    crate::kewtech::register(&mut registry);
    registry
}

} // verus!
