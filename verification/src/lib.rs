//! Layered configuration resolution.
//!
//! A configuration is assembled from an ordered stack of sources (files,
//! inline text, command-line arguments), each contributing a partial view
//! where every field may be absent.  The layers are merged in priority
//! order and the merged partial view is then validated for completeness.

use vstd::prelude::*;

pub mod builder;
pub mod error;
pub mod format;
pub mod laws;
pub mod loader;
pub mod model;
pub mod paths;

pub use builder::Builder;
pub use error::Error;
pub use error::Source;
pub use format::Format;
pub use model::FieldDesc;
pub use model::FieldKind;
pub use model::Partial;
pub use model::Shape;
pub use model::Slot;
pub use model::Value;

verus! {

use crate::model::{compat, merge_slots, missing_slots, strings_view, wf_slots};

/// The merge capability of a partial configuration view: fill every field
/// this view leaves unset from a lower-priority view, recursively for
/// nested sub-configurations.
pub trait LayeredConfMerge<TLayer> {
    /// What the receiving view demands of the lower-priority view.
    spec fn merge_req(&self, other: &TLayer) -> bool;

    /// What `merge_from` leaves in the receiving view.
    spec fn merge_ens(&self, other: &TLayer, result: &Self) -> bool;

    /// Fills every field `self` leaves unset from `other`, which has the
    /// lower priority; fields set in `self` survive untouched, and nested
    /// sub-configurations merge field-wise.
    fn merge_from(&mut self, other: &TLayer)
        requires
            old(self).merge_req(other),
        ensures
            old(self).merge_ens(other, final(self)),
    ;
}

/// The validation capability of a partial configuration view: yield the
/// complete configuration, or the names of every required field still
/// unset.
pub trait LayeredConfSolidify<TSolid> {
    /// What solidifying demands of the view.
    spec fn solidify_req(&self, shape: &crate::model::Shape) -> bool;

    /// What `solidify` returns.
    spec fn solidify_ens(&self, shape: &crate::model::Shape, result: &Result<TSolid, Error>) -> bool;

    /// Validates the view against its shape: every required field must be
    /// set, nested sub-configurations included; otherwise every unset
    /// required field is reported together.
    fn solidify(&self, shape: &crate::model::Shape) -> (result: Result<TSolid, Error>)
        requires
            self.solidify_req(shape),
        ensures
            self.solidify_ens(shape, &result),
    ;
}

impl LayeredConfMerge<Partial> for Partial {
    open spec fn merge_req(&self, other: &Partial) -> bool {
        compat(self@, other@)
    }

    open spec fn merge_ens(&self, other: &Partial, result: &Self) -> bool {
        result@ == merge_slots(self@, other@)
    }

    fn merge_from(&mut self, other: &Partial) {
        let merged = crate::model::merge_slot_vecs(&self.slots, &other.slots);
        self.slots = merged;
    }
}

impl LayeredConfSolidify<Partial> for Partial {
    open spec fn solidify_req(&self, shape: &crate::model::Shape) -> bool {
        wf_slots(self@, shape@)
    }

    open spec fn solidify_ens(&self, shape: &crate::model::Shape, result: &Result<
        Partial,
        Error,
    >) -> bool {
        if missing_slots(shape@, self@).len() == 0 {
            result matches Result::Ok(p) && p@ == self@
        } else {
            result matches Result::Err(e) && e@ == (error::ErrorV::SolidifyFailedMissing {
                missing: missing_slots(shape@, self@),
            })
        }
    }

    fn solidify(&self, shape: &crate::model::Shape) -> (result: Result<Partial, Error>) {
        let missing = self.missing_fields(shape);
        if missing.len() == 0 {
            proof {
                assert(strings_view(missing@) =~= Seq::<Seq<char>>::empty());
            }
            Result::Ok(self.duplicate())
        } else {
            Result::Err(Error::SolidifyFailedMissing { missing })
        }
    }
}

} // verus!
