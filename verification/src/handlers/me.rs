//! The personal dashboard's query.
use vstd::prelude::*;

verus! {

/// `?flash=…` of the dashboard.
pub struct FlashQuery {
    pub flash: Option<String>,
}

} // verus!
