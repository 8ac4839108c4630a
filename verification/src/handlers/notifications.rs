//! The inbox's query and forms.
use vstd::prelude::*;

verus! {

/// `?flash=…` of the inbox.
pub struct FlashQuery {
    pub flash: Option<String>,
}

/// The inbox's e-mail prompt: `yes` opts in, `no` acknowledges.
pub struct EmailOptInForm {
    pub email_opt_in: String,
}

} // verus!
