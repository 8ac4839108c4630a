//! Project forms and their validation.
use vstd::prelude::*;
use crate::text::{chars_of, string_of};

verus! {

/// `?flash=…` of the project pages.
pub struct FlashQuery {
    pub flash: Option<String>,
}

/// The project create/edit form.
pub struct ProjectForm {
    /// 1 to 120 characters.
    pub name: String,
    /// At most 4000 characters.
    pub description: String,
    /// Empty for a personal project.
    pub team_id: String,
    /// The lock value captured when the edit form was rendered.
    pub client_updated_at: String,
}

pub open spec fn name_message() -> Seq<char> {
    "Name is required (max 120 chars)."@
}

pub open spec fn project_description_message() -> Seq<char> {
    "Description must be under 4000 chars."@
}

/// The messages of the failed fields of a project form, in field order:
/// the name must hold 1 to 120 characters, the description at most 4000.
pub open spec fn project_form_messages(name: Seq<char>, description: Seq<char>) -> Seq<Seq<char>> {
    (if 1 <= name.len() <= 120 {
        Seq::empty()
    } else {
        seq![name_message()]
    }) + (if description.len() <= 4000 {
        Seq::empty()
    } else {
        seq![project_description_message()]
    })
}

impl ProjectForm {
    /// The messages of the fields that fail validation (empty when the
    /// form is valid).
    pub fn validation_messages(&self) -> (r: Vec<String>)
        ensures
            r@.map_values(|s: String| s@) == project_form_messages(self.name@, self.description@),
    {
        let name = chars_of(self.name.as_str());
        let description = chars_of(self.description.as_str());
        let mut out: Vec<String> = Vec::new();
        if !(1 <= name.len() && name.len() <= 120) {
            out.push(string_of(&chars_of("Name is required (max 120 chars).")));
        }
        if description.len() > 4000 {
            out.push(string_of(&chars_of("Description must be under 4000 chars.")));
        }
        proof {
            assert(out@.map_values(|s: String| s@) =~= project_form_messages(
                self.name@,
                self.description@,
            ));
        }
        out
    }
}

} // verus!
