//! Model selection.
use vstd::prelude::*;
use crate::text::str_eq;

verus! {

pub open spec fn spec_available_models() -> Seq<Seq<char>> {
    seq!["gpt-4.1-mini"@, "gpt-4.1"@, "gpt-4o"@, "gpt-4o-mini"@, "o3-mini"@]
}

/// The models a client may switch to.
pub fn available_models() -> (r: &'static [&'static str])
    ensures
        r@.map_values(|s: &str| s@) == spec_available_models(),
{
    let r: &'static [&'static str] = &["gpt-4.1-mini", "gpt-4.1", "gpt-4o", "gpt-4o-mini", "o3-mini"];
    assert(r@.map_values(|s: &str| s@) =~= spec_available_models());
    r
}

/// A request to switch the current model.
#[derive(Debug)]
pub struct ModelSwitch {
    pub model: String,
}

/// The answer to a switch request.
#[derive(Debug)]
pub enum ModelChoice {
    /// The model is available and becomes current.
    Accepted(String),
    /// The model is not offered: `Unknown model: <name>`.
    Unknown(String),
}

pub fn choose_model(req: &ModelSwitch) -> (r: ModelChoice)
    ensures
        match r {
            ModelChoice::Accepted(m) => spec_available_models().contains(req.model@) && m@
                == req.model@,
            ModelChoice::Unknown(e) => !spec_available_models().contains(req.model@) && e@
                == "Unknown model: "@ + req.model@,
        },
{
    let names = available_models();
    let mut i: usize = 0;
    while i < names.len()
        invariant
            i <= names@.len(),
            names@.map_values(|s: &str| s@) == spec_available_models(),
            forall|j: int| 0 <= j < i ==> spec_available_models()[j] != req.model@,
        decreases names@.len() - i,
    {
        assert(spec_available_models()[i as int] == names@[i as int]@);
        if str_eq(names[i], req.model.as_str()) {
            return ModelChoice::Accepted(req.model.clone());
        }
        i = i + 1;
    }
    let mut e = String::from_str("Unknown model: ");
    e.append(req.model.as_str());
    ModelChoice::Unknown(e)
}

} // verus!
