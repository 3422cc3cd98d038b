//! Production sites and their ERP codes.

use vstd::prelude::*;
use crate::text::text_eq;

verus! {

/// A production site.
#[derive(Clone, Copy, Debug, PartialEq, Eq, Structural, Hash)]
pub enum Plant {
    /// Lancaster, code `HS01`.
    Lancaster,
    /// Williamsport, code `HS02`.
    Williamsport,
}

/// An order-type or plant code outside the known set.
#[derive(Clone, Debug, PartialEq, Eq)]
pub struct UnknownCode {
    pub code: String,
}

/// The ERP code of a plant.
pub open spec fn plant_code(p: Plant) -> Seq<char> {
    match p {
        Plant::Lancaster => seq!['H', 'S', '0', '1'],
        Plant::Williamsport => seq!['H', 'S', '0', '2'],
    }
}

/// The plant that a code names, if any.
pub open spec fn plant_of_code(code: Seq<char>) -> Option<Plant> {
    if code == plant_code(Plant::Lancaster) {
        Some(Plant::Lancaster)
    } else if code == plant_code(Plant::Williamsport) {
        Some(Plant::Williamsport)
    } else {
        None
    }
}

impl Plant {
    /// The ERP code of this plant.
    pub fn code(&self) -> (r: &'static str)
        ensures
            r@ == plant_code(*self),
    {
        proof {
            reveal_strlit("HS01");
            reveal_strlit("HS02");
        }
        match self {
            Plant::Lancaster => "HS01",
            Plant::Williamsport => "HS02",
        }
    }

    /// The plant that `code` names; any other code is refused.
    pub fn from_code(code: &str) -> (r: Result<Plant, UnknownCode>)
        ensures
            match plant_of_code(code@) {
                Some(p) => r == Ok::<Plant, UnknownCode>(p),
                None => r matches Err(e) && e.code@ == code@,
            },
    {
        proof {
            reveal_strlit("HS01");
            reveal_strlit("HS02");
            assert("HS01"@ =~= plant_code(Plant::Lancaster));
            assert("HS02"@ =~= plant_code(Plant::Williamsport));
        }
        if text_eq(code, "HS01") {
            Ok(Plant::Lancaster)
        } else if text_eq(code, "HS02") {
            Ok(Plant::Williamsport)
        } else {
            Err(UnknownCode { code: code.to_owned() })
        }
    }
}

/// Every plant's code names that plant again.
pub proof fn lemma_plant_code_round_trip(p: Plant)
    ensures
        plant_of_code(plant_code(p)) == Some(p),
{
    if p == Plant::Williamsport {
        assert(plant_code(Plant::Lancaster)[3] != plant_code(Plant::Williamsport)[3]);
    }
}

} // verus!
