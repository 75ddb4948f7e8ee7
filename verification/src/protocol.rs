//! The PPS envelope: `data` (required) and `schema` (optional).
use vstd::prelude::*;
use crate::json::Json;

verus! {

pub struct Envelope {
    pub schema: Option<String>,
    pub data: Vec<Json>,
}

} // verus!
