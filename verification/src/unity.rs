//! The Unity IL2CPP parser's identity.
use vstd::prelude::*;

verus! {

/// Stable name of the Unity IL2CPP parser.
pub const PARSER_NAME: &'static str = "il2cpp-unity";

} // verus!
