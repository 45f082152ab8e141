//! The hash type of a script and the kind of a cell dependency.
use vstd::prelude::*;

verus! {

/// Block numbers count blocks from the genesis block.
pub type BlockNumber = u64;

/// Specifies how the script `code_hash` is used to match the script code and how to run the code.
/// The low bit tells "type" (1) from "data" (0); the high seven bits select the VM version
/// of a "data" script.
#[derive(Clone, Copy, PartialEq, Eq, Debug, Structural)]
pub enum ScriptHashType {
    /// Matches the script code by its cell data hash, runs it in the v0 VM (byte 0).
    Data,
    /// Matches the script code by its cell type script hash (byte 1).
    Type,
    /// Matches the script code by its cell data hash, runs it in the v1 VM (byte 2).
    Data1,
    /// Matches the script code by its cell data hash, runs it in the v2 VM (byte 4).
    Data2,
}

/// The byte that encodes a script hash type.
pub open spec fn script_hash_type_byte(t: ScriptHashType) -> u8 {
    match t {
        ScriptHashType::Data => 0,
        ScriptHashType::Type => 1,
        ScriptHashType::Data1 => 2,
        ScriptHashType::Data2 => 4,
    }
}

impl Default for ScriptHashType {
    fn default() -> (r: Self)
        ensures
            r == ScriptHashType::Data,
    {
        ScriptHashType::Data
    }
}

impl ScriptHashType {
    /// Whether `v` is the byte of some script hash type.
    pub fn verify_value(v: u8) -> (r: bool)
        ensures
            r == (v <= 4 && v != 3),
    {
        v <= 4 && v != 3
    }
}

impl From<ScriptHashType> for u8 {
    fn from(t: ScriptHashType) -> (r: u8) {
        match t {
            ScriptHashType::Data => 0,
            ScriptHashType::Type => 1,
            ScriptHashType::Data1 => 2,
            ScriptHashType::Data2 => 4,
        }
    }
}

impl vstd::std_specs::convert::FromSpecImpl<ScriptHashType> for u8 {
    open spec fn obeys_from_spec() -> bool {
        true
    }

    open spec fn from_spec(t: ScriptHashType) -> u8 {
        script_hash_type_byte(t)
    }
}

/// The kind of a cell dependency.
#[derive(Clone, Copy, PartialEq, Eq, Hash, Debug, Structural)]
pub enum DepType {
    /// The dependency is the code cell itself (byte 0).
    Code,
    /// The dependency's data lists further out points (byte 1).
    DepGroup,
}

/// The byte that encodes a dependency kind.
pub open spec fn dep_type_byte(t: DepType) -> u8 {
    match t {
        DepType::Code => 0,
        DepType::DepGroup => 1,
    }
}

impl Default for DepType {
    fn default() -> (r: Self)
        ensures
            r == DepType::Code,
    {
        DepType::Code
    }
}

impl From<DepType> for u8 {
    fn from(t: DepType) -> (r: u8) {
        match t {
            DepType::Code => 0,
            DepType::DepGroup => 1,
        }
    }
}

impl vstd::std_specs::convert::FromSpecImpl<DepType> for u8 {
    open spec fn obeys_from_spec() -> bool {
        true
    }

    open spec fn from_spec(t: DepType) -> u8 {
        dep_type_byte(t)
    }
}

impl DepType {
    /// Whether `v` is the byte of some dependency kind.
    pub fn verify_value(v: u8) -> (r: bool)
        ensures
            r == (v <= 1),
    {
        v <= 1
    }
}

/// `ScriptHashType::verify_value` accepts exactly the bytes that encode a hash type.
pub proof fn lemma_script_hash_type_bytes(v: u8)
    ensures
        (v <= 4 && v != 3) <==> exists|t: ScriptHashType| script_hash_type_byte(t) == v,
{
    if v <= 4 && v != 3 {
        if v == 0 {
            assert(script_hash_type_byte(ScriptHashType::Data) == v);
        } else if v == 1 {
            assert(script_hash_type_byte(ScriptHashType::Type) == v);
        } else if v == 2 {
            assert(script_hash_type_byte(ScriptHashType::Data1) == v);
        } else {
            assert(script_hash_type_byte(ScriptHashType::Data2) == v);
        }
    }
}

/// `DepType::verify_value` accepts exactly the bytes that encode a dependency kind.
pub proof fn lemma_dep_type_bytes(v: u8)
    ensures
        (v <= 1) <==> exists|t: DepType| dep_type_byte(t) == v,
{
    if v == 0 {
        assert(dep_type_byte(DepType::Code) == v);
    } else if v == 1 {
        assert(dep_type_byte(DepType::DepGroup) == v);
    }
}

} // verus!
