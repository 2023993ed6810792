pub mod chained_op_return;
pub mod p2wsh_fake_multisig;

use vstd::prelude::*;
use crate::utils::transaction::TxData;

verus! {

/// The marker that identifies embedded data: "444".
pub const ORDIKNOT_PREFIX: [u8; 3] = [0x34, 0x34, 0x34];

/// The marker as a sequence.
pub open spec fn spec_ordiknot_prefix() -> Seq<u8> {
    seq![0x34u8, 0x34u8, 0x34u8]
}

/// The technique used to embed a file in transactions.
#[derive(Debug, Clone, Copy, PartialEq, Eq, Structural)]
pub enum TechniqueType {
    ChainedOpReturn,
    P2wshFakeMultisig,
}

/// Errors of technique selection.
#[derive(Debug, Clone, PartialEq, Eq)]
pub enum TechniqueError {
    /// The name, given here, matched none of the known techniques.
    UnknownTechnique(String),
}

/// What `str::to_lowercase` returns, as a function of the characters of its argument.
pub uninterp spec fn spec_to_lowercase(s: Seq<char>) -> Seq<char>;

/// Whether every character is ASCII.
pub open spec fn spec_is_ascii(s: Seq<char>) -> bool {
    forall|i: int| 0 <= i < s.len() ==> (#[trigger] s[i] as u32) < 128
}

/// The ASCII lower case of a character: `A` to `Z` become `a` to `z`, every
/// other character stays.
pub open spec fn spec_ascii_lower(c: char) -> char {
    if 65 <= (c as u32) && (c as u32) <= 90 {
        ((c as u32) + 32) as char
    } else {
        c
    }
}

/// Calls `str::to_lowercase`. The contract claims that the result depends on
/// the characters of the argument alone, and names it; and, since the Unicode
/// lower case of an ASCII character is its ASCII lower case, that for ASCII
/// text each character is lower-cased in place. What it returns for other
/// characters is left unsaid.
#[verifier::external_body]
fn to_lowercase(s: &str) -> (r: String)
    ensures
        r@ == spec_to_lowercase(s@),
        spec_is_ascii(s@) ==> r@ == s@.map_values(|c: char| spec_ascii_lower(c)),
{
    s.to_lowercase()
}

/// The technique that an already lower-cased name selects.
pub open spec fn spec_technique_from_lowercase(l: Seq<char>) -> Option<TechniqueType> {
    if l == "chained-op-return"@ || l == "op-return"@ || l == "op_return"@ {
        Some(TechniqueType::ChainedOpReturn)
    } else if l == "p2wsh-fake-multisig"@ || l == "p2wsh"@ || l == "multisig"@ {
        Some(TechniqueType::P2wshFakeMultisig)
    } else {
        None
    }
}

/// Selects the technique named by a lower-cased string.
pub fn technique_from_lowercase(lower: &String) -> (r: Option<TechniqueType>)
    ensures
        r == spec_technique_from_lowercase(lower@),
{
    if *lower == String::from_str("chained-op-return") || *lower == String::from_str("op-return")
        || *lower == String::from_str("op_return") {
        Some(TechniqueType::ChainedOpReturn)
    } else if *lower == String::from_str("p2wsh-fake-multisig") || *lower == String::from_str(
        "p2wsh",
    ) || *lower == String::from_str("multisig") {
        Some(TechniqueType::P2wshFakeMultisig)
    } else {
        None
    }
}

impl TechniqueType {
    /// Parses a technique name, ignoring case.
    pub fn from_str(s: &str) -> (r: Result<TechniqueType, TechniqueError>)
        ensures
            match spec_technique_from_lowercase(spec_to_lowercase(s@)) {
                Some(t) => r == Ok::<TechniqueType, TechniqueError>(t),
                None => r matches Err(TechniqueError::UnknownTechnique(name)) && name@ == s@,
            },
            spec_is_ascii(s@) ==> match spec_technique_from_lowercase(s@.map_values(|c: char| spec_ascii_lower(c))) {
                Some(t) => r == Ok::<TechniqueType, TechniqueError>(t),
                None => r matches Err(TechniqueError::UnknownTechnique(name)) && name@ == s@,
            },
    {
        let lower = to_lowercase(s);
        match technique_from_lowercase(&lower) {
            Some(t) => Ok(t),
            None => Err(TechniqueError::UnknownTechnique(String::from_str(s))),
        }
    }
}

/// The name of a technique.
pub open spec fn spec_technique_name(t: TechniqueType) -> Seq<char> {
    match t {
        TechniqueType::ChainedOpReturn => "chained-op-return"@,
        TechniqueType::P2wshFakeMultisig => "p2wsh-fake-multisig"@,
    }
}

/// The code under which the index stores a technique.
pub open spec fn spec_db_code(t: TechniqueType) -> u8 {
    match t {
        TechniqueType::ChainedOpReturn => 1,
        TechniqueType::P2wshFakeMultisig => 2,
    }
}

/// The technique that a stored code names, if any.
pub open spec fn spec_from_db_code(code: u8) -> Option<TechniqueType> {
    if code == 1 {
        Some(TechniqueType::ChainedOpReturn)
    } else if code == 2 {
        Some(TechniqueType::P2wshFakeMultisig)
    } else {
        None
    }
}

impl TechniqueType {
    /// The name of the technique, as it is displayed.
    pub fn as_str(&self) -> (r: &'static str)
        ensures
            r@ == spec_technique_name(*self),
    {
        match self {
            TechniqueType::ChainedOpReturn => "chained-op-return",
            TechniqueType::P2wshFakeMultisig => "p2wsh-fake-multisig",
        }
    }

    /// The code under which the index stores the technique.
    pub fn db_code(&self) -> (r: u8)
        ensures
            r == spec_db_code(*self),
    {
        match self {
            TechniqueType::ChainedOpReturn => 1,
            TechniqueType::P2wshFakeMultisig => 2,
        }
    }

    /// The technique that a stored code names; other codes name none.
    pub fn from_db_code(code: u8) -> (r: Option<TechniqueType>)
        ensures
            r == spec_from_db_code(code),
    {
        if code == 1 {
            Some(TechniqueType::ChainedOpReturn)
        } else if code == 2 {
            Some(TechniqueType::P2wshFakeMultisig)
        } else {
            None
        }
    }
}

/// A stored code reads back as the technique it was stored for.
pub proof fn law_db_code_roundtrip(t: TechniqueType)
    ensures
        spec_from_db_code(spec_db_code(t)) == Some(t),
{
}

/// The name of each technique, which is already in lower case, selects it.
pub proof fn law_name_selects_technique(t: TechniqueType)
    ensures
        spec_technique_from_lowercase(spec_technique_name(t)) == Some(t),
{
    reveal_strlit("chained-op-return");
    reveal_strlit("p2wsh-fake-multisig");
    reveal_strlit("op-return");
    reveal_strlit("op_return");
    reveal_strlit("p2wsh");
    reveal_strlit("multisig");
    assert("p2wsh-fake-multisig"@.len() == 19);
    assert("chained-op-return"@.len() == 17);
    assert("op-return"@.len() == 9);
    assert("op_return"@.len() == 9);
}

/// The technique whose data a transaction carries: chained OP_RETURN is tried
/// first, then P2WSH fake multisig.
pub open spec fn spec_detect_technique(tx: TxData) -> Option<TechniqueType> {
    if chained_op_return::detect::spec_detect(tx.scripts()) {
        Some(TechniqueType::ChainedOpReturn)
    } else if p2wsh_fake_multisig::detect::spec_detect(tx.witnesses()) {
        Some(TechniqueType::P2wshFakeMultisig)
    } else {
        None
    }
}

/// Detects which technique, if any, embedded data in a transaction.
pub fn detect_technique(tx: &TxData) -> (r: Option<TechniqueType>)
    ensures
        r == spec_detect_technique(*tx),
{
    if chained_op_return::detect::detect(tx) {
        Some(TechniqueType::ChainedOpReturn)
    } else if p2wsh_fake_multisig::detect::detect(tx) {
        Some(TechniqueType::P2wshFakeMultisig)
    } else {
        None
    }
}

} // verus!
