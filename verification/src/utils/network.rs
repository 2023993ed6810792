//! The networks that the tools name and check.
use vstd::prelude::*;

verus! {

/// A Bitcoin network, as far as the tools tell them apart.
#[derive(Debug, Clone, Copy, PartialEq, Eq, Structural)]
pub enum NetworkKind {
    Bitcoin,
    Testnet,
    Signet,
    Regtest,
    Other,
}

/// Errors about networks.
#[derive(Debug, Clone, Copy, PartialEq, Eq, Structural)]
pub enum NetworkError {
    /// The name is neither "bitcoin" nor "regtest".
    InvalidNetwork,
    /// The node runs another network than the one expected.
    WrongNetwork,
}

/// The network that a command-line name selects: "bitcoin" or "regtest".
pub open spec fn spec_parse_network(s: Seq<char>) -> Result<NetworkKind, NetworkError> {
    if s == "bitcoin"@ {
        Ok(NetworkKind::Bitcoin)
    } else if s == "regtest"@ {
        Ok(NetworkKind::Regtest)
    } else {
        Err(NetworkError::InvalidNetwork)
    }
}

/// Parses the network named on the command line.
pub fn parse_network(s: &str) -> (r: Result<NetworkKind, NetworkError>)
    ensures
        r == spec_parse_network(s@),
{
    let name = String::from_str(s);
    if name == String::from_str("bitcoin") {
        Ok(NetworkKind::Bitcoin)
    } else if name == String::from_str("regtest") {
        Ok(NetworkKind::Regtest)
    } else {
        Err(NetworkError::InvalidNetwork)
    }
}

/// The chain name that a node reports for a network.
pub open spec fn spec_chain_name(n: NetworkKind) -> Seq<char> {
    match n {
        NetworkKind::Bitcoin => "main"@,
        NetworkKind::Testnet => "test"@,
        NetworkKind::Signet => "signet"@,
        NetworkKind::Regtest => "regtest"@,
        NetworkKind::Other => "unknown"@,
    }
}

/// The chain name of a network.
pub fn chain_name(n: NetworkKind) -> (r: &'static str)
    ensures
        r@ == spec_chain_name(n),
{
    match n {
        NetworkKind::Bitcoin => "main",
        NetworkKind::Testnet => "test",
        NetworkKind::Signet => "signet",
        NetworkKind::Regtest => "regtest",
        NetworkKind::Other => "unknown",
    }
}

/// Checks that the node's network has the expected chain name.
pub fn validate_network(n: NetworkKind, expected_network: &str) -> (r: Result<(), NetworkError>)
    ensures
        r == if spec_chain_name(n) == expected_network@ {
            Ok::<(), NetworkError>(())
        } else {
            Err(NetworkError::WrongNetwork)
        },
{
    if String::from_str(chain_name(n)) == String::from_str(expected_network) {
        Ok(())
    } else {
        Err(NetworkError::WrongNetwork)
    }
}

} // verus!
