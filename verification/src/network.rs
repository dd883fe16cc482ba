//! Network types: the network a node runs on and its identifier.
//!
//! Three networks exist — mainnet, testnet and simnet — each with its
//! fixed default ports and its lowercase name; a network identifier
//! wraps the type and can carry the `vecno-` prefix in text form.

use vstd::prelude::*;
use vstd::string::StringSliceAdditionalSpecFns;
use vstd::utf8::encode_utf8;

verus! {

/// The network a node runs on.
#[derive(Debug, Clone, Copy, PartialEq, Eq, Hash, Structural)]
pub enum NetworkType {
    Mainnet,
    Testnet,
    Simnet,
}

/// A string did not name a network type.
#[derive(Debug, Clone, PartialEq, Eq)]
pub enum NetworkTypeError {
    InvalidNetworkType(String),
}

/// A string did not name a network identifier.
#[derive(Debug, Clone, PartialEq, Eq)]
pub enum NetworkIdError {
    /// The expected leading `vecno-` is absent.
    InvalidPrefix(String),
    InvalidNetworkType(NetworkTypeError),
}

/// ASCII upper-case letters folded to lower case; other bytes kept.
pub open spec fn ascii_lower(b: Seq<u8>) -> Seq<u8> {
    Seq::new(
        b.len(),
        |i: int|
            if 65 <= b[i] <= 90 {
                (b[i] + 32) as u8
            } else {
                b[i]
            },
    )
}

/// The lowercase name of each network.
pub open spec fn name_chars(t: NetworkType) -> Seq<char> {
    match t {
        NetworkType::Mainnet => "mainnet"@,
        NetworkType::Testnet => "testnet"@,
        NetworkType::Simnet => "simnet"@,
    }
}

/// The lowercase name of each network, as its UTF-8 bytes.
pub open spec fn name_bytes(t: NetworkType) -> Seq<u8> {
    encode_utf8(name_chars(t))
}

/// The canonical names parse back to their own network: each is
/// already lower case, and no two coincide, so parsing inverts
/// printing by the contracts of `name` and `from_str`.
pub proof fn lemma_name_parse_roundtrip(t: NetworkType)
    ensures
        ascii_lower(name_bytes(t)) == name_bytes(t),
        name_bytes(NetworkType::Mainnet) != name_bytes(NetworkType::Testnet),
        name_bytes(NetworkType::Mainnet) != name_bytes(NetworkType::Simnet),
        name_bytes(NetworkType::Testnet) != name_bytes(NetworkType::Simnet),
{
    reveal_strlit("mainnet");
    reveal_strlit("testnet");
    reveal_strlit("simnet");
    assert(vstd::utf8::is_ascii_chars("mainnet"@));
    assert(vstd::utf8::is_ascii_chars("testnet"@));
    assert(vstd::utf8::is_ascii_chars("simnet"@));
    vstd::utf8::is_ascii_chars_encode_utf8("mainnet"@);
    vstd::utf8::is_ascii_chars_encode_utf8("testnet"@);
    vstd::utf8::is_ascii_chars_encode_utf8("simnet"@);
    assert(name_bytes(NetworkType::Mainnet) =~= seq![
        109u8,
        97u8,
        105u8,
        110u8,
        110u8,
        101u8,
        116u8,
    ]);
    assert(name_bytes(NetworkType::Testnet) =~= seq![
        116u8,
        101u8,
        115u8,
        116u8,
        110u8,
        101u8,
        116u8,
    ]);
    assert(name_bytes(NetworkType::Simnet) =~= seq![115u8, 105u8, 109u8, 110u8, 101u8, 116u8]);
    assert(ascii_lower(name_bytes(t)) =~= name_bytes(t));
    assert(name_bytes(NetworkType::Mainnet)[0] != name_bytes(NetworkType::Testnet)[0]);
    assert(name_bytes(NetworkType::Mainnet)[0] != name_bytes(NetworkType::Simnet)[0]);
    assert(name_bytes(NetworkType::Testnet)[0] != name_bytes(NetworkType::Simnet)[0]);
}

/// Compares the byte tail from `start`, lowered, with a name's bytes.
#[verifier::loop_isolation(false)]
fn lowered_eq(b: &[u8], start: usize, name: &str) -> (r: bool)
    requires
        start <= b@.len(),
    ensures
        r == (ascii_lower(b@.skip(start as int)) == name.spec_bytes()),
{
    let ghost t = b@.skip(start as int);
    let nb = name.as_bytes();
    let n = b.len() - start;
    if n != nb.len() {
        proof {
            assert(ascii_lower(t).len() == t.len());
        }
        return false;
    }
    let mut i: usize = 0;
    while i < n
        invariant
            i <= n,
            start + n == b@.len(),
            n == nb@.len(),
            forall|j: int| 0 <= j < i ==> ascii_lower(t)[j] == nb@[j],
        decreases n - i,
    {
        let c = b[start + i];
        let lowered: u8 = if c >= 65 && c <= 90 {
            c + 32
        } else {
            c
        };
        proof {
            assert(t[i as int] == b@[start + i]);
            assert(ascii_lower(t)[i as int] == lowered);
        }
        if lowered != nb[i] {
            proof {
                assert(ascii_lower(t)[i as int] != nb@[i as int]);
            }
            return false;
        }
        i = i + 1;
    }
    proof {
        assert(ascii_lower(t) =~= nb@);
    }
    true
}

impl NetworkType {
    /// The default RPC port of the network.
    pub fn default_rpc_port(&self) -> (r: u16)
        ensures
            r == (match self {
                NetworkType::Mainnet => 7110u16,
                NetworkType::Testnet => 7210u16,
                NetworkType::Simnet => 7310u16,
            }),
    {
        match self {
            NetworkType::Mainnet => 7110,
            NetworkType::Testnet => 7210,
            NetworkType::Simnet => 7310,
        }
    }

    /// The default borsh-encoded RPC port of the network.
    pub fn default_borsh_rpc_port(&self) -> (r: u16)
        ensures
            r == (match self {
                NetworkType::Mainnet => 8110u16,
                NetworkType::Testnet => 8210u16,
                NetworkType::Simnet => 8310u16,
            }),
    {
        match self {
            NetworkType::Mainnet => 8110,
            NetworkType::Testnet => 8210,
            NetworkType::Simnet => 8310,
        }
    }

    /// The default JSON RPC port of the network.
    pub fn default_json_rpc_port(&self) -> (r: u16)
        ensures
            r == (match self {
                NetworkType::Mainnet => 9110u16,
                NetworkType::Testnet => 9210u16,
                NetworkType::Simnet => 9310u16,
            }),
    {
        match self {
            NetworkType::Mainnet => 9110,
            NetworkType::Testnet => 9210,
            NetworkType::Simnet => 9310,
        }
    }

    /// Every network type, in canonical order.
    pub fn iter() -> (r: Vec<NetworkType>)
        ensures
            r@ =~= seq![NetworkType::Mainnet, NetworkType::Testnet, NetworkType::Simnet],
    {
        let mut r: Vec<NetworkType> = Vec::new();
        r.push(NetworkType::Mainnet);
        r.push(NetworkType::Testnet);
        r.push(NetworkType::Simnet);
        r
    }

    /// The lowercase name of the network, as exactly that string.
    pub fn name(&self) -> (r: &'static str)
        ensures
            r@ == name_chars(*self),
    {
        match self {
            NetworkType::Mainnet => "mainnet",
            NetworkType::Testnet => "testnet",
            NetworkType::Simnet => "simnet",
        }
    }

    /// Parses a network name, ignoring ASCII case; the error carries
    /// the offending input.
    pub fn from_str(network_type: &str) -> (r: Result<NetworkType, NetworkTypeError>)
        ensures
            ({
                let lowered = ascii_lower(network_type.spec_bytes());
                match r {
                    Ok(t) => lowered == name_bytes(t),
                    Err(NetworkTypeError::InvalidNetworkType(msg)) => {
                        &&& lowered != name_bytes(NetworkType::Mainnet)
                        &&& lowered != name_bytes(NetworkType::Testnet)
                        &&& lowered != name_bytes(NetworkType::Simnet)
                        &&& msg@ == network_type@
                    },
                }
            }),
    {
        let b = network_type.as_bytes();
        proof {
            assert(b@.skip(0) =~= b@);
        }
        if lowered_eq(b, 0, "mainnet") {
            Ok(NetworkType::Mainnet)
        } else if lowered_eq(b, 0, "testnet") {
            Ok(NetworkType::Testnet)
        } else if lowered_eq(b, 0, "simnet") {
            Ok(NetworkType::Simnet)
        } else {
            Err(NetworkTypeError::InvalidNetworkType(to_owned_string(network_type)))
        }
    }
}

/// Copies a borrowed string.
fn to_owned_string(s: &str) -> (r: String)
    ensures
        r@ == s@,
{
    <String as vstd::string::StringExecFns>::from_str(s)
}

/// A unique identifier for a network instance: its network type.
#[derive(Debug, Clone, Copy, PartialEq, Eq, Hash, Structural)]
pub struct NetworkId {
    pub network_type: NetworkType,
}

impl NetworkId {
    pub fn new(network_type: NetworkType) -> (r: Self)
        ensures
            r.network_type == network_type,
    {
        Self { network_type }
    }

    pub fn network_type(&self) -> (r: NetworkType)
        ensures
            r == self.network_type,
    {
        self.network_type
    }

    pub fn is_mainnet(&self) -> (r: bool)
        ensures
            r == (self.network_type == NetworkType::Mainnet),
    {
        match self.network_type {
            NetworkType::Mainnet => true,
            _ => false,
        }
    }

    /// The fixed peer-to-peer port of the network.
    pub fn default_p2p_port(&self) -> (r: u16)
        ensures
            r == (match self.network_type {
                NetworkType::Mainnet => 7111u16,
                NetworkType::Testnet => 7211u16,
                NetworkType::Simnet => 7311u16,
            }),
    {
        match self.network_type {
            NetworkType::Mainnet => 7111,
            NetworkType::Testnet => 7211,
            NetworkType::Simnet => 7311,
        }
    }

    /// Every network identifier, in canonical order.
    pub fn iter() -> (r: Vec<NetworkId>)
        ensures
            r@.len() == 3,
            r@[0].network_type == NetworkType::Mainnet,
            r@[1].network_type == NetworkType::Testnet,
            r@[2].network_type == NetworkType::Simnet,
    {
        let mut r: Vec<NetworkId> = Vec::new();
        r.push(NetworkId::new(NetworkType::Mainnet));
        r.push(NetworkId::new(NetworkType::Testnet));
        r.push(NetworkId::new(NetworkType::Simnet));
        r
    }

    /// The identifier's name: exactly the network type's name.
    pub fn js_to_string(&self) -> (r: String)
        ensures
            r@ == name_chars(self.network_type),
    {
        to_owned_string(self.network_type.name())
    }

    /// The identifier prefixed with `vecno-`: exactly that string.
    pub fn to_prefixed(&self) -> (r: String)
        ensures
            r@ == "vecno-"@ + name_chars(self.network_type),
    {
        let mut r = to_owned_string("vecno-");
        vstd::string::StringExecFns::append(&mut r, self.network_type.name());
        r
    }

    /// Parses a `vecno-` prefixed identifier: succeeds exactly on the
    /// prefix followed by a network name (matched ignoring ASCII
    /// case), and each error carries the offending input.
    pub fn from_prefixed(prefixed: &str) -> (r: Result<NetworkId, NetworkIdError>)
        ensures
            ({
                let b = prefixed.spec_bytes();
                let p = encode_utf8("vecno-"@);
                match r {
                    Ok(id) => b.len() >= p.len() && b.take(p.len() as int) == p && ascii_lower(
                        b.skip(p.len() as int),
                    ) == name_bytes(id.network_type),
                    Err(NetworkIdError::InvalidPrefix(msg)) => (b.len() < p.len() || b.take(
                        p.len() as int,
                    ) != p) && msg@ == prefixed@,
                    Err(NetworkIdError::InvalidNetworkType(
                        NetworkTypeError::InvalidNetworkType(msg),
                    )) => {
                        &&& b.len() >= p.len() && b.take(p.len() as int) == p
                        &&& ascii_lower(b.skip(p.len() as int)) != name_bytes(NetworkType::Mainnet)
                        &&& ascii_lower(b.skip(p.len() as int)) != name_bytes(NetworkType::Testnet)
                        &&& ascii_lower(b.skip(p.len() as int)) != name_bytes(NetworkType::Simnet)
                        &&& msg@ == prefixed@
                    },
                }
            }),
    {
        proof {
            reveal_strlit("vecno-");
        }
        let b = prefixed.as_bytes();
        let ghost p = encode_utf8("vecno-"@);
        proof {
            assert(vstd::utf8::is_ascii_chars("vecno-"@));
            vstd::utf8::is_ascii_chars_encode_utf8("vecno-"@);
            assert(p =~= seq![118u8, 101u8, 99u8, 110u8, 111u8, 45u8]);
        }
        if b.len() < 6 {
            return Err(NetworkIdError::InvalidPrefix(to_owned_string(prefixed)));
        }
        if !(b[0] == 118 && b[1] == 101 && b[2] == 99 && b[3] == 110 && b[4] == 111 && b[5] == 45) {
            proof {
                assert(b@.take(6)[0] == b@[0]);
                assert(b@.take(6)[1] == b@[1]);
                assert(b@.take(6)[2] == b@[2]);
                assert(b@.take(6)[3] == b@[3]);
                assert(b@.take(6)[4] == b@[4]);
                assert(b@.take(6)[5] == b@[5]);
            }
            return Err(NetworkIdError::InvalidPrefix(to_owned_string(prefixed)));
        }
        proof {
            assert(b@.take(6) =~= p);
        }
        if lowered_eq(b, 6, "mainnet") {
            Ok(NetworkId::new(NetworkType::Mainnet))
        } else if lowered_eq(b, 6, "testnet") {
            Ok(NetworkId::new(NetworkType::Testnet))
        } else if lowered_eq(b, 6, "simnet") {
            Ok(NetworkId::new(NetworkType::Simnet))
        } else {
            Err(NetworkIdError::InvalidNetworkType(NetworkTypeError::InvalidNetworkType(
                to_owned_string(prefixed),
            )))
        }
    }

    /// Parses a bare network name as an identifier.
    pub fn from_str(s: &str) -> (r: Result<NetworkId, NetworkIdError>)
        ensures
            ({
                let lowered = ascii_lower(s.spec_bytes());
                match r {
                    Ok(id) => lowered == name_bytes(id.network_type),
                    Err(NetworkIdError::InvalidNetworkType(
                        NetworkTypeError::InvalidNetworkType(msg),
                    )) => {
                        &&& lowered != name_bytes(NetworkType::Mainnet)
                        &&& lowered != name_bytes(NetworkType::Testnet)
                        &&& lowered != name_bytes(NetworkType::Simnet)
                        &&& msg@ == s@
                    },
                    Err(NetworkIdError::InvalidPrefix(_)) => false,
                }
            }),
    {
        match NetworkType::from_str(s) {
            Ok(t) => Ok(NetworkId::new(t)),
            Err(e) => Err(NetworkIdError::InvalidNetworkType(e)),
        }
    }
}

} // verus!
