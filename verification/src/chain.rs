//! BOT Chain network constants, and resolving a network by name.
//!
//! Chain ids are not unique: 968 is also claimed by other chains in the public registry,
//! so a network is pinned by its endpoint and its id is checked against that endpoint,
//! never looked up by id alone.
use vstd::prelude::*;
use vstd::string::StringSliceAdditionalSpecFns;

verus! {

/// Whether an endpoint can send transactions or only read.
#[derive(Debug, Clone, Copy, PartialEq, Eq, Structural)]
pub enum EndpointKind {
    /// A full node's JSON-RPC. Everything works, including sending transactions.
    Node,
    /// A block explorer's JSON-RPC proxy. Reads only: treat writes as unavailable.
    ExplorerProxy,
}

/// One RPC endpoint.
#[derive(Debug, Clone, Copy)]
pub struct Endpoint {
    pub url: &'static str,
    pub kind: EndpointKind,
    /// Why it is in the list at this position.
    pub note: &'static str,
}

/// A BOT Chain network.
#[derive(Debug, Clone)]
pub struct Network {
    pub name: &'static str,
    pub chain_id: u64,
    /// RPC endpoints in the order they should be tried.
    pub endpoints: Vec<Endpoint>,
    pub explorer: &'static str,
    pub symbol: &'static str,
    pub decimals: u8,
}

/// A DEX venue, resolved on chain rather than taken from documentation.
#[derive(Debug, Clone, Copy)]
pub struct Venue {
    pub name: &'static str,
    pub router: &'static str,
    pub factory: &'static str,
}

/// The wrapped native token (the listing with the holder count).
pub const WBOT: &'static str = "0xD5452816194a3784dBa983426cCe7c122F4abd30";
pub const USDT: &'static str = "0xaBabc7Ddc03e501d190C676BF3d92ef0e6e87a3C";
/// `CA` / CaryPact, the dominant token by holders.
pub const CA: &'static str = "0x546307af427902A75771434Df831d88219784E19";
/// Parlia's validator-set system contract, whose per-block deposit dominates activity.
pub const VALIDATOR_SET: &'static str = "0x0000000000000000000000000000000000001000";

/// The mainnet entry: chain 677, node RPC first and the explorer proxy second.
pub open spec fn is_mainnet(n: Network) -> bool {
    &&& n.name@ == "BOT Chain Mainnet"@
    &&& n.chain_id == 677
    &&& n.endpoints@.len() == 2
    &&& n.endpoints@[0].url@ == "https://rpc.botchain.ai"@
    &&& n.endpoints@[0].kind == EndpointKind::Node
    &&& n.endpoints@[1].url@ == "https://scan.botchain.ai/api/eth-rpc"@
    &&& n.endpoints@[1].kind == EndpointKind::ExplorerProxy
    &&& n.explorer@ == "https://scan.botchain.ai"@
    &&& n.symbol@ == "BOT"@
    &&& n.decimals == 18
}

/// The testnet entry: chain 968, one node RPC and no read-only fallback.
pub open spec fn is_testnet(n: Network) -> bool {
    &&& n.name@ == "BOT Chain Testnet"@
    &&& n.chain_id == 968
    &&& n.endpoints@.len() == 1
    &&& n.endpoints@[0].url@ == "https://rpc.bohr.life"@
    &&& n.endpoints@[0].kind == EndpointKind::Node
    &&& n.explorer@ == "https://scan.bohr.life"@
    &&& n.symbol@ == "BOT"@
    &&& n.decimals == 18
}

/// Mainnet, chain 677. The node RPC comes first: the explorer proxy cannot send
/// transactions, so it must never be the first thing a trading path reaches for.
pub fn mainnet() -> (n: Network)
    ensures
        is_mainnet(n),
{
    let mut endpoints: Vec<Endpoint> = Vec::new();
    endpoints.push(
        Endpoint {
            url: "https://rpc.botchain.ai",
            kind: EndpointKind::Node,
            note: "official node RPC; the only endpoint that can send transactions",
        },
    );
    endpoints.push(
        Endpoint {
            url: "https://scan.botchain.ai/api/eth-rpc",
            kind: EndpointKind::ExplorerProxy,
            note: "explorer JSON-RPC proxy; reachable when the node RPC is not",
        },
    );
    Network {
        name: "BOT Chain Mainnet",
        chain_id: 677,
        endpoints,
        explorer: "https://scan.botchain.ai",
        symbol: "BOT",
        decimals: 18,
    }
}

/// Testnet, chain 968. It has no read-only fallback: its explorer sits on the same host
/// as its RPC, so it would not be an independent path.
pub fn testnet() -> (n: Network)
    ensures
        is_testnet(n),
{
    let mut endpoints: Vec<Endpoint> = Vec::new();
    endpoints.push(
        Endpoint {
            url: "https://rpc.bohr.life",
            kind: EndpointKind::Node,
            note: "official testnet RPC (host was unreachable from some networks in testing)",
        },
    );
    Network {
        name: "BOT Chain Testnet",
        chain_id: 968,
        endpoints,
        explorer: "https://scan.bohr.life",
        symbol: "BOT",
        decimals: 18,
    }
}

/// Every known network: mainnet, then testnet.
pub fn networks() -> (v: Vec<Network>)
    ensures
        v@.len() == 2,
        v@[0].chain_id == 677,
        v@[1].chain_id == 968,
{
    let mut v: Vec<Network> = Vec::new();
    v.push(mainnet());
    v.push(testnet());
    v
}

/// Mainnet venues: two of them, the minimum for cross-DEX arbitrage to be conceivable.
pub fn mainnet_venues() -> (v: Vec<Venue>)
    ensures
        v@.len() == 2,
        v@[0].name@ == "SwapRouter (V3-style)"@,
        v@[0].router@ == "0x07032d47A1b9f8460cBeE9dC17c1d3E438693929"@,
        v@[0].factory@ == "0x1c51c173323ec11bb4e3c4fd2314c225dc4b5419"@,
        v@[1].name@ == "CASwapRouter"@,
        v@[1].router@ == "0x5b90611D4eB8FC82Fc2E3d1F0501Dd6F434441AD"@,
        v@[1].factory@ == "0x9c937ebc3748825026677e20b13b5e306494a38d"@,
{
    let mut v: Vec<Venue> = Vec::new();
    v.push(
        Venue {
            name: "SwapRouter (V3-style)",
            router: "0x07032d47A1b9f8460cBeE9dC17c1d3E438693929",
            factory: "0x1c51c173323ec11bb4e3c4fd2314c225dc4b5419",
        },
    );
    v.push(
        Venue {
            name: "CASwapRouter",
            router: "0x5b90611D4eB8FC82Fc2E3d1F0501Dd6F434441AD",
            factory: "0x9c937ebc3748825026677e20b13b5e306494a38d",
        },
    );
    v
}

/// ASCII lowercase of one byte; other bytes are unchanged.
pub open spec fn lower_byte(b: u8) -> u8 {
    if 65 <= b <= 90 { (b + 32) as u8 } else { b }
}

/// Whether `name`, lowercased, spells `alias` (an all-lowercase ASCII word). A byte of a
/// non-ASCII character is at least 0x80 and so never matches an ASCII alias.
pub open spec fn spells(name: Seq<u8>, alias: Seq<u8>) -> bool {
    name.len() == alias.len() && forall|i: int| 0 <= i < name.len() ==> lower_byte(#[trigger] name[i]) == alias[i]
}

/// The names that resolve to mainnet: `mainnet`, `bot`, `677`.
pub open spec fn mainnet_aliases() -> Seq<Seq<u8>> {
    seq![seq![109u8, 97, 105, 110, 110, 101, 116], seq![98u8, 111, 116], seq![54u8, 55, 55]]
}

/// The names that resolve to testnet: `testnet`, `bohr`, `968`.
pub open spec fn testnet_aliases() -> Seq<Seq<u8>> {
    seq![seq![116u8, 101, 115, 116, 110, 101, 116], seq![98u8, 111, 104, 114], seq![57u8, 54, 56]]
}

/// Whether `name` spells one of `aliases`, ignoring ASCII case.
pub open spec fn names_one_of(name: Seq<u8>, aliases: Seq<Seq<u8>>) -> bool {
    exists|k: int| 0 <= k < aliases.len() && spells(name, #[trigger] aliases[k])
}

/// Whether the bytes of `name`, ASCII-lowercased, equal `alias`.
fn spells_exec(name: &[u8], alias: &[u8]) -> (r: bool)
    ensures
        r == spells(name@, alias@),
{
    if name.len() != alias.len() {
        return false;
    }
    let mut i: usize = 0;
    while i < name.len()
        invariant
            i <= name@.len(),
            name@.len() == alias@.len(),
            forall|k: int| 0 <= k < i ==> lower_byte(#[trigger] name@[k]) == alias@[k],
        decreases name@.len() - i,
    {
        let b = name[i];
        let l: u8 = if 65 <= b && b <= 90 { b + 32 } else { b };
        if l != alias[i] {
            return false;
        }
        i = i + 1;
    }
    true
}

/// Resolve a network by one of its names, ignoring case: `mainnet`, `bot` or `677` for
/// mainnet; `testnet`, `bohr` or `968` for testnet.
pub fn by_name(name: &str) -> (r: Option<Network>)
    ensures
        names_one_of(name.spec_bytes(), mainnet_aliases()) ==> r is Some && is_mainnet(r->0),
        !names_one_of(name.spec_bytes(), mainnet_aliases()) && names_one_of(name.spec_bytes(), testnet_aliases())
            ==> r is Some && is_testnet(r->0),
        !names_one_of(name.spec_bytes(), mainnet_aliases()) && !names_one_of(name.spec_bytes(), testnet_aliases())
            ==> r is None,
{
    let b = name.as_bytes();
    let mains: [&[u8]; 3] = [&[109u8, 97, 105, 110, 110, 101, 116], &[98u8, 111, 116], &[54u8, 55, 55]];
    let tests: [&[u8]; 3] = [&[116u8, 101, 115, 116, 110, 101, 116], &[98u8, 111, 104, 114], &[57u8, 54, 56]];
    if spells_exec(b, mains[0]) || spells_exec(b, mains[1]) || spells_exec(b, mains[2]) {
        return Some(mainnet());
    }
    if spells_exec(b, tests[0]) || spells_exec(b, tests[1]) || spells_exec(b, tests[2]) {
        return Some(testnet());
    }
    None
}

} // verus!
