//! RPC provider and chain configuration: which provider/chain pairs are
//! served, and the exact endpoint URL built for each.

use vstd::prelude::*;
use vstd::string::StringExecFns;

verus! {

/// An RPC provider the indexer can connect through.
#[derive(Clone, Copy, Debug, PartialEq, Eq, Structural)]
pub enum Provider {
    Alchemy,
    Infura,
    PublicRpc,
}

/// A chain the indexer can follow.
#[derive(Clone, Copy, Debug, PartialEq, Eq, Structural)]
pub enum Chain {
    Polygon,
    PolygonAmoy,
    Ethereum,
}

/// Whether the provider serves this chain over HTTP.
pub open spec fn http_supported(p: Provider, c: Chain) -> bool {
    match (p, c) {
        (Provider::Alchemy, _) => true,
        (Provider::Infura, Chain::Polygon) => true,
        (Provider::Infura, Chain::Ethereum) => true,
        (Provider::PublicRpc, Chain::Polygon) => true,
        _ => false,
    }
}

/// Whether the provider serves this chain over WebSocket.
pub open spec fn ws_supported(p: Provider, c: Chain) -> bool {
    match (p, c) {
        (Provider::Alchemy, _) => true,
        (Provider::Infura, Chain::Polygon) => true,
        (Provider::Infura, Chain::Ethereum) => true,
        _ => false,
    }
}

/// Whether the provider authenticates with an API key appended to the URL.
pub open spec fn needs_api_key(p: Provider) -> bool {
    !(p is PublicRpc)
}

/// The HTTP endpoint prefix for a served provider/chain pair; the API key
/// is appended to it where one is needed.
pub open spec fn http_base(p: Provider, c: Chain) -> Seq<char> {
    match (p, c) {
        (Provider::Alchemy, Chain::Polygon) => "https://polygon-mainnet.g.alchemy.com/v2/"@,
        (Provider::Alchemy, Chain::PolygonAmoy) => "https://polygon-amoy.g.alchemy.com/v2/"@,
        (Provider::Alchemy, Chain::Ethereum) => "https://eth-mainnet.g.alchemy.com/v2/"@,
        (Provider::Infura, Chain::Polygon) => "https://polygon-mainnet.infura.io/v3/"@,
        (Provider::Infura, Chain::Ethereum) => "https://mainnet.infura.io/v3/"@,
        (Provider::PublicRpc, Chain::Polygon) => "https://polygon-rpc.com"@,
        _ => Seq::<char>::empty(),
    }
}

/// The WebSocket endpoint prefix for a served provider/chain pair.
pub open spec fn ws_base(p: Provider, c: Chain) -> Seq<char> {
    match (p, c) {
        (Provider::Alchemy, Chain::Polygon) => "wss://polygon-mainnet.g.alchemy.com/v2/"@,
        (Provider::Alchemy, Chain::PolygonAmoy) => "wss://polygon-amoy.g.alchemy.com/v2/"@,
        (Provider::Alchemy, Chain::Ethereum) => "wss://eth-mainnet.g.alchemy.com/v2/"@,
        (Provider::Infura, Chain::Polygon) => "wss://polygon-mainnet.infura.io/ws/v3/"@,
        (Provider::Infura, Chain::Ethereum) => "wss://mainnet.infura.io/ws/v3/"@,
        _ => Seq::<char>::empty(),
    }
}

/// The URL a base and an optional key yield: the key is appended where
/// the provider needs one.
pub open spec fn url_of(p: Provider, base: Seq<char>, api_key: Option<Seq<char>>) -> Seq<char> {
    if needs_api_key(p) {
        base + api_key->0
    } else {
        base
    }
}

/// Image of an optional borrowed key.
pub open spec fn key_view(api_key: Option<&str>) -> Option<Seq<char>> {
    match api_key {
        Some(k) => Some(k@),
        None => None,
    }
}

impl Provider {
    /// Builds the HTTP RPC URL for the given chain, appending the API key
    /// where this provider requires one.
    pub fn http_url(&self, chain: Chain, api_key: Option<&str>) -> (r: String)
        requires
            http_supported(*self, chain),
            needs_api_key(*self) ==> api_key is Some,
        ensures
            r@ == url_of(*self, http_base(*self, chain), key_view(api_key)),
    {
        let mut url: String = match (*self, chain) {
            (Provider::Alchemy, Chain::Polygon) => String::from_str(
                "https://polygon-mainnet.g.alchemy.com/v2/",
            ),
            (Provider::Alchemy, Chain::PolygonAmoy) => String::from_str(
                "https://polygon-amoy.g.alchemy.com/v2/",
            ),
            (Provider::Alchemy, Chain::Ethereum) => String::from_str(
                "https://eth-mainnet.g.alchemy.com/v2/",
            ),
            (Provider::Infura, Chain::Polygon) => String::from_str(
                "https://polygon-mainnet.infura.io/v3/",
            ),
            (Provider::Infura, Chain::Ethereum) => String::from_str(
                "https://mainnet.infura.io/v3/",
            ),
            (Provider::PublicRpc, Chain::Polygon) => String::from_str("https://polygon-rpc.com"),
            _ => {
                proof {
                    assert(false);
                }
                String::new()
            },
        };
        match (*self, api_key) {
            (Provider::PublicRpc, _) => url,
            (_, Some(k)) => {
                url.append(k);
                url
            },
            (_, None) => {
                proof {
                    assert(false);
                }
                url
            },
        }
    }

    /// Builds the WebSocket RPC URL for the given chain; every WebSocket
    /// provider requires an API key.
    pub fn ws_url(&self, chain: Chain, api_key: Option<&str>) -> (r: String)
        requires
            ws_supported(*self, chain),
            api_key is Some,
        ensures
            r@ == ws_base(*self, chain) + api_key->0@,
    {
        let mut url: String = match (*self, chain) {
            (Provider::Alchemy, Chain::Polygon) => String::from_str(
                "wss://polygon-mainnet.g.alchemy.com/v2/",
            ),
            (Provider::Alchemy, Chain::PolygonAmoy) => String::from_str(
                "wss://polygon-amoy.g.alchemy.com/v2/",
            ),
            (Provider::Alchemy, Chain::Ethereum) => String::from_str(
                "wss://eth-mainnet.g.alchemy.com/v2/",
            ),
            (Provider::Infura, Chain::Polygon) => String::from_str(
                "wss://polygon-mainnet.infura.io/ws/v3/",
            ),
            (Provider::Infura, Chain::Ethereum) => String::from_str(
                "wss://mainnet.infura.io/ws/v3/",
            ),
            _ => {
                proof {
                    assert(false);
                }
                String::new()
            },
        };
        match api_key {
            Some(k) => {
                url.append(k);
                url
            },
            None => {
                proof {
                    assert(false);
                }
                url
            },
        }
    }
}

} // verus!
