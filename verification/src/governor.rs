//! The key by which requests are counted against the rate limit.

use vstd::prelude::*;

verus! {

/// The address a request came from.
#[derive(Debug, Clone, Copy, PartialEq, Eq, Hash)]
pub enum ClientAddress {
    V4([u8; 4]),
    V6([u8; 16]),
}

/// How many leading bytes of an IPv6 address tell one customer from
/// another: a /56 prefix.
pub const IPV6_PREFIX_BYTES: usize = 7;

/// The bytes of an IPv6 address with all but its /56 prefix set to zero.
pub open spec fn prefix_only(octets: Seq<u8>) -> Seq<u8> {
    Seq::new(
        16,
        |i: int|
            if i < IPV6_PREFIX_BYTES {
                octets[i]
            } else {
                0u8
            },
    )
}

/// Whether `key` is the key that requests from `address` are counted
/// under: an IPv4 address as it is, an IPv6 address cut down to its /56
/// prefix.
pub open spec fn is_rate_limit_key(key: ClientAddress, address: ClientAddress) -> bool {
    match address {
        ClientAddress::V4(_) => key == address,
        ClientAddress::V6(octets) => key matches ClientAddress::V6(masked) && masked@
            == prefix_only(octets@),
    }
}

/// The message for a request whose address cannot be told.
pub open spec fn no_address_message() -> Seq<char> {
    "{ \"code\": 500, \"msg\": \"Could not extract peer IP address from request\"}"@
}

/// Tells requests apart by the address they come from.
#[derive(Debug, Clone, Copy, PartialEq, Eq)]
pub struct UserToken;

impl UserToken {
    /// Returns the name of this way of telling requests apart.
    pub fn name(&self) -> (s: &'static str)
        ensures
            s@ == "Bearer token"@,
    {
        "Bearer token"
    }

    /// Cuts an IPv6 address down to its /56 prefix.
    pub fn mask_prefix(octets: [u8; 16]) -> (masked: [u8; 16])
        ensures
            masked@ == prefix_only(octets@),
    {
        let mut masked = octets;
        let mut i: usize = IPV6_PREFIX_BYTES;
        while i < 16
            invariant
                IPV6_PREFIX_BYTES <= i <= 16,
                forall|k: int| 0 <= k < IPV6_PREFIX_BYTES ==> masked@[k] == octets@[k],
                forall|k: int| IPV6_PREFIX_BYTES <= k < i ==> masked@[k] == 0u8,
            decreases 16 - i,
        {
            masked.set(i, 0);
            i += 1;
        }
        masked
    }

    /// Finds the key to count a request under. The forwarded address is
    /// taken where there is one, else the address of the peer; without
    /// either the request is refused with a message.
    pub fn extract(&self, forwarded: Option<ClientAddress>, peer: Option<ClientAddress>) -> (key:
        Result<ClientAddress, &'static str>)
        ensures
            match (forwarded, peer) {
                (Some(a), _) => key is Ok && is_rate_limit_key(key->Ok_0, a),
                (None, Some(a)) => key is Ok && is_rate_limit_key(key->Ok_0, a),
                (None, None) => key is Err && key->Err_0@ == no_address_message(),
            },
    {
        let address = match forwarded {
            Some(a) => a,
            None => match peer {
                Some(a) => a,
                None => {
                    return Err(
                        "{ \"code\": 500, \"msg\": \"Could not extract peer IP address from request\"}",
                    );
                },
            },
        };
        match address {
            ClientAddress::V4(_) => Ok(address),
            ClientAddress::V6(octets) => {
                Ok(ClientAddress::V6(UserToken::mask_prefix(octets)))
            },
        }
    }
}

} // verus!
