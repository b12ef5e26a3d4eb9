//! IP networks as plain values: an address family, an address and a prefix
//! length, always held with the host bits cleared.

use vstd::arithmetic::div_mod::*;
use vstd::arithmetic::power2::*;
use vstd::prelude::*;
use ipnet::{IpNet, Ipv4Net, Ipv6Net};

verus! {

#[verifier::external_type_specification]
#[verifier::external_body]
pub struct ExIpNet(IpNet);

/// What `ipnet` reads from a network written as text: family, address as
/// written (host bits kept) and prefix length.
pub uninterp spec fn ipnet_from_text(s: Seq<char>) -> Option<(bool, u128, u8)>;

/// Relies on `<ipnet::IpNet as FromStr>::from_str`: the parsed network, whose
/// prefix length never exceeds its family's width.
#[verifier::external_body]
fn parse_ipnet(s: &str) -> (r: Option<(bool, u128, u8)>)
    ensures
        r == ipnet_from_text(s@),
        r matches Some(t) ==> t.2 as nat <= family_width(t.0) && (t.1 as nat) < pow2(
            family_width(t.0),
        ),
{
    match s.parse::<IpNet>() {
        Ok(IpNet::V4(n)) => Some((false, u32::from(n.addr()) as u128, n.prefix_len())),
        Ok(IpNet::V6(n)) => Some((true, u128::from(n.addr()), n.prefix_len())),
        Err(_) => None,
    }
}

/// Number of address bits of a family.
pub open spec fn family_width(v6: bool) -> nat {
    if v6 {
        128
    } else {
        32
    }
}

/// The address with every bit below the first `len` bits cleared.
pub open spec fn network_of(v6: bool, addr: nat, len: nat) -> nat {
    (addr / pow2((family_width(v6) - len) as nat)) * pow2((family_width(v6) - len) as nat)
}

/// The sizes of the two address spaces.
pub proof fn lemma_family_sizes()
    ensures
        pow2(32) == 0x1_0000_0000,
        pow2(64) == 0x1_0000_0000_0000_0000,
        pow2(128) == 0x1_0000_0000_0000_0000_0000_0000_0000_0000,
{
    lemma2_to64();
    lemma2_to64_rest();
    lemma_pow2_adds(64, 64);
    assert(0x1_0000_0000_0000_0000nat * 0x1_0000_0000_0000_0000nat
        == 0x1_0000_0000_0000_0000_0000_0000_0000_0000nat) by (nonlinear_arith);
}

/// `2^e` as a machine integer.
pub fn pow2_u128(e: u8) -> (r: u128)
    requires
        e < 128,
    ensures
        r as nat == pow2(e as nat),
{
    proof {
        lemma_family_sizes();
    }
    let mut r: u128 = 1;
    let mut i: u8 = 0;
    proof {
        lemma2_to64();
    }
    while i < e
        invariant
            i <= e,
            e < 128,
            r as nat == pow2(i as nat),
            pow2(128) == 0x1_0000_0000_0000_0000_0000_0000_0000_0000,
        decreases e - i,
    {
        proof {
            lemma_pow2_unfold((i + 1) as nat);
            lemma_pow2_strictly_increases((i + 1) as nat, 128);
        }
        r = r * 2;
        i = i + 1;
    }
    r
}

/// A network key (family, address, length) whose address fits the family and
/// has no bit set below the prefix.
pub open spec fn canonical_key(k: (bool, u128, u8)) -> bool {
    &&& k.2 as nat <= family_width(k.0)
    &&& (k.1 as nat) < pow2(family_width(k.0))
    &&& network_of(k.0, k.1 as nat, k.2 as nat) == k.1 as nat
}

/// Network `k` holds network `q`: same family, no longer prefix, and the
/// same leading bits.
pub open spec fn key_covers(k: (bool, u128, u8), q: (bool, u128, u8)) -> bool {
    &&& k.0 == q.0
    &&& k.2 <= q.2
    &&& network_of(q.0, q.1 as nat, k.2 as nat) == k.1 as nat
}

/// An IP network: address family, network address and prefix length.
#[derive(Clone, Copy, Debug, PartialEq, Eq, Hash)]
pub struct IpPrefix {
    v6: bool,
    addr: u128,
    len: u8,
}

impl IpPrefix {
    #[verifier::type_invariant]
    pub closed spec fn inv(self) -> bool {
        canonical_key((self.v6, self.addr, self.len))
    }

    pub closed spec fn spec_v6(self) -> bool {
        self.v6
    }

    pub closed spec fn spec_addr(self) -> u128 {
        self.addr
    }

    pub closed spec fn spec_len(self) -> u8 {
        self.len
    }

    /// The plain value that identifies this network.
    pub open spec fn key(self) -> (bool, u128, u8) {
        (self.spec_v6(), self.spec_addr(), self.spec_len())
    }

    /// This network holds `other`: same family, no longer prefix, and the
    /// same leading bits.
    pub open spec fn covers(self, other: IpPrefix) -> bool {
        key_covers(self.key(), other.key())
    }

    /// The network of the given family that holds `addr` under a prefix of
    /// `len` bits; `None` when the length or the address does not fit the
    /// family.
    pub fn new(v6: bool, addr: u128, len: u8) -> (r: Option<IpPrefix>)
        ensures
            r is Some <==> (len as nat <= family_width(v6) && (addr as nat) < pow2(
                family_width(v6),
            )),
            r matches Some(p) ==> p.key() == (
                v6,
                network_of(v6, addr as nat, len as nat) as u128,
                len,
            ),
    {
        proof {
            lemma_family_sizes();
        }
        let w: u8 = if v6 {
            128
        } else {
            32
        };
        if len > w {
            return None;
        }
        if !v6 && addr >= 0x1_0000_0000 {
            return None;
        }
        let shift: u8 = w - len;
        let net: u128 = if shift == 128 {
            proof {
                lemma_basic_div(addr as int, pow2(128) as int);
            }
            0
        } else {
            let p = pow2_u128(shift);
            proof {
                lemma_pow2_pos(shift as nat);
                lemma_fundamental_div_mod(addr as int, p as int);
                lemma_mod_pos_bound(addr as int, p as int);
                assert((addr as int / p as int) * p as int <= addr as int) by (nonlinear_arith)
                    requires
                        addr as int == p as int * (addr as int / p as int) + addr as int % p as int,
                        addr as int % p as int >= 0,
                ;
            }
            (addr / p) * p
        };
        proof {
            lemma_pow2_pos(shift as nat);
            let q = pow2(shift as nat) as int;
            assert((family_width(v6) - len) as nat == shift as nat);
            assert(net as nat == network_of(v6, addr as nat, len as nat));
            if shift < 128 {
                lemma_div_multiples_vanish((addr as int / q), q);
                assert((addr as int / q) * q == q * (addr as int / q)) by (nonlinear_arith);
                assert(net as int / q == addr as int / q);
            } else {
                lemma_basic_div(0, q);
            }
            assert(network_of(v6, net as nat, len as nat) == net as nat);
        }
        Some(IpPrefix { v6, addr: net, len })
    }

    /// Reads a network written as `address/length`; the host bits of the
    /// address are cleared.
    pub fn parse(s: &str) -> (r: Option<IpPrefix>)
        ensures
            r is Some <==> ipnet_from_text(s@) is Some,
            r matches Some(p) ==> ({
                let t = ipnet_from_text(s@)->Some_0;
                p.key() == (t.0, network_of(t.0, t.1 as nat, t.2 as nat) as u128, t.2)
            }),
    {
        match parse_ipnet(s) {
            Some(t) => IpPrefix::new(t.0, t.1, t.2),
            None => None,
        }
    }

    /// Relies on `ipnet::Ipv4Net::new` and `ipnet::Ipv6Net::new`, which accept
    /// any length up to the family's width.
    #[verifier::external_body]
    pub(crate) fn to_ipnet(&self) -> IpNet {
        match self.v6 {
            false => IpNet::V4(Ipv4Net::new((self.addr as u32).into(), self.len).unwrap()),
            true => IpNet::V6(Ipv6Net::new(self.addr.into(), self.len).unwrap()),
        }
    }

    /// Relies on `ipnet::IpNet::contains`: a network of the same family
    /// whose range holds the other's whole range.
    #[verifier::external_body]
    pub(crate) fn contains(&self, other: &IpPrefix) -> (r: bool)
        ensures
            r == self.covers(*other),
    {
        self.to_ipnet().contains(&other.to_ipnet())
    }

    /// The network as a plain value; its address has no host bit set.
    pub fn key_of(&self) -> (r: (bool, u128, u8))
        ensures
            r == self.key(),
            canonical_key(r),
    {
        proof {
            use_type_invariant(self);
        }
        (self.v6, self.addr, self.len)
    }

    pub fn is_v6(&self) -> (r: bool)
        ensures
            r == self.spec_v6(),
    {
        self.v6
    }

    pub fn addr(&self) -> (r: u128)
        ensures
            r == self.spec_addr(),
    {
        self.addr
    }

    pub fn prefix_len(&self) -> (r: u8)
        ensures
            r == self.spec_len(),
    {
        self.len
    }
}

} // verus!
