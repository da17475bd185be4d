//! CIDR range arithmetic: an address and a prefix length give the block's
//! first and last address, computed natively in the address's big-endian
//! integer representation. A prefix length beyond the address width is an
//! input-validation failure, never a panic.

use vstd::prelude::*;
use crate::ip::{ip_bytes, ip_text, DASH};
use crate::types::{Error, IpAddress};

verus! {

/// The network mask of an IPv4 prefix: the top `p` bits set.
pub open spec fn v4_mask(p: u64) -> u32
    recommends
        p <= 32,
{
    if p == 0 {
        0u32
    } else {
        (u32::MAX << ((32 - p) as u32)) as u32
    }
}

/// The network mask of an IPv6 prefix: the top `p` bits set.
pub open spec fn v6_mask(p: u64) -> u128
    recommends
        p <= 128,
{
    if p == 0 {
        0u128
    } else {
        (u128::MAX << ((128 - p) as u128)) as u128
    }
}

/// The usable range of a prefix: host bits cleared for the start, host bits
/// set for the end; a prefix length over the address width is rejected.
pub open spec fn cidr_range_spec(addr: IpAddress, prefix: u64) -> Option<(IpAddress, IpAddress)> {
    match addr {
        IpAddress::V4(a) => {
            if prefix <= 32 {
                Some((IpAddress::V4(a & v4_mask(prefix)), IpAddress::V4(a | !v4_mask(prefix))))
            } else {
                None
            }
        },
        IpAddress::V6(a) => {
            if prefix <= 128 {
                Some((IpAddress::V6(a & v6_mask(prefix)), IpAddress::V6(a | !v6_mask(prefix))))
            } else {
                None
            }
        },
    }
}

/// Computes the usable range, or reports the malformed-query error on a
/// prefix length beyond the address width.
pub fn cidr_range(addr: IpAddress, prefix: u64) -> (r: Result<(IpAddress, IpAddress), Error>)
    ensures
        cidr_range_spec(addr, prefix) matches Some(p) ==> r == Ok::<_, Error>(p),
        cidr_range_spec(addr, prefix) is None ==> r == Err::<(IpAddress, IpAddress), _>(
            Error::InvalidCidrQuery,
        ),
{
    match addr {
        IpAddress::V4(a) => {
            if prefix > 32 {
                return Err(Error::InvalidCidrQuery);
            }
            let mask: u32 = if prefix == 0 {
                0
            } else {
                u32::MAX << ((32 - prefix) as u32)
            };
            Ok((IpAddress::V4(a & mask), IpAddress::V4(a | !mask)))
        },
        IpAddress::V6(a) => {
            if prefix > 128 {
                return Err(Error::InvalidCidrQuery);
            }
            let mask: u128 = if prefix == 0 {
                0
            } else {
                u128::MAX << ((128 - prefix) as u32)
            };
            proof {
                if prefix != 0 {
                    let sh = (128 - prefix) as u128;
                    assert(sh < 128);
                    assert(u128::MAX << ((128 - prefix) as u32) == u128::MAX << ((128 - prefix)
                        as u128));
                }
            }
            Ok((IpAddress::V6(a & mask), IpAddress::V6(a | !mask)))
        },
    }
}

/// A zero prefix length spans the whole IPv4 family.
pub proof fn lemma_cidr_full_range_v4(a: u32)
    ensures
        cidr_range_spec(IpAddress::V4(a), 0) == Some(
            (IpAddress::V4(0u32), IpAddress::V4(u32::MAX)),
        ),
{
    assert(a & 0u32 == 0u32 && (a | !0u32) == u32::MAX) by (bit_vector);
}

/// A prefix length of the full IPv4 width pins the single address.
pub proof fn lemma_cidr_single_address_v4(a: u32)
    ensures
        cidr_range_spec(IpAddress::V4(a), 32) == Some((IpAddress::V4(a), IpAddress::V4(a))),
{
    assert(u32::MAX << 0u32 == u32::MAX) by (bit_vector);
    assert((a & u32::MAX) == a && (a | !u32::MAX) == a) by (bit_vector);
}

/// A zero prefix length spans the whole IPv6 family.
pub proof fn lemma_cidr_full_range_v6(a: u128)
    ensures
        cidr_range_spec(IpAddress::V6(a), 0) == Some(
            (IpAddress::V6(0u128), IpAddress::V6(u128::MAX)),
        ),
{
    assert(a & 0u128 == 0u128 && (a | !0u128) == u128::MAX) by (bit_vector);
}

/// A prefix length of the full IPv6 width pins the single address.
pub proof fn lemma_cidr_single_address_v6(a: u128)
    ensures
        cidr_range_spec(IpAddress::V6(a), 128) == Some((IpAddress::V6(a), IpAddress::V6(a))),
{
    assert(u128::MAX << 0u128 == u128::MAX) by (bit_vector);
    assert((a & u128::MAX) == a && (a | !u128::MAX) == a) by (bit_vector);
}

/// "Usable IP Range: ".
pub open spec fn usable_prefix() -> Seq<u8> {
    seq![
        'U' as u8,
        's' as u8,
        'a' as u8,
        'b' as u8,
        'l' as u8,
        'e' as u8,
        ' ' as u8,
        'I' as u8,
        'P' as u8,
        ' ' as u8,
        'R' as u8,
        'a' as u8,
        'n' as u8,
        'g' as u8,
        'e' as u8,
        ':' as u8,
        ' ' as u8,
    ]
}

/// The Cidr zone's answer text: "Usable IP Range: {start} - {end}".
pub open spec fn range_text(start: IpAddress, end: IpAddress) -> Seq<u8> {
    usable_prefix() + ip_text(start) + seq![' ' as u8, DASH, ' ' as u8] + ip_text(end)
}

/// Renders the Cidr zone's answer text.
pub fn range_bytes(start: IpAddress, end: IpAddress) -> (r: Vec<u8>)
    ensures
        r@ == range_text(start, end),
{
    let mut r = vec![
        'U' as u8,
        's' as u8,
        'a' as u8,
        'b' as u8,
        'l' as u8,
        'e' as u8,
        ' ' as u8,
        'I' as u8,
        'P' as u8,
        ' ' as u8,
        'R' as u8,
        'a' as u8,
        'n' as u8,
        'g' as u8,
        'e' as u8,
        ':' as u8,
        ' ' as u8,
    ];
    proof {
        assert(r@ =~= usable_prefix());
    }
    let mut s = ip_bytes(start);
    r.append(&mut s);
    r.push(' ' as u8);
    r.push(DASH);
    r.push(' ' as u8);
    let mut e = ip_bytes(end);
    r.append(&mut e);
    proof {
        assert(r@ =~= range_text(start, end));
    }
    r
}

} // verus!
