//! Choosing among the addresses that a name resolves to.
use vstd::prelude::*;

verus! {

/// A resolved address, as plain octets.
#[derive(Clone, Copy, Debug, PartialEq, Eq)]
pub enum IpAddress {
    V4([u8; 4]),
    V6([u8; 16]),
}

/// No resolved address has the requested family.
#[derive(Clone, Copy, Debug, PartialEq, Eq, Structural)]
pub enum ResolveError {
    NoAddressOfFamily,
}

pub open spec fn is_v4(a: IpAddress) -> bool {
    a is V4
}

/// The first address of the wanted family (IPv4 when `want_v4`, else IPv6).
pub fn first_of_family(addrs: &Vec<IpAddress>, want_v4: bool) -> (r: Result<IpAddress, ResolveError>)
    ensures
        r matches Ok(a) ==> exists|i: int|
            0 <= i < addrs@.len() && addrs@[i] == a && is_v4(a) == want_v4 && forall|j: int|
                0 <= j < i ==> is_v4(#[trigger] addrs@[j]) != want_v4,
        r is Err ==> r == Err::<IpAddress, ResolveError>(ResolveError::NoAddressOfFamily)
            && forall|j: int| 0 <= j < addrs@.len() ==> is_v4(#[trigger] addrs@[j]) != want_v4,
{
    let mut i: usize = 0;
    while i < addrs.len()
        invariant
            0 <= i <= addrs@.len(),
            forall|j: int| 0 <= j < i ==> is_v4(#[trigger] addrs@[j]) != want_v4,
        decreases addrs@.len() - i,
    {
        let a = addrs[i];
        let v4 = match a {
            IpAddress::V4(_) => true,
            IpAddress::V6(_) => false,
        };
        if v4 == want_v4 {
            return Ok(a);
        }
        i += 1;
    }
    Err(ResolveError::NoAddressOfFamily)
}

} // verus!
