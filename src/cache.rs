//! Response-cache policy and counters.
use vstd::prelude::*;

use crate::codec::{find_header, get_header, header_value, headers_view, Header};
use crate::text::{find_from, first_occurrence};

verus! {

/// Cache sizing and housekeeping.
pub struct CacheConfig {
    pub capacity_mb: usize,
    pub cleanup_interval_secs: u64,
}

/// Hit and miss counters (wrapping, as the atomic counters they mirror).
pub struct CacheMetrics {
    pub hits: u64,
    pub misses: u64,
    pub bytes_saved: u64,
}

impl CacheMetrics {
    pub fn new() -> (r: CacheMetrics)
        ensures
            r.hits == 0 && r.misses == 0 && r.bytes_saved == 0,
    {
        CacheMetrics { hits: 0, misses: 0, bytes_saved: 0 }
    }

    /// Counts a hit that served `size` bytes.
    pub fn record_hit(&mut self, size: usize)
        ensures
            final(self).hits == old(self).hits.wrapping_add(1),
            final(self).bytes_saved == old(self).bytes_saved.wrapping_add(size as u64),
            final(self).misses == old(self).misses,
    {
        self.hits = self.hits.wrapping_add(1);
        self.bytes_saved = self.bytes_saved.wrapping_add(size as u64);
    }

    /// Counts a miss.
    pub fn record_miss(&mut self)
        ensures
            final(self).misses == old(self).misses.wrapping_add(1),
            final(self).hits == old(self).hits,
            final(self).bytes_saved == old(self).bytes_saved,
    {
        self.misses = self.misses.wrapping_add(1);
    }
}

pub open spec fn cache_control_name() -> Seq<u8> {
    seq![67u8, 97, 99, 104, 101, 45, 67, 111, 110, 116, 114, 111, 108]
}

pub open spec fn pragma_name() -> Seq<u8> {
    seq![80u8, 114, 97, 103, 109, 97]
}

pub open spec fn bypass_name() -> Seq<u8> {
    seq![88u8, 45, 80, 114, 111, 120, 121, 45, 66, 121, 112, 97, 115, 115, 45, 67, 97, 99, 104, 101]
}

pub open spec fn no_cache() -> Seq<u8> {
    seq![110u8, 111, 45, 99, 97, 99, 104, 101]
}

pub open spec fn no_store() -> Seq<u8> {
    seq![110u8, 111, 45, 115, 116, 111, 114, 101]
}

pub open spec fn max_age_zero() -> Seq<u8> {
    seq![109u8, 97, 120, 45, 97, 103, 101, 61, 48]
}

pub open spec fn must_revalidate() -> Seq<u8> {
    seq![109u8, 117, 115, 116, 45, 114, 101, 118, 97, 108, 105, 100, 97, 116, 101]
}

pub open spec fn mentions(v: Seq<u8>, w: Seq<u8>) -> bool {
    first_occurrence(v, w, 0) is Some
}

/// Whether a request must skip the cache: caching off; `Cache-Control` with
/// `no-cache` or `no-store`; else a revalidation request (`max-age=0`,
/// `must-revalidate`) may use it; else `Pragma: no-cache`, or an
/// `X-Proxy-Bypass-Cache` header, skips it.
pub open spec fn bypass_spec(cache_enabled: bool, hs: Seq<(Seq<u8>, Seq<u8>)>) -> bool {
    if !cache_enabled {
        true
    } else {
        let cc = header_value(hs, cache_control_name());
        if cc matches Some(v) && (mentions(v, no_cache()) || mentions(v, no_store())) {
            true
        } else if cc matches Some(v) && (mentions(v, max_age_zero()) || mentions(
            v,
            must_revalidate(),
        )) {
            false
        } else if header_value(hs, pragma_name()) matches Some(p) && mentions(p, no_cache()) {
            true
        } else {
            header_value(hs, bypass_name()) is Some
        }
    }
}

fn mentions_exec(v: &[u8], w: &[u8]) -> (r: bool)
    ensures
        r == mentions(v@, w@),
{
    find_from(v, w, 0).is_some()
}

/// Decides whether a request bypasses the cache.
pub fn should_bypass_http_request(cache_enabled: bool, headers: &Vec<Header>) -> (r: bool)
    ensures
        r == bypass_spec(cache_enabled, headers_view(headers@)),
{
    if !cache_enabled {
        return true;
    }
    let ccn: [u8; 13] = [67u8, 97, 99, 104, 101, 45, 67, 111, 110, 116, 114, 111, 108];
    let pn: [u8; 6] = [80u8, 114, 97, 103, 109, 97];
    let bn: [u8; 20] = [88u8, 45, 80, 114, 111, 120, 121, 45, 66, 121, 112, 97, 115, 115, 45, 67, 97, 99, 104, 101];
    let nc: [u8; 8] = [110u8, 111, 45, 99, 97, 99, 104, 101];
    let ns: [u8; 8] = [110u8, 111, 45, 115, 116, 111, 114, 101];
    let ma: [u8; 9] = [109u8, 97, 120, 45, 97, 103, 101, 61, 48];
    let mr: [u8; 15] = [109u8, 117, 115, 116, 45, 114, 101, 118, 97, 108, 105, 100, 97, 116, 101];
    assert(ccn@ =~= cache_control_name());
    assert(pn@ =~= pragma_name());
    assert(bn@ =~= bypass_name());
    assert(nc@ =~= no_cache());
    assert(ns@ =~= no_store());
    assert(ma@ =~= max_age_zero());
    assert(mr@ =~= must_revalidate());
    match get_header(headers, ccn.as_slice()) {
        Some(v) => {
            if mentions_exec(v.as_slice(), nc.as_slice()) || mentions_exec(v.as_slice(), ns.as_slice()) {
                return true;
            }
            if mentions_exec(v.as_slice(), ma.as_slice()) || mentions_exec(v.as_slice(), mr.as_slice()) {
                return false;
            }
        },
        None => {},
    }
    match get_header(headers, pn.as_slice()) {
        Some(p) => {
            if mentions_exec(p.as_slice(), nc.as_slice()) {
                return true;
            }
        },
        None => {},
    }
    find_header(headers, bn.as_slice()).is_some()
}

} // verus!
