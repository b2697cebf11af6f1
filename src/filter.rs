//! The domain filter: a blacklist and a whitelist, each holding exact hosts,
//! wildcard suffixes and regular expressions.
use vstd::prelude::*;
use vstd::utf8::encode_utf8;

use crate::text::{bytes_equal, ends_with_tail, has_suffix};

verus! {

/// Which of the three containers of a list an entry belongs to.
#[derive(Clone, Copy, Debug, PartialEq, Eq, Structural)]
pub enum ListConfigType {
    Exact,
    Wildcard,
    Regex,
}

/// Why a filter update was refused.
#[derive(Clone, Copy, Debug, PartialEq, Eq, Structural)]
pub enum FilterError {
    /// A regular expression that does not compile.
    InvalidPattern,
}

/// Whether the regex engine accepts `pattern`.
pub uninterp spec fn pattern_compiles(pattern: Seq<char>) -> bool;

/// Whether the compiled `pattern` finds a match somewhere in `text`.
pub uninterp spec fn pattern_matches(pattern: Seq<char>, text: Seq<u8>) -> bool;

/// Relies on `regex::bytes::Regex::new`: whether the pattern compiles.
#[verifier::external_body]
fn regex_compiles(pattern: &str) -> (r: bool)
    ensures
        r == pattern_compiles(pattern@),
{
    regex::bytes::Regex::new(pattern).is_ok()
}

/// Relies on `regex::bytes::Regex::is_match` on the compiled pattern: whether it
/// matches anywhere in `text`.
#[verifier::external_body]
fn regex_is_match(pattern: &str, text: &[u8]) -> (r: bool)
    requires
        pattern_compiles(pattern@),
    ensures
        r == pattern_matches(pattern@, text@),
{
    match regex::bytes::Regex::new(pattern) {
        Ok(re) => re.is_match(text),
        Err(_) => false,
    }
}

/// The UTF-8 bytes of a string.
pub open spec fn utf8(s: Seq<char>) -> Seq<u8> {
    encode_utf8(s)
}

/// The suffix that a wildcard pattern stands for: a leading `*.` or `*` is dropped.
pub open spec fn wildcard_suffix(p: Seq<u8>) -> Seq<u8> {
    if p.len() >= 2 && p[0] == 42u8 && p[1] == 46u8 {
        p.skip(2)
    } else if p.len() >= 1 && p[0] == 42u8 {
        p.skip(1)
    } else {
        p
    }
}

/// A wildcard pattern matches every host that ends with its suffix.
pub open spec fn wildcard_hits(pattern: Seq<char>, host: Seq<u8>) -> bool {
    has_suffix(host, wildcard_suffix(utf8(pattern)))
}

/// `s` holds an entry whose bytes are those of `p`.
pub open spec fn holds(s: Seq<Seq<char>>, p: Seq<char>) -> bool {
    exists|i: int| 0 <= i < s.len() && utf8(#[trigger] s[i]) == utf8(p)
}

/// No two entries of `s` have the same bytes.
pub open spec fn distinct(s: Seq<Seq<char>>) -> bool {
    forall|i: int, j: int| 0 <= i < j < s.len() ==> utf8(#[trigger] s[i]) != utf8(#[trigger] s[j])
}

/// `s` with `p` appended, unless already held.
pub open spec fn with_entry(s: Seq<Seq<char>>, p: Seq<char>) -> Seq<Seq<char>> {
    if holds(s, p) {
        s
    } else {
        s.push(p)
    }
}

/// `s` without every entry whose bytes are those of `p`.
pub open spec fn without_entry(s: Seq<Seq<char>>, p: Seq<char>) -> Seq<Seq<char>>
    decreases s.len(),
{
    if s.len() == 0 {
        s
    } else {
        let rest = without_entry(s.drop_last(), p);
        if utf8(s.last()) == utf8(p) {
            rest
        } else {
            rest.push(s.last())
        }
    }
}

/// The entries of `b` added one by one to `a`.
pub open spec fn merged(a: Seq<Seq<char>>, b: Seq<Seq<char>>) -> Seq<Seq<char>>
    decreases b.len(),
{
    if b.len() == 0 {
        a
    } else {
        with_entry(merged(a, b.drop_last()), b.last())
    }
}

/// What one list (blacklist or whitelist) holds.
pub struct ListModel {
    pub exact: Seq<Seq<char>>,
    pub wildcard: Seq<Seq<char>>,
    pub regex: Seq<Seq<char>>,
}

impl ListModel {
    pub open spec fn empty() -> ListModel {
        ListModel { exact: Seq::empty(), wildcard: Seq::empty(), regex: Seq::empty() }
    }

    /// Every stored regular expression compiles.
    /// Every stored regular expression compiles, and the exact entries form a
    /// set: no two have the same bytes.
    pub open spec fn well_formed(self) -> bool {
        &&& forall|i: int| 0 <= i < self.regex.len() ==> pattern_compiles(#[trigger] self.regex[i])
        &&& distinct(self.exact)
    }

    pub open spec fn exact_hit(self, host: Seq<u8>) -> bool {
        exists|i: int| 0 <= i < self.exact.len() && utf8(#[trigger] self.exact[i]) == host
    }

    pub open spec fn wildcard_hit(self, host: Seq<u8>) -> bool {
        exists|i: int| 0 <= i < self.wildcard.len() && wildcard_hits(#[trigger] self.wildcard[i], host)
    }

    pub open spec fn regex_hit(self, host: Seq<u8>) -> bool {
        exists|i: int| 0 <= i < self.regex.len() && pattern_matches(#[trigger] self.regex[i], host)
    }

    /// The list matches `host` by any of its three kinds of entry.
    pub open spec fn hits(self, host: Seq<u8>) -> bool {
        self.exact_hit(host) || self.wildcard_hit(host) || self.regex_hit(host)
    }

    pub open spec fn kind(self, kind: ListConfigType) -> Seq<Seq<char>> {
        match kind {
            ListConfigType::Exact => self.exact,
            ListConfigType::Wildcard => self.wildcard,
            ListConfigType::Regex => self.regex,
        }
    }

    pub open spec fn with_kind(self, kind: ListConfigType, s: Seq<Seq<char>>) -> ListModel {
        match kind {
            ListConfigType::Exact => ListModel { exact: s, ..self },
            ListConfigType::Wildcard => ListModel { wildcard: s, ..self },
            ListConfigType::Regex => ListModel { regex: s, ..self },
        }
    }

    pub open spec fn added(self, kind: ListConfigType, p: Seq<char>) -> ListModel {
        self.with_kind(kind, with_entry(self.kind(kind), p))
    }

    pub open spec fn removed(self, kind: ListConfigType, p: Seq<char>) -> ListModel {
        self.with_kind(kind, without_entry(self.kind(kind), p))
    }

    pub open spec fn merged_with(self, other: ListModel) -> ListModel {
        ListModel {
            exact: merged(self.exact, other.exact),
            wildcard: merged(self.wildcard, other.wildcard),
            regex: merged(self.regex, other.regex),
        }
    }
}

/// What the whole filter holds.
pub struct FilterModel {
    pub blacklist: ListModel,
    pub whitelist: ListModel,
}

impl FilterModel {
    pub open spec fn list(self, blacklist: bool) -> ListModel {
        if blacklist {
            self.blacklist
        } else {
            self.whitelist
        }
    }

    pub open spec fn with_list(self, blacklist: bool, l: ListModel) -> FilterModel {
        if blacklist {
            FilterModel { blacklist: l, ..self }
        } else {
            FilterModel { whitelist: l, ..self }
        }
    }

    /// The model after `add(pattern, kind)` on one list.
    pub open spec fn added(self, blacklist: bool, kind: ListConfigType, p: Seq<char>) -> FilterModel {
        self.with_list(blacklist, self.list(blacklist).added(kind, p))
    }

    /// The model after `remove(pattern, kind)` on one list.
    pub open spec fn removed(self, blacklist: bool, kind: ListConfigType, p: Seq<char>) -> FilterModel {
        self.with_list(blacklist, self.list(blacklist).removed(kind, p))
    }

    /// Whether `host` is on the chosen list.
    pub open spec fn contains(self, blacklist: bool, host: Seq<u8>) -> bool {
        self.list(blacklist).hits(host)
    }

    pub open spec fn well_formed(self) -> bool {
        self.blacklist.well_formed() && self.whitelist.well_formed()
    }
}

pub open spec fn strings(v: Seq<String>) -> Seq<Seq<char>> {
    v.map_values(|s: String| s@)
}

/// One list with its three containers.
pub struct PatternList {
    pub exact: Vec<String>,
    pub wildcard: Vec<String>,
    pub regex: Vec<String>,
}

impl View for PatternList {
    type V = ListModel;

    open spec fn view(&self) -> ListModel {
        ListModel {
            exact: strings(self.exact@),
            wildcard: strings(self.wildcard@),
            regex: strings(self.regex@),
        }
    }
}

/// Whether `v` holds an entry with the bytes of `p`.
fn find_entry(v: &Vec<String>, p: &[u8]) -> (r: bool)
    ensures
        r == exists|i: int| 0 <= i < v@.len() && utf8(#[trigger] strings(v@)[i]) == p@,
{
    let mut i: usize = 0;
    while i < v.len()
        invariant
            0 <= i <= v@.len(),
            forall|j: int| 0 <= j < i ==> utf8(#[trigger] strings(v@)[j]) != p@,
        decreases v@.len() - i,
    {
        if bytes_equal(v[i].as_str().as_bytes(), p) {
            assert(utf8(strings(v@)[i as int]) == p@);
            return true;
        }
        i += 1;
    }
    false
}

/// Appends `p` to `v` unless an entry with the same bytes is there.
fn add_entry(v: &mut Vec<String>, p: &str)
    ensures
        strings(final(v)@) == with_entry(strings(old(v)@), p@),
{
    let found = find_entry(v, p.as_bytes());
    if !found {
        let ghost before = strings(v@);
        v.push(p.to_owned());
        assert(strings(v@) =~= before.push(p@));
    }
}

/// Drops from `v` every entry with the bytes of `p`.
fn remove_entry(v: &mut Vec<String>, p: &str)
    ensures
        strings(final(v)@) == without_entry(strings(old(v)@), p@),
{
    let pb = p.as_bytes();
    let mut kept: Vec<String> = Vec::new();
    let mut i: usize = 0;
    while i < v.len()
        invariant
            0 <= i <= v@.len(),
            pb@ == utf8(p@),
            strings(kept@) == without_entry(strings(v@).subrange(0, i as int), p@),
        decreases v@.len() - i,
    {
        let ghost before = strings(kept@);
        assert(strings(v@).subrange(0, i + 1).drop_last() =~= strings(v@).subrange(0, i as int));
        if !bytes_equal(v[i].as_str().as_bytes(), pb) {
            kept.push(v[i].clone());
            assert(strings(kept@) =~= before.push(strings(v@)[i as int]));
        }
        i += 1;
    }
    assert(strings(v@).subrange(0, v@.len() as int) =~= strings(v@));
    *v = kept;
}

/// Adds every entry of `other` to `v`, in order, skipping those already held.
fn merge_entries(v: &mut Vec<String>, other: &Vec<String>)
    ensures
        strings(final(v)@) == merged(strings(old(v)@), strings(other@)),
{
    let ghost start = strings(v@);
    let mut i: usize = 0;
    while i < other.len()
        invariant
            0 <= i <= other@.len(),
            strings(v@) == merged(start, strings(other@).subrange(0, i as int)),
        decreases other@.len() - i,
    {
        assert(strings(other@).subrange(0, i + 1).drop_last() =~= strings(other@).subrange(
            0,
            i as int,
        ));
        add_entry(v, other[i].as_str());
        i += 1;
    }
    assert(strings(other@).subrange(0, other@.len() as int) =~= strings(other@));
}

/// A copy of the entries of `v`.
fn copy_entries(v: &Vec<String>) -> (r: Vec<String>)
    ensures
        strings(r@) == strings(v@),
{
    let mut out: Vec<String> = Vec::new();
    let mut i: usize = 0;
    while i < v.len()
        invariant
            0 <= i <= v@.len(),
            strings(out@) == strings(v@).subrange(0, i as int),
        decreases v@.len() - i,
    {
        let ghost before = strings(out@);
        out.push(v[i].clone());
        assert(strings(out@) =~= before.push(strings(v@)[i as int]));
        assert(strings(v@).subrange(0, i + 1) =~= strings(v@).subrange(0, i as int).push(
            strings(v@)[i as int],
        ));
        i += 1;
    }
    assert(strings(v@).subrange(0, v@.len() as int) =~= strings(v@));
    out
}

impl PatternList {
    pub fn new() -> (r: PatternList)
        ensures
            r@ == ListModel::empty(),
    {
        let r = PatternList { exact: Vec::new(), wildcard: Vec::new(), regex: Vec::new() };
        assert(r@.exact =~= Seq::<Seq<char>>::empty());
        assert(r@.wildcard =~= Seq::<Seq<char>>::empty());
        assert(r@.regex =~= Seq::<Seq<char>>::empty());
        r
    }

    /// Whether an exact entry has the bytes of `host`.
    fn exact_hit(&self, host: &[u8]) -> (r: bool)
        ensures
            r == self@.exact_hit(host@),
    {
        find_entry(&self.exact, host)
    }

    /// Whether some wildcard's suffix ends `host`.
    fn wildcard_hit(&self, host: &[u8]) -> (r: bool)
        ensures
            r == self@.wildcard_hit(host@),
    {
        let mut i: usize = 0;
        while i < self.wildcard.len()
            invariant
                0 <= i <= self.wildcard@.len(),
                forall|j: int| 0 <= j < i ==> !wildcard_hits(#[trigger] self@.wildcard[j], host@),
            decreases self.wildcard@.len() - i,
        {
            let p = self.wildcard[i].as_str().as_bytes();
            let start: usize = if p.len() >= 2 && p[0] == 42u8 && p[1] == 46u8 {
                2
            } else if p.len() >= 1 && p[0] == 42u8 {
                1
            } else {
                0
            };
            assert(p@.skip(0) =~= p@);
            if ends_with_tail(host, p, start) {
                assert(wildcard_hits(self@.wildcard[i as int], host@));
                return true;
            }
            i += 1;
        }
        false
    }

    /// Whether some regular expression matches `host`.
    fn regex_hit(&self, host: &[u8]) -> (r: bool)
        requires
            self@.well_formed(),
        ensures
            r == self@.regex_hit(host@),
    {
        let mut i: usize = 0;
        while i < self.regex.len()
            invariant
                self@.well_formed(),
                0 <= i <= self.regex@.len(),
                forall|j: int| 0 <= j < i ==> !pattern_matches(#[trigger] self@.regex[j], host@),
            decreases self.regex@.len() - i,
        {
            assert(pattern_compiles(self@.regex[i as int]));
            if regex_is_match(self.regex[i].as_str(), host) {
                assert(pattern_matches(self@.regex[i as int], host@));
                return true;
            }
            i += 1;
        }
        false
    }

    /// Exact entries first, then wildcards, then regular expressions.
    pub fn hits(&self, host: &[u8]) -> (r: bool)
        requires
            self@.well_formed(),
        ensures
            r == self@.hits(host@),
    {
        self.exact_hit(host) || self.wildcard_hit(host) || self.regex_hit(host)
    }

    fn container(&self, kind: ListConfigType) -> (r: &Vec<String>)
        ensures
            strings(r@) == self@.kind(kind),
    {
        match kind {
            ListConfigType::Exact => &self.exact,
            ListConfigType::Wildcard => &self.wildcard,
            ListConfigType::Regex => &self.regex,
        }
    }

    /// Adds `p` to the container `kind`; a regular expression must compile.
    pub fn add(&mut self, p: &str, kind: ListConfigType) -> (r: Result<(), FilterError>)
        requires
            old(self)@.well_formed(),
        ensures
            final(self)@.well_formed(),
            kind == ListConfigType::Regex && !pattern_compiles(p@) ==> r == Err::<(), FilterError>(
                FilterError::InvalidPattern,
            ) && final(self)@ == old(self)@,
            !(kind == ListConfigType::Regex && !pattern_compiles(p@)) ==> r is Ok && final(self)@
                == old(self)@.added(kind, p@),
    {
        match kind {
            ListConfigType::Exact => {
                let ghost before = self@.exact;
                add_entry(&mut self.exact, p);
                proof {
                    lemma_with_entry_distinct(before, p@);
                }
                assert(self@.regex == old(self)@.regex);
                Ok(())
            },
            ListConfigType::Wildcard => {
                add_entry(&mut self.wildcard, p);
                assert(self@.regex == old(self)@.regex);
                Ok(())
            },
            ListConfigType::Regex => {
                if !regex_compiles(p) {
                    return Err(FilterError::InvalidPattern);
                }
                let ghost before = self@.regex;
                add_entry(&mut self.regex, p);
                assert forall|i: int| 0 <= i < self@.regex.len() implies pattern_compiles(
                    #[trigger] self@.regex[i],
                ) by {
                    if i < before.len() {
                        assert(self@.regex[i] == before[i]);
                    }
                }
                Ok(())
            },
        }
    }

    /// Removes every entry of `kind` stored with the bytes of `p`.
    pub fn remove(&mut self, p: &str, kind: ListConfigType)
        requires
            old(self)@.well_formed(),
        ensures
            final(self)@.well_formed(),
            final(self)@ == old(self)@.removed(kind, p@),
    {
        match kind {
            ListConfigType::Exact => {
                let ghost before = self@.exact;
                remove_entry(&mut self.exact, p);
                proof {
                    lemma_without_entry_distinct(before, p@);
                }
                assert(self@.regex == old(self)@.regex);
            },
            ListConfigType::Wildcard => {
                remove_entry(&mut self.wildcard, p);
                assert(self@.regex == old(self)@.regex);
            },
            ListConfigType::Regex => {
                let ghost before = self@.regex;
                remove_entry(&mut self.regex, p);
                proof {
                    lemma_without_keeps(before, p@);
                }
            },
        }
    }

    /// Adds every entry of `other`, kind by kind.
    pub fn merge(&mut self, other: &PatternList)
        requires
            old(self)@.well_formed(),
            other@.well_formed(),
        ensures
            final(self)@.well_formed(),
            final(self)@ == old(self)@.merged_with(other@),
    {
        let ghost exact_before = self@.exact;
        merge_entries(&mut self.exact, &other.exact);
        proof {
            lemma_merged_distinct(exact_before, other@.exact);
        }
        merge_entries(&mut self.wildcard, &other.wildcard);
        assert(self@.regex == old(self)@.regex);
        assert(old(self)@.well_formed());
        let ghost before = self@.regex;
        merge_entries(&mut self.regex, &other.regex);
        proof {
            lemma_merged_keeps(before, other@.regex);
        }
    }

    /// A snapshot of the entries of `kind`.
    pub fn entries(&self, kind: ListConfigType) -> (r: Vec<String>)
        ensures
            strings(r@) == self@.kind(kind),
    {
        copy_entries(self.container(kind))
    }
}


/// The filter: one list of hosts to block, one of hosts to leave alone.
pub struct DomainFilter {
    pub blacklist: PatternList,
    pub whitelist: PatternList,
}

impl View for DomainFilter {
    type V = FilterModel;

    open spec fn view(&self) -> FilterModel {
        FilterModel { blacklist: self.blacklist@, whitelist: self.whitelist@ }
    }
}

impl DomainFilter {
    /// A filter with both lists empty.
    pub fn new() -> (r: DomainFilter)
        ensures
            r@.blacklist == ListModel::empty(),
            r@.whitelist == ListModel::empty(),
            r@.well_formed(),
    {
        DomainFilter { blacklist: PatternList::new(), whitelist: PatternList::new() }
    }

    /// Adds `domain` to the chosen list under `kind`.
    pub fn add_domain(&mut self, domain: &str, kind: ListConfigType, blacklist: bool) -> (r: Result<
        (),
        FilterError,
    >)
        requires
            old(self)@.well_formed(),
        ensures
            final(self)@.well_formed(),
            kind == ListConfigType::Regex && !pattern_compiles(domain@) ==> r == Err::<
                (),
                FilterError,
            >(FilterError::InvalidPattern) && final(self)@ == old(self)@,
            !(kind == ListConfigType::Regex && !pattern_compiles(domain@)) ==> r is Ok && final(self)@ == old(self)@.added(blacklist, kind, domain@),
    {
        if blacklist {
            self.blacklist.add(domain, kind)
        } else {
            self.whitelist.add(domain, kind)
        }
    }

    /// Removes `domain` from the chosen list under `kind`; a regular expression
    /// that does not compile is refused.
    pub fn remove_domain(&mut self, domain: &str, kind: ListConfigType, blacklist: bool) -> (r:
        Result<(), FilterError>)
        requires
            old(self)@.well_formed(),
        ensures
            final(self)@.well_formed(),
            kind == ListConfigType::Regex && !pattern_compiles(domain@) ==> r == Err::<
                (),
                FilterError,
            >(FilterError::InvalidPattern) && final(self)@ == old(self)@,
            !(kind == ListConfigType::Regex && !pattern_compiles(domain@)) ==> r is Ok && final(self)@ == old(self)@.removed(blacklist, kind, domain@),
    {
        if kind == ListConfigType::Regex && !regex_compiles(domain) {
            return Err(FilterError::InvalidPattern);
        }
        if blacklist {
            self.blacklist.remove(domain, kind);
        } else {
            self.whitelist.remove(domain, kind);
        }
        Ok(())
    }

    /// Whether `domain` is on the chosen list.
    pub fn is_listed(&self, domain: &str, blacklist: bool) -> (r: bool)
        requires
            self@.well_formed(),
        ensures
            r == self@.contains(blacklist, utf8(domain@)),
    {
        if blacklist {
            self.blacklist.hits(domain.as_bytes())
        } else {
            self.whitelist.hits(domain.as_bytes())
        }
    }

    /// Adds every entry of `other` to this filter.
    pub fn merge(&mut self, other: &DomainFilter)
        requires
            old(self)@.well_formed(),
            other@.well_formed(),
        ensures
            final(self)@.well_formed(),
            final(self)@.blacklist == old(self)@.blacklist.merged_with(other@.blacklist),
            final(self)@.whitelist == old(self)@.whitelist.merged_with(other@.whitelist),
    {
        self.blacklist.merge(&other.blacklist);
        self.whitelist.merge(&other.whitelist);
    }
}

/// Adds `domain` to the blacklist under `list_type`.
pub fn add_domain_to_blacklist(filter: &mut DomainFilter, domain: &str, list_type: ListConfigType) -> (r:
    Result<(), FilterError>)
    requires
        old(filter)@.well_formed(),
    ensures
        final(filter)@.well_formed(),
        list_type == ListConfigType::Regex && !pattern_compiles(domain@) ==> r == Err::<
            (),
            FilterError,
        >(FilterError::InvalidPattern) && final(filter)@ == old(filter)@,
        !(list_type == ListConfigType::Regex && !pattern_compiles(domain@)) ==> r is Ok && final(filter)@ == old(filter)@.added(true, list_type, domain@),
{
    filter.add_domain(domain, list_type, true)
}

/// Adds `domain` to the whitelist under `list_type`.
pub fn add_domain_to_whitelist(filter: &mut DomainFilter, domain: &str, list_type: ListConfigType) -> (r:
    Result<(), FilterError>)
    requires
        old(filter)@.well_formed(),
    ensures
        final(filter)@.well_formed(),
        list_type == ListConfigType::Regex && !pattern_compiles(domain@) ==> r == Err::<
            (),
            FilterError,
        >(FilterError::InvalidPattern) && final(filter)@ == old(filter)@,
        !(list_type == ListConfigType::Regex && !pattern_compiles(domain@)) ==> r is Ok && final(filter)@ == old(filter)@.added(false, list_type, domain@),
{
    filter.add_domain(domain, list_type, false)
}

/// Whether `domain` is blacklisted.
pub fn is_domain_blacklisted(filter: &DomainFilter, domain: &str) -> (r: bool)
    requires
        filter@.well_formed(),
    ensures
        r == filter@.contains(true, utf8(domain@)),
{
    filter.is_listed(domain, true)
}

/// Whether `domain` is whitelisted.
pub fn is_domain_whitelisted(filter: &DomainFilter, domain: &str) -> (r: bool)
    requires
        filter@.well_formed(),
    ensures
        r == filter@.contains(false, utf8(domain@)),
{
    filter.is_listed(domain, false)
}

/// Removes `domain` from the blacklist under `list_type`.
pub fn remove_domain_from_blacklist(
    filter: &mut DomainFilter,
    domain: &str,
    list_type: ListConfigType,
) -> (r: Result<(), FilterError>)
    requires
        old(filter)@.well_formed(),
    ensures
        final(filter)@.well_formed(),
        list_type == ListConfigType::Regex && !pattern_compiles(domain@) ==> r == Err::<
            (),
            FilterError,
        >(FilterError::InvalidPattern) && final(filter)@ == old(filter)@,
        !(list_type == ListConfigType::Regex && !pattern_compiles(domain@)) ==> r is Ok && final(filter)@ == old(filter)@.removed(true, list_type, domain@),
{
    filter.remove_domain(domain, list_type, true)
}

/// Removes `domain` from the whitelist under `list_type`.
pub fn remove_domain_from_whitelist(
    filter: &mut DomainFilter,
    domain: &str,
    list_type: ListConfigType,
) -> (r: Result<(), FilterError>)
    requires
        old(filter)@.well_formed(),
    ensures
        final(filter)@.well_formed(),
        list_type == ListConfigType::Regex && !pattern_compiles(domain@) ==> r == Err::<
            (),
            FilterError,
        >(FilterError::InvalidPattern) && final(filter)@ == old(filter)@,
        !(list_type == ListConfigType::Regex && !pattern_compiles(domain@)) ==> r is Ok && final(filter)@ == old(filter)@.removed(false, list_type, domain@),
{
    filter.remove_domain(domain, list_type, false)
}

/// A snapshot of the blacklist's entries of `config_type`.
pub fn get_blacklist(filter: &DomainFilter, config_type: ListConfigType) -> (r: Vec<String>)
    requires
        filter@.well_formed(),
    ensures
        strings(r@) == filter@.blacklist.kind(config_type),
        config_type == ListConfigType::Exact ==> distinct(strings(r@)),
{
    filter.blacklist.entries(config_type)
}

/// A snapshot of the whitelist's entries of `config_type`.
pub fn get_whitelist(filter: &DomainFilter, config_type: ListConfigType) -> (r: Vec<String>)
    requires
        filter@.well_formed(),
    ensures
        strings(r@) == filter@.whitelist.kind(config_type),
        config_type == ListConfigType::Exact ==> distinct(strings(r@)),
{
    filter.whitelist.entries(config_type)
}

/// Merges a filter loaded (and so validated) from an external file.
pub fn merge_from_file(filter: &mut DomainFilter, loaded: &DomainFilter)
    requires
        old(filter)@.well_formed(),
        loaded@.well_formed(),
    ensures
        final(filter)@.well_formed(),
        final(filter)@.blacklist == old(filter)@.blacklist.merged_with(loaded@.blacklist),
        final(filter)@.whitelist == old(filter)@.whitelist.merged_with(loaded@.whitelist),
{
    filter.merge(loaded)
}

/// Replaces the whole filter by one loaded from an external file.
pub fn replace_from_file(filter: &mut DomainFilter, loaded: DomainFilter)
    requires
        loaded@.well_formed(),
    ensures
        final(filter)@ == loaded@,
        final(filter)@.well_formed(),
{
    *filter = loaded;
}

/// After adding `host` to a list as an exact entry, the list contains `host`;
/// adding it again changes nothing.
pub proof fn lemma_add_exact_then_contains(m: FilterModel, blacklist: bool, host: Seq<char>)
    ensures
        m.added(blacklist, ListConfigType::Exact, host).contains(blacklist, utf8(host)),
        m.added(blacklist, ListConfigType::Exact, host).added(blacklist, ListConfigType::Exact, host)
            == m.added(blacklist, ListConfigType::Exact, host),
{
    let l = m.list(blacklist);
    let e = with_entry(l.exact, host);
    if !holds(l.exact, host) {
        assert(e[e.len() - 1] == host);
    }
    assert(holds(e, host));
    let a = m.added(blacklist, ListConfigType::Exact, host);
    assert(a.list(blacklist).exact == e);
    assert(a.list(blacklist).exact_hit(utf8(host)));
    assert(a.added(blacklist, ListConfigType::Exact, host).list(blacklist) == a.list(blacklist));
    assert(a.added(blacklist, ListConfigType::Exact, host).list(!blacklist) == a.list(!blacklist));
}

/// Adding any entry twice is the same as adding it once.
pub proof fn lemma_add_idempotent(m: FilterModel, blacklist: bool, kind: ListConfigType, p: Seq<char>)
    ensures
        m.added(blacklist, kind, p).added(blacklist, kind, p) == m.added(blacklist, kind, p),
{
    let l = m.list(blacklist);
    let s = l.kind(kind);
    let e = with_entry(s, p);
    if !holds(s, p) {
        assert(e[e.len() - 1] == p);
    }
    assert(holds(e, p));
    let a = m.added(blacklist, kind, p);
    assert(a.list(blacklist).kind(kind) == e);
    assert(a.added(blacklist, kind, p).list(blacklist) == a.list(blacklist));
    assert(a.added(blacklist, kind, p).list(!blacklist) == a.list(!blacklist));
}

/// Rebuilding a list by merging its entries into an empty one keeps every entry:
/// a filter reloaded from its own snapshot still holds what was added.
pub proof fn lemma_reload_keeps_entries(snapshot: Seq<Seq<char>>, i: int)
    requires
        0 <= i < snapshot.len(),
    ensures
        holds(merged(Seq::empty(), snapshot), snapshot[i]),
    decreases snapshot.len(),
{
    lemma_merged_grows(Seq::empty(), snapshot);
    let d = snapshot.drop_last();
    let m = merged(Seq::empty(), d);
    if i < d.len() {
        lemma_reload_keeps_entries(d, i);
        assert(d[i] == snapshot[i]);
        let w = choose|j: int| 0 <= j < m.len() && utf8(#[trigger] m[j]) == utf8(snapshot[i]);
        let e = with_entry(m, snapshot.last());
        assert(e[w] == m[w]);
    } else {
        let e = with_entry(m, snapshot.last());
        if !holds(m, snapshot.last()) {
            assert(e[e.len() - 1] == snapshot.last());
        } else {
            assert(e == m);
        }
    }
}


/// A list rebuilt from its snapshot, entry by entry, as a reload from disk does.
pub open spec fn reloaded(l: ListModel) -> ListModel {
    ListModel {
        exact: merged(Seq::empty(), l.exact),
        wildcard: merged(Seq::empty(), l.wildcard),
        regex: merged(Seq::empty(), l.regex),
    }
}

/// After `host` is added to the blacklist as an exact entry and the list is
/// rebuilt from its snapshot, the blacklist still contains `host`.
pub proof fn lemma_add_survives_reload(m: FilterModel, host: Seq<char>)
    ensures
        reloaded(m.added(true, ListConfigType::Exact, host).blacklist).hits(utf8(host)),
{
    let a = m.added(true, ListConfigType::Exact, host);
    let snap = a.blacklist.exact;
    if !holds(m.blacklist.exact, host) {
        assert(snap[snap.len() - 1] == host);
    }
    assert(holds(snap, host));
    let i = choose|i: int| 0 <= i < snap.len() && utf8(#[trigger] snap[i]) == utf8(host);
    lemma_reload_keeps_entries(snap, i);
    let r = merged(Seq::empty(), snap);
    let j = choose|j: int| 0 <= j < r.len() && utf8(#[trigger] r[j]) == utf8(snap[i]);
    assert(reloaded(a.blacklist).exact[j] == r[j]);
    assert(reloaded(a.blacklist).exact_hit(utf8(host)));
}

/// Merging never drops an entry that was there.
proof fn lemma_merged_grows(a: Seq<Seq<char>>, b: Seq<Seq<char>>)
    ensures
        a.len() <= merged(a, b).len(),
        forall|j: int| 0 <= j < a.len() ==> #[trigger] merged(a, b)[j] == a[j],
    decreases b.len(),
{
    if b.len() > 0 {
        lemma_merged_grows(a, b.drop_last());
    }
}

/// A wildcard `*.suffix` (as bytes) matches the bare suffix and every host that
/// ends in `.suffix`, and no host that does not end in `suffix`.
pub proof fn lemma_wildcard_semantics(suffix: Seq<u8>, label: Seq<u8>, host: Seq<u8>)
    ensures
        wildcard_suffix(seq![42u8, 46u8] + suffix) == suffix,
        has_suffix(suffix, wildcard_suffix(seq![42u8, 46u8] + suffix)),
        has_suffix(label + seq![46u8] + suffix, wildcard_suffix(seq![42u8, 46u8] + suffix)),
        !has_suffix(host, suffix) ==> !has_suffix(host, wildcard_suffix(seq![42u8, 46u8] + suffix)),
{
    let p = seq![42u8, 46u8] + suffix;
    assert(p.skip(2) =~= suffix);
    assert(suffix.subrange(0, suffix.len() as int) =~= suffix);
    let h = label + seq![46u8] + suffix;
    assert(h.subrange(h.len() - suffix.len(), h.len() as int) =~= suffix);
}


/// Adding an entry keeps a list's entries distinct.
proof fn lemma_with_entry_distinct(s: Seq<Seq<char>>, p: Seq<char>)
    requires
        distinct(s),
    ensures
        distinct(with_entry(s, p)),
{
    if !holds(s, p) {
        let w = s.push(p);
        assert forall|i: int, j: int| 0 <= i < j < w.len() implies utf8(#[trigger] w[i]) != utf8(
            #[trigger] w[j],
        ) by {
            assert(w[i] == s[i]);
            if j < s.len() {
                assert(w[j] == s[j]);
            } else {
                assert(w[j] == p);
            }
        }
    }
}

/// Removing entries keeps a list's entries distinct; what is left was there.
proof fn lemma_without_entry_distinct(s: Seq<Seq<char>>, p: Seq<char>)
    requires
        distinct(s),
    ensures
        distinct(without_entry(s, p)),
        forall|k: int|
            0 <= k < without_entry(s, p).len() ==> exists|m: int|
                0 <= m < s.len() && #[trigger] without_entry(s, p)[k] == s[m],
    decreases s.len(),
{
    if s.len() > 0 {
        let d = s.drop_last();
        assert forall|i: int, j: int| 0 <= i < j < d.len() implies utf8(#[trigger] d[i]) != utf8(
            #[trigger] d[j],
        ) by {
            assert(d[i] == s[i] && d[j] == s[j]);
        }
        lemma_without_entry_distinct(d, p);
        let rest = without_entry(d, p);
        let w = without_entry(s, p);
        assert forall|k: int| 0 <= k < w.len() implies exists|m: int|
            0 <= m < s.len() && #[trigger] w[k] == s[m] by {
            if k < rest.len() {
                let m = choose|m: int| 0 <= m < d.len() && rest[k] == d[m];
                assert(w[k] == rest[k]);
                assert(d[m] == s[m]);
            } else {
                assert(w[k] == s[s.len() - 1]);
            }
        }
        if utf8(s.last()) != utf8(p) {
            assert forall|i: int, j: int| 0 <= i < j < w.len() implies utf8(#[trigger] w[i])
                != utf8(#[trigger] w[j]) by {
                assert(w[i] == rest[i]);
                if j < rest.len() {
                    assert(w[j] == rest[j]);
                } else {
                    assert(w[j] == s.last());
                    let m = choose|m: int| 0 <= m < d.len() && rest[i] == d[m];
                    assert(d[m] == s[m]);
                    assert(utf8(s[m]) != utf8(s[s.len() - 1]));
                }
            }
        }
    }
}

/// Merging into a list with distinct entries keeps them distinct.
proof fn lemma_merged_distinct(a: Seq<Seq<char>>, b: Seq<Seq<char>>)
    requires
        distinct(a),
    ensures
        distinct(merged(a, b)),
    decreases b.len(),
{
    if b.len() > 0 {
        lemma_merged_distinct(a, b.drop_last());
        lemma_with_entry_distinct(merged(a, b.drop_last()), b.last());
    }
}

/// Reloading a set of exact entries from its snapshot gives back the same
/// entries in the same order.
pub proof fn lemma_reload_exact_identity(s: Seq<Seq<char>>)
    requires
        distinct(s),
    ensures
        merged(Seq::empty(), s) == s,
    decreases s.len(),
{
    if s.len() > 0 {
        let d = s.drop_last();
        assert forall|i: int, j: int| 0 <= i < j < d.len() implies utf8(#[trigger] d[i]) != utf8(
            #[trigger] d[j],
        ) by {
            assert(d[i] == s[i] && d[j] == s[j]);
        }
        lemma_reload_exact_identity(d);
        assert(!holds(d, s.last())) by {
            if holds(d, s.last()) {
                let i = choose|i: int| 0 <= i < d.len() && utf8(#[trigger] d[i]) == utf8(s.last());
                assert(d[i] == s[i]);
            }
        }
        assert(d.push(s.last()) =~= s);
    } else {
        assert(s =~= Seq::<Seq<char>>::empty());
    }
}

/// Removing entries keeps every remaining pattern compiling.
proof fn lemma_without_keeps(s: Seq<Seq<char>>, p: Seq<char>)
    requires
        forall|i: int| 0 <= i < s.len() ==> pattern_compiles(#[trigger] s[i]),
    ensures
        forall|i: int|
            0 <= i < without_entry(s, p).len() ==> pattern_compiles(
                #[trigger] without_entry(s, p)[i],
            ),
    decreases s.len(),
{
    if s.len() > 0 {
        let d = s.drop_last();
        assert forall|i: int| 0 <= i < d.len() implies pattern_compiles(#[trigger] d[i]) by {
            assert(d[i] == s[i]);
        }
        lemma_without_keeps(d, p);
        let r = without_entry(s, p);
        let rest = without_entry(d, p);
        assert forall|i: int| 0 <= i < r.len() implies pattern_compiles(#[trigger] r[i]) by {
            if i < rest.len() {
                assert(r[i] == rest[i]);
            } else {
                assert(r[i] == s[s.len() - 1]);
            }
        }
    }
}

/// Merging two lists of compiling patterns keeps every pattern compiling.
proof fn lemma_merged_keeps(a: Seq<Seq<char>>, b: Seq<Seq<char>>)
    requires
        forall|i: int| 0 <= i < a.len() ==> pattern_compiles(#[trigger] a[i]),
        forall|i: int| 0 <= i < b.len() ==> pattern_compiles(#[trigger] b[i]),
    ensures
        forall|i: int| 0 <= i < merged(a, b).len() ==> pattern_compiles(#[trigger] merged(a, b)[i]),
    decreases b.len(),
{
    if b.len() > 0 {
        let d = b.drop_last();
        assert forall|i: int| 0 <= i < d.len() implies pattern_compiles(#[trigger] d[i]) by {
            assert(d[i] == b[i]);
        }
        lemma_merged_keeps(a, d);
        let r = merged(a, b);
        let rest = merged(a, d);
        assert forall|i: int| 0 <= i < r.len() implies pattern_compiles(#[trigger] r[i]) by {
            if i < rest.len() {
                assert(r[i] == rest[i]);
            } else {
                assert(r[i] == b[b.len() - 1]);
            }
        }
    }
}

} // verus!
