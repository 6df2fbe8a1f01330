use std::collections::HashMap;

use vstd::prelude::*;

use crate::classify::{classified_as, classify, classify_lineage};
use crate::codec::{decode, decode_cache, encode, encode_cache, fits, lemma_decode_encode, views};
use crate::entry::{TaxonEntry, TaxonEntryView};
use crate::error::TaxonError;

verus! {

broadcast use vstd::std_specs::hash::group_hash_axioms;

/// What a cache holds: its entries in the order in which they were given, and
/// its links from a merged identifier to the identifier that replaced it.
pub struct CacheView {
    pub entries: Seq<TaxonEntryView>,
    pub links: Seq<(i64, i64)>,
}

impl CacheView {
    pub open spec fn has_id(self, id: i64) -> bool {
        exists|i: int| 0 <= i < self.entries.len() && self.entries[i].tax_id == id
    }

    pub open spec fn is_deprecated(self, id: i64) -> bool {
        exists|i: int| 0 <= i < self.links.len() && self.links[i].0 == id
    }

    /// The entries keyed by their identifiers.
    pub open spec fn mappings(self) -> Map<i64, TaxonEntryView> {
        Map::new(
            |k: i64| self.has_id(k),
            |k: i64|
                self.entries[choose|i: int| 0 <= i < self.entries.len() && self.entries[i].tax_id == k],
        )
    }

    /// The links as a map from each merged identifier to its replacement.
    pub open spec fn deprecated_ids(self) -> Map<i64, i64> {
        Map::new(
            |k: i64| self.is_deprecated(k),
            |k: i64| self.links[choose|i: int| 0 <= i < self.links.len() && self.links[i].0 == k].1,
        )
    }

    /// No identifier has two entries, no merged identifier has two links, a
    /// merged identifier has no entry of its own, and each link leads to an
    /// identifier that has one.
    pub open spec fn wf(self) -> bool {
        &&& forall|i: int, j: int|
            0 <= i < j < self.entries.len() ==> self.entries[i].tax_id != self.entries[j].tax_id
        &&& forall|i: int, j: int|
            0 <= i < j < self.links.len() ==> self.links[i].0 != self.links[j].0
        &&& forall|i: int|
            0 <= i < self.links.len() ==> !self.has_id(#[trigger] self.links[i].0) && self.has_id(
                self.links[i].1,
            )
    }
}

/// The lookup policy: an identifier with an entry gives that entry; otherwise,
/// where merged identifiers are allowed, a merged identifier gives the entry
/// of its replacement; anything else gives nothing.
pub open spec fn resolve(c: CacheView, id: i64, allow_deprecated: bool) -> Option<TaxonEntryView> {
    if c.mappings().contains_key(id) {
        Some(c.mappings()[id])
    } else if !allow_deprecated {
        None
    } else if c.deprecated_ids().contains_key(id) && c.mappings().contains_key(
        c.deprecated_ids()[id],
    ) {
        Some(c.mappings()[c.deprecated_ids()[id]])
    } else {
        None
    }
}

proof fn lemma_entry_at(c: CacheView, i: int)
    requires
        c.wf(),
        0 <= i < c.entries.len(),
    ensures
        c.mappings().contains_key(c.entries[i].tax_id),
        c.mappings()[c.entries[i].tax_id] == c.entries[i],
{
    let k = c.entries[i].tax_id;
    assert(c.has_id(k));
    let j = choose|j: int| 0 <= j < c.entries.len() && c.entries[j].tax_id == k;
    if j < i {
        assert(c.entries[j].tax_id != c.entries[i].tax_id);
    } else if i < j {
        assert(c.entries[i].tax_id != c.entries[j].tax_id);
    }
}

proof fn lemma_link_at(c: CacheView, i: int)
    requires
        c.wf(),
        0 <= i < c.links.len(),
    ensures
        c.deprecated_ids().contains_key(c.links[i].0),
        c.deprecated_ids()[c.links[i].0] == c.links[i].1,
{
    let k = c.links[i].0;
    assert(c.is_deprecated(k));
    let j = choose|j: int| 0 <= j < c.links.len() && c.links[j].0 == k;
    if j < i {
        assert(c.links[j].0 != c.links[i].0);
    } else if i < j {
        assert(c.links[i].0 != c.links[j].0);
    }
}

/// A taxonomy cache: entries keyed by identifier, and the links from merged
/// identifiers to their replacements.
pub struct TaxonCache {
    mappings: Vec<TaxonEntry>,
    deprecated_ids: Vec<(i64, i64)>,
    position: HashMap<i64, usize>,
    replacement: HashMap<i64, i64>,
}

impl View for TaxonCache {
    type V = CacheView;

    closed spec fn view(&self) -> CacheView {
        CacheView { entries: views(self.mappings@), links: self.deprecated_ids@ }
    }
}

impl TaxonCache {
    #[verifier::type_invariant]
    closed spec fn inv(self) -> bool {
        &&& self@.wf()
        &&& forall|i: int|
            0 <= i < self.mappings@.len() ==> self.position@.contains_key(
                #[trigger] self.mappings@[i].tax_id,
            ) && self.position@[self.mappings@[i].tax_id] == i
        &&& forall|k: i64|
            #[trigger] self.position@.contains_key(k) ==> self.position@[k] < self.mappings@.len()
                && self.mappings@[self.position@[k] as int].tax_id == k
        &&& forall|i: int|
            0 <= i < self.deprecated_ids@.len() ==> self.replacement@.contains_key(
                #[trigger] self.deprecated_ids@[i].0,
            ) && self.replacement@[self.deprecated_ids@[i].0] == self.deprecated_ids@[i].1
        &&& forall|k: i64| #[trigger] self.replacement@.contains_key(k) ==> self@.is_deprecated(k)
    }

    /// Indexes entries by identifier, or `None` where two share one.
    fn index_entries(entries: &Vec<TaxonEntry>) -> (r: Option<HashMap<i64, usize>>)
        ensures
            r is Some <==> forall|a: int, b: int|
                0 <= a < b < entries@.len() ==> entries@[a].tax_id != entries@[b].tax_id,
            r is Some ==> forall|a: int|
                0 <= a < entries@.len() ==> r->Some_0@.contains_key(#[trigger] entries@[a].tax_id)
                    && r->Some_0@[entries@[a].tax_id] as int == a,
            r is Some ==> forall|k: i64|
                #[trigger] r->Some_0@.contains_key(k) ==> r->Some_0@[k] < entries@.len()
                    && entries@[r->Some_0@[k] as int].tax_id == k,
    {
        let mut position: HashMap<i64, usize> = HashMap::new();
        let mut i: usize = 0;
        while i < entries.len()
            invariant
                i <= entries@.len(),
                forall|a: int, b: int|
                    0 <= a < b < i ==> entries@[a].tax_id != entries@[b].tax_id,
                forall|a: int|
                    0 <= a < i ==> position@.contains_key(#[trigger] entries@[a].tax_id)
                        && position@[entries@[a].tax_id] as int == a,
                forall|k: i64|
                    #[trigger] position@.contains_key(k) ==> position@[k] < i
                        && entries@[position@[k] as int].tax_id == k,
            decreases entries@.len() - i,
        {
            let id = entries[i].tax_id;
            if position.contains_key(&id) {
                proof {
                    let a = position@[id] as int;
                    assert(entries@[a].tax_id == entries@[i as int].tax_id);
                }
                return None;
            }
            position.insert(id, i);
            i = i + 1;
        }
        Some(position)
    }

    /// Builds a cache from entries and links, or `None` where they break the
    /// cache's rules.
    fn build(entries: Vec<TaxonEntry>, links: Vec<(i64, i64)>) -> (r: Option<TaxonCache>)
        ensures
            r is Some <==> (CacheView { entries: views(entries@), links: links@ }).wf(),
            r is Some ==> r->Some_0@ == (CacheView { entries: views(entries@), links: links@ }),
    {
        let ghost c = CacheView { entries: views(entries@), links: links@ };
        let position = match Self::index_entries(&entries) {
            Some(p) => p,
            None => {
                proof {
                    let (a, b) = choose|a: int, b: int|
                        0 <= a < b < entries@.len() && entries@[a].tax_id == entries@[b].tax_id;
                    assert(c.entries[a].tax_id == c.entries[b].tax_id);
                }
                return None;
            },
        };
        let i = entries.len();
        let mut replacement: HashMap<i64, i64> = HashMap::new();
        let mut j: usize = 0;
        while j < links.len()
            invariant
                c == (CacheView { entries: views(entries@), links: links@ }),
                i == entries@.len(),
                forall|a: int, b: int|
                    0 <= a < b < i ==> entries@[a].tax_id != entries@[b].tax_id,
                forall|a: int|
                    0 <= a < i ==> position@.contains_key(#[trigger] entries@[a].tax_id)
                        && position@[entries@[a].tax_id] as int == a,
                forall|k: i64|
                    #[trigger] position@.contains_key(k) ==> position@[k] < i
                        && entries@[position@[k] as int].tax_id == k,
                j <= links@.len(),
                forall|a: int, b: int| 0 <= a < b < j ==> links@[a].0 != links@[b].0,
                forall|a: int|
                    0 <= a < j ==> !c.has_id(#[trigger] links@[a].0) && c.has_id(links@[a].1),
                forall|a: int|
                    0 <= a < j ==> replacement@.contains_key(#[trigger] links@[a].0)
                        && replacement@[links@[a].0] == links@[a].1,
                forall|k: i64|
                    #[trigger] replacement@.contains_key(k) ==> exists|a: int|
                        0 <= a < j && links@[a].0 == k,
            decreases links@.len() - j,
        {
            let (old_id, new_id) = links[j];
            if position.contains_key(&old_id) {
                proof {
                    let a = position@[old_id] as int;
                    assert(c.entries[a].tax_id == old_id);
                    assert(c.has_id(c.links[j as int].0));
                }
                return None;
            }
            if !position.contains_key(&new_id) {
                proof {
                    if c.has_id(new_id) {
                        let a = choose|a: int| 0 <= a < c.entries.len() && c.entries[a].tax_id == new_id;
                        assert(position@.contains_key(entries@[a].tax_id));
                    }
                    assert(c.links[j as int].1 == new_id);
                    assert(!c.has_id(c.links[j as int].1));
                }
                return None;
            }
            if replacement.contains_key(&old_id) {
                proof {
                    let a = choose|a: int| 0 <= a < j && links@[a].0 == old_id;
                    assert(c.links[a].0 == c.links[j as int].0);
                }
                return None;
            }
            proof {
                if c.has_id(old_id) {
                    let a = choose|a: int| 0 <= a < c.entries.len() && c.entries[a].tax_id == old_id;
                    assert(position@.contains_key(entries@[a].tax_id));
                }
                let a = position@[new_id] as int;
                assert(c.entries[a].tax_id == new_id);
            }
            replacement.insert(old_id, new_id);
            j = j + 1;
        }
        proof {
            assert forall|a: int, b: int| 0 <= a < b < c.entries.len() implies c.entries[a].tax_id
                != c.entries[b].tax_id by {
                assert(c.entries[a].tax_id == entries@[a].tax_id);
                assert(c.entries[b].tax_id == entries@[b].tax_id);
            }
            assert(c.wf());
        }
        Some(TaxonCache { mappings: entries, deprecated_ids: links, position, replacement })
    }
    /// An empty cache.
    pub fn new() -> (r: TaxonCache)
        ensures
            r@.entries.len() == 0,
            r@.links.len() == 0,
    {
        TaxonCache {
            mappings: Vec::new(),
            deprecated_ids: Vec::new(),
            position: HashMap::new(),
            replacement: HashMap::new(),
        }
    }

    /// The number of entries.
    pub fn len(&self) -> (r: usize)
        ensures
            r == self@.entries.len(),
    {
        self.mappings.len()
    }

    /// Replaces the contents with what the taxonomy dumps were built into:
    /// `entries`, and `links` from merged identifiers to their replacements.
    /// Where these break the cache's rules nothing changes.
    pub fn initialise(&mut self, entries: Vec<TaxonEntry>, links: Vec<(i64, i64)>) -> (r: Result<
        (),
        TaxonError,
    >)
        ensures
            r is Ok <==> (CacheView { entries: views(entries@), links: links@ }).wf(),
            r is Ok ==> final(self)@ == (CacheView { entries: views(entries@), links: links@ }),
            r is Err ==> r->Err_0 is Build && final(self)@ == old(self)@,
    {
        match Self::build(entries, links) {
            Some(c) => {
                *self = c;
                Ok(())
            },
            None => Err(TaxonError::Build("the entries or links break the cache's rules".to_string())),
        }
    }

    /// Appends the cache file for this cache to `out`, and gives the number of
    /// entries written.
    pub fn save(&self, out: &mut Vec<u8>) -> (n: usize)
        ensures
            final(out)@ == old(out)@ + encode_cache(self@.entries, self@.links),
            fits(self@.entries, self@.links),
            n == self@.entries.len(),
    {
        encode(&self.mappings, &self.deprecated_ids, out);
        self.mappings.len()
    }

    /// Replaces the contents with those of a cache file, and gives the number
    /// of entries loaded. Bytes that are not a valid cache change nothing.
    pub fn load(&mut self, bytes: &[u8]) -> (r: Result<usize, TaxonError>)
        ensures
            match decoded(bytes@) {
                Some(c) => r == Ok::<usize, TaxonError>(c.entries.len() as usize) && final(self)@ == c,
                None => r is Err && r->Err_0 is Persistence && final(self)@ == old(self)@,
            },
    {
        match decode(bytes) {
            Some((entries, links)) => match Self::build(entries, links) {
                Some(c) => {
                    let n = c.mappings.len();
                    *self = c;
                    Ok(n)
                },
                None => Err(TaxonError::Persistence("the cache file breaks the cache's rules".to_string())),
            },
            None => Err(TaxonError::Persistence("the cache file is malformed".to_string())),
        }
    }

    fn find(&self, id: i64) -> (r: Option<usize>)
        ensures
            r is None <==> !self@.has_id(id),
            r is Some ==> r->Some_0 < self@.entries.len() && self@.entries[r->Some_0 as int].tax_id
                == id,
    {
        proof {
            use_type_invariant(self);
        }
        match self.position.get(&id) {
            Some(i) => {
                proof {
                    assert(self@.entries[*i as int].tax_id == id);
                }
                Some(*i)
            },
            None => {
                proof {
                    if self@.has_id(id) {
                        let a = choose|a: int|
                            0 <= a < self@.entries.len() && self@.entries[a].tax_id == id;
                        assert(self.mappings@[a].tax_id == id);
                    }
                }
                None
            },
        }
    }

    fn find_replacement(&self, id: i64) -> (r: Option<i64>)
        ensures
            r is None <==> !self@.deprecated_ids().contains_key(id),
            r is Some ==> self@.deprecated_ids()[id] == r->Some_0,
    {
        proof {
            use_type_invariant(self);
        }
        match self.replacement.get(&id) {
            Some(n) => {
                proof {
                    let a = choose|a: int| 0 <= a < self@.links.len() && self@.links[a].0 == id;
                    lemma_link_at(self@, a);
                    assert(self.deprecated_ids@[a].0 == id);
                }
                Some(*n)
            },
            None => {
                proof {
                    if self@.is_deprecated(id) {
                        let a = choose|a: int| 0 <= a < self@.links.len() && self@.links[a].0 == id;
                        assert(self.deprecated_ids@[a].0 == id);
                    }
                }
                None
            },
        }
    }

    /// The position of the entry that `tax_id` resolves to.
    fn resolve_position(&self, tax_id: i64, allow_deprecated: bool) -> (r: Option<usize>)
        ensures
            match r {
                Some(i) => i < self@.entries.len() && resolve(self@, tax_id, allow_deprecated)
                    == Some(self@.entries[i as int]),
                None => resolve(self@, tax_id, allow_deprecated) is None,
            },
    {
        proof {
            use_type_invariant(self);
        }
        match self.find(tax_id) {
            Some(i) => {
                proof {
                    lemma_entry_at(self@, i as int);
                }
                Some(i)
            },
            None => {
                if !allow_deprecated {
                    return None;
                }
                match self.find_replacement(tax_id) {
                    Some(new_id) => match self.find(new_id) {
                        Some(i) => {
                            proof {
                                lemma_entry_at(self@, i as int);
                            }
                            Some(i)
                        },
                        None => None,
                    },
                    None => None,
                }
            },
        }
    }

    /// The entry that `tax_id` resolves to, as a copy.
    pub fn get(&self, tax_id: i64, allow_deprecated: bool) -> (r: Result<TaxonEntry, TaxonError>)
        ensures
            match r {
                Ok(e) => resolve(self@, tax_id, allow_deprecated) == Some(e@),
                Err(err) => resolve(self@, tax_id, allow_deprecated) is None && err
                    == TaxonError::NotFound(tax_id),
            },
    {
        match self.resolve_position(tax_id, allow_deprecated) {
            Some(i) => Ok(self.mappings[i].duplicate()),
            None => Err(TaxonError::NotFound(tax_id)),
        }
    }

    /// The scientific name of the entry that `tax_id` resolves to.
    pub fn get_name_by_id(&self, tax_id: i64, allow_deprecated: bool) -> (r: Result<
        String,
        TaxonError,
    >)
        ensures
            match r {
                Ok(name) => resolve(self@, tax_id, allow_deprecated) is Some && name@ == resolve(
                    self@,
                    tax_id,
                    allow_deprecated,
                )->Some_0.name,
                Err(err) => resolve(self@, tax_id, allow_deprecated) is None && err
                    == TaxonError::NotFound(tax_id),
            },
    {
        match self.resolve_position(tax_id, allow_deprecated) {
            Some(i) => Ok(self.mappings[i].name.clone()),
            None => Err(TaxonError::NotFound(tax_id)),
        }
    }

    /// The antiSMASH taxon bucket label of the entry that `tax_id` resolves
    /// to.
    pub fn get_antismash_taxon(&self, tax_id: i64, allow_deprecated: bool) -> (r: Result<
        String,
        TaxonError,
    >)
        ensures
            match resolve(self@, tax_id, allow_deprecated) {
                Some(e) => labelled_as(e, r),
                None => r == Err::<String, TaxonError>(TaxonError::NotFound(tax_id)),
            },
    {
        match self.resolve_position(tax_id, allow_deprecated) {
            Some(i) => match classify(&self.mappings[i]) {
                Ok(b) => Ok(b.label()),
                Err(e) => Err(e),
            },
            None => Err(TaxonError::NotFound(tax_id)),
        }
    }
}

/// Whether `r` is the rule table's answer for `e`: the label of its bucket,
/// or the rejection that names the uncovered rank value.
pub open spec fn labelled_as(e: TaxonEntryView, r: Result<String, TaxonError>) -> bool {
    match r {
        Ok(s) => classify_lineage(e) is Ok && s@ == classify_lineage(e)->Ok_0.spec_label(),
        Err(TaxonError::InvalidAntismashTaxon(v)) => classify_lineage(e) == Err::<
            crate::classify::Bucket,
            Seq<char>,
        >(v@),
        Err(_) => false,
    }
}

/// The cache that a cache file holds, if it is well formed and keeps the
/// cache's rules.
pub open spec fn decoded(b: Seq<u8>) -> Option<CacheView> {
    match decode_cache(b) {
        Some((entries, links)) => if (CacheView { entries, links }).wf() {
            Some(CacheView { entries, links })
        } else {
            None
        },
        None => None,
    }
}

/// Saving a valid cache and loading what was saved gives back the same
/// entries, in the same order, and the same links.
pub proof fn lemma_save_then_load(c: CacheView)
    requires
        c.wf(),
        fits(c.entries, c.links),
    ensures
        decoded(encode_cache(c.entries, c.links)) == Some(c),
{
    lemma_decode_encode(c.entries, c.links);
}

/// A merged identifier, looked up with merged identifiers allowed, gives the
/// same entry as its replacement looked up strictly.
pub proof fn lemma_deprecated_resolves(c: CacheView, old_id: i64, new_id: i64)
    requires
        c.wf(),
        c.deprecated_ids().contains_key(old_id),
        c.deprecated_ids()[old_id] == new_id,
        c.mappings().contains_key(new_id),
    ensures
        resolve(c, old_id, true) is Some,
        resolve(c, old_id, true) == resolve(c, new_id, false),
{
    let a = choose|a: int| 0 <= a < c.links.len() && c.links[a].0 == old_id;
    assert(!c.has_id(c.links[a].0));
}

/// A strict lookup of an identifier without an entry of its own finds
/// nothing, whether or not it is a merged identifier.
pub proof fn lemma_strict_lookup(c: CacheView, id: i64)
    requires
        !c.mappings().contains_key(id),
    ensures
        resolve(c, id, false) is None,
{
}

} // verus!
