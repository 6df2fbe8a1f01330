use mibig_taxa::{TaxonCache, TaxonEntry, TaxonError};

fn entry(tax_id: i64, name: &str, superkingdom: &str, kingdom: &str) -> TaxonEntry {
    TaxonEntry {
        tax_id,
        name: name.to_string(),
        species: name.to_string(),
        genus: "Unknown".to_string(),
        family: "Unknown".to_string(),
        order: "Unknown".to_string(),
        class: "Unknown".to_string(),
        phylum: "Unknown".to_string(),
        kingdom: kingdom.to_string(),
        superkingdom: superkingdom.to_string(),
    }
}

fn sample() -> TaxonCache {
    let mut cache = TaxonCache::new();
    let entries = vec![
        entry(562, "Escherichia coli", "Bacteria", "Unknown"),
        entry(5061, "Aspergillus niger", "Eukaryota", "Fungi"),
        entry(3702, "Arabidopsis thaliana", "Eukaryota", "Viridiplantae"),
        entry(7227, "Drosophila melanogaster", "Eukaryota", "Metazoa"),
    ];
    let links = vec![(1637, 562), (9999, 5061)];
    assert_eq!(cache.initialise(entries, links), Ok(()));
    cache
}

#[test]
fn new_cache_is_empty() {
    let cache = TaxonCache::new();
    assert_eq!(cache.len(), 0);
    assert_eq!(cache.get(562, true), Err(TaxonError::NotFound(562)));
}

#[test]
fn initialise_fills_the_cache() {
    let cache = sample();
    assert_eq!(cache.len(), 4);
    assert_eq!(cache.get(562, false).unwrap().name, "Escherichia coli");
}

#[test]
fn get_returns_a_copy_of_the_entry() {
    let cache = sample();
    assert_eq!(
        cache.get(5061, false),
        Ok(entry(5061, "Aspergillus niger", "Eukaryota", "Fungi"))
    );
}

#[test]
fn deprecated_id_resolves_to_replacement() {
    let cache = sample();
    assert_eq!(cache.get(1637, true), cache.get(562, false));
    assert_eq!(cache.get(9999, true), cache.get(5061, false));
    assert_eq!(cache.get_name_by_id(1637, true), Ok("Escherichia coli".to_string()));
}

#[test]
fn strict_lookup_ignores_deprecated_ids() {
    let cache = sample();
    assert_eq!(cache.get(1637, false), Err(TaxonError::NotFound(1637)));
    assert_eq!(cache.get(42, false), Err(TaxonError::NotFound(42)));
}

#[test]
fn name_of_deprecated_id_without_allowance_is_not_found() {
    let cache = sample();
    assert_eq!(cache.get_name_by_id(1637, false), Err(TaxonError::NotFound(1637)));
}

#[test]
fn unknown_id_is_not_found_even_with_allowance() {
    let cache = sample();
    assert_eq!(cache.get_name_by_id(12345, true), Err(TaxonError::NotFound(12345)));
    assert_eq!(cache.get_antismash_taxon(12345, true), Err(TaxonError::NotFound(12345)));
}

#[test]
fn antismash_taxon_of_entries() {
    let cache = sample();
    assert_eq!(cache.get_antismash_taxon(562, false), Ok("bacteria".to_string()));
    assert_eq!(cache.get_antismash_taxon(5061, false), Ok("fungi".to_string()));
    assert_eq!(cache.get_antismash_taxon(3702, false), Ok("plants".to_string()));
    assert_eq!(cache.get_antismash_taxon(9999, true), Ok("fungi".to_string()));
    assert_eq!(cache.get_antismash_taxon(9999, false), Err(TaxonError::NotFound(9999)));
}

#[test]
fn antismash_taxon_rejection_propagates() {
    let cache = sample();
    assert_eq!(
        cache.get_antismash_taxon(7227, false),
        Err(TaxonError::InvalidAntismashTaxon("Metazoa".to_string()))
    );
}

#[test]
fn initialise_rejects_duplicate_ids() {
    let mut cache = sample();
    let r = cache.initialise(
        vec![entry(1, "a", "Bacteria", "Unknown"), entry(1, "b", "Bacteria", "Unknown")],
        vec![],
    );
    assert!(matches!(r, Err(TaxonError::Build(_))));
    assert_eq!(cache.len(), 4);
}

#[test]
fn initialise_rejects_dangling_link() {
    let mut cache = TaxonCache::new();
    let r = cache.initialise(vec![entry(1, "a", "Bacteria", "Unknown")], vec![(2, 3)]);
    assert!(matches!(r, Err(TaxonError::Build(_))));
    assert_eq!(cache.len(), 0);
}

#[test]
fn initialise_rejects_link_from_live_id() {
    let mut cache = TaxonCache::new();
    let r = cache.initialise(
        vec![entry(1, "a", "Bacteria", "Unknown"), entry(2, "b", "Bacteria", "Unknown")],
        vec![(1, 2)],
    );
    assert!(matches!(r, Err(TaxonError::Build(_))));
}

#[test]
fn initialise_rejects_repeated_link() {
    let mut cache = TaxonCache::new();
    let r = cache.initialise(
        vec![entry(1, "a", "Bacteria", "Unknown"), entry(2, "b", "Bacteria", "Unknown")],
        vec![(5, 1), (5, 2)],
    );
    assert!(matches!(r, Err(TaxonError::Build(_))));
}

#[test]
fn save_then_load_round_trips() {
    let cache = sample();
    let mut bytes = Vec::new();
    assert_eq!(cache.save(&mut bytes), 4);
    let mut loaded = TaxonCache::new();
    assert_eq!(loaded.load(&bytes), Ok(4));
    for id in [562, 5061, 3702, 7227] {
        assert_eq!(loaded.get(id, false), cache.get(id, false));
    }
    assert_eq!(loaded.get(1637, true), cache.get(562, false));
    assert_eq!(loaded.get(9999, true), cache.get(5061, false));
    let mut again = Vec::new();
    loaded.save(&mut again);
    assert_eq!(again, bytes);
}

#[test]
fn non_ascii_names_round_trip() {
    let mut cache = TaxonCache::new();
    let e = entry(-7, "Bacillus subtilis subsp. spizizenii \u{e9}\u{1F9A0}", "Bacteria", "Unknown");
    assert_eq!(cache.initialise(vec![e.clone()], vec![]), Ok(()));
    let mut bytes = Vec::new();
    cache.save(&mut bytes);
    let mut loaded = TaxonCache::new();
    assert_eq!(loaded.load(&bytes), Ok(1));
    assert_eq!(loaded.get(-7, false), Ok(e));
}

#[test]
fn empty_cache_encoding() {
    let cache = TaxonCache::new();
    let mut bytes = Vec::new();
    assert_eq!(cache.save(&mut bytes), 0);
    assert_eq!(bytes, vec![0u8; 16]);
}

#[test]
fn encoding_layout() {
    let mut cache = TaxonCache::new();
    let e = TaxonEntry {
        tax_id: 258,
        name: "ab".to_string(),
        species: String::new(),
        genus: String::new(),
        family: String::new(),
        order: String::new(),
        class: String::new(),
        phylum: String::new(),
        kingdom: String::new(),
        superkingdom: String::new(),
    };
    assert_eq!(cache.initialise(vec![e], vec![(-1, 258)]), Ok(()));
    let mut bytes = vec![0xAA];
    assert_eq!(cache.save(&mut bytes), 1);
    let mut expected = vec![0xAA, 1, 0, 0, 0, 0, 0, 0, 0, 2, 1, 0, 0, 0, 0, 0, 0];
    expected.extend_from_slice(&[2, 0, 0, 0, 0, 0, 0, 0, b'a', b'b']);
    for _ in 0..8 {
        expected.extend_from_slice(&[0; 8]);
    }
    expected.extend_from_slice(&[1, 0, 0, 0, 0, 0, 0, 0]);
    expected.extend_from_slice(&[0xFF; 8]);
    expected.extend_from_slice(&[2, 1, 0, 0, 0, 0, 0, 0]);
    assert_eq!(bytes, expected);
}

#[test]
fn load_rejects_truncated_file() {
    let cache = sample();
    let mut bytes = Vec::new();
    cache.save(&mut bytes);
    bytes.pop();
    let mut loaded = sample();
    assert!(matches!(loaded.load(&bytes), Err(TaxonError::Persistence(_))));
    assert_eq!(loaded.len(), 4);
}

#[test]
fn load_rejects_trailing_bytes() {
    let cache = sample();
    let mut bytes = Vec::new();
    cache.save(&mut bytes);
    bytes.push(0);
    let mut loaded = TaxonCache::new();
    assert!(matches!(loaded.load(&bytes), Err(TaxonError::Persistence(_))));
}

#[test]
fn load_rejects_empty_input() {
    let mut loaded = TaxonCache::new();
    assert!(matches!(loaded.load(&[]), Err(TaxonError::Persistence(_))));
}

#[test]
fn load_rejects_invalid_utf8() {
    let mut bytes = vec![1, 0, 0, 0, 0, 0, 0, 0, 5, 0, 0, 0, 0, 0, 0, 0];
    bytes.extend_from_slice(&[1, 0, 0, 0, 0, 0, 0, 0, 0xFF]);
    for _ in 0..8 {
        bytes.extend_from_slice(&[0; 8]);
    }
    bytes.extend_from_slice(&[0; 8]);
    let mut loaded = TaxonCache::new();
    assert!(matches!(loaded.load(&bytes), Err(TaxonError::Persistence(_))));
    bytes[24] = b'x';
    assert_eq!(loaded.load(&bytes), Ok(1));
    assert_eq!(loaded.get_name_by_id(5, false), Ok("x".to_string()));
}

#[test]
fn load_rejects_file_breaking_cache_rules() {
    let mut bytes = vec![2, 0, 0, 0, 0, 0, 0, 0];
    for _ in 0..2 {
        bytes.extend_from_slice(&[5, 0, 0, 0, 0, 0, 0, 0]);
        for _ in 0..9 {
            bytes.extend_from_slice(&[0; 8]);
        }
    }
    bytes.extend_from_slice(&[0; 8]);
    let mut loaded = TaxonCache::new();
    assert!(matches!(loaded.load(&bytes), Err(TaxonError::Persistence(_))));
}
