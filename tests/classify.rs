use mibig_taxa::{classify, Bucket, TaxonEntry, TaxonError};

fn lineage(superkingdom: &str, kingdom: &str, phylum: &str, class: &str) -> TaxonEntry {
    TaxonEntry {
        tax_id: 1,
        name: "test organism".to_string(),
        species: "Unknown".to_string(),
        genus: "Unknown".to_string(),
        family: "Unknown".to_string(),
        order: "Unknown".to_string(),
        class: class.to_string(),
        phylum: phylum.to_string(),
        kingdom: kingdom.to_string(),
        superkingdom: superkingdom.to_string(),
    }
}

#[test]
fn bacteria_superkingdom_short_circuits() {
    let e = lineage("Bacteria", "Unknown", "Unknown", "Unknown");
    assert_eq!(classify(&e), Ok(Bucket::Bacteria));
}

#[test]
fn archaea_is_bacteria() {
    let e = lineage("Archaea", "Fungi", "Unknown", "Unknown");
    assert_eq!(classify(&e), Ok(Bucket::Bacteria));
}

#[test]
fn eukaryote_fungi() {
    let e = lineage("Eukaryota", "Fungi", "Ascomycota", "Eurotiomycetes");
    assert_eq!(classify(&e), Ok(Bucket::Fungi));
}

#[test]
fn eukaryote_viridiplantae() {
    let e = lineage("Eukaryota", "Viridiplantae", "Streptophyta", "Magnoliopsida");
    assert_eq!(classify(&e), Ok(Bucket::Plants));
}

#[test]
fn red_algae_are_plants() {
    let e = lineage("Eukaryota", "Unknown", "Rhodophyta", "Unknown");
    assert_eq!(classify(&e), Ok(Bucket::Plants));
}

#[test]
fn diatoms_are_plants() {
    let e = lineage("Eukaryota", "Unknown", "Bacillariophyta", "Unknown");
    assert_eq!(classify(&e), Ok(Bucket::Plants));
}

#[test]
fn dinoflagellates_are_plants() {
    let e = lineage("Eukaryota", "Unknown", "Unknown", "Dinophyceae");
    assert_eq!(classify(&e), Ok(Bucket::Plants));
}

#[test]
fn unresolved_eukaryote_class_rejected() {
    let e = lineage("Eukaryota", "Unknown", "Unknown", "Insecta");
    assert_eq!(
        classify(&e),
        Err(TaxonError::InvalidAntismashTaxon("Insecta".to_string()))
    );
}

#[test]
fn uncovered_phylum_rejected() {
    let e = lineage("Eukaryota", "Unknown", "Chordata", "Mammalia");
    assert_eq!(
        classify(&e),
        Err(TaxonError::InvalidAntismashTaxon("Chordata".to_string()))
    );
}

#[test]
fn uncovered_kingdom_rejected() {
    let e = lineage("Eukaryota", "Metazoa", "Chordata", "Mammalia");
    assert_eq!(
        classify(&e),
        Err(TaxonError::InvalidAntismashTaxon("Metazoa".to_string()))
    );
}

#[test]
fn metagenome_falls_back_to_bacteria() {
    let e = lineage("Unknown", "Unknown", "Unknown", "Unknown");
    assert_eq!(classify(&e), Ok(Bucket::Bacteria));
}

#[test]
fn viruses_fall_back_to_bacteria() {
    let e = lineage("Viruses", "Unknown", "Unknown", "Unknown");
    assert_eq!(classify(&e), Ok(Bucket::Bacteria));
}

#[test]
fn bucket_labels() {
    assert_eq!(Bucket::Bacteria.label(), "bacteria");
    assert_eq!(Bucket::Fungi.label(), "fungi");
    assert_eq!(Bucket::Plants.label(), "plants");
}

#[test]
fn error_categories() {
    assert!(TaxonError::NotFound(3).is_validation());
    assert!(TaxonError::InvalidAntismashTaxon("x".to_string()).is_validation());
    assert!(!TaxonError::Build("x".to_string()).is_validation());
    assert!(!TaxonError::Persistence("x".to_string()).is_validation());
}
