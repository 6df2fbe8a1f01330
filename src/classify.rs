use vstd::prelude::*;

use crate::entry::{TaxonEntry, TaxonEntryView};
use crate::error::TaxonError;
use crate::text::str_eq;

verus! {

broadcast use vstd::string::group_string_axioms;

/// The coarse taxon groups that select how a genome is analysed.
#[derive(Debug, Clone, Copy, PartialEq, Eq, Structural)]
pub enum Bucket {
    Bacteria,
    Fungi,
    Plants,
}

impl Bucket {
    pub open spec fn spec_label(self) -> Seq<char> {
        match self {
            Bucket::Bacteria => "bacteria"@,
            Bucket::Fungi => "fungi"@,
            Bucket::Plants => "plants"@,
        }
    }

    /// The bucket's name as used by antiSMASH.
    pub fn label(&self) -> (r: String)
        ensures
            r@ == self.spec_label(),
    {
        match self {
            Bucket::Bacteria => "bacteria".to_string(),
            Bucket::Fungi => "fungi".to_string(),
            Bucket::Plants => "plants".to_string(),
        }
    }
}

/// The classification rule table. Rules are tried from the top; the first
/// that matches decides. A rejection carries the rank value that no rule
/// covers. A superkingdom that is neither Eukaryota nor a prokaryotic one
/// (such as the `"Unknown"` of metagenome samples) counts as bacterial.
pub open spec fn classify_lineage(e: TaxonEntryView) -> Result<Bucket, Seq<char>> {
    if e.superkingdom == "Archaea"@ || e.superkingdom == "Bacteria"@ {
        Ok(Bucket::Bacteria)
    } else if e.superkingdom == "Eukaryota"@ {
        if e.kingdom == "Fungi"@ {
            Ok(Bucket::Fungi)
        } else if e.kingdom == "Viridiplantae"@ {
            Ok(Bucket::Plants)
        } else if e.kingdom == "Unknown"@ {
            if e.phylum == "Rhodophyta"@ || e.phylum == "Bacillariophyta"@ {
                Ok(Bucket::Plants)
            } else if e.phylum == "Unknown"@ {
                if e.class == "Dinophyceae"@ {
                    Ok(Bucket::Plants)
                } else {
                    Err(e.class)
                }
            } else {
                Err(e.phylum)
            }
        } else {
            Err(e.kingdom)
        }
    } else {
        Ok(Bucket::Bacteria)
    }
}

/// Whether `r` is what the rule table gives for `e`: the same bucket, or a
/// rejection naming the same rank value.
pub open spec fn classified_as(e: TaxonEntryView, r: Result<Bucket, TaxonError>) -> bool {
    match r {
        Ok(b) => classify_lineage(e) == Ok::<Bucket, Seq<char>>(b),
        Err(TaxonError::InvalidAntismashTaxon(v)) => classify_lineage(e) == Err::<Bucket, Seq<char>>(v@),
        Err(_) => false,
    }
}

/// Maps a lineage onto its antiSMASH taxon bucket.
pub fn classify(entry: &TaxonEntry) -> (r: Result<Bucket, TaxonError>)
    ensures
        classified_as(entry@, r),
{
    let sk = entry.superkingdom.as_str();
    if str_eq(sk, "Archaea") || str_eq(sk, "Bacteria") {
        return Ok(Bucket::Bacteria);
    }
    if !str_eq(sk, "Eukaryota") {
        return Ok(Bucket::Bacteria);
    }
    let kingdom = entry.kingdom.as_str();
    if str_eq(kingdom, "Fungi") {
        return Ok(Bucket::Fungi);
    }
    if str_eq(kingdom, "Viridiplantae") {
        return Ok(Bucket::Plants);
    }
    if !str_eq(kingdom, "Unknown") {
        return Err(TaxonError::InvalidAntismashTaxon(entry.kingdom.clone()));
    }
    let phylum = entry.phylum.as_str();
    if str_eq(phylum, "Rhodophyta") || str_eq(phylum, "Bacillariophyta") {
        return Ok(Bucket::Plants);
    }
    if !str_eq(phylum, "Unknown") {
        return Err(TaxonError::InvalidAntismashTaxon(entry.phylum.clone()));
    }
    if str_eq(entry.class.as_str(), "Dinophyceae") {
        Ok(Bucket::Plants)
    } else {
        Err(TaxonError::InvalidAntismashTaxon(entry.class.clone()))
    }
}

/// Every lineage that a rule of the table names gets that rule's bucket.
pub proof fn lemma_covered_lineages(e: TaxonEntryView)
    ensures
        e.superkingdom == "Archaea"@ ==> classify_lineage(e) == Ok::<Bucket, Seq<char>>(
            Bucket::Bacteria,
        ),
        e.superkingdom == "Bacteria"@ ==> classify_lineage(e) == Ok::<Bucket, Seq<char>>(
            Bucket::Bacteria,
        ),
        e.superkingdom == "Eukaryota"@ && e.kingdom == "Fungi"@ ==> classify_lineage(e) == Ok::<
            Bucket,
            Seq<char>,
        >(Bucket::Fungi),
        e.superkingdom == "Eukaryota"@ && e.kingdom == "Viridiplantae"@ ==> classify_lineage(e)
            == Ok::<Bucket, Seq<char>>(Bucket::Plants),
        e.superkingdom == "Eukaryota"@ && e.kingdom == "Unknown"@ && e.phylum == "Rhodophyta"@
            ==> classify_lineage(e) == Ok::<Bucket, Seq<char>>(Bucket::Plants),
        e.superkingdom == "Eukaryota"@ && e.kingdom == "Unknown"@ && e.phylum
            == "Bacillariophyta"@ ==> classify_lineage(e) == Ok::<Bucket, Seq<char>>(
            Bucket::Plants,
        ),
        e.superkingdom == "Eukaryota"@ && e.kingdom == "Unknown"@ && e.phylum == "Unknown"@
            && e.class == "Dinophyceae"@ ==> classify_lineage(e) == Ok::<Bucket, Seq<char>>(
            Bucket::Plants,
        ),
        e.superkingdom != "Archaea"@ && e.superkingdom != "Bacteria"@ && e.superkingdom
            != "Eukaryota"@ ==> classify_lineage(e) == Ok::<Bucket, Seq<char>>(Bucket::Bacteria),
{
    reveal_strlit("Archaea");
    reveal_strlit("Bacteria");
    reveal_strlit("Eukaryota");
    reveal_strlit("Fungi");
    reveal_strlit("Viridiplantae");
    reveal_strlit("Unknown");
    reveal_strlit("Rhodophyta");
    reveal_strlit("Bacillariophyta");
    assert("Eukaryota"@.len() != "Archaea"@.len() && "Eukaryota"@.len() != "Bacteria"@.len());
    assert("Unknown"@.len() != "Fungi"@.len() && "Unknown"@.len() != "Viridiplantae"@.len());
    assert("Unknown"@.len() != "Rhodophyta"@.len() && "Unknown"@.len() != "Bacillariophyta"@.len());
}

/// A eukaryotic lineage with neither kingdom nor phylum resolved is rejected,
/// naming its class, unless the class is Dinophyceae.
pub proof fn lemma_unresolved_eukaryote_rejected(e: TaxonEntryView)
    requires
        e.superkingdom == "Eukaryota"@,
        e.kingdom == "Unknown"@,
        e.phylum == "Unknown"@,
        e.class != "Dinophyceae"@,
    ensures
        classify_lineage(e) == Err::<Bucket, Seq<char>>(e.class),
{
    reveal_strlit("Archaea");
    reveal_strlit("Bacteria");
    reveal_strlit("Eukaryota");
    reveal_strlit("Fungi");
    reveal_strlit("Viridiplantae");
    reveal_strlit("Unknown");
    reveal_strlit("Rhodophyta");
    reveal_strlit("Bacillariophyta");
    assert("Eukaryota"@.len() != "Archaea"@.len() && "Eukaryota"@.len() != "Bacteria"@.len());
    assert("Unknown"@.len() != "Fungi"@.len() && "Unknown"@.len() != "Viridiplantae"@.len());
    assert("Unknown"@.len() != "Rhodophyta"@.len() && "Unknown"@.len() != "Bacillariophyta"@.len());
}

} // verus!
