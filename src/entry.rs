use vstd::prelude::*;

verus! {

/// The lineage of one taxon as plain sequences of characters.
pub struct TaxonEntryView {
    pub tax_id: i64,
    pub name: Seq<char>,
    pub species: Seq<char>,
    pub genus: Seq<char>,
    pub family: Seq<char>,
    pub order: Seq<char>,
    pub class: Seq<char>,
    pub phylum: Seq<char>,
    pub kingdom: Seq<char>,
    pub superkingdom: Seq<char>,
}

/// One taxon: its identifier, scientific name and the names of its ranks.
/// A rank that the lineage does not resolve holds `"Unknown"`.
#[derive(Debug, Clone, PartialEq, Eq)]
pub struct TaxonEntry {
    pub tax_id: i64,
    pub name: String,
    pub species: String,
    pub genus: String,
    pub family: String,
    pub order: String,
    pub class: String,
    pub phylum: String,
    pub kingdom: String,
    pub superkingdom: String,
}

impl View for TaxonEntry {
    type V = TaxonEntryView;

    open spec fn view(&self) -> TaxonEntryView {
        TaxonEntryView {
            tax_id: self.tax_id,
            name: self.name@,
            species: self.species@,
            genus: self.genus@,
            family: self.family@,
            order: self.order@,
            class: self.class@,
            phylum: self.phylum@,
            kingdom: self.kingdom@,
            superkingdom: self.superkingdom@,
        }
    }
}

impl TaxonEntry {
    /// A field-for-field copy.
    pub fn duplicate(&self) -> (r: TaxonEntry)
        ensures
            r@ == self@,
    {
        TaxonEntry {
            tax_id: self.tax_id,
            name: self.name.clone(),
            species: self.species.clone(),
            genus: self.genus.clone(),
            family: self.family.clone(),
            order: self.order.clone(),
            class: self.class.clone(),
            phylum: self.phylum.clone(),
            kingdom: self.kingdom.clone(),
            superkingdom: self.superkingdom.clone(),
        }
    }
}

} // verus!
