use vstd::prelude::*;

use crate::model::{features_flat, features_size, KmlDocument};

pub mod info;
pub mod list;
pub mod tree;

verus! {

/// The `info` count, the `list` entries, the `tree` lines below the header
/// and the flattened feature list all count the same features: every folder
/// and placemark at any depth, once.
pub proof fn lemma_views_agree<N>(doc: KmlDocument<N>)
    ensures
        list::features_entries(doc.features@, Seq::empty()).len() == features_size(doc.features@),
        tree::tree_text(doc).len() == features_size(doc.features@) + 1,
        features_flat(doc.features@, Seq::empty()).len() == features_size(doc.features@),
{
    list::lemma_entries_len(doc.features@, Seq::empty());
    tree::lemma_forest_lines_len(doc.features@, Seq::empty());
    crate::model::lemma_features_flat_len(doc.features@, Seq::empty());
}

} // verus!
