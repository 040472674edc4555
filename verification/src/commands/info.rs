use vstd::prelude::*;

use crate::model::{
    count_all_features, count_features, features_folders, features_placemarks, features_size,
    KmlDocument,
};

verus! {

/// The document metadata that the `info` subcommand reports (the bounding
/// box is added by the caller).
pub struct InfoSummary {
    pub name: Option<String>,
    pub feature_count: usize,
    pub placemark_count: usize,
    pub folder_count: usize,
    pub style_count: usize,
}

pub fn info_summary<N>(doc: &KmlDocument<N>) -> (info: InfoSummary)
    requires
        features_size(doc.features@) <= usize::MAX,
    ensures
        info.name == doc.name,
        info.feature_count == features_size(doc.features@),
        info.placemark_count == features_placemarks(doc.features@),
        info.folder_count == features_folders(doc.features@),
        info.style_count == doc.styles@.len(),
{
    let (placemark_count, folder_count) = count_features(doc.features.as_slice());
    let feature_count = count_all_features(doc.features.as_slice());
    let name = match &doc.name {
        Some(n) => Some(n.clone()),
        None => None,
    };
    InfoSummary {
        name,
        feature_count,
        placemark_count,
        folder_count,
        style_count: doc.styles.len(),
    }
}

} // verus!
