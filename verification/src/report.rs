//! What a run reports once the walk is over.

use crate::assets::{asset_views, Asset, AssetView};
use crate::sequences::lemma_filter_push;
use crate::resolver::{unmatched, without_matches};
use crate::text::texts;
use crate::walker::{registry, Walker};
use vstd::prelude::*;

verus! {

/// The findings of a run, each list in the order of the inventory it was
/// taken from.
#[derive(Debug, PartialEq, Eq)]
pub struct Report {
    /// The source files that the walk has not met.
    pub unreferenced_files: Vec<String>,
    /// The registered assets that no file read refers to.
    pub unreferenced_assets: Vec<String>,
    /// The dependencies that no file read uses.
    pub unused_dependencies: Vec<String>,
    /// The labels that no file read refers to.
    pub unreferenced_labels: Vec<String>,
    /// The types that are registered with the locator and never retrieved.
    pub unused_locators: Vec<String>,
}

/// The test that an entry of the registry has not been retrieved.
pub open spec fn never_retrieved() -> spec_fn((Seq<char>, bool)) -> bool {
    |entry: (Seq<char>, bool)| !entry.1
}

/// The names of the entries of a registry.
pub open spec fn names(locators: Seq<(Seq<char>, bool)>) -> Seq<Seq<char>> {
    locators.map_values(|entry: (Seq<char>, bool)| entry.0)
}

/// The paths of a list of assets.
pub open spec fn paths(assets: Seq<AssetView>) -> Seq<Seq<char>> {
    assets.map_values(|asset: AssetView| asset.path)
}

/// The files of an inventory that the walk has not met, in the order of the
/// inventory.
pub fn unreferenced_files(inventory: Vec<String>, visited: &Vec<String>, root: &str) -> (files:
    Vec<String>)
    ensures
        texts(files@) == texts(inventory@).filter(unmatched(texts(visited@), root@)),
{
    without_matches(inventory, visited, root)
}

/// The files of the asset directories that the manifest does not register,
/// in the order of the listing.
pub fn unregistered_assets(all_assets: Vec<String>, registered: &Vec<String>, root: &str) -> (files:
    Vec<String>)
    ensures
        texts(files@) == texts(all_assets@).filter(unmatched(texts(registered@), root@)),
{
    without_matches(all_assets, registered, root)
}

/// The types of a registry that have not been retrieved, in the order of
/// the registry.
pub fn unused_locators(locators: &Vec<(String, bool)>) -> (unused: Vec<String>)
    ensures
        texts(unused@) == names(registry(locators@).filter(never_retrieved())),
{
    let mut unused: Vec<String> = Vec::new();
    let mut i: usize = 0;
    while i < locators.len()
        invariant
            i <= locators@.len(),
            texts(unused@) == names(registry(locators@).take(i as int).filter(never_retrieved())),
        decreases locators@.len() - i,
    {
        proof {
            let seen = registry(locators@).take(i as int);
            let entry = registry(locators@)[i as int];
            assert(registry(locators@).take(i + 1) =~= seen.push(entry));
            lemma_filter_push(seen, entry, never_retrieved());
        }
        if !locators[i].1 {
            let ghost before = texts(unused@);
            unused.push(locators[i].0.clone());
            assert(texts(unused@) =~= before.push(locators@[i as int].0@));
        }
        i += 1;
    }
    assert(registry(locators@).take(i as int) =~= registry(locators@));
    unused
}

/// The paths of a list of assets, in the order of the list.
pub fn asset_paths(assets: &Vec<Asset>) -> (files: Vec<String>)
    ensures
        texts(files@) == paths(asset_views(assets@)),
{
    let mut files: Vec<String> = Vec::new();
    let mut i: usize = 0;
    while i < assets.len()
        invariant
            i <= assets@.len(),
            files@.len() == i,
            forall|k: int| 0 <= k < i ==> (#[trigger] files@[k])@ == assets@[k].path@,
        decreases assets@.len() - i,
    {
        files.push(assets[i].path.clone());
        i += 1;
    }
    files
}

/// Draws up the report of a walk, given the inventory of the project's
/// source files.
pub fn report(walker: &Walker, inventory: Vec<String>) -> (findings: Report)
    ensures
        texts(findings.unreferenced_files@) == texts(inventory@).filter(
            unmatched(walker@.visited, walker@.project.root),
        ),
        texts(findings.unreferenced_assets@) == paths(walker@.assets),
        texts(findings.unused_dependencies@) == walker@.deps,
        texts(findings.unreferenced_labels@) == walker@.labels,
        texts(findings.unused_locators@) == names(walker@.locators.filter(never_retrieved())),
{
    Report {
        unreferenced_files: unreferenced_files(
            inventory,
            walker.visited(),
            walker.project().root.as_str(),
        ),
        unreferenced_assets: asset_paths(walker.assets()),
        unused_dependencies: walker.dependencies().clone(),
        unreferenced_labels: walker.labels().clone(),
        unused_locators: unused_locators(walker.locators()),
    }
}

} // verus!
