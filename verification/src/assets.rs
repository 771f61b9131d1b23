//! The assets that the manifest registers.

use crate::resolver::{file_name_of, path_file_name, unmatched, without_matches};
use crate::text::texts;
use vstd::prelude::*;

verus! {

/// A registered asset: its path, and the file name by which source files
/// refer to it.
#[derive(Debug, PartialEq, Eq)]
pub struct Asset {
    pub path: String,
    pub file_name: String,
}

/// The mathematical value of an [`Asset`].
pub struct AssetView {
    pub path: Seq<char>,
    pub file_name: Seq<char>,
}

impl View for Asset {
    type V = AssetView;

    open spec fn view(&self) -> AssetView {
        AssetView { path: self.path@, file_name: self.file_name@ }
    }
}

impl Clone for Asset {
    fn clone(&self) -> (copy: Self)
        ensures
            copy@ == self@,
    {
        Asset { path: self.path.clone(), file_name: self.file_name.clone() }
    }
}

/// The views of a list of assets.
pub open spec fn asset_views(list: Seq<Asset>) -> Seq<AssetView> {
    list.map_values(|a: Asset| a@)
}

/// A registered path that is no asset.
#[derive(Debug, PartialEq, Eq)]
pub enum AssetError {
    /// The path does not end in a file name.
    NoFileName(String),
}

/// The asset of a path, if the path ends in a file name.
pub open spec fn asset_of(path: Seq<char>) -> Option<AssetView> {
    match file_name_of(path) {
        Some(file_name) => Some(AssetView { path, file_name }),
        None => None,
    }
}

/// The path at position `i` is the first that does not end in a file name.
pub open spec fn first_without_name(paths: Seq<Seq<char>>, i: int) -> bool {
    &&& 0 <= i < paths.len()
    &&& asset_of(paths[i]) is None
    &&& forall|k: int| 0 <= k < i ==> asset_of(#[trigger] paths[k]) is Some
}

/// The paths of `all` that are not among `ignored`, in the order of `all`.
/// Two paths are the same if their normal forms are.
pub open spec fn kept(all: Seq<Seq<char>>, ignored: Seq<Seq<char>>, root: Seq<char>) -> Seq<
    Seq<char>,
> {
    all.filter(unmatched(ignored, root))
}

/// Takes the ignored files out of a list of assets. The order is kept.
pub fn remove_ignored_assets(all_assets: Vec<String>, ignored_assets: &Vec<String>, root: &str)
    -> (assets: Vec<String>)
    ensures
        texts(assets@) == kept(texts(all_assets@), texts(ignored_assets@), root@),
{
    without_matches(all_assets, ignored_assets, root)
}

/// Makes the assets of the registered paths that are not ignored. The first
/// path that does not end in a file name is refused.
pub fn get_assets(registered_assets: Vec<String>, ignored_assets: &Vec<String>, root: &str) -> (r:
    Result<Vec<Asset>, AssetError>)
    ensures
        match r {
            Ok(assets) => {
                let paths = kept(texts(registered_assets@), texts(ignored_assets@), root@);
                &&& assets@.len() == paths.len()
                &&& forall|i: int|
                    0 <= i < paths.len() ==> asset_of(paths[i]) == Some(#[trigger] assets@[i]@)
            },
            Err(AssetError::NoFileName(path)) => {
                let paths = kept(texts(registered_assets@), texts(ignored_assets@), root@);
                exists|i: int| first_without_name(paths, i) && paths[i] == path@
            },
        },
{
    let paths = remove_ignored_assets(registered_assets, ignored_assets, root);
    let mut assets: Vec<Asset> = Vec::new();
    let mut i: usize = 0;
    while i < paths.len()
        invariant
            i <= paths@.len(),
            assets@.len() == i,
            texts(paths@) == kept(texts(registered_assets@), texts(ignored_assets@), root@),
            forall|k: int| 0 <= k < i ==> asset_of(texts(paths@)[k]) == Some(#[trigger] assets@[k]@),
        decreases paths@.len() - i,
    {
        match path_file_name(paths[i].as_str()) {
            Some(file_name) => {
                assets.push(Asset { path: paths[i].clone(), file_name });
            },
            None => {
                assert forall|k: int| 0 <= k < i implies asset_of(#[trigger] texts(paths@)[k])
                    is Some by {
                    assert(asset_of(texts(paths@)[k]) == Some(assets@[k]@));
                }
                assert(first_without_name(texts(paths@), i as int));
                return Err(AssetError::NoFileName(paths[i].clone()));
            },
        }
        i += 1;
    }
    Ok(assets)
}

/// What stands on disk under a path of the asset list.
#[derive(Clone, Copy, Debug, PartialEq, Eq)]
pub enum PathKind {
    File,
    Directory,
    Neither,
}

/// How the files are found that a path of the asset list stands for.
#[derive(Debug, PartialEq, Eq)]
pub enum Lookup {
    /// The path is the one file.
    Itself,
    /// The files are those that match the pattern.
    Pattern(String),
    /// There is no file.
    Nothing,
}

/// The pattern for the files that lie directly in a directory.
pub open spec fn shallow_pattern(directory: Seq<char>) -> Seq<char> {
    directory + "/*"@
}

/// The pattern for the files that lie anywhere below a directory.
pub open spec fn deep_pattern(directory: Seq<char>) -> Seq<char> {
    directory + "/**/*"@
}

/// Decides how to find the files that a path of the asset list stands for:
/// a file stands for itself, a directory for the files in it, or below it
/// where `deep` is set, and anything else for nothing.
pub fn lookup(path: &str, kind: PathKind, deep: bool) -> (how: Lookup)
    ensures
        match kind {
            PathKind::File => how is Itself,
            PathKind::Directory => how matches Lookup::Pattern(pattern) && pattern@ == if deep {
                deep_pattern(path@)
            } else {
                shallow_pattern(path@)
            },
            PathKind::Neither => how is Nothing,
        },
{
    match kind {
        PathKind::File => Lookup::Itself,
        PathKind::Directory => Lookup::Pattern(
            String::from_str(path).concat(
                if deep {
                    "/**/*"
                } else {
                    "/*"
                },
            ),
        ),
        PathKind::Neither => Lookup::Nothing,
    }
}

} // verus!
