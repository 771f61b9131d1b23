//! The package manifest, `pubspec.yaml`, as plain data.
//!
//! Tables of the manifest are kept as lists of pairs in the order in which
//! the file gives them, and paths as strings.

use crate::sequences::lemma_filter_push;
use crate::text::texts;
use vstd::prelude::*;

verus! {

/// `serde_json::Value`: any value that a manifest may hold where its form is
/// not laid down. The library carries such a value and does not look into it.
#[verifier::external_type_specification]
#[verifier::external_body]
pub struct ExValue(serde_json::Value);

/// The manifest of a package.
#[derive(Debug, PartialEq, Eq)]
pub struct PubspecSchema {
    pub name: String,
    pub version: Option<String>,
    pub description: Option<String>,
    pub homepage: Option<String>,
    pub repository: Option<String>,
    pub issue_tracker: Option<String>,
    pub documentation: Option<String>,
    pub dependencies: Vec<(String, Dependency)>,
    pub dev_dependencies: Vec<(String, Dependency)>,
    pub dependency_overrides: Option<Vec<(String, Dependency)>>,
    pub executables: Option<Vec<(String, Option<String>)>>,
    /// The platforms that the package supports, each with what the manifest
    /// says of it.
    pub platforms: Option<Vec<(String, Option<serde_json::Value>)>>,
    pub publish_to: Option<PublishTo>,
    pub funding: Option<Vec<String>>,
    pub false_secrets: Option<Vec<String>>,
    pub screenshots: Option<Vec<Screenshot>>,
    pub topics: Option<Vec<String>>,
    pub ignored_advisories: Option<Vec<String>>,
    pub environment: Option<Environment>,
    pub flutter: Flutter,
    pub flutter_intl: FlutterIntl,
}

/// The versions of the SDKs that the package works with.
#[derive(Debug, PartialEq, Eq)]
pub struct Environment {
    pub sdk: String,
    pub flutter: Option<String>,
}

/// Where a package that the project depends on comes from.
#[derive(Debug, PartialEq, Eq)]
pub enum Dependency {
    /// A version constraint: `^1.0.0` or `>=1.0.0 <2.0.0`.
    Version(String),
    /// A package at a path.
    Path { path: String, version: Option<String> },
    /// A package of an SDK (`flutter`, `dart`).
    SDK { sdk: String, version: Option<String> },
    /// A package in a git repository.
    Git { git: GitDependency, version: Option<String> },
    /// A package on a package server of its own.
    Hosted { hosted: HostedDependency, version: Option<String> },
}

/// A git repository that holds a package.
#[derive(Debug, PartialEq, Eq)]
pub enum GitDependency {
    /// The URL of the repository alone.
    Url(String),
    /// The repository with a ref, a path or a tag pattern.
    Full { url: String, git_ref: Option<String>, path: Option<String>, tag_pattern: Option<String> },
}

/// A package server that holds a package.
#[derive(Debug, PartialEq, Eq)]
pub enum HostedDependency {
    /// The URL of the server alone.
    Url(String),
    /// The older form, with the package's name on the server.
    Full { name: String, url: String },
}

/// Where the package is published.
#[derive(Debug, PartialEq, Eq)]
pub enum PublishTo {
    /// The package is not published: `publish_to: none`.
    Disabled,
    /// The server to publish to.
    Url(String),
}

/// A screenshot for the package's page.
#[derive(Debug, PartialEq, Eq)]
pub struct Screenshot {
    pub description: String,
    pub path: String,
}

/// The `flutter` section.
#[derive(Debug, PartialEq, Eq, Default)]
pub struct Flutter {
    pub uses_material_design: bool,
    pub generate: bool,
    pub assets: Vec<AssetElement>,
    pub fonts: Vec<Font>,
    pub licenses: Option<Vec<String>>,
    pub shaders: Option<Vec<String>>,
    pub plugin: Option<FlutterPlugin>,
    pub default_flavor: Option<String>,
    pub config: Option<Vec<(String, bool)>>,
    pub deferred_components: Option<Vec<DeferredComponent>>,
}

/// An asset that is bundled for some flavors only.
#[derive(Debug, PartialEq, Eq)]
pub struct AssetClass {
    pub path: String,
    pub flavors: Vec<String>,
}

/// One entry of the asset list.
#[derive(Debug, PartialEq, Eq)]
pub enum AssetElement {
    AssetClass(AssetClass),
    Path(String),
}

/// What makes the package a plugin.
#[derive(Debug, PartialEq, Eq)]
pub struct FlutterPlugin {
    pub platforms: Vec<(String, PlatformConfig)>,
    pub implements: Option<Vec<String>>,
}

/// How a plugin is implemented on one platform.
#[derive(Debug, PartialEq, Eq)]
pub struct PlatformConfig {
    pub package: Option<String>,
    pub plugin_class: Option<String>,
    pub dart_plugin_class: Option<String>,
    pub ffi_plugin: Option<bool>,
    pub default_package: Option<String>,
    pub file_name: Option<String>,
    pub shared_darwin_source: Option<bool>,
}

/// A part of the application that is downloaded when it is needed.
#[derive(Debug, PartialEq, Eq)]
pub struct DeferredComponent {
    pub name: String,
    pub libraries: Option<Vec<String>>,
    pub assets: Option<Vec<String>>,
}

/// The `flutter_intl` section: how localised labels are generated.
#[derive(Debug, PartialEq, Eq)]
pub struct FlutterIntl {
    pub enabled: bool,
    /// The name of the accessor class.
    pub class_name: String,
    pub output_dir: String,
    pub arb_dir: String,
    pub main_locale: String,
    pub localize_function_name: Option<String>,
}

/// A font family and its files.
#[derive(Debug, PartialEq, Eq)]
pub struct Font {
    pub family: String,
    pub fonts: Vec<FontFile>,
}

/// One file of a font family.
#[derive(Debug, PartialEq, Eq)]
pub struct FontFile {
    pub asset: String,
    pub style: Option<String>,
    pub weight: Option<u16>,
}

impl AssetElement {
    /// The path that the entry names.
    pub open spec fn path(self) -> Seq<char> {
        match self {
            AssetElement::AssetClass(class) => class.path@,
            AssetElement::Path(path) => path@,
        }
    }
}

impl Flutter {
    /// The path of every entry of the asset list, in the order of the list.
    pub fn get_asset_paths(&self) -> (paths: Vec<String>)
        ensures
            paths@.len() == self.assets@.len(),
            forall|i: int| 0 <= i < paths@.len() ==> (#[trigger] paths@[i])@ == self.assets@[i].path(),
    {
        let mut paths: Vec<String> = Vec::new();
        let mut i: usize = 0;
        while i < self.assets.len()
            invariant
                i <= self.assets@.len(),
                paths@.len() == i,
                forall|k: int| 0 <= k < i ==> (#[trigger] paths@[k])@ == self.assets@[k].path(),
            decreases self.assets@.len() - i,
        {
            match &self.assets[i] {
                AssetElement::AssetClass(class) => {
                    paths.push(class.path.clone());
                },
                AssetElement::Path(path) => {
                    paths.push(path.clone());
                },
            }
            i += 1;
        }
        paths
    }
}

/// The names of a table's entries.
pub open spec fn names_of(table: Seq<(String, Dependency)>) -> Seq<Seq<char>> {
    table.map_values(|entry: (String, Dependency)| entry.0@)
}

impl PubspecSchema {
    /// The packages that the project depends on: the names of the
    /// `dependencies` table but the project's own, in the order of the table.
    pub open spec fn dependencies_declared(&self) -> Seq<Seq<char>> {
        names_of(self.dependencies@).filter(|name: Seq<char>| name != self.name@)
    }

    /// Lists the packages that the project depends on.
    pub fn dependency_names(&self) -> (names: Vec<String>)
        ensures
            texts(names@) == self.dependencies_declared(),
    {
        let mut names: Vec<String> = Vec::new();
        let mut i: usize = 0;
        let ghost own = |name: Seq<char>| name != self.name@;
        while i < self.dependencies.len()
            invariant
                i <= self.dependencies@.len(),
                own == |name: Seq<char>| name != self.name@,
                texts(names@) == names_of(
                    self.dependencies@.take(i as int),
                ).filter(own),
            decreases self.dependencies@.len() - i,
        {
            let ghost before = names_of(self.dependencies@.take(i as int));
            proof {
                let entry = self.dependencies@[i as int];
                assert(names_of(self.dependencies@.take(i + 1)) =~= before.push(entry.0@));
                lemma_filter_push(before, entry.0@, own);
            }
            if self.dependencies[i].0 != self.name {
                names.push(self.dependencies[i].0.clone());
            }
            i += 1;
        }
        assert(self.dependencies@.take(i as int) =~= self.dependencies@);
        names
    }
}

/// The name of the accessor class where the manifest gives none.
pub fn default_class_name() -> (name: String)
    ensures
        name@ == "AppLocalizations"@,
{
    String::from_str("AppLocalizations")
}

/// The directory of the generated code where the manifest gives none.
pub fn default_output_dir() -> (path: String)
    ensures
        path@ == "lib/generated"@,
{
    String::from_str("lib/generated")
}

/// The directory of the translation files where the manifest gives none.
pub fn default_arb_dir() -> (path: String)
    ensures
        path@ == "lib/l10n"@,
{
    String::from_str("lib/l10n")
}

/// The main locale where the manifest gives none.
pub fn default_main_locale() -> (locale: String)
    ensures
        locale@ == "en"@,
{
    String::from_str("en")
}

} // verus!
