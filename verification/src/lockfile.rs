//! The contents of a lockfile: package keys, package snapshots and importers.
use crate::json::{Json, JsonModel};
use crate::semver;
use crate::semver::{Version, VersionModel};
use crate::table;
use crate::table::{Table, TextMap};
use crate::text;
use crate::value::{Compared, Key, Value};
use vstd::prelude::*;
use vstd::string::*;

verus! {

/// The groups in which a manifest lists dependencies.
#[derive(Debug, Clone, Copy, PartialEq, Eq, Structural)]
pub enum DependencyGroup {
    Prod,
    Dev,
    Optional,
    Peer,
}

/// A version with the peers that it was resolved against, and the name of the
/// directory that the package has in the virtual store.
#[derive(Debug)]
pub struct PkgVerPeer {
    pub version: Version,
    pub peer: String,
    pub store_name: String,
}

/// A package name with a version and its peers.
#[derive(Debug)]
pub struct PkgNameVerPeer {
    pub name: String,
    pub suffix: PkgVerPeer,
}

/// What a dependency path names: a package of a registry or a local directory.
#[derive(Debug)]
pub enum PackageSpecifier {
    Registry(PkgNameVerPeer),
    LocalFile { name: String, reference: String, store_name: String },
}

/// The key of a package in a lockfile.
#[derive(Debug)]
pub struct DependencyPath {
    pub custom_registry: Option<String>,
    pub package_specifier: PackageSpecifier,
}

pub struct VerPeerModel {
    pub version: VersionModel,
    pub peer: Seq<char>,
    pub store_name: Seq<char>,
}

pub struct NameVerPeerModel {
    pub name: Seq<char>,
    pub suffix: VerPeerModel,
}

pub enum SpecifierModel {
    Registry(NameVerPeerModel),
    LocalFile { name: Seq<char>, reference: Seq<char>, store_name: Seq<char> },
}

/// The mathematical value of a [`DependencyPath`].
pub struct PathModel {
    pub custom_registry: Option<Seq<char>>,
    pub specifier: SpecifierModel,
}

impl DeepView for PkgVerPeer {
    type V = VerPeerModel;

    open spec fn deep_view(&self) -> VerPeerModel {
        VerPeerModel {
            version: self.version.deep_view(),
            peer: self.peer@,
            store_name: self.store_name@,
        }
    }
}

impl DeepView for PkgNameVerPeer {
    type V = NameVerPeerModel;

    open spec fn deep_view(&self) -> NameVerPeerModel {
        NameVerPeerModel { name: self.name@, suffix: self.suffix.deep_view() }
    }
}

impl DeepView for PackageSpecifier {
    type V = SpecifierModel;

    open spec fn deep_view(&self) -> SpecifierModel {
        match self {
            PackageSpecifier::Registry(specifier) => SpecifierModel::Registry(
                specifier.deep_view(),
            ),
            PackageSpecifier::LocalFile {
                name,
                reference,
                store_name,
            } => SpecifierModel::LocalFile {
                name: name@,
                reference: reference@,
                store_name: store_name@,
            },
        }
    }
}

impl DeepView for DependencyPath {
    type V = PathModel;

    open spec fn deep_view(&self) -> PathModel {
        PathModel {
            custom_registry: self.custom_registry.deep_view(),
            specifier: self.package_specifier.deep_view(),
        }
    }
}

/// What tells one version with its peers from another: neither the build tag
/// nor the directory's name counts.
pub struct VerPeerId {
    pub version: VersionModel,
    pub peer: Seq<char>,
}

pub struct NameVerPeerId {
    pub name: Seq<char>,
    pub suffix: VerPeerId,
}

pub enum SpecifierId {
    Registry(NameVerPeerId),
    LocalFile { name: Seq<char>, reference: Seq<char> },
}

/// What tells one [`DependencyPath`] from another.
pub struct PathId {
    pub custom_registry: Option<Seq<char>>,
    pub specifier: SpecifierId,
}

pub open spec fn ver_peer_id(suffix: VerPeerModel) -> VerPeerId {
    VerPeerId { version: semver::release(suffix.version), peer: suffix.peer }
}

pub open spec fn name_ver_peer_id(specifier: NameVerPeerModel) -> NameVerPeerId {
    NameVerPeerId { name: specifier.name, suffix: ver_peer_id(specifier.suffix) }
}

pub open spec fn specifier_id(specifier: SpecifierModel) -> SpecifierId {
    match specifier {
        SpecifierModel::Registry(specifier) => SpecifierId::Registry(name_ver_peer_id(specifier)),
        SpecifierModel::LocalFile { name, reference, store_name } => SpecifierId::LocalFile {
            name,
            reference,
        },
    }
}

pub open spec fn path_id(path: PathModel) -> PathId {
    PathId { custom_registry: path.custom_registry, specifier: specifier_id(path.specifier) }
}

/// What tells some keys from others, one by one.
pub open spec fn path_ids(paths: Seq<DependencyPath>) -> Seq<PathId> {
    Seq::new(paths.len(), |i: int| paths[i].ident())
}

/// What tells a key from another, if there is one.
pub open spec fn path_ident(path: Option<DependencyPath>) -> Option<PathId> {
    match path {
        Some(path) => Some(path.ident()),
        None => None,
    }
}

/// How a version with its peers is written.
pub open spec fn written_ver_peer(suffix: VerPeerModel) -> Seq<char> {
    semver::version_text(suffix.version) + suffix.peer
}

/// How a package name with a version is written.
pub open spec fn written_name_ver_peer(specifier: NameVerPeerModel) -> Seq<char> {
    specifier.name + seq!['@'] + written_ver_peer(specifier.suffix)
}

/// How a specifier is written.
pub open spec fn written_specifier(specifier: SpecifierModel) -> Seq<char> {
    match specifier {
        SpecifierModel::Registry(specifier) => written_name_ver_peer(specifier),
        SpecifierModel::LocalFile { name, reference, store_name } => name + seq!['@'] + reference,
    }
}

/// How a dependency path is written.
pub open spec fn written_path(path: PathModel) -> Seq<char> {
    (match path.custom_registry {
        Some(registry) => registry,
        None => Seq::empty(),
    }) + seq!['/'] + written_specifier(path.specifier)
}

/// The directory of a package in the virtual store.
pub open spec fn store_name_of(specifier: SpecifierModel) -> Seq<char> {
    match specifier {
        SpecifierModel::Registry(specifier) => specifier.suffix.store_name,
        SpecifierModel::LocalFile { name, reference, store_name } => store_name,
    }
}

/// How a version with its peers is written.
pub open spec fn ver_peer_text(suffix: PkgVerPeer) -> Seq<char> {
    written_ver_peer(suffix.deep_view())
}

/// How a package name with a version is written.
pub open spec fn name_ver_peer_text(specifier: PkgNameVerPeer) -> Seq<char> {
    written_name_ver_peer(specifier.deep_view())
}

/// How a specifier is written.
pub open spec fn specifier_text(specifier: PackageSpecifier) -> Seq<char> {
    written_specifier(specifier.deep_view())
}

/// How a dependency path is written.
pub open spec fn path_text(path: DependencyPath) -> Seq<char> {
    written_path(path.deep_view())
}

/// The directory of a package in the virtual store.
pub open spec fn specifier_store_name(specifier: PackageSpecifier) -> Seq<char> {
    store_name_of(specifier.deep_view())
}

/// The name of the package that a specifier names.
pub open spec fn specifier_name(specifier: SpecifierId) -> Seq<char> {
    match specifier {
        SpecifierId::Registry(specifier) => specifier.name,
        SpecifierId::LocalFile { name, reference } => name,
    }
}

/// The key of a package of the default registry.
pub open spec fn registry_path(specifier: NameVerPeerId) -> PathId {
    PathId { custom_registry: None, specifier: SpecifierId::Registry(specifier) }
}

/// The key of the package in a local directory.
pub open spec fn local_path(name: Seq<char>, reference: Seq<char>) -> PathId {
    PathId { custom_registry: None, specifier: SpecifierId::LocalFile { name, reference } }
}

impl Value for PkgVerPeer {
    fn duplicate(&self) -> PkgVerPeer {
        PkgVerPeer {
            version: self.version.duplicate(),
            peer: self.peer.clone(),
            store_name: self.store_name.clone(),
        }
    }

    fn same(&self, other: &PkgVerPeer) -> bool {
        self.version.same(&other.version) && self.peer.same(&other.peer) && self.store_name.same(
            &other.store_name,
        )
    }
}

impl Value for PkgNameVerPeer {
    fn duplicate(&self) -> PkgNameVerPeer {
        PkgNameVerPeer { name: self.name.clone(), suffix: self.suffix.duplicate() }
    }

    fn same(&self, other: &PkgNameVerPeer) -> bool {
        self.name.same(&other.name) && self.suffix.same(&other.suffix)
    }
}

impl Value for PackageSpecifier {
    fn duplicate(&self) -> PackageSpecifier {
        match self {
            PackageSpecifier::Registry(specifier) => PackageSpecifier::Registry(
                specifier.duplicate(),
            ),
            PackageSpecifier::LocalFile {
                name,
                reference,
                store_name,
            } => PackageSpecifier::LocalFile {
                name: name.clone(),
                reference: reference.clone(),
                store_name: store_name.clone(),
            },
        }
    }

    fn same(&self, other: &PackageSpecifier) -> bool {
        match (self, other) {
            (PackageSpecifier::Registry(a), PackageSpecifier::Registry(b)) => a.same(b),
            (
                PackageSpecifier::LocalFile { name: a, reference: r, store_name: d },
                PackageSpecifier::LocalFile { name: b, reference: s, store_name: e },
            ) => a.same(b) && r.same(s) && d.same(e),
            _ => false,
        }
    }
}

impl Value for DependencyPath {
    fn duplicate(&self) -> DependencyPath {
        DependencyPath {
            custom_registry: self.custom_registry.duplicate(),
            package_specifier: self.package_specifier.duplicate(),
        }
    }

    fn same(&self, other: &DependencyPath) -> bool {
        self.custom_registry.same(&other.custom_registry) && self.package_specifier.same(
            &other.package_specifier,
        )
    }
}

impl Key for DependencyPath {
    type Id = PathId;

    open spec fn id(key: PathModel) -> PathId {
        path_id(key)
    }

    fn is_key(&self, other: &DependencyPath) -> bool {
        self.custom_registry.same(&other.custom_registry)
            && self.package_specifier.names_the_same(&other.package_specifier)
    }
}

impl PkgVerPeer {
    /// Whether two versions with their peers are one.
    pub fn names_the_same(&self, other: &PkgVerPeer) -> (yes: bool)
        ensures
            yes == (ver_peer_id(self.deep_view()) == ver_peer_id(other.deep_view())),
    {
        self.version.is_same(&other.version) && self.peer.same(&other.peer)
    }
}

impl PackageSpecifier {
    /// Whether two specifiers name one package.
    pub fn names_the_same(&self, other: &PackageSpecifier) -> (yes: bool)
        ensures
            yes == (specifier_id(self.deep_view()) == specifier_id(other.deep_view())),
    {
        match (self, other) {
            (PackageSpecifier::Registry(a), PackageSpecifier::Registry(b)) => {
                a.name.same(&b.name) && a.suffix.names_the_same(&b.suffix)
            },
            (
                PackageSpecifier::LocalFile { name: a, reference: r, store_name: _ },
                PackageSpecifier::LocalFile { name: b, reference: s, store_name: _ },
            ) => a.same(b) && r.same(s),
            _ => false,
        }
    }
}

impl PkgVerPeer {
    /// How the version with its peers is written.
    pub fn text(&self) -> (s: String)
        ensures
            s@ == ver_peer_text(*self),
    {
        let mut s = self.version.text();
        s.append(self.peer.as_str());
        s
    }
}

impl PkgNameVerPeer {
    /// How the name with its version is written.
    pub fn text(&self) -> (s: String)
        ensures
            s@ == name_ver_peer_text(*self),
    {
        let mut s = self.name.clone();
        s.push('@');
        s.append(self.suffix.text().as_str());
        assert(s@ =~= name_ver_peer_text(*self));
        s
    }
}

impl PackageSpecifier {
    /// How the specifier is written.
    pub fn text(&self) -> (s: String)
        ensures
            s@ == specifier_text(*self),
    {
        match self {
            PackageSpecifier::Registry(specifier) => specifier.text(),
            PackageSpecifier::LocalFile { name, reference, store_name: _ } => {
                let mut s = name.clone();
                s.push('@');
                s.append(reference.as_str());
                assert(s@ =~= specifier_text(*self));
                s
            },
        }
    }

    /// The name of the package.
    pub fn name(&self) -> (name: &str)
        ensures
            name@ == specifier_name(specifier_id(self.deep_view())),
    {
        match self {
            PackageSpecifier::Registry(specifier) => specifier.name.as_str(),
            PackageSpecifier::LocalFile { name, reference: _, store_name: _ } => name.as_str(),
        }
    }

    /// The directory of the package in the virtual store.
    pub fn to_virtual_store_name(&self) -> (name: &str)
        ensures
            name@ == specifier_store_name(*self),
    {
        match self {
            PackageSpecifier::Registry(specifier) => specifier.suffix.store_name.as_str(),
            PackageSpecifier::LocalFile { name: _, reference: _, store_name } => {
                store_name.as_str()
            },
        }
    }
}

impl DependencyPath {
    /// What tells the key from another.
    pub open spec fn ident(&self) -> PathId {
        path_id(self.deep_view())
    }

    /// The key of a package of a registry.
    pub fn registry(custom_registry: Option<String>, specifier: PkgNameVerPeer) -> (path:
        DependencyPath)
        ensures
            path.deep_view() == (PathModel {
                custom_registry: custom_registry.deep_view(),
                specifier: SpecifierModel::Registry(specifier.deep_view()),
            }),
    {
        DependencyPath { custom_registry, package_specifier: PackageSpecifier::Registry(specifier) }
    }

    /// The key of the package in a local directory.
    pub fn local_file(name: String, reference: String, store_name: String) -> (path: DependencyPath)
        ensures
            path.deep_view() == (PathModel {
                custom_registry: None,
                specifier: SpecifierModel::LocalFile {
                    name: name@,
                    reference: reference@,
                    store_name: store_name@,
                },
            }),
    {
        DependencyPath {
            custom_registry: None,
            package_specifier: PackageSpecifier::LocalFile { name, reference, store_name },
        }
    }

    /// How the key is written.
    pub fn text(&self) -> (s: String)
        ensures
            s@ == path_text(*self),
    {
        let mut s = match &self.custom_registry {
            Some(registry) => registry.clone(),
            None => String::new(),
        };
        s.push('/');
        s.append(self.package_specifier.text().as_str());
        assert(s@ =~= path_text(*self));
        s
    }

    /// The reference of a local directory.
    pub fn local_file_reference(&self) -> (reference: Option<&str>)
        ensures
            reference.deep_view() == local_reference(self.ident()),
    {
        match &self.package_specifier {
            PackageSpecifier::LocalFile { name: _, reference, store_name: _ } => Some(
                reference.as_str(),
            ),
            _ => None,
        }
    }
}

/// The reference of a local directory.
pub open spec fn local_reference(path: PathId) -> Option<Seq<char>> {
    match path.specifier {
        SpecifierId::LocalFile { name, reference } => Some(reference),
        _ => None,
    }
}

/// The part of a version with its peers that counts when it is compared.
pub open spec fn bare_ver_peer(suffix: VerPeerModel) -> VerPeerModel {
    VerPeerModel {
        version: semver::release(suffix.version),
        peer: suffix.peer,
        store_name: Seq::empty(),
    }
}

pub open spec fn bare_name_ver_peer(specifier: NameVerPeerModel) -> NameVerPeerModel {
    NameVerPeerModel { name: specifier.name, suffix: bare_ver_peer(specifier.suffix) }
}

pub open spec fn bare_path(path: PathModel) -> PathModel {
    PathModel {
        custom_registry: path.custom_registry,
        specifier: match path.specifier {
            SpecifierModel::Registry(specifier) => SpecifierModel::Registry(
                bare_name_ver_peer(specifier),
            ),
            SpecifierModel::LocalFile { name, reference, store_name } => {
                SpecifierModel::LocalFile { name, reference, store_name: Seq::empty() }
            },
        },
    }
}

impl PkgVerPeer {
    /// The part that counts when it is compared.
    pub fn to_bare(&self) -> (bare: PkgVerPeer)
        ensures
            bare.deep_view() == bare_ver_peer(self.deep_view()),
    {
        PkgVerPeer {
            version: self.version.to_release(),
            peer: self.peer.clone(),
            store_name: String::new(),
        }
    }
}

impl PkgNameVerPeer {
    /// The part that counts when it is compared.
    pub fn to_bare(&self) -> (bare: PkgNameVerPeer)
        ensures
            bare.deep_view() == bare_name_ver_peer(self.deep_view()),
    {
        PkgNameVerPeer { name: self.name.clone(), suffix: self.suffix.to_bare() }
    }
}

impl DependencyPath {
    /// The part that counts when it is compared.
    pub fn to_bare(&self) -> (bare: DependencyPath)
        ensures
            bare.deep_view() == bare_path(self.deep_view()),
    {
        DependencyPath {
            custom_registry: self.custom_registry.duplicate(),
            package_specifier: match &self.package_specifier {
                PackageSpecifier::Registry(specifier) => PackageSpecifier::Registry(
                    specifier.to_bare(),
                ),
                PackageSpecifier::LocalFile { name, reference, store_name: _ } => {
                    PackageSpecifier::LocalFile {
                        name: name.clone(),
                        reference: reference.clone(),
                        store_name: String::new(),
                    }
                },
            },
        }
    }
}

/// How a package snapshot refers to a dependency.
#[derive(Debug)]
pub enum PackageSnapshotDependency {
    PkgVerPeer(PkgVerPeer),
    PkgNameVerPeer(PkgNameVerPeer),
    DependencyPath(DependencyPath),
    Link(String),
}

pub enum SnapshotDependencyModel {
    PkgVerPeer(VerPeerModel),
    PkgNameVerPeer(NameVerPeerModel),
    DependencyPath(PathModel),
    Link(Seq<char>),
}

impl DeepView for PackageSnapshotDependency {
    type V = SnapshotDependencyModel;

    open spec fn deep_view(&self) -> SnapshotDependencyModel {
        match self {
            PackageSnapshotDependency::PkgVerPeer(v) => SnapshotDependencyModel::PkgVerPeer(
                v.deep_view(),
            ),
            PackageSnapshotDependency::PkgNameVerPeer(v) => SnapshotDependencyModel::PkgNameVerPeer(
                v.deep_view(),
            ),
            PackageSnapshotDependency::DependencyPath(v) => SnapshotDependencyModel::DependencyPath(
                v.deep_view(),
            ),
            PackageSnapshotDependency::Link(v) => SnapshotDependencyModel::Link(v@),
        }
    }
}

impl Value for PackageSnapshotDependency {
    fn duplicate(&self) -> PackageSnapshotDependency {
        match self {
            PackageSnapshotDependency::PkgVerPeer(v) => PackageSnapshotDependency::PkgVerPeer(
                v.duplicate(),
            ),
            PackageSnapshotDependency::PkgNameVerPeer(v) => {
                PackageSnapshotDependency::PkgNameVerPeer(v.duplicate())
            },
            PackageSnapshotDependency::DependencyPath(v) => {
                PackageSnapshotDependency::DependencyPath(v.duplicate())
            },
            PackageSnapshotDependency::Link(v) => PackageSnapshotDependency::Link(v.clone()),
        }
    }

    fn same(&self, other: &PackageSnapshotDependency) -> bool {
        match (self, other) {
            (
                PackageSnapshotDependency::PkgVerPeer(a),
                PackageSnapshotDependency::PkgVerPeer(b),
            ) => a.same(b),
            (
                PackageSnapshotDependency::PkgNameVerPeer(a),
                PackageSnapshotDependency::PkgNameVerPeer(b),
            ) => a.same(b),
            (
                PackageSnapshotDependency::DependencyPath(a),
                PackageSnapshotDependency::DependencyPath(b),
            ) => a.same(b),
            (PackageSnapshotDependency::Link(a), PackageSnapshotDependency::Link(b)) => a.same(b),
            _ => false,
        }
    }
}

impl Compared for PackageSnapshotDependency {
    open spec fn bare(value: SnapshotDependencyModel) -> SnapshotDependencyModel {
        match value {
            SnapshotDependencyModel::PkgVerPeer(v) => SnapshotDependencyModel::PkgVerPeer(
                bare_ver_peer(v),
            ),
            SnapshotDependencyModel::PkgNameVerPeer(v) => SnapshotDependencyModel::PkgNameVerPeer(
                bare_name_ver_peer(v),
            ),
            SnapshotDependencyModel::DependencyPath(v) => SnapshotDependencyModel::DependencyPath(
                bare_path(v),
            ),
            SnapshotDependencyModel::Link(v) => value,
        }
    }

    fn to_bare(&self) -> PackageSnapshotDependency {
        match self {
            PackageSnapshotDependency::PkgVerPeer(v) => PackageSnapshotDependency::PkgVerPeer(
                v.to_bare(),
            ),
            PackageSnapshotDependency::PkgNameVerPeer(v) => {
                PackageSnapshotDependency::PkgNameVerPeer(v.to_bare())
            },
            PackageSnapshotDependency::DependencyPath(v) => {
                PackageSnapshotDependency::DependencyPath(v.to_bare())
            },
            PackageSnapshotDependency::Link(v) => PackageSnapshotDependency::Link(v.clone()),
        }
    }
}

/// What a direct dependency of an importer was resolved to.
#[derive(Debug)]
pub enum ResolvedDependencyVersion {
    PkgVerPeer(PkgVerPeer),
    PkgNameVerPeer(PkgNameVerPeer),
    Link(String),
}

pub enum ResolvedVersionModel {
    PkgVerPeer(VerPeerModel),
    PkgNameVerPeer(NameVerPeerModel),
    Link(Seq<char>),
}

impl DeepView for ResolvedDependencyVersion {
    type V = ResolvedVersionModel;

    open spec fn deep_view(&self) -> ResolvedVersionModel {
        match self {
            ResolvedDependencyVersion::PkgVerPeer(v) => ResolvedVersionModel::PkgVerPeer(
                v.deep_view(),
            ),
            ResolvedDependencyVersion::PkgNameVerPeer(v) => ResolvedVersionModel::PkgNameVerPeer(
                v.deep_view(),
            ),
            ResolvedDependencyVersion::Link(v) => ResolvedVersionModel::Link(v@),
        }
    }
}

/// How a resolved version is written.
pub open spec fn written_version(version: ResolvedVersionModel) -> Seq<char> {
    match version {
        ResolvedVersionModel::PkgVerPeer(v) => written_ver_peer(v),
        ResolvedVersionModel::PkgNameVerPeer(v) => written_name_ver_peer(v),
        ResolvedVersionModel::Link(v) => v,
    }
}

/// How a resolved version is written.
pub open spec fn resolved_version_text(version: ResolvedDependencyVersion) -> Seq<char> {
    written_version(version.deep_view())
}

impl Value for ResolvedDependencyVersion {
    fn duplicate(&self) -> ResolvedDependencyVersion {
        match self {
            ResolvedDependencyVersion::PkgVerPeer(v) => ResolvedDependencyVersion::PkgVerPeer(
                v.duplicate(),
            ),
            ResolvedDependencyVersion::PkgNameVerPeer(v) => {
                ResolvedDependencyVersion::PkgNameVerPeer(v.duplicate())
            },
            ResolvedDependencyVersion::Link(v) => ResolvedDependencyVersion::Link(v.clone()),
        }
    }

    fn same(&self, other: &ResolvedDependencyVersion) -> bool {
        match (self, other) {
            (
                ResolvedDependencyVersion::PkgVerPeer(a),
                ResolvedDependencyVersion::PkgVerPeer(b),
            ) => a.same(b),
            (
                ResolvedDependencyVersion::PkgNameVerPeer(a),
                ResolvedDependencyVersion::PkgNameVerPeer(b),
            ) => a.same(b),
            (ResolvedDependencyVersion::Link(a), ResolvedDependencyVersion::Link(b)) => a.same(b),
            _ => false,
        }
    }
}

impl ResolvedDependencyVersion {
    /// How the resolved version is written.
    pub fn text(&self) -> (s: String)
        ensures
            s@ == resolved_version_text(*self),
    {
        match self {
            ResolvedDependencyVersion::PkgVerPeer(v) => v.text(),
            ResolvedDependencyVersion::PkgNameVerPeer(v) => v.text(),
            ResolvedDependencyVersion::Link(v) => v.clone(),
        }
    }
}

/// A direct dependency of an importer: what the manifest asks for and what it
/// was resolved to.
#[derive(Debug)]
pub struct ResolvedDependencySpec {
    pub specifier: String,
    pub version: ResolvedDependencyVersion,
}

pub struct ResolvedSpecModel {
    pub specifier: Seq<char>,
    pub version: ResolvedVersionModel,
}

impl DeepView for ResolvedDependencySpec {
    type V = ResolvedSpecModel;

    open spec fn deep_view(&self) -> ResolvedSpecModel {
        ResolvedSpecModel { specifier: self.specifier@, version: self.version.deep_view() }
    }
}

impl Value for ResolvedDependencySpec {
    fn duplicate(&self) -> ResolvedDependencySpec {
        ResolvedDependencySpec {
            specifier: self.specifier.clone(),
            version: self.version.duplicate(),
        }
    }

    fn same(&self, other: &ResolvedDependencySpec) -> bool {
        self.specifier.same(&other.specifier) && self.version.same(&other.version)
    }
}

impl Compared for ResolvedDependencySpec {
    open spec fn bare(value: ResolvedSpecModel) -> ResolvedSpecModel {
        ResolvedSpecModel {
            specifier: value.specifier,
            version: match value.version {
                ResolvedVersionModel::PkgVerPeer(v) => ResolvedVersionModel::PkgVerPeer(
                    bare_ver_peer(v),
                ),
                ResolvedVersionModel::PkgNameVerPeer(v) => ResolvedVersionModel::PkgNameVerPeer(
                    bare_name_ver_peer(v),
                ),
                ResolvedVersionModel::Link(v) => value.version,
            },
        }
    }

    fn to_bare(&self) -> ResolvedDependencySpec {
        ResolvedDependencySpec {
            specifier: self.specifier.clone(),
            version: match &self.version {
                ResolvedDependencyVersion::PkgVerPeer(v) => ResolvedDependencyVersion::PkgVerPeer(
                    v.to_bare(),
                ),
                ResolvedDependencyVersion::PkgNameVerPeer(v) => {
                    ResolvedDependencyVersion::PkgNameVerPeer(v.to_bare())
                },
                ResolvedDependencyVersion::Link(v) => ResolvedDependencyVersion::Link(v.clone()),
            },
        }
    }
}

/// The direct dependencies of one group, by alias.
pub type ResolvedDependencyMap = TextMap<ResolvedDependencySpec>;

/// What a lockfile holds of one importer.
#[derive(Debug)]
pub struct ProjectSnapshot {
    pub specifiers: Option<TextMap<String>>,
    pub dependencies: Option<ResolvedDependencyMap>,
    pub optional_dependencies: Option<ResolvedDependencyMap>,
    pub dev_dependencies: Option<ResolvedDependencyMap>,
    pub dependencies_meta: Option<Json>,
    pub publish_directory: Option<String>,
}

pub struct ProjectModel {
    pub specifiers: Option<Map<Seq<char>, Seq<char>>>,
    pub dependencies: Option<Map<Seq<char>, ResolvedSpecModel>>,
    pub optional_dependencies: Option<Map<Seq<char>, ResolvedSpecModel>>,
    pub dev_dependencies: Option<Map<Seq<char>, ResolvedSpecModel>>,
    pub dependencies_meta: Option<JsonModel>,
    pub publish_directory: Option<Seq<char>>,
}

impl DeepView for ProjectSnapshot {
    type V = ProjectModel;

    open spec fn deep_view(&self) -> ProjectModel {
        ProjectModel {
            specifiers: self.specifiers.deep_view(),
            dependencies: self.dependencies.deep_view(),
            optional_dependencies: self.optional_dependencies.deep_view(),
            dev_dependencies: self.dev_dependencies.deep_view(),
            dependencies_meta: self.dependencies_meta.deep_view(),
            publish_directory: self.publish_directory.deep_view(),
        }
    }
}

impl Value for ProjectSnapshot {
    fn duplicate(&self) -> ProjectSnapshot {
        ProjectSnapshot {
            specifiers: self.specifiers.duplicate(),
            dependencies: self.dependencies.duplicate(),
            optional_dependencies: self.optional_dependencies.duplicate(),
            dev_dependencies: self.dev_dependencies.duplicate(),
            dependencies_meta: self.dependencies_meta.duplicate(),
            publish_directory: self.publish_directory.duplicate(),
        }
    }

    fn same(&self, other: &ProjectSnapshot) -> bool {
        self.specifiers.same(&other.specifiers) && self.dependencies.same(&other.dependencies)
            && self.optional_dependencies.same(&other.optional_dependencies)
            && self.dev_dependencies.same(&other.dev_dependencies) && self.dependencies_meta.same(
            &other.dependencies_meta,
        ) && self.publish_directory.same(&other.publish_directory)
    }
}

/// The part of the dependencies of a group that counts when they are compared.
fn bare_group(map: &Option<ResolvedDependencyMap>) -> (bare: Option<ResolvedDependencyMap>)
    ensures
        bare.deep_view() == table::bare_option::<Seq<char>, ResolvedDependencySpec>(
            map.deep_view(),
        ),
{
    match map {
        Some(map) => Some(map.with_bare_values()),
        None => None,
    }
}

impl Compared for ProjectSnapshot {
    open spec fn bare(value: ProjectModel) -> ProjectModel {
        ProjectModel {
            dependencies: table::bare_option::<Seq<char>, ResolvedDependencySpec>(
                value.dependencies,
            ),
            optional_dependencies: table::bare_option::<Seq<char>, ResolvedDependencySpec>(
                value.optional_dependencies,
            ),
            dev_dependencies: table::bare_option::<Seq<char>, ResolvedDependencySpec>(
                value.dev_dependencies,
            ),
            ..value
        }
    }

    fn to_bare(&self) -> ProjectSnapshot {
        ProjectSnapshot {
            specifiers: self.specifiers.duplicate(),
            dependencies: bare_group(&self.dependencies),
            optional_dependencies: bare_group(&self.optional_dependencies),
            dev_dependencies: bare_group(&self.dev_dependencies),
            dependencies_meta: self.dependencies_meta.duplicate(),
            publish_directory: self.publish_directory.duplicate(),
        }
    }
}

/// An importer of which nothing is known.
pub open spec fn empty_project() -> ProjectModel {
    ProjectModel {
        specifiers: None,
        dependencies: None,
        optional_dependencies: None,
        dev_dependencies: None,
        dependencies_meta: None,
        publish_directory: None,
    }
}

impl ProjectSnapshot {
    /// An importer of which nothing is known.
    pub fn empty() -> (snapshot: ProjectSnapshot)
        ensures
            snapshot.deep_view() == empty_project(),
    {
        ProjectSnapshot {
            specifiers: None,
            dependencies: None,
            optional_dependencies: None,
            dev_dependencies: None,
            dependencies_meta: None,
            publish_directory: None,
        }
    }

    /// The direct dependencies of one group; a lockfile keeps none for peers.
    pub fn get_map_by_group(&self, group: DependencyGroup) -> (map: Option<&ResolvedDependencyMap>)
        ensures
            map.deep_view() == group_map(self.deep_view(), group),
            match map {
                Some(map) => group_table(*self, group) == Some(*map),
                None => group_table(*self, group) is None,
            },
    {
        match group {
            DependencyGroup::Prod => self.dependencies.as_ref(),
            DependencyGroup::Optional => self.optional_dependencies.as_ref(),
            DependencyGroup::Dev => self.dev_dependencies.as_ref(),
            DependencyGroup::Peer => None,
        }
    }
}

/// The direct dependencies of one group.
pub open spec fn group_map(project: ProjectModel, group: DependencyGroup) -> Option<
    Map<Seq<char>, ResolvedSpecModel>,
> {
    match group {
        DependencyGroup::Prod => project.dependencies,
        DependencyGroup::Optional => project.optional_dependencies,
        DependencyGroup::Dev => project.dev_dependencies,
        DependencyGroup::Peer => None,
    }
}

/// The table of the direct dependencies of one group.
pub open spec fn group_table(project: ProjectSnapshot, group: DependencyGroup) -> Option<
    ResolvedDependencyMap,
> {
    match group {
        DependencyGroup::Prod => project.dependencies,
        DependencyGroup::Optional => project.optional_dependencies,
        DependencyGroup::Dev => project.dev_dependencies,
        DependencyGroup::Peer => None,
    }
}

/// The importers of a lockfile.
#[derive(Debug)]
pub enum RootProjectSnapshot {
    Single(ProjectSnapshot),
    Multi(TextMap<ProjectSnapshot>),
}

pub enum RootModel {
    Single(ProjectModel),
    Multi(Map<Seq<char>, ProjectModel>),
}

impl DeepView for RootProjectSnapshot {
    type V = RootModel;

    open spec fn deep_view(&self) -> RootModel {
        match self {
            RootProjectSnapshot::Single(snapshot) => RootModel::Single(snapshot.deep_view()),
            RootProjectSnapshot::Multi(importers) => RootModel::Multi(importers.deep_view()),
        }
    }
}

impl Value for RootProjectSnapshot {
    fn duplicate(&self) -> RootProjectSnapshot {
        match self {
            RootProjectSnapshot::Single(snapshot) => RootProjectSnapshot::Single(
                snapshot.duplicate(),
            ),
            RootProjectSnapshot::Multi(importers) => RootProjectSnapshot::Multi(
                importers.duplicate(),
            ),
        }
    }

    fn same(&self, other: &RootProjectSnapshot) -> bool {
        match (self, other) {
            (RootProjectSnapshot::Single(a), RootProjectSnapshot::Single(b)) => a.same(b),
            (RootProjectSnapshot::Multi(a), RootProjectSnapshot::Multi(b)) => a.same(b),
            _ => false,
        }
    }
}


/// Where the contents of a package come from.
#[derive(Debug)]
#[allow(inconsistent_fields)]
pub enum LockfileResolution {
    Tarball { tarball: String, integrity: Option<String> },
    Registry { integrity: String },
    Directory { directory: String },
    Git { repo: String, commit: String },
}

#[allow(inconsistent_fields)]
pub enum ResolutionModel {
    Tarball { tarball: Seq<char>, integrity: Option<Seq<char>> },
    Registry { integrity: Seq<char> },
    Directory { directory: Seq<char> },
    Git { repo: Seq<char>, commit: Seq<char> },
}

impl DeepView for LockfileResolution {
    type V = ResolutionModel;

    open spec fn deep_view(&self) -> ResolutionModel {
        match self {
            LockfileResolution::Tarball { tarball, integrity } => ResolutionModel::Tarball {
                tarball: tarball@,
                integrity: integrity.deep_view(),
            },
            LockfileResolution::Registry { integrity } => ResolutionModel::Registry {
                integrity: integrity@,
            },
            LockfileResolution::Directory { directory } => ResolutionModel::Directory {
                directory: directory@,
            },
            LockfileResolution::Git { repo, commit } => ResolutionModel::Git {
                repo: repo@,
                commit: commit@,
            },
        }
    }
}

impl Value for LockfileResolution {
    fn duplicate(&self) -> LockfileResolution {
        match self {
            LockfileResolution::Tarball { tarball, integrity } => LockfileResolution::Tarball {
                tarball: tarball.clone(),
                integrity: integrity.duplicate(),
            },
            LockfileResolution::Registry { integrity } => LockfileResolution::Registry {
                integrity: integrity.clone(),
            },
            LockfileResolution::Directory { directory } => LockfileResolution::Directory {
                directory: directory.clone(),
            },
            LockfileResolution::Git { repo, commit } => LockfileResolution::Git {
                repo: repo.clone(),
                commit: commit.clone(),
            },
        }
    }

    fn same(&self, other: &LockfileResolution) -> bool {
        match (self, other) {
            (
                LockfileResolution::Tarball { tarball: a, integrity: i },
                LockfileResolution::Tarball { tarball: b, integrity: j },
            ) => a.same(b) && i.same(j),
            (
                LockfileResolution::Registry { integrity: a },
                LockfileResolution::Registry { integrity: b },
            ) => a.same(b),
            (
                LockfileResolution::Directory { directory: a },
                LockfileResolution::Directory { directory: b },
            ) => a.same(b),
            (
                LockfileResolution::Git { repo: a, commit: c },
                LockfileResolution::Git { repo: b, commit: d },
            ) => a.same(b) && c.same(d),
            _ => false,
        }
    }
}

/// A reference to an optional dependency: how it is written and, where name
/// and reference can be read, the dependency that they stand for.
#[derive(Debug)]
pub struct OptionalReference {
    pub text: String,
    pub dependency: Option<PackageSnapshotDependency>,
}

pub struct OptionalReferenceModel {
    pub text: Seq<char>,
    pub dependency: Option<SnapshotDependencyModel>,
}

impl DeepView for OptionalReference {
    type V = OptionalReferenceModel;

    open spec fn deep_view(&self) -> OptionalReferenceModel {
        OptionalReferenceModel { text: self.text@, dependency: self.dependency.deep_view() }
    }
}

impl Value for OptionalReference {
    fn duplicate(&self) -> OptionalReference {
        OptionalReference { text: self.text.clone(), dependency: self.dependency.duplicate() }
    }

    fn same(&self, other: &OptionalReference) -> bool {
        self.text.same(&other.text) && self.dependency.same(&other.dependency)
    }
}

impl Compared for OptionalReference {
    open spec fn bare(value: OptionalReferenceModel) -> OptionalReferenceModel {
        OptionalReferenceModel {
            text: value.text,
            dependency: match value.dependency {
                Some(dependency) => Some(PackageSnapshotDependency::bare(dependency)),
                None => None,
            },
        }
    }

    fn to_bare(&self) -> OptionalReference {
        OptionalReference {
            text: self.text.clone(),
            dependency: match &self.dependency {
                Some(dependency) => Some(dependency.to_bare()),
                None => None,
            },
        }
    }
}

/// What a lockfile holds of one package.
#[derive(Debug)]
pub struct PackageSnapshot {
    pub resolution: LockfileResolution,
    pub id: Option<String>,
    pub name: Option<String>,
    pub version: Option<String>,
    pub engines: Option<TextMap<String>>,
    pub cpu: Option<Vec<String>>,
    pub os: Option<Vec<String>>,
    pub libc: Option<Vec<String>>,
    pub deprecated: Option<String>,
    pub has_bin: Option<bool>,
    pub prepare: Option<bool>,
    pub requires_build: Option<bool>,
    pub bundled_dependencies: Option<Json>,
    pub peer_dependencies: Option<TextMap<String>>,
    pub peer_dependencies_meta: Option<Json>,
    pub dependencies: Option<TextMap<PackageSnapshotDependency>>,
    pub optional_dependencies: Option<TextMap<OptionalReference>>,
    pub transitive_peer_dependencies: Option<Vec<String>>,
    pub dev: Option<bool>,
    pub optional: Option<bool>,
}

/// The mathematical value of a [`PackageSnapshot`].
pub struct PackageModel {
    pub resolution: ResolutionModel,
    pub id: Option<Seq<char>>,
    pub name: Option<Seq<char>>,
    pub version: Option<Seq<char>>,
    pub engines: Option<Map<Seq<char>, Seq<char>>>,
    pub cpu: Option<Seq<Seq<char>>>,
    pub os: Option<Seq<Seq<char>>>,
    pub libc: Option<Seq<Seq<char>>>,
    pub deprecated: Option<Seq<char>>,
    pub has_bin: Option<bool>,
    pub prepare: Option<bool>,
    pub requires_build: Option<bool>,
    pub bundled_dependencies: Option<JsonModel>,
    pub peer_dependencies: Option<Map<Seq<char>, Seq<char>>>,
    pub peer_dependencies_meta: Option<JsonModel>,
    pub dependencies: Option<Map<Seq<char>, SnapshotDependencyModel>>,
    pub optional_dependencies: Option<Map<Seq<char>, OptionalReferenceModel>>,
    pub transitive_peer_dependencies: Option<Seq<Seq<char>>>,
    pub dev: Option<bool>,
    pub optional: Option<bool>,
}

impl DeepView for PackageSnapshot {
    type V = PackageModel;

    open spec fn deep_view(&self) -> PackageModel {
        PackageModel {
            resolution: self.resolution.deep_view(),
            id: self.id.deep_view(),
            name: self.name.deep_view(),
            version: self.version.deep_view(),
            engines: self.engines.deep_view(),
            cpu: self.cpu.deep_view(),
            os: self.os.deep_view(),
            libc: self.libc.deep_view(),
            deprecated: self.deprecated.deep_view(),
            has_bin: self.has_bin.deep_view(),
            prepare: self.prepare.deep_view(),
            requires_build: self.requires_build.deep_view(),
            bundled_dependencies: self.bundled_dependencies.deep_view(),
            peer_dependencies: self.peer_dependencies.deep_view(),
            peer_dependencies_meta: self.peer_dependencies_meta.deep_view(),
            dependencies: self.dependencies.deep_view(),
            optional_dependencies: self.optional_dependencies.deep_view(),
            transitive_peer_dependencies: self.transitive_peer_dependencies.deep_view(),
            dev: self.dev.deep_view(),
            optional: self.optional.deep_view(),
        }
    }
}

impl Value for PackageSnapshot {
    fn duplicate(&self) -> PackageSnapshot {
        PackageSnapshot {
            resolution: self.resolution.duplicate(),
            id: self.id.duplicate(),
            name: self.name.duplicate(),
            version: self.version.duplicate(),
            engines: self.engines.duplicate(),
            cpu: self.cpu.duplicate(),
            os: self.os.duplicate(),
            libc: self.libc.duplicate(),
            deprecated: self.deprecated.duplicate(),
            has_bin: self.has_bin.duplicate(),
            prepare: self.prepare.duplicate(),
            requires_build: self.requires_build.duplicate(),
            bundled_dependencies: self.bundled_dependencies.duplicate(),
            peer_dependencies: self.peer_dependencies.duplicate(),
            peer_dependencies_meta: self.peer_dependencies_meta.duplicate(),
            dependencies: self.dependencies.duplicate(),
            optional_dependencies: self.optional_dependencies.duplicate(),
            transitive_peer_dependencies: self.transitive_peer_dependencies.duplicate(),
            dev: self.dev.duplicate(),
            optional: self.optional.duplicate(),
        }
    }

    fn same(&self, other: &PackageSnapshot) -> bool {
        self.resolution.same(&other.resolution)
            && self.id.same(&other.id)
            && self.name.same(&other.name)
            && self.version.same(&other.version)
            && self.engines.same(&other.engines)
            && self.cpu.same(&other.cpu)
            && self.os.same(&other.os)
            && self.libc.same(&other.libc)
            && self.deprecated.same(&other.deprecated)
            && self.has_bin.same(&other.has_bin)
            && self.prepare.same(&other.prepare)
            && self.requires_build.same(&other.requires_build)
            && self.bundled_dependencies.same(&other.bundled_dependencies)
            && self.peer_dependencies.same(&other.peer_dependencies)
            && self.peer_dependencies_meta.same(&other.peer_dependencies_meta)
            && self.dependencies.same(&other.dependencies)
            && self.optional_dependencies.same(&other.optional_dependencies)
            && self.transitive_peer_dependencies.same(&other.transitive_peer_dependencies)
            && self.dev.same(&other.dev)
            && self.optional.same(&other.optional)
    }
}

impl Compared for PackageSnapshot {
    open spec fn bare(value: PackageModel) -> PackageModel {
        PackageModel {
            dependencies: table::bare_option::<Seq<char>, PackageSnapshotDependency>(
                value.dependencies,
            ),
            optional_dependencies: table::bare_option::<Seq<char>, OptionalReference>(
                value.optional_dependencies,
            ),
            ..value
        }
    }

    fn to_bare(&self) -> PackageSnapshot {
        let mut bare = self.duplicate();
        bare.dependencies = match &self.dependencies {
            Some(dependencies) => Some(dependencies.with_bare_values()),
            None => None,
        };
        bare.optional_dependencies = match &self.optional_dependencies {
            Some(dependencies) => Some(dependencies.with_bare_values()),
            None => None,
        };
        bare
    }
}

/// The packages of a lockfile by their keys.
pub type PackageMap = Table<DependencyPath, PackageSnapshot>;

/// The keys of the packages of a lockfile, if it has some.
pub open spec fn full_keys(packages: Option<PackageMap>) -> Option<Map<PathId, PathModel>> {
    match packages {
        Some(packages) => Some(packages.full_keys()),
        None => None,
    }
}

/// The settings that a lockfile was written under.
#[derive(Debug, Clone, Copy, PartialEq, Eq, Structural)]
pub struct LockfileSettings {
    pub auto_install_peers: Option<bool>,
    pub exclude_links_from_lockfile: Option<bool>,
    pub peers_suffix_max_length: Option<u64>,
    pub inject_workspace_packages: Option<bool>,
}

impl DeepView for LockfileSettings {
    type V = LockfileSettings;

    open spec fn deep_view(&self) -> LockfileSettings {
        *self
    }
}

impl Value for LockfileSettings {
    fn duplicate(&self) -> LockfileSettings {
        *self
    }

    fn same(&self, other: &LockfileSettings) -> bool {
        self.auto_install_peers.same(&other.auto_install_peers)
            && self.exclude_links_from_lockfile.same(&other.exclude_links_from_lockfile)
            && self.peers_suffix_max_length.same(&other.peers_suffix_max_length)
            && self.inject_workspace_packages.same(&other.inject_workspace_packages)
    }
}

/// A lockfile.
#[derive(Debug)]
pub struct Lockfile {
    pub lockfile_version: (u16, u16),
    pub settings: Option<LockfileSettings>,
    pub never_built_dependencies: Option<Vec<String>>,
    pub ignored_optional_dependencies: Option<Vec<String>>,
    pub overrides: Option<TextMap<String>>,
    pub package_extensions_checksum: Option<String>,
    pub patched_dependencies: Option<TextMap<Json>>,
    pub pnpmfile_checksum: Option<String>,
    pub catalogs: Option<Json>,
    pub time: Option<Json>,
    pub extra_fields: TextMap<Json>,
    pub project_snapshot: RootProjectSnapshot,
    pub packages: Option<PackageMap>,
}

/// The mathematical value of a [`Lockfile`].
pub struct LockfileModel {
    pub lockfile_version: (u16, u16),
    pub settings: Option<LockfileSettings>,
    pub never_built_dependencies: Option<Seq<Seq<char>>>,
    pub ignored_optional_dependencies: Option<Seq<Seq<char>>>,
    pub overrides: Option<Map<Seq<char>, Seq<char>>>,
    pub package_extensions_checksum: Option<Seq<char>>,
    pub patched_dependencies: Option<Map<Seq<char>, JsonModel>>,
    pub pnpmfile_checksum: Option<Seq<char>>,
    pub catalogs: Option<JsonModel>,
    pub time: Option<JsonModel>,
    pub extra_fields: Map<Seq<char>, JsonModel>,
    pub project_snapshot: RootModel,
    pub packages: Option<Map<PathId, PackageModel>>,
    pub package_keys: Option<Map<PathId, PathModel>>,
}

impl DeepView for Lockfile {
    type V = LockfileModel;

    open spec fn deep_view(&self) -> LockfileModel {
        LockfileModel {
            lockfile_version: self.lockfile_version.deep_view(),
            settings: self.settings.deep_view(),
            never_built_dependencies: self.never_built_dependencies.deep_view(),
            ignored_optional_dependencies: self.ignored_optional_dependencies.deep_view(),
            overrides: self.overrides.deep_view(),
            package_extensions_checksum: self.package_extensions_checksum.deep_view(),
            patched_dependencies: self.patched_dependencies.deep_view(),
            pnpmfile_checksum: self.pnpmfile_checksum.deep_view(),
            catalogs: self.catalogs.deep_view(),
            time: self.time.deep_view(),
            extra_fields: self.extra_fields.deep_view(),
            project_snapshot: self.project_snapshot.deep_view(),
            packages: self.packages.deep_view(),
            package_keys: full_keys(self.packages),
        }
    }
}

impl Lockfile {
    /// A lockfile that holds the same.
    pub fn duplicate(&self) -> (copy: Lockfile)
        ensures
            copy.deep_view() == self.deep_view(),
    {
        Lockfile {
            lockfile_version: self.lockfile_version.duplicate(),
            settings: self.settings.duplicate(),
            never_built_dependencies: self.never_built_dependencies.duplicate(),
            ignored_optional_dependencies: self.ignored_optional_dependencies.duplicate(),
            overrides: self.overrides.duplicate(),
            package_extensions_checksum: self.package_extensions_checksum.duplicate(),
            patched_dependencies: self.patched_dependencies.duplicate(),
            pnpmfile_checksum: self.pnpmfile_checksum.duplicate(),
            catalogs: self.catalogs.duplicate(),
            time: self.time.duplicate(),
            extra_fields: self.extra_fields.duplicate(),
            project_snapshot: self.project_snapshot.duplicate(),
            packages: match &self.packages {
                Some(packages) => Some(packages.duplicate()),
                None => None,
            },
        }
    }
}

} // verus!
