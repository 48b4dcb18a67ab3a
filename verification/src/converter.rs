//! The metadata record that every source of information fills in, and the
//! values it is made of.
//!
//! Contracts throughout the crate speak of these types through their deep
//! views, in which every string is a sequence of characters.

use vstd::prelude::*;

verus! {

/// Copies an optional string.
pub fn copy_text(text: &Option<String>) -> (copy: Option<String>)
    ensures
        copy == *text,
{
    match text {
        Some(s) => Some(s.clone()),
        None => None,
    }
}

/// Whether two optional strings are the same.
pub fn same_optional_text(a: &Option<String>, b: &Option<String>) -> (same: bool)
    ensures
        same == (a.deep_view() == b.deep_view()),
{
    match (a, b) {
        (Some(x), Some(y)) => *x == *y,
        (None, None) => true,
        _ => false,
    }
}

/// A person credited for work on the project.
#[derive(Debug, PartialEq, Eq)]
pub struct Contributor {
    pub name: Option<String>,
    pub email: Option<String>,
    pub url: Option<String>,
}

pub struct ContributorView {
    pub name: Option<Seq<char>>,
    pub email: Option<Seq<char>>,
    pub url: Option<Seq<char>>,
}

impl DeepView for Contributor {
    type V = ContributorView;

    open spec fn deep_view(&self) -> ContributorView {
        ContributorView {
            name: self.name.deep_view(),
            email: self.email.deep_view(),
            url: self.url.deep_view(),
        }
    }
}

impl Clone for Contributor {
    fn clone(&self) -> (copy: Self)
        ensures
            copy == *self,
    {
        Contributor {
            name: copy_text(&self.name),
            email: copy_text(&self.email),
            url: copy_text(&self.url),
        }
    }
}

impl ContributorView {
    /// Two contributors are the same person when both name and email agree
    /// exactly; the url plays no part.
    pub open spec fn same_identity(self, other: ContributorView) -> bool {
        self.name == other.name && self.email == other.email
    }
}

impl Contributor {
    /// Whether the two are the same person: name and email agree exactly,
    /// case included.
    pub fn same_identity(&self, other: &Contributor) -> (same: bool)
        ensures
            same == self.deep_view().same_identity(other.deep_view()),
    {
        same_optional_text(&self.name, &other.name) && same_optional_text(&self.email, &other.email)
    }
}

/// The contributors of a project, the most active first.
pub type Contributors = Vec<Contributor>;

/// Copies a list of contributors.
pub fn copy_contributors(list: &Vec<Contributor>) -> (copy: Vec<Contributor>)
    ensures
        copy@ == list@,
{
    let mut copy: Vec<Contributor> = Vec::new();
    let mut i: usize = 0;
    while i < list.len()
        invariant
            i <= list.len(),
            copy@ == list@.take(i as int),
        decreases list.len() - i,
    {
        copy.push(list[i].clone());
        assert(list@.take(i + 1) == list@.take(i as int).push(list[i as int]));
        i += 1;
    }
    assert(list@.take(list.len() as int) == list@);
    copy
}

/// The hosting platforms that a remote URL can point to.
#[derive(Debug, Clone, Copy, PartialEq, Eq, Structural)]
pub enum RepositoryPlatform {
    Github,
    Gitlab,
    Bitbucket,
    Unknown,
}

impl DeepView for RepositoryPlatform {
    type V = RepositoryPlatform;

    open spec fn deep_view(&self) -> RepositoryPlatform {
        *self
    }
}

/// Where the project's code is hosted.
#[derive(Debug, PartialEq, Eq)]
pub struct Repository {
    pub url: String,
    pub platform: RepositoryPlatform,
    pub name: Option<String>,
}

pub struct RepositoryView {
    pub url: Seq<char>,
    pub platform: RepositoryPlatform,
    pub name: Option<Seq<char>>,
}

impl DeepView for Repository {
    type V = RepositoryView;

    open spec fn deep_view(&self) -> RepositoryView {
        RepositoryView {
            url: self.url.deep_view(),
            platform: self.platform,
            name: self.name.deep_view(),
        }
    }
}

impl Clone for Repository {
    fn clone(&self) -> (copy: Self)
        ensures
            copy == *self,
    {
        Repository { url: self.url.clone(), platform: self.platform, name: copy_text(&self.name) }
    }
}

/// A dependency that a config file declares.
#[derive(Debug, PartialEq, Eq)]
pub struct Dependency {
    pub name: String,
    pub version: Option<String>,
}

pub struct DependencyView {
    pub name: Seq<char>,
    pub version: Option<Seq<char>>,
}

impl DeepView for Dependency {
    type V = DependencyView;

    open spec fn deep_view(&self) -> DependencyView {
        DependencyView { name: self.name.deep_view(), version: self.version.deep_view() }
    }
}

impl Clone for Dependency {
    fn clone(&self) -> (copy: Self)
        ensures
            copy == *self,
    {
        Dependency { name: self.name.clone(), version: copy_text(&self.version) }
    }
}

/// The dependencies that a project declares.
pub type Dependencies = Vec<Dependency>;

/// Copies a list of dependencies.
pub fn copy_dependencies(list: &Vec<Dependency>) -> (copy: Vec<Dependency>)
    ensures
        copy@ == list@,
{
    let mut copy: Vec<Dependency> = Vec::new();
    let mut i: usize = 0;
    while i < list.len()
        invariant
            i <= list.len(),
            copy@ == list@.take(i as int),
        decreases list.len() - i,
    {
        copy.push(list[i].clone());
        assert(list@.take(i + 1) == list@.take(i as int).push(list[i as int]));
        i += 1;
    }
    assert(list@.take(list.len() as int) == list@);
    copy
}

/// A classified license: its kind, and who holds the copyright since when.
#[derive(Debug, PartialEq, Eq)]
pub struct License {
    pub kind: String,
    pub holder: Option<String>,
    pub year: Option<String>,
}

pub struct LicenseView {
    pub kind: Seq<char>,
    pub holder: Option<Seq<char>>,
    pub year: Option<Seq<char>>,
}

impl DeepView for License {
    type V = LicenseView;

    open spec fn deep_view(&self) -> LicenseView {
        LicenseView {
            kind: self.kind.deep_view(),
            holder: self.holder.deep_view(),
            year: self.year.deep_view(),
        }
    }
}

impl Clone for License {
    fn clone(&self) -> (copy: Self)
        ensures
            copy == *self,
    {
        License {
            kind: self.kind.clone(),
            holder: copy_text(&self.holder),
            year: copy_text(&self.year),
        }
    }
}

/// What one source knows about the project. A field that is `None` means
/// that the source has no opinion on it.
#[derive(Debug, PartialEq, Eq)]
pub struct ConverterOutput {
    /// The file or store that this record was read from.
    pub source_config_file_path: Option<String>,
    pub name: Option<String>,
    pub description: Option<String>,
    pub version: Option<String>,
    pub contributors: Option<Vec<Contributor>>,
    pub repository: Option<Repository>,
    pub license: Option<License>,
    pub dependencies: Option<Vec<Dependency>>,
}

pub struct ConverterOutputView {
    pub source_config_file_path: Option<Seq<char>>,
    pub name: Option<Seq<char>>,
    pub description: Option<Seq<char>>,
    pub version: Option<Seq<char>>,
    pub contributors: Option<Seq<ContributorView>>,
    pub repository: Option<RepositoryView>,
    pub license: Option<LicenseView>,
    pub dependencies: Option<Seq<DependencyView>>,
}

impl DeepView for ConverterOutput {
    type V = ConverterOutputView;

    open spec fn deep_view(&self) -> ConverterOutputView {
        ConverterOutputView {
            source_config_file_path: self.source_config_file_path.deep_view(),
            name: self.name.deep_view(),
            description: self.description.deep_view(),
            version: self.version.deep_view(),
            contributors: self.contributors.deep_view(),
            repository: self.repository.deep_view(),
            license: self.license.deep_view(),
            dependencies: self.dependencies.deep_view(),
        }
    }
}

impl Clone for ConverterOutput {
    fn clone(&self) -> (copy: Self)
        ensures
            copy.deep_view() == self.deep_view(),
    {
        ConverterOutput {
            source_config_file_path: copy_text(&self.source_config_file_path),
            name: copy_text(&self.name),
            description: copy_text(&self.description),
            version: copy_text(&self.version),
            contributors: match &self.contributors {
                Some(list) => Some(copy_contributors(list)),
                None => None,
            },
            repository: match &self.repository {
                Some(repository) => Some(repository.clone()),
                None => None,
            },
            license: match &self.license {
                Some(license) => Some(license.clone()),
                None => None,
            },
            dependencies: match &self.dependencies {
                Some(list) => Some(copy_dependencies(list)),
                None => None,
            },
        }
    }
}

impl ConverterOutputView {
    /// The record in which no field is set.
    pub open spec fn empty() -> ConverterOutputView {
        ConverterOutputView {
            source_config_file_path: None,
            name: None,
            description: None,
            version: None,
            contributors: None,
            repository: None,
            license: None,
            dependencies: None,
        }
    }
}

impl ConverterOutput {
    /// The record in which no field is set.
    pub fn empty() -> (record: ConverterOutput)
        ensures
            record.deep_view() == ConverterOutputView::empty(),
    {
        ConverterOutput {
            source_config_file_path: None,
            name: None,
            description: None,
            version: None,
            contributors: None,
            repository: None,
            license: None,
            dependencies: None,
        }
    }
}

} // verus!
