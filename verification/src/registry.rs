//! The reference tables that the scanners consult: the config files of
//! each ecosystem, and the patterns by which a technology is recognised.

use crate::error::ScanError;
use crate::text::same_text;
use vstd::prelude::*;

verus! {

/// The config files that an ecosystem is known by.
#[derive(Debug, PartialEq, Eq)]
pub struct ConfigEntry {
    pub ecosystem: String,
    pub filenames: Vec<String>,
}

pub struct ConfigEntryView {
    pub ecosystem: Seq<char>,
    pub filenames: Seq<Seq<char>>,
}

impl DeepView for ConfigEntry {
    type V = ConfigEntryView;

    open spec fn deep_view(&self) -> ConfigEntryView {
        ConfigEntryView {
            ecosystem: self.ecosystem.deep_view(),
            filenames: self.filenames.deep_view(),
        }
    }
}

/// A technology and the patterns that give it away: patterns for the paths
/// of its config files, and patterns for the names of its dependencies.
#[derive(Debug, PartialEq, Eq)]
pub struct Tech {
    pub name: String,
    pub config_files: Vec<String>,
    pub dependency_names: Vec<String>,
}

pub struct TechView {
    pub name: Seq<char>,
    pub config_files: Seq<Seq<char>>,
    pub dependency_names: Seq<Seq<char>>,
}

impl DeepView for Tech {
    type V = TechView;

    open spec fn deep_view(&self) -> TechView {
        TechView {
            name: self.name.deep_view(),
            config_files: self.config_files.deep_view(),
            dependency_names: self.dependency_names.deep_view(),
        }
    }
}

/// Which of a technology's patterns a scan goes by.
#[derive(Debug, Clone, Copy, PartialEq, Eq, Structural)]
pub enum PatternKind {
    ConfigFile,
    DependencyName,
}

impl TechView {
    /// The technology's patterns of one kind.
    pub open spec fn patterns(self, kind: PatternKind) -> Seq<Seq<char>> {
        match kind {
            PatternKind::ConfigFile => self.config_files,
            PatternKind::DependencyName => self.dependency_names,
        }
    }
}

impl Tech {
    /// The technology's patterns of one kind.
    pub fn patterns(&self, kind: PatternKind) -> (patterns: &Vec<String>)
        ensures
            patterns.deep_view() == self.deep_view().patterns(kind),
    {
        match kind {
            PatternKind::ConfigFile => &self.config_files,
            PatternKind::DependencyName => &self.dependency_names,
        }
    }
}

/// No two of the technologies have the same name.
pub open spec fn names_distinct(entries: Seq<TechView>) -> bool {
    forall|i: int, j: int|
        0 <= i < j < entries.len() ==> (#[trigger] entries[i]).name != (#[trigger] entries[j]).name
}

/// The technologies that can be detected, in a fixed order, each under a
/// name of its own.
#[derive(Debug)]
pub struct TechRegistry {
    entries: Vec<Tech>,
}

impl View for TechRegistry {
    type V = Seq<TechView>;

    closed spec fn view(&self) -> Seq<TechView> {
        self.entries.deep_view()
    }
}

impl TechRegistry {
    #[verifier::type_invariant]
    pub closed spec fn wf(&self) -> bool {
        names_distinct(self.entries.deep_view())
    }

    /// The names of a registry are distinct.
    pub proof fn lemma_names_distinct(&self)
        requires
            self.wf(),
        ensures
            names_distinct(self@),
    {
    }

    /// Makes a registry of the entries, in their order. Fails when two of
    /// them have the same name.
    pub fn new(entries: Vec<Tech>) -> (made: Result<TechRegistry, ScanError>)
        ensures
            made is Ok <==> names_distinct(entries.deep_view()),
            made matches Ok(registry) ==> registry@ == entries.deep_view(),
            made matches Err(e) ==> e == ScanError::MalformedRegistry,
    {
        let mut j: usize = 0;
        while j < entries.len()
            invariant
                j <= entries.len(),
                forall|a: int, b: int|
                    0 <= a < b < j ==> (#[trigger] entries.deep_view()[a]).name
                        != (#[trigger] entries.deep_view()[b]).name,
            decreases entries.len() - j,
        {
            let mut i: usize = 0;
            while i < j
                invariant
                    i <= j < entries.len(),
                    forall|a: int|
                        0 <= a < i ==> (#[trigger] entries.deep_view()[a]).name
                            != entries.deep_view()[j as int].name,
                decreases j - i,
            {
                if same_text(entries[i].name.as_str(), entries[j].name.as_str()) {
                    assert(entries.deep_view()[i as int].name == entries.deep_view()[j as int].name);
                    return Err(ScanError::MalformedRegistry);
                }
                i += 1;
            }
            j += 1;
        }
        Ok(TechRegistry { entries })
    }

    /// How many technologies the registry holds.
    pub fn len(&self) -> (n: usize)
        ensures
            n == self@.len(),
    {
        self.entries.len()
    }

    /// The technology at place `i`.
    pub fn get(&self, i: usize) -> (tech: &Tech)
        requires
            i < self@.len(),
        ensures
            tech.deep_view() == self@[i as int],
    {
        &self.entries[i]
    }
}

} // verus!
