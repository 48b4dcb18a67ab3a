//! The scanners: each looks at one kind of evidence about the project and
//! says what it finds there.

use crate::converter::{ConverterOutput, ConverterOutputView, Dependency, DependencyView, License};
use crate::error::ScanError;
use crate::history::{GitEvent, GitScan, GitScanView};
use crate::pattern::{any_match, matched_by, set_compiles, set_matches, PatternSet};
use crate::registry::{
    names_distinct, ConfigEntry, ConfigEntryView, PatternKind, TechRegistry, TechView,
};
use crate::text::{ends_with, is_suffix, join, lemma_filter_selects, lowercase, to_lowercase};
use vstd::prelude::*;

verus! {

/// How many technologies of the registry a scan looks at, at most.
pub const TECH_CAP: usize = 40;

/// The patterns for a list of config file names: each name, tied to the
/// end of the path by a closing `$`.
pub open spec fn anchored(filenames: Seq<Seq<char>>) -> Seq<Seq<char>> {
    Seq::new(filenames.len(), |i: int| filenames[i] + "$"@)
}

/// The patterns for all config files of the table, ecosystem by ecosystem.
pub open spec fn config_patterns(configs: Seq<ConfigEntryView>) -> Seq<Seq<char>>
    decreases configs.len(),
{
    if configs.len() == 0 {
        Seq::empty()
    } else {
        config_patterns(configs.drop_last()) + anchored(configs.last().filenames)
    }
}

/// A scan for config files returns nothing but paths that it was given
/// and that a config pattern matches at their end, and it returns every
/// such path.
pub proof fn lemma_config_scan_selects(paths: Seq<Seq<char>>, configs: Seq<ConfigEntryView>)
    ensures
        ({
            let patterns = config_patterns(configs);
            let present = paths.filter(matched_by(patterns));
            &&& present.len() <= paths.len()
            &&& forall|k: int|
                0 <= k < present.len() ==> paths.contains(#[trigger] present[k]) && set_matches(
                    patterns,
                    present[k],
                )
            &&& forall|j: int|
                0 <= j < paths.len() && set_matches(patterns, paths[j]) ==> present.contains(
                    #[trigger] paths[j],
                )
        }),
{
    lemma_filter_selects(paths, matched_by(config_patterns(configs)));
}

fn build_config_patterns(configs: &Vec<ConfigEntry>) -> (patterns: Vec<String>)
    ensures
        patterns.deep_view() == config_patterns(configs.deep_view()),
{
    let ghost table = configs.deep_view();
    let mut patterns: Vec<String> = Vec::new();
    let mut i: usize = 0;
    assert(table.take(0) =~= Seq::empty());
    assert(patterns.deep_view() =~= Seq::empty());
    while i < configs.len()
        invariant
            i <= configs.len(),
            table == configs.deep_view(),
            patterns.deep_view() == config_patterns(table.take(i as int)),
        decreases configs.len() - i,
    {
        let names = &configs[i].filenames;
        let ghost before = patterns.deep_view();
        let mut j: usize = 0;
        while j < names.len()
            invariant
                j <= names.len(),
                patterns.deep_view() == before + anchored(names.deep_view().take(j as int)),
            decreases names.len() - j,
        {
            let ghost so_far = patterns.deep_view();
            patterns.push(join(names[j].as_str(), "$"));
            assert(patterns.deep_view() =~= so_far.push(names.deep_view()[j as int] + "$"@));
            assert(patterns.deep_view() =~= before + anchored(names.deep_view().take(j + 1)));
            j += 1;
        }
        proof {
            assert(names.deep_view().take(names.len() as int) =~= names.deep_view());
            assert(table.take(i + 1).drop_last() =~= table.take(i as int));
            assert(table.take(i + 1).last() == table[i as int]);
        }
        i += 1;
    }
    proof {
        assert(table.take(configs.len() as int) =~= table);
    }
    patterns
}

/// The items whose mark is set, in their order. An item without a mark is
/// left out.
pub open spec fn marked<A>(items: Seq<A>, marks: Seq<bool>) -> Seq<A>
    decreases items.len(),
{
    if items.len() == 0 {
        Seq::empty()
    } else if items.len() <= marks.len() && marks[items.len() - 1] {
        marked(items.drop_last(), marks).push(items.last())
    } else {
        marked(items.drop_last(), marks)
    }
}

/// Where every item has a mark, and the mark says whether the item passes a
/// test, the marked items are the items that pass.
pub proof fn lemma_marked_is_filter<A>(items: Seq<A>, marks: Seq<bool>, test: spec_fn(A) -> bool)
    requires
        items.len() <= marks.len(),
        forall|i: int| 0 <= i < items.len() ==> marks[i] == test(#[trigger] items[i]),
    ensures
        marked(items, marks) == items.filter(test),
    decreases items.len(),
{
    reveal(Seq::filter);
    if items.len() > 0 {
        let front = items.drop_last();
        assert forall|i: int| 0 <= i < front.len() implies marks[i] == test(#[trigger] front[i]) by {
            assert(front[i] == items[i]);
        }
        lemma_marked_is_filter(front, marks, test);
        assert(marks[items.len() - 1] == test(items[items.len() - 1]));
    }
}

/// Items beyond the last mark do not count.
pub proof fn lemma_marked_ignores_unmarked<A>(items: Seq<A>, marks: Seq<bool>)
    requires
        marks.len() <= items.len(),
    ensures
        marked(items, marks) == marked(items.take(marks.len() as int), marks),
    decreases items.len(),
{
    if items.len() > marks.len() {
        lemma_marked_ignores_unmarked(items.drop_last(), marks);
        assert(items.drop_last().take(marks.len() as int) =~= items.take(marks.len() as int));
    } else {
        assert(items.take(marks.len() as int) =~= items);
    }
}

/// Keeps the texts whose mark is set, in their order.
pub fn select_marked(texts: &Vec<String>, marks: &Vec<bool>) -> (kept: Vec<String>)
    ensures
        kept.deep_view() == marked(texts.deep_view(), marks@),
{
    let ghost all = texts.deep_view();
    let mut kept: Vec<String> = Vec::new();
    let mut i: usize = 0;
    assert(all.take(0) =~= Seq::empty());
    assert(kept.deep_view() =~= Seq::empty());
    while i < texts.len()
        invariant
            i <= texts.len(),
            all == texts.deep_view(),
            kept.deep_view() == marked(all.take(i as int), marks@),
        decreases texts.len() - i,
    {
        let ghost so_far = kept.deep_view();
        proof {
            assert(all.take(i + 1).drop_last() =~= all.take(i as int));
            assert(all.take(i + 1).last() == all[i as int]);
        }
        if i < marks.len() && marks[i] {
            kept.push(texts[i].clone());
            assert(kept.deep_view() =~= so_far.push(all[i as int]));
        }
        i += 1;
    }
    proof {
        assert(all.take(texts.len() as int) =~= all);
    }
    kept
}

/// Picks, from the paths of the project's files, those that end in the name
/// of a known config file. The paths come back in their order, each as
/// often as it was given. Fails when the names of the table do not compile
/// to patterns.
pub fn scan_configs(paths: &Vec<String>, configs: &Vec<ConfigEntry>) -> (scan: Result<
    Vec<String>,
    ScanError,
>)
    ensures
        scan is Ok <==> set_compiles(config_patterns(configs.deep_view())),
        scan matches Ok(present) ==> present.deep_view() == paths.deep_view().filter(
            matched_by(config_patterns(configs.deep_view())),
        ),
        scan matches Err(e) ==> e == ScanError::MalformedPattern,
{
    let patterns = build_config_patterns(configs);
    let set = match PatternSet::compile(&patterns) {
        Ok(set) => set,
        Err(e) => {
            return Err(e);
        },
    };
    let ghost all = paths.deep_view();
    let ghost test = matched_by(config_patterns(configs.deep_view()));
    let mut marks: Vec<bool> = Vec::new();
    let mut i: usize = 0;
    while i < paths.len()
        invariant
            i <= paths.len(),
            all == paths.deep_view(),
            set.patterns() == config_patterns(configs.deep_view()),
            test == matched_by(config_patterns(configs.deep_view())),
            marks.len() == i,
            forall|k: int| 0 <= k < i ==> marks[k] == test(#[trigger] all[k]),
        decreases paths.len() - i,
    {
        marks.push(set.is_match(paths[i].as_str()));
        i += 1;
    }
    proof {
        lemma_marked_is_filter(all, marks@, test);
    }
    Ok(select_marked(paths, &marks))
}

/// The technologies that a scan looks at: the first `TECH_CAP` of the
/// registry, or all of them where it holds fewer.
pub open spec fn evaluated(entries: Seq<TechView>) -> Seq<TechView> {
    entries.take(
        if entries.len() <= TECH_CAP {
            entries.len() as int
        } else {
            TECH_CAP as int
        },
    )
}

/// The test that a technology passes when one of its patterns of the given
/// kind matches in one of the texts.
pub open spec fn present_in(kind: PatternKind, texts: Seq<Seq<char>>) -> spec_fn(TechView) -> bool {
    |tech: TechView| any_match(tech.patterns(kind), texts)
}

/// The names of the technologies, in their order.
pub open spec fn names_of(entries: Seq<TechView>) -> Seq<Seq<char>> {
    Seq::new(entries.len(), |i: int| entries[i].name)
}

/// The names of the evaluated technologies that the texts give away, in the
/// registry's order.
pub open spec fn detected(entries: Seq<TechView>, kind: PatternKind, texts: Seq<Seq<char>>) -> Seq<
    Seq<char>,
> {
    names_of(evaluated(entries).filter(present_in(kind, texts)))
}

/// Every evaluated technology has patterns of the given kind that compile.
pub open spec fn all_compile(entries: Seq<TechView>, kind: PatternKind) -> bool {
    forall|i: int|
        0 <= i < evaluated(entries).len() ==> set_compiles(
            (#[trigger] evaluated(entries)[i]).patterns(kind),
        )
}

/// One of the technologies bears this name.
pub open spec fn is_name_of_one(entries: Seq<TechView>, name: Seq<char>) -> bool {
    exists|i: int| 0 <= i < entries.len() && (#[trigger] entries[i]).name == name
}

proof fn lemma_filtered_names(entries: Seq<TechView>, test: spec_fn(TechView) -> bool)
    ensures
        entries.filter(test).len() <= entries.len(),
        forall|k: int|
            0 <= k < entries.filter(test).len() ==> is_name_of_one(
                entries,
                #[trigger] names_of(entries.filter(test))[k],
            ),
        names_distinct(entries) ==> names_of(entries.filter(test)).no_duplicates(),
    decreases entries.len(),
{
    reveal(Seq::filter);
    if entries.len() > 0 {
        let front = entries.drop_last();
        lemma_filtered_names(front, test);
        let kept = names_of(entries.filter(test));
        let kept_front = names_of(front.filter(test));
        assert forall|k: int| 0 <= k < entries.filter(test).len() implies is_name_of_one(
            entries,
            #[trigger] kept[k],
        ) by {
            if k < front.filter(test).len() {
                assert(kept[k] == kept_front[k]);
                assert(is_name_of_one(front, kept_front[k]));
                let i = choose|i: int|
                    0 <= i < front.len() && (#[trigger] front[i]).name == kept_front[k];
                assert(entries[i].name == kept[k]);
            } else {
                assert(entries[entries.len() - 1].name == kept[k]);
            }
        }
        if names_distinct(entries) {
            assert(names_distinct(front)) by {
                assert forall|i: int, j: int| 0 <= i < j < front.len() implies (
                #[trigger] front[i]).name != (#[trigger] front[j]).name by {
                    assert(entries[i].name != entries[j].name);
                }
            }
            assert forall|a: int, b: int|
                0 <= a < kept.len() && 0 <= b < kept.len() && a != b implies kept[a] != kept[b] by {
                let n = front.filter(test).len();
                if a < n && b < n {
                    assert(kept[a] == kept_front[a]);
                    assert(kept[b] == kept_front[b]);
                } else {
                    let early = if a < n {
                        a
                    } else {
                        b
                    };
                    assert(kept[early] == kept_front[early]);
                    assert(is_name_of_one(front, kept_front[early]));
                    let i = choose|i: int|
                        0 <= i < front.len() && (#[trigger] front[i]).name == kept_front[early];
                    assert(entries[i].name != entries[entries.len() - 1].name);
                }
            }
        }
    }
}

/// What a scan for technologies returns is bounded by what it looked at:
/// never more names than technologies evaluated, so never more than
/// `TECH_CAP`, and only names of evaluated technologies. Where the
/// registry's names are distinct, no name comes twice.
pub proof fn lemma_detected_within_registry(
    entries: Seq<TechView>,
    kind: PatternKind,
    texts: Seq<Seq<char>>,
)
    ensures
        detected(entries, kind, texts).len() <= evaluated(entries).len() <= TECH_CAP,
        evaluated(entries).len() <= entries.len(),
        forall|k: int|
            0 <= k < detected(entries, kind, texts).len() ==> is_name_of_one(
                evaluated(entries),
                #[trigger] detected(entries, kind, texts)[k],
            ),
        names_distinct(entries) ==> detected(entries, kind, texts).no_duplicates(),
{
    let looked_at = evaluated(entries);
    let test = present_in(kind, texts);
    lemma_filtered_names(looked_at, test);
    if names_distinct(entries) {
        assert forall|i: int, j: int| 0 <= i < j < looked_at.len() implies (
        #[trigger] looked_at[i]).name != (#[trigger] looked_at[j]).name by {
            assert(entries[i].name != entries[j].name);
        }
    }
}

/// What the patterns of one technology say about the project.
#[derive(Debug, Clone, Copy, PartialEq, Eq, Structural)]
pub enum Finding {
    /// The patterns do not compile.
    Malformed,
    /// No pattern matches.
    Absent,
    /// A pattern matches.
    Present,
}

/// What a technology's patterns of the given kind say about the texts.
pub open spec fn finding_of(tech: TechView, kind: PatternKind, texts: Seq<Seq<char>>) -> Finding {
    if !set_compiles(tech.patterns(kind)) {
        Finding::Malformed
    } else if any_match(tech.patterns(kind), texts) {
        Finding::Present
    } else {
        Finding::Absent
    }
}

/// For each finding, whether it is a match.
pub open spec fn presence(findings: Seq<Finding>) -> Seq<bool> {
    Seq::new(findings.len(), |i: int| findings[i] is Present)
}

/// One of the findings on the evaluated technologies is that the patterns
/// do not compile.
pub open spec fn any_malformed(entries: Seq<TechView>, findings: Seq<Finding>) -> bool {
    exists|i: int|
        0 <= i < evaluated(entries).len() && i < findings.len() && #[trigger] findings[i]
            is Malformed
}

/// The names of the evaluated technologies that were found present.
pub open spec fn names_found(entries: Seq<TechView>, findings: Seq<Finding>) -> Seq<Seq<char>> {
    marked(names_of(evaluated(entries)), presence(findings))
}

/// Draws the conclusion from what was found for the technologies of the
/// registry, the finding at place `i` being that for the technology at
/// place `i`: the names of those found present among the first `TECH_CAP`,
/// in the registry's order, or an error where the patterns of one of these
/// did not compile.
pub fn conclude(techs: &TechRegistry, findings: &Vec<Finding>) -> (scan: Result<
    Vec<String>,
    ScanError,
>)
    ensures
        scan is Err <==> any_malformed(techs@, findings@),
        scan matches Ok(found) ==> found.deep_view() == names_found(techs@, findings@),
        scan matches Err(e) ==> e == ScanError::MalformedPattern,
{
    let limit = if techs.len() <= TECH_CAP {
        techs.len()
    } else {
        TECH_CAP
    };
    let ghost names = names_of(evaluated(techs@));
    let ghost marks = presence(findings@);
    let mut found: Vec<String> = Vec::new();
    let mut i: usize = 0;
    assert(names.take(0) =~= Seq::empty());
    assert(found.deep_view() =~= Seq::empty());
    while i < limit && i < findings.len()
        invariant
            i <= limit,
            i <= findings.len(),
            limit == evaluated(techs@).len(),
            limit <= techs@.len(),
            names == names_of(evaluated(techs@)),
            marks == presence(findings@),
            forall|k: int| 0 <= k < i ==> !(#[trigger] findings[k] is Malformed),
            found.deep_view() == marked(names.take(i as int), marks),
        decreases limit - i,
    {
        let ghost so_far = found.deep_view();
        proof {
            assert(names.take(i + 1).drop_last() =~= names.take(i as int));
            assert(names.take(i + 1).last() == techs@[i as int].name);
        }
        match findings[i] {
            Finding::Malformed => {
                return Err(ScanError::MalformedPattern);
            },
            Finding::Present => {
                found.push(techs.get(i).name.clone());
                assert(found.deep_view() =~= so_far.push(techs@[i as int].name));
            },
            Finding::Absent => {},
        }
        i += 1;
    }
    proof {
        if i == limit {
            assert(names.take(i as int) =~= names);
        } else {
            lemma_marked_ignores_unmarked(names, marks);
        }
    }
    Ok(found)
}

proof fn lemma_marked_names(entries: Seq<TechView>, marks: Seq<bool>, test: spec_fn(TechView) -> bool)
    requires
        entries.len() <= marks.len(),
        forall|i: int| 0 <= i < entries.len() ==> marks[i] == test(#[trigger] entries[i]),
    ensures
        marked(names_of(entries), marks) == names_of(entries.filter(test)),
    decreases entries.len(),
{
    reveal(Seq::filter);
    if entries.len() > 0 {
        let front = entries.drop_last();
        assert forall|i: int| 0 <= i < front.len() implies marks[i] == test(#[trigger] front[i]) by {
            assert(front[i] == entries[i]);
        }
        lemma_marked_names(front, marks, test);
        assert(names_of(entries).drop_last() =~= names_of(front));
        assert(marks[entries.len() - 1] == test(entries[entries.len() - 1]));
        if test(entries.last()) {
            assert(names_of(entries.filter(test)) =~= names_of(front.filter(test)).push(
                entries.last().name,
            ));
        }
    } else {
        assert(names_of(entries.filter(test)) =~= Seq::<Seq<char>>::empty());
    }
}

/// Finds out what the patterns of the evaluated technologies say about the
/// texts, technology by technology, up to the first whose patterns do not
/// compile.
fn examine(techs: &TechRegistry, kind: PatternKind, texts: &Vec<String>) -> (findings: Vec<Finding>)
    ensures
        findings.len() <= evaluated(techs@).len(),
        forall|i: int|
            0 <= i < findings.len() ==> #[trigger] findings[i] == finding_of(
                evaluated(techs@)[i],
                kind,
                texts.deep_view(),
            ),
        findings.len() < evaluated(techs@).len() ==> findings.len() > 0 && findings[findings.len()
            - 1] is Malformed,
{
    let limit = if techs.len() <= TECH_CAP {
        techs.len()
    } else {
        TECH_CAP
    };
    let mut findings: Vec<Finding> = Vec::new();
    let mut failed = false;
    let mut i: usize = 0;
    while i < limit && !failed
        invariant
            i <= limit,
            limit == evaluated(techs@).len(),
            limit <= techs@.len(),
            findings.len() == i,
            forall|k: int|
                0 <= k < i ==> #[trigger] findings[k] == finding_of(
                    evaluated(techs@)[k],
                    kind,
                    texts.deep_view(),
                ),
            failed ==> i > 0 && findings[i - 1] is Malformed,
        decreases limit - i,
    {
        let tech = techs.get(i);
        assert(evaluated(techs@)[i as int] == techs@[i as int]);
        let finding = match PatternSet::compile(tech.patterns(kind)) {
            Ok(set) => if set.matches_any(texts) {
                Finding::Present
            } else {
                Finding::Absent
            },
            Err(_) => Finding::Malformed,
        };
        findings.push(finding);
        if let Finding::Malformed = finding {
            failed = true;
        }
        i += 1;
    }
    findings
}

/// Looks at the first `TECH_CAP` technologies of the registry and names
/// those with a pattern of the given kind that matches in one of the
/// texts.
fn detect(techs: &TechRegistry, kind: PatternKind, texts: &Vec<String>) -> (scan: Result<
    Vec<String>,
    ScanError,
>)
    ensures
        scan is Ok <==> all_compile(techs@, kind),
        scan matches Ok(found) ==> found.deep_view() == detected(techs@, kind, texts.deep_view()),
        scan matches Err(e) ==> e == ScanError::MalformedPattern,
{
    let findings = examine(techs, kind, texts);
    proof {
        let looked_at = evaluated(techs@);
        let test = present_in(kind, texts.deep_view());
        if any_malformed(techs@, findings@) {
            let i = choose|i: int|
                0 <= i < looked_at.len() && i < findings.len() && #[trigger] findings[i]
                    is Malformed;
            assert(!set_compiles(looked_at[i].patterns(kind)));
        } else {
            assert(findings.len() == looked_at.len());
            assert forall|i: int| 0 <= i < looked_at.len() implies set_compiles(
                (#[trigger] looked_at[i]).patterns(kind),
            ) by {
                assert(findings[i] == finding_of(looked_at[i], kind, texts.deep_view()));
            }
            assert forall|i: int| 0 <= i < looked_at.len() implies presence(findings@)[i] == test(
                #[trigger] looked_at[i],
            ) by {
                assert(findings[i] == finding_of(looked_at[i], kind, texts.deep_view()));
            }
            lemma_marked_names(looked_at, presence(findings@), test);
        }
        if !all_compile(techs@, kind) {
            let i = choose|i: int|
                0 <= i < looked_at.len() && !set_compiles((#[trigger] looked_at[i]).patterns(kind));
            if i < findings.len() {
                assert(findings[i] == finding_of(looked_at[i], kind, texts.deep_view()));
            }
        }
    }
    conclude(techs, &findings)
}

/// Names the technologies whose config files are among the project's
/// paths: those of the first `TECH_CAP` of the registry with a config file
/// pattern that matches a path, in the registry's order. Fails when the
/// config file patterns of one of these technologies do not compile.
pub fn scan_techs(paths: &Vec<String>, techs: &TechRegistry) -> (scan: Result<
    Vec<String>,
    ScanError,
>)
    ensures
        scan is Ok <==> all_compile(techs@, PatternKind::ConfigFile),
        scan matches Ok(found) ==> {
            &&& found.deep_view() == detected(techs@, PatternKind::ConfigFile, paths.deep_view())
            &&& found.len() <= evaluated(techs@).len() <= TECH_CAP
            &&& forall|k: int|
                0 <= k < found.len() ==> is_name_of_one(
                    evaluated(techs@),
                    #[trigger] found.deep_view()[k],
                )
            &&& found.deep_view().no_duplicates()
        },
        scan matches Err(e) ==> e == ScanError::MalformedPattern,
{
    proof {
        use_type_invariant(techs);
        techs.lemma_names_distinct();
        lemma_detected_within_registry(techs@, PatternKind::ConfigFile, paths.deep_view());
    }
    detect(techs, PatternKind::ConfigFile, paths)
}

/// The names of the dependencies, in their order.
pub open spec fn dependency_names(dependencies: Seq<DependencyView>) -> Seq<Seq<char>> {
    Seq::new(dependencies.len(), |i: int| dependencies[i].name)
}

/// Names the technologies that the project's dependencies give away: those
/// of the first `TECH_CAP` of the registry with a dependency pattern that
/// matches the name of a declared dependency, in the registry's order.
/// Fails when the dependency patterns of one of these technologies do not
/// compile.
pub fn scan_dependencies(dependencies: &Vec<Dependency>, techs: &TechRegistry) -> (scan: Result<
    Vec<String>,
    ScanError,
>)
    ensures
        scan is Ok <==> all_compile(techs@, PatternKind::DependencyName),
        scan matches Ok(found) ==> {
            &&& found.deep_view() == detected(
                techs@,
                PatternKind::DependencyName,
                dependency_names(dependencies.deep_view()),
            )
            &&& found.len() <= evaluated(techs@).len() <= TECH_CAP
            &&& forall|k: int|
                0 <= k < found.len() ==> is_name_of_one(
                    evaluated(techs@),
                    #[trigger] found.deep_view()[k],
                )
            &&& found.deep_view().no_duplicates()
        },
        scan matches Err(e) ==> e == ScanError::MalformedPattern,
{
    let mut names: Vec<String> = Vec::new();
    let mut i: usize = 0;
    assert(names.deep_view() =~= dependency_names(dependencies.deep_view().take(0)));
    while i < dependencies.len()
        invariant
            i <= dependencies.len(),
            names.deep_view() == dependency_names(dependencies.deep_view().take(i as int)),
        decreases dependencies.len() - i,
    {
        let ghost so_far = names.deep_view();
        names.push(dependencies[i].name.clone());
        assert(names.deep_view() =~= so_far.push(dependencies.deep_view()[i as int].name));
        assert(names.deep_view() =~= dependency_names(dependencies.deep_view().take(i + 1)));
        i += 1;
    }
    proof {
        assert(dependencies.deep_view().take(dependencies.len() as int)
            =~= dependencies.deep_view());
        use_type_invariant(techs);
        techs.lemma_names_distinct();
        lemma_detected_within_registry(techs@, PatternKind::DependencyName, names.deep_view());
    }
    detect(techs, PatternKind::DependencyName, &names)
}

/// Follows a whole scan of the project's history: starts at
/// `project_location`, takes in the events in their order, and hands out
/// the record that they leave.
pub fn scan_git(project_location: &str, events: &Vec<GitEvent>) -> (record: ConverterOutput)
    ensures
        record.deep_view() == GitScanView::start(project_location@).after_all(
            events.deep_view(),
        ).record,
{
    let ghost all = events.deep_view();
    let mut scan = GitScan::new(project_location);
    let mut i: usize = 0;
    assert(all.take(0) =~= Seq::empty());
    while i < events.len()
        invariant
            i <= events.len(),
            all == events.deep_view(),
            scan.deep_view() == GitScanView::start(project_location@).after_all(all.take(i as int)),
        decreases events.len() - i,
    {
        scan.advance(&events[i]);
        proof {
            assert(all.take(i + 1).drop_last() =~= all.take(i as int));
            assert(all.take(i + 1).last() == all[i as int]);
        }
        i += 1;
    }
    proof {
        assert(all.take(events.len() as int) =~= all);
    }
    scan.finish()
}

/// The names that a license file goes by, in lowercase.
pub open spec fn license_names() -> Seq<Seq<char>> {
    seq![
        "license"@,
        "license.txt"@,
        "license.md"@,
        "license.html"@,
        "license.yml"@,
        "license.yaml"@,
        "license.json"@,
        "copying"@,
        "copying.txt"@,
        "copying.md"@,
        "copying.html"@,
        "copying.yml"@,
        "copying.yaml"@,
        "copying.json"@,
        "notice"@,
        "notice.txt"@,
        "notice.md"@,
        "notice.html"@,
        "notice.yml"@,
        "notice.yaml"@,
        "notice.json"@,
    ]
}

/// A text ends with one of the license names.
pub open spec fn has_license_name(lower: Seq<char>) -> bool {
    exists|k: int| 0 <= k < license_names().len() && is_suffix(#[trigger] license_names()[k], lower)
}

/// A file is a license file when its path, in lowercase, ends with one of
/// the license names.
pub open spec fn is_license_file(path: Seq<char>) -> bool {
    has_license_name(lowercase(path))
}

/// The place of the first text that ends with a license name, or the
/// number of texts where none does.
pub open spec fn first_named(lowered: Seq<Seq<char>>) -> int
    decreases lowered.len(),
{
    if lowered.len() == 0 {
        0
    } else if has_license_name(lowered.first()) {
        0
    } else {
        1 + first_named(lowered.drop_first())
    }
}

/// The paths in lowercase.
pub open spec fn lowered(paths: Seq<Seq<char>>) -> Seq<Seq<char>> {
    Seq::new(paths.len(), |i: int| lowercase(paths[i]))
}

/// The place of the first license file among the files, or their number
/// where none is one.
pub open spec fn first_license_file(files: Seq<Seq<char>>) -> int {
    first_named(lowered(files))
}

fn known_license_names() -> (names: Vec<&'static str>)
    ensures
        names.len() == license_names().len(),
        forall|k: int| 0 <= k < names.len() ==> (#[trigger] names[k])@ == license_names()[k],
{
    let mut names: Vec<&'static str> = Vec::new();
    names.push("license");
    names.push("license.txt");
    names.push("license.md");
    names.push("license.html");
    names.push("license.yml");
    names.push("license.yaml");
    names.push("license.json");
    names.push("copying");
    names.push("copying.txt");
    names.push("copying.md");
    names.push("copying.html");
    names.push("copying.yml");
    names.push("copying.yaml");
    names.push("copying.json");
    names.push("notice");
    names.push("notice.txt");
    names.push("notice.md");
    names.push("notice.html");
    names.push("notice.yml");
    names.push("notice.yaml");
    names.push("notice.json");
    names
}

/// Whether a text, taken as it is, ends with one of the license names.
pub fn is_license_name(lower: &str) -> (yes: bool)
    ensures
        yes == has_license_name(lower@),
{
    let names = known_license_names();
    let mut k: usize = 0;
    while k < names.len()
        invariant
            k <= names.len(),
            names.len() == license_names().len(),
            forall|j: int| 0 <= j < names.len() ==> (#[trigger] names[j])@ == license_names()[j],
            forall|j: int| 0 <= j < k ==> !is_suffix(#[trigger] license_names()[j], lower@),
        decreases names.len() - k,
    {
        if ends_with(lower, names[k]) {
            assert(is_suffix(license_names()[k as int], lower@));
            return true;
        }
        k += 1;
    }
    false
}

/// Whether the path is that of a license file.
pub fn names_license(path: &str) -> (yes: bool)
    ensures
        yes == is_license_file(path@),
{
    let lower = to_lowercase(path);
    is_license_name(lower.as_str())
}

/// How many files have a lowercase form beside them.
pub open spec fn paired(files: Seq<Seq<char>>, lowered: Seq<Seq<char>>) -> int {
    if files.len() <= lowered.len() {
        files.len() as int
    } else {
        lowered.len() as int
    }
}

/// Picks the license file among the files, each given with its path in
/// lowercase at the same place: the first whose lowercase path ends with a
/// license name. Fails when there is none.
pub fn find_license_file(files: &Vec<String>, lowered: &Vec<String>) -> (scan: Result<
    String,
    ScanError,
>)
    ensures
        ({
            let n = paired(files.deep_view(), lowered.deep_view());
            let at = first_named(lowered.deep_view().take(n));
            &&& scan is Ok <==> at < n
            &&& scan matches Ok(path) ==> path@ == files.deep_view()[at]
            &&& scan matches Err(e) ==> e == ScanError::LicenseNotFound
        }),
{
    let n = if files.len() <= lowered.len() {
        files.len()
    } else {
        lowered.len()
    };
    let ghost all = lowered.deep_view().take(n as int);
    let mut i: usize = 0;
    assert(all.skip(0) =~= all);
    while i < n
        invariant
            i <= n,
            n <= files.len(),
            n <= lowered.len(),
            n == paired(files.deep_view(), lowered.deep_view()),
            all == lowered.deep_view().take(n as int),
            first_named(all) == i + first_named(all.skip(i as int)),
        decreases n - i,
    {
        proof {
            assert(all.skip(i as int).first() == all[i as int]);
            assert(all.skip(i as int).drop_first() =~= all.skip(i + 1));
        }
        if is_license_name(lowered[i].as_str()) {
            assert(all[i as int] == lowered.deep_view()[i as int]);
            assert(first_named(all.skip(i as int)) == 0);
            return Ok(files[i].clone());
        }
        assert(all[i as int] == lowered.deep_view()[i as int]);
        i += 1;
    }
    Err(ScanError::LicenseNotFound)
}

/// Finds the project's license file among the files of its folder, given
/// in the order of the listing: the first whose path, in lowercase, ends
/// with a license name. Fails when there is none.
pub fn scan_license_file(files: &Vec<String>) -> (scan: Result<String, ScanError>)
    ensures
        scan is Ok <==> first_license_file(files.deep_view()) < files.len(),
        scan matches Ok(path) ==> path@ == files.deep_view()[first_license_file(files.deep_view())],
        scan matches Err(e) ==> e == ScanError::LicenseNotFound,
{
    let mut lower: Vec<String> = Vec::new();
    let mut i: usize = 0;
    while i < files.len()
        invariant
            i <= files.len(),
            lower.len() == i,
            forall|k: int|
                0 <= k < i ==> #[trigger] lower.deep_view()[k] == lowercase(files.deep_view()[k]),
        decreases files.len() - i,
    {
        let ghost so_far = lower.deep_view();
        let text = to_lowercase(files[i].as_str());
        lower.push(text);
        assert(lower.deep_view() =~= so_far.push(lowercase(files.deep_view()[i as int])));
        i += 1;
    }
    proof {
        assert(lower.deep_view() =~= lowered(files.deep_view()));
        assert(lower.deep_view().take(files.len() as int) =~= lower.deep_view());
    }
    find_license_file(files, &lower)
}

/// The record of a license scan: the classified license and nothing else.
pub fn license_record(license: License) -> (record: ConverterOutput)
    ensures
        record.deep_view() == (ConverterOutputView {
            license: Some(license.deep_view()),
            ..ConverterOutputView::empty()
        }),
{
    let mut record = ConverterOutput::empty();
    record.license = Some(license);
    record
}

} // verus!
