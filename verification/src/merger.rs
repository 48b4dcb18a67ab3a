//! Merges the records of several sources into one, field by field.
//!
//! Where the sources give one value for a field, that value is taken; where
//! they give several, someone has to choose. The merger does not ask: it
//! says which fields need a choice and among which candidates, and takes the
//! answers as plain indexes.

use crate::converter::{
    copy_contributors, copy_text, same_optional_text, Contributor, ContributorView,
    ConverterOutput, ConverterOutputView,
};
use crate::text::join;
use vstd::prelude::*;

verus! {

/// A value that a field of the record can hold, with what merging needs of
/// it: a test for equality and a copy.
pub trait Mergeable: DeepView + Sized {
    /// Whether the two values are the same.
    fn same(&self, other: &Self) -> (same: bool)
        ensures
            same == (self.deep_view() == other.deep_view()),
    ;

    /// A copy of the value.
    fn duplicate(&self) -> (copy: Self)
        ensures
            copy.deep_view() == self.deep_view(),
    ;
}

impl Mergeable for String {
    fn same(&self, other: &Self) -> (same: bool) {
        *self == *other
    }

    fn duplicate(&self) -> (copy: Self) {
        self.clone()
    }
}

/// Whether two contributors agree in every field.
pub fn same_contributor(a: &Contributor, b: &Contributor) -> (same: bool)
    ensures
        same == (a.deep_view() == b.deep_view()),
{
    same_optional_text(&a.name, &b.name) && same_optional_text(&a.email, &b.email)
        && same_optional_text(&a.url, &b.url)
}

impl Mergeable for Vec<Contributor> {
    fn same(&self, other: &Self) -> (same: bool) {
        if self.len() != other.len() {
            assert(self.deep_view().len() != other.deep_view().len());
            return false;
        }
        let mut i: usize = 0;
        while i < self.len()
            invariant
                i <= self.len(),
                self.len() == other.len(),
                forall|k: int| 0 <= k < i ==> self.deep_view()[k] == other.deep_view()[k],
            decreases self.len() - i,
        {
            if !same_contributor(&self[i], &other[i]) {
                assert(self.deep_view()[i as int] != other.deep_view()[i as int]);
                return false;
            }
            i += 1;
        }
        assert(self.deep_view() =~= other.deep_view());
        true
    }

    fn duplicate(&self) -> (copy: Self) {
        copy_contributors(self)
    }
}

/// The values that are there, in their order.
pub open spec fn present<V>(values: Seq<Option<V>>) -> Seq<V>
    decreases values.len(),
{
    if values.len() == 0 {
        Seq::empty()
    } else {
        match values.last() {
            Some(value) => present(values.drop_last()).push(value),
            None => present(values.drop_last()),
        }
    }
}

/// The values without repetitions: each stands where it stood first.
pub open spec fn distinct<V>(values: Seq<V>) -> Seq<V>
    decreases values.len(),
{
    if values.len() == 0 {
        Seq::empty()
    } else if distinct(values.drop_last()).contains(values.last()) {
        distinct(values.drop_last())
    } else {
        distinct(values.drop_last()).push(values.last())
    }
}

/// The question to put when a field has conflicting values.
pub open spec fn prompt_label(field_name: Seq<char>) -> Seq<char> {
    "Found conflicting values for field "@ + field_name + ", select one:"@
}

/// What the sources say about one field, taken together.
#[derive(Debug, PartialEq, Eq)]
pub enum FieldMerge<T> {
    /// No source has a value.
    Absent,
    /// The sources hold one value.
    Single(T),
    /// The sources hold several values, and one of them is to be chosen:
    /// the question to put, and the values to choose from, which are the
    /// values of the sources in their order, each shown once.
    Conflict { label: String, candidates: Vec<T> },
}

pub enum FieldMergeView<V> {
    Absent,
    Single(V),
    Conflict { label: Seq<char>, candidates: Seq<V> },
}

impl<T: DeepView> DeepView for FieldMerge<T> {
    type V = FieldMergeView<T::V>;

    open spec fn deep_view(&self) -> FieldMergeView<T::V> {
        match self {
            FieldMerge::Absent => FieldMergeView::Absent,
            FieldMerge::Single(value) => FieldMergeView::Single(value.deep_view()),
            FieldMerge::Conflict { label, candidates } => FieldMergeView::Conflict {
                label: label.deep_view(),
                candidates: candidates.deep_view(),
            },
        }
    }
}

/// What the values of one field come to: nothing where none is there, the
/// value where one is there, and a choice where two or more are there, be
/// they equal or not.
pub open spec fn decided<V>(field_name: Seq<char>, values: Seq<Option<V>>) -> FieldMergeView<V> {
    if present(values).len() == 0 {
        FieldMergeView::Absent
    } else if present(values).len() == 1 {
        FieldMergeView::Single(present(values)[0])
    } else {
        FieldMergeView::Conflict {
            label: prompt_label(field_name),
            candidates: distinct(present(values)),
        }
    }
}

impl<V> FieldMergeView<V> {
    /// Whether a choice is needed.
    pub open spec fn is_conflict(self) -> bool {
        self is Conflict
    }

    /// The field's value once the choice is made. `selection` is the index
    /// of the chosen candidate; where no selection was obtained, or one
    /// that names no candidate, the first candidate is taken.
    pub open spec fn settled(self, selection: Option<usize>) -> Option<V> {
        match self {
            FieldMergeView::Absent => None,
            FieldMergeView::Single(value) => Some(value),
            FieldMergeView::Conflict { label, candidates } => if candidates.len() == 0 {
                None
            } else {
                match selection {
                    Some(i) => if i < candidates.len() {
                        Some(candidates[i as int])
                    } else {
                        Some(candidates[0])
                    },
                    None => Some(candidates[0]),
                }
            },
        }
    }
}

impl<T: DeepView> FieldMerge<T> {
    /// Whether a choice is needed.
    pub fn is_conflict(&self) -> (yes: bool)
        ensures
            yes == self.deep_view().is_conflict(),
    {
        match self {
            FieldMerge::Conflict { .. } => true,
            _ => false,
        }
    }

    /// The field's value once the choice is made. `selection` is the index
    /// of the chosen candidate; where no selection was obtained, or one
    /// that names no candidate, the first candidate is taken.
    pub fn settle(self, selection: Option<usize>) -> (value: Option<T>)
        ensures
            value.deep_view() == self.deep_view().settled(selection),
    {
        match self {
            FieldMerge::Absent => None,
            FieldMerge::Single(value) => Some(value),
            FieldMerge::Conflict { label: _, candidates } => {
                let mut candidates = candidates;
                if candidates.len() == 0 {
                    None
                } else {
                    let at: usize = match selection {
                        Some(i) => if i < candidates.len() {
                            i
                        } else {
                            0
                        },
                        None => 0,
                    };
                    Some(candidates.swap_remove(at))
                }
            },
        }
    }
}

fn holds<T: Mergeable>(values: &Vec<T>, value: &T) -> (yes: bool)
    ensures
        yes == values.deep_view().contains(value.deep_view()),
{
    let mut i: usize = 0;
    while i < values.len()
        invariant
            i <= values.len(),
            forall|k: int| 0 <= k < i ==> values.deep_view()[k] != value.deep_view(),
        decreases values.len() - i,
    {
        if values[i].same(value) {
            assert(values.deep_view()[i as int] == value.deep_view());
            return true;
        }
        i += 1;
    }
    false
}

fn collect_present<T: Mergeable>(values: &Vec<Option<T>>) -> (found: Vec<T>)
    ensures
        found.deep_view() == present(values.deep_view()),
{
    let ghost all = values.deep_view();
    let mut found: Vec<T> = Vec::new();
    let mut i: usize = 0;
    assert(all.take(0) =~= Seq::empty());
    assert(found.deep_view() =~= Seq::empty());
    while i < values.len()
        invariant
            i <= values.len(),
            all == values.deep_view(),
            found.deep_view() == present(all.take(i as int)),
        decreases values.len() - i,
    {
        let ghost so_far = found.deep_view();
        proof {
            assert(all.take(i + 1).drop_last() =~= all.take(i as int));
            assert(all.take(i + 1).last() == all[i as int]);
        }
        match &values[i] {
            Some(value) => {
                found.push(value.duplicate());
                assert(found.deep_view() =~= so_far.push(value.deep_view()));
            },
            None => {},
        }
        i += 1;
    }
    proof {
        assert(all.take(values.len() as int) =~= all);
    }
    found
}

fn collect_distinct<T: Mergeable>(values: &Vec<T>) -> (kept: Vec<T>)
    ensures
        kept.deep_view() == distinct(values.deep_view()),
{
    let ghost all = values.deep_view();
    let mut kept: Vec<T> = Vec::new();
    let mut i: usize = 0;
    assert(all.take(0) =~= Seq::empty());
    assert(kept.deep_view() =~= Seq::empty());
    while i < values.len()
        invariant
            i <= values.len(),
            all == values.deep_view(),
            kept.deep_view() == distinct(all.take(i as int)),
        decreases values.len() - i,
    {
        let ghost so_far = kept.deep_view();
        proof {
            assert(all.take(i + 1).drop_last() =~= all.take(i as int));
            assert(all.take(i + 1).last() == all[i as int]);
        }
        if !holds(&kept, &values[i]) {
            kept.push(values[i].duplicate());
            assert(kept.deep_view() =~= so_far.push(all[i as int]));
        }
        i += 1;
    }
    proof {
        assert(all.take(values.len() as int) =~= all);
    }
    kept
}

/// The fields that hold a text.
#[derive(Debug, Clone, Copy, PartialEq, Eq, Structural)]
pub enum TextField {
    Name,
    Description,
    Version,
}

impl TextField {
    /// The field's name in a prompt.
    pub open spec fn label_text(self) -> Seq<char> {
        match self {
            TextField::Name => "name"@,
            TextField::Description => "description"@,
            TextField::Version => "version"@,
        }
    }

    /// The field's name in a prompt.
    pub fn label(&self) -> (name: &'static str)
        ensures
            name@ == self.label_text(),
    {
        match self {
            TextField::Name => "name",
            TextField::Description => "description",
            TextField::Version => "version",
        }
    }
}

impl ConverterOutputView {
    /// What the record says about a text field.
    pub open spec fn text(self, field: TextField) -> Option<Seq<char>> {
        match field {
            TextField::Name => self.name,
            TextField::Description => self.description,
            TextField::Version => self.version,
        }
    }
}

/// What each record says about a text field.
pub open spec fn texts_of(records: Seq<ConverterOutputView>, field: TextField) -> Seq<
    Option<Seq<char>>,
> {
    Seq::new(records.len(), |i: int| records[i].text(field))
}

/// What each record says about the contributors.
pub open spec fn contributors_of(records: Seq<ConverterOutputView>) -> Seq<
    Option<Seq<ContributorView>>,
> {
    Seq::new(records.len(), |i: int| records[i].contributors)
}

/// The indexes chosen for the fields that need a choice. `None` stands for
/// a choice that could not be obtained.
#[derive(Debug, Clone, Copy, PartialEq, Eq)]
pub struct Choices {
    pub name: Option<usize>,
    pub description: Option<usize>,
    pub version: Option<usize>,
    pub contributors: Option<usize>,
}

/// What the records come to, field by field, before any choice is made.
#[derive(Debug, PartialEq, Eq)]
pub struct MergePlan {
    pub name: FieldMerge<String>,
    pub description: FieldMerge<String>,
    pub version: FieldMerge<String>,
    pub contributors: FieldMerge<Vec<Contributor>>,
}

pub struct MergePlanView {
    pub name: FieldMergeView<Seq<char>>,
    pub description: FieldMergeView<Seq<char>>,
    pub version: FieldMergeView<Seq<char>>,
    pub contributors: FieldMergeView<Seq<ContributorView>>,
}

impl DeepView for MergePlan {
    type V = MergePlanView;

    open spec fn deep_view(&self) -> MergePlanView {
        MergePlanView {
            name: self.name.deep_view(),
            description: self.description.deep_view(),
            version: self.version.deep_view(),
            contributors: self.contributors.deep_view(),
        }
    }
}

/// The plan for merging the records: each field decided on its own, from
/// what the records say about that field and nothing else.
pub open spec fn planned(records: Seq<ConverterOutputView>) -> MergePlanView {
    MergePlanView {
        name: decided(TextField::Name.label_text(), texts_of(records, TextField::Name)),
        description: decided(
            TextField::Description.label_text(),
            texts_of(records, TextField::Description),
        ),
        version: decided(TextField::Version.label_text(), texts_of(records, TextField::Version)),
        contributors: decided("contributors"@, contributors_of(records)),
    }
}

impl MergePlanView {
    /// The merged record once the choices are made. It names no source, and
    /// holds the four merged fields and nothing else.
    pub open spec fn settled(self, choices: Choices) -> ConverterOutputView {
        ConverterOutputView {
            name: self.name.settled(choices.name),
            description: self.description.settled(choices.description),
            version: self.version.settled(choices.version),
            contributors: self.contributors.settled(choices.contributors),
            ..ConverterOutputView::empty()
        }
    }
}

/// The record that the records merge into under the given choices.
pub open spec fn merged(records: Seq<ConverterOutputView>, choices: Choices) -> ConverterOutputView {
    planned(records).settled(choices)
}

impl MergePlan {
    /// The merged record once the choices are made.
    pub fn settle(self, choices: &Choices) -> (record: ConverterOutput)
        ensures
            record.deep_view() == self.deep_view().settled(*choices),
    {
        let mut record = ConverterOutput::empty();
        record.name = self.name.settle(choices.name);
        record.description = self.description.settle(choices.description);
        record.version = self.version.settle(choices.version);
        record.contributors = self.contributors.settle(choices.contributors);
        record
    }
}

/// Merges the records of several sources into one.
#[derive(Debug, Clone, Copy, PartialEq, Eq, Structural)]
pub struct Merger;

fn collect_texts(records: &Vec<ConverterOutput>, field: TextField) -> (values: Vec<Option<String>>)
    ensures
        values.deep_view() == texts_of(records.deep_view(), field),
{
    let mut values: Vec<Option<String>> = Vec::new();
    let mut i: usize = 0;
    while i < records.len()
        invariant
            i <= records.len(),
            values.len() == i,
            forall|k: int|
                0 <= k < i ==> (#[trigger] values[k]).deep_view() == records.deep_view()[k].text(
                    field,
                ),
        decreases records.len() - i,
    {
        let value = match field {
            TextField::Name => copy_text(&records[i].name),
            TextField::Description => copy_text(&records[i].description),
            TextField::Version => copy_text(&records[i].version),
        };
        values.push(value);
        i += 1;
    }
    assert(values.deep_view() =~= texts_of(records.deep_view(), field));
    values
}

fn collect_contributors(records: &Vec<ConverterOutput>) -> (values: Vec<Option<Vec<Contributor>>>)
    ensures
        values.deep_view() == contributors_of(records.deep_view()),
{
    let mut values: Vec<Option<Vec<Contributor>>> = Vec::new();
    let mut i: usize = 0;
    while i < records.len()
        invariant
            i <= records.len(),
            values.len() == i,
            forall|k: int|
                0 <= k < i ==> (#[trigger] values[k]).deep_view()
                    == records.deep_view()[k].contributors,
        decreases records.len() - i,
    {
        let value = match &records[i].contributors {
            Some(list) => Some(copy_contributors(list)),
            None => None,
        };
        values.push(value);
        i += 1;
    }
    assert(values.deep_view() =~= contributors_of(records.deep_view()));
    values
}

impl Merger {
    pub fn new() -> (merger: Merger) {
        Merger {  }
    }

    /// Decides what the values of one field come to: nothing, one value,
    /// or a choice among the distinct values.
    pub fn merge_field<T: Mergeable>(&self, field_name: &str, values: Vec<Option<T>>) -> (outcome:
        FieldMerge<T>)
        ensures
            outcome.deep_view() == decided(field_name@, values.deep_view()),
    {
        let mut found = collect_present(&values);
        if found.len() == 0 {
            FieldMerge::Absent
        } else if found.len() == 1 {
            FieldMerge::Single(found.swap_remove(0))
        } else {
            let label = join(join("Found conflicting values for field ", field_name).as_str(),
                ", select one:");
            FieldMerge::Conflict { label, candidates: collect_distinct(&found) }
        }
    }

    /// Tells, field by field, what the records come to and where a choice
    /// is needed.
    pub fn plan(&self, converted_configs: &Vec<ConverterOutput>) -> (plan: MergePlan)
        ensures
            plan.deep_view() == planned(converted_configs.deep_view()),
    {
        MergePlan {
            name: self.merge_field(
                TextField::Name.label(),
                collect_texts(converted_configs, TextField::Name),
            ),
            description: self.merge_field(
                TextField::Description.label(),
                collect_texts(converted_configs, TextField::Description),
            ),
            version: self.merge_field(
                TextField::Version.label(),
                collect_texts(converted_configs, TextField::Version),
            ),
            contributors: self.merge_field(
                "contributors",
                collect_contributors(converted_configs),
            ),
        }
    }

    /// Merges the records into one, taking the given choices where a field
    /// has conflicting values. The records themselves stay as they are.
    pub fn merge(&self, converted_configs: Vec<ConverterOutput>, choices: &Choices) -> (output:
        ConverterOutput)
        ensures
            output.deep_view() == merged(converted_configs.deep_view(), *choices),
            output.deep_view().source_config_file_path is None,
            output.deep_view().repository is None,
            output.deep_view().license is None,
            output.deep_view().dependencies is None,
    {
        self.plan(&converted_configs).settle(choices)
    }
}

/// Every value that is there was given by a source.
pub proof fn lemma_present_is_given<V>(values: Seq<Option<V>>)
    ensures
        forall|k: int|
            0 <= k < present(values).len() ==> values.contains(Some(#[trigger] present(values)[k])),
    decreases values.len(),
{
    if values.len() > 0 {
        let front = values.drop_last();
        lemma_present_is_given(front);
        assert forall|k: int| 0 <= k < present(values).len() implies values.contains(
            Some(#[trigger] present(values)[k]),
        ) by {
            if k < present(front).len() {
                assert(present(values)[k] == present(front)[k]);
                assert(front.contains(Some(present(front)[k])));
                let i = choose|i: int| 0 <= i < front.len() && front[i] == Some(present(front)[k]);
                assert(values[i] == Some(present(values)[k]));
            } else {
                assert(values[values.len() - 1] == Some(present(values)[k]));
            }
        }
    }
}

/// Dropping repetitions leaves only values of the sequence, at least one
/// where it has any, and none twice.
pub proof fn lemma_distinct_is_given<V>(values: Seq<V>)
    ensures
        forall|k: int|
            0 <= k < distinct(values).len() ==> values.contains(#[trigger] distinct(values)[k]),
        values.len() > 0 ==> distinct(values).len() > 0,
        distinct(values).no_duplicates(),
    decreases values.len(),
{
    if values.len() > 0 {
        let front = values.drop_last();
        lemma_distinct_is_given(front);
        assert forall|k: int| 0 <= k < distinct(values).len() implies values.contains(
            #[trigger] distinct(values)[k],
        ) by {
            if k < distinct(front).len() {
                assert(distinct(values)[k] == distinct(front)[k]);
                assert(front.contains(distinct(front)[k]));
                let i = choose|i: int| 0 <= i < front.len() && front[i] == distinct(front)[k];
                assert(values[i] == distinct(values)[k]);
            } else {
                assert(values[values.len() - 1] == distinct(values)[k]);
            }
        }
    }
}

/// The value that a field settles on is one that a source gave for it, and
/// a field for which some source has a value settles on one, whatever the
/// selection.
pub proof fn lemma_settled_is_given<V>(
    field_name: Seq<char>,
    values: Seq<Option<V>>,
    selection: Option<usize>,
)
    ensures
        decided(field_name, values).settled(selection) matches Some(value) ==> values.contains(
            Some(value),
        ),
        decided(field_name, values).settled(selection) is None <==> present(values).len() == 0,
{
    lemma_present_is_given(values);
    lemma_distinct_is_given(present(values));
    match decided(field_name, values).settled(selection) {
        Some(value) => {
            if present(values).len() > 1 {
                let shown = distinct(present(values));
                let at = choose|at: int| 0 <= at < shown.len() && shown[at] == value;
                assert(present(values).contains(shown[at]));
                let k = choose|k: int| 0 <= k < present(values).len() && present(values)[k] == value;
                assert(values.contains(Some(present(values)[k])));
            } else {
                assert(values.contains(Some(present(values)[0])));
            }
        },
        None => {},
    }
}

/// What one source says about a field stands as it is: no choice is
/// needed, and every selection settles on that source's value.
pub proof fn lemma_single_value_stands<V>(
    field_name: Seq<char>,
    value: Option<V>,
    selection: Option<usize>,
)
    ensures
        !decided(field_name, seq![value]).is_conflict(),
        decided(field_name, seq![value]).settled(selection) == value,
{
    let values = seq![value];
    assert(values.drop_last() =~= Seq::<Option<V>>::empty());
    assert(present(values.drop_last()) =~= Seq::<V>::empty());
    assert(values.last() == value);
    match value {
        Some(v) => {
            assert(present(values) =~= seq![v]);
        },
        None => {
            assert(present(values) =~= Seq::<V>::empty());
        },
    }
}

/// Merging one record alone asks for no choice and gives back its name,
/// description, version and contributors.
pub proof fn lemma_single_record_merge(record: ConverterOutputView, choices: Choices)
    ensures
        !planned(seq![record]).name.is_conflict(),
        !planned(seq![record]).description.is_conflict(),
        !planned(seq![record]).version.is_conflict(),
        !planned(seq![record]).contributors.is_conflict(),
        merged(seq![record], choices) == (ConverterOutputView {
            name: record.name,
            description: record.description,
            version: record.version,
            contributors: record.contributors,
            ..ConverterOutputView::empty()
        }),
{
    let records = seq![record];
    assert(texts_of(records, TextField::Name) =~= seq![record.name]);
    assert(texts_of(records, TextField::Description) =~= seq![record.description]);
    assert(texts_of(records, TextField::Version) =~= seq![record.version]);
    assert(contributors_of(records) =~= seq![record.contributors]);
    lemma_single_value_stands(TextField::Name.label_text(), record.name, choices.name);
    lemma_single_value_stands(
        TextField::Description.label_text(),
        record.description,
        choices.description,
    );
    lemma_single_value_stands(TextField::Version.label_text(), record.version, choices.version);
    lemma_single_value_stands("contributors"@, record.contributors, choices.contributors);
}

/// Merging is idempotent: the merged record, merged again on its own, is
/// the merged record, whatever is selected the second time.
pub proof fn lemma_merge_is_idempotent(
    records: Seq<ConverterOutputView>,
    choices: Choices,
    again: Choices,
)
    ensures
        merged(seq![merged(records, choices)], again) == merged(records, choices),
{
    lemma_single_record_merge(merged(records, choices), again);
}

/// Each field is merged on its own: what a text field settles on depends on
/// what the records say about that field and on the selection for it, and
/// on nothing else.
pub proof fn lemma_fields_are_independent(
    a: Seq<ConverterOutputView>,
    b: Seq<ConverterOutputView>,
    choices_a: Choices,
    choices_b: Choices,
)
    ensures
        texts_of(a, TextField::Name) == texts_of(b, TextField::Name) && choices_a.name
            == choices_b.name ==> merged(a, choices_a).name == merged(b, choices_b).name,
        texts_of(a, TextField::Description) == texts_of(b, TextField::Description)
            && choices_a.description == choices_b.description ==> merged(a, choices_a).description
            == merged(b, choices_b).description,
        texts_of(a, TextField::Version) == texts_of(b, TextField::Version) && choices_a.version
            == choices_b.version ==> merged(a, choices_a).version == merged(b, choices_b).version,
        contributors_of(a) == contributors_of(b) && choices_a.contributors
            == choices_b.contributors ==> merged(a, choices_a).contributors == merged(
            b,
            choices_b,
        ).contributors,
{
}

} // verus!
