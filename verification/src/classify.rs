//! The assignment of files to formatters: which runner a file goes to, and
//! what is reported for the files that go to none or are wanted by several.

use vstd::prelude::*;
use vstd::string::StringExecFns;
use crate::runner::RunnerSpec;

verus! {

/// A regular file found under the project root.
#[derive(Clone, Debug, PartialEq, Eq)]
pub struct CandidateFile {
    /// The path as the walk yields it; this is what a formatter is given.
    pub path: String,
    /// The path relative to the project root; this is what patterns match.
    pub rel_path: String,
}

/// A candidate file as plain text.
pub struct FileSpec {
    pub path: Seq<char>,
    pub rel_path: Seq<char>,
}

impl View for CandidateFile {
    type V = FileSpec;

    open spec fn view(&self) -> FileSpec {
        FileSpec { path: self.path@, rel_path: self.rel_path@ }
    }
}

impl DeepView for CandidateFile {
    type V = FileSpec;

    open spec fn deep_view(&self) -> FileSpec {
        self@
    }
}

/// One item of the walk over the project tree.
#[derive(Clone, Debug, PartialEq, Eq)]
pub enum WalkEntry {
    /// A regular file.
    File(CandidateFile),
    /// A directory; directories are never assigned.
    Directory,
    /// An entry that could not be read, with the cause in words.
    Failed(String),
}

/// A walk entry as plain text.
pub enum EntrySpec {
    File(FileSpec),
    Directory,
    Failed(Seq<char>),
}

impl View for WalkEntry {
    type V = EntrySpec;

    open spec fn view(&self) -> EntrySpec {
        match self {
            WalkEntry::File(file) => EntrySpec::File(file@),
            WalkEntry::Directory => EntrySpec::Directory,
            WalkEntry::Failed(cause) => EntrySpec::Failed(cause@),
        }
    }
}

impl DeepView for WalkEntry {
    type V = EntrySpec;

    open spec fn deep_view(&self) -> EntrySpec {
        self@
    }
}

/// What the assignment of files has to report besides the partitions.
#[derive(Clone, Debug, PartialEq, Eq)]
pub enum Diagnostic {
    /// A walk entry could not be read and was skipped.
    EntrySkipped { cause: String },
    /// A file that no formatter's patterns match; it is left alone.
    Unmatched { file: String },
    /// A file that the patterns of several formatters match. It went to
    /// `chosen`, the first of them in declaration order; the formatters in
    /// `discarded` did not get it.
    Conflict { file: String, chosen: String, discarded: Vec<String> },
}

/// A diagnostic as plain text.
pub enum DiagnosticSpec {
    EntrySkipped { cause: Seq<char> },
    Unmatched { file: Seq<char> },
    Conflict { file: Seq<char>, chosen: Seq<char>, discarded: Seq<Seq<char>> },
}

impl View for Diagnostic {
    type V = DiagnosticSpec;

    open spec fn view(&self) -> DiagnosticSpec {
        match self {
            Diagnostic::EntrySkipped { cause } => DiagnosticSpec::EntrySkipped { cause: cause@ },
            Diagnostic::Unmatched { file } => DiagnosticSpec::Unmatched { file: file@ },
            Diagnostic::Conflict { file, chosen, discarded } => DiagnosticSpec::Conflict {
                file: file@,
                chosen: chosen@,
                discarded: discarded.deep_view(),
            },
        }
    }
}

impl DeepView for Diagnostic {
    type V = DiagnosticSpec;

    open spec fn deep_view(&self) -> DiagnosticSpec {
        self@
    }
}

/// The names in order, separated by a comma and a space.
pub open spec fn listed(names: Seq<Seq<char>>) -> Seq<char>
    decreases names.len(),
{
    if names.len() == 0 {
        Seq::empty()
    } else if names.len() == 1 {
        names[0]
    } else {
        listed(names.drop_last()) + ", "@ + names.last()
    }
}

impl DiagnosticSpec {
    /// The diagnostic in words, as one line for a log.
    pub open spec fn message(self) -> Seq<char> {
        match self {
            DiagnosticSpec::EntrySkipped { cause } => "skipping directory entry, cause: "@ + cause,
            DiagnosticSpec::Unmatched { file } => "file "@ + file
                + " is not matched by any runner"@,
            DiagnosticSpec::Conflict { file, chosen, discarded } => "file "@ + file
                + " is already matched by runner "@ + chosen
                + ", using only the first; discarded: "@ + listed(discarded),
        }
    }
}

/// The names in order, separated by a comma and a space.
pub fn list(names: &Vec<String>) -> (res: String)
    ensures
        res@ == listed(names.deep_view()),
{
    let mut text = String::new();
    let mut i: usize = 0;
    while i < names.len()
        invariant
            0 <= i <= names.len(),
            text@ == listed(names.deep_view().take(i as int)),
        decreases names.len() - i,
    {
        proof {
            let more = names.deep_view().take(i as int + 1);
            assert(more.drop_last() =~= names.deep_view().take(i as int));
            assert(more.last() == names@[i as int]@);
        }
        if i > 0 {
            text.append(", ");
        } else {
            assert(text@ + names@[i as int]@ =~= names@[i as int]@);
        }
        text.append(names[i].as_str());
        i += 1;
    }
    assert(names.deep_view().take(i as int) =~= names.deep_view());
    text
}

impl Diagnostic {
    /// The diagnostic in words, as one line for a log.
    pub fn message(&self) -> (res: String)
        ensures
            res@ == self@.message(),
    {
        match self {
            Diagnostic::EntrySkipped { cause } => {
                let mut text = "skipping directory entry, cause: ".to_owned();
                text.append(cause.as_str());
                text
            },
            Diagnostic::Unmatched { file } => {
                let mut text = "file ".to_owned();
                text.append(file.as_str());
                text.append(" is not matched by any runner");
                text
            },
            Diagnostic::Conflict { file, chosen, discarded } => {
                let mut text = "file ".to_owned();
                text.append(file.as_str());
                text.append(" is already matched by runner ");
                text.append(chosen.as_str());
                text.append(", using only the first; discarded: ");
                text.append(list(discarded).as_str());
                text
            },
        }
    }
}

/// The positions of the runners among the first `count` that accept `path`,
/// in ascending order.
pub open spec fn matching_among(runners: Seq<RunnerSpec>, path: Seq<char>, count: nat) -> Seq<int>
    decreases count,
{
    if count == 0 {
        Seq::empty()
    } else {
        let before = matching_among(runners, path, (count - 1) as nat);
        if runners[count - 1].accepts(path) {
            before.push(count - 1)
        } else {
            before
        }
    }
}

/// The positions of all runners that accept `path`, in declaration order.
pub open spec fn matching(runners: Seq<RunnerSpec>, path: Seq<char>) -> Seq<int> {
    matching_among(runners, path, runners.len())
}

/// The runner that a file with this relative path is assigned to: the first
/// in declaration order that accepts it, none if no runner does.
pub open spec fn owner(runners: Seq<RunnerSpec>, path: Seq<char>) -> Option<int> {
    let matched = matching(runners, path);
    if matched.len() == 0 {
        None
    } else {
        Some(matched[0])
    }
}

/// The names of the runners at the given positions.
pub open spec fn names_at(runners: Seq<RunnerSpec>, positions: Seq<int>) -> Seq<Seq<char>> {
    Seq::new(positions.len(), |k: int| runners[positions[k]].name)
}

/// What is reported for one walk entry: nothing for a directory or for a
/// file that exactly one runner accepts.
pub open spec fn diagnosis(runners: Seq<RunnerSpec>, entry: EntrySpec) -> Option<DiagnosticSpec> {
    match entry {
        EntrySpec::Failed(cause) => Some(DiagnosticSpec::EntrySkipped { cause }),
        EntrySpec::Directory => None,
        EntrySpec::File(file) => {
            let matched = matching(runners, file.rel_path);
            if matched.len() == 0 {
                Some(DiagnosticSpec::Unmatched { file: file.rel_path })
            } else if matched.len() == 1 {
                None
            } else {
                Some(
                    DiagnosticSpec::Conflict {
                        file: file.rel_path,
                        chosen: runners[matched[0]].name,
                        discarded: names_at(runners, matched.skip(1)),
                    },
                )
            }
        },
    }
}

/// The entry is a file that goes to the runner at `position`.
pub open spec fn claims(runners: Seq<RunnerSpec>, entry: EntrySpec, position: int) -> bool {
    entry matches EntrySpec::File(file) && owner(runners, file.rel_path) == Some(position)
}

/// The files among the entries that go to the runner at `position`, in the
/// order of the walk.
pub open spec fn claimed(runners: Seq<RunnerSpec>, entries: Seq<EntrySpec>, position: int) -> Seq<
    FileSpec,
>
    decreases entries.len(),
{
    if entries.len() == 0 {
        Seq::empty()
    } else {
        let before = claimed(runners, entries.drop_last(), position);
        if claims(runners, entries.last(), position) {
            before.push(entries.last()->File_0)
        } else {
            before
        }
    }
}

/// The diagnostics for the entries, in the order of the walk.
pub open spec fn diagnostics(runners: Seq<RunnerSpec>, entries: Seq<EntrySpec>) -> Seq<
    DiagnosticSpec,
>
    decreases entries.len(),
{
    if entries.len() == 0 {
        Seq::empty()
    } else {
        let before = diagnostics(runners, entries.drop_last());
        match diagnosis(runners, entries.last()) {
            Some(diagnostic) => before.push(diagnostic),
            None => before,
        }
    }
}

/// The outcome of assigning files: for each runner, by position, the files
/// it claimed, and the diagnostics in the order of the walk.
#[derive(Clone, Debug, PartialEq, Eq)]
pub struct Classification {
    pub partitions: Vec<Vec<CandidateFile>>,
    pub diagnostics: Vec<Diagnostic>,
}

/// Taking one more entry into account adds to a runner's files exactly the
/// entry it claims.
pub proof fn lemma_claimed_step(
    runners: Seq<RunnerSpec>,
    entries: Seq<EntrySpec>,
    index: int,
    position: int,
)
    requires
        0 <= index < entries.len(),
    ensures
        claimed(runners, entries.take(index + 1), position) == (if claims(
            runners,
            entries[index],
            position,
        ) {
            claimed(runners, entries.take(index), position).push(entries[index]->File_0)
        } else {
            claimed(runners, entries.take(index), position)
        }),
{
    assert(entries.take(index + 1).drop_last() =~= entries.take(index));
    assert(entries.take(index + 1).last() == entries[index]);
}

/// Taking one more entry into account adds exactly what is reported for it.
pub proof fn lemma_diagnostics_step(runners: Seq<RunnerSpec>, entries: Seq<EntrySpec>, index: int)
    requires
        0 <= index < entries.len(),
    ensures
        diagnostics(runners, entries.take(index + 1)) == (match diagnosis(runners, entries[index]) {
            Some(diagnostic) => diagnostics(runners, entries.take(index)).push(diagnostic),
            None => diagnostics(runners, entries.take(index)),
        }),
{
    assert(entries.take(index + 1).drop_last() =~= entries.take(index));
    assert(entries.take(index + 1).last() == entries[index]);
}

/// The runner at `position` accepts `path` and no runner declared before it
/// does.
pub open spec fn is_first_accepting(runners: Seq<RunnerSpec>, path: Seq<char>, position: int) -> bool {
    &&& 0 <= position < runners.len()
    &&& runners[position].accepts(path)
    &&& forall|j: int| 0 <= j < position ==> !(#[trigger] runners[j]).accepts(path)
}

/// No runner accepts `path`.
pub open spec fn none_accepts(runners: Seq<RunnerSpec>, path: Seq<char>) -> bool {
    forall|j: int| 0 <= j < runners.len() ==> !(#[trigger] runners[j]).accepts(path)
}

/// The runner at `position` is the only one that accepts `path`.
pub open spec fn only_accepting(runners: Seq<RunnerSpec>, path: Seq<char>, position: int) -> bool {
    &&& 0 <= position < runners.len()
    &&& runners[position].accepts(path)
    &&& forall|j: int|
        0 <= j < runners.len() && j != position ==> !(#[trigger] runners[j]).accepts(path)
}

/// How often `item` occurs in `items`.
pub open spec fn occurrences<A>(items: Seq<A>, item: A) -> nat
    decreases items.len(),
{
    if items.len() == 0 {
        0
    } else {
        occurrences(items.drop_last(), item) + if items.last() == item {
            1nat
        } else {
            0nat
        }
    }
}

/// How many of the entries are files with the relative path `path`.
pub open spec fn files_at(entries: Seq<EntrySpec>, path: Seq<char>) -> nat
    decreases entries.len(),
{
    if entries.len() == 0 {
        0
    } else {
        files_at(entries.drop_last(), path) + if entries.last() matches EntrySpec::File(file)
            && file.rel_path == path {
            1nat
        } else {
            0nat
        }
    }
}

/// The matching positions among the first `count` runners are exactly the
/// positions below `count` whose runner accepts the path, in strictly
/// ascending order.
pub proof fn lemma_matching_among(runners: Seq<RunnerSpec>, path: Seq<char>, count: nat)
    requires
        count <= runners.len(),
    ensures
        forall|k: int|
            0 <= k < matching_among(runners, path, count).len() ==> 0 <= (
            #[trigger] matching_among(runners, path, count)[k]) < count && runners[matching_among(
                runners,
                path,
                count,
            )[k]].accepts(path),
        forall|k: int, l: int|
            #![trigger matching_among(runners, path, count)[k], matching_among(runners, path, count)[l]]
            0 <= k < l < matching_among(runners, path, count).len() ==> matching_among(
                runners,
                path,
                count,
            )[k] < matching_among(runners, path, count)[l],
        forall|i: int|
            0 <= i < count && (#[trigger] runners[i]).accepts(path) ==> matching_among(
                runners,
                path,
                count,
            ).contains(i),
    decreases count,
{
    if count > 0 {
        let before = matching_among(runners, path, (count - 1) as nat);
        let now = matching_among(runners, path, count);
        lemma_matching_among(runners, path, (count - 1) as nat);
        assert forall|i: int| 0 <= i < count && (#[trigger] runners[i]).accepts(path) implies now.contains(
            i,
        ) by {
            if i < count - 1 {
                let k: int = choose|k: int| 0 <= k < before.len() && before[k] == i;
                assert(now[k] == i);
            } else {
                assert(now[now.len() - 1] == i);
            }
        }
    }
}

/// A file goes to the first runner in declaration order that accepts its
/// relative path, and to none if no runner accepts it.
pub proof fn lemma_owner(runners: Seq<RunnerSpec>, path: Seq<char>)
    ensures
        match owner(runners, path) {
            Some(position) => is_first_accepting(runners, path, position),
            None => none_accepts(runners, path),
        },
        forall|position: int| #[trigger]
            is_first_accepting(runners, path, position) ==> owner(runners, path) == Some(position),
{
    let matched = matching(runners, path);
    lemma_matching_among(runners, path, runners.len());
    if matched.len() == 0 {
        assert forall|j: int| 0 <= j < runners.len() implies !(#[trigger] runners[j]).accepts(
            path,
        ) by {
            if runners[j].accepts(path) {
                assert(matched.contains(j));
            }
        }
    } else {
        let first: int = matched[0];
        assert forall|j: int| 0 <= j < first implies !(#[trigger] runners[j]).accepts(path) by {
            if runners[j].accepts(path) {
                assert(matched.contains(j));
                let k: int = choose|k: int| 0 <= k < matched.len() && matched[k] == j;
                if k > 0 {
                    assert(matched[0] < matched[k]);
                }
            }
        }
    }
}

/// Every file in a runner's list is a file of the walk, and that runner is
/// the first that accepts it.
pub proof fn lemma_claimed_is_owned(
    runners: Seq<RunnerSpec>,
    entries: Seq<EntrySpec>,
    position: int,
    index: int,
)
    requires
        0 <= index < claimed(runners, entries, position).len(),
    ensures
        owner(runners, claimed(runners, entries, position)[index].rel_path) == Some(position),
        entries.contains(EntrySpec::File(claimed(runners, entries, position)[index])),
    decreases entries.len(),
{
    let before = claimed(runners, entries.drop_last(), position);
    if index < before.len() {
        lemma_claimed_is_owned(runners, entries.drop_last(), position, index);
        let at: int = choose|at: int|
            0 <= at < entries.drop_last().len() && entries.drop_last()[at] == EntrySpec::File(
                before[index],
            );
        assert(entries[at] == EntrySpec::File(before[index]));
    } else {
        assert(entries[entries.len() - 1] == entries.last());
    }
}

/// A file that a runner claims is in that runner's list.
pub proof fn lemma_claimed_contains(
    runners: Seq<RunnerSpec>,
    entries: Seq<EntrySpec>,
    index: int,
    position: int,
)
    requires
        0 <= index < entries.len(),
        claims(runners, entries[index], position),
    ensures
        claimed(runners, entries, position).contains(entries[index]->File_0),
    decreases entries.len(),
{
    let before = claimed(runners, entries.drop_last(), position);
    let now = claimed(runners, entries, position);
    if index < entries.len() - 1 {
        assert(entries.drop_last()[index] == entries[index]);
        lemma_claimed_contains(runners, entries.drop_last(), index, position);
        let at: int = choose|at: int| 0 <= at < before.len() && before[at] == entries[index]->File_0;
        assert(now[at] == entries[index]->File_0);
    } else {
        assert(now[now.len() - 1] == entries[index]->File_0);
    }
}

/// Partition exclusivity: no relative path occurs in the lists of two
/// different runners.
pub proof fn lemma_partitions_exclusive(
    runners: Seq<RunnerSpec>,
    entries: Seq<EntrySpec>,
    first: int,
    second: int,
    i: int,
    j: int,
)
    requires
        first != second,
        0 <= i < claimed(runners, entries, first).len(),
        0 <= j < claimed(runners, entries, second).len(),
    ensures
        claimed(runners, entries, first)[i].rel_path != claimed(runners, entries, second)[j].rel_path,
{
    lemma_claimed_is_owned(runners, entries, first, i);
    lemma_claimed_is_owned(runners, entries, second, j);
}

/// Single-match correctness: a file that exactly one runner accepts is in
/// that runner's list, and nothing is reported for it.
pub proof fn lemma_single_match_assigned(
    runners: Seq<RunnerSpec>,
    entries: Seq<EntrySpec>,
    index: int,
    position: int,
)
    requires
        0 <= index < entries.len(),
        entries[index] is File,
        only_accepting(runners, entries[index]->File_0.rel_path, position),
    ensures
        claimed(runners, entries, position).contains(entries[index]->File_0),
        diagnosis(runners, entries[index]) is None,
{
    let path = entries[index]->File_0.rel_path;
    let matched = matching(runners, path);
    lemma_matching_among(runners, path, runners.len());
    lemma_owner(runners, path);
    assert(is_first_accepting(runners, path, position));
    assert(matched.contains(position));
    if matched.len() > 1 {
        assert(matched[0] < matched[1]);
        assert(runners[matched[0]].accepts(path));
        assert(runners[matched[1]].accepts(path));
    }
    lemma_claimed_contains(runners, entries, index, position);
}

/// What is reported for entries other than files with the relative path
/// `path` differs from what is reported for such a file.
proof fn lemma_report_count(runners: Seq<RunnerSpec>, entries: Seq<EntrySpec>, path: Seq<char>)
    requires
        diagnosis(runners, EntrySpec::File(FileSpec { path, rel_path: path })) is Some,
    ensures
        occurrences(
            diagnostics(runners, entries),
            diagnosis(runners, EntrySpec::File(FileSpec { path, rel_path: path }))->0,
        ) == files_at(entries, path),
    decreases entries.len(),
{
    let report = diagnosis(runners, EntrySpec::File(FileSpec { path, rel_path: path }))->0;
    if entries.len() > 0 {
        lemma_report_count(runners, entries.drop_last(), path);
        let before = diagnostics(runners, entries.drop_last());
        match diagnosis(runners, entries.last()) {
            Some(diagnostic) => {
                assert(before.push(diagnostic).drop_last() =~= before);
                assert(before.push(diagnostic).last() == diagnostic);
            },
            None => {},
        }
    }
}

/// No-match exclusion: a relative path that no runner accepts is in no
/// runner's list, and it is reported as unmatched once for each time the
/// walk yields a file with it.
pub proof fn lemma_unmatched_excluded(
    runners: Seq<RunnerSpec>,
    entries: Seq<EntrySpec>,
    path: Seq<char>,
)
    requires
        none_accepts(runners, path),
    ensures
        forall|position: int, i: int|
            0 <= i < claimed(runners, entries, position).len() ==> (#[trigger] claimed(
                runners,
                entries,
                position,
            )[i]).rel_path != path,
        occurrences(diagnostics(runners, entries), DiagnosticSpec::Unmatched { file: path })
            == files_at(entries, path),
{
    lemma_owner(runners, path);
    lemma_matching_among(runners, path, runners.len());
    let matched = matching(runners, path);
    if matched.len() > 0 {
        assert(runners[matched[0]].accepts(path));
    }
    assert forall|position: int, i: int|
        0 <= i < claimed(runners, entries, position).len() implies (#[trigger] claimed(
        runners,
        entries,
        position,
    )[i]).rel_path != path by {
        lemma_claimed_is_owned(runners, entries, position, i);
    }
    lemma_report_count(runners, entries, path);
}

/// Conflict tie-break: a relative path that several runners accept goes to
/// the first of them in declaration order and to no other. It is reported
/// as a conflict, naming the chosen runner and, in order, all the others
/// that accept it, once for each time the walk yields a file with it.
pub proof fn lemma_conflict_first_wins(
    runners: Seq<RunnerSpec>,
    entries: Seq<EntrySpec>,
    path: Seq<char>,
    first: int,
    other: int,
)
    requires
        is_first_accepting(runners, path, first),
        first < other < runners.len(),
        runners[other].accepts(path),
    ensures
        owner(runners, path) == Some(first),
        matching(runners, path).len() >= 2,
        matching(runners, path)[0] == first,
        matching(runners, path).contains(other),
        forall|position: int, i: int|
            position != first && 0 <= i < claimed(runners, entries, position).len() ==> (
            #[trigger] claimed(runners, entries, position)[i]).rel_path != path,
        forall|index: int|
            0 <= index < entries.len() && (#[trigger] entries[index]) is File
                && entries[index]->File_0.rel_path == path ==> claimed(
                runners,
                entries,
                first,
            ).contains(entries[index]->File_0),
        occurrences(
            diagnostics(runners, entries),
            DiagnosticSpec::Conflict {
                file: path,
                chosen: runners[first].name,
                discarded: names_at(runners, matching(runners, path).skip(1)),
            },
        ) == files_at(entries, path),
{
    lemma_owner(runners, path);
    lemma_matching_among(runners, path, runners.len());
    let matched = matching(runners, path);
    assert(matched.contains(other));
    assert(matched.contains(first));
    assert forall|position: int, i: int|
        position != first && 0 <= i < claimed(
            runners,
            entries,
            position,
        ).len() implies (#[trigger] claimed(runners, entries, position)[i]).rel_path != path by {
        lemma_claimed_is_owned(runners, entries, position, i);
    }
    assert forall|index: int|
        0 <= index < entries.len() && (#[trigger] entries[index]) is File
            && entries[index]->File_0.rel_path == path implies claimed(
        runners,
        entries,
        first,
    ).contains(entries[index]->File_0) by {
        lemma_claimed_contains(runners, entries, index, first);
    }
    lemma_report_count(runners, entries, path);
}

} // verus!
