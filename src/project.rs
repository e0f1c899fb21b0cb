//! The project descriptor: which skeleton paths are tracked, where submitted
//! paths go, and which destinations students can never influence.
use vstd::prelude::*;

use crate::paths::{
    contains_str, ends_with_separator, is_dir_key, lemma_strs_push, lemma_take_push, strs,
    trim_trailing, trim_trailing_separators,
};

verus! {

/// A pair of paths, as characters: a source and its destination.
pub type PathPair = (Seq<char>, Seq<char>);

/// The character view of pairs of strings.
pub open spec fn pairs_view(v: Seq<(String, String)>) -> Seq<PathPair> {
    v.map_values(|e: (String, String)| (e.0@, e.1@))
}

/// The sources of a mapping, in order.
pub open spec fn sources(m: Seq<PathPair>) -> Seq<Seq<char>> {
    m.map_values(|e: PathPair| e.0)
}

/// The destinations of a mapping, in order.
pub open spec fn destinations(m: Seq<PathPair>) -> Seq<Seq<char>> {
    m.map_values(|e: PathPair| e.1)
}

/// `m` with `to` as the destination of `from`: the pair of `from` is
/// replaced where there is one, else the pair is added at the end.
pub open spec fn mapping_insert(m: Seq<PathPair>, from: Seq<char>, to: Seq<char>) -> Seq<PathPair> {
    if sources(m).contains(from) {
        let i = choose|i: int| 0 <= i < m.len() && m[i].0 == from;
        m.update(i, (from, to))
    } else {
        m.push((from, to))
    }
}

/// The destinations of the skeleton that the submission does not reach, in
/// the skeleton's order.
pub open spec fn exclusion_of(skel: Seq<PathPair>, submission: Seq<PathPair>) -> Seq<Seq<char>> {
    destinations(skel).filter(|d: Seq<char>| !destinations(submission).contains(d))
}

/// An ordered mapping from source paths to destination paths; no source
/// appears twice.
pub struct PathMapping {
    entries: Vec<(String, String)>,
}

impl View for PathMapping {
    type V = Seq<PathPair>;

    closed spec fn view(&self) -> Seq<PathPair> {
        pairs_view(self.entries@)
    }
}

impl PathMapping {
    /// No source appears twice.
    pub open spec fn wf(&self) -> bool {
        sources(self@).no_duplicates()
    }

    /// The empty mapping.
    pub fn new() -> (r: PathMapping)
        ensures
            r.wf(),
            r@ == Seq::<PathPair>::empty(),
    {
        let r = PathMapping { entries: Vec::new() };
        assert(sources(r@) =~= Seq::<Seq<char>>::empty());
        r
    }

    /// Maps `from` to `to`, replacing an earlier destination of `from`.
    pub fn insert(&mut self, from: &str, to: &str)
        requires
            old(self).wf(),
        ensures
            final(self).wf(),
            final(self)@ == mapping_insert(old(self)@, from@, to@),
    {
        let ghost m = self@;
        let mut i: usize = 0;
        while i < self.entries.len()
            invariant
                i <= self.entries@.len(),
                m == old(self)@,
                m == pairs_view(self.entries@),
                sources(m).no_duplicates(),
                forall|j: int| 0 <= j < i ==> self.entries@[j].0@ != from@,
            decreases self.entries@.len() - i,
        {
            if crate::paths::str_eq(self.entries[i].0.as_str(), from) {
                assert(m[i as int].0 == from@);
                assert forall|j: int| 0 <= j < m.len() && m[j].0 == from@ implies j == i by {
                    assert(sources(m)[j] == sources(m)[i as int]);
                }
                let ghost k = choose|k: int| 0 <= k < m.len() && m[k].0 == from@;
                assert(sources(m)[i as int] == from@);
                self.entries.set(i, (from.to_owned(), to.to_owned()));
                assert(self@ =~= mapping_insert(m, from@, to@));
                assert(sources(self@) =~= sources(m));
                return;
            }
            i = i + 1;
        }
        assert(!sources(m).contains(from@)) by {
            if sources(m).contains(from@) {
                let j = choose|j: int| 0 <= j < sources(m).len() && sources(m)[j] == from@;
                assert(self.entries@[j].0@ == from@);
            }
        }
        self.entries.push((from.to_owned(), to.to_owned()));
        assert(self@ =~= m.push((from@, to@)));
        assert(sources(self@) =~= sources(m).push(from@));
    }

    /// The number of pairs.
    pub fn len(&self) -> (r: usize)
        ensures
            r == self@.len(),
    {
        self.entries.len()
    }

    /// The source of the pair at `i`.
    pub fn source(&self, i: usize) -> (r: &String)
        requires
            i < self@.len(),
        ensures
            r@ == self@[i as int].0,
    {
        &self.entries[i].0
    }

    /// The destination of the pair at `i`.
    pub fn destination(&self, i: usize) -> (r: &String)
        requires
            i < self@.len(),
        ensures
            r@ == self@[i as int].1,
    {
        &self.entries[i].1
    }
}

/// The build ecosystems that a project can use.
#[derive(Clone, Copy, Debug, PartialEq, Eq, Structural)]
pub enum ProjectType {
    Unspecified,
    MavenSurefire,
    Go,
}

/// Why a descriptor could not be made.
#[derive(Debug)]
pub enum ProjectError {
    /// Two skeleton sources are sent to one destination.
    DuplicateDestination,
    /// No descriptor exists yet for the ecosystem.
    Unsupported,
}

/// A project descriptor. Its exclusion set is always the skeleton's
/// destinations that the submission mapping does not reach.
pub struct Project {
    project_type: ProjectType,
    skel_mapping: PathMapping,
    submission_zipfile_mapping: PathMapping,
    ignore: Vec<String>,
    diff_exclude: Vec<String>,
}

impl Project {
    /// Distinct skeleton destinations, mappings without repeated sources,
    /// and the exclusion set that the two mappings determine.
    pub closed spec fn wf(&self) -> bool {
        &&& self.skel_mapping.wf()
        &&& self.submission_zipfile_mapping.wf()
        &&& destinations(self.skel_mapping@).no_duplicates()
        &&& strs(self.diff_exclude@) == exclusion_of(
            self.skel_mapping@,
            self.submission_zipfile_mapping@,
        )
    }

    /// The build ecosystem.
    pub closed spec fn type_view(&self) -> ProjectType {
        self.project_type
    }

    /// The skeleton mapping.
    pub closed spec fn skeleton_view(&self) -> Seq<PathPair> {
        self.skel_mapping@
    }

    /// The submission mapping.
    pub closed spec fn submission_view(&self) -> Seq<PathPair> {
        self.submission_zipfile_mapping@
    }

    /// The exclusion set, in the skeleton's order.
    pub closed spec fn exclusion_view(&self) -> Seq<Seq<char>> {
        strs(self.diff_exclude@)
    }

    /// The names that are never copied out of a submission.
    pub closed spec fn ignore_view(&self) -> Seq<Seq<char>> {
        strs(self.ignore@)
    }

    /// What every descriptor keeps: distinct skeleton destinations and the
    /// exclusion set that the two mappings determine.
    pub proof fn lemma_well_formed(&self)
        requires
            self.wf(),
        ensures
            destinations(self.skeleton_view()).no_duplicates(),
            sources(self.skeleton_view()).no_duplicates(),
            sources(self.submission_view()).no_duplicates(),
            self.exclusion_view() == exclusion_of(self.skeleton_view(), self.submission_view()),
    {
    }

    /// Makes a descriptor; fails where two skeleton sources share a
    /// destination.
    pub fn new(
        project_type: ProjectType,
        skel_mapping: PathMapping,
        submission_zipfile_mapping: PathMapping,
        ignore: Vec<String>,
    ) -> (r: Result<Project, ProjectError>)
        requires
            skel_mapping.wf(),
            submission_zipfile_mapping.wf(),
        ensures
            r is Err <==> !destinations(skel_mapping@).no_duplicates(),
            r matches Err(e) ==> e is DuplicateDestination,
            r matches Ok(p) ==> {
                &&& p.wf()
                &&& p.type_view() == project_type
                &&& p.skeleton_view() == skel_mapping@
                &&& p.submission_view() == submission_zipfile_mapping@
                &&& p.ignore_view() == strs(ignore@)
                &&& p.exclusion_view() == exclusion_of(
                    skel_mapping@,
                    submission_zipfile_mapping@,
                )
            },
    {
        let ghost skel = skel_mapping@;
        let ghost sub = submission_zipfile_mapping@;
        let n = skel_mapping.len();
        // every destination differs from those before it
        let mut i: usize = 0;
        while i < n
            invariant
                n == skel.len(),
                skel == skel_mapping@,
                i <= n,
                forall|a: int, b: int|
                    0 <= a < b < i ==> #[trigger] skel[a].1 != #[trigger] skel[b].1,
            decreases n - i,
        {
            let mut j: usize = 0;
            while j < i
                invariant
                    n == skel.len(),
                    skel == skel_mapping@,
                    j <= i < n,
                    forall|a: int| 0 <= a < j ==> #[trigger] skel[a].1 != skel[i as int].1,
                decreases i - j,
            {
                if crate::paths::str_eq(
                    skel_mapping.destination(j).as_str(),
                    skel_mapping.destination(i).as_str(),
                ) {
                    assert(destinations(skel)[j as int] == destinations(skel)[i as int]);
                    return Err(ProjectError::DuplicateDestination);
                }
                j = j + 1;
            }
            i = i + 1;
        }
        assert(destinations(skel).no_duplicates()) by {
            assert forall|a: int, b: int|
                0 <= a < destinations(skel).len() && 0 <= b < destinations(skel).len() && a
                    != b implies destinations(skel)[a] != destinations(skel)[b] by {
                if a < b {
                    assert(skel[a].1 != skel[b].1);
                } else {
                    assert(skel[b].1 != skel[a].1);
                }
            }
        }
        // the skeleton destinations that no submission destination reaches
        let mut sub_dests: Vec<String> = Vec::new();
        let mut k: usize = 0;
        while k < submission_zipfile_mapping.len()
            invariant
                sub == submission_zipfile_mapping@,
                k <= sub.len(),
                strs(sub_dests@) == destinations(sub).take(k as int),
            decreases sub.len() - k,
        {
            let ghost before = sub_dests@;
            let d = submission_zipfile_mapping.destination(k).clone();
            sub_dests.push(d);
            proof {
                lemma_strs_push(before, d);
                lemma_take_push(destinations(sub), k as int);
            }
            k = k + 1;
        }
        assert(destinations(sub).take(sub.len() as int) =~= destinations(sub));
        let ghost keep = |d: Seq<char>| !destinations(sub).contains(d);
        let mut diff_exclude: Vec<String> = Vec::new();
        let mut m: usize = 0;
        while m < n
            invariant
                n == skel.len(),
                skel == skel_mapping@,
                m <= n,
                strs(sub_dests@) == destinations(sub),
                keep == (|d: Seq<char>| !destinations(sub).contains(d)),
                strs(diff_exclude@) == destinations(skel).take(m as int).filter(keep),
            decreases n - m,
        {
            let d = skel_mapping.destination(m);
            let reached = contains_str(sub_dests.as_slice(), d.as_str());
            proof {
                destinations(skel).take(m as int).lemma_filter_push(destinations(skel)[m as int], keep);
                assert(destinations(skel).take(m + 1) =~= destinations(skel).take(m as int).push(
                    destinations(skel)[m as int],
                ));
            }
            if !reached {
                let ghost before = diff_exclude@;
                diff_exclude.push(d.clone());
                assert(strs(diff_exclude@) =~= strs(before).push(d@));
            }
            m = m + 1;
        }
        assert(destinations(skel).take(n as int) =~= destinations(skel));
        Ok(
            Project {
                project_type,
                skel_mapping,
                submission_zipfile_mapping,
                ignore,
                diff_exclude,
            },
        )
    }

    /// The build ecosystem.
    pub fn project_type(&self) -> (r: ProjectType)
        ensures
            r == self.type_view(),
    {
        self.project_type
    }

    /// The skeleton mapping.
    pub fn skeleton_mapping(&self) -> (r: &PathMapping)
        ensures
            r@ == self.skeleton_view(),
    {
        &self.skel_mapping
    }

    /// The submission mapping.
    pub fn submission_mapping(&self) -> (r: &PathMapping)
        ensures
            r@ == self.submission_view(),
    {
        &self.submission_zipfile_mapping
    }

    /// The names never copied out of a submission.
    pub fn ignore(&self) -> (r: &Vec<String>)
        ensures
            strs(r@) == self.ignore_view(),
    {
        &self.ignore
    }

    /// The destinations that students cannot influence.
    pub fn diff_exclude(&self) -> (r: &Vec<String>)
        ensures
            strs(r@) == self.exclusion_view(),
    {
        &self.diff_exclude
    }
}

/// The exclusion set holds exactly the skeleton destinations that no
/// submission destination equals.
pub proof fn lemma_exclusion_set(skel: Seq<PathPair>, submission: Seq<PathPair>)
    ensures
        exclusion_of(skel, submission).to_set() == destinations(skel).to_set().difference(
            destinations(submission).to_set(),
        ),
{
    let keep = |d: Seq<char>| !destinations(submission).contains(d);
    let ex = destinations(skel).filter(keep);
    assert forall|d: Seq<char>| ex.contains(d) <==> destinations(skel).contains(d) && !destinations(
        submission,
    ).contains(d) by {
        if ex.contains(d) {
            let i = choose|i: int| 0 <= i < ex.len() && ex[i] == d;
            destinations(skel).lemma_filter_contains_rev(keep, d);
            destinations(skel).lemma_filter_pred(keep, i);
        }
        if destinations(skel).contains(d) && keep(d) {
            let i = choose|i: int|
                0 <= i < destinations(skel).len() && destinations(skel)[i] == d;
            destinations(skel).lemma_filter_contains(keep, i);
        }
    }
    assert(ex.to_set() =~= destinations(skel).to_set().difference(destinations(submission).to_set()));
}

/// What stands at a skeleton source on disk.
#[derive(Clone, Copy, Debug, PartialEq, Eq, Structural)]
pub enum EntryKind {
    Missing,
    File,
    Directory,
}

/// Which of the two stores a skeleton path is copied into.
#[derive(Clone, Copy, Debug, PartialEq, Eq, Structural)]
pub enum Store {
    /// The diffable skeleton root.
    Skeleton,
    /// The pristine area that is never diffed.
    Exclusion,
}

/// One copy of the skeleton's bootstrap: `from` under the given skeleton,
/// `to` under `store`; a directory is copied whole.
#[derive(Debug)]
pub struct CopyStep {
    pub from: String,
    pub to: String,
    pub store: Store,
    pub is_dir: bool,
}

/// Why a skeleton does not fit its descriptor.
#[derive(Debug)]
pub enum SkeletonError {
    /// The source does not exist.
    Missing { path: String },
    /// The source is declared as a file but is not one.
    NotAFile { path: String },
    /// The source is declared as a directory but is not one.
    NotADirectory { path: String },
}

/// Whether the kind found at `from` is the kind that its key declares.
pub open spec fn kind_fits(from: Seq<char>, kind: EntryKind) -> bool {
    match kind {
        EntryKind::Missing => false,
        EntryKind::File => !is_dir_key(from),
        EntryKind::Directory => is_dir_key(from),
    }
}

/// The error for a source `from` where `kind` was found.
pub open spec fn skeleton_error_fits(e: SkeletonError, from: Seq<char>, kind: EntryKind) -> bool {
    match e {
        SkeletonError::Missing { path } => kind == EntryKind::Missing && path@ == from,
        SkeletonError::NotAFile { path } => kind != EntryKind::Missing && !is_dir_key(from)
            && path@ == from,
        SkeletonError::NotADirectory { path } => kind != EntryKind::Missing && is_dir_key(from)
            && path@ == from,
    }
}

/// The copy for the skeleton pair `p` of a descriptor with exclusion set `ex`.
pub open spec fn step_fits(step: CopyStep, p: PathPair, ex: Seq<Seq<char>>) -> bool {
    &&& step.from@ == p.0
    &&& step.to@ == p.1
    &&& step.is_dir == is_dir_key(p.0)
    &&& (step.store == Store::Exclusion <==> ex.contains(p.1))
}

/// A link that a reconstructed project holds: at `link` under the project,
/// to `target` under the exclusion store.
#[derive(Debug)]
pub struct ExclusionLink {
    pub link: String,
    pub target: String,
}

impl Project {
    /// The bootstrap of the skeleton store, given what was found at each
    /// skeleton source (in the skeleton mapping's order): one copy per pair,
    /// into the exclusion store where its destination is excluded, else into
    /// the skeleton root. The first source whose kind does not fit its key
    /// is the error.
    pub fn init_skeleton(&self, kinds: &[EntryKind]) -> (r: Result<Vec<CopyStep>, SkeletonError>)
        requires
            self.wf(),
            kinds@.len() == self.skeleton_view().len(),
        ensures
            r is Ok <==> forall|i: int|
                0 <= i < kinds@.len() ==> kind_fits(self.skeleton_view()[i].0, kinds@[i]),
            r matches Ok(steps) ==> {
                &&& steps@.len() == self.skeleton_view().len()
                &&& forall|i: int|
                    0 <= i < steps@.len() ==> step_fits(
                        #[trigger] steps@[i],
                        self.skeleton_view()[i],
                        self.exclusion_view(),
                    )
                &&& forall|i: int, j: int|
                    0 <= i < j < steps@.len() ==> #[trigger] steps@[i].to@ != #[trigger] steps@[j].to@
            },
            r matches Err(e) ==> exists|i: int|
                0 <= i < kinds@.len() && !kind_fits(self.skeleton_view()[i].0, kinds@[i])
                    && skeleton_error_fits(e, self.skeleton_view()[i].0, kinds@[i]) && forall|
                    j: int,
                | 0 <= j < i ==> kind_fits(self.skeleton_view()[j].0, kinds@[j]),
    {
        let ghost skel = self.skeleton_view();
        let ghost ex = self.exclusion_view();
        let n = self.skel_mapping.len();
        let mut steps: Vec<CopyStep> = Vec::new();
        let mut i: usize = 0;
        while i < n
            invariant
                self.wf(),
                skel == self.skeleton_view(),
                ex == self.exclusion_view(),
                n == skel.len(),
                kinds@.len() == n,
                i <= n,
                steps@.len() == i,
                forall|j: int| 0 <= j < i ==> kind_fits(skel[j].0, kinds@[j]),
                forall|j: int| 0 <= j < i ==> step_fits(#[trigger] steps@[j], skel[j], ex),
            decreases n - i,
        {
            let from = self.skel_mapping.source(i);
            let to = self.skel_mapping.destination(i);
            let is_dir = ends_with_separator(from.as_str());
            match kinds[i] {
                EntryKind::Missing => {
                    return Err(SkeletonError::Missing { path: from.clone() });
                },
                EntryKind::File => {
                    if is_dir {
                        return Err(SkeletonError::NotADirectory { path: from.clone() });
                    }
                },
                EntryKind::Directory => {
                    if !is_dir {
                        return Err(SkeletonError::NotAFile { path: from.clone() });
                    }
                },
            }
            let excluded = contains_str(self.diff_exclude.as_slice(), to.as_str());
            let store = if excluded {
                Store::Exclusion
            } else {
                Store::Skeleton
            };
            steps.push(CopyStep { from: from.clone(), to: to.clone(), store, is_dir });
            i = i + 1;
        }
        assert forall|a: int, b: int|
            0 <= a < b < steps@.len() implies #[trigger] steps@[a].to@ != #[trigger] steps@[b].to@ by {
            assert(step_fits(steps@[a], skel[a], ex));
            assert(step_fits(steps@[b], skel[b], ex));
            assert(destinations(skel)[a] != destinations(skel)[b]);
        }
        Ok(steps)
    }

    /// The links that a reconstructed project gets: one for each excluded
    /// path, at that path without its closing separators, to the same path
    /// under the exclusion store.
    pub fn exclusion_links(&self) -> (r: Vec<ExclusionLink>)
        requires
            self.wf(),
        ensures
            r@.len() == self.exclusion_view().len(),
            forall|i: int|
                0 <= i < r@.len() ==> (#[trigger] r@[i]).target@ == self.exclusion_view()[i]
                    && r@[i].link@ == trim_trailing(self.exclusion_view()[i]),
    {
        let mut out: Vec<ExclusionLink> = Vec::new();
        let mut i: usize = 0;
        while i < self.diff_exclude.len()
            invariant
                i <= self.diff_exclude@.len(),
                out@.len() == i,
                forall|j: int|
                    0 <= j < i ==> (#[trigger] out@[j]).target@ == self.exclusion_view()[j]
                        && out@[j].link@ == trim_trailing(self.exclusion_view()[j]),
            decreases self.diff_exclude@.len() - i,
        {
            let path = &self.diff_exclude[i];
            let link = trim_trailing_separators(path.as_str());
            out.push(ExclusionLink { link, target: path.clone() });
            i = i + 1;
        }
        out
    }
}

} // verus!
