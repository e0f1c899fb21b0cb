//! Normalizing a submission archive: finding its project root and deciding
//! where each entry goes in the descriptor's canonical layout.
use vstd::prelude::*;

use crate::paths::{
    components, contains_str, has_prefix, join_components, join_path, lemma_strs_push,
    parent_components, parent_of_sub, split_path, starts_with, strs, strs_eq,
};
use crate::project::{PathPair, Project};

verus! {

/// The directory, as components, that would make `entry` match `key`.
pub open spec fn parent_for(entry: Seq<char>, key: Seq<char>) -> Option<Seq<Seq<char>>> {
    parent_of_sub(components(entry), components(key))
}

/// Whether `dir` is a project root of an archive with entry names
/// `entries`: every key has an entry that it makes match, and there is at
/// least one key.
pub open spec fn is_root_candidate(
    entries: Seq<Seq<char>>,
    keys: Seq<Seq<char>>,
    dir: Seq<Seq<char>>,
) -> bool {
    &&& keys.len() > 0
    &&& forall|k: int| 0 <= k < keys.len() ==> #[trigger] key_matches(entries, keys[k], dir)
}

/// Whether `key` makes some entry of `entries` match in the directory `dir`.
pub open spec fn key_matches(entries: Seq<Seq<char>>, key: Seq<char>, dir: Seq<Seq<char>>) -> bool {
    exists|e: int| 0 <= e < entries.len() && #[trigger] parent_for(entries[e], key) == Some(dir)
}

/// Why an archive has no single project root.
#[derive(Debug, PartialEq, Eq, Structural)]
pub enum RootError {
    /// No directory holds every key.
    NotFound,
    /// More than one directory holds every key.
    Ambiguous,
}

/// Why a submission could not be normalized.
#[derive(Debug, PartialEq, Eq, Structural)]
pub enum NormalizeError {
    /// The archive has no entries.
    EmptyArchive,
    /// The archive has no single project root.
    Root(RootError),
}

/// Whether `parts` holds the components of each of `names`.
pub open spec fn parts_of(parts: Seq<Vec<String>>, names: Seq<String>) -> bool {
    &&& parts.len() == names.len()
    &&& forall|j: int| 0 <= j < names.len() ==> strs(#[trigger] parts[j]@) == components(names[j]@)
}

/// The components of each name.
fn split_all(names: &[String]) -> (r: Vec<Vec<String>>)
    ensures
        parts_of(r@, names@),
{
    let mut out: Vec<Vec<String>> = Vec::new();
    let mut i: usize = 0;
    while i < names.len()
        invariant
            i <= names@.len(),
            out@.len() == i,
            forall|j: int| 0 <= j < i ==> strs(#[trigger] out@[j]@) == components(names@[j]@),
        decreases names@.len() - i,
    {
        out.push(split_path(names[i].as_str()));
        i = i + 1;
    }
    out
}

/// Whether `key` makes some entry match in the directory `dir`.
fn key_matches_in(
    entries: &[String],
    entry_parts: &[Vec<String>],
    key: &String,
    key_parts: &[String],
    dir: &[String],
) -> (r: bool)
    requires
        parts_of(entry_parts@, entries@),
        strs(key_parts@) == components(key@),
    ensures
        r == key_matches(strs(entries@), key@, strs(dir@)),
{
    let ghost es = strs(entries@);
    let mut x: usize = 0;
    while x < entry_parts.len()
        invariant
            es == strs(entries@),
            parts_of(entry_parts@, entries@),
            strs(key_parts@) == components(key@),
            x <= entry_parts@.len(),
            forall|y: int| 0 <= y < x ==> #[trigger] parent_for(es[y], key@) != Some(strs(dir@)),
        decreases entry_parts@.len() - x,
    {
        assert(es[x as int] == entries@[x as int]@);
        match parent_components(entry_parts[x].as_slice(), key_parts) {
            None => {},
            Some(p) => {
                if strs_eq(p.as_slice(), dir) {
                    assert(parent_for(es[x as int], key@) == Some(strs(dir@)));
                    return true;
                }
            },
        }
        x = x + 1;
    }
    false
}

/// Whether `dir` is a project root.
fn is_root_in(
    entries: &[String],
    entry_parts: &[Vec<String>],
    keys: &[String],
    key_parts: &[Vec<String>],
    dir: &[String],
) -> (r: bool)
    requires
        parts_of(entry_parts@, entries@),
        parts_of(key_parts@, keys@),
    ensures
        r == is_root_candidate(strs(entries@), strs(keys@), strs(dir@)),
{
    let ghost es = strs(entries@);
    let ghost ks = strs(keys@);
    if keys.len() == 0 {
        return false;
    }
    let mut k: usize = 0;
    while k < keys.len()
        invariant
            es == strs(entries@),
            ks == strs(keys@),
            parts_of(entry_parts@, entries@),
            parts_of(key_parts@, keys@),
            k <= keys@.len(),
            forall|kk: int| 0 <= kk < k ==> #[trigger] key_matches(es, ks[kk], strs(dir@)),
        decreases keys@.len() - k,
    {
        assert(ks[k as int] == keys@[k as int]@);
        if !key_matches_in(entries, entry_parts, &keys[k], key_parts[k].as_slice(), dir) {
            return false;
        }
        k = k + 1;
    }
    true
}

/// The distinct directories that make `key` match some entry.
fn parents_of_key(
    entries: &[String],
    entry_parts: &[Vec<String>],
    key: &String,
    key_parts: &[String],
) -> (r: Vec<Vec<String>>)
    requires
        parts_of(entry_parts@, entries@),
        strs(key_parts@) == components(key@),
    ensures
        forall|a: int, b: int|
            0 <= a < b < r@.len() ==> strs(#[trigger] r@[a]@) != strs(#[trigger] r@[b]@),
        forall|d: Seq<Seq<char>>|
            key_matches(strs(entries@), key@, d) ==> exists|j: int|
                0 <= j < r@.len() && strs(#[trigger] r@[j]@) == d,
{
    let ghost es = strs(entries@);
    let mut parents: Vec<Vec<String>> = Vec::new();
    let mut e: usize = 0;
    while e < entry_parts.len()
        invariant
            es == strs(entries@),
            parts_of(entry_parts@, entries@),
            strs(key_parts@) == components(key@),
            e <= entry_parts@.len(),
            forall|a: int, b: int|
                0 <= a < b < parents@.len() ==> strs(#[trigger] parents@[a]@) != strs(
                    #[trigger] parents@[b]@,
                ),
            forall|x: int|
                0 <= x < e && (#[trigger] parent_for(es[x], key@)) is Some ==> exists|j: int|
                    0 <= j < parents@.len() && strs(#[trigger] parents@[j]@) == parent_for(
                        es[x],
                        key@,
                    )->0,
        decreases entry_parts@.len() - e,
    {
        assert(es[e as int] == entries@[e as int]@);
        match parent_components(entry_parts[e].as_slice(), key_parts) {
            None => {},
            Some(p) => {
                let mut seen = false;
                let mut j: usize = 0;
                while j < parents.len()
                    invariant
                        j <= parents@.len(),
                        seen ==> exists|y: int|
                            0 <= y < parents@.len() && strs(#[trigger] parents@[y]@) == strs(p@),
                        !seen ==> forall|y: int|
                            0 <= y < j ==> strs(#[trigger] parents@[y]@) != strs(p@),
                    decreases parents@.len() - j,
                {
                    if strs_eq(parents[j].as_slice(), p.as_slice()) {
                        seen = true;
                    }
                    j = j + 1;
                }
                if !seen {
                    let ghost before = parents@;
                    parents.push(p);
                    assert forall|x: int|
                        0 <= x < e && (#[trigger] parent_for(es[x], key@)) is Some implies exists|
                            j: int,
                        |
                            0 <= j < parents@.len() && strs(#[trigger] parents@[j]@) == parent_for(
                                es[x],
                                key@,
                            )->0 by {
                        let j = choose|j: int|
                            0 <= j < before.len() && strs(#[trigger] before[j]@) == parent_for(
                                es[x],
                                key@,
                            )->0;
                        assert(parents@[j] == before[j]);
                    }
                    assert(strs(parents@[before.len() as int]@) == parent_for(es[e as int], key@)->0);
                }
            },
        }
        e = e + 1;
    }
    assert forall|d: Seq<Seq<char>>| key_matches(es, key@, d) implies exists|j: int|
        0 <= j < parents@.len() && strs(#[trigger] parents@[j]@) == d by {
        let x = choose|x: int| 0 <= x < es.len() && #[trigger] parent_for(es[x], key@) == Some(d);
        assert(parent_for(es[x], key@) is Some);
    }
    parents
}

/// The project root of an archive with entry names `entries`, as
/// components: the one directory that makes every key of `keys` match some
/// entry. None such, or more than one, is an error.
pub fn find_root(entries: &[String], keys: &[String]) -> (r: Result<Vec<String>, RootError>)
    ensures
        r matches Ok(root) ==> is_root_candidate(strs(entries@), strs(keys@), strs(root@))
            && forall|d: Seq<Seq<char>>|
            is_root_candidate(strs(entries@), strs(keys@), d) ==> d == strs(root@),
        r == Err::<Vec<String>, RootError>(RootError::NotFound) <==> forall|d: Seq<Seq<char>>|
            !is_root_candidate(strs(entries@), strs(keys@), d),
        r == Err::<Vec<String>, RootError>(RootError::Ambiguous) <==> exists|
            d1: Seq<Seq<char>>,
            d2: Seq<Seq<char>>,
        |
            d1 != d2 && is_root_candidate(strs(entries@), strs(keys@), d1) && is_root_candidate(
                strs(entries@),
                strs(keys@),
                d2,
            ),
{
    let ghost es = strs(entries@);
    let ghost ks = strs(keys@);
    if keys.len() == 0 {
        return Err(RootError::NotFound);
    }
    let entry_parts = split_all(entries);
    let key_parts = split_all(keys);
    assert(ks[0] == keys@[0]@);
    let parents = parents_of_key(entries, entry_parts.as_slice(), &keys[0], key_parts[0].as_slice());
    // the parents that are roots
    let mut found: Vec<Vec<String>> = Vec::new();
    let mut c: usize = 0;
    while c < parents.len()
        invariant
            es == strs(entries@),
            ks == strs(keys@),
            parts_of(entry_parts@, entries@),
            parts_of(key_parts@, keys@),
            c <= parents@.len(),
            forall|a: int, b: int|
                0 <= a < b < parents@.len() ==> strs(#[trigger] parents@[a]@) != strs(
                    #[trigger] parents@[b]@,
                ),
            forall|j: int|
                0 <= j < found@.len() ==> is_root_candidate(es, ks, strs(#[trigger] found@[j]@)),
            forall|y: int|
                0 <= y < found@.len() ==> exists|j: int|
                    0 <= j < c && strs(#[trigger] found@[y]@) == strs(parents@[j]@),
            forall|a: int, b: int|
                0 <= a < b < found@.len() ==> strs(#[trigger] found@[a]@) != strs(
                    #[trigger] found@[b]@,
                ),
            forall|j: int|
                0 <= j < c && is_root_candidate(es, ks, strs(#[trigger] parents@[j]@)) ==> exists|
                    y: int,
                | 0 <= y < found@.len() && strs(#[trigger] found@[y]@) == strs(parents@[j]@),
        decreases parents@.len() - c,
    {
        if is_root_in(
            entries,
            entry_parts.as_slice(),
            keys,
            key_parts.as_slice(),
            parents[c].as_slice(),
        ) {
            let ghost before = found@;
            found.push(parents[c].clone());
            assert forall|a: int, b: int|
                0 <= a < b < found@.len() implies strs(#[trigger] found@[a]@) != strs(
                    #[trigger] found@[b]@,
                ) by {
                if b == found@.len() - 1 {
                    assert(found@[a] == before[a]);
                    let j = choose|j: int| 0 <= j < c && strs(#[trigger] before[a]@) == strs(parents@[j]@);
                }
            }
            assert forall|y: int| 0 <= y < found@.len() implies exists|j: int|
                0 <= j < c + 1 && strs(#[trigger] found@[y]@) == strs(parents@[j]@) by {
                if y < found@.len() - 1 {
                    assert(found@[y] == before[y]);
                } else {
                    assert(strs(found@[y]@) == strs(parents@[c as int]@));
                }
            }
            assert forall|j: int|
                0 <= j < c + 1 && is_root_candidate(es, ks, strs(#[trigger] parents@[j]@)) implies exists|
                    y: int,
                | 0 <= y < found@.len() && strs(#[trigger] found@[y]@) == strs(parents@[j]@) by {
                if j < c {
                    let y = choose|y: int| 0 <= y < before.len() && strs(#[trigger] before[y]@) == strs(parents@[j]@);
                    assert(found@[y] == before[y]);
                } else {
                    assert(strs(found@[before.len() as int]@) == strs(parents@[j]@));
                }
            }
        }
        c = c + 1;
    }
    // every root is among the found ones
    assert forall|dd: Seq<Seq<char>>| is_root_candidate(es, ks, dd) implies exists|y: int|
        0 <= y < found@.len() && strs(#[trigger] found@[y]@) == dd by {
        assert(key_matches(es, ks[0], dd));
        let j = choose|j: int| 0 <= j < parents@.len() && strs(#[trigger] parents@[j]@) == dd;
    }
    if found.len() == 0 {
        assert forall|dd: Seq<Seq<char>>| !is_root_candidate(es, ks, dd) by {
            if is_root_candidate(es, ks, dd) {
                let y = choose|y: int| 0 <= y < found@.len() && strs(#[trigger] found@[y]@) == dd;
            }
        }
        Err(RootError::NotFound)
    } else if found.len() == 1 {
        let root = found[0].clone();
        assert forall|dd: Seq<Seq<char>>| is_root_candidate(es, ks, dd) implies dd == strs(
            root@,
        ) by {
            let y = choose|y: int| 0 <= y < found@.len() && strs(#[trigger] found@[y]@) == dd;
        }
        assert(is_root_candidate(es, ks, strs(found@[0]@)));
        Ok(root)
    } else {
        assert(is_root_candidate(es, ks, strs(found@[0]@)));
        assert(is_root_candidate(es, ks, strs(found@[1]@)));
        assert(strs(found@[0]@) != strs(found@[1]@));
        Err(RootError::Ambiguous)
    }
}

/// Finds the directory of an archive that directly holds every key, and
/// gives it as a path.
pub fn project_root_in_zip(entries: &[String], keys: &[String]) -> (r: Result<String, RootError>)
    ensures
        r matches Ok(root) ==> exists|d: Seq<Seq<char>>|
            is_root_candidate(strs(entries@), strs(keys@), d) && root@ == join_path(d) && forall|
                d2: Seq<Seq<char>>,
            | is_root_candidate(strs(entries@), strs(keys@), d2) ==> d2 == d,
        r == Err::<String, RootError>(RootError::NotFound) <==> forall|d: Seq<Seq<char>>|
            !is_root_candidate(strs(entries@), strs(keys@), d),
        r == Err::<String, RootError>(RootError::Ambiguous) <==> exists|
            d1: Seq<Seq<char>>,
            d2: Seq<Seq<char>>,
        |
            d1 != d2 && is_root_candidate(strs(entries@), strs(keys@), d1) && is_root_candidate(
                strs(entries@),
                strs(keys@),
                d2,
            ),
{
    match find_root(entries, keys) {
        Ok(parts) => Ok(join_components(parts.as_slice())),
        Err(e) => Err(e),
    }
}

/// Where a root-relative path goes under the first pair of `m` whose source
/// it begins with: that pair's destination followed by the rest of the path.
pub open spec fn mapped_dest(rel: Seq<Seq<char>>, m: Seq<PathPair>) -> Option<Seq<Seq<char>>>
    decreases m.len(),
{
    if m.len() == 0 {
        None
    } else if has_prefix(rel, components(m[0].0)) {
        Some(components(m[0].1) + rel.skip(components(m[0].0).len() as int))
    } else {
        mapped_dest(rel, m.drop_first())
    }
}

/// Where the archive entry `name` goes, for a project root `root`: nowhere
/// when its file name is ignored, when it lies outside the root, or when no
/// mapping source begins its root-relative path.
pub open spec fn entry_dest(
    name: Seq<char>,
    root: Seq<Seq<char>>,
    ignore: Seq<Seq<char>>,
    m: Seq<PathPair>,
) -> Option<Seq<Seq<char>>> {
    let parts = components(name);
    if parts.len() == 0 || ignore.contains(parts.last()) || !has_prefix(parts, root) {
        None
    } else {
        mapped_dest(parts.skip(root.len() as int), m)
    }
}

/// The extractions for the entries `names`, in archive order: the index of
/// each entry that goes somewhere, with its destination.
pub open spec fn extraction_plan(
    names: Seq<Seq<char>>,
    root: Seq<Seq<char>>,
    ignore: Seq<Seq<char>>,
    m: Seq<PathPair>,
) -> Seq<(int, Seq<char>)>
    decreases names.len(),
{
    if names.len() == 0 {
        seq![]
    } else {
        let prev = extraction_plan(names.drop_last(), root, ignore, m);
        match entry_dest(names.last(), root, ignore, m) {
            Some(d) => prev.push(((names.len() - 1) as int, join_path(d))),
            None => prev,
        }
    }
}

/// One extraction: the archive entry at `index` goes to `dest` under the
/// normalized project.
#[derive(Debug)]
pub struct ExtractStep {
    pub index: usize,
    pub dest: String,
}

/// The view of extraction steps.
pub open spec fn steps_view(v: Seq<ExtractStep>) -> Seq<(int, Seq<char>)> {
    v.map_values(|s: ExtractStep| (s.index as int, s.dest@))
}

impl Project {
    /// The root-relative path `rel` mapped by the submission mapping.
    fn map_submission_path(&self, rel: &[String]) -> (r: Option<Vec<String>>)
        requires
            self.wf(),
        ensures
            match r {
                Some(d) => mapped_dest(strs(rel@), self.submission_view()) == Some(strs(d@)),
                None => mapped_dest(strs(rel@), self.submission_view()) is None,
            },
    {
        let m = self.submission_mapping();
        let ghost mv = m@;
        assert(mv.skip(0) =~= mv);
        let mut i: usize = 0;
        while i < m.len()
            invariant
                mv == m@,
                mv == self.submission_view(),
                i <= mv.len(),
                mapped_dest(strs(rel@), mv) == mapped_dest(strs(rel@), mv.skip(i as int)),
            decreases mv.len() - i,
        {
            let key = split_path(m.source(i).as_str());
            assert(mv.skip(i as int)[0] == mv[i as int]);
            assert(mv.skip(i as int).drop_first() =~= mv.skip(i + 1));
            if starts_with(rel, key.as_slice()) {
                let mut out = split_path(m.destination(i).as_str());
                let ghost head = strs(out@);
                let mut k: usize = key.len();
                while k < rel.len()
                    invariant
                        key@.len() <= k <= rel@.len(),
                        strs(out@) == head + strs(rel@).subrange(key@.len() as int, k as int),
                    decreases rel@.len() - k,
                {
                    let ghost before = out@;
                    out.push(rel[k].clone());
                    proof {
                        lemma_strs_push(before, rel@[k as int]);
                    }
                    assert(strs(rel@).subrange(key@.len() as int, k + 1) =~= strs(rel@).subrange(
                        key@.len() as int,
                        k as int,
                    ).push(rel@[k as int]@));
                    k = k + 1;
                }
                assert(strs(rel@).subrange(key@.len() as int, rel@.len() as int) =~= strs(
                    rel@,
                ).skip(key@.len() as int));
                return Some(out);
            }
            i = i + 1;
        }
        None
    }

    /// Where an archive entry goes, as components.
    fn entry_destination(&self, name: &String, root: &[String], ignore: &[String]) -> (r: Option<
        Vec<String>,
    >)
        requires
            self.wf(),
        ensures
            match r {
                Some(d) => entry_dest(name@, strs(root@), strs(ignore@), self.submission_view())
                    == Some(strs(d@)),
                None => entry_dest(name@, strs(root@), strs(ignore@), self.submission_view()) is None,
            },
    {
        let parts = split_path(name.as_str());
        if parts.len() == 0 {
            return None;
        }
        if contains_str(ignore, parts[parts.len() - 1].as_str()) {
            return None;
        }
        if !starts_with(parts.as_slice(), root) {
            return None;
        }
        let mut rel: Vec<String> = Vec::new();
        let mut k: usize = root.len();
        while k < parts.len()
            invariant
                root@.len() <= k <= parts@.len(),
                strs(rel@) == strs(parts@).subrange(root@.len() as int, k as int),
            decreases parts@.len() - k,
        {
            let ghost before = rel@;
            rel.push(parts[k].clone());
            proof {
                lemma_strs_push(before, parts@[k as int]);
            }
            assert(strs(parts@).subrange(root@.len() as int, k + 1) =~= strs(parts@).subrange(
                root@.len() as int,
                k as int,
            ).push(parts@[k as int]@));
            k = k + 1;
        }
        assert(strs(parts@).subrange(root@.len() as int, parts@.len() as int) =~= strs(
            parts@,
        ).skip(root@.len() as int));
        self.map_submission_path(rel.as_slice())
    }

    /// Decides how a submission archive with entry names `entries` is
    /// normalized: an empty archive is refused; the project root must be
    /// the one directory that holds every submission key; then each entry
    /// whose file name is not in `ignore` and whose root-relative path
    /// begins with a submission key goes to that key's destination followed
    /// by the rest of its path.
    pub fn zip_submission_to_normalized_form(&self, entries: &[String], ignore: &[String]) -> (r:
        Result<Vec<ExtractStep>, NormalizeError>)
        requires
            self.wf(),
        ensures
            entries@.len() == 0 ==> r == Err::<Vec<ExtractStep>, NormalizeError>(
                NormalizeError::EmptyArchive,
            ),
            entries@.len() > 0 ==> {
                let es = strs(entries@);
                let ks = crate::project::sources(self.submission_view());
                &&& !(r matches Err(NormalizeError::EmptyArchive))
                &&& ((exists|root: Seq<Seq<char>>|
                    is_root_candidate(es, ks, root) && forall|d: Seq<Seq<char>>|
                        is_root_candidate(es, ks, d) ==> d == root) ==> r is Ok)
                &&& (r == Err::<Vec<ExtractStep>, NormalizeError>(
                    NormalizeError::Root(RootError::NotFound),
                ) <==> forall|d: Seq<Seq<char>>| !is_root_candidate(es, ks, d))
                &&& (r == Err::<Vec<ExtractStep>, NormalizeError>(
                    NormalizeError::Root(RootError::Ambiguous),
                ) <==> exists|d1: Seq<Seq<char>>, d2: Seq<Seq<char>>|
                    d1 != d2 && is_root_candidate(es, ks, d1) && is_root_candidate(es, ks, d2))
                &&& (r matches Ok(steps) ==> exists|root: Seq<Seq<char>>|
                    is_root_candidate(es, ks, root) && steps_view(steps@) == extraction_plan(
                        es,
                        root,
                        strs(ignore@),
                        self.submission_view(),
                    ))
            },
    {
        if entries.len() == 0 {
            return Err(NormalizeError::EmptyArchive);
        }
        let m = self.submission_mapping();
        let mut keys: Vec<String> = Vec::new();
        let mut i: usize = 0;
        while i < m.len()
            invariant
                m@ == self.submission_view(),
                i <= m@.len(),
                strs(keys@) == crate::project::sources(m@).take(i as int),
            decreases m@.len() - i,
        {
            let ghost before = keys@;
            let key = m.source(i).clone();
            keys.push(key);
            proof {
                lemma_strs_push(before, key);
                crate::paths::lemma_take_push(crate::project::sources(m@), i as int);
            }
            i = i + 1;
        }
        assert(crate::project::sources(m@).take(m@.len() as int) =~= crate::project::sources(m@));
        let root = match find_root(entries, keys.as_slice()) {
            Ok(root) => root,
            Err(e) => {
                return Err(NormalizeError::Root(e));
            },
        };
        let ghost es = strs(entries@);
        let ghost rv = strs(root@);
        let ghost iv = strs(ignore@);
        let ghost mv = self.submission_view();
        let mut steps: Vec<ExtractStep> = Vec::new();
        let mut e: usize = 0;
        while e < entries.len()
            invariant
                self.wf(),
                es == strs(entries@),
                rv == strs(root@),
                iv == strs(ignore@),
                mv == self.submission_view(),
                e <= entries@.len(),
                steps_view(steps@) == extraction_plan(es.take(e as int), rv, iv, mv),
            decreases entries@.len() - e,
        {
            assert(es.take(e + 1).drop_last() =~= es.take(e as int));
            assert(es.take(e + 1).last() == entries@[e as int]@);
            match self.entry_destination(&entries[e], root.as_slice(), ignore) {
                None => {},
                Some(d) => {
                    let dest = join_components(d.as_slice());
                    let ghost before = steps@;
                    steps.push(ExtractStep { index: e, dest });
                    assert(steps_view(steps@) =~= steps_view(before).push((e as int, dest@)));
                },
            }
            e = e + 1;
        }
        assert(es.take(entries@.len() as int) =~= es);
        Ok(steps)
    }
}

} // verus!
