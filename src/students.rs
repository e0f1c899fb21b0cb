//! The students of a project, and the names that their submissions carry.
use vstd::prelude::*;

use crate::paths::strs;

verus! {

/// Whether `a` comes before `b`, character by character.
pub open spec fn str_lt(a: Seq<char>, b: Seq<char>) -> bool
    decreases a.len(),
{
    if a.len() == 0 {
        b.len() > 0
    } else if b.len() == 0 {
        false
    } else if a[0] != b[0] {
        a[0] < b[0]
    } else {
        str_lt(a.drop_first(), b.drop_first())
    }
}

/// Whether `a` comes before `b` or equals it.
pub open spec fn str_le(a: Seq<char>, b: Seq<char>) -> bool {
    a == b || str_lt(a, b)
}

/// Whether `s` is in order.
pub open spec fn sorted(s: Seq<Seq<char>>) -> bool {
    forall|i: int, j: int| 0 <= i < j < s.len() ==> str_le(#[trigger] s[i], #[trigger] s[j])
}

proof fn lemma_lt_total(a: Seq<char>, b: Seq<char>)
    ensures
        a == b || str_lt(a, b) || str_lt(b, a),
        !(str_lt(a, b) && str_lt(b, a)),
        !str_lt(a, a),
    decreases a.len(),
{
    if a.len() > 0 && b.len() > 0 {
        lemma_lt_total(a.drop_first(), b.drop_first());
        if a[0] == b[0] && a.drop_first() == b.drop_first() {
            assert(a =~= seq![a[0]] + a.drop_first());
            assert(b =~= seq![b[0]] + b.drop_first());
        }
    } else if a.len() == 0 && b.len() == 0 {
        assert(a =~= b);
    }
    if a.len() > 0 {
        lemma_lt_total(a.drop_first(), a.drop_first());
    }
}

proof fn lemma_lt_trans(a: Seq<char>, b: Seq<char>, c: Seq<char>)
    requires
        str_lt(a, b),
        str_lt(b, c),
    ensures
        str_lt(a, c),
    decreases a.len(),
{
    if a.len() > 0 && b.len() > 0 && c.len() > 0 {
        if a[0] == b[0] && b[0] == c[0] {
            lemma_lt_trans(a.drop_first(), b.drop_first(), c.drop_first());
        }
    }
}

/// Whether `a` comes before `b`.
fn less(a: &str, b: &str) -> (r: bool)
    ensures
        r == str_lt(a@, b@),
{
    let n = a.unicode_len();
    let m = b.unicode_len();
    let mut i: usize = 0;
    assert(a@.skip(0) =~= a@ && b@.skip(0) =~= b@);
    while i < n && i < m
        invariant
            n == a@.len(),
            m == b@.len(),
            i <= n,
            i <= m,
            str_lt(a@, b@) == str_lt(a@.skip(i as int), b@.skip(i as int)),
        decreases n - i,
    {
        let x = a.get_char(i);
        let y = b.get_char(i);
        if x != y {
            return x < y;
        }
        assert(a@.skip(i as int).drop_first() =~= a@.skip(i + 1));
        assert(b@.skip(i as int).drop_first() =~= b@.skip(i + 1));
        i = i + 1;
    }
    i == n && i < m
}

/// The students, in order: the names under which diffs are stored, sorted.
#[verifier::rlimit(40)]
pub fn list_students(names: Vec<String>) -> (r: Vec<String>)
    ensures
        sorted(strs(r@)),
        r@.to_multiset() == names@.to_multiset(),
{
    let mut out: Vec<String> = Vec::new();
    let mut i: usize = 0;
    proof {
        broadcast use vstd::seq_lib::group_to_multiset_ensures;
    }
    while i < names.len()
        invariant
            i <= names@.len(),
            sorted(strs(out@)),
            out@.to_multiset() == names@.take(i as int).to_multiset(),
        decreases names@.len() - i,
    {
        broadcast use vstd::seq_lib::group_to_multiset_ensures;
        let x = names[i].clone();
        let mut p: usize = 0;
        while p < out.len() && !less(x.as_str(), out[p].as_str())
            invariant
                p <= out@.len(),
                forall|k: int| 0 <= k < p ==> str_le(#[trigger] out@[k]@, x@),
            decreases out@.len() - p,
        {
            proof {
                lemma_lt_total(x@, out@[p as int]@);
            }
            p = p + 1;
        }
        let ghost before = out@;
        out.insert(p, x);
        proof {
            assert(names@.take(i + 1) =~= names@.take(i as int).push(names@[i as int]));
            before.insert_ensures(p as int, x);
            assert forall|a: int, b: int|
                0 <= a < b < strs(out@).len() implies str_le(
                #[trigger] strs(out@)[a],
                #[trigger] strs(out@)[b],
            ) by {
                assert(strs(out@)[a] == out@[a]@);
                assert(strs(out@)[b] == out@[b]@);
                if a < p && b < p {
                    assert(strs(before)[a] == before[a]@);
                    assert(strs(before)[b] == before[b]@);
                } else if a < p && b == p {
                } else if a < p {
                    assert(strs(before)[a] == before[a]@);
                    assert(strs(before)[b - 1] == before[b - 1]@);
                    assert(str_le(before[a]@, before[b - 1]@));
                } else if a == p {
                    assert(strs(before)[p as int] == before[p as int]@);
                    assert(strs(before)[b - 1] == before[b - 1]@);
                    assert(str_lt(x@, before[p as int]@));
                    if b - 1 > p {
                        assert(str_le(before[p as int]@, before[b - 1]@));
                        if str_lt(before[p as int]@, before[b - 1]@) {
                            lemma_lt_trans(x@, before[p as int]@, before[b - 1]@);
                        }
                    }
                } else {
                    assert(strs(before)[a - 1] == before[a - 1]@);
                    assert(strs(before)[b - 1] == before[b - 1]@);
                }
            }
        }
        i = i + 1;
    }
    assert(names@.take(names@.len() as int) =~= names@);
    out
}

/// Whether `s` is in strictly increasing order.
pub open spec fn strictly_sorted(s: Seq<Seq<char>>) -> bool {
    forall|i: int, j: int| 0 <= i < j < s.len() ==> str_lt(#[trigger] s[i], #[trigger] s[j])
}

/// `names` sorted, each name once.
pub fn sorted_unique(names: Vec<String>) -> (r: Vec<String>)
    ensures
        strictly_sorted(strs(r@)),
        strs(r@).no_duplicates(),
        strs(r@).to_set() == strs(names@).to_set(),
{
    let ghost orig = names@;
    let ordered = list_students(names);
    let ghost sv = strs(ordered@);
    proof {
        broadcast use vstd::seq_lib::group_to_multiset_ensures;
        assert forall|x: String|
            #![trigger ordered@.contains(x)]
            #![trigger orig.contains(x)]
            ordered@.contains(x) <==> orig.contains(x) by {
            assert(ordered@.to_multiset().count(x) == orig.to_multiset().count(x));
        }
        assert forall|c: Seq<char>| sv.contains(c) <==> strs(orig).contains(c) by {
            if sv.contains(c) {
                let k = choose|k: int| 0 <= k < sv.len() && sv[k] == c;
                assert(ordered@.contains(ordered@[k]));
                let j = choose|j: int| 0 <= j < orig.len() && orig[j] == ordered@[k];
                assert(strs(orig)[j] == c);
            }
            if strs(orig).contains(c) {
                let k = choose|k: int| 0 <= k < strs(orig).len() && strs(orig)[k] == c;
                assert(orig.contains(orig[k]));
                let j = choose|j: int| 0 <= j < ordered@.len() && ordered@[j] == orig[k];
                assert(sv[j] == c);
            }
        }
    }
    let mut out: Vec<String> = Vec::new();
    let mut i: usize = 0;
    while i < ordered.len()
        invariant
            sv == strs(ordered@),
            sorted(sv),
            i <= sv.len(),
            strictly_sorted(strs(out@)),
            strs(out@).to_set() == sv.take(i as int).to_set(),
            i > 0 ==> out@.len() > 0 && strs(out@).last() == sv[i - 1],
            i == 0 ==> out@.len() == 0,
        decreases sv.len() - i,
    {
        let ghost before = out@;
        assert(sv.take(i + 1) =~= sv.take(i as int).push(sv[i as int]));
        proof {
            sv.take(i as int).lemma_push_to_set_commute(sv[i as int]);
        }
        assert(sv[i as int] == ordered@[i as int]@);
        if i == 0 || !crate::paths::str_eq(out[out.len() - 1].as_str(), ordered[i].as_str()) {
            let x = ordered[i].clone();
            out.push(x);
            proof {
                crate::paths::lemma_strs_push(before, x);
                strs(before).lemma_push_to_set_commute(x@);
                if i > 0 {
                    assert(str_le(sv[i - 1], sv[i as int]));
                    assert forall|a: int, b: int|
                        0 <= a < b < strs(out@).len() implies str_lt(
                        #[trigger] strs(out@)[a],
                        #[trigger] strs(out@)[b],
                    ) by {
                        if b == strs(out@).len() - 1 && a < b - 1 {
                            assert(str_lt(strs(before)[a], strs(before).last()));
                            lemma_lt_trans(strs(before)[a], strs(before).last(), x@);
                        }
                    }
                }
            }
        } else {
            proof {
                assert(strs(out@).to_set().contains(sv[i as int])) by {
                    assert(strs(out@)[strs(out@).len() - 1] == sv[i as int]);
                }
                assert(sv.take(i as int).to_set().insert(sv[i as int]) =~= sv.take(i as int).to_set());
            }
        }
        i = i + 1;
    }
    assert(sv.take(sv.len() as int) =~= sv);
    proof {
        assert forall|a: int, b: int|
            0 <= a < strs(out@).len() && 0 <= b < strs(out@).len() && a != b implies strs(out@)[a]
            != strs(out@)[b] by {
            if a < b {
                lemma_lt_total(strs(out@)[a], strs(out@)[b]);
            } else {
                lemma_lt_total(strs(out@)[b], strs(out@)[a]);
            }
        }
    }
    out
}

/// The index of the last `c` in `s` at or before index `i - 1`.
pub open spec fn last_index_before(s: Seq<char>, c: char, i: int) -> Option<int>
    decreases i,
{
    if i <= 0 {
        None
    } else if s[i - 1] == c {
        Some(i - 1)
    } else {
        last_index_before(s, c, i - 1)
    }
}

/// The extension of the path `name`: what follows the last dot of its last
/// component, where that dot is not the component's first character.
pub open spec fn extension_of(name: Seq<char>) -> Option<Seq<char>> {
    let cs = crate::paths::components(name);
    if cs.len() == 0 {
        None
    } else {
        let f = cs.last();
        match last_index_before(f, '.', f.len() as int) {
            Some(k) => if k > 0 {
                Some(f.skip(k + 1))
            } else {
                None
            },
            None => None,
        }
    }
}

/// The index of the first `c` in `s` at or after index `i`.
pub open spec fn first_index_from(s: Seq<char>, c: char, i: int) -> Option<int>
    decreases s.len() - i,
{
    if i < 0 || i >= s.len() {
        None
    } else if s[i] == c {
        Some(i)
    } else {
        first_index_from(s, c, i + 1)
    }
}

/// The extension of the path `name`.
pub fn extension(name: &str) -> (r: Option<String>)
    ensures
        match r {
            Some(e) => extension_of(name@) == Some(e@),
            None => extension_of(name@) is None,
        },
{
    let cs = crate::paths::split_path(name);
    if cs.len() == 0 {
        return None;
    }
    let f = cs[cs.len() - 1].as_str();
    assert(f@ == crate::paths::strs(cs@).last());
    let n = f.unicode_len();
    let mut i: usize = n;
    while i > 0 && f.get_char(i - 1) != '.'
        invariant
            n == f@.len(),
            i <= n,
            last_index_before(f@, '.', n as int) == last_index_before(f@, '.', i as int),
        decreases i,
    {
        i = i - 1;
    }
    if i <= 1 {
        return None;
    }
    Some(f.substring_char(i, n).to_owned())
}

/// Why an entry of a submissions archive gives no student's submission.
#[derive(Clone, Copy, Debug, PartialEq, Eq, Structural)]
pub enum EntryError {
    /// The entry is not an archive.
    NotAnArchive,
    /// The entry's name has no `_` to end a student id.
    NoStudentId,
}

/// The student whose submission the entry `name` of a submissions archive
/// is: the name up to its first `_`. Entries that are not `.zip` archives
/// hold no submission.
pub fn submission_student(name: &str) -> (r: Result<String, EntryError>)
    ensures
        extension_of(name@) != Some("zip"@) ==> r == Err::<String, EntryError>(
            EntryError::NotAnArchive,
        ),
        extension_of(name@) == Some("zip"@) ==> match first_index_from(name@, '_', 0) {
            Some(k) => r matches Ok(s) && s@ == name@.take(k),
            None => r == Err::<String, EntryError>(EntryError::NoStudentId),
        },
{
    let is_zip = match extension(name) {
        Some(e) => crate::paths::str_eq(e.as_str(), "zip"),
        None => false,
    };
    if !is_zip {
        return Err(EntryError::NotAnArchive);
    }
    let n = name.unicode_len();
    let mut i: usize = 0;
    while i < n && name.get_char(i) != '_'
        invariant
            n == name@.len(),
            i <= n,
            first_index_from(name@, '_', 0) == first_index_from(name@, '_', i as int),
        decreases n - i,
    {
        i = i + 1;
    }
    if i == n {
        return Err(EntryError::NoStudentId);
    }
    Ok(name.substring_char(0, i).to_owned())
}

/// Why a project cannot be created.
#[derive(Clone, Copy, Debug, PartialEq, Eq, Structural)]
pub enum CreateError {
    /// A project already exists here.
    AlreadyExists,
    /// The skeleton is not a directory.
    SkeletonNotADirectory,
    /// The submissions are not an archive file.
    NotAnArchive,
}

/// Whether a project can be created here: none may exist yet, the skeleton
/// must be a directory, and the submissions a file whose extension, if it
/// has one, is `zip`.
pub fn check_create_inputs(
    project_exists: bool,
    skeleton_is_dir: bool,
    submissions_is_file: bool,
    submissions_path: &str,
) -> (r: Result<(), CreateError>)
    ensures
        project_exists ==> r == Err::<(), CreateError>(CreateError::AlreadyExists),
        !project_exists && !skeleton_is_dir ==> r == Err::<(), CreateError>(
            CreateError::SkeletonNotADirectory,
        ),
        !project_exists && skeleton_is_dir ==> (r is Ok <==> submissions_is_file && (
        extension_of(submissions_path@) is None || extension_of(submissions_path@) == Some(
            "zip"@,
        ))),
        !project_exists && skeleton_is_dir && r is Err ==> r == Err::<(), CreateError>(
            CreateError::NotAnArchive,
        ),
{
    if project_exists {
        return Err(CreateError::AlreadyExists);
    }
    if !skeleton_is_dir {
        return Err(CreateError::SkeletonNotADirectory);
    }
    if !submissions_is_file {
        return Err(CreateError::NotAnArchive);
    }
    match extension(submissions_path) {
        Some(e) => {
            if !crate::paths::str_eq(e.as_str(), "zip") {
                return Err(CreateError::NotAnArchive);
            }
        },
        None => {},
    }
    Ok(())
}

} // verus!
