//! A relative path as this library sees it: a string of components
//! separated by '/'. Empty components (doubled or trailing separators) carry
//! no meaning; a trailing separator only marks a mapping key as a directory.
use vstd::prelude::*;

verus! {

/// The pieces of `s`: the maximal runs of characters other than `sep`.
pub open spec fn pieces(s: Seq<char>, sep: char) -> Seq<Seq<char>>
    decreases s.len(),
{
    if s.len() == 0 {
        seq![]
    } else {
        let prev = pieces(s.drop_last(), sep);
        if s.last() == sep {
            prev
        } else if s.len() >= 2 && s[s.len() - 2] != sep {
            prev.update(prev.len() - 1, prev.last().push(s.last()))
        } else {
            prev.push(seq![s.last()])
        }
    }
}

/// The components of `s`: the maximal runs of characters other than '/'.
pub open spec fn components(s: Seq<char>) -> Seq<Seq<char>> {
    pieces(s, '/')
}

/// The parts joined by single separators `sep`.
pub open spec fn join_sep(parts: Seq<Seq<char>>, sep: Seq<char>) -> Seq<char>
    decreases parts.len(),
{
    if parts.len() == 0 {
        seq![]
    } else if parts.len() == 1 {
        parts[0]
    } else {
        join_sep(parts.drop_last(), sep) + sep + parts.last()
    }
}

/// The components joined by single separators.
pub open spec fn join_path(parts: Seq<Seq<char>>) -> Seq<char> {
    join_sep(parts, seq!['/'])
}

/// The character sequences of a sequence of strings.
pub open spec fn strs(v: Seq<String>) -> Seq<Seq<char>> {
    v.map_values(|x: String| x@)
}

/// The view of a pushed sequence of strings is the pushed view.
pub proof fn lemma_strs_push(v: Seq<String>, x: String)
    ensures
        strs(v.push(x)) == strs(v).push(x@),
{
    assert(strs(v.push(x)) =~= strs(v).push(x@));
}

/// A prefix one longer is the prefix with one more element.
pub proof fn lemma_take_push<T>(s: Seq<T>, k: int)
    requires
        0 <= k < s.len(),
    ensures
        s.take(k + 1) == s.take(k).push(s[k]),
{
    assert(s.take(k + 1) =~= s.take(k).push(s[k]));
}

/// Whether `needle` stands in `haystack` from index `i` on.
pub open spec fn occurs_at<T>(haystack: Seq<T>, needle: Seq<T>, i: int) -> bool {
    0 <= i && i + needle.len() <= haystack.len() && haystack.subrange(i, i + needle.len())
        == needle
}

/// The first index at or after `i` from which `needle` stands in `haystack`.
pub open spec fn first_occurrence_from<T>(haystack: Seq<T>, needle: Seq<T>, i: int) -> Option<
    int,
>
    decreases haystack.len() + 1 - i,
{
    if i < 0 || i + needle.len() > haystack.len() {
        None
    } else if occurs_at(haystack, needle, i) {
        Some(i)
    } else {
        first_occurrence_from(haystack, needle, i + 1)
    }
}

/// The first index from which `needle` stands in `haystack`, if any.
pub open spec fn first_occurrence<T>(haystack: Seq<T>, needle: Seq<T>) -> Option<int> {
    first_occurrence_from(haystack, needle, 0)
}

/// The components of `path` before the first place where the components of
/// `sub_path` stand in it.
pub open spec fn parent_of_sub(path: Seq<Seq<char>>, sub_path: Seq<Seq<char>>) -> Option<
    Seq<Seq<char>>,
> {
    match first_occurrence(path, sub_path) {
        Some(i) => Some(path.take(i)),
        None => None,
    }
}

/// Whether `path` begins with the components of `prefix`.
pub open spec fn has_prefix<T>(path: Seq<T>, prefix: Seq<T>) -> bool {
    prefix.len() <= path.len() && path.take(prefix.len() as int) == prefix
}

proof fn lemma_first_occurrence_from<T>(h: Seq<T>, n: Seq<T>, i: int)
    requires
        0 <= i,
    ensures
        match first_occurrence_from(h, n, i) {
            Some(k) => i <= k && occurs_at(h, n, k) && forall|j: int|
                i <= j < k ==> !occurs_at(h, n, j),
            None => forall|j: int| i <= j ==> !occurs_at(h, n, j),
        },
    decreases h.len() + 1 - i,
{
    if i + n.len() > h.len() {
    } else if occurs_at(h, n, i) {
    } else {
        lemma_first_occurrence_from(h, n, i + 1);
    }
}

/// The first occurrence is the least index at which the needle stands.
pub proof fn lemma_first_occurrence<T>(h: Seq<T>, n: Seq<T>)
    ensures
        match first_occurrence(h, n) {
            Some(k) => occurs_at(h, n, k) && forall|j: int| 0 <= j < k ==> !occurs_at(h, n, j),
            None => forall|j: int| !occurs_at(h, n, j),
        },
{
    lemma_first_occurrence_from(h, n, 0);
}

/// Splits `s` into its components.
pub fn split_path(s: &str) -> (r: Vec<String>)
    ensures
        strs(r@) == components(s@),
{
    split_on(s, '/')
}

/// Splits `s` into the runs of characters between the separators `sep`.
pub fn split_on(s: &str, sep: char) -> (r: Vec<String>)
    ensures
        strs(r@) == pieces(s@, sep),
{
    let n = s.unicode_len();
    let mut out: Vec<String> = Vec::new();
    let mut start: usize = 0;
    let mut i: usize = 0;
    while i < n
        invariant
            n == s@.len(),
            start <= i <= n,
            forall|k: int| start <= k < i ==> s@[k] != sep,
            start == i && i > 0 ==> s@[i - 1] == sep,
            pieces(s@.take(i as int), sep) == if start < i {
                strs(out@).push(s@.subrange(start as int, i as int))
            } else {
                strs(out@)
            },
        decreases n - i,
    {
        let c = s.get_char(i);
        let ghost pre = s@.take(i as int);
        assert(s@.take(i + 1).drop_last() == pre);
        assert(s@.take(i + 1).last() == c);
        if c == sep {
            if start < i {
                let part = s.substring_char(start, i).to_owned();
                let ghost before = out@;
                out.push(part);
                assert(strs(out@) =~= strs(before).push(part@)) by {
                    assert(strs(out@) =~= strs(out@.drop_last()).push(out@.last()@));
                }
            }
            start = i + 1;
        } else {
            if start < i {
                assert(s@.subrange(start as int, i + 1) =~= s@.subrange(start as int, i as int).push(
                    c,
                ));
                assert(strs(out@).push(s@.subrange(start as int, i + 1)) =~= strs(out@).push(
                    s@.subrange(start as int, i as int),
                ).update(strs(out@).len() as int, s@.subrange(start as int, i + 1)));
            } else {
                assert(s@.subrange(start as int, i + 1) =~= seq![c]);
            }
        }
        i = i + 1;
    }
    if start < n {
        let part = s.substring_char(start, n).to_owned();
        let ghost before = out@;
        out.push(part);
        assert(strs(out@) =~= strs(before).push(part@)) by {
            assert(strs(out@) =~= strs(out@.drop_last()).push(out@.last()@));
        }
    }
    assert(s@.take(n as int) =~= s@);
    out
}

/// Joins `parts` with single separators.
pub fn join_components(parts: &[String]) -> (r: String)
    ensures
        r@ == join_path(strs(parts@)),
{
    proof {
        reveal_strlit("/");
        assert("/"@ =~= seq!['/']);
    }
    join_with(parts, "/")
}

/// Joins `parts` with the separator `sep` between each two.
pub fn join_with(parts: &[String], sep: &str) -> (r: String)
    ensures
        r@ == join_sep(strs(parts@), sep@),
{
    let mut out = String::new();
    let mut i: usize = 0;
    while i < parts.len()
        invariant
            i <= parts@.len(),
            out@ == join_sep(strs(parts@.take(i as int)), sep@),
        decreases parts@.len() - i,
    {
        if i > 0 {
            out.append(sep);
        }
        out.append(parts[i].as_str());
        assert(strs(parts@.take(i + 1)).drop_last() =~= strs(parts@.take(i as int)));
        assert(strs(parts@.take(i + 1)).last() == parts@[i as int]@);
        assert(out@ =~= join_sep(strs(parts@.take(i + 1)), sep@));
        i = i + 1;
    }
    assert(parts@.take(parts@.len() as int) =~= parts@);
    out
}

/// Whether `needle` stands in `haystack` from index `i` on, compared by
/// characters.
fn occurs_here(haystack: &[String], needle: &[String], i: usize) -> (r: bool)
    requires
        i + needle@.len() <= haystack@.len(),
    ensures
        r == occurs_at(strs(haystack@), strs(needle@), i as int),
{
    let hl = haystack.len();
    let mut k: usize = 0;
    while k < needle.len()
        invariant
            hl == haystack@.len(),
            i + needle@.len() <= haystack@.len(),
            k <= needle@.len(),
            forall|j: int| 0 <= j < k ==> haystack@[i + j]@ == needle@[j]@,
        decreases needle@.len() - k,
    {
        if haystack[i + k] != needle[k] {
            assert(strs(haystack@).subrange(i as int, i + needle@.len())[k as int] != strs(
                needle@,
            )[k as int]);
            return false;
        }
        k = k + 1;
    }
    assert(strs(haystack@).subrange(i as int, i + needle@.len()) =~= strs(needle@));
    true
}

/// The first index from which `needle` stands in `haystack`.
pub fn find_subarray_index(haystack: &[String], needle: &[String]) -> (r: Option<usize>)
    ensures
        r matches Some(i) ==> occurs_at(strs(haystack@), strs(needle@), i as int) && forall|
            j: int,
        | 0 <= j < i ==> !occurs_at(strs(haystack@), strs(needle@), j),
        r is None ==> forall|j: int| !occurs_at(strs(haystack@), strs(needle@), j),
        r matches Some(i) ==> first_occurrence(strs(haystack@), strs(needle@)) == Some(i as int),
        r is None ==> first_occurrence(strs(haystack@), strs(needle@)) is None,
{
    let ghost h = strs(haystack@);
    let ghost nd = strs(needle@);
    proof {
        lemma_first_occurrence(h, nd);
    }
    if needle.len() > haystack.len() {
        return None;
    }
    let last = haystack.len() - needle.len();
    let mut i: usize = 0;
    loop
        invariant
            last + needle@.len() == haystack@.len(),
            h == strs(haystack@),
            nd == strs(needle@),
            i <= last,
            forall|j: int| 0 <= j < i ==> !occurs_at(h, nd, j),
            first_occurrence(h, nd) == first_occurrence_from(h, nd, i as int),
        decreases last + 1 - i,
    {
        if occurs_here(haystack, needle, i) {
            return Some(i);
        }
        if i == last {
            assert forall|j: int| !occurs_at(h, nd, j) by {
                if 0 <= j && j <= i {
                }
            }
            proof {
                lemma_first_occurrence(h, nd);
            }
            return None;
        }
        i = i + 1;
    }
}

/// Given `path`, and a `sub_path` whose components stand somewhere in it,
/// the components of `path` before the first such place, as components.
pub fn parent_components(path: &[String], sub_path: &[String]) -> (r: Option<Vec<String>>)
    ensures
        match r {
            Some(p) => parent_of_sub(strs(path@), strs(sub_path@)) == Some(strs(p@)),
            None => parent_of_sub(strs(path@), strs(sub_path@)) is None,
        },
{
    match find_subarray_index(path, sub_path) {
        None => None,
        Some(index) => {
            let mut out: Vec<String> = Vec::new();
            let mut k: usize = 0;
            while k < index
                invariant
                    index <= path@.len(),
                    k <= index,
                    strs(out@) == strs(path@).take(k as int),
                decreases index - k,
            {
                let ghost before = out@;
                out.push(path[k].clone());
                assert(out@ == before.push(path@[k as int]));
                assert(strs(before).len() == before.len());
                assert(before.len() == k);
                assert(out@.len() == k + 1);
                assert forall|j: int| 0 <= j < k + 1 implies strs(out@)[j] == strs(path@).take(
                    k + 1,
                )[j] by {
                    if j < k {
                        assert(strs(before)[j] == strs(path@).take(k as int)[j]);
                    }
                }
                assert(strs(out@) =~= strs(path@).take(k + 1));
                k = k + 1;
            }
            Some(out)
        },
    }
}

/// Given a path such as `etc/conf/hold/home` and a sub path such as
/// `conf/hold`, the part of the path before the sub path (`etc`).
pub fn subpath_parent(path: &str, sub_path: &str) -> (r: Option<String>)
    ensures
        match r {
            Some(p) => parent_of_sub(components(path@), components(sub_path@)) matches Some(
                q,
            ) && p@ == join_path(q),
            None => parent_of_sub(components(path@), components(sub_path@)) is None,
        },
{
    let path_parts = split_path(path);
    let sub_parts = split_path(sub_path);
    match parent_components(path_parts.as_slice(), sub_parts.as_slice()) {
        None => None,
        Some(parts) => Some(join_components(parts.as_slice())),
    }
}

/// Whether two sequences of strings hold the same characters.
pub fn strs_eq(a: &[String], b: &[String]) -> (r: bool)
    ensures
        r == (strs(a@) == strs(b@)),
{
    if a.len() != b.len() {
        assert(strs(a@).len() != strs(b@).len());
        return false;
    }
    let r = occurs_here(a, b, 0);
    assert(strs(a@).subrange(0, b@.len() as int) =~= strs(a@));
    r
}

/// Whether the components of `path` begin with those of `prefix`.
pub fn starts_with(path: &[String], prefix: &[String]) -> (r: bool)
    ensures
        r == has_prefix(strs(path@), strs(prefix@)),
{
    if prefix.len() > path.len() {
        return false;
    }
    let r = occurs_here(path, prefix, 0);
    assert(strs(path@).subrange(0, prefix@.len() as int) =~= strs(path@).take(
        prefix@.len() as int,
    ));
    r
}

} // verus!

verus! {

/// Whether `a` and `b` hold the same characters.
pub fn str_eq(a: &str, b: &str) -> (r: bool)
    ensures
        r == (a@ == b@),
{
    let n = a.unicode_len();
    if n != b.unicode_len() {
        return false;
    }
    let mut i: usize = 0;
    while i < n
        invariant
            n == a@.len(),
            n == b@.len(),
            i <= n,
            forall|j: int| 0 <= j < i ==> a@[j] == b@[j],
        decreases n - i,
    {
        if a.get_char(i) != b.get_char(i) {
            return false;
        }
        i = i + 1;
    }
    assert(a@ =~= b@);
    true
}

/// Whether the sequence `v` holds the string `s`, compared by characters.
pub fn contains_str(v: &[String], s: &str) -> (r: bool)
    ensures
        r == strs(v@).contains(s@),
{
    let mut i: usize = 0;
    while i < v.len()
        invariant
            i <= v@.len(),
            forall|j: int| 0 <= j < i ==> v@[j]@ != s@,
        decreases v@.len() - i,
    {
        if str_eq(v[i].as_str(), s) {
            assert(strs(v@)[i as int] == s@);
            return true;
        }
        i = i + 1;
    }
    assert forall|j: int| 0 <= j < strs(v@).len() implies strs(v@)[j] != s@ by {
        assert(strs(v@)[j] == v@[j]@);
    }
    false
}

/// Whether `s` ends with a separator, which marks a directory.
pub open spec fn is_dir_key(s: Seq<char>) -> bool {
    s.len() > 0 && s.last() == '/'
}

/// Whether `s` ends with a separator.
pub fn ends_with_separator(s: &str) -> (r: bool)
    ensures
        r == is_dir_key(s@),
{
    let n = s.unicode_len();
    n > 0 && s.get_char(n - 1) == '/'
}

/// `s` without the separators that end it.
pub open spec fn trim_trailing(s: Seq<char>) -> Seq<char>
    decreases s.len(),
{
    if is_dir_key(s) {
        trim_trailing(s.drop_last())
    } else {
        s
    }
}

/// `s` without the separators that end it (`src/test/` becomes `src/test`).
pub fn trim_trailing_separators(s: &str) -> (r: String)
    ensures
        r@ == trim_trailing(s@),
{
    let mut n = s.unicode_len();
    assert(s@.take(n as int) =~= s@);
    while n > 0 && s.get_char(n - 1) == '/'
        invariant
            n <= s@.len(),
            trim_trailing(s@.take(n as int)) == trim_trailing(s@),
        decreases n,
    {
        assert(s@.take(n as int).drop_last() =~= s@.take(n - 1));
        n = n - 1;
    }
    assert(!is_dir_key(s@.take(n as int)));
    s.substring_char(0, n).to_owned()
}

} // verus!
