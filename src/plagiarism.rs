//! Similarity of two students' submissions, by the fuzzy hashes of their
//! diffs with the diff's own header lines left out.
use vstd::prelude::*;

use crate::paths::{has_prefix, strs};
use crate::surefire::opt_view;
use crate::text::{concat, lemma_concat_push, lines, split_lines};

verus! {

/// Whether `c` is white space as Unicode defines it.
pub open spec fn is_white(c: char) -> bool {
    let u = c as u32;
    (0x9 <= u && u <= 0xd) || u == 0x20 || u == 0x85 || u == 0xa0 || u == 0x1680 || (0x2000 <= u
        && u <= 0x200a) || u == 0x2028 || u == 0x2029 || u == 0x202f || u == 0x205f || u == 0x3000
}

/// `s` without the white space that begins it.
pub open spec fn trim_start(s: Seq<char>) -> Seq<char>
    decreases s.len(),
{
    if s.len() > 0 && is_white(s[0]) {
        trim_start(s.drop_first())
    } else {
        s
    }
}

/// Whether `line` is a header line of a unified diff: one that, after its
/// leading white space, begins with `diff -ruN`, `---`, `+++` or `@@`.
pub open spec fn is_diff_header(line: Seq<char>) -> bool {
    let t = trim_start(line);
    has_prefix(t, "diff -ruN"@) || has_prefix(t, "---"@) || has_prefix(t, "+++"@) || has_prefix(
        t,
        "@@"@,
    )
}

/// The lines of `diff` that are not header lines, one after another.
pub open spec fn diff_body(diff: Seq<char>) -> Seq<char> {
    concat(lines(diff).filter(|l: Seq<char>| !is_diff_header(l)))
}

/// Whether `c` is white space.
fn white(c: char) -> (r: bool)
    ensures
        r == is_white(c),
{
    let u = c as u32;
    (0x9 <= u && u <= 0xd) || u == 0x20 || u == 0x85 || u == 0xa0 || u == 0x1680 || (0x2000 <= u
        && u <= 0x200a) || u == 0x2028 || u == 0x2029 || u == 0x202f || u == 0x205f || u == 0x3000
}

/// Whether `s` begins with `prefix`.
fn begins_with(s: &str, prefix: &str) -> (r: bool)
    ensures
        r == has_prefix(s@, prefix@),
{
    let n = s.unicode_len();
    let m = prefix.unicode_len();
    if m > n {
        return false;
    }
    let r = crate::paths::str_eq(s.substring_char(0, m), prefix);
    assert(s@.subrange(0, m as int) =~= s@.take(m as int));
    r
}

/// Whether `line` is a header line of a unified diff.
pub fn diff_header(line: &str) -> (r: bool)
    ensures
        r == is_diff_header(line@),
{
    let n = line.unicode_len();
    let mut k: usize = 0;
    assert(line@.skip(0) =~= line@);
    while k < n && white(line.get_char(k))
        invariant
            n == line@.len(),
            k <= n,
            trim_start(line@) == trim_start(line@.skip(k as int)),
        decreases n - k,
    {
        assert(line@.skip(k as int).drop_first() =~= line@.skip(k + 1));
        k = k + 1;
    }
    let t = line.substring_char(k, n);
    assert(t@ =~= line@.skip(k as int));
    begins_with(t, "diff -ruN") || begins_with(t, "---") || begins_with(t, "+++") || begins_with(
        t,
        "@@",
    )
}

/// The lines of `diff` that are not header lines.
pub fn strip_diff_headers(diff: &str) -> (r: String)
    ensures
        r@ == diff_body(diff@),
{
    let ls = split_lines(diff);
    let ghost lv = strs(ls@);
    let ghost keep = |l: Seq<char>| !is_diff_header(l);
    let mut out = String::new();
    let mut i: usize = 0;
    while i < ls.len()
        invariant
            lv == strs(ls@),
            lv == lines(diff@),
            keep == (|l: Seq<char>| !is_diff_header(l)),
            i <= ls@.len(),
            out@ == concat(lv.take(i as int).filter(keep)),
        decreases ls@.len() - i,
    {
        proof {
            lv.take(i as int).lemma_filter_push(lv[i as int], keep);
            assert(lv.take(i + 1) =~= lv.take(i as int).push(lv[i as int]));
        }
        assert(lv[i as int] == ls@[i as int]@);
        if !diff_header(ls[i].as_str()) {
            proof {
                lemma_concat_push(lv.take(i as int).filter(keep), lv[i as int]);
            }
            out.append(ls[i].as_str());
        }
        i = i + 1;
    }
    assert(lv.take(ls@.len() as int) =~= lv);
    out
}

/// The TLSH hash of the bytes of `text`, or none where no hash can be made
/// (the text is too short or too uniform).
pub uninterp spec fn tlsh_hash_of(text: Seq<char>) -> Option<Seq<char>>;

/// The most characters that a text to hash may have: `build` fails by
/// panicking beyond 4224281216 bytes, and a character takes at most four.
pub const MAX_HASHED_CHARS: usize = 1056070304;

/// Relies on tlsh-fixed's `TlshBuilder` (128 buckets, one-byte checksum,
/// version 4) fed with the bytes of `text`, and on `Tlsh::hash`: the hash
/// depends on the text alone; `build` refusing gives none.
#[verifier::external_body]
fn tlsh_hash(text: &str) -> (r: Option<String>)
    requires
        text@.len() <= MAX_HASHED_CHARS,
    ensures
        opt_view(r) == tlsh_hash_of(text@),
{
    let mut builder = tlsh::TlshBuilder::new(
        tlsh::BucketKind::Bucket128,
        tlsh::ChecksumKind::OneByte,
        tlsh::Version::Version4,
    );
    builder.update(text.as_bytes());
    builder.build().ok().map(|t| t.hash())
}

/// The TLSH distance, length included, of two hashes; none where either is
/// not a hash.
pub uninterp spec fn tlsh_distance_of(a: Seq<char>, b: Seq<char>) -> Option<nat>;

/// Relies on tlsh-fixed's `Tlsh::from_str`, which reads a hash back, and
/// `Tlsh::diff` with the length counted: the distance depends on the two
/// hashes alone. `from_str` slices the text by bytes and `diff` walks the
/// second hash by the first one's lengths, so both must be ASCII and of one
/// length (the length fixes the hash's layout).
#[verifier::external_body]
fn tlsh_distance(a: &str, b: &str) -> (r: Option<usize>)
    requires
        vstd::utf8::is_ascii_chars(a@),
        vstd::utf8::is_ascii_chars(b@),
        a@.len() == b@.len(),
    ensures
        match r {
            Some(d) => tlsh_distance_of(a@, b@) == Some(d as nat),
            None => tlsh_distance_of(a@, b@) is None,
        },
{
    let x: tlsh::Tlsh = a.parse().ok()?;
    let y: tlsh::Tlsh = b.parse().ok()?;
    Some(x.diff(&y, true))
}

/// Why two submissions cannot be compared.
#[derive(Debug, PartialEq, Eq)]
pub enum PlagiarismError {
    /// The name is not a student's.
    NotAStudent(String),
    /// No hash can be made of the student's diff.
    NoHash(String),
    /// The two hashes have different layouts.
    Incomparable,
    /// The student's diff is too large to hash.
    TooLarge(String),
}

/// The similarity distance of two students' diffs `diff1` and `diff2`
/// (smaller is more alike): each diff without its header lines is hashed,
/// and the hashes are compared. A name that is not among `students`, or a
/// diff that gives no hash, is an error.
pub fn plagiarism_check_students(
    students: &[String],
    student1: &str,
    student2: &str,
    diff1: &str,
    diff2: &str,
) -> (r: Result<usize, PlagiarismError>)
    ensures
        !strs(students@).contains(student1@) ==> (r matches Err(PlagiarismError::NotAStudent(s))
            && s@ == student1@),
        strs(students@).contains(student1@) && !strs(students@).contains(student2@) ==> (r matches Err(
            PlagiarismError::NotAStudent(s),
        ) && s@ == student2@),
        strs(students@).contains(student1@) && strs(students@).contains(student2@) && diff_body(
            diff1@,
        ).len() > MAX_HASHED_CHARS ==> (r matches Err(PlagiarismError::TooLarge(s)) && s@
            == student1@),
        strs(students@).contains(student1@) && strs(students@).contains(student2@) && diff_body(
            diff1@,
        ).len() <= MAX_HASHED_CHARS && diff_body(diff2@).len() > MAX_HASHED_CHARS ==> (r matches Err(
            PlagiarismError::TooLarge(s),
        ) && s@ == student2@),
        strs(students@).contains(student1@) && strs(students@).contains(student2@) && diff_body(
            diff1@,
        ).len() <= MAX_HASHED_CHARS && diff_body(diff2@).len() <= MAX_HASHED_CHARS ==> match (
            tlsh_hash_of(diff_body(diff1@)),
            tlsh_hash_of(diff_body(diff2@)),
        ) {
            (None, _) => r matches Err(PlagiarismError::NoHash(s)) && s@ == student1@,
            (Some(_), None) => r matches Err(PlagiarismError::NoHash(s)) && s@ == student2@,
            (Some(h1), Some(h2)) => if vstd::utf8::is_ascii_chars(h1)
                && vstd::utf8::is_ascii_chars(h2) && h1.len() == h2.len() {
                match tlsh_distance_of(h1, h2) {
                    Some(d) => r == Ok::<usize, PlagiarismError>(d as usize),
                    None => r == Err::<usize, PlagiarismError>(PlagiarismError::Incomparable),
                }
            } else {
                r == Err::<usize, PlagiarismError>(PlagiarismError::Incomparable)
            },
        },
{
    if !crate::darwin_config::is_student(students, student1) {
        return Err(PlagiarismError::NotAStudent(student1.to_owned()));
    }
    if !crate::darwin_config::is_student(students, student2) {
        return Err(PlagiarismError::NotAStudent(student2.to_owned()));
    }
    let body1 = strip_diff_headers(diff1);
    let body2 = strip_diff_headers(diff2);
    if body1.as_str().unicode_len() > MAX_HASHED_CHARS {
        return Err(PlagiarismError::TooLarge(student1.to_owned()));
    }
    if body2.as_str().unicode_len() > MAX_HASHED_CHARS {
        return Err(PlagiarismError::TooLarge(student2.to_owned()));
    }
    let h1 = match tlsh_hash(body1.as_str()) {
        Some(h) => h,
        None => {
            return Err(PlagiarismError::NoHash(student1.to_owned()));
        },
    };
    let h2 = match tlsh_hash(body2.as_str()) {
        Some(h) => h,
        None => {
            return Err(PlagiarismError::NoHash(student2.to_owned()));
        },
    };
    let (a, b) = (h1.as_str(), h2.as_str());
    if !(a.is_ascii() && b.is_ascii() && a.unicode_len() == b.unicode_len()) {
        return Err(PlagiarismError::Incomparable);
    }
    match tlsh_distance(a, b) {
        Some(d) => Ok(d),
        None => Err(PlagiarismError::Incomparable),
    }
}

} // verus!
