//! Small pieces of text: numbers, truth values, and lines.
use vstd::prelude::*;

verus! {

/// The digit character of `d`.
pub open spec fn digit_char(d: nat) -> char {
    if d == 0 {
        '0'
    } else if d == 1 {
        '1'
    } else if d == 2 {
        '2'
    } else if d == 3 {
        '3'
    } else if d == 4 {
        '4'
    } else if d == 5 {
        '5'
    } else if d == 6 {
        '6'
    } else if d == 7 {
        '7'
    } else if d == 8 {
        '8'
    } else {
        '9'
    }
}

/// `n` written in decimal, without leading zeros.
pub open spec fn decimal(n: nat) -> Seq<char>
    decreases n,
{
    if n < 10 {
        seq![digit_char(n)]
    } else {
        decimal(n / 10) + seq![digit_char(n % 10)]
    }
}

/// The one-character text of the digit `d`.
fn digit_str(d: usize) -> (r: &'static str)
    requires
        d < 10,
    ensures
        r@ == seq![digit_char(d as nat)],
{
    proof {
        reveal_strlit("0");
        reveal_strlit("1");
        reveal_strlit("2");
        reveal_strlit("3");
        reveal_strlit("4");
        reveal_strlit("5");
        reveal_strlit("6");
        reveal_strlit("7");
        reveal_strlit("8");
        reveal_strlit("9");
    }
    let r = match d {
        0 => "0",
        1 => "1",
        2 => "2",
        3 => "3",
        4 => "4",
        5 => "5",
        6 => "6",
        7 => "7",
        8 => "8",
        _ => "9",
    };
    assert(r@ =~= seq![digit_char(d as nat)]);
    r
}

/// `n` written in decimal.
pub fn decimal_text(n: usize) -> (r: String)
    ensures
        r@ == decimal(n as nat),
    decreases n,
{
    if n < 10 {
        digit_str(n).to_owned()
    } else {
        let mut out = decimal_text(n / 10);
        out.append(digit_str(n % 10));
        out
    }
}

/// `true` or `false`.
pub fn bool_text(b: bool) -> (r: &'static str)
    ensures
        r@ == if b {
            "true"@
        } else {
            "false"@
        },
{
    if b {
        "true"
    } else {
        "false"
    }
}

/// The lines of `s`, each with the line feed that ends it; the last one
/// may have none.
pub open spec fn lines(s: Seq<char>) -> Seq<Seq<char>>
    decreases s.len(),
{
    if s.len() == 0 {
        seq![]
    } else {
        let prev = lines(s.drop_last());
        if prev.len() > 0 && prev.last().last() != '\n' {
            prev.update(prev.len() - 1, prev.last().push(s.last()))
        } else {
            prev.push(seq![s.last()])
        }
    }
}

/// The parts of `parts` one after another.
pub open spec fn concat(parts: Seq<Seq<char>>) -> Seq<char>
    decreases parts.len(),
{
    if parts.len() == 0 {
        seq![]
    } else {
        concat(parts.drop_last()) + parts.last()
    }
}

/// Whether `pattern` stands somewhere in `s`.
pub open spec fn has_sub(s: Seq<char>, pattern: Seq<char>) -> bool {
    exists|i: int| crate::paths::occurs_at(s, pattern, i)
}

/// Whether `pattern` stands in `s` from index `i` on.
fn char_occurs_at(s: &str, pattern: &str, i: usize) -> (r: bool)
    requires
        i + pattern@.len() <= s@.len(),
    ensures
        r == crate::paths::occurs_at(s@, pattern@, i as int),
{
    let m = pattern.unicode_len();
    let n = s.unicode_len();
    let mut k: usize = 0;
    while k < m
        invariant
            m == pattern@.len(),
            n == s@.len(),
            i + m <= s@.len(),
            k <= m,
            forall|j: int| 0 <= j < k ==> s@[i + j] == pattern@[j],
        decreases m - k,
    {
        if s.get_char(i + k) != pattern.get_char(k) {
            assert(s@.subrange(i as int, i + m)[k as int] != pattern@[k as int]);
            return false;
        }
        k = k + 1;
    }
    assert(s@.subrange(i as int, i + m) =~= pattern@);
    true
}

/// Whether `pattern` stands somewhere in `s`.
pub fn contains_text(s: &str, pattern: &str) -> (r: bool)
    ensures
        r == has_sub(s@, pattern@),
{
    let n = s.unicode_len();
    let m = pattern.unicode_len();
    if m > n {
        assert forall|i: int| !crate::paths::occurs_at(s@, pattern@, i) by {}
        return false;
    }
    let mut i: usize = 0;
    loop
        invariant
            n == s@.len(),
            m == pattern@.len(),
            m <= n,
            i <= n - m,
            forall|j: int| 0 <= j < i ==> !crate::paths::occurs_at(s@, pattern@, j),
        decreases n - m - i,
    {
        if char_occurs_at(s, pattern, i) {
            return true;
        }
        if i == n - m {
            assert forall|j: int| !crate::paths::occurs_at(s@, pattern@, j) by {
                if 0 <= j && j <= i {
                }
            }
            return false;
        }
        i = i + 1;
    }
}

/// The lines of `text`.
pub fn split_lines(text: &str) -> (r: Vec<String>)
    ensures
        crate::paths::strs(r@) == lines(text@),
{
    let n = text.unicode_len();
    let mut out: Vec<String> = Vec::new();
    let mut start: usize = 0;
    let mut i: usize = 0;
    while i < n
        invariant
            n == text@.len(),
            start <= i <= n,
            forall|k: int| start <= k < i ==> text@[k] != '\n',
            start == i && i > 0 ==> text@[i - 1] == '\n',
            lines(text@.take(i as int)) == if start < i {
                crate::paths::strs(out@).push(text@.subrange(start as int, i as int))
            } else {
                crate::paths::strs(out@)
            },
        decreases n - i,
    {
        let c = text.get_char(i);
        assert(text@.take(i + 1).drop_last() == text@.take(i as int));
        assert(text@.take(i + 1).last() == c);
        let ghost p = lines(text@.take(i as int));
        if start < i {
            assert(p.last() == text@.subrange(start as int, i as int));
            assert(p.last().last() == text@[i - 1]);
            assert(text@.subrange(start as int, i + 1) =~= text@.subrange(start as int, i as int).push(c));
            assert(crate::paths::strs(out@).push(text@.subrange(start as int, i + 1)) =~= p.update(
                p.len() - 1,
                p.last().push(c),
            ));
        } else {
            assert(text@.subrange(start as int, i + 1) =~= seq![c]);
            if i > 0 {
                assert(p.len() > 0 ==> p.last() == crate::paths::strs(out@).last());
            }
        }
        if c == '\n' {
            let part = text.substring_char(start, i + 1).to_owned();
            let ghost before = out@;
            out.push(part);
            proof {
                crate::paths::lemma_strs_push(before, part);
            }
            start = i + 1;
        }
        i = i + 1;
    }
    if start < n {
        let part = text.substring_char(start, n).to_owned();
        let ghost before = out@;
        out.push(part);
        proof {
            crate::paths::lemma_strs_push(before, part);
        }
    }
    assert(text@.take(n as int) =~= text@);
    out
}

/// A line of text after a line-wise rewrite: a line holding `pattern`
/// becomes `replacement`, or nothing where there is none; any other line
/// stays.
pub open spec fn rewrite_line(line: Seq<char>, pattern: Seq<char>, replacement: Option<Seq<char>>) -> Seq<char> {
    if has_sub(line, pattern) {
        match replacement {
            Some(r) => r,
            None => seq![],
        }
    } else {
        line
    }
}

/// `text` rewritten line by line.
pub open spec fn rewrite_lines(text: Seq<char>, pattern: Seq<char>, replacement: Option<Seq<char>>) -> Seq<char> {
    concat(lines(text).map_values(|l: Seq<char>| rewrite_line(l, pattern, replacement)))
}

/// `parts` one after another, with one more part at the end.
pub proof fn lemma_concat_push(parts: Seq<Seq<char>>, x: Seq<char>)
    ensures
        concat(parts.push(x)) == concat(parts) + x,
{
    assert(parts.push(x).drop_last() =~= parts);
}

/// Rewrites `text` line by line: each line, with its line feed, that holds
/// `pattern` is replaced by `replacement`, or dropped where there is none;
/// other lines are kept as they are.
pub fn buffer_flatmap(text: &str, pattern: &str, replacement: Option<&str>) -> (r: String)
    ensures
        r@ == rewrite_lines(
            text@,
            pattern@,
            match replacement {
                Some(x) => Some(x@),
                None => None,
            },
        ),
{
    let ghost rep = match replacement {
        Some(x) => Some(x@),
        None => None,
    };
    let ls = split_lines(text);
    let ghost lv = crate::paths::strs(ls@);
    let ghost f = |l: Seq<char>| rewrite_line(l, pattern@, rep);
    let mut out = String::new();
    let mut i: usize = 0;
    while i < ls.len()
        invariant
            lv == crate::paths::strs(ls@),
            lv == lines(text@),
            f == (|l: Seq<char>| rewrite_line(l, pattern@, rep)),
            rep == match replacement {
                Some(x) => Some(x@),
                None => None::<Seq<char>>,
            },
            i <= ls@.len(),
            out@ == concat(lv.take(i as int).map_values(f)),
        decreases ls@.len() - i,
    {
        let ghost prev = out@;
        assert(lv.take(i + 1).map_values(f) =~= lv.take(i as int).map_values(f).push(f(lv[i as int])));
        proof {
            lemma_concat_push(lv.take(i as int).map_values(f), f(lv[i as int]));
        }
        assert(lv[i as int] == ls@[i as int]@);
        if contains_text(ls[i].as_str(), pattern) {
            match replacement {
                Some(x) => {
                    out.append(x);
                },
                None => {
                    assert(prev + seq![] =~= prev);
                },
            }
        } else {
            out.append(ls[i].as_str());
        }
        i = i + 1;
    }
    assert(lv.take(ls@.len() as int) =~= lv);
    out
}

/// Replaces each line of `text` that holds `prev` by `new`.
pub fn replace_lines(text: &str, prev: &str, new: &str) -> (r: String)
    ensures
        r@ == rewrite_lines(text@, prev@, Some(new@)),
{
    buffer_flatmap(text, prev, Some(new))
}

} // verus!
