//! Reading answers that a user typed as one line.
use vstd::prelude::*;

verus! {

/// `line` without the line feed that ends it, if any.
pub open spec fn without_newline(line: Seq<char>) -> Seq<char> {
    if line.len() > 0 && line.last() == '\n' {
        line.drop_last()
    } else {
        line
    }
}

/// The value of the decimal digit `c`, if it is one.
pub open spec fn digit_value(c: char) -> Option<nat> {
    if c == '0' {
        Some(0)
    } else if c == '1' {
        Some(1)
    } else if c == '2' {
        Some(2)
    } else if c == '3' {
        Some(3)
    } else if c == '4' {
        Some(4)
    } else if c == '5' {
        Some(5)
    } else if c == '6' {
        Some(6)
    } else if c == '7' {
        Some(7)
    } else if c == '8' {
        Some(8)
    } else if c == '9' {
        Some(9)
    } else {
        None
    }
}

/// The number that the digits `s` write, if they are all digits.
pub open spec fn digits_value(s: Seq<char>) -> Option<nat>
    decreases s.len(),
{
    if s.len() == 0 {
        Some(0)
    } else {
        match (digits_value(s.drop_last()), digit_value(s.last())) {
            (Some(v), Some(d)) => Some(v * 10 + d),
            _ => None,
        }
    }
}

/// The unsigned number that `s` writes: an optional `+`, then one digit or
/// more.
pub open spec fn unsigned_value(s: Seq<char>) -> Option<nat> {
    let d = if s.len() > 0 && s[0] == '+' {
        s.drop_first()
    } else {
        s
    };
    if d.len() == 0 {
        None
    } else {
        digits_value(d)
    }
}

/// The value of the digit `c`.
fn digit(c: char) -> (r: Option<usize>)
    ensures
        match r {
            Some(d) => digit_value(c) == Some(d as nat) && d < 10,
            None => digit_value(c) is None,
        },
{
    match c {
        '0' => Some(0),
        '1' => Some(1),
        '2' => Some(2),
        '3' => Some(3),
        '4' => Some(4),
        '5' => Some(5),
        '6' => Some(6),
        '7' => Some(7),
        '8' => Some(8),
        '9' => Some(9),
        _ => None,
    }
}

/// The number typed on `line`, as an index or count: none where the line
/// is not an unsigned number or the number does not fit.
pub fn prompt_digit(line: &str) -> (r: Option<usize>)
    ensures
        match r {
            Some(v) => unsigned_value(without_newline(line@)) == Some(v as nat),
            None => unsigned_value(without_newline(line@)) is None || unsigned_value(
                without_newline(line@),
            )->0 > usize::MAX,
        },
{
    let ghost t = without_newline(line@);
    let mut n = line.unicode_len();
    if n > 0 && line.get_char(n - 1) == '\n' {
        n = n - 1;
    }
    assert(line@.take(n as int) =~= t);
    let mut start: usize = 0;
    if n > 0 && line.get_char(0) == '+' {
        start = 1;
    }
    let ghost d = t.skip(start as int);
    assert(d =~= if t.len() > 0 && t[0] == '+' {
        t.drop_first()
    } else {
        t
    });
    if start == n {
        return None;
    }
    assert(unsigned_value(t) == digits_value(d));
    let mut v: usize = 0;
    let mut i: usize = start;
    assert(d.take(0) =~= Seq::<char>::empty());
    while i < n
        invariant
            start <= i <= n,
            n <= line@.len(),
            t == line@.take(n as int),
            t == without_newline(line@),
            d == t.skip(start as int),
            unsigned_value(t) == digits_value(d),
            digits_value(d.take(i - start)) == Some(v as nat),
        decreases n - i,
    {
        assert(d.take(i - start + 1).drop_last() =~= d.take(i - start));
        assert(d.take(i - start + 1).last() == line@[i as int]);
        match digit(line.get_char(i)) {
            None => {
                proof {
                    lemma_digits_stay_invalid(d, (i - start + 1) as int);
                }
                return None;
            },
            Some(x) => {
                if v > (usize::MAX - x) / 10 {
                    proof {
                        lemma_digits_grow(d, (i - start + 1) as int);
                        assert(v * 10 + x > usize::MAX) by (nonlinear_arith)
                            requires
                                v > (usize::MAX - x) / 10,
                                x < 10,
                        ;
                    }
                    return None;
                }
                v = v * 10 + x;
            },
        }
        i = i + 1;
    }
    assert(d.take(n - start) =~= d);
    Some(v)
}

proof fn lemma_digits_stay_invalid(s: Seq<char>, k: int)
    requires
        0 <= k <= s.len(),
        digits_value(s.take(k)) is None,
    ensures
        digits_value(s) is None,
    decreases s.len() - k,
{
    if k < s.len() {
        assert(s.take(k + 1).drop_last() =~= s.take(k));
        lemma_digits_stay_invalid(s, k + 1);
    } else {
        assert(s.take(k) =~= s);
    }
}

proof fn lemma_digits_grow(s: Seq<char>, k: int)
    requires
        0 <= k <= s.len(),
        digits_value(s.take(k)) is Some,
    ensures
        digits_value(s) is Some ==> digits_value(s)->0 >= digits_value(s.take(k))->0,
    decreases s.len() - k,
{
    if k < s.len() {
        assert(s.take(k + 1).drop_last() =~= s.take(k));
        if digits_value(s.take(k + 1)) is Some {
            lemma_digits_grow(s, k + 1);
        } else {
            lemma_digits_stay_invalid(s, k + 1);
        }
    } else {
        assert(s.take(k) =~= s);
    }
}

/// The lower-case form of `s`, as Unicode defines it.
pub uninterp spec fn lowercase_of(s: Seq<char>) -> Seq<char>;

/// Relies on `str::to_lowercase`: the result depends on the characters
/// alone.
#[verifier::external_body]
fn lowercase(s: &str) -> (r: String)
    ensures
        r@ == lowercase_of(s@),
{
    s.to_lowercase()
}

/// Whether a lower-cased answer is yes.
pub fn is_yes(lowered: &str) -> (r: bool)
    ensures
        r == (lowered@ == "y"@),
{
    crate::paths::str_eq(lowered, "y")
}

/// Whether the answer typed on `line` is yes: `y` in either case.
pub fn prompt_yn(line: &str) -> (r: bool)
    ensures
        r == (lowercase_of(without_newline(line@)) == "y"@),
{
    let mut n = line.unicode_len();
    if n > 0 && line.get_char(n - 1) == '\n' {
        n = n - 1;
    }
    let answer = line.substring_char(0, n);
    assert(answer@ =~= without_newline(line@));
    is_yes(lowercase(answer).as_str())
}

/// What a line typed while choosing tests asks for.
#[derive(Clone, Copy, Debug, PartialEq, Eq, Structural)]
pub enum SelectionStep {
    /// Keep choosing.
    Continue,
    /// The choice is made.
    Done,
    /// Give up: nothing is chosen.
    Quit,
}

/// The choice after `line` was typed: `next` ends it, `exit` gives up, the
/// index of a test toggles that test, and anything else changes nothing.
/// Case does not matter.
pub open spec fn select_spec(chosen: Seq<bool>, line: Seq<char>) -> (Seq<bool>, SelectionStep) {
    let word = lowercase_of(without_newline(line));
    if word == "next"@ {
        (chosen, SelectionStep::Done)
    } else if word == "exit"@ {
        (chosen, SelectionStep::Quit)
    } else {
        match unsigned_value(word) {
            Some(i) => if i < chosen.len() {
                (chosen.update(i as int, !chosen[i as int]), SelectionStep::Continue)
            } else {
                (chosen, SelectionStep::Continue)
            },
            None => (chosen, SelectionStep::Continue),
        }
    }
}

/// Applies one typed line to the choice of tests `chosen`.
pub fn auto_select_step(chosen: &mut Vec<bool>, line: &str) -> (r: SelectionStep)
    ensures
        (final(chosen)@, r) == select_spec(old(chosen)@, line@),
{
    let mut n = line.unicode_len();
    if n > 0 && line.get_char(n - 1) == '\n' {
        n = n - 1;
    }
    let answer = line.substring_char(0, n);
    assert(answer@ =~= without_newline(line@));
    let word = lowercase(answer);
    if crate::paths::str_eq(word.as_str(), "next") {
        return SelectionStep::Done;
    }
    if crate::paths::str_eq(word.as_str(), "exit") {
        return SelectionStep::Quit;
    }
    let mut with_newline = word.clone();
    with_newline.append("\n");
    proof {
        reveal_strlit("\n");
        assert(without_newline(with_newline@) =~= word@);
    }
    let len = chosen.len();
    match prompt_digit(with_newline.as_str()) {
        Some(i) => {
            if i < len {
                let flipped = !chosen[i];
                chosen.set(i, flipped);
            }
        },
        None => {
            assert(unsigned_value(word@) is None || unsigned_value(word@)->0 >= len);
        },
    }
    SelectionStep::Continue
}

/// The chosen tests, in order.
pub fn selected_tests(tests: &Vec<String>, chosen: &Vec<bool>) -> (r: Vec<String>)
    requires
        chosen@.len() == tests@.len(),
    ensures
        crate::paths::strs(r@) == selected_of(crate::paths::strs(tests@), chosen@),
{
    let mut out: Vec<String> = Vec::new();
    let mut i: usize = 0;
    while i < tests.len()
        invariant
            chosen@.len() == tests@.len(),
            i <= tests@.len(),
            crate::paths::strs(out@) == selected_of(
                crate::paths::strs(tests@).take(i as int),
                chosen@.take(i as int),
            ),
        decreases tests@.len() - i,
    {
        assert(crate::paths::strs(tests@).take(i + 1).drop_last() =~= crate::paths::strs(
            tests@,
        ).take(i as int));
        assert(chosen@.take(i + 1).drop_last() =~= chosen@.take(i as int));
        assert(crate::paths::strs(tests@).take(i + 1).last() == tests@[i as int]@);
        if chosen[i] {
            let ghost before = out@;
            let t = tests[i].clone();
            out.push(t);
            proof {
                crate::paths::lemma_strs_push(before, t);
            }
        }
        i = i + 1;
    }
    assert(crate::paths::strs(tests@).take(tests@.len() as int) =~= crate::paths::strs(tests@));
    assert(chosen@.take(tests@.len() as int) =~= chosen@);
    out
}

/// The elements of `items` whose flag in `chosen` is set, in order.
pub open spec fn selected_of(items: Seq<Seq<char>>, chosen: Seq<bool>) -> Seq<Seq<char>>
    decreases items.len(),
{
    if items.len() == 0 || chosen.len() == 0 {
        seq![]
    } else if chosen.last() {
        selected_of(items.drop_last(), chosen.drop_last()).push(items.last())
    } else {
        selected_of(items.drop_last(), chosen.drop_last())
    }
}

} // verus!
