use vstd::prelude::*;

verus! {

/// The characters of a string, in order.
pub fn chars_of(s: &str) -> (v: Vec<char>)
    ensures
        v@ == s@,
{
    broadcast use vstd::string::group_string_axioms;

    let mut v: Vec<char> = Vec::new();
    for c in it: s.chars()
        invariant
            v@ == it.seq().take(it.index() as int),
    {
        v.push(c);
    }
    v
}


/// Collects characters into a `String` through std's
/// `impl FromIterator<&char> for String`; the string holds exactly the
/// given characters, in order.
#[verifier::external_body]
pub(crate) fn string_from_chars(cs: &[char]) -> (s: String)
    ensures
        s@ == cs@,
{
    String::from_iter(cs)
}

/// A decimal digit `0` to `9`.
pub open spec fn is_digit(c: char) -> bool {
    '0' <= c && c <= '9'
}

/// The value of a decimal digit.
pub open spec fn digit_value(c: char) -> nat {
    (c as int - '0' as int) as nat
}

/// The number that a sequence of decimal digits denotes.
pub open spec fn decimal_value(w: Seq<char>) -> nat
    decreases w.len(),
{
    if w.len() == 0 {
        0
    } else {
        decimal_value(w.drop_last()) * 10 + digit_value(w.last())
    }
}

/// Length of the run of decimal digits of `t` that starts at `i`.
pub open spec fn digit_run(t: Seq<char>, i: int) -> int
    decreases t.len() - i,
{
    if 0 <= i < t.len() && is_digit(t[i]) {
        1 + digit_run(t, i + 1)
    } else {
        0
    }
}

/// Reading a digit sequence never gives less than reading one of its prefixes.
pub proof fn lemma_decimal_value_prefix(w: Seq<char>, k: int)
    requires
        0 <= k <= w.len(),
    ensures
        decimal_value(w.take(k)) <= decimal_value(w),
    decreases w.len(),
{
    if k < w.len() {
        lemma_decimal_value_prefix(w.drop_last(), k);
        assert(w.drop_last().take(k) =~= w.take(k));
    } else {
        assert(w.take(k) =~= w);
    }
}

pub proof fn lemma_digit_run_bounds(t: Seq<char>, i: int)
    requires
        0 <= i <= t.len(),
    ensures
        0 <= digit_run(t, i) <= t.len() - i,
        forall|k: int| i <= k < i + digit_run(t, i) ==> is_digit(#[trigger] t[k]),
        i + digit_run(t, i) < t.len() ==> !is_digit(t[i + digit_run(t, i)]),
    decreases t.len() - i,
{
    if i < t.len() && is_digit(t[i]) {
        lemma_digit_run_bounds(t, i + 1);
    }
}

/// The run of decimal digits at position `i` of `t`, when it is not empty:
/// its value and the position just after it.
pub open spec fn spec_scan_digits(t: Seq<char>, i: int) -> Option<(nat, int)> {
    let n = digit_run(t, i);
    if n == 0 {
        None
    } else {
        Some((decimal_value(t.subrange(i, i + n)), i + n))
    }
}

/// Reads the run of decimal digits at position `i` of `t` as a `u64`;
/// `None` when there is no digit there or the value does not fit.
pub fn scan_u64(t: &[char], i: usize) -> (r: Option<(u64, usize)>)
    requires
        i <= t@.len(),
    ensures
        match spec_scan_digits(t@, i as int) {
            Some((v, e)) => if v <= u64::MAX {
                r == Some((v as u64, e as usize))
            } else {
                r is None
            },
            None => r is None,
        },
        r matches Some((_, e)) ==> e <= t@.len(),
{
    proof {
        lemma_digit_run_bounds(t@, i as int);
    }
    let ghost n = digit_run(t@, i as int);
    let mut j = i;
    let mut value: u64 = 0;
    while j < t.len() && '0' <= t[j] && t[j] <= '9'
        invariant
            i <= j <= i + n,
            n == digit_run(t@, i as int),
            i + n <= t@.len(),
            forall|k: int| i <= k < i + n ==> is_digit(#[trigger] t@[k]),
            i + n < t@.len() ==> !is_digit(t@[i + n]),
            value == decimal_value(t@.subrange(i as int, j as int)),
        decreases t.len() - j,
    {
        let d = (t[j] as u32 - '0' as u32) as u64;
        assert(t@.subrange(i as int, j + 1).drop_last() =~= t@.subrange(i as int, j as int));
        proof {
            assert(t@.subrange(i as int, i + n).take(j + 1 - i) =~= t@.subrange(i as int, j + 1));
            lemma_decimal_value_prefix(t@.subrange(i as int, i + n), j + 1 - i);
        }
        match value.checked_mul(10) {
            Some(m) => match m.checked_add(d) {
                Some(v2) => {
                    value = v2;
                },
                None => {
                    return None;
                },
            },
            None => {
                return None;
            },
        }
        j = j + 1;
    }
    if j == i {
        None
    } else {
        Some((value, j))
    }
}

/// The unsigned decimal number at position `i` of `t`: the longest run of
/// digits there, when it is not empty and its value fits in `usize`; with the
/// position just after it.
pub open spec fn spec_scan_usize(t: Seq<char>, i: int) -> Option<(usize, int)> {
    match spec_scan_digits(t, i) {
        Some((v, e)) => if v <= usize::MAX {
            Some((v as usize, e))
        } else {
            None
        },
        None => None,
    }
}

/// Reads the unsigned decimal number at position `i` of `t`.
pub fn scan_usize(t: &[char], i: usize) -> (r: Option<(usize, usize)>)
    requires
        i <= t@.len(),
    ensures
        r == (match spec_scan_usize(t@, i as int) {
            Some((v, e)) => Some((v, e as usize)),
            None => None::<(usize, usize)>,
        }),
{
    match scan_u64(t, i) {
        Some((v, e)) => {
            if v <= usize::MAX as u64 {
                Some((v as usize, e))
            } else {
                None
            }
        },
        None => None,
    }
}

/// The signed decimal number at position `i` of `t`: an optional `+` or `-`
/// followed by the longest run of digits, when that run is not empty and the
/// number fits in `isize`; with the position just after it.
pub open spec fn spec_scan_isize(t: Seq<char>, i: int) -> Option<(isize, int)> {
    let neg = 0 <= i < t.len() && t[i] == '-';
    let signed = 0 <= i < t.len() && (t[i] == '-' || t[i] == '+');
    let start = if signed { i + 1 } else { i };
    match spec_scan_digits(t, start) {
        Some((v, e)) => if neg && v <= isize::MAX + 1 {
            Some(((-v) as isize, e))
        } else if !neg && v <= isize::MAX {
            Some((v as isize, e))
        } else {
            None
        },
        None => None,
    }
}

/// Reads the signed decimal number at position `i` of `t`.
pub fn scan_isize(t: &[char], i: usize) -> (r: Option<(isize, usize)>)
    requires
        i <= t@.len(),
    ensures
        r == (match spec_scan_isize(t@, i as int) {
            Some((v, e)) => Some((v, e as usize)),
            None => None::<(isize, usize)>,
        }),
{
    let neg = i < t.len() && t[i] == '-';
    let signed = i < t.len() && (t[i] == '-' || t[i] == '+');
    let start = if signed { i + 1 } else { i };
    match scan_u64(t, start) {
        Some((v, e)) => {
            if neg && v <= isize::MAX as u64 + 1 {
                if v == isize::MAX as u64 + 1 {
                    Some((isize::MIN, e))
                } else {
                    Some((-(v as isize), e))
                }
            } else if !neg && v <= isize::MAX as u64 {
                Some((v as isize, e))
            } else {
                None
            }
        },
        None => None,
    }
}


/// Whether the characters of `t` from position `i` on begin with `lit`.
pub open spec fn starts_with_at(t: Seq<char>, i: int, lit: Seq<char>) -> bool {
    0 <= i && i + lit.len() <= t.len() && t.subrange(i, i + lit.len()) == lit
}

/// Whether the characters of `t` from position `i` on begin with `lit`.
pub fn matches_at(t: &[char], i: usize, lit: &str) -> (r: bool)
    requires
        i <= t@.len(),
    ensures
        r == starts_with_at(t@, i as int, lit@),
{
    let l = chars_of(lit);
    if l.len() > t.len() - i {
        return false;
    }
    let tl = t.len();
    let mut k: usize = 0;
    while k < l.len()
        invariant
            tl == t@.len(),
            l@ == lit@,
            i + l@.len() <= t@.len(),
            k <= l@.len(),
            forall|m: int| 0 <= m < k ==> t@[i + m] == l@[m],
        decreases l.len() - k,
    {
        if t[i + k] != l[k] {
            assert(t@.subrange(i as int, i + l@.len())[k as int] != lit@[k as int]);
            return false;
        }
        k = k + 1;
    }
    assert(t@.subrange(i as int, i + l@.len()) =~= lit@);
    true
}

/// Whether the characters `w` are exactly `lit`.
pub fn chars_eq(w: &[char], lit: &str) -> (r: bool)
    ensures
        r == (w@ == lit@),
{
    let l = chars_of(lit);
    if l.len() != w.len() {
        return false;
    }
    let r = matches_at(w, 0, lit);
    assert(w@.subrange(0, w@.len() as int) =~= w@);
    r
}


/// Classes of characters that the parsers read runs of.
#[derive(Clone, Copy, PartialEq, Eq, Structural)]
pub enum CharClass {
    /// ASCII letters and digits.
    Alnum,
    /// ASCII letters, digits and `.`.
    DottedName,
    /// Blanks that separate words on a line: space, tab, carriage return.
    Blank,
    /// Characters of a word: anything but a blank.
    Word,
    /// Characters of a line: anything but a line break.
    LineChar,
    /// Anything but `=`.
    NotEquals,
}

pub open spec fn is_ascii_alnum(c: char) -> bool {
    ('0' <= c && c <= '9') || ('a' <= c && c <= 'z') || ('A' <= c && c <= 'Z')
}

pub open spec fn in_class(c: char, cls: CharClass) -> bool {
    match cls {
        CharClass::Alnum => is_ascii_alnum(c),
        CharClass::DottedName => is_ascii_alnum(c) || c == '.',
        CharClass::Blank => c == ' ' || c == '\t' || c == '\r',
        CharClass::Word => !(c == ' ' || c == '\t' || c == '\r'),
        CharClass::LineChar => c != '\n',
        CharClass::NotEquals => c != '=',
    }
}

pub fn char_in_class(c: char, cls: CharClass) -> (r: bool)
    ensures
        r == in_class(c, cls),
{
    let alnum = ('0' <= c && c <= '9') || ('a' <= c && c <= 'z') || ('A' <= c && c <= 'Z');
    match cls {
        CharClass::Alnum => alnum,
        CharClass::DottedName => alnum || c == '.',
        CharClass::Blank => c == ' ' || c == '\t' || c == '\r',
        CharClass::Word => !(c == ' ' || c == '\t' || c == '\r'),
        CharClass::LineChar => c != '\n',
        CharClass::NotEquals => c != '=',
    }
}

/// Length of the run of characters of class `cls` in `t` that starts at `i`.
pub open spec fn class_run(t: Seq<char>, i: int, cls: CharClass) -> int
    decreases t.len() - i,
{
    if 0 <= i < t.len() && in_class(t[i], cls) {
        1 + class_run(t, i + 1, cls)
    } else {
        0
    }
}

pub proof fn lemma_class_run_bounds(t: Seq<char>, i: int, cls: CharClass)
    requires
        0 <= i <= t.len(),
    ensures
        0 <= class_run(t, i, cls) <= t.len() - i,
        forall|k: int| i <= k < i + class_run(t, i, cls) ==> in_class(#[trigger] t[k], cls),
        i + class_run(t, i, cls) < t.len() ==> !in_class(t[i + class_run(t, i, cls)], cls),
    decreases t.len() - i,
{
    if i < t.len() && in_class(t[i], cls) {
        lemma_class_run_bounds(t, i + 1, cls);
    }
}

/// The position just after the run of characters of class `cls` that starts
/// at `i`.
pub fn skip_class(t: &[char], i: usize, cls: CharClass) -> (e: usize)
    requires
        i <= t@.len(),
    ensures
        e == i + class_run(t@, i as int, cls),
        i <= e <= t@.len(),
{
    proof {
        lemma_class_run_bounds(t@, i as int, cls);
    }
    let ghost n = class_run(t@, i as int, cls);
    let mut j = i;
    while j < t.len() && char_in_class(t[j], cls)
        invariant
            i <= j <= i + n,
            n == class_run(t@, i as int, cls),
            i + n <= t@.len(),
            forall|k: int| i <= k < i + n ==> in_class(#[trigger] t@[k], cls),
            i + n < t@.len() ==> !in_class(t@[i + n], cls),
        decreases t.len() - j,
    {
        j = j + 1;
    }
    j
}

} // verus!
