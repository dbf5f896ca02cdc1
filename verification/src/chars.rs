//! Character classes used by the markup grammar, the length of the run of
//! a class that starts at a given position of the input, and a string
//! comparison over characters.

use vstd::prelude::*;

verus! {

/// A class of characters the parser scans over in one go.
#[derive(Clone, Copy, Debug)]
pub enum CharClass {
    /// Unicode white space.
    Ws,
    /// ASCII letters and digits: the characters a tag name is made of.
    TagName,
    /// The characters an attribute name is made of: ASCII letters and
    /// digits, `:` and `-`.
    AttrName,
    /// Every character but the one given: a scan up to a delimiter.
    NotChar(char),
}

/// The Unicode `White_Space` set.
pub open spec fn is_ws_char(c: char) -> bool {
    let u: u32 = c as u32;
    (0x09 <= u && u <= 0x0d) || u == 0x20 || u == 0x85 || u == 0xa0 || u == 0x1680 || (0x2000
        <= u && u <= 0x200a) || u == 0x2028 || u == 0x2029 || u == 0x202f || u == 0x205f || u
        == 0x3000
}

/// ASCII letters and digits.
pub open spec fn is_tag_char(c: char) -> bool {
    let u: u32 = c as u32;
    (0x61 <= u && u <= 0x7a) || (0x41 <= u && u <= 0x5a) || (0x30 <= u && u <= 0x39)
}

/// Tag-name characters, `:` and `-`.
pub open spec fn is_attr_name_char(c: char) -> bool {
    is_tag_char(c) || c == ':' || c == '-'
}

/// Whether `c` belongs to the class `cl`.
pub open spec fn in_class(cl: CharClass, c: char) -> bool {
    match cl {
        CharClass::Ws => is_ws_char(c),
        CharClass::TagName => is_tag_char(c),
        CharClass::AttrName => is_attr_name_char(c),
        CharClass::NotChar(d) => c != d,
    }
}

/// How many consecutive characters of `s`, starting at `i`, lie in `cl`.
pub open spec fn run_len(s: Seq<char>, i: int, cl: CharClass) -> nat
    decreases s.len() - i,
{
    if 0 <= i < s.len() && in_class(cl, s[i]) {
        1 + run_len(s, i + 1, cl)
    } else {
        0
    }
}

/// The run starting at `i` stays inside `s`, consists of characters of the
/// class, and ends at the end of the input or at a character outside the
/// class.
pub proof fn lemma_run_len(s: Seq<char>, i: int, cl: CharClass)
    requires
        0 <= i <= s.len(),
    ensures
        i + run_len(s, i, cl) <= s.len(),
        forall|j: int| i <= j < i + run_len(s, i, cl) ==> in_class(cl, #[trigger] s[j]),
        i + run_len(s, i, cl) == s.len() || !in_class(cl, s[i + run_len(s, i, cl)]),
    decreases s.len() - i,
{
    if i < s.len() && in_class(cl, s[i]) {
        lemma_run_len(s, i + 1, cl);
    }
}

/// A run over characters that all lie in the class reaches the end of the
/// input.
pub proof fn lemma_run_len_full(s: Seq<char>, i: int, cl: CharClass)
    requires
        0 <= i <= s.len(),
        forall|j: int| i <= j < s.len() ==> in_class(cl, #[trigger] s[j]),
    ensures
        i + run_len(s, i, cl) == s.len(),
    decreases s.len() - i,
{
    if i < s.len() {
        lemma_run_len_full(s, i + 1, cl);
    }
}

/// A run measured inside the suffix of `s` that starts at `i` equals the
/// run measured in `s` itself.
pub proof fn lemma_run_len_in_suffix(s: Seq<char>, i: int, k: int, cl: CharClass)
    requires
        0 <= i <= k <= s.len(),
    ensures
        run_len(s.subrange(i, s.len() as int), k - i, cl) == run_len(s, k, cl),
    decreases s.len() - k,
{
    let suf = s.subrange(i, s.len() as int);
    if k < s.len() {
        assert(suf[k - i] == s[k]);
        lemma_run_len_in_suffix(s, i, k + 1, cl);
    }
}

/// Runtime test of `in_class`.
pub fn check_class(cl: CharClass, c: char) -> (r: bool)
    ensures
        r == in_class(cl, c),
{
    match cl {
        CharClass::Ws => {
            let u: u32 = c as u32;
            (0x09 <= u && u <= 0x0d) || u == 0x20 || u == 0x85 || u == 0xa0 || u == 0x1680 || (
            0x2000 <= u && u <= 0x200a) || u == 0x2028 || u == 0x2029 || u == 0x202f || u == 0x205f
                || u == 0x3000
        },
        CharClass::TagName => {
            let u: u32 = c as u32;
            (0x61 <= u && u <= 0x7a) || (0x41 <= u && u <= 0x5a) || (0x30 <= u && u <= 0x39)
        },
        CharClass::AttrName => {
            let u: u32 = c as u32;
            (0x61 <= u && u <= 0x7a) || (0x41 <= u && u <= 0x5a) || (0x30 <= u && u <= 0x39) || c
                == ':' || c == '-'
        },
        CharClass::NotChar(d) => c != d,
    }
}

/// Whether the characters of `a` equal those of `b`.
pub fn str_equal(a: &str, b: &str) -> (r: bool)
    ensures
        r == (a@ == b@),
{
    let x = a.to_owned();
    let y = b.to_owned();
    x == y
}

} // verus!
