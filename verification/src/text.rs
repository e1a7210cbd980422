//! Character classes of the target-label grammar, and small string helpers.

use vstd::prelude::*;

verus! {

/// Characters allowed in a target name and in one package-path segment:
/// ASCII letters, digits, `_`, `-` and `.`.
pub open spec fn is_word_char(c: char) -> bool {
    let u = c as u32;
    (48 <= u && u <= 57) || (65 <= u && u <= 90) || (97 <= u && u <= 122) || u == 95 || u == 45
        || u == 46
}

/// Characters allowed in a cell alias; the same alphabet as for target
/// names, so a cell alias can hold neither `/` nor `:`.
pub open spec fn is_cell_char(c: char) -> bool {
    is_word_char(c)
}

pub fn word_char(c: char) -> (r: bool)
    ensures
        r == is_word_char(c),
{
    let u = c as u32;
    (48 <= u && u <= 57) || (65 <= u && u <= 90) || (97 <= u && u <= 122) || u == 95 || u == 45
        || u == 46
}

/// A valid cell alias: every character from the cell alphabet (the alias
/// may be empty, which names the root cell).
pub open spec fn valid_cell(s: Seq<char>) -> bool {
    forall|i: int| 0 <= i < s.len() ==> is_cell_char(#[trigger] s[i])
}

/// A valid package path: empty, or `/`-separated non-empty segments of
/// word characters (no leading, trailing or doubled `/`).
pub open spec fn valid_package(s: Seq<char>) -> bool {
    &&& forall|i: int| 0 <= i < s.len() ==> is_word_char(#[trigger] s[i]) || s[i] == '/'
    &&& s.len() > 0 ==> s[0] != '/' && s[s.len() - 1] != '/'
    &&& forall|i: int| 0 <= i < s.len() - 1 ==> !(#[trigger] s[i] == '/' && s[i + 1] == '/')
}

/// A valid target name: non-empty, every character a word character,
/// and not the reserved wildcard `...`.
pub open spec fn valid_name(s: Seq<char>) -> bool {
    &&& s.len() > 0
    &&& forall|i: int| 0 <= i < s.len() ==> is_word_char(#[trigger] s[i])
    &&& !(s.len() == 3 && s[0] == '.' && s[1] == '.' && s[2] == '.')
}

/// Whether two string slices hold the same characters.
pub fn str_eq(a: &str, b: &str) -> (r: bool)
    ensures
        r == (a@ == b@),
{
    let na = a.unicode_len();
    let nb = b.unicode_len();
    if na != nb {
        proof {
            assert(a@ != b@) by {
                if a@ == b@ {
                    assert(a@.len() == b@.len());
                }
            }
        }
        return false;
    }
    let mut i: usize = 0;
    while i < na
        invariant
            na == a@.len(),
            na == b@.len(),
            0 <= i <= na,
            forall|k: int| 0 <= k < i ==> a@[k] == b@[k],
        decreases na - i,
    {
        if a.get_char(i) != b.get_char(i) {
            return false;
        }
        i += 1;
    }
    proof {
        assert(a@ =~= b@);
    }
    true
}

} // verus!
