//! Target labels and the textual grammar `cell//package:name`.

use vstd::prelude::*;

use crate::errors::AnonTargetsError;
use crate::text::is_cell_char;
use crate::text::is_word_char;
use crate::text::valid_cell;
use crate::text::valid_name;
use crate::text::valid_package;
use crate::text::word_char;

verus! {

/// An unconfigured target label, split into its three textual parts.
#[derive(Debug)]
pub struct TargetLabel {
    pub cell: String,
    pub package: String,
    pub name: String,
}

/// The mathematical form of a label.
pub ghost struct LabelV {
    pub cell: Seq<char>,
    pub package: Seq<char>,
    pub name: Seq<char>,
}

impl View for TargetLabel {
    type V = LabelV;

    open spec fn view(&self) -> LabelV {
        LabelV { cell: self.cell@, package: self.package@, name: self.name@ }
    }
}

/// Well-formedness of a label: a valid cell alias, a valid (possibly
/// empty) package path, and a valid non-empty target name.
pub open spec fn label_wf(l: LabelV) -> bool {
    valid_cell(l.cell) && valid_package(l.package) && valid_name(l.name)
}

/// The textual form of a label: `cell//package:name`.
pub open spec fn label_text(l: LabelV) -> Seq<char> {
    l.cell + seq!['/', '/'] + l.package + seq![':'] + l.name
}

/// Positional facts that the rendering of a well-formed label forces on
/// its text: where the separators stand and which characters each region
/// may hold.
proof fn lemma_label_text_structure(l: LabelV, s: Seq<char>)
    requires
        label_wf(l),
        label_text(l) == s,
    ensures
        s.len() == l.cell.len() + 2 + l.package.len() + 1 + l.name.len(),
        forall|k: int| 0 <= k < l.cell.len() ==> is_cell_char(#[trigger] s[k]),
        forall|k: int| 0 <= k < l.cell.len() ==> #[trigger] s[k] == l.cell[k],
        s[l.cell.len() as int] == '/',
        s[l.cell.len() as int + 1] == '/',
        forall|k: int|
            l.cell.len() + 2 <= k < l.cell.len() + 2 + l.package.len() ==> (#[trigger] s[k]
                == l.package[k - l.cell.len() - 2]),
        s[l.cell.len() as int + 2 + l.package.len() as int] == ':',
        forall|k: int|
            l.cell.len() + 2 + l.package.len() + 1 <= k < s.len() ==> (#[trigger] s[k]
                == l.name[k - (l.cell.len() + 2 + l.package.len() + 1)]),
        l.name.len() > 0,
{
    let c = l.cell.len() as int;
    let p = l.package.len() as int;
    assert(s.len() == c + 2 + p + 1 + l.name.len());
    assert forall|k: int| 0 <= k < c implies is_cell_char(#[trigger] s[k]) by {
        assert(s[k] == l.cell[k]);
    }
    assert(s[c] == '/');
    assert(s[c + 1] == '/');
    assert forall|k: int| c + 2 <= k < c + 2 + p implies (#[trigger] s[k] == l.package[k - c
        - 2]) by {}
    assert(s[c + 2 + p] == ':');
    assert forall|k: int| c + 2 + p + 1 <= k < s.len() implies (#[trigger] s[k] == l.name[k - (c + 2
        + p + 1)]) by {}
}

/// No well-formed label region holds a separator: cell characters and
/// word characters are never `/` or `:`.
proof fn lemma_word_char_not_sep(c: char)
    ensures
        is_word_char(c) ==> c != '/' && c != ':',
        is_cell_char(c) ==> c != '/' && c != ':',
{
}

/// In the text of a well-formed label, the first `//` stands exactly at
/// the end of the cell alias, and the first `:` at or after the package
/// start stands exactly at the end of the package path.
proof fn lemma_label_text_separators(l: LabelV, s: Seq<char>)
    requires
        label_wf(l),
        label_text(l) == s,
    ensures
        forall|k: int| 0 <= k < l.cell.len() ==> !(#[trigger] s[k] == '/' && s[k + 1] == '/'),
        forall|k: int|
            l.cell.len() + 2 <= k < l.cell.len() + 2 + l.package.len() ==> #[trigger] s[k] != ':',
{
    lemma_label_text_structure(l, s);
    let c = l.cell.len() as int;
    let p = l.package.len() as int;
    assert forall|k: int| 0 <= k < c implies !(#[trigger] s[k] == '/' && s[k + 1] == '/') by {
        lemma_word_char_not_sep(s[k]);
    }
    assert forall|k: int| c + 2 <= k < c + 2 + p implies #[trigger] s[k] != ':' by {
        assert(s[k] == l.package[k - c - 2]);
        if is_word_char(l.package[k - c - 2]) {
            lemma_word_char_not_sep(l.package[k - c - 2]);
        }
    }
}

/// A well-formed label is determined by its text: two well-formed
/// labels with the same rendering are the same label.
pub proof fn lemma_label_text_injective(a: LabelV, b: LabelV)
    requires
        label_wf(a),
        label_wf(b),
        label_text(a) == label_text(b),
    ensures
        a == b,
{
    let s = label_text(a);
    lemma_label_text_structure(a, s);
    lemma_label_text_structure(b, s);
    let ca = a.cell.len() as int;
    let cb = b.cell.len() as int;
    assert(ca == cb) by {
        if ca < cb {
            assert(is_cell_char(s[ca]));
            lemma_word_char_not_sep(s[ca]);
        }
        if cb < ca {
            assert(is_cell_char(s[cb]));
            lemma_word_char_not_sep(s[cb]);
        }
    }
    let pa = a.package.len() as int;
    let pb = b.package.len() as int;
    assert(pa == pb) by {
        lemma_label_text_separators(a, s);
        lemma_label_text_separators(b, s);
        if pa < pb {
            assert(s[ca + 2 + pa] == ':');
        }
        if pb < pa {
            assert(s[cb + 2 + pb] == ':');
        }
    }
    assert(a.cell =~= b.cell) by {
        assert(forall|k: int| 0 <= k < ca ==> #[trigger] a.cell[k] == s[k] && b.cell[k] == s[k]);
    }
    assert(a.package =~= b.package) by {
        assert(forall|k: int|
            0 <= k < pa ==> #[trigger] a.package[k] == s[k + ca + 2] && b.package[k] == s[k + ca
                + 2]);
    }
    assert(a.name =~= b.name) by {
        assert(a.name.len() == b.name.len());
        assert(forall|k: int|
            0 <= k < a.name.len() ==> #[trigger] a.name[k] == s[k + ca + 2 + pa + 1]
                && b.name[k] == s[k + ca + 2 + pa + 1]);
    }
}

/// The index of the first `//` in `x`, if any.
fn find_double_slash(x: &str) -> (r: Option<usize>)
    ensures
        match r {
            Some(i) => i + 1 < x@.len() && x@[i as int] == '/' && x@[i + 1] == '/' && forall|k: int|
                0 <= k < i ==> !(#[trigger] x@[k] == '/' && x@[k + 1] == '/'),
            None => forall|k: int| 0 <= k && k + 1 < x@.len() ==> !(#[trigger] x@[k] == '/' && x@[k + 1] == '/'),
        },
{
    let n = x.unicode_len();
    if n < 2 {
        return None;
    }
    let mut i: usize = 0;
    while i < n - 1
        invariant
            2 <= n == x@.len(),
            0 <= i <= n - 1,
            forall|k: int| 0 <= k < i ==> !(#[trigger] x@[k] == '/' && x@[k + 1] == '/'),
        decreases n - i,
    {
        if x.get_char(i) == '/' && x.get_char(i + 1) == '/' {
            return Some(i);
        }
        i += 1;
    }
    None
}

/// The index of the first `:` at or after `from`, if any.
fn find_colon_from(x: &str, from: usize) -> (r: Option<usize>)
    requires
        from <= x@.len(),
    ensures
        match r {
            Some(j) => from <= j < x@.len() && x@[j as int] == ':' && forall|k: int|
                from <= k < j ==> x@[k] != ':',
            None => forall|k: int| from <= k < x@.len() ==> x@[k] != ':',
        },
{
    let n = x.unicode_len();
    let mut j: usize = from;
    while j < n
        invariant
            n == x@.len(),
            from <= j <= n,
            forall|k: int| from <= k < j ==> x@[k] != ':',
        decreases n - j,
    {
        if x.get_char(j) == ':' {
            return Some(j);
        }
        j += 1;
    }
    None
}

/// Whether every character of `x` in `[from, to)` is a word character.
fn all_word_chars(x: &str, from: usize, to: usize) -> (r: bool)
    requires
        from <= to <= x@.len(),
    ensures
        r == forall|k: int| from <= k < to ==> is_word_char(#[trigger] x@[k]),
{
    let mut i: usize = from;
    while i < to
        invariant
            from <= i <= to <= x@.len(),
            forall|k: int| from <= k < i ==> is_word_char(#[trigger] x@[k]),
        decreases to - i,
    {
        if !word_char(x.get_char(i)) {
            return false;
        }
        i += 1;
    }
    true
}

/// A valid package path over the region `[from, to)` of `s`.
pub open spec fn package_ok_range(s: Seq<char>, from: int, to: int) -> bool {
    &&& forall|k: int| from <= k < to ==> is_word_char(#[trigger] s[k]) || s[k] == '/'
    &&& to > from ==> s[from] != '/' && s[to - 1] != '/'
    &&& forall|k: int| from <= k < to - 1 ==> !(#[trigger] s[k] == '/' && s[k + 1] == '/')
}

/// `package_ok_range` restated over the extracted subsequence.
proof fn lemma_package_ok_subrange(s: Seq<char>, from: int, to: int)
    requires
        0 <= from <= to <= s.len(),
    ensures
        package_ok_range(s, from, to) == valid_package(s.subrange(from, to)),
{
    let sub = s.subrange(from, to);
    assert(forall|k: int| 0 <= k < sub.len() ==> #[trigger] sub[k] == s[k + from]);
    if package_ok_range(s, from, to) {
        assert(valid_package(sub));
    }
    if valid_package(sub) {
        assert forall|k: int| from <= k < to implies is_word_char(#[trigger] s[k]) || s[k]
            == '/' by {
            assert(sub[k - from] == s[k]);
        }
        assert forall|k: int| from <= k < to - 1 implies !(#[trigger] s[k] == '/' && s[k + 1]
            == '/') by {
            assert(sub[k - from] == s[k]);
            assert(sub[k - from + 1] == s[k + 1]);
        }
        assert(package_ok_range(s, from, to));
    }
}

/// Whether the region `[from, to)` of `x` is a valid package path.
fn package_range_ok(x: &str, from: usize, to: usize) -> (r: bool)
    requires
        from <= to <= x@.len(),
    ensures
        r == package_ok_range(x@, from as int, to as int),
{
    if from == to {
        return true;
    }
    if x.get_char(from) == '/' || x.get_char(to - 1) == '/' {
        return false;
    }
    let mut i: usize = from;
    while i < to
        invariant
            from <= i <= to <= x@.len(),
            from < to,
            x@[from as int] != '/',
            x@[to - 1] != '/',
            forall|k: int| from <= k < i ==> is_word_char(#[trigger] x@[k]) || x@[k] == '/',
            forall|k: int| from <= k < i - 1 ==> !(#[trigger] x@[k] == '/' && x@[k + 1] == '/'),
        decreases to - i,
    {
        let c = x.get_char(i);
        if !word_char(c) && c != '/' {
            return false;
        }
        if c == '/' && i > from && x.get_char(i - 1) == '/' {
            return false;
        }
        proof {
            if i > from && x@[i - 1] == '/' && x@[i as int] == '/' {
                assert(false);
            }
        }
        i += 1;
    }
    true
}

/// Parses the textual form of a concrete target label.
///
/// The grammar is `cell//package:name`: an optional cell alias (empty
/// means the root cell), `//`, a possibly empty package path, `:`, and a
/// non-empty target name.  The result, when the parse succeeds, is the
/// unique well-formed label whose rendering is exactly the input; on any
/// other shape — no `//`, no `:`, a wildcard, an empty name, a stray
/// character — no well-formed label renders to the input, and the parse
/// fails with `NotTargetLabel` carrying the input.
pub fn parse_target_label(x: &str) -> (r: Result<TargetLabel, AnonTargetsError>)
    ensures
        match r {
            Ok(l) => label_wf(l@) && label_text(l@) == x@,
            Err(e) => (forall|l: LabelV| label_wf(l) ==> label_text(l) != x@) && (
            e matches AnonTargetsError::NotTargetLabel(t) && t@ == x@),
        },
{
    let ghost s = x@;
    let n = x.unicode_len();
    let slash = find_double_slash(x);
    match slash {
        None => {
            proof {
                assert forall|l: LabelV| label_wf(l) implies label_text(l) != s by {
                    if label_text(l) == s {
                        lemma_label_text_structure(l, s);
                        let c = l.cell.len() as int;
                        assert(c + 1 < s.len());
                        assert(s[c] == '/' && s[c + 1] == '/');
                    }
                }
            }
            Err(AnonTargetsError::NotTargetLabel(x.to_owned()))
        },
        Some(i) => {
            if !all_word_chars(x, 0, i) {
                proof {
                    let bad = choose|k: int| 0 <= k < i && !is_word_char(#[trigger] s[k]);
                    assert forall|l: LabelV| label_wf(l) implies label_text(l) != s by {
                        if label_text(l) == s {
                            lemma_label_text_structure(l, s);
                            lemma_label_text_separators(l, s);
                            let c = l.cell.len() as int;
                            if c < i {
                                assert(s[c] == '/' && s[c + 1] == '/');
                            } else if c > i {
                                assert(is_cell_char(s[i as int]));
                                lemma_word_char_not_sep(s[i as int]);
                            } else {
                                assert(is_cell_char(s[bad]));
                            }
                        }
                    }
                }
                return Err(AnonTargetsError::NotTargetLabel(x.to_owned()));
            }
            let colon = find_colon_from(x, i + 2);
            match colon {
                None => {
                    proof {
                        assert forall|l: LabelV| label_wf(l) implies label_text(l) != s by {
                            if label_text(l) == s {
                                lemma_label_text_structure(l, s);
                                lemma_label_text_separators(l, s);
                                let c = l.cell.len() as int;
                                if c < i {
                                    assert(s[c] == '/' && s[c + 1] == '/');
                                } else if c > i {
                                    assert(is_cell_char(s[i as int]));
                                    lemma_word_char_not_sep(s[i as int]);
                                } else {
                                    assert(s[c + 2 + l.package.len()] == ':');
                                }
                            }
                        }
                    }
                    Err(AnonTargetsError::NotTargetLabel(x.to_owned()))
                },
                Some(j) => {
                    let pkg_ok = package_range_ok(x, i + 2, j);
                    let dots = n - j == 4 && x.get_char(j + 1) == '.' && x.get_char(j + 2) == '.'
                        && x.get_char(j + 3) == '.';
                    let name_ok = j + 1 < n && all_word_chars(x, j + 1, n) && !dots;
                    if !pkg_ok || !name_ok {
                        proof {
                            assert forall|l: LabelV| label_wf(l) implies label_text(l) != s by {
                                if label_text(l) == s {
                                    lemma_label_text_structure(l, s);
                                    lemma_label_text_separators(l, s);
                                    let c = l.cell.len() as int;
                                    let p = l.package.len() as int;
                                    if c < i {
                                        assert(s[c] == '/' && s[c + 1] == '/');
                                    } else if c > i {
                                        assert(is_cell_char(s[i as int]));
                                        lemma_word_char_not_sep(s[i as int]);
                                    } else {
                                        // The first `:` at or after the package start is at
                                        // the package's end, so `j` marks the package end.
                                        assert(s[c + 2 + p] == ':');
                                        if j < c + 2 + p {
                                            assert(s[j as int] != ':');
                                        }
                                        assert(j == c + 2 + p);
                                        // The package region of the rendering is valid.
                                        assert forall|k: int|
                                            c + 2 <= k < c + 2 + p implies (is_word_char(
                                            #[trigger] s[k]) || s[k] == '/') by {
                                            assert(s[k] == l.package[k - c - 2]);
                                        }
                                        if p > 0 {
                                            assert(s[c + 2] == l.package[0]);
                                            assert(s[c + 2 + p - 1] == l.package[p - 1]);
                                        }
                                        assert forall|k: int|
                                            c + 2 <= k < c + 2 + p - 1 implies !(#[trigger] s[k]
                                            == '/' && s[k + 1] == '/') by {
                                            assert(s[k] == l.package[k - c - 2]);
                                            assert(s[k + 1] == l.package[k + 1 - c - 2]);
                                        }
                                        assert(package_ok_range(s, c + 2, c + 2 + p));
                                        // The name region is non-empty word characters.
                                        assert(s.len() > j + 1);
                                        assert forall|k: int|
                                            j + 1 <= k < s.len() implies is_word_char(
                                            #[trigger] s[k]) by {
                                            assert(s[k] == l.name[k - (c + 2 + p + 1)]);
                                        }
                                        // The name region cannot be the
                                        // reserved wildcard either.
                                        if n - j == 4 {
                                            assert(l.name.len() == 3);
                                            assert(l.name[0] == s[j + 1]);
                                            assert(l.name[1] == s[j + 2]);
                                            assert(l.name[2] == s[j + 3]);
                                        }
                                        assert(false);
                                    }
                                }
                            }
                        }
                        return Err(AnonTargetsError::NotTargetLabel(x.to_owned()));
                    }
                    let cell = x.substring_char(0, i).to_owned();
                    let package = x.substring_char(i + 2, j).to_owned();
                    let name = x.substring_char(j + 1, n).to_owned();
                    let l = TargetLabel { cell, package, name };
                    proof {
                        lemma_package_ok_subrange(s, i + 2, j as int);
                        assert(valid_cell(l@.cell)) by {
                            assert(forall|k: int|
                                0 <= k < i ==> #[trigger] l@.cell[k] == s[k] && is_word_char(s[k]));
                        }
                        assert(valid_name(l@.name)) by {
                            assert(forall|k: int|
                                0 <= k < n - (j + 1) ==> #[trigger] l@.name[k] == s[k + j + 1]
                                    && is_word_char(s[k + j + 1]));
                            if l@.name.len() == 3 {
                                assert(l@.name[0] == s[j + 1]);
                                assert(l@.name[1] == s[j + 2]);
                                assert(l@.name[2] == s[j + 3]);
                            }
                        }
                        assert(label_text(l@) =~= s) by {
                            assert(s[i as int] == '/' && s[i + 1] == '/' && s[j as int] == ':');
                        }
                    }
                    Ok(l)
                },
            }
        },
    }
}

/// Synthesizes the fallback label used when no `name` attribute was
/// supplied: the reserved synthetic cell `anon`, an empty package path,
/// and the rule type's name as the target name.  Fails when that name is
/// not a syntactically valid target name.
pub fn create_name(rule_name: &str) -> (r: Result<TargetLabel, AnonTargetsError>)
    ensures
        match r {
            Ok(l) => {
                &&& label_wf(l@)
                &&& l@.cell == "anon"@
                &&& l@.package == Seq::<char>::empty()
                &&& l@.name == rule_name@
            },
            Err(e) => !valid_name(rule_name@) && (
            e matches AnonTargetsError::NotTargetLabel(t) && t@ == rule_name@),
        },
{
    let n = rule_name.unicode_len();
    let dots = n == 3 && rule_name.get_char(0) == '.' && rule_name.get_char(1) == '.'
        && rule_name.get_char(2) == '.';
    if n == 0 || dots || !all_word_chars(rule_name, 0, n) {
        return Err(AnonTargetsError::NotTargetLabel(rule_name.to_owned()));
    }
    let cell = String::from_str("anon");
    proof {
        reveal_strlit("anon");
        assert(valid_cell(cell@)) by {
            reveal_strlit("anon");
        }
    }
    let package = String::new();
    let name = rule_name.to_owned();
    Ok(TargetLabel { cell, package, name })
}

impl TargetLabel {
    /// Whether the label's three parts are well-formed.
    pub open spec fn wf(&self) -> bool {
        label_wf(self@)
    }

    /// The textual form `cell//package:name`.
    pub fn to_string(&self) -> (r: String)
        ensures
            r@ == label_text(self@),
    {
        let mut out = self.cell.clone();
        out.append("//");
        out.append(self.package.as_str());
        out.append(":");
        out.append(self.name.as_str());
        proof {
            reveal_strlit("//");
            reveal_strlit(":");
            assert(out@ =~= label_text(self@));
        }
        out
    }

    /// An exact copy of the label.
    pub fn duplicate(&self) -> (r: Self)
        ensures
            r == *self,
    {
        TargetLabel {
            cell: self.cell.clone(),
            package: self.package.clone(),
            name: self.name.clone(),
        }
    }
}

} // verus!
