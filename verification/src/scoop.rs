//! Scoop synchronisation: reading what is installed from Scoop's listings,
//! and deciding which buckets and packages to add and which to remove.

use vstd::prelude::*;
use crate::config::{BucketEntry, PackageEntry};
use crate::text::{
    chars_of, first_word, first_word_of, find_line_end, lemma_line_end_bounds, lines_spec,
    starts_with_at, starts_with_seq, string_of, strings_view, strip_cr, trim_bounds, trim_seq,
};

verus! {

/// The escape character that starts an ANSI escape sequence.
pub open spec fn esc() -> char {
    '\u{1b}'
}

/// `s` with ANSI escape sequences removed, starting inside a sequence when
/// `in_escape` holds: an escape character starts a sequence, and a sequence
/// ends with the next `'m'`; everything in a sequence is dropped.
pub open spec fn strip_ansi_from(s: Seq<char>, in_escape: bool) -> Seq<char>
    decreases s.len(),
{
    if s.len() == 0 {
        seq![]
    } else if s[0] == esc() {
        strip_ansi_from(s.drop_first(), true)
    } else if in_escape {
        strip_ansi_from(s.drop_first(), s[0] != 'm')
    } else {
        seq![s[0]] + strip_ansi_from(s.drop_first(), false)
    }
}

/// `s` with ANSI escape sequences removed.
pub open spec fn strip_ansi_seq(s: Seq<char>) -> Seq<char> {
    strip_ansi_from(s, false)
}

/// `v[lo..hi]` with ANSI escape sequences removed.
pub fn strip_ansi_chars(v: &Vec<char>, lo: usize, hi: usize) -> (r: Vec<char>)
    requires
        lo <= hi <= v.len(),
    ensures
        r@ == strip_ansi_seq(v@.subrange(lo as int, hi as int)),
{
    let mut r: Vec<char> = Vec::new();
    let mut in_escape = false;
    let mut i = lo;
    while i < hi
        invariant
            lo <= i <= hi <= v.len(),
            r@ + strip_ansi_from(v@.subrange(i as int, hi as int), in_escape) == strip_ansi_seq(
                v@.subrange(lo as int, hi as int),
            ),
        decreases hi - i,
    {
        let c = v[i];
        proof {
            assert(v@.subrange(i as int, hi as int).drop_first() =~= v@.subrange(
                i + 1,
                hi as int,
            ));
        }
        if c == '\u{1b}' {
            in_escape = true;
        } else if in_escape {
            if c == 'm' {
                in_escape = false;
            }
        } else {
            proof {
                assert(r@.push(c) + strip_ansi_from(v@.subrange(i + 1, hi as int), false) =~= r@
                    + (seq![c] + strip_ansi_from(v@.subrange(i + 1, hi as int), false)));
            }
            r.push(c);
        }
        i = i + 1;
    }
    proof {
        assert(r@ + seq![] =~= r@);
    }
    r
}

/// Strip ANSI escape codes from a string.
pub fn strip_ansi(s: &str) -> (r: String)
    ensures
        r@ == strip_ansi_seq(s@),
{
    let v = chars_of(s);
    let stripped = strip_ansi_chars(&v, 0, v.len());
    proof {
        assert(v@.subrange(0, v.len() as int) =~= s@);
    }
    string_of(&stripped, 0, stripped.len())
}

/// No escape character survives stripping.
proof fn lemma_strip_ansi_from_no_escape(s: Seq<char>, in_escape: bool)
    ensures
        !strip_ansi_from(s, in_escape).contains(esc()),
    decreases s.len(),
{
    if s.len() > 0 {
        lemma_strip_ansi_from_no_escape(s.drop_first(), true);
        lemma_strip_ansi_from_no_escape(s.drop_first(), false);
        lemma_strip_ansi_from_no_escape(s.drop_first(), s[0] != 'm');
        if s[0] != esc() && !in_escape {
            let rest = strip_ansi_from(s.drop_first(), false);
            assert forall|i: int| 0 <= i < (seq![s[0]] + rest).len() implies (seq![s[0]]
                + rest)[i] != esc() by {
                if i > 0 {
                    assert((seq![s[0]] + rest)[i] == rest[i - 1]);
                }
            }
        }
    }
}

/// Text without escape characters passes through unchanged.
proof fn lemma_strip_ansi_from_plain(s: Seq<char>)
    requires
        !s.contains(esc()),
    ensures
        strip_ansi_from(s, false) == s,
    decreases s.len(),
{
    if s.len() > 0 {
        assert(s[0] != esc()) by {
            if s[0] == esc() {
                assert(s.contains(esc()));
            }
        }
        assert forall|c: char| s.drop_first().contains(c) implies s.contains(c) by {
            let i = choose|i: int| 0 <= i < s.drop_first().len() && s.drop_first()[i] == c;
            assert(s[i + 1] == c);
        }
        lemma_strip_ansi_from_plain(s.drop_first());
        assert(seq![s[0]] + s.drop_first() =~= s);
    }
}

/// After stripping, no escape character is left.
pub proof fn strip_ansi_leaves_no_escape(s: Seq<char>)
    ensures
        !strip_ansi_seq(s).contains(esc()),
{
    lemma_strip_ansi_from_no_escape(s, false);
}

/// Text that holds no escape character is left as it is.
pub proof fn strip_ansi_keeps_plain_text(s: Seq<char>)
    requires
        !s.contains(esc()),
    ensures
        strip_ansi_seq(s) == s,
{
    lemma_strip_ansi_from_plain(s);
}

/// Stripping twice is stripping once.
pub proof fn strip_ansi_idempotent(s: Seq<char>)
    ensures
        strip_ansi_seq(strip_ansi_seq(s)) == strip_ansi_seq(s),
{
    lemma_strip_ansi_from_no_escape(s, false);
    lemma_strip_ansi_from_plain(strip_ansi_seq(s));
}

/// Whether `a` is obtained from `b` by deleting some of its elements.
pub open spec fn is_subsequence(a: Seq<char>, b: Seq<char>) -> bool
    decreases b.len(),
{
    if b.len() == 0 {
        a.len() == 0
    } else if a.len() > 0 && a[0] == b[0] {
        is_subsequence(a.drop_first(), b.drop_first()) || is_subsequence(a, b.drop_first())
    } else {
        is_subsequence(a, b.drop_first())
    }
}

/// A subsequence is no longer than the sequence it is taken from.
proof fn lemma_subsequence_len(a: Seq<char>, b: Seq<char>)
    requires
        is_subsequence(a, b),
    ensures
        a.len() <= b.len(),
    decreases b.len(),
{
    if b.len() > 0 {
        if a.len() > 0 && a[0] == b[0] && is_subsequence(a.drop_first(), b.drop_first()) {
            lemma_subsequence_len(a.drop_first(), b.drop_first());
        } else {
            lemma_subsequence_len(a, b.drop_first());
        }
    }
}

/// Stripping only deletes characters.
proof fn lemma_strip_ansi_from_subsequence(s: Seq<char>, in_escape: bool)
    ensures
        is_subsequence(strip_ansi_from(s, in_escape), s),
    decreases s.len(),
{
    if s.len() > 0 {
        let r = strip_ansi_from(s, in_escape);
        if s[0] == esc() {
            lemma_strip_ansi_from_subsequence(s.drop_first(), true);
            lemma_strip_ansi_from_no_escape(s.drop_first(), true);
            if r.len() > 0 {
                assert(r.contains(r[0]));
            }
        } else if in_escape {
            lemma_strip_ansi_from_subsequence(s.drop_first(), s[0] != 'm');
        } else {
            lemma_strip_ansi_from_subsequence(s.drop_first(), false);
            assert(r.drop_first() =~= strip_ansi_from(s.drop_first(), false));
        }
    }
}

/// Stripping escape codes only deletes characters: the result is a
/// subsequence of the text, so no longer than it.
pub proof fn strip_ansi_is_subsequence(s: Seq<char>)
    ensures
        is_subsequence(strip_ansi_seq(s), s),
        strip_ansi_seq(s).len() <= s.len(),
{
    lemma_strip_ansi_from_subsequence(s, false);
    lemma_subsequence_len(strip_ansi_seq(s), s);
}

/// Whether a line of a Scoop listing names an installed item: once escape
/// codes are stripped and it is trimmed, it is not empty and starts with
/// none of the `headers`.
pub open spec fn line_is_listed(line: Seq<char>, headers: Seq<Seq<char>>) -> bool {
    let t = trim_seq(strip_ansi_seq(line));
    &&& t.len() > 0
    &&& forall|k: int| 0 <= k < headers.len() ==> !starts_with_seq(t, #[trigger] headers[k])
}

/// The names that the listed lines give: the first word of each listed
/// line, escape codes stripped, in order.
pub open spec fn listed_names(lines: Seq<Seq<char>>, headers: Seq<Seq<char>>) -> Seq<Seq<char>>
    decreases lines.len(),
{
    if lines.len() == 0 {
        seq![]
    } else {
        (if line_is_listed(lines[0], headers) {
            seq![first_word(strip_ansi_seq(lines[0]))]
        } else {
            seq![]
        }) + listed_names(lines.drop_first(), headers)
    }
}

/// The header lines of `scoop bucket list`.
pub open spec fn bucket_list_headers() -> Seq<Seq<char>> {
    seq!["Name"@, "----"@]
}

/// The header lines of `scoop list`.
pub open spec fn package_list_headers() -> Seq<Seq<char>> {
    seq!["Installed"@, "Name"@, "----"@]
}

/// The texts of a list of character vectors.
pub open spec fn char_vecs_view(v: Seq<Vec<char>>) -> Seq<Seq<char>> {
    v.map_values(|c: Vec<char>| c@)
}

/// Whether the trimmed `t[a..b]` is listed, given the headers.
fn keeps_line(t: &Vec<char>, a: usize, b: usize, headers: &Vec<Vec<char>>) -> (r: bool)
    requires
        a <= b <= t.len(),
    ensures
        r == (b > a && forall|k: int|
            0 <= k < headers.len() ==> !starts_with_seq(
                t@.subrange(a as int, b as int),
                #[trigger] char_vecs_view(headers@)[k],
            )),
{
    if b == a {
        return false;
    }
    let mut k: usize = 0;
    while k < headers.len()
        invariant
            a < b <= t.len(),
            k <= headers.len(),
            forall|j: int|
                0 <= j < k ==> !starts_with_seq(
                    t@.subrange(a as int, b as int),
                    #[trigger] char_vecs_view(headers@)[j],
                ),
        decreases headers.len() - k,
    {
        if starts_with_at(t, a, b, &headers[k]) {
            proof {
                assert(char_vecs_view(headers@)[k as int] == headers@[k as int]@);
            }
            return false;
        }
        k = k + 1;
    }
    true
}

/// The names listed in the output of a Scoop listing command.
fn listed_in_output(output: &str, headers: &Vec<Vec<char>>) -> (r: Vec<String>)
    ensures
        strings_view(r@) == listed_names(lines_spec(output@), char_vecs_view(headers@)),
{
    let v = chars_of(output);
    let n = v.len();
    let ghost hs = char_vecs_view(headers@);
    let mut names: Vec<String> = Vec::new();
    let mut pos: usize = 0;
    proof {
        assert(v@.subrange(0, n as int) =~= v@);
    }
    while pos < n
        invariant
            pos <= n == v.len(),
            v@ == output@,
            hs == char_vecs_view(headers@),
            strings_view(names@) + listed_names(lines_spec(v@.subrange(pos as int, n as int)), hs)
                == listed_names(lines_spec(v@), hs),
        decreases n - pos,
    {
        let ghost rest = v@.subrange(pos as int, n as int);
        let e = find_line_end(&v, pos);
        let le = if e < n && e > pos && v[e - 1] == '\r' {
            e - 1
        } else {
            e
        };
        let ghost line = v@.subrange(pos as int, le as int);
        proof {
            lemma_line_end_bounds(rest);
            if e < n {
                assert(strip_cr(rest.subrange(0, e - pos)) =~= line);
                assert(rest.subrange(e - pos + 1, rest.len() as int) =~= v@.subrange(
                    e + 1,
                    n as int,
                ));
                assert(lines_spec(rest) == seq![line] + lines_spec(v@.subrange(e + 1, n as int)));
            } else {
                assert(line =~= rest);
                assert(lines_spec(rest) == seq![line]);
            }
        }
        let stripped = strip_ansi_chars(&v, pos, le);
        let (a, b) = trim_bounds(&stripped, 0, stripped.len());
        proof {
            assert(stripped@.subrange(0, stripped.len() as int) =~= stripped@);
        }
        let keep = keeps_line(&stripped, a, b, headers);
        let ghost old_names = strings_view(names@);
        let ghost added: Seq<Seq<char>> = if line_is_listed(line, hs) {
            seq![first_word(strip_ansi_seq(line))]
        } else {
            seq![]
        };
        if keep {
            let w = first_word_of(&stripped, 0, stripped.len());
            let word = string_of(&w, 0, w.len());
            proof {
                assert(w@.subrange(0, w.len() as int) =~= w@);
            }
            names.push(word);
        }
        proof {
            assert(strings_view(names@) =~= old_names + added);
        }
        let ghost next = if e < n {
            (e + 1) as int
        } else {
            n as int
        };
        proof {
            let tail = v@.subrange(next, n as int);
            if e >= n {
                assert(lines_spec(tail) =~= seq![]);
            }
            assert(lines_spec(rest) == seq![line] + lines_spec(tail));
            assert((seq![line] + lines_spec(tail)).drop_first() =~= lines_spec(tail));
            assert(listed_names(lines_spec(rest), hs) == added + listed_names(lines_spec(tail), hs));
            assert(old_names + added + listed_names(lines_spec(tail), hs) =~= old_names + (added
                + listed_names(lines_spec(tail), hs)));
        }
        pos = if e < n {
            e + 1
        } else {
            n
        };
    }
    proof {
        assert(lines_spec(v@.subrange(n as int, n as int)) =~= seq![]);
        assert(strings_view(names@) + seq![] =~= strings_view(names@));
    }
    names
}

/// The bucket names in the output of `scoop bucket list`: the first word of
/// every line that is not blank and is not a header (`Name`, `----`).
pub fn parse_installed_buckets(output: &str) -> (r: Vec<String>)
    ensures
        strings_view(r@) == listed_names(lines_spec(output@), bucket_list_headers()),
{
    let headers: Vec<Vec<char>> = vec![chars_of("Name"), chars_of("----")];
    proof {
        assert(char_vecs_view(headers@) =~= bucket_list_headers());
    }
    listed_in_output(output, &headers)
}

/// The package names in the output of `scoop list`: the first word of every
/// line that is not blank and is not a header (`Installed`, `Name`, `----`).
pub fn parse_installed_packages(output: &str) -> (r: Vec<String>)
    ensures
        strings_view(r@) == listed_names(lines_spec(output@), package_list_headers()),
{
    let headers: Vec<Vec<char>> = vec![chars_of("Installed"), chars_of("Name"), chars_of("----")];
    proof {
        assert(char_vecs_view(headers@) =~= package_list_headers());
    }
    listed_in_output(output, &headers)
}

/// The names of the declared buckets.
pub open spec fn bucket_names(b: Seq<BucketEntry>) -> Seq<Seq<char>> {
    b.map_values(|e: BucketEntry| e.name_view())
}

/// The names of the declared packages.
pub open spec fn package_names(p: Seq<PackageEntry>) -> Seq<Seq<char>> {
    p.map_values(|e: PackageEntry| e.name_view())
}

/// The positions among the first `n` declared names whose name is not
/// installed, in order.
pub open spec fn missing_upto(declared: Seq<Seq<char>>, installed: Seq<Seq<char>>, n: int) -> Seq<
    usize,
>
    decreases n,
{
    if n <= 0 {
        seq![]
    } else {
        missing_upto(declared, installed, n - 1) + (if installed.contains(declared[n - 1]) {
            seq![]
        } else {
            seq![(n - 1) as usize]
        })
    }
}

/// The positions of the declared names that are not installed, in order.
pub open spec fn missing_indices(declared: Seq<Seq<char>>, installed: Seq<Seq<char>>) -> Seq<usize> {
    missing_upto(declared, installed, declared.len() as int)
}

/// The installed names that are not declared, in the order of `installed`.
pub open spec fn undeclared(installed: Seq<Seq<char>>, declared: Seq<Seq<char>>) -> Seq<Seq<char>>
    decreases installed.len(),
{
    if installed.len() == 0 {
        seq![]
    } else {
        undeclared(installed.drop_last(), declared) + (if declared.contains(installed.last()) {
            seq![]
        } else {
            seq![installed.last()]
        })
    }
}

/// Whether `name` is one of `names`.
pub fn contains_name(names: &Vec<String>, name: &str) -> (r: bool)
    ensures
        r == strings_view(names@).contains(name@),
{
    let target = String::from_str(name);
    let mut i: usize = 0;
    while i < names.len()
        invariant
            i <= names.len(),
            target@ == name@,
            forall|j: int| 0 <= j < i ==> names@[j]@ != name@,
        decreases names.len() - i,
    {
        if names[i] == target {
            proof {
                assert(strings_view(names@)[i as int] == name@);
            }
            return true;
        }
        i = i + 1;
    }
    proof {
        if strings_view(names@).contains(name@) {
            let j = choose|j: int|
                0 <= j < strings_view(names@).len() && strings_view(names@)[j] == name@;
            assert(names@[j]@ == name@);
        }
    }
    false
}

/// The installed names that no declared name matches, in installed order.
fn undeclared_of(installed: &Vec<String>, declared: &Vec<String>) -> (r: Vec<String>)
    ensures
        strings_view(r@) == undeclared(strings_view(installed@), strings_view(declared@)),
{
    let mut r: Vec<String> = Vec::new();
    let mut i: usize = 0;
    while i < installed.len()
        invariant
            i <= installed.len(),
            strings_view(r@) == undeclared(
                strings_view(installed@).subrange(0, i as int),
                strings_view(declared@),
            ),
        decreases installed.len() - i,
    {
        let ghost pre = strings_view(installed@).subrange(0, i as int);
        let ghost now = strings_view(installed@).subrange(0, i + 1);
        proof {
            assert(now.drop_last() =~= pre);
            assert(now.last() == installed@[i as int]@);
        }
        if !contains_name(declared, installed[i].as_str()) {
            r.push(installed[i].clone());
            proof {
                assert(strings_view(r@) =~= undeclared(pre, strings_view(declared@)) + seq![
                    installed@[i as int]@,
                ]);
            }
        } else {
            proof {
                assert(undeclared(pre, strings_view(declared@)) + seq![] =~= undeclared(
                    pre,
                    strings_view(declared@),
                ));
            }
        }
        i = i + 1;
    }
    proof {
        assert(strings_view(installed@).subrange(0, installed.len() as int) =~= strings_view(
            installed@,
        ));
    }
    r
}

/// The positions of `declared` whose name is not installed.
fn missing_of(declared: &Vec<String>, installed: &Vec<String>) -> (r: Vec<usize>)
    ensures
        r@ == missing_indices(strings_view(declared@), strings_view(installed@)),
{
    let mut r: Vec<usize> = Vec::new();
    let mut i: usize = 0;
    while i < declared.len()
        invariant
            i <= declared.len(),
            r@ == missing_upto(strings_view(declared@), strings_view(installed@), i as int),
        decreases declared.len() - i,
    {
        let ghost before = r@;
        proof {
            assert(strings_view(declared@)[i as int] == declared@[i as int]@);
        }
        if !contains_name(installed, declared[i].as_str()) {
            r.push(i);
            proof {
                assert(r@ =~= before + seq![i]);
            }
        } else {
            proof {
                assert(before + seq![] =~= before);
            }
        }
        i = i + 1;
    }
    r
}

/// The names of the declared buckets, in order.
fn bucket_name_list(buckets: &Vec<BucketEntry>) -> (r: Vec<String>)
    ensures
        strings_view(r@) == bucket_names(buckets@),
{
    let mut r: Vec<String> = Vec::new();
    let mut i: usize = 0;
    while i < buckets.len()
        invariant
            i <= buckets.len(),
            r@.len() == i,
            strings_view(r@) == bucket_names(buckets@).subrange(0, i as int),
        decreases buckets.len() - i,
    {
        let ghost before = r@;
        let nm = String::from_str(buckets[i].name());
        r.push(nm);
        proof {
            assert(nm@ == buckets@[i as int].name_view());
            assert(bucket_names(buckets@)[i as int] == buckets@[i as int].name_view());
            assert(r@ == before.push(nm));
            assert forall|j: int| 0 <= j < i implies strings_view(r@)[j] == bucket_names(buckets@)[j] by {
                assert(strings_view(r@)[j] == r@[j]@);
                assert(r@[j] == before[j]);
                assert(strings_view(before)[j] == before[j]@);
                assert(strings_view(before)[j] == bucket_names(buckets@).subrange(0, i as int)[j]);
            }
            assert(strings_view(r@) =~= bucket_names(buckets@).subrange(0, i + 1));
        }
        i = i + 1;
    }
    proof {
        assert(bucket_names(buckets@).subrange(0, buckets.len() as int) =~= bucket_names(buckets@));
    }
    r
}

/// The names of the declared packages, in order.
fn package_name_list(packages: &Vec<PackageEntry>) -> (r: Vec<String>)
    ensures
        strings_view(r@) == package_names(packages@),
{
    let mut r: Vec<String> = Vec::new();
    let mut i: usize = 0;
    while i < packages.len()
        invariant
            i <= packages.len(),
            r@.len() == i,
            strings_view(r@) == package_names(packages@).subrange(0, i as int),
        decreases packages.len() - i,
    {
        let ghost before = r@;
        let nm = String::from_str(packages[i].name());
        r.push(nm);
        proof {
            assert(nm@ == packages@[i as int].name_view());
            assert(package_names(packages@)[i as int] == packages@[i as int].name_view());
            assert(r@ == before.push(nm));
            assert forall|j: int| 0 <= j < i implies strings_view(r@)[j] == package_names(packages@)[j] by {
                assert(strings_view(r@)[j] == r@[j]@);
                assert(r@[j] == before[j]);
                assert(strings_view(before)[j] == before[j]@);
                assert(strings_view(before)[j] == package_names(packages@).subrange(0, i as int)[j]);
            }
            assert(strings_view(r@) =~= package_names(packages@).subrange(0, i + 1));
        }
        i = i + 1;
    }
    proof {
        assert(package_names(packages@).subrange(0, packages.len() as int) =~= package_names(
            packages@,
        ));
    }
    r
}

/// What a bucket sync has to do.
pub struct BucketPlan {
    /// Positions of the declared buckets that are not added yet, in order.
    pub missing: Vec<usize>,
    /// Added buckets that are not declared, in the order Scoop lists them.
    pub extra: Vec<String>,
}

/// What a package sync has to do.
pub struct PackagePlan {
    /// How many declared packages are installed already.
    pub already_installed: usize,
    /// Positions of the declared packages that are not installed, in order.
    pub to_install: Vec<usize>,
    /// Installed packages that are not declared, in the order Scoop lists them.
    pub extra: Vec<String>,
}

/// Compare the declared buckets with the added ones: which declared buckets
/// are missing, and which added buckets are not declared.
pub fn plan_buckets(buckets: &Vec<BucketEntry>, installed: &Vec<String>) -> (p: BucketPlan)
    ensures
        p.missing@ == missing_indices(bucket_names(buckets@), strings_view(installed@)),
        strings_view(p.extra@) == undeclared(strings_view(installed@), bucket_names(buckets@)),
{
    let names = bucket_name_list(buckets);
    BucketPlan { missing: missing_of(&names, installed), extra: undeclared_of(installed, &names) }
}

/// Compare the declared packages with the installed ones: how many are
/// installed already, which are missing, and which installed packages are
/// not declared.
pub fn plan_packages(packages: &Vec<PackageEntry>, installed: &Vec<String>) -> (p: PackagePlan)
    ensures
        p.to_install@ == missing_indices(package_names(packages@), strings_view(installed@)),
        p.already_installed + p.to_install.len() == packages.len(),
        strings_view(p.extra@) == undeclared(strings_view(installed@), package_names(packages@)),
{
    let names = package_name_list(packages);
    let to_install = missing_of(&names, installed);
    proof {
        lemma_missing_upto_len(package_names(packages@), strings_view(installed@), packages.len() as int);
    }
    PackagePlan {
        already_installed: packages.len() - to_install.len(),
        to_install,
        extra: undeclared_of(installed, &names),
    }
}

/// `missing_upto` holds at most `n` positions, each below `n`, increasing.
proof fn lemma_missing_upto_len(declared: Seq<Seq<char>>, installed: Seq<Seq<char>>, n: int)
    requires
        0 <= n,
    ensures
        missing_upto(declared, installed, n).len() <= n,
        forall|k: int|
            0 <= k < missing_upto(declared, installed, n).len() ==> #[trigger] missing_upto(
                declared,
                installed,
                n,
            )[k] < n,
    decreases n,
{
    if n > 0 {
        lemma_missing_upto_len(declared, installed, n - 1);
    }
}

/// The arguments of `scoop bucket add` for a bucket: its name, and its
/// custom source when it has one.
pub open spec fn bucket_add_args_view(b: BucketEntry) -> Seq<Seq<char>> {
    seq!["bucket"@, "add"@, b.name_view()] + match b.source_view() {
        Some(src) => seq![src],
        None => seq![],
    }
}

/// Build the arguments of the `scoop bucket add` command for a bucket.
pub fn bucket_add_args(b: &BucketEntry) -> (r: Vec<String>)
    ensures
        strings_view(r@) == bucket_add_args_view(*b),
{
    let mut r: Vec<String> = Vec::new();
    r.push(String::from_str("bucket"));
    r.push(String::from_str("add"));
    r.push(String::from_str(b.name()));
    match b.source() {
        Some(src) => {
            r.push(String::from_str(src));
        },
        None => {},
    }
    proof {
        assert(strings_view(r@) =~= bucket_add_args_view(*b));
    }
    r
}

/// What a sync does with one declared item, or with a group of them.
#[derive(Debug, Clone, Copy, PartialEq, Eq, Structural)]
pub enum SyncStep {
    /// Nothing to do.
    Skip,
    /// Dry run: report what would be done.
    Preview,
    /// Do it.
    Run,
}

/// The step for work that is needed or not, in a dry run or not.
pub open spec fn step_view(needed: bool, dry_run: bool) -> SyncStep {
    if !needed {
        SyncStep::Skip
    } else if dry_run {
        SyncStep::Preview
    } else {
        SyncStep::Run
    }
}

/// The step for work that is needed or not, in a dry run or not.
pub fn sync_step(needed: bool, dry_run: bool) -> (r: SyncStep)
    ensures
        r == step_view(needed, dry_run),
{
    if !needed {
        SyncStep::Skip
    } else if dry_run {
        SyncStep::Preview
    } else {
        SyncStep::Run
    }
}

/// The step for each declared bucket: skipped when it is added already,
/// otherwise previewed in a dry run and added in a real one.
pub fn bucket_steps(buckets: &Vec<BucketEntry>, installed: &Vec<String>, dry_run: bool) -> (r: Vec<
    SyncStep,
>)
    ensures
        r.len() == buckets.len(),
        forall|i: int|
            0 <= i < buckets.len() ==> r@[i] == step_view(
                !strings_view(installed@).contains(#[trigger] buckets@[i].name_view()),
                dry_run,
            ),
{
    let mut r: Vec<SyncStep> = Vec::new();
    let mut i: usize = 0;
    while i < buckets.len()
        invariant
            i <= buckets.len(),
            r.len() == i,
            forall|j: int|
                0 <= j < i ==> r@[j] == step_view(
                    !strings_view(installed@).contains(#[trigger] buckets@[j].name_view()),
                    dry_run,
                ),
        decreases buckets.len() - i,
    {
        let added = contains_name(installed, buckets[i].name());
        r.push(sync_step(!added, dry_run));
        i = i + 1;
    }
    r
}

/// `missing_upto` holds exactly the positions below `n` whose name is not
/// installed, in increasing order.
proof fn lemma_missing_upto_exact(declared: Seq<Seq<char>>, installed: Seq<Seq<char>>, n: int)
    requires
        0 <= n <= declared.len() <= usize::MAX,
    ensures
        forall|i: int|
            0 <= i < n ==> (missing_upto(declared, installed, n).contains(i as usize)
                <==> !installed.contains(#[trigger] declared[i])),
        forall|k: int|
            0 <= k < missing_upto(declared, installed, n).len() ==> #[trigger] missing_upto(
                declared,
                installed,
                n,
            )[k] < n,
        forall|k1: int, k2: int|
            0 <= k1 < k2 < missing_upto(declared, installed, n).len() ==> missing_upto(
                declared,
                installed,
                n,
            )[k1] < missing_upto(declared, installed, n)[k2],
    decreases n,
{
    if n > 0 {
        lemma_missing_upto_exact(declared, installed, n - 1);
        let prev = missing_upto(declared, installed, n - 1);
        let cur = missing_upto(declared, installed, n);
        assert forall|k1: int, k2: int| 0 <= k1 < k2 < cur.len() implies cur[k1] < cur[k2] by {
            if k2 < prev.len() {
                assert(cur[k1] == prev[k1] && cur[k2] == prev[k2]);
            } else {
                assert(cur[k1] == prev[k1]);
                assert(prev[k1] < n - 1);
                assert(cur[k2] == (n - 1) as usize);
            }
        }
        assert forall|k: int| 0 <= k < cur.len() implies #[trigger] cur[k] < n by {
            if k < prev.len() {
                assert(cur[k] == prev[k]);
            }
        }
        assert forall|i: int|
            0 <= i < n implies (cur.contains(i as usize) <==> !installed.contains(
                #[trigger] declared[i],
            )) by {
            if cur.contains(i as usize) {
                let k = choose|k: int| 0 <= k < cur.len() && cur[k] == i as usize;
                if k < prev.len() {
                    assert(prev[k] == cur[k]);
                    assert(prev[k] < n - 1);
                    assert(prev.contains(i as usize));
                    assert(i < n - 1);
                } else {
                    assert(cur[k] == (n - 1) as usize);
                    assert(i == n - 1);
                }
            }
            if !installed.contains(declared[i]) {
                if i < n - 1 {
                    let k = choose|k: int| 0 <= k < prev.len() && prev[k] == i as usize;
                    assert(cur[k] == prev[k]);
                } else {
                    assert(cur[prev.len() as int] == (n - 1) as usize);
                }
            }
        }
    }
}

/// The missing positions are exactly the declared positions whose name is
/// not installed, each once, in increasing order.
pub proof fn missing_indices_exact(declared: Seq<Seq<char>>, installed: Seq<Seq<char>>)
    requires
        declared.len() <= usize::MAX,
    ensures
        forall|i: int|
            0 <= i < declared.len() ==> (missing_indices(declared, installed).contains(i as usize)
                <==> !installed.contains(#[trigger] declared[i])),
        forall|k: int|
            0 <= k < missing_indices(declared, installed).len() ==> #[trigger] missing_indices(
                declared,
                installed,
            )[k] < declared.len(),
        forall|k1: int, k2: int|
            0 <= k1 < k2 < missing_indices(declared, installed).len() ==> missing_indices(
                declared,
                installed,
            )[k1] < missing_indices(declared, installed)[k2],
{
    lemma_missing_upto_exact(declared, installed, declared.len() as int);
}

/// The bucket plan compares buckets by name: a declared bucket is missing
/// exactly when no added bucket has its name, and an added bucket is extra
/// exactly when no declared bucket has its name.
pub proof fn bucket_plan_compares_names(buckets: Seq<BucketEntry>, installed: Seq<Seq<char>>)
    requires
        buckets.len() <= usize::MAX,
    ensures
        forall|i: int|
            0 <= i < buckets.len() ==> (missing_indices(bucket_names(buckets), installed).contains(
                i as usize,
            ) <==> !installed.contains(#[trigger] buckets[i].name_view())),
        forall|x: Seq<char>|
            #[trigger] undeclared(installed, bucket_names(buckets)).contains(x) <==> (
            installed.contains(x) && !exists|i: int|
                0 <= i < buckets.len() && #[trigger] buckets[i].name_view() == x),
{
    let names = bucket_names(buckets);
    missing_indices_exact(names, installed);
    undeclared_exact(installed, names);
    assert forall|i: int| 0 <= i < buckets.len() implies (missing_indices(names, installed).contains(
        i as usize,
    ) <==> !installed.contains(#[trigger] buckets[i].name_view())) by {
        assert(names[i] == buckets[i].name_view());
    }
    assert forall|x: Seq<char>| names.contains(x) <==> exists|i: int|
        0 <= i < buckets.len() && #[trigger] buckets[i].name_view() == x by {
        if names.contains(x) {
            let i = choose|i: int| 0 <= i < names.len() && names[i] == x;
            assert(buckets[i].name_view() == x);
        }
        if exists|i: int| 0 <= i < buckets.len() && #[trigger] buckets[i].name_view() == x {
            let i = choose|i: int| 0 <= i < buckets.len() && #[trigger] buckets[i].name_view() == x;
            assert(names[i] == x);
        }
    }
}

/// The package plan compares packages by name: a declared package is
/// missing exactly when no installed package has its name, and an
/// installed package is extra exactly when no declared package has its
/// name.
pub proof fn package_plan_compares_names(packages: Seq<PackageEntry>, installed: Seq<Seq<char>>)
    requires
        packages.len() <= usize::MAX,
    ensures
        forall|i: int|
            0 <= i < packages.len() ==> (missing_indices(package_names(packages), installed).contains(
                i as usize,
            ) <==> !installed.contains(#[trigger] packages[i].name_view())),
        forall|x: Seq<char>|
            #[trigger] undeclared(installed, package_names(packages)).contains(x) <==> (
            installed.contains(x) && !exists|i: int|
                0 <= i < packages.len() && #[trigger] packages[i].name_view() == x),
{
    let names = package_names(packages);
    missing_indices_exact(names, installed);
    undeclared_exact(installed, names);
    assert forall|i: int| 0 <= i < packages.len() implies (missing_indices(names, installed).contains(
        i as usize,
    ) <==> !installed.contains(#[trigger] packages[i].name_view())) by {
        assert(names[i] == packages[i].name_view());
    }
    assert forall|x: Seq<char>| names.contains(x) <==> exists|i: int|
        0 <= i < packages.len() && #[trigger] packages[i].name_view() == x by {
        if names.contains(x) {
            let i = choose|i: int| 0 <= i < names.len() && names[i] == x;
            assert(packages[i].name_view() == x);
        }
        if exists|i: int| 0 <= i < packages.len() && #[trigger] packages[i].name_view() == x {
            let i = choose|i: int| 0 <= i < packages.len() && #[trigger] packages[i].name_view() == x;
            assert(names[i] == x);
        }
    }
}

/// The undeclared names are exactly the installed names that are not
/// declared.
pub proof fn undeclared_exact(installed: Seq<Seq<char>>, declared: Seq<Seq<char>>)
    ensures
        forall|x: Seq<char>|
            #[trigger] undeclared(installed, declared).contains(x) <==> (installed.contains(x)
                && !declared.contains(x)),
    decreases installed.len(),
{
    if installed.len() > 0 {
        let init = installed.drop_last();
        undeclared_exact(init, declared);
        let prev = undeclared(init, declared);
        let cur = undeclared(installed, declared);
        assert forall|x: Seq<char>|
            #[trigger] cur.contains(x) <==> (installed.contains(x) && !declared.contains(x)) by {
            if cur.contains(x) {
                let k = choose|k: int| 0 <= k < cur.len() && cur[k] == x;
                if k < prev.len() {
                    assert(prev[k] == x);
                    assert(prev.contains(x));
                    let j = choose|j: int| 0 <= j < init.len() && init[j] == x;
                    assert(installed[j] == x);
                } else {
                    assert(x == installed.last());
                    assert(installed[installed.len() - 1] == x);
                }
            }
            if installed.contains(x) && !declared.contains(x) {
                let j = choose|j: int| 0 <= j < installed.len() && installed[j] == x;
                if j < installed.len() - 1 {
                    assert(init[j] == x);
                    assert(init.contains(x));
                    assert(prev.contains(x));
                    let k = choose|k: int| 0 <= k < prev.len() && prev[k] == x;
                    assert(cur[k] == x);
                } else {
                    assert(cur[prev.len() as int] == x);
                }
            }
        }
    }
}

/// The names a sync leaves installed: what was installed, less the
/// undeclared names it removes, plus the missing names it adds.
pub open spec fn names_after_sync(installed: Seq<Seq<char>>, declared: Seq<Seq<char>>) -> Set<
    Seq<char>,
> {
    installed.to_set().difference(undeclared(installed, declared).to_set()).union(
        missing_indices(declared, installed).map_values(|i: usize| declared[i as int]).to_set(),
    )
}

/// A sync that carries out its whole plan leaves installed exactly the
/// declared names.
pub proof fn sync_converges(installed: Seq<Seq<char>>, declared: Seq<Seq<char>>)
    requires
        declared.len() <= usize::MAX,
    ensures
        names_after_sync(installed, declared) == declared.to_set(),
{
    missing_indices_exact(declared, installed);
    undeclared_exact(installed, declared);
    let m = missing_indices(declared, installed);
    let added = m.map_values(|i: usize| declared[i as int]);
    assert forall|x: Seq<char>|
        names_after_sync(installed, declared).contains(x) <==> declared.to_set().contains(x) by {
        if added.contains(x) {
            let k = choose|k: int| 0 <= k < added.len() && added[k] == x;
            assert(m[k] < declared.len());
            assert(declared[m[k] as int] == x);
            assert(declared.contains(x));
        }
        if declared.contains(x) && !installed.contains(x) {
            let i = choose|i: int| 0 <= i < declared.len() && declared[i] == x;
            assert(m.contains(i as usize));
            let k = choose|k: int| 0 <= k < m.len() && m[k] == i as usize;
            assert(added[k] == declared[m[k] as int]);
            assert(added[k] == x);
            assert(added.contains(x));
        }
        if declared.contains(x) && installed.contains(x) {
            assert(!undeclared(installed, declared).contains(x));
        }
    }
    assert(names_after_sync(installed, declared) =~= declared.to_set());
}

/// Once the installed names are the declared ones, a sync has nothing to
/// add and nothing to remove.
pub proof fn sync_is_idempotent(installed: Seq<Seq<char>>, declared: Seq<Seq<char>>)
    requires
        declared.len() <= usize::MAX,
        installed.to_set() == declared.to_set(),
    ensures
        missing_indices(declared, installed) == Seq::<usize>::empty(),
        undeclared(installed, declared) == Seq::<Seq<char>>::empty(),
{
    missing_indices_exact(declared, installed);
    undeclared_exact(installed, declared);
    let m = missing_indices(declared, installed);
    if m.len() > 0 {
        let i = m[0] as int;
        assert(m.contains(i as usize));
        assert(declared.to_set().contains(declared[i]));
        assert(installed.to_set().contains(declared[i]));
    }
    let u = undeclared(installed, declared);
    if u.len() > 0 {
        assert(u.contains(u[0]));
        assert(installed.to_set().contains(u[0]));
        assert(declared.to_set().contains(u[0]));
    }
    assert(m =~= Seq::<usize>::empty());
    assert(u =~= Seq::<Seq<char>>::empty());
}

} // verus!
