//! Deep merge of git configuration files: every value of the source is
//! written into the target, creating the sections that the target lacks.

use vstd::prelude::*;
use crate::text::strings_view;

verus! {

/// A parsed git configuration file.
#[verifier::external_type_specification]
#[verifier::external_body]
pub struct ExGitConfigFile(gix_config::File);

/// A configuration key as git resolves it: section name, subsection and
/// value name, with the two names compared without regard to ASCII case.
pub type GitKey = (Seq<char>, Option<Seq<u8>>, Seq<char>);

/// A section header: its name and its subsection.
pub type GitHeader = (Seq<char>, Option<Seq<u8>>);

/// One value of a section: its name, and its value (`None` for a bare name,
/// one written without `=`).
pub type GitEntryModel = (Seq<char>, Option<Seq<u8>>);

/// The model of one section: name, subsection, and its values in order.
pub type GitSectionModel = (Seq<char>, Option<Seq<u8>>, Seq<GitEntryModel>);

/// `c` with an ASCII upper-case letter turned into lower case.
pub open spec fn ascii_lower_char(c: char) -> char {
    if 'A' <= c && c <= 'Z' {
        ((c as u32) + 32) as char
    } else {
        c
    }
}

/// `s` with ASCII upper-case letters turned into lower case.
pub open spec fn ascii_lower(s: Seq<char>) -> Seq<char> {
    s.map_values(|c: char| ascii_lower_char(c))
}

/// The key under which git finds `section.subsection.key`.
pub open spec fn git_key(section: Seq<char>, subsection: Option<Seq<u8>>, key: Seq<char>) -> GitKey {
    (ascii_lower(section), subsection, ascii_lower(key))
}

/// Whether two headers name the same section for git.
pub open spec fn same_header(a: GitHeader, b: GitHeader) -> bool {
    ascii_lower(a.0) == ascii_lower(b.0) && a.1 == b.1
}

/// Whether `hs` holds a header that names the same section as `h`.
pub open spec fn has_header(hs: Seq<GitHeader>, h: GitHeader) -> bool {
    exists|j: int| 0 <= j < hs.len() && same_header(#[trigger] hs[j], h)
}

/// The subsections of the headers in `hs` whose name is `name` (ASCII case
/// ignored), in order.
pub open spec fn subsections_of_name(hs: Seq<GitHeader>, name: Seq<char>) -> Seq<Option<Seq<u8>>>
    decreases hs.len(),
{
    if hs.len() == 0 {
        seq![]
    } else if ascii_lower(hs.last().0) == ascii_lower(name) {
        subsections_of_name(hs.drop_last(), name).push(hs.last().1)
    } else {
        subsections_of_name(hs.drop_last(), name)
    }
}

/// The header of a section.
pub open spec fn header_of(s: GitSectionModel) -> GitHeader {
    (s.0, s.1)
}

/// The headers of a list of sections.
pub open spec fn headers_of(ls: Seq<GitSectionModel>) -> Seq<GitHeader> {
    ls.map_values(|s: GitSectionModel| header_of(s))
}

/// Whether `c` is an ASCII letter.
pub open spec fn is_ascii_letter(c: char) -> bool {
    ('a' <= c && c <= 'z') || ('A' <= c && c <= 'Z')
}

/// Whether `c` may stand in a section or value name: an ASCII letter or
/// digit, or `-`.
pub open spec fn is_name_char(c: char) -> bool {
    is_ascii_letter(c) || ('0' <= c && c <= '9') || c == '-'
}

/// Whether a new section can be given the name `n`.
pub open spec fn valid_section_name(n: Seq<char>) -> bool {
    forall|i: int| 0 <= i < n.len() ==> is_name_char(#[trigger] n[i])
}

/// Whether a new section can be given the subsection `s`: it holds no
/// newline and no NUL byte.
pub open spec fn valid_subsection(s: Option<Seq<u8>>) -> bool {
    s matches Some(b) ==> forall|i: int| 0 <= i < b.len() ==> #[trigger] b[i] != 10u8 && b[i] != 0u8
}

/// Whether a section with header `h` can be created.
pub open spec fn creatable(h: GitHeader) -> bool {
    valid_section_name(h.0) && valid_subsection(h.1)
}

/// Whether `n` can name a value: an ASCII letter, then ASCII letters,
/// digits and dashes.
pub open spec fn valid_value_name(n: Seq<char>) -> bool {
    n.len() > 0 && is_ascii_letter(n[0]) && valid_section_name(n)
}

/// Whether every value name in the sections `ls` is valid.
pub open spec fn value_names_valid(ls: Seq<GitSectionModel>) -> bool {
    forall|i: int, j: int|
        0 <= i < ls.len() && 0 <= j < ls[i].2.len() ==> valid_value_name(#[trigger] ls[i].2[j].0)
}

/// The sections of the configuration text `text` (name, subsection, and
/// each value name with the value that the section reports for it), or
/// `None` when `text` is not a valid configuration.
pub uninterp spec fn gitconfig_sections_of(text: Seq<char>) -> Option<Seq<GitSectionModel>>;

/// The values of the configuration file parsed from `text`.
pub uninterp spec fn gitconfig_text_values(text: Seq<char>) -> Map<GitKey, Seq<u8>>;

/// The values a configuration file holds: for each key, the unescaped
/// value of its last occurrence in the last section (among those with its
/// name and subsection) where that last occurrence has an `=`.
pub uninterp spec fn gitconfig_values(f: gix_config::File) -> Map<GitKey, Seq<u8>>;

/// The headers of the sections of a configuration file, in file order.
pub uninterp spec fn gitconfig_headers(f: gix_config::File) -> Seq<GitHeader>;

/// Whether the last section with the key's name and subsection holds the
/// key, and its last occurrence there is bare (written without `=`).
pub uninterp spec fn gitconfig_bare_in_last_section(f: gix_config::File, k: GitKey) -> bool;

/// The number of bytes in the buffer that a configuration file's text
/// lives in. The calls made here only ever add to it, and spans into it
/// can address no more than 4 GiB.
pub uninterp spec fn gitconfig_buffer_len(f: gix_config::File) -> nat;

/// The length of the longest run of whitespace held in the bodies of a
/// configuration file's sections: the whitespace a new value copies from
/// its section (before its name and around its `=`) is no longer.
pub uninterp spec fn gitconfig_whitespace_max(f: gix_config::File) -> nat;

/// The text of a configuration file.
pub uninterp spec fn gitconfig_text(f: gix_config::File) -> Seq<char>;

/// One section of a configuration file, as plain values.
pub struct GitSection {
    pub name: String,
    pub subsection: Option<Vec<u8>>,
    pub entries: Vec<(String, Option<Vec<u8>>)>,
}

/// The model of an optional byte string.
pub open spec fn bytes_opt_view(b: Option<Vec<u8>>) -> Option<Seq<u8>> {
    match b {
        Some(v) => Some(v@),
        None => None,
    }
}

impl GitSection {
    /// The model of this section.
    pub open spec fn model(&self) -> GitSectionModel {
        (
            self.name@,
            bytes_opt_view(self.subsection),
            self.entries@.map_values(|e: (String, Option<Vec<u8>>)| (e.0@, bytes_opt_view(e.1))),
        )
    }
}

/// The models of a list of sections.
pub open spec fn sections_view(v: Seq<GitSection>) -> Seq<GitSectionModel> {
    v.map_values(|s: GitSection| s.model())
}

/// `File::from_str`: parse a configuration text. The claim is that it
/// succeeds exactly when the text is a valid configuration (as
/// `gitconfig_sections_of` records), and that the file then holds the
/// values named by `gitconfig_text_values` under the headers of those
/// sections. Its buffer is the text's UTF-8 bytes, at most four per
/// character, so neither the buffer nor any whitespace run in it is longer.
#[verifier::external_body]
fn parse_gitconfig(text: &str) -> (r: Option<gix_config::File>)
    ensures
        r.is_some() == gitconfig_sections_of(text@).is_some(),
        r matches Some(f) ==> gitconfig_values(f) == gitconfig_text_values(text@)
            && gitconfig_headers(f) == headers_of(gitconfig_sections_of(text@).unwrap()),
        r matches Some(f) ==> gitconfig_buffer_len(f) <= 4 * text@.len()
            && gitconfig_whitespace_max(f) <= 4 * text@.len(),
{
    <gix_config::File as std::str::FromStr>::from_str(text).ok()
}

/// Parse a configuration text and list its sections (`File::from_str`,
/// then each section's header and, for each value name, `value`, which is
/// `None` when the last occurrence of the name is bare). The claim is that
/// the listing is the one named by `gitconfig_sections_of`, that there is
/// none when the text does not parse, and that every value name is valid,
/// as the parser only accepts such names.
#[verifier::external_body]
fn read_gitconfig_sections(text: &str) -> (r: Option<Vec<GitSection>>)
    ensures
        match r {
            Some(v) => gitconfig_sections_of(text@) == Some(sections_view(v@)) && value_names_valid(
                sections_view(v@),
            ),
            None => gitconfig_sections_of(text@).is_none(),
        },
{
    let file = <gix_config::File as std::str::FromStr>::from_str(text).ok()?;
    Some(file.sections_and_ids().map(|(section, _id)| GitSection {
        name: section.header().name().to_string(),
        subsection: section.header().subsection_name().map(|s| s.to_vec()),
        entries: section.value_names().map(|vn| {
            let value = section.value(vn.as_str()).map(|v| v.to_vec());
            (vn, value)
        }).collect(),
    }).collect())
}

/// `File::sections_by_name_and_filter` with a filter that accepts every
/// section: the subsections of the sections named `name` (ASCII case
/// ignored), in file order; `None` or an empty list when there are none.
#[verifier::external_body]
fn subsections_named(f: &gix_config::File, name: &str) -> (r: Option<Vec<Option<Vec<u8>>>>)
    ensures
        match r {
            Some(v) => bytes_opts_view(v@) == subsections_of_name(gitconfig_headers(*f), name@),
            None => subsections_of_name(gitconfig_headers(*f), name@).len() == 0,
        },
{
    f.sections_by_name_and_filter(name, |_| true).map(|it| {
        it.map(|section| section.header().subsection_name().map(|s| s.to_vec())).collect()
    })
}

/// `File::new_section`: append an empty section. The claim: it fails when
/// the name holds a byte other than an ASCII letter, digit or `-`, or the
/// subsection holds a newline or NUL byte; it succeeds otherwise unless the
/// buffer outgrows 4 GiB. On success the header is appended. No value of
/// the file changes either way: the new section is empty. The buffer grows
/// by at most the bytes written: the name, the escaped subsection (at most
/// two bytes per byte), a space and a newline; the new body holds no
/// whitespace.
#[verifier::external_body]
fn add_section(f: &mut gix_config::File, name: &str, subsection: &Option<Vec<u8>>) -> (ok: bool)
    ensures
        ok ==> creatable((name@, bytes_opt_view(*subsection))),
        ok ==> gitconfig_headers(*final(f)) == gitconfig_headers(*old(f)).push(
            (name@, bytes_opt_view(*subsection)),
        ),
        !ok ==> gitconfig_headers(*final(f)) == gitconfig_headers(*old(f)) || gitconfig_headers(
            *final(f),
        ) == gitconfig_headers(*old(f)).push((name@, bytes_opt_view(*subsection))),
        gitconfig_values(*final(f)) == gitconfig_values(*old(f)),
        gitconfig_buffer_len(*final(f)) >= gitconfig_buffer_len(*old(f)),
        gitconfig_buffer_len(*final(f)) <= gitconfig_buffer_len(*old(f)) + 4 * name@.len() + 2
            * opt_bytes_len(bytes_opt_view(*subsection)) + 3,
        gitconfig_whitespace_max(*final(f)) == gitconfig_whitespace_max(*old(f)),
        creatable((name@, bytes_opt_view(*subsection))) && gitconfig_buffer_len(*final(f))
            <= u32::MAX ==> ok,
{
    f.new_section(name.to_string(), subsection.clone().map(bstr::BString::from)).is_ok()
}

/// `SectionRef::value_implicit` on `File::section`: whether the last
/// section with the given name and subsection holds the key with its last
/// occurrence bare.
#[verifier::external_body]
fn value_is_bare(f: &gix_config::File, name: &str, subsection: &Option<Vec<u8>>, key: &str) -> (r:
    bool)
    ensures
        r == gitconfig_bare_in_last_section(*f, git_key(name@, bytes_opt_view(*subsection), key@)),
{
    let sub = subsection.as_ref().map(|s| bstr::BStr::new(s.as_slice()));
    matches!(f.section(name, sub).map(|s| s.value_implicit(key)), Ok(Some(None)))
}

/// `File::set_raw_value_by` on a section that exists: it overwrites the
/// last occurrence of the key in the last section with that name and
/// subsection, or appends the key there. The claim: when that occurrence
/// is not bare and the call succeeds, the key holds exactly the value
/// written (it is escaped on the way in and unescaped on the way out) and
/// no other key changes. When that occurrence is bare, the value goes in
/// without an `=`, so the key stays bare and no value changes; on failure
/// nothing changes. It succeeds for a valid value name unless the buffer
/// outgrows 4 GiB. The buffer grows by at most the bytes written: the
/// escaped value (at most two bytes per byte, and two quotes), and when
/// the key is appended also its name, three whitespace runs copied from
/// the section (one byte each in a section without values) and a newline;
/// no longer whitespace run appears.
#[verifier::external_body]
fn set_value(
    f: &mut gix_config::File,
    name: &str,
    subsection: &Option<Vec<u8>>,
    key: &str,
    value: &Vec<u8>,
) -> (ok: bool)
    requires
        has_header(gitconfig_headers(*old(f)), (name@, bytes_opt_view(*subsection))),
    ensures
        gitconfig_headers(*final(f)) == gitconfig_headers(*old(f)),
        ok && !gitconfig_bare_in_last_section(*old(f), git_key(name@, bytes_opt_view(*subsection), key@))
            ==> gitconfig_values(*final(f)) == gitconfig_values(*old(f)).insert(
            git_key(name@, bytes_opt_view(*subsection), key@),
            value@,
        ),
        !ok || gitconfig_bare_in_last_section(*old(f), git_key(name@, bytes_opt_view(*subsection), key@))
            ==> gitconfig_values(*final(f)) == gitconfig_values(*old(f)),
        gitconfig_buffer_len(*final(f)) >= gitconfig_buffer_len(*old(f)),
        gitconfig_buffer_len(*final(f)) <= gitconfig_buffer_len(*old(f)) + 3 * (
        gitconfig_whitespace_max(*old(f)) + 1) + 4 * key@.len() + 2 * value@.len() + 4,
        gitconfig_whitespace_max(*final(f)) <= gitconfig_whitespace_max(*old(f))
            || gitconfig_whitespace_max(*final(f)) <= 1,
        valid_value_name(key@) && gitconfig_buffer_len(*final(f)) <= u32::MAX ==> ok,
{
    let sub = subsection.as_ref().map(|s| bstr::BStr::new(s.as_slice()));
    f.set_raw_value_by(name, sub, key, bstr::BStr::new(value.as_slice())).is_ok()
}

/// `SectionMut::push` on `File::section_mut`: append `key = value` to the
/// last section with the given name and subsection. The claim: on success
/// the key holds exactly the value written, as its new last occurrence has
/// an `=`, and no other key changes; on failure nothing changes. It
/// succeeds for a valid value name unless the buffer outgrows 4 GiB. The
/// buffer grows by at most the bytes written: the name, three whitespace
/// runs copied from the section (one byte each in a section without
/// values), the escaped value and a newline; no longer whitespace run
/// appears.
#[verifier::external_body]
fn push_value(
    f: &mut gix_config::File,
    name: &str,
    subsection: &Option<Vec<u8>>,
    key: &str,
    value: &Vec<u8>,
) -> (ok: bool)
    requires
        has_header(gitconfig_headers(*old(f)), (name@, bytes_opt_view(*subsection))),
    ensures
        gitconfig_headers(*final(f)) == gitconfig_headers(*old(f)),
        ok ==> gitconfig_values(*final(f)) == gitconfig_values(*old(f)).insert(
            git_key(name@, bytes_opt_view(*subsection), key@),
            value@,
        ),
        !ok ==> gitconfig_values(*final(f)) == gitconfig_values(*old(f)),
        gitconfig_buffer_len(*final(f)) >= gitconfig_buffer_len(*old(f)),
        gitconfig_buffer_len(*final(f)) <= gitconfig_buffer_len(*old(f)) + 3 * (
        gitconfig_whitespace_max(*old(f)) + 1) + 4 * key@.len() + 2 * value@.len() + 4,
        gitconfig_whitespace_max(*final(f)) <= gitconfig_whitespace_max(*old(f))
            || gitconfig_whitespace_max(*final(f)) <= 1,
        valid_value_name(key@) && gitconfig_buffer_len(*final(f)) <= u32::MAX ==> ok,
{
    let sub = subsection.as_ref().map(|s| bstr::BStr::new(s.as_slice()));
    match f.section_mut(name, sub) {
        Ok(mut section) => section.push(key, Some(bstr::BStr::new(value.as_slice()))).is_ok(),
        Err(_) => false,
    }
}

/// `File::to_string`: the text of a configuration file, as named by
/// `gitconfig_text`.
#[verifier::external_body]
fn render_gitconfig(f: &gix_config::File) -> (r: String)
    ensures
        r@ == gitconfig_text(*f),
{
    f.to_string()
}

/// The length of an optional byte string, `0` for none.
pub open spec fn opt_bytes_len(b: Option<Seq<u8>>) -> nat {
    match b {
        Some(v) => v.len(),
        None => 0,
    }
}

/// The models of a list of optional byte strings.
pub open spec fn bytes_opts_view(v: Seq<Option<Vec<u8>>>) -> Seq<Option<Seq<u8>>> {
    v.map_values(|s: Option<Vec<u8>>| bytes_opt_view(s))
}

/// Whether two optional byte strings are equal.
fn same_subsection(a: &Option<Vec<u8>>, b: &Option<Vec<u8>>) -> (r: bool)
    ensures
        r == (bytes_opt_view(*a) == bytes_opt_view(*b)),
{
    match (a, b) {
        (Some(x), Some(y)) => crate::dotfiles::contents_equal(x.as_slice(), y.as_slice()),
        (None, None) => true,
        _ => false,
    }
}

/// Whether the target lacks a section with the given subsection, given the
/// subsections of the target's sections with the wanted name (`None` when
/// it has no section of that name).
pub fn section_missing(found: &Option<Vec<Option<Vec<u8>>>>, subsection: &Option<Vec<u8>>) -> (r:
    bool)
    ensures
        r == (found.is_none() || !bytes_opts_view(found.unwrap()@).contains(
            bytes_opt_view(*subsection),
        )),
{
    match found {
        None => true,
        Some(v) => {
            let mut i: usize = 0;
            while i < v.len()
                invariant
                    i <= v.len(),
                    found.is_some() && found.unwrap()@ == v@,
                    forall|j: int|
                        0 <= j < i ==> bytes_opts_view(v@)[j] != bytes_opt_view(*subsection),
                decreases v.len() - i,
            {
                if same_subsection(&v[i], subsection) {
                    proof {
                        assert(bytes_opts_view(v@).len() == v@.len());
                        assert(bytes_opts_view(v@)[i as int] == bytes_opt_view(v@[i as int]));
                        assert(bytes_opts_view(v@)[i as int] == bytes_opt_view(*subsection));
                        assert(bytes_opts_view(v@).contains(bytes_opt_view(*subsection)));
                    }
                    return false;
                }
                i = i + 1;
            }
            true
        },
    }
}

/// The write that one value of a source section makes: its key, and its
/// value, empty for a bare name.
pub open spec fn entry_write(s: GitSectionModel, e: GitEntryModel) -> (GitKey, Seq<u8>) {
    (
        git_key(s.0, s.1, e.0),
        match e.1 {
            Some(v) => v,
            None => Seq::empty(),
        },
    )
}

/// The writes a section of the source makes: each of its values under its
/// key, in order.
pub open spec fn section_writes(s: GitSectionModel) -> Seq<(GitKey, Seq<u8>)> {
    s.2.map_values(|e: GitEntryModel| entry_write(s, e))
}

/// The writes the sections of the source make, section after section.
pub open spec fn listing_writes(ls: Seq<GitSectionModel>) -> Seq<(GitKey, Seq<u8>)>
    decreases ls.len(),
{
    if ls.len() == 0 {
        seq![]
    } else {
        listing_writes(ls.drop_last()) + section_writes(ls.last())
    }
}

/// The values after the writes are carried out in order.
pub open spec fn apply_writes(base: Map<GitKey, Seq<u8>>, writes: Seq<(GitKey, Seq<u8>)>) -> Map<
    GitKey,
    Seq<u8>,
>
    decreases writes.len(),
{
    if writes.len() == 0 {
        base
    } else {
        apply_writes(base, writes.drop_last()).insert(writes.last().0, writes.last().1)
    }
}

/// The headers after the sections `ls` of the source are merged into a
/// file with headers `hs`: a section is appended when no section with its
/// header is there yet.
pub open spec fn merged_headers(hs: Seq<GitHeader>, ls: Seq<GitSectionModel>) -> Seq<GitHeader>
    decreases ls.len(),
{
    if ls.len() == 0 {
        hs
    } else {
        let m = merged_headers(hs, ls.drop_last());
        if has_header(m, header_of(ls.last())) {
            m
        } else {
            m.push(header_of(ls.last()))
        }
    }
}

/// Whether the `i`th section of the source has to be created: no section
/// with its header is in the target or among the source's earlier ones.
pub open spec fn needs_section(hs: Seq<GitHeader>, ls: Seq<GitSectionModel>, i: int) -> bool {
    !has_header(merged_headers(hs, ls.subrange(0, i)), header_of(ls[i]))
}

/// Whether every section of the source that has to be created can be.
pub open spec fn sections_creatable(hs: Seq<GitHeader>, ls: Seq<GitSectionModel>) -> bool {
    forall|i: int| 0 <= i < ls.len() && #[trigger] needs_section(hs, ls, i) ==> creatable(
        header_of(ls[i]),
    )
}

/// The values of the merge of the source text `s` into the target text
/// `t`: the target's values, with every value of the source written over
/// them in order.
pub open spec fn merged_gitconfig_values(t: Seq<char>, s: Seq<char>) -> Map<GitKey, Seq<u8>> {
    apply_writes(gitconfig_text_values(t), listing_writes(gitconfig_sections_of(s).unwrap()))
}

/// The section headers of the merge of the source text `s` into the
/// target text `t`.
pub open spec fn merged_gitconfig_headers(t: Seq<char>, s: Seq<char>) -> Seq<GitHeader> {
    merged_headers(
        headers_of(gitconfig_sections_of(t).unwrap()),
        gitconfig_sections_of(s).unwrap(),
    )
}

/// Whether every section of the source text `s` that the target text `t`
/// lacks can be created.
pub open spec fn gitconfig_sections_creatable(t: Seq<char>, s: Seq<char>) -> bool {
    sections_creatable(
        headers_of(gitconfig_sections_of(t).unwrap()),
        gitconfig_sections_of(s).unwrap(),
    )
}

/// The bytes one write of `e` can add to a file whose whitespace runs are
/// at most `w + 1` long: three such runs, the name, the escaped value and
/// a newline.
pub open spec fn write_room(w: nat, e: GitEntryModel) -> nat {
    3 * (w + 2) + 4 * e.0.len() + 2 * opt_bytes_len(e.1) + 4
}

/// The bytes the writes of the entries `es` can add.
pub open spec fn entries_room(w: nat, es: Seq<GitEntryModel>) -> nat
    decreases es.len(),
{
    if es.len() == 0 {
        0
    } else {
        entries_room(w, es.drop_last()) + write_room(w, es.last())
    }
}

/// The bytes merging the sections `ls` can add: for each, a new header
/// and its writes.
pub open spec fn listing_room(w: nat, ls: Seq<GitSectionModel>) -> nat
    decreases ls.len(),
{
    if ls.len() == 0 {
        0
    } else {
        listing_room(w, ls.drop_last()) + 4 * ls.last().0.len() + 2 * opt_bytes_len(ls.last().1) + 3
            + entries_room(w, ls.last().2)
    }
}

/// Whether merging the source text `s` into the target text `t` keeps the
/// file's buffer within the 4 GiB its spans can address, counting every
/// byte the merge may write: four bytes per character of the target, and
/// the room of the source's sections, with whitespace runs as long as the
/// target.
pub open spec fn gitconfig_merge_fits(t: Seq<char>, s: Seq<char>) -> bool {
    4 * t.len() + listing_room(4 * t.len(), gitconfig_sections_of(s).unwrap()) <= u32::MAX
}

/// A prefix of the entries needs no more room than all of them.
proof fn lemma_entries_room_prefix(w: nat, es: Seq<GitEntryModel>, j: int)
    requires
        0 <= j <= es.len(),
    ensures
        entries_room(w, es.subrange(0, j)) <= entries_room(w, es),
    decreases es.len() - j,
{
    if j < es.len() {
        assert(es.subrange(0, j + 1).drop_last() =~= es.subrange(0, j));
        lemma_entries_room_prefix(w, es, j + 1);
    } else {
        assert(es.subrange(0, j) =~= es);
    }
}

/// A prefix of the sections needs no more room than all of them.
proof fn lemma_listing_room_prefix(w: nat, ls: Seq<GitSectionModel>, i: int)
    requires
        0 <= i <= ls.len(),
    ensures
        listing_room(w, ls.subrange(0, i)) <= listing_room(w, ls),
    decreases ls.len() - i,
{
    if i < ls.len() {
        assert(ls.subrange(0, i + 1).drop_last() =~= ls.subrange(0, i));
        lemma_listing_room_prefix(w, ls, i + 1);
    } else {
        assert(ls.subrange(0, i) =~= ls);
    }
}

/// The subsections of the headers with a given name list a subsection
/// exactly when a header with that name and subsection is there.
proof fn lemma_subsections_of_name(hs: Seq<GitHeader>, name: Seq<char>, sub: Option<Seq<u8>>)
    ensures
        subsections_of_name(hs, name).contains(sub) == has_header(hs, (name, sub)),
    decreases hs.len(),
{
    if hs.len() > 0 {
        let rest = hs.drop_last();
        lemma_subsections_of_name(rest, name, sub);
        let r = subsections_of_name(rest, name);
        if has_header(rest, (name, sub)) {
            let j = choose|j: int| 0 <= j < rest.len() && same_header(#[trigger] rest[j], (name, sub));
            assert(hs[j] == rest[j]);
        }
        if has_header(hs, (name, sub)) {
            let j = choose|j: int| 0 <= j < hs.len() && same_header(#[trigger] hs[j], (name, sub));
            if j < rest.len() {
                assert(rest[j] == hs[j]);
            }
        }
        if ascii_lower(hs.last().0) == ascii_lower(name) {
            let r2 = r.push(hs.last().1);
            if r.contains(sub) {
                let k = choose|k: int| 0 <= k < r.len() && r[k] == sub;
                assert(r2[k] == sub);
            }
            if r2.contains(sub) {
                let k = choose|k: int| 0 <= k < r2.len() && r2[k] == sub;
                if k < r.len() {
                    assert(r[k] == sub);
                } else {
                    assert(same_header(hs[hs.len() - 1], (name, sub)));
                }
            }
            if hs.last().1 == sub {
                assert(r2[r.len() as int] == sub);
                assert(same_header(hs[hs.len() - 1], (name, sub)));
            }
        }
    }
}

/// Why a git configuration merge failed.
#[derive(Debug, Clone, Copy, PartialEq, Eq, Structural)]
pub enum GitMergeError {
    /// The target is not a valid git configuration.
    TargetParse,
    /// The source is not a valid git configuration.
    SourceParse,
    /// A section of the source could not be created in the target.
    NewSection,
}

/// Deep-merge two git configuration files. For sections that exist in both,
/// source keys overwrite target keys; keys only in the target are kept.
/// Sections only in the source are appended to the target. A value the
/// source holds bare is written as empty. Where the target holds a key
/// bare, the source's value is appended after it, as writing over the bare
/// key would leave it without an `=`.
///
/// When both texts parse, every section to create has a valid header, and
/// the merge fits in the 4 GiB that the file's spans can address, it
/// succeeds with the text of a file whose sections are the target's
/// followed by the source's new ones and whose values are the merged
/// values. It fails with `NewSection` only when a section to create has an
/// invalid header or the merge does not fit.
pub fn deep_merge_gitconfig(target_str: &str, source_str: &str) -> (r: Result<String, GitMergeError>)
    ensures
        (r == Err::<String, GitMergeError>(GitMergeError::TargetParse)) == gitconfig_sections_of(
            target_str@,
        ).is_none(),
        (r == Err::<String, GitMergeError>(GitMergeError::SourceParse)) == (gitconfig_sections_of(
            target_str@,
        ).is_some() && gitconfig_sections_of(source_str@).is_none()),
        r == Err::<String, GitMergeError>(GitMergeError::NewSection) ==> gitconfig_sections_of(
            target_str@,
        ).is_some() && gitconfig_sections_of(source_str@).is_some() && (
        !gitconfig_sections_creatable(target_str@, source_str@) || !gitconfig_merge_fits(
            target_str@,
            source_str@,
        )),
        gitconfig_sections_of(target_str@).is_some() && gitconfig_sections_of(source_str@).is_some()
            && !gitconfig_sections_creatable(target_str@, source_str@) ==> r == Err::<
            String,
            GitMergeError,
        >(GitMergeError::NewSection),
        gitconfig_sections_of(target_str@).is_some() && gitconfig_sections_of(source_str@).is_some()
            && gitconfig_sections_creatable(target_str@, source_str@) && gitconfig_merge_fits(
            target_str@,
            source_str@,
        ) ==> r is Ok,
        r matches Ok(text) ==> exists|f: gix_config::File|
            #![trigger gitconfig_text(f)]
            {
                &&& text@ == gitconfig_text(f)
                &&& gitconfig_headers(f) == merged_gitconfig_headers(target_str@, source_str@)
                &&& gitconfig_merge_fits(target_str@, source_str@) ==> gitconfig_values(f)
                    == merged_gitconfig_values(target_str@, source_str@)
            },
{
    let mut target = match parse_gitconfig(target_str) {
        Some(f) => f,
        None => return Err(GitMergeError::TargetParse),
    };
    let sections = match read_gitconfig_sections(source_str) {
        Some(s) => s,
        None => return Err(GitMergeError::SourceParse),
    };
    let ghost base = gitconfig_values(target);
    let ghost hs0 = gitconfig_headers(target);
    let ghost ls = sections_view(sections@);
    let ghost w: nat = 4 * target_str@.len();
    let ghost fits = gitconfig_merge_fits(target_str@, source_str@);
    let ghost mut all_ok: bool = true;
    let empty: Vec<u8> = Vec::new();
    let mut i: usize = 0;
    proof {
        assert(ls.subrange(0, 0) =~= Seq::<GitSectionModel>::empty());
    }
    while i < sections.len()
        invariant
            i <= sections.len(),
            empty@ == Seq::<u8>::empty(),
            ls == sections_view(sections@),
            value_names_valid(ls),
            gitconfig_sections_of(target_str@).is_some(),
            gitconfig_sections_of(source_str@) == Some(ls),
            base == gitconfig_text_values(target_str@),
            hs0 == headers_of(gitconfig_sections_of(target_str@).unwrap()),
            w == 4 * target_str@.len(),
            fits == (w + listing_room(w, ls) <= u32::MAX),
            gitconfig_headers(target) == merged_headers(hs0, ls.subrange(0, i as int)),
            forall|j: int|
                0 <= j < i && #[trigger] needs_section(hs0, ls, j) ==> creatable(header_of(ls[j])),
            gitconfig_buffer_len(target) <= w + listing_room(w, ls.subrange(0, i as int)),
            gitconfig_whitespace_max(target) <= w + 1,
            all_ok ==> gitconfig_values(target) == apply_writes(
                base,
                listing_writes(ls.subrange(0, i as int)),
            ),
            !all_ok ==> !fits,
        decreases sections.len() - i,
    {
        let section = &sections[i];
        let ghost sm = ls[i as int];
        let ghost h = header_of(sm);
        let ghost prior = listing_writes(ls.subrange(0, i as int));
        let ghost room0 = w + listing_room(w, ls.subrange(0, i as int)) + 4 * sm.0.len() + 2
            * opt_bytes_len(sm.1) + 3;
        proof {
            assert(sm == section.model());
            assert(ls.subrange(0, i + 1).drop_last() =~= ls.subrange(0, i as int));
            assert(ls.subrange(0, i + 1).last() == sm);
            assert(w + listing_room(w, ls.subrange(0, i + 1)) == room0 + entries_room(w, sm.2));
            lemma_listing_room_prefix(w, ls, i + 1);
            lemma_entries_room_prefix(w, sm.2, 0);
            assert(sm.2.subrange(0, 0) =~= Seq::<GitEntryModel>::empty());
        }
        let found = subsections_named(&target, section.name.as_str());
        let missing = section_missing(&found, &section.subsection);
        proof {
            lemma_subsections_of_name(gitconfig_headers(target), h.0, h.1);
            assert(missing == needs_section(hs0, ls, i as int));
        }
        if missing {
            if !add_section(&mut target, section.name.as_str(), &section.subsection) {
                proof {
                    if creatable(h) {
                        assert(gitconfig_buffer_len(target) > u32::MAX);
                        assert(!fits);
                    } else {
                        assert(needs_section(hs0, ls, i as int));
                        assert(!sections_creatable(hs0, ls));
                    }
                }
                return Err(GitMergeError::NewSection);
            }
        }
        proof {
            assert(gitconfig_headers(target) == merged_headers(hs0, ls.subrange(0, i + 1)));
            let hs = gitconfig_headers(target);
            if missing {
                assert(same_header(hs[hs.len() - 1], h));
            }
            assert(has_header(hs, h));
        }
        let mut j: usize = 0;
        proof {
            assert(prior + section_writes(sm).subrange(0, 0) =~= prior);
        }
        while j < section.entries.len()
            invariant
                j <= section.entries.len(),
                empty@ == Seq::<u8>::empty(),
                sm == section.model(),
                h == header_of(sm),
                value_names_valid(ls),
                0 <= i < ls.len(),
                sm == ls[i as int],
                w == 4 * target_str@.len(),
                fits == (w + listing_room(w, ls) <= u32::MAX),
                room0 + entries_room(w, sm.2) <= w + listing_room(w, ls),
                gitconfig_headers(target) == merged_headers(hs0, ls.subrange(0, i + 1)),
                has_header(gitconfig_headers(target), h),
                gitconfig_buffer_len(target) <= room0 + entries_room(w, sm.2.subrange(0, j as int)),
                gitconfig_whitespace_max(target) <= w + 1,
                all_ok ==> gitconfig_values(target) == apply_writes(
                    base,
                    prior + section_writes(sm).subrange(0, j as int),
                ),
                !all_ok ==> !fits,
            decreases section.entries.len() - j,
        {
            let ghost ws = prior + section_writes(sm).subrange(0, j as int);
            let ghost ws1 = prior + section_writes(sm).subrange(0, j + 1);
            let value: &Vec<u8> = match &section.entries[j].1 {
                Some(v) => v,
                None => &empty,
            };
            let key = section.entries[j].0.as_str();
            proof {
                assert(ws1.drop_last() =~= ws);
                assert(sm.2[j as int] == (section.entries@[j as int].0@, bytes_opt_view(
                    section.entries@[j as int].1,
                )));
                assert(ws1.last() == entry_write(sm, sm.2[j as int]));
                assert(ws1.last() == (git_key(h.0, h.1, key@), value@));
                assert(valid_value_name(ls[i as int].2[j as int].0));
                assert(sm.2.subrange(0, j + 1).drop_last() =~= sm.2.subrange(0, j as int));
                assert(write_room(w, sm.2[j as int]) == 3 * (w + 2) + 4 * key@.len() + 2
                    * value@.len() + 4);
                lemma_entries_room_prefix(w, sm.2, j + 1);
            }
            let ok = if value_is_bare(&target, section.name.as_str(), &section.subsection, key) {
                push_value(&mut target, section.name.as_str(), &section.subsection, key, value)
            } else {
                set_value(&mut target, section.name.as_str(), &section.subsection, key, value)
            };
            proof {
                if !ok {
                    assert(gitconfig_buffer_len(target) > u32::MAX);
                }
                all_ok = all_ok && ok;
            }
            j = j + 1;
        }
        proof {
            assert(section_writes(sm).subrange(0, section.entries.len() as int) =~= section_writes(
                sm,
            ));
            assert(sm.2.subrange(0, section.entries.len() as int) =~= sm.2);
            assert(listing_writes(ls.subrange(0, i + 1)) == prior + section_writes(sm));
        }
        i = i + 1;
    }
    proof {
        assert(ls.subrange(0, sections.len() as int) =~= ls);
    }
    let text = render_gitconfig(&target);
    Ok(text)
}

/// What a merge does to one key: when no write goes to it, it keeps the
/// target's value (or stays absent); otherwise it holds the value of the
/// last write to it.
pub proof fn apply_writes_lookup(base: Map<GitKey, Seq<u8>>, writes: Seq<(GitKey, Seq<u8>)>, k: GitKey)
    ensures
        (forall|i: int| 0 <= i < writes.len() ==> writes[i].0 != k) ==> (apply_writes(
            base,
            writes,
        ).dom().contains(k) == base.dom().contains(k) && (base.dom().contains(k) ==> apply_writes(
            base,
            writes,
        )[k] == base[k])),
        forall|i: int|
            0 <= i < writes.len() && writes[i].0 == k && (forall|j: int|
                i < j < writes.len() ==> writes[j].0 != k) ==> apply_writes(
                base,
                writes,
            ).dom().contains(k) && apply_writes(base, writes)[k] == writes[i].1,
    decreases writes.len(),
{
    if writes.len() > 0 {
        let n = writes.len() - 1;
        let rest = writes.drop_last();
        apply_writes_lookup(base, rest, k);
        assert forall|i: int|
            0 <= i < writes.len() && writes[i].0 == k && (forall|j: int|
                i < j < writes.len() ==> writes[j].0 != k) implies apply_writes(
            base,
            writes,
        ).dom().contains(k) && apply_writes(base, writes)[k] == writes[i].1 by {
            if i < n {
                assert(rest[i] == writes[i]);
                assert forall|j: int| i < j < rest.len() implies rest[j].0 != k by {
                    assert(rest[j] == writes[j]);
                }
            }
        }
        if forall|i: int| 0 <= i < writes.len() ==> writes[i].0 != k {
            assert forall|i: int| 0 <= i < rest.len() implies rest[i].0 != k by {
                assert(rest[i] == writes[i]);
            }
        }
    }
}

/// The sections of a merge: the target's come first, unchanged; every
/// section of the source has one with its header; and every other one is
/// a section of the source.
pub proof fn merged_headers_cover(hs: Seq<GitHeader>, ls: Seq<GitSectionModel>)
    ensures
        merged_headers(hs, ls).len() >= hs.len(),
        merged_headers(hs, ls).subrange(0, hs.len() as int) == hs,
        forall|i: int| 0 <= i < ls.len() ==> has_header(merged_headers(hs, ls), #[trigger] header_of(ls[i])),
        forall|k: int|
            hs.len() <= k < merged_headers(hs, ls).len() ==> exists|i: int|
                0 <= i < ls.len() && #[trigger] merged_headers(hs, ls)[k] == header_of(ls[i]),
    decreases ls.len(),
{
    if ls.len() > 0 {
        let rest = ls.drop_last();
        merged_headers_cover(hs, rest);
        let m = merged_headers(hs, rest);
        let m2 = merged_headers(hs, ls);
        assert(m2.subrange(0, hs.len() as int) =~= hs) by {
            assert(m.subrange(0, hs.len() as int) =~= hs);
            if m2 != m {
                assert forall|k: int| 0 <= k < hs.len() implies m2[k] == m[k] by {}
            }
        }
        assert forall|i: int| 0 <= i < ls.len() implies has_header(m2, #[trigger] header_of(ls[i])) by {
            if i < rest.len() {
                assert(rest[i] == ls[i]);
                assert(has_header(m, header_of(rest[i])));
                let j = choose|j: int| 0 <= j < m.len() && same_header(#[trigger] m[j], header_of(rest[i]));
                assert(m2[j] == m[j]);
            } else if !has_header(m, header_of(ls.last())) {
                assert(same_header(m2[m.len() as int], header_of(ls[i])));
            }
        }
        assert forall|k: int| hs.len() <= k < m2.len() implies exists|i: int|
            0 <= i < ls.len() && #[trigger] m2[k] == header_of(ls[i]) by {
            if k < m.len() {
                let i = choose|i: int| 0 <= i < rest.len() && #[trigger] m[k] == header_of(rest[i]);
                assert(rest[i] == ls[i]);
                assert(m2[k] == header_of(ls[i]));
            } else {
                assert(m2[k] == header_of(ls[ls.len() - 1]));
            }
        }
    }
}

} // verus!
