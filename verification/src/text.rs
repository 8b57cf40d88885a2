//! Character-level text utilities used when reading command output and
//! user answers.

use vstd::prelude::*;

verus! {

/// The texts of a sequence of strings.
pub open spec fn strings_view(v: Seq<String>) -> Seq<Seq<char>> {
    v.map_values(|s: String| s@)
}

/// The Unicode `White_Space` property, which is what `char::is_whitespace`
/// tests.
pub open spec fn is_white_space(c: char) -> bool {
    let u = c as u32;
    ||| (0x9 <= u && u <= 0xD)
    ||| u == 0x20
    ||| u == 0x85
    ||| u == 0xA0
    ||| u == 0x1680
    ||| (0x2000 <= u && u <= 0x200A)
    ||| u == 0x2028
    ||| u == 0x2029
    ||| u == 0x202F
    ||| u == 0x205F
    ||| u == 0x3000
}

/// Whether `c` is a whitespace character.
pub fn is_whitespace_char(c: char) -> (r: bool)
    ensures
        r == is_white_space(c),
{
    let u = c as u32;
    (0x9 <= u && u <= 0xD) || u == 0x20 || u == 0x85 || u == 0xA0 || u == 0x1680 || (0x2000 <= u
        && u <= 0x200A) || u == 0x2028 || u == 0x2029 || u == 0x202F || u == 0x205F || u == 0x3000
}

/// `String::push`: the claim is that the character is appended to the end.
#[verifier::external_body]
pub(crate) fn push_char(s: &mut String, c: char)
    ensures
        final(s)@ == old(s)@.push(c),
{
    s.push(c);
}

/// The characters of `s`, in order.
pub fn chars_of(s: &str) -> (v: Vec<char>)
    ensures
        v@ == s@,
{
    let mut v: Vec<char> = Vec::new();
    for c in it: s.chars()
        invariant
            v@ == it.seq().take(it.index() as int),
            it.seq() == s@,
    {
        v.push(c);
    }
    v
}

/// The characters `v[lo..hi]` as a string.
pub fn string_of(v: &Vec<char>, lo: usize, hi: usize) -> (r: String)
    requires
        lo <= hi <= v.len(),
    ensures
        r@ == v@.subrange(lo as int, hi as int),
{
    let mut r = String::new();
    let mut i = lo;
    while i < hi
        invariant
            lo <= i <= hi <= v.len(),
            r@ == v@.subrange(lo as int, i as int),
        decreases hi - i,
    {
        push_char(&mut r, v[i]);
        proof {
            assert(v@.subrange(lo as int, i + 1) =~= v@.subrange(lo as int, i as int).push(v@[i as int]));
        }
        i = i + 1;
    }
    r
}

/// `s` without its leading whitespace (`str::trim_start`).
pub open spec fn trim_start_seq(s: Seq<char>) -> Seq<char>
    decreases s.len(),
{
    if s.len() > 0 && is_white_space(s[0]) {
        trim_start_seq(s.drop_first())
    } else {
        s
    }
}

/// `s` without its trailing whitespace (`str::trim_end`).
pub open spec fn trim_end_seq(s: Seq<char>) -> Seq<char>
    decreases s.len(),
{
    if s.len() > 0 && is_white_space(s.last()) {
        trim_end_seq(s.drop_last())
    } else {
        s
    }
}

/// `s` without leading and trailing whitespace (`str::trim`).
pub open spec fn trim_seq(s: Seq<char>) -> Seq<char> {
    trim_end_seq(trim_start_seq(s))
}

/// The run of non-whitespace characters that `s` starts with.
pub open spec fn word_prefix(s: Seq<char>) -> Seq<char>
    decreases s.len(),
{
    if s.len() == 0 || is_white_space(s[0]) {
        seq![]
    } else {
        seq![s[0]] + word_prefix(s.drop_first())
    }
}

/// The first whitespace-separated word of `s` (what
/// `s.split_whitespace().next()` yields), empty when `s` has none.
pub open spec fn first_word(s: Seq<char>) -> Seq<char> {
    word_prefix(trim_start_seq(s))
}

/// `trim_start_seq` removes a run of whitespace and nothing else: `s` is
/// that run followed by the result, which is empty or starts with a
/// character that is not whitespace.
pub proof fn trim_start_drops_only_leading_whitespace(s: Seq<char>)
    ensures
        trim_start_seq(s).len() <= s.len(),
        s == s.subrange(0, s.len() - trim_start_seq(s).len()) + trim_start_seq(s),
        forall|i: int|
            0 <= i < s.len() - trim_start_seq(s).len() ==> is_white_space(#[trigger] s[i]),
        trim_start_seq(s).len() == 0 || !is_white_space(trim_start_seq(s)[0]),
    decreases s.len(),
{
    if s.len() > 0 && is_white_space(s[0]) {
        let t = s.drop_first();
        trim_start_drops_only_leading_whitespace(t);
        let n = s.len() - trim_start_seq(s).len();
        assert forall|i: int| 0 <= i < n implies is_white_space(#[trigger] s[i]) by {
            if i > 0 {
                assert(s[i] == t[i - 1]);
            }
        }
        let m = t.len() - trim_start_seq(t).len();
        assert(trim_start_seq(s) == trim_start_seq(t));
        assert(s.subrange(0, n) =~= seq![s[0]] + t.subrange(0, m));
        assert(s =~= seq![s[0]] + t);
        assert(s =~= s.subrange(0, n) + trim_start_seq(s));
    } else {
        assert(s =~= s.subrange(0, 0) + s);
    }
}

/// The run `word_prefix` takes is the whole leading word: it holds no
/// whitespace, and what follows it is empty or starts with whitespace.
proof fn lemma_word_prefix_whole(s: Seq<char>)
    ensures
        word_prefix(s).len() <= s.len(),
        word_prefix(s) == s.subrange(0, word_prefix(s).len() as int),
        forall|i: int| 0 <= i < word_prefix(s).len() ==> !is_white_space(#[trigger] word_prefix(s)[i]),
        word_prefix(s).len() == s.len() || is_white_space(s[word_prefix(s).len() as int]),
    decreases s.len(),
{
    if s.len() > 0 && !is_white_space(s[0]) {
        let t = s.drop_first();
        lemma_word_prefix_whole(t);
        let w = word_prefix(s);
        assert(w == seq![s[0]] + word_prefix(t));
        assert forall|i: int| 0 <= i < w.len() implies !is_white_space(#[trigger] w[i]) by {
            if i > 0 {
                assert(w[i] == word_prefix(t)[i - 1]);
            }
        }
        assert(w =~= s.subrange(0, w.len() as int)) by {
            assert(word_prefix(t) =~= t.subrange(0, word_prefix(t).len() as int));
        }
        if w.len() < s.len() {
            assert(s[w.len() as int] == t[word_prefix(t).len() as int]);
        }
    }
}

/// The first word is the whole first whitespace-separated word: the text
/// without its leading whitespace is that word followed by a rest that is
/// empty or starts with whitespace, and the word holds no whitespace.
pub proof fn first_word_is_whole_word(s: Seq<char>)
    ensures
        forall|i: int| 0 <= i < first_word(s).len() ==> !is_white_space(#[trigger] first_word(s)[i]),
        first_word(s).len() <= trim_start_seq(s).len(),
        trim_start_seq(s) == first_word(s) + trim_start_seq(s).subrange(
            first_word(s).len() as int,
            trim_start_seq(s).len() as int,
        ),
        first_word(s).len() == trim_start_seq(s).len() || is_white_space(
            trim_start_seq(s)[first_word(s).len() as int],
        ),
        trim_start_seq(s).len() > 0 ==> first_word(s).len() > 0,
{
    let t = trim_start_seq(s);
    lemma_word_prefix_whole(t);
    trim_start_drops_only_leading_whitespace(s);
    assert(t =~= word_prefix(t) + t.subrange(word_prefix(t).len() as int, t.len() as int));
    if t.len() > 0 {
        assert(!is_white_space(t[0]));
        assert(word_prefix(t) == seq![t[0]] + word_prefix(t.drop_first()));
    }
}

/// Whether `s` starts with `p`.
pub open spec fn starts_with_seq(s: Seq<char>, p: Seq<char>) -> bool {
    p.len() <= s.len() && s.subrange(0, p.len() as int) == p
}

/// The bounds of `v[lo..hi]` with leading and trailing whitespace removed.
pub fn trim_bounds(v: &Vec<char>, lo: usize, hi: usize) -> (r: (usize, usize))
    requires
        lo <= hi <= v.len(),
    ensures
        lo <= r.0 <= r.1 <= hi,
        v@.subrange(r.0 as int, r.1 as int) == trim_seq(v@.subrange(lo as int, hi as int)),
{
    let mut i = lo;
    while i < hi && is_whitespace_char(v[i])
        invariant
            lo <= i <= hi <= v.len(),
            trim_start_seq(v@.subrange(lo as int, hi as int)) == trim_start_seq(
                v@.subrange(i as int, hi as int),
            ),
        decreases hi - i,
    {
        proof {
            assert(v@.subrange(i as int, hi as int).drop_first() =~= v@.subrange(
                i + 1,
                hi as int,
            ));
        }
        i = i + 1;
    }
    proof {
        assert(trim_start_seq(v@.subrange(i as int, hi as int)) == v@.subrange(i as int, hi as int));
    }
    let mut j = hi;
    while j > i && is_whitespace_char(v[j - 1])
        invariant
            lo <= i <= j <= hi <= v.len(),
            trim_end_seq(v@.subrange(i as int, hi as int)) == trim_end_seq(
                v@.subrange(i as int, j as int),
            ),
        decreases j - i,
    {
        proof {
            assert(v@.subrange(i as int, j as int).drop_last() =~= v@.subrange(
                i as int,
                j - 1,
            ));
        }
        j = j - 1;
    }
    (i, j)
}

/// The first whitespace-separated word of `v[lo..hi]`.
pub fn first_word_of(v: &Vec<char>, lo: usize, hi: usize) -> (r: Vec<char>)
    requires
        lo <= hi <= v.len(),
    ensures
        r@ == first_word(v@.subrange(lo as int, hi as int)),
{
    let mut i = lo;
    while i < hi && is_whitespace_char(v[i])
        invariant
            lo <= i <= hi <= v.len(),
            trim_start_seq(v@.subrange(lo as int, hi as int)) == trim_start_seq(
                v@.subrange(i as int, hi as int),
            ),
        decreases hi - i,
    {
        proof {
            assert(v@.subrange(i as int, hi as int).drop_first() =~= v@.subrange(
                i + 1,
                hi as int,
            ));
        }
        i = i + 1;
    }
    let mut w: Vec<char> = Vec::new();
    let mut k = i;
    while k < hi && !is_whitespace_char(v[k])
        invariant
            lo <= i <= k <= hi <= v.len(),
            trim_start_seq(v@.subrange(lo as int, hi as int)) == v@.subrange(i as int, hi as int),
            word_prefix(v@.subrange(i as int, hi as int)) == w@ + word_prefix(
                v@.subrange(k as int, hi as int),
            ),
        decreases hi - k,
    {
        proof {
            assert(v@.subrange(k as int, hi as int).drop_first() =~= v@.subrange(
                k + 1,
                hi as int,
            ));
            assert(w@.push(v@[k as int]) =~= w@ + seq![v@[k as int]]);
        }
        w.push(v[k]);
        k = k + 1;
    }
    proof {
        assert(word_prefix(v@.subrange(k as int, hi as int)) =~= seq![]);
        assert(w@ + seq![] =~= w@);
    }
    w
}

/// Whether `v[lo..hi]` starts with `p`.
pub fn starts_with_at(v: &Vec<char>, lo: usize, hi: usize, p: &Vec<char>) -> (r: bool)
    requires
        lo <= hi <= v.len(),
    ensures
        r == starts_with_seq(v@.subrange(lo as int, hi as int), p@),
{
    if p.len() > hi - lo {
        return false;
    }
    let mut k: usize = 0;
    while k < p.len()
        invariant
            p.len() <= hi - lo,
            lo <= hi <= v.len(),
            k <= p.len(),
            forall|t: int| 0 <= t < k ==> v@[lo + t] == p@[t],
        decreases p.len() - k,
    {
        if v[lo + k] != p[k] {
            proof {
                assert(v@.subrange(lo as int, hi as int).subrange(0, p.len() as int)[k as int]
                    != p@[k as int]);
            }
            return false;
        }
        k = k + 1;
    }
    proof {
        assert(v@.subrange(lo as int, hi as int).subrange(0, p.len() as int) =~= p@);
    }
    true
}

/// The index of the first `'\n'` in `s`, or `s.len()` when there is none.
pub open spec fn line_end(s: Seq<char>) -> int
    decreases s.len(),
{
    if s.len() == 0 || s[0] == '\n' {
        0
    } else {
        1 + line_end(s.drop_first())
    }
}

/// `l` without one trailing carriage return.
pub open spec fn strip_cr(l: Seq<char>) -> Seq<char> {
    if l.len() > 0 && l.last() == '\r' {
        l.drop_last()
    } else {
        l
    }
}

/// The lines of `s` as `str::lines` yields them: split at `'\n'`, a
/// `'\r'` just before the `'\n'` dropped, and no empty line after a final
/// `'\n'`.
pub open spec fn lines_spec(s: Seq<char>) -> Seq<Seq<char>>
    decreases s.len(),
{
    if s.len() == 0 {
        seq![]
    } else {
        let e = line_end(s);
        if e >= s.len() {
            seq![s]
        } else {
            proof {
                lemma_line_end_bounds(s);
            }
            seq![strip_cr(s.subrange(0, e))] + lines_spec(s.subrange(e + 1, s.len() as int))
        }
    }
}

/// `line_end` lies within `s`, and nothing before it is a newline.
pub proof fn lemma_line_end_bounds(s: Seq<char>)
    ensures
        0 <= line_end(s) <= s.len(),
        line_end(s) < s.len() ==> s[line_end(s)] == '\n',
        forall|i: int| 0 <= i < line_end(s) ==> s[i] != '\n',
    decreases s.len(),
{
    if s.len() > 0 && s[0] != '\n' {
        lemma_line_end_bounds(s.drop_first());
        assert forall|i: int| 0 <= i < line_end(s) implies s[i] != '\n' by {
            if i > 0 {
                assert(s[i] == s.drop_first()[i - 1]);
            }
        }
    }
}

/// `line_end` of a suffix that holds no newline before position `k`.
proof fn lemma_line_end_scan(s: Seq<char>, k: int)
    requires
        0 <= k <= s.len(),
        forall|i: int| 0 <= i < k ==> s[i] != '\n',
    ensures
        line_end(s) == k + line_end(s.subrange(k, s.len() as int)),
    decreases k,
{
    if k > 0 {
        lemma_line_end_scan(s.drop_first(), k - 1);
        assert(s.drop_first().subrange(k - 1, s.drop_first().len() as int) =~= s.subrange(
            k,
            s.len() as int,
        ));
    } else {
        assert(s.subrange(0, s.len() as int) =~= s);
    }
}

/// The end of the line of `v` that starts at `start`: the index of the next
/// `'\n'` at or after `start`, or `v.len()`.
pub fn find_line_end(v: &Vec<char>, start: usize) -> (e: usize)
    requires
        start <= v.len(),
    ensures
        start <= e <= v.len(),
        e - start == line_end(v@.subrange(start as int, v.len() as int)),
{
    let mut k = start;
    while k < v.len() && v[k] != '\n'
        invariant
            start <= k <= v.len(),
            forall|i: int| start <= i < k ==> v@[i] != '\n',
        decreases v.len() - k,
    {
        k = k + 1;
    }
    proof {
        let s = v@.subrange(start as int, v.len() as int);
        lemma_line_end_scan(s, k - start);
        assert(s.subrange(k - start, s.len() as int) =~= v@.subrange(k as int, v.len() as int));
        if k < v.len() {
            assert(line_end(v@.subrange(k as int, v.len() as int)) == 0);
        }
    }
    k
}

/// `s` without leading and trailing whitespace.
pub fn trim_str(s: &str) -> (r: String)
    ensures
        r@ == trim_seq(s@),
{
    let v = chars_of(s);
    let (a, b) = trim_bounds(&v, 0, v.len());
    proof {
        assert(v@.subrange(0, v.len() as int) =~= s@);
    }
    string_of(&v, a, b)
}

/// What `str::to_lowercase` gives for a text.
pub uninterp spec fn lowercase_of(s: Seq<char>) -> Seq<char>;

/// `str::to_lowercase`: the claim is only that the result is the one named
/// by `lowercase_of` for this text (it maps each character to its Unicode
/// lowercase form).
#[verifier::external_body]
pub(crate) fn to_lowercase(s: &str) -> (r: String)
    ensures
        r@ == lowercase_of(s@),
{
    s.to_lowercase()
}

/// Whether `s` is exactly `lit`.
pub fn text_is(s: &str, lit: &str) -> (r: bool)
    ensures
        r == (s@ == lit@),
{
    String::from_str(s) == String::from_str(lit)
}

} // verus!
