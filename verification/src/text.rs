//! Text rules: whitespace trimming, case folding for matching, substring
//! search and splitting on a separator character.

use vstd::prelude::*;
use vstd::string::StrSliceExecFns;
use vstd::string::StringExecFns;

verus! {

/// The characters with the Unicode property `White_Space`, which is what
/// `char::is_whitespace` and `str::trim` go by.
pub open spec fn is_white_space(c: char) -> bool {
    ||| ('\u{0009}' <= c && c <= '\u{000D}')
    ||| c == ' '
    ||| c == '\u{0085}'
    ||| c == '\u{00A0}'
    ||| c == '\u{1680}'
    ||| ('\u{2000}' <= c && c <= '\u{200A}')
    ||| c == '\u{2028}'
    ||| c == '\u{2029}'
    ||| c == '\u{202F}'
    ||| c == '\u{205F}'
    ||| c == '\u{3000}'
}

/// `s` without its leading white space.
pub open spec fn trim_start_chars(s: Seq<char>) -> Seq<char>
    decreases s.len(),
{
    if s.len() > 0 && is_white_space(s[0]) {
        trim_start_chars(s.drop_first())
    } else {
        s
    }
}

/// `s` without its trailing white space.
pub open spec fn trim_end_chars(s: Seq<char>) -> Seq<char>
    decreases s.len(),
{
    if s.len() > 0 && is_white_space(s.last()) {
        trim_end_chars(s.drop_last())
    } else {
        s
    }
}

/// `s` without leading and trailing white space.
pub open spec fn trim_chars(s: Seq<char>) -> Seq<char> {
    trim_end_chars(trim_start_chars(s))
}

/// Whether `c` is white space.
pub fn is_white_space_char(c: char) -> (r: bool)
    ensures
        r == is_white_space(c),
{
    ('\u{0009}' <= c && c <= '\u{000D}') || c == ' ' || c == '\u{0085}' || c == '\u{00A0}' || c
        == '\u{1680}' || ('\u{2000}' <= c && c <= '\u{200A}') || c == '\u{2028}' || c
        == '\u{2029}' || c == '\u{202F}' || c == '\u{205F}' || c == '\u{3000}'
}

/// An owned copy of `s` with leading and trailing white space removed, as
/// `str::trim` gives it.
pub fn trimmed(s: &str) -> (r: String)
    ensures
        r@ == trim_chars(s@),
{
    let chars = chars_of(s);
    let n = chars.len();
    let mut start: usize = 0;
    assert(s@.skip(0) == s@);
    while start < n && is_white_space_char(chars[start])
        invariant
            chars@ == s@,
            n == chars.len(),
            start <= n,
            trim_start_chars(s@.skip(start as int)) == trim_start_chars(s@),
        decreases n - start,
    {
        assert(s@.skip(start as int).drop_first() == s@.skip(start + 1));
        start = start + 1;
    }
    let ghost kept = s@.skip(start as int);
    assert(trim_start_chars(kept) == kept);
    let mut end: usize = n;
    assert(s@.subrange(start as int, n as int) == kept);
    while end > start && is_white_space_char(chars[end - 1])
        invariant
            chars@ == s@,
            n == chars.len(),
            start <= end <= n,
            kept == s@.skip(start as int),
            trim_end_chars(s@.subrange(start as int, end as int)) == trim_end_chars(kept),
        decreases end - start,
    {
        assert(s@.subrange(start as int, end as int).drop_last() == s@.subrange(
            start as int,
            end - 1,
        ));
        end = end - 1;
    }
    let ghost piece = s@.subrange(start as int, end as int);
    assert(trim_end_chars(piece) == piece);
    String::from_str(s.substring_char(start, end))
}

/// The characters of `s`, one by one.
pub fn chars_of(s: &str) -> (v: Vec<char>)
    ensures
        v@ == s@,
{
    let mut v: Vec<char> = Vec::new();
    for c in it: s.chars()
        invariant
            v@ == it.seq().take(it.index() as int),
            it.seq() == s@,
    {
        v.push(c);
    }
    v
}

/// `needle` occurs in `hay` as a contiguous run of characters.
pub open spec fn is_substring(needle: Seq<char>, hay: Seq<char>) -> bool {
    exists|i: int| #[trigger] occurs_at(needle, hay, i)
}

/// `needle` occurs in `hay` starting at position `i`.
pub open spec fn occurs_at(needle: Seq<char>, hay: Seq<char>, i: int) -> bool {
    0 <= i && i + needle.len() <= hay.len() && hay.subrange(i, i + needle.len()) == needle
}

/// Whether `needle` occurs at position `i` of `hay`.
fn matches_at(hay: &Vec<char>, needle: &Vec<char>, i: usize) -> (r: bool)
    requires
        i + needle.len() <= hay.len(),
    ensures
        r == occurs_at(needle@, hay@, i as int),
{
    let mut j: usize = 0;
    while j < needle.len()
        invariant
            i + needle.len() <= hay.len(),
            j <= needle.len(),
            forall|k: int| 0 <= k < j ==> hay@[i + k] == needle@[k],
        decreases needle.len() - j,
    {
        if hay[i + j] != needle[j] {
            assert(hay@.subrange(i as int, i + needle.len())[j as int] != needle@[j as int]);
            return false;
        }
        j = j + 1;
    }
    assert(hay@.subrange(i as int, i + needle.len()) =~= needle@);
    true
}

/// Whether `needle` occurs anywhere in `hay` (what `str::contains` decides
/// for a string pattern).
pub fn contains_chars(hay: &Vec<char>, needle: &Vec<char>) -> (r: bool)
    ensures
        r == is_substring(needle@, hay@),
{
    if needle.len() > hay.len() {
        return false;
    }
    let last: usize = hay.len() - needle.len();
    let mut i: usize = 0;
    while i <= last
        invariant
            last + needle.len() == hay.len(),
            i <= last,
            forall|k: int| 0 <= k < i ==> !occurs_at(needle@, hay@, k),
        ensures
            forall|k: int| 0 <= k <= last ==> !occurs_at(needle@, hay@, k),
        decreases last - i,
    {
        if matches_at(hay, needle, i) {
            assert(occurs_at(needle@, hay@, i as int));
            return true;
        }
        if i == last {
            break;
        }
        i = i + 1;
    }
    false
}

/// The character sequences of a list of strings.
pub open spec fn views(v: Seq<String>) -> Seq<Seq<char>> {
    v.map_values(|x: String| x@)
}

/// The pieces of `s` between occurrences of `sep`, where `cur` is the piece
/// already begun.
pub open spec fn split_from(s: Seq<char>, sep: char, cur: Seq<char>) -> Seq<Seq<char>>
    decreases s.len(),
{
    if s.len() == 0 {
        seq![cur]
    } else if s[0] == sep {
        seq![cur] + split_from(s.drop_first(), sep, Seq::empty())
    } else {
        split_from(s.drop_first(), sep, cur.push(s[0]))
    }
}

/// The pieces of `s` between occurrences of `sep`, as `str::split` yields
/// them for a character pattern: one more piece than there are separators,
/// empty pieces included.
pub open spec fn split_chars(s: Seq<char>, sep: char) -> Seq<Seq<char>> {
    split_from(s, sep, Seq::empty())
}

/// Splits `s` at every occurrence of `sep`.
pub fn split_str(s: &str, sep: char) -> (r: Vec<String>)
    ensures
        views(r@) == split_chars(s@, sep),
{
    let chars = chars_of(s);
    let mut fields: Vec<String> = Vec::new();
    let mut start: usize = 0;
    let mut i: usize = 0;
    assert(s@.skip(0) == s@);
    assert(s@.subrange(0, 0) == Seq::<char>::empty());
    while i < chars.len()
        invariant
            chars@ == s@,
            start <= i <= chars.len(),
            views(fields@) + split_from(s@.skip(i as int), sep, s@.subrange(start as int, i as int))
                == split_chars(s@, sep),
        decreases chars.len() - i,
    {
        let ghost rest = s@.skip(i as int);
        assert(rest[0] == s@[i as int]);
        assert(rest.drop_first() == s@.skip(i + 1));
        if chars[i] == sep {
            let piece = String::from_str(s.substring_char(start, i));
            assert(s@.subrange((i + 1) as int, (i + 1) as int) == Seq::<char>::empty());
            assert(views(fields@.push(piece)) == views(fields@).push(piece@));
            assert(views(fields@).push(piece@) + split_from(rest.drop_first(), sep, Seq::empty())
                == views(fields@) + (seq![piece@] + split_from(rest.drop_first(), sep, Seq::empty())));
            fields.push(piece);
            start = i + 1;
        } else {
            assert(s@.subrange(start as int, i as int).push(s@[i as int]) == s@.subrange(
                start as int,
                i + 1,
            ));
        }
        i = i + 1;
    }
    let piece = String::from_str(s.substring_char(start, chars.len()));
    assert(s@.skip(chars.len() as int) == Seq::<char>::empty());
    assert(views(fields@.push(piece)) == views(fields@).push(piece@));
    assert(views(fields@) + seq![piece@] == views(fields@).push(piece@));
    fields.push(piece);
    fields
}

/// What `str::to_lowercase` gives for a string with characters `s`: the
/// Unicode lowercase mapping of each character, with the final-sigma rule.
pub uninterp spec fn lowercase(s: Seq<char>) -> Seq<char>;

/// Calls `str::to_lowercase`. The contract ties the result to `lowercase`
/// of the argument, and states that the empty string maps to itself; the
/// mapping tables themselves are left unstated.
#[verifier::external_body]
fn to_lowercase_string(s: &str) -> (r: String)
    ensures
        r@ == lowercase(s@),
        s@.len() == 0 ==> r@.len() == 0,
{
    s.to_lowercase()
}

/// The lowercase form of `s` as a character vector.
pub fn lowercase_chars(s: &str) -> (r: Vec<char>)
    ensures
        r@ == lowercase(s@),
        s@.len() == 0 ==> r@.len() == 0,
{
    let lowered = to_lowercase_string(s);
    chars_of(lowered.as_str())
}

/// Whether `v` holds a string equal to `s`.
pub fn contains_string(v: &Vec<String>, s: &String) -> (r: bool)
    ensures
        r == views(v@).contains(s@),
{
    let mut i: usize = 0;
    while i < v.len()
        invariant
            i <= v.len(),
            forall|k: int| 0 <= k < i ==> v@[k]@ != s@,
        decreases v.len() - i,
    {
        if v[i] == *s {
            assert(views(v@)[i as int] == s@);
            return true;
        }
        i = i + 1;
    }
    assert forall|k: int| 0 <= k < views(v@).len() implies views(v@)[k] != s@ by {
        assert(views(v@)[k] == v@[k]@);
    }
    false
}

/// Whether `a` and `b` hold the same characters.
pub fn str_equals(a: &str, b: &str) -> (r: bool)
    ensures
        r == (a@ == b@),
{
    let x = chars_of(a);
    let y = chars_of(b);
    if x.len() != y.len() {
        return false;
    }
    let mut i: usize = 0;
    while i < x.len()
        invariant
            x.len() == y.len(),
            x@ == a@,
            y@ == b@,
            i <= x.len(),
            forall|k: int| 0 <= k < i ==> x@[k] == y@[k],
        decreases x.len() - i,
    {
        if x[i] != y[i] {
            assert(a@[i as int] != b@[i as int]);
            return false;
        }
        i = i + 1;
    }
    assert(x@ =~= y@);
    true
}

/// Neither the first nor the last character of `s` is white space.
pub open spec fn no_edge_white_space(s: Seq<char>) -> bool {
    s.len() == 0 || (!is_white_space(s[0]) && !is_white_space(s.last()))
}

/// What `trim_start_chars` keeps does not start with white space.
proof fn lemma_trim_start_first(s: Seq<char>)
    ensures
        trim_start_chars(s).len() > 0 ==> !is_white_space(trim_start_chars(s)[0]),
    decreases s.len(),
{
    if s.len() > 0 && is_white_space(s[0]) {
        lemma_trim_start_first(s.drop_first());
    }
}

/// What `trim_end_chars` keeps is a prefix of `s` that does not end with
/// white space.
proof fn lemma_trim_end_prefix(s: Seq<char>)
    ensures
        trim_end_chars(s).len() <= s.len(),
        trim_end_chars(s) == s.take(trim_end_chars(s).len() as int),
        trim_end_chars(s).len() > 0 ==> !is_white_space(trim_end_chars(s).last()),
    decreases s.len(),
{
    if s.len() > 0 && is_white_space(s.last()) {
        lemma_trim_end_prefix(s.drop_last());
        let r = trim_end_chars(s.drop_last());
        assert(s.drop_last().take(r.len() as int) =~= s.take(r.len() as int));
    } else {
        assert(s.take(s.len() as int) =~= s);
    }
}

/// Trimming leaves no white space at either end.
pub proof fn law_trim_leaves_no_edge_white_space(s: Seq<char>)
    ensures
        no_edge_white_space(trim_chars(s)),
{
    let t = trim_start_chars(s);
    lemma_trim_start_first(s);
    lemma_trim_end_prefix(t);
    let r = trim_end_chars(t);
    if r.len() > 0 {
        assert(r[0] == t.take(r.len() as int)[0]);
    }
}

/// Trimming what is already trimmed changes nothing.
pub proof fn law_trim_is_idempotent(s: Seq<char>)
    ensures
        trim_chars(trim_chars(s)) == trim_chars(s),
{
    law_trim_leaves_no_edge_white_space(s);
}

/// Among ASCII characters, white space is exactly the space and the
/// controls from tab to carriage return; so no letter, digit or punctuation
/// mark is white space.
pub proof fn law_ascii_white_space(c: char)
    requires
        c < '\u{80}',
    ensures
        is_white_space(c) <==> (c == ' ' || ('\t' <= c && c <= '\r')),
        ('0' <= c && c <= '9') || ('a' <= c && c <= 'z') || ('A' <= c && c <= 'Z') ==> !is_white_space(c),
        ('!' <= c && c <= '~') ==> !is_white_space(c),
{
}

/// Among the first 256 code points, white space is the ASCII white space,
/// NEXT LINE and NO-BREAK SPACE; beyond them it lies between OGHAM SPACE
/// MARK and IDEOGRAPHIC SPACE.
pub proof fn law_latin1_white_space(c: char)
    ensures
        c < '\u{100}' ==> (is_white_space(c) <==> (c == ' ' || ('\t' <= c && c <= '\r') || c
            == '\u{85}' || c == '\u{A0}')),
        c >= '\u{100}' && is_white_space(c) ==> '\u{1680}' <= c && c <= '\u{3000}',
{
}

/// What `trim_start_chars` keeps is what follows a run of white space at
/// the start.
proof fn lemma_trim_start_suffix(s: Seq<char>)
    ensures
        trim_start_chars(s).len() <= s.len(),
        trim_start_chars(s) == s.skip(s.len() - trim_start_chars(s).len()),
        forall|i: int| 0 <= i < s.len() - trim_start_chars(s).len() ==> is_white_space(s[i]),
    decreases s.len(),
{
    if s.len() > 0 && is_white_space(s[0]) {
        let t = s.drop_first();
        lemma_trim_start_suffix(t);
        let n = s.len() - trim_start_chars(s).len();
        assert(t.skip(n - 1) =~= s.skip(n));
        assert forall|i: int| 0 <= i < n implies is_white_space(s[i]) by {
            if i > 0 {
                assert(s[i] == t[i - 1]);
            }
        }
    } else {
        assert(s.skip(0) =~= s);
    }
}

/// Trimming cuts `s` down to a contiguous run `s[a..b]`: only white space
/// goes, and the run neither starts nor ends with white space. Everything
/// inside the run, white space included, is kept.
pub proof fn law_trim_keeps_the_inner_run(s: Seq<char>) -> (ab: (int, int))
    ensures
        0 <= ab.0 <= ab.1 <= s.len(),
        trim_chars(s) == s.subrange(ab.0, ab.1),
        forall|i: int| 0 <= i < ab.0 ==> is_white_space(s[i]),
        forall|i: int| ab.1 <= i < s.len() ==> is_white_space(s[i]),
        ab.0 < ab.1 ==> !is_white_space(s[ab.0]) && !is_white_space(s[ab.1 - 1]),
{
    lemma_trim_start_suffix(s);
    let t = trim_start_chars(s);
    let a = s.len() - t.len();
    lemma_trim_end_prefix(t);
    let r = trim_end_chars(t);
    let b = a + r.len();
    assert(r =~= s.subrange(a, b));
    law_trim_leaves_no_edge_white_space(s);
    assert forall|i: int| b <= i < s.len() implies is_white_space(s[i]) by {
        lemma_trim_end_suffix_white(t, i - a);
        assert(t[i - a] == s[i]);
    }
    (a, b)
}

/// What `trim_end_chars` drops is white space.
proof fn lemma_trim_end_suffix_white(s: Seq<char>, i: int)
    requires
        trim_end_chars(s).len() <= i < s.len(),
    ensures
        is_white_space(s[i]),
    decreases s.len(),
{
    if s.len() > 0 && is_white_space(s.last()) {
        if i < s.len() - 1 {
            lemma_trim_end_suffix_white(s.drop_last(), i);
        }
    }
}

/// A string that neither starts nor ends with white space is left as it is
/// by trimming.
pub proof fn law_trim_keeps_unpadded(s: Seq<char>)
    requires
        s.len() > 0,
        !is_white_space(s[0]),
        !is_white_space(s.last()),
    ensures
        trim_chars(s) == s,
{
}

/// The pieces joined back together with `sep` between them.
pub open spec fn join_pieces(pieces: Seq<Seq<char>>, sep: char) -> Seq<char>
    decreases pieces.len(),
{
    if pieces.len() == 0 {
        Seq::empty()
    } else if pieces.len() == 1 {
        pieces[0]
    } else {
        pieces[0] + seq![sep] + join_pieces(pieces.drop_first(), sep)
    }
}

/// Splitting with a piece already begun, then joining, gives back that
/// piece followed by the input; no piece holds the separator.
proof fn lemma_split_from_join(s: Seq<char>, sep: char, cur: Seq<char>)
    requires
        !cur.contains(sep),
    ensures
        join_pieces(split_from(s, sep, cur), sep) == cur + s,
        forall|k: int|
            0 <= k < split_from(s, sep, cur).len() ==> !(#[trigger] split_from(s, sep, cur)[k]).contains(
                sep,
            ),
    decreases s.len(),
{
    if s.len() == 0 {
        assert(cur + s =~= cur);
    } else if s[0] == sep {
        let rest = split_from(s.drop_first(), sep, Seq::empty());
        lemma_split_from_join(s.drop_first(), sep, Seq::empty());
        law_split_piece_count(s.drop_first(), sep, Seq::empty());
        let all = seq![cur] + rest;
        assert(all.drop_first() =~= rest);
        assert(cur + seq![sep] + (Seq::<char>::empty() + s.drop_first()) =~= cur + s);
        assert forall|k: int| 0 <= k < all.len() implies !(#[trigger] all[k]).contains(sep) by {
            if k > 0 {
                assert(all[k] == rest[k - 1]);
            }
        }
    } else {
        let next = cur.push(s[0]);
        assert forall|i: int| 0 <= i < next.len() implies next[i] != sep by {
            if i < cur.len() {
                assert(next[i] == cur[i]);
            }
        }
        lemma_split_from_join(s.drop_first(), sep, next);
        assert(next + s.drop_first() =~= cur + s);
    }
}

/// Joining the pieces of a split with the separator gives back the input,
/// and no piece holds the separator: the pieces are exactly the runs
/// between separators.
pub proof fn law_split_then_join(s: Seq<char>, sep: char)
    ensures
        join_pieces(split_chars(s, sep), sep) == s,
        forall|k: int|
            0 <= k < split_chars(s, sep).len() ==> !(#[trigger] split_chars(s, sep)[k]).contains(
                sep,
            ),
{
    lemma_split_from_join(s, sep, Seq::empty());
    assert(Seq::<char>::empty() + s =~= s);
}

/// How often `c` occurs in `s`.
pub open spec fn count_char(s: Seq<char>, c: char) -> nat
    decreases s.len(),
{
    if s.len() == 0 {
        0
    } else {
        (if s[0] == c {
            1nat
        } else {
            0nat
        }) + count_char(s.drop_first(), c)
    }
}

/// Splitting gives one piece more than there are separators.
pub proof fn law_split_piece_count(s: Seq<char>, sep: char, cur: Seq<char>)
    ensures
        split_from(s, sep, cur).len() == count_char(s, sep) + 1,
    decreases s.len(),
{
    if s.len() > 0 {
        if s[0] == sep {
            law_split_piece_count(s.drop_first(), sep, Seq::empty());
        } else {
            law_split_piece_count(s.drop_first(), sep, cur.push(s[0]));
        }
    }
}

} // verus!
