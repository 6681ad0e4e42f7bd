//! Character-level string helpers shared by the popup and plugin logic.
//!
//! Strings are reasoned about through their view, a `Seq<char>`.
use vstd::prelude::*;

verus! {

/// The Unicode `White_Space` property, the set that `char::is_whitespace`
/// documents.
pub open spec fn is_ws(c: char) -> bool {
    let u = c as int;
    ||| 0x9 <= u <= 0xD
    ||| u == 0x20
    ||| u == 0x85
    ||| u == 0xA0
    ||| u == 0x1680
    ||| 0x2000 <= u <= 0x200A
    ||| u == 0x2028
    ||| u == 0x2029
    ||| u == 0x202F
    ||| u == 0x205F
    ||| u == 0x3000
}

/// Whether `c` is white space, as `char::is_whitespace` decides.
pub fn is_whitespace(c: char) -> (r: bool)
    ensures
        r == is_ws(c),
{
    let u: u32 = c as u32;
    (0x9 <= u && u <= 0xD) || u == 0x20 || u == 0x85 || u == 0xA0 || u == 0x1680 || (0x2000 <= u
        && u <= 0x200A) || u == 0x2028 || u == 0x2029 || u == 0x202F || u == 0x205F || u == 0x3000
}

/// Lexicographic order on character sequences by code point. On the UTF-8
/// encodings this is the byte order that `str`'s `Ord` uses.
pub open spec fn seq_lex_lt(a: Seq<char>, b: Seq<char>) -> bool
    decreases a.len(),
{
    if a.len() == 0 {
        b.len() > 0
    } else if b.len() == 0 {
        false
    } else if a[0] != b[0] {
        (a[0] as int) < (b[0] as int)
    } else {
        seq_lex_lt(a.drop_first(), b.drop_first())
    }
}

/// The strict lexicographic order is irreflexive.
pub proof fn lemma_lex_irreflexive(a: Seq<char>)
    ensures
        !seq_lex_lt(a, a),
    decreases a.len(),
{
    if a.len() > 0 {
        lemma_lex_irreflexive(a.drop_first());
    }
}

/// The strict lexicographic order is transitive.
pub proof fn lemma_lex_transitive(a: Seq<char>, b: Seq<char>, c: Seq<char>)
    requires
        seq_lex_lt(a, b),
        seq_lex_lt(b, c),
    ensures
        seq_lex_lt(a, c),
    decreases a.len(),
{
    if a.len() > 0 && b.len() > 0 && c.len() > 0 {
        if a[0] == b[0] && b[0] == c[0] {
            lemma_lex_transitive(a.drop_first(), b.drop_first(), c.drop_first());
        }
    }
}

/// Two distinct sequences are ordered one way or the other.
pub proof fn lemma_lex_total(a: Seq<char>, b: Seq<char>)
    requires
        a != b,
    ensures
        seq_lex_lt(a, b) || seq_lex_lt(b, a),
    decreases a.len(),
{
    if a.len() > 0 && b.len() > 0 {
        if a[0] == b[0] {
            if a.drop_first() == b.drop_first() {
                assert(a =~= seq![a[0]] + a.drop_first());
                assert(b =~= seq![b[0]] + b.drop_first());
            }
            lemma_lex_total(a.drop_first(), b.drop_first());
        } else {
            assert((a[0] as int) != (b[0] as int));
        }
    } else if a.len() == 0 && b.len() == 0 {
        assert(a =~= b);
    }
}

/// Whether `a` comes strictly before `b` in the order of `str`.
pub fn str_lex_less(a: &str, b: &str) -> (r: bool)
    ensures
        r == seq_lex_lt(a@, b@),
{
    let na: usize = a.unicode_len();
    let nb: usize = b.unicode_len();
    let mut i: usize = 0;
    assert(a@.skip(0) =~= a@);
    assert(b@.skip(0) =~= b@);
    while i < na && i < nb
        invariant
            na == a@.len(),
            nb == b@.len(),
            i <= na,
            i <= nb,
            seq_lex_lt(a@, b@) == seq_lex_lt(a@.skip(i as int), b@.skip(i as int)),
        decreases na - i,
    {
        let ca: char = a.get_char(i);
        let cb: char = b.get_char(i);
        if ca != cb {
            return (ca as u32) < (cb as u32);
        }
        assert(a@.skip(i as int).drop_first() =~= a@.skip(i + 1));
        assert(b@.skip(i as int).drop_first() =~= b@.skip(i + 1));
        i = i + 1;
    }
    i == na && i < nb
}

/// The characters of `s`, in order.
pub fn chars_of(s: &str) -> (r: Vec<char>)
    ensures
        r@ == s@,
{
    let n: usize = s.unicode_len();
    let mut out: Vec<char> = Vec::new();
    let mut i: usize = 0;
    while i < n
        invariant
            n == s@.len(),
            i <= n,
            out@ == s@.take(i as int),
        decreases n - i,
    {
        out.push(s.get_char(i));
        i = i + 1;
        assert(out@ =~= s@.take(i as int));
    }
    assert(s@.take(n as int) =~= s@);
    out
}

/// Whether `p` is a prefix of `s`.
pub fn str_starts_with(s: &str, p: &str) -> (r: bool)
    ensures
        r == p@.is_prefix_of(s@),
{
    let ns: usize = s.unicode_len();
    let np: usize = p.unicode_len();
    if np > ns {
        return false;
    }
    let mut i: usize = 0;
    while i < np
        invariant
            ns == s@.len(),
            np == p@.len(),
            np <= ns,
            i <= np,
            forall|j: int| 0 <= j < i ==> s@[j] == p@[j],
        decreases np - i,
    {
        if s.get_char(i) != p.get_char(i) {
            return false;
        }
        i = i + 1;
    }
    assert(s@.take(np as int) =~= p@);
    true
}

/// Whether `a` and `b` hold the same characters.
pub fn str_equal(a: &str, b: &str) -> (r: bool)
    ensures
        r == (a@ == b@),
{
    let na: usize = a.unicode_len();
    let nb: usize = b.unicode_len();
    if na != nb {
        return false;
    }
    let r: bool = str_starts_with(a, b);
    proof {
        if r {
            assert(a@ =~= b@.take(nb as int));
            assert(b@.take(nb as int) =~= b@);
        }
    }
    r
}

/// What `str::to_lowercase` returns for a string: the full Unicode
/// lowercase mapping, applied character by character except for the final
/// sigma rule.
pub uninterp spec fn lowercase_of(s: Seq<char>) -> Seq<char>;

/// What `char::to_lowercase` yields for one character.
pub uninterp spec fn char_lowercase_of(c: char) -> Seq<char>;

/// Whether every character of `s` is ASCII.
pub open spec fn is_ascii_seq(s: Seq<char>) -> bool {
    forall|k: int| 0 <= k < s.len() ==> (#[trigger] s[k] as int) < 128
}

/// An ASCII character in lower case: `A`..=`Z` become `a`..=`z`, the rest
/// stay.
pub open spec fn ascii_lower_char(c: char) -> char {
    if 'A' <= c && c <= 'Z' {
        ((c as int) + 32) as char
    } else {
        c
    }
}

/// Every ASCII letter of `s` in lower case.
pub open spec fn ascii_lowercase(s: Seq<char>) -> Seq<char> {
    s.map_values(|c: char| ascii_lower_char(c))
}

/// Calls `str::to_lowercase`. Its result is named: the Unicode case tables
/// decide it, as a function of `s` alone. Only the documented ASCII part is
/// stated: on ASCII text, `A`..=`Z` become `a`..=`z` and nothing else
/// changes.
#[verifier::external_body]
pub(crate) fn to_lowercase(s: &str) -> (r: String)
    ensures
        r@ == lowercase_of(s@),
        is_ascii_seq(s@) ==> r@ == ascii_lowercase(s@),
{
    s.to_lowercase()
}

/// Calls `char::to_lowercase` and collects the characters it yields. The
/// result is named, not stated, as for `to_lowercase`.
#[verifier::external_body]
pub(crate) fn char_to_lowercase(c: char) -> (r: Vec<char>)
    ensures
        r@ == char_lowercase_of(c),
{
    c.to_lowercase().collect()
}


/// The index of the first `'\n'` at or after `i`, or the length of `s`.
pub open spec fn line_end(s: Seq<char>, i: int) -> int
    decreases s.len() - i,
{
    if i < 0 || i >= s.len() {
        s.len() as int
    } else if s[i] == '\n' {
        i
    } else {
        line_end(s, i + 1)
    }
}

/// The first index in `i..end` that holds no white space, or `end`.
pub open spec fn skip_ws(s: Seq<char>, i: int, end: int) -> int
    decreases end - i,
{
    if i < 0 || i >= end || i >= s.len() {
        end
    } else if is_ws(s[i]) {
        skip_ws(s, i + 1, end)
    } else {
        i
    }
}

/// The first index in `i..end` that holds white space, or `end`.
pub open spec fn token_end(s: Seq<char>, i: int, end: int) -> int
    decreases end - i,
{
    if i < 0 || i >= end || i >= s.len() {
        end
    } else if is_ws(s[i]) {
        i
    } else {
        token_end(s, i + 1, end)
    }
}

/// One past the last index in `start..e` that holds no white space, or
/// `start`.
pub open spec fn trim_end(s: Seq<char>, start: int, e: int) -> int
    decreases e - start,
{
    if e <= start || e > s.len() {
        start
    } else if is_ws(s[e - 1]) {
        trim_end(s, start, e - 1)
    } else {
        e
    }
}

/// `s` without leading and trailing white space, as `str::trim` returns it.
pub open spec fn trim_of(s: Seq<char>) -> Seq<char> {
    let a = skip_ws(s, 0, s.len() as int);
    s.subrange(a, trim_end(s, a, s.len() as int))
}

/// `s` without leading and trailing white space.
pub fn trim_str(s: &str) -> (r: &str)
    ensures
        r@ == trim_of(s@),
{
    let n: usize = s.unicode_len();
    let mut a: usize = 0;
    while a < n && is_whitespace(s.get_char(a))
        invariant
            n == s@.len(),
            a <= n,
            skip_ws(s@, 0, n as int) == skip_ws(s@, a as int, n as int),
        decreases n - a,
    {
        a = a + 1;
    }
    let mut e: usize = n;
    while e > a && is_whitespace(s.get_char(e - 1))
        invariant
            n == s@.len(),
            a <= e <= n,
            trim_end(s@, a as int, n as int) == trim_end(s@, a as int, e as int),
        decreases e,
    {
        e = e - 1;
    }
    s.substring_char(a, e)
}

/// The command filter for composer text: where the first line starts with
/// `/`, the first run of non-white-space characters after it (possibly
/// after white space); otherwise empty.
pub open spec fn composer_filter_of(t: Seq<char>) -> Seq<char> {
    let end = line_end(t, 0);
    if end > 0 && t[0] == '/' {
        let start = skip_ws(t, 1, end);
        t.subrange(start, token_end(t, start, end))
    } else {
        seq![]
    }
}

/// The command filter for composer text `text`.
pub fn composer_filter(text: &str) -> (r: String)
    ensures
        r@ == composer_filter_of(text@),
{
    let n: usize = text.unicode_len();
    let mut end: usize = 0;
    while end < n && text.get_char(end) != '\n'
        invariant
            n == text@.len(),
            end <= n,
            line_end(text@, 0) == line_end(text@, end as int),
        decreases n - end,
    {
        end = end + 1;
    }
    if end == 0 || text.get_char(0) != '/' {
        return String::new();
    }
    let mut start: usize = 1;
    while start < end && is_whitespace(text.get_char(start))
        invariant
            n == text@.len(),
            1 <= start,
            start <= end <= n,
            skip_ws(text@, 1, end as int) == skip_ws(text@, start as int, end as int),
        decreases end - start,
    {
        start = start + 1;
    }
    let mut stop: usize = start;
    while stop < end && !is_whitespace(text.get_char(stop))
        invariant
            n == text@.len(),
            start <= stop <= end <= n,
            token_end(text@, start as int, end as int) == token_end(
                text@,
                stop as int,
                end as int,
            ),
        decreases end - stop,
    {
        stop = stop + 1;
    }
    String::from_str(text.substring_char(start, stop))
}


proof fn lemma_skip_ws_bounds(s: Seq<char>, i: int, end: int)
    requires
        0 <= i <= end <= s.len(),
    ensures
        i <= skip_ws(s, i, end) <= end,
        forall|k: int| i <= k < skip_ws(s, i, end) ==> is_ws(#[trigger] s[k]),
        skip_ws(s, i, end) < end ==> !is_ws(s[skip_ws(s, i, end)]),
    decreases end - i,
{
    if i < end && is_ws(s[i]) {
        lemma_skip_ws_bounds(s, i + 1, end);
    }
}

proof fn lemma_token_end_bounds(s: Seq<char>, i: int, end: int)
    requires
        0 <= i <= end <= s.len(),
    ensures
        i <= token_end(s, i, end) <= end,
        forall|k: int| i <= k < token_end(s, i, end) ==> !is_ws(#[trigger] s[k]),
    decreases end - i,
{
    if i < end && !is_ws(s[i]) {
        lemma_token_end_bounds(s, i + 1, end);
    }
}

proof fn lemma_line_end_bounds(s: Seq<char>, i: int)
    requires
        0 <= i <= s.len(),
    ensures
        i <= line_end(s, i) <= s.len(),
    decreases s.len() - i,
{
    if i < s.len() && s[i] != '\n' {
        lemma_line_end_bounds(s, i + 1);
    }
}

/// The command filter taken from composer text holds no white space.
pub proof fn lemma_composer_filter_has_no_ws(t: Seq<char>)
    ensures
        forall|k: int| 0 <= k < composer_filter_of(t).len() ==> !is_ws(#[trigger] composer_filter_of(t)[k]),
{
    lemma_line_end_bounds(t, 0);
    let end = line_end(t, 0);
    if end > 0 && t[0] == '/' {
        lemma_skip_ws_bounds(t, 1, end);
        let start = skip_ws(t, 1, end);
        lemma_token_end_bounds(t, start, end);
        let f = composer_filter_of(t);
        assert forall|k: int| 0 <= k < f.len() implies !is_ws(#[trigger] f[k]) by {
            assert(f[k] == t[start + k]);
        }
    }
}

/// Trimming a string without white space leaves it as it is.
pub proof fn lemma_trim_without_ws(s: Seq<char>)
    requires
        forall|k: int| 0 <= k < s.len() ==> !is_ws(#[trigger] s[k]),
    ensures
        trim_of(s) == s,
{
    if s.len() > 0 {
        assert(!is_ws(s[s.len() - 1]));
        assert(trim_end(s, 0, s.len() as int) == s.len());
    }
    assert(trim_of(s) =~= s);
}

proof fn lemma_line_end_without_newline(s: Seq<char>, i: int)
    requires
        0 <= i <= s.len(),
        forall|k: int| i <= k < s.len() ==> #[trigger] s[k] != '\n',
    ensures
        line_end(s, i) == s.len(),
    decreases s.len() - i,
{
    if i < s.len() {
        lemma_line_end_without_newline(s, i + 1);
    }
}

proof fn lemma_token_end_without_ws(s: Seq<char>, i: int, end: int)
    requires
        0 <= i <= end <= s.len(),
        forall|k: int| i <= k < end ==> !is_ws(#[trigger] s[k]),
    ensures
        token_end(s, i, end) == end,
    decreases end - i,
{
    if i < end {
        lemma_token_end_without_ws(s, i + 1, end);
    }
}

/// The filter depends only on the first token after `/` on the first line:
/// the text `/` followed by that token sets the same filter. Text whose
/// first line does not start with `/` sets the filter that `/` alone sets.
pub proof fn lemma_first_token_decides(t: Seq<char>)
    ensures
        composer_filter_of(seq!['/'] + composer_filter_of(t)) == composer_filter_of(t),
{
    let f = composer_filter_of(t);
    let t2 = seq!['/'] + f;
    lemma_composer_filter_has_no_ws(t);
    assert forall|k: int| 0 <= k < t2.len() implies #[trigger] t2[k] != '\n' by {
        if k > 0 {
            assert(t2[k] == f[k - 1]);
            assert(!is_ws(f[k - 1]));
        }
    }
    lemma_line_end_without_newline(t2, 0);
    let end = t2.len() as int;
    if f.len() > 0 {
        assert(t2[1] == f[0]);
        assert(!is_ws(f[0]));
    }
    assert(skip_ws(t2, 1, end) == 1);
    assert forall|k: int| 1 <= k < end implies !is_ws(#[trigger] t2[k]) by {
        assert(t2[k] == f[k - 1]);
    }
    lemma_token_end_without_ws(t2, 1, end);
    assert(t2.subrange(1, end) =~= f);
}

/// The text `/` alone sets the empty filter.
pub proof fn lemma_slash_alone_sets_no_filter()
    ensures
        composer_filter_of(seq!['/']) == Seq::<char>::empty(),
{
    let t = seq!['/'];
    lemma_line_end_without_newline(t, 0);
    assert(t.subrange(1, 1) =~= Seq::<char>::empty());
}

/// Two ASCII texts that differ only in the case of their letters lower
/// alike.
pub proof fn lemma_ascii_case_variants_lower_alike(a: Seq<char>, b: Seq<char>)
    requires
        a.len() == b.len(),
        forall|k: int| 0 <= k < a.len() ==> ascii_lower_char(#[trigger] a[k]) == ascii_lower_char(b[k]),
    ensures
        ascii_lowercase(a) == ascii_lowercase(b),
{
    assert(ascii_lowercase(a) =~= ascii_lowercase(b));
}

} // verus!
