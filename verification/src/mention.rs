//! Mentionable items (skills) and the fuzzy matching that ranks them.
use vstd::prelude::*;

use crate::text::char_lowercase_of;
use crate::text::char_to_lowercase;
use crate::text::chars_of;
use crate::text::lowercase_of;
use crate::text::seq_lex_lt;
use crate::text::str_equal;
use crate::text::str_lex_less;
use crate::text::to_lowercase;

verus! {

/// Something the user can mention, such as a skill.
#[derive(Debug, PartialEq, Eq)]
pub struct MentionItem {
    pub display_name: String,
    pub description: Option<String>,
    pub insert_text: String,
    pub search_terms: Vec<String>,
    pub path: Option<String>,
    pub category_tag: Option<String>,
    pub sort_rank: u8,
}

/// A mention item with its search terms seen as a sequence.
pub struct MentionView {
    pub display_name: String,
    pub description: Option<String>,
    pub insert_text: String,
    pub search_terms: Seq<String>,
    pub path: Option<String>,
    pub category_tag: Option<String>,
    pub sort_rank: u8,
}

impl View for MentionItem {
    type V = MentionView;

    open spec fn view(&self) -> MentionView {
        MentionView {
            display_name: self.display_name,
            description: self.description,
            insert_text: self.insert_text,
            search_terms: self.search_terms@,
            path: self.path,
            category_tag: self.category_tag,
            sort_rank: self.sort_rank,
        }
    }
}

/// A copy of an optional string.
pub fn clone_opt_string(s: &Option<String>) -> (r: Option<String>)
    ensures
        r == *s,
{
    match s {
        Some(v) => Some(v.clone()),
        None => None,
    }
}

/// A copy of a list of strings.
pub fn clone_strings(v: &Vec<String>) -> (r: Vec<String>)
    ensures
        r@ == v@,
{
    let mut out: Vec<String> = Vec::new();
    let mut i: usize = 0;
    while i < v.len()
        invariant
            i <= v@.len(),
            out@ == v@.take(i as int),
        decreases v@.len() - i,
    {
        out.push(v[i].clone());
        i = i + 1;
        assert(out@ =~= v@.take(i as int));
    }
    assert(v@.take(i as int) =~= v@);
    out
}

impl Clone for MentionItem {
    fn clone(&self) -> (r: Self)
        ensures
            r@ == self@,
    {
        MentionItem {
            display_name: self.display_name.clone(),
            description: clone_opt_string(&self.description),
            insert_text: self.insert_text.clone(),
            search_terms: clone_strings(&self.search_terms),
            path: clone_opt_string(&self.path),
            category_tag: clone_opt_string(&self.category_tag),
            sort_rank: self.sort_rank,
        }
    }
}

/// The haystack with every character replaced by its lowercase mapping.
pub open spec fn lowered_chars(h: Seq<char>) -> Seq<char>
    decreases h.len(),
{
    if h.len() == 0 {
        seq![]
    } else {
        lowered_chars(h.drop_last()) + char_lowercase_of(h.last())
    }
}

/// For each character of `lowered_chars(h)`, the index in `h` of the
/// character it was lowered from.
pub open spec fn lowered_origins(h: Seq<char>) -> Seq<usize>
    decreases h.len(),
{
    if h.len() == 0 {
        seq![]
    } else {
        lowered_origins(h.drop_last()) + Seq::new(
            char_lowercase_of(h.last()).len(),
            |j: int| (h.len() - 1) as usize,
        )
    }
}

/// Greedy left-to-right subsequence match of `n[k..]` in `h[cur..]`: each
/// needle character takes the first matching haystack position after the
/// previous one. The matched positions, or `None` where some character finds
/// no position.
pub open spec fn greedy_positions(h: Seq<char>, n: Seq<char>, k: int, cur: int) -> Option<Seq<int>>
    decreases n.len() - k + h.len() - cur,
{
    if k < 0 || cur < 0 || k >= n.len() {
        Some(seq![])
    } else if cur >= h.len() {
        None
    } else if h[cur] == n[k] {
        match greedy_positions(h, n, k + 1, cur + 1) {
            Some(ps) => Some(seq![cur] + ps),
            None => None,
        }
    } else {
        greedy_positions(h, n, k, cur + 1)
    }
}

/// `acc` followed by the positions in `o`, if any.
pub open spec fn prepend_positions(acc: Seq<int>, o: Option<Seq<int>>) -> Option<Seq<int>> {
    match o {
        Some(ps) => Some(acc + ps),
        None => None,
    }
}

/// The first index at or after `start` whose origin is `v`, or the length
/// where there is none.
pub open spec fn first_origin_pos(origins: Seq<usize>, v: usize, start: int) -> int
    decreases origins.len() - start,
{
    if start < 0 || start >= origins.len() {
        origins.len() as int
    } else if origins[start] == v {
        start
    } else {
        first_origin_pos(origins, v, start + 1)
    }
}

/// `s` with runs of equal neighbours collapsed to one element.
pub open spec fn dedup_runs(s: Seq<usize>) -> Seq<usize>
    decreases s.len(),
{
    if s.len() == 0 {
        seq![]
    } else {
        let r = dedup_runs(s.drop_last());
        if r.len() > 0 && r.last() == s.last() {
            r
        } else {
            r.push(s.last())
        }
    }
}

/// The score of a match: how far the matched span of the lowered haystack
/// exceeds the needle (at least 0, at most `i32::MAX`), minus 100 where the
/// span starts at the first character. Lower is better.
pub open spec fn match_score(origins: Seq<usize>, ps: Seq<int>, needle_len: int) -> i32 {
    let first = if ps.len() == 0 {
        0
    } else {
        first_origin_pos(origins, origins[ps[0]], 0)
    };
    let last = if ps.len() == 0 {
        first
    } else {
        ps.last()
    };
    let window = last - first + 1 - needle_len;
    let w = if window < 0 {
        0
    } else if window > i32::MAX {
        i32::MAX as int
    } else {
        window
    };
    (if first == 0 {
        w - 100
    } else {
        w
    }) as i32
}

/// Case-insensitive fuzzy match of `needle` in `haystack`: the matched
/// character indices of `haystack` (ascending, without repeats) and the
/// score, or `None` where the lowercased needle is no subsequence of the
/// lowercased haystack. An empty needle matches with no indices and the
/// worst score.
pub open spec fn fuzzy(haystack: Seq<char>, needle: Seq<char>) -> Option<(Seq<usize>, i32)> {
    if needle.len() == 0 {
        Some((seq![], i32::MAX))
    } else {
        let lowered = lowered_chars(haystack);
        let origins = lowered_origins(haystack);
        let n = lowercase_of(needle);
        match greedy_positions(lowered, n, 0, 0) {
            None => None,
            Some(ps) => Some(
                (
                    dedup_runs(ps.map_values(|p: int| origins[p])),
                    match_score(origins, ps, n.len() as int),
                ),
            ),
        }
    }
}

/// The view of a fuzzy match result.
pub open spec fn fuzzy_view(r: Option<(Vec<usize>, i32)>) -> Option<(Seq<usize>, i32)> {
    match r {
        Some((v, s)) => Some((v@, s)),
        None => None,
    }
}

proof fn lemma_greedy_skip(h: Seq<char>, n: Seq<char>, k: int, cur: int)
    requires
        0 <= k < n.len(),
        0 <= cur < h.len(),
        h[cur] != n[k],
    ensures
        greedy_positions(h, n, k, cur) == greedy_positions(h, n, k, cur + 1),
{
}

proof fn lemma_greedy_take(h: Seq<char>, n: Seq<char>, k: int, cur: int, acc: Seq<int>)
    requires
        0 <= k < n.len(),
        0 <= cur < h.len(),
        h[cur] == n[k],
    ensures
        prepend_positions(acc, greedy_positions(h, n, k, cur)) == prepend_positions(
            acc.push(cur),
            greedy_positions(h, n, k + 1, cur + 1),
        ),
{
    match greedy_positions(h, n, k + 1, cur + 1) {
        Some(ps) => {
            assert(acc + (seq![cur] + ps) =~= acc.push(cur) + ps);
        },
        None => {},
    }
}

/// Lowers each character of `hay`, recording where each lowered character
/// came from.
fn lower_with_origins(hay: &Vec<char>) -> (r: (Vec<char>, Vec<usize>))
    ensures
        r.0@ == lowered_chars(hay@),
        r.1@ == lowered_origins(hay@),
{
    let mut lowered: Vec<char> = Vec::new();
    let mut origins: Vec<usize> = Vec::new();
    let mut i: usize = 0;
    while i < hay.len()
        invariant
            i <= hay@.len(),
            lowered@ == lowered_chars(hay@.take(i as int)),
            origins@ == lowered_origins(hay@.take(i as int)),
        decreases hay@.len() - i,
    {
        let lc: Vec<char> = char_to_lowercase(hay[i]);
        let ghost base_l = lowered@;
        let ghost base_o = origins@;
        let mut j: usize = 0;
        while j < lc.len()
            invariant
                j <= lc@.len(),
                i < hay@.len(),
                lowered@ == base_l + lc@.take(j as int),
                origins@ == base_o + Seq::new(j as nat, |q: int| i),
            decreases lc@.len() - j,
        {
            lowered.push(lc[j]);
            origins.push(i);
            j = j + 1;
            assert(lowered@ =~= base_l + lc@.take(j as int));
            assert(origins@ =~= base_o + Seq::new(j as nat, |q: int| i));
        }
        proof {
            let t = hay@.take(i + 1);
            assert(t.drop_last() =~= hay@.take(i as int));
            assert(t.last() == hay@[i as int]);
            assert(lc@.take(j as int) =~= lc@);
            assert(Seq::new(j as nat, |q: int| i) =~= Seq::new(
                char_lowercase_of(t.last()).len(),
                |q: int| (t.len() - 1) as usize,
            ));
        }
        i = i + 1;
    }
    assert(hay@.take(i as int) =~= hay@);
    (lowered, origins)
}

/// The first index whose origin is `v`, or the length where there is none.
fn find_first_origin(origins: &Vec<usize>, v: usize) -> (r: usize)
    ensures
        r as int == first_origin_pos(origins@, v, 0),
{
    let mut q: usize = 0;
    while q < origins.len()
        invariant
            q <= origins@.len(),
            first_origin_pos(origins@, v, 0) == first_origin_pos(origins@, v, q as int),
        decreases origins@.len() - q,
    {
        if origins[q] == v {
            return q;
        }
        q = q + 1;
    }
    q
}

/// Case-insensitive fuzzy match of `needle` in `haystack`, with the matched
/// character indices of `haystack` and a score where lower is better.
#[verifier::loop_isolation(false)]
pub fn fuzzy_match(haystack: &str, needle: &str) -> (r: Option<(Vec<usize>, i32)>)
    ensures
        fuzzy_view(r) == fuzzy(haystack@, needle@),
{
    if needle.unicode_len() == 0 {
        return Some((Vec::new(), i32::MAX));
    }
    let hay: Vec<char> = chars_of(haystack);
    let (lowered, origins) = lower_with_origins(&hay);
    let lowered_needle_string: String = to_lowercase(needle);
    let ln: Vec<char> = chars_of(lowered_needle_string.as_str());
    proof {
        lemma_lowered_lengths(hay@);
    }
    let ghost l = lowered@;
    let ghost o = origins@;
    let ghost n = ln@;
    let nlen: usize = ln.len();
    let llen: usize = lowered.len();
    let mut k: usize = 0;
    let mut cur: usize = 0;
    let mut mapped: Vec<usize> = Vec::new();
    let mut first_pos: usize = 0;
    let mut last_pos: usize = 0;
    let ghost mut acc: Seq<int> = seq![];
    assert(prepend_positions(acc, greedy_positions(l, n, 0, 0)) == greedy_positions(l, n, 0, 0))
        by {
        match greedy_positions(l, n, 0, 0) {
            Some(ps) => {
                assert(acc + ps =~= ps);
            },
            None => {},
        }
    }
    while k < nlen
        invariant
            l == lowered@,
            o == origins@,
            n == ln@,
            nlen == n.len(),
            llen == l.len(),
            l.len() == o.len(),
            k <= nlen,
            cur <= llen,
            acc.len() == k,
            k > 0 ==> acc[0] == first_pos as int && acc.last() == last_pos as int,
            k > 0 ==> last_pos < cur,
            k > 0 ==> first_pos <= last_pos,
            forall|q: int| 0 <= q < acc.len() ==> 0 <= #[trigger] acc[q] < l.len(),
            mapped@ == dedup_runs(acc.map_values(|p: int| o[p])),
            greedy_positions(l, n, 0, 0) == prepend_positions(
                acc,
                greedy_positions(l, n, k as int, cur as int),
            ),
        decreases nlen - k,
    {
        let nc: char = ln[k];
        while cur < llen && lowered[cur] != nc
            invariant
                l == lowered@,
                n == ln@,
                llen == l.len(),
                k < n.len(),
                nc == n[k as int],
                cur <= llen,
                k > 0 ==> last_pos < cur,
                greedy_positions(l, n, 0, 0) == prepend_positions(
                    acc,
                    greedy_positions(l, n, k as int, cur as int),
                ),
            decreases llen - cur,
        {
            proof {
                lemma_greedy_skip(l, n, k as int, cur as int);
            }
            cur = cur + 1;
        }
        if cur == llen {
            assert(greedy_positions(l, n, k as int, cur as int) == None::<Seq<int>>);
            return None;
        }
        proof {
            lemma_greedy_take(l, n, k as int, cur as int, acc);
        }
        let orig: usize = origins[cur];
        let ghost old_acc = acc;
        proof {
            acc = acc.push(cur as int);
            assert(acc.map_values(|p: int| o[p]).drop_last() =~= old_acc.map_values(
                |p: int| o[p],
            ));
        }
        if mapped.len() == 0 || mapped[mapped.len() - 1] != orig {
            mapped.push(orig);
        }
        if k == 0 {
            first_pos = cur;
        }
        last_pos = cur;
        cur = cur + 1;
        k = k + 1;
    }
    proof {
        match greedy_positions(l, n, k as int, cur as int) {
            Some(ps) => {
                assert(ps =~= Seq::<int>::empty());
                assert(acc + ps =~= acc);
            },
            None => {},
        }
    }
    let first: usize = if k == 0 {
        0
    } else {
        find_first_origin(&origins, origins[first_pos])
    };
    let last: usize = if k == 0 {
        first
    } else {
        last_pos
    };
    assert(first <= last) by {
        if k > 0 {
            assert(first_origin_pos(o, o[first_pos as int], 0) <= first_pos) by {
                lemma_first_origin_at_most(o, o[first_pos as int], 0, first_pos as int);
            }
        }
    }
    let span: usize = last - first + 1;
    let w: i32 = if span < nlen {
        0
    } else if span - nlen > 2147483647 {
        i32::MAX
    } else {
        (span - nlen) as i32
    };
    let score: i32 = if first == 0 {
        w - 100
    } else {
        w
    };
    Some((mapped, score))
}

proof fn lemma_lowered_lengths(h: Seq<char>)
    ensures
        lowered_chars(h).len() == lowered_origins(h).len(),
    decreases h.len(),
{
    if h.len() > 0 {
        lemma_lowered_lengths(h.drop_last());
    }
}

/// Greedy positions ascend and lie in `cur..h.len()`.
proof fn lemma_greedy_ascending(h: Seq<char>, n: Seq<char>, k: int, cur: int)
    requires
        0 <= cur,
    ensures
        greedy_positions(h, n, k, cur) matches Some(ps) ==> {
            &&& forall|i: int, j: int| 0 <= i < j < ps.len() ==> ps[i] < ps[j]
            &&& forall|i: int| 0 <= i < ps.len() ==> cur <= #[trigger] ps[i] < h.len()
        },
    decreases n.len() - k + h.len() - cur,
{
    if k < 0 || k >= n.len() || cur >= h.len() {
    } else if h[cur] == n[k] {
        lemma_greedy_ascending(h, n, k + 1, cur + 1);
        match greedy_positions(h, n, k + 1, cur + 1) {
            Some(ps) => {
                let r = seq![cur] + ps;
                assert forall|i: int| 0 <= i < r.len() implies cur <= #[trigger] r[i] < h.len() by {
                    if i > 0 {
                        assert(r[i] == ps[i - 1]);
                    }
                }
                assert forall|i: int, j: int| 0 <= i < j < r.len() implies r[i] < r[j] by {
                    assert(r[j] == ps[j - 1]);
                    if i > 0 {
                        assert(r[i] == ps[i - 1]);
                    }
                }
            },
            None => {},
        }
    } else {
        lemma_greedy_ascending(h, n, k, cur + 1);
    }
}

/// The origin of each lowered character is a character index of `h`, and
/// origins never decrease.
proof fn lemma_origins_ascending(h: Seq<char>)
    requires
        h.len() <= usize::MAX,
    ensures
        forall|i: int, j: int|
            0 <= i <= j < lowered_origins(h).len() ==> lowered_origins(h)[i] <= lowered_origins(h)[j],
        forall|i: int| 0 <= i < lowered_origins(h).len() ==> #[trigger] lowered_origins(h)[i] < h.len(),
    decreases h.len(),
{
    if h.len() > 0 {
        let hp = h.drop_last();
        lemma_origins_ascending(hp);
        let a = lowered_origins(hp);
        let o = lowered_origins(h);
        let b = Seq::new(char_lowercase_of(h.last()).len(), |j: int| (h.len() - 1) as usize);
        assert(o == a + b);
        assert forall|i: int| 0 <= i < o.len() implies #[trigger] o[i] < h.len() by {
            if i < a.len() {
                assert(o[i] == a[i]);
            } else {
                assert(o[i] == b[i - a.len()]);
            }
        }
        assert forall|i: int, j: int| 0 <= i <= j < o.len() implies o[i] <= o[j] by {
            if j < a.len() {
                assert(o[i] == a[i] && o[j] == a[j]);
            } else if i < a.len() {
                assert(o[i] == a[i] && a[i] < hp.len());
                assert(o[j] == b[j - a.len()]);
            } else {
                assert(o[i] == b[i - a.len()] && o[j] == b[j - a.len()]);
            }
        }
    }
}

/// Collapsing runs of a non-decreasing sequence leaves an ascending one,
/// made of its elements and ending with its last one.
proof fn lemma_dedup_ascending(s: Seq<usize>)
    requires
        forall|i: int, j: int| 0 <= i <= j < s.len() ==> s[i] <= s[j],
    ensures
        forall|i: int, j: int| 0 <= i < j < dedup_runs(s).len() ==> dedup_runs(s)[i] < dedup_runs(s)[j],
        forall|i: int| 0 <= i < dedup_runs(s).len() ==> s.contains(#[trigger] dedup_runs(s)[i]),
        s.len() > 0 ==> dedup_runs(s).len() > 0 && dedup_runs(s).last() == s.last(),
    decreases s.len(),
{
    if s.len() > 0 {
        let sp = s.drop_last();
        lemma_dedup_ascending(sp);
        let rp = dedup_runs(sp);
        let r = dedup_runs(s);
        assert forall|i: int| 0 <= i < rp.len() implies s.contains(#[trigger] rp[i]) by {
            let k = choose|k: int| 0 <= k < sp.len() && sp[k] == rp[i];
            assert(s[k] == sp[k]);
        }
        if !(rp.len() > 0 && rp.last() == s.last()) {
            assert(r == rp.push(s.last()));
            if rp.len() > 0 {
                assert(rp.last() == sp.last());
                assert(s[sp.len() - 1] == sp.last());
                assert(rp.last() < s.last());
            }
            assert forall|i: int| 0 <= i < r.len() implies s.contains(#[trigger] r[i]) by {
                if i < rp.len() {
                    assert(r[i] == rp[i]);
                } else {
                    assert(s[s.len() - 1] == s.last());
                }
            }
            assert forall|i: int, j: int| 0 <= i < j < r.len() implies r[i] < r[j] by {
                assert(r[i] == rp[i]);
                if j < rp.len() {
                    assert(r[j] == rp[j]);
                } else if i < rp.len() - 1 {
                    assert(rp[i] < rp[rp.len() - 1]);
                }
            }
        }
    }
}

/// The character indices of a fuzzy match ascend strictly, and each is a
/// character index of the haystack.
pub proof fn lemma_fuzzy_indices_ascending(haystack: Seq<char>, needle: Seq<char>)
    requires
        haystack.len() <= usize::MAX,
    ensures
        fuzzy(haystack, needle) matches Some((ix, _)) ==> {
            &&& forall|i: int, j: int| 0 <= i < j < ix.len() ==> ix[i] < ix[j]
            &&& forall|i: int| 0 <= i < ix.len() ==> #[trigger] ix[i] < haystack.len()
        },
{
    if needle.len() > 0 {
        let lowered = lowered_chars(haystack);
        let origins = lowered_origins(haystack);
        let n = lowercase_of(needle);
        lemma_lowered_lengths(haystack);
        lemma_origins_ascending(haystack);
        lemma_greedy_ascending(lowered, n, 0, 0);
        match greedy_positions(lowered, n, 0, 0) {
            Some(ps) => {
                let q = ps.map_values(|p: int| origins[p]);
                assert forall|i: int, j: int| 0 <= i <= j < q.len() implies q[i] <= q[j] by {
                    if i < j {
                        assert(ps[i] < ps[j]);
                    }
                }
                lemma_dedup_ascending(q);
                let ix = dedup_runs(q);
                assert forall|i: int| 0 <= i < ix.len() implies #[trigger] ix[i] < haystack.len() by {
                    let k = choose|k: int| 0 <= k < q.len() && q[k] == ix[i];
                    assert(q[k] == origins[ps[k]]);
                }
            },
            None => {},
        }
    }
}

proof fn lemma_first_origin_at_most(origins: Seq<usize>, v: usize, start: int, q: int)
    requires
        0 <= start <= q < origins.len(),
        origins[q] == v,
    ensures
        first_origin_pos(origins, v, start) <= q,
    decreases q - start,
{
    if origins[start] != v {
        lemma_first_origin_at_most(origins, v, start + 1, q);
    }
}


/// A skill that matched a filter: its index among the skills, the matched
/// character indices of its display name (if the name matched), and its score.
pub type MentionMatch = (usize, Option<Vec<usize>>, i32);

/// A mention match with its indices seen as a sequence.
pub type MentionMatchView = (usize, Option<Seq<usize>>, i32);

/// The view of optional indices.
pub open spec fn opt_indices_view(o: Option<Vec<usize>>) -> Option<Seq<usize>> {
    match o {
        Some(v) => Some(v@),
        None => None,
    }
}

/// The view of a mention match.
pub open spec fn match_view(m: MentionMatch) -> MentionMatchView {
    (m.0, opt_indices_view(m.1), m.2)
}

/// The views of a list of mention matches.
pub open spec fn matches_view(s: Seq<MentionMatch>) -> Seq<MentionMatchView> {
    s.map_values(|m: MentionMatch| match_view(m))
}

/// The best (lowest) score with which `filter` matches one of `terms` other
/// than the display name `name`.
pub open spec fn best_term_score(terms: Seq<String>, name: Seq<char>, filter: Seq<char>) -> Option<
    i32,
>
    decreases terms.len(),
{
    if terms.len() == 0 {
        None
    } else {
        let rest = best_term_score(terms.drop_last(), name, filter);
        let t = terms.last();
        if t@ == name {
            rest
        } else {
            match fuzzy(t@, filter) {
                None => rest,
                Some((_, sc)) => match rest {
                    None => Some(sc),
                    Some(b) => Some(
                        if sc < b {
                            sc
                        } else {
                            b
                        },
                    ),
                },
            }
        }
    }
}

/// How a mention matches `filter`: every mention matches an empty filter
/// with score 0; otherwise a match of the display name, with its indices,
/// comes first, and failing that the best match among the other search
/// terms, without indices.
pub open spec fn mention_match(m: MentionView, filter: Seq<char>) -> Option<(Option<Seq<usize>>, i32)> {
    if filter.len() == 0 {
        Some((None, 0))
    } else {
        match fuzzy(m.display_name@, filter) {
            Some((ix, sc)) => Some((Some(ix), sc)),
            None => match best_term_score(m.search_terms, m.display_name@, filter) {
                Some(sc) => Some((None, sc)),
                None => None,
            },
        }
    }
}

/// Matching depends on the filter only through its lowercasing and its
/// length.
pub proof fn lemma_mention_match_by_lowercase(m: MentionView, f1: Seq<char>, f2: Seq<char>)
    requires
        lowercase_of(f1) == lowercase_of(f2),
        f1.len() == f2.len(),
    ensures
        mention_match(m, f1) == mention_match(m, f2),
{
    lemma_best_term_score_by_lowercase(m.search_terms, m.display_name@, f1, f2);
}

proof fn lemma_best_term_score_by_lowercase(
    terms: Seq<String>,
    name: Seq<char>,
    f1: Seq<char>,
    f2: Seq<char>,
)
    requires
        lowercase_of(f1) == lowercase_of(f2),
        f1.len() == f2.len(),
    ensures
        best_term_score(terms, name, f1) == best_term_score(terms, name, f2),
    decreases terms.len(),
{
    if terms.len() > 0 {
        lemma_best_term_score_by_lowercase(terms.drop_last(), name, f1, f2);
        assert(fuzzy(terms.last()@, f1) == fuzzy(terms.last()@, f2));
    }
}

/// The view of a mention match result.
pub open spec fn mention_match_view(r: Option<(Option<Vec<usize>>, i32)>) -> Option<
    (Option<Seq<usize>>, i32),
> {
    match r {
        Some((ix, sc)) => Some((opt_indices_view(ix), sc)),
        None => None,
    }
}

/// Match `mention` against `filter`.
pub fn match_mention_item(mention: &MentionItem, filter: &str) -> (r: Option<
    (Option<Vec<usize>>, i32),
>)
    ensures
        mention_match_view(r) == mention_match(mention@, filter@),
{
    if filter.unicode_len() == 0 {
        return Some((None, 0));
    }
    match fuzzy_match(mention.display_name.as_str(), filter) {
        Some((indices, score)) => {
            return Some((Some(indices), score));
        },
        None => {},
    }
    let terms: &Vec<String> = &mention.search_terms;
    let mut best: Option<i32> = None;
    let mut i: usize = 0;
    while i < terms.len()
        invariant
            i <= terms@.len(),
            terms@ == mention.search_terms@,
            best == best_term_score(terms@.take(i as int), mention.display_name@, filter@),
        decreases terms@.len() - i,
    {
        proof {
            assert(terms@.take(i + 1).drop_last() =~= terms@.take(i as int));
        }
        let term: &String = &terms[i];
        if !str_equal(term.as_str(), mention.display_name.as_str()) {
            match fuzzy_match(term.as_str(), filter) {
                Some((_, score)) => {
                    best = match best {
                        None => Some(score),
                        Some(b) => Some(
                            if score < b {
                                score
                            } else {
                                b
                            },
                        ),
                    };
                },
                None => {},
            }
        }
        i = i + 1;
    }
    assert(terms@.take(i as int) =~= terms@);
    match best {
        Some(score) => Some((None, score)),
        None => None,
    }
}

/// Whether match `a` is listed before match `b`: by score where the filter
/// is not empty (lower first), then by the skills' sort rank (lower first),
/// then by display name, then by index among the skills.
pub open spec fn ranks_before(
    a: MentionMatchView,
    b: MentionMatchView,
    mentions: Seq<MentionItem>,
    by_score: bool,
) -> bool {
    let ma = mentions[a.0 as int];
    let mb = mentions[b.0 as int];
    if by_score && a.2 != b.2 {
        a.2 < b.2
    } else if ma.sort_rank != mb.sort_rank {
        ma.sort_rank < mb.sort_rank
    } else if ma.display_name@ != mb.display_name@ {
        seq_lex_lt(ma.display_name@, mb.display_name@)
    } else {
        a.0 < b.0
    }
}

/// `s` lists its matches in the order of `ranks_before`.
pub open spec fn sorted_by_rank(
    s: Seq<MentionMatchView>,
    mentions: Seq<MentionItem>,
    by_score: bool,
) -> bool {
    forall|i: int, j: int|
        0 <= i < j < s.len() ==> !ranks_before(#[trigger] s[j], #[trigger] s[i], mentions, by_score)
}

/// No match ranks before itself.
pub proof fn lemma_ranks_before_irreflexive(
    a: MentionMatchView,
    mentions: Seq<MentionItem>,
    by_score: bool,
)
    ensures
        !ranks_before(a, a, mentions, by_score),
{
    crate::text::lemma_lex_irreflexive(mentions[a.0 as int].display_name@);
}

/// Ranking is transitive.
pub proof fn lemma_ranks_before_transitive(
    a: MentionMatchView,
    b: MentionMatchView,
    c: MentionMatchView,
    mentions: Seq<MentionItem>,
    by_score: bool,
)
    requires
        ranks_before(a, b, mentions, by_score),
        ranks_before(b, c, mentions, by_score),
    ensures
        ranks_before(a, c, mentions, by_score),
{
    let na = mentions[a.0 as int].display_name@;
    let nb = mentions[b.0 as int].display_name@;
    let nc = mentions[c.0 as int].display_name@;
    if seq_lex_lt(na, nb) && seq_lex_lt(nb, nc) {
        crate::text::lemma_lex_transitive(na, nb, nc);
    }
    if seq_lex_lt(na, nb) && nb == nc {
    }
    if seq_lex_lt(na, nc) && na == nc {
        crate::text::lemma_lex_irreflexive(na);
    }
    if seq_lex_lt(na, nb) && seq_lex_lt(nb, nc) && na == nc {
        crate::text::lemma_lex_irreflexive(na);
    }
}

/// Of two matches of different skills, one ranks before the other.
pub proof fn lemma_ranks_before_total(
    a: MentionMatchView,
    b: MentionMatchView,
    mentions: Seq<MentionItem>,
    by_score: bool,
)
    requires
        a.0 != b.0,
    ensures
        ranks_before(a, b, mentions, by_score) || ranks_before(b, a, mentions, by_score),
{
    let na = mentions[a.0 as int].display_name@;
    let nb = mentions[b.0 as int].display_name@;
    if na != nb {
        crate::text::lemma_lex_total(na, nb);
    }
}

/// A ranking is unique: two rank-ordered lists of the same matches, where
/// no skill matches twice, are the same list.
pub proof fn lemma_ranking_is_unique(
    s1: Seq<MentionMatchView>,
    s2: Seq<MentionMatchView>,
    mentions: Seq<MentionItem>,
    by_score: bool,
)
    requires
        s1.to_multiset() == s2.to_multiset(),
        sorted_by_rank(s1, mentions, by_score),
        sorted_by_rank(s2, mentions, by_score),
        forall|i: int, j: int| 0 <= i < j < s1.len() ==> (#[trigger] s1[i]).0 != (#[trigger] s1[j]).0,
    ensures
        s1 == s2,
    decreases s1.len(),
{
    broadcast use vstd::seq_lib::group_to_multiset_ensures;

    if s1.len() == 0 {
        assert(s2.len() == 0);
        assert(s1 =~= s2);
    } else {
        assert(s1.to_multiset().len() == s1.len() && s2.to_multiset().len() == s2.len());
        assert(s2.len() == s1.len());
        let x = s1[0];
        let y = s2[0];
        assert(s1.to_multiset().count(x) > 0);
        assert(s2.contains(x));
        assert(s2.to_multiset().count(y) > 0);
        assert(s1.contains(y));
        if x != y {
            let i = choose|i: int| 0 <= i < s1.len() && s1[i] == y;
            let j = choose|j: int| 0 <= j < s2.len() && s2[j] == x;
            assert(i > 0 && j > 0);
            assert(x.0 != y.0);
            lemma_ranks_before_total(x, y, mentions, by_score);
            assert(!ranks_before(s2[j], s2[0], mentions, by_score));
            assert(!ranks_before(s1[i], s1[0], mentions, by_score));
        }
        let t1 = s1.drop_first();
        let t2 = s2.drop_first();
        assert(t1 =~= s1.remove(0));
        assert(t2 =~= s2.remove(0));
        assert(t1.to_multiset() == t2.to_multiset());
        assert forall|i: int, j: int| 0 <= i < j < t1.len() implies !ranks_before(
            #[trigger] t1[j],
            #[trigger] t1[i],
            mentions,
            by_score,
        ) by {
            assert(t1[i] == s1[i + 1] && t1[j] == s1[j + 1]);
        }
        assert forall|i: int, j: int| 0 <= i < j < t2.len() implies !ranks_before(
            #[trigger] t2[j],
            #[trigger] t2[i],
            mentions,
            by_score,
        ) by {
            assert(t2[i] == s2[i + 1] && t2[j] == s2[j + 1]);
        }
        assert forall|i: int, j: int| 0 <= i < j < t1.len() implies (#[trigger] t1[i]).0 != (
        #[trigger] t1[j]).0 by {
            assert(t1[i] == s1[i + 1] && t1[j] == s1[j + 1]);
        }
        lemma_ranking_is_unique(t1, t2, mentions, by_score);
        assert(s1 =~= s2) by {
            assert forall|k: int| 0 <= k < s1.len() implies s1[k] == s2[k] by {
                if k > 0 {
                    assert(s1[k] == t1[k - 1] && s2[k] == t2[k - 1]);
                }
            }
        }
    }
}

/// Inserting `x` before the first element that it ranks before keeps a
/// sorted list sorted.
proof fn lemma_insert_sorted(
    s: Seq<MentionMatchView>,
    p: int,
    x: MentionMatchView,
    mentions: Seq<MentionItem>,
    by_score: bool,
)
    requires
        0 <= p <= s.len(),
        sorted_by_rank(s, mentions, by_score),
        forall|q: int| 0 <= q < p ==> !ranks_before(x, #[trigger] s[q], mentions, by_score),
        p < s.len() ==> ranks_before(x, s[p], mentions, by_score),
    ensures
        sorted_by_rank(s.insert(p, x), mentions, by_score),
{
    let t = s.insert(p, x);
    assert forall|i: int, j: int| 0 <= i < j < t.len() implies !ranks_before(
        #[trigger] t[j],
        #[trigger] t[i],
        mentions,
        by_score,
    ) by {
        if i == p {
            if ranks_before(t[j], x, mentions, by_score) {
                if j - 1 == p {
                    lemma_ranks_before_transitive(s[p], x, s[p], mentions, by_score);
                    lemma_ranks_before_irreflexive(s[p], mentions, by_score);
                } else {
                    lemma_ranks_before_transitive(s[j - 1], x, s[p], mentions, by_score);
                    assert(!ranks_before(s[j - 1], s[p], mentions, by_score));
                }
            }
        } else if j == p {
            assert(t[i] == s[i]);
        } else if i < p && j < p {
            assert(t[i] == s[i] && t[j] == s[j]);
        } else if i < p {
            assert(t[i] == s[i] && t[j] == s[j - 1]);
        } else {
            assert(t[i] == s[i - 1] && t[j] == s[j - 1]);
        }
    }
}

/// Whether match `a` is listed before match `b`.
fn ranks_before_exec(
    a: &MentionMatch,
    b: &MentionMatch,
    mentions: &Vec<MentionItem>,
    by_score: bool,
) -> (r: bool)
    requires
        a.0 < mentions@.len(),
        b.0 < mentions@.len(),
    ensures
        r == ranks_before(match_view(*a), match_view(*b), mentions@, by_score),
{
    let ma: &MentionItem = &mentions[a.0];
    let mb: &MentionItem = &mentions[b.0];
    if by_score && a.2 != b.2 {
        a.2 < b.2
    } else if ma.sort_rank != mb.sort_rank {
        ma.sort_rank < mb.sort_rank
    } else if !str_equal(ma.display_name.as_str(), mb.display_name.as_str()) {
        str_lex_less(ma.display_name.as_str(), mb.display_name.as_str())
    } else {
        a.0 < b.0
    }
}

/// Whether matches for `filter` are ranked by score first: exactly when the
/// filter is not empty.
pub open spec fn scored(filter: Seq<char>) -> bool {
    filter.len() > 0
}

/// The matches of `s` that rank like a match of skill `idx` with score
/// `score` (the score counts only `by_score`), in the order of `s`.
pub open spec fn with_rank_key(s: Seq<MentionMatchView>, idx: usize, score: i32, by_score: bool) -> Seq<
    MentionMatchView,
>
    decreases s.len(),
{
    if s.len() == 0 {
        seq![]
    } else {
        let rest = with_rank_key(s.drop_last(), idx, score, by_score);
        if s.last().0 == idx && (by_score ==> s.last().2 == score) {
            rest.push(s.last())
        } else {
            rest
        }
    }
}

/// Inserting `x` after every match that ranks like it appends `x` to those
/// and leaves the others as they were.
proof fn lemma_with_rank_key_insert(
    s: Seq<MentionMatchView>,
    p: int,
    x: MentionMatchView,
    idx: usize,
    score: i32,
    by_score: bool,
)
    requires
        0 <= p <= s.len(),
        forall|q: int|
            p <= q < s.len() ==> !((#[trigger] s[q]).0 == x.0 && (by_score ==> s[q].2 == x.2)),
    ensures
        with_rank_key(s.insert(p, x), idx, score, by_score) == if x.0 == idx && (by_score ==> x.2
            == score) {
            with_rank_key(s, idx, score, by_score).push(x)
        } else {
            with_rank_key(s, idx, score, by_score)
        },
    decreases s.len(),
{
    let t = s.insert(p, x);
    if p == s.len() {
        assert(t =~= s.push(x));
        assert(t.drop_last() =~= s);
    } else {
        let sp = s.drop_last();
        assert(t.drop_last() =~= sp.insert(p, x));
        assert(t.last() == s.last());
        assert forall|q: int| p <= q < sp.len() implies !((#[trigger] sp[q]).0 == x.0 && (by_score
            ==> sp[q].2 == x.2)) by {
            assert(sp[q] == s[q]);
        }
        lemma_with_rank_key_insert(sp, p, x, idx, score, by_score);
        assert(s.last() == s[s.len() - 1]);
    }
}

/// Order skill matches for display: by score where `filter` is not empty,
/// then by sort rank, display name and index. The result holds the same
/// matches.
pub fn sort_mention_matches(
    matches: &mut Vec<MentionMatch>,
    mentions: &Vec<MentionItem>,
    filter: &str,
)
    requires
        forall|i: int| 0 <= i < old(matches)@.len() ==> #[trigger] old(matches)@[i].0 < mentions@.len(),
    ensures
        matches_view(final(matches)@).to_multiset() == matches_view(old(matches)@).to_multiset(),
        sorted_by_rank(matches_view(final(matches)@), mentions@, filter@.len() > 0),
        forall|i: int| 0 <= i < final(matches)@.len() ==> #[trigger] final(matches)@[i].0 < mentions@.len(),
        forall|idx: usize, score: i32|
            #[trigger] with_rank_key(matches_view(final(matches)@), idx, score, scored(filter@))
                == with_rank_key(matches_view(old(matches)@), idx, score, scored(filter@)),
{
    broadcast use vstd::seq_lib::to_multiset_build, vstd::seq_lib::to_multiset_insert;

    let by_score: bool = filter.unicode_len() > 0;
    let mut input: Vec<MentionMatch> = Vec::new();
    std::mem::swap(&mut input, matches);
    let ghost orig = input@;
    let total: usize = input.len();
    let mut out: Vec<MentionMatch> = Vec::new();
    let mut consumed: usize = 0;
    assert(orig.skip(0) =~= orig);
    assert(matches_view(orig.take(0)) =~= Seq::<MentionMatchView>::empty());
    assert(matches_view(out@) =~= Seq::<MentionMatchView>::empty());
    while input.len() > 0
        invariant
            consumed <= orig.len(),
            orig.len() == total,
            input@ == orig.skip(consumed as int),
            forall|i: int| 0 <= i < orig.len() ==> #[trigger] orig[i].0 < mentions@.len(),
            forall|i: int| 0 <= i < out@.len() ==> #[trigger] out@[i].0 < mentions@.len(),
            matches_view(out@).to_multiset() == matches_view(orig.take(consumed as int)).to_multiset(),
            sorted_by_rank(matches_view(out@), mentions@, by_score),
            by_score == scored(filter@),
            forall|idx: usize, score: i32|
                #[trigger] with_rank_key(matches_view(out@), idx, score, by_score) == with_rank_key(
                    matches_view(orig.take(consumed as int)),
                    idx,
                    score,
                    by_score,
                ),
        decreases input@.len(),
    {
        assert(consumed < orig.len());
        let x: MentionMatch = input.remove(0);
        assert(x == orig[consumed as int]);
        let mut p: usize = 0;
        while p < out.len() && !ranks_before_exec(&x, &out[p], mentions, by_score)
            invariant
                p <= out@.len(),
                x.0 < mentions@.len(),
                forall|i: int| 0 <= i < out@.len() ==> #[trigger] out@[i].0 < mentions@.len(),
                forall|q: int|
                    0 <= q < p ==> !ranks_before(
                        match_view(x),
                        #[trigger] matches_view(out@)[q],
                        mentions@,
                        by_score,
                    ),
            decreases out@.len() - p,
        {
            p = p + 1;
        }
        let ghost before_view = matches_view(out@);
        proof {
            lemma_insert_sorted(before_view, p as int, match_view(x), mentions@, by_score);
            let xv = match_view(x);
            assert forall|q: int| p <= q < before_view.len() implies !((#[trigger] before_view[q]).0
                == xv.0 && (by_score ==> before_view[q].2 == xv.2)) by {
                if before_view[q].0 == xv.0 && (by_score ==> before_view[q].2 == xv.2) {
                    if q == p {
                        lemma_ranks_before_irreflexive(xv, mentions@, by_score);
                    } else {
                        assert(!ranks_before(before_view[q], before_view[p as int], mentions@, by_score));
                    }
                }
            }
            let prev_in = matches_view(orig.take(consumed as int));
            assert(matches_view(orig.take(consumed + 1)) =~= prev_in.push(xv));
            assert(prev_in.push(xv).drop_last() =~= prev_in);
            assert forall|idx: usize, score: i32|
                #[trigger] with_rank_key(before_view.insert(p as int, xv), idx, score, by_score)
                    == with_rank_key(matches_view(orig.take(consumed + 1)), idx, score, by_score) by {
                lemma_with_rank_key_insert(before_view, p as int, xv, idx, score, by_score);
                assert(with_rank_key(before_view, idx, score, by_score) == with_rank_key(
                    prev_in,
                    idx,
                    score,
                    by_score,
                ));
            }
        }
        out.insert(p, x);
        proof {
            assert(matches_view(out@) =~= before_view.insert(p as int, match_view(x)));
            assert(matches_view(orig.take(consumed + 1)) =~= matches_view(
                orig.take(consumed as int),
            ).push(match_view(x)));
            vstd::seq_lib::to_multiset_insert(before_view, p as int, match_view(x));
            vstd::seq_lib::to_multiset_build(matches_view(orig.take(consumed as int)), match_view(x));
        }
        consumed = consumed + 1;
        assert(input@ =~= orig.skip(consumed as int));
    }
    assert(orig.take(consumed as int) =~= orig);
    *matches = out;
}

/// How matches are ranked: by score first (lower first) when the filter is
/// not empty, then by the skill's sort rank (lower first), then by display
/// name, then by index.
pub proof fn lemma_rank_order(
    a: MentionMatchView,
    b: MentionMatchView,
    mentions: Seq<MentionItem>,
    by_score: bool,
)
    ensures
        by_score && a.2 < b.2 ==> ranks_before(a, b, mentions, by_score),
        (!by_score || a.2 == b.2) && mentions[a.0 as int].sort_rank < mentions[b.0 as int].sort_rank
            ==> ranks_before(a, b, mentions, by_score),
        (!by_score || a.2 == b.2) && mentions[a.0 as int].sort_rank == mentions[b.0 as int].sort_rank
            && seq_lex_lt(mentions[a.0 as int].display_name@, mentions[b.0 as int].display_name@)
            ==> ranks_before(a, b, mentions, by_score),
{
    if seq_lex_lt(mentions[a.0 as int].display_name@, mentions[b.0 as int].display_name@) {
        crate::text::lemma_lex_irreflexive(mentions[a.0 as int].display_name@);
    }
}

} // verus!
