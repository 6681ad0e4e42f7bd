//! Shared history-cell building blocks: plain cells, composites that stack
//! their parts with a blank line between them, and work-log wrappers.
use vstd::prelude::*;

verus! {

/// A run of text with one style. The style is an opaque code that the
/// renderer interprets; 0 is unstyled.
#[derive(Debug, PartialEq, Eq)]
pub struct Span {
    pub content: String,
    pub style: u64,
}

impl Clone for Span {
    fn clone(&self) -> (r: Self)
        ensures
            r == *self,
    {
        Span { content: self.content.clone(), style: self.style }
    }
}

/// One line of a history cell.
#[derive(Debug, PartialEq, Eq)]
pub struct Line {
    pub spans: Vec<Span>,
}

impl View for Line {
    type V = Seq<Span>;

    open spec fn view(&self) -> Seq<Span> {
        self.spans@
    }
}

impl Clone for Line {
    fn clone(&self) -> (r: Self)
        ensures
            r@ == self@,
    {
        let mut spans: Vec<Span> = Vec::new();
        let mut i: usize = 0;
        while i < self.spans.len()
            invariant
                i <= self.spans@.len(),
                spans@ == self.spans@.take(i as int),
            decreases self.spans@.len() - i,
        {
            spans.push(self.spans[i].clone());
            i = i + 1;
            assert(spans@ =~= self.spans@.take(i as int));
        }
        assert(self.spans@.take(i as int) =~= self.spans@);
        Line { spans }
    }
}

/// The views of a list of lines.
pub open spec fn lines_view(s: Seq<Line>) -> Seq<Seq<Span>> {
    s.map_values(|l: Line| l@)
}

/// A line with every span unstyled.
pub open spec fn plain_line(l: Seq<Span>) -> Seq<Span> {
    l.map_values(|s: Span| Span { content: s.content, style: 0 })
}

/// Lines with every span unstyled.
pub open spec fn plain_lines_of(ls: Seq<Seq<Span>>) -> Seq<Seq<Span>> {
    ls.map_values(|l: Seq<Span>| plain_line(l))
}

/// The groups of lines stacked in order, skipping empty groups, with one
/// blank line between consecutive non-empty groups.
pub open spec fn join_groups(groups: Seq<Seq<Seq<Span>>>) -> Seq<Seq<Span>>
    decreases groups.len(),
{
    if groups.len() == 0 {
        seq![]
    } else {
        let rest = join_groups(groups.drop_last());
        let g = groups.last();
        if g.len() == 0 {
            rest
        } else if rest.len() == 0 {
            g
        } else {
            rest.push(seq![]) + g
        }
    }
}

/// A cell of the chat history.
#[derive(Debug)]
pub enum HistoryCell {
    Plain(PlainHistoryCell),
    Composite(CompositeHistoryCell),
    WorkLog(WorkLogHistoryCell),
}

/// A cell that shows fixed lines.
#[derive(Debug)]
pub struct PlainHistoryCell {
    pub lines: Vec<Line>,
}

/// A cell made of parts, shown one after another.
#[derive(Debug)]
pub struct CompositeHistoryCell {
    pub parts: Vec<HistoryCell>,
}

/// A cell shown as part of the work log; it looks like the cell it wraps.
#[derive(Debug)]
pub struct WorkLogHistoryCell {
    pub inner: Box<HistoryCell>,
}

/// The lines a cell shows (`raw`: unstyled, for copying).
pub open spec fn cell_lines(c: HistoryCell, raw: bool) -> Seq<Seq<Span>>
    decreases c, 1nat,
{
    match c {
        HistoryCell::Plain(p) => if raw {
            plain_lines_of(lines_view(p.lines@))
        } else {
            lines_view(p.lines@)
        },
        HistoryCell::Composite(cc) => join_groups(parts_lines(cc.parts@, raw)),
        HistoryCell::WorkLog(w) => cell_lines(*w.inner, raw),
    }
}

/// The lines of each part.
pub open spec fn parts_lines(parts: Seq<HistoryCell>, raw: bool) -> Seq<Seq<Seq<Span>>>
    decreases parts, 0nat,
{
    if parts.len() == 0 {
        seq![]
    } else {
        parts_lines(parts.drop_last(), raw).push(cell_lines(parts.last(), raw))
    }
}


/// Viewing a list with one more line adds that line's view.
pub proof fn lemma_lines_view_push(s: Seq<Line>, x: Line)
    ensures
        lines_view(s.push(x)) == lines_view(s).push(x@),
{
    let a = lines_view(s.push(x));
    let b = lines_view(s).push(x@);
    assert forall|k: int| 0 <= k < a.len() implies a[k] == b[k] by {
        if k < s.len() {
            assert(s.push(x)[k] == s[k]);
        }
    }
    assert(a =~= b);
}

/// Viewing a concatenation concatenates the views.
pub proof fn lemma_lines_view_append(s: Seq<Line>, t: Seq<Line>)
    ensures
        lines_view(s + t) == lines_view(s) + lines_view(t),
{
    let a = lines_view(s + t);
    let b = lines_view(s) + lines_view(t);
    assert forall|k: int| 0 <= k < a.len() implies a[k] == b[k] by {
        if k < s.len() {
            assert((s + t)[k] == s[k]);
        } else {
            assert((s + t)[k] == t[k - s.len()]);
        }
    }
    assert(a =~= b);
}

/// Unstyling a list with one more line adds that line unstyled.
pub proof fn lemma_plain_lines_push(s: Seq<Seq<Span>>, x: Seq<Span>)
    ensures
        plain_lines_of(s.push(x)) == plain_lines_of(s).push(plain_line(x)),
{
    let a = plain_lines_of(s.push(x));
    let b = plain_lines_of(s).push(plain_line(x));
    assert forall|k: int| 0 <= k < a.len() implies a[k] == b[k] by {
        if k < s.len() {
            assert(s.push(x)[k] == s[k]);
        }
    }
    assert(a =~= b);
}

/// A blank line.
pub fn blank_line() -> (r: Line)
    ensures
        r@ == Seq::<Span>::empty(),
{
    Line { spans: Vec::new() }
}

/// A copy of a list of lines.
pub fn clone_lines(lines: &Vec<Line>) -> (r: Vec<Line>)
    ensures
        lines_view(r@) == lines_view(lines@),
{
    let mut out: Vec<Line> = Vec::new();
    let mut i: usize = 0;
    while i < lines.len()
        invariant
            i <= lines@.len(),
            lines_view(out@) == lines_view(lines@.take(i as int)),
        decreases lines@.len() - i,
    {
        let ghost prev = out@;
        let l: Line = lines[i].clone();
        out.push(l);
        proof {
            lemma_lines_view_push(prev, l);
            lemma_lines_view_push(lines@.take(i as int), lines@[i as int]);
            assert(lines@.take(i + 1) =~= lines@.take(i as int).push(lines@[i as int]));
        }
        i = i + 1;
    }
    assert(lines@.take(i as int) =~= lines@);
    out
}

/// The lines with every span unstyled, as raw lines for copying.
pub fn plain_lines(lines: Vec<Line>) -> (r: Vec<Line>)
    ensures
        lines_view(r@) == plain_lines_of(lines_view(lines@)),
{
    let mut out: Vec<Line> = Vec::new();
    let mut i: usize = 0;
    while i < lines.len()
        invariant
            i <= lines@.len(),
            lines_view(out@) == plain_lines_of(lines_view(lines@.take(i as int))),
        decreases lines@.len() - i,
    {
        let line: &Line = &lines[i];
        let mut spans: Vec<Span> = Vec::new();
        let mut j: usize = 0;
        while j < line.spans.len()
            invariant
                j <= line.spans@.len(),
                spans@ == plain_line(line.spans@.take(j as int)),
            decreases line.spans@.len() - j,
        {
            spans.push(Span { content: line.spans[j].content.clone(), style: 0 });
            j = j + 1;
            assert(spans@ =~= plain_line(line.spans@.take(j as int)));
        }
        assert(line.spans@.take(j as int) =~= line.spans@);
        let ghost prev = out@;
        let nl: Line = Line { spans };
        out.push(nl);
        proof {
            lemma_lines_view_push(prev, nl);
            lemma_lines_view_push(lines@.take(i as int), lines@[i as int]);
            assert(lines@.take(i + 1) =~= lines@.take(i as int).push(lines@[i as int]));
            lemma_plain_lines_push(lines_view(lines@.take(i as int)), lines@[i as int]@);
        }
        i = i + 1;
    }
    assert(lines@.take(i as int) =~= lines@);
    out
}

impl HistoryCell {
    /// The lines this cell shows at `width` columns.
    pub fn display_lines(&self, width: u16) -> (r: Vec<Line>)
        ensures
            lines_view(r@) == cell_lines(*self, false),
        decreases self, 1nat,
    {
        match self {
            HistoryCell::Plain(p) => p.display_lines(width),
            HistoryCell::Composite(c) => c.lines_of_parts(width, false),
            HistoryCell::WorkLog(w) => w.inner.display_lines(width),
        }
    }

    /// The unstyled lines of this cell, for copying.
    pub fn raw_lines(&self) -> (r: Vec<Line>)
        ensures
            lines_view(r@) == cell_lines(*self, true),
        decreases self, 1nat,
    {
        match self {
            HistoryCell::Plain(p) => p.raw_lines(),
            HistoryCell::Composite(c) => c.lines_of_parts(0, true),
            HistoryCell::WorkLog(w) => w.inner.raw_lines(),
        }
    }

    /// Whether this cell belongs to the work log.
    pub fn is_work_log(&self) -> (r: bool)
        ensures
            r == (*self is WorkLog),
    {
        match self {
            HistoryCell::WorkLog(_) => true,
            _ => false,
        }
    }
}

impl PlainHistoryCell {
    /// A cell that shows `lines`.
    pub fn new(lines: Vec<Line>) -> (r: Self)
        ensures
            r.lines == lines,
    {
        PlainHistoryCell { lines }
    }

    /// The lines, at any width.
    pub fn display_lines(&self, width: u16) -> (r: Vec<Line>)
        ensures
            lines_view(r@) == lines_view(self.lines@),
    {
        clone_lines(&self.lines)
    }

    /// The lines, unstyled.
    pub fn raw_lines(&self) -> (r: Vec<Line>)
        ensures
            lines_view(r@) == plain_lines_of(lines_view(self.lines@)),
    {
        plain_lines(clone_lines(&self.lines))
    }
}

/// A cell that shows text wrapped to the width behind a first-line prefix
/// and a prefix for the lines after it.
#[derive(Debug)]
pub struct PrefixedWrappedHistoryCell {
    pub text: Vec<Line>,
    pub initial_prefix: Line,
    pub subsequent_prefix: Line,
}

impl PrefixedWrappedHistoryCell {
    /// A cell showing `text` behind the given prefixes.
    pub fn new(text: Vec<Line>, initial_prefix: Line, subsequent_prefix: Line) -> (r: Self)
        ensures
            r.text == text,
            r.initial_prefix == initial_prefix,
            r.subsequent_prefix == subsequent_prefix,
    {
        PrefixedWrappedHistoryCell { text, initial_prefix, subsequent_prefix }
    }

    /// The text's lines, unwrapped, without prefixes and unstyled.
    pub fn raw_lines(&self) -> (r: Vec<Line>)
        ensures
            lines_view(r@) == plain_lines_of(lines_view(self.text@)),
    {
        plain_lines(clone_lines(&self.text))
    }
}

impl CompositeHistoryCell {
    /// A cell made of `parts`.
    pub fn new(parts: Vec<HistoryCell>) -> (r: Self)
        ensures
            r.parts == parts,
    {
        CompositeHistoryCell { parts }
    }

    /// The parts' lines stacked, skipping parts without lines, with a blank
    /// line between parts.
    pub fn display_lines(&self, width: u16) -> (r: Vec<Line>)
        ensures
            lines_view(r@) == join_groups(parts_lines(self.parts@, false)),
    {
        self.lines_of_parts(width, false)
    }

    /// The parts' unstyled lines stacked in the same way.
    pub fn raw_lines(&self) -> (r: Vec<Line>)
        ensures
            lines_view(r@) == join_groups(parts_lines(self.parts@, true)),
    {
        self.lines_of_parts(0, true)
    }

    fn lines_of_parts(&self, width: u16, raw: bool) -> (r: Vec<Line>)
        ensures
            lines_view(r@) == join_groups(parts_lines(self.parts@, raw)),
        decreases self, 0nat,
    {
        let mut out: Vec<Line> = Vec::new();
        let mut first: bool = true;
        let mut i: usize = 0;
        while i < self.parts.len()
            invariant
                i <= self.parts@.len(),
                lines_view(out@) == join_groups(parts_lines(self.parts@.take(i as int), raw)),
                first == (out@.len() == 0),
            decreases self.parts@.len() - i,
        {
            let part: &HistoryCell = &self.parts[i];
            proof {
                assert(decreases_to!(self => self.parts@[i as int]));
            }
            let mut lines: Vec<Line> = if raw {
                part.raw_lines()
            } else {
                part.display_lines(width)
            };
            let ghost group = lines_view(lines@);
            let ghost before = lines_view(out@);
            proof {
                let t = self.parts@.take(i + 1);
                assert(t.drop_last() =~= self.parts@.take(i as int));
                assert(parts_lines(t, raw) == parts_lines(self.parts@.take(i as int), raw).push(
                    group,
                ));
                let gs = parts_lines(t, raw);
                assert(gs.drop_last() =~= parts_lines(self.parts@.take(i as int), raw));
                assert(gs.last() == group);
            }
            if lines.len() > 0 {
                if !first {
                    let b: Line = blank_line();
                    let ghost o1 = out@;
                    out.push(b);
                    proof {
                        lemma_lines_view_push(o1, b);
                    }
                }
                let ghost o2 = out@;
                let ghost l2 = lines@;
                out.append(&mut lines);
                proof {
                    lemma_lines_view_append(o2, l2);
                }
                first = false;
            }
            i = i + 1;
            assert(lines_view(out@) =~= join_groups(parts_lines(self.parts@.take(i as int), raw)));
        }
        assert(self.parts@.take(i as int) =~= self.parts@);
        out
    }
}

impl WorkLogHistoryCell {
    /// A work-log cell wrapping `inner`.
    pub fn new(inner: HistoryCell) -> (r: Self)
        ensures
            *r.inner == inner,
    {
        WorkLogHistoryCell { inner: Box::new(inner) }
    }

    /// The wrapped cell's lines.
    pub fn display_lines(&self, width: u16) -> (r: Vec<Line>)
        ensures
            lines_view(r@) == cell_lines(*self.inner, false),
    {
        self.inner.display_lines(width)
    }

    /// The wrapped cell's unstyled lines.
    pub fn raw_lines(&self) -> (r: Vec<Line>)
        ensures
            lines_view(r@) == cell_lines(*self.inner, true),
    {
        self.inner.raw_lines()
    }

    /// A work-log cell belongs to the work log.
    pub fn is_work_log(&self) -> (r: bool)
        ensures
            r,
    {
        true
    }
}


/// A composite of one part shows that part's lines unchanged.
pub proof fn lemma_join_single_group(g: Seq<Seq<Span>>)
    ensures
        join_groups(seq![g]) == g,
{
    assert(seq![g].drop_last() =~= Seq::<Seq<Seq<Span>>>::empty());
    assert(join_groups(Seq::<Seq<Seq<Span>>>::empty()) == Seq::<Seq<Span>>::empty());
    if g.len() == 0 {
        assert(g =~= Seq::<Seq<Span>>::empty());
    }
}

/// A part without lines adds nothing, not even a blank line.
pub proof fn lemma_join_skips_empty_group(groups: Seq<Seq<Seq<Span>>>)
    ensures
        join_groups(groups.push(seq![])) == join_groups(groups),
{
    assert(groups.push(seq![]).drop_last() =~= groups);
}

/// A stack of parts has no lines exactly when none of its parts has any.
pub proof fn lemma_join_length(groups: Seq<Seq<Seq<Span>>>)
    ensures
        join_groups(groups).len() == 0 <==> forall|i: int|
            0 <= i < groups.len() ==> (#[trigger] groups[i]).len() == 0,
    decreases groups.len(),
{
    if groups.len() > 0 {
        let rest = groups.drop_last();
        lemma_join_length(rest);
        if join_groups(groups).len() == 0 {
            assert forall|i: int| 0 <= i < groups.len() implies (#[trigger] groups[i]).len() == 0 by {
                if i < rest.len() {
                    assert(groups[i] == rest[i]);
                }
            }
        } else {
            if forall|i: int| 0 <= i < groups.len() ==> (#[trigger] groups[i]).len() == 0 {
                assert forall|i: int| 0 <= i < rest.len() implies (#[trigger] rest[i]).len() == 0 by {
                    assert(groups[i] == rest[i]);
                }
                assert(groups[groups.len() - 1].len() == 0);
            }
        }
    }
}

/// A plain cell shown as a history cell shows its own lines with their
/// styles; only its raw lines lose them.
pub proof fn lemma_plain_cell_keeps_styles(p: PlainHistoryCell)
    ensures
        cell_lines(HistoryCell::Plain(p), false) == lines_view(p.lines@),
        cell_lines(HistoryCell::Plain(p), true) == plain_lines_of(lines_view(p.lines@)),
{
}

/// A composite of one cell, and a work-log cell, show what the cell shows.
pub proof fn lemma_wrappers_show_their_cell(
    composite: CompositeHistoryCell,
    work_log: WorkLogHistoryCell,
    c: HistoryCell,
    raw: bool,
)
    requires
        composite.parts@ == seq![c],
        *work_log.inner == c,
    ensures
        cell_lines(HistoryCell::Composite(composite), raw) == cell_lines(c, raw),
        cell_lines(HistoryCell::WorkLog(work_log), raw) == cell_lines(c, raw),
{
    let parts = composite.parts@;
    assert(parts.drop_last() =~= Seq::<HistoryCell>::empty());
    assert(parts.last() == c);
    assert(parts_lines(Seq::<HistoryCell>::empty(), raw) =~= Seq::<Seq<Seq<Span>>>::empty());
    assert(parts_lines(parts, raw) =~= seq![cell_lines(c, raw)]);
    lemma_join_single_group(cell_lines(c, raw));
}

/// Each group of lines unstyled.
pub open spec fn plain_groups(gs: Seq<Seq<Seq<Span>>>) -> Seq<Seq<Seq<Span>>> {
    gs.map_values(|g: Seq<Seq<Span>>| plain_lines_of(g))
}

proof fn lemma_plain_join(gs: Seq<Seq<Seq<Span>>>)
    ensures
        plain_lines_of(join_groups(gs)) == join_groups(plain_groups(gs)),
    decreases gs.len(),
{
    if gs.len() > 0 {
        let rest = gs.drop_last();
        lemma_plain_join(rest);
        let g = gs.last();
        assert(plain_groups(gs).drop_last() =~= plain_groups(rest));
        assert(plain_groups(gs).last() == plain_lines_of(g));
        let jr = join_groups(rest);
        if g.len() > 0 && jr.len() > 0 {
            assert(plain_line(Seq::<Span>::empty()) =~= Seq::<Span>::empty());
            assert(plain_lines_of(jr.push(seq![]) + g) =~= plain_lines_of(jr).push(seq![])
                + plain_lines_of(g));
        }
    } else {
        assert(plain_groups(gs) =~= Seq::<Seq<Seq<Span>>>::empty());
        assert(plain_lines_of(Seq::<Seq<Span>>::empty()) =~= Seq::<Seq<Span>>::empty());
    }
}

/// A cell's raw lines are the lines it shows, unstyled: the two differ in
/// styles only.
pub proof fn lemma_raw_lines_are_unstyled_display(c: HistoryCell)
    ensures
        cell_lines(c, true) == plain_lines_of(cell_lines(c, false)),
    decreases c, 1nat,
{
    match c {
        HistoryCell::Plain(p) => {},
        HistoryCell::Composite(cc) => {
            lemma_raw_parts_are_unstyled(cc.parts@);
            lemma_plain_join(parts_lines(cc.parts@, false));
        },
        HistoryCell::WorkLog(w) => {
            lemma_raw_lines_are_unstyled_display(*w.inner);
        },
    }
}

proof fn lemma_raw_parts_are_unstyled(parts: Seq<HistoryCell>)
    ensures
        parts_lines(parts, true) == plain_groups(parts_lines(parts, false)),
    decreases parts, 0nat,
{
    if parts.len() > 0 {
        lemma_raw_parts_are_unstyled(parts.drop_last());
        lemma_raw_lines_are_unstyled_display(parts.last());
        assert(parts_lines(parts, true) =~= plain_groups(parts_lines(parts, false)));
    } else {
        assert(plain_groups(parts_lines(parts, false)) =~= Seq::<Seq<Seq<Span>>>::empty());
    }
}

} // verus!
