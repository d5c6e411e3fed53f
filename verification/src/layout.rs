//! The layout engine: measures the bounding box the stored lines want and
//! computes the exact cell placement of every styled span, including the
//! line-continuation indentation policy.

use vstd::prelude::*;

use crate::line::{LogLine, Segment, Style};
use crate::store::LogStore;
use crate::text::{
    add_sat, cap_usize, count_rows, line_break_count, max_usize, measure_text, spec_max,
    split_rows, split_text, text_width,
};

verus! {

/// Capping both summands before adding does not change the capped sum.
proof fn lemma_cap_add_both(a: nat, b: nat)
    ensures
        cap_usize(cap_usize(a) + cap_usize(b)) == cap_usize(a + b),
{
}

// ---------------------------------------------------------------------------
// Sizing
// ---------------------------------------------------------------------------

/// Width a sequence of segments wants: the sum of each segment's widest row.
pub open spec fn segs_width(segs: Seq<Segment>) -> nat
    decreases segs.len(),
{
    if segs.len() == 0 {
        0
    } else {
        segs_width(segs.drop_last()) + text_width(segs.last().text@)
    }
}

/// Width one line wants: the sum over its segments of each segment's widest
/// physical row. Leading segments are single-line, so for them this is simply
/// their display width.
pub open spec fn line_width(line: LogLine) -> nat {
    segs_width(line.segments@)
}

/// Rows one line occupies: one more than the line breaks of its message body.
/// Leading segments are single-line and cannot add rows.
pub open spec fn line_rows(line: LogLine) -> nat
    recommends
        line.wf(),
{
    line_break_count(line.segments@.last().text@) + 1
}

/// The widest line of a sequence.
pub open spec fn lines_max_width(lines: Seq<LogLine>) -> nat
    decreases lines.len(),
{
    if lines.len() == 0 {
        0
    } else {
        spec_max(lines_max_width(lines.drop_last()), line_width(lines.last()))
    }
}

/// Width the whole store wants; an empty store wants one column.
pub open spec fn store_width(lines: Seq<LogLine>) -> nat {
    if lines.len() == 0 {
        1
    } else {
        lines_max_width(lines)
    }
}

/// Height the whole store wants: the total physical rows of its lines.
pub open spec fn store_height(lines: Seq<LogLine>) -> nat
    decreases lines.len(),
{
    if lines.len() == 0 {
        0
    } else {
        store_height(lines.drop_last()) + line_rows(lines.last())
    }
}

/// The bounding box the store wants under a minimum constraint: its own width
/// and height, each clamped up to the constraint.
pub open spec fn spec_required_size(lines: Seq<LogLine>, cw: nat, ch: nat) -> (nat, nat) {
    (
        spec_max(cap_usize(store_width(lines)), cw),
        spec_max(cap_usize(store_height(lines)), ch),
    )
}

/// Width one line wants, capped at the machine word.
fn measure_line_width(line: &LogLine) -> (w: usize)
    ensures
        w as nat == cap_usize(line_width(*line)),
{
    let n = line.segments.len();
    let mut w: usize = 0;
    let mut j: usize = 0;
    proof {
        assert(line.segments@.take(0) =~= Seq::<Segment>::empty());
    }
    while j < n
        invariant
            j <= n,
            n == line.segments@.len(),
            w as nat == cap_usize(segs_width(line.segments@.take(j as int))),
        decreases n - j,
    {
        let sw = measure_text(line.segments[j].text.as_str());
        proof {
            let p = line.segments@.take(j as int);
            let p1 = line.segments@.take(j as int + 1);
            assert(p1.drop_last() =~= p);
            assert(p1.last() == line.segments@[j as int]);
            lemma_cap_add_both(segs_width(p), text_width(line.segments@[j as int].text@));
        }
        w = add_sat(w, sw);
        j = j + 1;
    }
    proof {
        assert(line.segments@.take(n as int) =~= line.segments@);
    }
    w
}

/// Rows one line occupies, capped at the machine word.
fn measure_line_rows(line: &LogLine) -> (r: usize)
    requires
        line.wf(),
    ensures
        r as nat == cap_usize(line_rows(*line)),
{
    let n = line.segments.len();
    count_rows(line.segments[n - 1].text.as_str())
}

/// Sizing: the bounding box the stored lines want, given the minimum size the
/// host proposes. The width is the widest line (one column for an empty
/// store), the height the total physical row count; neither is reported
/// smaller than the constraint.
pub fn required_size(store: &LogStore, constraint_w: usize, constraint_h: usize) -> (r: (
    usize,
    usize,
))
    requires
        store.wf(),
    ensures
        (r.0 as nat, r.1 as nat) == spec_required_size(
            store.lines(),
            constraint_w as nat,
            constraint_h as nat,
        ),
{
    let total = store.len();
    let mut w: usize = 0;
    let mut h: usize = 0;
    let mut i: usize = 0;
    proof {
        assert(store.lines().take(0) =~= Seq::<LogLine>::empty());
    }
    while i < total
        invariant
            i <= total,
            total == store.lines().len(),
            store.wf(),
            w as nat == cap_usize(lines_max_width(store.lines().take(i as int))),
            h as nat == cap_usize(store_height(store.lines().take(i as int))),
        decreases total - i,
    {
        let line = store.line_at(i).unwrap();
        proof {
            let p = store.lines().take(i as int);
            let p1 = store.lines().take(i as int + 1);
            assert(p1.drop_last() =~= p);
            assert(p1.last() == store.lines()[i as int]);
            lemma_cap_add_both(store_height(p), line_rows(store.lines()[i as int]));
        }
        let lw = measure_line_width(line);
        w = max_usize(w, lw);
        let lr = measure_line_rows(line);
        h = add_sat(h, lr);
        i = i + 1;
    }
    proof {
        assert(store.lines().take(total as int) =~= store.lines());
    }
    let w = if total == 0 {
        1
    } else {
        w
    };
    (max_usize(w, constraint_w), max_usize(h, constraint_h))
}

/// Idempotent sizing: the reported size is a function of the store contents
/// and the constraint alone, so two measurements of the same contents under
/// the same constraint are identical — measuring mutates nothing.
pub proof fn lemma_sizing_idempotent(
    lines: Seq<LogLine>,
    cw: nat,
    ch: nat,
    first: (nat, nat),
    second: (nat, nat),
)
    requires
        first == spec_required_size(lines, cw, ch),
        second == spec_required_size(lines, cw, ch),
    ensures
        first == second,
{
}

/// Row expansion: a line occupies exactly one physical row per part of its
/// message body split on line breaks — k embedded line breaks yield k + 1
/// rows, whatever the other segments hold.
pub proof fn lemma_row_expansion(line: LogLine)
    requires
        line.wf(),
    ensures
        line_rows(line) == line_break_count(line.segments@.last().text@) + 1,
        line_rows(line) == split_rows(line.segments@.last().text@).len(),
{
    crate::text::lemma_split_rows_count(line.segments@.last().text@);
}

// ---------------------------------------------------------------------------
// Drawing
// ---------------------------------------------------------------------------

/// One planned placement: column, row, style, and the text to print there.
pub struct PlacedSpan {
    pub x: usize,
    pub y: usize,
    pub style: Style,
    pub text: String,
}

/// The placements of a line's leading (single-line) segments, all on row y:
/// each is printed at the column where the widths of the segments before it
/// end.
pub open spec fn prefix_plan(segs: Seq<Segment>, y: nat) -> Seq<(nat, nat, Style, Seq<char>)>
    decreases segs.len(),
{
    if segs.len() == 0 {
        Seq::empty()
    } else {
        prefix_plan(segs.drop_last(), y).push(
            (cap_usize(segs_width(segs.drop_last())), y, segs.last().style, segs.last().text@),
        )
    }
}

/// The placements of the message body's physical rows: the first at the
/// column where the message begins on row y; each later part one row further
/// down, resuming at the message's start column when indentation is on and at
/// column zero when it is off.
pub open spec fn message_plan(
    parts: Seq<Seq<char>>,
    style: Style,
    msg_x: nat,
    y: nat,
    indent: bool,
) -> Seq<(nat, nat, Style, Seq<char>)> {
    Seq::new(
        parts.len(),
        |j: int|
            (
                if j == 0 || indent {
                    msg_x
                } else {
                    0
                },
                cap_usize((y + j) as nat),
                style,
                parts[j],
            ),
    )
}

/// The column where a line's message body begins: after all leading segments.
pub open spec fn message_x(line: LogLine) -> nat {
    cap_usize(segs_width(line.segments@.drop_last()))
}

/// The full placement of one line starting at row y.
pub open spec fn line_plan(line: LogLine, y: nat, indent: bool) -> Seq<
    (nat, nat, Style, Seq<char>),
>
    recommends
        line.wf(),
{
    let msg = line.segments@.last();
    prefix_plan(line.segments@.drop_last(), y) + message_plan(
        split_rows(msg.text@),
        msg.style,
        message_x(line),
        y,
        indent,
    )
}

/// The placement of a sequence of lines from row zero on: each line starts on
/// the row where the rows of the lines before it end.
pub open spec fn lines_plan(lines: Seq<LogLine>, indent: bool) -> Seq<(nat, nat, Style, Seq<char>)>
    decreases lines.len(),
{
    if lines.len() == 0 {
        Seq::empty()
    } else {
        lines_plan(lines.drop_last(), indent) + line_plan(
            lines.last(),
            cap_usize(store_height(lines.drop_last())),
            indent,
        )
    }
}

/// What drawing renders into a viewport of the given height: the newest lines
/// that fit — when there are more lines than rows, the oldest
/// `lines − height` lines are skipped — placed from row zero on.
pub open spec fn render_plan(lines: Seq<LogLine>, viewport_height: nat, indent: bool) -> Seq<
    (nat, nat, Style, Seq<char>),
> {
    let skip = if lines.len() > viewport_height {
        lines.len() - viewport_height
    } else {
        0
    };
    lines_plan(lines.skip(skip as int), indent)
}

/// The rendered spans realize a plan: same count, and span for span the same
/// column, row, style and text.
pub open spec fn matches_plan(
    spans: Seq<PlacedSpan>,
    plan: Seq<(nat, nat, Style, Seq<char>)>,
) -> bool {
    &&& spans.len() == plan.len()
    &&& forall|i: int|
        0 <= i < spans.len() ==> {
            &&& (#[trigger] spans[i]).x as nat == plan[i].0
            &&& spans[i].y as nat == plan[i].1
            &&& spans[i].style == plan[i].2
            &&& spans[i].text@ == plan[i].3
        }
}

/// The number of prefix placements equals the number of leading segments.
proof fn lemma_prefix_plan_len(segs: Seq<Segment>, y: nat)
    ensures
        prefix_plan(segs, y).len() == segs.len(),
    decreases segs.len(),
{
    if segs.len() > 0 {
        lemma_prefix_plan_len(segs.drop_last(), y);
    }
}

/// Emits the placement of one line, appending to the spans so far.
fn emit_line(out: &mut Vec<PlacedSpan>, line: &LogLine, y: usize, indent: bool)
    requires
        line.wf(),
    ensures
        final(out)@.len() == old(out)@.len() + line_plan(*line, y as nat, indent).len(),
        forall|k: int| 0 <= k < old(out)@.len() ==> final(out)@[k] == old(out)@[k],
        matches_plan(
            final(out)@.skip(old(out)@.len() as int),
            line_plan(*line, y as nat, indent),
        ),
{
    let ghost base = out@.len() as int;
    let n = line.segments.len();
    let ghost prefix = line.segments@.drop_last();
    let mut x: usize = 0;
    let mut j: usize = 0;
    proof {
        assert(prefix.take(0) =~= Seq::<Segment>::empty());
        assert(line.segments@.take(0) =~= Seq::<Segment>::empty());
    }
    while j < n - 1
        invariant
            n == line.segments@.len(),
            n >= 1,
            j <= n - 1,
            prefix == line.segments@.drop_last(),
            base == old(out)@.len(),
            out@.len() == base + j,
            forall|k: int| 0 <= k < base ==> out@[k] == old(out)@[k],
            x as nat == cap_usize(segs_width(prefix.take(j as int))),
            matches_plan(out@.skip(base), prefix_plan(prefix.take(j as int), y as nat)),
        decreases n - 1 - j,
    {
        proof {
            assert(prefix.take(j as int + 1).drop_last() =~= prefix.take(j as int));
            assert(prefix.take(j as int + 1).last() == line.segments@[j as int]);
            lemma_cap_add_both(
                segs_width(prefix.take(j as int)),
                text_width(line.segments@[j as int].text@),
            );
        }
        let seg = &line.segments[j];
        let sw = measure_text(seg.text.as_str());
        let span = PlacedSpan { x, y, style: seg.style, text: seg.text.clone() };
        let ghost pre = out@;
        let ghost spn = span;
        out.push(span);
        proof {
            let p0 = prefix_plan(prefix.take(j as int), y as nat);
            let p1 = prefix_plan(prefix.take(j as int + 1), y as nat);
            lemma_prefix_plan_len(prefix.take(j as int), y as nat);
            assert(p1 == p0.push(
                (
                    cap_usize(segs_width(prefix.take(j as int))),
                    y as nat,
                    line.segments@[j as int].style,
                    line.segments@[j as int].text@,
                ),
            ));
            assert(out@ == pre.push(spn));
            assert forall|k: int| 0 <= k < out@.len() - base implies {
                &&& (#[trigger] out@.skip(base)[k]).x as nat == p1[k].0
                &&& out@.skip(base)[k].y as nat == p1[k].1
                &&& out@.skip(base)[k].style == p1[k].2
                &&& out@.skip(base)[k].text@ == p1[k].3
            } by {
                assert(out@.skip(base)[k] == out@[base + k]);
                if k < j {
                    assert(out@[base + k] == pre[base + k]);
                    assert(pre.skip(base)[k] == pre[base + k]);
                    assert(p1[k] == p0[k]);
                } else {
                    assert(out@[base + k] == spn);
                }
            }
        }
        x = add_sat(x, sw);
        j = j + 1;
    }
    proof {
        assert(prefix.take(n - 1) =~= prefix);
    }
    // The message body: one placement per physical row.
    let msg = &line.segments[n - 1];
    let ghost msgx = x as nat;
    let ghost mplan = message_plan(
        split_rows(msg.text@),
        msg.style,
        msgx,
        y as nat,
        indent,
    );
    let parts = split_text(msg.text.as_str());
    let nparts = parts.len();
    let mut row: usize = y;
    let mut k: usize = 0;
    while k < nparts
        invariant
            nparts == parts@.len(),
            nparts == split_rows(msg.text@).len(),
            forall|t: int| 0 <= t < nparts ==> (#[trigger] parts@[t])@ == split_rows(msg.text@)[t],
            msg == &line.segments@[n - 1],
            n == line.segments@.len(),
            n >= 1,
            prefix == line.segments@.drop_last(),
            x as nat == msgx,
            msgx == cap_usize(segs_width(prefix)),
            mplan == message_plan(split_rows(msg.text@), msg.style, msgx, y as nat, indent),
            k <= nparts,
            base == old(out)@.len(),
            out@.len() == base + (n - 1) + k,
            forall|t: int| 0 <= t < base ==> out@[t] == old(out)@[t],
            row as nat == cap_usize(y as nat + k as nat),
            matches_plan(
                out@.skip(base),
                prefix_plan(prefix, y as nat) + mplan.take(k as int),
            ),
        decreases nparts - k,
    {
        let col = if k == 0 || indent {
            x
        } else {
            0
        };
        let span = PlacedSpan { x: col, y: row, style: msg.style, text: parts[k].clone() };
        let ghost pre = out@;
        let ghost spn = span;
        out.push(span);
        proof {
            lemma_prefix_plan_len(prefix, y as nat);
            lemma_cap_add_both(y as nat + k as nat, 1);
            let before = prefix_plan(prefix, y as nat) + mplan.take(k as int);
            let whole = prefix_plan(prefix, y as nat) + mplan.take(k as int + 1);
            assert(mplan.take(k as int + 1) =~= mplan.take(k as int).push(mplan[k as int]));
            assert(whole =~= before.push(mplan[k as int]));
            assert(out@ == pre.push(spn));
            assert forall|t: int| 0 <= t < out@.len() - base implies {
                &&& (#[trigger] out@.skip(base)[t]).x as nat == whole[t].0
                &&& out@.skip(base)[t].y as nat == whole[t].1
                &&& out@.skip(base)[t].style == whole[t].2
                &&& out@.skip(base)[t].text@ == whole[t].3
            } by {
                assert(out@.skip(base)[t] == out@[base + t]);
                if t < out@.len() - base - 1 {
                    assert(out@[base + t] == pre[base + t]);
                    assert(pre.skip(base)[t] == pre[base + t]);
                    assert(whole[t] == before[t]);
                } else {
                    assert(out@[base + t] == spn);
                    assert(whole[t] == mplan[k as int]);
                }
            }
        }
        row = add_sat(row, 1);
        k = k + 1;
    }
    proof {
        assert(mplan.take(nparts as int) =~= mplan);
        assert(line.segments@.last() == line.segments@[n - 1]);
    }
}

/// Drawing: the exact cell placement of the newest stored lines into a
/// viewport of the given height. When more lines are stored than rows fit,
/// the oldest lines are trimmed; each remaining line prints its leading
/// segments left to right on its first row, then its message body row by row
/// under the indentation policy.
pub fn render_spans(store: &LogStore, viewport_height: usize, indent: bool) -> (r: Vec<
    PlacedSpan,
>)
    requires
        store.wf(),
    ensures
        matches_plan(r@, render_plan(store.lines(), viewport_height as nat, indent)),
{
    let total = store.len();
    let skip = if total > viewport_height {
        total - viewport_height
    } else {
        0
    };
    let ghost kept = store.lines().skip(skip as int);
    let mut out: Vec<PlacedSpan> = Vec::new();
    let mut y: usize = 0;
    let mut i: usize = skip;
    proof {
        assert(kept.take(0) =~= Seq::<LogLine>::empty());
    }
    while i < total
        invariant
            skip <= i <= total,
            total == store.lines().len(),
            store.wf(),
            kept == store.lines().skip(skip as int),
            y as nat == cap_usize(store_height(kept.take(i - skip))),
            matches_plan(out@, lines_plan(kept.take(i - skip), indent)),
        decreases total - i,
    {
        let line = store.line_at(i).unwrap();
        proof {
            assert(kept[i - skip] == store.lines()[i as int]);
            assert(kept.take(i - skip + 1).drop_last() =~= kept.take(i - skip));
            assert(kept.take(i - skip + 1).last() == kept[i - skip]);
            lemma_cap_add_both(store_height(kept.take(i - skip)), line_rows(kept[i - skip]));
        }
        let ghost before = out@;
        let rows = measure_line_rows(line);
        emit_line(&mut out, line, y, indent);
        proof {
            let lp = line_plan(store.lines()[i as int], y as nat, indent);
            let whole = lines_plan(kept.take(i - skip + 1), indent);
            assert(whole == lines_plan(kept.take(i - skip), indent) + lp);
            assert forall|t: int| 0 <= t < out@.len() implies {
                &&& (#[trigger] out@[t]).x as nat == whole[t].0
                &&& out@[t].y as nat == whole[t].1
                &&& out@[t].style == whole[t].2
                &&& out@[t].text@ == whole[t].3
            } by {
                if t < before.len() {
                    assert(out@[t] == before[t]);
                    assert(whole[t] == lines_plan(kept.take(i - skip), indent)[t]);
                } else {
                    assert(out@.skip(before.len() as int)[t - before.len()] == out@[t]);
                    assert(whole[t] == lp[t - before.len()]);
                }
            }
        }
        y = add_sat(y, rows);
        i = i + 1;
    }
    proof {
        assert(kept.take(total - skip) =~= kept);
    }
    out
}

/// Indent toggle: in a line's plan, the first message row always starts at
/// the column where the message body begins. With indentation on, every
/// continuation row resumes at that same column; with it off, every
/// continuation row starts at column zero. The leading segments are placed
/// identically in both modes.
pub proof fn lemma_indent_toggle(line: LogLine, y: nat, j: int)
    requires
        line.wf(),
        0 <= j < split_rows(line.segments@.last().text@).len(),
    ensures
        ({
            let n = line.segments@.len() - 1;
            let on = line_plan(line, y, true);
            let off = line_plan(line, y, false);
            &&& on.len() == off.len() == n + split_rows(line.segments@.last().text@).len()
            &&& on[n + j].0 == message_x(line)
            &&& off[n + j].0 == if j == 0 {
                message_x(line)
            } else {
                0
            }
            &&& forall|k: int| 0 <= k < n ==> on[k] == off[k]
        }),
{
    let n = line.segments@.len() - 1;
    let prefix = line.segments@.drop_last();
    lemma_prefix_plan_len(prefix, y);
    let msg = line.segments@.last();
    let on = line_plan(line, y, true);
    let off = line_plan(line, y, false);
    assert(on[n + j] == message_plan(split_rows(msg.text@), msg.style, message_x(line), y, true)[j]);
    assert(off[n + j] == message_plan(
        split_rows(msg.text@),
        msg.style,
        message_x(line),
        y,
        false,
    )[j]);
    assert forall|k: int| 0 <= k < n implies on[k] == off[k] by {
        assert(on[k] == prefix_plan(prefix, y)[k]);
        assert(off[k] == prefix_plan(prefix, y)[k]);
    }
}

} // verus!
