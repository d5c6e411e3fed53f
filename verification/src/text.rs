//! Character-level text measurement: display widths, line-break splitting,
//! and the saturating arithmetic the layout engine uses so that column and
//! row counts are total functions of the text.

use vstd::prelude::*;
use vstd::string::StrSliceExecFns;

verus! {

/// Counts saturate at the machine word: a width or height tops out at
/// `usize::MAX` instead of overflowing.
pub open spec fn cap_usize(n: nat) -> nat {
    if n > usize::MAX as nat {
        usize::MAX as nat
    } else {
        n
    }
}

/// The larger of two counts.
pub open spec fn spec_max(a: nat, b: nat) -> nat {
    if a >= b {
        a
    } else {
        b
    }
}

/// Saturating addition of two machine words.
pub fn add_sat(a: usize, b: usize) -> (r: usize)
    ensures
        r as nat == cap_usize(a as nat + b as nat),
{
    if a > usize::MAX - b {
        usize::MAX
    } else {
        a + b
    }
}

/// The larger of two machine words.
pub fn max_usize(a: usize, b: usize) -> (r: usize)
    ensures
        r as nat == spec_max(a as nat, b as nat),
{
    if a >= b {
        a
    } else {
        b
    }
}

/// Capping a summand before adding does not change the capped sum.
pub proof fn lemma_cap_add(a: nat, b: nat)
    ensures
        cap_usize(cap_usize(a) + b) == cap_usize(a + b),
{
}

/// Display width in terminal columns of one character; zero for control
/// characters.
pub uninterp spec fn char_display_width(c: char) -> nat;

/// Relies on unicode_width's `UnicodeWidthChar::width`: the displayed width
/// in columns of a single character, a pure table lookup on that character
/// alone; a control character reports no width and counts as zero columns.
#[verifier::external_body]
pub fn char_width(c: char) -> (w: usize)
    ensures
        w as nat == char_display_width(c),
{
    unicode_width::UnicodeWidthChar::width(c).unwrap_or(0)
}

/// Display width of one physical row: the sum of its characters' widths.
pub open spec fn row_width(s: Seq<char>) -> nat
    decreases s.len(),
{
    if s.len() == 0 {
        0
    } else {
        row_width(s.drop_last()) + char_display_width(s.last())
    }
}

/// Number of line breaks in a text.
pub open spec fn line_break_count(s: Seq<char>) -> nat
    decreases s.len(),
{
    if s.len() == 0 {
        0
    } else {
        line_break_count(s.drop_last()) + if s.last() == '\n' {
            1nat
        } else {
            0nat
        }
    }
}

/// The physical rows of a text: its maximal runs between line breaks, in
/// order. A text with k line breaks has exactly k + 1 rows; the empty text
/// has one empty row.
pub open spec fn split_rows(s: Seq<char>) -> Seq<Seq<char>>
    decreases s.len(),
{
    if s.len() == 0 {
        seq![Seq::<char>::empty()]
    } else if s.last() == '\n' {
        split_rows(s.drop_last()).push(Seq::<char>::empty())
    } else {
        let rows = split_rows(s.drop_last());
        rows.update(rows.len() - 1, rows.last().push(s.last()))
    }
}

/// A text with k line breaks splits into exactly k + 1 physical rows.
pub proof fn lemma_split_rows_count(s: Seq<char>)
    ensures
        split_rows(s).len() == line_break_count(s) + 1,
    decreases s.len(),
{
    if s.len() > 0 {
        lemma_split_rows_count(s.drop_last());
    }
}

/// The widest of a sequence of rows.
pub open spec fn max_row_width(rows: Seq<Seq<char>>) -> nat
    decreases rows.len(),
{
    if rows.len() == 0 {
        0
    } else {
        spec_max(max_row_width(rows.drop_last()), row_width(rows.last()))
    }
}

/// Display width of a text: the width of its widest physical row.
pub open spec fn text_width(s: Seq<char>) -> nat {
    max_row_width(split_rows(s))
}

/// Relies on `String`'s `FromIterator<char>` implementation: collecting
/// characters yields the string made of exactly those characters in order.
#[verifier::external_body]
pub fn chars_to_string(v: &Vec<char>) -> (r: String)
    ensures
        r@ == v@,
{
    v.iter().collect()
}

/// Measures a text: the display width of its widest physical row, capped at
/// the machine word.
pub fn measure_text(s: &str) -> (w: usize)
    ensures
        w as nat == cap_usize(text_width(s@)),
{
    let n = s.unicode_len();
    let mut best: usize = 0;
    let mut cur: usize = 0;
    let mut i: usize = 0;
    proof {
        assert(s@.take(0) =~= Seq::<char>::empty());
    }
    while i < n
        invariant
            i <= n,
            n == s@.len(),
            split_rows(s@.take(i as int)).len() >= 1,
            cur as nat == cap_usize(row_width(split_rows(s@.take(i as int)).last())),
            best as nat == cap_usize(
                max_row_width(split_rows(s@.take(i as int)).drop_last()),
            ),
        decreases n - i,
    {
        let ghost p = s@.take(i as int);
        let ghost p1 = s@.take(i as int + 1);
        proof {
            assert(p1.drop_last() =~= p);
            assert(p1.last() == s@[i as int]);
            lemma_split_rows_count(p1);
        }
        let c = s.get_char(i);
        if c == '\n' {
            proof {
                assert(split_rows(p1) == split_rows(p).push(Seq::<char>::empty()));
                assert(split_rows(p1).drop_last() =~= split_rows(p));
            }
            best = max_usize(best, cur);
            proof {
                let rows = split_rows(p);
                assert(spec_max(cap_usize(max_row_width(rows.drop_last())), cap_usize(row_width(rows.last())))
                    == cap_usize(spec_max(max_row_width(rows.drop_last()), row_width(rows.last()))));
                assert(max_row_width(rows) == spec_max(max_row_width(rows.drop_last()), row_width(rows.last())));
            }
            cur = 0;
        } else {
            let w = char_width(c);
            proof {
                let rows = split_rows(p);
                let rows1 = split_rows(p1);
                assert(rows1 == rows.update(rows.len() - 1, rows.last().push(s@[i as int])));
                assert(rows1.drop_last() =~= rows.drop_last());
                assert(rows1.last() == rows.last().push(s@[i as int]));
                assert(rows.last().push(s@[i as int]).drop_last() =~= rows.last());
                assert(row_width(rows1.last()) == row_width(rows.last()) + char_display_width(s@[i as int]));
                lemma_cap_add(row_width(rows.last()), char_display_width(s@[i as int]));
            }
            cur = add_sat(cur, w);
        }
        i = i + 1;
    }
    proof {
        assert(s@.take(n as int) =~= s@);
        let rows = split_rows(s@);
        lemma_split_rows_count(s@);
        assert(max_row_width(rows) == spec_max(max_row_width(rows.drop_last()), row_width(rows.last())));
        assert(spec_max(cap_usize(max_row_width(rows.drop_last())), cap_usize(row_width(rows.last())))
            == cap_usize(max_row_width(rows)));
    }
    max_usize(best, cur)
}

/// Counts the physical rows of a text: one more than its line breaks, capped
/// at the machine word.
pub fn count_rows(s: &str) -> (r: usize)
    ensures
        r as nat == cap_usize(line_break_count(s@) + 1),
{
    let n = s.unicode_len();
    let mut r: usize = 1;
    let mut i: usize = 0;
    proof {
        assert(s@.take(0) =~= Seq::<char>::empty());
    }
    while i < n
        invariant
            i <= n,
            n == s@.len(),
            r as nat == cap_usize(line_break_count(s@.take(i as int)) + 1),
        decreases n - i,
    {
        let ghost p = s@.take(i as int);
        let ghost p1 = s@.take(i as int + 1);
        proof {
            assert(p1.drop_last() =~= p);
            assert(p1.last() == s@[i as int]);
        }
        let c = s.get_char(i);
        if c == '\n' {
            proof {
                lemma_cap_add(line_break_count(p) + 1, 1);
            }
            r = add_sat(r, 1);
        }
        i = i + 1;
    }
    proof {
        assert(s@.take(n as int) =~= s@);
    }
    r
}

/// Splits a text into its physical rows.
pub fn split_text(s: &str) -> (parts: Vec<String>)
    ensures
        parts@.len() == split_rows(s@).len(),
        forall|i: int| 0 <= i < parts@.len() ==> (#[trigger] parts@[i])@ == split_rows(s@)[i],
{
    let n = s.unicode_len();
    let mut done: Vec<String> = Vec::new();
    let mut cur: Vec<char> = Vec::new();
    let mut i: usize = 0;
    proof {
        assert(s@.take(0) =~= Seq::<char>::empty());
    }
    while i < n
        invariant
            i <= n,
            n == s@.len(),
            split_rows(s@.take(i as int)).len() >= 1,
            done@.len() == split_rows(s@.take(i as int)).len() - 1,
            forall|j: int|
                0 <= j < done@.len() ==> (#[trigger] done@[j])@ == split_rows(s@.take(i as int))[j],
            cur@ == split_rows(s@.take(i as int)).last(),
        decreases n - i,
    {
        let ghost p = s@.take(i as int);
        let ghost p1 = s@.take(i as int + 1);
        proof {
            assert(p1.drop_last() =~= p);
            assert(p1.last() == s@[i as int]);
            lemma_split_rows_count(p1);
        }
        let c = s.get_char(i);
        if c == '\n' {
            let part = chars_to_string(&cur);
            done.push(part);
            cur = Vec::new();
            proof {
                let rows = split_rows(p);
                let rows1 = split_rows(p1);
                assert(rows1 == rows.push(Seq::<char>::empty()));
                assert forall|j: int| 0 <= j < done@.len() implies (#[trigger] done@[j])@ == rows1[j] by {
                    if j < done@.len() - 1 {
                        assert(done@[j]@ == rows[j]);
                    } else {
                        assert(done@[j]@ == rows.last());
                    }
                }
            }
        } else {
            cur.push(c);
            proof {
                let rows = split_rows(p);
                let rows1 = split_rows(p1);
                assert(rows1 == rows.update(rows.len() - 1, rows.last().push(s@[i as int])));
                assert(rows1.last() == rows.last().push(s@[i as int]));
                assert forall|j: int| 0 <= j < done@.len() implies (#[trigger] done@[j])@ == rows1[j] by {
                    assert(rows1[j] == rows[j]);
                }
            }
        }
        i = i + 1;
    }
    let part = chars_to_string(&cur);
    done.push(part);
    proof {
        assert(s@.take(n as int) =~= s@);
    }
    done
}

} // verus!
