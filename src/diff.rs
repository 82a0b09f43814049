//! The longest-common-subsequence table behind a line diff.
use vstd::prelude::*;
use crate::grid::Grid;

verus! {

/// The texts of a sequence of lines.
pub open spec fn texts(v: Seq<String>) -> Seq<Seq<char>> {
    v.map_values(|s: String| s@)
}

/// Length of a longest common subsequence of `a[..i]` and `b[..j]`.
pub open spec fn lcs_len(a: Seq<Seq<char>>, b: Seq<Seq<char>>, i: int, j: int) -> int
    decreases i, j,
{
    if i <= 0 || j <= 0 {
        0
    } else if a[i - 1] == b[j - 1] {
        lcs_len(a, b, i - 1, j - 1) + 1
    } else {
        let up = lcs_len(a, b, i - 1, j);
        let left = lcs_len(a, b, i, j - 1);
        if up >= left {
            up
        } else {
            left
        }
    }
}

proof fn lemma_lcs_len_bounds(a: Seq<Seq<char>>, b: Seq<Seq<char>>, i: int, j: int)
    requires
        0 <= i,
        0 <= j,
    ensures
        0 <= lcs_len(a, b, i, j) <= i,
    decreases i, j,
{
    if i > 0 && j > 0 {
        lemma_lcs_len_bounds(a, b, i - 1, j - 1);
        lemma_lcs_len_bounds(a, b, i - 1, j);
        lemma_lcs_len_bounds(a, b, i, j - 1);
    }
}

/// The table of longest-common-subsequence lengths of two sequences of
/// lines: the cell in row `i`, column `j` holds the length for
/// `seq1[..i]` and `seq2[..j]`.
pub fn lcs(seq1: &Vec<String>, seq2: &Vec<String>) -> (r: Grid)
    requires
        (seq1@.len() + 1) * (seq2@.len() + 1) <= usize::MAX,
    ensures
        r.wf(),
        r.rows() == seq1@.len() + 1,
        r.cols() == seq2@.len() + 1,
        forall|i: int, j: int|
            0 <= i <= seq1@.len() && 0 <= j <= seq2@.len() ==> r.cell(i, j) == lcs_len(
                texts(seq1@),
                texts(seq2@),
                i,
                j,
            ),
{
    let len1 = seq1.len();
    let len2 = seq2.len();
    let ghost a = texts(seq1@);
    let ghost b = texts(seq2@);
    assert(len1 + 1 <= (len1 + 1) * (len2 + 1) && len2 + 1 <= (len1 + 1) * (len2 + 1)) by (nonlinear_arith);
    let mut dp = Grid::new(len1 + 1, len2 + 1);
    let mut i: usize = 0;
    while i < len1
        invariant
            len1 == seq1@.len(),
            len2 == seq2@.len(),
            a == texts(seq1@),
            b == texts(seq2@),
            i <= len1,
            dp.wf(),
            dp.rows() == len1 + 1,
            dp.cols() == len2 + 1,
            forall|k: int, l: int| 0 <= k <= i && 0 <= l <= len2 ==> dp.cell(k, l) == lcs_len(a, b, k, l),
            forall|k: int| 0 <= k <= len1 ==> dp.cell(k, 0) == 0,
        decreases len1 - i,
    {
        let mut j: usize = 0;
        while j < len2
            invariant
                len1 == seq1@.len(),
                len2 == seq2@.len(),
                a == texts(seq1@),
                b == texts(seq2@),
                i < len1,
                j <= len2,
                dp.wf(),
                dp.rows() == len1 + 1,
                dp.cols() == len2 + 1,
                forall|k: int, l: int| 0 <= k <= i && 0 <= l <= len2 ==> dp.cell(k, l) == lcs_len(a, b, k, l),
                forall|l: int| 0 <= l <= j ==> #[trigger] dp.cell(i + 1, l) == lcs_len(a, b, i + 1, l),
                forall|k: int| 0 <= k <= len1 ==> dp.cell(k, 0) == 0,
            decreases len2 - j,
        {
            proof {
                lemma_lcs_len_bounds(a, b, i as int, j as int);
                assert(a[i as int] == seq1@[i as int]@);
                assert(b[j as int] == seq2@[j as int]@);
            }
            let v: usize;
            if seq1[i] == seq2[j] {
                v = dp.get(i, j).unwrap() + 1;
            } else {
                let up = dp.get(i, j + 1).unwrap();
                let left = dp.get(i + 1, j).unwrap();
                v = if up >= left { up } else { left };
            }
            let _ = dp.set(i + 1, j + 1, v);
            j = j + 1;
        }
        i = i + 1;
    }
    dp
}

/// One line of a diff.
#[derive(Clone, Copy, Debug, PartialEq, Eq)]
pub enum DiffLine {
    /// Line `i` of the first text and line `j` of the second, which are
    /// the same.
    Same(usize, usize),
    /// Line `j` of the second text, absent from the first.
    Added(usize),
    /// Line `i` of the first text, absent from the second.
    Removed(usize),
}

/// The diff of `a[..i]` and `b[..j]` read back from the table `t`: a line
/// both share where the last lines agree, else an added line of `b` where
/// dropping it keeps at least as long a common subsequence, else a removed
/// line of `a`.
pub open spec fn diff_of(t: Grid, a: Seq<Seq<char>>, b: Seq<Seq<char>>, i: int, j: int) -> Seq<DiffLine>
    decreases i + j,
{
    if i < 0 || j < 0 {
        seq![]
    } else if i > 0 && j > 0 && a[i - 1] == b[j - 1] {
        diff_of(t, a, b, i - 1, j - 1).push(DiffLine::Same((i - 1) as usize, (j - 1) as usize))
    } else if j > 0 && (i == 0 || t.cell(i, j - 1) >= t.cell(i - 1, j)) {
        diff_of(t, a, b, i, j - 1).push(DiffLine::Added((j - 1) as usize))
    } else if i > 0 && (j == 0 || t.cell(i - 1, j) >= t.cell(i, j - 1)) {
        diff_of(t, a, b, i - 1, j).push(DiffLine::Removed((i - 1) as usize))
    } else {
        seq![]
    }
}

/// The lines of the first text that `d` keeps, by index, in order: what is
/// left once the added lines are dropped.
pub open spec fn first_side(d: Seq<DiffLine>) -> Seq<usize>
    decreases d.len(),
{
    if d.len() == 0 {
        seq![]
    } else {
        let rest = first_side(d.drop_last());
        match d.last() {
            DiffLine::Same(x, _) => rest.push(x),
            DiffLine::Removed(x) => rest.push(x),
            DiffLine::Added(_) => rest,
        }
    }
}

/// The lines of the second text that `d` keeps, by index, in order: what
/// is left once the removed lines are dropped.
pub open spec fn second_side(d: Seq<DiffLine>) -> Seq<usize>
    decreases d.len(),
{
    if d.len() == 0 {
        seq![]
    } else {
        let rest = second_side(d.drop_last());
        match d.last() {
            DiffLine::Same(_, y) => rest.push(y),
            DiffLine::Added(y) => rest.push(y),
            DiffLine::Removed(_) => rest,
        }
    }
}

/// The number of shared lines in `d`.
pub open spec fn shared_count(d: Seq<DiffLine>) -> int
    decreases d.len(),
{
    if d.len() == 0 {
        0
    } else {
        shared_count(d.drop_last()) + if d.last() is Same {
            1int
        } else {
            0
        }
    }
}

/// The indices `0..n`, in order.
pub open spec fn upto(n: int) -> Seq<usize> {
    Seq::new(n as nat, |k: int| k as usize)
}

/// `t` holds the longest-common-subsequence lengths of `a` and `b` up to
/// row `i` and column `j`.
pub open spec fn is_lcs_table(t: Grid, a: Seq<Seq<char>>, b: Seq<Seq<char>>, i: int, j: int) -> bool {
    forall|k: int, l: int| 0 <= k <= i && 0 <= l <= j ==> t.cell(k, l) == lcs_len(a, b, k, l)
}

proof fn lemma_sides_push(d: Seq<DiffLine>, x: DiffLine)
    ensures
        d.push(x).drop_last() == d,
        d.push(x).last() == x,
{
    assert(d.push(x).drop_last() =~= d);
}

/// Dropping the added lines of a diff gives back the first text, and
/// dropping the removed lines gives back the second; every shared line is
/// the same line in both texts.
pub proof fn lemma_diff_gives_back_both(t: Grid, a: Seq<Seq<char>>, b: Seq<Seq<char>>, i: int, j: int)
    requires
        0 <= i <= a.len(),
        0 <= j <= b.len(),
        i <= usize::MAX,
        j <= usize::MAX,
    ensures
        first_side(diff_of(t, a, b, i, j)) =~= upto(i),
        second_side(diff_of(t, a, b, i, j)) =~= upto(j),
        forall|k: int| 0 <= k < diff_of(t, a, b, i, j).len() ==> (#[trigger] diff_of(t, a, b, i, j)[k] matches DiffLine::Same(x, y) ==> x < i && y < j && a[x as int] == b[y as int]),
    decreases i + j,
{
    let d = diff_of(t, a, b, i, j);
    if i > 0 && j > 0 && a[i - 1] == b[j - 1] {
        let p = diff_of(t, a, b, i - 1, j - 1);
        lemma_diff_gives_back_both(t, a, b, i - 1, j - 1);
        lemma_sides_push(p, DiffLine::Same((i - 1) as usize, (j - 1) as usize));
        assert forall|k: int| 0 <= k < d.len() implies (#[trigger] d[k] matches DiffLine::Same(x, y) ==> x < i && y < j && a[x as int] == b[y as int]) by {
            if k < p.len() {
                assert(d[k] == p[k]);
            } else {
                assert(d[k] == d.last());
            }
        }
    } else if j > 0 && (i == 0 || t.cell(i, j - 1) >= t.cell(i - 1, j)) {
        let p = diff_of(t, a, b, i, j - 1);
        lemma_diff_gives_back_both(t, a, b, i, j - 1);
        lemma_sides_push(p, DiffLine::Added((j - 1) as usize));
        assert forall|k: int| 0 <= k < d.len() implies (#[trigger] d[k] matches DiffLine::Same(x, y) ==> x < i && y < j && a[x as int] == b[y as int]) by {
            if k < p.len() {
                assert(d[k] == p[k]);
            } else {
                assert(d[k] == d.last());
            }
        }
    } else if i > 0 && (j == 0 || t.cell(i - 1, j) >= t.cell(i, j - 1)) {
        let p = diff_of(t, a, b, i - 1, j);
        lemma_diff_gives_back_both(t, a, b, i - 1, j);
        lemma_sides_push(p, DiffLine::Removed((i - 1) as usize));
        assert forall|k: int| 0 <= k < d.len() implies (#[trigger] d[k] matches DiffLine::Same(x, y) ==> x < i && y < j && a[x as int] == b[y as int]) by {
            if k < p.len() {
                assert(d[k] == p[k]);
            } else {
                assert(d[k] == d.last());
            }
        }
    } else {
        assert(i == 0 && j == 0);
    }
}

/// Read back from a longest-common-subsequence table, a diff shares as many
/// lines as the table says the texts have in common.
pub proof fn lemma_diff_shares_lcs(t: Grid, a: Seq<Seq<char>>, b: Seq<Seq<char>>, i: int, j: int)
    requires
        0 <= i,
        0 <= j,
        is_lcs_table(t, a, b, i, j),
    ensures
        shared_count(diff_of(t, a, b, i, j)) == lcs_len(a, b, i, j),
    decreases i + j,
{
    if i > 0 && j > 0 && a[i - 1] == b[j - 1] {
        let p = diff_of(t, a, b, i - 1, j - 1);
        lemma_diff_shares_lcs(t, a, b, i - 1, j - 1);
        lemma_sides_push(p, DiffLine::Same((i - 1) as usize, (j - 1) as usize));
    } else if j > 0 && (i == 0 || t.cell(i, j - 1) >= t.cell(i - 1, j)) {
        let p = diff_of(t, a, b, i, j - 1);
        lemma_diff_shares_lcs(t, a, b, i, j - 1);
        lemma_sides_push(p, DiffLine::Added((j - 1) as usize));
        assert(t.cell(i, j) == lcs_len(a, b, i, j));
    } else if i > 0 && (j == 0 || t.cell(i - 1, j) >= t.cell(i, j - 1)) {
        let p = diff_of(t, a, b, i - 1, j);
        lemma_diff_shares_lcs(t, a, b, i - 1, j);
        lemma_sides_push(p, DiffLine::Removed((i - 1) as usize));
    }
}

/// The diff of `lines1[..i]` and `lines2[..j]`, in order, from their
/// longest-common-subsequence table.
pub fn diff_lines(lcs_table: &Grid, lines1: &Vec<String>, lines2: &Vec<String>, i: usize, j: usize) -> (r: Vec<DiffLine>)
    requires
        lcs_table.wf(),
        lcs_table.rows() == lines1@.len() + 1,
        lcs_table.cols() == lines2@.len() + 1,
        i <= lines1@.len(),
        j <= lines2@.len(),
    ensures
        r@ == diff_of(*lcs_table, texts(lines1@), texts(lines2@), i as int, j as int),
        first_side(r@) == upto(i as int),
        second_side(r@) == upto(j as int),
        forall|k: int| 0 <= k < r@.len() ==> (#[trigger] r@[k] matches DiffLine::Same(x, y) ==> lines1@[x as int]@ == lines2@[y as int]@),
        is_lcs_table(*lcs_table, texts(lines1@), texts(lines2@), i as int, j as int) ==> shared_count(r@)
            == lcs_len(texts(lines1@), texts(lines2@), i as int, j as int),
{
    let mut out: Vec<DiffLine> = Vec::new();
    diff_into(lcs_table, lines1, lines2, i, j, &mut out);
    proof {
        let a = texts(lines1@);
        let b = texts(lines2@);
        lemma_diff_gives_back_both(*lcs_table, a, b, i as int, j as int);
        if is_lcs_table(*lcs_table, a, b, i as int, j as int) {
            lemma_diff_shares_lcs(*lcs_table, a, b, i as int, j as int);
        }
        assert(out@ =~= diff_of(*lcs_table, a, b, i as int, j as int));
        assert forall|k: int| 0 <= k < out@.len() implies (#[trigger] out@[k] matches DiffLine::Same(x, y) ==> lines1@[x as int]@ == lines2@[y as int]@) by {
            match out@[k] {
                DiffLine::Same(x, y) => {
                    assert(a[x as int] == b[y as int]);
                    assert(a[x as int] == lines1@[x as int]@);
                    assert(b[y as int] == lines2@[y as int]@);
                },
                _ => {},
            }
        }
    }
    assert(out@ =~= diff_of(*lcs_table, texts(lines1@), texts(lines2@), i as int, j as int));
    out
}

fn diff_into(
    t: &Grid,
    lines1: &Vec<String>,
    lines2: &Vec<String>,
    i: usize,
    j: usize,
    out: &mut Vec<DiffLine>,
)
    requires
        t.wf(),
        t.rows() == lines1@.len() + 1,
        t.cols() == lines2@.len() + 1,
        i <= lines1@.len(),
        j <= lines2@.len(),
    ensures
        final(out)@ == old(out)@ + diff_of(*t, texts(lines1@), texts(lines2@), i as int, j as int),
    decreases i + j,
{
    let ghost a = texts(lines1@);
    let ghost b = texts(lines2@);
    if i > 0 && j > 0 {
        assert(a[i - 1] == lines1@[i - 1]@);
        assert(b[j - 1] == lines2@[j - 1]@);
    }
    if i > 0 && j > 0 && lines1[i - 1] == lines2[j - 1] {
        diff_into(t, lines1, lines2, i - 1, j - 1, out);
        out.push(DiffLine::Same(i - 1, j - 1));
    } else if j > 0 && (i == 0 || t.get(i, j - 1).unwrap() >= t.get(i - 1, j).unwrap()) {
        diff_into(t, lines1, lines2, i, j - 1, out);
        out.push(DiffLine::Added(j - 1));
    } else if i > 0 && (j == 0 || t.get(i - 1, j).unwrap() >= t.get(i, j - 1).unwrap()) {
        diff_into(t, lines1, lines2, i - 1, j, out);
        out.push(DiffLine::Removed(i - 1));
    }
    assert(out@ =~= old(out)@ + diff_of(*t, a, b, i as int, j as int));
}

} // verus!
