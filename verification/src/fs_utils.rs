//! Line-level reconciliation of file contents, used by the `merge`
//! collision strategy.
use vstd::prelude::*;

verus! {

/// One step of a line diff between a base content and a changed
/// content ("theirs").
pub enum LineDiff {
    /// The line stands in both contents.
    Both(String, String),
    /// The line stands only in the base content.
    Left(String),
    /// The line stands only in the changed content.
    Right(String),
}

pub enum LineDiffView {
    Both(Seq<char>, Seq<char>),
    Left(Seq<char>),
    Right(Seq<char>),
}

impl View for LineDiff {
    type V = LineDiffView;

    open spec fn view(&self) -> LineDiffView {
        match self {
            LineDiff::Both(a, b) => LineDiffView::Both(a@, b@),
            LineDiff::Left(a) => LineDiffView::Left(a@),
            LineDiff::Right(b) => LineDiffView::Right(b@),
        }
    }
}

impl DeepView for LineDiff {
    type V = LineDiffView;

    open spec fn deep_view(&self) -> LineDiffView {
        self@
    }
}

/// The base content a diff describes: its `Left` lines and the first
/// component of its `Both` lines, in order.
pub open spec fn spec_diff_left(d: Seq<LineDiffView>) -> Seq<Seq<char>>
    decreases d.len(),
{
    if d.len() == 0 {
        Seq::empty()
    } else {
        let rest = spec_diff_left(d.drop_last());
        match d.last() {
            LineDiffView::Both(a, _) => rest.push(a),
            LineDiffView::Left(a) => rest.push(a),
            LineDiffView::Right(_) => rest,
        }
    }
}

/// The changed content a diff describes: its `Right` lines and the
/// second component of its `Both` lines, in order.
pub open spec fn spec_diff_right(d: Seq<LineDiffView>) -> Seq<Seq<char>>
    decreases d.len(),
{
    if d.len() == 0 {
        Seq::empty()
    } else {
        let rest = spec_diff_right(d.drop_last());
        match d.last() {
            LineDiffView::Both(_, b) => rest.push(b),
            LineDiffView::Left(_) => rest,
            LineDiffView::Right(b) => rest.push(b),
        }
    }
}

/// Every `Both` step of the diff pairs two equal lines.
pub open spec fn spec_both_agree(d: Seq<LineDiffView>) -> bool {
    forall|i: int| 0 <= i < d.len() ==> (match #[trigger] d[i] {
        LineDiffView::Both(a, b) => a == b,
        LineDiffView::Left(_) => true,
        LineDiffView::Right(_) => true,
    })
}

/// Relies on `diff::slice`: the longest-common-subsequence line diff
/// of the two inputs.  Reading the `Left` and `Both` steps in order
/// reproduces the first input, reading the `Right` and `Both` steps
/// reproduces the second, and each `Both` step pairs two lines that
/// compared equal.
#[verifier::external_body]
fn diff_lines(base: &Vec<String>, theirs: &Vec<String>) -> (r: Vec<LineDiff>)
    ensures
        spec_diff_left(r.deep_view()) == base.deep_view(),
        spec_diff_right(r.deep_view()) == theirs.deep_view(),
        spec_both_agree(r.deep_view()),
{
    diff::slice(base.as_slice(), theirs.as_slice())
        .into_iter()
        .map(|step| match step {
            diff::Result::Left(l) => LineDiff::Left(l.clone()),
            diff::Result::Both(l, t) => LineDiff::Both(l.clone(), t.clone()),
            diff::Result::Right(t) => LineDiff::Right(t.clone()),
        })
        .collect()
}

/// The merged content: walk the diff steps, keeping a cursor into the
/// locally edited content ("ours").  A `Both` step emits the common
/// line and advances the cursor; a `Left` step (a line only the base
/// had) emits the local line under the cursor instead, if any; a
/// `Right` step emits the incoming line.  The local lines after the
/// cursor are appended at the end.
pub open spec fn spec_merge_rec(d: Seq<LineDiffView>, ours: Seq<Seq<char>>, c: int) -> Seq<
    Seq<char>,
>
    decreases d.len(),
{
    if d.len() == 0 {
        if 0 <= c <= ours.len() {
            ours.skip(c)
        } else {
            Seq::empty()
        }
    } else {
        match d.first() {
            LineDiffView::Both(_, line) => seq![line] + spec_merge_rec(
                d.drop_first(),
                ours,
                if c + 1 <= ours.len() {
                    c + 1
                } else {
                    c
                },
            ),
            LineDiffView::Left(_) => if c < ours.len() {
                seq![ours[c]] + spec_merge_rec(d.drop_first(), ours, c + 1)
            } else {
                spec_merge_rec(d.drop_first(), ours, c)
            },
            LineDiffView::Right(line) => seq![line] + spec_merge_rec(d.drop_first(), ours, c),
        }
    }
}

/// The merged content for a whole diff.
pub open spec fn spec_merge_lines(d: Seq<LineDiffView>, ours: Seq<Seq<char>>) -> Seq<Seq<char>> {
    spec_merge_rec(d, ours, 0)
}

/// Apply a line diff between a base content and an incoming content to
/// the locally edited lines `ours`.
#[verifier::loop_isolation(false)]
pub fn merge_lines(diffs: &Vec<LineDiff>, ours: &Vec<String>) -> (r: Vec<String>)
    ensures
        r.deep_view() == spec_merge_lines(diffs.deep_view(), ours.deep_view()),
{
    let ghost dv = diffs.deep_view();
    let ghost ov = ours.deep_view();
    let mut merged: Vec<String> = Vec::new();
    let mut cursor: usize = 0;
    let mut i: usize = 0;
    proof {
        assert(dv.skip(0) =~= dv);
        assert(merged.deep_view() =~= Seq::<Seq<char>>::empty());
        assert(merged.deep_view() + spec_merge_rec(dv.skip(0), ov, 0) =~= spec_merge_lines(
            dv,
            ov,
        ));
    }
    while i < diffs.len()
        invariant
            i <= diffs@.len(),
            cursor <= ours@.len(),
            merged.deep_view() + spec_merge_rec(dv.skip(i as int), ov, cursor as int)
                == spec_merge_lines(dv, ov),
        decreases diffs@.len() - i,
    {
        let ghost old_merged = merged.deep_view();
        let ghost rest = dv.skip(i as int);
        let ghost c0 = cursor as int;
        proof {
            assert(rest.first() == dv[i as int]);
            assert(rest.drop_first() =~= dv.skip(i + 1));
        }
        match &diffs[i] {
            LineDiff::Both(_, line) => {
                merged.push(line.clone());
                if cursor < ours.len() {
                    cursor = cursor + 1;
                }
                proof {
                    let bline = (match dv[i as int] {
                        LineDiffView::Both(_, l) => l,
                        LineDiffView::Left(l) => l,
                        LineDiffView::Right(l) => l,
                    });
                    assert(merged.deep_view() =~= old_merged.push(bline));
                    let cprime: int = if c0 + 1 <= ov.len() {
                        c0 + 1
                    } else {
                        c0
                    };
                    assert(cursor as int == cprime);
                    assert(spec_merge_rec(rest, ov, c0) == seq![bline] + spec_merge_rec(
                        rest.drop_first(),
                        ov,
                        cprime,
                    ));
                    assert(old_merged + spec_merge_rec(rest, ov, c0) =~= merged.deep_view()
                        + spec_merge_rec(dv.skip(i + 1), ov, cprime));
                }
            },
            LineDiff::Left(_) => {
                if cursor < ours.len() {
                    merged.push(ours[cursor].clone());
                    cursor = cursor + 1;
                    proof {
                        assert(merged.deep_view() =~= old_merged.push(ov[c0]));
                        assert(spec_merge_rec(rest, ov, c0) == seq![ov[c0]] + spec_merge_rec(
                            rest.drop_first(),
                            ov,
                            c0 + 1,
                        ));
                        assert(old_merged + spec_merge_rec(rest, ov, c0) =~= merged.deep_view()
                            + spec_merge_rec(dv.skip(i + 1), ov, c0 + 1));
                    }
                } else {
                    proof {
                        assert(spec_merge_rec(rest, ov, c0) == spec_merge_rec(
                            rest.drop_first(),
                            ov,
                            c0,
                        ));
                    }
                }
            },
            LineDiff::Right(line) => {
                merged.push(line.clone());
                proof {
                    let bline = (match dv[i as int] {
                        LineDiffView::Both(_, l) => l,
                        LineDiffView::Left(l) => l,
                        LineDiffView::Right(l) => l,
                    });
                    assert(merged.deep_view() =~= old_merged.push(bline));
                    assert(spec_merge_rec(rest, ov, c0) == seq![bline] + spec_merge_rec(
                        rest.drop_first(),
                        ov,
                        c0,
                    ));
                    assert(old_merged + spec_merge_rec(rest, ov, c0) =~= merged.deep_view()
                        + spec_merge_rec(dv.skip(i + 1), ov, c0));
                }
            },
        }
        i = i + 1;
    }
    proof {
        assert(dv.skip(diffs@.len() as int) =~= Seq::<LineDiffView>::empty());
    }
    let mut tail = cursor;
    while tail < ours.len()
        invariant
            cursor <= tail <= ours@.len(),
            merged.deep_view() + ov.skip(tail as int) == spec_merge_lines(dv, ov),
        decreases ours@.len() - tail,
    {
        let ghost old_merged = merged.deep_view();
        merged.push(ours[tail].clone());
        proof {
            assert(merged.deep_view() =~= old_merged.push(ov[tail as int]));
            assert(ov.skip(tail as int).first() == ov[tail as int]);
            assert(ov.skip(tail as int).drop_first() =~= ov.skip(tail + 1));
            assert(old_merged + ov.skip(tail as int) =~= merged.deep_view() + ov.skip(tail + 1));
        }
        tail = tail + 1;
    }
    proof {
        assert(ov.skip(ours@.len() as int) =~= Seq::<Seq<char>>::empty());
        assert(merged.deep_view() + Seq::<Seq<char>>::empty() =~= merged.deep_view());
    }
    merged
}

/// Reconcile three file contents line by line: the lines of the
/// incoming content and the local edits to the base are combined, the
/// diff between `base` and `theirs` deciding where each local line
/// lands.
pub fn merge_file_contents(base: &Vec<String>, theirs: &Vec<String>, ours: &Vec<String>) -> (r:
    Vec<String>)
    ensures
        exists|d: Seq<LineDiffView>|
            {
                &&& spec_diff_left(d) == base.deep_view()
                &&& spec_diff_right(d) == theirs.deep_view()
                &&& spec_both_agree(d)
                &&& #[trigger] spec_merge_lines(d, ours.deep_view()) == r.deep_view()
            },
{
    let diffs = diff_lines(base, theirs);
    let merged = merge_lines(&diffs, ours);
    proof {
        let d = diffs.deep_view();
        assert(spec_merge_lines(d, ours.deep_view()) == merged.deep_view());
    }
    merged
}

} // verus!
