//! The sanity check run on a loaded layout: windows without area or name,
//! and windows too small to be of use.

use vstd::prelude::*;
use crate::config::layout::{base_of, BaseView, Layout, WindowView};

verus! {

/// What the check found wrong with a window.
#[derive(Debug, Clone, Copy, PartialEq, Eq, Structural)]
pub enum IssueKind {
    /// No rows: an error.
    ZeroHeight,
    /// No columns: an error.
    ZeroWidth,
    /// The window has no name: an error.
    EmptyName,
    /// A single row of fewer than ten columns: a warning.
    VerySmall,
}

/// One finding of the check, with the window it concerns.
#[derive(Debug, Clone, PartialEq)]
pub struct LayoutIssue {
    pub kind: IssueKind,
    pub window: String,
    pub cols: u16,
    pub rows: u16,
}

/// A finding with the window's name taken by its view.
pub struct IssueView {
    pub kind: IssueKind,
    pub window: Seq<char>,
    pub cols: u16,
    pub rows: u16,
}

impl View for LayoutIssue {
    type V = IssueView;

    open spec fn view(&self) -> IssueView {
        IssueView { kind: self.kind, window: self.window@, cols: self.cols, rows: self.rows }
    }
}

/// Errors fail the check; warnings do not.
pub open spec fn is_error_kind(k: IssueKind) -> bool {
    k != IssueKind::VerySmall
}

pub open spec fn issue_of(kind: IssueKind, b: BaseView) -> IssueView {
    IssueView { kind, window: b.name, cols: b.cols, rows: b.rows }
}

pub open spec fn issue_if(cond: bool, kind: IssueKind, b: BaseView) -> Seq<IssueView> {
    if cond {
        seq![issue_of(kind, b)]
    } else {
        Seq::empty()
    }
}

/// The findings for one window, in the order the check reports them.
pub open spec fn window_issues(b: BaseView) -> Seq<IssueView> {
    issue_if(b.rows == 0, IssueKind::ZeroHeight, b) + issue_if(b.cols == 0, IssueKind::ZeroWidth, b)
        + issue_if(b.name.len() == 0, IssueKind::EmptyName, b) + issue_if(
        b.rows == 1 && b.cols < 10,
        IssueKind::VerySmall,
        b,
    )
}

/// The findings for all windows, window by window.
pub open spec fn layout_issues(ws: Seq<WindowView>) -> Seq<IssueView>
    decreases ws.len(),
{
    if ws.len() == 0 {
        Seq::empty()
    } else {
        layout_issues(ws.drop_last()) + window_issues(base_of(ws.last()))
    }
}

/// How many findings are errors.
pub open spec fn error_count(s: Seq<IssueView>) -> nat
    decreases s.len(),
{
    if s.len() == 0 {
        0
    } else {
        error_count(s.drop_last()) + if is_error_kind(s.last().kind) {
            1nat
        } else {
            0nat
        }
    }
}

impl LayoutIssue {
    /// Whether this finding fails the check.
    pub fn is_error(&self) -> (r: bool)
        ensures
            r == is_error_kind(self.kind),
    {
        !matches!(self.kind, IssueKind::VerySmall)
    }
}

fn push_issue(out: &mut Vec<LayoutIssue>, kind: IssueKind, name: &String, cols: u16, rows: u16)
    ensures
        final(out)@.len() == old(out)@.len() + 1,
        forall|j: int| 0 <= j < old(out)@.len() ==> final(out)@[j] == old(out)@[j],
        final(out)@[old(out)@.len() as int]@ == (IssueView { kind, window: name@, cols, rows }),
{
    out.push(LayoutIssue { kind, window: name.clone(), cols, rows });
}

proof fn lemma_layout_issues_step(ws: Seq<WindowView>, i: int)
    requires
        0 <= i < ws.len(),
    ensures
        layout_issues(ws.take(i + 1)) == layout_issues(ws.take(i)) + window_issues(base_of(ws[i])),
{
    assert(ws.take(i + 1).drop_last() =~= ws.take(i));
}

impl Layout {
    /// Checks every window: no rows, no columns, no name (errors), and a
    /// single row narrower than ten columns (a warning).
    pub fn validate(&self) -> (r: Vec<LayoutIssue>)
        ensures
            r@.map_values(|x: LayoutIssue| x@) == layout_issues(self@.windows),
    {
        let mut out: Vec<LayoutIssue> = Vec::new();
        let mut i: usize = 0;
        while i < self.windows.len()
            invariant
                i <= self.windows@.len(),
                self@.windows.len() == self.windows@.len(),
                out@.map_values(|x: LayoutIssue| x@) == layout_issues(self@.windows.take(i as int)),
            decreases self.windows@.len() - i,
        {
            let b = self.windows[i].base();
            let ghost before = out@.map_values(|x: LayoutIssue| x@);
            let ghost bv = base_of(self@.windows[i as int]);
            assert(b@ == bv);
            if b.rows == 0 {
                push_issue(&mut out, IssueKind::ZeroHeight, &b.name, b.cols, b.rows);
            }
            let ghost s1 = out@.map_values(|x: LayoutIssue| x@);
            assert(s1 =~= before + issue_if(bv.rows == 0, IssueKind::ZeroHeight, bv));
            if b.cols == 0 {
                push_issue(&mut out, IssueKind::ZeroWidth, &b.name, b.cols, b.rows);
            }
            let ghost s2 = out@.map_values(|x: LayoutIssue| x@);
            assert(s2 =~= s1 + issue_if(bv.cols == 0, IssueKind::ZeroWidth, bv));
            if b.name.as_str().is_empty() {
                push_issue(&mut out, IssueKind::EmptyName, &b.name, b.cols, b.rows);
            }
            let ghost s3 = out@.map_values(|x: LayoutIssue| x@);
            assert(s3 =~= s2 + issue_if(bv.name.len() == 0, IssueKind::EmptyName, bv));
            if b.rows == 1 && b.cols < 10 {
                push_issue(&mut out, IssueKind::VerySmall, &b.name, b.cols, b.rows);
            }
            let ghost s4 = out@.map_values(|x: LayoutIssue| x@);
            assert(s4 =~= s3 + issue_if(bv.rows == 1 && bv.cols < 10, IssueKind::VerySmall, bv));
            proof {
                lemma_layout_issues_step(self@.windows, i as int);
                assert(s4 =~= before + window_issues(bv));
            }
            i = i + 1;
        }
        proof {
            assert(self@.windows.take(i as int) =~= self@.windows);
        }
        out
    }
}

/// How many of `issues` are errors; the check fails when this is not zero.
pub fn count_errors(issues: &Vec<LayoutIssue>) -> (r: usize)
    ensures
        r == error_count(issues@.map_values(|x: LayoutIssue| x@)),
{
    let ghost v = issues@.map_values(|x: LayoutIssue| x@);
    let mut n: usize = 0;
    let mut i: usize = 0;
    while i < issues.len()
        invariant
            i <= issues@.len(),
            v == issues@.map_values(|x: LayoutIssue| x@),
            n == error_count(v.take(i as int)),
            n <= i,
        decreases issues@.len() - i,
    {
        proof {
            assert(v.take(i + 1).drop_last() =~= v.take(i as int));
        }
        if issues[i].is_error() {
            n = n + 1;
        }
        i = i + 1;
    }
    proof {
        assert(v.take(i as int) =~= v);
    }
    n
}

} // verus!
