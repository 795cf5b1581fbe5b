//! The structure of vector paths for the Pen tool and the Paths panel.
//!
//! A path is a list of subpaths, each a run of anchor points that may close
//! back on itself, plus which subpath the Pen tool is extending. The document
//! keeps its paths as named entries with one of them active. Everything here
//! is about that structure: which points exist, in which order, and which
//! handles they carry. Where a point sits is the caller's business, so the
//! coordinates are a type parameter that nothing here measures or moves.

use vstd::prelude::*;
use vstd::string::StringExecFns;

use crate::chars::{lemma_numbered_injective, numbered, push_decimal};

verus! {

/// Which of a point's two handles.
#[derive(Clone, Copy, PartialEq, Eq, Debug, Structural)]
pub enum HandleSide {
    In,
    Out,
}

/// One anchor point on a subpath.
#[derive(Clone, Copy, Debug)]
pub struct PathPoint<P> {
    pub anchor: P,
    /// The handle curving the segment arriving at this point.
    pub in_handle: Option<P>,
    /// The handle curving the segment leaving this point.
    pub out_handle: Option<P>,
    /// Whether the two handles are kept collinear through the anchor when
    /// either is dragged. A point can hold handles and still not be smooth:
    /// that is what an Alt-dragged handle leaves behind.
    pub smooth: bool,
}

/// A plain corner at `anchor`: no handles, not smooth.
pub open spec fn corner_of<P>(anchor: P) -> PathPoint<P> {
    PathPoint { anchor, in_handle: None, out_handle: None, smooth: false }
}

/// `p` with both handles stripped, a plain corner where it stands.
pub open spec fn cornered<P>(p: PathPoint<P>) -> PathPoint<P> {
    PathPoint { anchor: p.anchor, in_handle: None, out_handle: None, smooth: false }
}

/// One contiguous run of anchors: what is drawn as a single outline before the
/// pen lifts and starts elsewhere, or closes back to the start.
pub struct Subpath<P> {
    pub points: Vec<PathPoint<P>>,
    /// Whether the last point connects back to the first.
    pub closed: bool,
}

/// [`Subpath`] as a sequence of points.
pub struct SubpathView<P> {
    pub points: Seq<PathPoint<P>>,
    pub closed: bool,
}

impl<P> View for Subpath<P> {
    type V = SubpathView<P>;

    open spec fn view(&self) -> SubpathView<P> {
        SubpathView { points: self.points@, closed: self.closed }
    }
}

/// How many segments `n` points make: one fewer than the points if open, one
/// per point (the last wrapping to the first) if closed, and none below two.
pub open spec fn segment_count_of(n: nat, closed: bool) -> nat {
    if n < 2 {
        0
    } else if closed {
        n
    } else {
        (n - 1) as nat
    }
}

/// The four control points of segment `i`: the two anchors and the handles
/// between them, a missing handle standing at its own anchor, so that the
/// segment is a straight line exactly where the path has no curve.
pub open spec fn segment_of<P>(s: SubpathView<P>, i: int) -> Option<Seq<P>> {
    if 0 <= i < segment_count_of(s.points.len(), s.closed) {
        let a = s.points[i];
        let b = s.points[(i + 1) % (s.points.len() as int)];
        Some(
            seq![
                a.anchor,
                a.out_handle.unwrap_or(a.anchor),
                b.in_handle.unwrap_or(b.anchor),
                b.anchor,
            ],
        )
    } else {
        None
    }
}

impl<P: Copy> Subpath<P> {
    /// An empty, open subpath.
    pub fn new() -> (s: Subpath<P>)
        ensures
            s@.points.len() == 0,
            !s.closed,
    {
        Subpath { points: Vec::new(), closed: false }
    }

    /// The number of drawable segments.
    pub fn segment_count(&self) -> (n: usize)
        ensures
            n == segment_count_of(self@.points.len(), self.closed),
    {
        if self.points.len() < 2 {
            0
        } else if self.closed {
            self.points.len()
        } else {
            self.points.len() - 1
        }
    }

    /// The four Bezier control points of segment `i`, if there is one.
    pub fn segment(&self, i: usize) -> (r: Option<[P; 4]>)
        ensures
            match segment_of(self@, i as int) {
                Some(q) => r is Some && r->Some_0@ == q,
                None => r is None,
            },
    {
        if i >= self.segment_count() {
            return None;
        }
        let a = self.points[i];
        let b = self.points[(i + 1) % self.points.len()];
        let q = [a.anchor, a.out_handle.unwrap_or(a.anchor), b.in_handle.unwrap_or(b.anchor), b.anchor];
        assert(q@ =~= segment_of(self@, i as int)->Some_0);
        Some(q)
    }

    /// A copy of the subpath, point for point.
    pub fn copy(&self) -> (c: Subpath<P>)
        ensures
            c@ == self@,
    {
        let mut points: Vec<PathPoint<P>> = Vec::new();
        let mut i: usize = 0;
        while i < self.points.len()
            invariant
                i <= self@.points.len(),
                points@ == self@.points.subrange(0, i as int),
            decreases self@.points.len() - i,
        {
            points.push(self.points[i]);
            i = i + 1;
            assert(points@ =~= self@.points.subrange(0, i as int));
        }
        assert(self@.points.subrange(0, self@.points.len() as int) =~= self@.points);
        Subpath { points, closed: self.closed }
    }
}

/// One path: possibly several disconnected outlines, edited together.
///
/// Which subpath the Pen tool is extending is kept alongside: none between
/// drawing sessions, after closing or finishing, which is what tells
/// [`VectorPath::append_corner`] to start a new subpath rather than resume an
/// old one.
pub struct VectorPath<P> {
    pub subpaths: Vec<Subpath<P>>,
    editing: Option<usize>,
}

/// The subpaths of a path as views.
pub open spec fn shape_of<P>(subpaths: Seq<Subpath<P>>) -> Seq<SubpathView<P>> {
    subpaths.map_values(|s: Subpath<P>| s@)
}

/// The subpaths after a corner at `at` is appended: to the subpath being
/// edited, or to a new one when none is. The shape, what is edited after, and
/// where the new point stands.
pub open spec fn appended<P>(shape: Seq<SubpathView<P>>, editing: Option<usize>, at: P) -> (
    Seq<SubpathView<P>>,
    usize,
    usize,
) {
    match editing {
        Some(e) => (
            shape.update(
                e as int,
                SubpathView { points: shape[e as int].points.push(corner_of(at)), closed: shape[e as int].closed },
            ),
            e,
            shape[e as int].points.len() as usize,
        ),
        None => (
            shape.push(SubpathView { points: seq![corner_of(at)], closed: false }),
            shape.len() as usize,
            0,
        ),
    }
}

/// The subpaths after point `pt` of subpath `sp` is deleted, and the subpath
/// being edited after: a subpath left empty goes too, and the edited one is
/// followed to its new place, or forgotten if it was the one that went.
pub open spec fn deleted<P>(shape: Seq<SubpathView<P>>, editing: Option<usize>, sp: int, pt: int) -> (
    Seq<SubpathView<P>>,
    Option<usize>,
) {
    let left = shape[sp].points.remove(pt);
    if left.len() == 0 {
        (
            shape.remove(sp),
            match editing {
                Some(e) => if e == sp {
                    None
                } else if e > sp {
                    Some((e - 1) as usize)
                } else {
                    Some(e)
                },
                None => None,
            },
        )
    } else {
        (shape.update(sp, SubpathView { points: left, closed: shape[sp].closed }), editing)
    }
}

impl<P: Copy> VectorPath<P> {
    /// The subpaths as views.
    pub closed spec fn shape(&self) -> Seq<SubpathView<P>> {
        shape_of(self.subpaths@)
    }

    /// The subpath being extended, if any.
    pub closed spec fn editing_view(&self) -> Option<usize> {
        self.editing
    }

    /// The subpath being extended, if any, is one of the path's.
    pub open spec fn wf(&self) -> bool {
        match self.editing_view() {
            Some(e) => e < self.shape().len(),
            None => true,
        }
    }

    /// An empty path, with nothing being drawn.
    pub fn new() -> (p: VectorPath<P>)
        ensures
            p.shape().len() == 0,
            p.editing_view() is None,
            p.wf(),
    {
        let p = VectorPath { subpaths: Vec::new(), editing: None };
        assert(p.shape() =~= Seq::<SubpathView<P>>::empty());
        p
    }

    /// Whether no subpath holds a point.
    pub fn is_empty(&self) -> (r: bool)
        ensures
            r == (forall|i: int| 0 <= i < self.shape().len() ==> #[trigger] self.shape()[i].points.len() == 0),
    {
        let mut i: usize = 0;
        while i < self.subpaths.len()
            invariant
                i <= self.subpaths@.len(),
                forall|j: int| 0 <= j < i ==> #[trigger] self.shape()[j].points.len() == 0,
            decreases self.subpaths@.len() - i,
        {
            if self.subpaths[i].points.len() > 0 {
                assert(self.shape()[i as int].points.len() > 0);
                return false;
            }
            i = i + 1;
        }
        true
    }

    // -- drawing with the Pen tool -------------------------------------------

    /// Append a corner anchor at `at`, starting a new subpath if none is being
    /// edited. Returns the new point's `(subpath, point)` index.
    pub fn append_corner(&mut self, at: P) -> (r: (usize, usize))
        requires
            old(self).wf(),
            old(self).shape().len() < usize::MAX,
            forall|i: int| 0 <= i < old(self).shape().len() ==> #[trigger] old(self).shape()[i].points.len() < usize::MAX,
        ensures
            final(self).wf(),
            final(self).shape() == appended(old(self).shape(), old(self).editing_view(), at).0,
            final(self).editing_view() == Some(appended(old(self).shape(), old(self).editing_view(), at).1),
            r == (
                appended(old(self).shape(), old(self).editing_view(), at).1,
                appended(old(self).shape(), old(self).editing_view(), at).2,
            ),
    {
        let ghost before = self.shape();
        let sp = match self.editing {
            Some(i) => i,
            None => {
                self.subpaths.push(Subpath::new());
                let i = self.subpaths.len() - 1;
                self.editing = Some(i);
                i
            },
        };
        let n = self.subpaths[sp].points.len();
        self.subpaths[sp].points.push(PathPoint { anchor: at, in_handle: None, out_handle: None, smooth: false });
        proof {
            let want = appended(before, old(self).editing_view(), at).0;
            assert(self.shape().len() == want.len());
            assert forall|i: int| 0 <= i < want.len() implies #[trigger] self.shape()[i] == want[i] by {
                if i == sp as int {
                    assert(self.shape()[i].points =~= want[i].points);
                }
            }
            assert(self.shape() =~= want);
        }
        (sp, n)
    }

    /// Close the subpath being edited back to its first anchor. Refused with
    /// fewer than two points: closing a single point encloses nothing.
    pub fn close_active_subpath(&mut self) -> (r: bool)
        requires
            old(self).wf(),
        ensures
            final(self).wf(),
            r == (match old(self).editing_view() {
                Some(e) => old(self).shape()[e as int].points.len() >= 2,
                None => false,
            }),
            r ==> final(self).editing_view() is None && final(self).shape() == old(self).shape().update(
                old(self).editing_view()->Some_0 as int,
                SubpathView {
                    points: old(self).shape()[old(self).editing_view()->Some_0 as int].points,
                    closed: true,
                },
            ),
            !r ==> final(self).editing_view() == old(self).editing_view() && final(self).shape()
                == old(self).shape(),
    {
        let sp = match self.editing {
            Some(i) => i,
            None => return false,
        };
        if self.subpaths[sp].points.len() < 2 {
            return false;
        }
        self.subpaths[sp].closed = true;
        self.editing = None;
        assert(self.shape() =~= old(self).shape().update(
            sp as int,
            SubpathView { points: old(self).shape()[sp as int].points, closed: true },
        ));
        true
    }

    /// Stop extending the current subpath without closing it: Enter,
    /// double-click, Escape, or switching tools.
    pub fn finish_editing(&mut self)
        ensures
            final(self).editing_view() is None,
            final(self).shape() == old(self).shape(),
            final(self).wf(),
    {
        self.editing = None;
    }

    pub fn is_editing(&self) -> (r: bool)
        ensures
            r == self.editing_view() is Some,
    {
        self.editing.is_some()
    }

    /// The subpath index the Pen tool would extend next, if any.
    pub fn editing_subpath(&self) -> (r: Option<usize>)
        ensures
            r == self.editing_view(),
    {
        self.editing
    }

    // -- Convert Point and Delete Anchor Point ------------------------------------

    /// Convert Point's click: strip both handles of point `pt` of subpath
    /// `sp`, leaving a plain corner. False when there is no such point.
    pub fn set_corner(&mut self, sp: usize, pt: usize) -> (r: bool)
        ensures
            r == (sp < old(self).shape().len() && pt < old(self).shape()[sp as int].points.len()),
            r ==> final(self).shape() == old(self).shape().update(
                sp as int,
                SubpathView {
                    points: old(self).shape()[sp as int].points.update(
                        pt as int,
                        cornered(old(self).shape()[sp as int].points[pt as int]),
                    ),
                    closed: old(self).shape()[sp as int].closed,
                },
            ),
            !r ==> final(self).shape() == old(self).shape(),
            final(self).editing_view() == old(self).editing_view(),
    {
        if sp >= self.subpaths.len() || pt >= self.subpaths[sp].points.len() {
            return false;
        }
        let p = self.subpaths[sp].points[pt];
        self.subpaths[sp].points.set(
            pt,
            PathPoint { anchor: p.anchor, in_handle: None, out_handle: None, smooth: false },
        );
        proof {
            let want = old(self).shape().update(
                sp as int,
                SubpathView {
                    points: old(self).shape()[sp as int].points.update(
                        pt as int,
                        cornered(old(self).shape()[sp as int].points[pt as int]),
                    ),
                    closed: old(self).shape()[sp as int].closed,
                },
            );
            assert forall|i: int| 0 <= i < want.len() implies #[trigger] self.shape()[i] == want[i] by {
                if i == sp as int {
                    assert(self.shape()[i].points =~= want[i].points);
                }
            }
            assert(self.shape() =~= want);
        }
        true
    }

    /// Remove point `pt` of subpath `sp`. Emptying a subpath removes it
    /// entirely, and the subpath being edited is followed to its new index if
    /// a later one was renumbered out from under it. False when there is no
    /// such point.
    pub fn delete_anchor(&mut self, sp: usize, pt: usize) -> (r: bool)
        requires
            old(self).wf(),
        ensures
            final(self).wf(),
            r == (sp < old(self).shape().len() && pt < old(self).shape()[sp as int].points.len()),
            r ==> (final(self).shape(), final(self).editing_view()) == deleted(
                old(self).shape(),
                old(self).editing_view(),
                sp as int,
                pt as int,
            ),
            !r ==> final(self).shape() == old(self).shape() && final(self).editing_view()
                == old(self).editing_view(),
    {
        if sp >= self.subpaths.len() || pt >= self.subpaths[sp].points.len() {
            return false;
        }
        let ghost before = self.shape();
        self.subpaths[sp].points.remove(pt);
        let ghost left = before[sp as int].points.remove(pt as int);
        if self.subpaths[sp].points.len() == 0 {
            assert(self.subpaths@[sp as int].points@ =~= left);
            self.subpaths.remove(sp);
            self.editing = match self.editing {
                Some(e) => if e == sp {
                    None
                } else if e > sp {
                    Some(e - 1)
                } else {
                    Some(e)
                },
                None => None,
            };
            proof {
                let want = before.remove(sp as int);
                assert forall|i: int| 0 <= i < want.len() implies #[trigger] self.shape()[i] == want[i] by {
                    if i < sp {
                        assert(self.subpaths@[i] == old(self).subpaths@[i]);
                    } else {
                        assert(self.subpaths@[i] == old(self).subpaths@[i + 1]);
                    }
                }
                assert(self.shape() =~= want);
            }
        } else {
            proof {
                let want = before.update(sp as int, SubpathView { points: left, closed: before[sp as int].closed });
                assert forall|i: int| 0 <= i < want.len() implies #[trigger] self.shape()[i] == want[i] by {
                    if i == sp as int {
                        assert(self.shape()[i].points =~= want[i].points);
                    }
                }
                assert(self.shape() =~= want);
            }
        }
        true
    }

    /// A copy of the path, subpath for subpath, editing the same one.
    pub fn copy(&self) -> (c: VectorPath<P>)
        ensures
            c.shape() == self.shape(),
            c.editing_view() == self.editing_view(),
    {
        let mut subpaths: Vec<Subpath<P>> = Vec::new();
        let mut i: usize = 0;
        while i < self.subpaths.len()
            invariant
                i <= self.subpaths@.len(),
                shape_of(subpaths@) == self.shape().subrange(0, i as int),
            decreases self.subpaths@.len() - i,
        {
            let c = self.subpaths[i].copy();
            let ghost prev = subpaths@;
            subpaths.push(c);
            assert(subpaths@ == prev.push(c));
            assert(shape_of(subpaths@) =~= shape_of(prev).push(self.shape()[i as int]));
            i = i + 1;
            assert(shape_of(subpaths@) =~= self.shape().subrange(0, i as int));
        }
        assert(self.shape().subrange(0, self.shape().len() as int) =~= self.shape());
        VectorPath { subpaths, editing: self.editing }
    }
}


// ---------------------------------------------------------------------------
// The document's collection of paths
// ---------------------------------------------------------------------------

/// One named path in the Paths panel.
pub struct PathEntry<P> {
    pub name: String,
    pub path: VectorPath<P>,
}

/// The document's paths, and which one the Pen and selection tools act on.
///
/// Plain indices rather than the id indirection layers use: paths are never
/// reordered by dragging the way layers are, so there is no stack whose
/// positions shift under a stored id.
pub struct PathSet<P> {
    entries: Vec<PathEntry<P>>,
    active: Option<usize>,
    /// The number the next "New Path" gets, so that they read "Path 1",
    /// "Path 2", ...
    next_untitled: u32,
}

/// The name a path made by "New Path" gets: "Path" and its number.
pub open spec fn untitled_name(n: nat) -> Seq<char> {
    numbered("Path "@, n)
}

/// The active index after entry `index` is removed: forgotten if it was the
/// one removed, moved down by one if it came after it.
pub open spec fn active_after_remove(active: Option<usize>, index: usize) -> Option<usize> {
    match active {
        Some(a) => if a == index {
            None
        } else if a > index {
            Some((a - 1) as usize)
        } else {
            Some(a)
        },
        None => None,
    }
}

impl<P: Copy> PathSet<P> {
    /// The entries, in panel order.
    pub closed spec fn entry_list(&self) -> Seq<PathEntry<P>> {
        self.entries@
    }

    /// The active entry's index, if any.
    pub closed spec fn active_view(&self) -> Option<usize> {
        self.active
    }

    /// The number the next "New Path" gets.
    pub closed spec fn untitled(&self) -> u32 {
        self.next_untitled
    }

    /// The active index, if any, is one of the entries'.
    pub open spec fn wf(&self) -> bool {
        match self.active_view() {
            Some(a) => a < self.entry_list().len(),
            None => true,
        }
    }

    /// No paths yet; the first "New Path" is number 1.
    pub fn new() -> (s: PathSet<P>)
        ensures
            s.entry_list().len() == 0,
            s.active_view() is None,
            s.untitled() == 1,
            s.wf(),
    {
        PathSet { entries: Vec::new(), active: None, next_untitled: 1 }
    }

    pub fn len(&self) -> (n: usize)
        ensures
            n == self.entry_list().len(),
    {
        self.entries.len()
    }

    pub fn is_empty(&self) -> (r: bool)
        ensures
            r == (self.entry_list().len() == 0),
    {
        self.entries.len() == 0
    }

    pub fn entries(&self) -> (r: &[PathEntry<P>])
        ensures
            r@ == self.entry_list(),
    {
        self.entries.as_slice()
    }

    pub fn active_index(&self) -> (r: Option<usize>)
        ensures
            r == self.active_view(),
    {
        self.active
    }

    /// The number the next "New Path" gets.
    pub fn next_untitled(&self) -> (n: u32)
        ensures
            n == self.untitled(),
    {
        self.next_untitled
    }

    /// Make entry `index` the active one. False, changing nothing, when there
    /// is no such entry.
    pub fn set_active(&mut self, index: usize) -> (r: bool)
        ensures
            r == (index < old(self).entry_list().len()),
            final(self).active_view() == (if r {
                Some(index)
            } else {
                old(self).active_view()
            }),
            final(self).entry_list() == old(self).entry_list(),
            final(self).untitled() == old(self).untitled(),
    {
        if index >= self.entries.len() {
            return false;
        }
        self.active = Some(index);
        true
    }

    /// The active path, if there is one.
    pub fn active(&self) -> (r: Option<&VectorPath<P>>)
        ensures
            match self.active_view() {
                Some(a) => if a < self.entry_list().len() {
                    r is Some && *r->Some_0 == self.entry_list()[a as int].path
                } else {
                    r is None
                },
                None => r is None,
            },
    {
        match self.active {
            Some(i) => if i < self.entries.len() {
                Some(&self.entries[i].path)
            } else {
                None
            },
            None => None,
        }
    }

    /// The active path, to change in place, if there is one.
    pub fn active_mut(&mut self) -> (r: Option<&mut VectorPath<P>>)
        ensures
            match old(self).active_view() {
                Some(a) => if a < old(self).entry_list().len() {
                    &&& r is Some
                    &&& *r->Some_0 == old(self).entry_list()[a as int].path
                    &&& final(self).entry_list() == old(self).entry_list().update(
                        a as int,
                        PathEntry { name: old(self).entry_list()[a as int].name, path: *final(r->Some_0) },
                    )
                } else {
                    r is None && final(self).entry_list() == old(self).entry_list()
                },
                None => r is None && final(self).entry_list() == old(self).entry_list(),
            },
            final(self).active_view() == old(self).active_view(),
            final(self).untitled() == old(self).untitled(),
    {
        match self.active {
            Some(i) => if i < self.entries.len() {
                Some(&mut self.entries[i].path)
            } else {
                None
            },
            None => None,
        }
    }

    /// A fresh path named "Path N", made active: the panel's "New Path".
    /// Returns its index.
    pub fn add_named(&mut self) -> (r: usize)
        requires
            old(self).untitled() < u32::MAX,
        ensures
            r == old(self).entry_list().len(),
            final(self).entry_list().len() == r + 1,
            final(self).entry_list().subrange(0, r as int) == old(self).entry_list(),
            final(self).entry_list()[r as int].name@ == untitled_name(old(self).untitled() as nat),
            final(self).entry_list()[r as int].path.shape().len() == 0,
            final(self).entry_list()[r as int].path.editing_view() is None,
            final(self).active_view() == Some(r),
            final(self).untitled() == old(self).untitled() + 1,
            final(self).wf(),
    {
        let mut name = String::from_str("Path ");
        push_decimal(&mut name, self.next_untitled as u64);
        self.next_untitled = self.next_untitled + 1;
        self.entries.push(PathEntry { name, path: VectorPath::new() });
        let i = self.entries.len() - 1;
        self.active = Some(i);
        assert(self.entry_list().subrange(0, i as int) =~= old(self).entry_list());
        i
    }

    /// The active path, creating a "Work Path" and making it active if there
    /// is none: what drawing with the Pen tool does when the panel is empty.
    pub fn ensure_active(&mut self) -> (r: &mut VectorPath<P>)
        requires
            old(self).wf(),
        ensures
            match old(self).active_view() {
                Some(a) => {
                    &&& *r == old(self).entry_list()[a as int].path
                    &&& final(self).entry_list() == old(self).entry_list().update(
                        a as int,
                        PathEntry { name: old(self).entry_list()[a as int].name, path: *final(r) },
                    )
                    &&& final(self).active_view() == Some(a)
                },
                None => {
                    let n = old(self).entry_list().len();
                    &&& r.shape().len() == 0
                    &&& r.editing_view() is None
                    &&& final(self).entry_list().len() == n + 1
                    &&& final(self).entry_list().subrange(0, n as int) == old(self).entry_list()
                    &&& final(self).entry_list()[n as int].name@ == "Work Path"@
                    &&& final(self).entry_list()[n as int].path == *final(r)
                    &&& final(self).active_view() == Some(n as usize)
                },
            },
            final(self).untitled() == old(self).untitled(),
            final(self).wf(),
    {
        let i = match self.active {
            Some(i) => i,
            None => {
                self.entries.push(PathEntry { name: String::from_str("Work Path"), path: VectorPath::new() });
                let i = self.entries.len() - 1;
                self.active = Some(i);
                i
            },
        };
        let ghost mid = self.entries@;
        let r = &mut self.entries[i].path;
        assert(mid.subrange(0, old(self).entries@.len() as int) =~= old(self).entries@) by {
            if old(self).active is None {
                assert(mid == old(self).entries@.push(mid.last()));
            }
        }
        r
    }

    /// A copy of entry `index` named "... copy", added at the end and made
    /// active. Its index, or None when there is no such entry.
    pub fn duplicate(&mut self, index: usize) -> (r: Option<usize>)
        ensures
            index < old(self).entry_list().len() ==> {
                let n = old(self).entry_list().len();
                let e = old(self).entry_list()[index as int];
                &&& r == Some(n as usize)
                &&& final(self).entry_list().len() == n + 1
                &&& final(self).entry_list().subrange(0, n as int) == old(self).entry_list()
                &&& final(self).entry_list()[n as int].name@ == e.name@ + " copy"@
                &&& final(self).entry_list()[n as int].path.shape() == e.path.shape()
                &&& final(self).entry_list()[n as int].path.editing_view() == e.path.editing_view()
                &&& final(self).active_view() == r
            },
            index >= old(self).entry_list().len() ==> r is None && final(self).entry_list()
                == old(self).entry_list() && final(self).active_view() == old(self).active_view(),
            final(self).untitled() == old(self).untitled(),
            old(self).wf() ==> final(self).wf(),
    {
        if index >= self.entries.len() {
            return None;
        }
        let mut name = self.entries[index].name.clone();
        name.append(" copy");
        let path = self.entries[index].path.copy();
        self.entries.push(PathEntry { name, path });
        let i = self.entries.len() - 1;
        self.active = Some(i);
        assert(self.entry_list().subrange(0, i as int) =~= old(self).entry_list());
        Some(i)
    }

    /// Remove entry `index`, following the active entry to its new index, or
    /// forgetting it if it was the one removed. False, changing nothing, when
    /// there is no such entry.
    pub fn remove(&mut self, index: usize) -> (r: bool)
        ensures
            r == (index < old(self).entry_list().len()),
            r ==> final(self).entry_list() == old(self).entry_list().remove(index as int)
                && final(self).active_view() == active_after_remove(old(self).active_view(), index),
            !r ==> final(self).entry_list() == old(self).entry_list() && final(self).active_view()
                == old(self).active_view(),
            final(self).untitled() == old(self).untitled(),
            old(self).wf() ==> final(self).wf(),
    {
        if index >= self.entries.len() {
            return false;
        }
        self.entries.remove(index);
        self.active = match self.active {
            Some(a) => if a == index {
                None
            } else if a > index {
                Some(a - 1)
            } else {
                Some(a)
            },
            None => None,
        };
        true
    }

    /// Rename entry `index`. False, changing nothing, when there is no such
    /// entry.
    pub fn rename(&mut self, index: usize, name: String) -> (r: bool)
        ensures
            r == (index < old(self).entry_list().len()),
            r ==> final(self).entry_list() == old(self).entry_list().update(
                index as int,
                PathEntry { name, path: old(self).entry_list()[index as int].path },
            ),
            !r ==> final(self).entry_list() == old(self).entry_list(),
            final(self).active_view() == old(self).active_view(),
            final(self).untitled() == old(self).untitled(),
    {
        if index >= self.entries.len() {
            return false;
        }
        self.entries[index].name = name;
        true
    }
}

impl<P: Copy> Default for PathSet<P> {
    /// No paths, and the next "New Path" numbered 0: unlike [`PathSet::new`],
    /// which starts the numbering at 1.
    fn default() -> (s: PathSet<P>)
        ensures
            s.entry_list().len() == 0,
            s.active_view() is None,
            s.untitled() == 0,
    {
        PathSet { entries: Vec::new(), active: None, next_untitled: 0 }
    }
}

// ---------------------------------------------------------------------------
// Laws
// ---------------------------------------------------------------------------

/// Removing a path never loses track of the active one: unless the active
/// path is the one removed, the active index afterwards names the same path.
pub proof fn law_remove_keeps_the_active_path<P>(entries: Seq<PathEntry<P>>, active: usize, index: usize)
    requires
        active < entries.len(),
        index < entries.len(),
        active != index,
    ensures
        active_after_remove(Some(active), index) matches Some(a) && a < entries.len() - 1
            && entries.remove(index as int)[a as int] == entries[active as int],
{
}

/// Paths made by "New Path" one after another have different names, since each
/// takes the next number.
pub proof fn law_new_paths_are_named_apart(a: nat, b: nat)
    requires
        a != b,
    ensures
        untitled_name(a) != untitled_name(b),
{
    if untitled_name(a) == untitled_name(b) {
        lemma_numbered_injective("Path "@, a, b);
    }
}

/// Deleting a point never loses track of the subpath being drawn: unless the
/// point deleted was the last of that very subpath, the subpath being edited
/// afterwards is the same one, less the point if it was that subpath's.
pub proof fn law_delete_keeps_the_edited_subpath<P>(
    shape: Seq<SubpathView<P>>,
    e: usize,
    sp: usize,
    pt: usize,
)
    requires
        e < shape.len(),
        sp < shape.len(),
        pt < shape[sp as int].points.len(),
        !(sp == e && shape[sp as int].points.len() == 1),
    ensures
        ({
            let (after, editing) = deleted(shape, Some(e), sp as int, pt as int);
            editing matches Some(f) && f < after.len() && after[f as int] == (if sp == e {
                SubpathView { points: shape[e as int].points.remove(pt as int), closed: shape[e as int].closed }
            } else {
                shape[e as int]
            })
        }),
{
}

} // verus!
