//! The snake: a head and a queue of tail segments, each shown by a window
//! of its own.
use vstd::prelude::*;
use std::collections::VecDeque;
use crate::grid::{Dir, Pos};
use vstd::std_specs::cmp::PartialEqSpecImpl;

verus! {

/// One segment of the tail: the cell it covers and the number of the
/// window that shows it.
#[derive(Debug)]
pub struct TailSeg {
    pub pos: Pos,
    pub index: usize,
}

impl TailSeg {
    pub fn new(pos: Pos, index: usize) -> (seg: TailSeg)
        ensures
            seg.pos == pos,
            seg.index == index,
    {
        TailSeg { pos, index }
    }
}

impl PartialEq<Pos> for TailSeg {
    /// Whether the segment covers `other`.
    fn eq(&self, other: &Pos) -> (r: bool) {
        self.pos == *other
    }
}

impl PartialEqSpecImpl<Pos> for TailSeg {
    open spec fn obeys_eq_spec() -> bool {
        true
    }

    open spec fn eq_spec(&self, other: &Pos) -> bool {
        self.pos == *other
    }
}

/// Whether two cells share a side.
pub open spec fn adjacent(a: Pos, b: Pos) -> bool {
    ||| a.x == b.x && (a.y + 1 == b.y || b.y + 1 == a.y)
    ||| a.y == b.y && (a.x + 1 == b.x || b.x + 1 == a.x)
}

/// Whether some segment of `segs` is shown by window `i`.
pub open spec fn shows_window(segs: Seq<TailSeg>, i: int) -> bool {
    exists|j: int| 0 <= j < segs.len() && #[trigger] segs[j].index == i
}

/// Whether the window numbers of `segs` are `0 .. segs.len()`, each used once.
pub open spec fn windows_numbered(segs: Seq<TailSeg>) -> bool {
    &&& forall|j: int| 0 <= j < segs.len() ==> #[trigger] segs[j].index < segs.len()
    &&& forall|i: int| 0 <= i < segs.len() ==> #[trigger] shows_window(segs, i)
    &&& forall|j: int, k: int| 0 <= j < segs.len() && 0 <= k < segs.len() && j != k
        ==> #[trigger] segs[j].index != #[trigger] segs[k].index
}

/// Whether some segment of `segs` covers `p`.
pub open spec fn segs_cover(segs: Seq<TailSeg>, p: Pos) -> bool {
    exists|j: int| 0 <= j < segs.len() && #[trigger] segs[j].pos == p
}

/// Each cell of a snake with head `head` and tail `segs` shares a side with
/// the next one.
pub open spec fn segs_connected(head: Pos, segs: Seq<TailSeg>) -> bool {
    &&& segs.len() > 0 ==> adjacent(head, segs[0].pos)
    &&& forall|j: int| 0 <= j < segs.len() - 1 ==> adjacent(#[trigger] segs[j].pos, segs[j + 1].pos)
}

/// No two cells of a snake with head `head` and tail `segs` are the same.
pub open spec fn segs_no_overlap(head: Pos, segs: Seq<TailSeg>) -> bool {
    &&& !segs_cover(segs, head)
    &&& forall|j: int, k: int| 0 <= j < segs.len() && 0 <= k < segs.len() && j != k
        ==> #[trigger] segs[j].pos != #[trigger] segs[k].pos
}

/// The tail after a move without growing: the last segment, with its window,
/// takes the cell `head` that the head leaves.
pub open spec fn rotated(segs: Seq<TailSeg>, head: Pos) -> Seq<TailSeg> {
    seq![TailSeg { pos: head, index: segs.last().index }] + segs.drop_last()
}

/// The tail after a move that grows: a new segment, shown by the next
/// window, takes the cell `head` that the head leaves.
pub open spec fn grown(segs: Seq<TailSeg>, head: Pos) -> Seq<TailSeg> {
    seq![TailSeg { pos: head, index: segs.len() as usize }] + segs
}

/// A move without growing keeps the windows numbered, the snake connected,
/// and, when the new head is off the tail, the snake free of overlaps.
pub proof fn lemma_rotated(segs: Seq<TailSeg>, head: Pos, dir: Dir)
    requires
        segs.len() > 0,
        head.can_step(dir),
    ensures
        rotated(segs, head).len() == segs.len(),
        windows_numbered(segs) ==> windows_numbered(rotated(segs, head)),
        segs_connected(head, segs) ==> segs_connected(head.stepped(dir), rotated(segs, head)),
        segs_no_overlap(head, segs) && !segs_cover(segs, head.stepped(dir))
            ==> segs_no_overlap(head.stepped(dir), rotated(segs, head)),
        forall|p: Pos| #[trigger] segs_cover(rotated(segs, head), p) ==> p == head || segs_cover(segs, p),
{
    let old_tail = segs;
    let new_tail = rotated(segs, head);
    let n = old_tail.len();
    let nh = head.stepped(dir);
    assert(new_tail.len() == n);
    assert forall|j: int| 1 <= j < n implies #[trigger] new_tail[j] == old_tail[j - 1] by {}
    if windows_numbered(old_tail) {
        assert forall|i: int| 0 <= i < n implies #[trigger] shows_window(new_tail, i) by {
            assert(shows_window(old_tail, i));
            let k = choose|k: int| 0 <= k < n && #[trigger] old_tail[k].index == i;
            if k == n - 1 {
                assert(new_tail[0].index == i);
            } else {
                assert(new_tail[k + 1].index == i);
            }
        }
        assert forall|j: int, k: int| 0 <= j < n && 0 <= k < n && j != k
            implies #[trigger] new_tail[j].index != #[trigger] new_tail[k].index by {
            let jj = if j == 0 { n - 1 } else { j - 1 };
            let kk = if k == 0 { n - 1 } else { k - 1 };
            assert(new_tail[j].index == old_tail[jj].index);
            assert(new_tail[k].index == old_tail[kk].index);
        }
        assert forall|j: int| 0 <= j < n implies #[trigger] new_tail[j].index < n by {
            let jj = if j == 0 { n - 1 } else { j - 1 };
            assert(new_tail[j].index == old_tail[jj].index);
        }
    }
    if segs_connected(head, old_tail) {
        assert forall|j: int| 0 <= j < n - 1 implies adjacent(#[trigger] new_tail[j].pos, new_tail[j + 1].pos) by {
            if j > 0 {
                assert(new_tail[j] == old_tail[j - 1]);
                assert(new_tail[j + 1] == old_tail[j]);
            }
        }
    }
    if segs_no_overlap(head, old_tail) && !segs_cover(old_tail, nh) {
        assert forall|j: int, k: int| 0 <= j < n && 0 <= k < n && j != k
            implies #[trigger] new_tail[j].pos != #[trigger] new_tail[k].pos by {
            if j > 0 && k > 0 {
                assert(new_tail[j] == old_tail[j - 1]);
                assert(new_tail[k] == old_tail[k - 1]);
            } else if j == 0 {
                assert(new_tail[k] == old_tail[k - 1]);
            } else {
                assert(new_tail[j] == old_tail[j - 1]);
            }
        }
        if segs_cover(new_tail, nh) {
            let j = choose|j: int| 0 <= j < n && #[trigger] new_tail[j].pos == nh;
            if j > 0 {
                assert(new_tail[j] == old_tail[j - 1]);
            }
            assert(false);
        }
    }
    assert forall|p: Pos| #[trigger] segs_cover(new_tail, p) implies p == head || segs_cover(old_tail, p) by {
        let j = choose|j: int| 0 <= j < n && #[trigger] new_tail[j].pos == p;
        if j > 0 {
            assert(new_tail[j] == old_tail[j - 1]);
        }
    }
}

/// A move that grows keeps the windows numbered, the snake connected, and,
/// when the new head is off the snake, the snake free of overlaps.
pub proof fn lemma_grown(segs: Seq<TailSeg>, head: Pos, dir: Dir)
    requires
        segs.len() <= usize::MAX,
        head.can_step(dir),
    ensures
        grown(segs, head).len() == segs.len() + 1,
        windows_numbered(segs) ==> windows_numbered(grown(segs, head)),
        segs_connected(head, segs) ==> segs_connected(head.stepped(dir), grown(segs, head)),
        segs_no_overlap(head, segs) && head.stepped(dir) != head && !segs_cover(segs, head.stepped(dir))
            ==> segs_no_overlap(head.stepped(dir), grown(segs, head)),
        forall|p: Pos| #[trigger] segs_cover(grown(segs, head), p) ==> p == head || segs_cover(segs, p),
{
    let old_tail = segs;
    let new_tail = grown(segs, head);
    let n = old_tail.len();
    let m = n + 1;
    let nh = head.stepped(dir);
    assert(new_tail.len() == m);
    assert forall|j: int| 1 <= j < m implies #[trigger] new_tail[j] == old_tail[j - 1] by {}
    if windows_numbered(old_tail) {
        assert forall|i: int| 0 <= i < m implies #[trigger] shows_window(new_tail, i) by {
            if i == n {
                assert(new_tail[0].index == i);
            } else {
                assert(shows_window(old_tail, i));
                let k = choose|k: int| 0 <= k < n && #[trigger] old_tail[k].index == i;
                assert(new_tail[k + 1].index == i);
            }
        }
        assert forall|j: int, k: int| 0 <= j < m && 0 <= k < m && j != k
            implies #[trigger] new_tail[j].index != #[trigger] new_tail[k].index by {
            if j > 0 {
                assert(new_tail[j] == old_tail[j - 1]);
            }
            if k > 0 {
                assert(new_tail[k] == old_tail[k - 1]);
            }
        }
        assert forall|j: int| 0 <= j < m implies #[trigger] new_tail[j].index < m by {
            if j > 0 {
                assert(new_tail[j] == old_tail[j - 1]);
            }
        }
    }
    if segs_connected(head, old_tail) {
        assert forall|j: int| 0 <= j < m - 1 implies adjacent(#[trigger] new_tail[j].pos, new_tail[j + 1].pos) by {
            if j > 0 {
                assert(new_tail[j] == old_tail[j - 1]);
            }
            assert(new_tail[j + 1] == old_tail[j]);
        }
    }
    if segs_no_overlap(head, old_tail) && nh != head && !segs_cover(old_tail, nh) {
        assert forall|j: int, k: int| 0 <= j < m && 0 <= k < m && j != k
            implies #[trigger] new_tail[j].pos != #[trigger] new_tail[k].pos by {
            if j > 0 {
                assert(new_tail[j] == old_tail[j - 1]);
            }
            if k > 0 {
                assert(new_tail[k] == old_tail[k - 1]);
            }
        }
        if segs_cover(new_tail, nh) {
            let j = choose|j: int| 0 <= j < m && #[trigger] new_tail[j].pos == nh;
            if j > 0 {
                assert(new_tail[j] == old_tail[j - 1]);
            }
            assert(false);
        }
    }
    assert forall|p: Pos| #[trigger] segs_cover(new_tail, p) implies p == head || segs_cover(old_tail, p) by {
        let j = choose|j: int| 0 <= j < m && #[trigger] new_tail[j].pos == p;
        if j > 0 {
            assert(new_tail[j] == old_tail[j - 1]);
        }
    }
}

/// The snake. `tail` runs from the segment next to the head to the end of
/// the tail.
pub struct Snake {
    pub head: Pos,
    pub tail: VecDeque<TailSeg>,
}

impl Snake {
    /// Whether some tail segment covers `p`.
    pub open spec fn on_tail(self, p: Pos) -> bool {
        segs_cover(self.tail@, p)
    }

    /// Whether some cell of the snake, head or tail, is `p`.
    pub open spec fn covers(self, p: Pos) -> bool {
        self.head == p || self.on_tail(p)
    }

    /// The snake has a tail, and its windows are numbered `0 .. tail length`.
    pub open spec fn wf(self) -> bool {
        &&& self.tail@.len() > 0
        &&& windows_numbered(self.tail@)
    }

    /// Each cell of the snake shares a side with the next one.
    pub open spec fn connected(self) -> bool {
        segs_connected(self.head, self.tail@)
    }

    /// No two cells of the snake are the same.
    pub open spec fn no_overlap(self) -> bool {
        segs_no_overlap(self.head, self.tail@)
    }

    /// A snake with its head at `head` and one tail segment, shown by
    /// window 0, to the left of it.
    pub fn new(head: Pos) -> (s: Snake)
        requires
            head.can_step(Dir::Left),
        ensures
            s.head == head,
            s.tail@ == seq![TailSeg { pos: head.stepped(Dir::Left), index: 0 }],
            s.wf(),
            s.connected(),
            s.no_overlap(),
    {
        let mut tail: VecDeque<TailSeg> = VecDeque::new();
        tail.push_back(TailSeg::new(head + Dir::Left, 0));
        let s = Snake { head, tail };
        assert(s.tail@[0].index == 0);
        s
    }

    /// Returns true if `pos` is covered by a segment of the tail.
    pub fn is_tail(&self, pos: Pos) -> (r: bool)
        ensures
            r == self.on_tail(pos),
    {
        let n: usize = self.tail.len();
        let mut i: usize = 0;
        while i < n
            invariant
                n == self.tail@.len(),
                0 <= i <= n,
                forall|j: int| 0 <= j < i ==> self.tail@[j].pos != pos,
            decreases n - i,
        {
            if self.tail[i].pos == pos {
                return true;
            }
            i += 1;
        }
        false
    }

    /// Moves one step in `dir` without growing: the last tail segment, with
    /// its window, takes the cell that the head leaves.
    pub fn move_nor(&mut self, dir: Dir)
        requires
            old(self).tail@.len() > 0,
            old(self).head.can_step(dir),
        ensures
            final(self).head == old(self).head.stepped(dir),
            final(self).tail@ == rotated(old(self).tail@, old(self).head),
            old(self).wf() ==> final(self).wf(),
            old(self).connected() ==> final(self).connected(),
            old(self).no_overlap() && !old(self).on_tail(old(self).head.stepped(dir))
                ==> final(self).no_overlap(),
    {
        proof {
            lemma_rotated(self.tail@, self.head, dir);
        }
        let popped = self.tail.pop_back();
        match popped {
            Some(mut seg) => {
                seg.pos = self.head;
                self.tail.push_front(seg);
            },
            None => {},
        }
        self.head.add_assign(dir);
        proof {
            assert(self.tail@ =~= rotated(old(self).tail@, old(self).head));
        }
    }

    /// Moves one step in `dir` and grows: a new segment, shown by the next
    /// unused window, takes the cell that the head leaves.
    pub fn move_grow(&mut self, dir: Dir)
        requires
            old(self).head.can_step(dir),
        ensures
            final(self).head == old(self).head.stepped(dir),
            final(self).tail@ == grown(old(self).tail@, old(self).head),
            old(self).wf() ==> final(self).wf(),
            old(self).connected() ==> final(self).connected(),
            old(self).no_overlap() && !old(self).covers(old(self).head.stepped(dir))
                ==> final(self).no_overlap(),
    {
        let n: usize = self.tail.len();
        proof {
            lemma_grown(self.tail@, self.head, dir);
        }
        self.tail.push_front(TailSeg::new(self.head, n));
        self.head.add_assign(dir);
    }
}

} // verus!
