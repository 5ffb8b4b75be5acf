//! Source locations and the checkpointable forward cursor.
use vstd::prelude::*;

verus! {

/// A position in the source text, both parts counted from zero.
#[derive(Clone, Copy, Debug, PartialEq, Eq, Structural)]
pub struct Loc {
    pub line: usize,
    pub character: usize,
}

impl Loc {
    pub fn new(line: usize, character: usize) -> (r: Loc)
        ensures
            r.line == line,
            r.character == character,
    {
        Loc { line: line, character: character }
    }
}

/// What is known of a source text: its length and the offsets that follow each newline.
pub struct TextMetaData {
    pub length: usize,
    /// Offsets just after each newline, in increasing order.
    pub newline_locs: Vec<usize>,
}

/// Number of leading entries of `nl` that are at most `index`.
pub open spec fn lines_up_to(nl: Seq<usize>, index: int) -> nat
    decreases nl.len(),
{
    if nl.len() == 0 || nl[0] > index {
        0
    } else {
        1 + lines_up_to(nl.subrange(1, nl.len() as int), index)
    }
}

/// The location of an absolute offset: the line is the number of leading newline
/// offsets that do not exceed it, the column its distance from the last of them.
pub open spec fn loc_of(nl: Seq<usize>, index: int) -> (int, int) {
    let k = lines_up_to(nl, index);
    (k as int, if k == 0 { index } else { index - nl[k - 1] })
}

/// The count stops at the first entry that exceeds the index.
proof fn lemma_lines_up_to_step(nl: Seq<usize>, index: int, k: int)
    requires
        0 <= k <= nl.len(),
        forall|j: int| 0 <= j < k ==> nl[j] <= index,
    ensures
        k == nl.len() || nl[k] > index ==> lines_up_to(nl, index) == k,
        lines_up_to(nl, index) >= k,
    decreases k,
{
    if k > 0 {
        let rest = nl.subrange(1, nl.len() as int);
        assert forall|j: int| 0 <= j < k - 1 implies rest[j] <= index by {
            assert(rest[j] == nl[j + 1]);
        }
        lemma_lines_up_to_step(rest, index, k - 1);
        if k < nl.len() {
            assert(rest[k - 1] == nl[k]);
        }
    }
}

impl TextMetaData {
    /// Offsets are increasing and none lies past the end of the text.
    pub open spec fn wf(&self) -> bool {
        &&& forall|i: int, j: int|
            0 <= i < j < self.newline_locs@.len() ==> self.newline_locs@[i] < self.newline_locs@[j]
        &&& forall|i: int|
            0 <= i < self.newline_locs@.len() ==> self.newline_locs@[i] <= self.length
    }

    /// The location at the end of the text.
    pub open spec fn end_loc(&self) -> Loc {
        Loc {
            line: self.newline_locs@.len() as usize,
            character: (self.length - if self.newline_locs@.len() == 0 {
                0
            } else {
                self.newline_locs@.last() as int
            }) as usize,
        }
    }

    /// The location of an absolute offset.
    pub open spec fn loc_at(&self, index: int) -> Loc {
        Loc {
            line: loc_of(self.newline_locs@, index).0 as usize,
            character: loc_of(self.newline_locs@, index).1 as usize,
        }
    }

    pub fn index_to_loc(&self, index: usize) -> (r: Loc)
        ensures
            r == self.loc_at(index as int),
            r.line == loc_of(self.newline_locs@, index as int).0,
            r.character == loc_of(self.newline_locs@, index as int).1,
    {
        let mut line: usize = 0;
        let mut old_newline_loc: usize = 0;
        let n = self.newline_locs.len();
        while line < n && self.newline_locs[line] <= index
            invariant
                line <= n == self.newline_locs@.len(),
                forall|j: int| 0 <= j < line ==> self.newline_locs@[j] <= index,
                old_newline_loc == if line == 0 {
                    0usize
                } else {
                    self.newline_locs@[line - 1]
                },
            decreases n - line,
        {
            old_newline_loc = self.newline_locs[line];
            line = line + 1;
        }
        proof {
            lemma_lines_up_to_step(self.newline_locs@, index as int, line as int);
        }
        Loc::new(line, index - old_newline_loc)
    }

    pub fn get_end(&self) -> (r: Loc)
        requires
            self.wf(),
        ensures
            r == self.end_loc(),
    {
        let n = self.newline_locs.len();
        let last = if n == 0 {
            0
        } else {
            self.newline_locs[n - 1]
        };
        Loc::new(n, self.length - last)
    }
}

/// The cursor seen as values: the items, the current index and the saved indices.
pub struct CursorView<T> {
    pub items: Seq<T>,
    pub index: int,
    pub stack: Seq<int>,
}

/// The value behind an optional reference.
pub open spec fn deref_opt<T>(r: Option<&T>) -> Option<T> {
    match r {
        Some(t) => Some(*t),
        None => None,
    }
}

/// A forward cursor over a sequence with a stack of checkpoints.
pub struct Needle<T> {
    reading: Vec<T>,
    index: usize,
    index_stack: Vec<usize>,
}

impl<T> View for Needle<T> {
    type V = CursorView<T>;

    closed spec fn view(&self) -> CursorView<T> {
        CursorView {
            items: self.reading@,
            index: self.index as int,
            stack: self.index_stack@.map_values(|i: usize| i as int),
        }
    }
}

impl<T> CursorView<T> {
    /// The index and every checkpoint lie within the items, the end included.
    pub open spec fn wf(&self) -> bool {
        &&& 0 <= self.index <= self.items.len() <= usize::MAX
        &&& forall|i: int| 0 <= i < self.stack.len() ==> 0 <= #[trigger] self.stack[i] <= self.items.len()
    }

    /// The item under the index, if any.
    pub open spec fn current(&self) -> Option<T> {
        if 0 <= self.index < self.items.len() {
            Some(self.items[self.index])
        } else {
            None
        }
    }

    /// The index of the top checkpoint, or the current index when none is saved.
    pub open spec fn floor(&self) -> int {
        if self.stack.len() > 0 {
            self.stack.last()
        } else {
            self.index
        }
    }

    pub open spec fn with_index(self, index: int) -> CursorView<T> {
        CursorView { index: index, ..self }
    }
}

/// One operation on a cursor, as its methods perform it.
pub enum CursorOp {
    /// `push_state`
    Checkpoint,
    /// `pop_state`
    Rollback,
    /// `pop_state_no_revert`
    Commit,
    /// `next`, and `read` as far as the cursor goes
    Advance,
    /// `skip`
    Skip(nat),
    /// `set_index`
    Seek(int),
}

/// The cursor after one operation. Popping an empty stack is left out by the methods'
/// preconditions and changes nothing here.
pub open spec fn step<T>(c: CursorView<T>, op: CursorOp) -> CursorView<T> {
    match op {
        CursorOp::Checkpoint => CursorView { stack: c.stack.push(c.index), ..c },
        CursorOp::Rollback => if c.stack.len() > 0 {
            CursorView { index: c.stack.last(), stack: c.stack.drop_last(), ..c }
        } else {
            c
        },
        CursorOp::Commit => if c.stack.len() > 0 {
            CursorView { stack: c.stack.drop_last(), ..c }
        } else {
            c
        },
        CursorOp::Advance => c.with_index(
            if c.index < c.items.len() {
                c.index + 1
            } else {
                c.index
            },
        ),
        CursorOp::Skip(n) => c.with_index(
            if c.index + n < c.items.len() {
                c.index + n
            } else {
                c.items.len() as int
            },
        ),
        CursorOp::Seek(i) => if 0 <= i <= c.items.len() {
            c.with_index(i)
        } else {
            c
        },
    }
}

/// The cursor after the operations in order.
pub open spec fn run<T>(c: CursorView<T>, ops: Seq<CursorOp>) -> CursorView<T>
    decreases ops.len(),
{
    if ops.len() == 0 {
        c
    } else {
        step(run(c, ops.drop_last()), ops.last())
    }
}

/// Checkpoints minus pops (rollbacks and commits).
pub open spec fn depth(ops: Seq<CursorOp>) -> int
    decreases ops.len(),
{
    if ops.len() == 0 {
        0
    } else {
        depth(ops.drop_last()) + match ops.last() {
            CursorOp::Checkpoint => 1int,
            CursorOp::Rollback => -1int,
            CursorOp::Commit => -1int,
            _ => 0int,
        }
    }
}

/// Every checkpoint is matched by a later pop, and no pop takes a checkpoint saved before the run.
pub open spec fn balanced(ops: Seq<CursorOp>) -> bool {
    &&& depth(ops) == 0
    &&& forall|k: int| 0 <= k <= ops.len() ==> depth(#[trigger] ops.take(k)) >= 0
}

proof fn lemma_run_keeps_floor<T>(c: CursorView<T>, ops: Seq<CursorOp>)
    requires
        forall|k: int| 0 <= k <= ops.len() ==> depth(#[trigger] ops.take(k)) >= 0,
    ensures
        run(c, ops).stack.len() == c.stack.len() + depth(ops),
        run(c, ops).stack.subrange(0, c.stack.len() as int) == c.stack,
        run(c, ops).items == c.items,
    decreases ops.len(),
{
    if ops.len() > 0 {
        let pre = ops.drop_last();
        assert forall|k: int| 0 <= k <= pre.len() implies depth(#[trigger] pre.take(k)) >= 0 by {
            assert(pre.take(k) =~= ops.take(k));
        }
        lemma_run_keeps_floor(c, pre);
        assert(ops.take(ops.len() as int) =~= ops);
        let c1 = run(c, pre);
        let n = c.stack.len() as int;
        match ops.last() {
            CursorOp::Checkpoint => {
                assert(run(c, ops).stack.subrange(0, n) =~= c1.stack.subrange(0, n));
            },
            CursorOp::Rollback => {
                assert(run(c, ops).stack.subrange(0, n) =~= c1.stack.subrange(0, n));
            },
            CursorOp::Commit => {
                assert(run(c, ops).stack.subrange(0, n) =~= c1.stack.subrange(0, n));
            },
            _ => {},
        }
    }
}

proof fn lemma_run_append<T>(c: CursorView<T>, a: Seq<CursorOp>, b: Seq<CursorOp>)
    ensures
        run(c, a + b) == run(run(c, a), b),
    decreases b.len(),
{
    if b.len() == 0 {
        assert(a + b =~= a);
    } else {
        assert((a + b).drop_last() =~= a + b.drop_last());
        lemma_run_append(c, a, b.drop_last());
    }
}

/// Checkpoint symmetry: bracketing any balanced run of operations (reads, advances, skips,
/// seeks, nested checkpoints each popped again) between a checkpoint and a rollback brings
/// the cursor back to the index and the checkpoints it had before.
pub proof fn lemma_checkpoint_symmetry<T>(c: CursorView<T>, ops: Seq<CursorOp>)
    requires
        balanced(ops),
    ensures
        run(c, seq![CursorOp::Checkpoint] + ops + seq![CursorOp::Rollback]).index == c.index,
        run(c, seq![CursorOp::Checkpoint] + ops + seq![CursorOp::Rollback]).stack == c.stack,
{
    let open = seq![CursorOp::Checkpoint];
    let close = seq![CursorOp::Rollback];
    let c1 = step(c, CursorOp::Checkpoint);
    assert(open.drop_last() =~= Seq::<CursorOp>::empty());
    assert(run(c, open.drop_last()) == c);
    assert(run(c, open) == c1);
    lemma_run_append(c, open, ops);
    lemma_run_keeps_floor(c1, ops);
    let c2 = run(c1, ops);
    assert(c2.stack =~= c1.stack);
    lemma_run_append(c, open + ops, close);
    assert(close.drop_last() =~= Seq::<CursorOp>::empty());
    assert(run(c2, close.drop_last()) == c2);
    assert(run(c2, close) == step(c2, CursorOp::Rollback));
    assert(c1.stack.drop_last() =~= c.stack);
}

impl<T> Needle<T> {
    proof fn lemma_view_stack(&self)
        ensures
            self@.stack.len() == self.index_stack@.len(),
            forall|i: int|
                0 <= i < self.index_stack@.len() ==> self@.stack[i] == self.index_stack@[i] as int,
    {
    }

    /// A cursor at `index` of `reading`, with no checkpoint.
    pub fn new(reading: Vec<T>, index: usize) -> (r: Needle<T>)
        requires
            index <= reading@.len(),
        ensures
            r@.items == reading@,
            r@.index == index,
            r@.stack == Seq::<int>::empty(),
            r@.wf(),
    {
        proof {
            assert(reading.len() == reading@.len());
        }
        let r = Needle { reading: reading, index: index, index_stack: Vec::new() };
        proof {
            assert(r@.stack =~= Seq::<int>::empty());
        }
        r
    }

    /// Saves the current index.
    pub fn push_state(&mut self)
        requires
            old(self)@.wf(),
        ensures
            final(self)@ == (CursorView { stack: old(self)@.stack.push(old(self)@.index), ..old(self)@ }),
            final(self)@ == step(old(self)@, CursorOp::Checkpoint),
            final(self)@.wf(),
    {
        self.index_stack.push(self.index);
        proof {
            assert(self@.stack =~= old(self)@.stack.push(old(self)@.index));
        }
    }

    /// Drops the top checkpoint and returns to it.
    pub fn pop_state(&mut self)
        requires
            old(self)@.wf(),
            old(self)@.stack.len() > 0,
        ensures
            final(self)@ == (CursorView {
                index: old(self)@.stack.last(),
                stack: old(self)@.stack.drop_last(),
                ..old(self)@
            }),
            final(self)@ == step(old(self)@, CursorOp::Rollback),
            final(self)@.wf(),
    {
        proof {
            self.lemma_view_stack();
        }
        let index = self.index_stack.pop().unwrap();
        self.index = index;
        proof {
            assert(self@.stack =~= old(self)@.stack.drop_last());
        }
    }

    /// Drops the top checkpoint and stays where it is.
    pub fn pop_state_no_revert(&mut self)
        requires
            old(self)@.wf(),
            old(self)@.stack.len() > 0,
        ensures
            final(self)@ == (CursorView { stack: old(self)@.stack.drop_last(), ..old(self)@ }),
            final(self)@ == step(old(self)@, CursorOp::Commit),
            final(self)@.wf(),
    {
        self.index_stack.pop();
        proof {
            assert(self@.stack =~= old(self)@.stack.drop_last());
        }
    }

    pub fn get_prev_state_index(&self) -> (r: usize)
        ensures
            r == self@.floor(),
    {
        let n = self.index_stack.len();
        if n > 0 {
            self.index_stack[n - 1]
        } else {
            self.index
        }
    }

    pub fn get_index(&self) -> (r: usize)
        ensures
            r == self@.index,
    {
        self.index
    }

    /// Moves to `index`, keeping the checkpoints.
    pub fn set_index(&mut self, index: usize)
        requires
            old(self)@.wf(),
            index <= old(self)@.items.len(),
        ensures
            final(self)@ == old(self)@.with_index(index as int),
            final(self)@ == step(old(self)@, CursorOp::Seek(index as int)),
            final(self)@.wf(),
    {
        self.index = index;
        proof {
            assert(self@.stack == old(self)@.stack);
        }
    }

    pub fn len(&self) -> (r: usize)
        ensures
            r == self@.items.len(),
    {
        self.reading.len()
    }

    /// The item at position `i`, if there is one.
    pub fn get(&self, i: usize) -> (r: Option<&T>)
        ensures
            deref_opt(r) == if i < self@.items.len() {
                Some(self@.items[i as int])
            } else {
                None
            },
    {
        if i < self.reading.len() {
            Some(&self.reading[i])
        } else {
            None
        }
    }

    pub fn peek(&self) -> (r: Option<&T>)
        ensures
            deref_opt(r) == self@.current(),
    {
        if self.index < self.reading.len() {
            Some(&self.reading[self.index])
        } else {
            None
        }
    }

    /// Tests the item `offset` places from the index; false where there is none.
    pub fn match_func_offset<F>(&self, offset: isize, matching: F) -> (r: bool) where
        F: Fn(&T) -> bool,
        requires
            self@.wf(),
            forall|t: &T| matching.requires((t,)),
        ensures
            ({
                let loc = self@.index + offset;
                if 0 <= loc < self@.items.len() {
                    matching.ensures((&self@.items[loc],), r)
                } else {
                    !r
                }
            }),
    {
        let n = self.reading.len();
        if offset < 0 {
            let back = (-(offset as i128)) as usize;
            if back > self.index {
                return false;
            }
            matching(&self.reading[self.index - back])
        } else {
            let fwd = offset as usize;
            if fwd >= n - self.index {
                return false;
            }
            matching(&self.reading[self.index + fwd])
        }
    }

    /// Moves one item forward unless at the end; true where the new index is within the items.
    pub fn next(&mut self) -> (r: bool)
        requires
            old(self)@.wf(),
        ensures
            final(self)@ == old(self)@.with_index(
                if old(self)@.index < old(self)@.items.len() {
                    old(self)@.index + 1
                } else {
                    old(self)@.index
                },
            ),
            final(self)@ == step(old(self)@, CursorOp::Advance),
            r == (final(self)@.index < final(self)@.items.len()),
            final(self)@.wf(),
    {
        if self.index >= self.reading.len() {
            return false;
        }
        self.index = self.index + 1;
        self.index < self.reading.len()
    }

    /// Moves `n_indices` items forward, stopping at the end; true where the new index is within the items.
    pub fn skip(&mut self, n_indices: usize) -> (r: bool)
        requires
            old(self)@.wf(),
        ensures
            final(self)@ == old(self)@.with_index(
                if old(self)@.index + n_indices < old(self)@.items.len() {
                    old(self)@.index + n_indices
                } else {
                    old(self)@.items.len() as int
                },
            ),
            final(self)@ == step(old(self)@, CursorOp::Skip(n_indices as nat)),
            r == (old(self)@.index + n_indices < old(self)@.items.len()),
            final(self)@.wf(),
    {
        let n = self.reading.len();
        let r = if n_indices < n - self.index {
            self.index = self.index + n_indices;
            true
        } else {
            self.index = n;
            false
        };
        proof {
            assert(self@.stack == old(self)@.stack);
        }
        r
    }

    /// Returns the item under the index and moves past it; at the end returns nothing and stays.
    pub fn read(&mut self) -> (r: Option<&T>)
        requires
            old(self)@.wf(),
        ensures
            deref_opt(r) == old(self)@.current(),
            final(self)@ == step(old(self)@, CursorOp::Advance),
            final(self)@ == old(self)@.with_index(
                if old(self)@.index < old(self)@.items.len() {
                    old(self)@.index + 1
                } else {
                    old(self)@.index
                },
            ),
            final(self)@.wf(),
    {
        if self.index < self.reading.len() {
            let i = self.index;
            self.index = i + 1;
            Some(&self.reading[i])
        } else {
            None
        }
    }
}

/// The offsets just after each newline of `chars`, in increasing order.
pub open spec fn newline_offsets(chars: Seq<char>) -> Seq<usize>
    decreases chars.len(),
{
    if chars.len() == 0 {
        Seq::empty()
    } else if chars.last() == '\n' {
        newline_offsets(chars.drop_last()).push(chars.len() as usize)
    } else {
        newline_offsets(chars.drop_last())
    }
}

proof fn lemma_newline_offsets(chars: Seq<char>)
    requires
        chars.len() <= usize::MAX,
    ensures
        forall|i: int, j: int|
            0 <= i < j < newline_offsets(chars).len() ==> newline_offsets(chars)[i] < newline_offsets(chars)[j],
        forall|i: int|
            0 <= i < newline_offsets(chars).len() ==> 0 < #[trigger] newline_offsets(chars)[i] <= chars.len(),
    decreases chars.len(),
{
    assert(newline_offsets(chars) == if chars.len() == 0 {
        Seq::<usize>::empty()
    } else if chars.last() == '\n' {
        newline_offsets(chars.drop_last()).push(chars.len() as usize)
    } else {
        newline_offsets(chars.drop_last())
    });
    if chars.len() > 0 {
        lemma_newline_offsets(chars.drop_last());
    }
}

impl Needle<char> {
    /// A cursor over the characters of `reading`.
    pub fn from_str(reading: &str, index: usize) -> (r: Needle<char>)
        requires
            index <= reading@.len(),
        ensures
            r@.items == reading@,
            r@.index == index,
            r@.stack == Seq::<int>::empty(),
            r@.wf(),
    {
        let n = reading.unicode_len();
        let mut chars: Vec<char> = Vec::new();
        let mut i: usize = 0;
        while i < n
            invariant
                n == reading@.len(),
                i <= n,
                chars@ == reading@.subrange(0, i as int),
            decreases n - i,
        {
            chars.push(reading.get_char(i));
            i = i + 1;
            proof {
                assert(chars@ =~= reading@.subrange(0, i as int));
            }
        }
        proof {
            assert(chars@ =~= reading@);
        }
        Needle::new(chars, index)
    }

    /// The length of the text and where its lines start.
    pub fn get_meta_data(&self) -> (r: TextMetaData)
        ensures
            r.length == self@.items.len(),
            r.newline_locs@ == newline_offsets(self@.items),
            r.wf(),
    {
        let mut lines: Vec<usize> = Vec::new();
        let n = self.reading.len();
        let mut i: usize = 0;
        while i < n
            invariant
                n == self@.items.len(),
                i <= n,
                lines@ == newline_offsets(self@.items.subrange(0, i as int)),
            decreases n - i,
        {
            let ghost pre = self@.items.subrange(0, i as int);
            proof {
                assert(self@.items.subrange(0, i + 1).drop_last() =~= pre);
            }
            if self.reading[i] == '\n' {
                lines.push(i + 1);
            }
            i = i + 1;
        }
        proof {
            assert(self@.items.subrange(0, i as int) =~= self@.items);
            lemma_newline_offsets(self@.items);
        }
        TextMetaData { length: n, newline_locs: lines }
    }

    /// The characters from `start` up to `stop`.
    pub fn get_slice(&self, start: usize, stop: usize) -> (r: String)
        requires
            stop <= self@.items.len(),
        ensures
            start < stop ==> r@ == self@.items.subrange(start as int, stop as int),
            start >= stop ==> r@.len() == 0,
    {
        let mut string = String::new();
        if start >= stop {
            return string;
        }
        let mut i: usize = start;
        while i < stop
            invariant
                start <= i <= stop <= self@.items.len(),
                string@ == self@.items.subrange(start as int, i as int),
            decreases stop - i,
        {
            crate::render::push_char(&mut string, self.reading[i]);
            i = i + 1;
            proof {
                assert(string@ =~= self@.items.subrange(start as int, i as int));
            }
        }
        string
    }

    /// Whether the characters of `slice` follow from the index on.
    pub fn matches_slice(&self, slice: &str) -> (r: bool)
        requires
            self@.wf(),
        ensures
            r == (self@.index + slice@.len() <= self@.items.len() && self@.items.subrange(
                self@.index,
                self@.index + slice@.len(),
            ) == slice@),
    {
        let n = slice.unicode_len();
        if n > self.reading.len() - self.index {
            return false;
        }
        let mut i: usize = 0;
        while i < n
            invariant
                n == slice@.len(),
                self.index + n <= self@.items.len(),
                self.index + n <= self.reading.len(),
                i <= n,
                self@.items.subrange(self@.index, self@.index + i) == slice@.subrange(0, i as int),
            decreases n - i,
        {
            if self.reading[self.index + i] != slice.get_char(i) {
                proof {
                    let a = self@.items.subrange(self@.index, self@.index + n);
                    assert(a[i as int] != slice@[i as int]);
                }
                return false;
            }
            i = i + 1;
            proof {
                assert(self@.items.subrange(self@.index, self@.index + i) =~= slice@.subrange(0, i as int));
            }
        }
        proof {
            assert(slice@.subrange(0, n as int) =~= slice@);
        }
        true
    }
}

} // verus!
