//! The text/grid model: an ordered sequence of lines, each paired with a
//! parallel sequence of face ids, one per character. The invariant that
//! every face row is exactly as long as its line holds from construction
//! on and is preserved by every operation.

use vstd::prelude::*;
use vstd::string::StrSliceExecFns;
use vstd::pervasive::VecAdditionalExecFns;

verus! {

/// A buffer's lines and the per-character face-id grid kept in lockstep
/// with them. The text itself is never edited here; only the face ids
/// change.
pub struct TextContent {
    // One face id per character of the line with the same index.
    faces: Vec<Vec<usize>>,
    lines: Vec<String>,
}

/// The grid after a clamped write of `face_id` over columns
/// `[col_start, col_end)` of `row`: a row outside the grid, or the part of
/// the range outside the line, is ignored rather than rejected, so a
/// highlighter holding slightly stale spans degrades gracefully.
pub open spec fn spec_set_range(
    g: Seq<Seq<usize>>,
    row: int,
    col_start: int,
    col_end: int,
    face_id: usize,
) -> Seq<Seq<usize>> {
    if 0 <= row < g.len() {
        g.update(
            row,
            Seq::new(
                g[row].len(),
                |c: int| if col_start <= c < col_end { face_id } else { g[row][c] },
            ),
        )
    } else {
        g
    }
}

impl TextContent {
    /// The buffer's lines, as sequences of characters.
    pub closed spec fn lines_view(self) -> Seq<Seq<char>> {
        self.lines@.map_values(|s: String| s@)
    }

    /// The per-character face ids, row by row.
    pub closed spec fn grid(self) -> Seq<Seq<usize>> {
        self.faces@.map_values(|r: Vec<usize>| r@)
    }

    /// The grid invariant: one face id per character of every line.
    pub open spec fn wf(self) -> bool {
        &&& self.grid().len() == self.lines_view().len()
        &&& forall|i: int| 0 <= i < self.grid().len()
            ==> (#[trigger] self.grid()[i]).len() == self.lines_view()[i].len()
    }

    /// A grid for the given lines, pre-filled with the default face id 0
    /// for every character.
    pub fn new(lines: Vec<String>) -> (c: TextContent)
        ensures
            c.wf(),
            c.lines_view() == lines@.map_values(|s: String| s@),
            c.grid().len() == lines@.len(),
            forall|i: int, j: int|
                0 <= i < c.grid().len() && 0 <= j < c.grid()[i].len()
                    ==> (#[trigger] c.grid()[i][j]) == 0,
    {
        let mut faces: Vec<Vec<usize>> = Vec::new();
        let n = lines.len();
        let mut i: usize = 0;
        while i < n
            invariant
                n == lines.len(),
                i <= n,
                faces@.len() == i,
                forall|k: int| 0 <= k < i ==> (#[trigger] faces@[k])@.len() == lines@[k]@.len(),
                forall|k: int, j: int|
                    0 <= k < i && 0 <= j < faces@[k]@.len() ==> (#[trigger] faces@[k]@[j]) == 0,
            decreases n - i,
        {
            let m = lines[i].as_str().unicode_len();
            let mut row: Vec<usize> = Vec::new();
            let mut j: usize = 0;
            while j < m
                invariant
                    j <= m,
                    row@.len() == j,
                    forall|l: int| 0 <= l < j ==> row@[l] == 0,
                decreases m - j,
            {
                row.push(0);
                j += 1;
            }
            faces.push(row);
            i += 1;
        }
        TextContent { faces, lines }
    }

    /// How many lines (and grid rows) the buffer holds.
    pub fn line_count(&self) -> (n: usize)
        ensures
            n == self.lines_view().len(),
            self.wf() ==> n == self.grid().len(),
    {
        self.lines.len()
    }

    /// One line of the buffer.
    pub fn line(&self, row: usize) -> (s: &String)
        requires
            row < self.lines_view().len(),
        ensures
            s@ == self.lines_view()[row as int],
    {
        &self.lines[row]
    }

    /// The face ids of one grid row.
    pub fn face_row(&self, row: usize) -> (r: &Vec<usize>)
        requires
            row < self.grid().len(),
        ensures
            r@ == self.grid()[row as int],
    {
        &self.faces[row]
    }

    /// All lines of the buffer.
    pub fn lines(&self) -> (r: &Vec<String>)
        ensures
            r@.map_values(|s: String| s@) == self.lines_view(),
    {
        &self.lines
    }

    /// Check the grid invariant at run time: every grid row is exactly as
    /// long as its line. A violation indicates a highlighter defect; a
    /// caller treats `false` as fatal rather than recoverable.
    pub fn invariant_holds(&self) -> (ok: bool)
        ensures
            ok == self.wf(),
    {
        if self.faces.len() != self.lines.len() {
            proof {
                assert(self.grid().len() != self.lines_view().len());
            }
            return false;
        }
        let n = self.faces.len();
        let mut i: usize = 0;
        while i < n
            invariant
                n == self.faces@.len(),
                n == self.lines@.len(),
                i <= n,
                forall|k: int| 0 <= k < i
                    ==> (#[trigger] self.grid()[k]).len() == self.lines_view()[k].len(),
            decreases n - i,
        {
            if self.faces[i].len() != self.lines[i].as_str().unicode_len() {
                proof {
                    assert(self.grid()[i as int].len() != self.lines_view()[i as int].len());
                }
                return false;
            }
            i += 1;
        }
        true
    }

    /// Overwrite a half-open column range of one row with a face id,
    /// clamped to the grid: out-of-range rows or columns are ignored.
    pub fn set_range(&mut self, row: usize, col_start: usize, col_end: usize, face_id: usize)
        requires
            old(self).wf(),
        ensures
            final(self).wf(),
            final(self).lines_view() == old(self).lines_view(),
            final(self).grid() == spec_set_range(
                old(self).grid(),
                row as int,
                col_start as int,
                col_end as int,
                face_id,
            ),
    {
        if row >= self.faces.len() {
            return;
        }
        let mut r = self.faces.remove(row);
        let ghost row_old = r@;
        let len = r.len();
        let end = if col_end < len {
            col_end
        } else {
            len
        };
        let mut c = col_start;
        while c < end
            invariant
                r@.len() == row_old.len(),
                end <= r@.len(),
                col_start <= c,
                c <= end || c == col_start,
                forall|x: int| 0 <= x < r@.len() && !(col_start <= x < c)
                    ==> (#[trigger] r@[x]) == row_old[x],
                forall|x: int| 0 <= x < r@.len() && col_start <= x < c
                    ==> (#[trigger] r@[x]) == face_id,
            decreases end - c,
        {
            r.set(c, face_id);
            c += 1;
        }
        proof {
            let target = Seq::new(
                row_old.len(),
                |x: int| if col_start <= x < col_end { face_id } else { row_old[x] },
            );
            assert(r@ =~= target);
        }
        self.faces.insert(row, r);
        proof {
            assert(self.faces@ =~= old(self).faces@.update(row as int, r));
            assert(self.grid() =~~= spec_set_range(
                old(self).grid(),
                row as int,
                col_start as int,
                col_end as int,
                face_id,
            ));
            assert(self.lines_view() == old(self).lines_view());
        }
    }
}

} // verus!
