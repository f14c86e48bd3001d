//! The split's output: cells, each an ordered sequence of text fragments,
//! and the ordered list of cells.

use vstd::prelude::*;
use vstd::string::StringExecFns;

verus! {

/// What a cell holds. Only code cells are produced today; the tag exists
/// so that future non-code cell kinds have somewhere to live.
#[derive(Debug, PartialEq, Eq, Clone, Copy)]
pub enum CellType {
    Code,
}

/// Fragments joined with a line feed between each adjacent pair.
pub open spec fn join_lines(frags: Seq<Seq<char>>) -> Seq<char>
    decreases frags.len(),
{
    if frags.len() == 0 {
        Seq::empty()
    } else if frags.len() == 1 {
        frags[0]
    } else {
        frags[0] + seq!['\n'] + join_lines(frags.drop_first())
    }
}

/// Joining one more fragment extends the joined text at its end.
pub proof fn lemma_join_lines_push(frags: Seq<Seq<char>>, f: Seq<char>)
    ensures
        frags.len() == 0 ==> join_lines(frags.push(f)) == f,
        frags.len() > 0 ==> join_lines(frags.push(f)) == join_lines(frags) + seq!['\n'] + f,
    decreases frags.len(),
{
    if frags.len() == 0 {
        assert(frags.push(f) =~= seq![f]);
        assert(join_lines(seq![f]) == f);
    } else if frags.len() == 1 {
        assert(frags.push(f).drop_first() =~= seq![f]);
        assert(frags.push(f)[0] == frags[0]);
        assert(join_lines(seq![f]) == f);
        assert(join_lines(frags.push(f)) =~= join_lines(frags) + seq!['\n'] + f);
    } else {
        lemma_join_lines_push(frags.drop_first(), f);
        assert(frags.push(f).drop_first() =~= frags.drop_first().push(f));
        assert(frags.push(f)[0] == frags[0]);
        assert(join_lines(frags.push(f)) =~= join_lines(frags) + seq!['\n'] + f);
    }
}

/// One cell: a kind tag and the ordered text fragments it carries. A cell
/// is empty exactly when it carries no fragment.
#[derive(Debug, PartialEq, Eq)]
pub struct CellSource {
    /// What the cell holds; always code today.
    pub cell_type: CellType,
    /// The fragments, in source order: verbatim code slices and command
    /// payloads.
    pub codes: Vec<String>,
}

impl CellSource {
    /// The fragments as mathematical sequences of characters.
    pub open spec fn fragments(self) -> Seq<Seq<char>> {
        self.codes.deep_view()
    }

    /// A code cell carrying the given fragments.
    pub fn new_code(codes: Vec<String>) -> (r: CellSource)
        ensures
            r.cell_type == CellType::Code,
            r.codes == codes,
    {
        CellSource { cell_type: CellType::Code, codes }
    }

    /// How many fragments the cell carries.
    pub fn len(&self) -> (r: usize)
        ensures
            r == self.fragments().len(),
    {
        self.codes.len()
    }

    /// Whether the cell carries no fragment at all.
    pub fn is_empty(&self) -> (r: bool)
        ensures
            r == (self.fragments().len() == 0),
    {
        self.len() == 0
    }

    /// Appends one fragment at the end.
    pub fn push(&mut self, s: String)
        ensures
            final(self).cell_type == old(self).cell_type,
            final(self).codes@ == old(self).codes@.push(s),
            final(self).fragments() =~= old(self).fragments().push(s@),
    {
        self.codes.push(s);
        proof {
            assert(self.fragments() =~= old(self).fragments().push(s@));
        }
    }

    /// The cell's fragments as one text, joined with line feeds.
    #[verifier::loop_isolation(false)]
    pub fn as_one_line_code(&self) -> (r: String)
        ensures
            r@ == join_lines(self.fragments()),
    {
        let mut out = String::new();
        let n = self.codes.len();
        let mut i: usize = 0;
        while i < n
            invariant
                0 <= i <= n,
                n == self.codes@.len(),
                out@ == join_lines(self.fragments().take(i as int)),
            decreases n - i,
        {
            if i > 0 {
                out.append("\n");
                proof {
                    reveal_strlit("\n");
                    assert("\n"@ =~= seq!['\n']);
                }
            }
            out.append(self.codes[i].as_str());
            proof {
                lemma_join_lines_push(self.fragments().take(i as int), self.fragments()[i as int]);
                assert(self.fragments().take(i + 1) =~= self.fragments().take(i as int).push(
                    self.fragments()[i as int],
                ));
            }
            i = i + 1;
        }
        proof {
            assert(self.fragments().take(n as int) =~= self.fragments());
        }
        out
    }
}

impl Default for CellSource {
    /// A fresh, empty code cell.
    fn default() -> (r: CellSource)
        ensures
            r.cell_type == CellType::Code,
            r.fragments().len() == 0,
    {
        CellSource { cell_type: CellType::Code, codes: Vec::new() }
    }
}

/// The ordered result of a split. Insertion order is the only order and
/// always equals source order.
#[derive(Debug, PartialEq, Eq)]
pub struct CellSources {
    /// The cells, in source order.
    pub cell_sources: Vec<CellSource>,
}

impl CellSources {
    /// Every cell's fragments, in order, as mathematical sequences.
    pub open spec fn fragments_view(self) -> Seq<Seq<Seq<char>>> {
        self.cell_sources@.map_values(|c: CellSource| c.fragments())
    }

    /// Each cell's joined text, in order.
    pub open spec fn cell_lines(self) -> Seq<Seq<char>> {
        self.cell_sources@.map_values(|c: CellSource| join_lines(c.fragments()))
    }

    /// Appends one cell at the end.
    pub fn push(&mut self, c: CellSource)
        ensures
            final(self).cell_sources@ == old(self).cell_sources@.push(c),
            final(self).fragments_view() =~= old(self).fragments_view().push(c.fragments()),
    {
        self.cell_sources.push(c);
        proof {
            assert(self.fragments_view() =~= old(self).fragments_view().push(c.fragments()));
        }
    }

    /// All cells as one text: each cell's fragments joined with line
    /// feeds, then the cells joined with line feeds in turn.
    #[verifier::loop_isolation(false)]
    pub fn as_one_line_code(&self) -> (r: String)
        ensures
            r@ == join_lines(self.cell_lines()),
    {
        let mut out = String::new();
        let n = self.cell_sources.len();
        let mut i: usize = 0;
        while i < n
            invariant
                0 <= i <= n,
                n == self.cell_sources@.len(),
                out@ == join_lines(self.cell_lines().take(i as int)),
            decreases n - i,
        {
            if i > 0 {
                out.append("\n");
                proof {
                    reveal_strlit("\n");
                    assert("\n"@ =~= seq!['\n']);
                }
            }
            let line = self.cell_sources[i].as_one_line_code();
            out.append(line.as_str());
            proof {
                lemma_join_lines_push(self.cell_lines().take(i as int), self.cell_lines()[i as int]);
                assert(self.cell_lines().take(i + 1) =~= self.cell_lines().take(i as int).push(
                    self.cell_lines()[i as int],
                ));
            }
            i = i + 1;
        }
        proof {
            assert(self.cell_lines().take(n as int) =~= self.cell_lines());
        }
        out
    }
}

impl Default for CellSources {
    /// A fresh, empty cell list.
    fn default() -> (r: CellSources)
        ensures
            r.cell_sources@.len() == 0,
    {
        CellSources { cell_sources: Vec::new() }
    }
}

} // verus!
