//! The shared vocabulary of content blocks.
//!
//! An authored item is an ordered sequence of blocks: plain text, blanks
//! the user must fill, and single-select choices. A parsed item pairs the
//! blocks with one set of accepted answers per blank, in the order the
//! blanks appear. An item with no interactive block (no blank and no
//! choice) cannot be studied and is rejected before it enters a store.

use vstd::prelude::*;

verus! {

/// One unit of displayable or interactive content.
#[derive(Debug, PartialEq, Eq)]
pub enum Block {
    /// Non-interactive display content.
    Text(String),
    /// A gap the user must fill; its accepted answers live in the parallel
    /// answer list of the item that owns the block.
    Blank,
    /// A single-select prompt over an ordered list of options.
    Choice(Vec<String>),
}

/// Mathematical model of a block: every string as a character sequence.
#[verifier::ext_equal]
pub ghost enum BlockModel {
    Text(Seq<char>),
    Blank,
    Choice(Seq<Seq<char>>),
}

impl DeepView for Block {
    type V = BlockModel;

    open spec fn deep_view(&self) -> BlockModel {
        match self {
            Block::Text(s) => BlockModel::Text(s@),
            Block::Blank => BlockModel::Blank,
            Block::Choice(opts) => BlockModel::Choice(opts.deep_view()),
        }
    }
}

/// Whether a block asks the user for input.
pub open spec fn is_interactive(b: BlockModel) -> bool {
    b is Blank || b is Choice
}

/// Number of blanks in a block sequence.
pub open spec fn count_blanks(bs: Seq<BlockModel>) -> int
    decreases bs.len(),
{
    if bs.len() == 0 {
        0
    } else {
        count_blanks(bs.drop_last()) + if bs.last() is Blank {
            1int
        } else {
            0int
        }
    }
}

/// Number of interactive blocks in a block sequence.
pub open spec fn count_interactive(bs: Seq<BlockModel>) -> int
    decreases bs.len(),
{
    if bs.len() == 0 {
        0
    } else {
        count_interactive(bs.drop_last()) + if is_interactive(bs.last()) {
            1int
        } else {
            0int
        }
    }
}

/// Blank and interactive counts of any prefix are at most its length and
/// never negative.
pub proof fn lemma_counts_bounded(bs: Seq<BlockModel>)
    ensures
        0 <= count_blanks(bs) <= bs.len(),
        0 <= count_interactive(bs) <= bs.len(),
    decreases bs.len(),
{
    if bs.len() > 0 {
        lemma_counts_bounded(bs.drop_last());
    }
}

/// Extending a sequence by one block extends the counts by that block's
/// contribution.
pub proof fn lemma_counts_push(bs: Seq<BlockModel>, b: BlockModel)
    ensures
        count_blanks(bs.push(b)) == count_blanks(bs) + if b is Blank {
            1int
        } else {
            0int
        },
        count_interactive(bs.push(b)) == count_interactive(bs) + if is_interactive(b) {
            1int
        } else {
            0int
        },
{
    assert(bs.push(b).drop_last() =~= bs);
}

/// The parser's output: blocks in rendering order plus one accepted-answer
/// set per blank, in the order the blanks appear.
#[derive(Debug, PartialEq, Eq)]
pub struct ParsedItem {
    /// The ordered content blocks.
    pub blocks: Vec<Block>,
    /// One non-empty list of accepted answers per `Blank` block.
    pub answers: Vec<Vec<String>>,
}

impl ParsedItem {
    /// Structural validity: one answer set per blank, every set holding at
    /// least one alternative, every alternative non-empty.
    pub open spec fn wf(self) -> bool {
        &&& self.answers.deep_view().len() == count_blanks(self.blocks.deep_view())
        &&& forall|i: int|
            0 <= i < self.answers.deep_view().len() ==> #[trigger] self.answers.deep_view()[i].len()
                >= 1
        &&& forall|i: int, j: int|
            0 <= i < self.answers.deep_view().len() && 0 <= j
                < self.answers.deep_view()[i].len() ==> #[trigger] self.answers.deep_view()[i][j].len() >= 1
    }

    /// Whether the item contains at least one interactive block.
    pub open spec fn spec_has_interactive(self) -> bool {
        count_interactive(self.blocks.deep_view()) > 0
    }

    /// Tests whether the item contains at least one blank or choice.
    pub fn has_interactive(&self) -> (r: bool)
        ensures
            r == self.spec_has_interactive(),
    {
        let mut found: bool = false;
        let mut i: usize = 0;
        while i < self.blocks.len()
            invariant
                0 <= i <= self.blocks.len(),
                found == (count_interactive(self.blocks.deep_view().take(i as int)) > 0),
            decreases self.blocks.len() - i,
        {
            proof {
                lemma_counts_bounded(self.blocks.deep_view().take(i as int));
                lemma_counts_push(
                    self.blocks.deep_view().take(i as int),
                    self.blocks.deep_view()[i as int],
                );
                assert(self.blocks.deep_view().take(i as int).push(
                    self.blocks.deep_view()[i as int],
                ) =~= self.blocks.deep_view().take(i as int + 1));
            }
            match &self.blocks[i] {
                Block::Text(_) => {},
                Block::Blank => {
                    found = true;
                },
                Block::Choice(_) => {
                    found = true;
                },
            }
            i = i + 1;
        }
        proof {
            assert(self.blocks.deep_view().take(self.blocks.len() as int) =~= self.blocks.deep_view());
        }
        found
    }
}

} // verus!
