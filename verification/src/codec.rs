//! The persistence snapshot: a flat, self-describing image of a store.
//!
//! A snapshot holds the display name and one record per task; a task
//! record holds its scheduling fields and its blocks flattened into
//! tagged records (a kind tag plus text or options), so an external
//! serializer can write it out field by field. `save` produces the
//! snapshot of a store and `load` rebuilds a store from one, validating
//! everything a store guarantees: a snapshot with an unknown block kind,
//! a dangling or empty answer set, an empty alternative, or a task
//! without interactive blocks is rejected as malformed.

use vstd::prelude::*;
use crate::blocks::{Block, BlockModel, ParsedItem, count_blanks, count_interactive};
use crate::blocks::{lemma_counts_push, lemma_counts_bounded};
use crate::store::{Task, TaskStore};
use crate::schedule::SchedState;
use vstd::string::StringExecFns;

verus! {

/// Tag of a flattened text block.
pub const KIND_TEXT: u8 = 0;

/// Tag of a flattened blank block.
pub const KIND_BLANK: u8 = 1;

/// Tag of a flattened choice block.
pub const KIND_CHOICE: u8 = 2;

/// One block flattened for persistence: a kind tag plus its payload.
#[derive(Debug, PartialEq, Eq)]
pub struct BlockRecord {
    /// `KIND_TEXT`, `KIND_BLANK` or `KIND_CHOICE`.
    pub kind: u8,
    /// The text of a text block; empty otherwise.
    pub text: String,
    /// The options of a choice block; empty otherwise.
    pub options: Vec<String>,
}

/// One task flattened for persistence.
#[derive(Debug, PartialEq, Eq)]
pub struct TaskRecord {
    /// The flattened content blocks.
    pub blocks: Vec<BlockRecord>,
    /// The accepted answers, one set per blank.
    pub answers: Vec<Vec<String>>,
    /// Count of successful consecutive recalls.
    pub repetitions: u32,
    /// Interval in seconds until the next review.
    pub interval_secs: u64,
    /// Ease factor in thousandths.
    pub ease_milli: u32,
    /// Absolute due time in seconds.
    pub due_at: u64,
}

/// A whole-store snapshot: the unit of persistence.
#[derive(Debug, PartialEq, Eq)]
pub struct Snapshot {
    /// The store's display name.
    pub name: String,
    /// One record per task.
    pub tasks: Vec<TaskRecord>,
}

/// Failure to rebuild a store from a snapshot.
#[derive(Debug, Clone, Copy, PartialEq, Eq, Structural)]
pub enum PersistenceError {
    /// The snapshot does not describe a valid store.
    MalformedSnapshot,
}

impl PersistenceError {
    /// The user-facing description of the failure.
    pub fn message(&self) -> (r: String)
        ensures
            r@ == "malformed snapshot"@,
    {
        String::from_str("malformed snapshot")
    }
}

/// Correspondence between a flattened block and a block model.
pub open spec fn block_record_matches_model(rec: BlockRecord, m: BlockModel) -> bool {
    match m {
        BlockModel::Text(s) => rec.kind == KIND_TEXT && rec.text@ == s,
        BlockModel::Blank => rec.kind == KIND_BLANK,
        BlockModel::Choice(opts) => rec.kind == KIND_CHOICE && rec.options.deep_view() == opts,
    }
}

/// Correspondence between a task record and a task.
pub open spec fn task_record_matches(rec: TaskRecord, t: Task) -> bool {
    &&& rec.blocks@.len() == t.content.blocks@.len()
    &&& forall|j: int|
        0 <= j < rec.blocks@.len() ==> block_record_matches_model(
            #[trigger] rec.blocks@[j],
            t.content.blocks.deep_view()[j],
        )
    &&& rec.answers.deep_view() == t.content.answers.deep_view()
    &&& rec.repetitions == t.sched.repetitions
    &&& rec.interval_secs == t.sched.interval_secs
    &&& rec.ease_milli == t.sched.ease_milli
    &&& rec.due_at == t.due_at
}

/// Correspondence between a snapshot and a store.
pub open spec fn snapshot_matches(snap: Snapshot, store: TaskStore) -> bool {
    &&& snap.name@ == store.name@
    &&& snap.tasks@.len() == store.tasks@.len()
    &&& forall|i: int|
        0 <= i < snap.tasks@.len() ==> task_record_matches(
            #[trigger] snap.tasks@[i],
            store.tasks@[i],
        )
}

/// The block model a record decodes to, if its kind tag is known.
pub open spec fn decoded_block(rec: BlockRecord) -> Option<BlockModel> {
    if rec.kind == KIND_TEXT {
        Option::Some(BlockModel::Text(rec.text@))
    } else if rec.kind == KIND_BLANK {
        Option::Some(BlockModel::Blank)
    } else if rec.kind == KIND_CHOICE {
        Option::Some(BlockModel::Choice(rec.options.deep_view()))
    } else {
        Option::None
    }
}

/// Number of blank records in a flattened block sequence.
pub open spec fn count_blank_recs(brs: Seq<BlockRecord>) -> int
    decreases brs.len(),
{
    if brs.len() == 0 {
        0
    } else {
        count_blank_recs(brs.drop_last()) + if brs.last().kind == KIND_BLANK {
            1int
        } else {
            0int
        }
    }
}

/// Whether some record is a blank or a choice.
pub open spec fn has_interactive_rec(brs: Seq<BlockRecord>) -> bool {
    exists|j: int|
        0 <= j < brs.len() && (#[trigger] brs[j].kind == KIND_BLANK || brs[j].kind == KIND_CHOICE)
}

/// Validity of a task record: known kinds, one non-empty answer set per
/// blank with non-empty alternatives, and at least one interactive block.
pub open spec fn record_ok(rec: TaskRecord) -> bool {
    &&& forall|j: int| 0 <= j < rec.blocks@.len() ==> #[trigger] rec.blocks@[j].kind <= KIND_CHOICE
    &&& rec.answers@.len() == count_blank_recs(rec.blocks@)
    &&& forall|i: int| 0 <= i < rec.answers@.len() ==> #[trigger] rec.answers@[i]@.len() >= 1
    &&& forall|i: int, j: int|
        0 <= i < rec.answers@.len() && 0 <= j < rec.answers@[i]@.len()
            ==> #[trigger] rec.answers@[i]@[j]@.len() >= 1
    &&& has_interactive_rec(rec.blocks@)
}

/// Validity of a whole snapshot.
pub open spec fn spec_snapshot_ok(snap: Snapshot) -> bool {
    forall|i: int| 0 <= i < snap.tasks@.len() ==> record_ok(#[trigger] snap.tasks@[i])
}

/// Flattens one block.
fn encode_block(b: Block) -> (r: BlockRecord)
    ensures
        block_record_matches_model(r, b.deep_view()),
{
    match b {
        Block::Text(s) => BlockRecord { kind: KIND_TEXT, text: s, options: Vec::new() },
        Block::Blank => BlockRecord { kind: KIND_BLANK, text: String::new(), options: Vec::new() },
        Block::Choice(opts) => BlockRecord { kind: KIND_CHOICE, text: String::new(), options: opts },
    }
}

/// Rebuilds one block, rejecting an unknown kind tag.
fn decode_block(rec: BlockRecord) -> (r: Result<Block, PersistenceError>)
    ensures
        match r {
            Result::Ok(b) => decoded_block(rec) == Option::Some(b.deep_view()),
            Result::Err(_) => decoded_block(rec) is None,
        },
{
    if rec.kind == KIND_TEXT {
        Result::Ok(Block::Text(rec.text))
    } else if rec.kind == KIND_BLANK {
        Result::Ok(Block::Blank)
    } else if rec.kind == KIND_CHOICE {
        Result::Ok(Block::Choice(rec.options))
    } else {
        Result::Err(PersistenceError::MalformedSnapshot)
    }
}

/// Flattens one task.
#[verifier::loop_isolation(false)]
fn encode_task(t: Task) -> (r: TaskRecord)
    ensures
        task_record_matches(r, t),
{
    let Task { content, sched, due_at } = t;
    let ParsedItem { blocks, answers } = content;
    let ghost orig = blocks.deep_view();
    let mut blocks = blocks;
    let mut brs: Vec<BlockRecord> = Vec::new();
    while blocks.len() > 0
        invariant
            brs@.len() + blocks@.len() == orig.len(),
            blocks.deep_view() =~= orig.skip(brs@.len() as int),
            forall|j: int|
                0 <= j < brs@.len() ==> block_record_matches_model(#[trigger] brs@[j], orig[j]),
        decreases blocks@.len(),
    {
        let ghost done = brs@.len() as int;
        let ghost prevv = blocks;
        let b = blocks.remove(0);
        proof {
            prevv@.remove_ensures(0);
            assert(b == prevv@[0]);
            assert(prevv.deep_view()[0] == prevv@[0].deep_view());
            assert(prevv.deep_view()[0] == orig.skip(done)[0]);
            assert(orig.skip(done)[0] == orig[done]);
            assert(b.deep_view() == orig[done]);
            assert forall|k: int| 0 <= k < blocks@.len() implies blocks.deep_view()[k] == orig[done
                + 1 + k] by {
                assert(blocks@[k] == prevv@[k + 1]);
                assert(blocks.deep_view()[k] == blocks@[k].deep_view());
                assert(prevv.deep_view()[k + 1] == prevv@[k + 1].deep_view());
                assert(prevv.deep_view()[k + 1] == orig.skip(done)[k + 1]);
                assert(orig.skip(done)[k + 1] == orig[done + 1 + k]);
            }
            assert(blocks.deep_view() =~= orig.skip(done + 1));
        }
        let br = encode_block(b);
        brs.push(br);
    }
    TaskRecord {
        blocks: brs,
        answers: answers,
        repetitions: sched.repetitions,
        interval_secs: sched.interval_secs,
        ease_milli: sched.ease_milli,
        due_at: due_at,
    }
}

/// Produces the snapshot of a store: same name, one record per task in
/// order, each record carrying exactly its task's content and scheduling
/// fields.
#[verifier::loop_isolation(false)]
pub fn save(store: TaskStore) -> (snap: Snapshot)
    ensures
        snapshot_matches(snap, store),
{
    let TaskStore { name, tasks } = store;
    let ghost orig = tasks@;
    let mut tasks = tasks;
    let mut recs: Vec<TaskRecord> = Vec::new();
    while tasks.len() > 0
        invariant
            recs@.len() + tasks@.len() == orig.len(),
            tasks@ =~= orig.skip(recs@.len() as int),
            forall|i: int|
                0 <= i < recs@.len() ==> task_record_matches(#[trigger] recs@[i], orig[i]),
        decreases tasks@.len(),
    {
        let ghost done = recs@.len() as int;
        let t = tasks.remove(0);
        proof {
            assert(t == orig[done]);
            assert(tasks@ =~= orig.skip(done + 1));
        }
        let rec = encode_task(t);
        recs.push(rec);
    }
    Snapshot { name: name, tasks: recs }
}

/// A pushed record extends the blank count and the interactive test by
/// the record's own contribution.
proof fn lemma_rec_counts_push(brs: Seq<BlockRecord>, rec: BlockRecord)
    ensures
        count_blank_recs(brs.push(rec)) == count_blank_recs(brs) + if rec.kind == KIND_BLANK {
            1int
        } else {
            0int
        },
        has_interactive_rec(brs.push(rec)) == (has_interactive_rec(brs) || rec.kind == KIND_BLANK
            || rec.kind == KIND_CHOICE),
{
    assert(brs.push(rec).drop_last() =~= brs);
    if has_interactive_rec(brs) {
        let j = choose|j: int|
            0 <= j < brs.len() && (#[trigger] brs[j].kind == KIND_BLANK || brs[j].kind
                == KIND_CHOICE);
        assert(brs.push(rec)[j] == brs[j]);
    }
    if rec.kind == KIND_BLANK || rec.kind == KIND_CHOICE {
        assert(brs.push(rec)[brs.len() as int] == rec);
    }
    if has_interactive_rec(brs.push(rec)) && !(rec.kind == KIND_BLANK || rec.kind == KIND_CHOICE) {
        let j = choose|j: int|
            0 <= j < brs.push(rec).len() && (#[trigger] brs.push(rec)[j].kind == KIND_BLANK
                || brs.push(rec)[j].kind == KIND_CHOICE);
        assert(j < brs.len());
        assert(brs[j] == brs.push(rec)[j]);
    }
}

/// Rebuilds one task from its record, validating everything `Task::wf`
/// guarantees. Succeeds exactly on valid records.
#[verifier::loop_isolation(false)]
fn decode_task(rec: TaskRecord) -> (r: Result<Task, PersistenceError>)
    ensures
        match r {
            Result::Ok(t) => record_ok(rec) && t.wf() && task_record_matches(rec, t),
            Result::Err(_) => !record_ok(rec),
        },
{
    let TaskRecord { blocks: brs, answers, repetitions, interval_secs, ease_milli, due_at } = rec;
    let ghost orig = brs@;
    proof {
        assert(orig == rec.blocks@);
        assert(answers@ == rec.answers@);
    }
    let mut brs = brs;
    let mut blocks: Vec<Block> = Vec::new();
    let mut blanks: usize = 0;
    while brs.len() > 0
        invariant
            blocks@.len() + brs@.len() == orig.len(),
            brs@ =~= orig.skip(blocks@.len() as int),
            blanks <= blocks@.len(),
            blanks as int == count_blank_recs(orig.take(blocks@.len() as int)),
            count_blanks(blocks.deep_view()) == blanks as int,
            count_interactive(blocks.deep_view()) > 0 <==> has_interactive_rec(
                orig.take(blocks@.len() as int),
            ),
            forall|j: int| 0 <= j < blocks@.len() ==> #[trigger] orig[j].kind <= KIND_CHOICE,
            forall|j: int|
                0 <= j < blocks@.len() ==> block_record_matches_model(
                    #[trigger] orig[j],
                    blocks.deep_view()[j],
                ),
        decreases brs@.len(),
    {
        let ghost done = blocks@.len() as int;
        let ghost old_models = blocks.deep_view();
        let ghost prev = brs@;
        let br = brs.remove(0);
        proof {
            prev.remove_ensures(0);
            assert(br == orig[done]);
            assert(brs@ =~= orig.skip(done + 1));
            assert(orig.take(done + 1).drop_last() =~= orig.take(done));
            assert(orig.take(done + 1).last() == br);
        }
        let is_blank: bool = br.kind == KIND_BLANK;
        match decode_block(br) {
            Result::Ok(b) => {
                proof {
                    lemma_counts_push(old_models, b.deep_view());
                    lemma_counts_bounded(old_models);
                    lemma_rec_counts_push(orig.take(done), br);
                }
                blocks.push(b);
                let nb: usize = blocks.len();
                if is_blank {
                    assert(blanks < nb);
                    blanks = blanks + 1;
                }
                proof {
                    assert(blocks.deep_view() =~= old_models.push(b.deep_view()));
                    assert(count_blanks(blocks.deep_view()) == blanks as int);
                }
            },
            Result::Err(e) => {
                proof {
                    assert(orig[done].kind > KIND_CHOICE);
                    assert(rec.blocks@[done].kind > KIND_CHOICE);
                    assert(!record_ok(rec));
                }
                return Result::Err(e);
            },
        }
    }
    proof {
        assert(orig.take(orig.len() as int) =~= orig);
    }
    if answers.len() != blanks {
        return Result::Err(PersistenceError::MalformedSnapshot);
    }
    let mut i: usize = 0;
    while i < answers.len()
        invariant
            0 <= i <= answers@.len(),
            forall|k: int| 0 <= k < i ==> #[trigger] answers@[k]@.len() >= 1,
            forall|k: int, j: int|
                0 <= k < i && 0 <= j < answers@[k]@.len() ==> #[trigger] answers@[k]@[j]@.len()
                    >= 1,
        decreases answers@.len() - i,
    {
        let aset = &answers[i];
        if aset.len() == 0 {
            proof {
                assert(rec.answers@[i as int]@.len() == 0);
                assert(!record_ok(rec));
            }
            return Result::Err(PersistenceError::MalformedSnapshot);
        }
        let mut j: usize = 0;
        while j < aset.len()
            invariant
                0 <= j <= aset@.len(),
                aset@ == answers@[i as int]@,
                0 <= i < answers@.len(),
                forall|m: int| 0 <= m < j ==> #[trigger] aset@[m]@.len() >= 1,
            decreases aset@.len() - j,
        {
            if aset[j].as_str().unicode_len() == 0 {
                proof {
                    assert(rec.answers@[i as int]@[j as int]@.len() == 0);
                    assert(!record_ok(rec));
                }
                return Result::Err(PersistenceError::MalformedSnapshot);
            }
            j = j + 1;
        }
        i = i + 1;
    }
    let item = ParsedItem { blocks: blocks, answers: answers };
    if !item.has_interactive() {
        proof {
            assert(!has_interactive_rec(rec.blocks@));
            assert(!record_ok(rec));
        }
        return Result::Err(PersistenceError::MalformedSnapshot);
    }
    proof {
        assert forall|k: int|
            0 <= k < item.answers@.len() implies #[trigger] item.answers.deep_view()[k].len()
            >= 1 by {
            assert(item.answers.deep_view()[k] == item.answers@[k].deep_view());
            assert(item.answers@[k]@.len() >= 1);
        }
        assert forall|k: int, j: int|
            0 <= k < item.answers@.len() && 0 <= j
                < item.answers.deep_view()[k].len() implies #[trigger] item.answers.deep_view()[k][j].len()
            >= 1 by {
            assert(item.answers.deep_view()[k][j] == item.answers@[k]@[j]@);
        }
        assert(item.wf());
        assert(record_ok(rec));
    }
    let t = Task {
        content: item,
        sched: SchedState {
            repetitions: repetitions,
            interval_secs: interval_secs,
            ease_milli: ease_milli,
        },
        due_at: due_at,
    };
    Result::Ok(t)
}

/// Rebuilds a store from a snapshot. Succeeds exactly on valid
/// snapshots; on success the store corresponds record for record to the
/// snapshot.
#[verifier::loop_isolation(false)]
pub fn load(snap: Snapshot) -> (r: Result<TaskStore, PersistenceError>)
    ensures
        match r {
            Result::Ok(st) => spec_snapshot_ok(snap) && st.wf() && snapshot_matches(snap, st),
            Result::Err(_) => !spec_snapshot_ok(snap),
        },
{
    let Snapshot { name, tasks: recs } = snap;
    let ghost orig = recs@;
    let mut recs = recs;
    let mut tasks: Vec<Task> = Vec::new();
    while recs.len() > 0
        invariant
            tasks@.len() + recs@.len() == orig.len(),
            recs@ =~= orig.skip(tasks@.len() as int),
            forall|i: int|
                0 <= i < tasks@.len() ==> record_ok(#[trigger] orig[i]) && tasks@[i].wf()
                    && task_record_matches(orig[i], tasks@[i]),
        decreases recs@.len(),
    {
        let ghost done = tasks@.len() as int;
        let ghost prev = recs@;
        let rec = recs.remove(0);
        proof {
            prev.remove_ensures(0);
            assert(rec == orig[done]);
            assert(recs@ =~= orig.skip(done + 1));
            assert(orig == snap.tasks@);
        }
        match decode_task(rec) {
            Result::Ok(t) => {
                tasks.push(t);
            },
            Result::Err(e) => {
                proof {
                    assert(!record_ok(orig[done]));
                }
                return Result::Err(e);
            },
        }
    }
    proof {
        assert forall|i: int| 0 <= i < tasks@.len() implies #[trigger] tasks@[i].wf() by {
            assert(record_ok(orig[i]) && tasks@[i].wf() && task_record_matches(orig[i], tasks@[i]));
        }
    }
    let st = TaskStore { name: name, tasks: tasks };
    Result::Ok(st)
}

/// Equality of two tasks up to representation: same scheduling fields,
/// same due time, same content at the model level.
pub open spec fn tasks_equal(a: Task, b: Task) -> bool {
    &&& a.sched == b.sched
    &&& a.due_at == b.due_at
    &&& a.content.blocks.deep_view() == b.content.blocks.deep_view()
    &&& a.content.answers.deep_view() == b.content.answers.deep_view()
}

/// The persistence round trip: a store saved and loaded again comes back
/// as an equal collection — same name, same tasks with the same content
/// and the same scheduling fields. `store` is the store that was saved,
/// `snap` its snapshot, `restored` what `load` rebuilt from it; the two
/// premises are exactly what `save`'s and `load`'s contracts give.
pub proof fn lemma_save_load_round_trip(store: TaskStore, snap: Snapshot, restored: TaskStore)
    requires
        snapshot_matches(snap, store),
        snapshot_matches(snap, restored),
    ensures
        restored.name@ == store.name@,
        restored.tasks@.len() == store.tasks@.len(),
        forall|i: int|
            0 <= i < store.tasks@.len() ==> tasks_equal(
                #[trigger] restored.tasks@[i],
                store.tasks@[i],
            ),
{
    assert forall|i: int| 0 <= i < store.tasks@.len() implies tasks_equal(
        #[trigger] restored.tasks@[i],
        store.tasks@[i],
    ) by {
        let rec = snap.tasks@[i];
        let a = restored.tasks@[i];
        let b = store.tasks@[i];
        assert(task_record_matches(rec, a));
        assert(task_record_matches(rec, b));
        assert forall|j: int| 0 <= j < a.content.blocks@.len() implies a.content.blocks.deep_view()[j]
            == b.content.blocks.deep_view()[j] by {
            let ma = a.content.blocks.deep_view()[j];
            let mb = b.content.blocks.deep_view()[j];
            assert(block_record_matches_model(rec.blocks@[j], ma));
            assert(block_record_matches_model(rec.blocks@[j], mb));
            match ma {
                BlockModel::Text(s) => {
                    assert(mb is Text);
                    assert(ma =~~= mb);
                },
                BlockModel::Blank => {
                    assert(mb is Blank);
                },
                BlockModel::Choice(opts) => {
                    assert(mb is Choice);
                    assert(ma =~~= mb);
                },
            }
        }
        assert(a.content.blocks.deep_view() =~= b.content.blocks.deep_view());
    }
}

/// The snapshot of a valid store is itself valid, so loading it
/// succeeds: the success half of the persistence round trip.
pub proof fn lemma_saved_snapshot_ok(store: TaskStore, snap: Snapshot)
    requires
        store.wf(),
        snapshot_matches(snap, store),
    ensures
        spec_snapshot_ok(snap),
{
    assert forall|i: int| 0 <= i < snap.tasks@.len() implies record_ok(#[trigger] snap.tasks@[i]) by {
        let rec = snap.tasks@[i];
        let t = store.tasks@[i];
        assert(task_record_matches(rec, t));
        assert(t.wf());
        lemma_matched_block_seqs(rec.blocks@, t.content.blocks.deep_view());
        assert(rec.answers.deep_view().len() == rec.answers@.len());
        assert forall|k: int| 0 <= k < rec.answers@.len() implies #[trigger] rec.answers@[k]@.len()
            >= 1 by {
            assert(rec.answers.deep_view()[k] == t.content.answers.deep_view()[k]);
            assert(rec.answers.deep_view()[k].len() == rec.answers@[k]@.len());
        }
        assert forall|k: int, j: int|
            0 <= k < rec.answers@.len() && 0 <= j < rec.answers@[k]@.len() implies #[trigger] rec.answers@[k]@[j]@.len()
            >= 1 by {
            assert(rec.answers.deep_view()[k] == t.content.answers.deep_view()[k]);
            assert(rec.answers.deep_view()[k][j] == rec.answers@[k]@[j]@);
        }
    }
}

/// Pointwise-matched block sequences have the same blank count and the
/// same interactive test.
proof fn lemma_matched_block_seqs(brs: Seq<BlockRecord>, ms: Seq<BlockModel>)
    requires
        brs.len() == ms.len(),
        forall|j: int| 0 <= j < brs.len() ==> block_record_matches_model(#[trigger] brs[j], ms[j]),
    ensures
        count_blank_recs(brs) == count_blanks(ms),
        has_interactive_rec(brs) <==> count_interactive(ms) > 0,
        forall|j: int| 0 <= j < brs.len() ==> #[trigger] brs[j].kind <= KIND_CHOICE,
    decreases brs.len(),
{
    lemma_counts_bounded(ms);
    if brs.len() > 0 {
        lemma_matched_block_seqs(brs.drop_last(), ms.drop_last());
        lemma_counts_bounded(ms.drop_last());
        assert(block_record_matches_model(brs.last(), ms.last()));
        if has_interactive_rec(brs.drop_last()) {
            let j = choose|j: int|
                0 <= j < brs.drop_last().len() && (#[trigger] brs.drop_last()[j].kind == KIND_BLANK
                    || brs.drop_last()[j].kind == KIND_CHOICE);
            assert(brs[j].kind == KIND_BLANK || brs[j].kind == KIND_CHOICE);
        }
        if brs.last().kind == KIND_BLANK || brs.last().kind == KIND_CHOICE {
            assert(brs[brs.len() - 1].kind == KIND_BLANK || brs[brs.len() - 1].kind
                == KIND_CHOICE);
        }
        if has_interactive_rec(brs) && !(brs.last().kind == KIND_BLANK || brs.last().kind
            == KIND_CHOICE) {
            let j = choose|j: int|
                0 <= j < brs.len() && (#[trigger] brs[j].kind == KIND_BLANK || brs[j].kind
                    == KIND_CHOICE);
            assert(j < brs.len() - 1);
            assert(brs.drop_last()[j].kind == KIND_BLANK || brs.drop_last()[j].kind
                == KIND_CHOICE);
        }
    }
}

} // verus!
