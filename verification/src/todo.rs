//! The shared todo-list state: signed tasks, signed completion toggles, and
//! the merge that every replica applies to combine states.

use crate::crypto::{strict_signature_valid, verify_strict};
use std::collections::BTreeMap;
use vstd::bytes::{spec_u32_to_le_bytes, spec_u64_to_le_bytes, u32_to_le_bytes, u64_to_le_bytes};
use vstd::prelude::*;
use vstd::std_specs::btree::spec_btree_map_iter;
use vstd::std_specs::iter::IteratorSpec;
use vstd::utf8::encode_utf8;

verus! {

/// A task entry, signed by its author over `signing_bytes`.
#[derive(Clone, Debug, PartialEq, Eq)]
pub struct SignedTask {
    pub id: u64,
    pub text: String,
    pub created_at: i64,
    /// Compressed Ed25519 public key of the author.
    pub author: [u8; 32],
    /// Ed25519 signature (`R || s`) over `signing_bytes`.
    pub signature: [u8; 64],
}

/// A completion mark for a task, signed by its author over `signing_bytes`.
#[derive(Clone, Debug, PartialEq, Eq)]
pub struct SignedToggle {
    pub task_id: u64,
    pub done: bool,
    /// Timestamp in milliseconds; the latest toggle for a task wins.
    pub ts: i64,
    pub author: [u8; 32],
    pub signature: [u8; 64],
}

/// The mathematical value of a task: its fields, with the text as
/// characters and the key and signature as byte sequences.
pub struct TaskView {
    pub id: u64,
    pub text: Seq<char>,
    pub created_at: i64,
    pub author: Seq<u8>,
    pub signature: Seq<u8>,
}

/// The mathematical value of a toggle.
pub struct ToggleView {
    pub task_id: u64,
    pub done: bool,
    pub ts: i64,
    pub author: Seq<u8>,
    pub signature: Seq<u8>,
}

impl View for SignedTask {
    type V = TaskView;

    open spec fn view(&self) -> TaskView {
        TaskView {
            id: self.id,
            text: self.text@,
            created_at: self.created_at,
            author: self.author@,
            signature: self.signature@,
        }
    }
}

impl View for SignedToggle {
    type V = ToggleView;

    open spec fn view(&self) -> ToggleView {
        ToggleView {
            task_id: self.task_id,
            done: self.done,
            ts: self.ts,
            author: self.author@,
            signature: self.signature@,
        }
    }
}

/// Domain-separation tag of task signatures: the bytes of `"todo-task\0"`.
pub open spec fn task_tag() -> Seq<u8> {
    seq![0x74u8, 0x6f, 0x64, 0x6f, 0x2d, 0x74, 0x61, 0x73, 0x6b, 0x00]
}

/// Domain-separation tag of toggle signatures: the bytes of `"todo-toggle\0"`.
pub open spec fn toggle_tag() -> Seq<u8> {
    seq![0x74u8, 0x6f, 0x64, 0x6f, 0x2d, 0x74, 0x6f, 0x67, 0x67, 0x6c, 0x65, 0x00]
}

/// The message a task's author signs: the tag, the id (8 bytes little
/// endian), the UTF-8 length of the text as a `u32` (little endian, the
/// length taken modulo 2^32), the UTF-8 text, and the creation time
/// (8 bytes little endian, two's complement).
pub open spec fn task_message(t: TaskView) -> Seq<u8> {
    let text = encode_utf8(t.text);
    task_tag() + spec_u64_to_le_bytes(t.id) + spec_u32_to_le_bytes(text.len() as u32) + text
        + spec_u64_to_le_bytes(t.created_at as u64)
}

/// The message a toggle's author signs: the tag, the task id (8 bytes little
/// endian), one byte for `done` (1 or 0), and the timestamp (8 bytes little
/// endian, two's complement).
pub open spec fn toggle_message(t: ToggleView) -> Seq<u8> {
    toggle_tag() + spec_u64_to_le_bytes(t.task_id) + seq![if t.done { 1u8 } else { 0u8 }]
        + spec_u64_to_le_bytes(t.ts as u64)
}

/// A task whose signature verifies under its author's key.
pub open spec fn task_signature_valid(t: TaskView) -> bool {
    strict_signature_valid(t.author, task_message(t), t.signature)
}

/// A toggle whose signature verifies under its author's key.
pub open spec fn toggle_signature_valid(t: ToggleView) -> bool {
    strict_signature_valid(t.author, toggle_message(t), t.signature)
}

fn task_tag_bytes() -> (tag: Vec<u8>)
    ensures
        tag@ == task_tag(),
{
    let tag = vec![0x74u8, 0x6f, 0x64, 0x6f, 0x2d, 0x74, 0x61, 0x73, 0x6b, 0x00];
    assert(tag@ =~= task_tag());
    tag
}

fn toggle_tag_bytes() -> (tag: Vec<u8>)
    ensures
        tag@ == toggle_tag(),
{
    let tag = vec![0x74u8, 0x6f, 0x64, 0x6f, 0x2d, 0x74, 0x6f, 0x67, 0x67, 0x6c, 0x65, 0x00];
    assert(tag@ =~= toggle_tag());
    tag
}

impl SignedTask {
    /// The bytes the author signs (see `task_message`).
    pub fn signing_bytes(&self) -> (bytes: Vec<u8>)
        ensures
            bytes@ == task_message(self@),
    {
        let text_bytes = self.text.as_str().as_bytes();
        let mut buf = task_tag_bytes();
        let id_bytes = u64_to_le_bytes(self.id);
        buf.extend_from_slice(id_bytes.as_slice());
        let len_bytes = u32_to_le_bytes(text_bytes.len() as u32);
        buf.extend_from_slice(len_bytes.as_slice());
        buf.extend_from_slice(text_bytes);
        let ts_bytes = u64_to_le_bytes(self.created_at as u64);
        buf.extend_from_slice(ts_bytes.as_slice());
        assert(buf@ =~= task_message(self@));
        buf
    }

    /// Whether the signature verifies; never an error.
    pub fn verify(&self) -> (result: Result<bool, String>)
        ensures
            result == Ok::<bool, String>(task_signature_valid(self@)),
    {
        let message = self.signing_bytes();
        Ok(verify_strict(&self.author, message.as_slice(), &self.signature))
    }
}

impl SignedToggle {
    /// The bytes the author signs (see `toggle_message`).
    pub fn signing_bytes(&self) -> (bytes: Vec<u8>)
        ensures
            bytes@ == toggle_message(self@),
    {
        let mut buf = toggle_tag_bytes();
        let id_bytes = u64_to_le_bytes(self.task_id);
        buf.extend_from_slice(id_bytes.as_slice());
        buf.push(if self.done { 1u8 } else { 0u8 });
        let ts_bytes = u64_to_le_bytes(self.ts as u64);
        buf.extend_from_slice(ts_bytes.as_slice());
        assert(buf@ =~= toggle_message(self@));
        buf
    }

    /// Whether the signature verifies; never an error.
    pub fn verify(&self) -> (result: Result<bool, String>)
        ensures
            result == Ok::<bool, String>(toggle_signature_valid(self@)),
    {
        let message = self.signing_bytes();
        Ok(verify_strict(&self.author, message.as_slice(), &self.signature))
    }
}

/// Strict lexicographic order on byte strings, as Rust orders byte slices
/// (a proper prefix is smaller).
pub open spec fn bytes_lex_greater(a: Seq<u8>, b: Seq<u8>) -> bool
    decreases a.len(),
{
    if a.len() == 0 {
        false
    } else if b.len() == 0 {
        true
    } else if a[0] != b[0] {
        a[0] > b[0]
    } else {
        bytes_lex_greater(a.drop_first(), b.drop_first())
    }
}

/// What two tasks under one id are compared by: the signature, then the
/// author's key, then the signed message.
pub open spec fn task_rank(t: TaskView) -> Seq<u8> {
    t.signature + t.author + task_message(t)
}

/// What two toggles with the same timestamp are compared by: the signature,
/// then the author's key, then the signed message.
pub open spec fn toggle_rank(t: ToggleView) -> Seq<u8> {
    t.signature + t.author + toggle_message(t)
}

/// Between two tasks under one id, `new` wins when its signature is
/// greater (then its key, then its message).
pub open spec fn task_supersedes(new: TaskView, existing: TaskView) -> bool {
    bytes_lex_greater(task_rank(new), task_rank(existing))
}

/// Last-writer-wins: `new` replaces `existing` when its timestamp is later,
/// or equal with a greater signature (then key, then message).
pub open spec fn toggle_supersedes(new: ToggleView, existing: ToggleView) -> bool {
    new.ts > existing.ts || (new.ts == existing.ts && bytes_lex_greater(
        toggle_rank(new),
        toggle_rank(existing),
    ))
}

/// Whether `a` is lexicographically greater than `b`.
pub fn bytes_greater(a: &[u8], b: &[u8]) -> (greater: bool)
    ensures
        greater == bytes_lex_greater(a@, b@),
{
    let mut i: usize = 0;
    assert(a@.skip(0) =~= a@);
    assert(b@.skip(0) =~= b@);
    while i < a.len() && i < b.len()
        invariant
            i <= a@.len(),
            i <= b@.len(),
            bytes_lex_greater(a@, b@) == bytes_lex_greater(a@.skip(i as int), b@.skip(i as int)),
        decreases a@.len() - i,
    {
        if a[i] != b[i] {
            return a[i] > b[i];
        }
        assert(a@.skip(i as int).drop_first() =~= a@.skip(i + 1));
        assert(b@.skip(i as int).drop_first() =~= b@.skip(i + 1));
        i = i + 1;
    }
    i < a.len()
}

/// The state replicated by the contract: one task per id and one toggle
/// per task id, each under the id it was signed for.
#[derive(Clone, Debug, PartialEq, Eq)]
pub struct TodoState {
    pub tasks: BTreeMap<u64, SignedTask>,
    pub toggles: BTreeMap<u64, SignedToggle>,
}

/// The values of the tasks of a map.
pub open spec fn task_views(tasks: Map<u64, SignedTask>) -> Map<u64, TaskView> {
    tasks.map_values(|t: SignedTask| t@)
}

/// The values of the toggles of a map.
pub open spec fn toggle_views(toggles: Map<u64, SignedToggle>) -> Map<u64, ToggleView> {
    toggles.map_values(|t: SignedToggle| t@)
}

/// The mathematical value of a `TodoState`: its two maps, of values.
pub struct TodoModel {
    pub tasks: Map<u64, TaskView>,
    pub toggles: Map<u64, ToggleView>,
}

impl View for TodoState {
    type V = TodoModel;

    open spec fn view(&self) -> TodoModel {
        TodoModel { tasks: task_views(self.tasks@), toggles: toggle_views(self.toggles@) }
    }
}

impl TodoModel {
    /// The state with no task and no toggle.
    pub open spec fn empty() -> TodoModel {
        TodoModel { tasks: Map::empty(), toggles: Map::empty() }
    }

    /// The state after merging `other` into `self` (see `TodoState::merge`).
    pub open spec fn merge(self, other: TodoModel) -> TodoModel {
        TodoModel {
            tasks: merged_tasks(self.tasks, other.tasks),
            toggles: merged_toggles(self.toggles, other.toggles),
        }
    }

    /// Every entry is filed under the id it was signed for and carries a
    /// valid signature (see `TodoState::validate`).
    pub open spec fn valid(self) -> bool {
        all_tasks_valid(self.tasks) && all_toggles_valid(self.toggles)
    }

    /// Every entry carries a valid signature, wherever it is filed.
    pub open spec fn signed(self) -> bool {
        &&& forall|id: u64| #[trigger]
            self.tasks.contains_key(id) ==> task_signature_valid(self.tasks[id])
        &&& forall|id: u64| #[trigger]
            self.toggles.contains_key(id) ==> toggle_signature_valid(self.toggles[id])
    }

    /// The entries a merge takes from this state: those filed under the id
    /// they were signed for, well formed and validly signed.
    pub open spec fn admitted(self) -> TodoModel {
        TodoModel {
            tasks: Map::new(|id: u64| accepted_task(self.tasks, id), |id: u64| self.tasks[id]),
            toggles: Map::new(|id: u64| accepted_toggle(self.toggles, id), |id: u64| self.toggles[id]),
        }
    }
}

impl Default for TodoState {
    fn default() -> (state: Self)
        ensures
            state@ == TodoModel::empty(),
    {
        let state = TodoState { tasks: BTreeMap::new(), toggles: BTreeMap::new() };
        assert(state@.tasks =~= TodoModel::empty().tasks);
        assert(state@.toggles =~= TodoModel::empty().toggles);
        state
    }
}

/// A task filed under the id it was signed for, with a 32-byte key, a
/// 64-byte signature, and a valid signature.
pub open spec fn task_entry_valid(id: u64, t: TaskView) -> bool {
    &&& t.id == id
    &&& t.author.len() == 32
    &&& t.signature.len() == 64
    &&& task_signature_valid(t)
}

/// A toggle filed under the task id it was signed for, with a 32-byte key,
/// a 64-byte signature, and a valid signature.
pub open spec fn toggle_entry_valid(id: u64, t: ToggleView) -> bool {
    &&& t.task_id == id
    &&& t.author.len() == 32
    &&& t.signature.len() == 64
    &&& toggle_signature_valid(t)
}

/// Whether the entry `id` of `other` is a task that a merge accepts.
pub open spec fn accepted_task(other: Map<u64, TaskView>, id: u64) -> bool {
    other.contains_key(id) && task_entry_valid(id, other[id])
}

/// Whether the entry `id` of `other` is a toggle that a merge accepts.
pub open spec fn accepted_toggle(other: Map<u64, ToggleView>, id: u64) -> bool {
    other.contains_key(id) && toggle_entry_valid(id, other[id])
}

/// Whether the accepted task `id` of `other` takes the place of the one in
/// `mine`.
pub open spec fn task_taken(mine: Map<u64, TaskView>, other: Map<u64, TaskView>, id: u64) -> bool {
    accepted_task(other, id) && (!mine.contains_key(id) || task_supersedes(other[id], mine[id]))
}

/// Whether the accepted toggle `id` of `other` takes the place of the one
/// in `mine`.
pub open spec fn toggle_taken(mine: Map<u64, ToggleView>, other: Map<u64, ToggleView>, id: u64) -> bool {
    accepted_toggle(other, id) && (!mine.contains_key(id) || toggle_supersedes(other[id], mine[id]))
}

/// Tasks after merging `other` into `mine`: for each id, the accepted task
/// of `other` is kept when `mine` has none or when it supersedes the one of
/// `mine`; otherwise `mine`'s stays.
pub open spec fn merged_tasks(mine: Map<u64, TaskView>, other: Map<u64, TaskView>) -> Map<
    u64,
    TaskView,
> {
    Map::new(
        |id: u64| mine.contains_key(id) || accepted_task(other, id),
        |id: u64|
            if task_taken(mine, other, id) {
                other[id]
            } else {
                mine[id]
            },
    )
}

/// Toggles after merging `other` into `mine`: for each task id, the
/// accepted toggle of `other` is kept when `mine` has none or when it
/// supersedes the one of `mine`; otherwise `mine`'s stays.
pub open spec fn merged_toggles(mine: Map<u64, ToggleView>, other: Map<u64, ToggleView>) -> Map<
    u64,
    ToggleView,
> {
    Map::new(
        |id: u64| mine.contains_key(id) || accepted_toggle(other, id),
        |id: u64|
            if toggle_taken(mine, other, id) {
                other[id]
            } else {
                mine[id]
            },
    )
}

/// Every task of the map is filed under its id and validly signed.
pub open spec fn all_tasks_valid(tasks: Map<u64, TaskView>) -> bool {
    forall|id: u64| #[trigger] tasks.contains_key(id) ==> task_entry_valid(id, tasks[id])
}

/// Every toggle of the map is filed under its task id and validly signed.
pub open spec fn all_toggles_valid(toggles: Map<u64, ToggleView>) -> bool {
    forall|id: u64| #[trigger] toggles.contains_key(id) ==> toggle_entry_valid(id, toggles[id])
}

impl SignedTask {
    fn duplicate(&self) -> (copy: Self)
        ensures
            copy@ == self@,
    {
        SignedTask {
            id: self.id,
            text: self.text.clone(),
            created_at: self.created_at,
            author: self.author,
            signature: self.signature,
        }
    }

    fn rank_bytes(&self) -> (rank: Vec<u8>)
        ensures
            rank@ == task_rank(self@),
    {
        let mut rank = vstd::slice::slice_to_vec(vstd::array::array_as_slice(&self.signature));
        rank.extend_from_slice(vstd::array::array_as_slice(&self.author));
        let message = self.signing_bytes();
        rank.extend_from_slice(message.as_slice());
        assert(rank@ =~= task_rank(self@));
        rank
    }

    /// Whether `self` takes the place of `other` when both share an id.
    fn supersedes(&self, other: &SignedTask) -> (wins: bool)
        ensures
            wins == task_supersedes(self@, other@),
    {
        let mine = self.rank_bytes();
        let theirs = other.rank_bytes();
        bytes_greater(mine.as_slice(), theirs.as_slice())
    }
}

impl SignedToggle {
    fn duplicate(&self) -> (copy: Self)
        ensures
            copy@ == self@,
    {
        SignedToggle {
            task_id: self.task_id,
            done: self.done,
            ts: self.ts,
            author: self.author,
            signature: self.signature,
        }
    }

    fn rank_bytes(&self) -> (rank: Vec<u8>)
        ensures
            rank@ == toggle_rank(self@),
    {
        let mut rank = vstd::slice::slice_to_vec(vstd::array::array_as_slice(&self.signature));
        rank.extend_from_slice(vstd::array::array_as_slice(&self.author));
        let message = self.signing_bytes();
        rank.extend_from_slice(message.as_slice());
        assert(rank@ =~= toggle_rank(self@));
        rank
    }

    /// Whether this toggle wins over `other` for the same task.
    fn supersedes(&self, other: &SignedToggle) -> (wins: bool)
        ensures
            wins == toggle_supersedes(self@, other@),
    {
        if self.ts != other.ts {
            return self.ts > other.ts;
        }
        let mine = self.rank_bytes();
        let theirs = other.rank_bytes();
        bytes_greater(mine.as_slice(), theirs.as_slice())
    }
}

proof fn lemma_task_views_insert(m: Map<u64, SignedTask>, k: u64, v: SignedTask)
    ensures
        task_views(m.insert(k, v)) == task_views(m).insert(k, v@),
{
    assert(task_views(m.insert(k, v)) =~= task_views(m).insert(k, v@));
}

proof fn lemma_toggle_views_insert(m: Map<u64, SignedToggle>, k: u64, v: SignedToggle)
    ensures
        toggle_views(m.insert(k, v)) == toggle_views(m).insert(k, v@),
{
    assert(toggle_views(m.insert(k, v)) =~= toggle_views(m).insert(k, v@));
}

proof fn lemma_merge_tasks_step(start: Map<u64, TaskView>, theirs: Map<u64, TaskView>, seen: Set<u64>, id: u64)
    requires
        theirs.contains_key(id),
    ensures
        ({
            let prior = merged_tasks(start, theirs.restrict(seen));
            let after = merged_tasks(start, theirs.restrict(seen.insert(id)));
            if task_taken(prior, theirs, id) {
                after == prior.insert(id, theirs[id])
            } else {
                after == prior
            }
        }),
{
    let prior = merged_tasks(start, theirs.restrict(seen));
    let after = merged_tasks(start, theirs.restrict(seen.insert(id)));
    if start.contains_key(id) {
        crate::laws::task_order_is_strict_total(theirs[id], start[id], theirs[id]);
    } else {
        crate::laws::task_order_is_strict_total(theirs[id], theirs[id], theirs[id]);
    }
    if task_taken(prior, theirs, id) {
        assert(after =~= prior.insert(id, theirs[id]));
    } else {
        assert(after =~= prior);
    }
}

proof fn lemma_merge_toggles_step(start: Map<u64, ToggleView>, theirs: Map<u64, ToggleView>, seen: Set<u64>, id: u64)
    requires
        theirs.contains_key(id),
    ensures
        ({
            let prior = merged_toggles(start, theirs.restrict(seen));
            let after = merged_toggles(start, theirs.restrict(seen.insert(id)));
            if toggle_taken(prior, theirs, id) {
                after == prior.insert(id, theirs[id])
            } else {
                after == prior
            }
        }),
{
    let prior = merged_toggles(start, theirs.restrict(seen));
    let after = merged_toggles(start, theirs.restrict(seen.insert(id)));
    if start.contains_key(id) {
        crate::laws::toggle_order_is_strict_total(theirs[id], start[id], theirs[id]);
    } else {
        crate::laws::toggle_order_is_strict_total(theirs[id], theirs[id], theirs[id]);
    }
    if toggle_taken(prior, theirs, id) {
        assert(after =~= prior.insert(id, theirs[id]));
    } else {
        assert(after =~= prior);
    }
}

fn merge_tasks(mine: &mut BTreeMap<u64, SignedTask>, other: &BTreeMap<u64, SignedTask>)
    ensures
        task_views(final(mine)@) == merged_tasks(task_views(old(mine)@), task_views(other@)),
{
    let ghost start = task_views(mine@);
    let ghost theirs = task_views(other@);
    let ghost mut seen: Set<u64> = Set::empty();
    let ghost pairs = IteratorSpec::remaining(&spec_btree_map_iter(other));
    let ghost mut count: int = 0;
    assert(task_views(mine@) =~= merged_tasks(start, theirs.restrict(seen)));
    for pair in it: other.iter()
        invariant
            task_views(mine@) == merged_tasks(start, theirs.restrict(seen)),
            theirs == task_views(other@),
            it.seq() == pairs,
            count == it.index(),
            forall|j: int| 0 <= j < count ==> seen.contains(*#[trigger] pairs[j].0),
            seen.subset_of(other@.dom()),
    {
        let (id, task) = pair;
        assert(pairs[count] == (id, task));
        assert(other@.contains_key(*id) && other@[*id] == *task);
        proof {
            lemma_merge_tasks_step(start, theirs, seen, *id);
        }
        let valid = task.id == *id && match task.verify() {
            Ok(b) => b,
            Err(_) => false,
        };
        assert(task@.author.len() == 32 && task@.signature.len() == 64);
        if valid {
            let replace = match mine.get(id) {
                Some(existing) => task.supersedes(existing),
                None => true,
            };
            if replace {
                let entry = task.duplicate();
                proof {
                    lemma_task_views_insert(mine@, *id, entry);
                }
                mine.insert(*id, entry);
            }
        }
        proof {
            seen = seen.insert(*id);
            count = count + 1;
        }
        assert(task_views(mine@) =~= merged_tasks(start, theirs.restrict(seen)));
    }
    assert(count == pairs.len());
    assert forall|k: u64| other@.contains_key(k) implies seen.contains(k) by {
        assert(pairs.contains((&k, &other@[k])));
        let j = choose|j: int| 0 <= j < pairs.len() && pairs[j] == (&k, &other@[k]);
        assert(seen.contains(*pairs[j].0));
    }
    assert(theirs.restrict(seen) =~= theirs);
}

fn merge_toggles(mine: &mut BTreeMap<u64, SignedToggle>, other: &BTreeMap<u64, SignedToggle>)
    ensures
        toggle_views(final(mine)@) == merged_toggles(toggle_views(old(mine)@), toggle_views(other@)),
{
    let ghost start = toggle_views(mine@);
    let ghost theirs = toggle_views(other@);
    let ghost mut seen: Set<u64> = Set::empty();
    let ghost pairs = IteratorSpec::remaining(&spec_btree_map_iter(other));
    let ghost mut count: int = 0;
    assert(toggle_views(mine@) =~= merged_toggles(start, theirs.restrict(seen)));
    for pair in it: other.iter()
        invariant
            toggle_views(mine@) == merged_toggles(start, theirs.restrict(seen)),
            theirs == toggle_views(other@),
            it.seq() == pairs,
            count == it.index(),
            forall|j: int| 0 <= j < count ==> seen.contains(*#[trigger] pairs[j].0),
            seen.subset_of(other@.dom()),
    {
        let (task_id, toggle) = pair;
        assert(pairs[count] == (task_id, toggle));
        assert(other@.contains_key(*task_id) && other@[*task_id] == *toggle);
        proof {
            lemma_merge_toggles_step(start, theirs, seen, *task_id);
        }
        assert(toggle@.author.len() == 32 && toggle@.signature.len() == 64);
        let valid = toggle.task_id == *task_id && match toggle.verify() {
            Ok(b) => b,
            Err(_) => false,
        };
        if valid {
            let replace = match mine.get(task_id) {
                Some(existing) => toggle.supersedes(existing),
                None => true,
            };
            if replace {
                let entry = toggle.duplicate();
                proof {
                    lemma_toggle_views_insert(mine@, *task_id, entry);
                }
                mine.insert(*task_id, entry);
            }
        }
        proof {
            seen = seen.insert(*task_id);
            count = count + 1;
        }
        assert(toggle_views(mine@) =~= merged_toggles(start, theirs.restrict(seen)));
    }
    assert(count == pairs.len());
    assert forall|k: u64| other@.contains_key(k) implies seen.contains(k) by {
        assert(pairs.contains((&k, &other@[k])));
        let j = choose|j: int| 0 <= j < pairs.len() && pairs[j] == (&k, &other@[k]);
        assert(seen.contains(*pairs[j].0));
    }
    assert(theirs.restrict(seen) =~= theirs);
}

fn all_tasks_verify(tasks: &BTreeMap<u64, SignedTask>) -> (ok: bool)
    ensures
        ok == all_tasks_valid(task_views(tasks@)),
{
    let ghost pairs = IteratorSpec::remaining(&spec_btree_map_iter(tasks));
    let ghost mut count: int = 0;
    for pair in it: tasks.iter()
        invariant
            it.seq() == pairs,
            count == it.index(),
            forall|j: int|
                0 <= j < count ==> tasks@.contains_key(*#[trigger] pairs[j].0)
                    && task_entry_valid(*pairs[j].0, tasks@[*pairs[j].0]@),
    {
        let (id, task) = pair;
        let valid = task.id == *id && match task.verify() {
            Ok(b) => b,
            Err(_) => false,
        };
        assert(tasks@.contains_key(*pairs[count].0));
        assert(pairs[count] == (id, task));
        if !valid {
            assert(task_views(tasks@).contains_key(*id));
            return false;
        }
        proof {
            count = count + 1;
        }
    }
    assert(count == pairs.len());
    assert forall|k: u64| task_views(tasks@).contains_key(k) implies task_entry_valid(
        k,
        task_views(tasks@)[k],
    ) by {
        assert(pairs.contains((&k, &tasks@[k])));
        let j = choose|j: int| 0 <= j < pairs.len() && pairs[j] == (&k, &tasks@[k]);
        assert(tasks@.contains_key(*pairs[j].0));
    }
    true
}

fn all_toggles_verify(toggles: &BTreeMap<u64, SignedToggle>) -> (ok: bool)
    ensures
        ok == all_toggles_valid(toggle_views(toggles@)),
{
    let ghost pairs = IteratorSpec::remaining(&spec_btree_map_iter(toggles));
    let ghost mut count: int = 0;
    for pair in it: toggles.iter()
        invariant
            it.seq() == pairs,
            count == it.index(),
            forall|j: int|
                0 <= j < count ==> toggles@.contains_key(*#[trigger] pairs[j].0)
                    && toggle_entry_valid(*pairs[j].0, toggles@[*pairs[j].0]@),
    {
        let (id, toggle) = pair;
        let valid = toggle.task_id == *id && match toggle.verify() {
            Ok(b) => b,
            Err(_) => false,
        };
        assert(toggles@.contains_key(*pairs[count].0));
        assert(pairs[count] == (id, toggle));
        if !valid {
            assert(toggle_views(toggles@).contains_key(*id));
            return false;
        }
        proof {
            count = count + 1;
        }
    }
    assert(count == pairs.len());
    assert forall|k: u64| toggle_views(toggles@).contains_key(k) implies toggle_entry_valid(
        k,
        toggle_views(toggles@)[k],
    ) by {
        assert(pairs.contains((&k, &toggles@[k])));
        let j = choose|j: int| 0 <= j < pairs.len() && pairs[j] == (&k, &toggles@[k]);
        assert(toggles@.contains_key(*pairs[j].0));
    }
    true
}

impl TodoState {
    /// Whether every task and every toggle is filed under the id it was
    /// signed for and carries a valid signature.
    pub fn validate(&self) -> (ok: bool)
        ensures
            ok == self@.valid(),
    {
        all_tasks_verify(&self.tasks) && all_toggles_verify(&self.toggles)
    }

    /// Merges `other` into this state; entries of `other` whose signature
    /// does not verify, or that are filed under another id than the one
    /// they were signed for, are ignored.
    pub fn merge(&mut self, other: TodoState)
        ensures
            final(self)@ == old(self)@.merge(other@),
    {
        merge_tasks(&mut self.tasks, &other.tasks);
        merge_toggles(&mut self.toggles, &other.toggles);
    }
}

} // verus!
