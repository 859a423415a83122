//! Laws of the todo-list state: the signed messages tell entries apart, and
//! `TodoState::merge` makes the state a commutative monoid on validly
//! signed states, stated over the models that the contract of `merge`
//! describes.

use crate::todo::{
    accepted_task, accepted_toggle, bytes_lex_greater, merged_tasks, merged_toggles, task_entry_valid, task_message, task_rank,
    task_supersedes, task_tag, toggle_entry_valid, toggle_message, toggle_rank, toggle_supersedes,
    toggle_tag, TaskView, TodoModel, ToggleView,
};
use vstd::bytes::{
    lemma_auto_spec_u32_to_from_le_bytes, lemma_auto_spec_u64_to_from_le_bytes,
    spec_u64_from_le_bytes, spec_u64_to_le_bytes,
};
use vstd::prelude::*;
use vstd::utf8::{decode_utf8, encode_utf8};

verus! {

proof fn lemma_lex_irreflexive(a: Seq<u8>)
    ensures
        !bytes_lex_greater(a, a),
    decreases a.len(),
{
    if a.len() > 0 {
        lemma_lex_irreflexive(a.drop_first());
    }
}

proof fn lemma_lex_asymmetric(a: Seq<u8>, b: Seq<u8>)
    requires
        bytes_lex_greater(a, b),
    ensures
        !bytes_lex_greater(b, a),
    decreases a.len(),
{
    if a.len() > 0 && b.len() > 0 && a[0] == b[0] {
        lemma_lex_asymmetric(a.drop_first(), b.drop_first());
    }
}

proof fn lemma_lex_transitive(a: Seq<u8>, b: Seq<u8>, c: Seq<u8>)
    requires
        bytes_lex_greater(a, b),
        bytes_lex_greater(b, c),
    ensures
        bytes_lex_greater(a, c),
    decreases a.len(),
{
    if c.len() > 0 && a[0] == b[0] && b[0] == c[0] {
        lemma_lex_transitive(a.drop_first(), b.drop_first(), c.drop_first());
    }
}

proof fn lemma_lex_total(a: Seq<u8>, b: Seq<u8>)
    requires
        a != b,
    ensures
        bytes_lex_greater(a, b) || bytes_lex_greater(b, a),
    decreases a.len(),
{
    if a.len() == 0 && b.len() == 0 {
        assert(a =~= b);
    } else if a.len() > 0 && b.len() > 0 && a[0] == b[0] {
        if a.drop_first() == b.drop_first() {
            assert(a.len() == b.len()) by {
                assert(a.drop_first().len() == b.drop_first().len());
            }
            assert(a =~= b) by {
                assert forall|i: int| 0 <= i < a.len() implies a[i] == b[i] by {
                    if i > 0 {
                        assert(a[i] == a.drop_first()[i - 1]);
                        assert(b[i] == b.drop_first()[i - 1]);
                    }
                }
            }
        }
        lemma_lex_total(a.drop_first(), b.drop_first());
    }
}

proof fn lemma_task_message_parts(t: TaskView)
    ensures
        task_message(t).len() == 30 + encode_utf8(t.text).len(),
        task_message(t).subrange(10, 18) == spec_u64_to_le_bytes(t.id),
        task_message(t).subrange(22, 22 + encode_utf8(t.text).len() as int) == encode_utf8(t.text),
        task_message(t).subrange(22 + encode_utf8(t.text).len() as int, 30 + encode_utf8(t.text).len() as int)
            == spec_u64_to_le_bytes(t.created_at as u64),
{
    lemma_auto_spec_u64_to_from_le_bytes();
    lemma_auto_spec_u32_to_from_le_bytes();
    let m = task_message(t);
    let e = encode_utf8(t.text);
    assert(m.subrange(10, 18) =~= spec_u64_to_le_bytes(t.id));
    assert(m.subrange(22, 22 + e.len() as int) =~= e);
    assert(m.subrange(22 + e.len() as int, 30 + e.len() as int) =~= spec_u64_to_le_bytes(t.created_at as u64));
}

proof fn lemma_toggle_message_parts(t: ToggleView)
    ensures
        toggle_message(t).len() == 29,
        toggle_message(t).subrange(12, 20) == spec_u64_to_le_bytes(t.task_id),
        toggle_message(t)[20] == (if t.done { 1u8 } else { 0u8 }),
        toggle_message(t).subrange(21, 29) == spec_u64_to_le_bytes(t.ts as u64),
{
    lemma_auto_spec_u64_to_from_le_bytes();
    let m = toggle_message(t);
    assert(m.subrange(12, 20) =~= spec_u64_to_le_bytes(t.task_id));
    assert(m.subrange(21, 29) =~= spec_u64_to_le_bytes(t.ts as u64));
}

proof fn lemma_i64_bits_injective(x: i64, y: i64)
    requires
        x as u64 == y as u64,
    ensures
        x == y,
{
    assert(x as u64 == y as u64 ==> x == y) by (bit_vector);
}

/// The message a task's author signs is 30 bytes longer than the UTF-8
/// text, and two tasks sign the same message exactly when they have the
/// same id, text and creation time (author and signature do not enter it).
pub proof fn task_messages_tell_tasks_apart(a: TaskView, b: TaskView)
    ensures
        task_message(a).len() == 30 + encode_utf8(a.text).len(),
        task_message(a) == task_message(b) <==> (a.id == b.id && a.text == b.text && a.created_at
            == b.created_at),
{
    lemma_task_message_parts(a);
    lemma_task_message_parts(b);
    lemma_auto_spec_u64_to_from_le_bytes();
    if task_message(a) == task_message(b) {
        let (ea, eb) = (encode_utf8(a.text), encode_utf8(b.text));
        assert(ea.len() == eb.len());
        assert(spec_u64_from_le_bytes(spec_u64_to_le_bytes(a.id)) == spec_u64_from_le_bytes(
            spec_u64_to_le_bytes(b.id),
        ));
        assert(spec_u64_from_le_bytes(spec_u64_to_le_bytes(a.created_at as u64))
            == spec_u64_from_le_bytes(spec_u64_to_le_bytes(b.created_at as u64)));
        lemma_i64_bits_injective(a.created_at, b.created_at);
        assert(ea == eb);
        vstd::utf8::encode_utf8_decode_utf8(a.text);
        vstd::utf8::encode_utf8_decode_utf8(b.text);
        assert(decode_utf8(ea) == decode_utf8(eb));
    }
}

/// A toggle's signed message is 29 bytes, and two toggles sign the same
/// message exactly when they have the same task id, mark and timestamp.
pub proof fn toggle_messages_tell_toggles_apart(g: ToggleView, h: ToggleView)
    ensures
        toggle_message(g).len() == 29,
        toggle_message(g) == toggle_message(h) <==> (g.task_id == h.task_id && g.done == h.done
            && g.ts == h.ts),
{
    lemma_toggle_message_parts(g);
    lemma_toggle_message_parts(h);
    lemma_auto_spec_u64_to_from_le_bytes();
    if toggle_message(g) == toggle_message(h) {
        assert(spec_u64_from_le_bytes(spec_u64_to_le_bytes(g.task_id)) == spec_u64_from_le_bytes(
            spec_u64_to_le_bytes(h.task_id),
        ));
        assert(spec_u64_from_le_bytes(spec_u64_to_le_bytes(g.ts as u64)) == spec_u64_from_le_bytes(
            spec_u64_to_le_bytes(h.ts as u64),
        ));
        lemma_i64_bits_injective(g.ts, h.ts);
    }
}

/// A task's signed message is never a toggle's: the tags differ, so a task
/// signature never verifies as a toggle signature.
pub proof fn task_and_toggle_messages_differ(t: TaskView, g: ToggleView)
    ensures
        task_message(t) != toggle_message(g),
        task_message(t)[6] != toggle_message(g)[6],
{
    lemma_task_message_parts(t);
    lemma_toggle_message_parts(g);
    assert(task_message(t)[6] == task_tag()[6]);
    assert(toggle_message(g)[6] == toggle_tag()[6]);
}

proof fn lemma_task_rank_injective(a: TaskView, b: TaskView)
    requires
        a.author.len() == 32,
        a.signature.len() == 64,
        b.author.len() == 32,
        b.signature.len() == 64,
        task_rank(a) == task_rank(b),
    ensures
        a == b,
{
    let (ra, rb) = (task_rank(a), task_rank(b));
    assert(ra.subrange(0, 64) =~= a.signature);
    assert(rb.subrange(0, 64) =~= b.signature);
    assert(ra.subrange(64, 96) =~= a.author);
    assert(rb.subrange(64, 96) =~= b.author);
    assert(ra.subrange(96, ra.len() as int) =~= task_message(a));
    assert(rb.subrange(96, rb.len() as int) =~= task_message(b));
    task_messages_tell_tasks_apart(a, b);
}

proof fn lemma_toggle_rank_injective(a: ToggleView, b: ToggleView)
    requires
        a.author.len() == 32,
        a.signature.len() == 64,
        b.author.len() == 32,
        b.signature.len() == 64,
        toggle_rank(a) == toggle_rank(b),
    ensures
        a == b,
{
    let (ra, rb) = (toggle_rank(a), toggle_rank(b));
    assert(ra.subrange(0, 64) =~= a.signature);
    assert(rb.subrange(0, 64) =~= b.signature);
    assert(ra.subrange(64, 96) =~= a.author);
    assert(rb.subrange(64, 96) =~= b.author);
    assert(ra.subrange(96, ra.len() as int) =~= toggle_message(a));
    assert(rb.subrange(96, rb.len() as int) =~= toggle_message(b));
    toggle_messages_tell_toggles_apart(a, b);
}

/// The order that decides between two tasks under one id is a strict
/// order, total on well-formed tasks: of two different tasks with 32-byte
/// keys and 64-byte signatures, exactly one supersedes the other.
pub proof fn task_order_is_strict_total(x: TaskView, y: TaskView, z: TaskView)
    ensures
        !task_supersedes(x, x),
        task_supersedes(x, y) ==> !task_supersedes(y, x),
        task_supersedes(x, y) && task_supersedes(y, z) ==> task_supersedes(x, z),
        !task_supersedes(x, y) && !task_supersedes(y, x) ==> task_rank(x) == task_rank(y),
        x.author.len() == 32 && x.signature.len() == 64 && y.author.len() == 32
            && y.signature.len() == 64 && x != y ==> task_supersedes(x, y) || task_supersedes(
            y,
            x,
        ),
{
    lemma_lex_irreflexive(task_rank(x));
    if task_supersedes(x, y) {
        lemma_lex_asymmetric(task_rank(x), task_rank(y));
    }
    if task_supersedes(x, y) && task_supersedes(y, z) {
        lemma_lex_transitive(task_rank(x), task_rank(y), task_rank(z));
    }
    if task_rank(x) != task_rank(y) {
        lemma_lex_total(task_rank(x), task_rank(y));
    }
    if x.author.len() == 32 && x.signature.len() == 64 && y.author.len() == 32
        && y.signature.len() == 64 && task_rank(x) == task_rank(y) {
        lemma_task_rank_injective(x, y);
    }
}

/// The order that decides between two toggles for one task is a strict
/// order, total on well-formed toggles: of two different toggles with
/// 32-byte keys and 64-byte signatures, exactly one supersedes the other.
pub proof fn toggle_order_is_strict_total(x: ToggleView, y: ToggleView, z: ToggleView)
    ensures
        !toggle_supersedes(x, x),
        toggle_supersedes(x, y) ==> !toggle_supersedes(y, x),
        toggle_supersedes(x, y) && toggle_supersedes(y, z) ==> toggle_supersedes(x, z),
        !toggle_supersedes(x, y) && !toggle_supersedes(y, x) ==> x.ts == y.ts && toggle_rank(x)
            == toggle_rank(y),
        x.author.len() == 32 && x.signature.len() == 64 && y.author.len() == 32
            && y.signature.len() == 64 && x != y ==> toggle_supersedes(x, y) || toggle_supersedes(
            y,
            x,
        ),
{
    lemma_lex_irreflexive(toggle_rank(x));
    if toggle_supersedes(x, y) && x.ts == y.ts {
        lemma_lex_asymmetric(toggle_rank(x), toggle_rank(y));
    }
    if toggle_supersedes(x, y) && toggle_supersedes(y, z) && x.ts == y.ts && y.ts == z.ts {
        lemma_lex_transitive(toggle_rank(x), toggle_rank(y), toggle_rank(z));
    }
    if toggle_rank(x) != toggle_rank(y) {
        lemma_lex_total(toggle_rank(x), toggle_rank(y));
    }
    if x.author.len() == 32 && x.signature.len() == 64 && y.author.len() == 32
        && y.signature.len() == 64 && x.ts == y.ts && toggle_rank(x) == toggle_rank(y) {
        lemma_toggle_rank_injective(x, y);
    }
}

/// Merging a state with itself changes nothing.
pub proof fn merge_is_idempotent(a: TodoModel)
    ensures
        a.merge(a) == a,
{
    assert forall|id: u64| a.tasks.contains_key(id) implies !task_supersedes(
        a.tasks[id],
        a.tasks[id],
    ) by {
        task_order_is_strict_total(a.tasks[id], a.tasks[id], a.tasks[id]);
    }
    assert forall|id: u64| a.toggles.contains_key(id) implies !toggle_supersedes(
        a.toggles[id],
        a.toggles[id],
    ) by {
        toggle_order_is_strict_total(a.toggles[id], a.toggles[id], a.toggles[id]);
    }
    assert(merged_tasks(a.tasks, a.tasks) =~= a.tasks);
    assert(merged_toggles(a.toggles, a.toggles) =~= a.toggles);
}

/// Merging the empty state into a state changes nothing.
pub proof fn merge_with_empty_is_identity(a: TodoModel)
    ensures
        a.merge(TodoModel::empty()) == a,
{
    assert(merged_tasks(a.tasks, Map::empty()) =~= a.tasks);
    assert(merged_toggles(a.toggles, Map::empty()) =~= a.toggles);
}

/// Merging a valid state into the empty state gives that state.
pub proof fn empty_merged_with_valid_state_is_that_state(b: TodoModel)
    requires
        b.valid(),
    ensures
        TodoModel::empty().merge(b) == b,
{
    assert(merged_tasks(Map::empty(), b.tasks) =~= b.tasks);
    assert(merged_toggles(Map::empty(), b.toggles) =~= b.toggles);
}

/// Merge is commutative on valid states: replicas that merge the same two
/// states in either order hold the same state.
pub proof fn merge_is_commutative(a: TodoModel, b: TodoModel)
    requires
        a.valid(),
        b.valid(),
    ensures
        a.merge(b) == b.merge(a),
{
    let (ta, tb) = (a.tasks, b.tasks);
    assert forall|id: u64| ta.contains_key(id) && tb.contains_key(id) implies (
    #[trigger] merged_tasks(ta, tb)[id]) == merged_tasks(tb, ta)[id] by {
        assert(task_entry_valid(id, ta[id]));
        assert(task_entry_valid(id, tb[id]));
        task_order_is_strict_total(ta[id], tb[id], ta[id]);
    }
    let (ga, gb) = (a.toggles, b.toggles);
    assert forall|id: u64| ga.contains_key(id) && gb.contains_key(id) implies (
    #[trigger] merged_toggles(ga, gb)[id]) == merged_toggles(gb, ga)[id] by {
        assert(toggle_entry_valid(id, ga[id]));
        assert(toggle_entry_valid(id, gb[id]));
        toggle_order_is_strict_total(ga[id], gb[id], ga[id]);
    }
    assert(merged_tasks(ta, tb) =~= merged_tasks(tb, ta));
    assert(merged_toggles(ga, gb) =~= merged_toggles(gb, ga));
}

/// Merge is associative when the middle state is valid.
pub proof fn merge_is_associative(a: TodoModel, b: TodoModel, c: TodoModel)
    requires
        b.valid(),
    ensures
        a.merge(b).merge(c) == a.merge(b.merge(c)),
{
    let (ta, tb, tc) = (a.tasks, b.tasks, c.tasks);
    let lt = merged_tasks(merged_tasks(ta, tb), tc);
    let rt = merged_tasks(ta, merged_tasks(tb, tc));
    assert forall|id: u64| #[trigger] lt.contains_key(id) implies rt.contains_key(id) && lt[id]
        == rt[id] by {
        if ta.contains_key(id) && tb.contains_key(id) && tc.contains_key(id) {
            task_order_is_strict_total(tc[id], tb[id], ta[id]);
            task_order_is_strict_total(tb[id], tc[id], ta[id]);
            task_order_is_strict_total(tc[id], ta[id], tb[id]);
            task_order_is_strict_total(ta[id], tc[id], tb[id]);
            task_order_is_strict_total(tb[id], ta[id], tc[id]);
            task_order_is_strict_total(ta[id], tb[id], tc[id]);
        }
    }
    assert(lt =~= rt);
    let (ga, gb, gc) = (a.toggles, b.toggles, c.toggles);
    let lhs = merged_toggles(merged_toggles(ga, gb), gc);
    let rhs = merged_toggles(ga, merged_toggles(gb, gc));
    assert forall|id: u64| #[trigger] lhs.contains_key(id) implies rhs.contains_key(id) && lhs[id]
        == rhs[id] by {
        if ga.contains_key(id) && gb.contains_key(id) && gc.contains_key(id) {
            toggle_order_is_strict_total(gc[id], gb[id], ga[id]);
            toggle_order_is_strict_total(gb[id], gc[id], ga[id]);
            toggle_order_is_strict_total(gc[id], ga[id], gb[id]);
            toggle_order_is_strict_total(ga[id], gc[id], gb[id]);
            toggle_order_is_strict_total(gb[id], ga[id], gc[id]);
            toggle_order_is_strict_total(ga[id], gb[id], gc[id]);
        }
    }
    assert(lhs =~= rhs);
}

/// Merging into a valid state keeps it valid.
pub proof fn merge_preserves_validity(a: TodoModel, b: TodoModel)
    requires
        a.valid(),
    ensures
        a.merge(b).valid(),
{
}

/// A re-delivered state changes nothing: merging the same state in a
/// second time gives what the first merge gave.
pub proof fn merge_absorbs_redelivery(s: TodoModel, o: TodoModel)
    ensures
        s.merge(o).merge(o) == s.merge(o),
{
    let m = s.merge(o);
    assert forall|id: u64| #[trigger] accepted_task(o.tasks, id) && m.tasks.contains_key(id)
        implies !task_supersedes(o.tasks[id], m.tasks[id]) by {
        task_order_is_strict_total(o.tasks[id], m.tasks[id], o.tasks[id]);
        if s.tasks.contains_key(id) {
            task_order_is_strict_total(s.tasks[id], o.tasks[id], s.tasks[id]);
        }
    }
    assert forall|id: u64| #[trigger] accepted_toggle(o.toggles, id) && m.toggles.contains_key(id)
        implies !toggle_supersedes(o.toggles[id], m.toggles[id]) by {
        toggle_order_is_strict_total(o.toggles[id], m.toggles[id], o.toggles[id]);
        if s.toggles.contains_key(id) {
            toggle_order_is_strict_total(s.toggles[id], o.toggles[id], s.toggles[id]);
        }
    }
    assert(merged_tasks(m.tasks, o.tasks) =~= m.tasks);
    assert(merged_toggles(m.toggles, o.toggles) =~= m.toggles);
}

/// A merge never forgets: every task id and every toggled task id stays,
/// and its entry is never replaced by one it supersedes.
pub proof fn merge_never_forgets(a: TodoModel, b: TodoModel)
    ensures
        forall|id: u64| #[trigger]
            a.tasks.contains_key(id) ==> a.merge(b).tasks.contains_key(id) && !task_supersedes(
                a.tasks[id],
                a.merge(b).tasks[id],
            ),
        forall|id: u64| #[trigger]
            a.toggles.contains_key(id) ==> a.merge(b).toggles.contains_key(id)
                && !toggle_supersedes(a.toggles[id], a.merge(b).toggles[id]),
{
    assert forall|id: u64| #[trigger] a.tasks.contains_key(id) implies !task_supersedes(
        a.tasks[id],
        a.merge(b).tasks[id],
    ) by {
        task_order_is_strict_total(a.tasks[id], a.tasks[id], a.tasks[id]);
        if b.tasks.contains_key(id) {
            task_order_is_strict_total(b.tasks[id], a.tasks[id], a.tasks[id]);
        }
    }
    assert forall|id: u64| #[trigger] a.toggles.contains_key(id) implies !toggle_supersedes(
        a.toggles[id],
        a.merge(b).toggles[id],
    ) by {
        toggle_order_is_strict_total(a.toggles[id], a.toggles[id], a.toggles[id]);
        if b.toggles.contains_key(id) {
            toggle_order_is_strict_total(b.toggles[id], a.toggles[id], a.toggles[id]);
        }
    }
}

/// Only signed entries get in: every entry that a merge adds, or puts in
/// place of an existing one, comes from the other state, is filed under the
/// id it was signed for, and carries a valid signature.
pub proof fn merge_admits_only_signed_entries(a: TodoModel, b: TodoModel)
    ensures
        forall|id: u64| #[trigger]
            a.merge(b).tasks.contains_key(id) && !(a.tasks.contains_key(id) && a.merge(b).tasks[id]
                == a.tasks[id]) ==> (b.tasks.contains_key(id) && a.merge(b).tasks[id]
                == b.tasks[id] && task_entry_valid(id, b.tasks[id])),
        forall|id: u64| #[trigger]
            a.merge(b).toggles.contains_key(id) && !(a.toggles.contains_key(id) && a.merge(
                b,
            ).toggles[id] == a.toggles[id]) ==> (b.toggles.contains_key(id) && a.merge(
                b,
            ).toggles[id] == b.toggles[id] && toggle_entry_valid(id, b.toggles[id])),
{
}

/// A merge takes from the other state only its admitted entries, which
/// form a valid state: entries that are misfiled, malformed or unsigned
/// change nothing.
pub proof fn merge_sees_only_admitted_entries(a: TodoModel, b: TodoModel)
    ensures
        a.merge(b) == a.merge(b.admitted()),
        b.admitted().valid(),
{
    assert(merged_tasks(a.tasks, b.tasks) =~= merged_tasks(a.tasks, b.admitted().tasks));
    assert(merged_toggles(a.toggles, b.toggles) =~= merged_toggles(a.toggles, b.admitted().toggles));
}

/// Merging keeps a state whose entries all carry valid signatures in that
/// condition.
pub proof fn merge_keeps_entries_signed(a: TodoModel, b: TodoModel)
    requires
        a.signed(),
    ensures
        a.merge(b).signed(),
{
}

} // verus!
