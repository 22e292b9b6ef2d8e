//! What the buffer plugin's functions promise together.
use vstd::prelude::*;
use crate::plugin::buffer::base::BuffersManager;

verus! {

/// After `buffer.new` stored `content` under `index`, that buffer gives back
/// exactly `content`, and every other buffer is as it was.
pub proof fn lemma_content_after_new(before: BuffersManager, after: BuffersManager, index: usize, content: Seq<char>)
    requires
        before.wf(),
        index == before.next_index(),
        after.buffers() == before.buffers().insert(index, content),
    ensures
        after.buffers().dom().contains(index),
        after.buffers()[index] == content,
        forall|j: usize| j != index ==> #[trigger] after.buffers().dom().contains(j) == before.buffers().dom().contains(j),
        forall|j: usize| j != index && before.buffers().dom().contains(j) ==> #[trigger] after.buffers()[j] == before.buffers()[j],
{
}

/// A new buffer never takes the index of a buffer that exists.
pub proof fn lemma_new_index_is_fresh(buffers: BuffersManager)
    requires
        buffers.wf(),
    ensures
        !buffers.buffers().dom().contains(buffers.next_index()),
{
    buffers.lemma_indices_below_next();
}

/// After `buffer.delete` removed the buffer under `index`, asking for it
/// fails, and its index is never handed out again: the next index did not
/// go back, and every later index lies above it.
pub proof fn lemma_deleted_buffer_is_gone(before: BuffersManager, after: BuffersManager, index: usize)
    requires
        before.wf(),
        before.buffers().dom().contains(index),
        after.buffers() == before.buffers().remove(index),
        after.next_index() == before.next_index(),
    ensures
        !after.buffers().dom().contains(index),
        index < after.next_index(),
{
    before.lemma_indices_below_next();
}

/// `after` is `before` after a `buffer.new` or a `buffer.delete`, as those
/// functions state.
pub open spec fn buffer_step(before: BuffersManager, after: BuffersManager) -> bool {
    ||| {
        &&& after.next_index() == before.next_index() + 1
        &&& exists|content: Seq<char>| #[trigger] after.buffers() == before.buffers().insert(before.next_index(), content)
    }
    ||| {
        &&& after.next_index() == before.next_index()
        &&& exists|index: usize| #[trigger] after.buffers() == before.buffers().remove(index)
    }
}

/// Whether step `i` of `states` made a new buffer; its index is then
/// `states[i].next_index()`.
pub open spec fn made_new(states: Seq<BuffersManager>, i: int) -> bool {
    states[i + 1].next_index() == states[i].next_index() + 1
}

/// Over any run of `buffer.new` and `buffer.delete`, the indices of the
/// buffers made count up: no index is handed out twice, also after its
/// buffer was deleted.
pub proof fn lemma_indices_never_reused(states: Seq<BuffersManager>, i: int, j: int)
    requires
        forall|k: int| 0 <= k < states.len() - 1 ==> #[trigger] buffer_step(states[k], states[k + 1]),
        0 <= i < j < states.len() - 1,
        made_new(states, i),
        made_new(states, j),
    ensures
        states[i].next_index() < states[j].next_index(),
    decreases j - i,
{
    if j > i + 1 {
        let k = j - 1;
        assert(buffer_step(states[k], states[k + 1]));
        let k2 = i;
        assert(buffer_step(states[k2], states[k2 + 1]));
        if made_new(states, j - 1) {
            lemma_indices_never_reused(states, i, j - 1);
        } else {
            lemma_not_below(states, i + 1, j - 1);
        }
    }
}

proof fn lemma_not_below(states: Seq<BuffersManager>, i: int, j: int)
    requires
        forall|k: int| 0 <= k < states.len() - 1 ==> #[trigger] buffer_step(states[k], states[k + 1]),
        0 <= i <= j < states.len(),
    ensures
        states[i].next_index() <= states[j].next_index(),
    decreases j - i,
{
    if j > i {
        let k = j - 1;
        assert(buffer_step(states[k], states[k + 1]));
        lemma_not_below(states, i, j - 1);
    }
}

} // verus!
