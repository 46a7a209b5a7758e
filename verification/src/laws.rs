//! Laws relating whole sequences of operations, proved over the same
//! specification functions the executable operations are contracted against.

use crate::state::{
    StateView, TaskView, create_spec, delete_spec, init_view, with_pending, without_id,
};
use crate::text::trim_spec;
use vstd::prelude::*;

verus! {

/// One user-level create-task call: type `input` into the pending field,
/// then create.
pub open spec fn create_call_spec(v: StateView, input: Seq<char>) -> StateView {
    create_spec(with_pending(v, input))
}

/// The state after a whole sequence of create-task calls, one per input,
/// starting from `v`.
pub open spec fn run_creates(v: StateView, inputs: Seq<Seq<char>>) -> StateView
    decreases inputs.len(),
{
    if inputs.len() == 0 {
        v
    } else {
        run_creates(create_call_spec(v, inputs[0]), inputs.drop_first())
    }
}

/// How many of the inputs survive trimming, so how many calls take effect.
pub open spec fn effective_count(inputs: Seq<Seq<char>>) -> nat
    decreases inputs.len(),
{
    if inputs.len() == 0 {
        0
    } else {
        (if trim_spec(inputs[0]).len() > 0 {
            1nat
        } else {
            0nat
        }) + effective_count(inputs.drop_first())
    }
}

/// A state whose task ids are exactly the positions in the list, with the
/// counter just past them; every state reachable by creates alone looks so.
pub open spec fn consecutive_ids(v: StateView) -> bool {
    &&& v.next_id == v.tasks.len()
    &&& forall|i: int| #![trigger v.tasks[i]] 0 <= i < v.tasks.len() ==> v.tasks[i].id == i
}

proof fn lemma_run_creates_consecutive(v: StateView, inputs: Seq<Seq<char>>)
    requires
        consecutive_ids(v),
    ensures
        consecutive_ids(run_creates(v, inputs)),
        run_creates(v, inputs).tasks.len() == v.tasks.len() + effective_count(inputs),
    decreases inputs.len(),
{
    if inputs.len() > 0 {
        let v1 = create_call_spec(v, inputs[0]);
        assert(consecutive_ids(v1)) by {
            if trim_spec(inputs[0]).len() > 0 {
                let t = v1.tasks;
                assert forall|i: int| 0 <= i < t.len() implies t[i].id == i by {
                    if i < v.tasks.len() {
                        assert(t[i] == v.tasks[i]);
                    } else {
                        assert(t[i] == t.last());
                    }
                }
            }
        }
        lemma_run_creates_consecutive(v1, inputs.drop_first());
    }
}

/// After any sequence of create-task calls from the initial state, the list
/// holds exactly one task per input whose trimmed text was non-empty, and the
/// ids along the list are the consecutive integers from zero: strictly
/// increasing, no gap, no repeat.
pub proof fn lemma_create_sequence_ids(inputs: Seq<Seq<char>>)
    ensures
        ({
            let v = run_creates(init_view(), inputs);
            &&& v.tasks.len() == effective_count(inputs)
            &&& forall|i: int| #![trigger v.tasks[i]] 0 <= i < v.tasks.len() ==> v.tasks[i].id == i
            &&& forall|i: int, j: int|
                #![trigger v.tasks[i], v.tasks[j]]
                0 <= i < j < v.tasks.len() ==> v.tasks[i].id < v.tasks[j].id
        }),
{
    lemma_run_creates_consecutive(init_view(), inputs);
}

proof fn lemma_without_id_absent(s: Seq<TaskView>, id: nat)
    requires
        forall|i: int| #![trigger s[i]] 0 <= i < s.len() ==> s[i].id != id,
    ensures
        without_id(s, id) == s,
    decreases s.len(),
{
    if s.len() > 0 {
        let d = s.drop_last();
        assert(forall|i: int| #![trigger d[i]] 0 <= i < d.len() ==> d[i] == s[i]);
        lemma_without_id_absent(d, id);
        assert(s.last() == s[s.len() - 1]);
        assert(without_id(s, id) == d.push(s.last()));
        assert(d.push(s.last()) =~= s);
    }
}

/// Deleting an id that no live task carries changes nothing: same length,
/// same order, same contents, and the rest of the state untouched.
pub proof fn lemma_delete_absent(v: StateView, id: nat)
    requires
        forall|i: int| #![trigger v.tasks[i]] 0 <= i < v.tasks.len() ==> v.tasks[i].id != id,
    ensures
        delete_spec(v, id) == v,
{
    lemma_without_id_absent(v.tasks, id);
    assert(delete_spec(v, id) =~= v);
}

} // verus!
