//! The component state and its transitions: a greeting form whose submission
//! is decided here and carried out by the surrounding shell, and an in-memory
//! task list with validated creation and deletion by id.

use crate::text::{trim, trim_spec, lemma_trim_idempotent};
use vstd::prelude::*;

verus! {

/// Mathematical image of one task.
#[verifier::ext_equal]
pub ghost struct TaskView {
    pub id: nat,
    pub content: Seq<char>,
    pub completed: bool,
}

/// Mathematical image of the whole component state.
#[verifier::ext_equal]
pub ghost struct StateView {
    /// The name typed into the greeting form.
    pub name: Seq<char>,
    /// The most recently received greeting, empty until one arrives.
    pub greet_msg: Seq<char>,
    /// The not-yet-submitted text for a new task.
    pub pending: Seq<char>,
    /// The live tasks, in insertion order.
    pub tasks: Seq<TaskView>,
    /// The id the next created task will get; never reused, never reset.
    pub next_id: nat,
}

/// The state every component starts from: everything empty, ids from zero.
pub open spec fn init_view() -> StateView {
    StateView {
        name: Seq::empty(),
        greet_msg: Seq::empty(),
        pending: Seq::empty(),
        tasks: Seq::empty(),
        next_id: 0,
    }
}

/// `v` with the greeting-form name replaced.
pub open spec fn with_name(v: StateView, name: Seq<char>) -> StateView {
    StateView {
        name: name,
        greet_msg: v.greet_msg,
        pending: v.pending,
        tasks: v.tasks,
        next_id: v.next_id,
    }
}

/// `v` with the pending task input replaced.
pub open spec fn with_pending(v: StateView, pending: Seq<char>) -> StateView {
    StateView {
        name: v.name,
        greet_msg: v.greet_msg,
        pending: pending,
        tasks: v.tasks,
        next_id: v.next_id,
    }
}

/// `v` with the greeting message replaced.
pub open spec fn with_greet_msg(v: StateView, msg: Seq<char>) -> StateView {
    StateView {
        name: v.name,
        greet_msg: msg,
        pending: v.pending,
        tasks: v.tasks,
        next_id: v.next_id,
    }
}

/// What creating a task does: if the trimmed pending input is empty, nothing;
/// otherwise append a task carrying the trimmed text and the next id, advance
/// the id counter, and clear the pending input.
pub open spec fn create_spec(v: StateView) -> StateView {
    let content = trim_spec(v.pending);
    if content.len() == 0 {
        v
    } else {
        StateView {
            name: v.name,
            greet_msg: v.greet_msg,
            pending: Seq::empty(),
            tasks: v.tasks.push(TaskView { id: v.next_id, content: content, completed: false }),
            next_id: v.next_id + 1,
        }
    }
}

/// The subsequence of `s` whose tasks do not carry `id`, in unchanged order.
pub open spec fn without_id(s: Seq<TaskView>, id: nat) -> Seq<TaskView>
    decreases s.len(),
{
    if s.len() == 0 {
        Seq::empty()
    } else {
        let rest = without_id(s.drop_last(), id);
        if s.last().id == id {
            rest
        } else {
            rest.push(s.last())
        }
    }
}

/// What deleting by id does: drop every task carrying `id` (at most one, as
/// ids are unique), keeping all others in their relative order.
pub open spec fn delete_spec(v: StateView, id: nat) -> StateView {
    StateView {
        name: v.name,
        greet_msg: v.greet_msg,
        pending: v.pending,
        tasks: without_id(v.tasks, id),
        next_id: v.next_id,
    }
}

/// What submitting the greeting form decides: with an empty name nothing is
/// sent; otherwise the name is sent exactly as typed, untrimmed.
pub open spec fn greet_request_spec(v: StateView) -> Option<Seq<char>> {
    if v.name.len() == 0 {
        None
    } else {
        Some(v.name)
    }
}

/// One task as the list invariant demands it: id below the counter, content
/// non-empty and already trimmed, completion flag never set (no operation in
/// scope toggles it).
pub open spec fn task_ok(t: TaskView, bound: nat) -> bool {
    &&& t.id < bound
    &&& t.content.len() > 0
    &&& trim_spec(t.content) == t.content
    &&& !t.completed
}

/// Every task in the list is as the invariant demands.
pub open spec fn tasks_ok(s: Seq<TaskView>, bound: nat) -> bool {
    forall|i: int| #![trigger s[i]] 0 <= i < s.len() ==> task_ok(s[i], bound)
}

/// Task ids grow strictly along the list, so they are unique.
pub open spec fn ids_increasing(s: Seq<TaskView>) -> bool {
    forall|i: int, j: int| #![trigger s[i], s[j]] 0 <= i < j < s.len() ==> s[i].id < s[j].id
}

/// The state invariant every operation preserves.
pub open spec fn wf_view(v: StateView) -> bool {
    &&& tasks_ok(v.tasks, v.next_id)
    &&& ids_increasing(v.tasks)
}

/// One user-entered to-do item.
pub struct Task {
    /// Unique among live tasks; assigned from the counter, never reused.
    pub id: usize,
    /// The trimmed, non-empty text the user entered.
    pub content: String,
    /// Rendered as a checkbox but never toggled by any operation in scope.
    pub completed: bool,
}

impl View for Task {
    type V = TaskView;

    open spec fn view(&self) -> TaskView {
        TaskView { id: self.id as nat, content: self.content@, completed: self.completed }
    }
}

/// The task list as its mathematical image, element by element.
pub open spec fn tasks_view(ts: Seq<Task>) -> Seq<TaskView> {
    Seq::new(ts.len(), |i: int| ts[i]@)
}

/// The single-field payload the host command is invoked with.
pub struct GreetRequest {
    pub name: String,
}

/// All the mutable state of the component.
pub struct AppState {
    /// The name typed into the greeting form.
    pub name: String,
    /// The most recently received greeting, empty until one arrives.
    pub greet_msg: String,
    /// The not-yet-submitted text for a new task.
    pub new_input: String,
    /// The live tasks, in insertion order.
    pub tasks: Vec<Task>,
    /// The id the next created task will get.
    pub next_id: usize,
}

impl View for AppState {
    type V = StateView;

    open spec fn view(&self) -> StateView {
        StateView {
            name: self.name@,
            greet_msg: self.greet_msg@,
            pending: self.new_input@,
            tasks: tasks_view(self.tasks@),
            next_id: self.next_id as nat,
        }
    }
}

impl AppState {
    pub open spec fn wf(&self) -> bool {
        wf_view(self@)
    }

    /// Fresh component state: all fields empty, ids starting at zero.
    pub fn new() -> (s: AppState)
        ensures
            s@ == init_view(),
            s.wf(),
    {
        let s = AppState {
            name: String::new(),
            greet_msg: String::new(),
            new_input: String::new(),
            tasks: Vec::new(),
            next_id: 0,
        };
        proof {
            assert(tasks_view(s.tasks@) =~= Seq::<TaskView>::empty());
            assert(s@ =~= init_view());
        }
        s
    }

    /// Replace the greeting-form name, as typing into its input does.
    pub fn set_name(&mut self, value: String)
        ensures
            final(self)@ == with_name(old(self)@, value@),
            old(self).wf() ==> final(self).wf(),
    {
        self.name = value;
        proof {
            assert(self@ =~= with_name(old(self)@, self.name@));
        }
    }

    /// Replace the pending task text, as typing into its input does.
    pub fn set_new_input(&mut self, value: String)
        ensures
            final(self)@ == with_pending(old(self)@, value@),
            old(self).wf() ==> final(self).wf(),
    {
        self.new_input = value;
        proof {
            assert(self@ =~= with_pending(old(self)@, self.new_input@));
        }
    }

    /// Create a task from the pending input: trim it; if nothing is left the
    /// whole operation is a no-op, otherwise append a task carrying the
    /// trimmed text and the next id, advance the id counter by one, and clear
    /// the pending input.
    pub fn create_task(&mut self)
        requires
            old(self).wf(),
            old(self).next_id < usize::MAX,
        ensures
            final(self)@ == create_spec(old(self)@),
            final(self).wf(),
    {
        let content = trim(self.new_input.as_str());
        if !content.as_str().is_empty() {
            let id = self.next_id;
            self.tasks.push(Task { id: id, content: content, completed: false });
            self.next_id = id + 1;
            self.new_input = String::new();
            proof {
                let old_v = old(self)@;
                let t = TaskView {
                    id: old_v.next_id,
                    content: trim_spec(old_v.pending),
                    completed: false,
                };
                lemma_trim_idempotent(old_v.pending);
                assert(tasks_view(self.tasks@) =~= old_v.tasks.push(t));
                assert(self@ =~= create_spec(old_v));
                assert forall|i: int| 0 <= i < self@.tasks.len() implies task_ok(
                    self@.tasks[i],
                    self@.next_id,
                ) by {
                    if i < old_v.tasks.len() {
                        assert(task_ok(old_v.tasks[i], old_v.next_id));
                    }
                }
                assert forall|i: int, j: int| 0 <= i < j < self@.tasks.len() implies self@.tasks[i].id
                    < self@.tasks[j].id by {
                    if j < old_v.tasks.len() {
                        assert(old_v.tasks[i].id < old_v.tasks[j].id);
                    } else {
                        assert(task_ok(old_v.tasks[i], old_v.next_id));
                    }
                }
            }
        } else {
            proof {
                assert(self@ == create_spec(old(self)@));
            }
        }
    }

    /// Delete by id: remove every task whose id equals `task_id` (at most
    /// one, as ids are unique); all other tasks keep their relative order.
    /// With an id no live task carries, the list is left as it was.
    pub fn delete_task(&mut self, task_id: usize)
        requires
            old(self).wf(),
        ensures
            final(self)@ == delete_spec(old(self)@, task_id as nat),
            final(self).wf(),
    {
        let ghost orig = tasks_view(old(self).tasks@);
        let ghost tid = task_id as nat;
        let mut i: usize = 0;
        let ghost mut j: int = 0;
        proof {
            assert(orig.take(0) =~= Seq::<TaskView>::empty());
            assert(orig.skip(0) =~= orig);
            assert(tasks_view(self.tasks@) =~= without_id(orig.take(0), tid) + orig.skip(0));
            assert(tasks_view(self.tasks@) == without_id(orig.take(0), tid) + orig.skip(0));
        }
        while i < self.tasks.len()
            invariant
                tid == task_id as nat,
                orig == tasks_view(old(self).tasks@),
                0 <= j <= orig.len(),
                i as int == without_id(orig.take(j), tid).len(),
                tasks_view(self.tasks@) == without_id(orig.take(j), tid) + orig.skip(j),
                self.name@ == old(self).name@,
                self.greet_msg@ == old(self).greet_msg@,
                self.new_input@ == old(self).new_input@,
                self.next_id == old(self).next_id,
            decreases self.tasks.len() - i,
        {
            let ghost kept = without_id(orig.take(j), tid);
            let ghost pre_tasks = self.tasks@;
            proof {
                assert(i < pre_tasks.len());
                assert(j < orig.len());
                assert(tasks_view(pre_tasks) == kept + orig.skip(j));
                assert(tasks_view(pre_tasks).len() == pre_tasks.len());
                assert((kept + orig.skip(j)).len() == kept.len() + orig.skip(j).len());
                assert(orig.skip(j).len() == orig.len() - j);
                assert(pre_tasks.len() == kept.len() + (orig.len() - j));
                assert(orig.skip(j)[0] == orig[j]);
                assert((kept + orig.skip(j))[i as int] == orig.skip(j)[0]);
                assert(tasks_view(pre_tasks)[i as int] == pre_tasks[i as int]@);
                assert(pre_tasks[i as int]@ == orig[j]);
                assert(orig.take(j + 1).drop_last() =~= orig.take(j));
                assert(orig.take(j + 1).last() == orig[j]);
            }
            let hit = self.tasks[i].id == task_id;
            proof {
                assert(hit == (pre_tasks[i as int].id == task_id));
                assert(orig[j] == pre_tasks[i as int]@);
                assert(orig[j].id == pre_tasks[i as int].id as nat);
                assert((pre_tasks[i as int].id == task_id) == (pre_tasks[i as int].id as nat
                    == task_id as nat));
                assert(hit == (orig[j].id == tid));
            }
            if hit {
                self.tasks.remove(i);
                proof {
                    assert(orig[j].id == tid);
                    assert(without_id(orig.take(j + 1), tid) == kept);
                    assert(self.tasks@ == pre_tasks.remove(i as int));
                    assert(self.tasks@.len() == pre_tasks.len() - 1);
                    assert forall|k: int|
                        0 <= k < self.tasks@.len() implies tasks_view(self.tasks@)[k] == (kept
                        + orig.skip(j + 1))[k] by {
                        assert(tasks_view(self.tasks@)[k] == self.tasks@[k]@);
                        if k < i as int {
                            assert(pre_tasks.remove(i as int)[k] == pre_tasks[k]);
                            assert(tasks_view(pre_tasks)[k] == (kept + orig.skip(j))[k]);
                        } else {
                            assert(k + 1 - (i as int) < orig.len() - j);
                            assert(pre_tasks.remove(i as int)[k] == pre_tasks[k + 1]);
                            assert(tasks_view(pre_tasks)[k + 1] == (kept + orig.skip(j))[k + 1]);
                            assert((kept + orig.skip(j))[k + 1] == orig.skip(j)[k + 1 - i as int]);
                            assert(orig.skip(j)[k + 1 - i as int] == orig[j + k + 1 - i as int]);
                            assert((kept + orig.skip(j + 1))[k] == orig.skip(j + 1)[k - i as int]);
                            assert(orig.skip(j + 1)[k - i as int] == orig[j + 1 + k - i as int]);
                        }
                    }
                    assert(tasks_view(self.tasks@) =~= without_id(orig.take(j + 1), tid) + orig.skip(
                        j + 1,
                    ));
                    assert(tasks_view(self.tasks@) == without_id(orig.take(j + 1), tid) + orig.skip(
                        j + 1,
                    ));
                    j = j + 1;
                }
            } else {
                proof {
                    assert(orig[j].id != tid);
                    assert(without_id(orig.take(j + 1), tid) == kept.push(orig[j]));
                    assert forall|k: int|
                        0 <= k < self.tasks@.len() implies tasks_view(self.tasks@)[k] == (kept.push(
                        orig[j],
                    ) + orig.skip(j + 1))[k] by {
                        assert(tasks_view(self.tasks@)[k] == (kept + orig.skip(j))[k]);
                        if k > i as int {
                            assert(orig.skip(j)[k - i as int] == orig[j + k - i as int]);
                            assert(orig.skip(j + 1)[k - i as int - 1] == orig[j + k - i as int]);
                        }
                    }
                    assert(tasks_view(self.tasks@) =~= without_id(orig.take(j + 1), tid) + orig.skip(
                        j + 1,
                    ));
                    assert(tasks_view(self.tasks@) == without_id(orig.take(j + 1), tid) + orig.skip(
                        j + 1,
                    ));
                    j = j + 1;
                }
                i = i + 1;
            }
        }
        proof {
            let kept = without_id(orig.take(j), tid);
            assert(tasks_view(self.tasks@) == kept + orig.skip(j));
            assert(tasks_view(self.tasks@).len() == self.tasks@.len());
            assert((kept + orig.skip(j)).len() == kept.len() + orig.skip(j).len());
            assert(orig.skip(j).len() == orig.len() - j);
            assert(orig.skip(j).len() == 0);
            assert(j == orig.len());
            assert(orig.take(j) =~= orig);
            assert(tasks_view(self.tasks@) =~= without_id(orig, tid));
            assert(self@ =~= delete_spec(old(self)@, tid));
            lemma_without_id_tasks_ok(orig, tid, old(self)@.next_id);
            lemma_without_id_increasing(orig, tid);
        }
    }

    /// Decide a greeting submission: `None`, and nothing to send, exactly
    /// when the name is empty; otherwise the payload carries the name as
    /// typed, untrimmed.
    pub fn greet_request(&self) -> (r: Option<GreetRequest>)
        ensures
            r is Some <==> greet_request_spec(self@) is Some,
            r matches Some(req) ==> greet_request_spec(self@) == Some(req.name@),
    {
        if self.name.as_str().is_empty() {
            None
        } else {
            Some(GreetRequest { name: self.name.clone() })
        }
    }

    /// Record the host's reply to a greeting submission: it replaces the
    /// greeting message and touches nothing else.
    pub fn apply_greet_response(&mut self, msg: String)
        ensures
            final(self)@ == with_greet_msg(old(self)@, msg@),
            old(self).wf() ==> final(self).wf(),
    {
        self.greet_msg = msg;
        proof {
            assert(self@ =~= with_greet_msg(old(self)@, self.greet_msg@));
        }
    }
}

proof fn lemma_without_id_ids_below(s: Seq<TaskView>, id: nat, x: nat)
    requires
        forall|i: int| #![trigger s[i]] 0 <= i < s.len() ==> s[i].id < x,
    ensures
        forall|i: int|
            #![trigger without_id(s, id)[i]]
            0 <= i < without_id(s, id).len() ==> without_id(s, id)[i].id < x,
    decreases s.len(),
{
    if s.len() > 0 {
        let d = s.drop_last();
        assert(forall|i: int| #![trigger d[i]] 0 <= i < d.len() ==> d[i] == s[i]);
        lemma_without_id_ids_below(d, id, x);
        let r = without_id(s, id);
        let rest = without_id(d, id);
        if s.last().id != id {
            assert(r == rest.push(s.last()));
            assert(s.last() == s[s.len() - 1]);
            assert forall|i: int| 0 <= i < r.len() implies r[i].id < x by {
                if i < rest.len() {
                    assert(r[i] == rest[i]);
                } else {
                    assert(r[i] == s.last());
                }
            }
        }
    }
}

proof fn lemma_without_id_tasks_ok(s: Seq<TaskView>, id: nat, bound: nat)
    requires
        tasks_ok(s, bound),
    ensures
        tasks_ok(without_id(s, id), bound),
    decreases s.len(),
{
    if s.len() > 0 {
        assert(forall|i: int|
            #![trigger s.drop_last()[i]]
            0 <= i < s.drop_last().len() ==> s.drop_last()[i] == s[i]);
        lemma_without_id_tasks_ok(s.drop_last(), id, bound);
        assert(task_ok(s.last(), bound)) by {
            assert(s.last() == s[s.len() - 1]);
        }
    }
}

proof fn lemma_without_id_increasing(s: Seq<TaskView>, id: nat)
    requires
        ids_increasing(s),
    ensures
        ids_increasing(without_id(s, id)),
    decreases s.len(),
{
    if s.len() > 0 {
        let d = s.drop_last();
        assert(forall|i: int| #![trigger d[i]] 0 <= i < d.len() ==> d[i] == s[i]);
        lemma_without_id_increasing(d, id);
        if s.last().id != id {
            let rest = without_id(d, id);
            assert(forall|i: int| #![trigger d[i]] 0 <= i < d.len() ==> d[i].id < s.last().id) by {
                assert(forall|i: int|
                    #![trigger s[i]]
                    0 <= i < s.len() - 1 ==> s[i].id < s[s.len() - 1].id);
            }
            lemma_without_id_ids_below(d, id, s.last().id);
            let p = rest.push(s.last());
            assert forall|a: int, b: int| 0 <= a < b < p.len() implies p[a].id < p[b].id by {
                if b < rest.len() {
                    assert(rest[a].id < rest[b].id);
                } else {
                    assert(p[a] == rest[a]);
                    assert(rest[a].id < s.last().id);
                }
            }
        }
    }
}

/// The fixed name under which the host command is invoked.
pub fn greet_command_name() -> (r: &'static str)
    ensures
        r@ == "greet"@,
{
    "greet"
}

} // verus!
