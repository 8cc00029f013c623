//! The stream-backed task source: a reader loop parses one task per line
//! from the inbound channel and enqueues it; a writer loop dequeues outgoing
//! messages and emits one per line. The channel I/O and the line parsing at
//! the edge are the caller's; this module holds the shared queues and the
//! per-iteration decisions, in arrival order.

use vstd::prelude::*;
use crate::InvokeTask;

verus! {

/// One task as it arrives on the wire, one object per line.
#[derive(Clone, Debug)]
pub struct CliInvokeTask {
    pub revision: u32,
    pub toolchain_id: String,
    pub problem_id: String,
    pub invocation_id: u32,
    pub run_dir: String,
    pub invocation_dir: String,
}

/// The invoke task a wire task converts to, field for field.
pub open spec fn converted(c: CliInvokeTask, t: InvokeTask) -> bool {
    &&& t.revision == c.revision
    &&& t.toolchain_id == c.toolchain_id
    &&& t.problem_id == c.problem_id
    &&& t.invocation_id == c.invocation_id
    &&& t.run_dir == c.run_dir
    &&& t.invocation_dir == c.invocation_dir
}

/// Converts one wire task into the pipeline's invoke task, field for field.
pub fn convert_task(cli_invoke_task: CliInvokeTask) -> (t: InvokeTask)
    ensures
        converted(cli_invoke_task, t),
{
    InvokeTask {
        revision: cli_invoke_task.revision,
        toolchain_id: cli_invoke_task.toolchain_id,
        problem_id: cli_invoke_task.problem_id,
        invocation_id: cli_invoke_task.invocation_id,
        run_dir: cli_invoke_task.run_dir,
        invocation_dir: cli_invoke_task.invocation_dir,
    }
}

/// The state shared by the two loops: tasks in arrival order and outgoing
/// messages in emission order, both first in, first out.
pub struct BackgroundSource {
    pub tasks: Vec<InvokeTask>,
    pub messages: Vec<String>,
}

impl BackgroundSource {
    pub fn new() -> (r: BackgroundSource)
        ensures
            r.tasks@ == Seq::<InvokeTask>::empty(),
            r.messages@ == Seq::<String>::empty(),
    {
        BackgroundSource { tasks: Vec::new(), messages: Vec::new() }
    }

    /// Enqueues one discovered task at the back.
    pub fn add_task(&mut self, task: InvokeTask)
        ensures
            final(self).tasks@ == old(self).tasks@.push(task),
            final(self).messages == old(self).messages,
    {
        self.tasks.push(task);
    }

    /// Hands out up to `cnt` tasks, oldest first; the rest stay queued.
    pub fn load_tasks(&mut self, cnt: usize) -> (r: Vec<InvokeTask>)
        ensures
            r@.len() == (if cnt <= old(self).tasks@.len() { cnt as int } else {
                old(self).tasks@.len() as int
            }),
            r@ == old(self).tasks@.take(r@.len() as int),
            final(self).tasks@ == old(self).tasks@.skip(r@.len() as int),
            final(self).messages == old(self).messages,
    {
        let mut out: Vec<InvokeTask> = Vec::new();
        while out.len() < cnt && self.tasks.len() > 0
            invariant
                out@.len() <= cnt,
                out@.len() <= old(self).tasks@.len(),
                out@ == old(self).tasks@.take(out@.len() as int),
                self.tasks@ == old(self).tasks@.skip(out@.len() as int),
                self.messages == old(self).messages,
            decreases cnt - out.len(),
        {
            let t = self.tasks.remove(0);
            proof {
                let k = out@.len() as int;
                assert(old(self).tasks@.skip(k)[0] == old(self).tasks@[k]);
                assert(old(self).tasks@.skip(k).remove(0) =~= old(self).tasks@.skip(k + 1));
                assert(out@.push(t) =~= old(self).tasks@.take(k + 1));
            }
            out.push(t);
        }
        out
    }

    /// Enqueues one outgoing message at the back.
    pub fn add_message(&mut self, message: String)
        ensures
            final(self).messages@ == old(self).messages@.push(message),
            final(self).tasks == old(self).tasks,
    {
        self.messages.push(message);
    }

    /// Dequeues the oldest outgoing message; with none queued the writer
    /// loop idles instead.
    pub fn pop_msg(&mut self) -> (r: Option<String>)
        ensures
            final(self).tasks == old(self).tasks,
            old(self).messages@.len() == 0 ==> r is None
                && final(self).messages == old(self).messages,
            old(self).messages@.len() > 0 ==> r == Some(old(self).messages@[0])
                && final(self).messages@ == old(self).messages@.drop_first(),
    {
        if self.messages.len() == 0 {
            None
        } else {
            let m = self.messages.remove(0);
            proof {
                assert(old(self).messages@.remove(0) =~= old(self).messages@.drop_first());
            }
            Some(m)
        }
    }

    /// One reader-loop iteration after the channel handed over a line's
    /// parse: a parsed task is converted and enqueued; an unparseable line
    /// is skipped, leaving the queue as it was, and later lines still land.
    pub fn read_iteration(&mut self, parsed: Option<CliInvokeTask>) -> (accepted: bool)
        ensures
            final(self).messages == old(self).messages,
            match parsed {
                Some(c) => accepted && final(self).tasks@.len() == old(self).tasks@.len() + 1
                    && final(self).tasks@ == old(self).tasks@.push(
                    final(self).tasks@.last())
                    && converted(c, final(self).tasks@.last()),
                None => !accepted && final(self).tasks == old(self).tasks,
            },
    {
        match parsed {
            Some(c) => {
                let t = convert_task(c);
                self.add_task(t);
                proof {
                    assert(self.tasks@.last() == t);
                    assert(self.tasks@ =~= old(self).tasks@.push(self.tasks@.last()));
                }
                true
            }
            None => false,
        }
    }
}

/// The stream-backed source handed to the controller; the reader and writer
/// loops share its state.
pub struct CliSource {
    pub state: BackgroundSource,
}

impl CliSource {
    pub fn new() -> (r: CliSource)
        ensures
            r.state.tasks@ == Seq::<InvokeTask>::empty(),
            r.state.messages@ == Seq::<String>::empty(),
    {
        CliSource { state: BackgroundSource::new() }
    }
}

impl Default for CliSource {
    fn default() -> (r: CliSource)
        ensures
            r.state.tasks@ == Seq::<InvokeTask>::empty(),
            r.state.messages@ == Seq::<String>::empty(),
    {
        CliSource::new()
    }
}

/// Law: a task line accepted by the reader is observable at the queue's
/// front once everything before it is drained, with the fields of the parsed
/// input; a skipped line changes nothing, so later valid lines still land in
/// order.
pub proof fn stream_round_trip(q: Seq<InvokeTask>, t: InvokeTask)
    ensures
        q.push(t).len() == q.len() + 1,
        q.push(t)[q.len() as int] == t,
        q.push(t).take(q.len() as int) =~= q,
{
}

} // verus!
