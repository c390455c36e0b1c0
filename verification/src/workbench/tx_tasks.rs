//! The list of send tasks: what the controller tells of them, and how a list is replaced.
use crate::can::Evt;
use crate::text;
use crate::workbench::ipc::{script_handle, IpcHandles};
use vstd::prelude::*;

verus! {

/// A send task: the handle under which the controller knows it, whether it is sent periodically,
/// how often it was sent, and what was sent last. Signal values are the bit patterns of
/// floating-point numbers.
#[derive(Debug)]
pub struct TxTask {
    pub handle: u64,
    pub periodic: bool,
    pub sent: u64,
    pub data: Vec<u8>,
    pub signal_values: Vec<(String, u64)>,
}

/// The send tasks, and whether the list is to be drawn again.
#[derive(Debug)]
pub struct TxList {
    pub tasks: Vec<TxTask>,
    pub dirty: bool,
}

/// What is to be done after a list was read: which handles are no longer to be sent, and a line
/// for the log.
#[derive(Debug)]
pub struct ListRead {
    pub stop: Vec<u64>,
    pub line: String,
}

/// The handles of some tasks.
pub open spec fn handles(tasks: Seq<TxTask>) -> Seq<u64> {
    tasks.map_values(|t: TxTask| t.handle)
}

/// Whether a task is the first with a handle.
pub open spec fn is_first(tasks: Seq<TxTask>, handle: u64, i: int) -> bool {
    &&& 0 <= i < tasks.len()
    &&& tasks[i].handle == handle
    &&& forall|j: int| 0 <= j < i ==> (#[trigger] tasks[j]).handle != handle
}

/// Whether a task has a handle.
pub open spec fn known(tasks: Seq<TxTask>, handle: u64) -> bool {
    handles(tasks).contains(handle)
}

/// The task that an event speaks of.
pub open spec fn told_handle(e: Evt) -> Option<u64> {
    match e {
        Evt::PeriodicDone(handle) => Some(handle),
        Evt::PeriodicProgress { handle, .. } => Some(handle),
        Evt::DynamicUpdate { handle, .. } => Some(handle),
        _ => None,
    }
}

/// A task after an event that speaks of it.
pub open spec fn told(t: TxTask, e: Evt) -> TxTask {
    match e {
        Evt::PeriodicDone(_) => TxTask { periodic: false, ..t },
        Evt::PeriodicProgress { sent, .. } => TxTask { sent, ..t },
        Evt::DynamicUpdate { data, signal_values, sent, .. } => TxTask {
            data,
            signal_values,
            sent,
            ..t
        },
        _ => t,
    }
}

/// The tasks of a list that was read, under handles from a first one on, none of them sent
/// periodically.
pub open spec fn numbered(tasks: Seq<TxTask>, first: u64) -> Seq<TxTask> {
    Seq::new(
        tasks.len(),
        |i: int| TxTask { handle: (first + i) as u64, periodic: false, ..tasks[i] },
    )
}

/// Some handles were given out, and nothing else happened to those of scripts.
pub open spec fn gives_out(after: &IpcHandles, before: &IpcHandles, count: nat) -> bool {
    &&& after.wf()
    &&& after.next() == before.next() + count
    &&& after.map() == before.map()
    &&& after.list() == before.list()
}

impl TxList {
    /// Each handle was given out once, before a next one.
    pub open spec fn wf(&self, next: u64) -> bool {
        &&& forall|i: int| 0 <= i < self.tasks@.len() ==> (#[trigger] self.tasks@[i]).handle < next
        &&& forall|i: int, j: int|
            0 <= i < j < self.tasks@.len() ==> (#[trigger] self.tasks@[i]).handle != (
            #[trigger] self.tasks@[j]).handle
    }

    fn find(&self, handle: u64) -> (r: Option<usize>)
        ensures
            match r {
                Some(i) => is_first(self.tasks@, handle, i as int),
                None => forall|j: int|
                    0 <= j < self.tasks@.len() ==> (#[trigger] self.tasks@[j]).handle != handle,
            },
    {
        let mut i: usize = 0;
        while i < self.tasks.len()
            invariant
                i <= self.tasks@.len(),
                forall|j: int| 0 <= j < i ==> (#[trigger] self.tasks@[j]).handle != handle,
            decreases self.tasks@.len() - i,
        {
            if self.tasks[i].handle == handle {
                return Some(i);
            }
            i += 1;
        }
        None
    }

    /// Takes what the controller tells of a task. An event that speaks of no task is handed back.
    pub fn event(&mut self, event: Evt) -> (r: Option<Evt>)
        ensures
            forall|next: u64| #[trigger] old(self).wf(next) ==> final(self).wf(next),
            match told_handle(event) {
                None => *final(self) == *old(self) && r == Some(event),
                Some(handle) => {
                    &&& r is None
                    &&& final(self).dirty == (old(self).dirty || known(old(self).tasks@, handle))
                    &&& final(self).tasks@.len() == old(self).tasks@.len()
                    &&& forall|i: int|
                        0 <= i < old(self).tasks@.len() ==> #[trigger] final(self).tasks@[i]
                            == if is_first(old(self).tasks@, handle, i) {
                            told(old(self).tasks@[i], event)
                        } else {
                            old(self).tasks@[i]
                        }
                },
            },
    {
        let handle: u64 = match &event {
            Evt::PeriodicDone(handle) => *handle,
            Evt::PeriodicProgress { handle, .. } => *handle,
            Evt::DynamicUpdate { handle, .. } => *handle,
            _ => {
                return Some(event);
            },
        };
        let ghost before = self.tasks@;
        match self.find(handle) {
            Some(i) => {
                assert(handles(before)[i as int] == handle);
                match event {
                    Evt::PeriodicDone(_) => {
                        self.tasks[i].periodic = false;
                    },
                    Evt::PeriodicProgress { sent, .. } => {
                        self.tasks[i].sent = sent;
                    },
                    Evt::DynamicUpdate { data, signal_values, sent, .. } => {
                        self.tasks[i].data = data;
                        self.tasks[i].signal_values = signal_values;
                        self.tasks[i].sent = sent;
                    },
                    _ => {},
                }
                self.dirty = true;
            },
            None => {},
        }
        None
    }

    /// Replaces the tasks by others, each under a handle that was never given out, and none of
    /// them sent periodically. The handles of the tasks that go, in order.
    pub fn reload(&mut self, tasks: Vec<TxTask>, numbers: &mut IpcHandles) -> (r: Vec<u64>)
        requires
            old(numbers).wf(),
            old(numbers).next() + tasks@.len() <= u64::MAX,
        ensures
            r@ == handles(old(self).tasks@),
            final(self).tasks@ == numbered(tasks@, old(numbers).next()),
            final(self).dirty == old(self).dirty,
            final(self).wf(final(numbers).next()),
            gives_out(final(numbers), old(numbers), tasks@.len()),
    {
        let mut gone: Vec<u64> = Vec::new();
        let mut i: usize = 0;
        while i < self.tasks.len()
            invariant
                i <= self.tasks@.len(),
                gone@ == handles(self.tasks@.take(i as int)),
            decreases self.tasks@.len() - i,
        {
            gone.push(self.tasks[i].handle);
            proof {
                assert(handles(self.tasks@.take(i + 1)) =~= handles(self.tasks@.take(i as int)).push(
                    self.tasks@[i as int].handle,
                ));
            }
            i += 1;
        }
        assert(self.tasks@.take(i as int) =~= self.tasks@);
        let count: u64 = tasks.len() as u64;
        let first: u64 = numbers.give_out(count);
        let ghost given = tasks@;
        let mut tasks = tasks;
        let mut k: usize = 0;
        while k < tasks.len()
            invariant
                k <= tasks@.len(),
                tasks@.len() == given.len(),
                first + given.len() <= u64::MAX,
                tasks@ == numbered(given, first).take(k as int) + given.skip(k as int),
            decreases tasks@.len() - k,
        {
            let ghost before = tasks@;
            assert(before[k as int] == given[k as int]);
            tasks[k].handle = first + k as u64;
            tasks[k].periodic = false;
            assert(tasks@ =~= numbered(given, first).take(k + 1) + given.skip(k + 1));
            k += 1;
        }
        assert(tasks@ =~= numbered(given, first));
        self.tasks = tasks;
        gone
    }

    /// A list was read from a file, or could not be: the tasks are replaced, or stay.
    pub fn list_read(&mut self, read: Result<Vec<TxTask>, String>, numbers: &mut IpcHandles) -> (r:
        ListRead)
        requires
            old(numbers).wf(),
            read matches Ok(tasks) ==> old(numbers).next() + tasks@.len() <= u64::MAX,
        ensures
            match read {
                Ok(tasks) => {
                    &&& r.stop@ == handles(old(self).tasks@)
                    &&& r.line@ == "已加载发送列表 "@ + text::decimal(tasks@.len())
                        + " 条（默认停发）"@
                    &&& final(self).tasks@ == numbered(tasks@, old(numbers).next())
                    &&& final(self).dirty == old(self).dirty
                    &&& final(self).wf(final(numbers).next())
                    &&& gives_out(final(numbers), old(numbers), tasks@.len())
                },
                Err(e) => {
                    &&& r.stop@.len() == 0
                    &&& r.line@ == "加载发送列表失败: "@ + e@
                    &&& *final(self) == *old(self)
                    &&& *final(numbers) == *old(numbers)
                },
            },
    {
        match read {
            Ok(tasks) => {
                let n: u64 = tasks.len() as u64;
                let stop = self.reload(tasks, numbers);
                let mut line = "已加载发送列表 ".to_owned();
                text::push_decimal(&mut line, n);
                line.push_str(" 条（默认停发）");
                ListRead { stop, line }
            },
            Err(e) => {
                let mut line = "加载发送列表失败: ".to_owned();
                line.push_str(e.as_str());
                ListRead { stop: Vec::new(), line }
            },
        }
    }

    /// A project was opened: its tasks replace those of the list.
    pub fn project_opened(
        &mut self,
        path: &str,
        tasks: Vec<TxTask>,
        numbers: &mut IpcHandles,
    ) -> (r: ListRead)
        requires
            old(numbers).wf(),
            old(numbers).next() + tasks@.len() <= u64::MAX,
        ensures
            r.stop@ == handles(old(self).tasks@),
            r.line@ == "已打开工程: "@ + path@ + "（发送任务 "@ + text::decimal(tasks@.len())
                + " 条，默认停发）"@,
            final(self).tasks@ == numbered(tasks@, old(numbers).next()),
            final(self).dirty == old(self).dirty,
            final(self).wf(final(numbers).next()),
            gives_out(final(numbers), old(numbers), tasks@.len()),
    {
        let n: u64 = tasks.len() as u64;
        let stop = self.reload(tasks, numbers);
        let mut line = "已打开工程: ".to_owned();
        line.push_str(path);
        line.push_str("（发送任务 ");
        text::push_decimal(&mut line, n);
        line.push_str(" 条，默认停发）");
        ListRead { stop, line }
    }
}

/// No event that still tells of a task that was replaced changes a task of the new list.
pub proof fn law_replaced_tasks_are_gone(before: TxList, next: u64, tasks: Seq<TxTask>, e: Evt)
    requires
        before.wf(next),
        next + tasks.len() <= u64::MAX,
        told_handle(e) matches Some(h) && known(before.tasks@, h),
    ensures
        !known(numbered(tasks, next), told_handle(e)->0),
        forall|i: int| !is_first(numbered(tasks, next), told_handle(e)->0, i),
{
    let h = told_handle(e)->0;
    let i = choose|i: int| 0 <= i < handles(before.tasks@).len() && handles(before.tasks@)[i] == h;
    assert(before.tasks@[i].handle == h);
    let after = numbered(tasks, next);
    assert forall|j: int| 0 <= j < after.len() implies (#[trigger] after[j]).handle != h by {
        assert(after[j].handle == next + j);
    }
    assert forall|j: int| 0 <= j < handles(after).len() implies handles(after)[j] != h by {
        assert(after[j].handle != h);
    }
}

/// What is told of the periodic frame of a script changes no send task, while the handles stay
/// below the bit that tells scripts apart.
pub proof fn law_scripts_change_no_task(list: TxList, next: u64, number: u64)
    requires
        list.wf(next),
        next <= 0x8000_0000_0000_0000,
    ensures
        !known(list.tasks@, script_handle(number)),
{
    assert(number | (1u64 << 63) >= 0x8000_0000_0000_0000) by (bit_vector);
    let h = script_handle(number);
    assert forall|j: int| 0 <= j < handles(list.tasks@).len() implies handles(list.tasks@)[j] != h by {
        assert(list.tasks@[j].handle < next);
    }
}

} // verus!
