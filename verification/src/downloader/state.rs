//! The state of a download kept between runs: the task and whether it is
//! paused.

use vstd::prelude::*;

use crate::downloader::task::FileTask;

verus! {

#[derive(Debug)]
pub struct TaskState {
    pub task: FileTask,
    pub pause: bool,
}

impl TaskState {
    /// The state of a task that runs.
    pub fn new(task: FileTask) -> (s: Self)
        ensures
            s.task@ == task@,
            !s.pause,
    {
        TaskState { task, pause: false }
    }

    pub fn set_pause(&mut self, pause: bool)
        ensures
            final(self).pause == pause,
            final(self).task@ == old(self).task@,
    {
        self.pause = pause;
    }
}

} // verus!
