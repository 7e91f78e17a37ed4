//! View-keyed pending work: tasks are pushed under a view and cancelled a view at
//! a time when the node moves on.
use vstd::prelude::*;
use crate::types;

verus! {

/// `s` without the entries of view `v`, order kept.
pub open spec fn without_view<T>(s: Seq<(types::View, T)>, v: types::View) -> Seq<(types::View, T)>
    decreases s.len(),
{
    if s.len() == 0 {
        s
    } else if s.last().0 == v {
        without_view(s.drop_last(), v)
    } else {
        without_view(s.drop_last(), v).push(s.last())
    }
}

pub struct TaskManager<T> {
    pub tasks: Vec<(types::View, T)>,
}

impl<T> TaskManager<T> {
    pub fn new() -> (r: TaskManager<T>)
        ensures
            r.tasks@.len() == 0,
    {
        TaskManager { tasks: Vec::new() }
    }

    pub fn push(&mut self, view: types::View, task: T)
        ensures
            final(self).tasks@ == old(self).tasks@.push((view, task)),
    {
        self.tasks.push((view, task));
    }

    /// Drops every task bound to `view`.
    pub fn cancel(&mut self, view: types::View)
        ensures
            final(self).tasks@ == without_view(old(self).tasks@, view),
    {
        let ghost orig = self.tasks@;
        let mut rest: Vec<(types::View, T)> = Vec::new();
        core::mem::swap(&mut self.tasks, &mut rest);
        let mut k: usize = 0;
        let n = rest.len();
        while rest.len() > 0
            invariant
                n == orig.len(),
                0 <= k <= n,
                rest@ == orig.subrange(k as int, n as int),
                self.tasks@ == without_view(orig.subrange(0, k as int), view),
            decreases rest@.len(),
        {
            let item = rest.remove(0);
            assert(orig.subrange(0, k + 1).drop_last() =~= orig.subrange(0, k as int));
            assert(orig.subrange(0, k + 1).last() == item);
            if item.0 != view {
                self.tasks.push(item);
            }
            k += 1;
            assert(rest@ =~= orig.subrange(k as int, n as int));
        }
        assert(orig.subrange(0, n as int) =~= orig);
    }

    /// Takes the oldest task, if any.
    pub fn next(&mut self) -> (r: Option<(types::View, T)>)
        ensures
            old(self).tasks@.len() == 0 ==> r is None && final(self).tasks@ == old(self).tasks@,
            old(self).tasks@.len() > 0 ==> r == Some(old(self).tasks@[0]) && final(self).tasks@
                == old(self).tasks@.drop_first(),
    {
        if self.tasks.len() == 0 {
            None
        } else {
            let t = self.tasks.remove(0);
            Some(t)
        }
    }

    pub fn len(&self) -> (r: usize)
        ensures
            r == self.tasks@.len(),
    {
        self.tasks.len()
    }
}

} // verus!
