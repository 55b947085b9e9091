//! The task data model: a task entry and a task collection, with their
//! mathematical views.  A collection's document order is its display order;
//! the storage layer treats `tags` as an opaque ordered sequence of strings
//! and never parses or validates its contents.

use vstd::prelude::*;

verus! {

/// The mathematical value of a task entry.
pub ghost struct TaskView {
    pub id: int,
    pub name: Seq<char>,
    pub description: Seq<char>,
    pub tags: Seq<Seq<char>>,
    pub completed: bool,
}

impl TaskView {
    /// The entry's id fits the stored integer width.
    pub open spec fn id_in_range(self) -> bool {
        i32::MIN <= self.id <= i32::MAX
    }
}

/// One task record as stored in a list document.
#[derive(Debug, PartialEq)]
pub struct TaskEntry {
    pub id: i32,
    pub name: Vec<char>,
    pub description: Vec<char>,
    pub tags: Vec<Vec<char>>,
    pub completed: bool,
}

impl View for TaskEntry {
    type V = TaskView;

    open spec fn view(&self) -> TaskView {
        TaskView {
            id: self.id as int,
            name: self.name@,
            description: self.description@,
            tags: Seq::new(self.tags@.len(), |i: int| self.tags@[i]@),
            completed: self.completed,
        }
    }
}

impl Clone for TaskEntry {
    fn clone(&self) -> (r: Self)
        ensures
            r@ == self@,
    {
        let mut tags: Vec<Vec<char>> = Vec::new();
        let mut i: usize = 0;
        while i < self.tags.len()
            invariant
                i <= self.tags@.len(),
                tags@.len() == i,
                forall|k: int| 0 <= k < i ==> tags@[k]@ == self.tags@[k]@,
            decreases self.tags@.len() - i,
        {
            tags.push(crate::text::chars_copy(&self.tags[i]));
            i += 1;
        }
        let r = TaskEntry {
            id: self.id,
            name: crate::text::chars_copy(&self.name),
            description: crate::text::chars_copy(&self.description),
            tags,
            completed: self.completed,
        };
        proof {
            assert(Seq::new(r.tags@.len(), |i: int| r.tags@[i]@) =~= Seq::new(
                self.tags@.len(),
                |i: int| self.tags@[i]@,
            ));
        }
        r
    }
}

/// A task collection: the in-memory form of one list document.
#[derive(Debug, PartialEq)]
pub struct Tasks {
    pub tasks: Vec<TaskEntry>,
}

impl View for Tasks {
    type V = Seq<TaskView>;

    open spec fn view(&self) -> Seq<TaskView> {
        Seq::new(self.tasks@.len(), |i: int| self.tasks@[i]@)
    }
}

impl Clone for Tasks {
    fn clone(&self) -> (r: Self)
        ensures
            r@ == self@,
    {
        let mut tasks: Vec<TaskEntry> = Vec::new();
        let mut i: usize = 0;
        while i < self.tasks.len()
            invariant
                i <= self.tasks@.len(),
                tasks@.len() == i,
                forall|k: int| 0 <= k < i ==> tasks@[k]@ == self.tasks@[k]@,
            decreases self.tasks@.len() - i,
        {
            tasks.push(self.tasks[i].clone());
            i += 1;
        }
        let r = Tasks { tasks };
        proof {
            assert(r@ =~= self@);
        }
        r
    }
}

impl Tasks {
    /// An empty collection.
    pub fn empty() -> (r: Tasks)
        ensures
            r@ == Seq::<TaskView>::empty(),
    {
        let r = Tasks { tasks: Vec::new() };
        proof {
            assert(r@ =~= Seq::<TaskView>::empty());
        }
        r
    }

    /// Every entry's id is distinct from every other entry's id.
    pub open spec fn ids_distinct(s: Seq<TaskView>) -> bool {
        forall|i: int, j: int|
            0 <= i < j < s.len() ==> s[i].id != s[j].id
    }
}

} // verus!
