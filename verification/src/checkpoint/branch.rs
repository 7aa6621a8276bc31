//! Branches: named pointers to checkpoints.

use crate::model::delta::now_millis;
use crate::model::types::CheckpointId;
use vstd::prelude::*;

verus! {

/// A branch: a name and the checkpoint at its head, with the times (Unix
/// milliseconds) it was made and last moved.
#[derive(Debug)]
pub struct Branch {
    pub name: String,
    pub head: CheckpointId,
    pub created_at: i64,
    pub updated_at: i64,
}

impl Branch {
    /// A branch named `name` at `head`, made and moved now.
    pub fn new(name: &str, head: CheckpointId) -> (r: Branch)
        ensures
            r.name@ == name@,
            r.head.0@ == head.0@,
            r.updated_at == r.created_at,
    {
        let now = now_millis();
        Branch { name: name.to_string(), head, created_at: now, updated_at: now }
    }

    /// Moves the branch to `head`, stamping the time of the move.
    pub fn set_head(&mut self, head: CheckpointId)
        ensures
            final(self).name@ == old(self).name@,
            final(self).head.0@ == head.0@,
            final(self).created_at == old(self).created_at,
    {
        self.head = head;
        self.updated_at = now_millis();
    }

    /// A copy of the branch.
    pub fn duplicate(&self) -> (r: Branch)
        ensures
            r.name@ == self.name@,
            r.head.0@ == self.head.0@,
            r.created_at == self.created_at,
            r.updated_at == self.updated_at,
    {
        Branch { name: self.name.clone(), head: self.head, created_at: self.created_at, updated_at: self.updated_at }
    }
}

} // verus!
