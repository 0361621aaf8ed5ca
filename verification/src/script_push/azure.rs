//! The machines of the last deployment, for pushing scripts to them.

use vstd::prelude::*;
use crate::script_push::{ReplData, VmSummary};

verus! {

/// The machines of the last deployment and their replacements.
#[derive(Debug)]
pub struct AzureScriptPush {
    vms: Vec<VmSummary>,
    replace: Vec<ReplData>,
}

impl AzureScriptPush {
    /// The machines, in the order of the deployment's summary.
    pub closed spec fn summaries(&self) -> Seq<VmSummary> {
        self.vms@
    }

    /// The replacements, in the order of their file.
    pub closed spec fn replacements(&self) -> Seq<ReplData> {
        self.replace@
    }

    /// The machines of the last deployment with their replacements.
    pub fn new(vms: Vec<VmSummary>, replace: Vec<ReplData>) -> (r: Self)
        ensures
            r.summaries() == vms@,
            r.replacements() == replace@,
    {
        AzureScriptPush { vms, replace }
    }

    /// The summary of the machine at place `idx`.
    pub fn get_vm_summary(&self, idx: usize) -> (r: VmSummary)
        requires
            idx < self.summaries().len(),
        ensures
            r.name@ == self.summaries()[idx as int].name@,
            r.hostname@ == self.summaries()[idx as int].hostname@,
            r.username@ == self.summaries()[idx as int].username@,
            r.password@ == self.summaries()[idx as int].password@,
    {
        self.vms[idx].duplicate()
    }

    /// The names of the machines, in order.
    pub fn get_vm_list(&self) -> (r: Vec<String>)
        ensures
            r@.len() == self.summaries().len(),
            forall|i: int| 0 <= i < r@.len() ==> (#[trigger] r@[i])@ == self.summaries()[i].name@,
    {
        let mut out: Vec<String> = Vec::new();
        let mut k: usize = 0;
        while k < self.vms.len()
            invariant
                k <= self.vms@.len(),
                out@.len() == k,
                forall|i: int| 0 <= i < k ==> (#[trigger] out@[i])@ == self.vms@[i].name@,
            decreases self.vms@.len() - k,
        {
            out.push(self.vms[k].name.clone());
            k = k + 1;
        }
        out
    }

    /// The place of the first replacements at or behind `from` that are for
    /// the machine with the given name; the number of replacements where
    /// there are none.
    pub open spec fn place_of(&self, name: Seq<char>, from: int) -> int
        decreases self.replacements().len() - from,
    {
        if from < 0 || from >= self.replacements().len() {
            self.replacements().len() as int
        } else if self.replacements()[from].name@ == name {
            from
        } else {
            self.place_of(name, from + 1)
        }
    }

    /// The replacements of the machine with the given name: the first ones
    /// that are for it, if there are any.
    pub fn get_vm_replacements(&self, name: &String) -> (r: Option<&ReplData>)
        ensures
            match r {
                Some(d) => self.place_of(name@, 0) < self.replacements().len() && *d
                    == self.replacements()[self.place_of(name@, 0)],
                None => self.place_of(name@, 0) == self.replacements().len(),
            },
    {
        let mut k: usize = 0;
        while k < self.replace.len()
            invariant
                k <= self.replace@.len(),
                self.place_of(name@, 0) == self.place_of(name@, k as int),
            decreases self.replace@.len() - k,
        {
            if self.replace[k].name == *name {
                return Some(&self.replace[k]);
            }
            k = k + 1;
        }
        None
    }
}

} // verus!
