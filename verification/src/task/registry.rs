//! The process registry: the one mapping from identifier to process.

use vstd::prelude::*;
use std::collections::BTreeMap;
use crate::task::process::{Process, ProcessView};
use crate::task::id::Pid;

verus! {

/// Finds processes by their identifier.
pub struct ProcessMap {
    processes: BTreeMap<Pid, Process>,
}

impl View for ProcessMap {
    type V = Map<Pid, ProcessView>;

    closed spec fn view(&self) -> Map<Pid, ProcessView> {
        self.processes@.map_values(|process: Process| process@)
    }
}

impl ProcessMap {
    /// Every process in the map is consistent.
    pub closed spec fn wf(&self) -> bool {
        forall|pid: Pid| #[trigger]
            self.processes@.contains_key(pid) ==> self.processes@[pid].wf()
    }

    /// A map without processes.
    pub fn new() -> (map: ProcessMap)
        ensures
            map.wf(),
            map@ == Map::<Pid, ProcessView>::empty(),
    {
        let map = ProcessMap { processes: BTreeMap::new() };
        assert(map@ =~= Map::<Pid, ProcessView>::empty());
        map
    }
}

/// Looks up the process registered under `pid`.
pub fn get_process(map: &ProcessMap, pid: Pid) -> (process: Option<&Process>)
    requires
        map.wf(),
    ensures
        process is Some == map@.contains_key(pid),
        process matches Some(found) ==> found@ == map@[pid] && found.wf(),
{
    let process = map.processes.get(&pid);
    proof {
        if process is Some {
            assert(map.processes@.contains_key(pid));
        }
    }
    process
}

/// Registers `process` under `pid`. A process that was registered under
/// `pid` before is replaced.
pub fn insert_process(map: &mut ProcessMap, pid: Pid, process: Process)
    requires
        old(map).wf(),
        process.wf(),
    ensures
        final(map).wf(),
        final(map)@ == old(map)@.insert(pid, process@),
{
    map.processes.insert(pid, process);
    assert(map@ =~= old(map)@.insert(pid, process@));
}

/// Takes the process registered under `pid` out of the map and hands it
/// over, if there is one.
pub fn remove_process(map: &mut ProcessMap, pid: Pid) -> (process: Option<Process>)
    requires
        old(map).wf(),
    ensures
        final(map).wf(),
        final(map)@ == old(map)@.remove(pid),
        process is Some == old(map)@.contains_key(pid),
        process matches Some(removed) ==> removed@ == old(map)@[pid] && removed.wf(),
{
    let process = map.processes.remove(&pid);
    proof {
        if process is Some {
            assert(old(map).processes@.contains_key(pid));
        }
        assert(map@ =~= old(map)@.remove(pid));
    }
    process
}

} // verus!
