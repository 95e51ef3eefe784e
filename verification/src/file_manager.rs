//! Routing packets to their file's group, and whole-job completion.
//!
//! A [`FileManager`] owns one [`PacketGroup`] per file id observed so far,
//! creating the group when the first packet naming its id arrives.  The job
//! is complete when exactly the configured number of distinct file ids has
//! been observed and every one of their groups is complete.  The manager
//! performs no I/O and has no failure modes of its own.

use std::collections::HashMap;

use vstd::prelude::*;

use crate::packet_group::{spec_apply, spec_complete, spec_empty_group, GroupView, PacketGroup};
use crate::packets::{spec_decode_packet, Packet, PacketParseError, PacketView};

verus! {

broadcast use vstd::std_specs::hash::group_hash_axioms;

/// How many distinct files the protocol's standard job delivers.
pub const DEFAULT_EXPECTED_FILE_COUNT: usize = 3;

/// The set of reassembly groups, keyed by file id.
pub struct FileManager {
    map: HashMap<u8, PacketGroup>,
    file_ids: Vec<u8>,
    expected_file_count: usize,
}

/// The mathematical content of a [`FileManager`]: the groups as a map from
/// file id, the observed ids in order of first arrival, and the configured
/// number of files the job expects.
#[verifier::ext_equal]
pub struct FileManagerView {
    pub groups: Map<u8, GroupView>,
    pub file_ids: Seq<u8>,
    pub expected_file_count: int,
}

impl FileManagerView {
    /// Well-formedness: the observed ids list each file id with a group
    /// exactly once.  Constructors establish this and every method preserves
    /// it.
    pub open spec fn wf(self) -> bool {
        &&& self.file_ids.no_duplicates()
        &&& forall|id: u8|
            #![trigger self.groups.contains_key(id)]
            #![trigger self.file_ids.contains(id)]
            self.groups.contains_key(id) <==> self.file_ids.contains(id)
    }
}

impl View for FileManager {
    type V = FileManagerView;

    closed spec fn view(&self) -> FileManagerView {
        FileManagerView {
            groups: self.map@.map_values(|g: PacketGroup| g@),
            file_ids: self.file_ids@,
            expected_file_count: self.expected_file_count as int,
        }
    }
}

/// What routing one packet does to the manager: the packet is applied to the
/// group of its file id, a fresh empty group being created first when the id
/// has not been seen before.
pub open spec fn spec_route(v: FileManagerView, p: PacketView) -> FileManagerView {
    let id = p.spec_file_id();
    let before = if v.groups.contains_key(id) {
        v.groups[id]
    } else {
        spec_empty_group()
    };
    FileManagerView {
        groups: v.groups.insert(id, spec_apply(before, p)),
        file_ids: (if v.groups.contains_key(id) {
            v.file_ids
        } else {
            v.file_ids.push(id)
        }),
        expected_file_count: v.expected_file_count,
    }
}

/// True when exactly the expected number of distinct file ids has been
/// observed and every one of their groups is complete.
pub open spec fn spec_job_complete(v: FileManagerView) -> bool {
    &&& v.groups.len() == v.expected_file_count
    &&& forall|id: u8| #[trigger]
        v.groups.contains_key(id) ==> spec_complete(v.groups[id])
}

impl FileManager {
    /// A manager that expects the given number of distinct files.
    pub fn new(expected_file_count: usize) -> (r: FileManager)
        ensures
            r@.wf(),
            r@.groups == Map::<u8, GroupView>::empty(),
            r@.file_ids == Seq::<u8>::empty(),
            r@.expected_file_count == expected_file_count as int,
    {
        let r = FileManager {
            map: HashMap::new(),
            file_ids: Vec::new(),
            expected_file_count,
        };
        proof {
            assert(r@.groups =~= Map::<u8, GroupView>::empty());
        }
        r
    }

    /// Route one packet to the group of its file id, as [`spec_route`]
    /// describes.
    pub fn process_packet(&mut self, packet: Packet)
        requires
            old(self)@.wf(),
        ensures
            final(self)@.wf(),
            final(self)@ == spec_route(old(self)@, packet@),
    {
        let file_id = packet.file_id();
        let mut group = match self.map.remove(&file_id) {
            Some(g) => g,
            None => {
                self.file_ids.push(file_id);
                PacketGroup::default()
            },
        };
        group.process_packet(packet);
        self.map.insert(file_id, group);
        proof {
            assert(self@.groups =~= spec_route(old(self)@, packet@).groups);
            assert(self@ =~= spec_route(old(self)@, packet@));
            let oldids = old(self)@.file_ids;
            let newids = self@.file_ids;
            let grew = !old(self)@.groups.contains_key(file_id);
            assert forall|id: u8| self@.groups.contains_key(id) implies newids.contains(id) by {
                if grew && id == file_id {
                    assert(newids[newids.len() - 1] == id);
                } else {
                    assert(old(self)@.groups.contains_key(id));
                    assert(oldids.contains(id));
                    let j = choose|j: int| 0 <= j < oldids.len() && oldids[j] == id;
                    assert(newids[j] == id);
                }
            }
            assert forall|id: u8| newids.contains(id) implies self@.groups.contains_key(id) by {
                let j = choose|j: int| 0 <= j < newids.len() && newids[j] == id;
                if grew && j == newids.len() - 1 {
                    assert(id == file_id);
                } else {
                    assert(oldids[j] == id);
                    assert(old(self)@.groups.contains_key(id));
                }
            }
            assert(newids.no_duplicates()) by {
                if grew {
                    assert(!oldids.contains(file_id));
                    assert forall|i: int, j: int|
                        0 <= i < j < newids.len() implies newids[i] != newids[j] by {
                        if j == newids.len() - 1 {
                            assert(oldids[i] == newids[i]);
                        }
                    }
                }
            }
        }
    }

    /// Decode a raw datagram and route the decoded packet to its group.  A
    /// buffer that does not decode leaves the manager unchanged and hands
    /// the decode error back, so one bad datagram never stops the stream.
    pub fn route(&mut self, bytes: &[u8]) -> (r: Result<(), PacketParseError>)
        requires
            old(self)@.wf(),
        ensures
            final(self)@.wf(),
            (match spec_decode_packet(bytes@) {
                Ok(p) => r is Ok && final(self)@ == spec_route(old(self)@, p),
                Err(e) => r == Err::<(), PacketParseError>(e) && final(self)@ == old(self)@,
            }),
    {
        match Packet::try_from(bytes) {
            Ok(packet) => {
                self.process_packet(packet);
                Ok(())
            },
            Err(e) => Err(e),
        }
    }

    /// True when exactly the expected number of distinct file ids has been
    /// observed and every one of their groups reports itself complete: the
    /// job is done and the receive loop may stop.
    pub fn received_all_packets(&self) -> (r: bool)
        requires
            self@.wf(),
        ensures
            r == spec_job_complete(self@),
    {
        proof {
            assert(self@.groups.dom() =~= self.map@.dom());
        }
        if self.map.len() != self.expected_file_count {
            return false;
        }
        let mut idx: usize = 0;
        while idx < self.file_ids.len()
            invariant
                self@.wf(),
                idx <= self@.file_ids.len(),
                self@.groups.dom() =~= self.map@.dom(),
                self@.groups.len() == self@.expected_file_count,
                forall|j: int|
                    0 <= j < idx ==> spec_complete(
                        #[trigger] self@.groups[self@.file_ids[j]],
                    ),
            decreases self@.file_ids.len() - idx,
        {
            let id = self.file_ids[idx];
            let group = self.map.get(&id).unwrap();
            if !group.received_all_packets() {
                return false;
            }
            idx = idx + 1;
        }
        proof {
            assert forall|id: u8| self@.groups.contains_key(id) implies spec_complete(
                self@.groups[id],
            ) by {
                assert(self@.file_ids.contains(id));
                let j = choose|j: int|
                    0 <= j < self@.file_ids.len() && self@.file_ids[j] == id;
                assert(spec_complete(self@.groups[self@.file_ids[j]]));
            }
        }
        true
    }

    /// The file ids observed so far, in order of first arrival, each once.
    pub fn file_ids(&self) -> (r: &Vec<u8>)
        ensures
            r@ == self@.file_ids,
    {
        &self.file_ids
    }

    /// The reassembly group of a file id, if any packet with that id has
    /// arrived.
    pub fn packet_group_for_file_id(&self, file_id: u8) -> (r: Option<&PacketGroup>)
        ensures
            (match r {
                Some(g) => self@.groups.contains_key(file_id) && self@.groups[file_id] == g@,
                None => !self@.groups.contains_key(file_id),
            }),
    {
        proof {
            assert(self@.groups.dom() =~= self.map@.dom());
        }
        self.map.get(&file_id)
    }
}

impl Default for FileManager {
    /// A manager for the protocol's standard job of three files.
    fn default() -> (r: FileManager)
        ensures
            r@.wf(),
            r@.groups == Map::<u8, GroupView>::empty(),
            r@.file_ids == Seq::<u8>::empty(),
            r@.expected_file_count == DEFAULT_EXPECTED_FILE_COUNT as int,
    {
        FileManager::new(DEFAULT_EXPECTED_FILE_COUNT)
    }
}

} // verus!
