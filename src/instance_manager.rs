//! Named simulations, each name held at most once.
use crate::life::dead_cells;
use crate::simulation::Simulation;
use vstd::prelude::*;

verus! {

/// Whether entry `i` of `entries` carries `name`.
pub open spec fn has_name(entries: Seq<(String, Simulation)>, i: int, name: Seq<char>) -> bool {
    0 <= i < entries.len() && entries[i].0@ == name
}

/// Simulations kept under names.
pub struct InstanceManager {
    /// The entries, no name twice.
    instances: Vec<(String, Simulation)>,
}

impl InstanceManager {
    /// The simulation kept under each name.
    pub closed spec fn spec_instances(&self) -> Map<Seq<char>, Simulation> {
        Map::new(
            |name: Seq<char>| exists|i: int| has_name(self.instances@, i, name),
            |name: Seq<char>| self.instances@[choose|i: int| has_name(self.instances@, i, name)].1,
        )
    }

    /// No name is kept twice, and every simulation is well formed.
    pub closed spec fn well_formed(&self) -> bool {
        &&& forall|i: int, j: int|
            0 <= i < j < self.instances@.len() ==> #[trigger] self.instances@[i].0@
                != #[trigger] self.instances@[j].0@
        &&& forall|i: int| 0 <= i < self.instances@.len() ==> #[trigger] self.instances@[i].1.well_formed()
    }

    /// Entry `i`, carrying `name`, is what the map holds under `name`.
    proof fn lemma_entry(&self, i: int, name: Seq<char>)
        requires
            self.well_formed(),
            has_name(self.instances@, i, name),
        ensures
            self.spec_instances().contains_key(name),
            self.spec_instances()[name] == self.instances@[i].1,
    {
        let j = choose|j: int| has_name(self.instances@, j, name);
        assert(has_name(self.instances@, j, name));
        if i < j {
            assert(self.instances@[i].0@ != self.instances@[j].0@);
        } else if j < i {
            assert(self.instances@[j].0@ != self.instances@[i].0@);
        }
    }

    /// No simulation under any name.
    pub fn new() -> (r: InstanceManager)
        ensures
            r.well_formed(),
            r.spec_instances() == Map::<Seq<char>, Simulation>::empty(),
    {
        let r = InstanceManager { instances: Vec::new() };
        assert(r.spec_instances() =~= Map::<Seq<char>, Simulation>::empty());
        r
    }

    /// Keeps a new simulation of `width * height` dead cells under
    /// `instance_name`, in place of any kept under it before.
    pub fn add_instance(&mut self, instance_name: String, width: u32, height: u32)
        requires
            old(self).well_formed(),
            width * height <= u32::MAX,
        ensures
            final(self).well_formed(),
            final(self).spec_instances() == old(self).spec_instances().insert(
                instance_name@,
                final(self).spec_instances()[instance_name@],
            ),
            ({
                let simulation = final(self).spec_instances()[instance_name@];
                &&& simulation.well_formed()
                &&& simulation.spec_width() == width
                &&& simulation.spec_height() == height
                &&& simulation.buffers_shared()
                &&& simulation.current_cells() == dead_cells(width * height)
            }),
    {
        let ghost name = instance_name@;
        let simulation = Simulation::new(width, height);
        let ghost added = simulation;
        let ghost before = self.instances@;
        match self.find(&instance_name) {
            Some(i) => {
                self.instances.set(i, (instance_name, simulation));
                proof {
                    assert forall|a: int, b: int|
                        0 <= a < b < self.instances@.len() implies #[trigger] self.instances@[a].0@
                        != #[trigger] self.instances@[b].0@ by {
                        assert(before[a].0@ != before[b].0@);
                    }
                    self.lemma_entry(i as int, name);
                    assert forall|k: Seq<char>| #![trigger self.spec_instances().dom().contains(k)] #![trigger self.spec_instances()[k]] #![trigger old(self).spec_instances().dom().contains(k)] k != name implies (self.spec_instances().contains_key(k)
                        == old(self).spec_instances().contains_key(k)) && (
                    old(self).spec_instances().contains_key(k) ==> self.spec_instances()[k]
                        == old(self).spec_instances()[k]) by {
                        if old(self).spec_instances().contains_key(k) {
                            let j = choose|j: int| has_name(before, j, k);
                            old(self).lemma_entry(j, k);
                            self.lemma_entry(j, k);
                        }
                        if self.spec_instances().contains_key(k) {
                            let j = choose|j: int| has_name(self.instances@, j, k);
                            assert(has_name(before, j, k));
                        }
                    }
                    assert(self.spec_instances().dom() =~= old(self).spec_instances().dom().insert(name));
                    assert(self.spec_instances() =~= old(self).spec_instances().insert(
                        name,
                        self.spec_instances()[name],
                    ));
                }
            },
            None => {
                self.instances.push((instance_name, simulation));
                proof {
                    let last = self.instances@.len() - 1;
                    assert(self.instances@[last].0@ == name);
                    assert forall|a: int, b: int|
                        0 <= a < b < self.instances@.len() implies #[trigger] self.instances@[a].0@
                        != #[trigger] self.instances@[b].0@ by {
                        if b == last {
                            assert(!has_name(before, a, name));
                        } else {
                            assert(before[a].0@ != before[b].0@);
                        }
                    }
                    self.lemma_entry(last, name);
                    assert forall|k: Seq<char>| #![trigger self.spec_instances().dom().contains(k)] #![trigger self.spec_instances()[k]] #![trigger old(self).spec_instances().dom().contains(k)] k != name implies (self.spec_instances().contains_key(k)
                        == old(self).spec_instances().contains_key(k)) && (
                    old(self).spec_instances().contains_key(k) ==> self.spec_instances()[k]
                        == old(self).spec_instances()[k]) by {
                        if old(self).spec_instances().contains_key(k) {
                            let j = choose|j: int| has_name(before, j, k);
                            old(self).lemma_entry(j, k);
                            assert(has_name(self.instances@, j, k));
                            self.lemma_entry(j, k);
                        }
                        if self.spec_instances().contains_key(k) {
                            let j = choose|j: int| has_name(self.instances@, j, k);
                            assert(has_name(before, j, k));
                        }
                    }
                    assert(self.spec_instances().dom() =~= old(self).spec_instances().dom().insert(name));
                    assert(self.spec_instances() =~= old(self).spec_instances().insert(
                        name,
                        self.spec_instances()[name],
                    ));
                }
            },
        }
    }

    /// The simulation kept under `instance_name`, if any.
    pub fn get_instance(&self, instance_name: String) -> (r: Option<&Simulation>)
        requires
            self.well_formed(),
        ensures
            match r {
                Some(simulation) => {
                    &&& self.spec_instances().contains_key(instance_name@)
                    &&& *simulation == self.spec_instances()[instance_name@]
                },
                None => !self.spec_instances().contains_key(instance_name@),
            },
    {
        match self.find(&instance_name) {
            Some(i) => {
                proof {
                    self.lemma_entry(i as int, instance_name@);
                }
                Some(&self.instances[i].1)
            },
            None => None,
        }
    }

    /// Drops the simulation kept under `instance_name`, if any.
    pub fn delete_instance(&mut self, instance_name: String)
        requires
            old(self).well_formed(),
        ensures
            final(self).well_formed(),
            final(self).spec_instances() == old(self).spec_instances().remove(instance_name@),
    {
        let ghost name = instance_name@;
        let ghost before = self.instances@;
        if let Some(i) = self.find(&instance_name) {
            self.instances.remove(i);
            proof {
                let after = self.instances@;
                assert forall|j: int| 0 <= j < after.len() implies #[trigger] after[j] == if j < i {
                    before[j]
                } else {
                    before[j + 1]
                } by {}
                assert forall|a: int, b: int|
                    0 <= a < b < after.len() implies #[trigger] after[a].0@ != #[trigger] after[b].0@ by {
                    let a0 = if a < i { a } else { a + 1 };
                    let b0 = if b < i { b } else { b + 1 };
                    assert(after[a] == before[a0] && after[b] == before[b0]);
                    assert(before[a0].0@ != before[b0].0@);
                }
                assert forall|j: int| 0 <= j < after.len() implies #[trigger] after[j].1.well_formed() by {
                    let j0 = if j < i { j } else { j + 1 };
                    assert(after[j] == before[j0]);
                }
                assert forall|k: Seq<char>| #![trigger self.spec_instances().dom().contains(k)] #![trigger self.spec_instances()[k]] #![trigger old(self).spec_instances().dom().contains(k)] (self.spec_instances().contains_key(k)
                    == old(self).spec_instances().remove(name).contains_key(k)) && (
                self.spec_instances().contains_key(k) ==> self.spec_instances()[k]
                    == old(self).spec_instances()[k]) by {
                    if self.spec_instances().contains_key(k) {
                        let j = choose|j: int| has_name(after, j, k);
                        let j0 = if j < i { j } else { j + 1 };
                        assert(after[j] == before[j0]);
                        assert(has_name(before, j0, k));
                        if k == name {
                            assert(before[i as int].0@ == before[j0].0@);
                            if j0 < i {
                                assert(before[j0].0@ != before[i as int].0@);
                            } else {
                                assert(before[i as int].0@ != before[j0].0@);
                            }
                        }
                        self.lemma_entry(j, k);
                        old(self).lemma_entry(j0, k);
                    }
                    if k != name && old(self).spec_instances().contains_key(k) {
                        let j0 = choose|j: int| has_name(before, j, k);
                        assert(j0 != i);
                        let j = if j0 < i { j0 } else { j0 - 1 };
                        assert(after[j] == before[j0]);
                        assert(has_name(after, j, k));
                    }
                }
                assert(self.spec_instances().dom() =~= old(self).spec_instances().dom().remove(name));
                assert(self.spec_instances() =~= old(self).spec_instances().remove(name));
            }
        } else {
            assert(!old(self).spec_instances().contains_key(name));
            assert(self.spec_instances() =~= old(self).spec_instances().remove(name));
        }
    }

    /// The position of the entry carrying `name`, if any.
    fn find(&self, name: &String) -> (r: Option<usize>)
        ensures
            match r {
                Some(i) => has_name(self.instances@, i as int, name@),
                None => forall|i: int| !has_name(self.instances@, i, name@),
            },
    {
        let mut i: usize = 0;
        while i < self.instances.len()
            invariant
                i <= self.instances@.len(),
                forall|j: int| 0 <= j < i ==> !has_name(self.instances@, j, name@),
            decreases self.instances@.len() - i,
        {
            if self.instances[i].0 == *name {
                return Some(i);
            }
            i += 1;
        }
        None
    }
}

} // verus!
