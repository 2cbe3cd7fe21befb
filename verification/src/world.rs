//! Items lying in the world and the switches players can toggle.

use crate::error::Error;
use vstd::prelude::*;
use vstd::string::StringExecFns;

verus! {

/// An item lying in an instance, waiting to be picked up. The position is
/// three single-precision numbers, held as their bit patterns.
#[derive(Debug)]
pub struct WorldItem {
    pub world_item_id: u64,
    pub instance_id: u64,
    pub item_id: String,
    pub quantity: u32,
    pub position_x: u32,
    pub position_y: u32,
    pub position_z: u32,
    pub is_collected: bool,
}

/// A world item as a mathematical value.
pub struct WorldItemView {
    pub world_item_id: u64,
    pub instance_id: u64,
    pub item_id: Seq<char>,
    pub quantity: u32,
    pub position_x: u32,
    pub position_y: u32,
    pub position_z: u32,
    pub is_collected: bool,
}

impl View for WorldItem {
    type V = WorldItemView;

    open spec fn view(&self) -> WorldItemView {
        WorldItemView {
            world_item_id: self.world_item_id,
            instance_id: self.instance_id,
            item_id: self.item_id@,
            quantity: self.quantity,
            position_x: self.position_x,
            position_y: self.position_y,
            position_z: self.position_z,
            is_collected: self.is_collected,
        }
    }
}

impl Clone for WorldItem {
    fn clone(&self) -> (copy: WorldItem)
        ensures
            copy == *self,
    {
        WorldItem {
            world_item_id: self.world_item_id,
            instance_id: self.instance_id,
            item_id: self.item_id.clone(),
            quantity: self.quantity,
            position_x: self.position_x,
            position_y: self.position_y,
            position_z: self.position_z,
            is_collected: self.is_collected,
        }
    }
}

/// The state of one interactable object of an instance.
#[derive(Debug)]
pub struct InteractableState {
    pub interactable_id: String,
    pub instance_id: u64,
    pub is_active: bool,
    pub state_data: String,
}

/// An interactable's state as a mathematical value.
pub struct InteractableStateView {
    pub interactable_id: Seq<char>,
    pub instance_id: u64,
    pub is_active: bool,
    pub state_data: Seq<char>,
}

impl View for InteractableState {
    type V = InteractableStateView;

    open spec fn view(&self) -> InteractableStateView {
        InteractableStateView {
            interactable_id: self.interactable_id@,
            instance_id: self.instance_id,
            is_active: self.is_active,
            state_data: self.state_data@,
        }
    }
}

impl Clone for InteractableState {
    fn clone(&self) -> (copy: InteractableState)
        ensures
            copy == *self,
    {
        InteractableState {
            interactable_id: self.interactable_id.clone(),
            instance_id: self.instance_id,
            is_active: self.is_active,
            state_data: self.state_data.clone(),
        }
    }
}

/// The views of a vector of world items, in order.
pub open spec fn world_items_view(rows: Seq<WorldItem>) -> Seq<WorldItemView> {
    rows.map_values(|row: WorldItem| row@)
}

/// The views of a vector of interactables, in order.
pub open spec fn interactables_view(rows: Seq<InteractableState>) -> Seq<InteractableStateView> {
    rows.map_values(|row: InteractableState| row@)
}

/// The world items as a mathematical value: the items in the order in which
/// they were added, and a number above all their ids.
pub struct WorldItemsView {
    pub items: Seq<WorldItemView>,
    pub next_world_item_id: u64,
}

/// Some world item has the id `world_item_id`.
pub open spec fn has_world_item(items: Seq<WorldItemView>, world_item_id: u64) -> bool {
    exists|i: int| 0 <= i < items.len() && (#[trigger] items[i]).world_item_id == world_item_id
}

/// The place of the world item with the id `world_item_id`.
pub open spec fn world_item_index(items: Seq<WorldItemView>, world_item_id: u64) -> int {
    choose|i: int| 0 <= i < items.len() && (#[trigger] items[i]).world_item_id == world_item_id
}

/// The ids of the world items differ and lie below the next id.
pub open spec fn world_items_wf(world: WorldItemsView) -> bool {
    &&& forall|i: int|
        0 <= i < world.items.len() ==> (#[trigger] world.items[i]).world_item_id
            < world.next_world_item_id
    &&& forall|i: int, j: int|
        0 <= i < j < world.items.len() ==> (#[trigger] world.items[i]).world_item_id != (
        #[trigger] world.items[j]).world_item_id
}

/// Among well-formed world items the item found under an id is the only one
/// with that id.
pub proof fn lemma_world_item_unique(world: WorldItemsView, k: int)
    requires
        world_items_wf(world),
        0 <= k < world.items.len(),
    ensures
        has_world_item(world.items, world.items[k].world_item_id),
        world_item_index(world.items, world.items[k].world_item_id) == k,
{
    let items = world.items;
    let id = items[k].world_item_id;
    assert(has_world_item(items, id));
    let c = world_item_index(items, id);
    assert(0 <= c < items.len() && items[c].world_item_id == id);
    if c < k {
        assert(items[c].world_item_id != items[k].world_item_id);
    } else if k < c {
        assert(items[k].world_item_id != items[c].world_item_id);
    }
}

/// What adding a world item returns.
pub open spec fn place_result(world: WorldItemsView, item: WorldItemView) -> Result<(), Error> {
    if has_world_item(world.items, item.world_item_id) {
        Err(Error::AlreadyExists)
    } else if item.world_item_id == u64::MAX {
        Err(Error::LimitReached)
    } else {
        Ok(())
    }
}

/// The world items after one was added; unchanged where that fails.
pub open spec fn place_state(world: WorldItemsView, item: WorldItemView) -> WorldItemsView {
    if place_result(world, item) is Err {
        world
    } else {
        WorldItemsView {
            items: world.items.push(item),
            next_world_item_id: if item.world_item_id >= world.next_world_item_id {
                (item.world_item_id + 1) as u64
            } else {
                world.next_world_item_id
            },
        }
    }
}

/// Whether a world item can be picked up.
pub open spec fn pick_up_result(world: WorldItemsView, world_item_id: u64) -> Result<(), Error> {
    if !has_world_item(world.items, world_item_id) {
        Err(Error::UnknownWorldItem)
    } else if world.items[world_item_index(world.items, world_item_id)].is_collected {
        Err(Error::AlreadyCollected)
    } else {
        Ok(())
    }
}

/// The world items after one was picked up: it is marked as collected;
/// unchanged where it cannot be picked up.
pub open spec fn pick_up_state(world: WorldItemsView, world_item_id: u64) -> WorldItemsView {
    if pick_up_result(world, world_item_id) is Err {
        world
    } else {
        let k = world_item_index(world.items, world_item_id);
        WorldItemsView {
            items: world.items.update(k, WorldItemView { is_collected: true, ..world.items[k] }),
            ..world
        }
    }
}

/// Picking a world item up keeps the world items well-formed.
pub proof fn lemma_pick_up_wf(world: WorldItemsView, world_item_id: u64)
    requires
        world_items_wf(world),
    ensures
        world_items_wf(pick_up_state(world, world_item_id)),
{
    let after = pick_up_state(world, world_item_id);
    if pick_up_result(world, world_item_id) is Ok {
        assert forall|i: int| 0 <= i < after.items.len() implies (
        #[trigger] after.items[i]).world_item_id < after.next_world_item_id by {
            assert(world.items[i].world_item_id < world.next_world_item_id);
        }
        assert forall|i: int, j: int| 0 <= i < j < after.items.len() implies (
        #[trigger] after.items[i]).world_item_id != (#[trigger] after.items[j]).world_item_id by {
            assert(world.items[i].world_item_id != world.items[j].world_item_id);
        }
    }
}

/// The table of world items.
pub struct WorldItemTable {
    rows: Vec<WorldItem>,
    next_world_item_id: u64,
}

impl View for WorldItemTable {
    type V = WorldItemsView;

    closed spec fn view(&self) -> WorldItemsView {
        WorldItemsView {
            items: world_items_view(self.rows@),
            next_world_item_id: self.next_world_item_id,
        }
    }
}

impl WorldItemTable {
    /// The table's invariant: see [`world_items_wf`].
    pub open spec fn wf(&self) -> bool {
        world_items_wf(self@)
    }

    /// A table without world items.
    pub fn new() -> (table: WorldItemTable)
        ensures
            table.wf(),
            table@.items == Seq::<WorldItemView>::empty(),
            table@.next_world_item_id == 1,
    {
        let table = WorldItemTable { rows: Vec::new(), next_world_item_id: 1 };
        assert(table@.items =~= Seq::<WorldItemView>::empty());
        table
    }

    /// The world items, in the order in which they were added.
    pub fn items(&self) -> (rows: &Vec<WorldItem>)
        ensures
            world_items_view(rows@) == self@.items,
    {
        &self.rows
    }

    /// Finds the place of the world item with the id `world_item_id`.
    fn find(&self, world_item_id: u64) -> (found: Option<usize>)
        requires
            self.wf(),
        ensures
            match found {
                Some(k) => k < self@.items.len() && has_world_item(self@.items, world_item_id)
                    && world_item_index(self@.items, world_item_id) == k,
                None => !has_world_item(self@.items, world_item_id),
            },
    {
        let mut i: usize = 0;
        while i < self.rows.len()
            invariant
                self.wf(),
                i <= self.rows.len(),
                forall|k: int|
                    0 <= k < i ==> (#[trigger] self@.items[k]).world_item_id != world_item_id,
            decreases self.rows.len() - i,
        {
            assert(self@.items[i as int] == self.rows[i as int]@);
            if self.rows[i].world_item_id == world_item_id {
                proof {
                    lemma_world_item_unique(self@, i as int);
                }
                return Some(i);
            }
            i += 1;
        }
        None
    }

    /// The world item with the id `world_item_id`.
    pub fn get(&self, world_item_id: u64) -> (found: Option<&WorldItem>)
        requires
            self.wf(),
        ensures
            match found {
                Some(item) => has_world_item(self@.items, world_item_id) && item@
                    == self@.items[world_item_index(self@.items, world_item_id)],
                None => !has_world_item(self@.items, world_item_id),
            },
    {
        match self.find(world_item_id) {
            Some(k) => {
                assert(self@.items[k as int] == self.rows[k as int]@);
                Some(&self.rows[k])
            },
            None => None,
        }
    }

    /// Adds a world item under the id it carries.
    pub fn insert(&mut self, item: WorldItem) -> (result: Result<(), Error>)
        requires
            old(self).wf(),
        ensures
            final(self).wf(),
            result == place_result(old(self)@, item@),
            final(self)@ == place_state(old(self)@, item@),
    {
        if self.find(item.world_item_id).is_some() {
            return Err(Error::AlreadyExists);
        }
        if item.world_item_id == u64::MAX {
            return Err(Error::LimitReached);
        }
        if item.world_item_id >= self.next_world_item_id {
            self.next_world_item_id = item.world_item_id + 1;
        }
        self.rows.push(item);
        proof {
            let before = old(self)@;
            let after = self@;
            assert(after.items =~= before.items.push(item@));
            let last = before.items.len() as int;
            assert forall|i: int| 0 <= i < after.items.len() implies (
            #[trigger] after.items[i]).world_item_id < after.next_world_item_id by {
                if i < last {
                    assert(before.items[i].world_item_id < before.next_world_item_id);
                }
            }
            assert forall|i: int, j: int| 0 <= i < j < after.items.len() implies (
            #[trigger] after.items[i]).world_item_id != (
            #[trigger] after.items[j]).world_item_id by {
                if j < last {
                    assert(before.items[i].world_item_id != before.items[j].world_item_id);
                } else {
                    assert(before.items[i].world_item_id != item.world_item_id);
                }
            }
        }
        Ok(())
    }

    /// Marks a world item as collected.
    pub fn pick_up(&mut self, world_item_id: u64) -> (result: Result<(), Error>)
        requires
            old(self).wf(),
        ensures
            final(self).wf(),
            result == pick_up_result(old(self)@, world_item_id),
            final(self)@ == pick_up_state(old(self)@, world_item_id),
    {
        let k = match self.find(world_item_id) {
            Some(k) => k,
            None => {
                return Err(Error::UnknownWorldItem);
            },
        };
        assert(self@.items[k as int] == self.rows[k as int]@);
        if self.rows[k].is_collected {
            return Err(Error::AlreadyCollected);
        }
        self.rows[k].is_collected = true;
        proof {
            let before = old(self)@;
            let after = self@;
            assert(after.items =~= before.items.update(
                k as int,
                WorldItemView { is_collected: true, ..before.items[k as int] },
            ));
            assert forall|i: int| 0 <= i < after.items.len() implies (
            #[trigger] after.items[i]).world_item_id < after.next_world_item_id by {
                assert(before.items[i].world_item_id < before.next_world_item_id);
            }
            assert forall|i: int, j: int| 0 <= i < j < after.items.len() implies (
            #[trigger] after.items[i]).world_item_id != (
            #[trigger] after.items[j]).world_item_id by {
                assert(before.items[i].world_item_id != before.items[j].world_item_id);
            }
        }
        Ok(())
    }
}

/// Some interactable has the id `interactable_id`.
pub open spec fn has_interactable(
    states: Seq<InteractableStateView>,
    interactable_id: Seq<char>,
) -> bool {
    exists|i: int|
        0 <= i < states.len() && (#[trigger] states[i]).interactable_id == interactable_id
}

/// The place of the interactable with the id `interactable_id`.
pub open spec fn interactable_index(
    states: Seq<InteractableStateView>,
    interactable_id: Seq<char>,
) -> int {
    choose|i: int|
        0 <= i < states.len() && (#[trigger] states[i]).interactable_id == interactable_id
}

/// No two interactables share an id.
pub open spec fn interactables_wf(states: Seq<InteractableStateView>) -> bool {
    forall|i: int, j: int|
        0 <= i < j < states.len() ==> (#[trigger] states[i]).interactable_id != (
        #[trigger] states[j]).interactable_id
}

/// The interactables after the one with the id `interactable_id` was
/// switched: active becomes inactive and inactive active; unchanged where
/// there is no such interactable.
pub open spec fn toggle_state(
    states: Seq<InteractableStateView>,
    interactable_id: Seq<char>,
) -> Seq<InteractableStateView> {
    if has_interactable(states, interactable_id) {
        let k = interactable_index(states, interactable_id);
        states.update(k, InteractableStateView { is_active: !states[k].is_active, ..states[k] })
    } else {
        states
    }
}

/// Among well-formed interactables the one found under an id is the only one
/// with that id.
pub proof fn lemma_interactable_unique(states: Seq<InteractableStateView>, k: int)
    requires
        interactables_wf(states),
        0 <= k < states.len(),
    ensures
        has_interactable(states, states[k].interactable_id),
        interactable_index(states, states[k].interactable_id) == k,
{
    let id = states[k].interactable_id;
    assert(has_interactable(states, id));
    let c = interactable_index(states, id);
    assert(0 <= c < states.len() && states[c].interactable_id == id);
    if c < k {
        assert(states[c].interactable_id != states[k].interactable_id);
    } else if k < c {
        assert(states[k].interactable_id != states[c].interactable_id);
    }
}

/// The table of interactables.
pub struct InteractableTable {
    rows: Vec<InteractableState>,
}

impl View for InteractableTable {
    type V = Seq<InteractableStateView>;

    closed spec fn view(&self) -> Seq<InteractableStateView> {
        interactables_view(self.rows@)
    }
}

impl InteractableTable {
    /// The table's invariant: see [`interactables_wf`].
    pub open spec fn wf(&self) -> bool {
        interactables_wf(self@)
    }

    /// A table without interactables.
    pub fn new() -> (table: InteractableTable)
        ensures
            table.wf(),
            table@ == Seq::<InteractableStateView>::empty(),
    {
        let table = InteractableTable { rows: Vec::new() };
        assert(table@ =~= Seq::<InteractableStateView>::empty());
        table
    }

    /// The interactables, in the order in which they were added.
    pub fn states(&self) -> (rows: &Vec<InteractableState>)
        ensures
            interactables_view(rows@) == self@,
    {
        &self.rows
    }

    /// Finds the place of the interactable with the id `interactable_id`.
    fn find(&self, interactable_id: &String) -> (found: Option<usize>)
        requires
            self.wf(),
        ensures
            match found {
                Some(k) => k < self@.len() && has_interactable(self@, interactable_id@)
                    && interactable_index(self@, interactable_id@) == k,
                None => !has_interactable(self@, interactable_id@),
            },
    {
        let mut i: usize = 0;
        while i < self.rows.len()
            invariant
                self.wf(),
                i <= self.rows.len(),
                forall|k: int|
                    0 <= k < i ==> (#[trigger] self@[k]).interactable_id != interactable_id@,
            decreases self.rows.len() - i,
        {
            assert(self@[i as int] == self.rows[i as int]@);
            if self.rows[i].interactable_id == *interactable_id {
                proof {
                    lemma_interactable_unique(self@, i as int);
                }
                return Some(i);
            }
            i += 1;
        }
        None
    }

    /// Adds an interactable, unless its id is taken.
    pub fn insert(&mut self, state: InteractableState) -> (result: Result<(), Error>)
        requires
            old(self).wf(),
        ensures
            final(self).wf(),
            result == if has_interactable(old(self)@, state@.interactable_id) {
                Err::<(), Error>(Error::AlreadyExists)
            } else {
                Ok::<(), Error>(())
            },
            final(self)@ == if result is Ok {
                old(self)@.push(state@)
            } else {
                old(self)@
            },
    {
        if self.find(&state.interactable_id).is_some() {
            return Err(Error::AlreadyExists);
        }
        self.rows.push(state);
        proof {
            let before = old(self)@;
            let after = self@;
            assert(after =~= before.push(state@));
            assert forall|i: int, j: int| 0 <= i < j < after.len() implies (
            #[trigger] after[i]).interactable_id != (#[trigger] after[j]).interactable_id by {
                if j < before.len() {
                    assert(before[i].interactable_id != before[j].interactable_id);
                } else {
                    assert(before[i].interactable_id != state@.interactable_id);
                }
            }
        }
        Ok(())
    }

    /// Switches an interactable. Returns whether there is one with that id.
    pub fn toggle(&mut self, interactable_id: &str) -> (known: bool)
        requires
            old(self).wf(),
        ensures
            final(self).wf(),
            known == has_interactable(old(self)@, interactable_id@),
            final(self)@ == toggle_state(old(self)@, interactable_id@),
    {
        let key = String::from_str(interactable_id);
        match self.find(&key) {
            Some(k) => {
                assert(self@[k as int] == self.rows[k as int]@);
                let active = self.rows[k].is_active;
                self.rows[k].is_active = !active;
                proof {
                    let before = old(self)@;
                    let after = self@;
                    assert(after =~= before.update(
                        k as int,
                        InteractableStateView { is_active: !active, ..before[k as int] },
                    ));
                    assert forall|i: int, j: int| 0 <= i < j < after.len() implies (
                    #[trigger] after[i]).interactable_id != (
                    #[trigger] after[j]).interactable_id by {
                        assert(before[i].interactable_id != before[j].interactable_id);
                    }
                }
                true
            },
            None => false,
        }
    }
}

} // verus!
