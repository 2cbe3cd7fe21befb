//! The item catalog: what each item is, how far it stacks and what it costs.

use crate::seed::{lemma_seed_items_wf, seed_definitions, seed_items};
use vstd::prelude::*;
use vstd::string::StringExecFns;

verus! {

/// One catalog entry. Definitions do not change once the catalog is loaded.
#[derive(Debug)]
pub struct ItemDefinition {
    pub item_id: String,
    pub display_name: String,
    pub description: String,
    pub item_type: String,
    pub max_stack: u32,
    pub icon_path: String,
    pub is_premium: bool,
    pub premium_currency_price: u32,
    pub is_exclusive: bool,
    pub rarity: u8,
}

/// An item definition as a mathematical value.
pub struct ItemDefinitionView {
    pub item_id: Seq<char>,
    pub display_name: Seq<char>,
    pub description: Seq<char>,
    pub item_type: Seq<char>,
    pub max_stack: u32,
    pub icon_path: Seq<char>,
    pub is_premium: bool,
    pub premium_currency_price: u32,
    pub is_exclusive: bool,
    pub rarity: u8,
}

impl View for ItemDefinition {
    type V = ItemDefinitionView;

    open spec fn view(&self) -> ItemDefinitionView {
        ItemDefinitionView {
            item_id: self.item_id@,
            display_name: self.display_name@,
            description: self.description@,
            item_type: self.item_type@,
            max_stack: self.max_stack,
            icon_path: self.icon_path@,
            is_premium: self.is_premium,
            premium_currency_price: self.premium_currency_price,
            is_exclusive: self.is_exclusive,
            rarity: self.rarity,
        }
    }
}

impl Clone for ItemDefinition {
    fn clone(&self) -> (copy: ItemDefinition)
        ensures
            copy == *self,
    {
        ItemDefinition {
            item_id: self.item_id.clone(),
            display_name: self.display_name.clone(),
            description: self.description.clone(),
            item_type: self.item_type.clone(),
            max_stack: self.max_stack,
            icon_path: self.icon_path.clone(),
            is_premium: self.is_premium,
            premium_currency_price: self.premium_currency_price,
            is_exclusive: self.is_exclusive,
            rarity: self.rarity,
        }
    }
}

impl ItemDefinitionView {
    /// The item can be bought: it is premium and has a price.
    pub open spec fn for_sale(self) -> bool {
        self.is_premium && self.premium_currency_price > 0
    }

    /// Each unit of the item takes a slot of its own.
    pub open spec fn unique(self) -> bool {
        self.max_stack == 1
    }
}

/// The views of a vector of definitions, in order.
pub open spec fn definitions_view(rows: Seq<ItemDefinition>) -> Seq<ItemDefinitionView> {
    rows.map_values(|row: ItemDefinition| row@)
}

/// Some definition of `items` has the id `item_id`.
pub open spec fn defines(items: Seq<ItemDefinitionView>, item_id: Seq<char>) -> bool {
    exists|i: int| 0 <= i < items.len() && #[trigger] items[i].item_id == item_id
}

/// The place of a definition with id `item_id` in `items`.
pub open spec fn definition_index(items: Seq<ItemDefinitionView>, item_id: Seq<char>) -> int {
    choose|i: int| 0 <= i < items.len() && #[trigger] items[i].item_id == item_id
}

/// The definition with id `item_id`, if `items` has one.
pub open spec fn definition_of(items: Seq<ItemDefinitionView>, item_id: Seq<char>) -> Option<
    ItemDefinitionView,
> {
    if defines(items, item_id) {
        Some(items[definition_index(items, item_id)])
    } else {
        None
    }
}

/// No two definitions share an id, and every item stacks to at least one.
pub open spec fn catalog_wf(items: Seq<ItemDefinitionView>) -> bool {
    &&& forall|i: int, j: int|
        0 <= i < j < items.len() ==> #[trigger] items[i].item_id != #[trigger] items[j].item_id
    &&& forall|i: int| 0 <= i < items.len() ==> #[trigger] items[i].max_stack >= 1
}

/// In a well-formed catalog the definition found under an id is the only one
/// with that id.
pub proof fn lemma_definition_unique(items: Seq<ItemDefinitionView>, i: int)
    requires
        catalog_wf(items),
        0 <= i < items.len(),
    ensures
        definition_of(items, items[i].item_id) == Some(items[i]),
        definition_index(items, items[i].item_id) == i,
{
    let id = items[i].item_id;
    assert(defines(items, id));
    let k = definition_index(items, id);
    assert(0 <= k < items.len() && items[k].item_id == id);
    if k < i {
        assert(items[k].item_id != items[i].item_id);
    } else if i < k {
        assert(items[i].item_id != items[k].item_id);
    }
}

/// Adding a definition under a new id leaves what the catalog defined as it
/// was, and keeps the catalog well-formed.
pub proof fn lemma_definitions_kept(items: Seq<ItemDefinitionView>, added: ItemDefinitionView)
    requires
        catalog_wf(items),
        !defines(items, added.item_id),
        added.max_stack >= 1,
    ensures
        catalog_wf(items.push(added)),
        definition_of(items.push(added), added.item_id) == Some(added),
        forall|item_id: Seq<char>|
            definition_of(items, item_id) is Some ==> #[trigger] definition_of(
                items.push(added),
                item_id,
            ) == definition_of(items, item_id),
{
    let after = items.push(added);
    assert forall|i: int, j: int| 0 <= i < j < after.len() implies #[trigger] after[i].item_id
        != #[trigger] after[j].item_id by {
        if j < items.len() {
            assert(items[i].item_id != items[j].item_id);
        } else {
            assert(items[i].item_id != added.item_id);
        }
    }
    assert(after[items.len() as int] == added);
    lemma_definition_unique(after, items.len() as int);
    assert forall|item_id: Seq<char>| definition_of(items, item_id) is Some implies #[trigger]
        definition_of(after, item_id) == definition_of(items, item_id) by {
        let k = definition_index(items, item_id);
        assert(after[k] == items[k]);
        lemma_definition_unique(after, k);
    }
}

/// The item catalog.
pub struct Catalog {
    rows: Vec<ItemDefinition>,
}

impl View for Catalog {
    type V = Seq<ItemDefinitionView>;

    closed spec fn view(&self) -> Seq<ItemDefinitionView> {
        definitions_view(self.rows@)
    }
}

impl Catalog {
    /// The catalog's invariant: see [`catalog_wf`].
    pub open spec fn wf(&self) -> bool {
        catalog_wf(self@)
    }

    /// A catalog without definitions.
    pub fn new() -> (catalog: Catalog)
        ensures
            catalog.wf(),
            catalog@ == Seq::<ItemDefinitionView>::empty(),
    {
        let catalog = Catalog { rows: Vec::new() };
        assert(catalog@ =~= Seq::<ItemDefinitionView>::empty());
        catalog
    }

    /// The definitions, in the order in which they were added.
    pub fn definitions(&self) -> (rows: &Vec<ItemDefinition>)
        ensures
            definitions_view(rows@) == self@,
    {
        &self.rows
    }

    /// The number of definitions.
    pub fn len(&self) -> (count: usize)
        ensures
            count == self@.len(),
    {
        self.rows.len()
    }

    /// Finds the definition of an item.
    pub fn lookup(&self, item_id: &str) -> (found: Option<&ItemDefinition>)
        requires
            self.wf(),
        ensures
            match found {
                Some(definition) => definition_of(self@, item_id@) == Some(definition@),
                None => definition_of(self@, item_id@) is None,
            },
    {
        let key = String::from_str(item_id);
        let mut i: usize = 0;
        while i < self.rows.len()
            invariant
                self.wf(),
                i <= self.rows.len(),
                key@ == item_id@,
                forall|k: int| 0 <= k < i ==> (#[trigger] self@[k]).item_id != item_id@,
            decreases self.rows.len() - i,
        {
            if self.rows[i].item_id == key {
                proof {
                    assert(self@[i as int] == self.rows[i as int]@);
                    lemma_definition_unique(self@, i as int);
                }
                return Some(&self.rows[i]);
            }
            assert(self@[i as int] == self.rows[i as int]@);
            i += 1;
        }
        None
    }

    /// Loads the seed definitions into a catalog that has none. A catalog
    /// that holds any definition is left as it is.
    pub fn load_seed(&mut self) -> (seeded: bool)
        requires
            old(self).wf(),
        ensures
            final(self).wf(),
            seeded == (old(self)@.len() == 0),
            final(self)@ == if seeded {
                seed_items()
            } else {
                old(self)@
            },
    {
        if self.rows.len() != 0 {
            return false;
        }
        self.rows = seed_definitions();
        proof {
            lemma_seed_items_wf();
        }
        true
    }

    /// Adds a definition, unless its id is taken or it stacks to zero.
    pub fn insert(&mut self, definition: ItemDefinition) -> (added: bool)
        requires
            old(self).wf(),
        ensures
            final(self).wf(),
            added == (!defines(old(self)@, definition@.item_id) && definition.max_stack >= 1),
            final(self)@ == if added {
                old(self)@.push(definition@)
            } else {
                old(self)@
            },
    {
        if definition.max_stack == 0 {
            return false;
        }
        if self.lookup(definition.item_id.as_str()).is_some() {
            return false;
        }
        self.rows.push(definition);
        proof {
            assert(self@ =~= old(self)@.push(definition@));
        }
        true
    }
}

} // verus!
