//! The definitions a fresh catalog starts with.

use crate::catalog::{catalog_wf, definitions_view, ItemDefinition, ItemDefinitionView};
use vstd::prelude::*;
use vstd::string::StringExecFns;

verus! {

/// A definition as a mathematical value, field by field.
pub open spec fn item(
    item_id: Seq<char>,
    display_name: Seq<char>,
    description: Seq<char>,
    item_type: Seq<char>,
    max_stack: u32,
    icon_path: Seq<char>,
    is_premium: bool,
    premium_currency_price: u32,
    is_exclusive: bool,
    rarity: u8,
) -> ItemDefinitionView {
    ItemDefinitionView {
        item_id,
        display_name,
        description,
        item_type,
        max_stack,
        icon_path,
        is_premium,
        premium_currency_price,
        is_exclusive,
        rarity,
    }
}

/// Builds a definition from its fields.
pub fn define(
    item_id: &str,
    display_name: &str,
    description: &str,
    item_type: &str,
    max_stack: u32,
    icon_path: &str,
    is_premium: bool,
    premium_currency_price: u32,
    is_exclusive: bool,
    rarity: u8,
) -> (definition: ItemDefinition)
    ensures
        definition@ == item(
            item_id@,
            display_name@,
            description@,
            item_type@,
            max_stack,
            icon_path@,
            is_premium,
            premium_currency_price,
            is_exclusive,
            rarity,
        ),
{
    ItemDefinition {
        item_id: String::from_str(item_id),
        display_name: String::from_str(display_name),
        description: String::from_str(description),
        item_type: String::from_str(item_type),
        max_stack,
        icon_path: String::from_str(icon_path),
        is_premium,
        premium_currency_price,
        is_exclusive,
        rarity,
    }
}

/// The five items that are found in play and cannot be bought.
pub open spec fn standard_items() -> Seq<ItemDefinitionView> {
    seq![
        item(
            "health_potion"@,
            "Health Potion"@,
            "Restores 50 health points."@,
            "consumable"@,
            10,
            "/Game/UI/Icons/health_potion"@,
            false,
            0,
            false,
            0,
        ),
        item(
            "mana_potion"@,
            "Mana Potion"@,
            "Restores 50 mana points."@,
            "consumable"@,
            10,
            "/Game/UI/Icons/mana_potion"@,
            false,
            0,
            false,
            0,
        ),
        item(
            "gold_coin"@,
            "Gold Coin"@,
            "Currency."@,
            "resource"@,
            999,
            "/Game/UI/Icons/gold_coin"@,
            false,
            0,
            false,
            0,
        ),
        item(
            "iron_sword"@,
            "Iron Sword"@,
            "A basic iron sword."@,
            "weapon"@,
            1,
            "/Game/UI/Icons/iron_sword"@,
            false,
            0,
            false,
            1,
        ),
        item(
            "wooden_shield"@,
            "Wooden Shield"@,
            "A basic wooden shield."@,
            "weapon"@,
            1,
            "/Game/UI/Icons/wooden_shield"@,
            false,
            0,
            false,
            0,
        ),
    ]
}

/// The fourteen items of the cash shop.
pub open spec fn premium_items() -> Seq<ItemDefinitionView> {
    seq![
        item(
            "celestial_blade"@,
            "Celestial Blade"@,
            "A legendary sword forged from starlight. Glows with ethereal energy."@,
            "weapon"@,
            1,
            "/Game/UI/Icons/Premium/celestial_blade"@,
            true,
            1500,
            true,
            4,
        ),
        item(
            "shadow_dagger"@,
            "Shadow Dagger"@,
            "A dagger that seems to absorb light itself. Leaves trails of darkness."@,
            "weapon"@,
            1,
            "/Game/UI/Icons/Premium/shadow_dagger"@,
            true,
            800,
            true,
            3,
        ),
        item(
            "phoenix_staff"@,
            "Phoenix Staff"@,
            "A staff crowned with eternal flames. Said to grant rebirth to its wielder."@,
            "weapon"@,
            1,
            "/Game/UI/Icons/Premium/phoenix_staff"@,
            true,
            1200,
            true,
            4,
        ),
        item(
            "dragonscale_helm"@,
            "Dragonscale Helm"@,
            "Helmet forged from ancient dragon scales. Part of the Dragonscale set."@,
            "armor"@,
            1,
            "/Game/UI/Icons/Premium/dragonscale_helm"@,
            true,
            600,
            true,
            3,
        ),
        item(
            "dragonscale_armor"@,
            "Dragonscale Armor"@,
            "Chestplate forged from ancient dragon scales. Shimmers with inner fire."@,
            "armor"@,
            1,
            "/Game/UI/Icons/Premium/dragonscale_armor"@,
            true,
            1000,
            true,
            3,
        ),
        item(
            "void_walker_boots"@,
            "Void Walker Boots"@,
            "Boots that let you walk between dimensions. Leaves shadow footprints."@,
            "armor"@,
            1,
            "/Game/UI/Icons/Premium/void_walker_boots"@,
            true,
            500,
            true,
            3,
        ),
        item(
            "ring_of_eternity"@,
            "Ring of Eternity"@,
            "An ancient ring that pulses with time magic. Grants +10% XP bonus."@,
            "accessory"@,
            1,
            "/Game/UI/Icons/Premium/ring_of_eternity"@,
            true,
            2000,
            true,
            4,
        ),
        item(
            "amulet_of_fortune"@,
            "Amulet of Fortune"@,
            "A lucky charm that increases gold drops by 15%."@,
            "accessory"@,
            1,
            "/Game/UI/Icons/Premium/amulet_of_fortune"@,
            true,
            1500,
            true,
            3,
        ),
        item(
            "elixir_of_power"@,
            "Elixir of Power"@,
            "Doubles damage output for 5 minutes."@,
            "consumable"@,
            5,
            "/Game/UI/Icons/Premium/elixir_of_power"@,
            true,
            100,
            false,
            2,
        ),
        item(
            "scroll_of_resurrection"@,
            "Scroll of Resurrection"@,
            "Instantly revive at your current location with full health."@,
            "consumable"@,
            3,
            "/Game/UI/Icons/Premium/scroll_of_resurrection"@,
            true,
            200,
            false,
            3,
        ),
        item(
            "spirit_wolf_whistle"@,
            "Spirit Wolf Whistle"@,
            "Summons a spectral wolf mount. 50% speed bonus."@,
            "mount"@,
            1,
            "/Game/UI/Icons/Premium/spirit_wolf"@,
            true,
            2500,
            true,
            4,
        ),
        item(
            "baby_dragon_egg"@,
            "Baby Dragon Egg"@,
            "A companion that follows you and occasionally breathes fire at enemies."@,
            "companion"@,
            1,
            "/Game/UI/Icons/Premium/baby_dragon"@,
            true,
            3000,
            true,
            4,
        ),
        item(
            "founders_pack_token"@,
            "Founder's Pack"@,
            "Exclusive founder's pack. Contains: Founder's Sword, 1000 Gems, Founder Title."@,
            "bundle"@,
            1,
            "/Game/UI/Icons/Premium/founders_pack"@,
            true,
            4999,
            true,
            4,
        ),
        item(
            "battle_pass_season1"@,
            "Battle Pass - Season 1"@,
            "Unlock exclusive seasonal rewards as you play."@,
            "pass"@,
            1,
            "/Game/UI/Icons/Premium/battle_pass_s1"@,
            true,
            950,
            true,
            3,
        ),
    ]
}

/// The definitions a fresh catalog starts with: the standard items, then the
/// premium ones.
pub open spec fn seed_items() -> Seq<ItemDefinitionView> {
    standard_items() + premium_items()
}

/// The ids of the seed items differ from one another, and each item stacks to
/// at least one.
pub proof fn lemma_seed_items_wf()
    ensures
        catalog_wf(seed_items()),
        seed_items().len() == 19,
{
    let items = seed_items();
    assert(items.len() == 19);
    assert forall|i: int, j: int| 0 <= i < j < items.len() implies #[trigger] items[i].item_id
        != #[trigger] items[j].item_id by {
        lemma_seed_ids_differ(i, j);
    }
}

/// The length of a seed item's id together with two of its characters, which
/// tell the ids apart.
spec fn fingerprint(id: Seq<char>) -> (nat, char, char) {
    (id.len(), id[0], id[id.len() - 2])
}

proof fn lemma_seed_ids_differ(i: int, j: int)
    requires
        0 <= i < j < 19,
    ensures
        seed_items()[i].item_id != seed_items()[j].item_id,
{
    reveal_strlit("health_potion");
    reveal_strlit("mana_potion");
    reveal_strlit("gold_coin");
    reveal_strlit("iron_sword");
    reveal_strlit("wooden_shield");
    reveal_strlit("celestial_blade");
    reveal_strlit("shadow_dagger");
    reveal_strlit("phoenix_staff");
    reveal_strlit("dragonscale_helm");
    reveal_strlit("dragonscale_armor");
    reveal_strlit("void_walker_boots");
    reveal_strlit("ring_of_eternity");
    reveal_strlit("amulet_of_fortune");
    reveal_strlit("elixir_of_power");
    reveal_strlit("scroll_of_resurrection");
    reveal_strlit("spirit_wolf_whistle");
    reveal_strlit("baby_dragon_egg");
    reveal_strlit("founders_pack_token");
    reveal_strlit("battle_pass_season1");
    let items = seed_items();
    assert(fingerprint(items[i].item_id) != fingerprint(items[j].item_id));
}

/// Builds the seed definitions.
pub fn seed_definitions() -> (rows: Vec<ItemDefinition>)
    ensures
        definitions_view(rows@) == seed_items(),
{
    let mut rows: Vec<ItemDefinition> = Vec::new();
    rows.push(
        define(
            "health_potion",
            "Health Potion",
            "Restores 50 health points.",
            "consumable",
            10,
            "/Game/UI/Icons/health_potion",
            false,
            0,
            false,
            0,
        ),
    );
    rows.push(
        define(
            "mana_potion",
            "Mana Potion",
            "Restores 50 mana points.",
            "consumable",
            10,
            "/Game/UI/Icons/mana_potion",
            false,
            0,
            false,
            0,
        ),
    );
    rows.push(
        define(
            "gold_coin",
            "Gold Coin",
            "Currency.",
            "resource",
            999,
            "/Game/UI/Icons/gold_coin",
            false,
            0,
            false,
            0,
        ),
    );
    rows.push(
        define(
            "iron_sword",
            "Iron Sword",
            "A basic iron sword.",
            "weapon",
            1,
            "/Game/UI/Icons/iron_sword",
            false,
            0,
            false,
            1,
        ),
    );
    rows.push(
        define(
            "wooden_shield",
            "Wooden Shield",
            "A basic wooden shield.",
            "weapon",
            1,
            "/Game/UI/Icons/wooden_shield",
            false,
            0,
            false,
            0,
        ),
    );
    rows.push(
        define(
            "celestial_blade",
            "Celestial Blade",
            "A legendary sword forged from starlight. Glows with ethereal energy.",
            "weapon",
            1,
            "/Game/UI/Icons/Premium/celestial_blade",
            true,
            1500,
            true,
            4,
        ),
    );
    rows.push(
        define(
            "shadow_dagger",
            "Shadow Dagger",
            "A dagger that seems to absorb light itself. Leaves trails of darkness.",
            "weapon",
            1,
            "/Game/UI/Icons/Premium/shadow_dagger",
            true,
            800,
            true,
            3,
        ),
    );
    rows.push(
        define(
            "phoenix_staff",
            "Phoenix Staff",
            "A staff crowned with eternal flames. Said to grant rebirth to its wielder.",
            "weapon",
            1,
            "/Game/UI/Icons/Premium/phoenix_staff",
            true,
            1200,
            true,
            4,
        ),
    );
    rows.push(
        define(
            "dragonscale_helm",
            "Dragonscale Helm",
            "Helmet forged from ancient dragon scales. Part of the Dragonscale set.",
            "armor",
            1,
            "/Game/UI/Icons/Premium/dragonscale_helm",
            true,
            600,
            true,
            3,
        ),
    );
    rows.push(
        define(
            "dragonscale_armor",
            "Dragonscale Armor",
            "Chestplate forged from ancient dragon scales. Shimmers with inner fire.",
            "armor",
            1,
            "/Game/UI/Icons/Premium/dragonscale_armor",
            true,
            1000,
            true,
            3,
        ),
    );
    rows.push(
        define(
            "void_walker_boots",
            "Void Walker Boots",
            "Boots that let you walk between dimensions. Leaves shadow footprints.",
            "armor",
            1,
            "/Game/UI/Icons/Premium/void_walker_boots",
            true,
            500,
            true,
            3,
        ),
    );
    rows.push(
        define(
            "ring_of_eternity",
            "Ring of Eternity",
            "An ancient ring that pulses with time magic. Grants +10% XP bonus.",
            "accessory",
            1,
            "/Game/UI/Icons/Premium/ring_of_eternity",
            true,
            2000,
            true,
            4,
        ),
    );
    rows.push(
        define(
            "amulet_of_fortune",
            "Amulet of Fortune",
            "A lucky charm that increases gold drops by 15%.",
            "accessory",
            1,
            "/Game/UI/Icons/Premium/amulet_of_fortune",
            true,
            1500,
            true,
            3,
        ),
    );
    rows.push(
        define(
            "elixir_of_power",
            "Elixir of Power",
            "Doubles damage output for 5 minutes.",
            "consumable",
            5,
            "/Game/UI/Icons/Premium/elixir_of_power",
            true,
            100,
            false,
            2,
        ),
    );
    rows.push(
        define(
            "scroll_of_resurrection",
            "Scroll of Resurrection",
            "Instantly revive at your current location with full health.",
            "consumable",
            3,
            "/Game/UI/Icons/Premium/scroll_of_resurrection",
            true,
            200,
            false,
            3,
        ),
    );
    rows.push(
        define(
            "spirit_wolf_whistle",
            "Spirit Wolf Whistle",
            "Summons a spectral wolf mount. 50% speed bonus.",
            "mount",
            1,
            "/Game/UI/Icons/Premium/spirit_wolf",
            true,
            2500,
            true,
            4,
        ),
    );
    rows.push(
        define(
            "baby_dragon_egg",
            "Baby Dragon Egg",
            "A companion that follows you and occasionally breathes fire at enemies.",
            "companion",
            1,
            "/Game/UI/Icons/Premium/baby_dragon",
            true,
            3000,
            true,
            4,
        ),
    );
    rows.push(
        define(
            "founders_pack_token",
            "Founder's Pack",
            "Exclusive founder's pack. Contains: Founder's Sword, 1000 Gems, Founder Title.",
            "bundle",
            1,
            "/Game/UI/Icons/Premium/founders_pack",
            true,
            4999,
            true,
            4,
        ),
    );
    rows.push(
        define(
            "battle_pass_season1",
            "Battle Pass - Season 1",
            "Unlock exclusive seasonal rewards as you play.",
            "pass",
            1,
            "/Game/UI/Icons/Premium/battle_pass_s1",
            true,
            950,
            true,
            3,
        ),
    );
    proof {
        assert(definitions_view(rows@) =~= seed_items());
    }
    rows
}

} // verus!
