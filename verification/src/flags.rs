//! The state the characters share, and the flags by which they tell each other what to do.

use vstd::prelude::*;

use crate::api::GameData;
use crate::optimize::eligibility::{heals, is_healing_consumable};
use crate::optimize::slot_rating::{
    current_slot_rating, equipped_codes, is_upgrade, opt_text, slots_of, texts, upgrades, worn,
    RankedItem, SlotRating,
};
use crate::table::Table;
use crate::text::{copy_codes, same};
use crate::types::{
    bank_qty, copy_bank, find_item, item_named, quantity_in, recipe_of, BankItem, Character, Item,
};

verus! {

/// A quantity of one item to fetch from the bank.
#[derive(Debug)]
pub struct BankItemRequest {
    pub code: String,
    pub quantity: i32,
}

impl Clone for BankItemRequest {
    fn clone(&self) -> (r: Self)
        ensures
            r == *self,
    {
        BankItemRequest { code: self.code.clone(), quantity: self.quantity }
    }
}

/// What a flag asks its target to do.
#[derive(Debug, Clone)]
pub enum FlagAction {
    /// Fetch items from the bank.
    RetrieveFromBank(Vec<BankItemRequest>),
    /// Unequip whatever is in `slot` and equip `item_code` in its place.
    EquipUpgrade { slot: String, item_code: String },
    /// The bank holds at least one healing consumable again.
    HealingConsumablesAvailable,
    /// The bank holds enough materials to craft at least one wishlisted equipment item.
    CraftWishlistGearAvailable,
    /// A merchant task has been requested.
    MerchantSummon,
}

/// A request from one character, or the bank, to another.
#[derive(Debug, Clone)]
pub struct Flag {
    pub from_character: String,
    pub action: FlagAction,
}

/// What a flag asks for, as a mathematical value.
pub enum ActionView {
    Retrieve(Seq<BankItemRequest>),
    Equip { slot: Seq<char>, item_code: Seq<char> },
    Heal,
    CraftGear,
    Merchant,
}

/// A flag, as a mathematical value.
pub struct FlagView {
    pub from: Seq<char>,
    pub action: ActionView,
}

impl View for FlagAction {
    type V = ActionView;

    open spec fn view(&self) -> ActionView {
        match self {
            FlagAction::RetrieveFromBank(requests) => ActionView::Retrieve(requests@),
            FlagAction::EquipUpgrade { slot, item_code } => ActionView::Equip {
                slot: slot@,
                item_code: item_code@,
            },
            FlagAction::HealingConsumablesAvailable => ActionView::Heal,
            FlagAction::CraftWishlistGearAvailable => ActionView::CraftGear,
            FlagAction::MerchantSummon => ActionView::Merchant,
        }
    }
}

impl View for Flag {
    type V = FlagView;

    open spec fn view(&self) -> FlagView {
        FlagView { from: self.from_character@, action: self.action@ }
    }
}

/// The flags waiting for each character.
pub type Pending = Map<Seq<char>, Seq<FlagView>>;

/// The flags waiting for `name`.
pub open spec fn pending_of(pending: Pending, name: Seq<char>) -> Seq<FlagView> {
    if pending.contains_key(name) {
        pending[name]
    } else {
        Seq::empty()
    }
}

/// Whether a request is waiting already. Fetch requests add up, so they never count as such.
pub open spec fn already_waiting(waiting: Seq<FlagView>, action: ActionView) -> bool {
    &&& !(action is Retrieve)
    &&& exists|i: int| 0 <= i < waiting.len() && (#[trigger] waiting[i]).action == action
}

/// The waiting flags once `flag` has come in.
pub open spec fn queued(waiting: Seq<FlagView>, flag: FlagView) -> Seq<FlagView> {
    if already_waiting(waiting, flag.action) {
        waiting
    } else {
        waiting.push(flag)
    }
}

/// Everyone's waiting flags once `flag` has come in for `target`.
pub open spec fn flagged(pending: Pending, target: Seq<char>, flag: FlagView) -> Pending {
    pending.insert(target, queued(pending_of(pending, target), flag))
}

/// Whether the bank holds at least one of `code`.
pub open spec fn bank_holds(bank: Seq<BankItem>, code: Seq<char>) -> bool {
    exists|i: int| 0 <= i < bank.len() && (#[trigger] bank[i]).code@ == code && bank[i].quantity > 0
}

/// The first upgrade for a slot that the bank holds, from place `from` of the ranking on.
pub open spec fn upgrade_in_bank(
    ranked: Seq<RankedItem>,
    equipped: Option<Seq<char>>,
    bank: Seq<BankItem>,
    from: int,
) -> Option<int>
    decreases ranked.len() - from,
{
    if from < 0 || from >= ranked.len() {
        None
    } else if is_upgrade(ranked[from], ranked, equipped) && bank_holds(bank, ranked[from].code@) {
        Some(from)
    } else {
        upgrade_in_bank(ranked, equipped, bank, from + 1)
    }
}

/// What a map has under a key.
pub open spec fn get_text(m: Map<Seq<char>, Seq<char>>, key: Seq<char>) -> Option<Seq<char>> {
    if m.contains_key(key) {
        Some(m[key])
    } else {
        None
    }
}

/// The flag that tells a character to put on an upgrade from the bank.
pub open spec fn upgrade_flag(slot: Seq<char>, item_code: Seq<char>) -> FlagView {
    FlagView { from: "bank"@, action: ActionView::Equip { slot, item_code } }
}

/// The waiting flags once the first `n` slots of `name` have been held against the bank.
pub open spec fn flag_slots(
    pending: Pending,
    name: Seq<char>,
    slots: Seq<SlotRating>,
    n: int,
    bank: Seq<BankItem>,
    equipped: Map<Seq<char>, Seq<char>>,
) -> Pending
    decreases n,
{
    if n <= 0 {
        pending
    } else {
        let before = flag_slots(pending, name, slots, n - 1, bank, equipped);
        let r = slots[n - 1];
        match upgrade_in_bank(r.ranked@, get_text(equipped, r.slot@), bank, 0) {
            Some(i) => flagged(before, name, upgrade_flag(r.slot@, r.ranked@[i].code@)),
            None => before,
        }
    }
}

/// What `name` wears, by slot.
pub open spec fn worn_by(equipped: Map<Seq<char>, Map<Seq<char>, Seq<char>>>, name: Seq<char>) -> Map<
    Seq<char>,
    Seq<char>,
> {
    if equipped.contains_key(name) {
        equipped[name]
    } else {
        Map::empty()
    }
}

/// The waiting flags once the first `n` of the rated characters have been held against the bank.
pub open spec fn flag_everyone(
    pending: Pending,
    names: Seq<Seq<char>>,
    n: int,
    ratings: Map<Seq<char>, Seq<SlotRating>>,
    bank: Seq<BankItem>,
    equipped: Map<Seq<char>, Map<Seq<char>, Seq<char>>>,
) -> Pending
    decreases n,
{
    if n <= 0 {
        pending
    } else {
        let name = names[n - 1];
        flag_slots(
            flag_everyone(pending, names, n - 1, ratings, bank, equipped),
            name,
            ratings[name],
            ratings[name].len() as int,
            bank,
            worn_by(equipped, name),
        )
    }
}

/// Whether the bank holds a healing consumable.
pub open spec fn food_in_bank(items: Seq<Item>, bank: Seq<BankItem>) -> bool {
    exists|i: int|
        0 <= i < bank.len() && (#[trigger] bank[i]).quantity > 0 && (item_named(
            items,
            bank[i].code@,
        ) matches Some(item) && heals(item))
}

/// Whether the bank holds every ingredient of one craft of `code`.
pub open spec fn bank_can_craft(items: Seq<Item>, bank: Seq<BankItem>, code: Seq<char>) -> bool {
    recipe_of(items, code) matches Some(craft) && forall|i: int|
        0 <= i < craft.items@.len() ==> bank_qty(bank, (#[trigger] craft.items@[i]).code@)
            >= craft.items@[i].quantity
}

/// Whether the bank holds what one of the wishlisted items takes.
pub open spec fn any_craftable(items: Seq<Item>, bank: Seq<BankItem>, codes: Seq<String>) -> bool {
    exists|i: int| 0 <= i < codes.len() && bank_can_craft(items, bank, (#[trigger] codes[i])@)
}

/// Everything the characters share, as a mathematical value.
#[verifier::ext_equal]
pub struct StateView {
    pub pending: Pending,
    pub bank: Seq<BankItem>,
    pub data: GameData,
    /// The rated characters, in the order in which they were first rated.
    pub rated: Seq<Seq<char>>,
    pub ratings: Map<Seq<char>, Seq<SlotRating>>,
    pub equipped: Map<Seq<char>, Map<Seq<char>, Seq<char>>>,
    pub reserved: Map<Seq<char>, i32>,
    pub awaiting: Option<Seq<char>>,
    pub fighter_combat_level: i32,
    pub crafter_min_gear_level: i32,
    pub wishlist_owner: Option<Seq<char>>,
    pub wishlist_equipment: Seq<String>,
    pub wishlist_alchemy: Seq<String>,
}

/// The state once upgrades that lie in the bank have been flagged for everyone.
pub open spec fn after_upgrades(s: StateView) -> StateView {
    StateView {
        pending: flag_everyone(
            s.pending,
            s.rated,
            s.rated.len() as int,
            s.ratings,
            s.bank,
            s.equipped,
        ),
        ..s
    }
}

/// The state once a character that waits for food has been told of food in the bank.
pub open spec fn after_restock(s: StateView) -> StateView {
    match s.awaiting {
        Some(name) => if food_in_bank(s.data.items@, s.bank) {
            StateView {
                pending: flagged(
                    s.pending,
                    name,
                    FlagView { from: "bank"@, action: ActionView::Heal },
                ),
                awaiting: None,
                ..s
            }
        } else {
            s
        },
        None => s,
    }
}

/// The state once the wishlist's owner has been told of materials in the bank.
pub open spec fn after_wishlist(s: StateView) -> StateView {
    match s.wishlist_owner {
        Some(owner) => if any_craftable(s.data.items@, s.bank, s.wishlist_equipment) {
            StateView {
                pending: flagged(
                    s.pending,
                    owner,
                    FlagView { from: "bank"@, action: ActionView::CraftGear },
                ),
                ..s
            }
        } else {
            s
        },
        None => s,
    }
}

/// The state after a bank refresh: the new contents, then every flag they give rise to.
pub open spec fn after_bank_refresh(s: StateView, bank: Seq<BankItem>) -> StateView {
    after_wishlist(after_restock(after_upgrades(StateView { bank, ..s })))
}

/// Everything the characters share.
pub struct GameState {
    flags: Table<Vec<Flag>>,
    bank: Vec<BankItem>,
    /// Immutable for the lifetime of the process.
    data: GameData,
    item_ratings: Table<Vec<SlotRating>>,
    equipped: Table<Table<String>>,
    reserved_materials: Table<i32>,
    awaiting_healing_consumables: Option<String>,
    fighter_combat_level: i32,
    crafter_min_gear_level: i32,
    wishlist_owner: Option<String>,
    wishlist_equipment_codes: Vec<String>,
    wishlist_alchemy_codes: Vec<String>,
}

/// The flags of a queue, as mathematical values.
pub open spec fn flag_views(flags: Seq<Flag>) -> Seq<FlagView> {
    flags.map_values(|f: Flag| f@)
}

/// The queues of a table of flags, as mathematical values.
pub open spec fn pending_in(flags: Map<Seq<char>, Vec<Flag>>) -> Pending {
    flags.map_values(|q: Vec<Flag>| flag_views(q@))
}

/// The rankings of a table of rankings, as sequences.
pub open spec fn ratings_in(ratings: Map<Seq<char>, Vec<SlotRating>>) -> Map<
    Seq<char>,
    Seq<SlotRating>,
> {
    ratings.map_values(|r: Vec<SlotRating>| r@)
}

/// The gear of a table of gear, as maps.
pub open spec fn equipped_in(equipped: Map<Seq<char>, Table<String>>) -> Map<
    Seq<char>,
    Map<Seq<char>, Seq<char>>,
> {
    equipped.map_values(|t: Table<String>| texts(t@))
}

/// The characters of an optional string.
pub open spec fn opt_string(s: Option<String>) -> Option<Seq<char>> {
    match s {
        None => None,
        Some(t) => Some(t@),
    }
}

/// Every table of gear is well formed.
pub open spec fn tables_wf(equipped: Map<Seq<char>, Table<String>>) -> bool {
    forall|k: Seq<char>| #[trigger] equipped.contains_key(k) ==> equipped[k].wf()
}

impl View for GameState {
    type V = StateView;

    closed spec fn view(&self) -> StateView {
        StateView {
            pending: pending_in(self.flags@),
            bank: self.bank@,
            data: self.data,
            rated: self.item_ratings.keys(),
            ratings: ratings_in(self.item_ratings@),
            equipped: equipped_in(self.equipped@),
            reserved: self.reserved_materials@,
            awaiting: opt_string(self.awaiting_healing_consumables),
            fighter_combat_level: self.fighter_combat_level,
            crafter_min_gear_level: self.crafter_min_gear_level,
            wishlist_owner: opt_string(self.wishlist_owner),
            wishlist_equipment: self.wishlist_equipment_codes@,
            wishlist_alchemy: self.wishlist_alchemy_codes@,
        }
    }
}

/// Whether a request is waiting already.
fn is_waiting(waiting: &[Flag], action: &FlagAction) -> (r: bool)
    ensures
        r == already_waiting(flag_views(waiting@), action@),
{
    let mut i: usize = 0;
    while i < waiting.len()
        invariant
            i <= waiting.len(),
            action@ is Retrieve || forall|j: int|
                0 <= j < i ==> (#[trigger] flag_views(waiting@)[j]).action != action@,
        decreases waiting.len() - i,
    {
        let hit: bool = match (&waiting[i].action, action) {
            (
                FlagAction::EquipUpgrade { slot: s, item_code: c },
                FlagAction::EquipUpgrade { slot, item_code },
            ) => same(s, slot) && same(c, item_code),
            (
                FlagAction::HealingConsumablesAvailable,
                FlagAction::HealingConsumablesAvailable,
            ) => true,
            (FlagAction::CraftWishlistGearAvailable, FlagAction::CraftWishlistGearAvailable) => true,
            (FlagAction::MerchantSummon, FlagAction::MerchantSummon) => true,
            _ => false,
        };
        assert(flag_views(waiting@)[i as int] == waiting@[i as int]@);
        assert(!(action@ is Retrieve) ==> hit == (flag_views(waiting@)[i as int].action == action@));
        assert(action@ is Retrieve ==> !hit);
        if hit {
            return true;
        }
        i += 1;
    }
    false
}

/// Queues `flag` for `target`, unless the same request is waiting already.
fn queue_flag(flags: &mut Table<Vec<Flag>>, target: &str, flag: Flag)
    requires
        old(flags).wf(),
    ensures
        final(flags).wf(),
        pending_in(final(flags)@) == flagged(pending_in(old(flags)@), target@, flag@),
{
    let ghost before = flags@;
    let mut waiting: Vec<Flag> = match flags.remove(target) {
        Some(queue) => queue,
        None => Vec::new(),
    };
    assert(flag_views(waiting@) =~= pending_of(pending_in(before), target@));
    let ghost had = waiting@;
    if !is_waiting(&waiting, &flag.action) {
        waiting.push(flag);
        assert(flag_views(waiting@) =~= flag_views(had).push(flag@));
    }
    flags.insert(target.to_owned(), waiting);
    assert(pending_in(flags@) =~= flagged(pending_in(before), target@, flag@));
}

/// Whether the bank holds at least one of `code`.
pub fn is_in_bank(bank: &[BankItem], code: &str) -> (r: bool)
    ensures
        r == bank_holds(bank@, code@),
{
    let mut i: usize = 0;
    while i < bank.len()
        invariant
            i <= bank.len(),
            forall|j: int| 0 <= j < i ==> !((#[trigger] bank@[j]).code@ == code@ && bank@[j].quantity > 0),
        decreases bank.len() - i,
    {
        if bank[i].quantity > 0 && same(&bank[i].code, code) {
            return true;
        }
        i += 1;
    }
    false
}

/// What is worn in `slot`.
fn worn_in<'a>(equipped: Option<&'a Table<String>>, slot: &str) -> (r: Option<&'a str>)
    requires
        equipped matches Some(t) ==> t.wf(),
    ensures
        opt_text(r) == get_text(
            match equipped {
                Some(t) => texts(t@),
                None => Map::empty(),
            },
            slot@,
        ),
{
    match equipped {
        Some(t) => match t.get(slot) {
            Some(code) => Some(code.as_str()),
            None => None,
        },
        None => None,
    }
}

/// Flags `name` for every slot for which the bank holds an upgrade over what is worn there. An
/// item that beats an empty slot may still be worse than current gear, so each is held against
/// the rating of what is worn.
fn flag_slot_upgrades(
    flags: &mut Table<Vec<Flag>>,
    name: &str,
    slots: &[SlotRating],
    bank: &[BankItem],
    equipped: Option<&Table<String>>,
)
    requires
        old(flags).wf(),
        equipped matches Some(t) ==> t.wf(),
    ensures
        final(flags).wf(),
        pending_in(final(flags)@) == flag_slots(
            pending_in(old(flags)@),
            name@,
            slots@,
            slots@.len() as int,
            bank@,
            match equipped {
                Some(t) => texts(t@),
                None => Map::empty(),
            },
        ),
{
    let ghost before = pending_in(flags@);
    let ghost gear = match equipped {
        Some(t) => texts(t@),
        None => Map::empty(),
    };
    let mut i: usize = 0;
    while i < slots.len()
        invariant
            i <= slots.len(),
            flags.wf(),
            equipped matches Some(t) ==> t.wf(),
            gear == (match equipped {
                Some(t) => texts(t@),
                None => Map::empty(),
            }),
            pending_in(flags@) == flag_slots(before, name@, slots@, i as int, bank@, gear),
        decreases slots.len() - i,
    {
        let r: &SlotRating = &slots[i];
        let current: Option<&str> = worn_in(equipped, r.slot);
        let rating: Option<i64> = current_slot_rating(&r.ranked, current);
        let found: Option<usize> = first_in_bank(&r.ranked, rating, current, bank);
        if let Some(j) = found {
            let slot: String = r.slot.to_owned();
            let item_code: String = r.ranked[j].code.clone();
            let flag = Flag {
                from_character: "bank".to_owned(),
                action: FlagAction::EquipUpgrade { slot, item_code },
            };
            assert(flag@ == upgrade_flag(r.slot@, r.ranked@[j as int].code@));
            queue_flag(flags, name, flag);
        }
        i += 1;
    }
}

/// The first upgrade of a ranking that the bank holds.
fn first_in_bank(
    ranked: &[RankedItem],
    rating: Option<i64>,
    current: Option<&str>,
    bank: &[BankItem],
) -> (r: Option<usize>)
    requires
        match current {
            None => rating is None,
            Some(code) => rating matches Some(c) && c
                == crate::optimize::slot_rating::listed_rating(ranked@, code@, 0),
        },
    ensures
        match r {
            Some(j) => j < ranked@.len() && upgrade_in_bank(ranked@, opt_text(current), bank@, 0)
                == Some(j as int),
            None => upgrade_in_bank(ranked@, opt_text(current), bank@, 0) is None,
        },
{
    let mut j: usize = 0;
    while j < ranked.len()
        invariant
            j <= ranked.len(),
            match current {
                None => rating is None,
                Some(code) => rating matches Some(c) && c
                    == crate::optimize::slot_rating::listed_rating(ranked@, code@, 0),
            },
            upgrade_in_bank(ranked@, opt_text(current), bank@, 0) == upgrade_in_bank(
                ranked@,
                opt_text(current),
                bank@,
                j as int,
            ),
        decreases ranked.len() - j,
    {
        if upgrades(ranked, j, rating, current) && is_in_bank(bank, &ranked[j].code) {
            return Some(j);
        }
        j += 1;
    }
    None
}

/// Flags every rated character for upgrades that lie in the bank.
fn flag_all_upgrades(
    flags: &mut Table<Vec<Flag>>,
    ratings: &Table<Vec<SlotRating>>,
    bank: &[BankItem],
    equipped: &Table<Table<String>>,
)
    requires
        old(flags).wf(),
        ratings.wf(),
        equipped.wf(),
        tables_wf(equipped@),
    ensures
        final(flags).wf(),
        pending_in(final(flags)@) == flag_everyone(
            pending_in(old(flags)@),
            ratings.keys(),
            ratings.keys().len() as int,
            ratings_in(ratings@),
            bank@,
            equipped_in(equipped@),
        ),
{
    let ghost before = pending_in(flags@);
    let mut i: usize = 0;
    while i < ratings.len()
        invariant
            i <= ratings.keys().len(),
            flags.wf(),
            ratings.wf(),
            equipped.wf(),
            tables_wf(equipped@),
            pending_in(flags@) == flag_everyone(
                before,
                ratings.keys(),
                i as int,
                ratings_in(ratings@),
                bank@,
                equipped_in(equipped@),
            ),
        decreases ratings.keys().len() - i,
    {
        let entry = ratings.at(i);
        let gear: Option<&Table<String>> = equipped.get(entry.0);
        assert(worn_by(equipped_in(equipped@), entry.0@) == (match gear {
            Some(t) => texts(t@),
            None => Map::empty(),
        }));
        flag_slot_upgrades(flags, entry.0, entry.1, bank, gear);
        i += 1;
    }
}

/// Whether the bank holds a healing consumable.
pub fn has_food(items: &[Item], bank: &[BankItem]) -> (r: bool)
    ensures
        r == food_in_bank(items@, bank@),
{
    let mut i: usize = 0;
    while i < bank.len()
        invariant
            i <= bank.len(),
            forall|j: int|
                0 <= j < i ==> !((#[trigger] bank@[j]).quantity > 0 && (item_named(
                    items@,
                    bank@[j].code@,
                ) matches Some(item) && heals(item))),
        decreases bank.len() - i,
    {
        if bank[i].quantity > 0 {
            if let Some(k) = find_item(items, &bank[i].code) {
                if is_healing_consumable(&items[k]) {
                    return true;
                }
            }
        }
        i += 1;
    }
    false
}

/// Whether the bank holds every ingredient of one craft of `code`.
fn can_craft_from_bank(items: &[Item], bank: &[BankItem], code: &str) -> (r: bool)
    ensures
        r == bank_can_craft(items@, bank@, code@),
{
    match find_item(items, code) {
        Some(k) => match &items[k].craft {
            Some(craft) => {
                let mut i: usize = 0;
                while i < craft.items.len()
                    invariant
                        i <= craft.items@.len(),
                        recipe_of(items@, code@) == Some(*craft),
                        forall|j: int|
                            0 <= j < i ==> bank_qty(bank@, (#[trigger] craft.items@[j]).code@)
                                >= craft.items@[j].quantity,
                    decreases craft.items@.len() - i,
                {
                    if quantity_in(bank, &craft.items[i].code) < craft.items[i].quantity {
                        return false;
                    }
                    i += 1;
                }
                true
            },
            None => false,
        },
        None => false,
    }
}

impl GameState {
    /// The tables are well formed.
    pub closed spec fn wf(&self) -> bool {
        &&& self.flags.wf()
        &&& self.item_ratings.wf()
        &&& self.equipped.wf()
        &&& tables_wf(self.equipped@)
        &&& self.reserved_materials.wf()
    }

    /// The reference data.
    pub fn data(&self) -> (r: &GameData)
        ensures
            *r == self@.data,
    {
        &self.data
    }

    /// The shared state at startup.
    pub fn new(data: GameData) -> (s: Self)
        ensures
            s.wf(),
            s@ == (StateView {
                pending: Map::empty(),
                bank: Seq::empty(),
                data,
                rated: Seq::empty(),
                ratings: Map::empty(),
                equipped: Map::empty(),
                reserved: Map::empty(),
                awaiting: None,
                fighter_combat_level: 1,
                crafter_min_gear_level: 1,
                wishlist_owner: None,
                wishlist_equipment: Seq::empty(),
                wishlist_alchemy: Seq::empty(),
            }),
    {
        GameState {
            flags: Table::new(),
            bank: Vec::new(),
            data,
            item_ratings: Table::new(),
            equipped: Table::new(),
            reserved_materials: Table::new(),
            awaiting_healing_consumables: None,
            fighter_combat_level: 1,
            crafter_min_gear_level: 1,
            wishlist_owner: None,
            wishlist_equipment_codes: Vec::new(),
            wishlist_alchemy_codes: Vec::new(),
        }
    }

    /// Replaces the ratings of `name`, and what it is known to wear.
    pub fn set_item_ratings(&mut self, name: &str, ratings: Vec<SlotRating>, character: &Character)
        requires
            old(self).wf(),
        ensures
            final(self).wf(),
            final(self)@ == (StateView {
                rated: if old(self)@.ratings.contains_key(name@) {
                    old(self)@.rated
                } else {
                    old(self)@.rated.push(name@)
                },
                ratings: old(self)@.ratings.insert(name@, ratings@),
                equipped: old(self)@.equipped.insert(name@, worn(slots_of(*character), 13)),
                ..old(self)@
            }),
    {
        self.item_ratings.insert(name.to_owned(), ratings);
        let gear: Table<String> = equipped_codes(character);
        self.equipped.insert(name.to_owned(), gear);
        assert(ratings_in(self.item_ratings@) =~= old(self)@.ratings.insert(name@, ratings@));
        assert(equipped_in(self.equipped@) =~= old(self)@.equipped.insert(
            name@,
            worn(slots_of(*character), 13),
        ));
    }

    /// Records that `char_name` now has `item_code` equipped in `slot`, right after it was put on,
    /// so that a spare copy left in the bank is not flagged again.
    pub fn set_equipped_slot(&mut self, char_name: &str, slot: &str, item_code: &str)
        requires
            old(self).wf(),
        ensures
            final(self).wf(),
            final(self)@ == (StateView {
                equipped: old(self)@.equipped.insert(
                    char_name@,
                    worn_by(old(self)@.equipped, char_name@).insert(slot@, item_code@),
                ),
                ..old(self)@
            }),
    {
        let mut gear: Table<String> = match self.equipped.remove(char_name) {
            Some(t) => t,
            None => Table::new(),
        };
        assert(texts(gear@) =~= worn_by(old(self)@.equipped, char_name@));
        let ghost had = gear@;
        gear.insert(slot.to_owned(), item_code.to_owned());
        assert(texts(gear@) =~= texts(had).insert(slot@, item_code@));
        self.equipped.insert(char_name.to_owned(), gear);
        assert(equipped_in(self.equipped@) =~= old(self)@.equipped.insert(
            char_name@,
            worn_by(old(self)@.equipped, char_name@).insert(slot@, item_code@),
        ));
    }

    /// The latest ratings of every character.
    pub fn all_item_ratings(&self) -> (r: &Table<Vec<SlotRating>>)
        requires
            self.wf(),
        ensures
            r.wf(),
            r.keys() == self@.rated,
            ratings_in(r@) == self@.ratings,
    {
        &self.item_ratings
    }

    /// What `char_name` is known to wear, by slot.
    pub fn equipped_snapshot(&self, char_name: &str) -> (r: Table<String>)
        requires
            self.wf(),
        ensures
            r.wf(),
            texts(r@) == worn_by(self@.equipped, char_name@),
    {
        match self.equipped.get(char_name) {
            Some(t) => {
                let copy = t.duplicate();
                assert(texts(copy@) =~= texts(t@));
                copy
            },
            None => {
                let empty: Table<String> = Table::new();
                assert(texts(empty@) =~= Map::empty());
                empty
            },
        }
    }

    /// Replaces the reserved materials.
    pub fn set_reserved_materials(&mut self, reserved: Table<i32>)
        requires
            old(self).wf(),
            reserved.wf(),
        ensures
            final(self).wf(),
            final(self)@ == (StateView { reserved: reserved@, ..old(self)@ }),
    {
        self.reserved_materials = reserved;
    }

    /// The materials held back for recipes that cannot be crafted yet.
    pub fn reserved_materials_snapshot(&self) -> (r: Table<i32>)
        requires
            self.wf(),
        ensures
            r.wf(),
            r@ == self@.reserved,
    {
        self.reserved_materials.copied()
    }

    /// Registers `name` as waiting to be told that the bank has a healing consumable again.
    pub fn await_healing_consumables(&mut self, name: &str)
        requires
            old(self).wf(),
        ensures
            final(self).wf(),
            final(self)@ == (StateView { awaiting: Some(name@), ..old(self)@ }),
    {
        self.awaiting_healing_consumables = Some(name.to_owned());
    }

    /// Sets the fighting character's combat level.
    pub fn set_fighter_combat_level(&mut self, level: i32)
        requires
            old(self).wf(),
        ensures
            final(self).wf(),
            final(self)@ == (StateView { fighter_combat_level: level, ..old(self)@ }),
    {
        self.fighter_combat_level = level;
    }

    /// The fighting character's combat level; 1 until it is set.
    pub fn fighter_combat_level(&self) -> (r: i32)
        ensures
            r == self@.fighter_combat_level,
    {
        self.fighter_combat_level
    }

    /// Sets the crafting character's lowest gear-crafting level.
    pub fn set_crafter_min_gear_level(&mut self, level: i32)
        requires
            old(self).wf(),
        ensures
            final(self).wf(),
            final(self)@ == (StateView { crafter_min_gear_level: level, ..old(self)@ }),
    {
        self.crafter_min_gear_level = level;
    }

    /// The crafting character's lowest gear-crafting level; 1 until it is set.
    pub fn crafter_min_gear_level(&self) -> (r: i32)
        ensures
            r == self@.crafter_min_gear_level,
    {
        self.crafter_min_gear_level
    }

    /// Replaces the wishlist and its owner.
    pub fn set_wishlist(
        &mut self,
        owner: &str,
        equipment_codes: Vec<String>,
        alchemy_codes: Vec<String>,
    )
        requires
            old(self).wf(),
        ensures
            final(self).wf(),
            final(self)@ == (StateView {
                wishlist_owner: Some(owner@),
                wishlist_equipment: equipment_codes@,
                wishlist_alchemy: alchemy_codes@,
                ..old(self)@
            }),
    {
        self.wishlist_owner = Some(owner.to_owned());
        self.wishlist_equipment_codes = equipment_codes;
        self.wishlist_alchemy_codes = alchemy_codes;
    }

    /// The wishlisted weaponcrafting, gearcrafting and jewelrycrafting items.
    pub fn wishlist_equipment_codes(&self) -> (r: Vec<String>)
        ensures
            r@ == self@.wishlist_equipment,
    {
        copy_codes(&self.wishlist_equipment_codes)
    }

    /// The wishlisted alchemy items.
    pub fn wishlist_alchemy_codes(&self) -> (r: Vec<String>)
        ensures
            r@ == self@.wishlist_alchemy,
    {
        copy_codes(&self.wishlist_alchemy_codes)
    }

    /// Queues `flag` for `target`. A request that is already waiting there is not queued twice,
    /// save for fetch requests, which add up.
    pub fn set_flag(&mut self, target: &str, flag: Flag)
        requires
            old(self).wf(),
        ensures
            final(self).wf(),
            final(self)@ == (StateView {
                pending: flagged(old(self)@.pending, target@, flag@),
                ..old(self)@
            }),
    {
        queue_flag(&mut self.flags, target, flag);
    }

    /// Takes every waiting flag of `character`, oldest first.
    pub fn drain_flags(&mut self, character: &str) -> (r: Vec<Flag>)
        requires
            old(self).wf(),
        ensures
            final(self).wf(),
            flag_views(r@) == pending_of(old(self)@.pending, character@),
            final(self)@ == (StateView {
                pending: old(self)@.pending.remove(character@),
                ..old(self)@
            }),
    {
        let taken = self.flags.remove(character);
        assert(pending_in(self.flags@) =~= old(self)@.pending.remove(character@));
        match taken {
            Some(queue) => queue,
            None => {
                let empty: Vec<Flag> = Vec::new();
                assert(flag_views(empty@) =~= Seq::empty());
                empty
            },
        }
    }

    /// Replaces the cached bank contents, then flags every character for which they hold an
    /// upgrade, the character that waits for food if there is food, and the wishlist's owner if
    /// there are materials for an item on it. It makes no difference who changed the bank.
    pub fn update_bank(&mut self, items: Vec<BankItem>)
        requires
            old(self).wf(),
        ensures
            final(self).wf(),
            final(self)@ == after_bank_refresh(old(self)@, items@),
    {
        self.bank = items;
        self.flag_bank_upgrades();
        self.flag_healing_consumables_restocked();
        self.flag_craftable_wishlist_gear();
    }

    fn flag_craftable_wishlist_gear(&mut self)
        requires
            old(self).wf(),
        ensures
            final(self).wf(),
            final(self)@ == after_wishlist(old(self)@),
    {
        let owner: String = match &self.wishlist_owner {
            Some(name) => name.clone(),
            None => {
                return ;
            },
        };
        let mut i: usize = 0;
        while i < self.wishlist_equipment_codes.len()
            invariant
                i <= self.wishlist_equipment_codes@.len(),
                *self == *old(self),
                self.wf(),
                self.wishlist_owner matches Some(name) && name@ == owner@,
                forall|j: int|
                    0 <= j < i ==> !bank_can_craft(
                        self.data.items@,
                        self.bank@,
                        (#[trigger] self.wishlist_equipment_codes@[j])@,
                    ),
            decreases self.wishlist_equipment_codes@.len() - i,
        {
            if can_craft_from_bank(
                &self.data.items,
                &self.bank,
                &self.wishlist_equipment_codes[i],
            ) {
                assert(any_craftable(
                    self.data.items@,
                    self.bank@,
                    self.wishlist_equipment_codes@,
                ));
                let flag = Flag {
                    from_character: "bank".to_owned(),
                    action: FlagAction::CraftWishlistGearAvailable,
                };
                self.set_flag(&owner, flag);
                return ;
            }
            i += 1;
        }
    }

    fn flag_healing_consumables_restocked(&mut self)
        requires
            old(self).wf(),
        ensures
            final(self).wf(),
            final(self)@ == after_restock(old(self)@),
    {
        let name: String = match &self.awaiting_healing_consumables {
            Some(name) => name.clone(),
            None => {
                return ;
            },
        };
        if has_food(&self.data.items, &self.bank) {
            self.awaiting_healing_consumables = None;
            let flag = Flag {
                from_character: "bank".to_owned(),
                action: FlagAction::HealingConsumablesAvailable,
            };
            self.set_flag(&name, flag);
        }
    }

    fn flag_bank_upgrades(&mut self)
        requires
            old(self).wf(),
        ensures
            final(self).wf(),
            final(self)@ == after_upgrades(old(self)@),
    {
        flag_all_upgrades(&mut self.flags, &self.item_ratings, &self.bank, &self.equipped);
    }

    /// Holds the ratings of `char_name` against the bank as it is now and flags every upgrade that
    /// lies there. Meant to run right after the ratings have been set at startup, when the bank
    /// has been loaded before anyone had ratings.
    pub fn flag_bank_upgrades_for(&mut self, char_name: &str)
        requires
            old(self).wf(),
        ensures
            final(self).wf(),
            final(self)@ == if old(self)@.ratings.contains_key(char_name@) {
                StateView {
                    pending: flag_slots(
                        old(self)@.pending,
                        char_name@,
                        old(self)@.ratings[char_name@],
                        old(self)@.ratings[char_name@].len() as int,
                        old(self)@.bank,
                        worn_by(old(self)@.equipped, char_name@),
                    ),
                    ..old(self)@
                }
            } else {
                old(self)@
            },
    {
        if let Some(ratings) = self.item_ratings.get(char_name) {
            let gear = self.equipped.get(char_name);
            assert(worn_by(old(self)@.equipped, char_name@) == (match gear {
                Some(t) => texts(t@),
                None => Map::empty(),
            }));
            flag_slot_upgrades(&mut self.flags, char_name, ratings, &self.bank, gear);
        }
    }

    /// How many of `code` the bank holds.
    pub fn bank_quantity(&self, code: &str) -> (r: i32)
        ensures
            r == bank_qty(self@.bank, code@),
    {
        quantity_in(&self.bank, code)
    }

    /// The bank's contents.
    pub fn bank_snapshot(&self) -> (r: Vec<BankItem>)
        ensures
            r@ == self@.bank,
    {
        copy_bank(&self.bank)
    }
}

} // verus!
