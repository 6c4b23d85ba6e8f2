//! The state data model shared by the editor: province kinds, victory
//! points, province buildings, editable properties and assembled state data.
use vstd::prelude::*;
use std::collections::BTreeSet;
use std::collections::BTreeMap;

verus! {

#[derive(Debug, Clone, Copy, PartialEq, Eq, Structural)]
pub enum ProvinceKind {
    Land,
    Sea,
    Lake,
}

#[derive(Debug, Clone, Copy, PartialEq, Eq, Structural)]
pub struct VictoryPoint {
    pub province_id: u32,
    pub value: i64,
}

pub open spec fn opt_str_view(s: Option<String>) -> Option<Seq<char>> {
    match s {
        Some(v) => Some(v@),
        None => None,
    }
}

pub fn clone_opt_str(s: &Option<String>) -> (r: Option<String>)
    ensures
        opt_str_view(r) == opt_str_view(*s),
{
    match s {
        Some(v) => Some(v.clone()),
        None => None,
    }
}

pub fn same_opt_str(a: &Option<String>, b: &Option<String>) -> (r: bool)
    ensures
        r == (opt_str_view(*a) == opt_str_view(*b)),
{
    match (a, b) {
        (Some(x), Some(y)) => crate::text::same_text(x.as_str(), y.as_str()),
        (None, None) => true,
        _ => false,
    }
}

/// A named building and its level.
#[derive(Debug, Clone, PartialEq, Eq)]
pub struct BuildingLevel {
    pub name: String,
    pub level: i64,
}

/// The buildings of one province, in declaration order.
#[derive(Debug, Clone, PartialEq, Eq, Default)]
pub struct Buildings {
    pub levels: Vec<BuildingLevel>,
}

impl View for Buildings {
    type V = Seq<(Seq<char>, i64)>;

    open spec fn view(&self) -> Seq<(Seq<char>, i64)> {
        self.levels@.map_values(|b: BuildingLevel| (b.name@, b.level))
    }
}

impl Buildings {
    pub fn new() -> (r: Self)
        ensures
            r@ == Seq::<(Seq<char>, i64)>::empty(),
    {
        Buildings { levels: Vec::new() }
    }

    /// Adds or replaces the level of a building.
    pub fn set(&mut self, name: &str, level: i64)
        ensures
            exists|i: int| 0 <= i < final(self)@.len() && final(self)@[i] == (name@, level),
    {
        let mut i: usize = 0;
        while i < self.levels.len()
            invariant
                i <= self.levels@.len(),
            decreases self.levels@.len() - i,
        {
            if crate::text::same_text(self.levels[i].name.as_str(), name) {
                let ghost before = self.levels@;
                self.levels.set(i, BuildingLevel { name: String::from_str(name), level });
                proof {
                    assert(self@[i as int] == (name@, level));
                }
                return;
            }
            i = i + 1;
        }
        self.levels.push(BuildingLevel { name: String::from_str(name), level });
        proof {
            assert(self@[self@.len() - 1] == (name@, level));
        }
    }

    /// The level of a building, if the province has it.
    pub fn get(&self, name: &str) -> (r: Option<i64>)
        ensures
            r is Some ==> self@.contains((name@, r.unwrap())),
            r is None ==> forall|i: int| 0 <= i < self@.len() ==> self@[i].0 != name@,
    {
        let mut i: usize = 0;
        while i < self.levels.len()
            invariant
                i <= self.levels@.len(),
                forall|j: int| 0 <= j < i ==> self@[j].0 != name@,
            decreases self.levels@.len() - i,
        {
            if crate::text::same_text(self.levels[i].name.as_str(), name) {
                proof {
                    assert(self@[i as int] == (name@, self.levels@[i as int].level));
                }
                return Some(self.levels[i].level);
            }
            i = i + 1;
        }
        None
    }

    pub fn is_empty(&self) -> (r: bool)
        ensures
            r == (self@.len() == 0),
    {
        self.levels.len() == 0
    }

    pub fn duplicate(&self) -> (r: Self)
        ensures
            r@ == self@,
    {
        let mut levels: Vec<BuildingLevel> = Vec::new();
        let mut i: usize = 0;
        while i < self.levels.len()
            invariant
                i <= self.levels@.len(),
                levels@.len() == i,
                forall|k: int| 0 <= k < i ==> (#[trigger] levels@[k]).name@ == self.levels@[k].name@
                    && levels@[k].level == self.levels@[k].level,
            decreases self.levels@.len() - i,
        {
            levels.push(BuildingLevel { name: self.levels[i].name.clone(), level: self.levels[i].level });
            i = i + 1;
        }
        let r = Buildings { levels };
        proof {
            assert(r@ =~= self@);
        }
        r
    }

    pub fn same_as(&self, other: &Buildings) -> (r: bool)
        ensures
            r == (self@ == other@),
    {
        if self.levels.len() != other.levels.len() {
            proof {
                assert(self@.len() != other@.len());
            }
            return false;
        }
        let mut i: usize = 0;
        while i < self.levels.len()
            invariant
                i <= self.levels@.len(),
                self.levels@.len() == other.levels@.len(),
                forall|j: int| 0 <= j < i ==> self@[j] == other@[j],
            decreases self.levels@.len() - i,
        {
            if !crate::text::same_text(self.levels[i].name.as_str(), other.levels[i].name.as_str()) || self.levels[i].level != other.levels[i].level {
                proof {
                    assert(self@[i as int] != other@[i as int]);
                }
                return false;
            }
            i = i + 1;
        }
        proof {
            assert(self@ =~= other@);
        }
        true
    }
}

/// The state fields the property editor changes.  Decimal fields are kept as
/// the bit patterns of their `f64` values.
#[derive(Debug, Clone, PartialEq, Eq, Default)]
pub struct EditableStateProperties {
    pub name: Option<String>,
    pub state_category: Option<String>,
    pub manpower: Option<u64>,
    pub owner: Option<String>,
    pub buildings_max_level_factor_bits: Option<u64>,
    pub local_supplies_bits: Option<u64>,
}

/// Plain-value view of editable properties.
pub struct PropertiesView {
    pub name: Option<Seq<char>>,
    pub state_category: Option<Seq<char>>,
    pub manpower: Option<u64>,
    pub owner: Option<Seq<char>>,
    pub buildings_max_level_factor_bits: Option<u64>,
    pub local_supplies_bits: Option<u64>,
}

impl View for EditableStateProperties {
    type V = PropertiesView;

    open spec fn view(&self) -> PropertiesView {
        PropertiesView {
            name: opt_str_view(self.name),
            state_category: opt_str_view(self.state_category),
            manpower: self.manpower,
            owner: opt_str_view(self.owner),
            buildings_max_level_factor_bits: self.buildings_max_level_factor_bits,
            local_supplies_bits: self.local_supplies_bits,
        }
    }
}

impl EditableStateProperties {
    /// Properties are refused when a name or category is present but empty.
    pub open spec fn valid_spec(self) -> bool {
        &&& (self.name is Some ==> self.name.unwrap()@.len() > 0)
        &&& (self.state_category is Some ==> self.state_category.unwrap()@.len() > 0)
    }

    pub fn validate(&self) -> (r: Result<(), String>)
        ensures
            r is Ok <==> self.valid_spec(),
    {
        if let Some(name) = &self.name {
            if name.as_str().is_empty() {
                return Err(String::from_str("state name must not be empty"));
            }
        }
        if let Some(category) = &self.state_category {
            if category.as_str().is_empty() {
                return Err(String::from_str("state category must not be empty"));
            }
        }
        Ok(())
    }

    pub fn duplicate(&self) -> (r: Self)
        ensures
            r@ == self@,
    {
        EditableStateProperties {
            name: clone_opt_str(&self.name),
            state_category: clone_opt_str(&self.state_category),
            manpower: self.manpower,
            owner: clone_opt_str(&self.owner),
            buildings_max_level_factor_bits: self.buildings_max_level_factor_bits,
            local_supplies_bits: self.local_supplies_bits,
        }
    }

    /// A copy, field for field.
    pub fn duplicate_for_check(&self) -> (r: Self)
        ensures
            r == *self,
    {
        EditableStateProperties {
            name: self.name.clone(),
            state_category: self.state_category.clone(),
            manpower: self.manpower,
            owner: self.owner.clone(),
            buildings_max_level_factor_bits: self.buildings_max_level_factor_bits,
            local_supplies_bits: self.local_supplies_bits,
        }
    }

    pub fn same_as(&self, other: &Self) -> (r: bool)
        ensures
            r == (self@ == other@),
    {
        same_opt_str(&self.name, &other.name) && same_opt_str(&self.state_category, &other.state_category)
            && self.manpower == other.manpower && same_opt_str(&self.owner, &other.owner)
            && self.buildings_max_level_factor_bits == other.buildings_max_level_factor_bits
            && self.local_supplies_bits == other.local_supplies_bits
    }
}

/// The victory point and buildings of one province.
#[derive(Debug, Clone, PartialEq, Eq, Default)]
pub struct EditableProvinceData {
    pub victory_point: Option<i64>,
    pub buildings: Buildings,
}

impl EditableProvinceData {
    /// Province data is refused when a victory point or a building level is
    /// negative or a building has no name.
    pub open spec fn valid_spec(self) -> bool {
        &&& (self.victory_point is Some ==> self.victory_point.unwrap() >= 0)
        &&& forall|i: int|
            0 <= i < self.buildings@.len() ==> (#[trigger] self.buildings@[i]).1 >= 0
                && self.buildings@[i].0.len() > 0
    }

    pub fn validate(&self) -> (r: Result<(), String>)
        ensures
            r is Ok <==> self.valid_spec(),
    {
        if let Some(value) = self.victory_point {
            if value < 0 {
                return Err(String::from_str("victory point value must not be negative"));
            }
        }
        let mut i: usize = 0;
        while i < self.buildings.levels.len()
            invariant
                i <= self.buildings@.len(),
                forall|j: int|
                    0 <= j < i ==> (#[trigger] self.buildings@[j]).1 >= 0 && self.buildings@[j].0.len() > 0,
            decreases self.buildings@.len() - i,
        {
            let level = &self.buildings.levels[i];
            if level.level < 0 {
                proof {
                    assert(self.buildings@[i as int].1 < 0);
                }
                return Err(String::from_str("building level must not be negative"));
            }
            if level.name.as_str().is_empty() {
                proof {
                    assert(self.buildings@[i as int].0.len() == 0);
                }
                return Err(String::from_str("building name must not be empty"));
            }
            i = i + 1;
        }
        Ok(())
    }

    pub fn same_as(&self, other: &Self) -> (r: bool)
        ensures
            r == (self.victory_point == other.victory_point && self.buildings@ == other.buildings@),
    {
        self.victory_point == other.victory_point && self.buildings.same_as(&other.buildings)
    }
}

/// A state assembled from the edit session: its id, provinces, properties,
/// victory points and province buildings.
#[derive(Debug, Clone, Default)]
pub struct StateData {
    pub id: Option<u32>,
    pub provinces: BTreeSet<u32>,
    pub properties: EditableStateProperties,
    pub victory_points: Vec<VictoryPoint>,
    pub province_buildings: BTreeMap<u32, Buildings>,
}

} // verus!
