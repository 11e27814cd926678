use vstd::prelude::*;

use crate::ability::Ability;

verus! {

/// The faction a combatant fights for.
#[derive(Debug, Clone, Copy, PartialEq, Eq, Structural)]
pub enum Group {
    Player,
    Enemy,
}

/// A combatant's display name.
#[derive(Debug)]
pub struct CharacterName(pub String);

impl Clone for CharacterName {
    fn clone(&self) -> (r: CharacterName)
        ensures
            r == *self,
    {
        CharacterName(self.0.clone())
    }
}

/// Flavor only; no mechanical effect.
#[derive(Debug, Clone, Copy, PartialEq, Eq, Structural)]
pub enum CharacterCategory {
    Human,
    Fungus,
}

/// The kinds of attribute a combatant can carry.
#[derive(Debug, Clone, Copy, PartialEq, Eq, Structural)]
pub enum AttributeType {
    HitPoints,
    Attack,
    Defense,
}

/// Whether an attribute type is stored as a plain scalar or a clamped gauge.
#[derive(Debug, Clone, Copy, PartialEq, Eq, Structural)]
pub enum AttributeValueType {
    Value,
    Gauge,
}

impl AttributeType {
    /// Which storage shape each attribute type uses.
    pub open spec fn spec_value_type(self) -> AttributeValueType {
        match self {
            AttributeType::HitPoints => AttributeValueType::Gauge,
            AttributeType::Attack => AttributeValueType::Value,
            AttributeType::Defense => AttributeValueType::Value,
        }
    }

    /// Which storage shape each attribute type uses.
    pub fn get_corresponding_value_type(&self) -> (r: AttributeValueType)
        ensures
            r == self.spec_value_type(),
    {
        match self {
            AttributeType::HitPoints => AttributeValueType::Gauge,
            AttributeType::Attack => AttributeValueType::Value,
            AttributeType::Defense => AttributeValueType::Value,
        }
    }
}

/// An attribute: an unbounded scalar, or a gauge clamped to `[min, max]`.
#[derive(Debug, Clone, Copy, PartialEq, Eq, Structural)]
pub enum Attribute {
    Value(i32),
    Gauge { value: i32, min: i32, max: i32 },
}

/// A gauge never leaves its bounds; scalars carry no constraint.
pub open spec fn attribute_wf(a: Attribute) -> bool {
    match a {
        Attribute::Value(_) => true,
        Attribute::Gauge { value, min, max } => min <= value <= max,
    }
}

impl Attribute {
    /// The current numeric reading of the attribute.
    pub open spec fn spec_value(self) -> int {
        match self {
            Attribute::Value(v) => v as int,
            Attribute::Gauge { value, .. } => value as int,
        }
    }

    /// The current numeric reading of the attribute.
    pub fn get_value(&self) -> (r: i32)
        ensures
            r == self.spec_value(),
    {
        match self {
            Attribute::Value(v) => *v,
            Attribute::Gauge { value, .. } => *value,
        }
    }

    /// A plain scalar attribute.
    pub fn value(value: i32) -> (r: Attribute)
        ensures
            r == Attribute::Value(value),
    {
        Attribute::Value(value)
    }

    /// A full gauge with floor zero.
    pub fn gauge(max: i32) -> (r: Attribute)
        requires
            max >= 0,
        ensures
            r == (Attribute::Gauge { value: max, min: 0, max }),
            attribute_wf(r),
    {
        Attribute::Gauge { value: max, min: 0, max }
    }
}

/// A combatant's attribute set, keyed by attribute type.
#[derive(Debug)]
pub struct Attributes(pub Vec<(AttributeType, Attribute)>);

/// The first attribute of the given type, if any.
pub open spec fn find_attr(s: Seq<(AttributeType, Attribute)>, t: AttributeType) -> Option<
    Attribute,
>
    decreases s.len(),
{
    if s.len() == 0 {
        Option::None
    } else if s[0].0 == t {
        Option::Some(s[0].1)
    } else {
        find_attr(s.drop_first(), t)
    }
}

/// The index of the first attribute of the given type, if any.
pub open spec fn find_attr_index(s: Seq<(AttributeType, Attribute)>, t: AttributeType) -> Option<
    int,
>
    decreases s.len(),
{
    if s.len() == 0 {
        Option::None
    } else if s[0].0 == t {
        Option::Some(0int)
    } else {
        match find_attr_index(s.drop_first(), t) {
            Option::None => Option::None,
            Option::Some(i) => Option::Some(i + 1),
        }
    }
}

/// Relates the two lookups: the found attribute sits at the found index.
pub proof fn lemma_find_attr_index(s: Seq<(AttributeType, Attribute)>, t: AttributeType)
    ensures
        match find_attr_index(s, t) {
            Option::None => find_attr(s, t) is None && forall|i: int|
                0 <= i < s.len() ==> s[i].0 != t,
            Option::Some(i) => 0 <= i < s.len() && s[i].0 == t && find_attr(s, t)
                == Option::Some(s[i].1) && forall|j: int| 0 <= j < i ==> s[j].0 != t,
        },
    decreases s.len(),
{
    if s.len() > 0 && s[0].0 != t {
        lemma_find_attr_index(s.drop_first(), t);
        match find_attr_index(s.drop_first(), t) {
            Option::None => {
                assert forall|i: int| 0 <= i < s.len() implies s[i].0 != t by {
                    if i > 0 {
                        assert(s[i] == s.drop_first()[i - 1]);
                    }
                }
            },
            Option::Some(ip) => {
                assert(s[ip + 1] == s.drop_first()[ip]);
                assert forall|j: int| 0 <= j < ip + 1 implies s[j].0 != t by {
                    if j > 0 {
                        assert(s[j] == s.drop_first()[j - 1]);
                    }
                }
            },
        }
    }
}

impl Attributes {
    /// Every type appears at most once, and every attribute is well-formed.
    pub open spec fn wf(self) -> bool {
        &&& forall|i: int, j: int|
            0 <= i < j < self.0@.len() ==> self.0@[i].0 != self.0@[j].0
        &&& forall|i: int| 0 <= i < self.0@.len() ==> attribute_wf(#[trigger] self.0@[i].1)
    }

    /// The attribute stored for the given type, if any.
    pub open spec fn spec_get(self, t: AttributeType) -> Option<Attribute> {
        find_attr(self.0@, t)
    }

    /// Looks the attribute of the given type up.
    pub fn get(&self, t: AttributeType) -> (r: Option<Attribute>)
        ensures
            r == self.spec_get(t),
    {
        let n: usize = self.0.len();
        let mut i: usize = 0;
        proof {
            assert(self.0@.skip(0) =~= self.0@);
        }
        while i < n
            invariant
                n == self.0@.len(),
                0 <= i <= n,
                find_attr(self.0@.skip(i as int), t) == find_attr(self.0@, t),
                forall|j: int| 0 <= j < i ==> self.0@[j].0 != t,
            decreases n - i,
        {
            let entry = self.0[i];
            proof {
                assert(self.0@.skip(i as int)[0] == self.0@[i as int]);
                assert(self.0@.skip(i as int).drop_first() =~= self.0@.skip(i + 1));
            }
            if entry.0 == t {
                return Option::Some(entry.1);
            }
            i = i + 1;
        }
        proof {
            assert(self.0@.skip(n as int) =~= Seq::empty());
        }
        Option::None
    }

    /// Replaces the attribute stored for the given type; no effect when the
    /// type is absent.
    #[verifier::loop_isolation(false)]
    pub fn set(&mut self, t: AttributeType, a: Attribute)
        requires
            old(self).wf(),
            attribute_wf(a),
        ensures
            final(self).wf(),
            final(self).spec_get(t) == (match old(self).spec_get(t) {
                Option::None => Option::None::<Attribute>,
                Option::Some(_) => Option::Some(a),
            }),
            forall|u: AttributeType| u != t ==> final(self).spec_get(u) == old(self).spec_get(u),
            final(self).0@.len() == old(self).0@.len(),
    {
        let ghost orig = self.0@;
        let n: usize = self.0.len();
        let mut i: usize = 0;
        while i < n
            invariant
                n == self.0@.len(),
                0 <= i <= n,
                self.0@ == orig,
                forall|j: int| 0 <= j < i ==> orig[j].0 != t,
            decreases n - i,
        {
            let entry = self.0[i];
            if entry.0 == t {
                self.0.set(i, (t, a));
                proof {
                    assert(self.0@ =~= orig.update(i as int, (t, a)));
                    lemma_find_attr_first_hit(orig, t, i as int);
                    lemma_find_attr_index(orig, t);
                    lemma_find_attr_update(orig, self.0@, t, i as int, a);
                    assert forall|i2: int, j2: int|
                        0 <= i2 < j2 < self.0@.len() implies self.0@[i2].0 != self.0@[j2].0 by {
                        assert(self.0@[i2].0 == orig[i2].0);
                        assert(self.0@[j2].0 == orig[j2].0);
                    }
                    assert forall|k: int| 0 <= k < self.0@.len() implies attribute_wf(
                        #[trigger] self.0@[k].1,
                    ) by {
                        if k != i {
                            assert(self.0@[k] == orig[k]);
                        }
                    }
                }
                return ;
            }
            i = i + 1;
        }
        proof {
            lemma_find_attr_index(orig, t);
        }
    }
}

/// When index `i` holds the first occurrence of `t`, the index lookup finds
/// it.
proof fn lemma_find_attr_first_hit(s: Seq<(AttributeType, Attribute)>, t: AttributeType, i: int)
    requires
        0 <= i < s.len(),
        s[i].0 == t,
        forall|j: int| 0 <= j < i ==> s[j].0 != t,
    ensures
        find_attr_index(s, t) == Option::Some(i),
    decreases s.len(),
{
    if i > 0 {
        assert forall|j: int| 0 <= j < i - 1 implies s.drop_first()[j].0 != t by {
            assert(s.drop_first()[j] == s[j + 1]);
        }
        lemma_find_attr_first_hit(s.drop_first(), t, i - 1);
    }
}

/// Updating the entry at the first occurrence of `t` changes only that
/// lookup.
proof fn lemma_find_attr_update(
    s1: Seq<(AttributeType, Attribute)>,
    s2: Seq<(AttributeType, Attribute)>,
    t: AttributeType,
    i: int,
    a: Attribute,
)
    requires
        0 <= i < s1.len(),
        s2 == s1.update(i, (t, a)),
        s1[i].0 == t,
        forall|j: int| 0 <= j < i ==> s1[j].0 != t,
    ensures
        find_attr(s2, t) == Option::Some(a),
        forall|u: AttributeType| u != t ==> find_attr(s2, u) == find_attr(s1, u),
    decreases s1.len(),
{
    if i == 0 {
        assert(s2[0] == (t, a));
        assert forall|u: AttributeType| u != t implies find_attr(s2, u) == find_attr(s1, u) by {
            assert(s2.drop_first() =~= s1.drop_first());
        }
    } else {
        assert(s2[0] == s1[0]);
        assert(s2.drop_first() =~= s1.drop_first().update(i - 1, (t, a)));
        assert forall|j: int| 0 <= j < i - 1 implies s1.drop_first()[j].0 != t by {
            assert(s1.drop_first()[j] == s1[j + 1]);
        }
        lemma_find_attr_update(s1.drop_first(), s2.drop_first(), t, i - 1, a);
        assert forall|u: AttributeType| u != t implies find_attr(s2, u) == find_attr(s1, u) by {
            if s1[0].0 == u {
                assert(find_attr(s1, u) == Option::Some(s1[0].1));
                assert(find_attr(s2, u) == Option::Some(s2[0].1));
            } else {
                assert(find_attr(s1, u) == find_attr(s1.drop_first(), u));
                assert(find_attr(s2, u) == find_attr(s2.drop_first(), u));
            }
        }
    }
}

impl Clone for Attributes {
    fn clone(&self) -> (r: Attributes)
        ensures
            r.0@ == self.0@,
    {
        let n: usize = self.0.len();
        let mut out: Vec<(AttributeType, Attribute)> = Vec::new();
        let mut i: usize = 0;
        while i < n
            invariant
                n == self.0@.len(),
                0 <= i <= n,
                out@ == self.0@.take(i as int),
            decreases n - i,
        {
            out.push(self.0[i]);
            proof {
                assert(out@ =~= self.0@.take(i + 1));
            }
            i = i + 1;
        }
        proof {
            assert(out@ =~= self.0@);
        }
        Attributes(out)
    }
}

impl Default for Attributes {
    /// The standard starting attribute set.
    fn default() -> (r: Attributes)
        ensures
            r.0@ =~= seq![
                (AttributeType::HitPoints, Attribute::Gauge { value: 150, min: 0, max: 150 }),
                (AttributeType::Attack, Attribute::Value(10)),
                (AttributeType::Defense, Attribute::Value(10)),
            ],
            r.wf(),
    {
        let mut v: Vec<(AttributeType, Attribute)> = Vec::new();
        v.push((AttributeType::HitPoints, Attribute::gauge(150)));
        v.push((AttributeType::Attack, Attribute::value(10)));
        v.push((AttributeType::Defense, Attribute::value(10)));
        Attributes(v)
    }
}

/// A combatant's ability inventory; names are unique.
#[derive(Debug)]
pub struct Abilities(pub Vec<Ability>);

/// The index of the first ability with the given name, if any.
pub open spec fn find_ability_index(s: Seq<Ability>, name: Seq<char>) -> Option<int>
    decreases s.len(),
{
    if s.len() == 0 {
        Option::None
    } else if s[0].name@ == name {
        Option::Some(0int)
    } else {
        match find_ability_index(s.drop_first(), name) {
            Option::None => Option::None,
            Option::Some(i) => Option::Some(i + 1),
        }
    }
}

/// What the index lookup finds is the first ability of that name.
pub proof fn lemma_find_ability_index(s: Seq<Ability>, name: Seq<char>)
    ensures
        match find_ability_index(s, name) {
            Option::None => forall|i: int| 0 <= i < s.len() ==> s[i].name@ != name,
            Option::Some(i) => 0 <= i < s.len() && s[i].name@ == name && forall|j: int|
                0 <= j < i ==> s[j].name@ != name,
        },
    decreases s.len(),
{
    if s.len() > 0 && s[0].name@ != name {
        lemma_find_ability_index(s.drop_first(), name);
        match find_ability_index(s.drop_first(), name) {
            Option::None => {
                assert forall|i: int| 0 <= i < s.len() implies s[i].name@ != name by {
                    if i > 0 {
                        assert(s[i] == s.drop_first()[i - 1]);
                    }
                }
            },
            Option::Some(ip) => {
                assert(s[ip + 1] == s.drop_first()[ip]);
                assert forall|j: int| 0 <= j < ip + 1 implies s[j].name@ != name by {
                    if j > 0 {
                        assert(s[j] == s.drop_first()[j - 1]);
                    }
                }
            },
        }
    }
}

/// When index `i` holds the first ability named `name`, the index lookup
/// finds it.
proof fn lemma_find_ability_first_hit(s: Seq<Ability>, name: Seq<char>, i: int)
    requires
        0 <= i < s.len(),
        s[i].name@ == name,
        forall|j: int| 0 <= j < i ==> s[j].name@ != name,
    ensures
        find_ability_index(s, name) == Option::Some(i),
    decreases s.len(),
{
    if i > 0 {
        assert forall|j: int| 0 <= j < i - 1 implies s.drop_first()[j].name@ != name by {
            assert(s.drop_first()[j] == s[j + 1]);
        }
        lemma_find_ability_first_hit(s.drop_first(), name, i - 1);
    }
}

impl Abilities {
    /// Ability names are unique within the inventory.
    pub open spec fn wf(self) -> bool {
        forall|i: int, j: int|
            0 <= i < j < self.0@.len() ==> self.0@[i].name@ != self.0@[j].name@
    }

    /// The ability of the given name, if any.
    pub open spec fn spec_find(self, name: Seq<char>) -> Option<int> {
        find_ability_index(self.0@, name)
    }

    /// Looks the ability of the given name up.
    #[verifier::loop_isolation(false)]
    pub fn get(&self, name: &String) -> (r: Option<&Ability>)
        ensures
            match self.spec_find(name@) {
                Option::None => r is None,
                Option::Some(i) => r == Option::Some(&self.0@[i]),
            },
    {
        let n: usize = self.0.len();
        let mut i: usize = 0;
        while i < n
            invariant
                n == self.0@.len(),
                0 <= i <= n,
                forall|j: int| 0 <= j < i ==> self.0@[j].name@ != name@,
            decreases n - i,
        {
            if self.0[i].name == *name {
                proof {
                    lemma_find_ability_first_hit(self.0@, name@, i as int);
                }
                return Option::Some(&self.0[i]);
            }
            i = i + 1;
        }
        proof {
            lemma_find_ability_index(self.0@, name@);
            if self.spec_find(name@) is Some {
                let k = self.spec_find(name@)->0;
                assert(self.0@[k].name@ == name@);
            }
        }
        Option::None
    }

    /// Adds an ability, replacing the existing one of the same name if
    /// there is one, and appending otherwise.
    #[verifier::loop_isolation(false)]
    pub fn insert(&mut self, a: Ability)
        requires
            old(self).wf(),
        ensures
            final(self).wf(),
            match find_ability_index(old(self).0@, a.name@) {
                Option::None => final(self).0@ == old(self).0@.push(a),
                Option::Some(k) => final(self).0@ == old(self).0@.update(k, a),
            },
    {
        let ghost orig = self.0@;
        let n: usize = self.0.len();
        let mut i: usize = 0;
        while i < n
            invariant
                n == self.0@.len(),
                0 <= i <= n,
                self.0@ == orig,
                forall|j: int| 0 <= j < i ==> orig[j].name@ != a.name@,
            decreases n - i,
        {
            if self.0[i].name == a.name {
                proof {
                    lemma_find_ability_first_hit(orig, a.name@, i as int);
                }
                self.0.set(i, a);
                proof {
                    assert(self.0@ =~= orig.update(i as int, a));
                    assert forall|i2: int, j2: int|
                        0 <= i2 < j2 < self.0@.len() implies self.0@[i2].name@
                        != self.0@[j2].name@ by {
                        assert(self.0@[i2].name@ == orig[i2].name@);
                        assert(self.0@[j2].name@ == orig[j2].name@);
                    }
                }
                return ;
            }
            i = i + 1;
        }
        proof {
            lemma_find_ability_index(orig, a.name@);
        }
        self.0.push(a);
        proof {
            assert(self.0@ =~= orig.push(a));
            assert forall|i2: int, j2: int|
                0 <= i2 < j2 < self.0@.len() implies self.0@[i2].name@ != self.0@[j2].name@ by {
                assert(self.0@[i2] == orig[i2]);
                if j2 < self.0@.len() - 1 {
                    assert(self.0@[j2] == orig[j2]);
                } else {
                    assert(self.0@[j2] == a);
                }
            }
        }
    }

    /// Builds an inventory from a list of abilities. When the incoming names
    /// are unique the inventory holds exactly that list; a repeated name
    /// keeps only the later entry.
    pub fn from_arr(abilities: &Vec<Ability>) -> (r: Abilities)
        ensures
            r.wf(),
            (forall|i: int, j: int|
                0 <= i < j < abilities@.len() ==> abilities@[i].name@ != abilities@[j].name@)
                ==> r.0@ == abilities@,
    {
        let n: usize = abilities.len();
        let mut r = Abilities(Vec::new());
        let ghost unique = forall|i: int, j: int|
            0 <= i < j < abilities@.len() ==> abilities@[i].name@ != abilities@[j].name@;
        let mut i: usize = 0;
        while i < n
            invariant
                n == abilities@.len(),
                0 <= i <= n,
                r.wf(),
                unique == (forall|i2: int, j2: int|
                    0 <= i2 < j2 < abilities@.len() ==> abilities@[i2].name@
                        != abilities@[j2].name@),
                unique ==> r.0@ =~= abilities@.take(i as int),
            decreases n - i,
        {
            let ghost prev = r.0@;
            r.insert(abilities[i].clone());
            proof {
                if unique {
                    lemma_find_ability_index(prev, abilities@[i as int].name@);
                    if find_ability_index(prev, abilities@[i as int].name@) is Some {
                        let k = find_ability_index(prev, abilities@[i as int].name@)->0;
                        assert(prev[k] == abilities@[k]);
                        assert(false);
                    }
                    assert(r.0@ == prev.push(abilities@[i as int]));
                    assert(r.0@ =~= abilities@.take(i + 1));
                }
            }
            i = i + 1;
        }
        proof {
            if unique {
                assert(abilities@.take(n as int) =~= abilities@);
            }
        }
        r
    }
}

impl Clone for Abilities {
    fn clone(&self) -> (r: Abilities)
        ensures
            r.0@ == self.0@,
    {
        let n: usize = self.0.len();
        let mut out: Vec<Ability> = Vec::new();
        let mut i: usize = 0;
        while i < n
            invariant
                n == self.0@.len(),
                0 <= i <= n,
                out@ == self.0@.take(i as int),
            decreases n - i,
        {
            out.push(self.0[i].clone());
            proof {
                assert(out@ =~= self.0@.take(i + 1));
            }
            i = i + 1;
        }
        proof {
            assert(out@ =~= self.0@);
        }
        Abilities(out)
    }
}

/// Everything that defines a combatant mechanically.
#[derive(Debug)]
pub struct CharacterBundle {
    pub name: CharacterName,
    pub category: CharacterCategory,
    pub abilities: Abilities,
    pub attributes: Attributes,
    pub group: Group,
}

/// Two bundles that agree on every observable field. Vector-backed fields
/// compare by contents.
pub open spec fn bundle_equiv(a: CharacterBundle, b: CharacterBundle) -> bool {
    &&& a.name == b.name
    &&& a.category == b.category
    &&& a.abilities.0@ == b.abilities.0@
    &&& a.attributes.0@ == b.attributes.0@
    &&& a.group == b.group
}

impl Clone for CharacterBundle {
    fn clone(&self) -> (r: CharacterBundle)
        ensures
            bundle_equiv(r, *self),
    {
        CharacterBundle {
            name: self.name.clone(),
            category: self.category,
            abilities: self.abilities.clone(),
            attributes: self.attributes.clone(),
            group: self.group,
        }
    }
}

impl CharacterBundle {
    /// The bundle's invariant: unique ability names, well-formed attributes.
    pub open spec fn wf(self) -> bool {
        self.abilities.wf() && self.attributes.wf()
    }

    /// Builds a combatant from its name, abilities and raw attribute values.
    /// Gauge-typed attributes start full with floor zero.
    pub fn new(
        name: &str,
        category: CharacterCategory,
        abilities: &Vec<Ability>,
        attributes: &Vec<(AttributeType, i32)>,
        group: Group,
    ) -> (r: CharacterBundle)
        requires
            forall|i: int|
                0 <= i < attributes@.len() ==> (#[trigger] attributes@[i].0).spec_value_type()
                    is Gauge ==> attributes@[i].1 >= 0,
            forall|i: int, j: int|
                0 <= i < j < attributes@.len() ==> attributes@[i].0 != attributes@[j].0,
        ensures
            r.name.0@ == name@,
            r.category == category,
            r.group == group,
            r.wf(),
            (forall|i: int, j: int|
                0 <= i < j < abilities@.len() ==> abilities@[i].name@ != abilities@[j].name@)
                ==> r.abilities.0@ == abilities@,
            r.attributes.0@.len() == attributes@.len(),
            forall|i: int|
                0 <= i < attributes@.len() ==> (#[trigger] r.attributes.0@[i]) == (
                attributes@[i].0,
                match attributes@[i].0.spec_value_type() {
                    AttributeValueType::Value => Attribute::Value(attributes@[i].1),
                    AttributeValueType::Gauge => Attribute::Gauge {
                        value: attributes@[i].1,
                        min: 0,
                        max: attributes@[i].1,
                    },
                },
            ),
    {
        let n: usize = attributes.len();
        let mut attrs: Vec<(AttributeType, Attribute)> = Vec::new();
        let mut i: usize = 0;
        while i < n
            invariant
                n == attributes@.len(),
                0 <= i <= n,
                forall|k: int|
                    0 <= k < attributes@.len() ==> (#[trigger] attributes@[k].0).spec_value_type()
                        is Gauge ==> attributes@[k].1 >= 0,
                attrs@.len() == i,
                forall|k: int|
                    0 <= k < i ==> (#[trigger] attrs@[k]) == (
                    attributes@[k].0,
                    match attributes@[k].0.spec_value_type() {
                        AttributeValueType::Value => Attribute::Value(attributes@[k].1),
                        AttributeValueType::Gauge => Attribute::Gauge {
                            value: attributes@[k].1,
                            min: 0,
                            max: attributes@[k].1,
                        },
                    },
                ),
            decreases n - i,
        {
            let (typ, raw) = attributes[i];
            let attr = match typ.get_corresponding_value_type() {
                AttributeValueType::Value => Attribute::value(raw),
                AttributeValueType::Gauge => Attribute::gauge(raw),
            };
            attrs.push((typ, attr));
            i = i + 1;
        }
        let bundle = CharacterBundle {
            name: CharacterName(name.to_owned()),
            category,
            abilities: Abilities::from_arr(abilities),
            attributes: Attributes(attrs),
            group,
        };
        proof {
            assert forall|i2: int, j2: int|
                0 <= i2 < j2 < bundle.attributes.0@.len() implies bundle.attributes.0@[i2].0
                != bundle.attributes.0@[j2].0 by {
                assert(bundle.attributes.0@[i2].0 == attributes@[i2].0);
                assert(bundle.attributes.0@[j2].0 == attributes@[j2].0);
            }
            assert forall|i2: int|
                0 <= i2 < bundle.attributes.0@.len() implies attribute_wf(
                #[trigger] bundle.attributes.0@[i2].1,
            ) by {
                assert(bundle.attributes.0@[i2] == attrs@[i2]);
            }
        }
        bundle
    }
}

/// A roster entry: the combatant plus its display image path.
#[derive(Debug)]
pub struct Character {
    pub bundle: CharacterBundle,
    pub image_path: String,
}

impl Clone for Character {
    fn clone(&self) -> (r: Character)
        ensures
            bundle_equiv(r.bundle, self.bundle),
            r.image_path == self.image_path,
    {
        Character { bundle: self.bundle.clone(), image_path: self.image_path.clone() }
    }
}

impl Character {
    /// Pairs a combatant with its image path.
    pub fn new(bundle: CharacterBundle, image_path: &str) -> (r: Character)
        ensures
            r.bundle == bundle,
            r.image_path@ == image_path@,
    {
        Character { bundle, image_path: image_path.to_owned() }
    }
}

} // verus!
