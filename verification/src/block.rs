//! The description of a kind of block: its properties and the states that
//! their values span.

use vstd::prelude::*;

verus! {

/// The most states that are listed for one block.
pub const MAX_STATES: u64 = 0x1000_0000;

/// What a block is made of.
#[derive(Clone, Copy, Debug, PartialEq, Eq, Structural)]
pub enum Material {
    Unknown,
    Air,
    Stone,
}

impl Material {
    /// The material that a description names.
    pub fn from_kind(kind: &str) -> (m: Material)
        ensures
            m == if kind@ == "AIR"@ {
                Material::Air
            } else if kind@ == "STONE"@ {
                Material::Stone
            } else {
                Material::Unknown
            },
    {
        let k = String::from_str(kind);
        if k == String::from_str("AIR") {
            Material::Air
        } else if k == String::from_str("STONE") {
            Material::Stone
        } else {
            Material::Unknown
        }
    }
}

impl Default for Material {
    fn default() -> (m: Material)
        ensures
            m == Material::Air,
    {
        Material::Air
    }
}

/// The values that a property can take.
#[derive(Clone, Debug, PartialEq, Eq)]
pub enum PropKind {
    /// `false` or `true`.
    Bool,
    /// One of the given names.
    Enum(Vec<String>),
    /// A number from `min` to `max`, both inclusive.
    Int { min: u32, max: u32 },
}

/// A property of a block, such as `rotation` or `waterlogged`.
#[derive(Clone, Debug, PartialEq, Eq)]
pub struct Prop {
    pub name: String,
    pub kind: PropKind,
}

/// The value of one property in a state.
#[derive(Clone, Debug, PartialEq, Eq)]
pub enum StatePropKind {
    Bool(bool),
    /// The position of the name among the property's names, and the name.
    Enum(usize, String),
    Int(i32),
}

/// One property of a state, with its value.
#[derive(Clone, Debug, PartialEq, Eq)]
pub struct StateProp {
    pub name: String,
    pub kind: StatePropKind,
}

/// One state of a block: a value for each of its properties.
#[derive(Clone, Debug, PartialEq, Eq)]
pub struct State {
    pub props: Vec<StateProp>,
}

/// A kind of block.
#[derive(Clone, Debug, PartialEq, Eq)]
pub struct Block {
    pub id: u32,
    pub name: String,
    pub unlocalized_name: String,
    pub class: String,
    pub material: Material,
    pub map_color: String,
    /// The light the block emits, 0 to 15.
    pub luminance: u8,
    pub no_collision: bool,
    pub sound_type: String,
    pub drops: Vec<String>,
    /// The properties of the block. A block without properties has one
    /// state.
    pub properties: Vec<Prop>,
}

/// The blocks of one version.
#[derive(Clone, Debug, PartialEq, Eq)]
pub struct BlockDef {
    pub blocks: Vec<Block>,
}

impl Prop {
    /// Whether the values of the property are few enough to be counted: an
    /// enum may be without names.
    pub open spec fn fits(self) -> bool {
        match self.kind {
            PropKind::Bool => true,
            PropKind::Enum(v) => v@.len() <= 0x7fff_ffff,
            PropKind::Int { min, max } => min <= max && max - min < 0x7fff_ffff,
        }
    }

    /// Whether the property has a value, and few enough for a state to
    /// number them.
    pub open spec fn wf(self) -> bool {
        self.fits() && self.spec_len() >= 1
    }

    /// How many values the property has.
    pub open spec fn spec_len(self) -> int {
        match self.kind {
            PropKind::Bool => 2,
            PropKind::Enum(v) => v@.len() as int,
            PropKind::Int { min, max } => (max - min) + 1,
        }
    }

    /// Whether `s` is the property with its value number `id`: a boolean is
    /// true unless `id` is 0; a name is the one at position `id`; a number
    /// is `id` itself.
    pub open spec fn is_state(self, id: int, s: StateProp) -> bool {
        &&& s.name@ == self.name@
        &&& match self.kind {
            PropKind::Bool => s.kind == StatePropKind::Bool(id != 0),
            PropKind::Enum(v) => s.kind matches StatePropKind::Enum(at, name) && at == id && name@
                == v@[id]@,
            PropKind::Int { min, max } => s.kind == StatePropKind::Int(id as i32),
        }
    }

    /// How many values the property has: none for an enum without names. A
    /// state numbers them from 0.
    pub fn len(&self) -> (n: u32)
        requires
            self.fits(),
        ensures
            n == self.spec_len(),
            self.wf() ==> n >= 1,
    {
        match &self.kind {
            PropKind::Bool => 2,
            PropKind::Enum(v) => v.len() as u32,
            PropKind::Int { min, max } => (*max - *min) + 1,
        }
    }

    /// The property with its value number `id`.
    pub fn state(&self, id: u32) -> (s: StateProp)
        requires
            self.wf(),
            id < self.spec_len(),
        ensures
            self.is_state(id as int, s),
    {
        StateProp {
            name: self.name.clone(),
            kind: match &self.kind {
                PropKind::Bool => StatePropKind::Bool(id != 0),
                PropKind::Enum(v) => StatePropKind::Enum(id as usize, v[id as usize].clone()),
                PropKind::Int { .. } => StatePropKind::Int(id as i32),
            },
        }
    }
}

/// How many states the properties span: the product of their numbers of
/// values.
pub open spec fn spec_state_count(props: Seq<Prop>) -> int
    decreases props.len(),
{
    if props.len() == 0 {
        1
    } else {
        spec_state_count(props.drop_last()) * props.last().spec_len()
    }
}

/// What is left of the state number `k` once the values of the first `i`
/// properties have been taken off it.
pub open spec fn spec_rest(k: int, props: Seq<Prop>, i: int) -> int
    decreases i,
{
    if i <= 0 {
        k
    } else {
        spec_rest(k, props, i - 1) / props[i - 1].spec_len()
    }
}

/// The value number of property `i` in state number `k`. The first property
/// changes fastest.
pub open spec fn spec_digit(k: int, props: Seq<Prop>, i: int) -> int {
    spec_rest(k, props, i) % props[i].spec_len()
}

/// Whether `s` is state number `k` of the properties.
pub open spec fn is_nth_state(props: Seq<Prop>, k: int, s: State) -> bool {
    &&& s.props@.len() == props.len()
    &&& forall|i: int|
        0 <= i < props.len() ==> props[i].is_state(spec_digit(k, props, i), #[trigger] s.props@[i])
}

impl Block {
    /// A block with the given id, name and properties, made of air, that
    /// emits no light.
    pub fn new(id: u32, name: String, properties: Vec<Prop>) -> (b: Block)
        ensures
            b.id == id,
            b.name == name,
            b.properties == properties,
            b.luminance == 0,
            b.material == Material::Air,
    {
        Block {
            id,
            name,
            unlocalized_name: String::new(),
            class: String::new(),
            material: Material::Air,
            map_color: String::new(),
            luminance: 0,
            no_collision: false,
            sound_type: String::new(),
            drops: Vec::new(),
            properties,
        }
    }

    /// How many states the block has, or `None` where they are more than
    /// can be listed.
    pub fn state_count(&self) -> (r: Option<u64>)
        requires
            forall|i: int| 0 <= i < self.properties@.len() ==> (#[trigger] self.properties@[i]).wf(),
        ensures
            r.is_some() == (spec_state_count(self.properties@) <= MAX_STATES),
            r matches Some(n) ==> n == spec_state_count(self.properties@) && n >= 1,
    {
        let mut total: u64 = 1;
        let mut i: usize = 0;
        assert(self.properties@.take(0) =~= Seq::empty());
        while i < self.properties.len()
            invariant
                i <= self.properties@.len(),
                forall|j: int|
                    0 <= j < self.properties@.len() ==> (#[trigger] self.properties@[j]).wf(),
                total == spec_state_count(self.properties@.take(i as int)),
                1 <= total <= MAX_STATES,
            decreases self.properties@.len() - i,
        {
            let n = self.properties[i].len() as u64;
            proof {
                let next = self.properties@.take(i + 1);
                assert(next.drop_last() =~= self.properties@.take(i as int));
                assert(next.last() == self.properties@[i as int]);
            }
            assert(total * n <= 0x1000_0000 * 0x8000_0000) by (nonlinear_arith)
                requires
                    total <= 0x1000_0000,
                    n <= 0x8000_0000,
            ;
            total = total * n;
            if total > MAX_STATES {
                proof {
                    lemma_count_grows(self.properties@, i + 1);
                }
                return None;
            }
            assert(total >= 1) by (nonlinear_arith)
                requires
                    total == spec_state_count(self.properties@.take(i as int)) * n,
                    spec_state_count(self.properties@.take(i as int)) >= 1,
                    n >= 1,
            ;
            i += 1;
        }
        assert(self.properties@.take(self.properties@.len() as int) =~= self.properties@);
        Some(total)
    }

    /// Every state of the block: one for each choice of a value for each
    /// property, numbered with the first property changing fastest. A block
    /// without properties has one state, without values.
    pub fn all_states(&self) -> (out: Vec<State>)
        requires
            forall|i: int| 0 <= i < self.properties@.len() ==> (#[trigger] self.properties@[i]).wf(),
            spec_state_count(self.properties@) <= MAX_STATES,
        ensures
            out@.len() == spec_state_count(self.properties@),
            forall|k: int| 0 <= k < out@.len() ==> is_nth_state(self.properties@, k, #[trigger] out@[k]),
    {
        let total = self.state_count().unwrap();
        let mut out: Vec<State> = Vec::new();
        let mut k: u64 = 0;
        while k < total
            invariant
                k <= total,
                total == spec_state_count(self.properties@),
                forall|i: int|
                    0 <= i < self.properties@.len() ==> (#[trigger] self.properties@[i]).wf(),
                out@.len() == k,
                forall|j: int| 0 <= j < k ==> is_nth_state(self.properties@, j, #[trigger] out@[j]),
            decreases total - k,
        {
            let mut props: Vec<StateProp> = Vec::new();
            let mut rest: u64 = k;
            let mut i: usize = 0;
            while i < self.properties.len()
                invariant
                    i <= self.properties@.len(),
                    forall|j: int|
                        0 <= j < self.properties@.len() ==> (#[trigger] self.properties@[j]).wf(),
                    rest == spec_rest(k as int, self.properties@, i as int),
                    props@.len() == i,
                    forall|j: int|
                        0 <= j < i ==> self.properties@[j].is_state(
                            spec_digit(k as int, self.properties@, j),
                            #[trigger] props@[j],
                        ),
                decreases self.properties@.len() - i,
            {
                let n = self.properties[i].len() as u64;
                let digit = rest % n;
                props.push(self.properties[i].state(digit as u32));
                rest = rest / n;
                i += 1;
            }
            out.push(State { props });
            k += 1;
        }
        out
    }
}

/// The product over a prefix is at most the product over the whole.
pub proof fn lemma_count_grows(props: Seq<Prop>, i: int)
    requires
        0 <= i <= props.len(),
        forall|j: int| 0 <= j < props.len() ==> (#[trigger] props[j]).wf(),
    ensures
        1 <= spec_state_count(props.take(i)) <= spec_state_count(props),
    decreases props.len() - i,
{
    lemma_count_positive(props.take(i));
    if i == props.len() {
        assert(props.take(i) =~= props);
    } else {
        lemma_count_grows(props, i + 1);
        let next = props.take(i + 1);
        assert(next.drop_last() =~= props.take(i));
        assert(next.last() == props[i]);
        assert(spec_state_count(props.take(i)) <= spec_state_count(next)) by (nonlinear_arith)
            requires
                spec_state_count(next) == spec_state_count(props.take(i)) * props[i].spec_len(),
                props[i].spec_len() >= 1,
                spec_state_count(props.take(i)) >= 1,
        ;
    }
}

/// The product is at least 1.
pub proof fn lemma_count_positive(props: Seq<Prop>)
    requires
        forall|j: int| 0 <= j < props.len() ==> (#[trigger] props[j]).wf(),
    ensures
        spec_state_count(props) >= 1,
    decreases props.len(),
{
    if props.len() > 0 {
        let t = props.drop_last();
        assert forall|j: int| 0 <= j < t.len() implies (#[trigger] t[j]).wf() by {
            assert(t[j] == props[j]);
        }
        lemma_count_positive(t);
        assert(spec_state_count(props) >= 1) by (nonlinear_arith)
            requires
                spec_state_count(props) == spec_state_count(t) * props.last().spec_len(),
                props.last().spec_len() >= 1,
                spec_state_count(t) >= 1,
        ;
    }
}

/// The first position from `i` on of a property called `name`, or -1.
pub open spec fn spec_find(props: Seq<StateProp>, name: Seq<char>, i: int) -> int
    decreases props.len() - i,
{
    if i < 0 || i >= props.len() {
        -1
    } else if props[i].name@ == name {
        i
    } else {
        spec_find(props, name, i + 1)
    }
}

impl State {
    /// Whether the state has a property called `name`.
    pub open spec fn has_prop(self, name: Seq<char>) -> bool {
        spec_find(self.props@, name, 0) >= 0
    }

    /// The first property called `name`.
    pub open spec fn spec_prop(self, name: Seq<char>) -> StateProp {
        self.props@[spec_find(self.props@, name, 0)]
    }

    /// The position of the first property called `name`, if there is one.
    pub fn find(&self, name: &str) -> (r: Option<usize>)
        ensures
            r.is_some() == self.has_prop(name@),
            r matches Some(i) ==> i == spec_find(self.props@, name@, 0) && i < self.props@.len(),
    {
        let wanted = String::from_str(name);
        let mut i: usize = 0;
        while i < self.props.len()
            invariant
                i <= self.props@.len(),
                wanted@ == name@,
                spec_find(self.props@, name@, 0) == spec_find(self.props@, name@, i as int),
            decreases self.props@.len() - i,
        {
            if self.props[i].name == wanted {
                return Some(i);
            }
            i += 1;
        }
        None
    }

    /// The property called `name`.
    pub fn prop(&self, name: &str) -> (p: &StateProp)
        requires
            self.has_prop(name@),
        ensures
            *p == self.spec_prop(name@),
    {
        let i = self.find(name).unwrap();
        &self.props[i]
    }

    /// The name that the property called `name` has as its value.
    pub fn enum_prop(&self, name: &str) -> (value: &str)
        requires
            self.has_prop(name@),
            self.spec_prop(name@).kind is Enum,
        ensures
            self.spec_prop(name@).kind matches StatePropKind::Enum(_, v) && value@ == v@,
    {
        let p = self.prop(name);
        match &p.kind {
            StatePropKind::Enum(_, v) => v.as_str(),
            _ => "",
        }
    }

    /// The value of the boolean property called `name`.
    pub fn bool_prop(&self, name: &str) -> (value: bool)
        requires
            self.has_prop(name@),
            self.spec_prop(name@).kind is Bool,
        ensures
            self.spec_prop(name@).kind == StatePropKind::Bool(value),
    {
        let p = self.prop(name);
        match &p.kind {
            StatePropKind::Bool(v) => *v,
            _ => false,
        }
    }
}

} // verus!
