//! The design-rule source: named layers, their width/spacing/enclosure/
//! extension rules, contact stacks, and the manufacturing grid.
//!
//! A [`TechConfig`] is a plain table of integer rules. Lookups of a layer or
//! a stack that the table does not define are configuration errors; a missing
//! enclosure/extension/spacing *entry* on a layer that does exist means "no
//! requirement" and reads as zero.

use vstd::prelude::*;

use crate::Error;

verus! {

/// Distances in a technology's unit system.
pub type Int = i64;

/// Array counts (rows, columns, fingers).
pub type Uint = i64;

/// Upper bound on any single design-rule distance, device width or gate
/// length. Keeps every derived coordinate well inside `i64` range.
pub const MAX_RULE: i64 = 1_000_000;

/// The unit of length that rule distances are expressed in.
#[derive(Debug, Clone, Copy, PartialEq, Eq, Structural)]
pub enum Units {
    Nano,
    Micro,
    Angstrom,
}

/// Names of the layers a technology can define rules for. `Gate` is a
/// pseudo-layer used only in pairwise spacing rules.
#[derive(Debug, Clone, Copy, PartialEq, Eq, Structural, Hash)]
pub enum LayerName {
    Diff,
    Poly,
    Licon,
    Li,
    Mcon,
    M1,
    Via,
    M2,
    Via2,
    M3,
    Via3,
    M4,
    Via4,
    M5,
    Nsdm,
    Psdm,
    Nwell,
    Ntap,
    Ptap,
    Npc,
    Gate,
}

/// Names of the contact stacks a technology can define. The five device
/// stacks (`Ndiffc`, `Pdiffc`, `Ntap`, `Ptap`, `Polyc`) get extra implant,
/// well or gate-cap geometry when a contact is built on them.
#[derive(Debug, Clone, Copy, PartialEq, Eq, Structural, Hash)]
pub enum StackName {
    Viali,
    Via1,
    Via2,
    Via3,
    Via4,
    Ndiffc,
    Pdiffc,
    Ntap,
    Ptap,
    Polyc,
}

/// One distance rule relating the owning layer to `other`.
#[derive(Debug, Clone, Copy, PartialEq, Eq, Structural)]
pub struct LayerRule2 {
    pub other: LayerName,
    pub dist: Int,
}

/// The rules of a single layer.
#[derive(Debug, Clone, PartialEq)]
pub struct LayerRules {
    pub name: LayerName,
    /// Minimum width of a shape on this layer.
    pub width: Int,
    /// Minimum spacing between shapes on this layer.
    pub space: Int,
    /// Required overlap of this layer's shapes beyond shapes of another layer.
    pub enclosures: Vec<LayerRule2>,
    /// Enclosure that may be satisfied on one side only, along the relaxed
    /// direction of a contact array.
    pub one_side_enclosures: Vec<LayerRule2>,
    /// Required protrusion of this layer past another layer's boundary.
    pub extensions: Vec<LayerRule2>,
}

/// A pairwise spacing rule between two different layers.
#[derive(Debug, Clone, Copy, PartialEq, Eq, Structural)]
pub struct SpaceRule {
    pub a: LayerName,
    pub b: LayerName,
    pub dist: Int,
}

/// An ordered list of layer names a contact stack connects through. A valid
/// stack has exactly three: `[bottom, cut, top]`.
#[derive(Debug, Clone, PartialEq)]
pub struct Stack {
    pub name: StackName,
    pub layers: Vec<LayerName>,
}

/// The full design-rule table of a technology.
#[derive(Debug, Clone, PartialEq)]
pub struct TechConfig {
    pub units: Units,
    /// The manufacturing grid quantum.
    pub grid: Int,
    pub layers: Vec<LayerRules>,
    pub stacks: Vec<Stack>,
    pub spaces: Vec<SpaceRule>,
}

/// First rule for `other` in a rule list; zero when the list has none.
pub open spec fn sp_rule_find(s: Seq<LayerRule2>, other: LayerName) -> int
    decreases s.len(),
{
    if s.len() == 0 {
        0
    } else if s[0].other == other {
        s[0].dist as int
    } else {
        sp_rule_find(s.skip(1), other)
    }
}

/// First spacing rule for the ordered pair `(a, b)`; zero when there is none.
pub open spec fn sp_space_find(s: Seq<SpaceRule>, a: LayerName, b: LayerName) -> int
    decreases s.len(),
{
    if s.len() == 0 {
        0
    } else if s[0].a == a && s[0].b == b {
        s[0].dist as int
    } else {
        sp_space_find(s.skip(1), a, b)
    }
}

/// First layer entry named `name`.
pub open spec fn sp_layer_find(s: Seq<LayerRules>, name: LayerName) -> Option<LayerRules>
    decreases s.len(),
{
    if s.len() == 0 {
        None
    } else if s[0].name == name {
        Some(s[0])
    } else {
        sp_layer_find(s.skip(1), name)
    }
}

/// First stack entry named `name`.
pub open spec fn sp_stack_find(s: Seq<Stack>, name: StackName) -> Option<Stack>
    decreases s.len(),
{
    if s.len() == 0 {
        None
    } else if s[0].name == name {
        Some(s[0])
    } else {
        sp_stack_find(s.skip(1), name)
    }
}

/// Every distance entry of `l` lies in `[0, MAX_RULE]`.
pub open spec fn layer_rules_bounded(l: LayerRules) -> bool {
    &&& 0 <= l.width <= MAX_RULE
    &&& 0 <= l.space <= MAX_RULE
    &&& forall|i: int| 0 <= i < l.enclosures@.len() ==> 0 <= #[trigger] l.enclosures@[i].dist <= MAX_RULE
    &&& forall|i: int|
        0 <= i < l.one_side_enclosures@.len() ==> 0 <= #[trigger] l.one_side_enclosures@[i].dist
            <= MAX_RULE
    &&& forall|i: int| 0 <= i < l.extensions@.len() ==> 0 <= #[trigger] l.extensions@[i].dist <= MAX_RULE
}

impl TechConfig {
    /// A well-formed rule table: positive grid and every stored distance in
    /// `[0, MAX_RULE]`.
    pub open spec fn wf(self) -> bool {
        &&& 1 <= self.grid <= MAX_RULE
        &&& forall|i: int| 0 <= i < self.layers@.len() ==> layer_rules_bounded(#[trigger] self.layers@[i])
        &&& forall|i: int| 0 <= i < self.spaces@.len() ==> 0 <= #[trigger] self.spaces@[i].dist <= MAX_RULE
    }

    pub open spec fn sp_layer(self, name: LayerName) -> Option<LayerRules> {
        sp_layer_find(self.layers@, name)
    }

    pub open spec fn sp_stack(self, name: StackName) -> Option<Stack> {
        sp_stack_find(self.stacks@, name)
    }

    pub open spec fn sp_space(self, a: LayerName, b: LayerName) -> int {
        sp_space_find(self.spaces@, a, b)
    }

    /// The rules of layer `name`; a configuration error if the table does
    /// not define it.
    pub fn layer(&self, name: LayerName) -> (r: Result<&LayerRules, Error>)
        ensures
            match r {
                Ok(l) => self.sp_layer(name) == Some(*l),
                Err(e) => self.sp_layer(name) is None && e == Error::UnknownLayer(name),
            },
    {
        let n: usize = self.layers.len();
        let mut i: usize = 0;
        proof {
            assert(self.layers@.skip(0) =~= self.layers@);
        }
        while i < n
            invariant
                i <= n,
                n == self.layers@.len(),
                sp_layer_find(self.layers@, name) == sp_layer_find(self.layers@.skip(i as int), name),
            decreases n - i,
        {
            if self.layers[i].name == name {
                assert(self.layers@.skip(i as int)[0] == self.layers@[i as int]);
                return Ok(&self.layers[i]);
            }
            assert(self.layers@.skip(i as int).skip(1) =~= self.layers@.skip(i as int + 1));
            assert(self.layers@.skip(i as int)[0] == self.layers@[i as int]);
            i += 1;
        }
        assert(self.layers@.skip(n as int) =~= Seq::<LayerRules>::empty());
        Err(Error::UnknownLayer(name))
    }

    /// The layer triple of stack `name`; a configuration error if the table
    /// does not define it.
    pub fn stack(&self, name: StackName) -> (r: Result<&Stack, Error>)
        ensures
            match r {
                Ok(s) => self.sp_stack(name) == Some(*s),
                Err(e) => self.sp_stack(name) is None && e == Error::UnknownStack(name),
            },
    {
        let n: usize = self.stacks.len();
        let mut i: usize = 0;
        proof {
            assert(self.stacks@.skip(0) =~= self.stacks@);
        }
        while i < n
            invariant
                i <= n,
                n == self.stacks@.len(),
                sp_stack_find(self.stacks@, name) == sp_stack_find(self.stacks@.skip(i as int), name),
            decreases n - i,
        {
            if self.stacks[i].name == name {
                assert(self.stacks@.skip(i as int)[0] == self.stacks@[i as int]);
                return Ok(&self.stacks[i]);
            }
            assert(self.stacks@.skip(i as int).skip(1) =~= self.stacks@.skip(i as int + 1));
            assert(self.stacks@.skip(i as int)[0] == self.stacks@[i as int]);
            i += 1;
        }
        assert(self.stacks@.skip(n as int) =~= Seq::<Stack>::empty());
        Err(Error::UnknownStack(name))
    }

    /// The minimum spacing between layers `a` and `b`; zero when the table
    /// holds no rule for the pair.
    pub fn space(&self, a: LayerName, b: LayerName) -> (d: Int)
        ensures
            d == self.sp_space(a, b),
    {
        let n: usize = self.spaces.len();
        let mut i: usize = 0;
        proof {
            assert(self.spaces@.skip(0) =~= self.spaces@);
        }
        while i < n
            invariant
                i <= n,
                n == self.spaces@.len(),
                sp_space_find(self.spaces@, a, b) == sp_space_find(self.spaces@.skip(i as int), a, b),
            decreases n - i,
        {
            let e = self.spaces[i];
            assert(self.spaces@.skip(i as int)[0] == self.spaces@[i as int]);
            if e.a == a && e.b == b {
                return e.dist;
            }
            assert(self.spaces@.skip(i as int).skip(1) =~= self.spaces@.skip(i as int + 1));
            i += 1;
        }
        assert(self.spaces@.skip(n as int) =~= Seq::<SpaceRule>::empty());
        0
    }
}

/// Every entry of `v` has a distance in `[0, MAX_RULE]`.
fn rules_in_bounds(v: &Vec<LayerRule2>) -> (r: bool)
    ensures
        r == (forall|i: int| 0 <= i < v@.len() ==> 0 <= #[trigger] v@[i].dist <= MAX_RULE),
{
    let n: usize = v.len();
    let mut i: usize = 0;
    while i < n
        invariant
            i <= n,
            n == v@.len(),
            forall|j: int| 0 <= j < i ==> 0 <= #[trigger] v@[j].dist <= MAX_RULE,
        decreases n - i,
    {
        let d: i64 = v[i].dist;
        if !(0 <= d && d <= MAX_RULE) {
            return false;
        }
        i += 1;
    }
    true
}

impl TechConfig {
    /// Checks [`TechConfig::wf`] at run time, so that a table assembled from
    /// arbitrary data can be rejected before any construction uses it.
    pub fn check(&self) -> (r: Result<(), Error>)
        ensures
            match r {
                Ok(()) => self.wf(),
                Err(e) => !self.wf() && e == Error::InvalidConfig,
            },
    {
        if !(1 <= self.grid && self.grid <= MAX_RULE) {
            return Err(Error::InvalidConfig);
        }
        let n: usize = self.layers.len();
        let mut i: usize = 0;
        proof {
            assert(self.layers@.skip(0) =~= self.layers@);
        }
        while i < n
            invariant
                i <= n,
                n == self.layers@.len(),
                forall|j: int| 0 <= j < i ==> layer_rules_bounded(#[trigger] self.layers@[j]),
            decreases n - i,
        {
            let l = &self.layers[i];
            if !(0 <= l.width && l.width <= MAX_RULE && 0 <= l.space && l.space <= MAX_RULE) {
                return Err(Error::InvalidConfig);
            }
            if !rules_in_bounds(&l.enclosures) {
                return Err(Error::InvalidConfig);
            }
            if !rules_in_bounds(&l.one_side_enclosures) {
                return Err(Error::InvalidConfig);
            }
            if !rules_in_bounds(&l.extensions) {
                return Err(Error::InvalidConfig);
            }
            i += 1;
        }
        let m: usize = self.spaces.len();
        let mut k: usize = 0;
        while k < m
            invariant
                k <= m,
                m == self.spaces@.len(),
                1 <= self.grid <= MAX_RULE,
                forall|j: int| 0 <= j < self.layers@.len() ==> layer_rules_bounded(#[trigger] self.layers@[j]),
                forall|j: int| 0 <= j < k ==> 0 <= #[trigger] self.spaces@[j].dist <= MAX_RULE,
            decreases m - k,
        {
            let d: i64 = self.spaces[k].dist;
            if !(0 <= d && d <= MAX_RULE) {
                return Err(Error::InvalidConfig);
            }
            k += 1;
        }
        Ok(())
    }
}

/// Scan of a rule list for `other`, mirroring [`sp_rule_find`].
fn rule_find(v: &Vec<LayerRule2>, other: LayerName) -> (d: Int)
    ensures
        d == sp_rule_find(v@, other),
{
    let n: usize = v.len();
    let mut i: usize = 0;
    proof {
        assert(v@.skip(0) =~= v@);
    }
    while i < n
        invariant
            i <= n,
            n == v@.len(),
            sp_rule_find(v@, other) == sp_rule_find(v@.skip(i as int), other),
        decreases n - i,
    {
        let e = v[i];
        assert(v@.skip(i as int)[0] == v@[i as int]);
        if e.other == other {
            return e.dist;
        }
        assert(v@.skip(i as int).skip(1) =~= v@.skip(i as int + 1));
        i += 1;
    }
    assert(v@.skip(n as int) =~= Seq::<LayerRule2>::empty());
    0
}

impl LayerRules {
    pub open spec fn sp_enclosure(self, other: LayerName) -> int {
        sp_rule_find(self.enclosures@, other)
    }

    pub open spec fn sp_one_side_enclosure(self, other: LayerName) -> int {
        sp_rule_find(self.one_side_enclosures@, other)
    }

    pub open spec fn sp_extension(self, other: LayerName) -> int {
        sp_rule_find(self.extensions@, other)
    }

    /// Required overlap of this layer beyond `other`; zero when no rule.
    pub fn enclosure(&self, other: LayerName) -> (d: Int)
        ensures
            d == self.sp_enclosure(other),
    {
        rule_find(&self.enclosures, other)
    }

    /// One-sided enclosure of this layer beyond `other`; zero when no rule.
    pub fn one_side_enclosure(&self, other: LayerName) -> (d: Int)
        ensures
            d == self.sp_one_side_enclosure(other),
    {
        rule_find(&self.one_side_enclosures, other)
    }

    /// Required protrusion of this layer past `other`; zero when no rule.
    pub fn extension(&self, other: LayerName) -> (d: Int)
        ensures
            d == self.sp_extension(other),
    {
        rule_find(&self.extensions, other)
    }
}

/// Every distance of `l` is a multiple of the grid quantum `g`.
pub open spec fn layer_rules_aligned(l: LayerRules, g: int) -> bool {
    &&& l.width as int % g == 0
    &&& l.space as int % g == 0
    &&& forall|i: int|
        0 <= i < l.enclosures@.len() ==> #[trigger] l.enclosures@[i].dist as int % g == 0
    &&& forall|i: int|
        0 <= i < l.one_side_enclosures@.len() ==> #[trigger] l.one_side_enclosures@[i].dist as int
            % g == 0
    &&& forall|i: int|
        0 <= i < l.extensions@.len() ==> #[trigger] l.extensions@[i].dist as int % g == 0
}

impl TechConfig {
    /// Every distance the table stores — widths, spacings, enclosures,
    /// one-sided enclosures, extensions and pairwise spacings — is a
    /// multiple of its grid quantum.
    pub open spec fn sp_grid_aligned(self) -> bool {
        &&& forall|i: int|
            0 <= i < self.layers@.len() ==> layer_rules_aligned(
                #[trigger] self.layers@[i],
                self.grid as int,
            )
        &&& forall|i: int|
            0 <= i < self.spaces@.len() ==> #[trigger] self.spaces@[i].dist as int % (
            self.grid as int) == 0
    }
}

/// Any distance [`sp_rule_find`] returns from an aligned list is itself a
/// multiple of the grid.
pub proof fn lemma_rule_find_aligned(s: Seq<LayerRule2>, other: LayerName, g: int)
    requires
        1 <= g,
        forall|i: int| 0 <= i < s.len() ==> #[trigger] s[i].dist as int % g == 0,
    ensures
        sp_rule_find(s, other) % g == 0,
    decreases s.len(),
{
    vstd::arithmetic::div_mod::lemma_small_mod(0nat, g as nat);
    if s.len() == 0 {
    } else if s[0].other == other {
    } else {
        assert(forall|i: int| 0 <= i < s.skip(1).len() ==> #[trigger] s.skip(1)[i].dist as int % g == 0);
        lemma_rule_find_aligned(s.skip(1), other, g);
    }
}

/// Any distance [`sp_space_find`] returns from an aligned list is itself a
/// multiple of the grid.
pub proof fn lemma_space_find_aligned(s: Seq<SpaceRule>, a: LayerName, b: LayerName, g: int)
    requires
        1 <= g,
        forall|i: int| 0 <= i < s.len() ==> #[trigger] s[i].dist as int % g == 0,
    ensures
        sp_space_find(s, a, b) % g == 0,
    decreases s.len(),
{
    vstd::arithmetic::div_mod::lemma_small_mod(0nat, g as nat);
    if s.len() == 0 {
    } else if s[0].a == a && s[0].b == b {
    } else {
        assert(forall|i: int| 0 <= i < s.skip(1).len() ==> #[trigger] s.skip(1)[i].dist as int % g == 0);
        lemma_space_find_aligned(s.skip(1), a, b, g);
    }
}

/// Any layer [`sp_layer_find`] returns from an aligned table is itself
/// aligned.
pub proof fn lemma_layer_find_aligned(s: Seq<LayerRules>, name: LayerName, g: int)
    requires
        forall|i: int| 0 <= i < s.len() ==> layer_rules_aligned(#[trigger] s[i], g),
    ensures
        match sp_layer_find(s, name) {
            Some(l) => layer_rules_aligned(l, g),
            None => true,
        },
    decreases s.len(),
{
    if s.len() == 0 {
    } else if s[0].name == name {
    } else {
        assert(forall|i: int| 0 <= i < s.skip(1).len() ==> layer_rules_aligned(#[trigger] s.skip(1)[i], g));
        lemma_layer_find_aligned(s.skip(1), name, g);
    }
}

/// Any distance [`sp_rule_find`] returns from a bounded list is itself in
/// `[0, MAX_RULE]`.
pub proof fn lemma_rule_find_bounded(s: Seq<LayerRule2>, other: LayerName)
    requires
        forall|i: int| 0 <= i < s.len() ==> 0 <= #[trigger] s[i].dist <= MAX_RULE,
    ensures
        0 <= sp_rule_find(s, other) <= MAX_RULE,
    decreases s.len(),
{
    if s.len() == 0 {
    } else if s[0].other == other {
    } else {
        assert(forall|i: int| 0 <= i < s.skip(1).len() ==> 0 <= #[trigger] s.skip(1)[i].dist <= MAX_RULE);
        lemma_rule_find_bounded(s.skip(1), other);
    }
}

/// Any distance [`sp_space_find`] returns from a bounded list is itself in
/// `[0, MAX_RULE]`.
pub proof fn lemma_space_find_bounded(s: Seq<SpaceRule>, a: LayerName, b: LayerName)
    requires
        forall|i: int| 0 <= i < s.len() ==> 0 <= #[trigger] s[i].dist <= MAX_RULE,
    ensures
        0 <= sp_space_find(s, a, b) <= MAX_RULE,
    decreases s.len(),
{
    if s.len() == 0 {
    } else if s[0].a == a && s[0].b == b {
    } else {
        assert(forall|i: int| 0 <= i < s.skip(1).len() ==> 0 <= #[trigger] s.skip(1)[i].dist <= MAX_RULE);
        lemma_space_find_bounded(s.skip(1), a, b);
    }
}

/// Any layer [`sp_layer_find`] returns from a well-formed table has bounded
/// rules.
pub proof fn lemma_layer_find_bounded(s: Seq<LayerRules>, name: LayerName)
    requires
        forall|i: int| 0 <= i < s.len() ==> layer_rules_bounded(#[trigger] s[i]),
    ensures
        match sp_layer_find(s, name) {
            Some(l) => layer_rules_bounded(l),
            None => true,
        },
    decreases s.len(),
{
    if s.len() == 0 {
    } else if s[0].name == name {
    } else {
        assert(forall|i: int| 0 <= i < s.skip(1).len() ==> layer_rules_bounded(#[trigger] s.skip(1)[i]));
        lemma_layer_find_bounded(s.skip(1), name);
    }
}

} // verus!
