//! Generation of verified integrated-circuit layout primitives: contact (via)
//! arrays with per-layer bounding boxes, binary-search sizing of contact
//! arrays against a target span or rectangle, bus track clearance, and
//! multi-finger MOS transistor cells — all constructed from a plain table of
//! integer design rules and proved to follow it.

use vstd::prelude::*;

pub mod bus;
pub mod cell;
pub mod config;
pub mod contact;
pub mod geometry;
pub mod mos;
pub mod sky130;

use crate::cell::Library;
use crate::config::{Int, LayerName, StackName, TechConfig, Units};
use crate::contact::{contact_built, sp_contact_err, Contact, ContactParams};
use crate::mos::{LayoutTransistors, MosParams};

verus! {

/// Index of a routing metal layer, counted from the lowest metal.
pub type LayerIdx = u32;

/// Everything that can go wrong while generating layout. Configuration and
/// specification errors are fatal for the requested construction; an
/// infeasible sizing search inside the MOS generator is reported as
/// [`Error::InfeasibleSdContact`] rather than left unchecked.
#[derive(Debug, Clone, Copy, PartialEq, Eq, Structural)]
pub enum Error {
    /// The design-rule table has no entry for this layer.
    UnknownLayer(LayerName),
    /// The design-rule table has no entry for this stack.
    UnknownStack(StackName),
    /// The stack does not list exactly three layers.
    BadStackArity(StackName),
    /// Contact rows or columns outside `[1, MAX_CONTACT_UNITS]`.
    InvalidContactDims,
    /// The queried layer has no bounding box in the contact.
    LayerNotInContact(LayerName),
    /// The technology has no metal layer with this index.
    NoSuchMetal(LayerIdx),
    /// The technology has no via stack with this index.
    NoStackForIndex(LayerIdx),
    /// A contact below the lowest metal layer was requested.
    BelowBottomMetal,
    /// A contact parameter builder was finished with a field unset.
    IncompleteContactParams,
    /// A MOS group specification failed validation.
    InvalidMosParams,
    /// A device is too narrow for even a single source/drain contact.
    InfeasibleSdContact,
    /// The design-rule table itself is out of bounds.
    InvalidConfig,
}

/// The supported technologies.
#[derive(Debug, Clone, Copy, PartialEq, Eq, Structural)]
pub enum Tech {
    Sky130,
}

/// A technology context: its design rules and its contact cache. The cache
/// maps each contact specification to the artifact built for it; a
/// specification is built at most once for the lifetime of the context.
#[derive(Debug)]
pub struct Pdk {
    pub tech: Tech,
    pub config: TechConfig,
    pub contacts: Vec<(ContactParams, Contact)>,
}

impl Pdk {
    /// The context invariant: the rule table is well-formed and every cache
    /// entry holds exactly the artifact its key builds to, with no key
    /// cached twice.
    pub open spec fn wf(self) -> bool {
        &&& self.config.wf()
        &&& forall|i: int|
            0 <= i < self.contacts@.len() ==> sp_contact_err(
                self.config,
                (#[trigger] self.contacts@[i]).0,
            ) is None && contact_built(self.config, self.contacts@[i].0, self.contacts@[i].1)
        &&& forall|i: int, j: int|
            0 <= i < j < self.contacts@.len() ==> (#[trigger] self.contacts@[i]).0 != (
            #[trigger] self.contacts@[j]).0
    }

    /// A new context over `config`, rejected if the table is out of bounds.
    pub fn new(tech: Tech, config: TechConfig) -> (r: Result<Pdk, Error>)
        ensures
            match r {
                Ok(p) => config.wf() && p.wf() && p.config == config && p.tech == tech
                    && p.contacts@.len() == 0,
                Err(e) => !config.wf() && e == Error::InvalidConfig,
            },
    {
        match config.check() {
            Ok(()) => Ok(Pdk { tech, config, contacts: Vec::new() }),
            Err(e) => Err(e),
        }
    }

    /// The design-rule table of this context.
    pub fn config(&self) -> (r: &TechConfig)
        ensures
            *r == self.config,
    {
        &self.config
    }

    /// The technology this context belongs to.
    pub fn tech(&self) -> (r: Tech)
        ensures
            r == self.tech,
    {
        self.tech
    }

    /// The manufacturing grid quantum.
    pub fn grid(&self) -> (r: Int)
        ensures
            r == self.config.grid,
    {
        self.config.grid
    }

    /// The unit of length of this technology.
    pub fn units(&self) -> (r: Units)
        ensures
            r == self.config.units,
    {
        self.config.units
    }

    /// How many distinct contact specifications have been built so far.
    pub fn contact_count(&self) -> (r: usize)
        ensures
            r == self.contacts@.len(),
    {
        self.contacts.len()
    }

    /// A span of length `span` centered as closely on `center` as the grid
    /// allows: the low edge is `center - span/2` rounded to the grid.
    pub fn gridded_center_span(&self, center: Int, span: Int) -> (r: (Int, Int))
        requires
            self.wf(),
            0 <= span <= config::MAX_RULE * 0x10000,
            span as int % (self.config.grid as int) == 0,
            -geometry::GEOM_LIMIT / 2 <= center <= geometry::GEOM_LIMIT / 2,
        ensures
            r.0 == sp_round(center - span / 2, self.config.grid as int),
            r.1 - r.0 == span,
            r.0 as int % (self.config.grid as int) == 0,
            r.1 as int % (self.config.grid as int) == 0,
    {
        let grid: i64 = self.config.grid;
        let xmin: i64 = round(center - span / 2, grid);
        let xmax: i64 = xmin + span;
        proof {
            vstd::arithmetic::div_mod::lemma_add_mod_noop(xmin as int, span as int, grid as int);
            vstd::arithmetic::div_mod::lemma_small_mod(0nat, grid as nat);
        }
        (xmin, xmax)
    }

    /// A fresh cell library for this technology.
    pub fn create_lib(&self, name: String) -> (r: Library)
        ensures
            r.name@ == name@,
            r.cells@.len() == 0,
    {
        Library { name, cells: Vec::new() }
    }

    /// A fresh [`PdkLib`], taking ownership of this context.
    pub fn create_pdk_lib(self, name: String) -> (r: PdkLib)
        ensures
            r.pdk == self,
            r.lib.name@ == name@,
            r.lib.cells@.len() == 0,
            r.ptx@.len() == 0,
    {
        PdkLib {
            tech: self.tech,
            lib: Library { name, cells: Vec::new() },
            pdk: self,
            ptx: Vec::new(),
        }
    }
}

/// A technology context together with a cell library under construction and
/// the per-library cache of generated MOS groups.
#[derive(Debug)]
pub struct PdkLib {
    pub tech: Tech,
    pub pdk: Pdk,
    pub lib: Library,
    pub ptx: Vec<(MosParams, LayoutTransistors)>,
}

/// Whether the MOS cache holds an entry structurally equal to `p`.
pub open spec fn sp_ptx_has(s: Seq<(MosParams, LayoutTransistors)>, p: MosParams) -> bool {
    exists|i: int| 0 <= i < s.len() && mos::sp_mos_params_eq((#[trigger] s[i]).0, p)
}

impl PdkLib {
    /// The library invariant: the context is well-formed and every cached
    /// MOS layout has the shape and geometry its key prescribes.
    pub open spec fn wf(self) -> bool {
        &&& self.pdk.wf()
        &&& forall|i: int|
            0 <= i < self.ptx@.len() ==> sky130::mos_layout_shape(
                (#[trigger] self.ptx@[i]).0,
                self.ptx@[i].1,
            )
        &&& forall|i: int|
            0 <= i < self.ptx@.len() ==> sky130::mos_layout_geom(
                self.pdk.config,
                (#[trigger] self.ptx@[i]).0,
                self.ptx@[i].1,
            )
    }

    /// The underlying technology context.
    pub fn pdk(&self) -> (r: &Pdk)
        ensures
            *r == self.pdk,
    {
        &self.pdk
    }

    /// The first cell generated under `id`, if any.
    pub fn cell(&self, id: cell::CellId) -> (r: Option<&cell::Cell>)
        ensures
            match r {
                Some(c) => c.id == id,
                None => forall|i: int|
                    0 <= i < self.lib.cells@.len() ==> (#[trigger] self.lib.cells@[i]).id != id,
            },
    {
        let n: usize = self.lib.cells.len();
        let mut i: usize = 0;
        while i < n
            invariant
                i <= n,
                n == self.lib.cells@.len(),
                forall|m: int| 0 <= m < i ==> (#[trigger] self.lib.cells@[m]).id != id,
            decreases n - i,
        {
            if self.lib.cells[i].id == id {
                return Some(&self.lib.cells[i]);
            }
            i += 1;
        }
        None
    }

    /// The cached or freshly built contact for `params`, with its cell
    /// added to this library. Touches nothing but the shared contact cache
    /// (exactly as [`Pdk::get_contact`] does) and the cell list.
    pub fn draw_contact(&mut self, params: &ContactParams) -> (r: Result<Contact, Error>)
        requires
            old(self).wf(),
        ensures
            final(self).wf(),
            final(self).pdk.config == old(self).pdk.config,
            final(self).tech == old(self).tech,
            final(self).ptx@ == old(self).ptx@,
            final(self).lib.name@ == old(self).lib.name@,
            match r {
                Ok(c) => {
                    &&& contact::sp_contact_ok(old(self).pdk.config, *params)
                    &&& contact_built(old(self).pdk.config, *params, c)
                    &&& final(self).lib.cells@.len() == old(self).lib.cells@.len() + 1
                    &&& (forall|i: int|
                        0 <= i < old(self).lib.cells@.len() ==> #[trigger] final(self).lib.cells@[i]
                            == old(self).lib.cells@[i])
                    &&& final(self).lib.cells@.last().id == cell::CellId::Contact(*params)
                    &&& final(self).lib.cells@.last().elems@ == c.cell.elems@
                    &&& final(self).lib.cells@.last().insts@ == c.cell.insts@
                    &&& final(self).lib.cells@.last().ports@ == c.cell.ports@
                    &&& final(self).lib.cells@.last().outline == c.cell.outline
                    &&& contact::sp_cache_has(final(self).pdk.contacts@, *params)
                    &&& (contact::sp_cache_has(old(self).pdk.contacts@, *params) ==> final(self).pdk.contacts@ == old(self).pdk.contacts@)
                    &&& (!contact::sp_cache_has(old(self).pdk.contacts@, *params) ==> final(self).pdk.contacts@.len() == old(self).pdk.contacts@.len() + 1 && (forall|i: int|
                        0 <= i < old(self).pdk.contacts@.len() ==> final(self).pdk.contacts@[i]
                            == old(self).pdk.contacts@[i]) && final(self).pdk.contacts@.last().0 == *params)
                },
                Err(e) => sp_contact_err(old(self).pdk.config, *params) == Some(e) && final(self).lib.cells@ == old(self).lib.cells@ && final(self).pdk.contacts@ == old(
                    self,
                ).pdk.contacts@,
            },
    {
        match self.pdk.get_contact(params) {
            Ok(c) => {
                self.lib.cells.push(c.cell.clone());
                Ok(c)
            },
            Err(e) => Err(e),
        }
    }

    /// The cached or freshly generated layout for a MOS group. A
    /// structurally equal specification is generated at most once per
    /// library; later calls return a value-equal copy of the stored layout.
    pub fn draw_mos(&mut self, params: MosParams) -> (r: mos::MosResult<LayoutTransistors>)
        requires
            old(self).wf(),
        ensures
            final(self).wf(),
            final(self).pdk.config == old(self).pdk.config,
            final(self).tech == old(self).tech,
            final(self).lib.cells@ == old(self).lib.cells@,
            match r {
                Ok(t) => {
                    &&& sky130::mos_layout_shape(params, t)
                    &&& sky130::mos_layout_geom(old(self).pdk.config, params, t)
                    &&& sp_ptx_has(final(self).ptx@, params)
                    &&& exists|i: int|
                        0 <= i < final(self).ptx@.len() && mos::sp_mos_params_eq(
                            (#[trigger] final(self).ptx@[i]).0,
                            params,
                        ) && mos::sp_layout_eq(t, final(self).ptx@[i].1)
                    &&& (sp_ptx_has(old(self).ptx@, params) ==> final(self).ptx@ == old(self).ptx@)
                    &&& (!sp_ptx_has(old(self).ptx@, params) ==> final(self).ptx@.len() == old(self).ptx@.len() + 1 && (forall|i: int|
                        0 <= i < old(self).ptx@.len() ==> final(self).ptx@[i] == old(self).ptx@[i]))
                },
                Err(e) => sky130::sp_mos_err(old(self).pdk.config, params) == Some(e) && final(self).ptx@ == old(self).ptx@,
            },
    {
        let ghost cfg = self.pdk.config;
        let n: usize = self.ptx.len();
        let mut i: usize = 0;
        while i < n
            invariant
                i <= n,
                n == self.ptx@.len(),
                self == old(self),
                self.wf(),
                forall|m: int|
                    0 <= m < i ==> !mos::sp_mos_params_eq((#[trigger] self.ptx@[m]).0, params),
            decreases n - i,
        {
            if mos::mos_params_eq(&self.ptx[i].0, &params) {
                let t = self.ptx[i].1.clone();
                proof {
                    assert(sky130::mos_layout_shape(
                        (self.ptx@[i as int]).0,
                        self.ptx@[i as int].1,
                    ));
                    sky130::lemma_shape_respects_eq(
                        self.ptx@[i as int].0,
                        params,
                        self.ptx@[i as int].1,
                        t,
                    );
                    assert(sky130::mos_layout_geom(
                        self.pdk.config,
                        (self.ptx@[i as int]).0,
                        self.ptx@[i as int].1,
                    ));
                    sky130::lemma_geom_respects_eq(
                        self.pdk.config,
                        self.ptx@[i as int].0,
                        params,
                        self.ptx@[i as int].1,
                        t,
                    );
                    assert(sp_ptx_has(self.ptx@, params));
                    assert(mos::sp_mos_params_eq((self.ptx@[i as int]).0, params) && mos::sp_layout_eq(
                        t,
                        self.ptx@[i as int].1,
                    ));
                }
                return Ok(t);
            }
            i += 1;
        }
        let idx: usize = self.ptx.len();
        let key = params.clone();
        let t = match self.pdk.draw_sky130_mos(params, idx) {
            Ok(t) => t,
            Err(e) => {
                return Err(e);
            },
        };
        let t2 = t.clone();
        proof {
            sky130::lemma_shape_respects_eq(params, params, t, t2);
            sky130::lemma_shape_respects_eq(params, key, t, t);
            sky130::lemma_geom_respects_eq(cfg, params, params, t, t2);
            sky130::lemma_geom_respects_eq(cfg, params, key, t, t);
        }
        self.ptx.push((key, t));
        proof {
            assert(mos::sp_mos_params_eq(self.ptx@.last().0, params)) by {
                lemma_mos_eq_symmetric(key, params);
            }
            assert(sp_ptx_has(self.ptx@, params)) by {
                assert(mos::sp_mos_params_eq(
                    (self.ptx@[self.ptx@.len() - 1]).0,
                    params,
                ));
            }
        }
        Ok(t2)
    }
}

/// Structural equality of group specifications is symmetric.
proof fn lemma_mos_eq_symmetric(a: MosParams, b: MosParams)
    requires
        mos::sp_mos_params_eq(a, b),
    ensures
        mos::sp_mos_params_eq(b, a),
{
    assert forall|j: int|
        0 <= j < b.devices@.len() implies mos::sp_device_eq(
        #[trigger] b.devices@[j],
        a.devices@[j],
    ) by {
        assert(mos::sp_device_eq(a.devices@[j], b.devices@[j]));
    }
}

/// Nearest-multiple rounding as used for grid quantization: `m` is the
/// largest multiple of `b` that truncating division reaches from `a`, and
/// the result is whichever of `m`, `m + b` lies closer to `a` (ties go up).
/// For negative `a` this rounds up to the next multiple.
pub open spec fn sp_round(a: int, b: int) -> int
    recommends
        b >= 1,
{
    let m = if a >= 0 {
        b * (a / b)
    } else {
        -(b * ((-a) / b))
    };
    if a - m < m + b - a {
        m
    } else {
        m + b
    }
}

/// Rounds `a` to a multiple of the positive grid quantum `b`; see
/// [`sp_round`] for the exact choice.
pub fn round(a: Int, b: Int) -> (r: Int)
    requires
        1 <= b <= config::MAX_RULE,
        -geometry::GEOM_LIMIT <= a <= geometry::GEOM_LIMIT,
    ensures
        r == sp_round(a as int, b as int),
        r as int % (b as int) == 0,
        a - b <= r <= a + 2 * b,
        a >= 0 ==> 2 * (r - a) <= b && 2 * (a - r) <= b,
{
    let m: i64;
    if a >= 0 {
        proof {
            vstd::arithmetic::div_mod::lemma_fundamental_div_mod(a as int, b as int);
            vstd::arithmetic::div_mod::lemma_mod_division_less_than_divisor(a as int, b as int);
            vstd::arithmetic::mul::lemma_mul_is_commutative(a as int / b as int, b as int);
            assert(0 <= (a as int / b as int) * (b as int) <= a);
        }
        m = (a / b) * b;
        proof {
            assert(0 <= a - m < b);
        }
    } else {
        let na: i64 = -a;
        proof {
            vstd::arithmetic::div_mod::lemma_fundamental_div_mod(na as int, b as int);
            vstd::arithmetic::div_mod::lemma_mod_division_less_than_divisor(na as int, b as int);
            vstd::arithmetic::mul::lemma_mul_is_commutative(na as int / b as int, b as int);
            assert(0 <= (na as int / b as int) * (b as int) <= na);
        }
        m = -((na / b) * b);
        proof {
            assert(-b < a - m <= 0);
        }
    }
    proof {
        assert(m as int % (b as int) == 0) by {
            if a >= 0 {
                vstd::arithmetic::div_mod::lemma_mod_multiples_basic(a as int / b as int, b as int);
                vstd::arithmetic::mul::lemma_mul_is_commutative(a as int / b as int, b as int);
            } else {
                vstd::arithmetic::div_mod::lemma_mod_multiples_basic(
                    -((-a) as int / b as int),
                    b as int,
                );
                vstd::arithmetic::mul::lemma_mul_unary_negation((-a) as int / b as int, b as int);
            }
        }
        assert((m + b) as int % (b as int) == 0) by {
            vstd::arithmetic::div_mod::lemma_mod_add_multiples_vanish(m as int, b as int);
        }
    }
    let mx: i64 = m + b;
    if a - m < mx - a {
        m
    } else {
        mx
    }
}

} // verus!
