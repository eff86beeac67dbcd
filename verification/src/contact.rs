//! Contact (via) arrays: the specification key, the constructed artifact,
//! the exact geometric model it is proved to follow, and the per-technology
//! cache that guarantees at most one construction per distinct key.

use vstd::prelude::*;

use crate::cell::{Cell, CellId, Element, PortEntry, PortName};
use crate::config::{
    lemma_layer_find_bounded, lemma_rule_find_bounded, Int, LayerName, LayerRules, StackName,
    TechConfig, Uint, MAX_RULE,
};
use crate::geometry::{sp_max, sp_min, Dir, Point, Rect};
use crate::Error;

verus! {

/// Upper bound on the rows or columns of a single contact array.
pub const MAX_CONTACT_UNITS: i64 = 1023;

/// Bound on a cut-array span: `MAX_RULE * MAX_CONTACT_UNITS` twice over,
/// with margin. Every coordinate of a contact stays within this.
pub const CONTACT_COORD: i64 = 2_100_000_000;

/// Full specification of one contact array; the cache key. Two
/// specifications are equal only when all four fields match exactly.
#[derive(Debug, Clone, Copy, PartialEq, Eq, Structural, Hash)]
pub struct ContactParams {
    pub stack: StackName,
    pub rows: Uint,
    pub cols: Uint,
    /// The relaxed direction: the axis along which the array may take extra
    /// room (one-sided enclosures) first.
    pub dir: Dir,
}

/// Step-by-step builder for [`ContactParams`].
#[derive(Debug, Clone, Copy, PartialEq, Eq, Structural)]
pub struct ContactParamsBuilder {
    pub stack: Option<StackName>,
    pub rows: Option<Uint>,
    pub cols: Option<Uint>,
    pub dir: Option<Dir>,
}

impl ContactParams {
    pub fn builder() -> (b: ContactParamsBuilder)
        ensures
            b == (ContactParamsBuilder { stack: None, rows: None, cols: None, dir: None }),
    {
        ContactParamsBuilder { stack: None, rows: None, cols: None, dir: None }
    }
}

impl ContactParamsBuilder {
    pub fn stack(self, stack: StackName) -> (b: Self)
        ensures
            b == (ContactParamsBuilder { stack: Some(stack), ..self }),
    {
        ContactParamsBuilder { stack: Some(stack), ..self }
    }

    pub fn rows(self, rows: Uint) -> (b: Self)
        ensures
            b == (ContactParamsBuilder { rows: Some(rows), ..self }),
    {
        ContactParamsBuilder { rows: Some(rows), ..self }
    }

    pub fn cols(self, cols: Uint) -> (b: Self)
        ensures
            b == (ContactParamsBuilder { cols: Some(cols), ..self }),
    {
        ContactParamsBuilder { cols: Some(cols), ..self }
    }

    pub fn dir(self, dir: Dir) -> (b: Self)
        ensures
            b == (ContactParamsBuilder { dir: Some(dir), ..self }),
    {
        ContactParamsBuilder { dir: Some(dir), ..self }
    }

    /// The finished parameters; an error if any field was never set.
    pub fn build(self) -> (r: Result<ContactParams, Error>)
        ensures
            match r {
                Ok(p) => self.stack == Some(p.stack) && self.rows == Some(p.rows) && self.cols
                    == Some(p.cols) && self.dir == Some(p.dir),
                Err(e) => e == Error::IncompleteContactParams && (self.stack is None || self.rows
                    is None || self.cols is None || self.dir is None),
            },
    {
        match (self.stack, self.rows, self.cols, self.dir) {
            (Some(stack), Some(rows), Some(cols), Some(dir)) => Ok(
                ContactParams { stack, rows, cols, dir },
            ),
            _ => Err(Error::IncompleteContactParams),
        }
    }
}

/// The constructed contact artifact: its cell, its array dimensions, and the
/// bounding rectangle of each layer it draws on.
#[derive(Debug, PartialEq)]
pub struct Contact {
    pub cell: Cell,
    pub rows: Uint,
    pub cols: Uint,
    pub bboxes: Vec<(LayerName, Rect)>,
}

/// Lookup in the per-layer bounding-box list; the entry added last wins.
pub open spec fn sp_bbox_find(s: Seq<(LayerName, Rect)>, layer: LayerName) -> Option<Rect>
    decreases s.len(),
{
    if s.len() == 0 {
        None
    } else if s.last().0 == layer {
        Some(s.last().1)
    } else {
        sp_bbox_find(s.drop_last(), layer)
    }
}

impl Contact {
    /// The bounding rectangle of `layer` within this contact, if the contact
    /// draws on that layer.
    pub fn bbox(&self, layer: LayerName) -> (r: Option<Rect>)
        ensures
            r == sp_bbox_find(self.bboxes@, layer),
    {
        let n: usize = self.bboxes.len();
        let mut i: usize = n;
        proof {
            assert(self.bboxes@.take(n as int) =~= self.bboxes@);
        }
        while i > 0
            invariant
                i <= n,
                n == self.bboxes@.len(),
                sp_bbox_find(self.bboxes@, layer) == sp_bbox_find(self.bboxes@.take(i as int), layer),
            decreases i,
        {
            let e = self.bboxes[i - 1];
            assert(self.bboxes@.take(i as int).last() == self.bboxes@[i as int - 1]);
            if e.0 == layer {
                return Some(e.1);
            }
            assert(self.bboxes@.take(i as int).drop_last() =~= self.bboxes@.take(i as int - 1));
            i -= 1;
        }
        assert(self.bboxes@.take(0) =~= Seq::<(LayerName, Rect)>::empty());
        None
    }
}

/// The two artifacts agree on every observable part.
pub open spec fn contact_equiv(a: Contact, b: Contact) -> bool {
    &&& a.rows == b.rows
    &&& a.cols == b.cols
    &&& a.bboxes@ == b.bboxes@
    &&& a.cell.id == b.cell.id
    &&& a.cell.elems@ == b.cell.elems@
    &&& a.cell.insts@ == b.cell.insts@
    &&& a.cell.ports@ == b.cell.ports@
    &&& a.cell.outline == b.cell.outline
}

impl Clone for Contact {
    /// A structurally equal copy of the artifact.
    fn clone(&self) -> (r: Self)
        ensures
            contact_equiv(r, *self),
    {
        Contact {
            cell: self.cell.clone(),
            rows: self.rows,
            cols: self.cols,
            bboxes: crate::cell::copy_vec(&self.bboxes),
        }
    }
}

// ---------------------------------------------------------------------------
// The geometric model.
// ---------------------------------------------------------------------------

/// Span of `n` cut squares of width `ctw` at spacing `cts`.
pub open spec fn sp_cut_span(ctw: int, cts: int, n: int) -> int {
    ctw * n + cts * (n - 1)
}

/// Deficit of the enclosure-grown span `s + 2e` against the layer's own
/// minimum width `w`; zero when the enclosure already satisfies it.
pub open spec fn sp_deficit(s: int, e: int, w: int) -> int {
    if w > s + 2 * e {
        w - (s + 2 * e)
    } else {
        0
    }
}

/// The share of the minimum-width deficit applied to the low edge: half of
/// the deficit, rounded down to a multiple of the grid quantum `g` so that
/// both new edges land on the manufacturing grid; the high edge takes the
/// rest.
pub open spec fn sp_lo_share(s: int, e: int, w: int, g: int) -> int {
    g * ((sp_deficit(s, e, w) / 2) / g)
}

/// Low edge of a stack layer's box along one axis. The cut array spans
/// `[0, s]`; the layer box is the cut box grown by the enclosure `e`, then
/// widened up to the layer's own minimum width `w` (the deficit split about
/// evenly, quantized to the grid `g`), and, along the relaxed axis, pulled
/// out at least to the one-sided enclosure `ose`.
pub open spec fn sp_axis_lo(s: int, e: int, w: int, ose: int, g: int, relaxed: bool) -> int {
    let lo0 = -e - sp_lo_share(s, e, w, g);
    if relaxed {
        sp_min(lo0, -ose)
    } else {
        lo0
    }
}

/// High edge of a stack layer's box along one axis; see [`sp_axis_lo`].
/// Along the relaxed axis the box is extended out to at least `s + ose`;
/// extension never moves an edge inward.
pub open spec fn sp_axis_hi(s: int, e: int, w: int, ose: int, g: int, relaxed: bool) -> int {
    let hi0 = s + e + (sp_deficit(s, e, w) - sp_lo_share(s, e, w, g));
    if relaxed {
        sp_max(hi0, s + ose)
    } else {
        hi0
    }
}

/// A box as four coordinates `(x0, y0, x1, y1)`.
pub open spec fn rect_eq4(r: Rect, b: (int, int, int, int)) -> bool {
    r.p0.x == b.0 && r.p0.y == b.1 && r.p1.x == b.2 && r.p1.y == b.3
}

pub open spec fn sp_expand4(b: (int, int, int, int), d: int) -> (int, int, int, int) {
    (b.0 - d, b.1 - d, b.2 + d, b.3 + d)
}

pub open spec fn sp_union4(a: (int, int, int, int), b: (int, int, int, int)) -> (
    int,
    int,
    int,
    int,
) {
    (sp_min(a.0, b.0), sp_min(a.1, b.1), sp_max(a.2, b.2), sp_max(a.3, b.3))
}

/// The extra rule layer a special stack needs: the implant source layer for
/// diffusion/tap contacts, the cut-cap rule layer for gate contacts.
pub open spec fn sp_special_rule_layer(s: StackName) -> Option<LayerName> {
    match s {
        StackName::Ndiffc => Some(LayerName::Diff),
        StackName::Ntap => Some(LayerName::Ntap),
        StackName::Ptap => Some(LayerName::Ptap),
        StackName::Pdiffc => Some(LayerName::Diff),
        StackName::Polyc => Some(LayerName::Licon),
        _ => None,
    }
}

/// How many extra drawn elements a stack adds beyond cuts, bottom and top.
pub open spec fn sp_special_count(s: StackName) -> int {
    match s {
        StackName::Ndiffc => 1,
        StackName::Ntap => 1,
        StackName::Ptap => 1,
        StackName::Pdiffc => 2,
        StackName::Polyc => 1,
        _ => 0,
    }
}

/// The configuration-level checks of a contact build, in the order the
/// builder performs them. `None` means the stack resolves to three layers
/// whose rules (and any special rule layer) the table defines.
pub open spec fn sp_contact_cfg_err(cfg: TechConfig, stack: StackName) -> Option<Error> {
    match cfg.sp_stack(stack) {
        Option::None => Some(Error::UnknownStack(stack)),
        Option::Some(st) => if st.layers@.len() != 3 {
            Some(Error::BadStackArity(stack))
        } else if cfg.sp_layer(st.layers@[1]) is None {
            Some(Error::UnknownLayer(st.layers@[1]))
        } else if cfg.sp_layer(st.layers@[0]) is None {
            Some(Error::UnknownLayer(st.layers@[0]))
        } else if cfg.sp_layer(st.layers@[2]) is None {
            Some(Error::UnknownLayer(st.layers@[2]))
        } else {
            match sp_special_rule_layer(stack) {
                Option::Some(sl) => if cfg.sp_layer(sl) is None {
                    Some(Error::UnknownLayer(sl))
                } else {
                    Option::<Error>::None
                },
                Option::None => Option::<Error>::None,
            }
        },
    }
}

/// All checks of a contact build: array dimensions first, then the
/// configuration checks.
pub open spec fn sp_contact_err(cfg: TechConfig, p: ContactParams) -> Option<Error> {
    if !(1 <= p.rows <= MAX_CONTACT_UNITS && 1 <= p.cols <= MAX_CONTACT_UNITS) {
        Some(Error::InvalidContactDims)
    } else {
        sp_contact_cfg_err(cfg, p.stack)
    }
}

pub open spec fn sp_contact_ok(cfg: TechConfig, p: ContactParams) -> bool {
    sp_contact_err(cfg, p) is None
}

/// Shorthands for the resolved parts of a valid specification.
pub open spec fn sp_stack_of(cfg: TechConfig, p: ContactParams) -> crate::config::Stack {
    cfg.sp_stack(p.stack)->Some_0
}

pub open spec fn sp_bot_layer(cfg: TechConfig, p: ContactParams) -> LayerName {
    sp_stack_of(cfg, p).layers@[0]
}

pub open spec fn sp_cut_layer(cfg: TechConfig, p: ContactParams) -> LayerName {
    sp_stack_of(cfg, p).layers@[1]
}

pub open spec fn sp_top_layer(cfg: TechConfig, p: ContactParams) -> LayerName {
    sp_stack_of(cfg, p).layers@[2]
}

pub open spec fn sp_cut_rules(cfg: TechConfig, p: ContactParams) -> LayerRules {
    cfg.sp_layer(sp_cut_layer(cfg, p))->Some_0
}

/// Width of the cut array of `p` (span along x).
pub open spec fn sp_cut_w(cfg: TechConfig, p: ContactParams) -> int {
    sp_cut_span(sp_cut_rules(cfg, p).width as int, sp_cut_rules(cfg, p).space as int, p.cols as int)
}

/// Height of the cut array of `p` (span along y).
pub open spec fn sp_cut_h(cfg: TechConfig, p: ContactParams) -> int {
    sp_cut_span(sp_cut_rules(cfg, p).width as int, sp_cut_rules(cfg, p).space as int, p.rows as int)
}

pub open spec fn sp_cut_box(cfg: TechConfig, p: ContactParams) -> (int, int, int, int) {
    (0int, 0int, sp_cut_w(cfg, p), sp_cut_h(cfg, p))
}

/// The bounding box of stack layer `lay` (bottom or top) of contact `p`.
pub open spec fn sp_layer_box(cfg: TechConfig, p: ContactParams, lay: LayerName) -> (
    int,
    int,
    int,
    int,
) {
    let cr = sp_cut_rules(cfg, p);
    let lr = cfg.sp_layer(lay)->Some_0;
    let e = cr.sp_enclosure(lay);
    let w = lr.width as int;
    let ose = cr.sp_one_side_enclosure(lay);
    let g = cfg.grid as int;
    (
        sp_axis_lo(sp_cut_w(cfg, p), e, w, ose, g, p.dir == Dir::Horiz),
        sp_axis_lo(sp_cut_h(cfg, p), e, w, ose, g, p.dir == Dir::Vert),
        sp_axis_hi(sp_cut_w(cfg, p), e, w, ose, g, p.dir == Dir::Horiz),
        sp_axis_hi(sp_cut_h(cfg, p), e, w, ose, g, p.dir == Dir::Vert),
    )
}

/// A `Polyc` contact's cut-cap blockage box: the cut box grown by the
/// cut-cap enclosure rule stored on the `Licon` layer.
pub open spec fn sp_npc_box(cfg: TechConfig, p: ContactParams) -> (int, int, int, int) {
    sp_expand4(sp_cut_box(cfg, p), (cfg.sp_layer(LayerName::Licon)->Some_0).sp_enclosure(LayerName::Npc))
}

/// The implant/well expansion distance drawn from the special rule layer.
pub open spec fn sp_special_dist(cfg: TechConfig, s: StackName, over: LayerName) -> int {
    match sp_special_rule_layer(s) {
        Option::Some(sl) => (cfg.sp_layer(sl)->Some_0).sp_enclosure(over),
        Option::None => 0,
    }
}

/// The exact shape of a built contact artifact: every field of `c` is a
/// function of the design rules and the specification alone.
pub open spec fn contact_built(cfg: TechConfig, p: ContactParams, c: Contact) -> bool {
    let bot = sp_bot_layer(cfg, p);
    let cut = sp_cut_layer(cfg, p);
    let top = sp_top_layer(cfg, p);
    let cr = sp_cut_rules(cfg, p);
    let pitch = cr.width + cr.space;
    let botbox = sp_layer_box(cfg, p, bot);
    let topbox = sp_layer_box(cfg, p, top);
    let rc = p.rows * p.cols;
    let elems = c.cell.elems@;
    &&& c.rows == p.rows
    &&& c.cols == p.cols
    &&& c.bboxes@.len() == (if p.stack == StackName::Polyc { 4int } else { 3int })
    &&& c.bboxes@[0].0 == cut && rect_eq4(c.bboxes@[0].1, sp_cut_box(cfg, p))
    &&& c.bboxes@[1].0 == bot && rect_eq4(c.bboxes@[1].1, botbox)
    &&& c.bboxes@[2].0 == top && rect_eq4(c.bboxes@[2].1, topbox)
    &&& (p.stack == StackName::Polyc ==> c.bboxes@[3].0 == LayerName::Npc && rect_eq4(
        c.bboxes@[3].1,
        sp_npc_box(cfg, p),
    ))
    &&& c.cell.id == CellId::Contact(p)
    &&& c.cell.insts@.len() == 0
    &&& c.cell.ports@.len() == 2
    &&& c.cell.ports@[0].name == PortName::X && c.cell.ports@[0].layer == bot && rect_eq4(
        c.cell.ports@[0].rect,
        botbox,
    )
    &&& c.cell.ports@[1].name == PortName::X && c.cell.ports@[1].layer == top && rect_eq4(
        c.cell.ports@[1].rect,
        topbox,
    )
    &&& match c.cell.outline {
        Option::Some(o) => o.layer == bot && rect_eq4(o.rect, sp_union4(botbox, topbox)),
        Option::None => false,
    }
    &&& elems.len() == rc + 2 + sp_special_count(p.stack)
    &&& forall|k: int|
        0 <= k < rc ==> {
            let i = k / (p.cols as int);
            let j = k % (p.cols as int);
            (#[trigger] elems[k]).layer == cut && elems[k].rect.p0.x == j * pitch
                && elems[k].rect.p0.y == i * pitch && elems[k].rect.p1.x == j * pitch + cr.width
                && elems[k].rect.p1.y == i * pitch + cr.width
        }
    &&& elems[rc as int].layer == bot && rect_eq4(elems[rc as int].rect, botbox)
    &&& elems[rc + 1].layer == top && rect_eq4(elems[rc + 1].rect, topbox)
    &&& match p.stack {
        StackName::Ndiffc => elems[rc + 2].layer == LayerName::Nsdm && rect_eq4(
            elems[rc + 2].rect,
            sp_expand4(topbox, sp_special_dist(cfg, p.stack, LayerName::Nsdm)),
        ),
        StackName::Ntap => elems[rc + 2].layer == LayerName::Nsdm && rect_eq4(
            elems[rc + 2].rect,
            sp_expand4(topbox, sp_special_dist(cfg, p.stack, LayerName::Nsdm)),
        ),
        StackName::Ptap => elems[rc + 2].layer == LayerName::Psdm && rect_eq4(
            elems[rc + 2].rect,
            sp_expand4(topbox, sp_special_dist(cfg, p.stack, LayerName::Psdm)),
        ),
        StackName::Pdiffc => elems[rc + 2].layer == LayerName::Psdm && rect_eq4(
            elems[rc + 2].rect,
            sp_expand4(topbox, sp_special_dist(cfg, p.stack, LayerName::Psdm)),
        ) && elems[rc + 3].layer == LayerName::Nwell && rect_eq4(
            elems[rc + 3].rect,
            sp_expand4(topbox, sp_special_dist(cfg, p.stack, LayerName::Nwell)),
        ),
        StackName::Polyc => elems[rc + 2].layer == LayerName::Npc && rect_eq4(
            elems[rc + 2].rect,
            sp_npc_box(cfg, p),
        ),
        _ => true,
    }
}

/// Two artifacts built to the same model are observably equal.
pub proof fn lemma_contact_built_equiv(cfg: TechConfig, p: ContactParams, a: Contact, b: Contact)
    requires
        contact_built(cfg, p, a),
        contact_equiv(a, b),
    ensures
        contact_built(cfg, p, b),
{
}

/// Determinism of construction: any two artifacts built from equal
/// specifications under the same rules agree on every observable part —
/// dimensions, per-layer boxes, drawn elements, ports and outline.
pub proof fn lemma_contact_build_deterministic(
    cfg: TechConfig,
    p: ContactParams,
    a: Contact,
    b: Contact,
)
    requires
        sp_contact_ok(cfg, p),
        contact_built(cfg, p, a),
        contact_built(cfg, p, b),
    ensures
        contact_equiv(a, b),
{
    assert(a.bboxes@ =~= b.bboxes@) by {
        assert forall|i: int| 0 <= i < a.bboxes@.len() implies a.bboxes@[i] == b.bboxes@[i] by {
            assert(a.bboxes@[i].1 == b.bboxes@[i].1);
        }
    }
    assert(a.cell.elems@ =~= b.cell.elems@) by {
        assert forall|k: int|
            0 <= k < a.cell.elems@.len() implies a.cell.elems@[k] == b.cell.elems@[k] by {
            assert(a.cell.elems@[k].rect == b.cell.elems@[k].rect);
        }
    }
    assert(a.cell.insts@ =~= b.cell.insts@);
    assert(a.cell.ports@ =~= b.cell.ports@) by {
        assert(a.cell.ports@[0].rect == b.cell.ports@[0].rect);
        assert(a.cell.ports@[1].rect == b.cell.ports@[1].rect);
    }
    assert(a.cell.outline == b.cell.outline) by {
        assert(a.cell.outline->Some_0.rect == b.cell.outline->Some_0.rect);
    }
}

/// Cache coherence: a well-formed context's cache holds, for any key it
/// contains, exactly the artifact the builder prescribes for that key — and
/// it holds that key only once.
pub proof fn lemma_cache_coherent(pdk: crate::Pdk, p: ContactParams, i: int, j: int)
    requires
        pdk.wf(),
        0 <= i < pdk.contacts@.len(),
        0 <= j < pdk.contacts@.len(),
        pdk.contacts@[i].0 == p,
        pdk.contacts@[j].0 == p,
    ensures
        i == j,
        contact_built(pdk.config, p, pdk.contacts@[i].1),
{
    if i != j {
        assert((pdk.contacts@[if i < j {
            i
        } else {
            j
        }]).0 != (pdk.contacts@[if i < j {
            j
        } else {
            i
        }]).0);
    }
}

// ---------------------------------------------------------------------------
// Bounds and monotonicity of the model.
// ---------------------------------------------------------------------------

/// A cut-array span is at least one cut wide and bounded by
/// [`CONTACT_COORD`].
pub proof fn lemma_cut_span_bounds(ctw: int, cts: int, n: int)
    requires
        0 <= ctw <= MAX_RULE,
        0 <= cts <= MAX_RULE,
        1 <= n <= MAX_CONTACT_UNITS,
    ensures
        ctw <= sp_cut_span(ctw, cts, n) <= CONTACT_COORD,
        0 <= sp_cut_span(ctw, cts, n),
{
    assert(ctw * n <= 1_000_000 * 1023) by (nonlinear_arith)
        requires
            0 <= ctw <= 1_000_000,
            1 <= n <= 1023,
    ;
    assert(cts * (n - 1) <= 1_000_000 * 1022) by (nonlinear_arith)
        requires
            0 <= cts <= 1_000_000,
            1 <= n <= 1023,
    ;
    assert(ctw * n >= ctw) by (nonlinear_arith)
        requires
            0 <= ctw,
            1 <= n,
    ;
    assert(cts * (n - 1) >= 0) by (nonlinear_arith)
        requires
            0 <= cts,
            1 <= n,
    ;
}

/// Cut-array spans never shrink as the count grows.
pub proof fn lemma_cut_span_monotone(ctw: int, cts: int, n1: int, n2: int)
    requires
        0 <= ctw,
        0 <= cts,
        1 <= n1 <= n2,
    ensures
        sp_cut_span(ctw, cts, n1) <= sp_cut_span(ctw, cts, n2),
{
    assert(ctw * n1 + cts * (n1 - 1) <= ctw * n2 + cts * (n2 - 1)) by (nonlinear_arith)
        requires
            0 <= ctw,
            0 <= cts,
            1 <= n1 <= n2,
    ;
}

/// The low share of the deficit lies between zero and half the deficit, is
/// a multiple of the grid, and leaves the high edge at least half.
pub proof fn lemma_lo_share_bounds(s: int, e: int, w: int, g: int)
    requires
        1 <= g,
    ensures
        0 <= sp_deficit(s, e, w),
        0 <= sp_lo_share(s, e, w, g) <= sp_deficit(s, e, w) / 2,
        sp_deficit(s, e, w) / 2 <= sp_deficit(s, e, w) - sp_lo_share(s, e, w, g) <= sp_deficit(
            s,
            e,
            w,
        ),
        sp_lo_share(s, e, w, g) % g == 0,
{
    let d = sp_deficit(s, e, w);
    let h = d / 2;
    vstd::arithmetic::div_mod::lemma_fundamental_div_mod(d, 2);
    vstd::arithmetic::div_mod::lemma_mod_division_less_than_divisor(d, 2);
    vstd::arithmetic::div_mod::lemma_fundamental_div_mod(h, g);
    vstd::arithmetic::div_mod::lemma_mod_division_less_than_divisor(h, g);
    vstd::arithmetic::div_mod::lemma_mod_multiples_basic(h / g, g);
    vstd::arithmetic::mul::lemma_mul_is_commutative(h / g, g);
}

/// A larger cut span has a smaller deficit and a smaller low share.
pub proof fn lemma_lo_share_antimonotone(s1: int, s2: int, e: int, w: int, g: int)
    requires
        1 <= g,
        s1 <= s2,
    ensures
        sp_deficit(s2, e, w) <= sp_deficit(s1, e, w),
        sp_lo_share(s2, e, w, g) <= sp_lo_share(s1, e, w, g),
{
    let d1 = sp_deficit(s1, e, w);
    let d2 = sp_deficit(s2, e, w);
    vstd::arithmetic::div_mod::lemma_div_is_ordered(d2, d1, 2);
    vstd::arithmetic::div_mod::lemma_div_is_ordered(d2 / 2, d1 / 2, g);
    vstd::arithmetic::mul::lemma_mul_inequality((d2 / 2) / g, (d1 / 2) / g, g);
    vstd::arithmetic::mul::lemma_mul_is_commutative((d2 / 2) / g, g);
    vstd::arithmetic::mul::lemma_mul_is_commutative((d1 / 2) / g, g);
}

/// The layer box along one axis contains the cut span and stays within
/// fixed distance of it.
pub proof fn lemma_axis_bounds(s: int, e: int, w: int, ose: int, g: int, relaxed: bool)
    requires
        0 <= s <= CONTACT_COORD,
        0 <= e <= MAX_RULE,
        0 <= w <= MAX_RULE,
        0 <= ose <= MAX_RULE,
        1 <= g <= MAX_RULE,
    ensures
        -2 * MAX_RULE <= sp_axis_lo(s, e, w, ose, g, relaxed) <= 0,
        0 <= sp_axis_hi(s, e, w, ose, g, relaxed) <= s + 2 * MAX_RULE,
        sp_axis_lo(s, e, w, ose, g, relaxed) <= sp_axis_hi(s, e, w, ose, g, relaxed),
{
    lemma_lo_share_bounds(s, e, w, g);
    assert(sp_deficit(s, e, w) <= w);
    vstd::arithmetic::div_mod::lemma_fundamental_div_mod(sp_deficit(s, e, w), 2);
    vstd::arithmetic::div_mod::lemma_mod_division_less_than_divisor(sp_deficit(s, e, w), 2);
}

/// Along either axis, the span of a stack layer's box never shrinks as the
/// cut-array span grows. This is the monotonicity that the sizing searches
/// rest on.
pub proof fn lemma_axis_span_monotone(
    s1: int,
    s2: int,
    e: int,
    w: int,
    ose: int,
    g: int,
    relaxed: bool,
)
    requires
        0 <= s1 <= s2 <= CONTACT_COORD,
        0 <= e <= MAX_RULE,
        0 <= w <= MAX_RULE,
        0 <= ose <= MAX_RULE,
        1 <= g <= MAX_RULE,
    ensures
        sp_axis_hi(s1, e, w, ose, g, relaxed) - sp_axis_lo(s1, e, w, ose, g, relaxed) <= sp_axis_hi(
            s2,
            e,
            w,
            ose,
            g,
            relaxed,
        ) - sp_axis_lo(s2, e, w, ose, g, relaxed),
{
    lemma_lo_share_bounds(s1, e, w, g);
    lemma_lo_share_bounds(s2, e, w, g);
    lemma_lo_share_antimonotone(s1, s2, e, w, g);
    let d1 = sp_deficit(s1, e, w);
    let d2 = sp_deficit(s2, e, w);
    let q1 = sp_lo_share(s1, e, w, g);
    let q2 = sp_lo_share(s2, e, w, g);
    vstd::arithmetic::div_mod::lemma_fundamental_div_mod(d1, 2);
    vstd::arithmetic::div_mod::lemma_mod_division_less_than_divisor(d1, 2);
    vstd::arithmetic::div_mod::lemma_fundamental_div_mod(d2, 2);
    vstd::arithmetic::div_mod::lemma_mod_division_less_than_divisor(d2, 2);
    assert(d1 - d2 <= s2 - s1);
    // The high edges keep pace with anything the low share gives back.
    assert((s2 + e + (d2 - q2)) - (s1 + e + (d1 - q1)) >= q1 - q2);
    // Each side's deficit share never exceeds what the other side keeps.
    assert(d1 - q1 >= d1 / 2 >= q1);
    assert(d2 - q2 >= d2 / 2 >= q2);
}

// ---------------------------------------------------------------------------
// The grid invariant: every recorded coordinate is a multiple of the grid
// quantum whenever the rule table's distances are.
// ---------------------------------------------------------------------------

/// All four coordinates of `r` are multiples of the grid quantum `g`.
pub open spec fn rect_on_grid(r: Rect, g: int) -> bool {
    &&& r.p0.x as int % g == 0
    &&& r.p0.y as int % g == 0
    &&& r.p1.x as int % g == 0
    &&& r.p1.y as int % g == 0
}

/// Every rectangle the contact records or draws — per-layer bounding boxes,
/// drawn elements, ports and the outline — sits on the grid.
pub open spec fn contact_on_grid(c: Contact, g: int) -> bool {
    &&& forall|i: int| 0 <= i < c.bboxes@.len() ==> rect_on_grid((#[trigger] c.bboxes@[i]).1, g)
    &&& forall|k: int|
        0 <= k < c.cell.elems@.len() ==> rect_on_grid((#[trigger] c.cell.elems@[k]).rect, g)
    &&& forall|k: int|
        0 <= k < c.cell.ports@.len() ==> rect_on_grid((#[trigger] c.cell.ports@[k]).rect, g)
    &&& match c.cell.outline {
        Option::Some(o) => rect_on_grid(o.rect, g),
        Option::None => true,
    }
}

/// Multiples of the grid are closed under sums, differences and negation.
proof fn lemma_grid_closed(a: int, b: int, g: int)
    requires
        1 <= g,
        a % g == 0,
        b % g == 0,
    ensures
        (a + b) % g == 0,
        (a - b) % g == 0,
        (-a) % g == 0,
{
    vstd::arithmetic::div_mod::lemma_add_mod_noop(a, b, g);
    vstd::arithmetic::div_mod::lemma_sub_mod_noop(a, b, g);
    vstd::arithmetic::div_mod::lemma_sub_mod_noop(0, a, g);
    vstd::arithmetic::div_mod::lemma_small_mod(0nat, g as nat);
}

/// Multiples of the grid are closed under integer multiples.
proof fn lemma_grid_mul(k: int, a: int, g: int)
    requires
        1 <= g,
        a % g == 0,
    ensures
        (k * a) % g == 0,
        (a * k) % g == 0,
{
    vstd::arithmetic::div_mod::lemma_mul_mod_noop_right(k, a, g);
    assert(k * (a % g) == 0) by (nonlinear_arith)
        requires
            a % g == 0,
    ;
    vstd::arithmetic::div_mod::lemma_small_mod(0nat, g as nat);
    vstd::arithmetic::mul::lemma_mul_is_commutative(k, a);
}

/// Both axis edges are multiples of the grid when the rule distances are.
proof fn lemma_axis_on_grid(s: int, e: int, w: int, ose: int, g: int, relaxed: bool)
    requires
        1 <= g,
        s % g == 0,
        e % g == 0,
        w % g == 0,
        ose % g == 0,
    ensures
        sp_axis_lo(s, e, w, ose, g, relaxed) % g == 0,
        sp_axis_hi(s, e, w, ose, g, relaxed) % g == 0,
{
    lemma_lo_share_bounds(s, e, w, g);
    let d = sp_deficit(s, e, w);
    let q = sp_lo_share(s, e, w, g);
    lemma_grid_closed(e, e, g);
    lemma_grid_closed(s, e + e, g);
    lemma_grid_closed(w, s + e + e, g);
    vstd::arithmetic::div_mod::lemma_small_mod(0nat, g as nat);
    assert(d % g == 0);
    lemma_grid_closed(e, q, g);
    lemma_grid_closed(0, e + q, g);
    assert((-e - q) % g == 0);
    lemma_grid_closed(d, q, g);
    lemma_grid_closed(s + e + e, e, g);
    lemma_grid_closed(s + e, d - q, g);
    assert((s + e + (d - q)) % g == 0);
    lemma_grid_closed(s, ose, g);
    lemma_grid_closed(0, ose, g);
}

/// The grid invariant of a built contact: when every distance of the rule
/// table is a multiple of its grid quantum, so is every coordinate the
/// artifact records or draws.
pub proof fn lemma_contact_on_grid(cfg: TechConfig, p: ContactParams, c: Contact)
    requires
        cfg.wf(),
        cfg.sp_grid_aligned(),
        sp_contact_ok(cfg, p),
        contact_built(cfg, p, c),
    ensures
        contact_on_grid(c, cfg.grid as int),
{
    let g = cfg.grid as int;
    let bot = sp_bot_layer(cfg, p);
    let cut = sp_cut_layer(cfg, p);
    let top = sp_top_layer(cfg, p);
    let cr = sp_cut_rules(cfg, p);
    crate::config::lemma_layer_find_aligned(cfg.layers@, bot, g);
    crate::config::lemma_layer_find_aligned(cfg.layers@, cut, g);
    crate::config::lemma_layer_find_aligned(cfg.layers@, top, g);
    crate::config::lemma_rule_find_aligned(cr.enclosures@, bot, g);
    crate::config::lemma_rule_find_aligned(cr.enclosures@, top, g);
    crate::config::lemma_rule_find_aligned(cr.one_side_enclosures@, bot, g);
    crate::config::lemma_rule_find_aligned(cr.one_side_enclosures@, top, g);
    vstd::arithmetic::div_mod::lemma_small_mod(0nat, g as nat);
    let ctw = cr.width as int;
    let cts = cr.space as int;
    lemma_grid_mul(p.cols as int, ctw, g);
    lemma_grid_mul(p.cols as int - 1, cts, g);
    lemma_grid_mul(p.rows as int, ctw, g);
    lemma_grid_mul(p.rows as int - 1, cts, g);
    lemma_grid_closed(ctw * (p.cols as int), cts * (p.cols as int - 1), g);
    lemma_grid_closed(ctw * (p.rows as int), cts * (p.rows as int - 1), g);
    let cw = sp_cut_w(cfg, p);
    let ch = sp_cut_h(cfg, p);
    assert(cw % g == 0 && ch % g == 0);
    lemma_axis_on_grid(
        cw,
        cr.sp_enclosure(bot),
        (cfg.sp_layer(bot)->Some_0).width as int,
        cr.sp_one_side_enclosure(bot),
        g,
        p.dir == Dir::Horiz,
    );
    lemma_axis_on_grid(
        ch,
        cr.sp_enclosure(bot),
        (cfg.sp_layer(bot)->Some_0).width as int,
        cr.sp_one_side_enclosure(bot),
        g,
        p.dir == Dir::Vert,
    );
    lemma_axis_on_grid(
        cw,
        cr.sp_enclosure(top),
        (cfg.sp_layer(top)->Some_0).width as int,
        cr.sp_one_side_enclosure(top),
        g,
        p.dir == Dir::Horiz,
    );
    lemma_axis_on_grid(
        ch,
        cr.sp_enclosure(top),
        (cfg.sp_layer(top)->Some_0).width as int,
        cr.sp_one_side_enclosure(top),
        g,
        p.dir == Dir::Vert,
    );
    let botbox = sp_layer_box(cfg, p, bot);
    let topbox = sp_layer_box(cfg, p, top);
    // Special extras: the implant/well/cap expansions are rule distances.
    match sp_special_rule_layer(p.stack) {
        Option::Some(sl) => {
            crate::config::lemma_layer_find_aligned(cfg.layers@, sl, g);
            crate::config::lemma_rule_find_aligned(
                (cfg.sp_layer(sl)->Some_0).enclosures@,
                LayerName::Nsdm,
                g,
            );
            crate::config::lemma_rule_find_aligned(
                (cfg.sp_layer(sl)->Some_0).enclosures@,
                LayerName::Psdm,
                g,
            );
            crate::config::lemma_rule_find_aligned(
                (cfg.sp_layer(sl)->Some_0).enclosures@,
                LayerName::Nwell,
                g,
            );
            crate::config::lemma_rule_find_aligned(
                (cfg.sp_layer(sl)->Some_0).enclosures@,
                LayerName::Npc,
                g,
            );
        },
        Option::None => {},
    }
    assert forall|x: int, dd: int| #[trigger] ((x + dd) % g) == (x + dd) % g && x % g == 0 && dd
        % g == 0 implies (x + dd) % g == 0 by {
        lemma_grid_closed(x, dd, g);
    }
    assert forall|x: int, dd: int| #[trigger] ((x - dd) % g) == (x - dd) % g && x % g == 0 && dd
        % g == 0 implies (x - dd) % g == 0 by {
        lemma_grid_closed(x, dd, g);
    }
    let rc = p.rows * p.cols;
    let pitch = ctw + cts;
    assert forall|k: int| 0 <= k < c.cell.elems@.len() implies rect_on_grid(
        (#[trigger] c.cell.elems@[k]).rect,
        g,
    ) by {
        if k < rc {
            let i = k / (p.cols as int);
            let j = k % (p.cols as int);
            lemma_grid_mul(j, pitch, g);
            lemma_grid_mul(i, pitch, g);
            lemma_grid_closed(j * pitch, ctw, g);
            lemma_grid_closed(i * pitch, ctw, g);
        }
    }
}
pub open spec fn sp_wspan(cfg: TechConfig, p: ContactParams, lay: LayerName) -> int {
    let cr = sp_cut_rules(cfg, p);
    let s = sp_cut_w(cfg, p);
    if p.stack == StackName::Polyc && lay == LayerName::Npc {
        s + 2 * (cfg.sp_layer(LayerName::Licon)->Some_0).sp_enclosure(LayerName::Npc)
    } else if lay == sp_top_layer(cfg, p) || lay == sp_bot_layer(cfg, p) {
        let lr = cfg.sp_layer(lay)->Some_0;
        sp_axis_hi(s, cr.sp_enclosure(lay), lr.width as int, cr.sp_one_side_enclosure(lay), cfg.grid as int, p.dir == Dir::Horiz)
            - sp_axis_lo(s, cr.sp_enclosure(lay), lr.width as int, cr.sp_one_side_enclosure(lay), cfg.grid as int, p.dir == Dir::Horiz)
    } else {
        s
    }
}

/// The height of the box recorded for `lay`, as a function of the row count
/// alone.
pub open spec fn sp_hspan(cfg: TechConfig, p: ContactParams, lay: LayerName) -> int {
    let cr = sp_cut_rules(cfg, p);
    let s = sp_cut_h(cfg, p);
    if p.stack == StackName::Polyc && lay == LayerName::Npc {
        s + 2 * (cfg.sp_layer(LayerName::Licon)->Some_0).sp_enclosure(LayerName::Npc)
    } else if lay == sp_top_layer(cfg, p) || lay == sp_bot_layer(cfg, p) {
        let lr = cfg.sp_layer(lay)->Some_0;
        sp_axis_hi(s, cr.sp_enclosure(lay), lr.width as int, cr.sp_one_side_enclosure(lay), cfg.grid as int, p.dir == Dir::Vert)
            - sp_axis_lo(s, cr.sp_enclosure(lay), lr.width as int, cr.sp_one_side_enclosure(lay), cfg.grid as int, p.dir == Dir::Vert)
    } else {
        s
    }
}

/// The model box recorded for `lay` in a contact on `p`, mirroring the
/// last-wins lookup of [`sp_bbox_find`] over the recorded list.
pub open spec fn sp_model_bbox(cfg: TechConfig, p: ContactParams, lay: LayerName) -> Option<
    (int, int, int, int),
> {
    if p.stack == StackName::Polyc && lay == LayerName::Npc {
        Some(sp_npc_box(cfg, p))
    } else if lay == sp_top_layer(cfg, p) {
        Some(sp_layer_box(cfg, p, sp_top_layer(cfg, p)))
    } else if lay == sp_bot_layer(cfg, p) {
        Some(sp_layer_box(cfg, p, sp_bot_layer(cfg, p)))
    } else if lay == sp_cut_layer(cfg, p) {
        Some(sp_cut_box(cfg, p))
    } else {
        None
    }
}

/// For a built contact, the box recorded for every layer is exactly the
/// model box of [`sp_model_bbox`].
pub proof fn lemma_bbox_exact(cfg: TechConfig, p: ContactParams, c: Contact, lay: LayerName)
    requires
        sp_contact_ok(cfg, p),
        contact_built(cfg, p, c),
    ensures
        match sp_model_bbox(cfg, p, lay) {
            Option::Some(b) => sp_bbox_find(c.bboxes@, lay) is Some && rect_eq4(
                sp_bbox_find(c.bboxes@, lay)->Some_0,
                b,
            ),
            Option::None => sp_bbox_find(c.bboxes@, lay) is None,
        },
{
    let cb = c.bboxes@;
    let t0 = cb.take(1);
    let t1 = cb.take(2);
    let t2 = cb.take(3);
    assert(t0.last() == cb[0] && t0.drop_last() =~= cb.take(0));
    assert(t1.last() == cb[1] && t1.drop_last() =~= t0);
    assert(t2.last() == cb[2] && t2.drop_last() =~= t1);
    assert(sp_bbox_find(cb.take(0), lay) is None);
    assert(sp_bbox_find(t0, lay) == if cb[0].0 == lay {
        Some(cb[0].1)
    } else {
        Option::<Rect>::None
    });
    assert(sp_bbox_find(t1, lay) == if cb[1].0 == lay {
        Some(cb[1].1)
    } else {
        sp_bbox_find(t0, lay)
    });
    assert(sp_bbox_find(t2, lay) == if cb[2].0 == lay {
        Some(cb[2].1)
    } else {
        sp_bbox_find(t1, lay)
    });
    if p.stack == StackName::Polyc {
        assert(cb.len() == 4);
        assert(cb.drop_last() =~= t2);
        assert(cb.last() == cb[3]);
        assert(sp_bbox_find(cb, lay) == if cb[3].0 == lay {
            Some(cb[3].1)
        } else {
            sp_bbox_find(t2, lay)
        });
    } else {
        assert(cb.len() == 3);
        assert(cb =~= t2);
    }
}

/// Whether `lay` gets a bounding box in a contact on this stack.
pub open spec fn sp_layer_in_contact(cfg: TechConfig, p: ContactParams, lay: LayerName) -> bool {
    ||| lay == sp_cut_layer(cfg, p)
    ||| lay == sp_bot_layer(cfg, p)
    ||| lay == sp_top_layer(cfg, p)
    ||| (p.stack == StackName::Polyc && lay == LayerName::Npc)
}

/// For a built contact, the recorded box of `lay` spans exactly
/// `sp_wspan` by `sp_hspan`, and is present exactly for the stack's layers.
#[verifier::rlimit(100)]
#[verifier::spinoff_prover]
pub proof fn lemma_bbox_spans(cfg: TechConfig, p: ContactParams, c: Contact, lay: LayerName)
    requires
        cfg.wf(),
        sp_contact_ok(cfg, p),
        contact_built(cfg, p, c),
    ensures
        sp_layer_in_contact(cfg, p, lay) <==> sp_bbox_find(c.bboxes@, lay) is Some,
        match sp_bbox_find(c.bboxes@, lay) {
            Option::Some(r) => r.p1.x - r.p0.x == sp_wspan(cfg, p, lay) && r.p1.y - r.p0.y
                == sp_hspan(cfg, p, lay) && crate::geometry::rect_in(r, 3_000_000_000)
                && crate::geometry::rect_ordered(r),
            Option::None => true,
        },
{
    lemma_layer_find_bounded(cfg.layers@, sp_cut_layer(cfg, p));
    lemma_layer_find_bounded(cfg.layers@, sp_bot_layer(cfg, p));
    lemma_layer_find_bounded(cfg.layers@, sp_top_layer(cfg, p));
    lemma_layer_find_bounded(cfg.layers@, LayerName::Licon);
    let cr = sp_cut_rules(cfg, p);
    lemma_rule_find_bounded(cr.enclosures@, sp_bot_layer(cfg, p));
    lemma_rule_find_bounded(cr.enclosures@, sp_top_layer(cfg, p));
    lemma_rule_find_bounded(cr.one_side_enclosures@, sp_bot_layer(cfg, p));
    lemma_rule_find_bounded(cr.one_side_enclosures@, sp_top_layer(cfg, p));
    if p.stack == StackName::Polyc {
        lemma_rule_find_bounded(
            (cfg.sp_layer(LayerName::Licon)->Some_0).enclosures@,
            LayerName::Npc,
        );
    }
    lemma_cut_span_bounds(cr.width as int, cr.space as int, p.cols as int);
    lemma_cut_span_bounds(cr.width as int, cr.space as int, p.rows as int);
    lemma_axis_bounds(
        sp_cut_w(cfg, p),
        cr.sp_enclosure(sp_bot_layer(cfg, p)),
        (cfg.sp_layer(sp_bot_layer(cfg, p))->Some_0).width as int,
        cr.sp_one_side_enclosure(sp_bot_layer(cfg, p)),
        cfg.grid as int,
        p.dir == Dir::Horiz,
    );
    lemma_axis_bounds(
        sp_cut_h(cfg, p),
        cr.sp_enclosure(sp_bot_layer(cfg, p)),
        (cfg.sp_layer(sp_bot_layer(cfg, p))->Some_0).width as int,
        cr.sp_one_side_enclosure(sp_bot_layer(cfg, p)),
        cfg.grid as int,
        p.dir == Dir::Vert,
    );
    lemma_axis_bounds(
        sp_cut_w(cfg, p),
        cr.sp_enclosure(sp_top_layer(cfg, p)),
        (cfg.sp_layer(sp_top_layer(cfg, p))->Some_0).width as int,
        cr.sp_one_side_enclosure(sp_top_layer(cfg, p)),
        cfg.grid as int,
        p.dir == Dir::Horiz,
    );
    lemma_axis_bounds(
        sp_cut_h(cfg, p),
        cr.sp_enclosure(sp_top_layer(cfg, p)),
        (cfg.sp_layer(sp_top_layer(cfg, p))->Some_0).width as int,
        cr.sp_one_side_enclosure(sp_top_layer(cfg, p)),
        cfg.grid as int,
        p.dir == Dir::Vert,
    );
    let cb = c.bboxes@;
    let t0 = cb.take(1);
    let t1 = cb.take(2);
    let t2 = cb.take(3);
    assert(t0.last() == cb[0] && t0.drop_last() =~= cb.take(0));
    assert(t1.last() == cb[1] && t1.drop_last() =~= t0);
    assert(t2.last() == cb[2] && t2.drop_last() =~= t1);
    assert(sp_bbox_find(cb.take(0), lay) is None);
    assert(sp_bbox_find(t0, lay) == if cb[0].0 == lay {
        Some(cb[0].1)
    } else {
        Option::<Rect>::None
    });
    assert(sp_bbox_find(t1, lay) == if cb[1].0 == lay {
        Some(cb[1].1)
    } else {
        sp_bbox_find(t0, lay)
    });
    assert(sp_bbox_find(t2, lay) == if cb[2].0 == lay {
        Some(cb[2].1)
    } else {
        sp_bbox_find(t1, lay)
    });
    if p.stack == StackName::Polyc {
        assert(cb.len() == 4);
        assert(cb.drop_last() =~= t2);
        assert(cb.last() == cb[3]);
        assert(sp_bbox_find(cb, lay) == if cb[3].0 == lay {
            Some(cb[3].1)
        } else {
            sp_bbox_find(t2, lay)
        });
    } else {
        assert(cb.len() == 3);
        assert(cb =~= t2);
    }
}

// ---------------------------------------------------------------------------
// The builder.
// ---------------------------------------------------------------------------

/// The `[low, high]` edges of a stack layer's box along one axis, for a cut
/// array spanning `[0, s]`; computes [`sp_axis_lo`] and [`sp_axis_hi`].
fn axis_interval(s: i64, e: i64, w: i64, ose: i64, g: i64, relaxed: bool) -> (r: (i64, i64))
    requires
        0 <= s <= CONTACT_COORD,
        0 <= e <= MAX_RULE,
        0 <= w <= MAX_RULE,
        0 <= ose <= MAX_RULE,
        1 <= g <= MAX_RULE,
    ensures
        r.0 == sp_axis_lo(s as int, e as int, w as int, ose as int, g as int, relaxed),
        r.1 == sp_axis_hi(s as int, e as int, w as int, ose as int, g as int, relaxed),
        -2 * MAX_RULE <= r.0 <= 0 <= r.1 <= s + 2 * MAX_RULE,
{
    proof {
        lemma_axis_bounds(s as int, e as int, w as int, ose as int, g as int, relaxed);
        lemma_lo_share_bounds(s as int, e as int, w as int, g as int);
        let d: int = sp_deficit(s as int, e as int, w as int);
        vstd::arithmetic::div_mod::lemma_fundamental_div_mod(d, 2);
        vstd::arithmetic::div_mod::lemma_mod_division_less_than_divisor(d, 2);
        vstd::arithmetic::div_mod::lemma_fundamental_div_mod(d / 2, g as int);
        vstd::arithmetic::div_mod::lemma_mod_division_less_than_divisor(d / 2, g as int);
        vstd::arithmetic::mul::lemma_mul_is_commutative((d / 2) / (g as int), g as int);
    }
    let sx: i64 = s + 2 * e;
    let d: i64 = if w > sx {
        w - sx
    } else {
        0
    };
    let lo_add: i64 = ((d / 2) / g) * g;
    proof {
        vstd::arithmetic::mul::lemma_mul_is_commutative((d as int / 2) / (g as int), g as int);
    }
    let hi_add: i64 = d - lo_add;
    let mut lo: i64 = -e - lo_add;
    let mut hi: i64 = s + e + hi_add;
    if relaxed {
        let mo: i64 = -ose;
        if mo < lo {
            lo = mo;
        }
        if s + ose > hi {
            hi = s + ose;
        }
    }
    (lo, hi)
}

/// The `rows x cols` cut squares of a contact on layer `cut`, in row-major
/// order: square `k` sits at column `k % cols`, row `k / cols`, on the pitch
/// `ctw + cts`.
fn cut_elems(cut: LayerName, ctw: i64, cts: i64, rows: i64, cols: i64) -> (elems: Vec<Element>)
    requires
        0 <= ctw <= MAX_RULE,
        0 <= cts <= MAX_RULE,
        1 <= rows <= MAX_CONTACT_UNITS,
        1 <= cols <= MAX_CONTACT_UNITS,
    ensures
        elems@.len() == rows * cols,
        forall|m: int|
            0 <= m < rows * cols ==> {
                let i = m / (cols as int);
                let j = m % (cols as int);
                (#[trigger] elems@[m]).layer == cut && elems@[m].rect.p0.x == j * (ctw + cts)
                    && elems@[m].rect.p0.y == i * (ctw + cts) && elems@[m].rect.p1.x == j * (ctw
                    + cts) + ctw && elems@[m].rect.p1.y == i * (ctw + cts) + ctw
            },
{
    let mut elems: Vec<Element> = Vec::new();
    let pitch: i64 = ctw + cts;
    proof {
        assert(rows * cols <= 1023 * 1023 && rows * cols >= 1) by (nonlinear_arith)
            requires
                1 <= rows <= 1023,
                1 <= cols <= 1023,
        ;
    }
    let rc: i64 = rows * cols;
    let mut k: i64 = 0;
    while k < rc
        invariant
            0 <= k <= rc,
            rc == rows * cols,
            1 <= rows <= MAX_CONTACT_UNITS,
            1 <= cols <= MAX_CONTACT_UNITS,
            rc <= 1023 * 1023,
            0 <= ctw <= MAX_RULE,
            0 <= cts <= MAX_RULE,
            pitch == ctw + cts,
            elems@.len() == k,
            forall|m: int|
                0 <= m < k ==> {
                    let i = m / (cols as int);
                    let j = m % (cols as int);
                    (#[trigger] elems@[m]).layer == cut && elems@[m].rect.p0.x == j * pitch
                        && elems@[m].rect.p0.y == i * pitch && elems@[m].rect.p1.x == j * pitch
                        + ctw && elems@[m].rect.p1.y == i * pitch + ctw
                },
        decreases rc - k,
    {
        proof {
            vstd::arithmetic::div_mod::lemma_mod_division_less_than_divisor(k as int, cols as int);
            vstd::arithmetic::div_mod::lemma_div_pos_is_pos(k as int, cols as int);
            assert(cols * rows == rows * cols) by (nonlinear_arith);
            vstd::arithmetic::div_mod::lemma_multiply_divide_lt(k as int, cols as int, rows as int);
        }
        let i_: i64 = k / cols;
        let j_: i64 = k % cols;
        proof {
            assert(j_ * pitch <= 1022 * 2_000_000 && j_ * pitch >= 0) by (nonlinear_arith)
                requires
                    0 <= j_ <= 1022,
                    0 <= pitch <= 2_000_000,
            ;
            assert(i_ * pitch <= 1022 * 2_000_000 && i_ * pitch >= 0) by (nonlinear_arith)
                requires
                    0 <= i_ <= 1022,
                    0 <= pitch <= 2_000_000,
            ;
        }
        let left: i64 = j_ * pitch;
        let bot_y: i64 = i_ * pitch;
        elems.push(
            Element {
                layer: cut,
                rect: Rect {
                    p0: Point { x: left, y: bot_y },
                    p1: Point { x: left + ctw, y: bot_y + ctw },
                },
            },
        );
        k += 1;
    }
    elems
}

impl crate::Pdk {
    /// Constructs the contact array `params` describes: `rows x cols` cut
    /// squares at the cut layer's width and spacing, the bottom and top
    /// stack layers' boxes grown to their enclosure, minimum-width and
    /// one-sided-enclosure rules, and the implant, well or gate-cap extras
    /// of the five device stacks. Fails exactly on out-of-range dimensions
    /// and on names the rule table does not define. On a rule table whose
    /// distances are grid multiples, every produced coordinate is one too.
    #[verifier::rlimit(100)]
    pub fn draw_contact(&self, params: &ContactParams) -> (r: Result<Contact, Error>)
        requires
            self.config.wf(),
        ensures
            match r {
                Ok(c) => sp_contact_ok(self.config, *params) && contact_built(
                    self.config,
                    *params,
                    c,
                ) && (self.config.sp_grid_aligned() ==> contact_on_grid(
                    c,
                    self.config.grid as int,
                )),
                Err(e) => sp_contact_err(self.config, *params) == Some(e),
            },
    {
        let ghost cfg = self.config;
        let rows: i64 = params.rows;
        let cols: i64 = params.cols;
        if !(1 <= rows && rows <= MAX_CONTACT_UNITS && 1 <= cols && cols <= MAX_CONTACT_UNITS) {
            return Err(Error::InvalidContactDims);
        }
        let st = match self.config.stack(params.stack) {
            Ok(s) => s,
            Err(e) => {
                return Err(e);
            },
        };
        if st.layers.len() != 3 {
            return Err(Error::BadStackArity(params.stack));
        }
        let bot: LayerName = st.layers[0];
        let cut: LayerName = st.layers[1];
        let top: LayerName = st.layers[2];
        let cr = match self.config.layer(cut) {
            Ok(l) => l,
            Err(e) => {
                return Err(e);
            },
        };
        let br = match self.config.layer(bot) {
            Ok(l) => l,
            Err(e) => {
                return Err(e);
            },
        };
        let tr = match self.config.layer(top) {
            Ok(l) => l,
            Err(e) => {
                return Err(e);
            },
        };
        let mut imp: Option<(LayerName, i64)> = None;
        let mut well: Option<i64> = None;
        let mut npc_e: Option<i64> = None;
        match params.stack {
            StackName::Ndiffc => {
                let rl = match self.config.layer(LayerName::Diff) {
                    Ok(l) => l,
                    Err(e) => {
                        return Err(e);
                    },
                };
                proof {
                    lemma_layer_find_bounded(cfg.layers@, LayerName::Diff);
                    lemma_rule_find_bounded(rl.enclosures@, LayerName::Nsdm);
                }
                imp = Some((LayerName::Nsdm, rl.enclosure(LayerName::Nsdm)));
            },
            StackName::Ntap => {
                let rl = match self.config.layer(LayerName::Ntap) {
                    Ok(l) => l,
                    Err(e) => {
                        return Err(e);
                    },
                };
                proof {
                    lemma_layer_find_bounded(cfg.layers@, LayerName::Ntap);
                    lemma_rule_find_bounded(rl.enclosures@, LayerName::Nsdm);
                }
                imp = Some((LayerName::Nsdm, rl.enclosure(LayerName::Nsdm)));
            },
            StackName::Ptap => {
                let rl = match self.config.layer(LayerName::Ptap) {
                    Ok(l) => l,
                    Err(e) => {
                        return Err(e);
                    },
                };
                proof {
                    lemma_layer_find_bounded(cfg.layers@, LayerName::Ptap);
                    lemma_rule_find_bounded(rl.enclosures@, LayerName::Psdm);
                }
                imp = Some((LayerName::Psdm, rl.enclosure(LayerName::Psdm)));
            },
            StackName::Pdiffc => {
                let rl = match self.config.layer(LayerName::Diff) {
                    Ok(l) => l,
                    Err(e) => {
                        return Err(e);
                    },
                };
                proof {
                    lemma_layer_find_bounded(cfg.layers@, LayerName::Diff);
                    lemma_rule_find_bounded(rl.enclosures@, LayerName::Psdm);
                    lemma_rule_find_bounded(rl.enclosures@, LayerName::Nwell);
                }
                imp = Some((LayerName::Psdm, rl.enclosure(LayerName::Psdm)));
                well = Some(rl.enclosure(LayerName::Nwell));
            },
            StackName::Polyc => {
                let rl = match self.config.layer(LayerName::Licon) {
                    Ok(l) => l,
                    Err(e) => {
                        return Err(e);
                    },
                };
                proof {
                    lemma_layer_find_bounded(cfg.layers@, LayerName::Licon);
                    lemma_rule_find_bounded(rl.enclosures@, LayerName::Npc);
                }
                npc_e = Some(rl.enclosure(LayerName::Npc));
            },
            _ => {},
        }
        proof {
            assert(sp_contact_err(cfg, *params) is None);
            lemma_layer_find_bounded(cfg.layers@, cut);
            lemma_layer_find_bounded(cfg.layers@, bot);
            lemma_layer_find_bounded(cfg.layers@, top);
            lemma_rule_find_bounded(cr.enclosures@, bot);
            lemma_rule_find_bounded(cr.enclosures@, top);
            lemma_rule_find_bounded(cr.one_side_enclosures@, bot);
            lemma_rule_find_bounded(cr.one_side_enclosures@, top);
            lemma_cut_span_bounds(cr.width as int, cr.space as int, cols as int);
            lemma_cut_span_bounds(cr.width as int, cr.space as int, rows as int);
            assert(cr.width * cols <= 1_023_000_000) by (nonlinear_arith)
                requires
                    0 <= cr.width <= 1_000_000,
                    1 <= cols <= 1023,
            ;
            assert(cr.space * (cols - 1) <= 1_023_000_000 && cr.space * (cols - 1) >= 0)
                by (nonlinear_arith)
                requires
                    0 <= cr.space <= 1_000_000,
                    1 <= cols <= 1023,
            ;
            assert(cr.width * rows <= 1_023_000_000) by (nonlinear_arith)
                requires
                    0 <= cr.width <= 1_000_000,
                    1 <= rows <= 1023,
            ;
            assert(cr.space * (rows - 1) <= 1_023_000_000 && cr.space * (rows - 1) >= 0)
                by (nonlinear_arith)
                requires
                    0 <= cr.space <= 1_000_000,
                    1 <= rows <= 1023,
            ;
        }
        let ctw: i64 = cr.width;
        let cts: i64 = cr.space;
        let cw: i64 = ctw * cols + cts * (cols - 1);
        let ch: i64 = ctw * rows + cts * (rows - 1);
        let cut_rect = Rect { p0: Point { x: 0, y: 0 }, p1: Point { x: cw, y: ch } };
        let eb: i64 = cr.enclosure(bot);
        let oseb: i64 = cr.one_side_enclosure(bot);
        let wb: i64 = br.width;
        let et: i64 = cr.enclosure(top);
        let oset: i64 = cr.one_side_enclosure(top);
        let wt: i64 = tr.width;
        let relax_x: bool = params.dir == Dir::Horiz;
        let relax_y: bool = params.dir == Dir::Vert;
        let grid: i64 = self.config.grid;
        let bx = axis_interval(cw, eb, wb, oseb, grid, relax_x);
        let by = axis_interval(ch, eb, wb, oseb, grid, relax_y);
        let tx = axis_interval(cw, et, wt, oset, grid, relax_x);
        let ty = axis_interval(ch, et, wt, oset, grid, relax_y);
        let bot_rect = Rect { p0: Point { x: bx.0, y: by.0 }, p1: Point { x: bx.1, y: by.1 } };
        let top_rect = Rect { p0: Point { x: tx.0, y: ty.0 }, p1: Point { x: tx.1, y: ty.1 } };

        // The cut squares, in row-major order.
        let mut elems: Vec<Element> = cut_elems(cut, ctw, cts, rows, cols);

        // The bottom and top stack layer boxes.
        elems.push(Element { layer: bot, rect: bot_rect });
        elems.push(Element { layer: top, rect: top_rect });

        // Implant, well and gate-cap extras of the device stacks.
        let mut bboxes: Vec<(LayerName, Rect)> = Vec::new();
        bboxes.push((cut, cut_rect));
        bboxes.push((bot, bot_rect));
        bboxes.push((top, top_rect));
        if let Some((implay, impd)) = imp {
            elems.push(
                Element { layer: implay, rect: crate::geometry::expand_box(&top_rect, impd) },
            );
        }
        if let Some(welld) = well {
            elems.push(
                Element {
                    layer: LayerName::Nwell,
                    rect: crate::geometry::expand_box(&top_rect, welld),
                },
            );
        }
        if let Some(ne) = npc_e {
            let npc_rect = crate::geometry::expand_box(&cut_rect, ne);
            elems.push(Element { layer: LayerName::Npc, rect: npc_rect });
            bboxes.push((LayerName::Npc, npc_rect));
        }

        // The single electrical port, on the bottom and top layers, and the
        // outline covering both.
        let mut ports: Vec<PortEntry> = Vec::new();
        ports.push(PortEntry { name: PortName::X, layer: bot, rect: bot_rect });
        ports.push(PortEntry { name: PortName::X, layer: top, rect: top_rect });
        let outline_rect = crate::geometry::rect_union(&bot_rect, &top_rect);
        let cell = Cell {
            id: CellId::Contact(*params),
            elems,
            insts: Vec::new(),
            ports,
            outline: Some(Element { layer: bot, rect: outline_rect }),
        };
        let result = Contact { cell, rows, cols, bboxes };
        proof {
            assert(contact_built(cfg, *params, result));
            if cfg.sp_grid_aligned() {
                lemma_contact_on_grid(cfg, *params, result);
            }
        }
        Ok(result)
    }
}

// ---------------------------------------------------------------------------
// The cache.
// ---------------------------------------------------------------------------

/// Whether the cache holds an entry for key `p`.
pub open spec fn sp_cache_has(s: Seq<(ContactParams, Contact)>, p: ContactParams) -> bool {
    exists|i: int| 0 <= i < s.len() && (#[trigger] s[i]).0 == p
}

impl crate::Pdk {
    /// The cached artifact for `params`. On a hit the cache is left
    /// untouched and the stored artifact is returned; on a miss the builder
    /// runs exactly once and its output is stored. Either way the returned
    /// artifact is exactly what [`contact_built`] prescribes for `params`.
    pub fn get_contact(&mut self, params: &ContactParams) -> (r: Result<Contact, Error>)
        requires
            old(self).wf(),
        ensures
            final(self).wf(),
            final(self).config == old(self).config,
            final(self).tech == old(self).tech,
            match r {
                Ok(c) => {
                    &&& sp_contact_ok(old(self).config, *params)
                    &&& contact_built(old(self).config, *params, c)
                    &&& sp_cache_has(final(self).contacts@, *params)
                    &&& (sp_cache_has(old(self).contacts@, *params) ==> final(self).contacts@
                        == old(self).contacts@)
                    &&& (!sp_cache_has(old(self).contacts@, *params) ==> final(self).contacts@.len() == old(self).contacts@.len() + 1 && (forall|i: int|
                        0 <= i < old(self).contacts@.len() ==> final(self).contacts@[i] == old(self).contacts@[i]) && final(self).contacts@.last().0 == *params
                        && contact_equiv(final(self).contacts@.last().1, c))
                },
                Err(e) => sp_contact_err(old(self).config, *params) == Some(e) && final(self).contacts@ == old(self).contacts@,
            },
    {
        let ghost cfg = self.config;
        let n: usize = self.contacts.len();
        let mut i: usize = 0;
        while i < n
            invariant
                i <= n,
                n == self.contacts@.len(),
                self == old(self),
                self.wf(),
                forall|m: int| 0 <= m < i ==> (#[trigger] self.contacts@[m]).0 != *params,
            decreases n - i,
        {
            if self.contacts[i].0 == *params {
                let c = self.contacts[i].1.clone();
                proof {
                    assert(self.wf());
                    assert((i as int) < self.contacts@.len());
                    assert(sp_contact_err(self.config, (self.contacts@[i as int]).0) is None
                        && contact_built(
                        self.config,
                        self.contacts@[i as int].0,
                        self.contacts@[i as int].1,
                    ));
                    assert(self.contacts@[i as int].0 == *params);
                    assert(contact_equiv(self.contacts@[i as int].1, c));
                    lemma_contact_built_equiv(
                        self.config,
                        *params,
                        self.contacts@[i as int].1,
                        c,
                    );
                    assert(sp_cache_has(self.contacts@, *params));
                }
                return Ok(c);
            }
            i += 1;
        }
        let c = match self.draw_contact(params) {
            Ok(c) => c,
            Err(e) => {
                return Err(e);
            },
        };
        let c2 = c.clone();
        proof {
            lemma_contact_built_equiv(cfg, *params, c, c2);
        }
        self.contacts.push((*params, c));
        proof {
            assert(self.contacts@.last().0 == *params);
            assert(forall|m: int|
                0 <= m < old(self).contacts@.len() ==> self.contacts@[m] == old(self).contacts@[m]);
            assert(sp_cache_has(self.contacts@, *params)) by {
                assert(self.contacts@[self.contacts@.len() - 1].0 == *params);
            }
            assert(contact_equiv(self.contacts@.last().1, c2));
        }
        Ok(c2)
    }
}

// ---------------------------------------------------------------------------
// The sized search.
// ---------------------------------------------------------------------------

/// The specification the sized search builds for a count of `n` along
/// `dir`: one row for a horizontal search, one column for a vertical one.
pub open spec fn sp_sized_params(stack: StackName, dir: Dir, n: i64) -> ContactParams {
    ContactParams {
        stack,
        rows: if dir == Dir::Vert {
            n
        } else {
            1
        },
        cols: if dir == Dir::Horiz {
            n
        } else {
            1
        },
        dir,
    }
}

/// Span of the `layer` box of the sized-search contact of count `n`, along
/// the searched direction.
pub open spec fn sp_sized_span(
    cfg: TechConfig,
    stack: StackName,
    dir: Dir,
    layer: LayerName,
    n: i64,
) -> int {
    match dir {
        Dir::Horiz => sp_wspan(cfg, sp_sized_params(stack, dir, n), layer),
        Dir::Vert => sp_hspan(cfg, sp_sized_params(stack, dir, n), layer),
    }
}

/// Monotonicity of the sized-search span: more cuts along the searched
/// direction never shrink the measured box.
pub proof fn lemma_sized_span_monotone(
    cfg: TechConfig,
    stack: StackName,
    dir: Dir,
    layer: LayerName,
    n1: i64,
    n2: i64,
)
    requires
        cfg.wf(),
        sp_contact_cfg_err(cfg, stack) is None,
        1 <= n1 <= n2 <= MAX_CONTACT_UNITS,
    ensures
        sp_sized_span(cfg, stack, dir, layer, n1) <= sp_sized_span(cfg, stack, dir, layer, n2),
{
    let p1 = sp_sized_params(stack, dir, n1);
    let p2 = sp_sized_params(stack, dir, n2);
    let cr = sp_cut_rules(cfg, p1);
    lemma_layer_find_bounded(cfg.layers@, sp_cut_layer(cfg, p1));
    lemma_layer_find_bounded(cfg.layers@, sp_bot_layer(cfg, p1));
    lemma_layer_find_bounded(cfg.layers@, sp_top_layer(cfg, p1));
    lemma_rule_find_bounded(cr.enclosures@, layer);
    lemma_rule_find_bounded(cr.one_side_enclosures@, layer);
    lemma_cut_span_bounds(cr.width as int, cr.space as int, n1 as int);
    lemma_cut_span_bounds(cr.width as int, cr.space as int, n2 as int);
    lemma_cut_span_monotone(cr.width as int, cr.space as int, n1 as int, n2 as int);
    let s1 = sp_cut_span(cr.width as int, cr.space as int, n1 as int);
    let s2 = sp_cut_span(cr.width as int, cr.space as int, n2 as int);
    if layer == sp_top_layer(cfg, p1) || layer == sp_bot_layer(cfg, p1) {
        let lr = cfg.sp_layer(layer)->Some_0;
        lemma_layer_find_bounded(cfg.layers@, layer);
        lemma_axis_span_monotone(
            s1,
            s2,
            cr.sp_enclosure(layer),
            lr.width as int,
            cr.sp_one_side_enclosure(layer),
            cfg.grid as int,
            dir == Dir::Horiz,
        );
        lemma_axis_span_monotone(
            s1,
            s2,
            cr.sp_enclosure(layer),
            lr.width as int,
            cr.sp_one_side_enclosure(layer),
            cfg.grid as int,
            dir == Dir::Vert,
        );
    }
}

impl crate::Pdk {
    /// The largest contact on `stack` whose `layer` bounding box, measured
    /// along `dir`, fits within `width`, with the perpendicular count fixed
    /// at one. Searches counts in `[1, MAX_CONTACT_UNITS]`; returns
    /// `Ok(None)` when even a single cut does not fit.
    pub fn get_contact_sized(
        &mut self,
        stack: StackName,
        dir: Dir,
        layer: LayerName,
        width: Int,
    ) -> (r: Result<Option<Contact>, Error>)
        requires
            old(self).wf(),
        ensures
            final(self).wf(),
            final(self).config == old(self).config,
            final(self).tech == old(self).tech,
            match r {
                Ok(Some(c)) => {
                    let n = if dir == Dir::Horiz {
                        c.cols
                    } else {
                        c.rows
                    };
                    &&& sp_contact_cfg_err(old(self).config, stack) is None
                    &&& sp_layer_in_contact(old(self).config, sp_sized_params(stack, dir, 1), layer)
                    &&& 1 <= n <= MAX_CONTACT_UNITS
                    &&& contact_built(old(self).config, sp_sized_params(stack, dir, n), c)
                    &&& sp_sized_span(old(self).config, stack, dir, layer, n) <= width
                    &&& forall|m: i64|
                        n < m <= MAX_CONTACT_UNITS ==> sp_sized_span(
                            old(self).config,
                            stack,
                            dir,
                            layer,
                            m,
                        ) > width
                },
                Ok(None) => {
                    &&& sp_contact_cfg_err(old(self).config, stack) is None
                    &&& sp_layer_in_contact(old(self).config, sp_sized_params(stack, dir, 1), layer)
                    &&& sp_sized_span(old(self).config, stack, dir, layer, 1) > width
                },
                Err(e) => {
                    ||| sp_contact_cfg_err(old(self).config, stack) == Some(e)
                    ||| (sp_contact_cfg_err(old(self).config, stack) is None && !sp_layer_in_contact(
                        old(self).config,
                        sp_sized_params(stack, dir, 1),
                        layer,
                    ) && e == Error::LayerNotInContact(layer))
                },
            },
    {
        let ghost cfg = self.config;
        let mut low: i64 = 1;
        let mut high: i64 = MAX_CONTACT_UNITS;
        let mut result: Option<Contact> = None;
        while low <= high
            invariant
                old(self).wf(),
                self.wf(),
                self.config == old(self).config,
                self.tech == old(self).tech,
                cfg == self.config,
                1 <= low <= high + 1,
                high <= MAX_CONTACT_UNITS,
                low > 1 || high < MAX_CONTACT_UNITS ==> sp_contact_cfg_err(cfg, stack) is None
                    && sp_layer_in_contact(cfg, sp_sized_params(stack, dir, 1), layer),
                forall|m: i64|
                    high < m <= MAX_CONTACT_UNITS ==> sp_sized_span(cfg, stack, dir, layer, m)
                        > width,
                match result {
                    Option::Some(c) => {
                        let n = if dir == Dir::Horiz {
                            c.cols
                        } else {
                            c.rows
                        };
                        &&& n == low - 1
                        &&& 1 <= n <= MAX_CONTACT_UNITS
                        &&& contact_built(cfg, sp_sized_params(stack, dir, n), c)
                        &&& sp_sized_span(cfg, stack, dir, layer, n) <= width
                    },
                    Option::None => low == 1,
                },
            decreases high + 1 - low,
        {
            proof {
                vstd::arithmetic::div_mod::lemma_div_pos_is_pos(high - low, 2);
                vstd::arithmetic::div_mod::lemma_div_nonincreasing(high - low, 2);
            }
            let mid: i64 = low + (high - low) / 2;
            let params = ContactParams {
                stack,
                rows: if dir == Dir::Vert {
                    mid
                } else {
                    1
                },
                cols: if dir == Dir::Horiz {
                    mid
                } else {
                    1
                },
                dir,
            };
            proof {
                assert(params == sp_sized_params(stack, dir, mid));
            }
            let ct = match self.get_contact(&params) {
                Ok(c) => c,
                Err(e) => {
                    proof {
                        assert(sp_contact_err(cfg, params) == Some(e));
                        assert(sp_contact_cfg_err(cfg, stack) == Some(e));
                    }
                    return Err(e);
                },
            };
            let bb = match ct.bbox(layer) {
                Some(b) => b,
                None => {
                    proof {
                        lemma_bbox_spans(cfg, params, ct, layer);
                        assert(!sp_layer_in_contact(cfg, sp_sized_params(stack, dir, 1), layer));
                    }
                    return Err(Error::LayerNotInContact(layer));
                },
            };
            proof {
                lemma_bbox_spans(cfg, params, ct, layer);
                assert(sp_layer_in_contact(cfg, sp_sized_params(stack, dir, 1), layer));
            }
            let span: i64 = bb.span_len(dir);
            proof {
                assert(span == sp_sized_span(cfg, stack, dir, layer, mid));
            }
            if span <= width {
                result = Some(ct);
                low = mid + 1;
            } else {
                proof {
                    assert forall|m: i64| mid <= m <= MAX_CONTACT_UNITS implies sp_sized_span(
                        cfg,
                        stack,
                        dir,
                        layer,
                        m,
                    ) > width by {
                        lemma_sized_span_monotone(cfg, stack, dir, layer, mid, m);
                    }
                }
                high = mid - 1;
            }
        }
        match result {
            Some(c) => Ok(Some(c)),
            None => Ok(None),
        }
    }
}

// ---------------------------------------------------------------------------
// The within search.
// ---------------------------------------------------------------------------

/// The relaxed direction the within search fixes from the target's aspect
/// ratio: wider targets relax horizontally.
pub open spec fn sp_within_dir(target: Rect) -> Dir {
    if target.spec_width() > target.spec_height() {
        Dir::Horiz
    } else {
        Dir::Vert
    }
}

pub open spec fn sp_within_params(stack: StackName, dir: Dir, r: i64, c: i64) -> ContactParams {
    ContactParams { stack, rows: r, cols: c, dir }
}

/// Width of the `layer` box as a function of the column count alone.
pub open spec fn sp_within_w(
    cfg: TechConfig,
    stack: StackName,
    dir: Dir,
    layer: LayerName,
    c: i64,
) -> int {
    sp_wspan(cfg, sp_within_params(stack, dir, 1, c), layer)
}

/// Height of the `layer` box as a function of the row count alone.
pub open spec fn sp_within_h(
    cfg: TechConfig,
    stack: StackName,
    dir: Dir,
    layer: LayerName,
    r: i64,
) -> int {
    sp_hspan(cfg, sp_within_params(stack, dir, r, 1), layer)
}

/// A contact's width depends only on its column count and its height only
/// on its row count: the two search axes are independent.
pub proof fn lemma_within_separable(
    cfg: TechConfig,
    stack: StackName,
    dir: Dir,
    layer: LayerName,
    r: i64,
    c: i64,
)
    ensures
        sp_wspan(cfg, sp_within_params(stack, dir, r, c), layer) == sp_within_w(
            cfg,
            stack,
            dir,
            layer,
            c,
        ),
        sp_hspan(cfg, sp_within_params(stack, dir, r, c), layer) == sp_within_h(
            cfg,
            stack,
            dir,
            layer,
            r,
        ),
{
}

/// More columns never shrink the width of any recorded box.
pub proof fn lemma_within_w_monotone(
    cfg: TechConfig,
    stack: StackName,
    dir: Dir,
    layer: LayerName,
    c1: i64,
    c2: i64,
)
    requires
        cfg.wf(),
        sp_contact_cfg_err(cfg, stack) is None,
        1 <= c1 <= c2 <= MAX_CONTACT_UNITS,
    ensures
        sp_within_w(cfg, stack, dir, layer, c1) <= sp_within_w(cfg, stack, dir, layer, c2),
{
    let p1 = sp_within_params(stack, dir, 1, c1);
    let cr = sp_cut_rules(cfg, p1);
    lemma_layer_find_bounded(cfg.layers@, sp_cut_layer(cfg, p1));
    lemma_rule_find_bounded(cr.enclosures@, layer);
    lemma_rule_find_bounded(cr.one_side_enclosures@, layer);
    lemma_cut_span_bounds(cr.width as int, cr.space as int, c1 as int);
    lemma_cut_span_bounds(cr.width as int, cr.space as int, c2 as int);
    lemma_cut_span_monotone(cr.width as int, cr.space as int, c1 as int, c2 as int);
    let s1 = sp_cut_span(cr.width as int, cr.space as int, c1 as int);
    let s2 = sp_cut_span(cr.width as int, cr.space as int, c2 as int);
    if layer == sp_top_layer(cfg, p1) || layer == sp_bot_layer(cfg, p1) {
        let lr = cfg.sp_layer(layer)->Some_0;
        lemma_layer_find_bounded(cfg.layers@, layer);
        lemma_axis_span_monotone(
            s1,
            s2,
            cr.sp_enclosure(layer),
            lr.width as int,
            cr.sp_one_side_enclosure(layer),
            cfg.grid as int,
            dir == Dir::Horiz,
        );
    }
}

/// More rows never shrink the height of any recorded box.
pub proof fn lemma_within_h_monotone(
    cfg: TechConfig,
    stack: StackName,
    dir: Dir,
    layer: LayerName,
    r1: i64,
    r2: i64,
)
    requires
        cfg.wf(),
        sp_contact_cfg_err(cfg, stack) is None,
        1 <= r1 <= r2 <= MAX_CONTACT_UNITS,
    ensures
        sp_within_h(cfg, stack, dir, layer, r1) <= sp_within_h(cfg, stack, dir, layer, r2),
{
    let p1 = sp_within_params(stack, dir, r1, 1);
    let cr = sp_cut_rules(cfg, p1);
    lemma_layer_find_bounded(cfg.layers@, sp_cut_layer(cfg, p1));
    lemma_rule_find_bounded(cr.enclosures@, layer);
    lemma_rule_find_bounded(cr.one_side_enclosures@, layer);
    lemma_cut_span_bounds(cr.width as int, cr.space as int, r1 as int);
    lemma_cut_span_bounds(cr.width as int, cr.space as int, r2 as int);
    lemma_cut_span_monotone(cr.width as int, cr.space as int, r1 as int, r2 as int);
    let s1 = sp_cut_span(cr.width as int, cr.space as int, r1 as int);
    let s2 = sp_cut_span(cr.width as int, cr.space as int, r2 as int);
    if layer == sp_top_layer(cfg, p1) || layer == sp_bot_layer(cfg, p1) {
        let lr = cfg.sp_layer(layer)->Some_0;
        lemma_layer_find_bounded(cfg.layers@, layer);
        lemma_axis_span_monotone(
            s1,
            s2,
            cr.sp_enclosure(layer),
            lr.width as int,
            cr.sp_one_side_enclosure(layer),
            cfg.grid as int,
            dir == Dir::Vert,
        );
    }
}

impl crate::Pdk {
    /// The largest contact on `stack` whose `layer` bounding box fits within
    /// `target` in both width and height, maximizing along both axes. The
    /// relaxed direction is fixed from the target's aspect ratio. Searches
    /// rows and columns jointly in `[1, MAX_CONTACT_UNITS]`; returns
    /// `Ok(None)` when even a single cut does not fit.
    #[verifier::rlimit(100)]
    #[verifier::spinoff_prover]
    pub fn get_contact_within(
        &mut self,
        stack: StackName,
        layer: LayerName,
        target: Rect,
    ) -> (r: Result<Option<Contact>, Error>)
        requires
            old(self).wf(),
            crate::geometry::rect_in(target, crate::geometry::GEOM_LIMIT as int),
        ensures
            final(self).wf(),
            final(self).config == old(self).config,
            final(self).tech == old(self).tech,
            match r {
                Ok(Some(c)) => {
                    let cfg = old(self).config;
                    let dir = sp_within_dir(target);
                    let bw = target.spec_width();
                    let bh = target.spec_height();
                    &&& sp_contact_cfg_err(cfg, stack) is None
                    &&& sp_layer_in_contact(cfg, sp_within_params(stack, dir, 1, 1), layer)
                    &&& 1 <= c.rows <= MAX_CONTACT_UNITS
                    &&& 1 <= c.cols <= MAX_CONTACT_UNITS
                    &&& contact_built(cfg, sp_within_params(stack, dir, c.rows, c.cols), c)
                    &&& sp_within_w(cfg, stack, dir, layer, c.cols) <= bw
                    &&& sp_within_h(cfg, stack, dir, layer, c.rows) <= bh
                    &&& forall|m: i64|
                        c.cols < m <= MAX_CONTACT_UNITS ==> sp_within_w(cfg, stack, dir, layer, m)
                            > bw
                    &&& forall|m: i64|
                        c.rows < m <= MAX_CONTACT_UNITS ==> sp_within_h(cfg, stack, dir, layer, m)
                            > bh
                },
                Ok(None) => {
                    let cfg = old(self).config;
                    let dir = sp_within_dir(target);
                    &&& sp_contact_cfg_err(cfg, stack) is None
                    &&& sp_layer_in_contact(cfg, sp_within_params(stack, dir, 1, 1), layer)
                    &&& (sp_within_w(cfg, stack, dir, layer, 1) > target.spec_width()
                        || sp_within_h(cfg, stack, dir, layer, 1) > target.spec_height())
                },
                Err(e) => {
                    ||| sp_contact_cfg_err(old(self).config, stack) == Some(e)
                    ||| (sp_contact_cfg_err(old(self).config, stack) is None
                        && !sp_layer_in_contact(
                        old(self).config,
                        sp_within_params(stack, sp_within_dir(target), 1, 1),
                        layer,
                    ) && e == Error::LayerNotInContact(layer))
                },
            },
    {
        let ghost cfg = self.config;
        let bw: i64 = target.width();
        let bh: i64 = target.height();
        let dir: Dir = if bw > bh {
            Dir::Horiz
        } else {
            Dir::Vert
        };
        let mut low_r: i64 = 1;
        let mut high_r: i64 = MAX_CONTACT_UNITS;
        let mut low_c: i64 = 1;
        let mut high_c: i64 = MAX_CONTACT_UNITS;
        loop
            invariant
                old(self).wf(),
                self.wf(),
                self.config == old(self).config,
                self.tech == old(self).tech,
                cfg == self.config,
                dir == sp_within_dir(target),
                bw == target.spec_width(),
                bh == target.spec_height(),
                1 <= low_r <= MAX_CONTACT_UNITS,
                low_r - 1 <= high_r <= MAX_CONTACT_UNITS,
                1 <= low_c <= MAX_CONTACT_UNITS,
                low_c - 1 <= high_c <= MAX_CONTACT_UNITS,
                (low_r > 1 || high_r < MAX_CONTACT_UNITS || low_c > 1 || high_c
                    < MAX_CONTACT_UNITS) ==> sp_contact_cfg_err(cfg, stack) is None
                    && sp_layer_in_contact(cfg, sp_within_params(stack, dir, 1, 1), layer),
                forall|m: i64|
                    high_r < m <= MAX_CONTACT_UNITS ==> sp_within_h(cfg, stack, dir, layer, m)
                        > bh,
                forall|m: i64|
                    high_c < m <= MAX_CONTACT_UNITS ==> sp_within_w(cfg, stack, dir, layer, m)
                        > bw,
                low_r == 1 || sp_within_h(cfg, stack, dir, layer, low_r) <= bh,
                low_c == 1 || sp_within_w(cfg, stack, dir, layer, low_c) <= bw,
            decreases (high_r + 1 - low_r) + (high_c + 1 - low_c),
        {
            if high_r < low_r || high_c < low_c {
                proof {
                    if high_r < low_r {
                        assert(high_r == low_r - 1);
                        if low_r > 1 {
                            assert(sp_within_h(cfg, stack, dir, layer, low_r) <= bh);
                            assert(sp_within_h(cfg, stack, dir, layer, low_r) > bh);
                        }
                        assert(low_r == 1);
                        assert(sp_within_h(cfg, stack, dir, layer, 1) > bh);
                    } else {
                        assert(high_c == low_c - 1);
                        if low_c > 1 {
                            assert(sp_within_w(cfg, stack, dir, layer, low_c) <= bw);
                            assert(sp_within_w(cfg, stack, dir, layer, low_c) > bw);
                        }
                        assert(low_c == 1);
                        assert(sp_within_w(cfg, stack, dir, layer, 1) > bw);
                    }
                }
                return Ok(None);
            }
            proof {
                vstd::arithmetic::div_mod::lemma_fundamental_div_mod(high_r - low_r + 1, 2);
                vstd::arithmetic::div_mod::lemma_mod_division_less_than_divisor(
                    high_r - low_r + 1,
                    2,
                );
                vstd::arithmetic::div_mod::lemma_fundamental_div_mod(high_c - low_c + 1, 2);
                vstd::arithmetic::div_mod::lemma_mod_division_less_than_divisor(
                    high_c - low_c + 1,
                    2,
                );
            }
            let r_: i64 = low_r + (high_r - low_r + 1) / 2;
            let c_: i64 = low_c + (high_c - low_c + 1) / 2;
            proof {
                assert(low_r <= r_ <= high_r);
                assert(low_c <= c_ <= high_c);
                assert(r_ == low_r ==> high_r == low_r);
                assert(c_ == low_c ==> high_c == low_c);
            }
            let params = ContactParams { stack, rows: r_, cols: c_, dir };
            let ct = match self.get_contact(&params) {
                Ok(c) => c,
                Err(e) => {
                    return Err(e);
                },
            };
            let ob = match ct.bbox(layer) {
                Some(b) => b,
                None => {
                    proof {
                        lemma_bbox_spans(cfg, params, ct, layer);
                    }
                    return Err(Error::LayerNotInContact(layer));
                },
            };
            proof {
                lemma_bbox_spans(cfg, params, ct, layer);
                lemma_within_separable(cfg, stack, dir, layer, r_, c_);
            }
            let ow: i64 = ob.p1.x - ob.p0.x;
            let oh: i64 = ob.p1.y - ob.p0.y;
            proof {
                assert(ow == sp_within_w(cfg, stack, dir, layer, c_));
                assert(oh == sp_within_h(cfg, stack, dir, layer, r_));
            }
            let w_fits: bool = ow <= bw;
            let h_fits: bool = oh <= bh;
            if w_fits && h_fits {
                if r_ == high_r && c_ == high_c {
                    return Ok(Some(ct));
                }
                low_r = r_;
                low_c = c_;
            } else if w_fits {
                proof {
                    assert forall|m: i64| r_ <= m <= MAX_CONTACT_UNITS implies sp_within_h(
                        cfg,
                        stack,
                        dir,
                        layer,
                        m,
                    ) > bh by {
                        lemma_within_h_monotone(cfg, stack, dir, layer, r_, m);
                    }
                }
                low_c = c_;
                high_r = r_ - 1;
            } else if h_fits {
                proof {
                    assert forall|m: i64| c_ <= m <= MAX_CONTACT_UNITS implies sp_within_w(
                        cfg,
                        stack,
                        dir,
                        layer,
                        m,
                    ) > bw by {
                        lemma_within_w_monotone(cfg, stack, dir, layer, c_, m);
                    }
                }
                low_r = r_;
                high_c = c_ - 1;
            } else {
                proof {
                    assert forall|m: i64| r_ <= m <= MAX_CONTACT_UNITS implies sp_within_h(
                        cfg,
                        stack,
                        dir,
                        layer,
                        m,
                    ) > bh by {
                        lemma_within_h_monotone(cfg, stack, dir, layer, r_, m);
                    }
                    assert forall|m: i64| c_ <= m <= MAX_CONTACT_UNITS implies sp_within_w(
                        cfg,
                        stack,
                        dir,
                        layer,
                        m,
                    ) > bw by {
                        lemma_within_w_monotone(cfg, stack, dir, layer, c_, m);
                    }
                }
                high_r = r_ - 1;
                high_c = c_ - 1;
            }
        }
    }
}

} // verus!
