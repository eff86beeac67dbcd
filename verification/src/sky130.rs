//! The sky130 technology: its design-rule table, the metal/via naming
//! scheme, and the derived transistor spacing quantities.

use vstd::prelude::*;

use crate::cell::{Cell, CellId, Element, Instance, PortEntry, PortName};
use crate::config::{
    lemma_layer_find_bounded, lemma_rule_find_bounded, lemma_space_find_bounded, Int, LayerName,
    LayerRule2, LayerRules, SpaceRule, Stack, StackName, TechConfig, MAX_RULE,
};
use crate::contact::{
    lemma_bbox_exact, lemma_bbox_spans, lemma_sized_span_monotone, rect_eq4, sp_contact_cfg_err,
    sp_expand4, sp_layer_in_contact, sp_model_bbox, sp_sized_params, sp_sized_span, ContactParams,
    MAX_CONTACT_UNITS,
};
use crate::geometry::{sp_max, Dir, Point, Rect};
use crate::mos::{
    any_sd_gap, skips, sp_mos_valid, sp_sd_needed, LayoutTransistors, MosParams, MosResult,
    MosType,
};
use crate::{Error, LayerIdx};

verus! {

/// Fixed extra poly protrusion on its gate-contact side, keeping gate
/// contacts clear of the transistor body.
pub const POLY_FUDGE: i64 = 60;

/// The contact stack of a device's source/drain contacts.
pub open spec fn sp_sd_stack(t: MosType) -> StackName {
    match t {
        MosType::Nmos => StackName::Ndiffc,
        MosType::Pmos => StackName::Pdiffc,
    }
}

/// Gate-contact parameters, built once per group.
pub open spec fn sp_gate_ct_params() -> ContactParams {
    ContactParams { stack: StackName::Polyc, rows: 1, cols: 1, dir: Dir::Horiz }
}

/// The source/drain checks, device by device in layout order: the stack
/// must resolve, the diffusion and bottom metal must appear in its
/// contacts, and a single-cut contact must fit the device's width.
pub open spec fn sp_sd_err_from(cfg: TechConfig, p: MosParams, j: int) -> Option<Error>
    decreases p.devices@.len() - j,
{
    if j < 0 || j >= p.devices@.len() {
        None
    } else {
        let d = p.devices@[j];
        let stack = sp_sd_stack(d.mos_type);
        if !sp_sd_needed(p.fingers, d) {
            sp_sd_err_from(cfg, p, j + 1)
        } else if sp_contact_cfg_err(cfg, stack) is Some {
            sp_contact_cfg_err(cfg, stack)
        } else if !sp_layer_in_contact(
            cfg,
            sp_sized_params(stack, Dir::Horiz, 1),
            LayerName::Diff,
        ) {
            Some(Error::LayerNotInContact(LayerName::Diff))
        } else if sp_sized_span(cfg, stack, Dir::Horiz, LayerName::Diff, 1) > d.width {
            Some(Error::InfeasibleSdContact)
        } else if !sp_layer_in_contact(cfg, sp_sized_params(stack, Dir::Horiz, 1), LayerName::Li) {
            Some(Error::LayerNotInContact(LayerName::Li))
        } else {
            sp_sd_err_from(cfg, p, j + 1)
        }
    }
}

/// Everything that can stop the MOS generator, in the order it checks: the
/// group specification, the rule-table layers the spacing quantities need,
/// its gate-contact stack, and per-device source/drain contacts.
pub open spec fn sp_mos_err(cfg: TechConfig, p: MosParams) -> Option<Error> {
    if !sp_mos_valid(p) {
        Some(Error::InvalidMosParams)
    } else if cfg.sp_layer(LayerName::Diff) is None {
        Some(Error::UnknownLayer(LayerName::Diff))
    } else if cfg.sp_layer(LayerName::Licon) is None {
        Some(Error::UnknownLayer(LayerName::Licon))
    } else if cfg.sp_layer(LayerName::Li) is None {
        Some(Error::UnknownLayer(LayerName::Li))
    } else if cfg.sp_layer(LayerName::Poly) is None {
        Some(Error::UnknownLayer(LayerName::Poly))
    } else if sp_contact_cfg_err(cfg, StackName::Polyc) is Some {
        sp_contact_cfg_err(cfg, StackName::Polyc)
    } else if !sp_layer_in_contact(cfg, sp_gate_ct_params(), LayerName::Poly) {
        Some(Error::LayerNotInContact(LayerName::Poly))
    } else if !sp_layer_in_contact(cfg, sp_gate_ct_params(), LayerName::Li) {
        Some(Error::LayerNotInContact(LayerName::Li))
    } else {
        sp_sd_err_from(cfg, p, 0)
    }
}

/// The structural shape of a generated MOS layout: per-finger gate ports,
/// `fingers + 1` source/drain slots per device, filled exactly at the gaps
/// the device does not skip.
pub open spec fn mos_layout_shape(p: MosParams, t: LayoutTransistors) -> bool {
    &&& t.num_fingers == p.fingers
    &&& t.num_devices == p.devices@.len()
    &&& t.gate_metal == LayerName::Li
    &&& t.sd_metal == LayerName::Li
    &&& t.gate_pins@.len() == p.fingers
    &&& t.sd_pins@.len() == p.devices@.len()
    &&& forall|j: int|
        0 <= j < p.devices@.len() ==> (#[trigger] t.sd_pins@[j])@.len() == p.fingers + 1
    &&& forall|j: int, i: int|
        0 <= j < p.devices@.len() && 0 <= i <= p.fingers ==> ((#[trigger] t.sd_pins@[j]@[i])
            is Some <==> !p.devices@[j].skip_sd_metal@.contains(i as i64))
    &&& gate_pins_stacked(t.gate_pins@)
    &&& forall|j: int| 0 <= j < p.devices@.len() ==> sd_row_aligned((#[trigger] t.sd_pins@[j])@)
}

/// Every present port of the row has the same x extent and height, and
/// consecutive gaps sit exactly `step` apart vertically.
pub open spec fn sd_row_aligned_with(row: Seq<Option<Rect>>, step: int) -> bool {
    forall|i1: int, i2: int|
        0 <= i1 < row.len() && 0 <= i2 < row.len() && (#[trigger] row[i1]) is Some && (
        #[trigger] row[i2]) is Some ==> {
            let a = row[i1]->Some_0;
            let b = row[i2]->Some_0;
            b.p0.x == a.p0.x && b.p1.x == a.p1.x && b.p1.y - b.p0.y == a.p1.y - a.p0.y && b.p0.y
                - a.p0.y == (i2 - i1) * step
        }
}

/// The source/drain ports of one device form one vertical column at one
/// common gap pitch.
pub open spec fn sd_row_aligned(row: Seq<Option<Rect>>) -> bool {
    exists|step: int| #[trigger] sd_row_aligned_with(row, step)
}

/// The per-finger gate ports form one vertical stack: every pin has the
/// same x extent and the same height, and consecutive pins sit at one
/// common pitch.
pub open spec fn gate_pins_stacked(pins: Seq<Rect>) -> bool {
    &&& forall|i: int|
        0 <= i < pins.len() ==> (#[trigger] pins[i]).p0.x == pins[0].p0.x && pins[i].p1.x
            == pins[0].p1.x && pins[i].p1.y - pins[i].p0.y == pins[0].p1.y - pins[0].p0.y
    &&& forall|i: int|
        0 <= i < pins.len() - 1 ==> (#[trigger] pins[i + 1]).p0.y - pins[i].p0.y == pins[1].p0.y
            - pins[0].p0.y
}

/// The source/drain checks see only what a group specification contains,
/// so structurally equal specifications fail (or pass) alike.
pub proof fn lemma_sd_err_respects_eq(cfg: TechConfig, a: MosParams, b: MosParams, j: int)
    requires
        crate::mos::sp_mos_params_eq(a, b),
    ensures
        sp_sd_err_from(cfg, a, j) == sp_sd_err_from(cfg, b, j),
    decreases a.devices@.len() - j,
{
    if j < 0 || j >= a.devices@.len() {
    } else {
        assert(crate::mos::sp_device_eq(a.devices@[j], b.devices@[j]));
        assert(sp_sd_needed(a.fingers, a.devices@[j]) == sp_sd_needed(b.fingers, b.devices@[j]))
            by {
            if sp_sd_needed(a.fingers, a.devices@[j]) {
                let i = choose|i: i64|
                    0 <= i <= a.fingers && !a.devices@[j].skip_sd_metal@.contains(i);
                assert(!b.devices@[j].skip_sd_metal@.contains(i));
            }
            if sp_sd_needed(b.fingers, b.devices@[j]) {
                let i = choose|i: i64|
                    0 <= i <= b.fingers && !b.devices@[j].skip_sd_metal@.contains(i);
                assert(!a.devices@[j].skip_sd_metal@.contains(i));
            }
        }
        lemma_sd_err_respects_eq(cfg, a, b, j + 1);
    }
}

/// The generator's checks see only what a group specification contains, so
/// structurally equal specifications fail (or pass) alike.
pub proof fn lemma_mos_err_respects_eq(cfg: TechConfig, a: MosParams, b: MosParams)
    requires
        crate::mos::sp_mos_params_eq(a, b),
    ensures
        sp_mos_err(cfg, a) == sp_mos_err(cfg, b),
{
    assert(sp_mos_valid(a) ==> sp_mos_valid(b)) by {
        if sp_mos_valid(a) {
            assert forall|j: int|
                0 <= j < b.devices@.len() implies crate::mos::sp_device_valid(
                #[trigger] b.devices@[j],
            ) by {
                assert(crate::mos::sp_device_eq(a.devices@[j], b.devices@[j]));
                assert(crate::mos::sp_device_valid(a.devices@[j]));
            }
        }
    }
    assert(sp_mos_valid(b) ==> sp_mos_valid(a)) by {
        if sp_mos_valid(b) {
            assert forall|j: int|
                0 <= j < a.devices@.len() implies crate::mos::sp_device_valid(
                #[trigger] a.devices@[j],
            ) by {
                assert(crate::mos::sp_device_eq(a.devices@[j], b.devices@[j]));
                assert(crate::mos::sp_device_valid(b.devices@[j]));
            }
        }
    }
    lemma_sd_err_respects_eq(cfg, a, b, 0);
}

/// Layout shape carries over to structurally equal specifications and
/// observably equal artifacts.
pub proof fn lemma_shape_respects_eq(
    p1: MosParams,
    p2: MosParams,
    t1: LayoutTransistors,
    t2: LayoutTransistors,
)
    requires
        crate::mos::sp_mos_params_eq(p1, p2),
        mos_layout_shape(p1, t1),
        crate::mos::sp_layout_eq(t2, t1),
    ensures
        mos_layout_shape(p2, t2),
{
    assert forall|j: int|
        0 <= j < p2.devices@.len() implies (#[trigger] t2.sd_pins@[j])@.len() == p2.fingers
        + 1 by {
        assert(t1.sd_pins@[j]@.len() == p1.fingers + 1);
        assert(t2.sd_pins@[j]@ == t1.sd_pins@[j]@);
    }
    assert forall|j: int, i: int|
        0 <= j < p2.devices@.len() && 0 <= i <= p2.fingers implies ((
        #[trigger] t2.sd_pins@[j]@[i]) is Some <==> !p2.devices@[j].skip_sd_metal@.contains(
            i as i64,
        )) by {
        assert(crate::mos::sp_device_eq(p1.devices@[j], p2.devices@[j]));
        assert(t2.sd_pins@[j]@ == t1.sd_pins@[j]@);
        assert(t1.sd_pins@[j]@[i] is Some <==> !p1.devices@[j].skip_sd_metal@.contains(i as i64));
    }
    assert(t2.gate_pins@ == t1.gate_pins@);
    assert forall|j: int|
        0 <= j < p2.devices@.len() implies sd_row_aligned((#[trigger] t2.sd_pins@[j])@) by {
        assert(sd_row_aligned(t1.sd_pins@[j]@));
        assert(t2.sd_pins@[j]@ == t1.sd_pins@[j]@);
    }
}

// ---------------------------------------------------------------------------
// The geometric model of a generated MOS group: every drawn element, probe
// port and pin rectangle as a function of the rules and the specification.
// ---------------------------------------------------------------------------

/// The implant layer of a polarity.
pub open spec fn sp_imp_layer(t: MosType) -> LayerName {
    match t {
        MosType::Nmos => LayerName::Nsdm,
        MosType::Pmos => LayerName::Psdm,
    }
}

/// The implant enclosure of diffusion for a polarity.
pub open spec fn sp_imp_enc(cfg: TechConfig, t: MosType) -> int {
    (cfg.sp_layer(LayerName::Diff)->Some_0).sp_enclosure(sp_imp_layer(t))
}

/// The well enclosure of diffusion.
pub open spec fn sp_well_enc(cfg: TechConfig) -> int {
    (cfg.sp_layer(LayerName::Diff)->Some_0).sp_enclosure(LayerName::Nwell)
}

/// The gap left of device `j` (for `j >= 1`): the diffusion layer's own
/// spacing between same-polarity neighbours, the diffusion-to-well
/// clearance between opposite ones.
pub open spec fn sp_diff_gap(cfg: TechConfig, p: MosParams, j: int) -> int {
    if p.devices@[j - 1].mos_type == p.devices@[j].mos_type {
        (cfg.sp_layer(LayerName::Diff)->Some_0).space as int
    } else {
        sp_diff_to_opposite_diff(cfg)
    }
}

/// Left edge of device `j`'s diffusion column: columns are laid out left to
/// right from zero, separated by the polarity-dependent gap.
pub open spec fn sp_diff_x(cfg: TechConfig, p: MosParams, j: int) -> int
    decreases j,
{
    if j <= 0 {
        0
    } else {
        sp_diff_x(cfg, p, j - 1) + p.devices@[j - 1].width + sp_diff_gap(cfg, p, j)
    }
}

/// Diffusion length perpendicular to the gates: clearance on both edges
/// plus the fingers and the spaces between them.
pub open spec fn sp_diff_perp(cfg: TechConfig, p: MosParams) -> int {
    2 * sp_diff_edge_to_gate(cfg) + p.fingers * p.length + (p.fingers - 1) * sp_finger_space(cfg)
}

/// Device `j`'s diffusion rectangle.
pub open spec fn sp_diff_rect(cfg: TechConfig, p: MosParams, j: int) -> (int, int, int, int) {
    (
        sp_diff_x(cfg, p, j),
        0int,
        sp_diff_x(cfg, p, j) + p.devices@[j].width,
        sp_diff_perp(cfg, p),
    )
}

/// First device of the run of same-polarity devices ending at `j`.
pub open spec fn sp_run_start(p: MosParams, j: int) -> int
    decreases j,
{
    if j <= 0 {
        0
    } else if p.devices@[j - 1].mos_type == p.devices@[j].mos_type {
        sp_run_start(p, j - 1)
    } else {
        j
    }
}

/// Device `j`'s own implant region: its diffusion expanded by the implant
/// enclosure; emitted as a probe port.
pub open spec fn sp_imp_rect(cfg: TechConfig, p: MosParams, j: int) -> (int, int, int, int) {
    sp_expand4(sp_diff_rect(cfg, p, j), sp_imp_enc(cfg, p.devices@[j].mos_type))
}

/// The accumulated implant region drawn at device `j`: the union of the
/// implant regions of the run of same-polarity devices ending at `j`; the
/// accumulator resets whenever polarity changes.
pub open spec fn sp_imp_merged(cfg: TechConfig, p: MosParams, j: int) -> (int, int, int, int) {
    let e = sp_imp_enc(cfg, p.devices@[j].mos_type);
    (
        sp_diff_x(cfg, p, sp_run_start(p, j)) - e,
        -e,
        sp_diff_x(cfg, p, j) + p.devices@[j].width + e,
        sp_diff_perp(cfg, p) + e,
    )
}

/// A P-type device's well region: its diffusion expanded by the well
/// enclosure; never merged.
pub open spec fn sp_well_rect(cfg: TechConfig, p: MosParams, j: int) -> (int, int, int, int) {
    sp_expand4(sp_diff_rect(cfg, p, j), sp_well_enc(cfg))
}

/// Index of device `j`'s first drawn element: each device draws its merged
/// implant region, for PMOS its well region, and its diffusion.
pub open spec fn sp_elem_base(p: MosParams, j: int) -> int
    decreases j,
{
    if j <= 0 {
        0
    } else {
        sp_elem_base(p, j - 1) + (if p.devices@[j - 1].mos_type == MosType::Pmos {
            3int
        } else {
            2int
        })
    }
}

/// Index of device `j`'s diffusion element within the drawn elements.
pub open spec fn sp_diff_elem_idx(p: MosParams, j: int) -> int {
    sp_elem_base(p, j) + (if p.devices@[j].mos_type == MosType::Pmos {
        2int
    } else {
        1int
    })
}

/// Index of device `j`'s first port: an implant probe port each, plus a
/// well port for PMOS.
pub open spec fn sp_port_base(p: MosParams, j: int) -> int
    decreases j,
{
    if j <= 0 {
        0
    } else {
        sp_port_base(p, j - 1) + (if p.devices@[j - 1].mos_type == MosType::Pmos {
            2int
        } else {
            1int
        })
    }
}

/// Poly finger `i`'s rectangle: the full left-to-right diffusion extent
/// plus the poly-over-diffusion extension on each side, with the fixed
/// extra protrusion on the contact side; fingers stack at one pitch of
/// gate length plus finger spacing.
pub open spec fn sp_poly_rect(cfg: TechConfig, p: MosParams, i: int) -> (int, int, int, int) {
    let ext = (cfg.sp_layer(LayerName::Poly)->Some_0).sp_extension(LayerName::Diff);
    let nd = p.devices@.len() as int;
    let y = sp_diff_edge_to_gate(cfg) + i * (p.length + sp_finger_space(cfg));
    (
        -ext - POLY_FUDGE,
        y,
        sp_diff_x(cfg, p, nd - 1) + p.devices@[nd - 1].width + ext,
        y + p.length,
    )
}

/// Poly box of the shared polyc contact, from the contact model.
pub open spec fn sp_gate_poly_box(cfg: TechConfig) -> (int, int, int, int) {
    sp_model_bbox(cfg, sp_gate_ct_params(), LayerName::Poly)->Some_0
}

/// Metal box of the shared polyc contact, from the contact model.
pub open spec fn sp_gate_li_box(cfg: TechConfig) -> (int, int, int, int) {
    sp_model_bbox(cfg, sp_gate_ct_params(), LayerName::Li)->Some_0
}

/// Cap box of the shared polyc contact, from the contact model.
pub open spec fn sp_gate_npc_box(cfg: TechConfig) -> (int, int, int, int) {
    sp_model_bbox(cfg, sp_gate_ct_params(), LayerName::Npc)->Some_0
}

/// Height of one gate contact on poly. One gate contact per finger sits at
/// the pitch of this line plus the poly spacing.
pub open spec fn sp_gate_line(cfg: TechConfig) -> int {
    sp_gate_poly_box(cfg).3 - sp_gate_poly_box(cfg).1
}

/// The per-finger gate contact pitch: contact line plus poly spacing.
pub open spec fn sp_gate_pitch(cfg: TechConfig) -> int {
    sp_gate_line(cfg) + (cfg.sp_layer(LayerName::Poly)->Some_0).space as int
}

/// Low edge of the per-finger contact stack: the span of all `fingers` contacts
/// at their pitch, centered on the poly fingers' combined span and rounded
/// to the grid.
pub open spec fn sp_contact_start(cfg: TechConfig, p: MosParams) -> int {
    let nf = p.fingers as int;
    let total = nf * sp_gate_line(cfg) + (nf - 1) * ((cfg.sp_layer(LayerName::Poly)->Some_0).space as int);
    let y0 = sp_diff_edge_to_gate(cfg);
    let y1 = sp_diff_edge_to_gate(cfg) + nf * p.length + (nf - 1) * sp_finger_space(cfg);
    crate::sp_round((y0 + y1) / 2 - total / 2, cfg.grid as int)
}

/// X offset at which the shared gate contact is placed: its poly box ends
/// at the fingers' protruding left edge.
pub open spec fn sp_gate_ofsx(cfg: TechConfig) -> int {
    -(cfg.sp_layer(LayerName::Poly)->Some_0).sp_extension(LayerName::Diff) - POLY_FUDGE
        - sp_gate_poly_box(cfg).2
}

/// Gate pin `k`: the shared contact's metal box translated to finger `k`'s
/// slot of the centered stack.
pub open spec fn sp_gate_pin(cfg: TechConfig, p: MosParams, k: int) -> (int, int, int, int) {
    let lb = sp_gate_li_box(cfg);
    let oy = sp_contact_start(cfg, p) + k * sp_gate_pitch(cfg) - sp_gate_poly_box(cfg).1;
    (lb.0 + sp_gate_ofsx(cfg), lb.1 + oy, lb.2 + sp_gate_ofsx(cfg), lb.3 + oy)
}

/// The single merged gate-cap region: the contact's cap box at the first
/// finger slot, extended to cover it at the last.
pub open spec fn sp_npc_merged(cfg: TechConfig, p: MosParams) -> (int, int, int, int) {
    let nb = sp_gate_npc_box(cfg);
    let nf = p.fingers as int;
    (
        nb.0 + sp_gate_ofsx(cfg),
        nb.1 + sp_contact_start(cfg, p) - sp_gate_poly_box(cfg).1,
        nb.2 + sp_gate_ofsx(cfg),
        nb.3 + sp_contact_start(cfg, p) + (nf - 1) * sp_gate_pitch(cfg) - sp_gate_poly_box(cfg).1,
    )
}

/// The largest count in `[1, k]` whose single-row contact spans at most `w`
/// on the diffusion layer, scanned downward; zero when none fits.
pub open spec fn sp_fit_from(cfg: TechConfig, stack: StackName, w: int, k: int) -> int
    decreases k,
{
    if k < 1 {
        0
    } else if sp_sized_span(cfg, stack, Dir::Horiz, LayerName::Diff, k as i64) <= w {
        k
    } else {
        sp_fit_from(cfg, stack, w, k - 1)
    }
}

/// The column count of the largest single-row diffusion contact fitting a
/// device of width `w`.
pub open spec fn sp_sd_cols(cfg: TechConfig, stack: StackName, w: int) -> int {
    sp_fit_from(cfg, stack, w, MAX_CONTACT_UNITS as int)
}

/// The parameters of device `j`'s source/drain contacts: the widest
/// fitting single-row contact on its polarity's stack.
pub open spec fn sp_sd_params(cfg: TechConfig, p: MosParams, j: int) -> ContactParams {
    let stack = sp_sd_stack(p.devices@[j].mos_type);
    sp_sized_params(stack, Dir::Horiz, sp_sd_cols(cfg, stack, p.devices@[j].width as int) as i64)
}

/// Source/drain pin of device `j` at gap `i`: the fitted contact's metal
/// box, centered horizontally on the diffusion column, at the gap's row;
/// rows advance by gate length plus finger spacing.
pub open spec fn sp_sd_pin(cfg: TechConfig, p: MosParams, j: int, i: int) -> (int, int, int, int) {
    let cp = sp_sd_params(cfg, p, j);
    let db = sp_model_bbox(cfg, cp, LayerName::Diff)->Some_0;
    let lb = sp_model_bbox(cfg, cp, LayerName::Li)->Some_0;
    let ox = sp_diff_x(cfg, p, j) - db.0 + (p.devices@[j].width - (db.2 - db.0)) / 2;
    let oy = i * (p.length + sp_finger_space(cfg)) - db.1;
    (lb.0 + ox, lb.1 + oy, lb.2 + ox, lb.3 + oy)
}

/// Device `j`'s drawn elements match the model: the merged implant region,
/// for PMOS the well region, then the diffusion rectangle.
pub open spec fn sp_dev_elems(cfg: TechConfig, p: MosParams, elems: Seq<Element>, j: int) -> bool {
    let b = sp_elem_base(p, j);
    let dev = p.devices@[j];
    &&& elems[b].layer == sp_imp_layer(dev.mos_type)
    &&& rect_eq4(elems[b].rect, sp_imp_merged(cfg, p, j))
    &&& (dev.mos_type == MosType::Pmos ==> elems[b + 1].layer == LayerName::Nwell && rect_eq4(
        elems[b + 1].rect,
        sp_well_rect(cfg, p, j),
    ))
    &&& elems[sp_diff_elem_idx(p, j)].layer == LayerName::Diff
    &&& rect_eq4(elems[sp_diff_elem_idx(p, j)].rect, sp_diff_rect(cfg, p, j))
}

/// Device `j`'s probe ports match the model: its own (unmerged) implant
/// region, and for PMOS its well region.
pub open spec fn sp_dev_ports(cfg: TechConfig, p: MosParams, ports: Seq<PortEntry>, j: int) -> bool {
    let b = sp_port_base(p, j);
    let dev = p.devices@[j];
    &&& ports[b].name == (match dev.mos_type {
        MosType::Nmos => PortName::Nsdm(j as i64),
        MosType::Pmos => PortName::Psdm(j as i64),
    })
    &&& ports[b].layer == sp_imp_layer(dev.mos_type)
    &&& rect_eq4(ports[b].rect, sp_imp_rect(cfg, p, j))
    &&& (dev.mos_type == MosType::Pmos ==> ports[b + 1].name == PortName::Vpb(j as i64) && ports[b
        + 1].layer == LayerName::Nwell && rect_eq4(ports[b + 1].rect, sp_well_rect(cfg, p, j)))
}

/// Poly finger `i`'s drawn element matches the model.
pub open spec fn sp_poly_elem(cfg: TechConfig, p: MosParams, elems: Seq<Element>, i: int) -> bool {
    let b = sp_elem_base(p, p.devices@.len() as int);
    &&& elems[b + i].layer == LayerName::Poly
    &&& rect_eq4(elems[b + i].rect, sp_poly_rect(cfg, p, i))
}

/// Finger `k`'s gate port: the recorded pin, on gate metal.
pub open spec fn sp_gate_port(
    cfg: TechConfig,
    p: MosParams,
    ports: Seq<PortEntry>,
    pins: Seq<Rect>,
    k: int,
) -> bool {
    ports[sp_port_base(p, p.devices@.len() as int) + k] == (PortEntry {
        name: PortName::Gate(k as i64),
        layer: LayerName::Li,
        rect: pins[k],
    })
}

/// A source/drain port entry: a recorded pin of some device and gap.
pub open spec fn sp_sd_port(cfg: TechConfig, p: MosParams, e: PortEntry) -> bool {
    exists|j: int, i: int|
        0 <= j < p.devices@.len() && 0 <= i <= p.fingers && !p.devices@[j].skip_sd_metal@.contains(
            i as i64,
        ) && e.name == PortName::Sd(j as i64, i as i64) && e.layer == LayerName::Li && rect_eq4(
            e.rect,
            #[trigger] sp_sd_pin(cfg, p, j, i),
        )
}

/// The shared contact instance at finger `k`.
pub open spec fn sp_gate_inst(cfg: TechConfig, p: MosParams, inst: Instance, k: int) -> bool {
    &&& inst.cell == CellId::Contact(sp_gate_ct_params())
    &&& inst.loc.x as int == sp_gate_ofsx(cfg)
    &&& inst.loc.y as int == sp_contact_start(cfg, p) + k * sp_gate_pitch(cfg) - sp_gate_poly_box(
        cfg,
    ).1
    &&& inst.reflect_vert == false
}

/// The full geometry of a generated MOS layout: every drawn element, every
/// probe port, every gate and source/drain pin rectangle, and the shared
/// gate contact placements are functions of the design rules and the group
/// specification alone.
pub open spec fn mos_layout_geom(cfg: TechConfig, p: MosParams, t: LayoutTransistors) -> bool {
    let nf = p.fingers as int;
    let nd = p.devices@.len() as int;
    let elems = t.cell.elems@;
    let ports = t.cell.ports@;
    let insts = t.cell.insts@;
    &&& sp_mos_valid(p)
    &&& t.gate_pins@.len() == nf
    &&& t.sd_pins@.len() == nd
    &&& (forall|j: int| 0 <= j < nd ==> (#[trigger] t.sd_pins@[j])@.len() == nf + 1)
    // Diffusion, implant and well geometry, device by device, then the
    // poly fingers, then the single merged gate-cap region.
    &&& elems.len() == sp_elem_base(p, nd) + nf + 1
    &&& (forall|j: int| 0 <= j < nd ==> #[trigger] sp_dev_elems(cfg, p, elems, j))
    &&& (forall|i: int| 0 <= i < nf ==> #[trigger] sp_poly_elem(cfg, p, elems, i))
    &&& elems[sp_elem_base(p, nd) + nf].layer == LayerName::Npc
    &&& rect_eq4(elems[sp_elem_base(p, nd) + nf].rect, sp_npc_merged(cfg, p))
    // Probe ports device by device, then one gate port per finger, then a
    // source/drain port for each recorded pin.
    &&& ports.len() >= sp_port_base(p, nd) + nf
    &&& (forall|j: int| 0 <= j < nd ==> #[trigger] sp_dev_ports(cfg, p, ports, j))
    &&& (forall|k: int| 0 <= k < nf ==> #[trigger] sp_gate_port(cfg, p, ports, t.gate_pins@, k))
    &&& (forall|q: int|
        sp_port_base(p, nd) + nf <= q < ports.len() ==> sp_sd_port(cfg, p, #[trigger] ports[q]))
    // Gate pins and the shared contact placed once per finger.
    &&& (forall|k: int| 0 <= k < nf ==> rect_eq4(#[trigger] t.gate_pins@[k], sp_gate_pin(cfg, p, k)))
    &&& insts.len() >= nf
    &&& (forall|k: int| 0 <= k < nf ==> sp_gate_inst(cfg, p, #[trigger] insts[k], k))
    // Source/drain pins.
    &&& (forall|j: int, i: int|
        0 <= j < nd && 0 <= i <= nf && (#[trigger] t.sd_pins@[j]@[i]) is Some ==> rect_eq4(
            t.sd_pins@[j]@[i]->Some_0,
            sp_sd_pin(cfg, p, j, i),
        ))
    &&& t.cell.outline is None
}

/// The fit scan agrees with any count that fits while every larger one in
/// range does not: the sized search's result is [`sp_sd_cols`].
pub proof fn lemma_fit_from_char(cfg: TechConfig, stack: StackName, w: int, n: int, k: int)
    requires
        1 <= n <= k <= MAX_CONTACT_UNITS,
        sp_sized_span(cfg, stack, Dir::Horiz, LayerName::Diff, n as i64) <= w,
        forall|m: i64|
            n < m <= k ==> sp_sized_span(cfg, stack, Dir::Horiz, LayerName::Diff, m) > w,
    ensures
        sp_fit_from(cfg, stack, w, k) == n,
    decreases k,
{
    if k > n {
        assert(sp_sized_span(cfg, stack, Dir::Horiz, LayerName::Diff, k as i64) > w);
        lemma_fit_from_char(cfg, stack, w, n, k - 1);
    }
}

/// Element and port bases start at zero and never go negative.
pub proof fn lemma_base_nonneg(p: MosParams, j: int)
    requires
        0 <= j,
    ensures
        0 <= sp_elem_base(p, j),
        0 <= sp_port_base(p, j),
    decreases j,
{
    if j > 0 {
        lemma_base_nonneg(p, j - 1);
    }
}

/// Element and port bases grow with the device index, by at most three and
/// two slots per device.
pub proof fn lemma_base_monotone(p: MosParams, j1: int, j2: int)
    requires
        0 <= j1 <= j2,
    ensures
        sp_elem_base(p, j1) <= sp_elem_base(p, j2),
        sp_port_base(p, j1) <= sp_port_base(p, j2),
        sp_elem_base(p, j2) - sp_elem_base(p, j1) <= 3 * (j2 - j1),
        sp_port_base(p, j2) - sp_port_base(p, j1) <= 2 * (j2 - j1),
    decreases j2 - j1,
{
    if j1 < j2 {
        lemma_base_monotone(p, j1, j2 - 1);
    }
}

/// A run of same-polarity devices starts at or before its last member.
pub proof fn lemma_run_start_bounds(p: MosParams, j: int)
    requires
        0 <= j,
    ensures
        0 <= sp_run_start(p, j) <= j,
    decreases j,
{
    if j > 0 && p.devices@[j - 1].mos_type == p.devices@[j].mos_type {
        lemma_run_start_bounds(p, j - 1);
    }
}

/// Diffusion columns never move left as the device index grows.
pub proof fn lemma_diff_x_monotone(cfg: TechConfig, p: MosParams, j1: int, j2: int)
    requires
        cfg.wf(),
        sp_mos_valid(p),
        cfg.sp_layer(LayerName::Diff) is Some,
        0 <= j1 <= j2 < p.devices@.len(),
    ensures
        sp_diff_x(cfg, p, j1) <= sp_diff_x(cfg, p, j2),
    decreases j2 - j1,
{
    if j1 < j2 {
        lemma_diff_x_monotone(cfg, p, j1, j2 - 1);
        lemma_layer_find_bounded(cfg.layers@, LayerName::Diff);
        lemma_space_find_bounded(cfg.spaces@, LayerName::Diff, LayerName::Nwell);
        lemma_rule_find_bounded((cfg.sp_layer(LayerName::Diff)->Some_0).enclosures@, LayerName::Nwell);
        assert(crate::mos::sp_device_valid(p.devices@[j2 - 1]));
    }
}

/// The device-local model functions see only what a group specification
/// contains, so structurally equal specifications agree on them.
proof fn lemma_model_respects_eq(cfg: TechConfig, a: MosParams, b: MosParams, j: int)
    requires
        crate::mos::sp_mos_params_eq(a, b),
        0 <= j <= a.devices@.len(),
    ensures
        sp_elem_base(a, j) == sp_elem_base(b, j),
        sp_port_base(a, j) == sp_port_base(b, j),
        j < a.devices@.len() ==> sp_diff_x(cfg, a, j) == sp_diff_x(cfg, b, j),
        j < a.devices@.len() ==> sp_run_start(a, j) == sp_run_start(b, j),
    decreases j,
{
    if j > 0 {
        lemma_model_respects_eq(cfg, a, b, j - 1);
        assert(crate::mos::sp_device_eq(a.devices@[j - 1], b.devices@[j - 1]));
        if j < a.devices@.len() {
            assert(crate::mos::sp_device_eq(a.devices@[j], b.devices@[j]));
        }
    }
}

/// Layout geometry carries over to structurally equal specifications and
/// observably equal artifacts.
pub proof fn lemma_geom_respects_eq(
    cfg: TechConfig,
    p1: MosParams,
    p2: MosParams,
    t1: LayoutTransistors,
    t2: LayoutTransistors,
)
    requires
        crate::mos::sp_mos_params_eq(p1, p2),
        mos_layout_geom(cfg, p1, t1),
        crate::mos::sp_layout_eq(t2, t1),
    ensures
        mos_layout_geom(cfg, p2, t2),
{
    let nd = p2.devices@.len() as int;
    let nf = p2.fingers as int;
    assert forall|j: int|
        #![trigger sp_elem_base(p1, j)]
        #![trigger sp_port_base(p1, j)]
        #![trigger sp_elem_base(p2, j)]
        #![trigger sp_port_base(p2, j)]
        0 <= j <= nd implies sp_elem_base(p1, j) == sp_elem_base(p2, j) && sp_port_base(p1, j)
        == sp_port_base(p2, j) by {
        lemma_model_respects_eq(cfg, p1, p2, j);
    }
    assert forall|j: int|
        #![trigger sp_diff_x(cfg, p1, j)]
        #![trigger sp_diff_x(cfg, p2, j)]
        0 <= j < nd implies sp_diff_x(cfg, p1, j) == sp_diff_x(cfg, p2, j) && sp_run_start(p1, j)
        == sp_run_start(p2, j) by {
        lemma_model_respects_eq(cfg, p1, p2, j);
    }
    assert(sp_mos_valid(p2)) by {
        assert forall|j: int|
            0 <= j < p2.devices@.len() implies crate::mos::sp_device_valid(
            #[trigger] p2.devices@[j],
        ) by {
            assert(crate::mos::sp_device_eq(p1.devices@[j], p2.devices@[j]));
            assert(crate::mos::sp_device_valid(p1.devices@[j]));
        }
    }
    assert forall|j: int| 0 <= j < nd implies crate::mos::sp_device_eq(
        #[trigger] p1.devices@[j],
        p2.devices@[j],
    ) by {}
    assert(t2.cell.elems@ == t1.cell.elems@);
    assert(t2.cell.ports@ == t1.cell.ports@);
    assert(t2.cell.insts@ == t1.cell.insts@);
    assert(t2.gate_pins@ == t1.gate_pins@);
    assert(t2.sd_pins@.len() == nd);
    assert forall|j: int| 0 <= j < nd implies (#[trigger] t2.sd_pins@[j])@.len() == nf + 1 by {
        assert(t2.sd_pins@[j]@ == t1.sd_pins@[j]@);
        assert(t1.sd_pins@[j]@.len() == nf + 1);
    }
    assert forall|j: int| 0 <= j < nd implies #[trigger] sp_dev_elems(
        cfg,
        p2,
        t2.cell.elems@,
        j,
    ) by {
        assert(sp_dev_elems(cfg, p1, t1.cell.elems@, j));
        lemma_run_start_bounds(p1, j);
        assert(sp_imp_merged(cfg, p1, j) == sp_imp_merged(cfg, p2, j));
        assert(sp_diff_rect(cfg, p1, j) == sp_diff_rect(cfg, p2, j));
        assert(sp_well_rect(cfg, p1, j) == sp_well_rect(cfg, p2, j));
    }
    assert forall|j: int| 0 <= j < nd implies #[trigger] sp_dev_ports(
        cfg,
        p2,
        t2.cell.ports@,
        j,
    ) by {
        assert(sp_dev_ports(cfg, p1, t1.cell.ports@, j));
        assert(sp_imp_rect(cfg, p1, j) == sp_imp_rect(cfg, p2, j));
        assert(sp_well_rect(cfg, p1, j) == sp_well_rect(cfg, p2, j));
    }
    assert forall|i: int| 0 <= i < nf implies #[trigger] sp_poly_elem(
        cfg,
        p2,
        t2.cell.elems@,
        i,
    ) by {
        assert(sp_poly_elem(cfg, p1, t1.cell.elems@, i));
        assert(sp_poly_rect(cfg, p1, i) == sp_poly_rect(cfg, p2, i));
    }
    assert(sp_contact_start(cfg, p1) == sp_contact_start(cfg, p2));
    assert(sp_npc_merged(cfg, p1) == sp_npc_merged(cfg, p2));
    assert forall|k: int| 0 <= k < nf implies rect_eq4(
        #[trigger] t2.gate_pins@[k],
        sp_gate_pin(cfg, p2, k),
    ) by {
        assert(rect_eq4(t1.gate_pins@[k], sp_gate_pin(cfg, p1, k)));
        assert(sp_gate_pin(cfg, p1, k) == sp_gate_pin(cfg, p2, k));
    }
    assert forall|k: int| 0 <= k < nf implies sp_gate_inst(
        cfg,
        p2,
        #[trigger] t2.cell.insts@[k],
        k,
    ) by {
        assert(sp_gate_inst(cfg, p1, t1.cell.insts@[k], k));
    }
    assert forall|q: int|
        sp_port_base(p2, nd) + nf <= q < t2.cell.ports@.len() implies sp_sd_port(
        cfg,
        p2,
        #[trigger] t2.cell.ports@[q],
    ) by {
        assert(sp_sd_port(cfg, p1, t1.cell.ports@[q]));
        let (j, i) = choose|j: int, i: int|
            0 <= j < p1.devices@.len() && 0 <= i <= p1.fingers
                && !p1.devices@[j].skip_sd_metal@.contains(i as i64) && t1.cell.ports@[q].name
                == PortName::Sd(j as i64, i as i64) && t1.cell.ports@[q].layer == LayerName::Li
                && rect_eq4(t1.cell.ports@[q].rect, #[trigger] sp_sd_pin(cfg, p1, j, i));
        assert(sp_sd_pin(cfg, p1, j, i) == sp_sd_pin(cfg, p2, j, i));
        assert(!p2.devices@[j].skip_sd_metal@.contains(i as i64));
        assert(rect_eq4(t2.cell.ports@[q].rect, sp_sd_pin(cfg, p2, j, i)));
    }
    assert forall|k: int| 0 <= k < nf implies #[trigger] sp_gate_port(
        cfg,
        p2,
        t2.cell.ports@,
        t2.gate_pins@,
        k,
    ) by {
        assert(sp_gate_port(cfg, p1, t1.cell.ports@, t1.gate_pins@, k));
    }
    assert forall|j: int, i: int|
        0 <= j < nd && 0 <= i <= nf && (#[trigger] t2.sd_pins@[j]@[i]) is Some implies rect_eq4(
        t2.sd_pins@[j]@[i]->Some_0,
        sp_sd_pin(cfg, p2, j, i),
    ) by {
        assert(t2.sd_pins@[j]@ == t1.sd_pins@[j]@);
        assert(rect_eq4(t1.sd_pins@[j]@[i]->Some_0, sp_sd_pin(cfg, p1, j, i)));
        assert(sp_sd_pin(cfg, p1, j, i) == sp_sd_pin(cfg, p2, j, i));
    }
}

/// The metal layer with routing index `i`.
pub open spec fn sp_metal_layer(i: int) -> LayerName {
    if i == 0 {
        LayerName::Li
    } else if i == 1 {
        LayerName::M1
    } else if i == 2 {
        LayerName::M2
    } else if i == 3 {
        LayerName::M3
    } else if i == 4 {
        LayerName::M4
    } else {
        LayerName::M5
    }
}

/// The via layer connecting metal `i` to metal `i + 1`.
pub open spec fn sp_via_layer(i: int) -> LayerName {
    if i == 0 {
        LayerName::Mcon
    } else if i == 1 {
        LayerName::Via
    } else if i == 2 {
        LayerName::Via2
    } else if i == 3 {
        LayerName::Via3
    } else {
        LayerName::Via4
    }
}

/// The stack connecting metal `i` to metal `i + 1`.
pub open spec fn sp_stack_idx(i: int) -> StackName {
    if i == 0 {
        StackName::Viali
    } else if i == 1 {
        StackName::Via1
    } else if i == 2 {
        StackName::Via2
    } else if i == 3 {
        StackName::Via3
    } else {
        StackName::Via4
    }
}

impl crate::Pdk {
    /// The name of metal layer `i`. sky130 has six routing metals.
    pub fn metal_name(&self, i: LayerIdx) -> (r: &'static str)
        requires
            i <= 5,
        ensures
            i == 0 ==> r@ == "li"@,
            i == 1 ==> r@ == "m1"@,
            i == 2 ==> r@ == "m2"@,
            i == 3 ==> r@ == "m3"@,
            i == 4 ==> r@ == "m4"@,
            i == 5 ==> r@ == "m5"@,
    {
        match i {
            0 => "li",
            1 => "m1",
            2 => "m2",
            3 => "m3",
            4 => "m4",
            _ => "m5",
        }
    }

    /// The name of the via layer connecting metal `i + 1` to metal `i`.
    pub fn via_name(&self, i: LayerIdx) -> (r: &'static str)
        requires
            i <= 4,
        ensures
            i == 0 ==> r@ == "mcon"@,
            i == 1 ==> r@ == "via"@,
            i == 2 ==> r@ == "via2"@,
            i == 3 ==> r@ == "via3"@,
            i == 4 ==> r@ == "via4"@,
    {
        match i {
            0 => "mcon",
            1 => "via",
            2 => "via2",
            3 => "via3",
            _ => "via4",
        }
    }

    /// The stack connecting metal `i + 1` to metal `i`.
    pub fn stack_name(&self, i: LayerIdx) -> (r: StackName)
        requires
            i <= 4,
        ensures
            r == sp_stack_idx(i as int),
    {
        match i {
            0 => StackName::Viali,
            1 => StackName::Via1,
            2 => StackName::Via2,
            3 => StackName::Via3,
            _ => StackName::Via4,
        }
    }

    /// The layer of metal `i`.
    pub fn metal(&self, i: LayerIdx) -> (r: LayerName)
        requires
            i <= 5,
        ensures
            r == sp_metal_layer(i as int),
    {
        match i {
            0 => LayerName::Li,
            1 => LayerName::M1,
            2 => LayerName::M2,
            3 => LayerName::M3,
            4 => LayerName::M4,
            _ => LayerName::M5,
        }
    }

    /// The layer of the via connecting metal `i + 1` to metal `i`.
    pub fn via(&self, i: LayerIdx) -> (r: LayerName)
        requires
            i <= 4,
        ensures
            r == sp_via_layer(i as int),
    {
        match i {
            0 => LayerName::Mcon,
            1 => LayerName::Via,
            2 => LayerName::Via2,
            3 => LayerName::Via3,
            _ => LayerName::Via4,
        }
    }
}

/// Spacing between adjacent gate fingers: enough room for a source/drain
/// contact between them (twice gate-to-cut clearance plus metal
/// width), never less than the poly layer's own spacing.
pub open spec fn sp_finger_space(cfg: TechConfig) -> int {
    sp_max(
        2 * cfg.sp_space(LayerName::Gate, LayerName::Licon) + (cfg.sp_layer(LayerName::Li)->Some_0).width,
        (cfg.sp_layer(LayerName::Poly)->Some_0).space as int,
    )
}

/// Clearance from the diffusion edge to the first gate: enough for the
/// diffusion's required extension past poly, and for a cut with its
/// enclosure and gate clearance.
pub open spec fn sp_diff_edge_to_gate(cfg: TechConfig) -> int {
    sp_max(
        (cfg.sp_layer(LayerName::Diff)->Some_0).sp_extension(LayerName::Poly),
        cfg.sp_space(LayerName::Gate, LayerName::Licon) + (cfg.sp_layer(LayerName::Licon)->Some_0).width
            + (cfg.sp_layer(LayerName::Licon)->Some_0).sp_enclosure(LayerName::Diff),
    )
}

/// Clearance between diffusions of opposite polarity: the diffusion-to-well
/// spacing plus the well's enclosure of diffusion.
pub open spec fn sp_diff_to_opposite_diff(cfg: TechConfig) -> int {
    cfg.sp_space(LayerName::Diff, LayerName::Nwell) + (cfg.sp_layer(LayerName::Diff)->Some_0).sp_enclosure(
        LayerName::Nwell,
    )
}

impl crate::Pdk {
    /// Generates the layout of a multi-finger MOS group: per-device
    /// diffusion and implant/well regions laid out left to right, `fingers`
    /// poly gates, one gate contact per finger centered on the finger stack,
    /// and the largest fitting source/drain contact at every gap a device
    /// does not skip. `cell_index` numbers the cell within its library.
    /// Fails exactly on invalid group specifications, on missing rule-table
    /// entries, and on a device too narrow for any source/drain contact.
    #[verifier::rlimit(100)]
    #[verifier::spinoff_prover]
    pub fn draw_sky130_mos(&mut self, params: MosParams, cell_index: usize) -> (r: MosResult<
        LayoutTransistors,
    >)
        requires
            old(self).wf(),
        ensures
            final(self).wf(),
            final(self).config == old(self).config,
            final(self).tech == old(self).tech,
            match r {
                Ok(t) => sp_mos_err(old(self).config, params) is None && mos_layout_shape(
                    params,
                    t,
                ) && mos_layout_geom(old(self).config, params, t) && t.cell.id == CellId::Mos(
                    cell_index,
                ),
                Err(e) => sp_mos_err(old(self).config, params) == Some(e),
            },
    {
        let ghost cfg = self.config;
        match params.validate() {
            Ok(()) => {},
            Err(e) => {
                return Err(e);
            },
        }
        let deg: i64 = match diff_edge_to_gate(&self.config) {
            Ok(v) => v,
            Err(e) => {
                return Err(e);
            },
        };
        let fs: i64 = match finger_space(&self.config) {
            Ok(v) => v,
            Err(e) => {
                return Err(e);
            },
        };
        let dtod: i64 = match diff_to_opposite_diff(&self.config) {
            Ok(v) => v,
            Err(e) => {
                proof {
                    assert(false);
                }
                return Err(e);
            },
        };
        let (diff_space, enc_psdm, enc_nsdm, enc_nwell): (i64, i64, i64, i64) = match self
            .config
            .layer(LayerName::Diff) {
            Ok(dr) => {
                proof {
                    lemma_layer_find_bounded(cfg.layers@, LayerName::Diff);
                    lemma_rule_find_bounded(dr.enclosures@, LayerName::Psdm);
                    lemma_rule_find_bounded(dr.enclosures@, LayerName::Nsdm);
                    lemma_rule_find_bounded(dr.enclosures@, LayerName::Nwell);
                }
                (
                    dr.space,
                    dr.enclosure(LayerName::Psdm),
                    dr.enclosure(LayerName::Nsdm),
                    dr.enclosure(LayerName::Nwell),
                )
            },
            Err(e) => {
                proof {
                    assert(false);
                }
                return Err(e);
            },
        };
        let (poly_space, poly_ext_diff): (i64, i64) = match self.config.layer(LayerName::Poly) {
            Ok(pr) => {
                proof {
                    lemma_layer_find_bounded(cfg.layers@, LayerName::Poly);
                    lemma_rule_find_bounded(pr.extensions@, LayerName::Diff);
                }
                (pr.space, pr.extension(LayerName::Diff))
            },
            Err(e) => {
                proof {
                    assert(false);
                }
                return Err(e);
            },
        };
        let nf: i64 = params.fingers();
        let length: i64 = params.length();
        let ndev: usize = params.devices.len();

        // Diffusion length perpendicular to the gates.
        proof {
            assert(nf * length <= 1024 * 1_000_000 && nf * length >= 0) by (nonlinear_arith)
                requires
                    1 <= nf <= 1024,
                    1 <= length <= 1_000_000,
            ;
            assert((nf - 1) * fs <= 1024 * 3_000_000 && (nf - 1) * fs >= 0) by (nonlinear_arith)
                requires
                    1 <= nf <= 1024,
                    0 <= fs <= 3_000_000,
            ;
        }
        let diff_perp: i64 = 2 * deg + nf * length + (nf - 1) * fs;

        let mut elems: Vec<Element> = Vec::new();
        let mut insts: Vec<Instance> = Vec::new();
        let mut ports: Vec<PortEntry> = Vec::new();
        let mut diff_xs: Vec<i64> = Vec::new();

        // Diffusion and implant/well regions, left to right. Implant
        // regions of adjacent devices of one polarity merge into one drawn
        // box; each device also gets its own implant probe port.
        let mut cx: i64 = 0;
        let mut prev: Option<MosType> = None;
        let mut prev_psdm: Option<Rect> = None;
        let mut prev_nsdm: Option<Rect> = None;
        let mut j: usize = 0;
        while j < ndev
            invariant
                j <= ndev,
                ndev == params.devices@.len(),
                sp_mos_valid(params),
                cfg == self.config,
                cfg.wf(),
                cfg.sp_layer(LayerName::Diff) is Some,
                deg == sp_diff_edge_to_gate(cfg),
                fs == sp_finger_space(cfg),
                dtod == sp_diff_to_opposite_diff(cfg),
                diff_space == (cfg.sp_layer(LayerName::Diff)->Some_0).space,
                enc_psdm == sp_imp_enc(cfg, MosType::Pmos),
                enc_nsdm == sp_imp_enc(cfg, MosType::Nmos),
                enc_nwell == sp_well_enc(cfg),
                diff_perp == sp_diff_perp(cfg, params),
                0 <= diff_perp <= 5_000_000_000,
                0 <= diff_space <= MAX_RULE,
                0 <= enc_psdm <= MAX_RULE,
                0 <= enc_nsdm <= MAX_RULE,
                0 <= enc_nwell <= MAX_RULE,
                0 <= dtod <= 2 * MAX_RULE,
                0 <= cx <= 3_000_000 * (j as int),
                diff_xs@.len() == j,
                forall|m: int| 0 <= m < j ==> 0 <= #[trigger] diff_xs@[m] <= cx,
                forall|m: int| 0 <= m < j ==> #[trigger] diff_xs@[m] == sp_diff_x(cfg, params, m),
                elems@.len() == sp_elem_base(params, j as int),
                ports@.len() == sp_port_base(params, j as int),
                insts@.len() == 0,
                forall|m: int| 0 <= m < j ==> #[trigger] sp_dev_elems(cfg, params, elems@, m),
                forall|m: int| 0 <= m < j ==> #[trigger] sp_dev_ports(cfg, params, ports@, m),
                cx == if j == 0 {
                    0int
                } else {
                    sp_diff_x(cfg, params, j as int - 1) + params.devices@[j as int - 1].width
                },
                match prev {
                    Option::Some(mt) => j > 0 && mt == params.devices@[j as int - 1].mos_type,
                    Option::None => j == 0,
                },
                match prev_psdm {
                    Option::Some(r) => j > 0 && params.devices@[j as int - 1].mos_type
                        == MosType::Pmos && rect_eq4(r, sp_imp_merged(cfg, params, j as int - 1))
                        && crate::geometry::rect_in(r, 8_000_000_000),
                    Option::None => j == 0 || params.devices@[j as int - 1].mos_type
                        == MosType::Nmos,
                },
                match prev_nsdm {
                    Option::Some(r) => j > 0 && params.devices@[j as int - 1].mos_type
                        == MosType::Nmos && rect_eq4(r, sp_imp_merged(cfg, params, j as int - 1))
                        && crate::geometry::rect_in(r, 8_000_000_000),
                    Option::None => j == 0 || params.devices@[j as int - 1].mos_type
                        == MosType::Pmos,
                },
            decreases ndev - j,
        {
            let ghost elems0 = elems@;
            let ghost ports0 = ports@;
            let d = &params.devices[j];
            if let Some(mt) = prev {
                if mt != d.mos_type {
                    cx = cx + dtod;
                } else {
                    cx = cx + diff_space;
                }
            }
            proof {
                assert(cx == sp_diff_x(cfg, params, j as int));
            }
            diff_xs.push(cx);
            let rect = Rect {
                p0: Point { x: cx, y: 0 },
                p1: Point { x: cx + d.width, y: diff_perp },
            };
            if d.mos_type == MosType::Pmos {
                let mut psdm_box = Rect {
                    p0: Point { x: rect.p0.x - enc_psdm, y: rect.p0.y - enc_psdm },
                    p1: Point { x: rect.p1.x + enc_psdm, y: rect.p1.y + enc_psdm },
                };
                proof {
                    assert(rect_eq4(psdm_box, sp_imp_rect(cfg, params, j as int)));
                }
                ports.push(
                    PortEntry {
                        name: PortName::Psdm(j as i64),
                        layer: LayerName::Psdm,
                        rect: psdm_box,
                    },
                );
                if let Some(pp) = prev_psdm {
                    psdm_box = crate::geometry::rect_union(&psdm_box, &pp);
                }
                proof {
                    if j > 0 && params.devices@[j as int - 1].mos_type == MosType::Pmos {
                        lemma_run_start_bounds(params, j as int - 1);
                        lemma_diff_x_monotone(
                            cfg,
                            params,
                            sp_run_start(params, j as int - 1),
                            j as int,
                        );
                        assert(sp_run_start(params, j as int) == sp_run_start(
                            params,
                            j as int - 1,
                        ));
                    } else {
                        assert(sp_run_start(params, j as int) == j as int);
                    }
                    assert(rect_eq4(psdm_box, sp_imp_merged(cfg, params, j as int)));
                }
                elems.push(Element { layer: LayerName::Psdm, rect: psdm_box });
                prev_psdm = Some(psdm_box);
                prev_nsdm = None;
                let well_box = Rect {
                    p0: Point { x: rect.p0.x - enc_nwell, y: rect.p0.y - enc_nwell },
                    p1: Point { x: rect.p1.x + enc_nwell, y: rect.p1.y + enc_nwell },
                };
                ports.push(
                    PortEntry {
                        name: PortName::Vpb(j as i64),
                        layer: LayerName::Nwell,
                        rect: well_box,
                    },
                );
                elems.push(Element { layer: LayerName::Nwell, rect: well_box });
            } else {
                let mut nsdm_box = Rect {
                    p0: Point { x: rect.p0.x - enc_nsdm, y: rect.p0.y - enc_nsdm },
                    p1: Point { x: rect.p1.x + enc_nsdm, y: rect.p1.y + enc_nsdm },
                };
                proof {
                    assert(rect_eq4(nsdm_box, sp_imp_rect(cfg, params, j as int)));
                }
                ports.push(
                    PortEntry {
                        name: PortName::Nsdm(j as i64),
                        layer: LayerName::Nsdm,
                        rect: nsdm_box,
                    },
                );
                if let Some(pn) = prev_nsdm {
                    nsdm_box = crate::geometry::rect_union(&nsdm_box, &pn);
                }
                proof {
                    if j > 0 && params.devices@[j as int - 1].mos_type == MosType::Nmos {
                        lemma_run_start_bounds(params, j as int - 1);
                        lemma_diff_x_monotone(
                            cfg,
                            params,
                            sp_run_start(params, j as int - 1),
                            j as int,
                        );
                        assert(sp_run_start(params, j as int) == sp_run_start(
                            params,
                            j as int - 1,
                        ));
                    } else {
                        assert(sp_run_start(params, j as int) == j as int);
                    }
                    assert(rect_eq4(nsdm_box, sp_imp_merged(cfg, params, j as int)));
                }
                elems.push(Element { layer: LayerName::Nsdm, rect: nsdm_box });
                prev_nsdm = Some(nsdm_box);
                prev_psdm = None;
            }
            elems.push(Element { layer: LayerName::Diff, rect });
            proof {
                lemma_base_nonneg(params, j as int);
                assert(sp_dev_elems(cfg, params, elems@, j as int));
                assert(sp_dev_ports(cfg, params, ports@, j as int));
                assert forall|m: int| 0 <= m < j as int + 1 implies #[trigger] sp_dev_elems(
                    cfg,
                    params,
                    elems@,
                    m,
                ) by {
                    if m < j as int {
                        assert(sp_dev_elems(cfg, params, elems0, m));
                        lemma_base_monotone(params, m + 1, j as int);
                        lemma_base_nonneg(params, m);
                    }
                }
                assert forall|m: int| 0 <= m < j as int + 1 implies #[trigger] sp_dev_ports(
                    cfg,
                    params,
                    ports@,
                    m,
                ) by {
                    if m < j as int {
                        assert(sp_dev_ports(cfg, params, ports0, m));
                        lemma_base_monotone(params, m + 1, j as int);
                        lemma_base_nonneg(params, m);
                    }
                }
            }
            cx = cx + d.width;
            prev = Some(d.mos_type);
            j += 1;
        }

        // The shared gate contact, built once.
        let gate_params = ContactParams {
            stack: StackName::Polyc,
            rows: 1,
            cols: 1,
            dir: Dir::Horiz,
        };
        let gate_ct = match self.get_contact(&gate_params) {
            Ok(c) => c,
            Err(e) => {
                return Err(e);
            },
        };
        let gate_bbox = match gate_ct.bbox(LayerName::Poly) {
            Some(b) => b,
            None => {
                proof {
                    lemma_bbox_spans(cfg, gate_params, gate_ct, LayerName::Poly);
                }
                return Err(Error::LayerNotInContact(LayerName::Poly));
            },
        };
        let gate_metal_bbox = match gate_ct.bbox(LayerName::Li) {
            Some(b) => b,
            None => {
                proof {
                    lemma_bbox_spans(cfg, gate_params, gate_ct, LayerName::Poly);
                    lemma_bbox_spans(cfg, gate_params, gate_ct, LayerName::Li);
                }
                return Err(Error::LayerNotInContact(LayerName::Li));
            },
        };
        let npc_bbox = match gate_ct.bbox(LayerName::Npc) {
            Some(b) => b,
            None => {
                proof {
                    lemma_bbox_spans(cfg, gate_params, gate_ct, LayerName::Npc);
                    assert(false);
                }
                return Err(Error::LayerNotInContact(LayerName::Npc));
            },
        };
        proof {
            lemma_bbox_spans(cfg, gate_params, gate_ct, LayerName::Poly);
            lemma_bbox_spans(cfg, gate_params, gate_ct, LayerName::Li);
            lemma_bbox_spans(cfg, gate_params, gate_ct, LayerName::Npc);
            lemma_bbox_exact(cfg, gate_params, gate_ct, LayerName::Poly);
            lemma_bbox_exact(cfg, gate_params, gate_ct, LayerName::Li);
            lemma_bbox_exact(cfg, gate_params, gate_ct, LayerName::Npc);
            assert(gate_params == sp_gate_ct_params());
            assert(rect_eq4(gate_bbox, sp_gate_poly_box(cfg)));
            assert(rect_eq4(gate_metal_bbox, sp_gate_li_box(cfg)));
            assert(rect_eq4(npc_bbox, sp_gate_npc_box(cfg)));
        }

        // The poly gate fingers.
        let xpoly: i64 = 0 - poly_ext_diff;
        let wpoly: i64 = cx - xpoly + poly_ext_diff;
        let mut ypoly: i64 = deg;
        let mut i: i64 = 0;
        while i < nf
            invariant
                0 <= i <= nf,
                1 <= nf <= 1024,
                1 <= length <= MAX_RULE,
                0 <= fs <= 3_000_000,
                0 <= deg <= 3_000_000,
                ypoly == deg + i * (length + fs),
                -MAX_RULE <= xpoly <= 0,
                0 <= wpoly <= 4_000_000_000,
                ndev == params.devices@.len(),
                sp_mos_valid(params),
                nf == params.fingers,
                length == params.length,
                deg == sp_diff_edge_to_gate(cfg),
                fs == sp_finger_space(cfg),
                poly_ext_diff == (cfg.sp_layer(LayerName::Poly)->Some_0).sp_extension(
                    LayerName::Diff,
                ),
                xpoly == -poly_ext_diff,
                wpoly == cx + 2 * poly_ext_diff,
                cx == sp_diff_x(cfg, params, ndev as int - 1) + params.devices@[ndev as int
                    - 1].width,
                elems@.len() == sp_elem_base(params, ndev as int) + i,
                forall|m: int| 0 <= m < ndev ==> #[trigger] sp_dev_elems(cfg, params, elems@, m),
                forall|m: int| 0 <= m < i ==> #[trigger] sp_poly_elem(cfg, params, elems@, m),
            decreases nf - i,
        {
            let ghost elems0 = elems@;
            proof {
                assert(i * (length + fs) <= 1024 * 4_000_000 && i * (length + fs) >= 0)
                    by (nonlinear_arith)
                    requires
                        0 <= i <= 1024,
                        0 < length + fs <= 4_000_000,
                ;
                assert((i + 1) * (length + fs) == i * (length + fs) + (length + fs))
                    by (nonlinear_arith);
            }
            let rect = Rect {
                p0: Point { x: xpoly - POLY_FUDGE, y: ypoly },
                p1: Point { x: xpoly + wpoly, y: ypoly + length },
            };
            elems.push(Element { layer: LayerName::Poly, rect });
            proof {
                lemma_base_nonneg(params, ndev as int);
                assert(sp_poly_elem(cfg, params, elems@, i as int));
                assert forall|m: int| 0 <= m < ndev as int implies #[trigger] sp_dev_elems(
                    cfg,
                    params,
                    elems@,
                    m,
                ) by {
                    assert(sp_dev_elems(cfg, params, elems0, m));
                    lemma_base_monotone(params, m + 1, ndev as int);
                    lemma_base_nonneg(params, m);
                }
                assert forall|m: int| 0 <= m < i as int + 1 implies #[trigger] sp_poly_elem(
                    cfg,
                    params,
                    elems@,
                    m,
                ) by {
                    if m < i as int {
                        assert(sp_poly_elem(cfg, params, elems0, m));
                    }
                }
            }
            ypoly = ypoly + length;
            ypoly = ypoly + fs;
            i += 1;
        }

        // Gate contacts: one per finger, their total span centered (gridded)
        // on the stack of fingers; each placement yields a gate port and a
        // cap region, and the cap regions merge into one drawn box.
        let line: i64 = gate_bbox.p1.y - gate_bbox.p0.y;
        proof {
            assert(nf * line <= 1024 * 6_000_000_000 && nf * line >= 0) by (nonlinear_arith)
                requires
                    1 <= nf <= 1024,
                    0 <= line <= 6_000_000_000,
            ;
            assert((nf - 1) * poly_space <= 1024 * 1_000_000 && (nf - 1) * poly_space >= 0)
                by (nonlinear_arith)
                requires
                    1 <= nf <= 1024,
                    0 <= poly_space <= 1_000_000,
            ;
        }
        let total_contact_len: i64 = nf * line + (nf - 1) * poly_space;
        let gate_y0: i64 = deg;
        proof {
            assert(nf * (length + fs) <= 1024 * 4_000_000 && nf * (length + fs) >= length + fs)
                by (nonlinear_arith)
                requires
                    1 <= nf <= 1024,
                    0 < length + fs <= 4_000_000,
            ;
        }
        let gate_y1: i64 = ypoly - fs;
        proof {
            assert(0 <= gate_y0 + gate_y1 <= 10_000_000_000);
            vstd::arithmetic::div_mod::lemma_div_pos_is_pos(gate_y0 + gate_y1, 2);
            vstd::arithmetic::div_mod::lemma_div_nonincreasing(gate_y0 + gate_y1, 2);
        }
        let center: i64 = (gate_y0 + gate_y1) / 2;
        let grid: i64 = self.config.grid;
        let contact_start: i64 = crate::round(center - total_contact_len / 2, grid);
        proof {
            vstd::arithmetic::div_mod::lemma_div_pos_is_pos(total_contact_len as int, 2);
            vstd::arithmetic::div_mod::lemma_div_nonincreasing(total_contact_len as int, 2);
        }
        let ofsx: i64 = (xpoly - POLY_FUDGE) - gate_bbox.p1.x;
        proof {
            assert(nf * (length + fs) == nf * length + nf * fs) by (nonlinear_arith);
            assert((nf - 1) * fs == nf * fs - fs) by (nonlinear_arith);
            assert(line == sp_gate_line(cfg));
            assert(gate_y1 == deg + nf * length + (nf - 1) * fs);
            assert(contact_start == sp_contact_start(cfg, params));
            assert(ofsx == sp_gate_ofsx(cfg));
        }
        let mut gate_pins: Vec<Rect> = Vec::new();
        let mut k: i64 = 0;
        while k < nf
            invariant
                0 <= k <= nf,
                1 <= nf <= 1024,
                0 <= line <= 6_000_000_000,
                0 <= poly_space <= MAX_RULE,
                -8_000_000_000_000 <= contact_start <= 8_000_000_000_000,
                -8_000_000_000 <= ofsx <= 8_000_000_000,
                crate::geometry::rect_in(gate_bbox, 3_000_000_000),
                crate::geometry::rect_in(gate_metal_bbox, 3_000_000_000),
                crate::geometry::rect_in(npc_bbox, 3_000_000_000),
                gate_pins@.len() == k,
                forall|m: int|
                    0 <= m < k ==> {
                        let pin = #[trigger] gate_pins@[m];
                        pin.p0.x == gate_metal_bbox.p0.x + ofsx && pin.p1.x == gate_metal_bbox.p1.x
                            + ofsx && pin.p0.y == gate_metal_bbox.p0.y + contact_start + m * (line
                            + poly_space) - gate_bbox.p0.y && pin.p1.y == gate_metal_bbox.p1.y
                            + contact_start + m * (line + poly_space) - gate_bbox.p0.y
                    },
                ndev == params.devices@.len(),
                sp_mos_valid(params),
                nf == params.fingers,
                contact_start == sp_contact_start(cfg, params),
                ofsx == sp_gate_ofsx(cfg),
                line == sp_gate_line(cfg),
                poly_space == (cfg.sp_layer(LayerName::Poly)->Some_0).space,
                rect_eq4(gate_metal_bbox, sp_gate_li_box(cfg)),
                rect_eq4(gate_bbox, sp_gate_poly_box(cfg)),
                gate_params == sp_gate_ct_params(),
                ports@.len() == sp_port_base(params, ndev as int) + k,
                forall|m: int| 0 <= m < ndev ==> #[trigger] sp_dev_ports(cfg, params, ports@, m),
                forall|m: int|
                    0 <= m < k ==> #[trigger] sp_gate_port(cfg, params, ports@, gate_pins@, m),
                insts@.len() == k,
                forall|m: int|
                    0 <= m < k ==> sp_gate_inst(cfg, params, #[trigger] insts@[m], m),
                forall|m: int|
                    0 <= m < k ==> rect_eq4(#[trigger] gate_pins@[m], sp_gate_pin(cfg, params, m)),
            decreases nf - k,
        {
            let ghost ports0 = ports@;
            let ghost pins0 = gate_pins@;
            proof {
                assert(k * (line + poly_space) <= 1024 * 6_001_000_000 && k * (line + poly_space)
                    >= 0) by (nonlinear_arith)
                    requires
                        0 <= k <= 1024,
                        0 <= line + poly_space <= 6_001_000_000,
                ;
            }
            let bot: i64 = contact_start + k * (line + poly_space);
            let ofsy: i64 = bot - gate_bbox.p0.y;
            let ct_ofs = Point { x: ofsx, y: ofsy };
            let ct_box = crate::geometry::translate(&gate_metal_bbox, &ct_ofs);
            ports.push(PortEntry { name: PortName::Gate(k), layer: LayerName::Li, rect: ct_box });
            gate_pins.push(ct_box);
            insts.push(
                Instance { cell: CellId::Contact(gate_params), loc: ct_ofs, reflect_vert: false },
            );
            proof {
                lemma_base_nonneg(params, ndev as int);
                assert(rect_eq4(gate_pins@[k as int], sp_gate_pin(cfg, params, k as int)));
                assert(sp_gate_port(cfg, params, ports@, gate_pins@, k as int));
                assert(sp_gate_inst(cfg, params, insts@[k as int], k as int));
                assert forall|m: int| 0 <= m < ndev as int implies #[trigger] sp_dev_ports(
                    cfg,
                    params,
                    ports@,
                    m,
                ) by {
                    assert(sp_dev_ports(cfg, params, ports0, m));
                    lemma_base_monotone(params, m + 1, ndev as int);
                    lemma_base_nonneg(params, m);
                }
                assert forall|m: int| 0 <= m < k as int + 1 implies #[trigger] sp_gate_port(
                    cfg,
                    params,
                    ports@,
                    gate_pins@,
                    m,
                ) by {
                    if m < k as int {
                        assert(sp_gate_port(cfg, params, ports0, pins0, m));
                    }
                }
            }
            k += 1;
        }
        proof {
            assert((nf - 1) * (line + poly_space) <= 1024 * 6_001_000_000 && (nf - 1) * (line
                + poly_space) >= 0) by (nonlinear_arith)
                requires
                    1 <= nf <= 1024,
                    0 <= line + poly_space <= 6_001_000_000,
            ;
            assert(gate_pins_stacked(gate_pins@)) by {
                assert forall|m: int|
                    0 <= m < gate_pins@.len() - 1 implies (#[trigger] gate_pins@[m + 1]).p0.y
                    - gate_pins@[m].p0.y == gate_pins@[1].p0.y - gate_pins@[0].p0.y by {
                    assert((m + 1) * (line + poly_space) == m * (line + poly_space) + (line
                        + poly_space)) by (nonlinear_arith);
                    assert(1int * (line + poly_space) == line + poly_space) by (nonlinear_arith);
                    assert(0int * (line + poly_space) == 0) by (nonlinear_arith);
                }
            }
        }
        let first_ofsy: i64 = contact_start - gate_bbox.p0.y;
        let last_ofsy: i64 = contact_start + (nf - 1) * (line + poly_space) - gate_bbox.p0.y;
        let npc_first = crate::geometry::translate(&npc_bbox, &Point { x: ofsx, y: first_ofsy });
        let npc_last = crate::geometry::translate(&npc_bbox, &Point { x: ofsx, y: last_ofsy });
        let ghost elems1 = elems@;
        elems.push(
            Element {
                layer: LayerName::Npc,
                rect: Rect { p0: npc_first.p0, p1: npc_last.p1 },
            },
        );
        proof {
            lemma_base_nonneg(params, ndev as int);
            assert(rect_eq4(npc_bbox, sp_gate_npc_box(cfg)));
            assert(elems@[sp_elem_base(params, ndev as int) + nf].layer == LayerName::Npc);
            assert(rect_eq4(
                elems@[sp_elem_base(params, ndev as int) + nf].rect,
                sp_npc_merged(cfg, params),
            ));
            assert forall|m: int| 0 <= m < ndev as int implies #[trigger] sp_dev_elems(
                cfg,
                params,
                elems@,
                m,
            ) by {
                assert(sp_dev_elems(cfg, params, elems1, m));
                lemma_base_monotone(params, m + 1, ndev as int);
                lemma_base_nonneg(params, m);
            }
            assert forall|m: int| 0 <= m < nf implies #[trigger] sp_poly_elem(
                cfg,
                params,
                elems@,
                m,
            ) by {
                assert(sp_poly_elem(cfg, params, elems1, m));
            }
        }

        // Source/drain contacts: per device, the widest fitting contact,
        // centered on the diffusion column at every gap not skipped.
        let mut sd_pins: Vec<Vec<Option<Rect>>> = Vec::new();
        let mut dj: usize = 0;
        while dj < ndev
            invariant
                dj <= ndev,
                ndev == params.devices@.len(),
                self.wf(),
                self.config == old(self).config,
                self.tech == old(self).tech,
                cfg == self.config,
                sp_mos_valid(params),
                1 <= nf <= 1024,
                1 <= length <= MAX_RULE,
                0 <= fs <= 3_000_000,
                diff_xs@.len() == ndev,
                forall|m: int| 0 <= m < ndev ==> 0 <= #[trigger] diff_xs@[m] <= 4_000_000_000,
                nf == params.fingers,
                length == params.length,
                fs == sp_finger_space(cfg),
                sp_mos_err(cfg, params) == sp_sd_err_from(cfg, params, dj as int),
                sd_pins@.len() == dj,
                forall|m: int|
                    0 <= m < dj ==> (#[trigger] sd_pins@[m])@.len() == nf + 1,
                forall|m: int, g: int|
                    0 <= m < dj && 0 <= g <= nf ==> ((#[trigger] sd_pins@[m]@[g]) is Some <==> !params.devices@[m].skip_sd_metal@.contains(g as i64)),
                forall|m: int| 0 <= m < dj ==> sd_row_aligned((#[trigger] sd_pins@[m])@),
                forall|m: int, g: int|
                    0 <= m < dj && 0 <= g <= nf && (#[trigger] sd_pins@[m]@[g]) is Some
                        ==> rect_eq4(sd_pins@[m]@[g]->Some_0, sp_sd_pin(cfg, params, m, g)),
                forall|m: int| 0 <= m < ndev ==> #[trigger] diff_xs@[m] == sp_diff_x(cfg, params, m),
                ports@.len() >= sp_port_base(params, ndev as int) + nf,
                forall|m: int| 0 <= m < ndev ==> #[trigger] sp_dev_ports(cfg, params, ports@, m),
                forall|m: int|
                    0 <= m < nf ==> #[trigger] sp_gate_port(cfg, params, ports@, gate_pins@, m),
                forall|q: int|
                    sp_port_base(params, ndev as int) + nf <= q < ports@.len() ==> sp_sd_port(
                        cfg,
                        params,
                        #[trigger] ports@[q],
                    ),
                insts@.len() >= nf,
                forall|m: int| 0 <= m < nf ==> sp_gate_inst(cfg, params, #[trigger] insts@[m], m),
            decreases ndev - dj,
        {
            let needed: bool = any_sd_gap(&params.devices[dj], nf);
            let mut row: Vec<Option<Rect>> = Vec::new();
            if !needed {
                let mut gi: i64 = 0;
                while gi <= nf
                    invariant
                        0 <= gi <= nf + 1,
                        1 <= nf <= 1024,
                        row@.len() == gi,
                        forall|m: int| 0 <= m < gi ==> (#[trigger] row@[m]) is None,
                    decreases nf + 1 - gi,
                {
                    row.push(None);
                    gi += 1;
                }
                proof {
                    assert forall|m: int| 0 <= m <= nf implies #[trigger] params.devices@[dj as int].skip_sd_metal@.contains(m as i64) by {
                        if !params.devices@[dj as int].skip_sd_metal@.contains(m as i64) {
                            assert(sp_sd_needed(nf, params.devices@[dj as int]));
                        }
                    }
                }
                proof {
                    assert(sp_sd_err_from(cfg, params, dj as int) == sp_sd_err_from(
                        cfg,
                        params,
                        dj as int + 1,
                    ));
                    assert(sd_row_aligned(row@)) by {
                        assert(sd_row_aligned_with(row@, 0));
                    }
                }
                let ghost sd0 = sd_pins@;
                let ghost row0 = row@;
                sd_pins.push(row);
                proof {
                    assert forall|m: int, g: int|
                        0 <= m < dj as int + 1 && 0 <= g <= nf as int && (
                        #[trigger] sd_pins@[m]@[g]) is Some implies rect_eq4(
                        sd_pins@[m]@[g]->Some_0,
                        sp_sd_pin(cfg, params, m, g),
                    ) by {
                        if m < dj as int {
                            assert(sd_pins@[m] == sd0[m]);
                        } else {
                            assert(sd_pins@[m]@ == row0);
                            assert(row0[g] is None);
                        }
                    }
                }
                dj += 1;
                continue;
            }
            let stack: StackName = if matches!(params.devices[dj].mos_type, MosType::Nmos) {
                StackName::Ndiffc
            } else {
                StackName::Pdiffc
            };
            let width: i64 = params.devices[dj].width;
            let ct = match self.get_contact_sized(stack, Dir::Horiz, LayerName::Diff, width) {
                Ok(Some(c)) => c,
                Ok(None) => {
                    proof {
                        assert(sp_sd_err_from(cfg, params, dj as int) == Some(
                            Error::InfeasibleSdContact,
                        ));
                    }
                    return Err(Error::InfeasibleSdContact);
                },
                Err(e) => {
                    proof {
                        assert(sp_sd_err_from(cfg, params, dj as int) == Some(e));
                    }
                    return Err(e);
                },
            };
            let n_ct: i64 = ct.cols;
            proof {
                lemma_sized_span_monotone(cfg, stack, Dir::Horiz, LayerName::Diff, 1, n_ct);
            }
            let db = match ct.bbox(LayerName::Diff) {
                Some(b) => b,
                None => {
                    proof {
                        lemma_bbox_spans(
                            cfg,
                            sp_sized_params(stack, Dir::Horiz, n_ct),
                            ct,
                            LayerName::Diff,
                        );
                        assert(false);
                    }
                    return Err(Error::LayerNotInContact(LayerName::Diff));
                },
            };
            let lb = match ct.bbox(LayerName::Li) {
                Some(b) => b,
                None => {
                    proof {
                        lemma_bbox_spans(
                            cfg,
                            sp_sized_params(stack, Dir::Horiz, n_ct),
                            ct,
                            LayerName::Li,
                        );
                    }
                    return Err(Error::LayerNotInContact(LayerName::Li));
                },
            };
            proof {
                lemma_bbox_spans(cfg, sp_sized_params(stack, Dir::Horiz, n_ct), ct, LayerName::Diff);
                lemma_bbox_spans(cfg, sp_sized_params(stack, Dir::Horiz, n_ct), ct, LayerName::Li);
                vstd::arithmetic::div_mod::lemma_div_pos_is_pos(width - (db.p1.x - db.p0.x), 2);
                vstd::arithmetic::div_mod::lemma_div_nonincreasing(width - (db.p1.x - db.p0.x), 2);
                lemma_fit_from_char(
                    cfg,
                    stack,
                    width as int,
                    n_ct as int,
                    MAX_CONTACT_UNITS as int,
                );
                assert(sp_sd_cols(cfg, stack, width as int) == n_ct as int);
                assert(sp_sd_params(cfg, params, dj as int) == sp_sized_params(
                    stack,
                    Dir::Horiz,
                    n_ct,
                ));
                lemma_bbox_exact(cfg, sp_sized_params(stack, Dir::Horiz, n_ct), ct, LayerName::Diff);
                lemma_bbox_exact(cfg, sp_sized_params(stack, Dir::Horiz, n_ct), ct, LayerName::Li);
                assert(rect_eq4(
                    db,
                    sp_model_bbox(
                        cfg,
                        sp_sd_params(cfg, params, dj as int),
                        LayerName::Diff,
                    )->Some_0,
                ));
                assert(rect_eq4(
                    lb,
                    sp_model_bbox(cfg, sp_sd_params(cfg, params, dj as int), LayerName::Li)->Some_0,
                ));
            }
            let ofsx_sd: i64 = (width - (db.p1.x - db.p0.x)) / 2;
            let x_j: i64 = diff_xs[dj];
            let mut gi: i64 = 0;
            let mut cy: i64 = 0;
            while gi <= nf
                invariant
                    0 <= gi <= nf + 1,
                    1 <= nf <= 1024,
                    1 <= length <= MAX_RULE,
                    0 <= fs <= 3_000_000,
                    cy == gi * (length + fs),
                    dj < ndev,
                    ndev == params.devices@.len(),
                    nf == params.fingers,
                    0 <= x_j <= 4_000_000_000,
                    0 <= ofsx_sd <= MAX_RULE,
                    0 <= width <= MAX_RULE,
                    stack == sp_sd_stack(params.devices@[dj as int].mos_type),
                    1 <= n_ct <= MAX_CONTACT_UNITS,
                    crate::geometry::rect_in(db, 3_000_000_000),
                    crate::geometry::rect_in(lb, 3_000_000_000),
                    sp_mos_valid(params),
                    length == params.length,
                    fs == sp_finger_space(cfg),
                    x_j == sp_diff_x(cfg, params, dj as int),
                    width == params.devices@[dj as int].width,
                    db.p0.x <= db.p1.x,
                    db.p1.x - db.p0.x <= width,
                    ofsx_sd == (width - (db.p1.x - db.p0.x)) / 2,
                    rect_eq4(
                        db,
                        sp_model_bbox(
                            cfg,
                            sp_sd_params(cfg, params, dj as int),
                            LayerName::Diff,
                        )->Some_0,
                    ),
                    rect_eq4(
                        lb,
                        sp_model_bbox(
                            cfg,
                            sp_sd_params(cfg, params, dj as int),
                            LayerName::Li,
                        )->Some_0,
                    ),
                    ports@.len() >= sp_port_base(params, ndev as int) + nf,
                    forall|m: int|
                        0 <= m < ndev ==> #[trigger] sp_dev_ports(cfg, params, ports@, m),
                    forall|m: int|
                        0 <= m < nf ==> #[trigger] sp_gate_port(cfg, params, ports@, gate_pins@, m),
                    forall|q: int|
                        sp_port_base(params, ndev as int) + nf <= q < ports@.len() ==> sp_sd_port(
                            cfg,
                            params,
                            #[trigger] ports@[q],
                        ),
                    insts@.len() >= nf,
                    forall|m: int|
                        0 <= m < nf ==> sp_gate_inst(cfg, params, #[trigger] insts@[m], m),
                    row@.len() == gi,
                    forall|m: int|
                        0 <= m < gi ==> ((#[trigger] row@[m]) is Some <==> !params.devices@[dj as int].skip_sd_metal@.contains(m as i64)),
                    forall|m: int|
                        0 <= m < gi && (#[trigger] row@[m]) is Some ==> {
                            let v = row@[m]->Some_0;
                            v.p0.x == lb.p0.x + x_j - db.p0.x + ofsx_sd && v.p1.x == lb.p1.x + x_j
                                - db.p0.x + ofsx_sd && v.p0.y == lb.p0.y + m * (length + fs)
                                - db.p0.y && v.p1.y == lb.p1.y + m * (length + fs) - db.p0.y
                        },
                decreases nf + 1 - gi,
            {
                proof {
                    assert(gi * (length + fs) <= 1025 * 4_000_000 && gi * (length + fs) >= 0)
                        by (nonlinear_arith)
                        requires
                            0 <= gi <= 1025,
                            0 < length + fs <= 4_000_000,
                    ;
                    assert((gi + 1) * (length + fs) == gi * (length + fs) + (length + fs))
                        by (nonlinear_arith);
                }
                if skips(&params.devices[dj], gi) {
                    row.push(None);
                } else {
                    let loc = Point { x: x_j - db.p0.x + ofsx_sd, y: cy - db.p0.y };
                    let sd_rect = crate::geometry::translate(&lb, &loc);
                    let ghost ports0 = ports@;
                    let ghost insts0 = insts@;
                    insts.push(
                        Instance {
                            cell: CellId::Contact(
                                ContactParams { stack, rows: 1, cols: n_ct, dir: Dir::Horiz },
                            ),
                            loc,
                            reflect_vert: false,
                        },
                    );
                    ports.push(
                        PortEntry {
                            name: PortName::Sd(dj as i64, gi),
                            layer: LayerName::Li,
                            rect: sd_rect,
                        },
                    );
                    row.push(Some(sd_rect));
                    proof {
                        lemma_base_nonneg(params, ndev as int);
                        assert(rect_eq4(sd_rect, sp_sd_pin(cfg, params, dj as int, gi as int)));
                        assert(sp_sd_port(cfg, params, ports@[ports@.len() - 1])) by {
                            assert(!params.devices@[dj as int].skip_sd_metal@.contains(gi));
                        }
                        assert forall|m: int| 0 <= m < ndev as int implies #[trigger] sp_dev_ports(
                            cfg,
                            params,
                            ports@,
                            m,
                        ) by {
                            assert(sp_dev_ports(cfg, params, ports0, m));
                            lemma_base_monotone(params, m + 1, ndev as int);
                            lemma_base_nonneg(params, m);
                        }
                        assert forall|m: int| 0 <= m < nf as int implies #[trigger] sp_gate_port(
                            cfg,
                            params,
                            ports@,
                            gate_pins@,
                            m,
                        ) by {
                            assert(sp_gate_port(cfg, params, ports0, gate_pins@, m));
                            lemma_base_monotone(params, ndev as int, ndev as int);
                        }
                        assert forall|q: int|
                            sp_port_base(params, ndev as int) + nf <= q
                                < ports@.len() implies sp_sd_port(
                            cfg,
                            params,
                            #[trigger] ports@[q],
                        ) by {
                            if q < ports@.len() - 1 {
                                assert(sp_sd_port(cfg, params, ports0[q]));
                                assert(ports@[q] == ports0[q]);
                            }
                        }
                        assert forall|m: int| 0 <= m < nf as int implies sp_gate_inst(
                            cfg,
                            params,
                            #[trigger] insts@[m],
                            m,
                        ) by {
                            assert(sp_gate_inst(cfg, params, insts0[m], m));
                            assert(insts@[m] == insts0[m]);
                        }
                    }
                }
                cy = cy + length;
                cy = cy + fs;
                gi += 1;
            }
            proof {
                let ghost step = length + fs as int;
                assert(sd_row_aligned_with(row@, step)) by {
                    assert forall|i1: int, i2: int|
                        0 <= i1 < row@.len() && 0 <= i2 < row@.len() && (#[trigger] row@[i1])
                            is Some && (#[trigger] row@[i2]) is Some implies {
                        let a = row@[i1]->Some_0;
                        let b = row@[i2]->Some_0;
                        b.p0.x == a.p0.x && b.p1.x == a.p1.x && b.p1.y - b.p0.y == a.p1.y - a.p0.y
                            && b.p0.y - a.p0.y == (i2 - i1) * step
                    } by {
                        assert(i2 * step - i1 * step == (i2 - i1) * step) by (nonlinear_arith);
                    }
                }
                assert(sd_row_aligned(row@));
            }
            proof {
                assert forall|g: int|
                    0 <= g <= nf as int && (#[trigger] row@[g]) is Some implies rect_eq4(
                    row@[g]->Some_0,
                    sp_sd_pin(cfg, params, dj as int, g),
                ) by {}
            }
            let ghost sd0 = sd_pins@;
            let ghost row0 = row@;
            sd_pins.push(row);
            proof {
                assert forall|m: int, g: int|
                    0 <= m < dj as int + 1 && 0 <= g <= nf as int && (
                    #[trigger] sd_pins@[m]@[g]) is Some implies rect_eq4(
                    sd_pins@[m]@[g]->Some_0,
                    sp_sd_pin(cfg, params, m, g),
                ) by {
                    if m < dj as int {
                        assert(sd_pins@[m] == sd0[m]);
                    } else {
                        assert(sd_pins@[m]@ == row0);
                        assert(row0[g] is Some ==> rect_eq4(
                            row0[g]->Some_0,
                            sp_sd_pin(cfg, params, dj as int, g),
                        ));
                    }
                }
            }
            dj += 1;
        }
        proof {
            assert(sp_sd_err_from(cfg, params, ndev as int) is None);
        }
        let cell = Cell { id: CellId::Mos(cell_index), elems, insts, ports, outline: None };
        Ok(
            LayoutTransistors {
                cell,
                sd_metal: LayerName::Li,
                gate_metal: LayerName::Li,
                sd_pins,
                gate_pins,
                num_fingers: nf,
                num_devices: ndev,
            },
        )
    }
}

/// One layer-rule table entry.
fn rule(other: LayerName, dist: Int) -> (r: LayerRule2)
    ensures
        r == (LayerRule2 { other, dist }),
{
    LayerRule2 { other, dist }
}

/// One layer entry of the rule table.
fn layer_entry(
    name: LayerName,
    width: Int,
    space: Int,
    enclosures: Vec<LayerRule2>,
    one_side_enclosures: Vec<LayerRule2>,
    extensions: Vec<LayerRule2>,
) -> (r: LayerRules)
    ensures
        r.name == name,
        r.width == width,
        r.space == space,
        r.enclosures@ == enclosures@,
        r.one_side_enclosures@ == one_side_enclosures@,
        r.extensions@ == extensions@,
{
    LayerRules { name, width, space, enclosures, one_side_enclosures, extensions }
}

/// A three-layer stack entry.
fn stack_entry(name: StackName, bot: LayerName, cut: LayerName, top: LayerName) -> (r: Stack)
    ensures
        r.name == name,
        r.layers@.len() == 3,
        r.layers@[0] == bot,
        r.layers@[1] == cut,
        r.layers@[2] == top,
{
    let mut layers: Vec<LayerName> = Vec::new();
    layers.push(bot);
    layers.push(cut);
    layers.push(top);
    Stack { name, layers }
}

/// The sky130 design-rule table: per-layer widths, spacings, enclosures and
/// extensions in nanometers on a 5 nm grid, and the ten contact stacks.
pub fn tech_config() -> (r: TechConfig)
    ensures
        r.grid == 5,
        r.units == crate::config::Units::Nano,
{
    let mut layers: Vec<LayerRules> = Vec::new();
    layers.push(
        layer_entry(
            LayerName::Diff,
            150,
            270,
            vec![
                rule(LayerName::Nsdm, 125),
                rule(LayerName::Psdm, 125),
                rule(LayerName::Nwell, 180),
            ],
            Vec::new(),
            vec![rule(LayerName::Poly, 250)],
        ),
    );
    layers.push(
        layer_entry(
            LayerName::Poly,
            150,
            210,
            Vec::new(),
            Vec::new(),
            vec![rule(LayerName::Diff, 130)],
        ),
    );
    layers.push(
        layer_entry(
            LayerName::Licon,
            170,
            170,
            vec![
                rule(LayerName::Diff, 40),
                rule(LayerName::Poly, 80),
                rule(LayerName::Li, 80),
                rule(LayerName::Npc, 100),
                rule(LayerName::Ntap, 40),
                rule(LayerName::Ptap, 40),
            ],
            vec![rule(LayerName::Li, 80), rule(LayerName::Diff, 60), rule(LayerName::Poly, 80)],
            Vec::new(),
        ),
    );
    layers.push(layer_entry(LayerName::Li, 170, 170, Vec::new(), Vec::new(), Vec::new()));
    layers.push(
        layer_entry(
            LayerName::Mcon,
            170,
            190,
            vec![rule(LayerName::Li, 0), rule(LayerName::M1, 30)],
            vec![rule(LayerName::M1, 60)],
            Vec::new(),
        ),
    );
    layers.push(layer_entry(LayerName::M1, 140, 140, Vec::new(), Vec::new(), Vec::new()));
    layers.push(
        layer_entry(
            LayerName::Via,
            150,
            170,
            vec![rule(LayerName::M1, 55), rule(LayerName::M2, 55)],
            vec![rule(LayerName::M1, 85), rule(LayerName::M2, 85)],
            Vec::new(),
        ),
    );
    layers.push(layer_entry(LayerName::M2, 140, 140, Vec::new(), Vec::new(), Vec::new()));
    layers.push(
        layer_entry(
            LayerName::Via2,
            200,
            200,
            vec![rule(LayerName::M2, 40), rule(LayerName::M3, 65)],
            vec![rule(LayerName::M2, 85), rule(LayerName::M3, 65)],
            Vec::new(),
        ),
    );
    layers.push(layer_entry(LayerName::M3, 300, 300, Vec::new(), Vec::new(), Vec::new()));
    layers.push(
        layer_entry(
            LayerName::Via3,
            200,
            200,
            vec![rule(LayerName::M3, 60), rule(LayerName::M4, 65)],
            vec![rule(LayerName::M3, 90), rule(LayerName::M4, 65)],
            Vec::new(),
        ),
    );
    layers.push(layer_entry(LayerName::M4, 300, 300, Vec::new(), Vec::new(), Vec::new()));
    layers.push(
        layer_entry(
            LayerName::Via4,
            800,
            800,
            vec![rule(LayerName::M4, 190), rule(LayerName::M5, 310)],
            Vec::new(),
            Vec::new(),
        ),
    );
    layers.push(layer_entry(LayerName::M5, 1600, 1600, Vec::new(), Vec::new(), Vec::new()));
    layers.push(layer_entry(LayerName::Nsdm, 380, 380, Vec::new(), Vec::new(), Vec::new()));
    layers.push(layer_entry(LayerName::Psdm, 380, 380, Vec::new(), Vec::new(), Vec::new()));
    layers.push(layer_entry(LayerName::Nwell, 840, 1270, Vec::new(), Vec::new(), Vec::new()));
    layers.push(
        layer_entry(
            LayerName::Ntap,
            150,
            270,
            vec![rule(LayerName::Nsdm, 125)],
            Vec::new(),
            Vec::new(),
        ),
    );
    layers.push(
        layer_entry(
            LayerName::Ptap,
            150,
            270,
            vec![rule(LayerName::Psdm, 125)],
            Vec::new(),
            Vec::new(),
        ),
    );
    layers.push(layer_entry(LayerName::Npc, 270, 270, Vec::new(), Vec::new(), Vec::new()));
    let mut stacks: Vec<Stack> = Vec::new();
    stacks.push(stack_entry(StackName::Viali, LayerName::Li, LayerName::Mcon, LayerName::M1));
    stacks.push(stack_entry(StackName::Via1, LayerName::M1, LayerName::Via, LayerName::M2));
    stacks.push(stack_entry(StackName::Via2, LayerName::M2, LayerName::Via2, LayerName::M3));
    stacks.push(stack_entry(StackName::Via3, LayerName::M3, LayerName::Via3, LayerName::M4));
    stacks.push(stack_entry(StackName::Via4, LayerName::M4, LayerName::Via4, LayerName::M5));
    stacks.push(stack_entry(StackName::Ndiffc, LayerName::Li, LayerName::Licon, LayerName::Diff));
    stacks.push(stack_entry(StackName::Pdiffc, LayerName::Li, LayerName::Licon, LayerName::Diff));
    stacks.push(stack_entry(StackName::Ntap, LayerName::Li, LayerName::Licon, LayerName::Ntap));
    stacks.push(stack_entry(StackName::Ptap, LayerName::Li, LayerName::Licon, LayerName::Ptap));
    stacks.push(stack_entry(StackName::Polyc, LayerName::Li, LayerName::Licon, LayerName::Poly));
    let spaces: Vec<SpaceRule> = vec![
        SpaceRule { a: LayerName::Gate, b: LayerName::Licon, dist: 55 },
        SpaceRule { a: LayerName::Diff, b: LayerName::Nwell, dist: 340 },
    ];
    TechConfig { units: crate::config::Units::Nano, grid: 5, layers, stacks, spaces }
}

/// A sky130 technology context over [`tech_config`].
pub fn pdk() -> (r: Result<crate::Pdk, Error>)
    ensures
        match r {
            Ok(p) => p.wf() && p.tech == crate::Tech::Sky130 && p.contacts@.len() == 0,
            Err(e) => e == Error::InvalidConfig,
        },
{
    crate::Pdk::new(crate::Tech::Sky130, tech_config())
}

/// A sky130 [`crate::PdkLib`] holding a fresh cell library named `name`.
pub fn pdk_lib(name: String) -> (r: Result<crate::PdkLib, Error>)
    ensures
        match r {
            Ok(l) => l.wf() && l.pdk.tech == crate::Tech::Sky130 && l.pdk.contacts@.len() == 0
                && l.ptx@.len() == 0 && l.lib.cells@.len() == 0,
            Err(e) => e == Error::InvalidConfig,
        },
{
    match pdk() {
        Ok(p) => Ok(p.create_pdk_lib(name)),
        Err(e) => Err(e),
    }
}

/// The spacing between adjacent gate fingers; see [`sp_finger_space`].
pub fn finger_space(tc: &TechConfig) -> (r: Result<Int, Error>)
    requires
        tc.wf(),
    ensures
        match r {
            Ok(v) => tc.sp_layer(LayerName::Li) is Some && tc.sp_layer(LayerName::Poly) is Some && v
                == sp_finger_space(*tc) && 0 <= v <= 3 * MAX_RULE,
            Err(e) => {
                ||| tc.sp_layer(LayerName::Li) is None && e == Error::UnknownLayer(LayerName::Li)
                ||| tc.sp_layer(LayerName::Li) is Some && tc.sp_layer(LayerName::Poly) is None && e
                    == Error::UnknownLayer(LayerName::Poly)
            },
        },
{
    proof {
        lemma_space_find_bounded(tc.spaces@, LayerName::Gate, LayerName::Licon);
        lemma_layer_find_bounded(tc.layers@, LayerName::Li);
        lemma_layer_find_bounded(tc.layers@, LayerName::Poly);
    }
    let s: i64 = tc.space(LayerName::Gate, LayerName::Licon);
    let li = tc.layer(LayerName::Li)?;
    let a: i64 = 2 * s + li.width;
    let poly = tc.layer(LayerName::Poly)?;
    let b: i64 = poly.space;
    if a >= b {
        Ok(a)
    } else {
        Ok(b)
    }
}

/// Clearance from the diffusion edge to the nearest gate edge; see
/// [`sp_diff_edge_to_gate`].
pub fn diff_edge_to_gate(tc: &TechConfig) -> (r: Result<Int, Error>)
    requires
        tc.wf(),
    ensures
        match r {
            Ok(v) => tc.sp_layer(LayerName::Diff) is Some && tc.sp_layer(LayerName::Licon) is Some
                && v == sp_diff_edge_to_gate(*tc) && 0 <= v <= 3 * MAX_RULE,
            Err(e) => {
                ||| tc.sp_layer(LayerName::Diff) is None && e == Error::UnknownLayer(LayerName::Diff)
                ||| tc.sp_layer(LayerName::Diff) is Some && tc.sp_layer(LayerName::Licon) is None
                    && e == Error::UnknownLayer(LayerName::Licon)
            },
        },
{
    let diff = tc.layer(LayerName::Diff)?;
    proof {
        lemma_layer_find_bounded(tc.layers@, LayerName::Diff);
        lemma_layer_find_bounded(tc.layers@, LayerName::Licon);
        lemma_space_find_bounded(tc.spaces@, LayerName::Gate, LayerName::Licon);
        lemma_rule_find_bounded(diff.extensions@, LayerName::Poly);
    }
    let a: i64 = diff.extension(LayerName::Poly);
    let s: i64 = tc.space(LayerName::Gate, LayerName::Licon);
    let licon = tc.layer(LayerName::Licon)?;
    proof {
        lemma_rule_find_bounded(licon.enclosures@, LayerName::Diff);
    }
    let b: i64 = s + licon.width + licon.enclosure(LayerName::Diff);
    if a >= b {
        Ok(a)
    } else {
        Ok(b)
    }
}

/// Clearance between diffusions of opposite polarity; see
/// [`sp_diff_to_opposite_diff`].
pub fn diff_to_opposite_diff(tc: &TechConfig) -> (r: Result<Int, Error>)
    requires
        tc.wf(),
    ensures
        match r {
            Ok(v) => tc.sp_layer(LayerName::Diff) is Some && v == sp_diff_to_opposite_diff(*tc) && 0
                <= v <= 2 * MAX_RULE,
            Err(e) => tc.sp_layer(LayerName::Diff) is None && e == Error::UnknownLayer(
                LayerName::Diff,
            ),
        },
{
    let diff = tc.layer(LayerName::Diff)?;
    proof {
        lemma_layer_find_bounded(tc.layers@, LayerName::Diff);
        lemma_space_find_bounded(tc.spaces@, LayerName::Diff, LayerName::Nwell);
        lemma_rule_find_bounded(diff.enclosures@, LayerName::Nwell);
    }
    let s: i64 = tc.space(LayerName::Diff, LayerName::Nwell);
    Ok(s + diff.enclosure(LayerName::Nwell))
}

} // verus!
