//! Bus track clearance: how closely adjacent routing tracks may sit when
//! contacts are placed on them.

use vstd::prelude::*;

use crate::config::{lemma_layer_find_bounded, Int, LayerName, StackName, TechConfig};
use crate::contact::{
    lemma_bbox_spans, sp_contact_cfg_err, sp_hspan, sp_layer_in_contact, sp_wspan, ContactParams,
    MAX_CONTACT_UNITS,
};
use crate::geometry::{sp_min, Dir};
use crate::sky130::{sp_metal_layer, sp_stack_idx};
use crate::{Error, LayerIdx};

verus! {

/// Where contacts are allowed relative to their neighbours on a bus.
#[derive(Debug, Clone, Copy, PartialEq, Eq, Structural)]
pub enum ContactPosition {
    /// Contacts are centered on the bus and must alternate offset between
    /// adjacent traces.
    CenteredNonAdjacent,
    /// Contacts are centered on the bus and may sit at the same offset on
    /// adjacent traces.
    CenteredAdjacent,
}

/// Which sides of the bus carry contacts: at most one placement connecting
/// upward and one connecting downward.
#[derive(Debug, Clone, Copy, PartialEq, Eq, Structural)]
pub struct ContactPolicy {
    pub above: Option<ContactPosition>,
    pub below: Option<ContactPosition>,
}

/// The single-side contact parameters the clearance rule builds: a minimal
/// `1 x 1` contact, relaxed vertically.
pub open spec fn sp_bus_params(stack: StackName) -> ContactParams {
    ContactParams { stack, rows: 1, cols: 1, dir: Dir::Vert }
}

/// The effective width of a minimal contact on `stack` as seen by the bus:
/// the narrower dimension of the metal-layer box.
pub open spec fn sp_bus_ct_width(cfg: TechConfig, stack: StackName, metal_layer: LayerName) -> int {
    sp_min(
        sp_hspan(cfg, sp_bus_params(stack), metal_layer),
        sp_wspan(cfg, sp_bus_params(stack), metal_layer),
    )
}

/// Extra clearance a contact of width `ctw` needs beyond a trace of width
/// `width`. Alternating contacts only overlap at half offset, so their
/// overhang is halved (rounded up).
pub open spec fn sp_overhang(ctw: int, width: int, pos: ContactPosition) -> int {
    if ctw > width {
        match pos {
            ContactPosition::CenteredAdjacent => ctw - width,
            ContactPosition::CenteredNonAdjacent => (ctw - width + 1) / 2,
        }
    } else {
        0
    }
}

/// The minimum center-to-center spacing of adjacent tracks of width `width`
/// on metal `metal`: the layer's own spacing, raised by the overhang of any
/// contact placed above or below the bus.
pub open spec fn sp_bus_min_spacing(
    cfg: TechConfig,
    metal: int,
    width: int,
    policy: ContactPolicy,
) -> int {
    let mlay = sp_metal_layer(metal);
    let space = (cfg.sp_layer(mlay)->Some_0).space as int;
    let above = match policy.above {
        Option::Some(pos) => space + sp_overhang(
            sp_bus_ct_width(cfg, sp_stack_idx(metal), mlay),
            width,
            pos,
        ),
        Option::None => space,
    };
    let below = match policy.below {
        Option::Some(pos) => space + sp_overhang(
            sp_bus_ct_width(cfg, sp_stack_idx(metal - 1), mlay),
            width,
            pos,
        ),
        Option::None => space,
    };
    crate::geometry::sp_max(space, crate::geometry::sp_max(above, below))
}

/// The checks of the clearance rule, in the order it performs them.
pub open spec fn sp_bus_err(cfg: TechConfig, metal: LayerIdx, policy: ContactPolicy) -> Option<
    Error,
> {
    let mlay = sp_metal_layer(metal as int);
    if metal > 5 {
        Some(Error::NoSuchMetal(metal))
    } else if cfg.sp_layer(mlay) is None {
        Some(Error::UnknownLayer(mlay))
    } else if policy.above is Some && metal > 4 {
        Some(Error::NoStackForIndex(metal))
    } else if policy.above is Some && sp_contact_cfg_err(cfg, sp_stack_idx(metal as int)) is Some {
        sp_contact_cfg_err(cfg, sp_stack_idx(metal as int))
    } else if policy.above is Some && !sp_layer_in_contact(
        cfg,
        sp_bus_params(sp_stack_idx(metal as int)),
        mlay,
    ) {
        Some(Error::LayerNotInContact(mlay))
    } else if policy.below is Some && metal == 0 {
        Some(Error::BelowBottomMetal)
    } else if policy.below is Some && sp_contact_cfg_err(
        cfg,
        sp_stack_idx(metal as int - 1),
    ) is Some {
        sp_contact_cfg_err(cfg, sp_stack_idx(metal as int - 1))
    } else if policy.below is Some && !sp_layer_in_contact(
        cfg,
        sp_bus_params(sp_stack_idx(metal as int - 1)),
        mlay,
    ) {
        Some(Error::LayerNotInContact(mlay))
    } else {
        None
    }
}

impl crate::Pdk {
    /// The minimum spacing between tracks on a bus of `width`-wide traces on
    /// metal `metal`, assuming minimum-sized contacts are used, under
    /// `strategy`. Requesting a downward contact on the lowest metal is an
    /// error: there is no layer beneath it.
    #[verifier::rlimit(100)]
    #[verifier::spinoff_prover]
    pub fn bus_min_spacing(&mut self, metal: LayerIdx, width: Int, strategy: ContactPolicy) -> (r:
        Result<Int, Error>)
        requires
            old(self).wf(),
            0 <= width,
        ensures
            final(self).wf(),
            final(self).config == old(self).config,
            final(self).tech == old(self).tech,
            match r {
                Ok(s) => sp_bus_err(old(self).config, metal, strategy) is None && s
                    == sp_bus_min_spacing(old(self).config, metal as int, width as int, strategy),
                Err(e) => sp_bus_err(old(self).config, metal, strategy) == Some(e),
            },
    {
        let ghost cfg = self.config;
        if metal > 5 {
            return Err(Error::NoSuchMetal(metal));
        }
        let mlay: LayerName = self.metal(metal);
        let space: i64 = match self.config.layer(mlay) {
            Ok(l) => l.space,
            Err(e) => {
                return Err(e);
            },
        };
        proof {
            lemma_layer_find_bounded(cfg.layers@, mlay);
        }
        let mut min_space: i64 = space;
        if let Some(above) = strategy.above {
            if metal > 4 {
                return Err(Error::NoStackForIndex(metal));
            }
            let sname: StackName = self.stack_name(metal);
            let params = ContactParams { stack: sname, rows: 1, cols: 1, dir: Dir::Vert };
            let ct = match self.get_contact(&params) {
                Ok(c) => c,
                Err(e) => {
                    return Err(e);
                },
            };
            let rect = match ct.bbox(mlay) {
                Some(b) => b,
                None => {
                    proof {
                        lemma_bbox_spans(cfg, params, ct, mlay);
                    }
                    return Err(Error::LayerNotInContact(mlay));
                },
            };
            proof {
                lemma_bbox_spans(cfg, params, ct, mlay);
            }
            let rw: i64 = rect.p1.x - rect.p0.x;
            let rh: i64 = rect.p1.y - rect.p0.y;
            let ct_width: i64 = if rh <= rw {
                rh
            } else {
                rw
            };
            let overhang: i64 = if ct_width > width {
                match above {
                    ContactPosition::CenteredAdjacent => ct_width - width,
                    ContactPosition::CenteredNonAdjacent => {
                        proof {
                            vstd::arithmetic::div_mod::lemma_div_pos_is_pos(
                                ct_width - width + 1,
                                2,
                            );
                        }
                        (ct_width - width + 1) / 2
                    },
                }
            } else {
                0
            };
            if space + overhang > min_space {
                min_space = space + overhang;
            }
        }
        if let Some(below) = strategy.below {
            if metal == 0 {
                return Err(Error::BelowBottomMetal);
            }
            let sname: StackName = self.stack_name(metal - 1);
            let params = ContactParams { stack: sname, rows: 1, cols: 1, dir: Dir::Vert };
            let ct = match self.get_contact(&params) {
                Ok(c) => c,
                Err(e) => {
                    return Err(e);
                },
            };
            let rect = match ct.bbox(mlay) {
                Some(b) => b,
                None => {
                    proof {
                        lemma_bbox_spans(cfg, params, ct, mlay);
                    }
                    return Err(Error::LayerNotInContact(mlay));
                },
            };
            proof {
                lemma_bbox_spans(cfg, params, ct, mlay);
            }
            let rw: i64 = rect.p1.x - rect.p0.x;
            let rh: i64 = rect.p1.y - rect.p0.y;
            let ct_width: i64 = if rh <= rw {
                rh
            } else {
                rw
            };
            let overhang: i64 = if ct_width > width {
                match below {
                    ContactPosition::CenteredAdjacent => ct_width - width,
                    ContactPosition::CenteredNonAdjacent => {
                        proof {
                            vstd::arithmetic::div_mod::lemma_div_pos_is_pos(
                                ct_width - width + 1,
                                2,
                            );
                        }
                        (ct_width - width + 1) / 2
                    },
                }
            } else {
                0
            };
            if space + overhang > min_space {
                min_space = space + overhang;
            }
        }
        Ok(min_space)
    }
}

/// Narrower traces never allow tracks to sit closer: the clearance rule is
/// non-increasing in the trace width, for a fixed policy.
pub proof fn lemma_bus_spacing_monotone(
    cfg: TechConfig,
    metal: int,
    w1: int,
    w2: int,
    policy: ContactPolicy,
)
    requires
        w1 <= w2,
    ensures
        sp_bus_min_spacing(cfg, metal, w2, policy) <= sp_bus_min_spacing(cfg, metal, w1, policy),
{
    let ca = sp_bus_ct_width(cfg, sp_stack_idx(metal), sp_metal_layer(metal));
    let cb = sp_bus_ct_width(cfg, sp_stack_idx(metal - 1), sp_metal_layer(metal));
    lemma_overhang_antimonotone(ca, w1, w2);
    lemma_overhang_antimonotone(cb, w1, w2);
}

/// The overhang of a fixed contact never grows as the trace widens.
proof fn lemma_overhang_antimonotone(ctw: int, w1: int, w2: int)
    requires
        w1 <= w2,
    ensures
        sp_overhang(ctw, w2, ContactPosition::CenteredAdjacent) <= sp_overhang(
            ctw,
            w1,
            ContactPosition::CenteredAdjacent,
        ),
        sp_overhang(ctw, w2, ContactPosition::CenteredNonAdjacent) <= sp_overhang(
            ctw,
            w1,
            ContactPosition::CenteredNonAdjacent,
        ),
{
    if ctw > w2 {
        vstd::arithmetic::div_mod::lemma_div_is_ordered(ctw - w2 + 1, ctw - w1 + 1, 2);
        vstd::arithmetic::div_mod::lemma_div_pos_is_pos(ctw - w2 + 1, 2);
    } else if ctw > w1 {
        vstd::arithmetic::div_mod::lemma_fundamental_div_mod(ctw - w1 + 1, 2);
        vstd::arithmetic::div_mod::lemma_mod_division_less_than_divisor(ctw - w1 + 1, 2);
        vstd::arithmetic::div_mod::lemma_div_pos_is_pos(ctw - w1 + 1, 2);
    }
}

/// One side ordering: `b` demands at least as much as `a` when it places a
/// contact wherever `a` does, and an adjacent one wherever `a` places an
/// alternating one.
pub open spec fn sp_pos_leq(a: Option<ContactPosition>, b: Option<ContactPosition>) -> bool {
    ||| a == b
    ||| (a == Some(ContactPosition::CenteredNonAdjacent) && b == Some(
        ContactPosition::CenteredAdjacent,
    ))
}

/// Alternating contact placement never needs more clearance than adjacent
/// placement on the same geometry.
pub proof fn lemma_bus_nonadjacent_leq(
    cfg: TechConfig,
    metal: int,
    width: int,
    pa: ContactPolicy,
    pb: ContactPolicy,
)
    requires
        sp_pos_leq(pa.above, pb.above),
        sp_pos_leq(pa.below, pb.below),
    ensures
        sp_bus_min_spacing(cfg, metal, width, pa) <= sp_bus_min_spacing(cfg, metal, width, pb),
{
    let ca = sp_bus_ct_width(cfg, sp_stack_idx(metal), sp_metal_layer(metal));
    let cb = sp_bus_ct_width(cfg, sp_stack_idx(metal - 1), sp_metal_layer(metal));
    lemma_overhang_pos_leq(ca, width);
    lemma_overhang_pos_leq(cb, width);
}

/// The halved overhang of alternating placement is no more than the full
/// overhang of adjacent placement.
proof fn lemma_overhang_pos_leq(ctw: int, width: int)
    ensures
        sp_overhang(ctw, width, ContactPosition::CenteredNonAdjacent) <= sp_overhang(
            ctw,
            width,
            ContactPosition::CenteredAdjacent,
        ),
        sp_overhang(ctw, width, ContactPosition::CenteredNonAdjacent) >= 0,
        sp_overhang(ctw, width, ContactPosition::CenteredAdjacent) >= 0,
{
    if ctw > width {
        vstd::arithmetic::div_mod::lemma_fundamental_div_mod(ctw - width + 1, 2);
        vstd::arithmetic::div_mod::lemma_mod_division_less_than_divisor(ctw - width + 1, 2);
    }
}

} // verus!
