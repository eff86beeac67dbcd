//! Contact construction, caching and sizing-search behaviour.

use pdkprims::config::{
    LayerName, LayerRule2, LayerRules, SpaceRule, Stack, StackName, TechConfig, Units,
};
use pdkprims::contact::{ContactParams, MAX_CONTACT_UNITS};
use pdkprims::geometry::{Dir, Point, Rect};
use pdkprims::{Error, Pdk, Tech};

fn bare_layer(name: LayerName, width: i64, space: i64) -> LayerRules {
    LayerRules {
        name,
        width,
        space,
        enclosures: Vec::new(),
        one_side_enclosures: Vec::new(),
        extensions: Vec::new(),
    }
}

/// A minimal rule table: a single stack `Via1 = [M1, Via, M2]` whose cut
/// squares are 17 wide at spacing 19, with no enclosures and no minimum
/// widths, so the stack-layer boxes coincide with the cut array.
fn plain_config(cut_width: i64, cut_space: i64) -> TechConfig {
    TechConfig {
        units: Units::Nano,
        grid: 1,
        layers: vec![
            bare_layer(LayerName::M1, 0, 0),
            bare_layer(LayerName::Via, cut_width, cut_space),
            bare_layer(LayerName::M2, 0, 0),
        ],
        stacks: vec![Stack {
            name: StackName::Via1,
            layers: vec![LayerName::M1, LayerName::Via, LayerName::M2],
        }],
        spaces: Vec::new(),
    }
}

fn plain_pdk(cut_width: i64, cut_space: i64) -> Pdk {
    Pdk::new(Tech::Sky130, plain_config(cut_width, cut_space)).unwrap()
}

fn params(rows: i64, cols: i64, dir: Dir) -> ContactParams {
    ContactParams {
        stack: StackName::Via1,
        rows,
        cols,
        dir,
    }
}

#[test]
fn cut_array_bounding_box() {
    // A stack with cut width 17 and cut spacing 19: 2 rows x 3 columns give
    // a cut array 17*3 + 19*2 = 89 wide and 17*2 + 19 = 53 high.
    let mut pdk = plain_pdk(17, 19);
    let ct = pdk.get_contact(&params(2, 3, Dir::Horiz)).unwrap();
    let cut = ct.bbox(LayerName::Via).unwrap();
    assert_eq!(cut.p0, Point { x: 0, y: 0 });
    assert_eq!(cut.p1, Point { x: 89, y: 53 });
    assert_eq!(ct.rows, 2);
    assert_eq!(ct.cols, 3);
}

#[test]
fn build_is_deterministic() {
    let mut a = plain_pdk(17, 19);
    let mut b = plain_pdk(17, 19);
    let ca = a.get_contact(&params(2, 3, Dir::Vert)).unwrap();
    let cb = b.get_contact(&params(2, 3, Dir::Vert)).unwrap();
    assert_eq!(ca, cb);
}

#[test]
fn cache_builds_once_per_key() {
    let mut pdk = plain_pdk(17, 19);
    let first = pdk.get_contact(&params(1, 1, Dir::Horiz)).unwrap();
    assert_eq!(pdk.contact_count(), 1);
    let second = pdk.get_contact(&params(1, 1, Dir::Horiz)).unwrap();
    assert_eq!(pdk.contact_count(), 1);
    assert_eq!(first, second);
    // A different key builds a new artifact; rows/cols swapped is different.
    pdk.get_contact(&params(1, 2, Dir::Horiz)).unwrap();
    assert_eq!(pdk.contact_count(), 2);
    pdk.get_contact(&params(2, 1, Dir::Horiz)).unwrap();
    assert_eq!(pdk.contact_count(), 3);
}

#[test]
fn widths_grow_with_columns() {
    let mut pdk = plain_pdk(17, 19);
    let mut last: i64 = -1;
    for cols in 1..8 {
        let ct = pdk.get_contact(&params(2, cols, Dir::Horiz)).unwrap();
        let b = ct.bbox(LayerName::M2).unwrap();
        let w = b.p1.x - b.p0.x;
        assert!(w >= last);
        // Height stays put while only the columns grow.
        assert_eq!(b.p1.y - b.p0.y, 53);
        last = w;
    }
}

#[test]
fn sized_search_finds_largest_fit() {
    // Spans are 36n - 19; the largest n with 36n - 19 <= 100 is 3 (89).
    let mut pdk = plain_pdk(17, 19);
    let ct = pdk
        .get_contact_sized(StackName::Via1, Dir::Horiz, LayerName::Via, 100)
        .unwrap()
        .unwrap();
    assert_eq!(ct.cols, 3);
    assert_eq!(ct.rows, 1);
    let b = ct.bbox(LayerName::Via).unwrap();
    assert_eq!(b.p1.x - b.p0.x, 89);
}

#[test]
fn sized_search_none_when_one_cut_too_wide() {
    // The 1-column contact already spans 120 > 100: no fit at all.
    let mut pdk = plain_pdk(120, 10);
    let r = pdk
        .get_contact_sized(StackName::Via1, Dir::Horiz, LayerName::Via, 100)
        .unwrap();
    assert!(r.is_none());
}

#[test]
fn sized_search_vertical() {
    let mut pdk = plain_pdk(17, 19);
    let ct = pdk
        .get_contact_sized(StackName::Via1, Dir::Vert, LayerName::Via, 53)
        .unwrap()
        .unwrap();
    assert_eq!(ct.rows, 2);
    assert_eq!(ct.cols, 1);
}

#[test]
fn within_search_maximizes_both_axes() {
    // Width 100 allows 3 columns (89), height 53 allows 2 rows (53).
    let mut pdk = plain_pdk(17, 19);
    let target = Rect {
        p0: Point { x: 0, y: 0 },
        p1: Point { x: 100, y: 53 },
    };
    let ct = pdk
        .get_contact_within(StackName::Via1, LayerName::Via, target)
        .unwrap()
        .unwrap();
    assert_eq!(ct.cols, 3);
    assert_eq!(ct.rows, 2);
    let b = ct.bbox(LayerName::Via).unwrap();
    assert!(b.p1.x - b.p0.x <= 100);
    assert!(b.p1.y - b.p0.y <= 53);
}

#[test]
fn within_search_none_when_nothing_fits() {
    let mut pdk = plain_pdk(120, 10);
    let target = Rect {
        p0: Point { x: 0, y: 0 },
        p1: Point { x: 100, y: 90 },
    };
    let r = pdk
        .get_contact_within(StackName::Via1, LayerName::Via, target)
        .unwrap();
    assert!(r.is_none());
}

#[test]
fn within_search_caps_at_max_units() {
    // An enormous target is capped at MAX_CONTACT_UNITS per axis.
    let mut pdk = plain_pdk(1, 0);
    let target = Rect {
        p0: Point { x: 0, y: 0 },
        p1: Point { x: 5_000, y: 4_000 },
    };
    let ct = pdk
        .get_contact_within(StackName::Via1, LayerName::Via, target)
        .unwrap()
        .unwrap();
    assert_eq!(ct.cols, MAX_CONTACT_UNITS);
    assert_eq!(ct.rows, MAX_CONTACT_UNITS);
}

#[test]
fn builder_assembles_params() {
    let p = ContactParams::builder()
        .stack(StackName::Via1)
        .rows(2)
        .cols(3)
        .dir(Dir::Horiz)
        .build()
        .unwrap();
    assert_eq!(p, params(2, 3, Dir::Horiz));
}

#[test]
fn builder_rejects_missing_field() {
    let r = ContactParams::builder().rows(1).cols(1).dir(Dir::Vert).build();
    assert_eq!(r, Err(Error::IncompleteContactParams));
}

#[test]
fn zero_rows_rejected() {
    let mut pdk = plain_pdk(17, 19);
    let r = pdk.get_contact(&params(0, 3, Dir::Horiz));
    assert_eq!(r.unwrap_err(), Error::InvalidContactDims);
}

#[test]
fn unknown_stack_rejected() {
    let mut cfg = plain_config(17, 19);
    cfg.stacks = Vec::new();
    let mut pdk = Pdk::new(Tech::Sky130, cfg).unwrap();
    let r = pdk.get_contact(&params(1, 1, Dir::Horiz));
    assert_eq!(r.unwrap_err(), Error::UnknownStack(StackName::Via1));
}

#[test]
fn wrong_stack_arity_rejected() {
    let mut cfg = plain_config(17, 19);
    cfg.stacks = vec![Stack {
        name: StackName::Via1,
        layers: vec![LayerName::M1, LayerName::Via],
    }];
    let mut pdk = Pdk::new(Tech::Sky130, cfg).unwrap();
    let r = pdk.get_contact(&params(1, 1, Dir::Horiz));
    assert_eq!(r.unwrap_err(), Error::BadStackArity(StackName::Via1));
}

#[test]
fn unknown_layer_rejected() {
    let mut cfg = plain_config(17, 19);
    cfg.layers = vec![
        bare_layer(LayerName::M1, 0, 0),
        bare_layer(LayerName::Via, 17, 19),
    ];
    let mut pdk = Pdk::new(Tech::Sky130, cfg).unwrap();
    let r = pdk.get_contact(&params(1, 1, Dir::Horiz));
    assert_eq!(r.unwrap_err(), Error::UnknownLayer(LayerName::M2));
}

#[test]
fn layer_without_box_rejected() {
    let mut pdk = plain_pdk(17, 19);
    let r = pdk.get_contact_sized(StackName::Via1, Dir::Horiz, LayerName::M5, 100);
    assert_eq!(r.unwrap_err(), Error::LayerNotInContact(LayerName::M5));
}

#[test]
fn out_of_bounds_config_rejected() {
    let mut cfg = plain_config(17, 19);
    cfg.grid = 0;
    let r = Pdk::new(Tech::Sky130, cfg);
    assert_eq!(r.unwrap_err(), Error::InvalidConfig);
}

#[test]
fn enclosure_and_one_side_enclosure_apply() {
    // Enclosure 5 on both stack layers; one-sided enclosure 9 pulls the
    // relaxed axis out to the cut box plus 9 on each side.
    let mut cfg = plain_config(17, 19);
    cfg.layers[1].enclosures = vec![
        LayerRule2 { other: LayerName::M1, dist: 5 },
        LayerRule2 { other: LayerName::M2, dist: 5 },
    ];
    cfg.layers[1].one_side_enclosures = vec![LayerRule2 { other: LayerName::M1, dist: 9 }];
    let mut pdk = Pdk::new(Tech::Sky130, cfg).unwrap();
    let ct = pdk.get_contact(&params(1, 1, Dir::Horiz)).unwrap();
    let m1 = ct.bbox(LayerName::M1).unwrap();
    // x is relaxed and extended out to the one-sided enclosure:
    // [-9, 17 + 9]; y keeps the symmetric enclosure [-5, 22].
    assert_eq!(m1, Rect { p0: Point { x: -9, y: -5 }, p1: Point { x: 26, y: 22 } });
    // M2 has no one-sided rule; extension never shrinks the box, so the
    // relaxed axis keeps the full symmetric enclosure.
    let m2 = ct.bbox(LayerName::M2).unwrap();
    assert_eq!(m2, Rect { p0: Point { x: -5, y: -5 }, p1: Point { x: 22, y: 22 } });
}

#[test]
fn min_width_split_lands_on_grid() {
    // Grid 5, cut 20/20, M2 minimum width 35: the deficit of 15 is split 5
    // below and 10 above, so both edges stay on the grid.
    let mut cfg = plain_config(20, 20);
    cfg.grid = 5;
    cfg.layers[2].width = 35;
    let mut pdk = Pdk::new(Tech::Sky130, cfg).unwrap();
    let ct = pdk.get_contact(&params(1, 1, Dir::Vert)).unwrap();
    let m2 = ct.bbox(LayerName::M2).unwrap();
    assert_eq!(m2.p1.x - m2.p0.x, 35);
    assert_eq!(m2.p0.x, -5);
    assert_eq!(m2.p1.x, 30);
    assert_eq!(m2.p0.x % 5, 0);
    assert_eq!(m2.p1.x % 5, 0);
}

#[test]
fn via4_m5_min_width_and_enclosure() {
    // On the sky130 rules a 1x1 Via4 contact's M5 box meets M5's minimum
    // width of 1600, keeps the 310 enclosure on both sides of the cut, and
    // sits on the 5 nm grid.
    let mut pdk = pdkprims::sky130::pdk().unwrap();
    let p = ContactParams {
        stack: StackName::Via4,
        rows: 1,
        cols: 1,
        dir: Dir::Horiz,
    };
    let ct = pdk.get_contact(&p).unwrap();
    let cut = ct.bbox(LayerName::Via4).unwrap();
    let m5 = ct.bbox(LayerName::M5).unwrap();
    assert!(m5.p1.x - m5.p0.x >= 1600);
    assert!(m5.p1.y - m5.p0.y >= 1600);
    assert!(m5.p0.x <= cut.p0.x - 310);
    assert!(m5.p1.x >= cut.p1.x + 310);
    for v in [m5.p0.x, m5.p0.y, m5.p1.x, m5.p1.y] {
        assert_eq!(v % 5, 0);
    }
}

#[test]
fn minimum_width_expansion_applies() {
    // M2 minimum width 31 exceeds the 17-wide cut plus no enclosure, so the
    // box widens by the deficit, split as evenly as possible.
    let mut cfg = plain_config(17, 19);
    cfg.layers[2].width = 31;
    let mut pdk = Pdk::new(Tech::Sky130, cfg).unwrap();
    let ct = pdk.get_contact(&params(1, 1, Dir::Vert)).unwrap();
    let m2 = ct.bbox(LayerName::M2).unwrap();
    assert_eq!(m2.p1.x - m2.p0.x, 31);
    assert_eq!(m2.p0.x, -7);
    assert_eq!(m2.p1.x, 24);
}

#[test]
fn contact_cell_contents() {
    let mut pdk = plain_pdk(17, 19);
    let ct = pdk.get_contact(&params(2, 3, Dir::Horiz)).unwrap();
    // 6 cut squares, the two stack-layer boxes, no extras for a via stack.
    assert_eq!(ct.cell.elems.len(), 8);
    assert!(ct.cell.insts.is_empty());
    // One electrical port with a shape on each stack layer.
    assert_eq!(ct.cell.ports.len(), 2);
    assert_eq!(ct.cell.ports[0].layer, LayerName::M1);
    assert_eq!(ct.cell.ports[1].layer, LayerName::M2);
    let outline = ct.cell.outline.unwrap();
    assert_eq!(outline.layer, LayerName::M1);
    // First cut square sits at the origin.
    assert_eq!(
        ct.cell.elems[0].rect,
        Rect { p0: Point { x: 0, y: 0 }, p1: Point { x: 17, y: 17 } }
    );
    // Second cut square sits one pitch to the right.
    assert_eq!(
        ct.cell.elems[1].rect,
        Rect { p0: Point { x: 36, y: 0 }, p1: Point { x: 53, y: 17 } }
    );
    // Fourth element starts the second row.
    assert_eq!(
        ct.cell.elems[3].rect,
        Rect { p0: Point { x: 0, y: 36 }, p1: Point { x: 17, y: 53 } }
    );
}

#[test]
fn rounding_to_grid() {
    assert_eq!(pdkprims::round(7, 5), 5);
    assert_eq!(pdkprims::round(8, 5), 10);
    assert_eq!(pdkprims::round(10, 5), 10);
    assert_eq!(pdkprims::round(0, 5), 0);
    // Negative inputs round up to the next multiple.
    assert_eq!(pdkprims::round(-3, 5), 0);
    assert_eq!(pdkprims::round(-5, 5), -5);
}

#[test]
fn gridded_center_span_quantizes() {
    let pdk = plain_pdk(17, 19);
    // grid is 1 here, so the span sits exactly on the rounded center.
    let (lo, hi) = pdk.gridded_center_span(100, 30);
    assert_eq!(hi - lo, 30);
    assert_eq!(lo, 85);
}

#[test]
fn within_search_single_cut_boundary() {
    // Exactly one cut fits in each direction: 36*1 - 19 = 17.
    let mut pdk = plain_pdk(17, 19);
    let target = Rect {
        p0: Point { x: 0, y: 0 },
        p1: Point { x: 18, y: 17 },
    };
    let ct = pdk
        .get_contact_within(StackName::Via1, LayerName::Via, target)
        .unwrap()
        .unwrap();
    assert_eq!((ct.rows, ct.cols), (1, 1));
}

#[test]
fn sized_search_exact_boundary() {
    // 36*3 - 19 = 89 fits a target of exactly 89; 4 columns would be 125.
    let mut pdk = plain_pdk(17, 19);
    let ct = pdk
        .get_contact_sized(StackName::Via1, Dir::Horiz, LayerName::Via, 89)
        .unwrap()
        .unwrap();
    assert_eq!(ct.cols, 3);
    let r = pdk
        .get_contact_sized(StackName::Via1, Dir::Horiz, LayerName::Via, 88)
        .unwrap()
        .unwrap();
    assert_eq!(r.cols, 2);
}
