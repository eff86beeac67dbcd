//! Bus track clearance rules on the sky130 rule table.

use pdkprims::bus::{ContactPolicy, ContactPosition};
use pdkprims::sky130::pdk;
use pdkprims::Error;

fn policy(
    above: Option<ContactPosition>,
    below: Option<ContactPosition>,
) -> ContactPolicy {
    ContactPolicy { above, below }
}

#[test]
fn base_spacing_without_contacts() {
    let mut p = pdk().unwrap();
    let s = p.bus_min_spacing(1, 140, policy(None, None)).unwrap();
    // m1's own minimum spacing.
    assert_eq!(s, 140);
}

#[test]
fn adjacent_contacts_raise_spacing() {
    // The 1x1 via1 contact is 260 wide on m1 (150 cut + 2 x 55 enclosure),
    // so a 140-wide trace needs 120 extra clearance.
    let mut p = pdk().unwrap();
    let s = p
        .bus_min_spacing(1, 140, policy(Some(ContactPosition::CenteredAdjacent), None))
        .unwrap();
    assert_eq!(s, 260);
}

#[test]
fn alternating_contacts_need_no_more_than_adjacent() {
    let mut p = pdk().unwrap();
    let adj = p
        .bus_min_spacing(1, 140, policy(Some(ContactPosition::CenteredAdjacent), None))
        .unwrap();
    let non = p
        .bus_min_spacing(
            1,
            140,
            policy(Some(ContactPosition::CenteredNonAdjacent), None),
        )
        .unwrap();
    // The halved overhang: 140 + (120 + 1) / 2.
    assert_eq!(non, 200);
    assert!(non <= adj);
}

#[test]
fn spacing_never_decreases_as_traces_narrow() {
    let mut p = pdk().unwrap();
    let pol = policy(
        Some(ContactPosition::CenteredAdjacent),
        Some(ContactPosition::CenteredNonAdjacent),
    );
    let mut last: i64 = i64::MAX;
    for w in [0_i64, 50, 140, 200, 260, 400] {
        let s = p.bus_min_spacing(1, w, pol).unwrap();
        assert!(s <= last);
        last = s;
    }
}

#[test]
fn below_on_lowest_metal_is_fatal() {
    // There is no layer beneath the lowest metal to contact from.
    let mut p = pdk().unwrap();
    let r = p.bus_min_spacing(0, 170, policy(None, Some(ContactPosition::CenteredAdjacent)));
    assert_eq!(r.unwrap_err(), Error::BelowBottomMetal);
}

#[test]
fn below_uses_the_lower_stack() {
    let mut p = pdk().unwrap();
    let s = p
        .bus_min_spacing(1, 140, policy(None, Some(ContactPosition::CenteredAdjacent)))
        .unwrap();
    // The viali contact's m1 box is 230 wide (170 cut + 2 x 30 enclosure).
    assert_eq!(s, 230);
}

#[test]
fn unknown_metal_index_is_fatal() {
    let mut p = pdk().unwrap();
    let r = p.bus_min_spacing(9, 140, policy(None, None));
    assert_eq!(r.unwrap_err(), Error::NoSuchMetal(9));
}

#[test]
fn no_stack_above_the_top_metal() {
    let mut p = pdk().unwrap();
    let r = p.bus_min_spacing(5, 1600, policy(Some(ContactPosition::CenteredAdjacent), None));
    assert_eq!(r.unwrap_err(), Error::NoStackForIndex(5));
}
