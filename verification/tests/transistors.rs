//! MOS group generation on the sky130 rule table.

use pdkprims::cell::PortName;
use pdkprims::config::{LayerName, Units};
use pdkprims::mos::{MosDevice, MosParams, MosType};
use pdkprims::sky130::{
    diff_edge_to_gate, diff_to_opposite_diff, finger_space, pdk_lib, tech_config,
};
use pdkprims::Error;

fn device(t: MosType, width: i64, skip: Vec<i64>) -> MosDevice {
    MosDevice {
        mos_type: t,
        width,
        skip_sd_metal: skip,
    }
}

fn group(fingers: i64, length: i64, devices: Vec<MosDevice>) -> MosParams {
    MosParams {
        length,
        fingers,
        devices,
    }
}

#[test]
fn sky130_spacing_quantities() {
    let tc = tech_config();
    assert_eq!(tc.grid, 5);
    // max(2*55 + 170, 210)
    assert_eq!(finger_space(&tc).unwrap(), 280);
    // max(250, 55 + 170 + 40)
    assert_eq!(diff_edge_to_gate(&tc).unwrap(), 265);
    // 340 + 180
    assert_eq!(diff_to_opposite_diff(&tc).unwrap(), 520);
}

#[test]
fn four_finger_two_device_group() {
    // A 4-finger N+P pair: exactly 4 gate ports, and (4+1) x 2 = 10
    // source/drain slots, all populated when nothing is skipped.
    let mut lib = pdk_lib(String::from("ptx")).unwrap();
    let t = lib
        .draw_mos(group(
            4,
            150,
            vec![
                device(MosType::Nmos, 1000, Vec::new()),
                device(MosType::Pmos, 1400, Vec::new()),
            ],
        ))
        .unwrap();
    assert_eq!(t.gate_pins.len(), 4);
    assert_eq!(t.num_fingers, 4);
    assert_eq!(t.num_devices, 2);
    assert_eq!(t.sd_pins.len(), 2);
    let mut slots = 0;
    for row in &t.sd_pins {
        assert_eq!(row.len(), 5);
        for s in row {
            assert!(s.is_some());
            slots += 1;
        }
    }
    assert_eq!(slots, 10);
    // Each device's source/drain ports form one column at a fixed pitch.
    for row in &t.sd_pins {
        let first = row[0].unwrap();
        let second = row[1].unwrap();
        let pitch = second.p0.y - first.p0.y;
        assert!(pitch > 0);
        for (i, s) in row.iter().enumerate() {
            let r = s.unwrap();
            assert_eq!(r.p0.x, first.p0.x);
            assert_eq!(r.p1.x, first.p1.x);
            assert_eq!(r.p0.y, first.p0.y + (i as i64) * pitch);
        }
    }
    assert_eq!(t.gate_metal, LayerName::Li);
    assert_eq!(t.sd_metal, LayerName::Li);
    // Gate ports form one evenly spaced vertical stack.
    let p0 = &t.gate_pins[0];
    let pitch = t.gate_pins[1].p0.y - p0.p0.y;
    assert!(pitch > 0);
    for (i, pin) in t.gate_pins.iter().enumerate() {
        assert_eq!(pin.p0.x, p0.p0.x);
        assert_eq!(pin.p1.x, p0.p1.x);
        assert_eq!(pin.p1.y - pin.p0.y, p0.p1.y - p0.p0.y);
        assert_eq!(pin.p0.y, p0.p0.y + (i as i64) * pitch);
    }
}

#[test]
fn skipped_gaps_have_no_metal() {
    let mut lib = pdk_lib(String::from("ptx")).unwrap();
    let t = lib
        .draw_mos(group(
            2,
            150,
            vec![device(MosType::Nmos, 1000, vec![0, 2])],
        ))
        .unwrap();
    assert_eq!(t.sd_pins.len(), 1);
    assert_eq!(t.sd_pins[0].len(), 3);
    assert!(t.sd_pins[0][0].is_none());
    assert!(t.sd_pins[0][1].is_some());
    assert!(t.sd_pins[0][2].is_none());
}

#[test]
fn mos_layouts_are_cached_per_group() {
    let mut lib = pdk_lib(String::from("ptx")).unwrap();
    let p1 = group(2, 150, vec![device(MosType::Nmos, 1000, Vec::new())]);
    let p2 = group(2, 150, vec![device(MosType::Nmos, 1000, Vec::new())]);
    let a = lib.draw_mos(p1).unwrap();
    assert_eq!(lib.ptx.len(), 1);
    let b = lib.draw_mos(p2).unwrap();
    assert_eq!(lib.ptx.len(), 1);
    assert_eq!(a, b);
    let p3 = group(3, 150, vec![device(MosType::Nmos, 1000, Vec::new())]);
    lib.draw_mos(p3).unwrap();
    assert_eq!(lib.ptx.len(), 2);
}

#[test]
fn zero_fingers_rejected() {
    let mut lib = pdk_lib(String::from("ptx")).unwrap();
    let r = lib.draw_mos(group(0, 150, vec![device(MosType::Nmos, 1000, Vec::new())]));
    assert_eq!(r.unwrap_err(), Error::InvalidMosParams);
}

#[test]
fn empty_group_rejected() {
    let mut lib = pdk_lib(String::from("ptx")).unwrap();
    let r = lib.draw_mos(group(2, 150, Vec::new()));
    assert_eq!(r.unwrap_err(), Error::InvalidMosParams);
}

#[test]
fn too_narrow_device_is_reported() {
    // A 200-wide device cannot hold even a single source/drain contact
    // (the one-cut contact's diffusion footprint is wider), and the
    // generator reports it instead of failing silently.
    let mut lib = pdk_lib(String::from("ptx")).unwrap();
    let r = lib.draw_mos(group(2, 150, vec![device(MosType::Nmos, 200, Vec::new())]));
    assert_eq!(r.unwrap_err(), Error::InfeasibleSdContact);
}

#[test]
fn narrow_device_with_all_gaps_skipped_passes() {
    // The same narrow device draws fine when it never asks for
    // source/drain metal.
    let mut lib = pdk_lib(String::from("ptx")).unwrap();
    let t = lib
        .draw_mos(group(2, 150, vec![device(MosType::Nmos, 200, vec![0, 1, 2])]))
        .unwrap();
    assert!(t.sd_pins[0].iter().all(|s| s.is_none()));
}

#[test]
fn drawn_contact_lands_in_library() {
    let mut lib = pdk_lib(String::from("cells")).unwrap();
    let p = pdkprims::contact::ContactParams {
        stack: pdkprims::config::StackName::Polyc,
        rows: 1,
        cols: 1,
        dir: pdkprims::geometry::Dir::Horiz,
    };
    assert_eq!(lib.lib.cells.len(), 0);
    let ct = lib.draw_contact(&p).unwrap();
    assert_eq!(lib.lib.cells.len(), 1);
    let id = pdkprims::cell::CellId::Contact(p);
    assert_eq!(ct.cell.id, id);
    assert!(lib.cell(id).is_some());
    assert!(lib
        .cell(pdkprims::cell::CellId::Mos(7))
        .is_none());
}

#[test]
fn implant_and_well_ports_per_device() {
    // N, P, N: each N device gets an n-implant port, the P device gets a
    // p-implant port and a well tie port.
    let mut lib = pdk_lib(String::from("ptx")).unwrap();
    let t = lib
        .draw_mos(group(
            2,
            150,
            vec![
                device(MosType::Nmos, 1000, Vec::new()),
                device(MosType::Pmos, 1000, Vec::new()),
                device(MosType::Nmos, 1000, Vec::new()),
            ],
        ))
        .unwrap();
    let mut nsdm = 0;
    let mut psdm = 0;
    let mut vpb = 0;
    for p in &t.cell.ports {
        match p.name {
            PortName::Nsdm(_) => nsdm += 1,
            PortName::Psdm(_) => psdm += 1,
            PortName::Vpb(_) => vpb += 1,
            _ => {}
        }
    }
    assert_eq!((nsdm, psdm, vpb), (2, 1, 1));
}

#[test]
fn units_and_grid_accessors() {
    let lib = pdk_lib(String::from("ptx")).unwrap();
    assert_eq!(lib.pdk().grid(), 5);
    assert!(matches!(lib.pdk().units(), Units::Nano));
    assert!(matches!(lib.pdk().tech(), pdkprims::Tech::Sky130));
}
