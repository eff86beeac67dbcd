//! MOS transistor group specifications and the generated layout artifact.

use vstd::prelude::*;

use crate::cell::{copy_vec, Cell};
use crate::config::{Int, LayerName, Uint, MAX_RULE};
use crate::geometry::Rect;
use crate::Error;

verus! {

/// Upper bound on the finger count of a group.
pub const MAX_FINGERS: i64 = 1024;

/// Upper bound on the number of devices in a group.
pub const MAX_DEVICES: i64 = 1024;

pub type MosResult<T> = Result<T, Error>;

/// Polarity of one device.
#[derive(Debug, Clone, Copy, PartialEq, Eq, Structural, Hash)]
pub enum MosType {
    Nmos,
    Pmos,
}

/// One device of a group: its polarity, its diffusion width, and the finger
/// gaps at which no source/drain metal should be drawn.
#[derive(Debug, PartialEq)]
pub struct MosDevice {
    pub mos_type: MosType,
    pub width: Int,
    pub skip_sd_metal: Vec<Uint>,
}

/// A multi-finger MOS group: a shared gate length and finger count, and an
/// ordered sequence of devices laid out left to right.
#[derive(Debug, PartialEq)]
pub struct MosParams {
    pub length: Int,
    pub fingers: Uint,
    pub devices: Vec<MosDevice>,
}

impl Clone for MosDevice {
    /// A structurally equal copy.
    fn clone(&self) -> (r: Self)
        ensures
            sp_device_eq(r, *self),
    {
        MosDevice {
            mos_type: self.mos_type,
            width: self.width,
            skip_sd_metal: copy_vec(&self.skip_sd_metal),
        }
    }
}

/// Structural equality of devices, with skip lists compared element-wise.
pub open spec fn sp_device_eq(a: MosDevice, b: MosDevice) -> bool {
    &&& a.mos_type == b.mos_type
    &&& a.width == b.width
    &&& a.skip_sd_metal@ == b.skip_sd_metal@
}

/// Structural equality of group specifications.
pub open spec fn sp_mos_params_eq(a: MosParams, b: MosParams) -> bool {
    &&& a.length == b.length
    &&& a.fingers == b.fingers
    &&& a.devices@.len() == b.devices@.len()
    &&& forall|j: int|
        0 <= j < a.devices@.len() ==> sp_device_eq(#[trigger] a.devices@[j], b.devices@[j])
}

impl Clone for MosParams {
    /// A structurally equal copy.
    fn clone(&self) -> (r: Self)
        ensures
            sp_mos_params_eq(r, *self),
    {
        let mut devices: Vec<MosDevice> = Vec::new();
        let n: usize = self.devices.len();
        let mut i: usize = 0;
        while i < n
            invariant
                i <= n,
                n == self.devices@.len(),
                devices@.len() == i,
                forall|j: int| 0 <= j < i ==> sp_device_eq(#[trigger] devices@[j], self.devices@[j]),
            decreases n - i,
        {
            devices.push(self.devices[i].clone());
            i += 1;
        }
        MosParams { length: self.length, fingers: self.fingers, devices }
    }
}

/// Comparison of two vectors of gap indices.
fn vec_eq_uint(a: &Vec<Uint>, b: &Vec<Uint>) -> (r: bool)
    ensures
        r == (a@ == b@),
{
    if a.len() != b.len() {
        assert(a@ != b@);
        return false;
    }
    let n: usize = a.len();
    let mut i: usize = 0;
    while i < n
        invariant
            i <= n,
            n == a@.len(),
            n == b@.len(),
            forall|j: int| 0 <= j < i ==> a@[j] == b@[j],
        decreases n - i,
    {
        if a[i] != b[i] {
            assert(a@ != b@);
            return false;
        }
        i += 1;
    }
    proof {
        assert(a@ =~= b@);
    }
    true
}

/// Structural equality test for group specifications; the MOS layout cache
/// key comparison.
pub fn mos_params_eq(a: &MosParams, b: &MosParams) -> (r: bool)
    ensures
        r == sp_mos_params_eq(*a, *b),
{
    if a.length != b.length || a.fingers != b.fingers || a.devices.len() != b.devices.len() {
        return false;
    }
    let n: usize = a.devices.len();
    let mut i: usize = 0;
    while i < n
        invariant
            i <= n,
            n == a.devices@.len(),
            n == b.devices@.len(),
            a.length == b.length,
            a.fingers == b.fingers,
            forall|j: int| 0 <= j < i ==> sp_device_eq(#[trigger] a.devices@[j], b.devices@[j]),
        decreases n - i,
    {
        let da = &a.devices[i];
        let db = &b.devices[i];
        if !(da.mos_type == db.mos_type && da.width == db.width) {
            return false;
        }
        if !vec_eq_uint(&da.skip_sd_metal, &db.skip_sd_metal) {
            return false;
        }
        i += 1;
    }
    true
}

/// A device specification is valid when its diffusion width is positive and
/// within the rule bound.
pub open spec fn sp_device_valid(d: MosDevice) -> bool {
    1 <= d.width <= MAX_RULE
}

/// A group specification is valid when the finger count, gate length and
/// device count are positive and within their machine bounds and every
/// device is valid.
pub open spec fn sp_mos_valid(p: MosParams) -> bool {
    &&& 1 <= p.fingers <= MAX_FINGERS
    &&& 1 <= p.length <= MAX_RULE
    &&& 1 <= p.devices@.len() <= MAX_DEVICES
    &&& forall|j: int| 0 <= j < p.devices@.len() ==> sp_device_valid(#[trigger] p.devices@[j])
}

impl MosParams {
    pub fn fingers(&self) -> (r: Uint)
        ensures
            r == self.fingers,
    {
        self.fingers
    }

    pub fn length(&self) -> (r: Int)
        ensures
            r == self.length,
    {
        self.length
    }

    /// Rejects invalid group specifications before any geometry is built.
    pub fn validate(&self) -> (r: Result<(), Error>)
        ensures
            match r {
                Ok(()) => sp_mos_valid(*self),
                Err(e) => !sp_mos_valid(*self) && e == Error::InvalidMosParams,
            },
    {
        if !(1 <= self.fingers && self.fingers <= MAX_FINGERS) {
            return Err(Error::InvalidMosParams);
        }
        if !(1 <= self.length && self.length <= MAX_RULE) {
            return Err(Error::InvalidMosParams);
        }
        let n: usize = self.devices.len();
        if n < 1 || n > MAX_DEVICES as usize {
            return Err(Error::InvalidMosParams);
        }
        let mut i: usize = 0;
        while i < n
            invariant
                i <= n,
                n == self.devices@.len(),
                forall|j: int| 0 <= j < i ==> sp_device_valid(#[trigger] self.devices@[j]),
            decreases n - i,
        {
            let d = &self.devices[i];
            if !(1 <= d.width && d.width <= MAX_RULE) {
                return Err(Error::InvalidMosParams);
            }
            i += 1;
        }
        Ok(())
    }
}

/// Whether device `d` omits source/drain metal at gap `gap`.
pub fn skips(d: &MosDevice, gap: Uint) -> (r: bool)
    ensures
        r == d.skip_sd_metal@.contains(gap),
{
    let n: usize = d.skip_sd_metal.len();
    let mut i: usize = 0;
    while i < n
        invariant
            i <= n,
            n == d.skip_sd_metal@.len(),
            forall|j: int| 0 <= j < i ==> d.skip_sd_metal@[j] != gap,
        decreases n - i,
    {
        if d.skip_sd_metal[i] == gap {
            assert(d.skip_sd_metal@.contains(gap));
            return true;
        }
        i += 1;
    }
    assert(!d.skip_sd_metal@.contains(gap));
    false
}

/// Whether device `d` wants source/drain metal at any of the `fingers + 1`
/// gaps.
pub open spec fn sp_sd_needed(fingers: i64, d: MosDevice) -> bool {
    exists|i: i64| 0 <= i <= fingers && !d.skip_sd_metal@.contains(i)
}

/// Scans the `fingers + 1` gaps of `d` for one not in the skip set.
pub fn any_sd_gap(d: &MosDevice, fingers: Uint) -> (r: bool)
    requires
        0 <= fingers < 0x10000,
    ensures
        r == sp_sd_needed(fingers, *d),
{
    let mut g: i64 = 0;
    while g <= fingers
        invariant
            0 <= g <= fingers + 1,
            fingers < 0x10000,
            forall|m: i64| 0 <= m < g ==> d.skip_sd_metal@.contains(m),
        decreases fingers + 1 - g,
    {
        if !skips(d, g) {
            assert(sp_sd_needed(fingers, *d));
            return true;
        }
        g += 1;
    }
    assert(!sp_sd_needed(fingers, *d)) by {
        assert forall|i: i64| 0 <= i <= fingers implies d.skip_sd_metal@.contains(i) by {}
    }
    false
}

/// The generated layout of a MOS group: the assembled cell, the metal layers
/// carrying gate and source/drain ports, the per-finger gate port rectangles
/// and the per-device per-gap optional source/drain port rectangles.
#[derive(Debug, PartialEq)]
pub struct LayoutTransistors {
    pub cell: Cell,
    pub sd_metal: LayerName,
    pub gate_metal: LayerName,
    pub sd_pins: Vec<Vec<Option<Rect>>>,
    pub gate_pins: Vec<Rect>,
    pub num_fingers: Uint,
    pub num_devices: usize,
}

/// Observable equality of two MOS layout artifacts.
pub open spec fn sp_layout_eq(a: LayoutTransistors, b: LayoutTransistors) -> bool {
    &&& a.sd_metal == b.sd_metal
    &&& a.gate_metal == b.gate_metal
    &&& a.gate_pins@ == b.gate_pins@
    &&& a.sd_pins@.len() == b.sd_pins@.len()
    &&& forall|j: int| 0 <= j < a.sd_pins@.len() ==> (#[trigger] a.sd_pins@[j])@ == b.sd_pins@[j]@
    &&& a.num_fingers == b.num_fingers
    &&& a.num_devices == b.num_devices
    &&& a.cell.id == b.cell.id
    &&& a.cell.elems@ == b.cell.elems@
    &&& a.cell.insts@ == b.cell.insts@
    &&& a.cell.ports@ == b.cell.ports@
    &&& a.cell.outline == b.cell.outline
}

impl Clone for LayoutTransistors {
    /// A structurally equal copy.
    fn clone(&self) -> (r: Self)
        ensures
            sp_layout_eq(r, *self),
    {
        let mut sd_pins: Vec<Vec<Option<Rect>>> = Vec::new();
        let n: usize = self.sd_pins.len();
        let mut i: usize = 0;
        while i < n
            invariant
                i <= n,
                n == self.sd_pins@.len(),
                sd_pins@.len() == i,
                forall|j: int| 0 <= j < i ==> (#[trigger] sd_pins@[j])@ == self.sd_pins@[j]@,
            decreases n - i,
        {
            sd_pins.push(copy_vec(&self.sd_pins[i]));
            i += 1;
        }
        LayoutTransistors {
            cell: self.cell.clone(),
            sd_metal: self.sd_metal,
            gate_metal: self.gate_metal,
            sd_pins,
            gate_pins: copy_vec(&self.gate_pins),
            num_fingers: self.num_fingers,
            num_devices: self.num_devices,
        }
    }
}

} // verus!
