//! The produced-geometry model: drawn elements, tagged ports, sub-cell
//! instance placements, and the cell container that holds them.
//!
//! Cells are immutable value objects once built. A sub-cell is referenced by
//! its [`CellId`] — contacts by their full parameter key — rather than by a
//! shared pointer, so equality of cells is plain structural equality.

use vstd::prelude::*;

use crate::config::LayerName;
use crate::contact::ContactParams;
use crate::geometry::{Point, Rect};

verus! {

/// Identity of a port. Contacts expose a single electrical port `X`; the
/// MOS generator tags ports by their role and index.
#[derive(Debug, Clone, Copy, PartialEq, Eq, Structural)]
pub enum PortName {
    /// The single port of a contact.
    X,
    /// Gate port of finger `i`.
    Gate(i64),
    /// Source/drain port of device `j` at gap `i`.
    Sd(i64, i64),
    /// N-implant probe port of device `j`.
    Nsdm(i64),
    /// P-implant probe port of device `j`.
    Psdm(i64),
    /// Well tie probe port of device `j`.
    Vpb(i64),
}

/// One drawn rectangle on a layer.
#[derive(Debug, Clone, Copy, PartialEq, Eq, Structural)]
pub struct Element {
    pub layer: LayerName,
    pub rect: Rect,
}

/// One shape of a named port.
#[derive(Debug, Clone, Copy, PartialEq, Eq, Structural)]
pub struct PortEntry {
    pub name: PortName,
    pub layer: LayerName,
    pub rect: Rect,
}

/// Identity of a generated cell.
#[derive(Debug, Clone, Copy, PartialEq, Eq, Structural)]
pub enum CellId {
    /// A contact cell, identified by the specification it was built from.
    Contact(ContactParams),
    /// A MOS group cell, numbered within its library.
    Mos(usize),
}

/// Placement of a sub-cell at an offset. No rotation or reflection is used
/// by this generator, but the mirror flag is kept for the output format.
#[derive(Debug, Clone, Copy, PartialEq, Eq, Structural)]
pub struct Instance {
    pub cell: CellId,
    pub loc: Point,
    pub reflect_vert: bool,
}

/// A generated cell: its drawn elements, placed sub-cells, tagged ports and
/// optional outline.
#[derive(Debug, PartialEq)]
pub struct Cell {
    pub id: CellId,
    pub elems: Vec<Element>,
    pub insts: Vec<Instance>,
    pub ports: Vec<PortEntry>,
    pub outline: Option<Element>,
}

/// Element-for-element copy of a vector of plain values.
pub fn copy_vec<T: Copy>(v: &Vec<T>) -> (out: Vec<T>)
    ensures
        out@ == v@,
{
    let mut out: Vec<T> = Vec::new();
    let n: usize = v.len();
    let mut i: usize = 0;
    while i < n
        invariant
            i <= n,
            n == v@.len(),
            out@ == v@.take(i as int),
        decreases n - i,
    {
        out.push(v[i]);
        proof {
            assert(v@.take(i as int).push(v@[i as int]) =~= v@.take(i as int + 1));
        }
        i += 1;
    }
    proof {
        assert(v@.take(n as int) =~= v@);
    }
    out
}

/// A named collection of generated cells, handed to an external export
/// layer once construction is done.
#[derive(Debug)]
pub struct Library {
    pub name: String,
    pub cells: Vec<Cell>,
}

impl Clone for Cell {
    /// A structurally equal copy.
    fn clone(&self) -> (r: Self)
        ensures
            r.id == self.id,
            r.elems@ == self.elems@,
            r.insts@ == self.insts@,
            r.ports@ == self.ports@,
            r.outline == self.outline,
    {
        Cell {
            id: self.id,
            elems: copy_vec(&self.elems),
            insts: copy_vec(&self.insts),
            ports: copy_vec(&self.ports),
            outline: self.outline,
        }
    }
}

} // verus!
