use vstd::prelude::*;

verus! {

/// A triangular table of principal variations: `pv_table[ply]` holds the line found from that
/// ply, of `pv_length[ply]` moves, each packed in 32 bits.
pub struct PVTable {
    pub pv_length: [usize; 64],
    pub pv_table: [[u32; 64]; 64],
}

impl PVTable {
    /// The empty table: every line of length zero and every move zero.
    pub fn new() -> (r: PVTable)
        ensures
            forall|i: int| 0 <= i < 64 ==> r.pv_length[i] == 0,
            forall|i: int, j: int| 0 <= i < 64 && 0 <= j < 64 ==> r.pv_table[i][j] == 0,
    {
        PVTable { pv_length: [0; 64], pv_table: [[0; 64]; 64] }
    }
}

} // verus!
