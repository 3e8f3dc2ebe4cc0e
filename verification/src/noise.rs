//! Seeded gradient-noise tables.
//!
//! A noise field is sampled on an integer lattice: each lattice corner owns
//! one of twelve fixed gradient directions, chosen through a permutation
//! table that is rebuilt from an integer seed.  Everything about that table
//! is integer arithmetic and lives here: the fixed base permutation, the
//! per-seed rebuild (an XOR of each base entry with one byte of the seed),
//! and the lookup that picks the four gradient indices of a lattice cell.
//! Turning a gradient index into a dot product and blending the four corner
//! contributions is the caller's floating-point concern.

use vstd::prelude::*;

verus! {

/// The fixed base permutation of 0..=255 that every seeded table is an
/// XOR-rekeying of.
pub open spec fn base_perm() -> Seq<u8> {
    seq![
        151, 160, 137, 91, 90, 15, 131, 13, 201, 95, 96, 53, 194, 233, 7, 225,
        140, 36, 103, 30, 69, 142, 8, 99, 37, 240, 21, 10, 23, 190, 6, 148,
        247, 120, 234, 75, 0, 26, 197, 62, 94, 252, 219, 203, 117, 35, 11, 32,
        57, 177, 33, 88, 237, 149, 56, 87, 174, 20, 125, 136, 171, 168, 68, 175,
        74, 165, 71, 134, 139, 48, 27, 166, 77, 146, 158, 231, 83, 111, 229, 122,
        60, 211, 133, 230, 220, 105, 92, 41, 55, 46, 245, 40, 244, 102, 143, 54,
        65, 25, 63, 161, 1, 216, 80, 73, 209, 76, 132, 187, 208, 89, 18, 169,
        200, 196, 135, 130, 116, 188, 159, 86, 164, 100, 109, 198, 173, 186, 3, 64,
        52, 217, 226, 250, 124, 123, 5, 202, 38, 147, 118, 126, 255, 82, 85, 212,
        207, 206, 59, 227, 47, 16, 58, 17, 182, 189, 28, 42, 223, 183, 170, 213,
        119, 248, 152, 2, 44, 154, 163, 70, 221, 153, 101, 155, 167, 43, 172, 9,
        129, 22, 39, 253, 19, 98, 108, 110, 79, 113, 224, 232, 178, 185, 112, 104,
        218, 246, 97, 228, 251, 34, 242, 193, 238, 210, 144, 12, 191, 179, 162, 241,
        81, 51, 145, 235, 249, 14, 239, 107, 49, 192, 214, 31, 181, 199, 106, 157,
        184, 84, 204, 176, 115, 121, 50, 45, 127, 4, 150, 254, 138, 236, 205, 93,
        222, 114, 67, 29, 24, 72, 243, 141, 128, 195, 78, 66, 215, 61, 156, 180,
    ]
}

/// The seed as it enters the table rebuild: small seeds have their low byte
/// copied into the high byte so that both seed bytes carry entropy.
pub open spec fn effective_seed(seed: i32) -> i32 {
    if seed < 256 { seed | (seed << 8) } else { seed }
}

/// Entry `i` (for `0 <= i < 256`) of the permutation rebuilt from `seed`:
/// the base entry XORed with the low seed byte at odd positions and with the
/// second seed byte at even ones.
pub open spec fn perm_entry(seed: i32, i: int) -> u8 {
    let s = effective_seed(seed);
    let byte: i32 = if i % 2 == 1 { s & 255 } else { (s >> 8) & 255 };
    ((base_perm()[i] as i32) ^ byte) as u8
}

/// The full 512-entry permutation table for `seed`: the 256 rebuilt entries,
/// duplicated so that lookups may run one period past the end.
pub open spec fn perm_table(seed: i32) -> Seq<u8> {
    Seq::new(512, |i: int| perm_entry(seed, if i < 256 { i } else { i - 256 }))
}

/// The gradient-index table for `seed`: each permutation entry reduced to
/// one of the twelve gradient directions.
pub open spec fn grad_table(seed: i32) -> Seq<u8> {
    Seq::new(512, |i: int| ((perm_table(seed)[i] as int) % 12) as u8)
}

/// Builds the base permutation as a vector.
#[verifier::rlimit(100)]
fn base_perm_vec() -> (r: Vec<u8>)
    ensures
        r@ == base_perm(),
{
    let a: [u8; 256] = [
        151, 160, 137, 91, 90, 15, 131, 13, 201, 95, 96, 53, 194, 233, 7, 225,
        140, 36, 103, 30, 69, 142, 8, 99, 37, 240, 21, 10, 23, 190, 6, 148,
        247, 120, 234, 75, 0, 26, 197, 62, 94, 252, 219, 203, 117, 35, 11, 32,
        57, 177, 33, 88, 237, 149, 56, 87, 174, 20, 125, 136, 171, 168, 68, 175,
        74, 165, 71, 134, 139, 48, 27, 166, 77, 146, 158, 231, 83, 111, 229, 122,
        60, 211, 133, 230, 220, 105, 92, 41, 55, 46, 245, 40, 244, 102, 143, 54,
        65, 25, 63, 161, 1, 216, 80, 73, 209, 76, 132, 187, 208, 89, 18, 169,
        200, 196, 135, 130, 116, 188, 159, 86, 164, 100, 109, 198, 173, 186, 3, 64,
        52, 217, 226, 250, 124, 123, 5, 202, 38, 147, 118, 126, 255, 82, 85, 212,
        207, 206, 59, 227, 47, 16, 58, 17, 182, 189, 28, 42, 223, 183, 170, 213,
        119, 248, 152, 2, 44, 154, 163, 70, 221, 153, 101, 155, 167, 43, 172, 9,
        129, 22, 39, 253, 19, 98, 108, 110, 79, 113, 224, 232, 178, 185, 112, 104,
        218, 246, 97, 228, 251, 34, 242, 193, 238, 210, 144, 12, 191, 179, 162, 241,
        81, 51, 145, 235, 249, 14, 239, 107, 49, 192, 214, 31, 181, 199, 106, 157,
        184, 84, 204, 176, 115, 121, 50, 45, 127, 4, 150, 254, 138, 236, 205, 93,
        222, 114, 67, 29, 24, 72, 243, 141, 128, 195, 78, 66, 215, 61, 156, 180,
    ];
    proof {
        assert(a@ =~= base_perm());
    }
    let mut v: Vec<u8> = Vec::new();
    let mut i: usize = 0;
    while i < 256
        invariant
            a@ == base_perm(),
            i <= 256,
            v@.len() == i,
            forall|j: int| 0 <= j < i ==> v@[j] == base_perm()[j],
        decreases 256 - i,
    {
        v.push(a[i]);
        i = i + 1;
    }
    proof {
        assert(v@ =~= base_perm());
    }
    v
}

/// Seeded noise-table state: the base permutation, the current 512-entry
/// permutation table, and the matching gradient indices.
pub struct Perlin {
    p: Vec<u8>,
    perm: Vec<u8>,
    grad_index: Vec<u8>,
}

impl Perlin {
    /// The current 512-entry permutation table.
    pub closed spec fn perm_seq(self) -> Seq<u8> {
        self.perm@
    }

    /// The current 512-entry gradient-index table.
    pub closed spec fn grad_seq(self) -> Seq<u8> {
        self.grad_index@
    }

    /// The base table is the fixed permutation and both derived tables have
    /// their full length, with each gradient index the reduction of the
    /// matching permutation entry.
    pub closed spec fn wf(self) -> bool {
        &&& self.p@ == base_perm()
        &&& self.p@.len() == 256
        &&& self.perm@.len() == 512
        &&& self.grad_index@.len() == 512
        &&& forall|i: int|
            0 <= i < 512 ==> self.grad_index@[i] == ((self.perm@[i] as int) % 12) as u8
    }

    /// Rebuilds both derived tables from an integer seed.  The resulting
    /// tables are a pure function of the seed, so equal seeds always yield
    /// bit-identical noise tables.
    pub fn seed_int(&mut self, seed: i32)
        requires
            old(self).wf(),
        ensures
            final(self).wf(),
            final(self).perm_seq() == perm_table(seed),
            final(self).grad_seq() == grad_table(seed),
    {
        let mut s: i32 = seed;
        if s < 256 {
            s = s | (s << 8);
        }
        let mut i: usize = 0;
        while i < 256
            invariant
                self.p@ == base_perm(),
                self.p@.len() == 256,
                self.perm@.len() == 512,
                self.grad_index@.len() == 512,
                s == effective_seed(seed),
                i <= 256,
                forall|j: int| 0 <= j < i ==> self.perm@[j] == perm_entry(seed, j),
                forall|j: int| 0 <= j < i ==> self.perm@[j + 256] == perm_entry(seed, j),
                forall|j: int|
                    0 <= j < i ==> self.grad_index@[j] == ((perm_entry(seed, j) as int) % 12) as u8,
                forall|j: int|
                    0 <= j < i ==> self.grad_index@[j + 256] == ((perm_entry(
                        seed,
                        j,
                    ) as int) % 12) as u8,
            decreases 256 - i,
        {
            let pv: u8 = self.p[i];
            let b: i32 = if i % 2 == 1 { s & 255 } else { (s >> 8) & 255 };
            proof {
                assert(0 <= (s & 255) < 256 && 0 <= ((s >> 8) & 255) < 256) by (bit_vector);
            }
            let x: i32 = (pv as i32) ^ b;
            proof {
                assert(0 <= ((pv as i32) ^ b) < 256) by (bit_vector)
                    requires
                        0 <= (pv as i32) < 256,
                        0 <= b < 256,
                ;
            }
            let v: u8 = x as u8;
            self.perm.set(i, v);
            self.perm.set(i + 256, v);
            let g: u8 = v % 12;
            self.grad_index.set(i, g);
            self.grad_index.set(i + 256, g);
            proof {
                assert(v == perm_entry(seed, i as int));
            }
            i = i + 1;
        }
        proof {
            assert(self.perm@ =~= perm_table(seed));
            assert(self.grad_index@ =~= grad_table(seed));
        }
    }

    /// Looks up the gradient indices of the four corners of the lattice cell
    /// whose lower corner is `(x_cell, y_cell)`, in the order: lower-left,
    /// upper-left, lower-right, upper-right.  Each index names one of the
    /// twelve gradient directions.
    pub fn lattice_corners(&self, x_cell: i32, y_cell: i32) -> (r: (u8, u8, u8, u8))
        requires
            self.wf(),
        ensures
            ({
                let xf = (x_cell & 0xff) as int;
                let yf = (y_cell & 0xff) as int;
                &&& r.0 == self.grad_seq()[xf + self.perm_seq()[yf]]
                &&& r.1 == self.grad_seq()[xf + self.perm_seq()[yf + 1]]
                &&& r.2 == self.grad_seq()[xf + 1 + self.perm_seq()[yf]]
                &&& r.3 == self.grad_seq()[xf + 1 + self.perm_seq()[yf + 1]]
                &&& r.0 < 12 && r.1 < 12 && r.2 < 12 && r.3 < 12
            }),
    {
        proof {
            assert(0 <= (x_cell & 0xff) < 256 && 0 <= (y_cell & 0xff) < 256) by (bit_vector);
        }
        let xf: usize = (x_cell & 0xff) as usize;
        let yf: usize = (y_cell & 0xff) as usize;
        let pyf: usize = self.perm[yf] as usize;
        let pyf1: usize = self.perm[yf + 1] as usize;
        let g00 = self.grad_index[xf + pyf];
        let g01 = self.grad_index[xf + pyf1];
        let g10 = self.grad_index[xf + 1 + pyf];
        let g11 = self.grad_index[xf + 1 + pyf1];
        (g00, g01, g10, g11)
    }
}

impl Default for Perlin {
    /// An unseeded table: the fixed base permutation with both derived
    /// tables zeroed, as they stand before the first rebuild.
    fn default() -> (r: Self)
        ensures
            r.wf(),
            r.perm_seq() == Seq::new(512, |i: int| 0u8),
            r.grad_seq() == Seq::new(512, |i: int| 0u8),
    {
        let p = base_perm_vec();
        let mut perm: Vec<u8> = Vec::new();
        while perm.len() < 512
            invariant
                perm@.len() <= 512,
                forall|j: int| 0 <= j < perm@.len() ==> perm@[j] == 0u8,
            decreases 512 - perm@.len(),
        {
            perm.push(0);
        }
        let mut grad_index: Vec<u8> = Vec::new();
        while grad_index.len() < 512
            invariant
                grad_index@.len() <= 512,
                forall|j: int| 0 <= j < grad_index@.len() ==> grad_index@[j] == 0u8,
            decreases 512 - grad_index@.len(),
        {
            grad_index.push(0);
        }
        let r = Perlin { p, perm, grad_index };
        proof {
            assert(r.perm@ =~= Seq::new(512, |i: int| 0u8));
            assert(r.grad_index@ =~= Seq::new(512, |i: int| 0u8));
        }
        r
    }
}

} // verus!
