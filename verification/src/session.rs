//! Session tables broadcast during the first round of each protocol: the
//! nonce table of the compiler construction and the ephemeral (verification
//! key) table of the optimized construction.  Both are authenticated by
//! strict equality of their canonical string forms.

use crate::encoding::{dec_of, hex_of, usize_to_string};
use crate::group::{GroupElement, GroupScalar};
use crate::utility::scalar_to_string;
use vstd::prelude::*;

verus! {

/// The canonical string of the first `k` entries of a table whose rows are
/// an index in decimal followed by the hex of 32 bytes; no separator.
pub open spec fn table_str(idxs: Seq<usize>, bytes: Seq<Seq<u8>>, k: nat) -> Seq<char>
    decreases k,
{
    if k == 0 {
        Seq::empty()
    } else {
        table_str(idxs, bytes, (k - 1) as nat) + dec_of(idxs[k - 1] as int) + hex_of(
            bytes[k - 1],
        )
    }
}

/// The byte views of a list of scalars.
pub open spec fn scalars_bytes(sc: Seq<GroupScalar>) -> Seq<Seq<u8>> {
    Seq::new(sc.len(), |j: int| sc[j].bytes@)
}

/// The byte views of a list of group elements.
pub open spec fn elements_bytes(el: Seq<GroupElement>) -> Seq<Seq<u8>> {
    Seq::new(el.len(), |j: int| el[j].bytes@)
}

/// Holds the nonces broadcast in the first round of the compiler protocols.
pub struct Nonces {
    pub idxs: Vec<usize>,
    pub scalars: Vec<GroupScalar>,
}

impl Nonces {
    /// One index per scalar.
    pub open spec fn wf(&self) -> bool {
        self.idxs@.len() == self.scalars@.len()
    }

    /// The canonical string form of the whole table.
    pub open spec fn str_spec(&self) -> Seq<char> {
        table_str(self.idxs@, scalars_bytes(self.scalars@), self.idxs@.len())
    }

    pub fn new(idxs: Vec<usize>, scalars: Vec<GroupScalar>) -> (r: Nonces)
        ensures
            r.idxs@ == idxs@,
            r.scalars@ == scalars@,
    {
        Nonces { idxs, scalars }
    }

    /// Renders the table: for each entry, the index in decimal followed by
    /// the hex of the nonce.
    pub fn to_string(&self) -> (r: String)
        requires
            self.wf(),
        ensures
            r@ == self.str_spec(),
    {
        let mut res = String::new();
        let mut i: usize = 0;
        while i < self.idxs.len()
            invariant
                i <= self.idxs@.len(),
                self.idxs@.len() == self.scalars@.len(),
                res@ == table_str(self.idxs@, scalars_bytes(self.scalars@), i as nat),
            decreases self.idxs@.len() - i,
        {
            let part = usize_to_string(self.idxs[i]);
            res.append(part.as_str());
            let sc = scalar_to_string(&self.scalars[i]);
            res.append(sc.as_str());
            i = i + 1;
        }
        res
    }
}

impl Clone for Nonces {
    fn clone(&self) -> (r: Self)
        ensures
            r.idxs@ == self.idxs@,
            forall|j: int|
                0 <= j < self.scalars@.len() ==> (#[trigger] r.scalars@[j]).bytes@
                    == self.scalars@[j].bytes@,
            r.scalars@.len() == self.scalars@.len(),
            r.str_spec() == self.str_spec(),
    {
        let mut scalars: Vec<GroupScalar> = Vec::new();
        let mut i: usize = 0;
        while i < self.scalars.len()
            invariant
                i <= self.scalars@.len(),
                scalars@.len() == i,
                forall|j: int|
                    0 <= j < i ==> (#[trigger] scalars@[j]).bytes@ == self.scalars@[j].bytes@,
            decreases self.scalars@.len() - i,
        {
            scalars.push(self.scalars[i].clone());
            i = i + 1;
        }
        let mut idxs: Vec<usize> = Vec::new();
        let mut i: usize = 0;
        while i < self.idxs.len()
            invariant
                i <= self.idxs@.len(),
                idxs@ == self.idxs@.take(i as int),
            decreases self.idxs@.len() - i,
        {
            idxs.push(self.idxs[i]);
            proof {
                assert(idxs@ =~= self.idxs@.take(i + 1));
            }
            i = i + 1;
        }
        proof {
            assert(idxs@ =~= self.idxs@);
        }
        let r = Nonces { idxs, scalars };
        proof {
            assert(scalars_bytes(r.scalars@) =~= scalars_bytes(self.scalars@));
        }
        r
    }
}

/// Holds the round-one ephemerals of every party in the optimized
/// protocols; they double as per-party statements for the discrete-log
/// proofs.
pub struct VK {
    pub idxs: Vec<usize>,
    pub z_is: Vec<GroupElement>,
}

impl VK {
    /// One index per element.
    pub open spec fn wf(&self) -> bool {
        self.idxs@.len() == self.z_is@.len()
    }

    /// The canonical string form of the whole table.
    pub open spec fn str_spec(&self) -> Seq<char> {
        table_str(self.idxs@, elements_bytes(self.z_is@), self.idxs@.len())
    }

    pub fn new(idxs: Vec<usize>, z_is: Vec<GroupElement>) -> (r: VK)
        ensures
            r.idxs@ == idxs@,
            r.z_is@ == z_is@,
    {
        VK { idxs, z_is }
    }

    /// Renders the table: for each entry, the index in decimal followed by
    /// the hex of the ephemeral.
    pub fn to_string(&self) -> (r: String)
        requires
            self.wf(),
        ensures
            r@ == self.str_spec(),
    {
        let mut res = String::new();
        let mut i: usize = 0;
        while i < self.idxs.len()
            invariant
                i <= self.idxs@.len(),
                self.idxs@.len() == self.z_is@.len(),
                res@ == table_str(self.idxs@, elements_bytes(self.z_is@), i as nat),
            decreases self.idxs@.len() - i,
        {
            let part = usize_to_string(self.idxs[i]);
            res.append(part.as_str());
            let el = crate::utility::ristretto_to_string(&self.z_is[i]);
            res.append(el.as_str());
            i = i + 1;
        }
        res
    }
}

impl Clone for VK {
    fn clone(&self) -> (r: Self)
        ensures
            r.idxs@ == self.idxs@,
            forall|j: int|
                0 <= j < self.z_is@.len() ==> (#[trigger] r.z_is@[j]).bytes@
                    == self.z_is@[j].bytes@ && r.z_is@[j].exp@ == self.z_is@[j].exp@,
            r.z_is@.len() == self.z_is@.len(),
            r.str_spec() == self.str_spec(),
    {
        let mut z_is: Vec<GroupElement> = Vec::new();
        let mut i: usize = 0;
        while i < self.z_is.len()
            invariant
                i <= self.z_is@.len(),
                z_is@.len() == i,
                forall|j: int|
                    0 <= j < i ==> (#[trigger] z_is@[j]).bytes@ == self.z_is@[j].bytes@
                        && z_is@[j].exp@ == self.z_is@[j].exp@,
            decreases self.z_is@.len() - i,
        {
            z_is.push(self.z_is[i].clone());
            i = i + 1;
        }
        let mut idxs: Vec<usize> = Vec::new();
        let mut i: usize = 0;
        while i < self.idxs.len()
            invariant
                i <= self.idxs@.len(),
                idxs@ == self.idxs@.take(i as int),
            decreases self.idxs@.len() - i,
        {
            idxs.push(self.idxs[i]);
            proof {
                assert(idxs@ =~= self.idxs@.take(i + 1));
            }
            i = i + 1;
        }
        proof {
            assert(idxs@ =~= self.idxs@);
        }
        let r = VK { idxs, z_is };
        proof {
            assert(elements_bytes(r.z_is@) =~= elements_bytes(self.z_is@));
        }
        r
    }
}

} // verus!
