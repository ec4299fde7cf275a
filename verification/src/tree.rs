//! A reference block-tree collaborator: the current height, the current tip
//! hash, and an import operation for a batch of headers. The core consumes
//! only this interface; chain validation beyond header linkage is out of
//! scope.

use vstd::prelude::*;

use crate::codec::block_hash;
use crate::codec::bytes_eq;
use crate::codec::spec_block_hash;
use crate::error::Error;
use crate::message::BlockHeader;
use crate::message::BlockHeaderV;

verus! {

/// The largest height the tree will grow to, so that a height can always be
/// quoted as the signed 32-bit `start_height` of a version message.
pub const MAX_HEIGHT: u32 = 0x7FFF_FFFF;

/// A batch of headers chains from `tip`: the first points at `tip`, and
/// each later one points at the block id of its predecessor.
pub open spec fn spec_linked(hs: Seq<BlockHeaderV>, tip: Seq<u8>) -> bool {
    &&& hs.len() > 0 ==> hs[0].prev_blockhash == tip
    &&& forall|i: int|
        1 <= i < hs.len() ==> (#[trigger] hs[i]).prev_blockhash == spec_block_hash(hs[i - 1])
}

/// Every header in the batch is well formed.
pub open spec fn headers_wf(hs: Seq<BlockHeaderV>) -> bool {
    forall|i: int| 0 <= i < hs.len() ==> (#[trigger] hs[i]).wf()
}

/// The block tree, seen through its interface: a height and a tip hash.
#[derive(Clone, Debug)]
pub struct Tree {
    /// The height of the current tip.
    pub height: u32,
    /// The block id of the current tip, 32 bytes.
    pub tip: Vec<u8>,
}

impl Tree {
    /// The height leaves room to be quoted in a version message.
    pub open spec fn wf(self) -> bool {
        self.height <= MAX_HEIGHT
    }

    /// A tree whose tip is `tip` at height `height`.
    pub fn new(tip: Vec<u8>, height: u32) -> (r: Tree)
        requires
            tip@.len() == 32,
            height <= MAX_HEIGHT,
        ensures
            r.tip@ == tip@,
            r.height == height,
            r.wf(),
    {
        Tree { height, tip }
    }

    /// The current height.
    pub fn tree_height(&self) -> (r: u32)
        ensures
            r == self.height,
    {
        self.height
    }

    /// The block id of the current tip.
    pub fn tree_tip(&self) -> (r: Vec<u8>)
        ensures
            r@ == self.tip@,
    {
        self.tip.clone()
    }

    /// Imports a non-empty batch of headers. Succeeds exactly when the
    /// batch chains from the current tip and the new height stays within
    /// `MAX_HEIGHT`; then the tip becomes the block id of the last header
    /// and the height grows by the batch length, and both are returned. On
    /// a validation error the tree is untouched.
    pub fn import_blocks(&mut self, headers: &Vec<BlockHeader>) -> (r: Result<(Vec<u8>, u32), Error>)
        requires
            old(self).wf(),
            headers@.len() > 0,
            headers_wf(headers@.map_values(|h: BlockHeader| h@)),
        ensures
            final(self).wf(),
            match r {
                Ok((tip, height)) => {
                    let hs = headers@.map_values(|h: BlockHeader| h@);
                    &&& spec_linked(hs, old(self).tip@)
                    &&& old(self).height + hs.len() <= MAX_HEIGHT
                    &&& final(self).height == old(self).height + hs.len()
                    &&& final(self).tip@ == spec_block_hash(hs[hs.len() - 1])
                    &&& tip@ == final(self).tip@
                    &&& height == final(self).height
                },
                Err(e) => {
                    let hs = headers@.map_values(|h: BlockHeader| h@);
                    &&& e == Error::TreeValidation
                    &&& !(spec_linked(hs, old(self).tip@) && old(self).height + hs.len()
                        <= MAX_HEIGHT)
                    &&& final(self).height == old(self).height
                    &&& final(self).tip@ == old(self).tip@
                },
            },
    {
        let ghost hs = headers@.map_values(|h: BlockHeader| h@);
        let n = headers.len();
        if !bytes_eq(&headers[0].prev_blockhash, &self.tip) {
            proof {
                assert(hs[0] == headers@[0]@);
            }
            return Err(Error::TreeValidation);
        }
        let mut i: usize = 1;
        while i < n
            invariant
                1 <= i <= n,
                n == headers@.len(),
                hs == headers@.map_values(|h: BlockHeader| h@),
                headers_wf(hs),
                self.height == old(self).height,
                self.tip@ == old(self).tip@,
                old(self).wf(),
                forall|j: int|
                    1 <= j < i ==> (#[trigger] hs[j]).prev_blockhash == spec_block_hash(hs[j - 1]),
            decreases n - i,
        {
            proof {
                assert(hs[i - 1] == headers@[i - 1]@);
                assert(hs[i - 1].wf());
                assert(hs[i as int] == headers@[i as int]@);
            }
            let prev = block_hash(&headers[i - 1]);
            if !bytes_eq(&headers[i].prev_blockhash, &prev) {
                return Err(Error::TreeValidation);
            }
            i = i + 1;
        }
        if n > (MAX_HEIGHT - self.height) as usize {
            return Err(Error::TreeValidation);
        }
        proof {
            assert(hs[n - 1] == headers@[n - 1]@);
            assert(hs[n - 1].wf());
        }
        let new_tip = block_hash(&headers[n - 1]);
        let new_height = self.height + n as u32;
        self.tip = new_tip;
        self.height = new_height;
        let out_tip = self.tip.clone();
        Ok((out_tip, new_height))
    }
}

} // verus!
