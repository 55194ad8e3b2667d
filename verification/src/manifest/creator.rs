//! Building a manifest in memory, one block at a time.

use vstd::prelude::*;
use crate::manifest::{blocks_view, Block, BlockModel, Manifest, ManifestModel};

verus! {

/// The manifest `m` with the block `b` added at the end and counted.
pub open spec fn manifest_pushed(m: ManifestModel, b: BlockModel) -> ManifestModel {
    ManifestModel { blocks_length: (m.blocks_length + 1) as u32, payload: m.payload.push(b), ..m }
}

/// Builds a manifest; its block count always equals its number of blocks.
pub struct ManifestCreator {
    manifest: Manifest,
}

impl View for ManifestCreator {
    type V = ManifestModel;

    closed spec fn view(&self) -> ManifestModel {
        self.manifest@
    }
}

impl ManifestCreator {
    #[verifier::type_invariant]
    spec fn inv(self) -> bool {
        self.manifest.blocks_length == self.manifest.payload@.len()
    }

    /// An empty manifest for the file `filename` with password hash `password_hash`.
    pub fn new(filename: &str, password_hash: [u8; 32]) -> (res: Self)
        ensures
            res@ == (ManifestModel {
                filename: filename@,
                password_hash: password_hash@,
                blocks_length: 0,
                payload: Seq::empty(),
            }),
    {
        let manifest = Manifest {
            filename: filename.to_owned(),
            password_hash,
            blocks_length: 0,
            payload: Vec::new(),
        };
        assert(blocks_view(manifest.payload@) =~= Seq::empty());
        ManifestCreator { manifest }
    }

    /// The block count of the manifest built so far.
    pub fn blocks_length(&self) -> (res: u32)
        ensures
            res == self@.blocks_length,
    {
        self.manifest.blocks_length
    }

    /// Adds `block` at the end and counts it.
    pub fn push_block(&mut self, block: Block)
        requires
            old(self)@.blocks_length < u32::MAX,
        ensures
            final(self)@ == manifest_pushed(old(self)@, block@),
            final(self)@.blocks_length == final(self)@.payload.len(),
    {
        proof {
            use_type_invariant(&*self);
        }
        let ghost before = self.manifest.payload@;
        let ghost b = block@;
        let mut manifest = Manifest {
            filename: String::new(),
            password_hash: [0u8; 32],
            blocks_length: 0,
            payload: Vec::new(),
        };
        std::mem::swap(&mut manifest, &mut self.manifest);
        manifest.payload.push(block);
        manifest.blocks_length = manifest.blocks_length + 1;
        assert(blocks_view(manifest.payload@) =~= blocks_view(before).push(b));
        self.manifest = manifest;
    }

    /// The manifest built so far.
    pub fn into_manifest(self) -> (res: Manifest)
        ensures
            res@ == self@,
            res@.blocks_length == res@.payload.len(),
    {
        proof {
            use_type_invariant(&self);
        }
        self.manifest
    }
}

} // verus!
