//! Descriptions of scene parts that live in files: the record says where,
//! and the caller that holds the file system does the loading.

use vstd::prelude::*;

verus! {

/// A mesh in a Wavefront `.obj` file.
#[derive(Debug)]
pub struct WavefrontObjDescriptor {
    pub path: String,
}

impl WavefrontObjDescriptor {
    /// The description of the mesh at `path`.
    pub fn new(path: String) -> (d: Self)
        ensures
            d.path@ == path@,
    {
        WavefrontObjDescriptor { path }
    }

    /// Where the mesh is.
    pub fn path(&self) -> (path: &String)
        ensures
            path@ == self.path@,
    {
        &self.path
    }
}

impl Clone for WavefrontObjDescriptor {
    fn clone(&self) -> (d: Self)
        ensures
            d.path@ == self.path@,
    {
        WavefrontObjDescriptor { path: self.path.clone() }
    }
}

/// A texture in an image file.
#[derive(Debug)]
pub struct ImageTextureDescriptor {
    pub path: String,
}

impl ImageTextureDescriptor {
    /// The description of the image at `path`.
    pub fn new(path: String) -> (d: Self)
        ensures
            d.path@ == path@,
    {
        ImageTextureDescriptor { path }
    }

    /// Where the image is.
    pub fn path(&self) -> (path: &String)
        ensures
            path@ == self.path@,
    {
        &self.path
    }
}

impl Clone for ImageTextureDescriptor {
    fn clone(&self) -> (d: Self)
        ensures
            d.path@ == self.path@,
    {
        ImageTextureDescriptor { path: self.path.clone() }
    }
}

} // verus!
