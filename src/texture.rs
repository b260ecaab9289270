use vstd::prelude::*;

verus! {

/// The dimension that a texture view descriptor asks the renderer to read a
/// texture as.
#[derive(Clone, Copy, Debug, PartialEq, Eq, Structural)]
pub enum ViewDimension {
    D1,
    D2,
    D2Array,
    Cube,
    CubeArray,
    D3,
}

/// What the poller reads and changes of a loaded image: its extent, its
/// number of array layers, and the dimension its view descriptor requests
/// (`None` when the image has no view descriptor of its own).
#[derive(Clone, Copy, Debug, PartialEq, Eq, Structural)]
pub struct TextureMeta {
    pub width: u32,
    pub height: u32,
    pub layers: u32,
    pub view: Option<ViewDimension>,
}

/// The outcome of patching one loaded texture.
#[derive(Clone, Copy, Debug, PartialEq, Eq, Structural)]
pub enum CubePatch {
    /// The single stacked image was split into layers and given a cube view.
    Reinterpreted,
    /// The texture already had more than one layer (or none): left as it was.
    AlreadyLayered,
    /// The texture has one layer, but its height is not a whole number of
    /// width-sized layers: left as it was.
    NotStacked,
}

/// The number of layers a stacked image holds: its height over its width,
/// rounded down (zero for an image without width).
pub open spec fn stacked_layers(width: u32, height: u32) -> int {
    if width == 0 {
        0
    } else {
        height as int / width as int
    }
}

/// A single stacked image can be split into `stacked_layers` equal layers.
pub open spec fn can_stack(width: u32, height: u32) -> bool {
    let n = stacked_layers(width, height);
    n >= 1 && height as int % n == 0
}

/// The texture after patching: a one-layer texture whose height stacks whole
/// layers becomes `n` layers of `height / n` rows with a cube view; any
/// other texture is left as it is.
pub open spec fn patched(m: TextureMeta) -> TextureMeta {
    let n = stacked_layers(m.width, m.height);
    if m.layers == 1 && can_stack(m.width, m.height) {
        TextureMeta {
            width: m.width,
            height: (m.height as int / n) as u32,
            layers: n as u32,
            view: Some(ViewDimension::Cube),
        }
    } else {
        m
    }
}

/// The outcome that `patch_cubemap` reports for a texture.
pub open spec fn patch_outcome(m: TextureMeta) -> CubePatch {
    if m.layers != 1 {
        CubePatch::AlreadyLayered
    } else if can_stack(m.width, m.height) {
        CubePatch::Reinterpreted
    } else {
        CubePatch::NotStacked
    }
}

/// Layer count of a stacked image from its aspect ratio.
pub fn layers_from_aspect(width: u32, height: u32) -> (r: u32)
    ensures
        r as int == stacked_layers(width, height),
{
    if width == 0 {
        0
    } else {
        height / width
    }
}

impl TextureMeta {
    /// Turns a freshly loaded single-image texture into a cube map: the image
    /// is reinterpreted as a stack of layers, as many as its aspect ratio
    /// gives, and its view descriptor asks for a cube. A texture that already
    /// has a layer count other than one is not touched, so patching twice is
    /// the same as patching once.
    pub fn patch_cubemap(&mut self) -> (r: CubePatch)
        ensures
            *final(self) == patched(*old(self)),
            r == patch_outcome(*old(self)),
    {
        if self.layers != 1 {
            return CubePatch::AlreadyLayered;
        }
        let n = layers_from_aspect(self.width, self.height);
        if n == 0 || self.height % n != 0 {
            return CubePatch::NotStacked;
        }
        self.height = self.height / n;
        self.layers = n;
        self.view = Some(ViewDimension::Cube);
        CubePatch::Reinterpreted
    }

    /// Whether the view descriptor asks for a cube map.
    pub fn is_cube(&self) -> (r: bool)
        ensures
            r == (self.view == Some(ViewDimension::Cube)),
    {
        match self.view {
            Some(ViewDimension::Cube) => true,
            _ => false,
        }
    }
}

/// Patching is idempotent: a texture that was patched once is left as it is
/// by a second patch, so no texture is reinterpreted twice over.
pub proof fn lemma_patch_idempotent(m: TextureMeta)
    ensures
        patched(patched(m)) == patched(m),
{
    let p = patched(m);
    if m.layers == 1 && can_stack(m.width, m.height) {
        let n = stacked_layers(m.width, m.height);
        if n == 1 {
            assert(p.height == m.height);
        }
    }
}

} // verus!
