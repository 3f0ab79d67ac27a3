//! The plugin interface: what a plugin produces, and the tilt-shift plugin.
use vstd::prelude::*;
use crate::canvas::{Canvas, Layer};
use crate::errors::PluginError;
use crate::image::Image;

verus! {

/// The output of a plugin run: canvases, images and layers, each in the order added.
pub struct PluginResult {
    canvases: Vec<Canvas>,
    images: Vec<Image>,
    layers: Vec<Layer>,
}

impl PluginResult {
    /// The canvases of the result.
    pub closed spec fn spec_canvases(&self) -> Seq<Canvas> {
        self.canvases@
    }

    /// The images of the result.
    pub closed spec fn spec_images(&self) -> Seq<Image> {
        self.images@
    }

    /// The layers of the result.
    pub closed spec fn spec_layers(&self) -> Seq<Layer> {
        self.layers@
    }

    /// An empty result.
    pub fn new() -> (r: PluginResult)
        ensures
            r.spec_canvases().len() == 0,
            r.spec_images().len() == 0,
            r.spec_layers().len() == 0,
    {
        PluginResult { canvases: Vec::new(), images: Vec::new(), layers: Vec::new() }
    }

    /// Whether the result holds no canvas, no image and no layer.
    pub fn is_empty(&self) -> (b: bool)
        ensures
            b == (self.spec_canvases().len() == 0 && self.spec_images().len() == 0 && self.spec_layers().len()
                == 0),
    {
        self.canvases.len() == 0 && self.images.len() == 0 && self.layers.len() == 0
    }

    /// Appends a canvas to the result.
    pub fn add_canvas(&mut self, p_canvas: Canvas)
        ensures
            final(self).spec_canvases() == old(self).spec_canvases().push(p_canvas),
            final(self).spec_images() == old(self).spec_images(),
            final(self).spec_layers() == old(self).spec_layers(),
    {
        self.canvases.push(p_canvas);
    }

    /// Appends an image to the result.
    pub fn add_image(&mut self, p_image: Image)
        ensures
            final(self).spec_canvases() == old(self).spec_canvases(),
            final(self).spec_images() == old(self).spec_images().push(p_image),
            final(self).spec_layers() == old(self).spec_layers(),
    {
        self.images.push(p_image);
    }

    /// Appends a layer to the result.
    pub fn add_layer(&mut self, p_layer: Layer)
        ensures
            final(self).spec_canvases() == old(self).spec_canvases(),
            final(self).spec_images() == old(self).spec_images(),
            final(self).spec_layers() == old(self).spec_layers().push(p_layer),
    {
        self.layers.push(p_layer);
    }

    /// The canvas at `p_index`, or `None` past the end.
    pub fn canvas_at(&self, p_index: usize) -> (r: Option<&Canvas>)
        ensures
            p_index < self.spec_canvases().len() <==> r is Some,
            r matches Some(c) ==> *c == self.spec_canvases()[p_index as int],
    {
        if p_index < self.canvases.len() {
            Some(&self.canvases[p_index])
        } else {
            None
        }
    }

    /// The image at `p_index`, or `None` past the end.
    pub fn image_at(&self, p_index: usize) -> (r: Option<&Image>)
        ensures
            p_index < self.spec_images().len() <==> r is Some,
            r matches Some(i) ==> *i == self.spec_images()[p_index as int],
    {
        if p_index < self.images.len() {
            Some(&self.images[p_index])
        } else {
            None
        }
    }

    /// The layer at `p_index`, or `None` past the end.
    pub fn layer_at(&self, p_index: usize) -> (r: Option<&Layer>)
        ensures
            p_index < self.spec_layers().len() <==> r is Some,
            r matches Some(l) ==> *l == self.spec_layers()[p_index as int],
    {
        if p_index < self.layers.len() {
            Some(&self.layers[p_index])
        } else {
            None
        }
    }
}

/// An image-processing plugin: a name, a description and an entry point.
pub trait Plugin {
    /// The name of the plugin.
    fn name(&self) -> &str;

    /// A short description of what the plugin does.
    fn description(&self) -> &str;

    /// Runs the plugin.
    fn apply(&mut self) -> Result<PluginResult, PluginError>;
}

/// The tilt-shift plugin: blurs outside a focus band to make a scene look like a miniature.
pub struct TiltShift;

impl Plugin for TiltShift {
    fn name(&self) -> (s: &str)
        ensures
            s@ == "Tilt Shift"@,
    {
        "Tilt Shift"
    }

    fn description(&self) -> (s: &str)
        ensures
            s@ == "Applies a tilt-shift effect to the image, simulating a miniature scene by blurring areas outside a defined focus region and increasing saturation and contrast."@,
    {
        "Applies a tilt-shift effect to the image, simulating a miniature scene by blurring areas outside a defined focus region and increasing saturation and contrast."
    }

    fn apply(&mut self) -> (r: Result<PluginResult, PluginError>)
        ensures
            r matches Ok(res) && res.spec_canvases().len() == 0 && res.spec_images().len() == 0
                && res.spec_layers().len() == 0,
    {
        Ok(PluginResult::new())
    }
}

} // verus!
