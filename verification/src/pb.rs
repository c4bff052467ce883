//! The data model of a transform pipeline: what a request may ask to be done
//! to an image, and in which order.

use vstd::prelude::*;

verus! {

/// How a resize reaches its target size.
#[derive(Clone, Copy, Debug, PartialEq, Eq, Structural)]
pub enum ResizeMode {
    /// Resample the whole image.
    Normal,
    /// Remove seams of low energy; a mode of its own, not a sampling filter.
    SeamCarve,
}

/// The resampling filter that a resize names.
#[derive(Clone, Copy, Debug, PartialEq, Eq, Structural)]
pub enum SampleFilter {
    Undefined,
    Nearest,
    Triangle,
    CatmullRom,
    Gaussian,
    Lanczos3,
}

/// A colour filter.
#[derive(Clone, Copy, Debug, PartialEq, Eq, Structural)]
pub enum Filter {
    Unspecified,
    Oceanic,
    Islands,
    Marine,
}

/// One transform of a pipeline.
#[derive(Clone, Copy, Debug, PartialEq, Eq, Structural)]
pub enum Spec {
    /// Scale to `width` x `height`.
    Resize { width: u32, height: u32, mode: ResizeMode, filter: SampleFilter },
    /// Keep the rectangle from `(x0, y0)` up to, not including, `(x1, y1)`.
    Crop { x0: u32, y0: u32, x1: u32, y1: u32 },
    /// Recolour with `filter`.
    ColorFilter { kind: Filter },
    /// Overlay the watermark with its top left corner at `(x, y)`.
    Watermark { x: u32, y: u32 },
}

/// An ordered pipeline of transforms; they apply in list order.
#[derive(Clone, Debug, PartialEq, Eq)]
pub struct ImageSpec {
    pub specs: Vec<Spec>,
}

impl View for ImageSpec {
    type V = Seq<Spec>;

    open spec fn view(&self) -> Seq<Spec> {
        self.specs@
    }
}

impl ImageSpec {
    /// The pipeline that applies `specs` in order.
    pub fn new(specs: Vec<Spec>) -> (pipeline: Self)
        ensures
            pipeline@ == specs@,
    {
        Self { specs }
    }
}

impl Filter {
    /// The name under which the pixel library knows this filter; `None` for
    /// `Unspecified`, which names no filter.
    pub fn to_str(&self) -> (name: Option<&'static str>)
        ensures
            *self == Filter::Unspecified <==> name is None,
            *self == Filter::Oceanic ==> name == Some("oceanic"),
            *self == Filter::Islands ==> name == Some("islands"),
            *self == Filter::Marine ==> name == Some("marine"),
    {
        match self {
            Filter::Unspecified => None,
            Filter::Oceanic => Some("oceanic"),
            Filter::Islands => Some("islands"),
            Filter::Marine => Some("marine"),
        }
    }
}

impl Spec {
    /// A seam-carving resize to `width` x `height`; it names no sampling filter.
    pub fn new_resize_seam_carve(width: u32, height: u32) -> (spec: Self)
        ensures
            spec == (Spec::Resize {
                width,
                height,
                mode: ResizeMode::SeamCarve,
                filter: SampleFilter::Undefined,
            }),
    {
        Spec::Resize { width, height, mode: ResizeMode::SeamCarve, filter: SampleFilter::Undefined }
    }

    /// A resampling resize to `width` x `height` with `filter`.
    pub fn new_resize(width: u32, height: u32, filter: SampleFilter) -> (spec: Self)
        ensures
            spec == (Spec::Resize { width, height, mode: ResizeMode::Normal, filter }),
    {
        Spec::Resize { width, height, mode: ResizeMode::Normal, filter }
    }

    /// A crop to the rectangle from `(x0, y0)` up to `(x1, y1)`.
    pub fn new_crop(x0: u32, y0: u32, x1: u32, y1: u32) -> (spec: Self)
        ensures
            spec == (Spec::Crop { x0, y0, x1, y1 }),
    {
        Spec::Crop { x0, y0, x1, y1 }
    }

    /// A colour filter.
    pub fn new_filter(kind: Filter) -> (spec: Self)
        ensures
            spec == (Spec::ColorFilter { kind }),
    {
        Spec::ColorFilter { kind }
    }

    /// A watermark at `(x, y)`.
    pub fn new_watermark(x: u32, y: u32) -> (spec: Self)
        ensures
            spec == (Spec::Watermark { x, y }),
    {
        Spec::Watermark { x, y }
    }
}

} // verus!
