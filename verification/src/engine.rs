//! The transform engine: what each transform makes of an image's size, the
//! check of a whole pipeline against an image before a pixel is touched, and
//! the contract between that check and the pixel operations of an engine.

use crate::pb::{ImageSpec, ResizeMode, SampleFilter, Spec};
use vstd::prelude::*;

verus! {

/// The size of an image, in pixels.
#[derive(Clone, Copy, Debug, PartialEq, Eq, Structural)]
pub struct Geometry {
    pub width: u32,
    pub height: u32,
}

/// Why a transform cannot be applied to an image.
#[derive(Clone, Copy, Debug, PartialEq, Eq, Structural)]
pub enum TransformFault {
    /// A resize to a width or a height of zero.
    EmptyResize,
    /// A crop whose rectangle has no pixel in it.
    EmptyCrop,
    /// A crop whose rectangle reaches beyond the image.
    CropOutOfBounds,
}

/// A transform that cannot be applied, with its place in the pipeline.
#[derive(Clone, Copy, Debug, PartialEq, Eq, Structural)]
pub struct TransformError {
    /// The index of the failing transform, counted from zero.
    pub index: usize,
    pub fault: TransformFault,
}

/// Why no output could be encoded.
#[derive(Clone, Copy, Debug, PartialEq, Eq, Structural)]
pub enum EncodeError {
    /// The engine cannot write the format asked for.
    Unsupported,
    /// The format's encoder failed.
    Failed,
}

/// Why an engine handed back no output.
#[derive(Clone, Copy, Debug, PartialEq, Eq, Structural)]
pub enum RenderError {
    /// A transform of the pipeline cannot be applied to this image.
    Transform(TransformError),
    /// Every transform was applied, and the result could not be encoded.
    Encode(EncodeError),
}

/// The container format of the output.
#[derive(Clone, Copy, Debug, PartialEq, Eq, Structural)]
pub enum OutputFormat {
    Png,
    Jpeg,
    Webp,
}

/// The resampling algorithms of the pixel library.
#[derive(Clone, Copy, Debug, PartialEq, Eq, Structural)]
pub enum SamplingKernel {
    Nearest,
    Triangle,
    CatmullRom,
    Gaussian,
    Lanczos3,
}

/// The algorithm that a sampling filter stands for; a filter left undefined
/// stands for nearest-neighbour sampling.
pub open spec fn kernel_of(filter: SampleFilter) -> SamplingKernel {
    match filter {
        SampleFilter::Undefined => SamplingKernel::Nearest,
        SampleFilter::Nearest => SamplingKernel::Nearest,
        SampleFilter::Triangle => SamplingKernel::Triangle,
        SampleFilter::CatmullRom => SamplingKernel::CatmullRom,
        SampleFilter::Gaussian => SamplingKernel::Gaussian,
        SampleFilter::Lanczos3 => SamplingKernel::Lanczos3,
    }
}

impl From<SampleFilter> for SamplingKernel {
    fn from(v: SampleFilter) -> (kernel: SamplingKernel) {
        match v {
            SampleFilter::Undefined => SamplingKernel::Nearest,
            SampleFilter::Nearest => SamplingKernel::Nearest,
            SampleFilter::Triangle => SamplingKernel::Triangle,
            SampleFilter::CatmullRom => SamplingKernel::CatmullRom,
            SampleFilter::Gaussian => SamplingKernel::Gaussian,
            SampleFilter::Lanczos3 => SamplingKernel::Lanczos3,
        }
    }
}

impl vstd::std_specs::convert::FromSpecImpl<SampleFilter> for SamplingKernel {
    open spec fn obeys_from_spec() -> bool {
        true
    }

    open spec fn from_spec(v: SampleFilter) -> SamplingKernel {
        kernel_of(v)
    }
}

impl OutputFormat {
    /// The media type of the format, as a hint for the response.
    pub fn content_type(&self) -> (hint: &'static str)
        ensures
            *self == OutputFormat::Png ==> hint == "image/png",
            *self == OutputFormat::Jpeg ==> hint == "image/jpeg",
            *self == OutputFormat::Webp ==> hint == "image/webp",
    {
        match self {
            OutputFormat::Png => "image/png",
            OutputFormat::Jpeg => "image/jpeg",
            OutputFormat::Webp => "image/webp",
        }
    }
}

/// The smaller of two lengths.
pub open spec fn least(a: u32, b: u32) -> u32 {
    if a < b {
        a
    } else {
        b
    }
}

/// What one transform makes of an image that measures `g`: the size of the
/// result, or why the transform cannot be applied. A resampling resize gives
/// the size it names; seam carving only ever removes seams, so it gives that
/// size where the image is larger and leaves a side that is not. A crop gives
/// its rectangle, which must have pixels and lie within the image. A colour
/// filter and a watermark keep the size.
pub open spec fn outcome(g: Geometry, s: Spec) -> Result<Geometry, TransformFault> {
    match s {
        Spec::Resize { width, height, mode, .. } => if width == 0 || height == 0 {
            Err(TransformFault::EmptyResize)
        } else {
            match mode {
                ResizeMode::Normal => Ok(Geometry { width, height }),
                ResizeMode::SeamCarve => Ok(
                    Geometry { width: least(g.width, width), height: least(g.height, height) },
                ),
            }
        },
        Spec::Crop { x0, y0, x1, y1 } => if x0 >= x1 || y0 >= y1 {
            Err(TransformFault::EmptyCrop)
        } else if x1 > g.width || y1 > g.height {
            Err(TransformFault::CropOutOfBounds)
        } else {
            Ok(Geometry { width: (x1 - x0) as u32, height: (y1 - y0) as u32 })
        },
        Spec::ColorFilter { .. } => Ok(g),
        Spec::Watermark { .. } => Ok(g),
    }
}

/// What the transforms of `specs` from index `at` on make of an image that
/// measures `g`, each working on the result of the one before: the final
/// size, or the first transform that cannot be applied.
pub open spec fn plan_from(g: Geometry, specs: Seq<Spec>, at: nat) -> Result<
    Geometry,
    TransformError,
>
    decreases specs.len() - at,
{
    if at >= specs.len() {
        Ok(g)
    } else {
        match outcome(g, specs[at as int]) {
            Ok(next) => plan_from(next, specs, at + 1),
            Err(fault) => Err(TransformError { index: at as usize, fault }),
        }
    }
}

/// What a whole pipeline makes of an image that measures `g`.
pub open spec fn planned(g: Geometry, specs: Seq<Spec>) -> Result<Geometry, TransformError> {
    plan_from(g, specs, 0)
}

/// The size of an image after the first `n` transforms of `specs`, where all
/// of them can be applied.
pub open spec fn size_after(g: Geometry, specs: Seq<Spec>, n: nat) -> Option<Geometry>
    decreases n,
{
    if n == 0 {
        Some(g)
    } else {
        match size_after(g, specs, (n - 1) as nat) {
            Some(before) => match outcome(before, specs[n - 1]) {
                Ok(after) => Some(after),
                Err(_) => None,
            },
            None => None,
        }
    }
}

/// What one transform makes of an image's size.
pub fn transform_geometry(g: Geometry, s: &Spec) -> (r: Result<Geometry, TransformFault>)
    ensures
        r == outcome(g, *s),
{
    match *s {
        Spec::Resize { width, height, mode, filter: _ } => {
            if width == 0 || height == 0 {
                Err(TransformFault::EmptyResize)
            } else {
                match mode {
                    ResizeMode::Normal => Ok(Geometry { width, height }),
                    ResizeMode::SeamCarve => Ok(
                        Geometry {
                            width: if g.width < width {
                                g.width
                            } else {
                                width
                            },
                            height: if g.height < height {
                                g.height
                            } else {
                                height
                            },
                        },
                    ),
                }
            }
        },
        Spec::Crop { x0, y0, x1, y1 } => {
            if x0 >= x1 || y0 >= y1 {
                Err(TransformFault::EmptyCrop)
            } else if x1 > g.width || y1 > g.height {
                Err(TransformFault::CropOutOfBounds)
            } else {
                Ok(Geometry { width: x1 - x0, height: y1 - y0 })
            }
        },
        Spec::ColorFilter { kind: _ } => Ok(g),
        Spec::Watermark { x: _, y: _ } => Ok(g),
    }
}

/// Checks a pipeline against an image that measures `g`, without touching
/// it: the size of the result, or the first transform that cannot be applied,
/// with its index.
pub fn plan(g: Geometry, specs: &[Spec]) -> (r: Result<Geometry, TransformError>)
    ensures
        r == planned(g, specs@),
{
    let mut now: Geometry = g;
    let mut i: usize = 0;
    while i < specs.len()
        invariant
            i <= specs.len(),
            planned(g, specs@) == plan_from(now, specs@, i as nat),
        decreases specs.len() - i,
    {
        match transform_geometry(now, &specs[i]) {
            Ok(next) => {
                now = next;
            },
            Err(fault) => {
                return Err(TransformError { index: i, fault });
            },
        }
        i = i + 1;
    }
    Ok(now)
}

/// Something that can be applied to an image and says what it makes of the
/// image's size.
pub trait Operation {
    /// The size of the result for an image that measures `g`, or why the
    /// operation cannot be applied to such an image.
    spec fn outcome_on(&self, g: Geometry) -> Result<Geometry, TransformFault>;
}

impl Operation for Spec {
    open spec fn outcome_on(&self, g: Geometry) -> Result<Geometry, TransformFault> {
        outcome(g, *self)
    }
}

/// One pixel operation of an engine. An engine takes part in a pipeline by
/// implementing this for the operations it knows.
pub trait SpecTransform<T: Operation> {
    /// The size of the engine's working image.
    spec fn geometry(&self) -> Geometry;

    /// The operations that were applied to the working image since it was
    /// decoded, oldest first.
    spec fn applied(&self) -> Vec<T>;

    /// Applies `op` to the working image. It is called only with an operation
    /// that can be applied to the image as it stands, and must leave an image
    /// of the size that the operation promises, with that operation as the
    /// last one applied.
    fn transform(&mut self, op: T)
        requires
            op.outcome_on(old(self).geometry()) is Ok,
        ensures
            op.outcome_on(old(self).geometry()) == Ok::<Geometry, TransformFault>(
                final(self).geometry(),
            ),
            final(self).applied()@ == old(self).applied()@.push(op),
    ;
}

/// A transform engine: it holds one working image, applies a pipeline to it,
/// and is used up by producing the output.
pub trait Engine: SpecTransform<Spec> + Sized {
    /// The size of the working image.
    fn dimensions(&self) -> (g: Geometry)
        ensures
            g == self.geometry(),
    ;

    /// Applies `specs` to the working image, each once and in list order, each
    /// to what the one before it left. The whole pipeline is checked against
    /// the image first: where a transform cannot be applied to what the
    /// transforms before it leave, the error names it and the working image is
    /// untouched.
    fn apply(&mut self, specs: &[Spec]) -> (r: Result<(), TransformError>)
        ensures
            match r {
                Ok(_) => {
                    &&& planned(old(self).geometry(), specs@) == Ok::<Geometry, TransformError>(
                        final(self).geometry(),
                    )
                    &&& final(self).applied()@ == old(self).applied()@ + specs@
                },
                Err(e) => planned(old(self).geometry(), specs@) == Err::<
                    Geometry,
                    TransformError,
                >(e) && *final(self) == *old(self),
            },
    {
        let start = self.dimensions();
        match plan(start, specs) {
            Err(e) => Err(e),
            Ok(_) => {
                let mut i: usize = 0;
                while i < specs.len()
                    invariant
                        i <= specs.len(),
                        planned(start, specs@) is Ok,
                        planned(start, specs@) == plan_from(self.geometry(), specs@, i as nat),
                        self.applied()@ == old(self).applied()@ + specs@.take(i as int),
                    decreases specs.len() - i,
                {
                    proof {
                        assert(specs@.take(i as int).push(specs@[i as int]) =~= specs@.take(
                            i + 1,
                        ));
                    }
                    self.transform(specs[i]);
                    i = i + 1;
                }
                proof {
                    assert(specs@.take(i as int) =~= specs@);
                }
                Ok(())
            },
        }
    }

    /// Encodes the working image in `format`, whatever format the source had.
    /// The engine is used up.
    fn generate(self, format: OutputFormat) -> Result<Vec<u8>, EncodeError>;
}

/// Runs a pipeline on an engine's image and encodes the result. Where a
/// transform cannot be applied, the error is the first that cannot, and
/// nothing is encoded; else the engine's encoder decides.
pub fn render<E: Engine>(engine: E, pipeline: &ImageSpec, format: OutputFormat) -> (r: Result<
    Vec<u8>,
    RenderError,
>)
    ensures
        match r {
            Ok(_) => planned(engine.geometry(), pipeline@) is Ok,
            Err(RenderError::Transform(e)) => planned(engine.geometry(), pipeline@) == Err::<
                Geometry,
                TransformError,
            >(e),
            Err(RenderError::Encode(_)) => planned(engine.geometry(), pipeline@) is Ok,
        },
{
    let mut engine = engine;
    match engine.apply(pipeline.specs.as_slice()) {
        Ok(_) => match engine.generate(format) {
            Ok(bytes) => Ok(bytes),
            Err(e) => Err(RenderError::Encode(e)),
        },
        Err(e) => Err(RenderError::Transform(e)),
    }
}

/// A pipeline fails at index `i` exactly when its first `i` transforms can be
/// applied in turn and the next cannot be applied to what they leave.
pub proof fn lemma_failure_position(g: Geometry, specs: Seq<Spec>, e: TransformError)
    requires
        specs.len() <= usize::MAX,
    ensures
        planned(g, specs) == Err::<Geometry, TransformError>(e) <==> {
            &&& e.index < specs.len()
            &&& size_after(g, specs, e.index as nat) matches Some(before)
            &&& outcome(before, specs[e.index as int]) == Err::<Geometry, TransformFault>(e.fault)
        },
{
    lemma_plan_index(g, specs, 0);
    if e.index < specs.len() {
        lemma_plan_from(g, specs, e.index as nat);
        if let Some(before) = size_after(g, specs, e.index as nat) {
            if let Ok(next) = outcome(before, specs[e.index as int]) {
                lemma_plan_index(next, specs, (e.index + 1) as nat);
            }
        }
    }
}

/// A pipeline is applied in full exactly when each transform can be applied
/// to what the ones before it leave; the result then has the size that they
/// leave. The empty pipeline leaves the size as it is.
pub proof fn lemma_success(g: Geometry, specs: Seq<Spec>)
    requires
        specs.len() <= usize::MAX,
    ensures
        planned(g, specs) is Ok <==> size_after(g, specs, specs.len()) is Some,
        planned(g, specs) matches Ok(end) ==> size_after(g, specs, specs.len()) == Some(end),
        specs.len() == 0 ==> planned(g, specs) == Ok::<Geometry, TransformError>(g),
{
    lemma_plan_from(g, specs, specs.len());
}

/// The plan of a pipeline goes by the size after its first `n` transforms.
proof fn lemma_plan_from(g: Geometry, specs: Seq<Spec>, n: nat)
    requires
        n <= specs.len() <= usize::MAX,
    ensures
        match size_after(g, specs, n) {
            Some(now) => planned(g, specs) == plan_from(now, specs, n),
            None => planned(g, specs) is Err && planned(g, specs)->Err_0.index < n,
        },
    decreases n,
{
    if n > 0 {
        lemma_plan_from(g, specs, (n - 1) as nat);
    }
}

/// A plan that fails from `at` on names an index from `at` on.
proof fn lemma_plan_index(g: Geometry, specs: Seq<Spec>, at: nat)
    requires
        specs.len() <= usize::MAX,
    ensures
        plan_from(g, specs, at) matches Err(e) ==> at <= e.index < specs.len(),
    decreases specs.len() - at,
{
    if at < specs.len() {
        match outcome(g, specs[at as int]) {
            Ok(next) => lemma_plan_index(next, specs, at + 1),
            Err(_) => {},
        }
    }
}

} // verus!
