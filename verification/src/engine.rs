//! The vocabulary spoken with the geometry engine.
//!
//! The engine is a service outside this library. Whoever drives it performs
//! a [`Request`] and reports what came back as a [`Reply`]. Every engine
//! operation answers with a status, where zero is success and any other
//! value is failure.

use crate::outline::{Outline, OutlineGroup, OutlineView, Point};
use vstd::prelude::*;

verus! {

/// Names one polygon held by the engine. The engine owns the polygon; the
/// pipeline keeps track of which names are still good.
#[derive(Clone, Copy, Debug, PartialEq, Eq, Structural)]
pub struct GeometryHandle {
    pub id: u64,
}

/// The stage at which a run of the pipeline gave up.
#[derive(Clone, Copy, Debug, PartialEq, Eq, Structural)]
pub enum PipelineError {
    /// The document could not be turned into a polygon.
    DocumentParseError,
    /// The engine could not list the loops of a polygon.
    ExtractionError,
    /// The engine could not cut the polygon into islands.
    SplitError,
}

impl PipelineError {
    /// The words of `message`, as characters.
    pub open spec fn text(&self) -> Seq<char> {
        match *self {
            PipelineError::DocumentParseError => "Failed to convert SVG to polygon"@,
            PipelineError::ExtractionError => "Failed to get outlines"@,
            PipelineError::SplitError => "Failed to split polygon"@,
        }
    }

    /// One line for a person to read.
    pub fn message(&self) -> (message: &'static str)
        ensures
            message@ == self.text(),
    {
        match *self {
            PipelineError::DocumentParseError => "Failed to convert SVG to polygon",
            PipelineError::ExtractionError => "Failed to get outlines",
            PipelineError::SplitError => "Failed to split polygon",
        }
    }
}

/// How a document is turned into a polygon. Tolerances are whole units.
#[derive(Clone, Copy, Debug, PartialEq, Eq, Structural)]
pub struct ImportOptions {
    /// Angle tolerance when a curve is flattened.
    pub angle_tolerance: u32,
    /// Largest number of segments for one curve.
    pub max_segments: u32,
    /// Largest length of one segment.
    pub max_segment_length: u32,
    /// Dots per inch of the output.
    pub dpi: u32,
    /// Whether the polygon is moved so that its centre is the origin.
    pub center: bool,
}

impl ImportOptions {
    /// Every tolerance and the resolution are positive.
    pub open spec fn valid(&self) -> bool {
        &&& self.angle_tolerance > 0
        &&& self.max_segments > 0
        &&& self.max_segment_length > 0
        &&& self.dpi > 0
    }

    /// The options that the pipeline imports with: every tolerance 1,
    /// 72 dots per inch, centred.
    pub open spec fn standard() -> ImportOptions {
        ImportOptions {
            angle_tolerance: 1,
            max_segments: 1,
            max_segment_length: 1,
            dpi: 72,
            center: true,
        }
    }

    /// Options with the given values, or `None` where one of the numbers is
    /// zero.
    pub fn new(
        angle_tolerance: u32,
        max_segments: u32,
        max_segment_length: u32,
        dpi: u32,
        center: bool,
    ) -> (options: Option<ImportOptions>)
        ensures
            options == (if angle_tolerance > 0 && max_segments > 0 && max_segment_length > 0 && dpi
                > 0 {
                Some(
                    (ImportOptions {
                        angle_tolerance,
                        max_segments,
                        max_segment_length,
                        dpi,
                        center,
                    }),
                )
            } else {
                None
            }),
            options is Some ==> options->Some_0.valid(),
    {
        if angle_tolerance == 0 || max_segments == 0 || max_segment_length == 0 || dpi == 0 {
            None
        } else {
            Some(ImportOptions { angle_tolerance, max_segments, max_segment_length, dpi, center })
        }
    }
}

impl Default for ImportOptions {
    fn default() -> (options: ImportOptions)
        ensures
            options == ImportOptions::standard(),
            options.valid(),
    {
        ImportOptions {
            angle_tolerance: 1,
            max_segments: 1,
            max_segment_length: 1,
            dpi: 72,
            center: true,
        }
    }
}

/// An engine operation for the driver to perform.
#[derive(Clone, Copy, Debug, PartialEq, Eq, Structural)]
pub enum Request {
    /// Turn the document into a polygon.
    Import { options: ImportOptions },
    /// List the loops of a polygon. The polygon stays as it is.
    Extract { handle: GeometryHandle },
    /// Cut a polygon into its islands. The handle is spent by this,
    /// whatever the outcome.
    Split { handle: GeometryHandle, containment_mode: bool },
    /// Give a polygon back to the engine.
    Release { handle: GeometryHandle },
}

impl Request {
    /// The handle that the request hands to the engine, if any.
    pub open spec fn handle(&self) -> Option<GeometryHandle> {
        match *self {
            Request::Import { .. } => None,
            Request::Extract { handle } => Some(handle),
            Request::Split { handle, .. } => Some(handle),
            Request::Release { handle } => Some(handle),
        }
    }
}

/// One loop as the engine reports it.
#[derive(Debug)]
pub struct RawLoop {
    pub positive: bool,
    pub vertices: Vec<Point>,
}

impl View for RawLoop {
    type V = OutlineView;

    open spec fn view(&self) -> OutlineView {
        OutlineView { vertices: self.vertices@, positive: self.positive }
    }
}

/// What the engine answered.
#[derive(Debug)]
pub enum Reply {
    /// To `Import`. The handle counts only where the status is zero.
    Imported { status: i32, handle: GeometryHandle },
    /// To `Extract`: the loops in the engine's order.
    Outlines { status: i32, loops: Vec<RawLoop> },
    /// To `Split`: the islands in the engine's order. Where the status is
    /// not zero, `children` holds what the engine had made before it failed.
    Split { status: i32, children: Vec<GeometryHandle> },
    /// To `Release`.
    Released { status: i32 },
}

/// A reply with its vectors as sequences and its loops as outlines.
pub enum ReplyView {
    Imported { status: i32, handle: GeometryHandle },
    Outlines { status: i32, loops: Seq<OutlineView> },
    Split { status: i32, children: Seq<GeometryHandle> },
    Released { status: i32 },
}

/// The loops of a reply, each as the outline it describes.
pub open spec fn loops_view(loops: Seq<RawLoop>) -> Seq<OutlineView> {
    loops.map_values(|l: RawLoop| l@)
}

/// The outlines of one polygon, as values.
pub open spec fn group_view(group: Seq<Outline>) -> Seq<OutlineView> {
    group.map_values(|o: Outline| o@)
}

impl View for Reply {
    type V = ReplyView;

    open spec fn view(&self) -> ReplyView {
        match *self {
            Reply::Imported { status, handle } => ReplyView::Imported { status, handle },
            Reply::Outlines { status, loops } => ReplyView::Outlines {
                status,
                loops: loops_view(loops@),
            },
            Reply::Split { status, children } => ReplyView::Split { status, children: children@ },
            Reply::Released { status } => ReplyView::Released { status },
        }
    }
}

/// Copies the points of `source` into a vector of their own.
fn copy_points(source: &Vec<Point>) -> (copy: Vec<Point>)
    ensures
        copy@ == source@,
{
    let mut copy: Vec<Point> = Vec::new();
    let mut j: usize = 0;
    while j < source.len()
        invariant
            j <= source.len(),
            copy@ == source@.take(j as int),
        decreases source.len() - j,
    {
        copy.push(source[j]);
        assert(source@.take(j + 1) =~= source@.take(j as int).push(source@[j as int]));
        j += 1;
    }
    assert(source@.take(j as int) =~= source@);
    copy
}

/// Turns the answer to an `Extract` into outlines: one for each loop, in the
/// engine's order, each with its own copy of the vertices and its bounding
/// box. A status other than zero gives `ExtractionError` and nothing else.
pub fn get_outlines(status: i32, loops: &Vec<RawLoop>) -> (outlines: Result<
    OutlineGroup,
    PipelineError,
>)
    ensures
        status != 0 ==> outlines == Err::<OutlineGroup, PipelineError>(
            PipelineError::ExtractionError,
        ),
        status == 0 ==> outlines is Ok && group_view(outlines->Ok_0@) == loops_view(loops@),
{
    if status != 0 {
        return Err(PipelineError::ExtractionError);
    }
    let mut outlines: OutlineGroup = Vec::new();
    let mut i: usize = 0;
    while i < loops.len()
        invariant
            i <= loops.len(),
            group_view(outlines@) == loops_view(loops@.take(i as int)),
        decreases loops.len() - i,
    {
        let vertices = copy_points(&loops[i].vertices);
        let ghost before = outlines@;
        outlines.push(Outline::new(vertices, loops[i].positive));
        proof {
            assert(loops@.take(i + 1) =~= loops@.take(i as int).push(loops@[i as int]));
            assert(group_view(outlines@) =~= group_view(before).push(loops@[i as int]@));
            assert(loops_view(loops@.take(i + 1)) =~= loops_view(loops@.take(i as int)).push(
                loops@[i as int]@,
            ));
        }
        i += 1;
    }
    assert(loops@.take(i as int) =~= loops@);
    Ok(outlines)
}

} // verus!
