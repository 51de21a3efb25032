//! What the infer stage checks around the inference engine: a frame has
//! to have the size of the picture that the engine is told about, the
//! model's input has to have the size of its tensor, and the engine has
//! to give the values of one result.

use crate::color::{spec_yuyv422_to_rgb, yuyv422_to_rgb};
use crate::letterbox::{resize_with_padding, LetterboxPlan, MODEL_INPUT_SIDE};
use crate::channel::Received;
use crate::pipeline::{
    Annotated,
    AnnotatedView,
    InferenceError,
    Pipeline,
    PipelineModel,
    StageState,
};
use crate::result::{InferenceResult, KEYPOINT_VALUES};
use vstd::prelude::*;

verus! {

/// Rows of a camera frame.
pub const FRAME_ROWS: u32 = 1080;

/// Columns of a camera frame.
pub const FRAME_COLS: u32 = 1920;

/// Bytes of the model's input: a square picture of three channels.
pub const MODEL_INPUT_LEN: usize = 110592;

/// A frame made ready for the engine: its pixels, three bytes each, and
/// the letterbox that brings it to the model's input size.
#[derive(Clone, Debug, PartialEq, Eq)]
pub struct PreparedFrame {
    /// Rows of the picture.
    pub rows: u32,
    /// Columns of the picture.
    pub cols: u32,
    /// Interleaved pixels, `3 * rows * cols` bytes.
    pub pixels: Vec<u8>,
    /// How to scale and pad the picture for the model.
    pub plan: LetterboxPlan,
}

/// Bytes of a packed 4:2:2 picture: two for each pixel.
pub open spec fn packed_len(rows: u32, cols: u32) -> int {
    2 * (rows as int * cols as int)
}

/// Bytes of an interleaved picture: three for each pixel.
pub open spec fn pixels_len(rows: u32, cols: u32) -> int {
    3 * (rows as int * cols as int)
}

/// True if a frame of `len` bytes can be a picture of `rows` by `cols`
/// for the engine: the picture is not empty, its extents can be told to
/// the engine, and the frame holds exactly its bytes.
pub open spec fn frame_fits(len: nat, rows: u32, cols: u32) -> bool {
    &&& 0 < rows <= i32::MAX
    &&& 0 < cols <= i32::MAX
    &&& len == packed_len(rows, cols)
}

proof fn lemma_extent_product(rows: u32, cols: u32)
    by (nonlinear_arith)
    ensures
        0 <= rows as int * cols as int <= 0xFFFF_FFFE_0000_0001,
{
}

/// Makes a frame ready for the engine. The frame is refused unless it
/// holds exactly the bytes of a picture of `rows` by `cols`, so that the
/// engine is never told of more pixels than there are.
pub fn prepare_frame(frame: &[u8], rows: u32, cols: u32) -> (prepared: Result<
    PreparedFrame,
    InferenceError,
>)
    ensures
        match prepared {
            Ok(p) => {
                &&& frame_fits(frame@.len(), rows, cols)
                &&& p.rows == rows
                &&& p.cols == cols
                &&& p.pixels@ == spec_yuyv422_to_rgb(frame@)
                &&& p.pixels@.len() == pixels_len(rows, cols)
                &&& p.plan.is_plan_for(
                    cols as int,
                    rows as int,
                    MODEL_INPUT_SIDE as int,
                    MODEL_INPUT_SIDE as int,
                )
                &&& p.plan.fills(MODEL_INPUT_SIDE as int, MODEL_INPUT_SIDE as int)
            },
            Err(e) => !frame_fits(frame@.len(), rows, cols) && e == InferenceError::BadFrame,
        },
{
    if rows == 0 || cols == 0 || rows > i32::MAX as u32 || cols > i32::MAX as u32 {
        return Err(InferenceError::BadFrame);
    }
    proof {
        lemma_extent_product(rows, cols);
    }
    let packed: u128 = 2 * (rows as u128 * cols as u128);
    if frame.len() as u128 != packed {
        return Err(InferenceError::BadFrame);
    }
    let plan: LetterboxPlan = match resize_with_padding(
        [cols as i32, rows as i32],
        [MODEL_INPUT_SIDE, MODEL_INPUT_SIDE],
    ) {
        Some(plan) => plan,
        None => {
            return Err(InferenceError::BadFrame);
        },
    };
    let pixels: Vec<u8> = yuyv422_to_rgb(frame);
    Ok(PreparedFrame { rows, cols, pixels, plan })
}

/// True if `len` bytes are the input of the model.
pub fn is_model_input(len: usize) -> (yes: bool)
    ensures
        yes == (len == 3 * (MODEL_INPUT_SIDE as int * MODEL_INPUT_SIDE as int)),
{
    len == MODEL_INPUT_LEN
}

/// Makes the answer to a frame of what the engine and the renderer gave.
/// The values are refused unless they are those of one result.
pub fn accept_output(values: Vec<u32>, image: Vec<u8>) -> (answer: Result<
    Annotated,
    InferenceError,
>)
    ensures
        match answer {
            Ok(a) => {
                &&& values@.len() == KEYPOINT_VALUES
                &&& a.result.keypoints@ == values@
                &&& a.image@ == image@
            },
            Err(e) => values@.len() != KEYPOINT_VALUES && e == InferenceError::BadOutput,
        },
{
    match InferenceResult::new(values) {
        Some(result) => Ok(Annotated { result, image }),
        None => Err(InferenceError::BadOutput),
    }
}

/// The pipeline after the infer stage asked for a frame of `rows` by
/// `cols`: it gets the oldest queued frame, and a frame that is not such
/// a picture ends the stage.
pub open spec fn after_next_job(m: PipelineModel, rows: u32, cols: u32) -> PipelineModel {
    let taken = m.after_next_frame();
    if m.in_flight is None && taken.in_flight is Some && !frame_fits(
        taken.in_flight->Some_0.len(),
        rows,
        cols,
    ) {
        taken.after_frame_done(Err(InferenceError::BadFrame))
    } else {
        taken
    }
}

/// Hands the oldest queued frame to the infer stage, made ready for the
/// engine. `Empty` tells the stage to wait, `Closed` to stop. A frame
/// that is not a picture of `rows` by `cols` ends the stage, and with it
/// this connection's pipeline, before anything is handed to the engine.
pub fn next_job(pipeline: &mut Pipeline, rows: u32, cols: u32) -> (job: Received<PreparedFrame>)
    requires
        old(pipeline).wf(),
    ensures
        final(pipeline).wf(),
        final(pipeline)@ == after_next_job(old(pipeline)@, rows, cols),
        match job {
            Received::Item(p) => {
                &&& final(pipeline)@.in_flight matches Some(frame)
                &&& old(pipeline)@.in_flight is None
                &&& frame_fits(frame.len(), rows, cols)
                &&& p.rows == rows
                &&& p.cols == cols
                &&& p.pixels@ == spec_yuyv422_to_rgb(frame)
                &&& p.pixels@.len() == pixels_len(rows, cols)
                &&& final(pipeline)@.infer == StageState::Running
            },
            Received::Empty => final(pipeline)@ == old(pipeline)@ && final(pipeline)@.infer
                == StageState::Running,
            Received::Closed => final(pipeline)@.infer != StageState::Running,
        },
{
    match pipeline.next_frame() {
        Received::Item(frame) => match prepare_frame(frame.as_slice(), rows, cols) {
            Ok(prepared) => Received::Item(prepared),
            Err(e) => {
                let _ = pipeline.frame_done(Err(e));
                Received::Closed
            },
        },
        Received::Empty => Received::Empty,
        Received::Closed => Received::Closed,
    }
}

/// Reports what the engine and the renderer made of the frame that the
/// infer stage holds: the values of the keypoints and the image, or a
/// failure. Values that are not those of one result count as a failure.
pub fn job_done(
    pipeline: &mut Pipeline,
    outcome: Result<(Vec<u32>, Vec<u8>), InferenceError>,
) -> (state: StageState)
    requires
        old(pipeline).wf(),
    ensures
        final(pipeline).wf(),
        state == final(pipeline)@.infer,
        final(pipeline)@ == old(pipeline)@.after_frame_done(
            match outcome {
                Ok((values, image)) => if values@.len() == KEYPOINT_VALUES {
                    Ok(AnnotatedView { keypoints: values@, image: image@ })
                } else {
                    Err(InferenceError::BadOutput)
                },
                Err(e) => Err(e),
            },
        ),
{
    match outcome {
        Ok((values, image)) => {
            let answer: Result<Annotated, InferenceError> = accept_output(values, image);
            pipeline.frame_done(answer)
        },
        Err(e) => pipeline.frame_done(Err(e)),
    }
}

} // verus!
