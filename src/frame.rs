use vstd::prelude::*;

verus! {

/// What happens to a frame's region before the next frame is drawn.
#[derive(Copy, Clone, Debug, PartialEq, Eq, Structural)]
pub enum DisposeOp {
    /// The region is left as it is.
    Keep,
    /// The region is cleared to fully transparent black.
    Background,
    /// The region is restored to what it was before the frame.
    Previous,
}

/// How a frame is drawn over the output buffer.
#[derive(Copy, Clone, Debug, PartialEq, Eq, Structural)]
pub enum BlendOp {
    /// The frame replaces the region.
    Source,
    /// The frame is composited over the region.
    Over,
}

/// One decoded animation frame: its RGBA pixels and its placement and timing.
#[derive(Debug)]
pub struct Frame {
    /// Four bytes (R, G, B, A) per pixel, row by row.
    pub data: Vec<u8>,
    pub width: u32,
    pub height: u32,
    pub x_offset: u32,
    pub y_offset: u32,
    pub delay_num: u16,
    pub delay_den: u16,
    pub dispose_op: DisposeOp,
    pub blend_op: BlendOp,
}

impl Frame {
    pub fn new(
        data: Vec<u8>,
        width: u32,
        height: u32,
        x_offset: u32,
        y_offset: u32,
        delay_num: u16,
        delay_den: u16,
        dispose_op: DisposeOp,
        blend_op: BlendOp,
    ) -> (r: Frame)
        ensures
            r.data@ == data@,
            r.width == width,
            r.height == height,
            r.x_offset == x_offset,
            r.y_offset == y_offset,
            r.delay_num == delay_num,
            r.delay_den == delay_den,
            r.dispose_op == dispose_op,
            r.blend_op == blend_op,
    {
        Frame {
            data,
            width,
            height,
            x_offset,
            y_offset,
            delay_num,
            delay_den,
            dispose_op,
            blend_op,
        }
    }

    /// The frame holds exactly four bytes for each of its pixels.
    pub open spec fn well_formed(&self) -> bool {
        self.data@.len() == 4 * (self.width as int) * (self.height as int)
    }
}

} // verus!
