//! Limits of the graphics-card scorer: whether images fit its buffers, and
//! how many workgroups score a batch of blocks.

use vstd::prelude::*;

verus! {

/// The largest buffer, in bytes, that the graphics-card scorer uploads.
pub const MAX_GPU_BUFFER_SIZE: usize = 134217728;

/// The bytes an image takes on the card: four `f32` channels per pixel.
pub open spec fn gpu_image_bytes(width: int, height: int) -> int {
    width * height * 4 * 4
}

/// Whether both the target and the canvas fit in the card's buffers; when
/// they do not, blocks are scored on the processor.  Sizes are computed
/// without overflow, so every image too large for a buffer is refused.
pub fn fits_gpu_buffers(
    target_width: u32,
    target_height: u32,
    canvas_width: u32,
    canvas_height: u32,
) -> (res: bool)
    ensures
        res == (gpu_image_bytes(target_width as int, target_height as int) <= MAX_GPU_BUFFER_SIZE
            && gpu_image_bytes(canvas_width as int, canvas_height as int) <= MAX_GPU_BUFFER_SIZE),
{
    assert(target_width * target_height * 4 * 4 <= u128::MAX) by (nonlinear_arith)
        requires
            target_width <= u32::MAX,
            target_height <= u32::MAX,
    ;
    assert(canvas_width * canvas_height * 4 * 4 <= u128::MAX) by (nonlinear_arith)
        requires
            canvas_width <= u32::MAX,
            canvas_height <= u32::MAX,
    ;
    let target_size: u128 = target_width as u128 * target_height as u128 * 4 * 4;
    let canvas_size: u128 = canvas_width as u128 * canvas_height as u128 * 4 * 4;
    !(target_size > MAX_GPU_BUFFER_SIZE as u128 || canvas_size > MAX_GPU_BUFFER_SIZE as u128)
}

/// Law: an image of more than 8388608 pixels (a 2896 by 2896 square holds
/// fewer, a 2900 by 2900 one more) does not fit a buffer, whatever its size.
pub proof fn lemma_large_images_use_processor(width: int, height: int)
    requires
        width * height > 8388608,
    ensures
        gpu_image_bytes(width, height) > MAX_GPU_BUFFER_SIZE,
{
}

/// The number of 256-thread workgroups dispatched to score `num_blocks`
/// blocks: enough for one thread per block, and at least one.
pub fn workgroup_count(num_blocks: u32) -> (res: u32)
    requires
        num_blocks + 255 <= u32::MAX,
    ensures
        res == (if (num_blocks + 255) / 256 >= 1 {
            (num_blocks + 255) / 256
        } else {
            1
        }),
        res >= 1,
        res * 256 >= num_blocks,
{
    let groups = (num_blocks + 255) / 256;
    if groups >= 1 {
        groups
    } else {
        1
    }
}

} // verus!
