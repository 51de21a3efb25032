//! Geometry of a letterbox resize: the image is scaled to fit the target
//! with its aspect ratio kept, and padded on two opposite sides to the
//! exact target size.

use vstd::prelude::*;

verus! {

/// Side of the square input of the pose model.
pub const MODEL_INPUT_SIDE: i32 = 192;

/// Size of the scaled image and the padding on each of its sides.
#[derive(Clone, Copy, Debug, PartialEq, Eq, Structural)]
pub struct LetterboxPlan {
    /// Width of the scaled image.
    pub width: i32,
    /// Height of the scaled image.
    pub height: i32,
    /// Rows of padding above the scaled image.
    pub top: i32,
    /// Rows of padding below it.
    pub bottom: i32,
    /// Columns of padding left of it.
    pub left: i32,
    /// Columns of padding right of it.
    pub right: i32,
}

/// True if the image is wider, for its height, than the target.
pub open spec fn wider_than_target(img_w: int, img_h: int, target_w: int, target_h: int) -> bool {
    img_w * target_h > target_w * img_h
}

/// Width of the scaled image: the target's width if the image is the
/// wider of the two, else what the target's height leaves, rounded down.
pub open spec fn scaled_width(img_w: int, img_h: int, target_w: int, target_h: int) -> int {
    if wider_than_target(img_w, img_h, target_w, target_h) {
        target_w
    } else {
        (target_h * img_w) / img_h
    }
}

/// Height of the scaled image: what the target's width leaves, rounded
/// down, if the image is the wider of the two, else the target's height.
pub open spec fn scaled_height(img_w: int, img_h: int, target_w: int, target_h: int) -> int {
    if wider_than_target(img_w, img_h, target_w, target_h) {
        (target_w * img_h) / img_w
    } else {
        target_h
    }
}

/// Padding in front of a scaled extent: half of what is left, rounded down.
pub open spec fn padding_before(target: int, scaled: int) -> int {
    (target - scaled) / 2
}

/// Padding behind a scaled extent: the rest of what is left.
pub open spec fn padding_after(target: int, scaled: int) -> int {
    (target - scaled) - (target - scaled) / 2
}

impl LetterboxPlan {
    /// True if the plan is the letterbox of an image of `img_w` by `img_h`
    /// in a target of `target_w` by `target_h`.
    pub open spec fn is_plan_for(
        self,
        img_w: int,
        img_h: int,
        target_w: int,
        target_h: int,
    ) -> bool {
        &&& self.width == scaled_width(img_w, img_h, target_w, target_h)
        &&& self.height == scaled_height(img_w, img_h, target_w, target_h)
        &&& self.left == padding_before(target_w, self.width as int)
        &&& self.right == padding_after(target_w, self.width as int)
        &&& self.top == padding_before(target_h, self.height as int)
        &&& self.bottom == padding_after(target_h, self.height as int)
    }

    /// True if the padded image has exactly the target size and the
    /// padding is split evenly: the two sides differ by at most one.
    pub open spec fn fills(self, target_w: int, target_h: int) -> bool {
        &&& 0 <= self.width <= target_w
        &&& 0 <= self.height <= target_h
        &&& self.width == target_w || self.height == target_h
        &&& self.left + self.width + self.right == target_w
        &&& self.top + self.height + self.bottom == target_h
        &&& 0 <= self.left <= self.right <= self.left + 1
        &&& 0 <= self.top <= self.bottom <= self.top + 1
    }
}

/// The scaled extents fit into the target, and one of them fills it.
pub proof fn lemma_scaled_size_fits(img_w: int, img_h: int, target_w: int, target_h: int)
    requires
        img_w > 0,
        img_h > 0,
        target_w > 0,
        target_h > 0,
    ensures
        0 <= scaled_width(img_w, img_h, target_w, target_h) <= target_w,
        0 <= scaled_height(img_w, img_h, target_w, target_h) <= target_h,
        scaled_width(img_w, img_h, target_w, target_h) == target_w || scaled_height(
            img_w,
            img_h,
            target_w,
            target_h,
        ) == target_h,
{
    assert(target_h * img_w == img_w * target_h && img_h * target_w == target_w * img_h
        && target_h * img_w >= 0 && target_w * img_h >= 0) by (nonlinear_arith)
        requires
            img_w > 0,
            img_h > 0,
            target_w > 0,
            target_h > 0,
    ;
    if wider_than_target(img_w, img_h, target_w, target_h) {
        lemma_quotient_below(target_w * img_h, img_w, target_h);
    } else {
        lemma_quotient_below(target_h * img_w, img_h, target_w);
    }
}

proof fn lemma_quotient_below(x: int, d: int, bound: int)
    by (nonlinear_arith)
    requires
        d > 0,
        0 <= x <= d * bound,
    ensures
        0 <= x / d <= bound,
{
}

proof fn lemma_product_fits(a: int, b: int)
    by (nonlinear_arith)
    requires
        0 < a <= i32::MAX,
        0 < b <= i32::MAX,
    ensures
        0 < a * b <= 0x3FFF_FFFF_0000_0001,
{
}

/// Letterbox resize to a target of `(W, H)` gives exactly `(W, H)`,
/// whatever the aspect ratio of the image: the padding on two opposite
/// sides adds up to what the scaled image leaves, and the two sides
/// differ by at most one.
pub proof fn lemma_letterbox_fills_target(
    plan: LetterboxPlan,
    img_w: int,
    img_h: int,
    target_w: int,
    target_h: int,
)
    requires
        img_w > 0,
        img_h > 0,
        target_w > 0,
        target_h > 0,
        plan.is_plan_for(img_w, img_h, target_w, target_h),
    ensures
        plan.fills(target_w, target_h),
{
    lemma_scaled_size_fits(img_w, img_h, target_w, target_h);
}

/// Plans the letterbox resize of an image of `img_shape`, its width and
/// its height, to `new_shape`. There is a plan exactly if all four
/// extents are positive.
pub fn resize_with_padding(img_shape: [i32; 2], new_shape: [i32; 2]) -> (plan: Option<
    LetterboxPlan,
>)
    ensures
        plan is Some <==> img_shape@[0] > 0 && img_shape@[1] > 0 && new_shape@[0] > 0
            && new_shape@[1] > 0,
        plan matches Some(p) ==> {
            &&& p.is_plan_for(
                img_shape@[0] as int,
                img_shape@[1] as int,
                new_shape@[0] as int,
                new_shape@[1] as int,
            )
            &&& p.fills(new_shape@[0] as int, new_shape@[1] as int)
        },
{
    let img_w: i32 = img_shape[0];
    let img_h: i32 = img_shape[1];
    let target_w: i32 = new_shape[0];
    let target_h: i32 = new_shape[1];
    if img_w <= 0 || img_h <= 0 || target_w <= 0 || target_h <= 0 {
        return None;
    }
    proof {
        lemma_product_fits(img_w as int, target_h as int);
        lemma_product_fits(target_w as int, img_h as int);
        lemma_scaled_size_fits(img_w as int, img_h as int, target_w as int, target_h as int);
    }
    let across: i64 = img_w as i64 * target_h as i64;
    let along: i64 = target_w as i64 * img_h as i64;
    let width: i32;
    let height: i32;
    if across > along {
        width = target_w;
        height = (along / img_w as i64) as i32;
    } else {
        width = (across / img_h as i64) as i32;
        height = target_h;
    }
    let delta_w: i32 = target_w - width;
    let delta_h: i32 = target_h - height;
    let top: i32 = delta_h / 2;
    let bottom: i32 = delta_h - delta_h / 2;
    let left: i32 = delta_w / 2;
    let right: i32 = delta_w - delta_w / 2;
    Some(LetterboxPlan { width, height, top, bottom, left, right })
}

} // verus!
