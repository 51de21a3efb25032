use movenet_stream::letterbox::{resize_with_padding, LetterboxPlan, MODEL_INPUT_SIDE};

#[test]
fn landscape_frame_is_padded_above_and_below() {
    let plan: LetterboxPlan = resize_with_padding([1920, 1080], [192, 192]).unwrap();
    assert_eq!(
        plan,
        LetterboxPlan { width: 192, height: 108, top: 42, bottom: 42, left: 0, right: 0 }
    );
}

#[test]
fn portrait_frame_is_padded_left_and_right() {
    let plan: LetterboxPlan = resize_with_padding([1080, 1920], [192, 192]).unwrap();
    assert_eq!(
        plan,
        LetterboxPlan { width: 108, height: 192, top: 0, bottom: 0, left: 42, right: 42 }
    );
}

#[test]
fn odd_remainder_goes_to_the_far_side() {
    // 3 * 9 > 10 * 2: the image is the wider one, height = 10 * 2 / 3 = 6.
    let plan: LetterboxPlan = resize_with_padding([3, 2], [10, 9]).unwrap();
    assert_eq!(plan, LetterboxPlan { width: 10, height: 6, top: 1, bottom: 2, left: 0, right: 0 });
    // 2 * 10 < 9 * 3: width = 10 * 2 / 3 = 6.
    let plan: LetterboxPlan = resize_with_padding([2, 3], [9, 10]).unwrap();
    assert_eq!(plan, LetterboxPlan { width: 6, height: 10, top: 0, bottom: 0, left: 1, right: 2 });
}

#[test]
fn same_aspect_ratio_needs_no_padding() {
    let plan: LetterboxPlan = resize_with_padding([100, 100], [MODEL_INPUT_SIDE, MODEL_INPUT_SIDE]).unwrap();
    assert_eq!(plan, LetterboxPlan { width: 192, height: 192, top: 0, bottom: 0, left: 0, right: 0 });
    let plan: LetterboxPlan = resize_with_padding([49, 49], [1, 1]).unwrap();
    assert_eq!(plan, LetterboxPlan { width: 1, height: 1, top: 0, bottom: 0, left: 0, right: 0 });
}

#[test]
fn every_aspect_ratio_fills_the_target() {
    let sizes: [i32; 9] = [1, 2, 3, 7, 100, 191, 192, 1080, 1920];
    for w in sizes {
        for h in sizes {
            for tw in [1i32, 5, 192, 193] {
                for th in [1i32, 4, 192, 300] {
                    let p: LetterboxPlan = resize_with_padding([w, h], [tw, th]).unwrap();
                    assert_eq!(p.left + p.width + p.right, tw);
                    assert_eq!(p.top + p.height + p.bottom, th);
                    assert!(p.right - p.left == 0 || p.right - p.left == 1);
                    assert!(p.bottom - p.top == 0 || p.bottom - p.top == 1);
                    assert!(p.width == tw || p.height == th);
                    assert!(p.width >= 0 && p.height >= 0);
                }
            }
        }
    }
}

#[test]
fn extreme_extents_do_not_overflow() {
    let plan: LetterboxPlan = resize_with_padding([i32::MAX, 1], [192, 192]).unwrap();
    assert_eq!(plan, LetterboxPlan { width: 192, height: 0, top: 96, bottom: 96, left: 0, right: 0 });
    let plan: LetterboxPlan = resize_with_padding([1, i32::MAX], [i32::MAX, i32::MAX]).unwrap();
    assert_eq!(plan.width, 1);
    assert_eq!(plan.height, i32::MAX);
    assert_eq!(plan.left, 1073741823);
    assert_eq!(plan.right, 1073741823);
    let plan: LetterboxPlan = resize_with_padding([i32::MAX, i32::MAX], [i32::MAX, i32::MAX]).unwrap();
    assert_eq!(plan.width, i32::MAX);
    assert_eq!(plan.height, i32::MAX);
}

#[test]
fn an_extent_that_is_not_positive_has_no_plan() {
    assert_eq!(resize_with_padding([0, 1080], [192, 192]), None);
    assert_eq!(resize_with_padding([1920, 0], [192, 192]), None);
    assert_eq!(resize_with_padding([1920, 1080], [0, 192]), None);
    assert_eq!(resize_with_padding([1920, 1080], [192, 0]), None);
    assert_eq!(resize_with_padding([-1, 1080], [192, 192]), None);
    assert_eq!(resize_with_padding([1920, 1080], [192, i32::MIN]), None);
}
