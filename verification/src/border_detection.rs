//! Bisection-based detection of the black borders around the lit part of
//! an image.

use vstd::prelude::*;
use crate::{BGR, ImageBGR};
use crate::rectangle::Rectangle;

verus! {

/// A bespoke bisection procedure to find the presumably single transition
/// of a predicate in a 1d search between `min` and `max`. It narrows the
/// interval while the predicate differs at its ends; if the predicate is
/// identical at `min` and `max` it returns `max` if the predicate held
/// there, else `min`. The result always lies between `min` and `max`.
pub fn bisect<F: Fn(u32) -> bool>(f: &F, min: u32, max: u32) -> (r: u32)
    requires
        min <= max,
        forall|x: u32| min <= x <= max ==> call_requires(*f, (x,)),
    ensures
        min <= r <= max,
{
    let ghost min0 = min;
    let ghost max0 = max;
    let mut min = min;
    let mut max = max;
    let mut upper = f(min);
    let mut lower = f(max);
    while ((max - min) > 1) && (upper != lower)
        invariant
            min0 <= min <= max <= max0,
            forall|x: u32| min0 <= x <= max0 ==> call_requires(*f, (x,)),
        decreases max - min,
    {
        upper = f(max);
        lower = f(min);
        let midpoint = min + (max - min) / 2;
        let center = f(midpoint);
        if center != lower {
            max = midpoint;
        } else {
            min = midpoint;
        }
    }

    if upper {
        return max;
    }

    min
}

/// Find the rectangle of non-black content in the image by bisecting for
/// the black-to-content transition from each side, along several probe
/// rows and columns per side, and keeping the widest bounds seen. The
/// returned bounds always lie within the image, with the horizontal
/// bounds straddling the image center column and the vertical bounds the
/// center row.
pub fn find_borders<I: ImageBGR>(image: &I, bisections_per_side: u32) -> (r: Rectangle)
    requires
        image.spec_valid(),
        image.spec_width() >= 1,
        image.spec_height() >= 1,
        1 <= bisections_per_side < u32::MAX,
    ensures
        r.x_min <= r.x_max < image.spec_width(),
        r.y_min <= r.y_max < image.spec_height(),
{
    let max_x = image.width() - 1;
    let max_y = image.height() - 1;
    let center_x = max_x / 2;
    let center_y = max_y / 2;

    let mut x_min_acc: u32 = 0;
    let mut x_max_acc: u32 = 0;
    let mut y_min_acc: u32 = 0;
    let mut y_max_acc: u32 = 0;

    let mut i: u32 = 0;
    while i < bisections_per_side
        invariant
            0 <= i <= bisections_per_side,
            1 <= bisections_per_side < u32::MAX,
            image.spec_valid(),
            image.spec_width() >= 1,
            image.spec_height() >= 1,
            max_x == image.spec_width() - 1,
            max_y == image.spec_height() - 1,
            center_x == max_x / 2,
            center_y == max_y / 2,
            i > 0 ==> x_min_acc <= center_x,
            i > 0 ==> center_x <= x_max_acc <= max_x,
            i > 0 ==> y_min_acc <= center_y,
            i > 0 ==> center_y <= y_max_acc <= max_y,
        decreases bisections_per_side - i,
    {
        proof {
            let b1 = bisections_per_side as int + 1;
            let qx = max_x as int / b1;
            assert(qx * (i as int + 1) <= qx * b1 <= max_x) by (nonlinear_arith)
                requires 0 <= i as int + 1 <= b1 && 0 <= qx && qx == max_x as int / b1 && b1 > 0 && max_x >= 0;
            let qy = max_y as int / b1;
            assert(qy * (i as int + 1) <= qy * b1 <= max_y) by (nonlinear_arith)
                requires 0 <= i as int + 1 <= b1 && 0 <= qy && qy == max_y as int / b1 && b1 > 0 && max_y >= 0;
        }
        let mid_x = max_x / (bisections_per_side + 1) * (i + 1);
        let mid_y = max_y / (bisections_per_side + 1) * (i + 1);
        let black = BGR { b: 0, g: 0, r: 0 };

        // Left bound: the last black column left of the center.
        let b_left = bisect(
            &(|x: u32| -> (b: bool)
                requires
                    image.spec_valid(),
                    x < image.spec_width(),
                    mid_y < image.spec_height(),
                {
                    match image.pixel(x, mid_y) {
                        Ok(p) => p == black,
                        Err(_) => {
                            proof {
                                assert(false);
                            }
                            false
                        },
                    }
                }),
            0,
            center_x,
        );

        // Right bound: the last non-black column right of the center.
        let b_right = bisect(
            &(|x: u32| -> (b: bool)
                requires
                    image.spec_valid(),
                    x < image.spec_width(),
                    mid_y < image.spec_height(),
                {
                    match image.pixel(x, mid_y) {
                        Ok(p) => p != black,
                        Err(_) => {
                            proof {
                                assert(false);
                            }
                            false
                        },
                    }
                }),
            center_x,
            max_x,
        );

        // Lower bound: the last black row above the center.
        let b_top = bisect(
            &(|y: u32| -> (b: bool)
                requires
                    image.spec_valid(),
                    y < image.spec_height(),
                    mid_x < image.spec_width(),
                {
                    match image.pixel(mid_x, y) {
                        Ok(p) => p == black,
                        Err(_) => {
                            proof {
                                assert(false);
                            }
                            false
                        },
                    }
                }),
            0,
            center_y,
        );

        // Upper bound: the last non-black row below the center.
        let b_bottom = bisect(
            &(|y: u32| -> (b: bool)
                requires
                    image.spec_valid(),
                    y < image.spec_height(),
                    mid_x < image.spec_width(),
                {
                    match image.pixel(mid_x, y) {
                        Ok(p) => p != black,
                        Err(_) => {
                            proof {
                                assert(false);
                            }
                            false
                        },
                    }
                }),
            center_y,
            max_y,
        );

        if i == 0 {
            x_min_acc = b_left;
            x_max_acc = b_right;
            y_min_acc = b_top;
            y_max_acc = b_bottom;
        } else {
            x_min_acc = if b_left < x_min_acc { b_left } else { x_min_acc };
            x_max_acc = if b_right > x_max_acc { b_right } else { x_max_acc };
            y_min_acc = if b_top < y_min_acc { b_top } else { y_min_acc };
            y_max_acc = if b_bottom > y_max_acc { b_bottom } else { y_max_acc };
        }
        i = i + 1;
    }

    Rectangle { x_min: x_min_acc, x_max: x_max_acc, y_min: y_min_acc, y_max: y_max_acc }
}

} // verus!
