//! Sampling prepared positions out of an image, one per zone.

use vstd::prelude::*;
use crate::{BGR, ImageBGR};
use crate::rectangle::Rectangle;

verus! {

#[derive(Debug, Copy, Clone, PartialEq, Eq, Structural)]
struct Index {
    pub x: u32,
    pub y: u32,
}

/// Prepared sample positions: one pixel coordinate per zone, fixed when
/// the sampler is made, so that sampling itself is a plain indexed read.
pub struct Sampler {
    indices: Vec<Index>,
}

impl Sampler {
    /// The prepared sample coordinates, in zone order.
    pub closed spec fn spec_points(&self) -> Seq<(u32, u32)> {
        self.indices@.map(|i: int, p: Index| (p.x, p.y))
    }

    /// Prepare the sample positions: for every zone, its minimum corner
    /// shifted by the given offsets. Every shifted coordinate must fit
    /// the coordinate range.
    pub fn make_sampler(x_offset: u32, y_offset: u32, zones: &[Rectangle]) -> (r: Sampler)
        requires
            forall|i: int| 0 <= i < zones@.len() ==> #[trigger] zones@[i].x_min + x_offset
                <= u32::MAX && zones@[i].y_min + y_offset <= u32::MAX,
        ensures
            r.spec_points().len() == zones@.len(),
            forall|i: int| 0 <= i < zones@.len() ==> #[trigger] r.spec_points()[i] == ((
            zones@[i].x_min + x_offset) as u32, (zones@[i].y_min + y_offset) as u32),
    {
        let n: usize = zones.len();
        let mut indices: Vec<Index> = Vec::new();
        let mut i: usize = 0;
        while i < n
            invariant
                0 <= i <= n,
                n == zones@.len(),
                forall|j: int| 0 <= j < n ==> #[trigger] zones@[j].x_min + x_offset <= u32::MAX
                    && zones@[j].y_min + y_offset <= u32::MAX,
                indices@.len() == i,
                forall|j: int| 0 <= j < i ==> #[trigger] indices@[j] == (Index {
                    x: (zones@[j].x_min + x_offset) as u32,
                    y: (zones@[j].y_min + y_offset) as u32,
                }),
            decreases n - i,
        {
            let zone = &zones[i];
            indices.push(Index { x: zone.x_min + x_offset, y: zone.y_min + y_offset });
            i = i + 1;
        }
        Sampler { indices }
    }

    /// Use the prepared positions for sampling, going from an image to the
    /// color at every prepared position in order. Every prepared position
    /// must lie within the image.
    pub fn sample<I: ImageBGR>(&self, image: &I) -> (r: Vec<BGR>)
        requires
            image.spec_valid(),
            forall|i: int| 0 <= i < self.spec_points().len() ==> #[trigger] self.spec_points()[i].0
                < image.spec_width() && self.spec_points()[i].1 < image.spec_height(),
        ensures
            r@.len() == self.spec_points().len(),
            forall|i: int| 0 <= i < r@.len() ==> #[trigger] r@[i] == image.spec_pixels()[
                self.spec_points()[i].1 * image.spec_width() + self.spec_points()[i].0],
    {
        let n: usize = self.indices.len();
        let mut res: Vec<BGR> = Vec::new();
        let mut i: usize = 0;
        while i < n
            invariant
                0 <= i <= n,
                n == self.spec_points().len(),
                n == self.indices@.len(),
                image.spec_valid(),
                forall|j: int| 0 <= j < n ==> #[trigger] self.spec_points()[j].0
                    < image.spec_width() && self.spec_points()[j].1 < image.spec_height(),
                forall|j: int| 0 <= j < n ==> #[trigger] self.spec_points()[j] == (
                self.indices@[j].x, self.indices@[j].y),
                res@.len() == i,
                forall|j: int| 0 <= j < i ==> #[trigger] res@[j] == image.spec_pixels()[
                    self.spec_points()[j].1 * image.spec_width() + self.spec_points()[j].0],
            decreases n - i,
        {
            let pos = self.indices[i];
            let px = match image.pixel(pos.x, pos.y) {
                Ok(p) => p,
                Err(_) => {
                    proof {
                        assert(self.spec_points()[i as int] == (pos.x, pos.y));
                        assert(self.spec_points()[i as int].0 < image.spec_width());
                        assert(self.spec_points()[i as int].1 < image.spec_height());
                        assert(false);
                    }
                    BGR { b: 0, g: 0, r: 0 }
                },
            };
            proof {
                assert(self.spec_points()[i as int] == (pos.x, pos.y));
            }
            res.push(px);
            i = i + 1;
        }
        res
    }
}

} // verus!
