//! Dirty region tracking for incremental updates
//!
//! Tracks the screen regions that need to be redrawn, so that only they
//! are updated.

use vstd::prelude::*;
use super::config::MAX_DIRTY_REGIONS;
use super::types::{CompositionRegion, region_fits, regions_meet, region_contains};

verus! {

/// The first of the first `n` regions that shares a pixel with `r`.
pub open spec fn first_meeting(regions: Seq<CompositionRegion>, r: CompositionRegion, n: int) -> Option<int>
    decreases n,
{
    if n <= 0 {
        None
    } else {
        match first_meeting(regions, r, n - 1) {
            Some(i) => Some(i),
            None => if regions_meet(regions[n - 1], r) {
                Some(n - 1)
            } else {
                None
            },
        }
    }
}

/// The smallest region holding both `a` and `b`.
pub open spec fn bounding(a: CompositionRegion, b: CompositionRegion) -> CompositionRegion {
    let x = if a.x <= b.x {
        a.x
    } else {
        b.x
    };
    let y = if a.y <= b.y {
        a.y
    } else {
        b.y
    };
    let right = if a.x + a.width >= b.x + b.width {
        a.x + a.width
    } else {
        b.x + b.width
    };
    let bottom = if a.y + a.height >= b.y + b.height {
        a.y + a.height
    } else {
        b.y + b.height
    };
    CompositionRegion { x, y, width: (right - x) as u32, height: (bottom - y) as u32 }
}

/// Total area of the first `n` regions.
pub open spec fn area_sum(regions: Seq<CompositionRegion>, n: int) -> int
    decreases n,
{
    if n <= 0 {
        0
    } else {
        area_sum(regions, n - 1) + regions[n - 1].width * regions[n - 1].height
    }
}

/// Dirty region tracker for incremental updates
pub struct DirtyRegionTracker {
    /// The dirty regions
    regions: Vec<CompositionRegion>,
    /// Flag indicating full repaint needed
    full_repaint: bool,
}

impl DirtyRegionTracker {
    pub closed spec fn regions(&self) -> Seq<CompositionRegion> {
        self.regions@
    }

    pub closed spec fn full(&self) -> bool {
        self.full_repaint
    }

    /// At most `MAX_DIRTY_REGIONS` regions, each within 32-bit edges.
    pub closed spec fn wf(&self) -> bool {
        &&& self.regions@.len() <= MAX_DIRTY_REGIONS
        &&& forall|i: int| 0 <= i < self.regions@.len() ==> region_fits(#[trigger] self.regions@[i])
    }

    /// Create a new dirty region tracker
    pub fn new() -> (r: Self)
        ensures
            r.wf(),
            r.regions().len() == 0,
            !r.full(),
    {
        DirtyRegionTracker { regions: Vec::new(), full_repaint: false }
    }

    /// Mark a region as dirty
    ///
    /// A region that shares a pixel with a tracked one widens the first
    /// such region to hold both; another is added; when no room is left
    /// the whole screen becomes dirty.  Either way every pixel dirty
    /// before stays dirty, and so does every pixel of `region`.
    pub fn mark_dirty(&mut self, region: CompositionRegion)
        requires
            old(self).wf(),
            region_fits(region),
        ensures
            final(self).wf(),
            old(self).full() || !(region.width > 0 && region.height > 0) ==> final(self).regions()
                == old(self).regions() && final(self).full() == old(self).full(),
            !old(self).full() && region.width > 0 && region.height > 0 ==> {
                let rs = old(self).regions();
                match first_meeting(rs, region, rs.len() as int) {
                    Some(i) => final(self).regions() == rs.update(i, bounding(rs[i], region))
                        && !final(self).full(),
                    None => if rs.len() < MAX_DIRTY_REGIONS {
                        final(self).regions() == rs.push(region) && !final(self).full()
                    } else {
                        final(self).regions() == rs && final(self).full()
                    },
                }
            },
            final(self).full() || forall|i: int|
                0 <= i < old(self).regions().len() ==> region_contains(
                    #[trigger] final(self).regions()[i],
                    old(self).regions()[i],
                ),
            region.width > 0 && region.height > 0 ==> final(self).full() || exists|j: int|
                0 <= j < final(self).regions().len() && region_contains(
                    #[trigger] final(self).regions()[j],
                    region,
                ),
    {
        if self.full_repaint || !region.is_valid() {
            return;
        }
        let n = self.regions.len();
        let mut i: usize = 0;
        while i < n
            invariant
                i <= n == self.regions@.len(),
                self.wf(),
                self.regions@ == old(self).regions@,
                self.full_repaint == old(self).full_repaint,
                region_fits(region),
                region.width > 0 && region.height > 0,
                !old(self).full_repaint,
                first_meeting(self.regions@, region, i as int) is None,
            decreases n - i,
        {
            if self.regions[i].intersects(&region) {
                proof {
                    lemma_meeting_stable(self.regions@, region, i + 1, n as int);
                }
                let existing = self.regions[i];
                let new_x = if existing.x <= region.x {
                    existing.x
                } else {
                    region.x
                };
                let new_y = if existing.y <= region.y {
                    existing.y
                } else {
                    region.y
                };
                let new_right = if existing.x + existing.width >= region.x + region.width {
                    existing.x + existing.width
                } else {
                    region.x + region.width
                };
                let new_bottom = if existing.y + existing.height >= region.y + region.height {
                    existing.y + existing.height
                } else {
                    region.y + region.height
                };
                let merged = CompositionRegion {
                    x: new_x,
                    y: new_y,
                    width: new_right - new_x,
                    height: new_bottom - new_y,
                };
                self.regions.set(i, merged);
                proof {
                    assert(self.regions@[i as int] == bounding(old(self).regions@[i as int], region));
                    assert forall|k: int| 0 <= k < self.regions@.len() implies region_fits(
                        #[trigger] self.regions@[k],
                    ) by {
                        if k != i {
                            assert(self.regions@[k] == old(self).regions@[k]);
                        }
                    }
                    assert(region_contains(self.regions()[i as int], region));
                    assert forall|k: int| 0 <= k < old(self).regions@.len() implies region_contains(
                        #[trigger] self.regions@[k],
                        old(self).regions@[k],
                    ) by {
                        if k != i {
                            assert(self.regions@[k] == old(self).regions@[k]);
                        }
                    }
                }
                return;
            }
            i = i + 1;
        }
        if self.regions.len() < MAX_DIRTY_REGIONS {
            self.regions.push(region);
            proof {
                let j = self.regions@.len() - 1;
                assert(region_contains(self.regions()[j], region));
                assert forall|k: int| 0 <= k < old(self).regions@.len() implies region_contains(
                    #[trigger] self.regions@[k],
                    old(self).regions@[k],
                ) by {
                    assert(self.regions@[k] == old(self).regions@[k]);
                }
            }
        } else {
            self.full_repaint = true;
        }
    }

    /// Mark entire screen as dirty
    pub fn mark_full_repaint(&mut self)
        ensures
            final(self).full(),
            final(self).regions() == old(self).regions(),
            old(self).wf() ==> final(self).wf(),
    {
        self.full_repaint = true;
    }

    /// Check if full repaint is needed
    pub fn needs_full_repaint(&self) -> (r: bool)
        ensures
            r == self.full(),
    {
        self.full_repaint
    }

    /// Get dirty regions for rendering; none when the whole screen is to
    /// be repainted, which the caller handles on its own.
    pub fn get_dirty_regions(&self) -> (r: &[CompositionRegion])
        ensures
            r@ == if self.full() {
                Seq::<CompositionRegion>::empty()
            } else {
                self.regions()
            },
    {
        if self.full_repaint {
            let (a, _b) = self.regions.as_slice().split_at(0);
            assert(a@ =~= Seq::<CompositionRegion>::empty());
            a
        } else {
            self.regions.as_slice()
        }
    }

    /// Clear all dirty regions after rendering
    pub fn clear(&mut self)
        ensures
            final(self).wf(),
            final(self).regions().len() == 0,
            !final(self).full(),
    {
        self.regions.clear();
        self.full_repaint = false;
    }

    /// Check if any regions are dirty
    pub fn is_dirty(&self) -> (r: bool)
        ensures
            r == (self.full() || self.regions().len() > 0),
    {
        self.full_repaint || self.regions.len() > 0
    }

    /// Get the number of tracked dirty regions
    pub fn region_count(&self) -> (r: usize)
        ensures
            r == self.regions().len(),
    {
        self.regions.len()
    }

    /// Get the total area of all dirty regions (for statistics);
    /// `u64::MAX` stands for a full repaint.
    pub fn total_dirty_area(&self) -> (r: u64)
        requires
            self.full() || area_sum(self.regions(), self.regions().len() as int) <= u64::MAX,
        ensures
            r == if self.full() {
                u64::MAX as int
            } else {
                area_sum(self.regions(), self.regions().len() as int)
            },
    {
        if self.full_repaint {
            return u64::MAX;
        }
        let mut total: u64 = 0;
        let mut i: usize = 0;
        while i < self.regions.len()
            invariant
                i <= self.regions@.len(),
                total == area_sum(self.regions@, i as int),
                area_sum(self.regions@, self.regions@.len() as int) <= u64::MAX,
            decreases self.regions@.len() - i,
        {
            proof {
                lemma_area_sum_mono(self.regions@, i as int + 1, self.regions@.len() as int);
            }
            total = total + self.regions[i].area();
            i = i + 1;
        }
        total
    }
}

impl Default for DirtyRegionTracker {
    fn default() -> (r: Self)
        ensures
            r.wf(),
            r.regions().len() == 0,
            !r.full(),
    {
        Self::new()
    }
}

proof fn lemma_meeting_stable(rs: Seq<CompositionRegion>, r: CompositionRegion, n: int, m: int)
    requires
        n <= m,
        first_meeting(rs, r, n) is Some,
    ensures
        first_meeting(rs, r, m) == first_meeting(rs, r, n),
    decreases m - n,
{
    if n < m {
        lemma_meeting_stable(rs, r, n, m - 1);
    }
}

proof fn lemma_area_sum_mono(rs: Seq<CompositionRegion>, n: int, m: int)
    requires
        0 <= n <= m <= rs.len(),
    ensures
        area_sum(rs, n) <= area_sum(rs, m),
    decreases m - n,
{
    if n < m {
        lemma_area_sum_mono(rs, n, m - 1);
        assert(rs[m - 1].width * rs[m - 1].height >= 0) by (nonlinear_arith);
    }
}

} // verus!
