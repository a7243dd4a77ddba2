//! What the shadow path cost, so the question "is a cache worth it?" is
//! answered by measurement rather than by assumption.
use vstd::prelude::*;

verus! {

/// A shadow's geometry in device pixels: width, height, radius, sigma.
pub type Geometry = (u32, u32, u32, u32);

/// Counts for one frame of the shadow path.
#[derive(Debug, Clone)]
pub struct PaintStat {
    /// Shadows drawn this frame.
    shadow: u32,
    /// Mask pixels blurred — the quantity a cache would actually save.
    blur_pixel: u64,
    blur_nanos: u64,
    /// Distinct shadow geometries this frame: a cache can only help to the
    /// extent this is smaller than `shadow`.
    geometry: Vec<Geometry>,
}

impl PaintStat {
    /// The distinct geometries recorded, in the order first seen. The list
    /// itself is private; `distinct` gives its length.
    pub closed spec fn geometries(&self) -> Seq<Geometry> {
        self.geometry@
    }

    pub closed spec fn shadows(&self) -> u32 {
        self.shadow
    }

    pub closed spec fn pixels(&self) -> u64 {
        self.blur_pixel
    }

    pub closed spec fn nanos(&self) -> u64 {
        self.blur_nanos
    }

    /// Each geometry is counted once, and every distinct geometry belongs to
    /// at least one shadow drawn: there are never more distinct geometries
    /// than shadows.
    pub open spec fn wf(&self) -> bool {
        &&& self.geometries().no_duplicates()
        &&& self.geometries().len() <= self.shadows()
    }

    /// Shadows drawn this frame.
    pub fn shadow(&self) -> (r: u32)
        ensures
            r == self.shadows(),
    {
        self.shadow
    }

    /// Mask pixels blurred this frame.
    pub fn blur_pixel(&self) -> (r: u64)
        ensures
            r == self.pixels(),
    {
        self.blur_pixel
    }

    /// Nanoseconds spent blurring this frame.
    pub fn blur_nanos(&self) -> (r: u64)
        ensures
            r == self.nanos(),
    {
        self.blur_nanos
    }

    /// How many distinct geometries were drawn.
    pub fn distinct(&self) -> (r: usize)
        ensures
            r == self.geometries().len(),
            self.wf() ==> r <= self.shadows(),
    {
        self.geometry.len()
    }

    /// Count one shadow: its geometry, the pixels its blur touched and the time
    /// it took.
    pub fn record(&mut self, key: Geometry, pixel: u64, nanos: u64)
        requires
            old(self).shadows() < u32::MAX,
            old(self).pixels() + pixel <= u64::MAX,
            old(self).nanos() + nanos <= u64::MAX,
        ensures
            final(self).shadows() == old(self).shadows() + 1,
            final(self).pixels() == old(self).pixels() + pixel,
            final(self).nanos() == old(self).nanos() + nanos,
            final(self).geometries() == if old(self).geometries().contains(key) {
                old(self).geometries()
            } else {
                old(self).geometries().push(key)
            },
            old(self).wf() ==> final(self).wf(),
    {
        self.shadow = self.shadow + 1;
        self.blur_pixel = self.blur_pixel + pixel;
        self.blur_nanos = self.blur_nanos + nanos;
        let mut seen = false;
        let mut i: usize = 0;
        while i < self.geometry.len()
            invariant
                0 <= i <= self.geometry@.len(),
                seen == exists|k: int| 0 <= k < i && self.geometry@[k] == key,
            decreases self.geometry@.len() - i,
        {
            let g = self.geometry[i];
            if g.0 == key.0 && g.1 == key.1 && g.2 == key.2 && g.3 == key.3 {
                seen = true;
            }
            i += 1;
        }
        if !seen {
            let ghost before = self.geometry@;
            self.geometry.push(key);
            proof {
                assert forall|a: int, b: int|
                    0 <= a < b < self.geometry@.len() && before.no_duplicates() implies self.geometry@[a]
                    != self.geometry@[b] by {
                    if b == before.len() {
                        assert(self.geometry@[a] == before[a]);
                    }
                }
            }
        } else {
            proof {
                let k = choose|k: int| 0 <= k < i && self.geometry@[k] == key;
                assert(self.geometry@.contains(key));
            }
        }
    }

    /// Start a new frame.
    pub fn clear(&mut self)
        ensures
            final(self).shadows() == 0,
            final(self).pixels() == 0,
            final(self).nanos() == 0,
            final(self).geometries() == Seq::<Geometry>::empty(),
            final(self).wf(),
    {
        self.shadow = 0;
        self.blur_pixel = 0;
        self.blur_nanos = 0;
        self.geometry.clear();
    }
}

impl Default for PaintStat {
    fn default() -> (r: PaintStat)
        ensures
            r.shadows() == 0,
            r.pixels() == 0,
            r.nanos() == 0,
            r.geometries() == Seq::<Geometry>::empty(),
            r.wf(),
    {
        PaintStat { shadow: 0, blur_pixel: 0, blur_nanos: 0, geometry: Vec::new() }
    }
}

} // verus!
