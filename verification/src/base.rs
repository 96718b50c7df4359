use crate::shared::{
    animated_indices, apply_cycles, cycles_applied, range_fits, range_indices, ranges_fit,
    BaseData, Color, ColorCycle, Cycle,
};
use vstd::prelude::*;

verus! {

/// An indexed image whose palette is animated by its cycles alone.
pub struct StaticImage {
    width: u32,
    height: u32,
    colors: Vec<Color>,
    cycles: Vec<Cycle>,
    pixels: Vec<usize>,
    anim: Vec<usize>,
}

impl StaticImage {
    /// Every range lies inside the palette, the animated places are those
    /// of the cycles, and the pixels fill the image and name palette entries.
    #[verifier::type_invariant]
    spec fn inv(self) -> bool {
        &&& ranges_fit(self.cycles@, self.colors@.len() as int)
        &&& self.anim@ == animated_indices(self.cycles@)
        &&& self.width > 0
        &&& self.width * self.height == self.pixels@.len()
        &&& forall|i: int|
            0 <= i < self.pixels@.len() ==> #[trigger] self.pixels@[i] < self.colors@.len()
    }

    /// The base palette.
    pub closed spec fn palette(&self) -> Seq<Color> {
        self.colors@
    }

    /// The cycles, in their order.
    pub closed spec fn cycle_list(&self) -> Seq<Cycle> {
        self.cycles@
    }

    /// Builds the image from its description, and works out the palette
    /// places that move.
    pub fn from_data(data: BaseData) -> (img: Self)
        requires
            data.wf(),
        ensures
            img.size() == (data.width, data.height),
            img.palette() == data.colors@,
            img.palette_len() == data.colors@.len(),
            img.cycle_list() == data.cycles@,
            img.indices() == data.pixels@,
            img.animated() == animated_indices(data.cycles@),
    {
        let mut anim: Vec<usize> = Vec::new();
        let mut k: usize = 0;
        assert(data.cycles@.take(0) =~= Seq::<Cycle>::empty());
        while k < data.cycles.len()
            invariant
                k <= data.cycles@.len(),
                ranges_fit(data.cycles@, data.colors@.len() as int),
                anim@ == animated_indices(data.cycles@.take(k as int)),
            decreases data.cycles@.len() - k,
        {
            let cycle = &data.cycles[k];
            let ghost before = anim@;
            proof {
                assert(data.cycles@.take(k + 1).drop_last() =~= data.cycles@.take(k as int));
                assert(data.cycles@.take(k + 1).last() == data.cycles@[k as int]);
                assert(range_fits(data.cycles@[k as int], data.colors@.len() as int));
            }
            if cycle.rate != 0 {
                let len = data.colors.len();
                let mut idx: usize = cycle.low;
                while idx <= cycle.high
                    invariant
                        cycle.low <= idx <= cycle.high + 1,
                        cycle.high < len,
                        anim@ == before + range_indices(cycle.low as int, cycle.high as int).take(
                            idx - cycle.low,
                        ),
                    decreases cycle.high + 1 - idx,
                {
                    anim.push(idx);
                    idx += 1;
                }
            }
            k += 1;
        }
        assert(data.cycles@.take(data.cycles@.len() as int) =~= data.cycles@);
        Self {
            width: data.width,
            height: data.height,
            colors: data.colors,
            cycles: data.cycles,
            pixels: data.pixels,
            anim: anim,
        }
    }

    /// The base palette, which no frame changes.
    pub fn get_palette(&self) -> (palette: &[Color])
        ensures
            palette@ == self.palette(),
    {
        self.colors.as_slice()
    }

    /// The cycles, each with its range inside the palette.
    pub fn get_cycles(&self) -> (cycles: &[Cycle])
        ensures
            cycles@ == self.cycle_list(),
            ranges_fit(cycles@, self.palette().len() as int),
    {
        proof {
            use_type_invariant(self);
        }
        self.cycles.as_slice()
    }
}

impl ColorCycle for StaticImage {
    closed spec fn size(&self) -> (u32, u32) {
        (self.width, self.height)
    }

    closed spec fn indices(&self) -> Seq<usize> {
        self.pixels@
    }

    closed spec fn animated(&self) -> Seq<usize> {
        self.anim@
    }

    open spec fn palette_len(&self) -> nat {
        self.palette().len()
    }

    open spec fn frame(&self, time: Option<usize>, dt: usize) -> Seq<Color> {
        cycles_applied(self.palette(), self.cycle_list(), dt as int)
    }

    fn get_size(&self) -> (size: (u32, u32)) {
        proof {
            use_type_invariant(self);
        }
        (self.width, self.height)
    }

    fn get_indices(&self) -> (indices: &[usize]) {
        proof {
            use_type_invariant(self);
        }
        self.pixels.as_slice()
    }

    fn get_animated_indices(&self) -> (indices: &[usize])
        ensures
            indices@ == animated_indices(self.cycle_list()),
    {
        proof {
            use_type_invariant(self);
        }
        self.anim.as_slice()
    }

    /// Copies the base palette and lets the cycles run on the copy; the
    /// time of day plays no part.
    fn cycle(&mut self, _time: Option<usize>, dt: usize) -> (palette: Vec<Color>) {
        proof {
            use_type_invariant(&*self);
        }
        let mut palette = self.colors.clone();
        apply_cycles(&mut palette, self.cycles.as_slice(), dt);
        palette
    }
}

} // verus!
