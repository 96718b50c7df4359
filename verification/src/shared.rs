use vstd::prelude::*;

verus! {

/// Seconds in one day; time-of-day markers lie below it.
pub const DAY_SECS: usize = 86400;

/// Base tick rate by which a cycle's stored rate is divided.
pub const CYCLE_SPEED: usize = 280;

/// An 8-bit RGB triple.
#[derive(Copy, Clone, Debug, PartialEq, Eq, Structural)]
pub struct Color {
    pub r: u8,
    pub g: u8,
    pub b: u8,
}

/// A contiguous range of palette entries that rotates together.
///
/// `reverse` is the animation style, 0 to 5: styles 0 and 1 rotate forward
/// at a steady pace, style 2 does so in reverse direction, style 3 swings
/// back and forth, styles 4 and 5 follow a sine wave. `rate` is the speed;
/// a rate of 0 keeps the range still. `wave` holds, for the sine styles, the
/// sampled wave: the entry at a phase is `false` where the wave rounds the
/// step down to none, `true` where it rounds to a whole step; a phase
/// without an entry counts as a whole step.
pub struct Cycle {
    pub reverse: usize,
    pub rate: usize,
    pub low: usize,
    pub high: usize,
    pub wave: Vec<bool>,
}

/// An indexed image: its size, its palette, the ranges of the palette that
/// are animated, and for each pixel the palette entry that colors it.
pub struct BaseData {
    pub width: u32,
    pub height: u32,
    pub colors: Vec<Color>,
    pub cycles: Vec<Cycle>,
    pub pixels: Vec<usize>,
}

/// What is wrong with the description of an image or of its timeline.
#[derive(Copy, Clone, Debug, PartialEq, Eq, Structural)]
pub enum DataError {
    /// The pixel count is not width times height, or one of the two is zero.
    BadDimensions,
    /// A cycle's range is empty or reaches past the end of the palette.
    MalformedRange,
    /// A cycle's animation style is above 5.
    UnknownStyle,
    /// A pixel names a palette entry that does not exist.
    PixelOutOfRange,
    /// A named palette differs in length from the base palette.
    PaletteLengthMismatch,
    /// The timeline has no marker.
    EmptySchedule,
    /// A marker lies at or beyond the end of the day.
    MarkerOutOfRange,
    /// A marker names a palette that the table does not hold.
    UnknownPaletteName,
}

/// Whether the range of `c` is a non-empty range inside a palette of `len`
/// entries.
pub open spec fn range_fits(c: Cycle, len: int) -> bool {
    c.low <= c.high < len
}

/// Whether every range of `cycles` fits a palette of `len` entries.
pub open spec fn ranges_fit(cycles: Seq<Cycle>, len: int) -> bool {
    forall|k: int| 0 <= k < cycles.len() ==> range_fits(#[trigger] cycles[k], len)
}

impl BaseData {
    /// Whether the pixel count is the product of two positive dimensions.
    pub open spec fn dimensions_ok(&self) -> bool {
        self.width > 0 && self.height > 0 && self.pixels@.len() == self.width * self.height
    }

    /// Whether every animation style is one of the six known ones.
    pub open spec fn styles_ok(&self) -> bool {
        forall|k: int| 0 <= k < self.cycles@.len() ==> (#[trigger] self.cycles@[k]).reverse <= 5
    }

    /// Whether every pixel names an entry of the palette.
    pub open spec fn pixels_ok(&self) -> bool {
        forall|i: int| 0 <= i < self.pixels@.len() ==> #[trigger] self.pixels@[i] < self.colors@.len()
    }

    /// The first thing found wrong with the description, looking at the
    /// dimensions, the ranges, the styles and the pixels in that order.
    pub open spec fn fault(&self) -> Option<DataError> {
        if !self.dimensions_ok() {
            Some(DataError::BadDimensions)
        } else if !ranges_fit(self.cycles@, self.colors@.len() as int) {
            Some(DataError::MalformedRange)
        } else if !self.styles_ok() {
            Some(DataError::UnknownStyle)
        } else if !self.pixels_ok() {
            Some(DataError::PixelOutOfRange)
        } else {
            None
        }
    }

    /// A description is well formed when nothing is wrong with it.
    pub open spec fn wf(&self) -> bool {
        &&& self.dimensions_ok()
        &&& ranges_fit(self.cycles@, self.colors@.len() as int)
        &&& self.styles_ok()
        &&& self.pixels_ok()
    }

    /// Checks the description, and names the first fault if there is one.
    pub fn validate(&self) -> (r: Result<(), DataError>)
        ensures
            r is Ok <==> self.wf(),
            r == match self.fault() {
                Some(e) => Err::<(), DataError>(e),
                None => Ok(()),
            },
    {
        assert(self.width * self.height <= 0xffff_ffff * 0xffff_ffff) by (nonlinear_arith)
            requires
                0 <= self.width <= 0xffff_ffff,
                0 <= self.height <= 0xffff_ffff,
        ;
        if self.width == 0 || self.height == 0 || (self.width as u64) * (self.height as u64)
            != self.pixels.len() as u64 {
            return Err(DataError::BadDimensions);
        }
        let len = self.colors.len();
        let mut k: usize = 0;
        while k < self.cycles.len()
            invariant
                k <= self.cycles@.len(),
                len == self.colors@.len(),
                self.dimensions_ok(),
                forall|j: int| 0 <= j < k ==> range_fits(#[trigger] self.cycles@[j], len as int),
            decreases self.cycles@.len() - k,
        {
            if !(self.cycles[k].low <= self.cycles[k].high && self.cycles[k].high < len) {
                return Err(DataError::MalformedRange);
            }
            k += 1;
        }
        k = 0;
        while k < self.cycles.len()
            invariant
                k <= self.cycles@.len(),
                self.dimensions_ok(),
                ranges_fit(self.cycles@, self.colors@.len() as int),
                forall|j: int| 0 <= j < k ==> (#[trigger] self.cycles@[j]).reverse <= 5,
            decreases self.cycles@.len() - k,
        {
            if self.cycles[k].reverse > 5 {
                return Err(DataError::UnknownStyle);
            }
            k += 1;
        }
        let mut i: usize = 0;
        while i < self.pixels.len()
            invariant
                i <= self.pixels@.len(),
                len == self.colors@.len(),
                self.dimensions_ok(),
                ranges_fit(self.cycles@, self.colors@.len() as int),
                self.styles_ok(),
                forall|j: int| 0 <= j < i ==> #[trigger] self.pixels@[j] < len,
            decreases self.pixels@.len() - i,
        {
            if self.pixels[i] >= len {
                return Err(DataError::PixelOutOfRange);
            }
            i += 1;
        }
        Ok(())
    }
}

/// A point of the day from which on a named palette is in force.
pub struct Marker {
    /// Seconds since midnight.
    pub at: usize,
    /// Name of the palette.
    pub name: String,
}

/// A palette of the table, under its name. Of `data` the timeline reads the
/// colors only.
pub struct NamedPalette {
    pub name: String,
    pub data: BaseData,
}

/// An indexed image with the palettes that it takes on over the day.
pub struct TimelineData {
    pub base: BaseData,
    pub palettes: Vec<NamedPalette>,
    pub timeline: Vec<Marker>,
}

/// Whether every palette of the table has `len` colors.
pub open spec fn palettes_match(palettes: Seq<NamedPalette>, len: int) -> bool {
    forall|k: int| 0 <= k < palettes.len() ==> (#[trigger] palettes[k]).data.colors@.len() == len
}

/// Whether the table holds a palette under `name`.
pub open spec fn has_palette(palettes: Seq<NamedPalette>, name: Seq<char>) -> bool {
    exists|k: int| 0 <= k < palettes.len() && (#[trigger] palettes[k]).name@ == name
}

/// Whether every marker lies within the day.
pub open spec fn markers_in_day(timeline: Seq<Marker>) -> bool {
    forall|k: int| 0 <= k < timeline.len() ==> (#[trigger] timeline[k]).at < DAY_SECS
}

/// Whether every marker names a palette of the table.
pub open spec fn names_known(timeline: Seq<Marker>, palettes: Seq<NamedPalette>) -> bool {
    forall|k: int| 0 <= k < timeline.len() ==> has_palette(palettes, (#[trigger] timeline[k]).name@)
}

/// The place of the first palette of the table under `name`, if there is
/// one.
pub fn find_palette(palettes: &[NamedPalette], name: &String) -> (found: Option<usize>)
    ensures
        found is Some <==> has_palette(palettes@, name@),
        found matches Some(i) ==> i < palettes@.len() && palettes@[i as int].name@ == name@
            && forall|j: int| 0 <= j < i ==> (#[trigger] palettes@[j]).name@ != name@,
{
    let mut i: usize = 0;
    while i < palettes.len()
        invariant
            i <= palettes@.len(),
            forall|j: int| 0 <= j < i ==> (#[trigger] palettes@[j]).name@ != name@,
        decreases palettes@.len() - i,
    {
        if palettes[i].name == *name {
            return Some(i);
        }
        i += 1;
    }
    None
}

impl TimelineData {
    /// The first thing found wrong with the description: with the base
    /// image, then with the lengths of the named palettes, then with the
    /// timeline being empty, a marker beyond the day, or a marker whose
    /// palette the table lacks.
    pub open spec fn fault(&self) -> Option<DataError> {
        if self.base.fault() is Some {
            self.base.fault()
        } else if !palettes_match(self.palettes@, self.base.colors@.len() as int) {
            Some(DataError::PaletteLengthMismatch)
        } else if self.timeline@.len() == 0 {
            Some(DataError::EmptySchedule)
        } else if !markers_in_day(self.timeline@) {
            Some(DataError::MarkerOutOfRange)
        } else if !names_known(self.timeline@, self.palettes@) {
            Some(DataError::UnknownPaletteName)
        } else {
            None
        }
    }

    /// A description is well formed when nothing is wrong with it.
    pub open spec fn wf(&self) -> bool {
        &&& self.base.wf()
        &&& palettes_match(self.palettes@, self.base.colors@.len() as int)
        &&& self.timeline@.len() > 0
        &&& markers_in_day(self.timeline@)
        &&& names_known(self.timeline@, self.palettes@)
    }

    /// Checks the description, and names the first fault if there is one.
    pub fn validate(&self) -> (r: Result<(), DataError>)
        ensures
            r is Ok <==> self.wf(),
            r == match self.fault() {
                Some(e) => Err::<(), DataError>(e),
                None => Ok(()),
            },
    {
        match self.base.validate() {
            Err(e) => {
                return Err(e);
            },
            Ok(_) => {},
        }
        let len = self.base.colors.len();
        let mut k: usize = 0;
        while k < self.palettes.len()
            invariant
                k <= self.palettes@.len(),
                len == self.base.colors@.len(),
                self.base.wf(),
                self.base.fault() is None,
                forall|j: int|
                    0 <= j < k ==> (#[trigger] self.palettes@[j]).data.colors@.len() == len,
            decreases self.palettes@.len() - k,
        {
            if self.palettes[k].data.colors.len() != len {
                return Err(DataError::PaletteLengthMismatch);
            }
            k += 1;
        }
        if self.timeline.len() == 0 {
            return Err(DataError::EmptySchedule);
        }
        k = 0;
        while k < self.timeline.len()
            invariant
                k <= self.timeline@.len(),
                self.timeline@.len() > 0,
                self.base.wf(),
                self.base.fault() is None,
                palettes_match(self.palettes@, self.base.colors@.len() as int),
                forall|j: int| 0 <= j < k ==> (#[trigger] self.timeline@[j]).at < DAY_SECS,
            decreases self.timeline@.len() - k,
        {
            if self.timeline[k].at >= DAY_SECS {
                return Err(DataError::MarkerOutOfRange);
            }
            k += 1;
        }
        k = 0;
        while k < self.timeline.len()
            invariant
                k <= self.timeline@.len(),
                self.timeline@.len() > 0,
                self.base.wf(),
                self.base.fault() is None,
                palettes_match(self.palettes@, self.base.colors@.len() as int),
                markers_in_day(self.timeline@),
                forall|j: int|
                    0 <= j < k ==> has_palette(self.palettes@, (#[trigger] self.timeline@[j]).name@),
            decreases self.timeline@.len() - k,
        {
            if find_palette(self.palettes.as_slice(), &self.timeline[k].name).is_none() {
                return Err(DataError::UnknownPaletteName);
            }
            k += 1;
        }
        Ok(())
    }
}

/// Where the entry that stands at place `i` of the range `[low, high]` after
/// a rotation came from, when every entry moved `shift` places down (a
/// negative `shift` moves them up), wrapping around inside the range.
pub open spec fn source_index(low: int, high: int, i: int, shift: int) -> int {
    low + (i - low + shift) % (high - low + 1)
}

/// The palette `s` with every entry of its closed sub-range `[low, high]`
/// moved `shift` places down, wrapping around inside the range; entries
/// outside the range stay.
pub open spec fn shifted(s: Seq<Color>, low: int, high: int, shift: int) -> Seq<Color> {
    Seq::new(
        s.len(),
        |i: int|
            if low <= i <= high {
                s[source_index(low, high, i, shift)]
            } else {
                s[i]
            },
    )
}

/// The palette `s` after `amount` single-step rotations of its closed
/// sub-range `[low, high]`. A forward step moves the entry at `high` to `low`
/// and every other entry of the range one place up; a reverse step moves the
/// entry at `low` to `high` and every other entry one place down.
pub open spec fn rotated(s: Seq<Color>, low: int, high: int, amount: int, rev: bool) -> Seq<Color> {
    shifted(
        s,
        low,
        high,
        if rev {
            amount
        } else {
            -amount
        },
    )
}

/// The palette `s` after `times` rotations by one step each.
pub open spec fn rotated_times(s: Seq<Color>, low: int, high: int, times: nat, rev: bool) -> Seq<
    Color,
>
    decreases times,
{
    if times == 0 {
        s
    } else {
        rotated(rotated_times(s, low, high, (times - 1) as nat, rev), low, high, 1, rev)
    }
}

/// One more step on a rotated palette is the palette rotated once more: the
/// entry that leaves one end of the range enters at the other, and every
/// other entry of the range moves one place.
pub proof fn lemma_rotated_step(s: Seq<Color>, low: int, high: int, amount: int, rev: bool)
    requires
        0 <= low <= high < s.len(),
    ensures
        rotated(s, low, high, amount + 1, rev).len() == s.len(),
        forall|i: int|
            0 <= i < s.len() && !(low <= i <= high) ==> #[trigger] rotated(
                s,
                low,
                high,
                amount + 1,
                rev,
            )[i] == rotated(s, low, high, amount, rev)[i],
        !rev ==> rotated(s, low, high, amount + 1, rev)[low] == rotated(
            s,
            low,
            high,
            amount,
            rev,
        )[high],
        !rev ==> forall|i: int|
            low < i <= high ==> #[trigger] rotated(s, low, high, amount + 1, rev)[i] == rotated(
                s,
                low,
                high,
                amount,
                rev,
            )[i - 1],
        rev ==> rotated(s, low, high, amount + 1, rev)[high] == rotated(
            s,
            low,
            high,
            amount,
            rev,
        )[low],
        rev ==> forall|i: int|
            low <= i < high ==> #[trigger] rotated(s, low, high, amount + 1, rev)[i] == rotated(
                s,
                low,
                high,
                amount,
                rev,
            )[i + 1],
{
    let n = high - low + 1;
    if rev {
        vstd::arithmetic::div_mod::lemma_mod_add_multiples_vanish(amount, n);
        assert(high - low + (amount + 1) == n + amount);
    } else {
        vstd::arithmetic::div_mod::lemma_mod_add_multiples_vanish(-(amount + 1), n);
        assert(high - low + (-amount) == n + (-(amount + 1)));
    }
}

/// Moving the entries of a range by `x` places and then by `y` places moves
/// them by `x + y` places.
pub proof fn lemma_shifted_compose(s: Seq<Color>, low: int, high: int, x: int, y: int)
    requires
        0 <= low <= high < s.len(),
    ensures
        shifted(shifted(s, low, high, x), low, high, y) == shifted(s, low, high, x + y),
{
    let n = high - low + 1;
    let inner = shifted(s, low, high, x);
    assert forall|i: int| low <= i <= high implies #[trigger] shifted(inner, low, high, y)[i]
        == shifted(s, low, high, x + y)[i] by {
        let j = source_index(low, high, i, y);
        vstd::arithmetic::div_mod::lemma_mod_bound(i - low + y, n);
        assert(low <= j <= high);
        vstd::arithmetic::div_mod::lemma_add_mod_noop_right(x, i - low + y, n);
        assert(j - low + x == x + (i - low + y) % n);
        assert(source_index(low, high, j, x) == source_index(low, high, i, x + y));
    }
    assert(shifted(inner, low, high, y) =~= shifted(s, low, high, x + y));
}

/// Moving the entries of a range by a whole number of turns changes nothing.
pub proof fn lemma_shifted_whole_turns(s: Seq<Color>, low: int, high: int, turns: int)
    requires
        0 <= low <= high < s.len(),
    ensures
        shifted(s, low, high, turns * (high - low + 1)) == s,
{
    let n = high - low + 1;
    assert forall|i: int| low <= i <= high implies #[trigger] source_index(
        low,
        high,
        i,
        turns * n,
    ) == i by {
        vstd::arithmetic::div_mod::lemma_mod_multiples_vanish(turns, i - low, n);
        vstd::arithmetic::div_mod::lemma_small_mod((i - low) as nat, n as nat);
        assert(n * turns == turns * n) by (nonlinear_arith);
    }
    assert(shifted(s, low, high, turns * n) =~= s);
}

/// Rotating by `a` steps and then by `b` steps in the same direction is
/// rotating by `a + b` steps.
pub proof fn lemma_rotated_compose(
    s: Seq<Color>,
    low: int,
    high: int,
    a: int,
    b: int,
    rev: bool,
)
    requires
        0 <= low <= high < s.len(),
    ensures
        rotated(rotated(s, low, high, a, rev), low, high, b, rev) == rotated(
            s,
            low,
            high,
            a + b,
            rev,
        ),
{
    if rev {
        lemma_shifted_compose(s, low, high, a, b);
    } else {
        lemma_shifted_compose(s, low, high, -a, -b);
    }
}

/// Rotating by as many steps as the range has entries, or by any multiple
/// of that, gives the palette back.
pub proof fn lemma_rotated_whole_turns(
    s: Seq<Color>,
    low: int,
    high: int,
    turns: int,
    rev: bool,
)
    requires
        0 <= low <= high < s.len(),
    ensures
        rotated(s, low, high, turns * (high - low + 1), rev) == s,
{
    let n = high - low + 1;
    if rev {
        lemma_shifted_whole_turns(s, low, high, turns);
    } else {
        lemma_shifted_whole_turns(s, low, high, -turns);
        assert((-turns) * n == -(turns * n)) by (nonlinear_arith);
    }
}

/// Rotating one step at a time is rotating by the number of steps taken.
pub proof fn lemma_rotated_times(s: Seq<Color>, low: int, high: int, times: nat, rev: bool)
    requires
        0 <= low <= high < s.len(),
    ensures
        rotated_times(s, low, high, times, rev) == rotated(s, low, high, times as int, rev),
    decreases times,
{
    if times == 0 {
        lemma_shifted_whole_turns(s, low, high, 0);
    } else {
        lemma_rotated_times(s, low, high, (times - 1) as nat, rev);
        lemma_rotated_compose(s, low, high, times - 1, 1, rev);
    }
}

/// As many single steps as the range has entries, all in one direction,
/// bring every entry back to where it started.
pub proof fn lemma_full_cycle_restores(s: Seq<Color>, low: int, high: int, rev: bool)
    requires
        0 <= low <= high < s.len(),
    ensures
        rotated_times(s, low, high, (high - low + 1) as nat, rev) == s,
{
    lemma_rotated_times(s, low, high, (high - low + 1) as nat, rev);
    lemma_rotated_whole_turns(s, low, high, 1, rev);
}

/// A rotation followed by the rotation of the same amount in the other
/// direction gives the palette back.
pub proof fn lemma_rotate_back_restores(
    s: Seq<Color>,
    low: int,
    high: int,
    amount: int,
    rev: bool,
)
    requires
        0 <= low <= high < s.len(),
    ensures
        rotated(rotated(s, low, high, amount, rev), low, high, amount, !rev) == s,
{
    if rev {
        lemma_shifted_compose(s, low, high, amount, -amount);
    } else {
        lemma_shifted_compose(s, low, high, -amount, amount);
    }
    lemma_shifted_whole_turns(s, low, high, 0);
}

/// Whole ticks that have passed after `dt` milliseconds at `rate` ticks a
/// second.
pub open spec fn ticks(rate: int, dt: int) -> int {
    dt * rate / 1000
}

/// The step that the sampled sine wave gives at phase `raw`: 0 where the
/// sample is `false`, 1 where it is `true` or missing.
pub open spec fn wave_step(wave: Seq<bool>, raw: int) -> int {
    if 0 <= raw < wave.len() && !wave[raw] {
        0
    } else {
        1
    }
}

/// The number of single-step rotations that a range of `cycle_num` entries
/// has made after `dt` milliseconds.
///
/// Styles 0 to 2 count the ticks modulo the size of the range. Style 3
/// counts them modulo twice the size and walks back from the far end in the
/// second half. Styles 4 and 5 take the step of the sine wave at the phase
/// `ticks mod cycle_num` and scale it by a quarter and by half of the size;
/// any higher style takes that step as it is.
pub open spec fn shift_amount(
    rate: int,
    dt: int,
    cycle_num: int,
    anim_style: int,
    wave: Seq<bool>,
) -> int {
    if anim_style <= 2 {
        ticks(rate, dt) % cycle_num
    } else if anim_style == 3 {
        let raw = ticks(rate, dt) % (2 * cycle_num);
        if raw < cycle_num {
            raw
        } else {
            2 * cycle_num - raw
        }
    } else {
        let step = wave_step(wave, ticks(rate, dt) % cycle_num);
        if anim_style == 4 {
            step * (cycle_num / 4)
        } else if anim_style == 5 {
            step * (cycle_num / 2)
        } else {
            step
        }
    }
}

/// Computes the number of single-step rotations of a range of `cycle_num`
/// entries after `dt` milliseconds at `rate` ticks a second, for the
/// animation style `anim_style` and the sampled sine wave `wave`.
///
/// The product of `dt` and `rate` is taken exactly, whatever their size.
pub fn calc_amount(
    rate: usize,
    dt: usize,
    cycle_num: usize,
    anim_style: usize,
    wave: &[bool],
) -> (amount: usize)
    requires
        cycle_num > 0,
    ensures
        amount == shift_amount(
            rate as int,
            dt as int,
            cycle_num as int,
            anim_style as int,
            wave@,
        ),
        amount <= cycle_num,
        anim_style != 3 && anim_style <= 5 ==> amount < cycle_num,
{
    assert(dt * rate <= 0xffff_ffff_ffff_ffff * 0xffff_ffff_ffff_ffff) by (nonlinear_arith)
        requires
            0 <= dt <= 0xffff_ffff_ffff_ffff,
            0 <= rate <= 0xffff_ffff_ffff_ffff,
    ;
    let elapsed: u128 = (dt as u128) * (rate as u128) / 1000;
    let size: u128 = cycle_num as u128;
    if anim_style <= 2 {
        (elapsed % size) as usize
    } else if anim_style == 3 {
        let raw: u128 = elapsed % (2 * size);
        if raw < size {
            raw as usize
        } else {
            (2 * size - raw) as usize
        }
    } else {
        let raw: usize = (elapsed % size) as usize;
        let still: bool = raw < wave.len() && !wave[raw];
        proof {
            let step = wave_step(wave@, raw as int);
            assert(step == 0 ==> step * (cycle_num / 4) == 0 && step * (cycle_num / 2) == 0)
                by (nonlinear_arith);
            assert(step == 1 ==> step * (cycle_num / 4) == cycle_num / 4 && step * (cycle_num / 2)
                == cycle_num / 2) by (nonlinear_arith);
        }
        if still {
            0
        } else if anim_style == 4 {
            cycle_num / 4
        } else if anim_style == 5 {
            cycle_num / 2
        } else {
            1
        }
    }
}

/// Rotates the closed sub-range `[low_idx, high_idx]` of `base_colors` by
/// `amount` single steps, in reverse direction if `rev` is set, and leaves
/// every entry outside the range where it is.
pub fn palette_shift(
    base_colors: &mut [Color],
    low_idx: usize,
    high_idx: usize,
    amount: usize,
    rev: bool,
)
    requires
        low_idx <= high_idx < old(base_colors)@.len(),
    ensures
        final(base_colors)@ == rotated(
            old(base_colors)@,
            low_idx as int,
            high_idx as int,
            amount as int,
            rev,
        ),
{
    let ghost orig = base_colors@;
    let mut done: usize = 0;
    assert(base_colors@ =~= rotated(orig, low_idx as int, high_idx as int, 0, rev)) by {
        assert forall|i: int| low_idx <= i <= high_idx implies #[trigger] source_index(
            low_idx as int,
            high_idx as int,
            i,
            0,
        ) == i by {
            vstd::arithmetic::div_mod::lemma_small_mod(
                (i - low_idx) as nat,
                (high_idx - low_idx + 1) as nat,
            );
        }
    }
    while done < amount
        invariant
            done <= amount,
            low_idx <= high_idx < orig.len(),
            base_colors@ == rotated(orig, low_idx as int, high_idx as int, done as int, rev),
        decreases amount - done,
    {
        let ghost before = base_colors@;
        if rev {
            let low = base_colors[low_idx];
            let mut idx: usize = low_idx;
            while idx < high_idx
                invariant
                    low_idx <= idx <= high_idx < before.len(),
                    base_colors@.len() == before.len(),
                    forall|i: int| low_idx <= i < idx ==> base_colors@[i] == before[i + 1],
                    forall|i: int|
                        0 <= i < before.len() && !(low_idx <= i < idx) ==> base_colors@[i]
                            == before[i],
                decreases high_idx - idx,
            {
                base_colors[idx] = base_colors[idx + 1];
                idx += 1;
            }
            base_colors[high_idx] = low;
        } else {
            let high = base_colors[high_idx];
            let mut idx: usize = high_idx;
            while idx > low_idx
                invariant
                    low_idx <= idx <= high_idx < before.len(),
                    base_colors@.len() == before.len(),
                    forall|i: int| idx < i <= high_idx ==> base_colors@[i] == before[i - 1],
                    forall|i: int|
                        0 <= i < before.len() && !(idx < i <= high_idx) ==> base_colors@[i]
                            == before[i],
                decreases idx - low_idx,
            {
                base_colors[idx] = base_colors[idx - 1];
                idx -= 1;
            }
            base_colors[low_idx] = high;
        }
        proof {
            lemma_rotated_step(orig, low_idx as int, high_idx as int, done as int, rev);
            assert(base_colors@ =~= rotated(
                orig,
                low_idx as int,
                high_idx as int,
                done + 1,
                rev,
            ));
        }
        done += 1;
    }
}

/// The palette `p` after the cycle `c` has run for `dt` milliseconds. A cycle
/// with rate 0 leaves the palette as it is; any other rotates its range by
/// the shift amount of its style, in reverse direction for style 2.
pub open spec fn cycle_applied(p: Seq<Color>, c: Cycle, dt: int) -> Seq<Color> {
    if c.rate == 0 {
        p
    } else {
        rotated(
            p,
            c.low as int,
            c.high as int,
            shift_amount(
                c.rate as int / CYCLE_SPEED as int,
                dt,
                c.high - c.low + 1,
                c.reverse as int,
                c.wave@,
            ),
            c.reverse == 2,
        )
    }
}

/// The palette `p` after each of `cycles` has run for `dt` milliseconds, the
/// first cycle applied first.
pub open spec fn cycles_applied(p: Seq<Color>, cycles: Seq<Cycle>, dt: int) -> Seq<Color>
    decreases cycles.len(),
{
    if cycles.len() == 0 {
        p
    } else {
        cycle_applied(cycles_applied(p, cycles.drop_last(), dt), cycles.last(), dt)
    }
}

/// The palette places `low` to `high`, in rising order; none if `low` is
/// above `high`.
pub open spec fn range_indices(low: int, high: int) -> Seq<usize> {
    if low <= high {
        Seq::new((high - low + 1) as nat, |i: int| (low + i) as usize)
    } else {
        Seq::empty()
    }
}

/// The palette places that some cycle with a rate other than 0 moves: the
/// ranges of those cycles one after the other, in the order of the cycles.
pub open spec fn animated_indices(cycles: Seq<Cycle>) -> Seq<usize>
    decreases cycles.len(),
{
    if cycles.len() == 0 {
        Seq::empty()
    } else {
        animated_indices(cycles.drop_last()) + (if cycles.last().rate != 0 {
            range_indices(cycles.last().low as int, cycles.last().high as int)
        } else {
            Seq::empty()
        })
    }
}

/// Whether some cycle of `cycles` with a rate other than 0 has the palette
/// place `i` in its range.
pub open spec fn is_animated(cycles: Seq<Cycle>, i: int) -> bool {
    exists|k: int|
        0 <= k < cycles.len() && (#[trigger] cycles[k]).rate != 0 && cycles[k].low <= i
            <= cycles[k].high
}

/// The animated places are exactly those that lie in the range of a cycle
/// with a rate other than 0.
pub proof fn lemma_animated_indices_contains(cycles: Seq<Cycle>, i: usize)
    ensures
        animated_indices(cycles).contains(i) <==> is_animated(cycles, i as int),
    decreases cycles.len(),
{
    if cycles.len() == 0 {
        assert(!animated_indices(cycles).contains(i));
    } else {
        let front = cycles.drop_last();
        let c = cycles.last();
        let tail = if c.rate != 0 {
            range_indices(c.low as int, c.high as int)
        } else {
            Seq::empty()
        };
        lemma_animated_indices_contains(front, i);
        assert(tail.contains(i) <==> c.rate != 0 && c.low <= i <= c.high) by {
            if c.rate != 0 && c.low <= i <= c.high {
                assert(tail[i - c.low] == i);
            }
        }
        let all = animated_indices(front) + tail;
        assert(all.contains(i) <==> animated_indices(front).contains(i) || tail.contains(i)) by {
            if animated_indices(front).contains(i) {
                let j = choose|j: int|
                    0 <= j < animated_indices(front).len() && animated_indices(front)[j] == i;
                assert(all[j] == i);
            }
            if tail.contains(i) {
                let j = choose|j: int| 0 <= j < tail.len() && tail[j] == i;
                assert(all[animated_indices(front).len() + j] == i);
            }
        }
        if is_animated(front, i as int) {
            let k = choose|k: int|
                0 <= k < front.len() && (#[trigger] front[k]).rate != 0 && front[k].low <= i
                    <= front[k].high;
            assert(cycles[k] == front[k]);
        }
        if c.rate != 0 && c.low <= i <= c.high {
            assert(cycles[cycles.len() - 1] == c);
        }
        if is_animated(cycles, i as int) {
            let k = choose|k: int|
                0 <= k < cycles.len() && (#[trigger] cycles[k]).rate != 0 && cycles[k].low <= i
                    <= cycles[k].high;
            if k < front.len() {
                assert(front[k] == cycles[k]);
            }
        }
    }
}

/// The cycles keep the length of the palette, and move no entry outside the
/// ranges of the cycles with a rate other than 0: a range whose rate is 0
/// shows the base palette at every elapsed time, wherever no other cycle
/// reaches into it.
pub proof fn lemma_still_entries_keep(p: Seq<Color>, cycles: Seq<Cycle>, dt: int, i: int)
    requires
        ranges_fit(cycles, p.len() as int),
        0 <= i < p.len(),
        !is_animated(cycles, i),
    ensures
        cycles_applied(p, cycles, dt).len() == p.len(),
        cycles_applied(p, cycles, dt)[i] == p[i],
    decreases cycles.len(),
{
    lemma_cycles_keep_len(p, cycles, dt);
    if cycles.len() > 0 {
        let front = cycles.drop_last();
        assert forall|k: int| 0 <= k < front.len() implies range_fits(
            #[trigger] front[k],
            p.len() as int,
        ) by {
            assert(front[k] == cycles[k]);
        }
        if is_animated(front, i) {
            let k = choose|k: int|
                0 <= k < front.len() && (#[trigger] front[k]).rate != 0 && front[k].low <= i
                    <= front[k].high;
            assert(cycles[k] == front[k]);
        }
        lemma_still_entries_keep(p, front, dt, i);
        lemma_cycles_keep_len(p, front, dt);
        assert(cycles[cycles.len() - 1] == cycles.last());
    }
}

/// Cycles whose rate is 0 show the base palette at every elapsed time.
pub proof fn lemma_rate_zero_keeps_palette(p: Seq<Color>, cycles: Seq<Cycle>, dt: int)
    requires
        forall|k: int| 0 <= k < cycles.len() ==> (#[trigger] cycles[k]).rate == 0,
    ensures
        cycles_applied(p, cycles, dt) == p,
    decreases cycles.len(),
{
    if cycles.len() > 0 {
        let front = cycles.drop_last();
        assert forall|k: int| 0 <= k < front.len() implies (#[trigger] front[k]).rate == 0 by {
            assert(front[k] == cycles[k]);
        }
        lemma_rate_zero_keeps_palette(p, front, dt);
        assert(cycles.last() == cycles[cycles.len() - 1]);
    }
}

/// The cycles keep the length of the palette.
pub proof fn lemma_cycles_keep_len(p: Seq<Color>, cycles: Seq<Cycle>, dt: int)
    ensures
        cycles_applied(p, cycles, dt).len() == p.len(),
    decreases cycles.len(),
{
    if cycles.len() > 0 {
        lemma_cycles_keep_len(p, cycles.drop_last(), dt);
    }
}

/// A single cycle of a steady style (0, 1 or 2) shows the base palette
/// again whenever a whole number of full turns has passed: at every `dt`
/// with `dt * (rate / 280) == turns * 1000 * size`, where `size` is the
/// number of entries of the range. This holds at `dt == 0` in particular.
pub proof fn lemma_steady_cycle_is_periodic(p: Seq<Color>, c: Cycle, dt: int, turns: int)
    requires
        range_fits(c, p.len() as int),
        c.reverse <= 2,
        0 <= dt,
        dt * (c.rate as int / CYCLE_SPEED as int) == turns * 1000 * (c.high - c.low + 1),
    ensures
        cycles_applied(p, seq![c], dt) == p,
        cycles_applied(p, seq![c], 0) == p,
{
    let n = c.high - c.low + 1;
    let r = c.rate as int / CYCLE_SPEED as int;
    reveal_with_fuel(cycles_applied, 2);
    assert(seq![c].drop_last() =~= Seq::<Cycle>::empty());
    assert(seq![c].last() == c);
    assert(cycles_applied(p, seq![c], dt) == cycle_applied(p, c, dt));
    assert(cycles_applied(p, seq![c], 0) == cycle_applied(p, c, 0));
    if c.rate != 0 {
        assert(ticks(r, dt) == turns * n) by (nonlinear_arith)
            requires
                dt * r == turns * 1000 * n,
        ;
        assert(ticks(r, 0) == 0) by (nonlinear_arith);
        vstd::arithmetic::div_mod::lemma_mod_multiples_basic(turns, n);
        assert((0 as int) % n == 0) by (nonlinear_arith)
            requires
                n > 0,
        ;
        lemma_rotated_whole_turns(p, c.low as int, c.high as int, 0, c.reverse == 2);
    }
}

/// An animated image: it gives its size, the palette entry of each pixel,
/// the palette places that move, and the palette to draw with at a time.
/// Every pixel names an entry of that palette, and the pixels fill the
/// width and the height.
pub trait ColorCycle {
    /// Width and height of the image, in pixels.
    spec fn size(&self) -> (u32, u32);

    /// For each pixel, row by row, the palette place that colors it.
    spec fn indices(&self) -> Seq<usize>;

    /// The palette places that move: see [`animated_indices`].
    spec fn animated(&self) -> Seq<usize>;

    /// The number of entries of the palette, the same in every frame.
    spec fn palette_len(&self) -> nat;

    /// The palette to draw with at the time of day `time`, `dt` milliseconds
    /// after the animation started.
    spec fn frame(&self, time: Option<usize>, dt: usize) -> Seq<Color>;

    /// Width and height of the image, in pixels.
    fn get_size(&self) -> (size: (u32, u32))
        ensures
            size == self.size(),
            size.0 > 0,
            size.0 * size.1 == self.indices().len(),
    ;

    /// For each pixel, row by row, the palette place that colors it.
    fn get_indices(&self) -> (indices: &[usize])
        ensures
            indices@ == self.indices(),
            forall|i: int| 0 <= i < indices@.len() ==> #[trigger] indices@[i] < self.palette_len(),
    ;

    /// The palette places that move.
    fn get_animated_indices(&self) -> (indices: &[usize])
        ensures
            indices@ == self.animated(),
    ;

    /// Computes the palette of one frame. The image itself stays as it is,
    /// except that the first time of day that it is given settles the time of
    /// day of every later frame.
    fn cycle(&mut self, time: Option<usize>, dt: usize) -> (palette: Vec<Color>)
        ensures
            palette@ == old(self).frame(time, dt),
            palette@.len() == old(self).palette_len(),
            final(self).size() == old(self).size(),
            final(self).indices() == old(self).indices(),
            final(self).animated() == old(self).animated(),
            final(self).palette_len() == old(self).palette_len(),
            forall|t: Option<usize>, d: usize|
                #[trigger] final(self).frame(t, d) == old(self).frame(
                    if time is Some {
                        time
                    } else {
                        t
                    },
                    d,
                ),
    ;
}

/// A pixel to paint: its column, its row and its color.
#[derive(Copy, Clone, Debug, PartialEq, Eq, Structural)]
pub struct Dot {
    pub x: u32,
    pub y: u32,
    pub color: Color,
}

/// Pixel `i` as it is painted with `palette`, in an image `width` pixels
/// wide.
pub open spec fn dot_at(palette: Seq<Color>, indices: Seq<usize>, width: int, i: int) -> Dot {
    Dot { x: (i % width) as u32, y: (i / width) as u32, color: palette[indices[i] as int] }
}

/// The pixels to paint among the first `n`, in their order: all of them in
/// the first drawing, later those whose palette place moves.
pub open spec fn paint_list(
    palette: Seq<Color>,
    indices: Seq<usize>,
    anim: Seq<usize>,
    width: int,
    first_draw: bool,
    n: nat,
) -> Seq<Dot>
    decreases n,
{
    if n == 0 {
        Seq::empty()
    } else {
        let before = paint_list(palette, indices, anim, width, first_draw, (n - 1) as nat);
        if first_draw || anim.contains(indices[n - 1]) {
            before.push(dot_at(palette, indices, width, n - 1))
        } else {
            before
        }
    }
}

/// Whether `list` holds `place`.
fn holds_place(list: &[usize], place: usize) -> (found: bool)
    ensures
        found == list@.contains(place),
{
    let mut k: usize = 0;
    while k < list.len()
        invariant
            k <= list@.len(),
            forall|j: int| 0 <= j < k ==> list@[j] != place,
        decreases list@.len() - k,
    {
        if list[k] == place {
            return true;
        }
        k += 1;
    }
    false
}

/// Computes the frame of `img` at `time` and `dt`, and lists the pixels to
/// paint with it: every pixel if this is the first drawing, else the pixels
/// whose palette place moves. For the image itself this is one call of
/// [`ColorCycle::cycle`].
pub fn draw_list<T: ColorCycle + ?Sized>(
    img: &mut T,
    time: Option<usize>,
    dt: usize,
    first_draw: bool,
) -> (dots: Vec<Dot>)
    ensures
        dots@ == paint_list(
            old(img).frame(time, dt),
            old(img).indices(),
            old(img).animated(),
            old(img).size().0 as int,
            first_draw,
            old(img).indices().len(),
        ),
        final(img).size() == old(img).size(),
        final(img).indices() == old(img).indices(),
        final(img).animated() == old(img).animated(),
        final(img).palette_len() == old(img).palette_len(),
        forall|t: Option<usize>, d: usize|
            #[trigger] final(img).frame(t, d) == old(img).frame(
                if time is Some {
                    time
                } else {
                    t
                },
                d,
            ),
{
    let palette = img.cycle(time, dt);
    let (width, height) = img.get_size();
    let indices = img.get_indices();
    let anim = img.get_animated_indices();
    let mut dots: Vec<Dot> = Vec::new();
    let mut i: usize = 0;
    while i < indices.len()
        invariant
            i <= indices@.len(),
            width > 0,
            width * height == indices@.len(),
            forall|k: int| 0 <= k < indices@.len() ==> #[trigger] indices@[k] < palette@.len(),
            dots@ == paint_list(palette@, indices@, anim@, width as int, first_draw, i as nat),
        decreases indices@.len() - i,
    {
        let place = indices[i];
        if first_draw || holds_place(anim, place) {
            assert(i / (width as usize) < height) by (nonlinear_arith)
                requires
                    0 <= i < width * height,
                    width > 0,
            ;
            let x = (i % (width as usize)) as u32;
            let y = (i / (width as usize)) as u32;
            dots.push(Dot { x, y, color: palette[place] });
        }
        i += 1;
    }
    dots
}

/// Lets every cycle of `cycles` run for `dt` milliseconds on `palette`, the
/// first cycle first; a cycle with rate 0 is passed over.
pub fn apply_cycles(palette: &mut Vec<Color>, cycles: &[Cycle], dt: usize)
    requires
        ranges_fit(cycles@, old(palette)@.len() as int),
    ensures
        final(palette)@ == cycles_applied(old(palette)@, cycles@, dt as int),
        final(palette)@.len() == old(palette)@.len(),
{
    let ghost orig = palette@;
    let size = palette.len();
    let mut k: usize = 0;
    assert(cycles@.take(0) =~= Seq::<Cycle>::empty());
    while k < cycles.len()
        invariant
            k <= cycles@.len(),
            palette@.len() == orig.len() == size,
            ranges_fit(cycles@, orig.len() as int),
            palette@ == cycles_applied(orig, cycles@.take(k as int), dt as int),
        decreases cycles@.len() - k,
    {
        let cycle = &cycles[k];
        assert(range_fits(cycles@[k as int], orig.len() as int));
        proof {
            assert(cycles@.take(k + 1).drop_last() =~= cycles@.take(k as int));
            assert(cycles@.take(k + 1).last() == cycles@[k as int]);
        }
        if cycle.rate != 0 {
            let num = cycle.high - cycle.low + 1;
            let rate = cycle.rate / CYCLE_SPEED;
            let amount = calc_amount(rate, dt, num, cycle.reverse, cycle.wave.as_slice());
            palette_shift(palette.as_mut_slice(), cycle.low, cycle.high, amount, cycle.reverse == 2);
        }
        k += 1;
    }
    assert(cycles@.take(cycles@.len() as int) =~= cycles@);
}

} // verus!
