use crate::base::StaticImage;
use crate::shared::{
    animated_indices, apply_cycles, cycles_applied, find_palette, has_palette, markers_in_day,
    names_known, palettes_match, Color, ColorCycle, Marker, NamedPalette, TimelineData, DAY_SECS,
};
use vstd::prelude::*;

verus! {

/// Whether marker `i` is the latest one strictly before `t`: the first
/// marker of the schedule that has the largest time below `t`.
pub open spec fn is_latest_before(m: Seq<Marker>, t: int, i: int) -> bool {
    &&& 0 <= i < m.len()
    &&& m[i].at < t
    &&& forall|j: int| 0 <= j < m.len() && (#[trigger] m[j]).at < t ==> m[j].at <= m[i].at
    &&& forall|j: int| 0 <= j < i ==> (#[trigger] m[j]).at != m[i].at
}

/// Whether marker `i` is the earliest one strictly after `v`: the first
/// marker of the schedule that has the smallest time above `v`.
pub open spec fn is_earliest_after(m: Seq<Marker>, v: int, i: int) -> bool {
    &&& 0 <= i < m.len()
    &&& m[i].at > v
    &&& forall|j: int| 0 <= j < m.len() && (#[trigger] m[j]).at > v ==> m[i].at <= m[j].at
    &&& forall|j: int| 0 <= j < i ==> (#[trigger] m[j]).at != m[i].at
}

/// Whether marker `i` is the earliest of the day: the first marker of the
/// schedule that has the smallest time.
pub open spec fn is_earliest(m: Seq<Marker>, i: int) -> bool {
    &&& 0 <= i < m.len()
    &&& forall|j: int| 0 <= j < m.len() ==> m[i].at <= (#[trigger] m[j]).at
    &&& forall|j: int| 0 <= j < i ==> (#[trigger] m[j]).at != m[i].at
}

/// Whether marker `i` is the one in force at `t`: the latest marker before
/// `t`, or, where the day has none before `t`, the earliest of the day.
pub open spec fn is_current(m: Seq<Marker>, t: int, i: int) -> bool {
    ||| is_latest_before(m, t, i)
    ||| (forall|j: int| 0 <= j < m.len() ==> (#[trigger] m[j]).at >= t) && is_earliest(m, i)
}

/// Whether marker `i` follows a marker at `end`: the earliest marker after
/// `end`, or, where the day has none after `end`, the earliest of the day.
pub open spec fn is_following(m: Seq<Marker>, end: int, i: int) -> bool {
    ||| is_earliest_after(m, end, i)
    ||| (forall|j: int| 0 <= j < m.len() ==> (#[trigger] m[j]).at <= end) && is_earliest(m, i)
}

/// The marker in force at `t`.
pub open spec fn current_marker(m: Seq<Marker>, t: int) -> int {
    choose|i: int| is_current(m, t, i)
}

/// The marker that follows a marker at `end`.
pub open spec fn following_marker(m: Seq<Marker>, end: int) -> int {
    choose|i: int| is_following(m, end, i)
}

/// Only one marker is in force at a time.
pub proof fn lemma_current_is_unique(m: Seq<Marker>, t: int, i: int)
    requires
        is_current(m, t, i),
    ensures
        current_marker(m, t) == i,
{
    let c = current_marker(m, t);
    assert(is_current(m, t, c));
    if c < i {
        assert(m[c].at != m[i].at);
    } else if i < c {
        assert(m[i].at != m[c].at);
    }
}

/// Only one marker follows another.
pub proof fn lemma_following_is_unique(m: Seq<Marker>, end: int, i: int)
    requires
        is_following(m, end, i),
    ensures
        following_marker(m, end) == i,
{
    let c = following_marker(m, end);
    assert(is_following(m, end, c));
    if c < i {
        assert(m[c].at != m[i].at);
    } else if i < c {
        assert(m[i].at != m[c].at);
    }
}

/// Finds the latest marker strictly before `t`, if the schedule has one.
pub fn latest_before(markers: &[Marker], t: usize) -> (found: Option<usize>)
    ensures
        found matches Some(i) ==> is_latest_before(markers@, t as int, i as int),
        found is None ==> forall|j: int| 0 <= j < markers@.len() ==> (#[trigger] markers@[j]).at >= t,
{
    let mut best: Option<usize> = None;
    let mut k: usize = 0;
    while k < markers.len()
        invariant
            k <= markers@.len(),
            best matches Some(i) ==> is_latest_before(markers@.take(k as int), t as int, i as int),
            best is None ==> forall|j: int| 0 <= j < k ==> (#[trigger] markers@[j]).at >= t,
        decreases markers@.len() - k,
    {
        let at = markers[k].at;
        if at < t {
            let better = match best {
                Some(i) => markers[i].at < at,
                None => true,
            };
            if better {
                best = Some(k);
            }
        }
        k += 1;
    }
    assert(markers@.take(markers@.len() as int) =~= markers@);
    best
}

/// Finds the earliest marker strictly after `v`, if the schedule has one.
pub fn earliest_after(markers: &[Marker], v: usize) -> (found: Option<usize>)
    ensures
        found matches Some(i) ==> is_earliest_after(markers@, v as int, i as int),
        found is None ==> forall|j: int| 0 <= j < markers@.len() ==> (#[trigger] markers@[j]).at <= v,
{
    let mut best: Option<usize> = None;
    let mut k: usize = 0;
    while k < markers.len()
        invariant
            k <= markers@.len(),
            best matches Some(i) ==> is_earliest_after(markers@.take(k as int), v as int, i as int),
            best is None ==> forall|j: int| 0 <= j < k ==> (#[trigger] markers@[j]).at <= v,
        decreases markers@.len() - k,
    {
        let at = markers[k].at;
        if v < at {
            let better = match best {
                Some(i) => at < markers[i].at,
                None => true,
            };
            if better {
                best = Some(k);
            }
        }
        k += 1;
    }
    assert(markers@.take(markers@.len() as int) =~= markers@);
    best
}

/// Finds the earliest marker of the day.
pub fn earliest(markers: &[Marker]) -> (found: usize)
    requires
        markers@.len() > 0,
    ensures
        is_earliest(markers@, found as int),
{
    let mut best: usize = 0;
    let mut k: usize = 1;
    assert(is_earliest(markers@.take(1), 0));
    while k < markers.len()
        invariant
            1 <= k <= markers@.len(),
            is_earliest(markers@.take(k as int), best as int),
        decreases markers@.len() - k,
    {
        if markers[k].at < markers[best].at {
            best = k;
        }
        k += 1;
    }
    assert(markers@.take(markers@.len() as int) =~= markers@);
    best
}

/// The stretch of the day that a time falls into, as places in the
/// schedule: the marker in force, the marker that follows it, how far the
/// time lies past the first, and how far the second lies past the first.
/// Both distances are plain differences of seconds since midnight, so they
/// are negative where the schedule wraps around midnight.
#[derive(Copy, Clone, Debug, PartialEq, Eq, Structural)]
pub struct Window {
    pub current: usize,
    pub next: usize,
    pub offset: i64,
    pub size: i64,
}

/// The window of the schedule `m` at `time` seconds, counted from any
/// midnight.
pub open spec fn window_at(m: Seq<Marker>, time: int) -> Window {
    let t = time % (DAY_SECS as int);
    let current = current_marker(m, t);
    let next = following_marker(m, m[current].at as int);
    Window {
        current: current as usize,
        next: next as usize,
        offset: (t - m[current].at) as i64,
        size: (m[next].at - m[current].at) as i64,
    }
}

/// Resolves the window of the schedule at `time` seconds, counted from any
/// midnight.
pub fn resolve_window(markers: &[Marker], time: usize) -> (w: Window)
    requires
        markers@.len() > 0,
        markers_in_day(markers@),
    ensures
        w == window_at(markers@, time as int),
        is_current(markers@, time as int % (DAY_SECS as int), w.current as int),
        is_following(markers@, markers@[w.current as int].at as int, w.next as int),
        w.offset == time as int % (DAY_SECS as int) - markers@[w.current as int].at,
        w.size == markers@[w.next as int].at - markers@[w.current as int].at,
{
    let t = time % DAY_SECS;
    let current = match latest_before(markers, t) {
        Some(i) => i,
        None => earliest(markers),
    };
    let end = markers[current].at;
    let next = match earliest_after(markers, end) {
        Some(i) => i,
        None => earliest(markers),
    };
    let next_end = markers[next].at;
    proof {
        lemma_current_is_unique(markers@, t as int, current as int);
        lemma_following_is_unique(markers@, end as int, next as int);
    }
    Window {
        current,
        next,
        offset: t as i64 - end as i64,
        size: next_end as i64 - end as i64,
    }
}

/// One channel of a color on its way from `start` to `end`, at the
/// fraction `offset / size` of the way: `start + (end - start) * offset /
/// size`, cut down to a whole number and kept within 0 to 255. A `size` of 0
/// counts as the fraction 0.
pub open spec fn fade_channel(start: int, end: int, offset: int, size: int) -> int {
    if size == 0 {
        start
    } else {
        let num = if size > 0 {
            (end - start) * offset
        } else {
            -((end - start) * offset)
        };
        let den = if size > 0 {
            size
        } else {
            -size
        };
        let value = start + num / den;
        if value < 0 {
            0
        } else if value > 255 {
            255
        } else {
            value
        }
    }
}

/// A color on its way from `start` to `end`, each channel by itself.
pub open spec fn faded_color(start: Color, end: Color, offset: int, size: int) -> Color {
    Color {
        r: fade_channel(start.r as int, end.r as int, offset, size) as u8,
        g: fade_channel(start.g as int, end.g as int, offset, size) as u8,
        b: fade_channel(start.b as int, end.b as int, offset, size) as u8,
    }
}

/// A palette on its way from `p` to `next`, each color by itself.
pub open spec fn faded(p: Seq<Color>, next: Seq<Color>, offset: int, size: int) -> Seq<Color> {
    Seq::new(p.len(), |i: int| faded_color(p[i], next[i], offset, size))
}

/// Dividing a negative number rounds down: it is the negated quotient of
/// the magnitude, rounded up.
proof fn lemma_div_of_negative(a: int, b: int)
    requires
        a > 0,
        b > 0,
    ensures
        (-a) / b == -((a + b - 1) / b),
{
    let q = (a + b - 1) / b;
    let r = (a + b - 1) % b;
    vstd::arithmetic::div_mod::lemma_fundamental_div_mod(a + b - 1, b);
    vstd::arithmetic::div_mod::lemma_mod_bound(a + b - 1, b);
    assert(-a == (-q) * b + (b - 1 - r)) by (nonlinear_arith)
        requires
            a + b - 1 == b * q + r,
    ;
    vstd::arithmetic::div_mod::lemma_fundamental_div_mod_converse(-a, b, -q, b - 1 - r);
}

/// Fades one channel.
fn fade_one(start: u8, end: u8, offset: i64, size: i64) -> (value: u8)
    ensures
        value == fade_channel(start as int, end as int, offset as int, size as int),
{
    if size == 0 {
        return start;
    }
    let diff: i128 = end as i128 - start as i128;
    assert(-255 * 0x8000_0000_0000_0000 <= diff * offset <= 255 * 0x8000_0000_0000_0000)
        by (nonlinear_arith)
        requires
            -255 <= diff <= 255,
            -0x8000_0000_0000_0000 <= offset < 0x8000_0000_0000_0000,
    ;
    let mut num: i128 = diff * (offset as i128);
    let mut den: i128 = size as i128;
    if den < 0 {
        num = -num;
        den = -den;
    }
    let step: i128 = if num >= 0 {
        ((num as u128) / (den as u128)) as i128
    } else {
        proof {
            lemma_div_of_negative(-num as int, den as int);
        }
        -((((-num) as u128 + den as u128 - 1) / (den as u128)) as i128)
    };
    let value: i128 = start as i128 + step;
    if value < 0 {
        0
    } else if value > 255 {
        255
    } else {
        value as u8
    }
}

/// The time of day that an image has settled on: the palette in force, how
/// far the time lies past the marker of that palette, how far the next
/// marker lies past it, and the palette of the next marker, towards which
/// the first is faded.
pub struct TodData {
    pub palette: Vec<Color>,
    pub offset: i64,
    pub size: i64,
    pub next: Option<Vec<Color>>,
}

/// What a [`TodData`] holds, as plain values.
pub struct TodModel {
    pub palette: Seq<Color>,
    pub offset: int,
    pub size: int,
    pub next: Option<Seq<Color>>,
}

impl View for TodData {
    type V = TodModel;

    open spec fn view(&self) -> TodModel {
        TodModel {
            palette: self.palette@,
            offset: self.offset as int,
            size: self.size as int,
            next: match self.next {
                Some(n) => Some(n@),
                None => None,
            },
        }
    }
}

/// The place of the first palette of the table under `name`.
pub open spec fn first_named(palettes: Seq<NamedPalette>, name: Seq<char>) -> int {
    choose|i: int|
        0 <= i < palettes.len() && palettes[i].name@ == name && forall|j: int|
            0 <= j < i ==> (#[trigger] palettes[j]).name@ != name
}

/// The colors of the first palette of the table under `name`.
pub open spec fn palette_named(palettes: Seq<NamedPalette>, name: Seq<char>) -> Seq<Color> {
    palettes[first_named(palettes, name)].data.colors@
}

/// The state of the day at `time`. Without a time it is the base palette,
/// not faded towards any other. With one it is the palette of the marker in
/// force, faded towards the palette of the marker that follows, by how far
/// the time of day has moved from the one to the other.
pub open spec fn state_at(
    base: Seq<Color>,
    palettes: Seq<NamedPalette>,
    timeline: Seq<Marker>,
    time: Option<usize>,
) -> TodModel {
    match time {
        None => TodModel { palette: base, offset: 1, size: 1, next: None },
        Some(t) => {
            let w = window_at(timeline, t as int);
            TodModel {
                palette: palette_named(palettes, timeline[w.current as int].name@),
                offset: w.offset as int,
                size: w.size as int,
                next: Some(palette_named(palettes, timeline[w.next as int].name@)),
            }
        },
    }
}

/// The palette of a state of the day before any cycle has moved it: the
/// palette in force, faded towards the next one where there is a next one.
pub open spec fn blended(state: TodModel) -> Seq<Color> {
    match state.next {
        Some(next) => faded(state.palette, next, state.offset, state.size),
        None => state.palette,
    }
}

/// An indexed image whose palette follows the time of day and is animated
/// by the cycles of its base image.
pub struct TimelineImage {
    base: StaticImage,
    palettes: Vec<NamedPalette>,
    timeline: Vec<Marker>,
    tod: Option<TodData>,
}

impl TimelineImage {
    /// The table and the schedule are sound, and a settled state holds
    /// palettes of the base palette's length.
    #[verifier::type_invariant]
    spec fn inv(self) -> bool {
        &&& palettes_match(self.palettes@, self.base.palette().len() as int)
        &&& self.timeline@.len() > 0
        &&& markers_in_day(self.timeline@)
        &&& names_known(self.timeline@, self.palettes@)
        &&& self.tod matches Some(d) ==> {
            &&& d.palette@.len() == self.base.palette().len()
            &&& d.next matches Some(n) ==> n@.len() == self.base.palette().len()
        }
    }

    /// The base image.
    pub closed spec fn base_image(&self) -> StaticImage {
        self.base
    }

    /// The table of named palettes.
    pub closed spec fn table(&self) -> Seq<NamedPalette> {
        self.palettes@
    }

    /// The schedule of the day.
    pub closed spec fn schedule(&self) -> Seq<Marker> {
        self.timeline@
    }

    /// The state of the day that the image has settled on, if it has.
    pub closed spec fn settled(&self) -> Option<TodModel> {
        match self.tod {
            Some(d) => Some(d@),
            None => None,
        }
    }

    /// The state of the day that a frame at `time` is drawn with: the one
    /// the image has settled on, or else the one of `time`.
    pub open spec fn state(&self, time: Option<usize>) -> TodModel {
        match self.settled() {
            Some(s) => s,
            None => state_at(self.base_image().palette(), self.table(), self.schedule(), time),
        }
    }

    /// Builds the image from its description. It has not settled on a time
    /// of day yet.
    pub fn from_data(data: TimelineData) -> (img: Self)
        requires
            data.wf(),
        ensures
            img.base_image().palette() == data.base.colors@,
            img.base_image().cycle_list() == data.base.cycles@,
            img.size() == (data.base.width, data.base.height),
            img.indices() == data.base.pixels@,
            img.animated() == animated_indices(data.base.cycles@),
            img.table() == data.palettes@,
            img.schedule() == data.timeline@,
            img.settled() is None,
    {
        Self {
            base: StaticImage::from_data(data.base),
            palettes: data.palettes,
            timeline: data.timeline,
            tod: None,
        }
    }

    /// Fades a color from `start` towards `end` by the fraction `offset /
    /// size`.
    pub fn fade_color(start: &Color, end: &Color, offset: i64, size: i64) -> (color: Color)
        ensures
            color == faded_color(*start, *end, offset as int, size as int),
    {
        Color {
            r: fade_one(start.r, end.r, offset, size),
            g: fade_one(start.g, end.g, offset, size),
            b: fade_one(start.b, end.b, offset, size),
        }
    }

    /// Copies the colors of the palette that marker `k` names.
    fn palette_of(&self, k: usize) -> (colors: Vec<Color>)
        requires
            k < self.schedule().len(),
        ensures
            colors@ == palette_named(self.table(), self.schedule()[k as int].name@),
            colors@.len() == self.base_image().palette().len(),
    {
        proof {
            use_type_invariant(self);
        }
        assert(has_palette(self.palettes@, self.timeline@[k as int].name@));
        match find_palette(self.palettes.as_slice(), &self.timeline[k].name) {
            Some(i) => self.palettes[i].data.colors.clone(),
            None => Vec::new(),
        }
    }

    /// Resolves the state of the day at `time`, whatever the image has
    /// settled on.
    pub fn resolve(&self, time: Option<usize>) -> (state: TodData)
        ensures
            state@ == state_at(self.base_image().palette(), self.table(), self.schedule(), time),
            state.palette@.len() == self.base_image().palette().len(),
            state.next matches Some(n) ==> n@.len() == self.base_image().palette().len(),
    {
        proof {
            use_type_invariant(self);
        }
        match time {
            Some(t) => {
                let w = resolve_window(self.timeline.as_slice(), t);
                TodData {
                    palette: self.palette_of(w.current),
                    offset: w.offset,
                    size: w.size,
                    next: Some(self.palette_of(w.next)),
                }
            },
            None => TodData {
                palette: vstd::slice::slice_to_vec(self.base.get_palette()),
                offset: 1,
                size: 1,
                next: None,
            },
        }
    }

    /// Gives the palette in force at `time`, before fading. The first time
    /// of day that the image is given settles the state of the day for good:
    /// every later call gives the palette of that state, whatever its `time`.
    pub fn get_palette(&mut self, time: Option<usize>) -> (palette: &[Color])
        ensures
            palette@ == old(self).state(time).palette,
            final(self).settled() == (if old(self).settled() is None && time is Some {
                Some(old(self).state(time))
            } else {
                old(self).settled()
            }),
            final(self).base_image() == old(self).base_image(),
            final(self).table() == old(self).table(),
            final(self).schedule() == old(self).schedule(),
    {
        proof {
            use_type_invariant(&*self);
        }
        if self.tod.is_none() && time.is_some() {
            let state = self.resolve(time);
            self.tod = Some(state);
        }
        match &self.tod {
            Some(d) => d.palette.as_slice(),
            None => self.base.get_palette(),
        }
    }
}

impl ColorCycle for TimelineImage {
    open spec fn size(&self) -> (u32, u32) {
        self.base_image().size()
    }

    open spec fn indices(&self) -> Seq<usize> {
        self.base_image().indices()
    }

    open spec fn animated(&self) -> Seq<usize> {
        self.base_image().animated()
    }

    open spec fn palette_len(&self) -> nat {
        self.base_image().palette_len()
    }

    open spec fn frame(&self, time: Option<usize>, dt: usize) -> Seq<Color> {
        cycles_applied(blended(self.state(time)), self.base_image().cycle_list(), dt as int)
    }

    fn get_size(&self) -> (size: (u32, u32)) {
        self.base.get_size()
    }

    fn get_indices(&self) -> (indices: &[usize]) {
        self.base.get_indices()
    }

    fn get_animated_indices(&self) -> (indices: &[usize])
        ensures
            indices@ == animated_indices(self.base_image().cycle_list()),
    {
        self.base.get_animated_indices()
    }

    /// Takes the palette in force, fades it towards the next one, and
    /// lets the cycles of the base image run on the result.
    fn cycle(&mut self, time: Option<usize>, dt: usize) -> (palette: Vec<Color>) {
        let mut palette = vstd::slice::slice_to_vec(self.get_palette(time));
        proof {
            use_type_invariant(&*self);
        }
        if let Some(data) = &self.tod {
            if let Some(next_pal) = &data.next {
                let ghost start = palette@;
                let mut idx: usize = 0;
                while idx < palette.len()
                    invariant
                        idx <= palette@.len(),
                        palette@.len() == start.len() == next_pal@.len(),
                        forall|i: int|
                            0 <= i < idx ==> palette@[i] == faded_color(
                                start[i],
                                next_pal@[i],
                                data.offset as int,
                                data.size as int,
                            ),
                        forall|i: int| idx <= i < palette@.len() ==> palette@[i] == start[i],
                    decreases palette@.len() - idx,
                {
                    palette[idx] = Self::fade_color(
                        &palette[idx],
                        &next_pal[idx],
                        data.offset,
                        data.size,
                    );
                    idx += 1;
                }
                assert(palette@ =~= faded(
                    start,
                    next_pal@,
                    data.offset as int,
                    data.size as int,
                ));
            }
        }
        apply_cycles(&mut palette, self.base.get_cycles(), dt);
        palette
    }
}

} // verus!
