use vstd::prelude::*;

verus! {

/// Neutral bend value of the R and G channels (no bend along that axis).
pub const NEUTRAL_BEND: u8 = 128;

/// The resting value of byte `i` of the RGBA buffer: R and G rest at 128
/// (no bend), B (flatten) and A (hide) rest at 0.
pub open spec fn neutral_byte(i: int) -> u8 {
    if i % 4 < 2 {
        128u8
    } else {
        0u8
    }
}

/// Byte count of a `res`×`res` RGBA buffer.
pub open spec fn map_len(res: int) -> int {
    res * res * 4
}

/// A buffer in which every pixel is at rest.
pub open spec fn is_neutral(s: Seq<u8>) -> bool {
    forall|i: int| 0 <= i < s.len() ==> #[trigger] s[i] == neutral_byte(i)
}

/// Byte `i` after the map content moves by `(sx, sy)` pixels: the pixel at
/// `(x, y)` takes the one at `(x + sx, y + sy)`, or rests if that lies outside.
pub open spec fn shifted_byte(s: Seq<u8>, res: int, sx: int, sy: int, i: int) -> u8 {
    let p = i / 4;
    let x = p % res + sx;
    let y = p / res + sy;
    if 0 <= x < res && 0 <= y < res {
        s[(y * res + x) * 4 + i % 4]
    } else {
        neutral_byte(i)
    }
}

/// The whole buffer after a shift by `(sx, sy)` pixels.
pub open spec fn shifted(s: Seq<u8>, res: int, sx: int, sy: int) -> Seq<u8> {
    Seq::new(s.len(), |i: int| shifted_byte(s, res, sx, sy, i))
}

/// Byte `i` after one decay step: R and G follow `toward_neutral`, B follows
/// `toward_zero`, and A follows `toward_zero` unless it holds the permanent value 255.
pub open spec fn decayed_byte(v: u8, i: int, toward_neutral: Seq<u8>, toward_zero: Seq<u8>) -> u8 {
    if i % 4 < 2 {
        toward_neutral[v as int]
    } else if i % 4 == 2 {
        toward_zero[v as int]
    } else if v < 255 {
        toward_zero[v as int]
    } else {
        v
    }
}

/// The whole buffer after one decay step.
pub open spec fn decayed(s: Seq<u8>, toward_neutral: Seq<u8>, toward_zero: Seq<u8>) -> Seq<u8> {
    Seq::new(s.len(), |i: int| decayed_byte(s[i], i, toward_neutral, toward_zero))
}

/// Distance of a bend byte from the neutral value 128.
pub open spec fn bend_strength(v: u8) -> int {
    if v >= 128 {
        v - 128
    } else {
        128 - v
    }
}

/// Strongest-wins blend of a bend byte: the candidate replaces the current
/// value only when it bends strictly further from neutral.
pub open spec fn blend_bend(current: u8, candidate: u8) -> u8 {
    if bend_strength(candidate) > bend_strength(current) {
        candidate
    } else {
        current
    }
}

/// Max blend used by the flatten and hide channels.
pub open spec fn blend_max(current: u8, candidate: u8) -> u8 {
    if candidate > current {
        candidate
    } else {
        current
    }
}

/// How far byte `i` holding `v` is from its resting value: the bend distance
/// from 128 for R and G, the amount itself for B and A.
pub open spec fn distance_from_rest(v: u8, i: int) -> int {
    if i % 4 < 2 {
        bend_strength(v)
    } else {
        v as int
    }
}

/// Decay tables that never move a value away from rest: `toward_neutral` never
/// bends further from 128, `toward_zero` never grows.
pub open spec fn tables_toward_rest(toward_neutral: Seq<u8>, toward_zero: Seq<u8>) -> bool {
    &&& toward_neutral.len() == 256
    &&& toward_zero.len() == 256
    &&& forall|v: u8| #[trigger] bend_strength(toward_neutral[v as int]) <= bend_strength(v)
    &&& forall|v: u8| #[trigger] toward_zero[v as int] <= v
}

/// Index of channel `c` of pixel `(x, y)`.
pub open spec fn texel_index(res: int, x: int, y: int, c: int) -> int {
    (y * res + x) * 4 + c
}

proof fn lemma_texel_in_bounds(res: int, x: int, y: int, c: int)
    requires
        0 <= x < res,
        0 <= y < res,
        0 <= c < 4,
    ensures
        0 <= texel_index(res, x, y, c) < map_len(res),
        texel_index(res, x, y, c) % 4 == c,
{
    assert(0 <= y * res + x < res * res) by (nonlinear_arith)
        requires
            0 <= x < res,
            0 <= y < res,
    ;
    assert(map_len(res) == (res * res) * 4) by (nonlinear_arith);
}

proof fn lemma_byte_coords(res: int, i: int)
    requires
        0 < res,
        0 <= i < map_len(res),
    ensures
        0 <= (i / 4) % res < res,
        0 <= (i / 4) / res < res,
        0 <= i % 4 < 4,
        texel_index(res, (i / 4) % res, (i / 4) / res, i % 4) == i,
{
    let p = i / 4;
    assert(0 <= p < res * res) by (nonlinear_arith)
        requires
            0 <= i < res * res * 4,
            p == i / 4,
    ;
    vstd::arithmetic::div_mod::lemma_fundamental_div_mod(p, res);
    vstd::arithmetic::div_mod::lemma_mod_pos_bound(p, res);
    vstd::arithmetic::div_mod::lemma_div_pos_is_pos(p, res);
    vstd::arithmetic::div_mod::lemma_multiply_divide_lt(p, res, res);
}

proof fn lemma_res_small(res: int)
    requires
        0 <= res,
        map_len(res) <= u32::MAX,
    ensures
        res < 32768,
{
    if res >= 32768 {
        assert(res * res * 4 >= 32768 * 32768 * 4) by (nonlinear_arith)
            requires
                res >= 32768,
        ;
    }
}

/// The CPU side pixel buffer of the interaction map: `resolution`² RGBA texels,
/// R = bend along X, G = bend along Z (128 = neutral), B = flatten, A = hide.
pub struct InteractionMapState {
    data: Vec<u8>,
    resolution: u32,
}

impl InteractionMapState {
    /// The RGBA bytes of the buffer.
    pub closed spec fn bytes(self) -> Seq<u8> {
        self.data@
    }

    /// The width (and height) of the buffer in texels.
    pub closed spec fn res(self) -> int {
        self.resolution as int
    }

    /// The buffer holds exactly `res`² RGBA texels.
    pub closed spec fn wf(self) -> bool {
        &&& self.data@.len() == map_len(self.resolution as int)
        &&& map_len(self.resolution as int) <= u32::MAX
    }

    /// A well-formed buffer holds exactly `res`² RGBA texels, that is
    /// `res * res * 4` bytes, and that count fits in a `u32`.
    pub proof fn lemma_buffer_length(self)
        requires
            self.wf(),
        ensures
            self.bytes().len() == map_len(self.res()),
            map_len(self.res()) <= u32::MAX,
    {
    }

    /// A fully neutral buffer of `resolution`² texels.
    pub fn new(resolution: u32) -> (state: Self)
        requires
            map_len(resolution as int) <= u32::MAX,
        ensures
            state.wf(),
            state.res() == resolution,
            state.bytes().len() == map_len(resolution as int),
            is_neutral(state.bytes()),
    {
        let size = resolution * resolution * 4;
        let mut data: Vec<u8> = Vec::new();
        let mut i: u32 = 0;
        while i < size
            invariant
                size == map_len(resolution as int),
                i <= size,
                data@.len() == i,
                is_neutral(data@),
            decreases size - i,
        {
            if i % 4 < 2 {
                data.push(NEUTRAL_BEND);
            } else {
                data.push(0);
            }
            i = i + 1;
        }
        InteractionMapState { data, resolution }
    }

    /// Width (and height) of the map in texels.
    pub fn resolution(&self) -> (r: u32)
        ensures
            r == self.res(),
    {
        self.resolution
    }

    /// The RGBA bytes, ready for upload to the GPU texture.
    pub fn data(&self) -> (d: &Vec<u8>)
        ensures
            d@ == self.bytes(),
            self.wf() ==> d@.len() == map_len(self.res()),
    {
        &self.data
    }

    /// Moves the map content by `(shift_x, shift_y)` texels when the map
    /// center moves: texels that scroll out are lost and new ones enter at rest.
    /// A shift of a full map width or more resets the whole map.
    pub fn shift(&mut self, shift_x: i32, shift_y: i32)
        requires
            old(self).wf(),
        ensures
            final(self).wf(),
            final(self).res() == old(self).res(),
            final(self).bytes() == shifted(
                old(self).bytes(),
                old(self).res(),
                shift_x as int,
                shift_y as int,
            ),
    {
        let res = self.resolution as usize;
        let len = self.data.len();
        let ghost s = self.data@;
        let ghost r = res as int;
        let abs_x: u32 = if shift_x < 0 { (0 - (shift_x as i64)) as u32 } else { shift_x as u32 };
        let abs_y: u32 = if shift_y < 0 { (0 - (shift_y as i64)) as u32 } else { shift_y as u32 };
        if abs_x as usize >= res || abs_y as usize >= res {
            let mut i: usize = 0;
            while i < len
                invariant
                    len == self.data@.len(),
                    len == s.len(),
                    self.resolution == res,
                    self.wf(),
                    r == res,
                    0 <= i <= len,
                    abs_x as usize >= res || abs_y as usize >= res,
                    abs_x == (if shift_x < 0 { -shift_x } else { shift_x as int }),
                    abs_y == (if shift_y < 0 { -shift_y } else { shift_y as int }),
                    forall|k: int| 0 <= k < i ==> #[trigger] self.data@[k] == shifted_byte(
                        s,
                        r,
                        shift_x as int,
                        shift_y as int,
                        k,
                    ),
                decreases len - i,
            {
                proof {
                    lemma_byte_coords(r, i as int);
                }
                if i % 4 < 2 {
                    self.data.set(i, NEUTRAL_BEND);
                } else {
                    self.data.set(i, 0);
                }
                i = i + 1;
            }
            proof {
                assert(self.data@ =~= shifted(s, r, shift_x as int, shift_y as int));
            }
            return;
        }
        proof {
            lemma_res_small(r);
        }
        let mut temp: Vec<u8> = Vec::new();
        let mut i: usize = 0;
        while i < len
            invariant
                len == self.data@.len(),
                len == s.len(),
                self.data@ == s,
                self.resolution == res,
                self.wf(),
                r == res,
                0 < r < 32768,
                abs_x < res,
                abs_y < res,
                abs_x == (if shift_x < 0 { -shift_x } else { shift_x as int }),
                abs_y == (if shift_y < 0 { -shift_y } else { shift_y as int }),
                0 <= i <= len,
                temp@.len() == i,
                forall|k: int| 0 <= k < i ==> #[trigger] temp@[k] == shifted_byte(
                    s,
                    r,
                    shift_x as int,
                    shift_y as int,
                    k,
                ),
            decreases len - i,
        {
            proof {
                lemma_byte_coords(r, i as int);
            }
            let c = i % 4;
            let p = i / 4;
            let x = (p % res) as i32;
            let y = (p / res) as i32;
            let src_x = x + shift_x;
            let src_y = y + shift_y;
            if src_x >= 0 && (src_x as usize) < res && src_y >= 0 && (src_y as usize) < res {
                proof {
                    lemma_texel_in_bounds(r, src_x as int, src_y as int, c as int);
                }
                let src = ((src_y as usize) * res + (src_x as usize)) * 4 + c;
                temp.push(self.data[src]);
            } else if c < 2 {
                temp.push(NEUTRAL_BEND);
            } else {
                temp.push(0);
            }
            i = i + 1;
        }
        proof {
            assert(temp@ =~= shifted(s, r, shift_x as int, shift_y as int));
        }
        self.data = temp;
    }

    /// One decay step toward rest. `toward_neutral[v]` is the new value of an
    /// R or G byte holding `v`; `toward_zero[v]` that of a B byte, and of an A
    /// byte below 255 (255 marks a permanent cut and never decays).
    pub fn decay(&mut self, toward_neutral: &[u8], toward_zero: &[u8])
        requires
            old(self).wf(),
            toward_neutral@.len() == 256,
            toward_zero@.len() == 256,
        ensures
            final(self).wf(),
            final(self).res() == old(self).res(),
            final(self).bytes() == decayed(old(self).bytes(), toward_neutral@, toward_zero@),
            final(self).bytes().len() == old(self).bytes().len(),
            forall|i: int|
                0 <= i < old(self).bytes().len() && i % 4 < 2 ==> #[trigger] final(self).bytes()[i]
                    == toward_neutral@[old(self).bytes()[i] as int],
            forall|i: int|
                0 <= i < old(self).bytes().len() && i % 4 == 2 ==> #[trigger] final(self).bytes()[i]
                    == toward_zero@[old(self).bytes()[i] as int],
            forall|i: int|
                0 <= i < old(self).bytes().len() && i % 4 == 3 && old(self).bytes()[i] < 255
                    ==> #[trigger] final(self).bytes()[i] == toward_zero@[old(self).bytes()[i] as int],
            forall|i: int|
                0 <= i < old(self).bytes().len() && i % 4 == 3 && old(self).bytes()[i] == 255
                    ==> #[trigger] final(self).bytes()[i] == 255,
    {
        let len = self.data.len();
        let ghost s = self.data@;
        let mut i: usize = 0;
        while i < len
            invariant
                len == s.len(),
                self.data@.len() == len,
                self.resolution == old(self).resolution,
                s == old(self).data@,
                old(self).wf(),
                toward_neutral@.len() == 256,
                toward_zero@.len() == 256,
                0 <= i <= len,
                forall|k: int|
                    0 <= k < i ==> #[trigger] self.data@[k] == decayed_byte(
                        s[k],
                        k,
                        toward_neutral@,
                        toward_zero@,
                    ),
                forall|k: int| i <= k < len ==> #[trigger] self.data@[k] == s[k],
            decreases len - i,
        {
            let v = self.data[i];
            let channel = i % 4;
            if channel < 2 {
                self.data.set(i, toward_neutral[v as usize]);
            } else if channel == 2 || v < 255 {
                self.data.set(i, toward_zero[v as usize]);
            }
            proof {
                assert(self.data@[i as int] == decayed_byte(s[i as int], i as int, toward_neutral@, toward_zero@));
            }
            i = i + 1;
        }
        proof {
            assert(self.data@ =~= decayed(s, toward_neutral@, toward_zero@));
        }
    }

    /// Stamps a bend into texel `(px, py)`: each of R and G takes the
    /// candidate value only if it bends further from neutral than the current one.
    pub fn stamp_bend(&mut self, px: usize, py: usize, bend_x: u8, bend_z: u8)
        requires
            old(self).wf(),
            px < old(self).res(),
            py < old(self).res(),
        ensures
            final(self).wf(),
            final(self).res() == old(self).res(),
            final(self).bytes() == old(self).bytes().update(
                texel_index(old(self).res(), px as int, py as int, 0),
                blend_bend(old(self).bytes()[texel_index(old(self).res(), px as int, py as int, 0)], bend_x),
            ).update(
                texel_index(old(self).res(), px as int, py as int, 1),
                blend_bend(old(self).bytes()[texel_index(old(self).res(), px as int, py as int, 1)], bend_z),
            ),
    {
        let res = self.resolution as usize;
        proof {
            lemma_texel_in_bounds(res as int, px as int, py as int, 0);
            lemma_texel_in_bounds(res as int, px as int, py as int, 1);
        }
        let idx = (py * res + px) * 4;
        let existing_x = self.data[idx];
        if strength_of(bend_x) > strength_of(existing_x) {
            self.data.set(idx, bend_x);
        }
        let existing_z = self.data[idx + 1];
        if strength_of(bend_z) > strength_of(existing_z) {
            self.data.set(idx + 1, bend_z);
        }
    }

    /// Stamps a flatten amount into texel `(px, py)`: B keeps the larger value.
    pub fn stamp_flatten(&mut self, px: usize, py: usize, flatten: u8)
        requires
            old(self).wf(),
            px < old(self).res(),
            py < old(self).res(),
        ensures
            final(self).wf(),
            final(self).res() == old(self).res(),
            final(self).bytes() == old(self).bytes().update(
                texel_index(old(self).res(), px as int, py as int, 2),
                blend_max(old(self).bytes()[texel_index(old(self).res(), px as int, py as int, 2)], flatten),
            ),
    {
        let res = self.resolution as usize;
        proof {
            lemma_texel_in_bounds(res as int, px as int, py as int, 2);
        }
        let idx = (py * res + px) * 4 + 2;
        let existing = self.data[idx];
        if flatten > existing {
            self.data.set(idx, flatten);
        }
    }

    /// Stamps a hide amount into texel `(px, py)`: A keeps the larger value.
    pub fn stamp_hide(&mut self, px: usize, py: usize, hide: u8)
        requires
            old(self).wf(),
            px < old(self).res(),
            py < old(self).res(),
        ensures
            final(self).wf(),
            final(self).res() == old(self).res(),
            final(self).bytes() == old(self).bytes().update(
                texel_index(old(self).res(), px as int, py as int, 3),
                blend_max(old(self).bytes()[texel_index(old(self).res(), px as int, py as int, 3)], hide),
            ),
    {
        let res = self.resolution as usize;
        proof {
            lemma_texel_in_bounds(res as int, px as int, py as int, 3);
        }
        let idx = (py * res + px) * 4 + 3;
        let existing = self.data[idx];
        if hide > existing {
            self.data.set(idx, hide);
        }
    }
}

/// Distance of a bend byte from neutral, computed.
fn strength_of(v: u8) -> (d: u8)
    ensures
        d == bend_strength(v),
{
    if v >= 128 {
        v - 128
    } else {
        128 - v
    }
}


/// A shift by zero texels leaves every texel of the map as it was.
pub proof fn lemma_shift_by_zero_is_identity(s: Seq<u8>, res: int)
    requires
        0 < res,
        s.len() == map_len(res),
    ensures
        shifted(s, res, 0, 0) == s,
{
    assert forall|i: int| 0 <= i < s.len() implies #[trigger] shifted(s, res, 0, 0)[i] == s[i] by {
        lemma_byte_coords(res, i);
    }
    assert(shifted(s, res, 0, 0) =~= s);
}

/// When the map moves by a full width or more, nothing stays in view and the
/// whole map comes back at rest.
pub proof fn lemma_shift_out_of_view_resets(s: Seq<u8>, res: int, sx: int, sy: int)
    requires
        0 < res,
        s.len() == map_len(res),
        sx >= res || sx <= -res || sy >= res || sy <= -res,
    ensures
        is_neutral(shifted(s, res, sx, sy)),
{
    assert forall|i: int| 0 <= i < s.len() implies #[trigger] shifted(s, res, sx, sy)[i]
        == neutral_byte(i) by {
        lemma_byte_coords(res, i);
    }
}

/// A map at rest stays at rest however far it is shifted.
pub proof fn lemma_shift_keeps_rest(s: Seq<u8>, res: int, sx: int, sy: int)
    requires
        0 < res,
        s.len() == map_len(res),
        is_neutral(s),
    ensures
        is_neutral(shifted(s, res, sx, sy)),
{
    assert forall|i: int| 0 <= i < s.len() implies #[trigger] shifted(s, res, sx, sy)[i]
        == neutral_byte(i) by {
        lemma_byte_coords(res, i);
        let p = i / 4;
        let x = p % res + sx;
        let y = p / res + sy;
        if 0 <= x < res && 0 <= y < res {
            lemma_texel_in_bounds(res, x, y, i % 4);
            assert(s[texel_index(res, x, y, i % 4)] == neutral_byte(texel_index(res, x, y, i % 4)));
        }
    }
}

/// One decay step, channel by channel: the bend bytes R and G are looked up in
/// `toward_neutral`, the flatten byte B in `toward_zero`, and a hide byte A in
/// `toward_zero` whenever it is below 255 (a non-permanent hide fades like
/// flatten does); only the permanent value 255 is left as it is. The length of
/// the buffer does not change.
pub proof fn lemma_decay_per_channel(s: Seq<u8>, toward_neutral: Seq<u8>, toward_zero: Seq<u8>, i: int)
    requires
        0 <= i < s.len(),
        toward_neutral.len() == 256,
        toward_zero.len() == 256,
    ensures
        decayed(s, toward_neutral, toward_zero).len() == s.len(),
        i % 4 == 0 || i % 4 == 1 ==> decayed(s, toward_neutral, toward_zero)[i] == toward_neutral[s[i] as int],
        i % 4 == 2 ==> decayed(s, toward_neutral, toward_zero)[i] == toward_zero[s[i] as int],
        i % 4 == 3 && s[i] < 255 ==> decayed(s, toward_neutral, toward_zero)[i] == toward_zero[s[i] as int],
        i % 4 == 3 && s[i] == 255 ==> decayed(s, toward_neutral, toward_zero)[i] == 255,
{
}

/// A texel cut permanently (hide value 255) is never restored by decay.
pub proof fn lemma_permanent_hide_survives_decay(
    s: Seq<u8>,
    toward_neutral: Seq<u8>,
    toward_zero: Seq<u8>,
    i: int,
)
    requires
        0 <= i < s.len(),
        i % 4 == 3,
        s[i] == 255,
    ensures
        decayed(s, toward_neutral, toward_zero)[i] == 255,
{
}

/// When the decay tables leave the rest values in place (neutral 128 for bend,
/// 0 for flatten and hide), a map at rest stays at rest under decay.
pub proof fn lemma_decay_keeps_rest(s: Seq<u8>, toward_neutral: Seq<u8>, toward_zero: Seq<u8>)
    requires
        toward_neutral.len() == 256,
        toward_zero.len() == 256,
        toward_neutral[128] == 128,
        toward_zero[0] == 0,
        is_neutral(s),
    ensures
        is_neutral(decayed(s, toward_neutral, toward_zero)),
{
    assert forall|i: int| 0 <= i < s.len() implies #[trigger] decayed(s, toward_neutral, toward_zero)[i]
        == neutral_byte(i) by {
        assert(s[i] == neutral_byte(i));
    }
}

/// With decay tables that move toward rest, one decay step leaves every byte of
/// the map at most as far from rest as it was.
pub proof fn lemma_decay_moves_toward_rest(s: Seq<u8>, toward_neutral: Seq<u8>, toward_zero: Seq<u8>)
    requires
        tables_toward_rest(toward_neutral, toward_zero),
    ensures
        forall|i: int|
            0 <= i < s.len() ==> #[trigger] distance_from_rest(decayed(s, toward_neutral, toward_zero)[i], i)
                <= distance_from_rest(s[i], i),
{
    assert forall|i: int| 0 <= i < s.len() implies #[trigger] distance_from_rest(
        decayed(s, toward_neutral, toward_zero)[i],
        i,
    ) <= distance_from_rest(s[i], i) by {
        let v = s[i];
        assert(bend_strength(toward_neutral[v as int]) <= bend_strength(v));
        assert(toward_zero[v as int] <= v);
    }
}

/// Stamping the same bend twice has the effect of stamping it once, and a
/// stamp never brings a texel closer to neutral.
pub proof fn lemma_bend_stamp_idempotent_and_monotone(current: u8, candidate: u8)
    ensures
        blend_bend(blend_bend(current, candidate), candidate) == blend_bend(current, candidate),
        bend_strength(blend_bend(current, candidate)) >= bend_strength(current),
        bend_strength(blend_bend(current, candidate)) >= bend_strength(candidate),
{
}

/// Stamping the same flatten or hide amount twice has the effect of stamping it
/// once, and a stamp never lowers the stored amount.
pub proof fn lemma_max_stamp_idempotent_and_monotone(current: u8, candidate: u8)
    ensures
        blend_max(blend_max(current, candidate), candidate) == blend_max(current, candidate),
        blend_max(current, candidate) >= current,
        blend_max(current, candidate) >= candidate,
{
}

} // verus!
