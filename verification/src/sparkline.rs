//! Braille sparklines: two samples per character, four heights each.
//!
//! The height of a sample is a fraction of the scale, which is computed in
//! floating point outside this library; here the heights become characters.
use vstd::prelude::*;
use crate::text::push_char;
use vstd::arithmetic::power2::{pow2, lemma2_to64};

verus! {

/// Highest sample level.
pub const MAX_LEVEL: usize = 3;

/// Bit of the left braille column lit at `level`, from the bottom dot up.
pub open spec fn left_dot(level: int) -> u32 {
    if level == 0 {
        0x40
    } else if level == 1 {
        0x04
    } else if level == 2 {
        0x02
    } else {
        0x01
    }
}

/// Bit of the right braille column lit at `level`, from the bottom dot up.
pub open spec fn right_dot(level: int) -> u32 {
    if level == 0 {
        0x80
    } else if level == 1 {
        0x20
    } else if level == 2 {
        0x10
    } else {
        0x08
    }
}

/// The braille character showing a left sample at `left` and a right one at `right`.
pub open spec fn braille_code(left: int, right: int) -> u32 {
    (0x2800 + left_dot(left) + right_dot(right)) as u32
}

/// The sparkline of `levels`: character `k` shows samples `2k` and `2k + 1`,
/// a missing last right sample shown at level 0.
pub open spec fn braille_codes(levels: Seq<usize>) -> Seq<u32> {
    Seq::new(
        ((levels.len() + 1) / 2) as nat,
        |k: int|
            braille_code(
                levels[2 * k] as int,
                if 2 * k + 1 < levels.len() {
                    levels[2 * k + 1] as int
                } else {
                    0
                },
            ),
    )
}

/// Unicode's number (1 to 8) for the braille dot in `row` (0 at the top, 3
/// at the bottom) of column `col` (0 left, 1 right): dots 1, 2, 3, 7 run
/// down the left column and 4, 5, 6, 8 down the right one.
pub open spec fn unicode_dot(row: int, col: int) -> nat {
    if col == 0 {
        if row < 3 { (row + 1) as nat } else { 7 }
    } else {
        if row < 3 { (row + 4) as nat } else { 8 }
    }
}

/// A sample at level `l` (0 lowest) raises the dot in row `3 - l` of its
/// column, so a higher sample is drawn higher: the character for a left
/// sample at `left` and a right one at `right` is U+2800 plus, for each of
/// the two raised dots, the bit that Unicode gives that dot (bit `d - 1`
/// for dot `d`).
pub proof fn law_braille_dots(left: int, right: int)
    requires
        0 <= left <= MAX_LEVEL,
        0 <= right <= MAX_LEVEL,
    ensures
        braille_code(left, right) == 0x2800 + pow2((unicode_dot(3 - left, 0) - 1) as nat) + pow2(
            (unicode_dot(3 - right, 1) - 1) as nat,
        ),
{
    lemma2_to64();
}

/// Calls `char::from_u32`, which, as documented, gives the character with
/// code `u` exactly when `u` is a Unicode scalar value.
#[verifier::external_body]
fn char_from_u32(u: u32) -> (r: Option<char>)
    ensures
        r is Some <==> vstd::utf8::is_scalar(u),
        r matches Some(c) ==> c as u32 == u,
{
    char::from_u32(u)
}

const LEFT_POINTS: [u32; 4] = [0x40, 0x04, 0x02, 0x01];

const RIGHT_POINTS: [u32; 4] = [0x80, 0x20, 0x10, 0x08];

/// The braille character for a left sample at `left` and a right one at `right`.
pub fn braille_char(left: usize, right: usize) -> (c: char)
    requires
        left <= MAX_LEVEL,
        right <= MAX_LEVEL,
    ensures
        c as u32 == braille_code(left as int, right as int),
{
    let points_left: [u32; 4] = LEFT_POINTS;
    let points_right: [u32; 4] = RIGHT_POINTS;
    assert(points_left@ == seq![0x40u32, 0x04u32, 0x02u32, 0x01u32]);
    assert(points_right@ == seq![0x80u32, 0x20u32, 0x10u32, 0x08u32]);
    let l: u32 = points_left[left];
    let r: u32 = points_right[right];
    assert(l == left_dot(left as int));
    assert(r == right_dot(right as int));
    let mask: u32 = l | r;
    assert(mask == l + r) by (bit_vector)
        requires
            l == 0x40 || l == 0x04 || l == 0x02 || l == 0x01,
            r == 0x80 || r == 0x20 || r == 0x10 || r == 0x08,
            mask == l | r,
    ;
    match char_from_u32(0x2800 + mask) {
        Some(c) => c,
        None => {
            assert(vstd::utf8::is_scalar((0x2800 + mask) as u32));
            '\u{2804}'
        },
    }
}

/// The sparkline for sample levels `levels`; four low dots when there are none.
pub fn braille_line(levels: &Vec<usize>) -> (s: String)
    requires
        forall|i: int| 0 <= i < levels@.len() ==> #[trigger] levels@[i] <= MAX_LEVEL,
    ensures
        levels@.len() == 0 ==> s@ == seq!['\u{2804}', '\u{2804}', '\u{2804}', '\u{2804}'],
        levels@.len() > 0 ==> s@.len() == braille_codes(levels@).len() && forall|k: int|
            0 <= k < s@.len() ==> #[trigger] s@[k] as u32 == braille_codes(levels@)[k],
{
    let mut s = String::new();
    if levels.len() == 0 {
        push_char(&mut s, '\u{2804}');
        push_char(&mut s, '\u{2804}');
        push_char(&mut s, '\u{2804}');
        push_char(&mut s, '\u{2804}');
        return s;
    }
    let ghost codes = braille_codes(levels@);
    let n: usize = levels.len();
    let pairs: usize = n / 2 + n % 2;
    assert(pairs == (n + 1) / 2);
    let mut k: usize = 0;
    while k < pairs
        invariant
            n == levels@.len(),
            pairs == (n + 1) / 2,
            k <= pairs,
            forall|j: int| 0 <= j < levels@.len() ==> #[trigger] levels@[j] <= MAX_LEVEL,
            codes == braille_codes(levels@),
            s@.len() == k,
            forall|j: int| 0 <= j < s@.len() ==> #[trigger] s@[j] as u32 == codes[j],
        decreases pairs - k,
    {
        let i: usize = 2 * k;
        let left = levels[i];
        let right: usize = if i + 1 < n {
            levels[i + 1]
        } else {
            0
        };
        let c = braille_char(left, right);
        let ghost before = s@;
        push_char(&mut s, c);
        assert(codes[k as int] == braille_code(left as int, right as int));
        assert forall|j: int| 0 <= j < s@.len() implies #[trigger] s@[j] as u32 == codes[j] by {
            if j < before.len() {
                assert(s@[j] == before[j]);
            }
        }
        k = k + 1;
    }
    s
}

/// The samples a short sparkline shows: the last `count` of `values`.
pub fn tail(values: &Vec<u64>, count: usize) -> (r: Vec<u64>)
    ensures
        r@ == (if values@.len() <= count {
            values@
        } else {
            values@.subrange(values@.len() - count, values@.len() as int)
        }),
{
    let start: usize = values.len().saturating_sub(count);
    let mut r: Vec<u64> = Vec::new();
    let mut i: usize = start;
    while i < values.len()
        invariant
            start <= i <= values@.len(),
            start == (if values@.len() <= count {
                0
            } else {
                values@.len() - count
            }),
            r@ == values@.subrange(start as int, i as int),
        decreases values.len() - i,
    {
        r.push(values[i]);
        i = i + 1;
        assert(r@ =~= values@.subrange(start as int, i as int));
    }
    if values.len() <= count {
        assert(values@.subrange(0, values@.len() as int) =~= values@);
    }
    r
}

/// The scale of a rate sparkline: its largest sample, 1 where there is none.
pub fn scale_max(values: &Vec<u64>) -> (m: u64)
    ensures
        values@.len() == 0 ==> m == 1,
        values@.len() > 0 ==> values@.contains(m) && forall|i: int|
            0 <= i < values@.len() ==> #[trigger] values@[i] <= m,
{
    if values.len() == 0 {
        return 1;
    }
    let mut m: u64 = values[0];
    let mut i: usize = 1;
    while i < values.len()
        invariant
            1 <= i <= values@.len(),
            values@.contains(m),
            forall|j: int| 0 <= j < i ==> #[trigger] values@[j] <= m,
        decreases values.len() - i,
    {
        if values[i] > m {
            m = values[i];
        }
        i = i + 1;
    }
    m
}

} // verus!
