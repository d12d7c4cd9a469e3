//! Showing instances: masks blended over an image, boxes framed, and how far
//! two masks agree.

use vstd::prelude::*;

verus! {

/// A mask and the box around it, in whole pixels, corners included.
pub struct Mark {
    pub mask: Vec<bool>,
    pub x0: usize,
    pub y0: usize,
    pub x1: usize,
    pub y1: usize,
}

pub const COLORS: usize = 6;

/// Channel `ch` of the colour of instance `k`.
pub open spec fn color(k: nat, ch: int) -> u8 {
    let c: (u8, u8, u8) = if k % 6 == 0 {
        (230, 25, 75)
    } else if k % 6 == 1 {
        (60, 180, 75)
    } else if k % 6 == 2 {
        (255, 225, 25)
    } else if k % 6 == 3 {
        (0, 130, 200)
    } else if k % 6 == 4 {
        (245, 130, 48)
    } else {
        (145, 30, 180)
    };
    if ch == 0 {
        c.0
    } else if ch == 1 {
        c.1
    } else {
        c.2
    }
}

fn color_of(k: usize, ch: usize) -> (r: u8)
    ensures
        r == color(k as nat, ch as int),
{
    let c: (u8, u8, u8) = match k % COLORS {
        0 => (230, 25, 75),
        1 => (60, 180, 75),
        2 => (255, 225, 25),
        3 => (0, 130, 200),
        4 => (245, 130, 48),
        _ => (145, 30, 180),
    };
    if ch == 0 {
        c.0
    } else if ch == 1 {
        c.1
    } else {
        c.2
    }
}

pub open spec fn lesser(a: int, b: int) -> int {
    if a < b {
        a
    } else {
        b
    }
}

/// `v` lies on one of the three lines inward from `lo`, or from `hi`.
pub open spec fn on_edge(v: int, lo: int, hi: int) -> bool {
    lo <= v < lo + 3 || hi - 3 < v <= hi
}

/// Pixel `(x, y)` is on the frame of a box, which is three pixels wide and
/// cut off at the image's far sides.
pub open spec fn framed(m: Mark, w: int, h: int, x: int, y: int) -> bool {
    let (x1, y1) = (lesser(m.x1 as int, w - 1), lesser(m.y1 as int, h - 1));
    ||| m.x0 <= x <= x1 && on_edge(y, m.y0 as int, y1)
    ||| m.y0 <= y <= y1 && on_edge(x, m.x0 as int, x1)
}

/// Byte `i` of the image after instance `k` was drawn on it.
pub open spec fn drawn_at(img: Seq<u8>, m: Mark, k: nat, w: int, h: int, i: int) -> u8 {
    let (p, ch) = (i / 3, i % 3);
    if framed(m, w, h, p % w, p / w) {
        color(k, ch)
    } else if p < m.mask.len() && m.mask[p] {
        ((img[i] + color(k, ch)) / 2) as u8
    } else {
        img[i]
    }
}

/// The image after the first `n` instances were drawn on it, in turn.
pub open spec fn drawn(img: Seq<u8>, marks: Seq<Mark>, n: nat, w: int, h: int) -> Seq<u8>
    decreases n,
{
    if n == 0 {
        img
    } else {
        let before = drawn(img, marks, (n - 1) as nat, w, h);
        Seq::new(img.len(), |i: int| drawn_at(before, marks[n - 1], (n - 1) as nat, w, h, i))
    }
}

fn edge(v: usize, lo: usize, hi: usize) -> (r: bool)
    ensures
        r == on_edge(v as int, lo as int, hi as int),
{
    lo <= v && v - lo < 3 || v <= hi && hi - v < 3
}

fn is_framed(m: &Mark, w: usize, h: usize, x: usize, y: usize) -> (r: bool)
    requires
        w > 0,
        h > 0,
    ensures
        r == framed(*m, w as int, h as int, x as int, y as int),
{
    let x1: usize = if m.x1 < w - 1 {
        m.x1
    } else {
        w - 1
    };
    let y1: usize = if m.y1 < h - 1 {
        m.y1
    } else {
        h - 1
    };
    m.x0 <= x && x <= x1 && edge(y, m.y0, y1) || m.y0 <= y && y <= y1 && edge(x, m.x0, x1)
}

fn draw_one(img: &Vec<u8>, m: &Mark, k: usize, w: usize, h: usize) -> (r: Vec<u8>)
    requires
        w > 0,
        h > 0,
    ensures
        r.len() == img.len(),
        forall|i: int| 0 <= i < r.len() ==> #[trigger] r[i] == drawn_at(img@, *m, k as nat, w as int, h as int, i),
{
    let mut out: Vec<u8> = Vec::new();
    let mut i: usize = 0;
    while i < img.len()
        invariant
            w > 0,
            h > 0,
            i <= img.len(),
            out.len() == i,
            forall|j: int| 0 <= j < i ==> #[trigger] out[j] == drawn_at(img@, *m, k as nat, w as int, h as int, j),
        decreases img.len() - i,
    {
        let (p, ch): (usize, usize) = (i / 3, i % 3);
        let c: u8 = color_of(k, ch);
        let v: u8 = if is_framed(m, w, h, p % w, p / w) {
            c
        } else if p < m.mask.len() && m.mask[p] {
            ((img[i] as u16 + c as u16) / 2) as u8
        } else {
            img[i]
        };
        out.push(v);
        i += 1;
    }
    out
}

/// Draws every instance over an RGB image `w` pixels wide and `h` high.
pub fn overlay(rgb: &Vec<u8>, w: usize, h: usize, marks: &Vec<Mark>) -> (r: Vec<u8>)
    requires
        w > 0,
        h > 0,
        rgb.len() == 3 * w * h,
    ensures
        r@ == drawn(rgb@, marks@, marks.len() as nat, w as int, h as int),
        r.len() == rgb.len(),
{
    let mut img: Vec<u8> = rgb.clone();
    let mut k: usize = 0;
    proof {
        assert(img@ =~= rgb@);
    }
    while k < marks.len()
        invariant
            w > 0,
            h > 0,
            k <= marks.len(),
            img@ == drawn(rgb@, marks@, k as nat, w as int, h as int),
            img.len() == rgb.len(),
        decreases marks.len() - k,
    {
        let next: Vec<u8> = draw_one(&img, &marks[k], k, w, h);
        proof {
            assert(next@ =~= drawn(rgb@, marks@, (k + 1) as nat, w as int, h as int));
        }
        img = next;
        k += 1;
    }
    img
}

/// A pixel no mask and no frame covers keeps its colour.
pub proof fn uncovered_pixels_stay(img: Seq<u8>, marks: Seq<Mark>, n: nat, w: int, h: int, i: int)
    requires
        n <= marks.len(),
        0 <= i < img.len(),
        forall|k: int|
            0 <= k < n ==> !framed(#[trigger] marks[k], w, h, i / 3 % w, i / 3 / w) && !(i / 3 < marks[k].mask.len()
                && marks[k].mask[i / 3]),
    ensures
        drawn(img, marks, n, w, h).len() == img.len(),
        drawn(img, marks, n, w, h)[i] == img[i],
    decreases n,
{
    if n > 0 {
        uncovered_pixels_stay(img, marks, (n - 1) as nat, w, h, i);
        assert(!framed(marks[n - 1], w, h, i / 3 % w, i / 3 / w));
    }
}

/// Pixel `i` is in both masks.
pub open spec fn in_both(a: Seq<bool>, b: Seq<u8>, i: int) -> bool {
    a[i] && b[i] != 0
}

/// Pixel `i` is in one of the masks.
pub open spec fn in_either(a: Seq<bool>, b: Seq<u8>, i: int) -> bool {
    a[i] || b[i] != 0
}

/// How many of the first `n` pixels are in both masks.
pub open spec fn common(a: Seq<bool>, b: Seq<u8>, n: nat) -> nat
    decreases n,
{
    if n == 0 {
        0
    } else {
        common(a, b, (n - 1) as nat) + (if in_both(a, b, n - 1) {
            1nat
        } else {
            0
        })
    }
}

/// How many of the first `n` pixels are in one of the masks.
pub open spec fn covered(a: Seq<bool>, b: Seq<u8>, n: nat) -> nat
    decreases n,
{
    if n == 0 {
        0
    } else {
        covered(a, b, (n - 1) as nat) + (if in_either(a, b, n - 1) {
            1nat
        } else {
            0
        })
    }
}

/// What two masks have in common is no more than what they cover.
pub proof fn common_is_covered(a: Seq<bool>, b: Seq<u8>, n: nat)
    ensures
        common(a, b, n) <= covered(a, b, n) <= n,
    decreases n,
{
    if n > 0 {
        common_is_covered(a, b, (n - 1) as nat);
    }
}

/// The pixels two masks have in common and those they cover, over the length
/// they share: their ratio is how far they agree.
pub fn agreement(a: &Vec<bool>, b: &Vec<u8>) -> (r: (usize, usize))
    ensures
        r.0 == common(a@, b@, lesser(a.len() as int, b.len() as int) as nat),
        r.1 == covered(a@, b@, lesser(a.len() as int, b.len() as int) as nat),
{
    let n: usize = if a.len() < b.len() {
        a.len()
    } else {
        b.len()
    };
    let (mut i, mut u): (usize, usize) = (0, 0);
    let mut k: usize = 0;
    while k < n
        invariant
            n <= a.len(),
            n <= b.len(),
            k <= n,
            i == common(a@, b@, k as nat),
            u == covered(a@, b@, k as nat),
            i <= u <= k,
        decreases n - k,
    {
        let (x, y): (bool, bool) = (a[k], b[k] != 0);
        if x && y {
            i += 1;
        }
        if x || y {
            u += 1;
        }
        k += 1;
    }
    (i, u)
}

/// How many of the first `n` pixels are in a mask.
pub open spec fn area_of(mask: Seq<bool>, n: nat) -> nat
    decreases n,
{
    if n == 0 {
        0
    } else {
        area_of(mask, (n - 1) as nat) + (if mask[n - 1] {
            1nat
        } else {
            0
        })
    }
}

/// The pixels of a mask.
pub fn area(mask: &Vec<bool>) -> (r: usize)
    ensures
        r == area_of(mask@, mask.len() as nat),
{
    let mut n: usize = 0;
    let mut i: usize = 0;
    while i < mask.len()
        invariant
            i <= mask.len(),
            n == area_of(mask@, i as nat),
            n <= i,
        decreases mask.len() - i,
    {
        if mask[i] {
            n += 1;
        }
        i += 1;
    }
    n
}

} // verus!
