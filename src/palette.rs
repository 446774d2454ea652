//! Building a palette from pixels and resolving pixels to palette indices.

use vstd::prelude::*;

use std::collections::{HashMap, HashSet};

use crate::color::Rgb;
use crate::error::ConvertError;

verus! {

broadcast use vstd::std_specs::hash::group_hash_axioms;

/// The distinct colours of `s`, each where it first appears.
pub open spec fn first_seen(s: Seq<Rgb>) -> Seq<Rgb>
    decreases s.len(),
{
    if s.len() == 0 {
        Seq::empty()
    } else {
        let p = first_seen(s.drop_last());
        if p.contains(s.last()) {
            p
        } else {
            p.push(s.last())
        }
    }
}

/// Every pixel's colour stands in the palette.
pub open spec fn covers(palette: Seq<Rgb>, pixels: Seq<Rgb>) -> bool {
    forall|i: int| 0 <= i < pixels.len() ==> palette.contains(#[trigger] pixels[i])
}

/// `k` is the first position of colour `c` in the palette.
pub open spec fn is_first_index(palette: Seq<Rgb>, c: Rgb, k: int) -> bool {
    &&& 0 <= k < palette.len()
    &&& palette[k] == c
    &&& forall|j: int| 0 <= j < k ==> palette[j] != c
}

/// `k` is the first pixel whose colour the palette lacks.
pub open spec fn is_first_missing(palette: Seq<Rgb>, pixels: Seq<Rgb>, k: int) -> bool {
    &&& 0 <= k < pixels.len()
    &&& !palette.contains(pixels[k])
    &&& covers(palette, pixels.take(k))
}

/// A colour is in `first_seen(s)` exactly when it is in `s`.
pub proof fn lemma_first_seen_contains(s: Seq<Rgb>)
    ensures
        forall|c: Rgb| first_seen(s).contains(c) <==> s.contains(c),
    decreases s.len(),
{
    if s.len() > 0 {
        let t = s.drop_last();
        lemma_first_seen_contains(t);
        assert forall|c: Rgb| s.contains(c) <==> (t.contains(c) || c == s.last()) by {
            if s.contains(c) {
                let i = choose|i: int| 0 <= i < s.len() && s[i] == c;
                if i < s.len() - 1 {
                    assert(t[i] == c);
                }
            }
            if t.contains(c) {
                let i = choose|i: int| 0 <= i < t.len() && t[i] == c;
                assert(s[i] == c);
            }
            if c == s.last() {
                assert(s[s.len() - 1] == c);
            }
        }
        let p = first_seen(t);
        if !p.contains(s.last()) {
            assert forall|c: Rgb| p.push(s.last()).contains(c) <==> (p.contains(c) || c == s.last()) by {
                if p.push(s.last()).contains(c) {
                    let j = choose|j: int| 0 <= j < p.len() + 1 && p.push(s.last())[j] == c;
                    if j < p.len() {
                        assert(p[j] == c);
                    }
                }
                if p.contains(c) {
                    let j = choose|j: int| 0 <= j < p.len() && p[j] == c;
                    assert(p.push(s.last())[j] == c);
                }
                if c == s.last() {
                    assert(p.push(s.last())[p.len() as int] == c);
                }
            }
        }
    }
}

/// `first_seen(s)` holds no colour twice.
pub proof fn lemma_first_seen_unique(s: Seq<Rgb>)
    ensures
        first_seen(s).no_duplicates(),
    decreases s.len(),
{
    if s.len() > 0 {
        lemma_first_seen_unique(s.drop_last());
    }
}

/// Every colour of `s` is in `first_seen(s)`.
pub proof fn lemma_first_seen_covers(s: Seq<Rgb>)
    ensures
        covers(first_seen(s), s),
{
    lemma_first_seen_contains(s);
    assert forall|i: int| 0 <= i < s.len() implies first_seen(s).contains(#[trigger] s[i]) by {
        assert(s.contains(s[i]));
    }
}

/// The distinct colours of `pixels` in order of first appearance.
pub fn list_colours(pixels: &Vec<Rgb>) -> (r: Vec<Rgb>)
    ensures
        r@ == first_seen(pixels@),
{
    let mut seen: HashSet<u32> = HashSet::new();
    let mut palette: Vec<Rgb> = Vec::new();
    let mut i: usize = 0;
    while i < pixels.len()
        invariant
            0 <= i <= pixels.len(),
            palette@ == first_seen(pixels@.take(i as int)),
            forall|x: u32| seen@.contains(x) <==> palette@.contains(Rgb(x)),
        decreases pixels.len() - i,
    {
        let c = pixels[i];
        assert(pixels@.take(i + 1).drop_last() =~= pixels@.take(i as int));
        assert(pixels@.take(i + 1).last() == c);
        let fresh = seen.insert(c.0);
        let ghost prev = palette@;
        if fresh {
            palette.push(c);
            assert forall|x: u32| seen@.contains(x) <==> palette@.contains(Rgb(x)) by {
                if palette@.contains(Rgb(x)) && x != c.0 {
                    let j = choose|j: int| 0 <= j < palette@.len() && palette@[j] == Rgb(x);
                    assert(palette@.drop_last()[j] == Rgb(x));
                }
                if x == c.0 {
                    assert(palette@[palette@.len() - 1] == Rgb(x));
                }
                if prev.contains(Rgb(x)) {
                    let j = choose|j: int| 0 <= j < prev.len() && prev[j] == Rgb(x);
                    assert(palette@[j] == Rgb(x));
                }
            }
        }
        i += 1;
    }
    assert(pixels@.take(pixels.len() as int) =~= pixels@);
    palette
}

/// A derived palette overflows when it would need more entries than `capacity`
/// allows; without a capacity nothing overflows.
pub open spec fn overflows(pixels: Seq<Rgb>, capacity: Option<u64>) -> bool {
    capacity is Some && first_seen(pixels).len() > capacity->Some_0
}

/// Builds the palette of `pixels`: its distinct colours in order of first
/// appearance. With a capacity, fails when there are more of them than that.
pub fn build_palette(pixels: &Vec<Rgb>, capacity: Option<u64>) -> (r: Result<
    Vec<Rgb>,
    ConvertError,
>)
    ensures
        overflows(pixels@, capacity) ==> r == Err::<Vec<Rgb>, ConvertError>(
            ConvertError::PaletteOverflow { capacity: capacity->Some_0 },
        ),
        !overflows(pixels@, capacity) ==> r is Ok && r->Ok_0@ == first_seen(pixels@),
{
    let palette = list_colours(pixels);
    match capacity {
        Some(cap) => {
            if palette.len() as u64 > cap {
                return Err(ConvertError::PaletteOverflow { capacity: cap });
            }
        },
        None => {},
    }
    Ok(palette)
}

/// Resolves each pixel to the first position of its colour in `palette`, in
/// pixel order. Fails on the first pixel whose colour the palette lacks.
pub fn index_pixels(pixels: &Vec<Rgb>, palette: &Vec<Rgb>) -> (r: Result<Vec<usize>, ConvertError>)
    ensures
        r is Ok <==> covers(palette@, pixels@),
        r is Ok ==> r->Ok_0@.len() == pixels@.len() && forall|i: int|
            0 <= i < pixels@.len() ==> is_first_index(palette@, pixels@[i], #[trigger] r->Ok_0@[i] as int),
        r is Err ==> exists|k: int|
            is_first_missing(palette@, pixels@, k) && r->Err_0 == (ConvertError::ColourNotInPalette {
                colour: pixels@[k],
            }),
{
    let mut positions: HashMap<u32, usize> = HashMap::new();
    let mut i: usize = 0;
    while i < palette.len()
        invariant
            0 <= i <= palette.len(),
            forall|j: int| 0 <= j < i ==> positions@.contains_key(#[trigger] palette@[j].0),
            forall|x: u32|
                #[trigger] positions@.contains_key(x) ==> positions@[x] < i && is_first_index(
                    palette@,
                    Rgb(x),
                    positions@[x] as int,
                ),
        decreases palette.len() - i,
    {
        let c = palette[i];
        if !positions.contains_key(&c.0) {
            positions.insert(c.0, i);
        }
        i += 1;
    }
    assert forall|c: Rgb| positions@.contains_key(c.0) <==> palette@.contains(c) by {
        if palette@.contains(c) {
            let j = choose|j: int| 0 <= j < palette@.len() && palette@[j] == c;
            assert(positions@.contains_key(palette@[j].0));
        }
        if positions@.contains_key(c.0) {
            assert(palette@[positions@[c.0] as int] == c);
        }
    }
    let mut out: Vec<usize> = Vec::new();
    let mut k: usize = 0;
    while k < pixels.len()
        invariant
            0 <= k <= pixels.len(),
            out@.len() == k,
            forall|c: Rgb| positions@.contains_key(c.0) <==> palette@.contains(c),
            forall|x: u32|
                #[trigger] positions@.contains_key(x) ==> is_first_index(
                    palette@,
                    Rgb(x),
                    positions@[x] as int,
                ),
            forall|j: int| 0 <= j < k ==> is_first_index(palette@, pixels@[j], #[trigger] out@[j] as int),
            covers(palette@, pixels@.take(k as int)),
        decreases pixels.len() - k,
    {
        let c = pixels[k];
        match positions.get(&c.0) {
            Some(p) => {
                out.push(*p);
                assert forall|j: int| 0 <= j < k + 1 implies palette@.contains(#[trigger] pixels@.take(k + 1)[j]) by {
                    if j < k {
                        assert(pixels@.take(k as int)[j] == pixels@.take(k + 1)[j]);
                    }
                }
            },
            None => {
                assert(is_first_missing(palette@, pixels@, k as int));
                return Err(ConvertError::ColourNotInPalette { colour: c });
            },
        }
        k += 1;
    }
    assert(pixels@.take(pixels.len() as int) =~= pixels@);
    Ok(out)
}

/// Every pixel of colour `y` comes after some pixel of colour `x`.
pub open spec fn appears_before(pixels: Seq<Rgb>, x: Rgb, y: Rgb) -> bool {
    forall|q: int|
        0 <= q < pixels.len() && #[trigger] pixels[q] == y ==> exists|p: int|
            0 <= p < q && #[trigger] pixels[p] == x
}

/// A palette built from pixels holds no colour twice, holds exactly the
/// colours of the pixels, and lists them in order of first appearance: when
/// entry `i` comes before entry `j`, every pixel of colour `j` is preceded by
/// a pixel of colour `i`.
pub proof fn lemma_palette_first_seen(pixels: Seq<Rgb>)
    ensures
        first_seen(pixels).no_duplicates(),
        forall|c: Rgb| first_seen(pixels).contains(c) <==> pixels.contains(c),
        forall|i: int, j: int|
            0 <= i < j < first_seen(pixels).len() ==> appears_before(
                pixels,
                #[trigger] first_seen(pixels)[i],
                #[trigger] first_seen(pixels)[j],
            ),
    decreases pixels.len(),
{
    lemma_first_seen_unique(pixels);
    lemma_first_seen_contains(pixels);
    if pixels.len() > 0 {
        let s = pixels;
        let t = s.drop_last();
        lemma_palette_first_seen(t);
        let pt = first_seen(t);
        let ps = first_seen(s);
        assert forall|i: int, j: int| 0 <= i < j < ps.len() implies appears_before(
            s,
            #[trigger] ps[i],
            #[trigger] ps[j],
        ) by {
            assert forall|q: int| 0 <= q < s.len() && #[trigger] s[q] == ps[j] implies exists|p: int|
                0 <= p < q && #[trigger] s[p] == ps[i] by {
                if q < s.len() - 1 {
                    assert(t[q] == s[q]);
                    if j < pt.len() {
                        assert(appears_before(t, pt[i], pt[j]));
                        let p = choose|p: int| 0 <= p < q && #[trigger] t[p] == pt[i];
                        assert(s[p] == ps[i]);
                    } else {
                        assert(t.contains(s.last()));
                    }
                } else {
                    if j < pt.len() {
                        assert(pt.contains(pt[j]));
                        assert(t.contains(pt[j]));
                        assert(ps[i] == pt[i] && ps[j] == pt[j]);
                        let q2 = choose|q2: int| 0 <= q2 < t.len() && t[q2] == pt[j];
                        assert(appears_before(t, pt[i], pt[j]));
                        assert(t[q2] == pt[j]);
                        let p = choose|p: int| 0 <= p < q2 && #[trigger] t[p] == pt[i];
                        assert(s[p] == ps[i]);
                    } else {
                        assert(pt.contains(pt[i]));
                        assert(t.contains(pt[i]));
                        assert(ps[i] == pt[i]);
                        let p = choose|p: int| 0 <= p < t.len() && t[p] == pt[i];
                        assert(s[p] == ps[i]);
                    }
                }
            }
        }
    }
}

/// Scanning the pixels in order builds the palette from its start: the palette
/// of the first `k` pixels is the start of the whole palette, and pixel `k`
/// adds its colour at the end exactly when no earlier pixel has it.
pub proof fn lemma_first_seen_prefixes(pixels: Seq<Rgb>, k: int)
    requires
        0 <= k <= pixels.len(),
    ensures
        first_seen(pixels.take(k)).len() <= first_seen(pixels).len(),
        first_seen(pixels.take(k)) == first_seen(pixels).take(first_seen(pixels.take(k)).len() as int),
        k < pixels.len() ==> first_seen(pixels.take(k + 1)) == if pixels.take(k).contains(pixels[k]) {
            first_seen(pixels.take(k))
        } else {
            first_seen(pixels.take(k)).push(pixels[k])
        },
    decreases pixels.len(),
{
    if k == pixels.len() {
        assert(pixels.take(k) =~= pixels);
        assert(first_seen(pixels).take(first_seen(pixels).len() as int) =~= first_seen(pixels));
    } else {
        let t = pixels.drop_last();
        assert(pixels.take(k) =~= t.take(k));
        lemma_first_seen_prefixes(t, k);
        let a = first_seen(t.take(k));
        let b = first_seen(t);
        let c = first_seen(pixels);
        assert(a.len() <= b.len() <= c.len());
        assert(c.take(b.len() as int) =~= b);
        assert(c.take(a.len() as int) =~= b.take(a.len() as int));
        assert(pixels.take(k + 1).drop_last() =~= pixels.take(k));
        assert(pixels.take(k + 1).last() == pixels[k]);
        lemma_first_seen_contains(pixels.take(k));
    }
}

/// A palette derived with capacity `capacity` overflows exactly when the pixels
/// hold more than `capacity` distinct colours; with exactly that many it does
/// not.
pub proof fn lemma_overflow_iff_too_many_colours(pixels: Seq<Rgb>, capacity: u64)
    ensures
        overflows(pixels, Some(capacity)) <==> pixels.to_set().len() > capacity,
        pixels.to_set().len() == capacity ==> !overflows(pixels, Some(capacity)),
{
    let p = first_seen(pixels);
    lemma_first_seen_unique(pixels);
    lemma_first_seen_contains(pixels);
    p.unique_seq_to_set();
    assert(p.to_set() =~= pixels.to_set());
}

} // verus!
