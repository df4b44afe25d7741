//! Intersections along one ray: their order, the hit, and the media a ray
//! passes between at a surface.
use vstd::prelude::*;

verus! {

/// Where a ray meets a shape: the shape, by its place in the world's list of
/// shapes, and the distance along the ray, as a key (see `distance`).
///
/// Shapes are compared by value, so equal shapes share one index: the place of
/// the first of them in the world.
#[derive(Clone, Copy, Debug, PartialEq, Eq, Structural)]
pub struct Intersection {
    pub object: usize,
    pub distance: i64,
}

impl Intersection {
    pub fn new(object: usize, distance: i64) -> (r: Intersection)
        ensures
            r.object == object,
            r.distance == distance,
    {
        Intersection { object, distance }
    }
}

/// Whether the intersections ascend by distance.
pub open spec fn sorted_by_distance(s: Seq<Intersection>) -> bool {
    forall|i: int, j: int| 0 <= i < j < s.len() ==> s[i].distance <= s[j].distance
}

/// The same intersections, ascending by distance. Intersections at equal
/// distances may come in either order.
pub fn sort_by_distance(v: Vec<Intersection>) -> (r: Vec<Intersection>)
    ensures
        sorted_by_distance(r@),
        r@.to_multiset() == v@.to_multiset(),
{
    let mut r: Vec<Intersection> = Vec::new();
    let mut i: usize = 0;
    assert(r@ =~= v@.subrange(0, 0));
    while i < v.len()
        invariant
            i <= v.len(),
            sorted_by_distance(r@),
            r@.to_multiset() == v@.subrange(0, i as int).to_multiset(),
        decreases v.len() - i,
    {
        let x = v[i];
        let mut pos: usize = r.len();
        while pos > 0 && r[pos - 1].distance > x.distance
            invariant
                pos <= r.len(),
                forall|k: int| pos <= k < r.len() ==> r@[k].distance > x.distance,
            decreases pos,
        {
            pos = pos - 1;
        }
        let ghost before = r@;
        r.insert(pos, x);
        proof {
            vstd::seq_lib::to_multiset_insert(before, pos as int, x);
            vstd::seq_lib::to_multiset_build(v@.subrange(0, i as int), x);
            assert(v@.subrange(0, i + 1) =~= v@.subrange(0, i as int).push(x));
        }
        i = i + 1;
    }
    proof {
        assert(v@.subrange(0, v.len() as int) =~= v@);
    }
    r
}

/// Whether `s[j]` is the hit of `s`: the first of the intersections with
/// the smallest distance among those at a distance that is not negative.
pub open spec fn is_hit_at(s: Seq<Intersection>, j: int) -> bool {
    &&& 0 <= j < s.len()
    &&& s[j].distance >= 0
    &&& forall|k: int| 0 <= k < s.len() && s[k].distance >= 0 ==> s[j].distance <= s[k].distance
    &&& forall|k: int| 0 <= k < j && s[k].distance >= 0 ==> s[j].distance < s[k].distance
}

/// Whether some intersection lies at a distance that is not negative.
pub open spec fn has_hit(s: Seq<Intersection>) -> bool {
    exists|k: int| 0 <= k < s.len() && s[k].distance >= 0
}

/// The intersection that the ray strikes: the one with the smallest distance
/// that is not negative, the first of them where several share it; none
/// where every intersection lies behind the ray's origin.
pub fn hit(intersections: Vec<Intersection>) -> (r: Option<Intersection>)
    ensures
        r.is_some() <==> has_hit(intersections@),
        r matches Some(x) ==> exists|j: int| is_hit_at(intersections@, j) && intersections@[j] == x,
{
    let mut best: Option<usize> = None;
    let mut i: usize = 0;
    while i < intersections.len()
        invariant
            i <= intersections.len(),
            best matches Some(b) ==> is_hit_at(intersections@.subrange(0, i as int), b as int),
            best.is_none() ==> forall|k: int| 0 <= k < i ==> intersections@[k].distance < 0,
        decreases intersections.len() - i,
    {
        let d = intersections[i].distance;
        if d >= 0 {
            match best {
                None => {
                    best = Some(i);
                },
                Some(b) => {
                    if d < intersections[b].distance {
                        best = Some(i);
                    }
                },
            }
        }
        i = i + 1;
    }
    proof {
        assert(intersections@.subrange(0, i as int) =~= intersections@);
    }
    match best {
        None => None,
        Some(b) => Some(intersections[b]),
    }
}

/// The hit does not depend on the order of the intersections: two lists that
/// hold the same intersections, in any order, both have a hit or both have
/// none, and their hits lie at the same distance.
pub proof fn lemma_hit_ignores_order(a: Seq<Intersection>, b: Seq<Intersection>, i: int, j: int)
    requires
        a.to_multiset() == b.to_multiset(),
    ensures
        has_hit(a) == has_hit(b),
        is_hit_at(a, i) && is_hit_at(b, j) ==> a[i].distance == b[j].distance,
{
    assert forall|x: Intersection| a.contains(x) <==> b.contains(x) by {
        vstd::seq_lib::to_multiset_contains(a, x);
        vstd::seq_lib::to_multiset_contains(b, x);
    }
    if has_hit(a) {
        let k = choose|k: int| 0 <= k < a.len() && a[k].distance >= 0;
        assert(a.contains(a[k]));
    }
    if has_hit(b) {
        let k = choose|k: int| 0 <= k < b.len() && b[k].distance >= 0;
        assert(b.contains(b[k]));
    }
    if is_hit_at(a, i) && is_hit_at(b, j) {
        assert(a.contains(a[i]));
        assert(b.contains(b[j]));
    }
}

/// Whether a point is in shadow, given the intersections of the ray from it
/// toward a light and the distance to that light: it is exactly when the ray
/// strikes some shape before it reaches the light. Any shape occludes,
/// transparent or not.
pub fn is_occluded(intersections: Vec<Intersection>, light_distance: i64) -> (r: bool)
    ensures
        r <==> exists|j: int|
            is_hit_at(intersections@, j) && #[trigger] intersections@[j].distance < light_distance,
{
    match hit(intersections) {
        Some(x) => x.distance < light_distance,
        None => false,
    }
}

/// The shapes that a ray is inside once it has crossed the surface of
/// `object`, in the order it entered them: it leaves `object` where it was
/// inside it, and enters it otherwise.
pub open spec fn toggled(inside: Seq<usize>, object: usize) -> Seq<usize> {
    if inside.contains(object) {
        inside.filter(other_than(object))
    } else {
        inside.push(object)
    }
}

/// Whether a shape is another one than `object`.
pub open spec fn other_than(object: usize) -> spec_fn(usize) -> bool {
    |o: usize| o != object
}

/// The shapes that the ray is inside after it has crossed the first `n`
/// intersections of `s`.
pub open spec fn inside_after(s: Seq<Intersection>, n: int) -> Seq<usize>
    decreases n,
{
    if n <= 0 || s.len() < n {
        Seq::empty()
    } else {
        toggled(inside_after(s, n - 1), s[n - 1].object)
    }
}

/// The shape entered last among those the ray is inside; none in the
/// surrounding vacuum.
pub open spec fn innermost(inside: Seq<usize>) -> Option<usize> {
    if inside.len() == 0 {
        None
    } else {
        Some(inside.last())
    }
}

/// Whether `s[j]` is the first intersection of `s` equal to `target`.
pub open spec fn is_first_at(s: Seq<Intersection>, target: Intersection, j: int) -> bool {
    &&& 0 <= j < s.len()
    &&& s[j] == target
    &&& forall|k: int| 0 <= k < j ==> s[k] != target
}

proof fn lemma_filter_keeps_distinct(c: Seq<usize>, p: spec_fn(usize) -> bool)
    requires
        c.no_duplicates(),
    ensures
        c.filter(p).no_duplicates(),
    decreases c.len(),
{
    reveal(Seq::filter);
    if c.len() > 0 {
        let rest = c.drop_last();
        assert(rest.no_duplicates());
        lemma_filter_keeps_distinct(rest, p);
        if p(c.last()) {
            let kept = rest.filter(p);
            if kept.contains(c.last()) {
                rest.lemma_filter_contains_rev(p, c.last());
                let k = choose|k: int| 0 <= k < rest.len() && rest[k] == c.last();
                assert(c[k] == c[c.len() - 1]);
            }
            let pushed = kept.push(c.last());
            assert forall|i: int, j: int|
                0 <= i < pushed.len() && 0 <= j < pushed.len() && i != j implies #[trigger] pushed[i]
                != #[trigger] pushed[j] by {
                if i == kept.len() {
                    assert(kept.contains(kept[j]));
                } else if j == kept.len() {
                    assert(kept.contains(kept[i]));
                }
            }
        }
    }
}

/// The shapes that the ray is inside form a set: whatever intersections it
/// has crossed, none of them is held twice.
pub proof fn lemma_inside_is_a_set(s: Seq<Intersection>, n: int)
    ensures
        inside_after(s, n).no_duplicates(),
    decreases n,
{
    if n > 0 && n <= s.len() {
        lemma_inside_is_a_set(s, n - 1);
        let c = inside_after(s, n - 1);
        let o = s[n - 1].object;
        if c.contains(o) {
            lemma_filter_keeps_distinct(c, other_than(o));
        } else {
            let pushed = c.push(o);
            assert forall|i: int, j: int|
                0 <= i < pushed.len() && 0 <= j < pushed.len() && i != j implies #[trigger] pushed[i]
                != #[trigger] pushed[j] by {
                if i == c.len() {
                    assert(c[j] != o);
                } else if j == c.len() {
                    assert(c[i] != o);
                }
            }
        }
    }
}

/// The media on the two sides of a surface that a ray crosses, each given by
/// the shape that fills it (whose refractive index applies), or none for the
/// vacuum.
#[derive(Clone, Copy, Debug, PartialEq, Eq, Structural)]
pub struct Media {
    /// The medium the ray leaves.
    pub leaving: Option<usize>,
    /// The medium the ray enters.
    pub entering: Option<usize>,
}

fn toggle(inside: Vec<usize>, object: usize) -> (r: Vec<usize>)
    ensures
        r@ == toggled(inside@, object),
{
    let mut found = false;
    let mut i: usize = 0;
    while i < inside.len()
        invariant
            i <= inside.len(),
            found <==> exists|k: int| 0 <= k < i && inside@[k] == object,
        decreases inside.len() - i,
    {
        if inside[i] == object {
            found = true;
        }
        i = i + 1;
    }
    if !found {
        let mut r = inside;
        r.push(object);
        return r;
    }
    let mut kept: Vec<usize> = Vec::new();
    let mut k: usize = 0;
    proof {
        reveal(Seq::filter);
        assert(inside@.subrange(0, 0).filter(other_than(object)) =~= Seq::<usize>::empty());
    }
    while k < inside.len()
        invariant
            k <= inside.len(),
            kept@ == inside@.subrange(0, k as int).filter(other_than(object)),
        decreases inside.len() - k,
    {
        proof {
            reveal(Seq::filter);
            assert(inside@.subrange(0, k + 1).drop_last() =~= inside@.subrange(0, k as int));
        }
        if inside[k] != object {
            kept.push(inside[k]);
        }
        k = k + 1;
    }
    proof {
        assert(inside@.subrange(0, inside.len() as int) =~= inside@);
    }
    kept
}

/// The media on the two sides of the surface at `target`, for a ray whose
/// intersections, ascending by distance, are `intersections`: the walk along
/// them keeps the shapes the ray is inside, leaving a shape at its second
/// crossing and entering it at its first, up to the first intersection equal
/// to `target`. Both media are the vacuum where no intersection equals it.
pub fn media_at(intersections: &Vec<Intersection>, target: Intersection) -> (r: Media)
    ensures
        forall|j: int| is_first_at(intersections@, target, j) ==> r == (Media {
            leaving: innermost(inside_after(intersections@, j)),
            entering: innermost(inside_after(intersections@, j + 1)),
        }),
        !intersections@.contains(target) ==> r == (Media { leaving: None, entering: None }),
{
    let ghost s = intersections@;
    let mut inside: Vec<usize> = Vec::new();
    let mut leaving: Option<usize> = None;
    let mut entering: Option<usize> = None;
    let mut i: usize = 0;
    let mut done = false;
    while i < intersections.len() && !done
        invariant
            i <= intersections.len(),
            s == intersections@,
            !done ==> inside@ == inside_after(s, i as int),
            !done ==> forall|k: int| 0 <= k < i ==> s[k] != target,
            !done ==> leaving.is_none() && entering.is_none(),
            done ==> 0 < i && is_first_at(s, target, i - 1),
            done ==> leaving == innermost(inside_after(s, i - 1)),
            done ==> entering == innermost(inside_after(s, i as int)),
        decreases intersections.len() - i,
    {
        let x = intersections[i];
        let here = x == target;
        if here {
            leaving = match inside.last() {
                Some(o) => Some(*o),
                None => None,
            };
        }
        inside = toggle(inside, x.object);
        if here {
            entering = match inside.last() {
                Some(o) => Some(*o),
                None => None,
            };
            done = true;
        }
        i = i + 1;
    }
    Media { leaving, entering }
}

} // verus!
