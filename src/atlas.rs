//! The texture atlas: a binary space partition of one texture, packed first-fit
//! after the blackpawn lightmap algorithm.

use vstd::prelude::*;
use crate::assets::{Asset, AssetError, AssetRasterizationStatus};
use crate::geometry::{area, contains_rect, disjoint, max_x, max_y, Point2D, Rect, Size2D};

verus! {

/// Width of the atlas texture, in texels.
pub const WIDTH: u32 = 1024;

/// Height of the atlas texture, in texels.
pub const HEIGHT: u32 = 1024;

/// A node of the partition. A leaf is free or full; an inner node has two children
/// that split its rectangle in two along one axis.
pub struct Bin {
    pub children: Option<(Box<Bin>, Box<Bin>)>,
    pub rect: Rect<u32>,
    pub full: bool,
}

/// `left` and `right` split `parent` in two: `left` keeps the origin and either the
/// full height (a vertical cut) or the full width (a horizontal cut).
pub open spec fn is_split(parent: Rect<u32>, left: Rect<u32>, right: Rect<u32>) -> bool {
    &&& left.origin == parent.origin
    &&& {
        ||| {
            &&& left.size.height == parent.size.height
            &&& left.size.width <= parent.size.width
            &&& right.origin.x == parent.origin.x + left.size.width
            &&& right.origin.y == parent.origin.y
            &&& right.size.width == parent.size.width - left.size.width
            &&& right.size.height == parent.size.height
        }
        ||| {
            &&& left.size.width == parent.size.width
            &&& left.size.height <= parent.size.height
            &&& right.origin.x == parent.origin.x
            &&& right.origin.y == parent.origin.y + left.size.height
            &&& right.size.width == parent.size.width
            &&& right.size.height == parent.size.height - left.size.height
        }
    }
}

/// The rectangle lies within the range of `u32` coordinates.
pub open spec fn rect_in_range(r: Rect<u32>) -> bool {
    max_x(r) <= u32::MAX && max_y(r) <= u32::MAX
}

/// A rectangle of `size` fits in `r`.
pub open spec fn fits(r: Rect<u32>, size: Size2D<u32>) -> bool {
    size.width <= r.size.width && size.height <= r.size.height
}

/// The sum of the areas of a sequence of rectangles.
pub open spec fn sum_areas(s: Seq<Rect<u32>>) -> int
    decreases s.len(),
{
    if s.len() == 0 {
        0
    } else {
        sum_areas(s.drop_last()) + area(s.last())
    }
}

/// A leaf.
pub open spec fn leaf_bin(rect: Rect<u32>, full: bool) -> Bin {
    Bin { children: None, rect, full }
}

/// An inner node with the two given children.
pub open spec fn node_bin(rect: Rect<u32>, left: Bin, right: Bin) -> Bin {
    Bin { children: Some((Box::new(left), Box::new(right))), rect, full: false }
}

/// The free leaf `rect` once a rectangle of `size` is placed at its origin. Where it
/// fits exactly the leaf becomes full. Otherwise the leaf is cut along the axis with
/// more room to spare: the left child is a strip as wide (or as tall) as the new
/// rectangle, and the right child is the rest. Where the strip is not an exact fit,
/// it is cut again along the other axis, into the full rectangle and what remains.
pub open spec fn placed_leaf(rect: Rect<u32>, size: Size2D<u32>) -> Bin {
    let placed = Rect { origin: rect.origin, size };
    let (x, y) = (rect.origin.x as int, rect.origin.y as int);
    let (w, h) = (rect.size.width as int, rect.size.height as int);
    let (sw, sh) = (size.width as int, size.height as int);
    if w == sw && h == sh {
        leaf_bin(rect, true)
    } else if w - sw > h - sh {
        let column = Rect { origin: rect.origin, size: Size2D { width: size.width, height: rect.size.height } };
        let right = Rect {
            origin: Point2D { x: (x + sw) as u32, y: rect.origin.y },
            size: Size2D { width: (w - sw) as u32, height: rect.size.height },
        };
        let below = Rect {
            origin: Point2D { x: rect.origin.x, y: (y + sh) as u32 },
            size: Size2D { width: size.width, height: (h - sh) as u32 },
        };
        let left = if h == sh {
            leaf_bin(column, true)
        } else {
            node_bin(column, leaf_bin(placed, true), leaf_bin(below, false))
        };
        node_bin(rect, left, leaf_bin(right, false))
    } else {
        let row = Rect { origin: rect.origin, size: Size2D { width: rect.size.width, height: size.height } };
        let right = Rect {
            origin: Point2D { x: rect.origin.x, y: (y + sh) as u32 },
            size: Size2D { width: rect.size.width, height: (h - sh) as u32 },
        };
        let beside = Rect {
            origin: Point2D { x: (x + sw) as u32, y: rect.origin.y },
            size: Size2D { width: (w - sw) as u32, height: size.height },
        };
        let left = if w == sw {
            leaf_bin(row, true)
        } else {
            node_bin(row, leaf_bin(placed, true), leaf_bin(beside, false))
        };
        node_bin(rect, left, leaf_bin(right, false))
    }
}

impl Bin {
    /// Every inner node is split exactly by its children and is never full.
    pub open spec fn wf(self) -> bool
        decreases self,
    {
        &&& rect_in_range(self.rect)
        &&& match self.children {
            Some((l, r)) => {
                &&& !self.full
                &&& is_split(self.rect, l.rect, r.rect)
                &&& l.wf()
                &&& r.wf()
            },
            None => true,
        }
    }

    /// The rectangles of the leaves, left to right.
    pub open spec fn leaves(self) -> Seq<Rect<u32>>
        decreases self,
    {
        match self.children {
            Some((l, r)) => l.leaves() + r.leaves(),
            None => seq![self.rect],
        }
    }

    /// The rectangles handed out so far: those of the full leaves.
    pub open spec fn allocated(self) -> Set<Rect<u32>>
        decreases self,
    {
        match self.children {
            Some((l, r)) => l.allocated().union(r.allocated()),
            None => if self.full {
                set![self.rect]
            } else {
                Set::empty()
            },
        }
    }

    /// Where the next rectangle of `size` goes: the origin of the leftmost free leaf
    /// that it fits in, if any.
    pub open spec fn first_fit(self, size: Size2D<u32>) -> Option<Point2D<u32>>
        decreases self,
    {
        match self.children {
            Some((l, r)) => match l.first_fit(size) {
                Some(p) => Some(p),
                None => r.first_fit(size),
            },
            None => if !self.full && fits(self.rect, size) {
                Some(self.rect.origin)
            } else {
                None
            },
        }
    }

    /// The tree after placing a rectangle of `size` in the leftmost free leaf that it
    /// fits in; the tree itself where it fits nowhere.
    pub open spec fn inserted(self, size: Size2D<u32>) -> Bin
        decreases self,
    {
        match self.children {
            Some((l, r)) => if l.first_fit(size) is Some {
                Bin { children: Some((Box::new(l.inserted(size)), r)), ..self }
            } else if r.first_fit(size) is Some {
                Bin { children: Some((l, Box::new(r.inserted(size)))), ..self }
            } else {
                self
            },
            None => if !self.full && fits(self.rect, size) {
                placed_leaf(self.rect, size)
            } else {
                self
            },
        }
    }

    pub fn new(rect: &Rect<u32>) -> (b: Bin)
        ensures
            b.rect == *rect,
            b.children.is_none(),
            !b.full,
            b.allocated() == Set::<Rect<u32>>::empty(),
    {
        Bin { children: None, rect: *rect, full: false }
    }

    fn leaf(rect: Rect<u32>, full: bool) -> (b: Bin)
        requires
            rect_in_range(rect),
        ensures
            b.wf(),
            b.rect == rect,
            b.children.is_none(),
            b.full == full,
            b == leaf_bin(rect, full),
    {
        Bin { children: None, rect, full }
    }

    fn node(rect: Rect<u32>, left: Bin, right: Bin) -> (b: Bin)
        requires
            rect_in_range(rect),
            is_split(rect, left.rect, right.rect),
            left.wf(),
            right.wf(),
        ensures
            b.wf(),
            b.rect == rect,
            b.allocated() == left.allocated().union(right.allocated()),
            b.children == Some((Box::new(left), Box::new(right))),
            b == node_bin(rect, left, right),
    {
        Bin { children: Some((Box::new(left), Box::new(right))), rect, full: false }
    }

    /// Places a rectangle of `size` at the origin of the free leaf `rect`, splitting
    /// off what is left over: first along the axis with more room to spare, then
    /// along the other.
    fn place_in_leaf(rect: Rect<u32>, size: Size2D<u32>) -> (b: Bin)
        requires
            rect_in_range(rect),
            fits(rect, size),
        ensures
            b.wf(),
            b.rect == rect,
            b.allocated() == set![Rect { origin: rect.origin, size }],
            b == placed_leaf(rect, size),
    {
        let placed = Rect { origin: rect.origin, size };
        let ghost target = set![placed];
        let (x, y) = (rect.origin.x, rect.origin.y);
        let (w, h) = (rect.size.width, rect.size.height);
        if w == size.width && h == size.height {
            let b = Bin::leaf(rect, true);
            assert(b.allocated() =~= target);
            return b;
        }
        let extra_width = w - size.width;
        let extra_height = h - size.height;
        if extra_width > extra_height {
            let right = Bin::leaf(
                Rect { origin: Point2D { x: x + size.width, y }, size: Size2D { width: w - size.width, height: h } },
                false,
            );
            let column = Rect { origin: rect.origin, size: Size2D { width: size.width, height: h } };
            let left = if h == size.height {
                Bin::leaf(column, true)
            } else {
                let below = Bin::leaf(
                    Rect { origin: Point2D { x, y: y + size.height }, size: Size2D { width: size.width, height: h - size.height } },
                    false,
                );
                Bin::node(column, Bin::leaf(placed, true), below)
            };
            assert(left.allocated() =~= target);
            let b = Bin::node(rect, left, right);
            assert(b.allocated() =~= target);
            b
        } else {
            let right = Bin::leaf(
                Rect { origin: Point2D { x, y: y + size.height }, size: Size2D { width: w, height: h - size.height } },
                false,
            );
            let row = Rect { origin: rect.origin, size: Size2D { width: w, height: size.height } };
            let left = if w == size.width {
                Bin::leaf(row, true)
            } else {
                let beside = Bin::leaf(
                    Rect { origin: Point2D { x: x + size.width, y }, size: Size2D { width: w - size.width, height: size.height } },
                    false,
                );
                Bin::node(row, Bin::leaf(placed, true), beside)
            };
            assert(left.allocated() =~= target);
            let b = Bin::node(rect, left, right);
            assert(b.allocated() =~= target);
            b
        }
    }

    /// Reserves a rectangle of `size` in the leftmost free leaf that it fits in, and
    /// returns its origin; returns `None`, and changes nothing, where none fits.
    pub fn insert(&mut self, size: &Size2D<u32>) -> (r: Option<Point2D<u32>>)
        requires
            old(self).wf(),
        ensures
            final(self).wf(),
            final(self).rect == old(self).rect,
            r == old(self).first_fit(*size),
            *final(self) == old(self).inserted(*size),
            match r {
                Some(p) => {
                    let placed = Rect { origin: p, size: *size };
                    &&& contains_rect(old(self).rect, placed)
                    &&& forall|a| #[trigger] old(self).allocated().contains(a) ==> disjoint(placed, a)
                    &&& final(self).allocated() == old(self).allocated().insert(placed)
                },
                None => *final(self) == *old(self),
            },
        decreases *old(self),
    {
        proof {
            lemma_allocated_within(*self);
        }
        match self.children.take() {
            Some((mut left, mut right)) => {
                proof {
                    lemma_allocated_within(*left);
                    lemma_allocated_within(*right);
                }
                let r = match (&mut *left).insert(size) {
                    Some(p) => Some(p),
                    None => (&mut *right).insert(size),
                };
                self.children = Some((left, right));
                proof {
                    if r.is_some() {
                        let placed = Rect { origin: r.unwrap(), size: *size };
                        let (l0, r0) = old(self).children.unwrap();
                        assert(old(self).allocated() == l0.allocated().union(r0.allocated()));
                        assert(self.allocated() =~= old(self).allocated().insert(placed));
                        assert forall|a| #[trigger] old(self).allocated().contains(a) implies disjoint(
                            placed,
                            a,
                        ) by {
                            if l0.allocated().contains(a) {
                                assert(contains_rect(l0.rect, a));
                            } else {
                                assert(r0.allocated().contains(a));
                                assert(contains_rect(r0.rect, a));
                            }
                        }
                    }
                }
                return r;
            },
            None => {},
        }
        if self.full || self.rect.size.width < size.width || self.rect.size.height < size.height {
            return None;
        }
        let placed = Bin::place_in_leaf(self.rect, *size);
        *self = placed;
        proof {
            assert(self.allocated() =~= old(self).allocated().insert(
                Rect { origin: self.rect.origin, size: *size },
            ));
        }
        Some(self.rect.origin)
    }
}

/// Every rectangle handed out lies within the bin's own.
pub proof fn lemma_allocated_within(b: Bin)
    requires
        b.wf(),
    ensures
        forall|a| #[trigger] b.allocated().contains(a) ==> contains_rect(b.rect, a),
    decreases b,
{
    match b.children {
        Some((l, r)) => {
            lemma_allocated_within(*l);
            lemma_allocated_within(*r);
            assert forall|a| #[trigger] b.allocated().contains(a) implies contains_rect(b.rect, a) by {
                if l.allocated().contains(a) {
                    assert(contains_rect(l.rect, a));
                } else {
                    assert(b.allocated() == l.allocated().union(r.allocated()));
                    assert(r.allocated().contains(a));
                }
            }
        },
        None => {
            assert forall|a| #[trigger] b.allocated().contains(a) implies contains_rect(b.rect, a) by {
                assert(a == b.rect);
            }
        },
    }
}



/// The areas of a split add up to the area of the rectangle split.
proof fn lemma_split_area(parent: Rect<u32>, left: Rect<u32>, right: Rect<u32>)
    requires
        is_split(parent, left, right),
    ensures
        area(parent) == area(left) + area(right),
{
    let (pw, ph) = (parent.size.width as int, parent.size.height as int);
    let (lw, lh) = (left.size.width as int, left.size.height as int);
    if lh == ph && right.size.width == pw - lw {
        assert(pw * ph == lw * ph + (pw - lw) * ph) by (nonlinear_arith);
    } else {
        assert(pw * ph == pw * lh + pw * (ph - lh)) by (nonlinear_arith);
    }
}

proof fn lemma_sum_areas_concat(a: Seq<Rect<u32>>, b: Seq<Rect<u32>>)
    ensures
        sum_areas(a + b) == sum_areas(a) + sum_areas(b),
    decreases b.len(),
{
    if b.len() == 0 {
        assert(a + b =~= a);
    } else {
        lemma_sum_areas_concat(a, b.drop_last());
        assert((a + b).drop_last() =~= a + b.drop_last());
        assert((a + b).last() == b.last());
    }
}

/// Space is conserved: the leaves of a well-formed bin tile its rectangle, so their
/// areas add up to the area of the whole.
pub proof fn lemma_leaves_conserve_area(b: Bin)
    requires
        b.wf(),
    ensures
        sum_areas(b.leaves()) == area(b.rect),
    decreases b,
{
    match b.children {
        Some((l, r)) => {
            lemma_leaves_conserve_area(*l);
            lemma_leaves_conserve_area(*r);
            lemma_sum_areas_concat(l.leaves(), r.leaves());
            lemma_split_area(b.rect, l.rect, r.rect);
            assert(b.leaves() == l.leaves() + r.leaves());
            assert(area(b.rect) == area(l.rect) + area(r.rect));
        },
        None => {
            assert(seq![b.rect].drop_last() =~= Seq::<Rect<u32>>::empty());
            assert(sum_areas(Seq::<Rect<u32>>::empty()) == 0);
        },
    }
}

/// The leaves of a well-formed bin tile its rectangle: each lies inside it, and no
/// two overlap.
pub proof fn lemma_leaves_tile(b: Bin)
    requires
        b.wf(),
    ensures
        forall|i: int| 0 <= i < b.leaves().len() ==> contains_rect(b.rect, #[trigger] b.leaves()[i]),
        forall|i: int, j: int|
            0 <= i < b.leaves().len() && 0 <= j < b.leaves().len() && i != j ==> disjoint(
                #[trigger] b.leaves()[i],
                #[trigger] b.leaves()[j],
            ),
    decreases b,
{
    match b.children {
        Some((l, r)) => {
            lemma_leaves_tile(*l);
            lemma_leaves_tile(*r);
            let (ls, rs) = (l.leaves(), r.leaves());
            assert(b.leaves() == ls + rs);
            assert forall|i: int| 0 <= i < b.leaves().len() implies contains_rect(b.rect, #[trigger] b.leaves()[i]) by {
                if i < ls.len() {
                    assert(b.leaves()[i] == ls[i]);
                    assert(contains_rect(l.rect, ls[i]));
                } else {
                    assert(b.leaves()[i] == rs[i - ls.len()]);
                    assert(contains_rect(r.rect, rs[i - ls.len()]));
                }
            }
            assert forall|i: int, j: int|
                0 <= i < b.leaves().len() && 0 <= j < b.leaves().len() && i != j implies disjoint(
                #[trigger] b.leaves()[i],
                #[trigger] b.leaves()[j],
            ) by {
                let n = ls.len() as int;
                if i < n && j < n {
                    assert(b.leaves()[i] == ls[i] && b.leaves()[j] == ls[j]);
                } else if i >= n && j >= n {
                    assert(b.leaves()[i] == rs[i - n] && b.leaves()[j] == rs[j - n]);
                } else if i < n {
                    assert(b.leaves()[i] == ls[i] && b.leaves()[j] == rs[j - n]);
                    assert(contains_rect(l.rect, ls[i]));
                    assert(contains_rect(r.rect, rs[j - n]));
                } else {
                    assert(b.leaves()[j] == ls[j] && b.leaves()[i] == rs[i - n]);
                    assert(contains_rect(l.rect, ls[j]));
                    assert(contains_rect(r.rect, rs[i - n]));
                }
            }
        },
        None => {
            assert(b.leaves() == seq![b.rect]);
        },
    }
}

/// Which part of the atlas an asset occupies.
#[derive(Clone, Copy, Debug, PartialEq, Eq, Structural)]
pub struct AtlasLocation {
    pub rect: Rect<u32>,
}

/// A reference to an object in the atlas.
#[derive(Clone, Copy, Debug, PartialEq, Eq, Structural)]
pub struct AtlasHandle {
    pub location: AtlasLocation,
}

/// Priority of assets in the atlas, from lowest to highest.
#[derive(Clone, Copy, Debug, PartialEq, Eq, Structural)]
pub enum Priority {
    /// An item in the retained display list needs this asset.
    Retained,
}

/// Why the atlas could not place an object.
#[derive(Clone, Copy, Debug, PartialEq, Eq, Structural)]
pub enum AtlasError {
    /// No free region is large enough.
    AtlasOutOfSpace,
}

/// The rectangle of the whole atlas texture.
pub open spec fn atlas_bounds() -> Rect<u32> {
    Rect { origin: Point2D { x: 0, y: 0 }, size: Size2D { width: WIDTH, height: HEIGHT } }
}

/// The packing state of the atlas texture. `issued` records every rectangle handed
/// out, in order.
pub struct Atlas {
    /// The name of the texture that the atlas lives in.
    pub texture: u32,
    pub root_bin: Bin,
    pub issued: Ghost<Seq<Rect<u32>>>,
}

impl Atlas {
    /// The partition covers the texture, and the rectangles handed out are regions of
    /// it, each inside the texture and no two overlapping.
    pub open spec fn wf(self) -> bool {
        &&& self.root_bin.wf()
        &&& self.root_bin.rect == atlas_bounds()
        &&& forall|i: int| 0 <= i < self.issued@.len() ==> self.root_bin.allocated().contains(#[trigger] self.issued@[i])
        &&& forall|i: int| 0 <= i < self.issued@.len() ==> contains_rect(atlas_bounds(), #[trigger] self.issued@[i])
        &&& forall|i: int, j: int|
            0 <= i < self.issued@.len() && 0 <= j < self.issued@.len() && i != j ==> disjoint(
                #[trigger] self.issued@[i],
                #[trigger] self.issued@[j],
            )
    }

    /// An empty atlas in the texture named `texture`.
    pub fn new(texture: u32) -> (a: Atlas)
        ensures
            a.wf(),
            a.texture == texture,
            a.issued@ == Seq::<Rect<u32>>::empty(),
            a.root_bin.allocated() == Set::<Rect<u32>>::empty(),
            a.root_bin == leaf_bin(atlas_bounds(), false),
    {
        let bounds = Rect { origin: Point2D { x: 0, y: 0 }, size: Size2D { width: WIDTH, height: HEIGHT } };
        Atlas { texture, root_bin: Bin::new(&bounds), issued: Ghost(Seq::empty()) }
    }

    /// The texels that the atlas texture starts out with: opaque blue, row by row.
    pub fn initial_texels() -> (r: Vec<u8>)
        ensures
            r@.len() == WIDTH * HEIGHT * 4,
            forall|i: int| 0 <= i < WIDTH * HEIGHT ==> #[trigger] r@.subrange(4 * i, 4 * i + 4) == seq![0u8, 0, 255, 255],
    {
        let count: usize = (WIDTH as usize) * (HEIGHT as usize);
        let mut texels: Vec<u8> = Vec::new();
        let mut i: usize = 0;
        while i < count
            invariant
                i <= count,
                count == WIDTH * HEIGHT,
                texels@.len() == 4 * i,
                forall|j: int| 0 <= j < i ==> #[trigger] texels@.subrange(4 * j, 4 * j + 4) == seq![0u8, 0, 255, 255],
            decreases count - i,
        {
            let ghost before = texels@;
            texels.push(0);
            texels.push(0);
            texels.push(255);
            texels.push(255);
            proof {
                assert forall|j: int| 0 <= j < i + 1 implies #[trigger] texels@.subrange(4 * j, 4 * j + 4) == seq![
                    0u8,
                    0,
                    255,
                    255,
                ] by {
                    if j < i {
                        assert(texels@.subrange(4 * j, 4 * j + 4) =~= before.subrange(4 * j, 4 * j + 4));
                    } else {
                        assert(texels@.subrange(4 * j, 4 * j + 4) =~= seq![0u8, 0, 255, 255]);
                    }
                }
            }
            i = i + 1;
        }
        texels
    }

    /// Reserves a region of `size` at the first free place that the partition offers.
    pub fn allocate(&mut self, priority: Priority, size: &Size2D<u32>) -> (r: Result<AtlasLocation, AtlasError>)
        requires
            old(self).wf(),
        ensures
            final(self).wf(),
            final(self).texture == old(self).texture,
            match r {
                Ok(location) => {
                    &&& old(self).root_bin.first_fit(*size) == Some(location.rect.origin)
                    &&& location.rect.size == *size
                    &&& final(self).root_bin == old(self).root_bin.inserted(*size)
                    &&& final(self).issued@ == old(self).issued@.push(location.rect)
                    &&& final(self).root_bin.allocated() == old(self).root_bin.allocated().insert(location.rect)
                    &&& forall|a| #[trigger] old(self).root_bin.allocated().contains(a) ==> disjoint(location.rect, a)
                },
                Err(e) => {
                    &&& e == AtlasError::AtlasOutOfSpace
                    &&& old(self).root_bin.first_fit(*size).is_none()
                    &&& *final(self) == *old(self)
                },
            },
    {
        match self.root_bin.insert(size) {
            Some(point) => {
                let location = AtlasLocation { rect: Rect { origin: point, size: *size } };
                proof {
                    let old_issued = self.issued@;
                    self.issued@ = old_issued.push(location.rect);
                    assert forall|i: int| 0 <= i < old_issued.len() implies disjoint(
                        location.rect,
                        #[trigger] old_issued[i],
                    ) by {
                        assert(old(self).root_bin.allocated().contains(old_issued[i]));
                    }
                    assert forall|i: int, j: int|
                        0 <= i < self.issued@.len() && 0 <= j < self.issued@.len() && i != j implies disjoint(
                        #[trigger] self.issued@[i],
                        #[trigger] self.issued@[j],
                    ) by {
                        if i == old_issued.len() {
                            assert(disjoint(location.rect, old_issued[j]));
                        } else if j == old_issued.len() {
                            assert(disjoint(location.rect, old_issued[i]));
                        }
                    }
                }
                Ok(location)
            },
            None => Err(AtlasError::AtlasOutOfSpace),
        }
    }
}

impl Atlas {
    /// Makes sure that the asset's rasterization has a place in the atlas. Returns the
    /// region newly given to it, whose texels the caller then uploads from the
    /// asset's data; or `None` where the asset was already in the atlas. An asset
    /// that has not been scheduled, or that waits for its dependency, is refused.
    pub fn require_asset(&mut self, asset: &mut Asset, priority: Priority) -> (r: Result<
        Option<AtlasLocation>,
        AssetError,
    >)
        requires
            old(self).wf(),
            !(old(asset).rasterization_status is Pending),
            !(old(asset).rasterization_status is WaitingForDependency),
        ensures
            final(self).wf(),
            final(self).texture == old(self).texture,
            old(asset).rasterization_status is InAtlas ==> r == Ok::<Option<AtlasLocation>, AssetError>(None),
            match r {
                Ok(Some(location)) => {
                    let raster = old(asset).held_rasterization().unwrap();
                    &&& old(asset).rasterization_status is InMemory
                    &&& old(self).root_bin.first_fit(raster.size) == Some(location.rect.origin)
                    &&& location.rect.size == raster.size
                    &&& final(self).root_bin == old(self).root_bin.inserted(raster.size)
                    &&& final(self).issued@ == old(self).issued@.push(location.rect)
                    &&& final(self).root_bin.allocated() == old(self).root_bin.allocated().insert(location.rect)
                    &&& forall|a| #[trigger] old(self).root_bin.allocated().contains(a) ==> disjoint(location.rect, a)
                    &&& *final(asset) == old(asset).with_status(
                        AssetRasterizationStatus::InAtlas(raster, AtlasHandle { location }),
                    )
                },
                Ok(None) => {
                    &&& old(asset).rasterization_status is InAtlas
                    &&& *final(self) == *old(self)
                    &&& *final(asset) == *old(asset)
                },
                Err(e) => {
                    &&& *final(self) == *old(self)
                    &&& *final(asset) == *old(asset)
                    &&& e == AssetError::NotYetReceived <==> old(asset).rasterization_status is Waiting
                    &&& e != AssetError::InvalidStateTransition
                    &&& e == AssetError::AtlasOutOfSpace <==> (
                        old(asset).rasterization_status is InMemory
                        && old(self).root_bin.first_fit(old(asset).held_rasterization().unwrap().size).is_none())
                },
            },
    {
        if asset.is_in_atlas() {
            return Ok(None);
        }
        let location = match asset.get_rasterization() {
            Ok(raster) => match self.allocate(priority, &raster.size) {
                Ok(location) => location,
                Err(_) => return Err(AssetError::AtlasOutOfSpace),
            },
            Err(e) => return Err(e),
        };
        asset.set_atlas_handle(AtlasHandle { location });
        Ok(Some(location))
    }
}

/// Any two regions that the atlas has handed out lie inside the texture and do not
/// overlap.
pub proof fn lemma_issued_regions_disjoint(atlas: Atlas, i: int, j: int)
    requires
        atlas.wf(),
        0 <= i < atlas.issued@.len(),
        0 <= j < atlas.issued@.len(),
        i != j,
    ensures
        disjoint(atlas.issued@[i], atlas.issued@[j]),
        contains_rect(atlas_bounds(), atlas.issued@[i]),
{
}

} // verus!
