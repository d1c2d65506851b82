//! The mutation proposer: random shapes to start from, and the random change
//! of one vertex or one colour channel that each trial tries.
//!
//! Every proposal is drawn afresh. Nothing is remembered from one proposal to
//! the next, and nothing favours a change that is close to the shape it
//! replaces.

use rand::Rng;
use vstd::prelude::*;
use crate::color::Color;
use crate::geometry::{Point, Triangle};

verus! {

/// `Rng::gen_range` on `rand::thread_rng()`, over `0..bound`. It panics on
/// an empty range; on any other it hands back a number of the range. Which
/// one is up to the generator, so two calls may differ.
#[verifier::external_body]
fn random_below(bound: usize) -> (r: usize)
    requires
        bound > 0,
    ensures
        r < bound,
{
    rand::thread_rng().gen_range(0..bound)
}

/// `Rng::gen` on `rand::thread_rng()`, at type `u8`: some byte.
#[verifier::external_body]
fn random_byte() -> u8 {
    rand::thread_rng().gen()
}

/// One of the three vertices of a triangle.
#[derive(Clone, Copy, Debug, PartialEq, Eq, Structural)]
pub enum Corner {
    A,
    B,
    C,
}

/// One of the four channels of a colour.
#[derive(Clone, Copy, Debug, PartialEq, Eq, Structural)]
pub enum Channel {
    Red,
    Green,
    Blue,
    Alpha,
}

/// A change to one shape: one vertex moved, or one colour channel set.
#[derive(Clone, Copy, Debug, PartialEq, Eq, Structural)]
pub enum Mutation {
    MoveVertex(Corner, Point),
    SetChannel(Channel, u8),
}

impl Corner {
    /// The corner with number `i`, counted from 0.
    pub open spec fn at(i: int) -> Corner {
        if i == 0 {
            Corner::A
        } else if i == 1 {
            Corner::B
        } else {
            Corner::C
        }
    }

    /// The corner with the given number: 0, 1 or 2.
    pub fn from_index(i: usize) -> (corner: Corner)
        requires
            i < 3,
        ensures
            corner == Corner::at(i as int),
    {
        if i == 0 {
            Corner::A
        } else if i == 1 {
            Corner::B
        } else {
            Corner::C
        }
    }
}

impl Channel {
    /// The channel with number `i`, counted from 0.
    pub open spec fn at(i: int) -> Channel {
        if i == 0 {
            Channel::Red
        } else if i == 1 {
            Channel::Green
        } else if i == 2 {
            Channel::Blue
        } else {
            Channel::Alpha
        }
    }

    /// The channel with the given number: 0, 1, 2 or 3.
    pub fn from_index(i: usize) -> (channel: Channel)
        requires
            i < 4,
        ensures
            channel == Channel::at(i as int),
    {
        if i == 0 {
            Channel::Red
        } else if i == 1 {
            Channel::Green
        } else if i == 2 {
            Channel::Blue
        } else {
            Channel::Alpha
        }
    }
}

impl Mutation {
    /// A moved vertex stays inside a `width` by `height` image.
    pub open spec fn fits(self, width: int, height: int) -> bool {
        self matches Mutation::MoveVertex(_, p) ==> p.within(width, height)
    }

    /// The shape that the mutation makes of `t`: `t` with the one vertex or
    /// the one channel replaced, and the rest as it was.
    pub open spec fn applied(self, t: Triangle) -> Triangle {
        match self {
            Mutation::MoveVertex(Corner::A, p) => Triangle { a: p, ..t },
            Mutation::MoveVertex(Corner::B, p) => Triangle { b: p, ..t },
            Mutation::MoveVertex(Corner::C, p) => Triangle { c: p, ..t },
            Mutation::SetChannel(Channel::Red, v) => Triangle {
                color: Color { r: v, ..t.color },
                ..t
            },
            Mutation::SetChannel(Channel::Green, v) => Triangle {
                color: Color { g: v, ..t.color },
                ..t
            },
            Mutation::SetChannel(Channel::Blue, v) => Triangle {
                color: Color { b: v, ..t.color },
                ..t
            },
            Mutation::SetChannel(Channel::Alpha, v) => Triangle {
                color: Color { a: v, ..t.color },
                ..t
            },
        }
    }

    /// Applies the mutation to a copy of `t`.
    pub fn apply(&self, t: &Triangle) -> (out: Triangle)
        ensures
            out == self.applied(*t),
    {
        let mut out = *t;
        match *self {
            Mutation::MoveVertex(Corner::A, p) => {
                out.a = p;
            },
            Mutation::MoveVertex(Corner::B, p) => {
                out.b = p;
            },
            Mutation::MoveVertex(Corner::C, p) => {
                out.c = p;
            },
            Mutation::SetChannel(Channel::Red, v) => {
                out.color.r = v;
            },
            Mutation::SetChannel(Channel::Green, v) => {
                out.color.g = v;
            },
            Mutation::SetChannel(Channel::Blue, v) => {
                out.color.b = v;
            },
            Mutation::SetChannel(Channel::Alpha, v) => {
                out.color.a = v;
            },
        }
        out
    }
}

/// A random point of a `w` by `h` image.
pub fn random_point(w: u32, h: u32) -> (p: Point)
    requires
        w > 0,
        h > 0,
    ensures
        p.within(w as int, h as int),
{
    Point { x: random_below(w as usize) as u32, y: random_below(h as usize) as u32 }
}

/// A random colour: four random bytes.
pub fn random_color_rgba() -> Color {
    Color { r: random_byte(), g: random_byte(), b: random_byte(), a: random_byte() }
}

/// A random triangle on a `w` by `h` image: three random points and a
/// random colour.
pub fn random_triangle(w: u32, h: u32) -> (t: Triangle)
    requires
        w > 0,
        h > 0,
    ensures
        t.within(w as int, h as int),
{
    Triangle {
        a: random_point(w, h),
        b: random_point(w, h),
        c: random_point(w, h),
        color: random_color_rgba(),
    }
}

/// A list of `n` random triangles on a `w` by `h` image.
pub fn random_shapes(n: usize, w: u32, h: u32) -> (shapes: Vec<Triangle>)
    requires
        w > 0,
        h > 0,
    ensures
        shapes.len() == n,
        forall|i: int| 0 <= i < n ==> (#[trigger] shapes[i]).within(w as int, h as int),
{
    let mut shapes: Vec<Triangle> = Vec::new();
    while shapes.len() < n
        invariant
            w > 0,
            h > 0,
            shapes.len() <= n,
            forall|i: int|
                0 <= i < shapes.len() ==> (#[trigger] shapes[i]).within(w as int, h as int),
        decreases n - shapes.len(),
    {
        shapes.push(random_triangle(w, h));
    }
    shapes
}

/// The mutation that four drawn numbers stand for. `kind` 1 moves a vertex:
/// the one with number `which`, to `point`. `kind` 0 sets a colour channel:
/// the one with number `which`, to `value`. What the kind does not use is
/// left aside.
pub open spec fn mutation_of_draws(kind: int, which: int, point: Point, value: u8) -> Mutation {
    if kind == 1 {
        Mutation::MoveVertex(Corner::at(which), point)
    } else {
        Mutation::SetChannel(Channel::at(which), value)
    }
}

/// Turns four drawn numbers into the mutation they stand for.
pub fn mutation_from_draws(kind: usize, which: usize, point: Point, value: u8) -> (m: Mutation)
    requires
        kind < 2,
        which < 4,
        kind == 1 ==> which < 3,
    ensures
        m == mutation_of_draws(kind as int, which as int, point, value),
{
    if kind == 1 {
        Mutation::MoveVertex(Corner::from_index(which), point)
    } else {
        Mutation::SetChannel(Channel::from_index(which), value)
    }
}

/// A random mutation for a shape of a `w` by `h` image: with even odds a
/// vertex, any of the three, moved to a random point of the image, or a
/// colour channel, any of the four, set to a random byte. It draws the
/// kind, then the vertex or the channel, then a point and a byte, and hands
/// the four to `mutation_from_draws`.
pub fn random_mutation(w: u32, h: u32) -> (m: Mutation)
    requires
        w > 0,
        h > 0,
    ensures
        m.fits(w as int, h as int),
{
    let kind = random_below(2);
    let which = if kind == 1 { random_below(3) } else { random_below(4) };
    let point = random_point(w, h);
    let value = random_below(256) as u8;
    mutation_from_draws(kind, which, point, value)
}

/// `candidate` in slot `i` is a proposal that the proposer can make for
/// `shapes` on a `width` by `height` image: the shape of that slot with one
/// vertex moved to a pixel of the image, or with one colour channel set.
pub open spec fn is_proposal(
    shapes: Seq<Triangle>,
    width: int,
    height: int,
    i: int,
    candidate: Triangle,
) -> bool {
    &&& 0 <= i < shapes.len()
    &&& exists|m: Mutation| m.fits(width, height) && candidate == #[trigger] m.applied(shapes[i])
}

/// Proposes a trial: picks a random slot of the list and a random mutation,
/// and hands back the slot with the mutated copy of its shape. The list
/// itself is not touched.
pub fn mutate(shapes: &Vec<Triangle>, w: u32, h: u32) -> (out: (usize, Triangle))
    requires
        shapes.len() > 0,
        w > 0,
        h > 0,
    ensures
        out.0 < shapes.len(),
        is_proposal(shapes@, w as int, h as int, out.0 as int, out.1),
{
    let index = random_below(shapes.len());
    let m = random_mutation(w, h);
    let new_shape = m.apply(&shapes[index]);
    (index, new_shape)
}

} // verus!
