//! The particle field: a fixed population, created once and updated in place
//! every frame.
use crate::particle::{
    spawned, stepped, valid_friction, Particle, Vector2, SCREEN_HEIGHT, SCREEN_WIDTH,
};
use crate::fixed::SCALE;
use vstd::prelude::*;

verus! {

/// Number of particles in the field.
pub const PARTICLE_COUNT: usize = 100_000;

/// The field after one frame: every particle stepped on its own.
pub open spec fn frame(
    field: Seq<Particle>,
    pointer: Vector2,
    amount: int,
    w: int,
    h: int,
) -> Seq<Particle> {
    field.map_values(|q: Particle| stepped(q, pointer, amount, w, h))
}

/// Every particle of the field is well formed.
pub open spec fn all_wf(field: Seq<Particle>) -> bool {
    forall|i: int| 0 <= i < field.len() ==> (#[trigger] field[i]).wf()
}

/// A field of `count` particles, each at a random position and velocity on a
/// `screen_width` by `screen_height` canvas.
pub fn new_field(count: usize, screen_width: &i32, screen_height: &i32) -> (r: Vec<Particle>)
    requires
        *screen_width > 1,
        *screen_height > 1,
    ensures
        r@.len() == count,
        all_wf(r@),
        forall|i: int|
            0 <= i < count ==> spawned(
                #[trigger] r@[i],
                *screen_width as int,
                *screen_height as int,
            ),
{
    let mut particles: Vec<Particle> = Vec::with_capacity(count);
    let mut i: usize = 0;
    while i < count
        invariant
            i <= count,
            particles@.len() == i,
            *screen_width > 1,
            *screen_height > 1,
            all_wf(particles@),
            forall|j: int|
                0 <= j < i ==> spawned(
                    #[trigger] particles@[j],
                    *screen_width as int,
                    *screen_height as int,
                ),
        decreases count - i,
    {
        particles.push(Particle::new(screen_width, screen_height));
        i = i + 1;
    }
    particles
}

/// One frame of the whole field: each particle in turn is attracted to
/// `pointer`, damped by `friction` and moved.
pub fn update_field(
    particles: &mut Vec<Particle>,
    pointer: &Vector2,
    friction: i64,
    screen_width: &i32,
    screen_height: &i32,
)
    requires
        all_wf(old(particles)@),
        valid_friction(friction as int),
        *screen_width == SCREEN_WIDTH,
        *screen_height == SCREEN_HEIGHT,
    ensures
        final(particles)@ == frame(
            old(particles)@,
            *pointer,
            friction as int,
            *screen_width as int,
            *screen_height as int,
        ),
        all_wf(final(particles)@),
        forall|i: int|
            0 <= i < final(particles)@.len() ==> {
                &&& 0 <= (#[trigger] final(particles)@[i]).pos.x <= *screen_width as int * SCALE
                &&& 0 <= final(particles)@[i].pos.y <= *screen_height as int * SCALE
            },
{
    let ghost start = particles@;
    let ghost target = frame(
        start,
        *pointer,
        friction as int,
        *screen_width as int,
        *screen_height as int,
    );
    let n = particles.len();
    let mut i: usize = 0;
    while i < n
        invariant
            i <= n,
            n == start.len(),
            particles@.len() == n,
            valid_friction(friction as int),
            *screen_width == SCREEN_WIDTH,
            *screen_height == SCREEN_HEIGHT,
            target == frame(
                start,
                *pointer,
                friction as int,
                *screen_width as int,
                *screen_height as int,
            ),
            all_wf(start),
            forall|j: int| 0 <= j < i ==> #[trigger] particles@[j] == target[j],
            forall|j: int| i <= j < n ==> #[trigger] particles@[j] == start[j],
            forall|j: int|
                0 <= j < i ==> {
                    &&& (#[trigger] particles@[j]).wf()
                    &&& 0 <= particles@[j].pos.x <= *screen_width as int * SCALE
                    &&& 0 <= particles@[j].pos.y <= *screen_height as int * SCALE
                },
        decreases n - i,
    {
        let mut q = particles[i];
        q.update(pointer, friction, screen_width, screen_height);
        particles.set(i, q);
        i = i + 1;
    }
    assert(particles@ =~= target);
}

} // verus!
