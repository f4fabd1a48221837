use vstd::prelude::*;
use crate::boid::Boid;
use crate::obstacle::{border, push_edge_walk, Edge, Obstacle};

verus! {

/// The world: its half-extents, the flock and the obstacle border.
#[derive(Debug)]
pub struct Environment<T> {
    pub width: T,
    pub height: T,
    pub boids: Vec<Boid<T>>,
    pub obstacles: Vec<Obstacle>,
}

impl<T: Copy> Environment<T> {
    /// A world with the given half-extents, an empty flock, and the obstacle
    /// border between the given whole-number corners.
    pub fn new(width: T, height: T, left: i32, right: i32, bottom: i32, top: i32) -> (env: Self)
        ensures
            env.width == width,
            env.height == height,
            env.boids@ == Seq::<Boid<T>>::empty(),
            env.obstacles@ == border(left as int, right as int, bottom as int, top as int),
    {
        Environment {
            width,
            height,
            boids: Vec::new(),
            obstacles: Self::initialize_obstacles(left, right, bottom, top),
        }
    }

    /// Appends `num_boids` boids to the flock, each made by one call of
    /// `spawn` on the half-extents. Boids already in the flock stay as they
    /// are and where they are.
    pub fn initialize_boids<F>(&mut self, num_boids: usize, spawn: F) where F: Fn(T, T) -> Boid<T>
        requires
            num_boids > 0 ==> call_requires(spawn, (old(self).width, old(self).height)),
        ensures
            final(self).width == old(self).width,
            final(self).height == old(self).height,
            final(self).obstacles == old(self).obstacles,
            final(self).boids@.len() == old(self).boids@.len() + num_boids,
            final(self).boids@.take(old(self).boids@.len() as int) == old(self).boids@,
            forall|i: int|
                old(self).boids@.len() <= i < final(self).boids@.len() ==> call_ensures(
                    spawn,
                    (old(self).width, old(self).height),
                    #[trigger] final(self).boids@[i],
                ),
    {
        let ghost before = self.boids@;
        let mut made: usize = 0;
        while made < num_boids
            invariant
                made <= num_boids,
                self.width == old(self).width,
                self.height == old(self).height,
                self.obstacles == old(self).obstacles,
                before == old(self).boids@,
                num_boids > 0 ==> call_requires(spawn, (self.width, self.height)),
                self.boids@.len() == before.len() + made,
                self.boids@.take(before.len() as int) =~= before,
                forall|i: int|
                    before.len() <= i < self.boids@.len() ==> call_ensures(
                        spawn,
                        (self.width, self.height),
                        #[trigger] self.boids@[i],
                    ),
            decreases num_boids - made,
        {
            let boid = spawn(self.width, self.height);
            self.boids.push(boid);
            made = made + 1;
        }
    }

    /// Lays out the obstacle border between the given whole-number corners.
    pub fn initialize_obstacles(left: i32, right: i32, bottom: i32, top: i32) -> (obstacles: Vec<
        Obstacle,
    >)
        ensures
            obstacles@ == border(left as int, right as int, bottom as int, top as int),
    {
        let mut obstacles: Vec<Obstacle> = Vec::new();
        push_edge_walk(&mut obstacles, left, right, Edge::Top, Edge::Bottom);
        push_edge_walk(&mut obstacles, bottom, top, Edge::Left, Edge::Right);
        obstacles
    }

    /// `step` may be called on every boid of this world together with a
    /// copy of the flock, the obstacles and the half-extents.
    pub open spec fn can_tick<F>(&self, step: F) -> bool where
        F: Fn(Boid<T>, &Vec<Boid<T>>, &Vec<Obstacle>, T, T) -> Boid<T>,
     {
        forall|i: int, snapshot: Vec<Boid<T>>|
            0 <= i < self.boids@.len() && snapshot@ == self.boids@ ==> #[trigger] call_requires(
                step,
                (self.boids@[i], &snapshot, &self.obstacles, self.width, self.height),
            )
    }

    /// `after` is the flock one tick on: as long as the flock of `self`, and
    /// each boid in it is what `step` made of the boid at the same index
    /// when shown `snapshot`, a copy of the flock of `self`.
    pub open spec fn ticked_with<F>(&self, step: F, snapshot: Vec<Boid<T>>, after: Seq<Boid<T>>) -> bool where
        F: Fn(Boid<T>, &Vec<Boid<T>>, &Vec<Obstacle>, T, T) -> Boid<T>,
     {
        &&& snapshot@ == self.boids@
        &&& after.len() == self.boids@.len()
        &&& forall|i: int|
            0 <= i < after.len() ==> call_ensures(
                step,
                (self.boids@[i], &snapshot, &self.obstacles, self.width, self.height),
                #[trigger] after[i],
            )
    }

    /// `after` is the flock one tick on, for some copy of the flock of
    /// `self` that every boid was shown alike.
    pub open spec fn ticked<F>(&self, step: F, after: Seq<Boid<T>>) -> bool where
        F: Fn(Boid<T>, &Vec<Boid<T>>, &Vec<Obstacle>, T, T) -> Boid<T>,
     {
        exists|snapshot: Vec<Boid<T>>| self.ticked_with(step, snapshot, after)
    }

    /// One tick. A copy of the flock is taken first; then every boid is
    /// replaced by what `step` makes of it, the copy, the obstacles and the
    /// half-extents. No boid sees another one's new state.
    pub fn update<F>(&mut self, step: F) where
        F: Fn(Boid<T>, &Vec<Boid<T>>, &Vec<Obstacle>, T, T) -> Boid<T>,

        requires
            old(self).can_tick(step),
        ensures
            final(self).width == old(self).width,
            final(self).height == old(self).height,
            final(self).obstacles == old(self).obstacles,
            old(self).ticked(step, final(self).boids@),
    {
        let count = self.boids.len();
        let mut snapshot: Vec<Boid<T>> = Vec::new();
        let mut copied: usize = 0;
        while copied < count
            invariant
                copied <= count,
                count == self.boids@.len(),
                snapshot@ =~= self.boids@.take(copied as int),
            decreases count - copied,
        {
            snapshot.push(self.boids[copied]);
            copied = copied + 1;
        }
        assert(snapshot@ =~= self.boids@);
        let mut done: usize = 0;
        while done < count
            invariant
                done <= count,
                self.width == old(self).width,
                self.height == old(self).height,
                self.obstacles == old(self).obstacles,
                old(self).can_tick(step),
                snapshot@ == old(self).boids@,
                self.boids@.len() == count,
                old(self).boids@.len() == count,
                forall|i: int| done <= i < count ==> self.boids@[i] == old(self).boids@[i],
                forall|i: int|
                    0 <= i < done ==> call_ensures(
                        step,
                        (
                            old(self).boids@[i],
                            &snapshot,
                            &old(self).obstacles,
                            old(self).width,
                            old(self).height,
                        ),
                        #[trigger] self.boids@[i],
                    ),
            decreases count - done,
        {
            let next = step(self.boids[done], &snapshot, &self.obstacles, self.width, self.height);
            self.boids.set(done, next);
            done = done + 1;
        }
        assert(old(self).ticked_with(step, snapshot, self.boids@));
    }
}

/// `step` gives one result on one input: two calls on the same boid, on
/// flocks and obstacle lists that hold the same items in the same order, and
/// on the same half-extents return the same boid.
pub open spec fn is_deterministic<T, F>(step: F) -> bool where
    F: Fn(Boid<T>, &Vec<Boid<T>>, &Vec<Obstacle>, T, T) -> Boid<T>,
 {
    forall|
        boid: Boid<T>,
        flock_a: Vec<Boid<T>>,
        flock_b: Vec<Boid<T>>,
        obstacles_a: Vec<Obstacle>,
        obstacles_b: Vec<Obstacle>,
        width: T,
        height: T,
        next_a: Boid<T>,
        next_b: Boid<T>,
    |
        flock_a@ == flock_b@ && obstacles_a@ == obstacles_b@ && #[trigger] call_ensures(
            step,
            (boid, &flock_a, &obstacles_a, width, height),
            next_a,
        ) && #[trigger] call_ensures(step, (boid, &flock_b, &obstacles_b, width, height), next_b)
            ==> next_a == next_b
}

/// A tick is determined by the state it starts from: with a step that
/// gives one result on one input, any two flocks that one tick can lead to
/// from the same world are the same flock.
pub proof fn lemma_tick_is_determined<T: Copy, F>(
    env: Environment<T>,
    step: F,
    after_a: Seq<Boid<T>>,
    after_b: Seq<Boid<T>>,
) where F: Fn(Boid<T>, &Vec<Boid<T>>, &Vec<Obstacle>, T, T) -> Boid<T>
    requires
        is_deterministic(step),
        env.ticked(step, after_a),
        env.ticked(step, after_b),
    ensures
        after_a == after_b,
{
    let snapshot_a = choose|s: Vec<Boid<T>>| env.ticked_with(step, s, after_a);
    let snapshot_b = choose|s: Vec<Boid<T>>| env.ticked_with(step, s, after_b);
    assert forall|i: int| 0 <= i < after_a.len() implies after_a[i] == after_b[i] by {
        assert(call_ensures(
            step,
            (env.boids@[i], &snapshot_a, &env.obstacles, env.width, env.height),
            after_a[i],
        ));
        assert(call_ensures(
            step,
            (env.boids@[i], &snapshot_b, &env.obstacles, env.width, env.height),
            after_b[i],
        ));
    }
    assert(after_a =~= after_b);
}

/// `step` does not look at the order of the flock it is shown: two calls on
/// the same boid, on flocks that hold the same boids the same number of
/// times, on obstacle lists that hold the same items in the same order, and
/// on the same half-extents return the same boid.
pub open spec fn is_order_blind<T, F>(step: F) -> bool where
    F: Fn(Boid<T>, &Vec<Boid<T>>, &Vec<Obstacle>, T, T) -> Boid<T>,
 {
    forall|
        boid: Boid<T>,
        flock_a: Vec<Boid<T>>,
        flock_b: Vec<Boid<T>>,
        obstacles_a: Vec<Obstacle>,
        obstacles_b: Vec<Obstacle>,
        width: T,
        height: T,
        next_a: Boid<T>,
        next_b: Boid<T>,
    |
        flock_a@.to_multiset() == flock_b@.to_multiset() && obstacles_a@ == obstacles_b@
            && #[trigger] call_ensures(step, (boid, &flock_a, &obstacles_a, width, height), next_a)
            && #[trigger] call_ensures(step, (boid, &flock_b, &obstacles_b, width, height), next_b)
            ==> next_a == next_b
}

/// `second` holds the boids of `first` in another order: the boid at index
/// `i` of `second` is the one at index `order[i]` of `first`, and each boid
/// is in both the same number of times.
pub open spec fn is_reordering<T>(first: Seq<Boid<T>>, second: Seq<Boid<T>>, order: Seq<int>) -> bool {
    &&& first.len() == second.len()
    &&& order.len() == second.len()
    &&& first.to_multiset() == second.to_multiset()
    &&& forall|i: int|
        0 <= i < order.len() ==> 0 <= #[trigger] order[i] < first.len() && second[i]
            == first[order[i]]
}

/// A tick does not depend on the order of the flock: with a step that does
/// not look at that order, reordering the flock and then ticking gives the
/// flock that ticking and then reordering gives.
pub proof fn lemma_tick_commutes_with_reordering<T: Copy, F>(
    first: Environment<T>,
    second: Environment<T>,
    order: Seq<int>,
    step: F,
    after_first: Seq<Boid<T>>,
    after_second: Seq<Boid<T>>,
) where F: Fn(Boid<T>, &Vec<Boid<T>>, &Vec<Obstacle>, T, T) -> Boid<T>
    requires
        is_order_blind(step),
        first.width == second.width,
        first.height == second.height,
        first.obstacles@ == second.obstacles@,
        is_reordering(first.boids@, second.boids@, order),
        first.ticked(step, after_first),
        second.ticked(step, after_second),
    ensures
        after_second.len() == after_first.len(),
        forall|i: int|
            0 <= i < after_second.len() ==> #[trigger] after_second[i] == after_first[order[i]],
{
    let shown_first = choose|s: Vec<Boid<T>>| first.ticked_with(step, s, after_first);
    let shown_second = choose|s: Vec<Boid<T>>| second.ticked_with(step, s, after_second);
    assert forall|i: int| 0 <= i < after_second.len() implies #[trigger] after_second[i]
        == after_first[order[i]] by {
        let j = order[i];
        assert(call_ensures(
            step,
            (first.boids@[j], &shown_first, &first.obstacles, first.width, first.height),
            after_first[j],
        ));
        assert(call_ensures(
            step,
            (second.boids@[i], &shown_second, &second.obstacles, second.width, second.height),
            after_second[i],
        ));
    }
}

/// A tick keeps what the step keeps: a property that `step` promises of
/// every boid it returns holds of every boid of the flock one tick on.
pub proof fn lemma_tick_keeps<T: Copy, F>(
    env: Environment<T>,
    step: F,
    after: Seq<Boid<T>>,
    holds: spec_fn(Boid<T>) -> bool,
) where F: Fn(Boid<T>, &Vec<Boid<T>>, &Vec<Obstacle>, T, T) -> Boid<T>
    requires
        forall|
            boid: Boid<T>,
            flock: Vec<Boid<T>>,
            obstacles: Vec<Obstacle>,
            width: T,
            height: T,
            next: Boid<T>,
        | #[trigger]
            call_ensures(step, (boid, &flock, &obstacles, width, height), next) ==> holds(next),
        env.ticked(step, after),
    ensures
        after.len() == env.boids@.len(),
        forall|i: int| 0 <= i < after.len() ==> holds(#[trigger] after[i]),
{
    let shown = choose|s: Vec<Boid<T>>| env.ticked_with(step, s, after);
    assert forall|i: int| 0 <= i < after.len() implies holds(#[trigger] after[i]) by {
        assert(call_ensures(
            step,
            (env.boids@[i], &shown, &env.obstacles, env.width, env.height),
            after[i],
        ));
    }
}

} // verus!
