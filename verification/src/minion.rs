//! The motion of a minion on the plane: a machine of two states, standing
//! still or on its way to a destination.
//!
//! The machine decides; it does not measure. Positions and headings are
//! values of the caller's choice that are stored and handed back but never
//! looked into, and whatever has to be worked out from them (the bearing from
//! one position to another, how far one tick of travel leads) is asked of a
//! function that the caller supplies.

use vstd::prelude::*;

verus! {

/// What a minion is doing.
pub enum State<P> {
    /// It stands still and has no destination.
    Stopped,
    /// It is on its way to `dest`.
    Moving { dest: P },
}

/// What the measurement of one tick found for a minion on its way.
pub enum Progress<P> {
    /// No time has passed, so nothing moves.
    Still,
    /// The destination is no farther away than the minion travels in this
    /// tick.
    Arrived,
    /// The destination is farther away than that: the minion travels along
    /// its heading and gets as far as `pos`.
    Advanced { pos: P },
}

/// A minion as a mathematical value.
pub struct MinionView<P, A> {
    /// Where it is.
    pub pos: P,
    /// The direction it faces: the bearing of its latest move.
    pub angle: A,
    /// What it is doing.
    pub state: State<P>,
}

impl<P, A> MinionView<P, A> {
    /// The minion after it was told to move to `dest`, where `bearing` is the
    /// direction from its position to `dest`, or `None` if `dest` is its
    /// position, to which no direction leads. Such an order is
    /// ignored. Otherwise the minion turns to `bearing` and is on its way,
    /// whatever it was doing before.
    pub open spec fn headed(self, dest: P, bearing: Option<A>) -> Self {
        match bearing {
            None => self,
            Some(angle) => MinionView { pos: self.pos, angle, state: State::Moving { dest } },
        }
    }

    /// The minion after a tick for which `progress` was measured. A minion
    /// that stands still stays as it is. One on its way is put exactly on its
    /// destination and stops when it has arrived, and else moves on to the
    /// position it has reached, still on its way.
    pub open spec fn stepped(self, progress: Progress<P>) -> Self {
        match (self.state, progress) {
            (State::Stopped, _) => self,
            (State::Moving { .. }, Progress::Still) => self,
            (State::Moving { dest }, Progress::Arrived) => MinionView {
                pos: dest,
                angle: self.angle,
                state: State::Stopped,
            },
            (State::Moving { .. }, Progress::Advanced { pos }) => MinionView {
                pos,
                angle: self.angle,
                state: self.state,
            },
        }
    }

    /// Whether `after` is this minion one tick later, where `measure` is
    /// asked for the progress of a minion on its way and is not asked
    /// anything about one that stands still.
    pub open spec fn updated_by<F: Fn(P, P, A) -> Progress<P>>(
        self,
        after: Self,
        measure: F,
    ) -> bool {
        match self.state {
            State::Stopped => after == self,
            State::Moving { dest } => exists|progress: Progress<P>|
                {
                    &&& call_ensures(measure, (self.pos, dest, self.angle), progress)
                    &&& after == self.stepped(progress)
                },
        }
    }

    /// The minion after one tick for each entry of `ticks`, in their order.
    pub open spec fn run(self, ticks: Seq<Progress<P>>) -> Self
        decreases ticks.len(),
    {
        if ticks.len() == 0 {
            self
        } else {
            self.run(ticks.drop_last()).stepped(ticks.last())
        }
    }
}

/// One unit on the plane.
pub struct Minion<P, A> {
    pos: P,
    angle: A,
    state: State<P>,
}

impl<P, A> View for Minion<P, A> {
    type V = MinionView<P, A>;

    closed spec fn view(&self) -> MinionView<P, A> {
        MinionView { pos: self.pos, angle: self.angle, state: self.state }
    }
}

impl<P: Copy, A: Copy> Minion<P, A> {
    /// A minion that stands still at `pos` and faces `angle`.
    pub fn new(pos: P, angle: A) -> (minion: Self)
        ensures
            minion@ == (MinionView { pos, angle, state: State::Stopped }),
    {
        Minion { pos, angle, state: State::Stopped }
    }

    /// Where the minion is.
    pub fn position(&self) -> (pos: P)
        ensures
            pos == self@.pos,
    {
        self.pos
    }

    /// The direction the minion faces.
    pub fn heading(&self) -> (angle: A)
        ensures
            angle == self@.angle,
    {
        self.angle
    }

    /// Where the minion is going, if it is on its way.
    pub fn destination(&self) -> (dest: Option<P>)
        ensures
            dest == (match self@.state {
                State::Stopped => None::<P>,
                State::Moving { dest } => Some(dest),
            }),
    {
        match self.state {
            State::Stopped => None,
            State::Moving { dest } => Some(dest),
        }
    }

    /// Orders the minion to `dest`, to which `bearing` leads from where it
    /// is. With no bearing, which says that `dest` is where the minion is,
    /// nothing changes at all.
    pub fn set_course(&mut self, dest: P, bearing: Option<A>)
        ensures
            final(self)@ == old(self)@.headed(dest, bearing),
            bearing is None ==> final(self)@ == old(self)@,
    {
        match bearing {
            None => {},
            Some(angle) => {
                self.angle = angle;
                self.state = State::Moving { dest };
            },
        }
    }

    /// Orders the minion to `dest`. The bearing is asked of `bearing`, which
    /// is given the minion's position and `dest` and answers `None` if the
    /// two are the same place. On that answer nothing changes at all; on any
    /// other the minion turns and is on its way to `dest`, from where it is.
    pub fn go<F: Fn(P, P) -> Option<A>>(&mut self, dest: P, bearing: F)
        requires
            call_requires(bearing, (old(self)@.pos, dest)),
        ensures
            exists|answer: Option<A>|
                call_ensures(bearing, (old(self)@.pos, dest), answer) && final(self)@ == old(
                    self,
                )@.headed(dest, answer),
            final(self)@.pos == old(self)@.pos,
            final(self)@ == old(self)@ || final(self)@.state == (State::Moving { dest }),
    {
        let answer = bearing(self.pos, dest);
        self.set_course(dest, answer);
    }

    /// Lets one tick pass for which `progress` was measured. It may move the
    /// minion and stop it, but never turns it; and it does nothing at all to
    /// a minion that stands still.
    pub fn apply(&mut self, progress: Progress<P>)
        ensures
            final(self)@ == old(self)@.stepped(progress),
            old(self)@.state is Stopped ==> final(self)@ == old(self)@,
            final(self)@.angle == old(self)@.angle,
    {
        match self.state {
            State::Stopped => {},
            State::Moving { dest } => {
                match progress {
                    Progress::Still => {},
                    Progress::Arrived => {
                        self.pos = dest;
                        self.state = State::Stopped;
                    },
                    Progress::Advanced { pos } => {
                        self.pos = pos;
                    },
                }
            },
        }
    }

    /// Lets one tick pass. If the minion is on its way, `measure` is given
    /// its position, its destination and its heading and says how far the
    /// tick takes it. A minion that stands still is left alone.
    pub fn update<F: Fn(P, P, A) -> Progress<P>>(&mut self, measure: F)
        requires
            (old(self)@.state matches State::Moving { dest } ==> call_requires(
                measure,
                (old(self)@.pos, dest, old(self)@.angle),
            )),
        ensures
            old(self)@.updated_by(final(self)@, measure),
            old(self)@.state is Stopped ==> final(self)@ == old(self)@,
            final(self)@.angle == old(self)@.angle,
    {
        match self.state {
            State::Stopped => {},
            State::Moving { dest } => {
                let progress = measure(self.pos, dest, self.angle);
                self.apply(progress);
            },
        }
    }
}

/// A minion that stands still is not moved by any number of ticks, whatever
/// they find.
pub proof fn lemma_stopped_stays<P, A>(minion: MinionView<P, A>, ticks: Seq<Progress<P>>)
    requires
        minion.state is Stopped,
    ensures
        minion.run(ticks) == minion,
    decreases ticks.len(),
{
    if ticks.len() > 0 {
        lemma_stopped_stays(minion, ticks.drop_last());
    }
}

/// As long as no tick finds that it has arrived, a minion on its way keeps
/// its destination and its heading.
pub proof fn lemma_on_its_way_until_arrival<P, A>(
    minion: MinionView<P, A>,
    dest: P,
    ticks: Seq<Progress<P>>,
)
    requires
        minion.state == (State::Moving { dest }),
        forall|i: int| 0 <= i < ticks.len() ==> !(ticks[i] is Arrived),
    ensures
        minion.run(ticks).state == (State::Moving { dest }),
        minion.run(ticks).angle == minion.angle,
    decreases ticks.len(),
{
    if ticks.len() > 0 {
        lemma_on_its_way_until_arrival(minion, dest, ticks.drop_last());
    }
}

/// A move ends exactly on its destination. Take a minion that is ordered to
/// `dest`, along the bearing `angle`, and then goes through `ticks`. If one
/// of them finds that it has arrived, the minion ends standing still, on
/// `dest` itself and facing `angle`, whatever the ticks before and after
/// that one find.
pub proof fn lemma_move_ends_on_destination<P, A>(
    start: MinionView<P, A>,
    dest: P,
    angle: A,
    ticks: Seq<Progress<P>>,
    first: int,
)
    requires
        0 <= first < ticks.len(),
        ticks[first] is Arrived,
        forall|i: int| 0 <= i < first ==> !(ticks[i] is Arrived),
    ensures
        start.headed(dest, Some(angle)).run(ticks) == (MinionView {
            pos: dest,
            angle,
            state: State::Stopped,
        }),
    decreases ticks.len(),
{
    let ordered = start.headed(dest, Some(angle));
    let earlier = ticks.drop_last();
    if first == ticks.len() - 1 {
        lemma_on_its_way_until_arrival(ordered, dest, earlier);
    } else {
        lemma_move_ends_on_destination(start, dest, angle, earlier, first);
    }
}

/// The distance covered in ticks that take a minion as far as `steps` say,
/// one entry for each tick. A tick that takes it no distance or less, as one
/// of no time does, counts for nothing.
pub open spec fn travelled(steps: Seq<int>) -> int
    decreases steps.len(),
{
    if steps.len() == 0 {
        0
    } else if steps.last() > 0 {
        travelled(steps.drop_last()) + steps.last()
    } else {
        travelled(steps.drop_last())
    }
}

/// Whether `ticks` are what exact measurements find for `minion`, tick by
/// tick, as long as it is on its way. `left` gives the distance from a
/// position to the destination and `steps[i]` the distance that the minion
/// travels in the tick `i`, both as whole numbers of some unit of length. A
/// tick of no travel finds the minion still. One that reaches as far as the
/// destination finds it arrived. Any other finds it advanced to a position
/// that is nearer to the destination by exactly what it travelled.
pub open spec fn measured_exactly<P, A>(
    minion: MinionView<P, A>,
    left: spec_fn(P) -> int,
    ticks: Seq<Progress<P>>,
    steps: Seq<int>,
) -> bool {
    &&& ticks.len() == steps.len()
    &&& forall|i: int|
        0 <= i < ticks.len() && !(minion.run(ticks.take(i)).state is Stopped) ==> {
            let here = left(minion.run(ticks.take(i)).pos);
            match #[trigger] ticks[i] {
                Progress::Still => steps[i] <= 0,
                Progress::Arrived => 0 < steps[i] && here <= steps[i],
                Progress::Advanced { pos } => 0 < steps[i] < here && left(pos) == here - steps[i],
            }
        }
}

/// Enough travel ends a move. Take a minion that is ordered to `dest`, which
/// is some distance away, along the bearing `angle`, and then goes through
/// ticks that are measured exactly. If the distances travelled in them add
/// up to the distance to `dest` or more, the minion ends standing still, on
/// `dest` itself and facing `angle`.
pub proof fn lemma_enough_travel_ends_the_move<P, A>(
    start: MinionView<P, A>,
    dest: P,
    angle: A,
    left: spec_fn(P) -> int,
    ticks: Seq<Progress<P>>,
    steps: Seq<int>,
)
    requires
        measured_exactly(start.headed(dest, Some(angle)), left, ticks, steps),
        0 < left(start.pos) <= travelled(steps),
    ensures
        start.headed(dest, Some(angle)).run(ticks) == (MinionView {
            pos: dest,
            angle,
            state: State::Stopped,
        }),
{
    lemma_travel_so_far(start, dest, angle, left, ticks, steps, ticks.len() as int);
    assert(ticks.take(ticks.len() as int) == ticks);
    assert(steps.take(ticks.len() as int) == steps);
}

/// After the first `n` of its ticks, a minion whose ticks are measured
/// exactly has arrived, or it is still short of its destination by no more
/// than what it has not travelled yet.
proof fn lemma_travel_so_far<P, A>(
    start: MinionView<P, A>,
    dest: P,
    angle: A,
    left: spec_fn(P) -> int,
    ticks: Seq<Progress<P>>,
    steps: Seq<int>,
    n: int,
)
    requires
        measured_exactly(start.headed(dest, Some(angle)), left, ticks, steps),
        0 < left(start.pos),
        0 <= n <= ticks.len(),
    ensures
        ({
            let now = start.headed(dest, Some(angle)).run(ticks.take(n));
            ||| now == (MinionView { pos: dest, angle, state: State::Stopped })
            ||| {
                &&& now.state == (State::Moving { dest })
                &&& now.angle == angle
                &&& 0 < left(now.pos) <= left(start.pos) - travelled(steps.take(n))
            }
        }),
    decreases n,
{
    if n > 0 {
        lemma_travel_so_far(start, dest, angle, left, ticks, steps, n - 1);
        assert(ticks.take(n).drop_last() == ticks.take(n - 1));
        assert(steps.take(n).drop_last() == steps.take(n - 1));
        assert(ticks.take(n).last() == ticks[n - 1]);
        assert(steps.take(n).last() == steps[n - 1]);
    }
}

/// Whether `minion` is what becomes of a minion that is put on the starting
/// slot `slot`, facing `angle`, and at once sent to a destination that
/// `scatter` drew for it, along the bearing that `bearing` gave from the slot
/// to that destination.
pub open spec fn seeded<P, A, D: Fn() -> P, B: Fn(P, P) -> Option<A>>(
    slot: P,
    angle: A,
    scatter: D,
    bearing: B,
    minion: MinionView<P, A>,
) -> bool {
    exists|dest: P, answer: Option<A>|
        {
            &&& call_ensures(scatter, (), dest)
            &&& #[trigger] call_ensures(bearing, (slot, dest), answer)
            &&& minion == (MinionView { pos: slot, angle, state: State::Stopped }).headed(
                dest,
                answer,
            )
        }
}

/// Whether `targets` records a drawing pass over `minions`: it starts with
/// the target that was handed in, and `draw` made each next entry from the
/// one before it and the position and heading of the next minion, taking the
/// minions in their order.
pub open spec fn is_drawing_pass<P, A, T, F: Fn(T, P, A) -> T>(
    minions: Seq<MinionView<P, A>>,
    draw: F,
    targets: Seq<T>,
) -> bool {
    &&& targets.len() == minions.len() + 1
    &&& forall|i: int|
        0 <= i < minions.len() ==> call_ensures(
            draw,
            (targets[i], minions[i].pos, minions[i].angle),
            #[trigger] targets[i + 1],
        )
}

/// A group of minions that are updated together. They do not act on each
/// other.
pub struct MinionController<P, A> {
    minions: Vec<Minion<P, A>>,
}

impl<P, A> View for MinionController<P, A> {
    type V = Seq<MinionView<P, A>>;

    closed spec fn view(&self) -> Seq<MinionView<P, A>> {
        Seq::new(self.minions@.len(), |i: int| self.minions@[i]@)
    }
}

impl<P: Copy, A: Copy> MinionController<P, A> {
    /// One minion for each entry of `slots`, in their order: it is put on
    /// that starting slot, facing `angle`, and at once sent to a destination
    /// of its own, which `scatter` draws for it. It is then on its way,
    /// unless the destination drawn is the slot itself.
    ///
    /// `scatter` is called once for each slot, and `bearing` is asked for the
    /// direction from the slot to what was drawn, as in [`Minion::go`].
    pub fn new<D: Fn() -> P, B: Fn(P, P) -> Option<A>>(
        slots: &Vec<P>,
        angle: A,
        scatter: D,
        bearing: B,
    ) -> (controller: Self)
        requires
            slots@.len() > 0 ==> call_requires(scatter, ()),
            forall|i: int, dest: P|
                0 <= i < slots@.len() && call_ensures(scatter, (), dest) ==> #[trigger] call_requires(
                    bearing,
                    (slots@[i], dest),
                ),
        ensures
            controller@.len() == slots@.len(),
            forall|i: int|
                0 <= i < slots@.len() ==> seeded(
                    slots@[i],
                    angle,
                    scatter,
                    bearing,
                    #[trigger] controller@[i],
                ),
    {
        let mut minions: Vec<Minion<P, A>> = Vec::new();
        let mut i: usize = 0;
        while i < slots.len()
            invariant
                i <= slots@.len(),
                minions@.len() == i,
                slots@.len() > 0 ==> call_requires(scatter, ()),
                forall|k: int, dest: P|
                    0 <= k < slots@.len() && call_ensures(scatter, (), dest)
                        ==> #[trigger] call_requires(bearing, (slots@[k], dest)),
                forall|k: int|
                    0 <= k < i ==> seeded(
                        slots@[k],
                        angle,
                        scatter,
                        bearing,
                        (#[trigger] minions@[k])@,
                    ),
            decreases slots@.len() - i,
        {
            let slot = slots[i];
            let mut minion = Minion::new(slot, angle);
            let dest = scatter();
            let answer = bearing(slot, dest);
            minion.set_course(dest, answer);
            minions.push(minion);
            i += 1;
        }
        MinionController { minions }
    }

    /// How many minions there are.
    pub fn len(&self) -> (n: usize)
        ensures
            n == self@.len(),
    {
        self.minions.len()
    }

    /// The minion number `i`, counting from zero, if there are that many.
    pub fn get(&self, i: usize) -> (minion: Option<&Minion<P, A>>)
        ensures
            i < self@.len() ==> (minion matches Some(m) && m@ == self@[i as int]),
            i >= self@.len() ==> minion is None,
    {
        if i < self.minions.len() {
            Some(&self.minions[i])
        } else {
            None
        }
    }

    /// Lets one tick pass for every minion, each as in [`Minion::update`].
    pub fn update<F: Fn(P, P, A) -> Progress<P>>(&mut self, measure: F)
        requires
            forall|i: int|
                0 <= i < old(self)@.len() ==> ((#[trigger] old(self)@[i]).state matches State::Moving {
                    dest,
                } ==> call_requires(measure, (old(self)@[i].pos, dest, old(self)@[i].angle))),
        ensures
            final(self)@.len() == old(self)@.len(),
            forall|i: int|
                0 <= i < old(self)@.len() ==> (#[trigger] old(self)@[i]).updated_by(
                    final(self)@[i],
                    measure,
                ),
    {
        let mut i: usize = 0;
        while i < self.minions.len()
            invariant
                self@.len() == old(self)@.len(),
                i <= self@.len(),
                forall|k: int| i <= k < self@.len() ==> self@[k] == old(self)@[k],
                forall|k: int|
                    0 <= k < old(self)@.len() ==> ((#[trigger] old(self)@[k]).state matches State::Moving {
                        dest,
                    } ==> call_requires(measure, (old(self)@[k].pos, dest, old(self)@[k].angle))),
                forall|k: int|
                    0 <= k < i ==> (#[trigger] old(self)@[k]).updated_by(self@[k], measure),
            decreases self@.len() - i,
        {
            let ghost before = self@;
            assert(before[i as int] == old(self)@[i as int]);
            assert(self.minions@[i as int]@ == before[i as int]);
            match self.minions[i].destination() {
                None => {},
                Some(dest) => {
                    let progress = measure(
                        self.minions[i].position(),
                        dest,
                        self.minions[i].heading(),
                    );
                    self.minions[i].apply(progress);
                },
            }
            assert(forall|k: int| 0 <= k < self@.len() && k != i ==> self@[k] == before[k]);
            i += 1;
        }
    }

    /// Draws every minion: `target` goes to `draw` with the position and the
    /// heading of the first minion, what `draw` returns goes to it again with
    /// those of the second, and so on through all of them in their order.
    /// What the last call returned is returned; with no minions, that is
    /// `target` itself.
    pub fn draw<T, F: Fn(T, P, A) -> T>(&self, target: T, draw: F) -> (drawn: T)
        requires
            forall|i: int, targets: Seq<T>|
                0 <= i < self@.len() && #[trigger] is_drawing_pass(self@.take(i), draw, targets)
                    && targets.first() == target ==> call_requires(
                    draw,
                    (targets.last(), self@[i].pos, self@[i].angle),
                ),
        ensures
            exists|targets: Seq<T>|
                is_drawing_pass(self@, draw, targets) && targets.first() == target
                    && targets.last() == drawn,
    {
        let mut current = target;
        let ghost mut targets: Seq<T> = seq![target];
        let mut i: usize = 0;
        while i < self.minions.len()
            invariant
                i <= self@.len(),
                self@.len() == self.minions@.len(),
                forall|k: int, earlier: Seq<T>|
                    0 <= k < self@.len() && #[trigger] is_drawing_pass(self@.take(k), draw, earlier)
                        && earlier.first() == target ==> call_requires(
                        draw,
                        (earlier.last(), self@[k].pos, self@[k].angle),
                    ),
                is_drawing_pass(self@.take(i as int), draw, targets),
                targets.first() == target,
                targets.last() == current,
            decreases self@.len() - i,
        {
            let ghost before = targets;
            let minion = &self.minions[i];
            assert(minion@ == self@[i as int]);
            current = draw(current, minion.position(), minion.heading());
            proof {
                targets = before.push(current);
                assert forall|k: int| 0 <= k < i + 1 implies call_ensures(
                    draw,
                    (targets[k], self@.take(i + 1)[k].pos, self@.take(i + 1)[k].angle),
                    #[trigger] targets[k + 1],
                ) by {
                    if k < i {
                        assert(self@.take(i as int)[k] == self@.take(i + 1)[k]);
                        assert(before[k + 1] == targets[k + 1]);
                    }
                }
            }
            i += 1;
        }
        assert(self@.take(i as int) == self@);
        current
    }
}

} // verus!
