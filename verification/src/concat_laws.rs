//! Where an iterator over many tables stands after whole moves.

use vstd::prelude::*;

use crate::concat;

verus! {

/// Tables and iterators over single tables, as they behave where nothing fails.
pub struct World {
    /// The keys of each table, in the order in which an iterator meets them.
    pub keys: Seq<Seq<Seq<u8>>>,
    /// What a fetch of each table gives.
    pub holders: Seq<concat::TableHolder>,
    /// The key that is sought.
    pub sought: Seq<u8>,
    /// How keys compare.
    pub order: spec_fn(Seq<u8>, Seq<u8>) -> concat::KeyOrder,
    pub direction: concat::DirectionEnum,
    /// The table and the position in it of the current iterator, if there is one. The position
    /// behind the last entry is no entry.
    pub current: Option<(int, int)>,
    /// The iterator that was made last, unless it is the current one.
    pub opened: Option<(int, int)>,
    /// How many iterators were made.
    pub made: nat,
    /// Of how many iterators the statistics were collected when they were dropped.
    pub collected: nat,
}

/// How many keys, from the first on, come before the sought one.
pub open spec fn first_not_before(
    direction: concat::DirectionEnum,
    order: spec_fn(Seq<u8>, Seq<u8>) -> concat::KeyOrder,
    keys: Seq<Seq<u8>>,
    sought: Seq<u8>,
) -> int
    decreases keys.len(),
{
    if keys.len() == 0 || concat::not_after(direction, order, sought, keys[0]) {
        0
    } else {
        1 + first_not_before(direction, order, keys.skip(1), sought)
    }
}

impl World {
    pub open spec fn not_after(self, a: Seq<u8>, b: Seq<u8>) -> bool {
        concat::not_after(self.direction, self.order, a, b)
    }

    /// What an action does, and how it went.
    pub open spec fn done<E>(self, action: concat::ConcatAction<E>) -> (
        World,
        concat::ConcatEvent<E>,
    ) {
        match action {
            concat::ConcatAction::Advance => {
                let (table, position) = self.current->0;
                (
                    World { current: Some((table, position + 1)), ..self },
                    concat::ConcatEvent::Advanced {
                        result: Ok(()),
                        valid: position + 1 < self.keys[table].len(),
                    },
                )
            },
            concat::ConcatAction::Fetch { idx } => (
                self,
                concat::ConcatEvent::Fetched(Ok(self.holders[idx as int])),
            ),
            concat::ConcatAction::Open { idx, seek } => {
                let keys = self.keys[idx as int];
                let position = if seek {
                    first_not_before(self.direction, self.order, keys, self.sought)
                } else {
                    0
                };
                (
                    World { opened: Some((idx as int, position)), made: self.made + 1, ..self },
                    concat::ConcatEvent::Opened(Ok(position < keys.len())),
                )
            },
            concat::ConcatAction::Retire => (
                World { current: None, collected: self.collected + 1, ..self },
                concat::ConcatEvent::Completed,
            ),
            concat::ConcatAction::Install => (
                World { current: self.opened, opened: None, ..self },
                concat::ConcatEvent::Completed,
            ),
            concat::ConcatAction::Done(_) => (self, concat::ConcatEvent::Completed),
        }
    }

    /// The tables hold something, are in order and do not overlap: on an iterator's way, the keys
    /// of a table do not go back, and those of a table come before those of a later one.
    pub open spec fn sorted(self) -> bool {
        &&& self.nonempty()
        &&& forall|i: int, p: int, q: int|
            0 <= i < self.keys.len() && 0 <= p <= q < self.keys[i].len() ==> self.not_after(
                #[trigger] self.keys[i][p],
                #[trigger] self.keys[i][q],
            )
        &&& forall|i: int, j: int, p: int, q: int|
            0 <= i < j < self.keys.len() && 0 <= p < self.keys[i].len() && 0 <= q
                < self.keys[j].len() ==> !self.not_after(
                #[trigger] self.keys[j][q],
                #[trigger] self.keys[i][p],
            )
    }

    /// Keys compare as keys should.
    pub open spec fn ordered(self) -> bool {
        &&& forall|a: Seq<u8>, b: Seq<u8>| #[trigger]
            self.not_after(a, b) || self.not_after(b, a)
        &&& forall|a: Seq<u8>, b: Seq<u8>, c: Seq<u8>| #[trigger]
            self.not_after(a, b) && #[trigger] self.not_after(b, c) ==> self.not_after(a, c)
    }

    /// An iterator knows the first key of every table, and still does when it is fetched.
    pub open spec fn knows_keys(self, state: concat::ConcatView) -> bool {
        &&& forall|i: int|
            0 <= i < self.keys.len() ==> {
                &&& (#[trigger] state.tables[i]).has_keys()
                &&& state.tables[i].first_key(state.direction) == self.keys[i][0]
            }
        &&& forall|i: int|
            0 <= i < self.keys.len() ==> concat::ConcatItem::Prefetched(
                #[trigger] self.holders[i],
            ).first_key(self.direction) == self.keys[i][0]
    }

    /// The iterator has been told everything: it is at rest, and it knows of the current iterator.
    pub open spec fn agrees(self, state: concat::ConcatView) -> bool {
        &&& state.well_formed()
        &&& state.phase is Idle
        &&& self.keys.len() == state.tables.len() == self.holders.len()
        &&& self.direction == state.direction
        &&& match self.current {
            Some((table, position)) => {
                &&& 0 <= table < self.keys.len()
                &&& 0 <= position <= self.keys[table].len()
                &&& state.cur_idx == table
                &&& state.current == Some(position < self.keys[table].len())
            },
            None => state.current is None,
        }
        &&& self.made == self.collected + (if self.current is Some {
            1nat
        } else {
            0nat
        })
    }
}

/// The iterator and the world, and what is to be done next.
pub struct Scene<E> {
    pub state: concat::ConcatView,
    pub world: World,
    pub action: concat::ConcatAction<E>,
}

impl<E> Scene<E> {
    /// What is to be done is done, and the iterator is told.
    pub open spec fn stepped(self) -> Scene<E> {
        if self.action is Done {
            self
        } else {
            let (world, event) = self.world.done(self.action);
            let (state, action) = self.state.resumed(event);
            Scene { state, world, action }
        }
    }

    /// So many things are done, or fewer where nothing is left to do.
    pub open spec fn after(self, steps: nat) -> Scene<E>
        decreases steps,
    {
        if steps == 0 {
            self
        } else {
            self.stepped().after((steps - 1) as nat)
        }
    }
}

/// How many things are done at most for one move: in each of two tables a fetch, an opening, and
/// the exchange of the old iterator for the new.
pub open spec fn most_steps() -> nat {
    8
}

/// An iterator is moved to a goal.
pub open spec fn moved_to<E>(
    state: concat::ConcatView,
    world: World,
    goal: concat::Goal,
) -> Scene<E> {
    let (state, action) = state.moved(goal);
    Scene { state, world, action }.after(most_steps())
}

/// An iterator is moved on.
pub open spec fn moved_on<E>(state: concat::ConcatView, world: World) -> Scene<E> {
    Scene {
        state: concat::ConcatView { phase: concat::ConcatPhase::Advancing, ..state },
        world,
        action: concat::ConcatAction::Advance,
    }.after(most_steps())
}

/// Whether a move is over and went well. It changes no table, and what was known of keys still is.
pub open spec fn went_well<E>(state: concat::ConcatView, before: World, scene: Scene<E>) -> bool {
    &&& scene.action == concat::ConcatAction::<E>::Done(Ok(()))
    &&& scene.world.agrees(scene.state)
    &&& before.knows_keys(state) ==> scene.world.knows_keys(scene.state)
    &&& scene.world == (World {
        current: scene.world.current,
        opened: scene.world.opened,
        made: scene.world.made,
        collected: scene.world.collected,
        ..before
    })
}

proof fn lemma_first_not_before(
    direction: concat::DirectionEnum,
    order: spec_fn(Seq<u8>, Seq<u8>) -> concat::KeyOrder,
    keys: Seq<Seq<u8>>,
    sought: Seq<u8>,
)
    ensures
        ({
            let n = first_not_before(direction, order, keys, sought);
            &&& 0 <= n <= keys.len()
            &&& n < keys.len() ==> concat::not_after(direction, order, sought, keys[n])
            &&& forall|i: int|
                0 <= i < n ==> !concat::not_after(direction, order, sought, #[trigger] keys[i])
        }),
    decreases keys.len(),
{
    if keys.len() > 0 && !concat::not_after(direction, order, sought, keys[0]) {
        lemma_first_not_before(direction, order, keys.skip(1), sought);
        let n = first_not_before(direction, order, keys, sought);
        assert forall|i: int| 0 <= i < n implies !concat::not_after(
            direction,
            order,
            sought,
            #[trigger] keys[i],
        ) by {
            if i > 0 {
                assert(keys[i] == keys.skip(1)[i - 1]);
            }
        }
    }
}

/// Where a leg of a move ends: the new iterator over the table of the goal is the current one.
pub open spec fn arrived<E>(state: concat::ConcatView, world: World, goal: concat::Goal) -> Scene<
    E,
> {
    let keys = world.keys[goal.idx as int];
    let position = if goal.seek {
        first_not_before(world.direction, world.order, keys, world.sought)
    } else {
        0
    };
    let now = World {
        current: Some((goal.idx as int, position)),
        opened: None,
        made: world.made + 1,
        collected: if world.current is Some {
            world.collected + 1
        } else {
            world.collected
        },
        ..world
    };
    let reached = concat::ConcatView {
        tables: match state.tables[goal.idx as int] {
            concat::ConcatItem::Unfetched(_) => state.tables.update(
                goal.idx as int,
                concat::ConcatItem::Prefetched(world.holders[goal.idx as int]),
            ),
            concat::ConcatItem::Prefetched(_) => state.tables,
        },
        current: Some(position < keys.len()),
        cur_idx: goal.idx,
        phase: concat::ConcatPhase::Idle,
        ..state
    };
    if goal.seek && position >= keys.len() {
        let (state, action) = reached.moved(
            concat::Goal { idx: (goal.idx + 1) as usize, seek: false },
        );
        Scene { state, world: now, action }
    } else {
        Scene { state: reached, world: now, action: concat::ConcatAction::Done(Ok(())) }
    }
}

/// How many things are done on a leg of a move.
spec fn leg(state: concat::ConcatView, goal: concat::Goal) -> nat {
    let fetch: nat = if state.tables[goal.idx as int] is Unfetched {
        1
    } else {
        0
    };
    let retire: nat = if state.current is Some {
        1
    } else {
        0
    };
    2 + fetch + retire
}

proof fn lemma_after_adds<E>(scene: Scene<E>, m: nat, n: nat)
    ensures
        scene.after(m).after(n) == scene.after(m + n),
    decreases m,
{
    if m > 0 {
        lemma_after_adds(scene.stepped(), (m - 1) as nat, n);
    }
}

proof fn lemma_done_stays<E>(scene: Scene<E>, n: nat)
    requires
        scene.action is Done,
    ensures
        scene.after(n) == scene,
    decreases n,
{
    if n > 0 {
        lemma_done_stays(scene, (n - 1) as nat);
    }
}

/// A leg of a move ends where it should, and the iterator still knows of everything.
proof fn lemma_leg<E>(state: concat::ConcatView, world: World, goal: concat::Goal)
    requires
        world.agrees(state),
        goal.idx < world.keys.len(),
    ensures
        ({
            let (s, action) = state.moved::<E>(goal);
            Scene { state: s, world, action }.after(leg(state, goal)) == arrived::<E>(
                state,
                world,
                goal,
            )
        }),
        ({
            let end = arrived::<E>(state, world, goal);
            &&& end.world.agrees(
                concat::ConcatView { phase: concat::ConcatPhase::Idle, ..end.state },
            )
            &&& world.knows_keys(state) ==> end.world.knows_keys(end.state)
        }),
{
    let keys = world.keys[goal.idx as int];
    lemma_first_not_before(world.direction, world.order, keys, world.sought);
    reveal_with_fuel(Scene::after, 5);
    let (s, action) = state.moved::<E>(goal);
    let s0 = Scene { state: s, world, action };
    let s1 = s0.stepped();
    let s2 = s1.stepped();
    let s3 = s2.stepped();
    let s4 = s3.stepped();
    assert(s0.after(2) == s2);
    assert(s0.after(3) == s3);
    assert(s0.after(4) == s4);
}

/// A move to the first entry of a table ends there, and at no entry where there is no such table.
pub proof fn law_move_to_table<E>(state: concat::ConcatView, world: World, idx: usize)
    requires
        world.agrees(state),
    ensures
        went_well(state, world, moved_to::<E>(state, world, concat::Goal { idx, seek: false })),
        moved_to::<E>(state, world, concat::Goal { idx, seek: false }).world.current == (if idx
            < world.keys.len() {
            Some((idx as int, 0int))
        } else {
            None
        }),
{
    let goal = concat::Goal { idx, seek: false };
    let (s, action) = state.moved::<E>(goal);
    let start = Scene { state: s, world, action };
    if idx < world.keys.len() {
        lemma_leg::<E>(state, world, goal);
        lemma_after_adds(start, leg(state, goal), (8 - leg(state, goal)) as nat);
        lemma_done_stays(start.after(leg(state, goal)), (8 - leg(state, goal)) as nat);
    } else {
        lemma_after_adds(start, 1, 7);
        reveal_with_fuel(Scene::after, 2);
        lemma_done_stays(start.stepped(), 7);
    }
}

/// The keys of the first `n` tables, one table after the other.
pub open spec fn joined(keys: Seq<Seq<Seq<u8>>>, n: int) -> Seq<Seq<u8>>
    decreases n,
{
    if n <= 0 {
        seq![]
    } else {
        joined(keys, n - 1) + keys[n - 1]
    }
}

impl World {
    /// The keys of all tables, one table after the other.
    pub open spec fn all_keys(self) -> Seq<Seq<u8>> {
        joined(self.keys, self.keys.len() as int)
    }

    /// Where in all keys the current iterator is; behind the last of them where there is none.
    pub open spec fn place(self) -> int {
        match self.current {
            Some((table, position)) => joined(self.keys, table).len() + position,
            None => self.all_keys().len() as int,
        }
    }

    /// No table is empty.
    pub open spec fn nonempty(self) -> bool {
        forall|i: int| 0 <= i < self.keys.len() ==> (#[trigger] self.keys[i]).len() > 0
    }
}

proof fn lemma_joined(keys: Seq<Seq<Seq<u8>>>, i: int, n: int)
    requires
        0 <= i < n <= keys.len(),
    ensures
        joined(keys, i).len() + keys[i].len() == joined(keys, i + 1).len() <= joined(keys, n).len(),
        forall|p: int|
            0 <= p < keys[i].len() ==> #[trigger] keys[i][p] == joined(keys, n)[joined(keys, i).len()
                + p],
    decreases n - i,
{
    if i < n - 1 {
        lemma_joined(keys, i, n - 1);
    }
}

proof fn lemma_joined_prefix(keys: Seq<Seq<Seq<u8>>>, i: int, n: int)
    requires
        0 <= i <= n <= keys.len(),
    ensures
        joined(keys, i).len() <= joined(keys, n).len(),
        joined(keys, i) == joined(keys, n).take(joined(keys, i).len() as int),
    decreases n - i,
{
    if i < n {
        lemma_joined_prefix(keys, i, n - 1);
    }
}

/// An iterator that is at an entry is at the key of its place among all keys, and one that has
/// nothing left is behind the last of them.
pub proof fn law_place_is_entry(state: concat::ConcatView, world: World)
    requires
        world.agrees(state),
        world.nonempty(),
    ensures
        state.current == Some(true) ==> {
            let (table, position) = world.current->0;
            &&& 0 <= world.place() < world.all_keys().len()
            &&& world.keys[table][position] == world.all_keys()[world.place()]
        },
        state.current is None ==> world.place() == world.all_keys().len(),
{
    if let Some((table, position)) = world.current {
        lemma_joined(world.keys, table, world.keys.len() as int);
    }
}

/// Whether an iterator is at an entry, or has nothing left.
pub open spec fn settled<E>(state: concat::ConcatView, before: World, scene: Scene<E>) -> bool {
    &&& went_well(state, before, scene)
    &&& scene.state.current != Some(false)
}

/// A rewound iterator is at the first of all keys.
pub proof fn law_rewind<E>(state: concat::ConcatView, world: World)
    requires
        world.agrees(state),
        world.nonempty(),
    ensures
        ({
            let scene = moved_to::<E>(state, world, concat::Goal { idx: 0, seek: false });
            &&& settled(state, world, scene)
            &&& scene.world.place() == 0
        }),
{
    law_move_to_table::<E>(state, world, 0);
}

/// An iterator that is moved on is at the next of all keys, in the next table where its table has
/// no more.
pub proof fn law_next<E>(state: concat::ConcatView, world: World)
    requires
        world.agrees(state),
        world.nonempty(),
        state.current == Some(true),
    ensures
        ({
            let scene = moved_on::<E>(state, world);
            &&& settled(state, world, scene)
            &&& scene.world.place() == world.place() + 1
        }),
{
    let (table, position) = world.current->0;
    lemma_joined(world.keys, table, world.keys.len() as int);
    let start = Scene::<E> {
        state: concat::ConcatView { phase: concat::ConcatPhase::Advancing, ..state },
        world,
        action: concat::ConcatAction::Advance,
    };
    let next = start.stepped();
    assert(start.after(8) == next.after(7));
    if position + 1 < world.keys[table].len() {
        lemma_done_stays(next, 7);
    } else {
        let idx = (state.cur_idx + 1) as usize;
        let goal = concat::Goal { idx, seek: false };
        let rested = concat::ConcatView { current: Some(false), ..state };
        assert(next.world.agrees(rested));
        law_move_to_table::<E>(rested, next.world, idx);
        lemma_move_is_short::<E>(rested, next.world, goal);
        if idx < world.keys.len() {
            lemma_joined(world.keys, idx as int, world.keys.len() as int);
        }
    }
}

/// A move that seeks no key takes half of the steps.
proof fn lemma_move_is_short<E>(state: concat::ConcatView, world: World, goal: concat::Goal)
    requires
        world.agrees(state),
        !goal.seek,
    ensures
        ({
            let (s, action) = state.moved::<E>(goal);
            forall|n: nat|
                4 <= n <= 8 ==> #[trigger] Scene { state: s, world, action }.after(n) == moved_to::<E>(
                    state,
                    world,
                    goal,
                )
        }),
{
    let (s, action) = state.moved::<E>(goal);
    let start = Scene { state: s, world, action };
    let few: nat = if goal.idx < world.keys.len() {
        leg(state, goal)
    } else {
        1
    };
    if goal.idx < world.keys.len() {
        lemma_leg::<E>(state, world, goal);
    } else {
        reveal_with_fuel(Scene::after, 2);
    }
    assert forall|n: nat| 4 <= n <= 8 implies #[trigger] start.after(n) == moved_to::<E>(
        state,
        world,
        goal,
    ) by {
        lemma_after_adds(start, few, (n - few) as nat);
        lemma_done_stays(start.after(few), (n - few) as nat);
        lemma_after_adds(start, few, (8 - few) as nat);
        lemma_done_stays(start.after(few), (8 - few) as nat);
    }
}

/// A rewound iterator that is moved on so many times.
pub open spec fn nth<E>(state: concat::ConcatView, world: World, n: nat) -> Scene<E>
    decreases n,
{
    if n == 0 {
        moved_to::<E>(state, world, concat::Goal { idx: 0, seek: false })
    } else {
        let scene = nth::<E>(state, world, (n - 1) as nat);
        moved_on::<E>(scene.state, scene.world)
    }
}

/// From a rewind on, an iterator meets every key of every table, once and in order, and then it has
/// nothing left.
pub proof fn law_meets_all_keys<E>(state: concat::ConcatView, world: World, n: nat)
    requires
        world.agrees(state),
        world.nonempty(),
        n <= world.all_keys().len(),
    ensures
        ({
            let scene = nth::<E>(state, world, n);
            &&& settled(state, world, scene)
            &&& scene.world.place() == n
            &&& scene.state.current == (if n < world.all_keys().len() {
                Some(true)
            } else {
                None
            })
        }),
    decreases n,
{
    if n == 0 {
        law_rewind::<E>(state, world);
    } else {
        law_meets_all_keys::<E>(state, world, (n - 1) as nat);
        let scene = nth::<E>(state, world, (n - 1) as nat);
        law_next::<E>(scene.state, scene.world);
    }
    let end = nth::<E>(state, world, n);
    law_place_is_entry(end.state, end.world);
}

/// Tables in order are parted by every key: those that start at it or before it come first.
pub proof fn law_sorted_tables_are_partitioned(state: concat::ConcatView, world: World)
    requires
        world.agrees(state),
        world.knows_keys(state),
        world.sorted(),
        world.ordered(),
    ensures
        concat::partitioned(state.direction, state.tables, world.sought, world.order),
{
    assert forall|i: int, j: int|
        0 <= i <= j < state.tables.len() && #[trigger] concat::starts_by(
            state.direction,
            world.order,
            state.tables[j],
            world.sought,
        ) implies #[trigger] concat::starts_by(
        state.direction,
        world.order,
        state.tables[i],
        world.sought,
    ) by {
        let a = world.keys[i][0];
        let b = world.keys[j][0];
        if i < j {
            assert(!world.not_after(b, a));
            assert(world.not_after(a, b));
            assert(world.not_after(b, world.sought));
        }
    }
}

proof fn lemma_table_of_key(
    direction: concat::DirectionEnum,
    tables: Seq<concat::ConcatItem>,
    key: Seq<u8>,
    order: spec_fn(Seq<u8>, Seq<u8>) -> concat::KeyOrder,
)
    ensures
        ({
            let t = concat::table_of_key(direction, tables, key, order);
            &&& t == 0 || 0 < t < tables.len() && concat::starts_by(direction, order, tables[t], key)
            &&& forall|i: int|
                t < i < tables.len() ==> !#[trigger] concat::starts_by(
                    direction,
                    order,
                    tables[i],
                    key,
                )
        }),
    decreases tables.len(),
{
    if tables.len() > 1 && !concat::starts_by(direction, order, tables.last(), key) {
        lemma_table_of_key(direction, tables.drop_last(), key, order);
        let t = concat::table_of_key(direction, tables, key, order);
        assert forall|i: int| t < i < tables.len() implies !#[trigger] concat::starts_by(
            direction,
            order,
            tables[i],
            key,
        ) by {
            if i < tables.len() - 1 {
                assert(tables[i] == tables.drop_last()[i]);
            }
        }
    }
}

/// Only one position has all before it before the sought key, and itself not.
proof fn lemma_first_not_before_unique(
    direction: concat::DirectionEnum,
    order: spec_fn(Seq<u8>, Seq<u8>) -> concat::KeyOrder,
    keys: Seq<Seq<u8>>,
    sought: Seq<u8>,
    n: int,
)
    requires
        0 <= n <= keys.len(),
        n < keys.len() ==> concat::not_after(direction, order, sought, keys[n]),
        forall|i: int| 0 <= i < n ==> !concat::not_after(direction, order, sought, #[trigger] keys[i]),
    ensures
        first_not_before(direction, order, keys, sought) == n,
{
    lemma_first_not_before(direction, order, keys, sought);
    let m = first_not_before(direction, order, keys, sought);
    if m < n {
        assert(!concat::not_after(direction, order, sought, keys[m]));
    }
}

/// Keys of the first `n` tables that all come before the sought one.
proof fn lemma_joined_before(world: World, n: int)
    requires
        0 <= n <= world.keys.len(),
        forall|i: int, p: int|
            0 <= i < n && 0 <= p < world.keys[i].len() ==> !world.not_after(
                world.sought,
                #[trigger] world.keys[i][p],
            ),
    ensures
        forall|x: int|
            0 <= x < joined(world.keys, n).len() ==> !world.not_after(
                world.sought,
                #[trigger] joined(world.keys, n)[x],
            ),
    decreases n,
{
    if n > 0 {
        lemma_joined_before(world, n - 1);
        let before = joined(world.keys, n - 1);
        assert forall|x: int| 0 <= x < joined(world.keys, n).len() implies !world.not_after(
            world.sought,
            #[trigger] joined(world.keys, n)[x],
        ) by {
            if x < before.len() {
                assert(joined(world.keys, n)[x] == before[x]);
            } else {
                assert(joined(world.keys, n)[x] == world.keys[n - 1][x - before.len()]);
            }
        }
    }
}

/// A seek ends at the first key that is not before the sought one, where the key by which a table is
/// found is not after any key of the table, and after all keys of the tables before it.
proof fn lemma_seek<E>(state: concat::ConcatView, world: World)
    requires
        world.agrees(state),
        world.nonempty(),
        world.ordered(),
        forall|i: int, q: int|
            0 <= i < world.keys.len() && 0 <= q < world.keys[i].len() ==> world.not_after(
                state.tables[i].first_key(state.direction),
                #[trigger] world.keys[i][q],
            ),
        forall|i: int, j: int, q: int|
            0 <= i < j < world.keys.len() && 0 <= q < world.keys[i].len() ==> !world.not_after(
                #[trigger] state.tables[j].first_key(state.direction),
                #[trigger] world.keys[i][q],
            ),
    ensures
        ({
            let idx = concat::table_of_key(
                state.direction,
                state.tables,
                world.sought,
                world.order,
            ) as usize;
            let scene = moved_to::<E>(state, world, concat::Goal { idx, seek: true });
            &&& settled(state, world, scene)
            &&& scene.world.place() == first_not_before(
                world.direction,
                world.order,
                world.all_keys(),
                world.sought,
            )
            &&& match scene.world.current {
                Some((t, p)) => {
                    &&& 0 <= t < world.keys.len() && 0 <= p < world.keys[t].len()
                    &&& world.not_after(world.sought, world.keys[t][p])
                    &&& forall|i: int, q: int|
                        0 <= i <= t && 0 <= q < world.keys[i].len() && (i < t || q < p)
                            ==> !world.not_after(world.sought, #[trigger] world.keys[i][q])
                },
                None => forall|i: int, q: int|
                    0 <= i < world.keys.len() && 0 <= q < world.keys[i].len()
                        ==> !world.not_after(world.sought, #[trigger] world.keys[i][q]),
            }
        }),
{
    let t = concat::table_of_key(state.direction, state.tables, world.sought, world.order);
    lemma_table_of_key(state.direction, state.tables, world.sought, world.order);
    let idx = t as usize;
    let goal = concat::Goal { idx, seek: true };
    let (s, action) = state.moved::<E>(goal);
    let start = Scene { state: s, world, action };
    let n = world.keys.len() as int;
    if n == 0 {
        reveal_with_fuel(Scene::after, 2);
        lemma_after_adds(start, 1, 7);
        lemma_done_stays(start.stepped(), 7);
        lemma_first_not_before(world.direction, world.order, world.all_keys(), world.sought);
    } else {
        let steps = leg(state, goal);
        let keys = world.keys[t];
        lemma_first_not_before(world.direction, world.order, keys, world.sought);
        let p = first_not_before(world.direction, world.order, keys, world.sought);
        assert forall|i: int, q: int|
            0 <= i < t && 0 <= q < world.keys[i].len() implies !world.not_after(
            world.sought,
            #[trigger] world.keys[i][q],
        ) by {
            let first = state.tables[t].first_key(state.direction);
            assert(world.not_after(first, world.sought));
            assert(!world.not_after(first, world.keys[i][q]));
        }
        lemma_joined_before(world, t);
        lemma_joined(world.keys, t, n);
        lemma_joined_prefix(world.keys, t, n);
        let place = joined(world.keys, t).len() + p;
        let all = world.all_keys();
        assert forall|x: int| 0 <= x < place implies !world.not_after(
            world.sought,
            #[trigger] all[x],
        ) by {
            let before = joined(world.keys, t);
            if x < before.len() {
                assert(all[x] == before[x]);
            } else {
                assert(all[x] == keys[x - before.len()]);
            }
        }
        lemma_leg::<E>(state, world, goal);
        lemma_after_adds(start, steps, (8 - steps) as nat);
        let end = arrived::<E>(state, world, goal);
        if p < keys.len() {
            lemma_done_stays(end, (8 - steps) as nat);
            assert(all[place] == keys[p]);
        } else {
            let rested = concat::ConcatView { phase: concat::ConcatPhase::Idle, ..end.state };
            let next = concat::Goal { idx: (t + 1) as usize, seek: false };
            law_move_to_table::<E>(rested, end.world, next.idx);
            lemma_move_is_short::<E>(rested, end.world, next);
            if t + 1 < n {
                let first = state.tables[t + 1].first_key(state.direction);
                assert(!concat::starts_by(
                    state.direction,
                    world.order,
                    state.tables[t + 1],
                    world.sought,
                ));
                assert(world.not_after(world.sought, first));
                assert(world.not_after(first, world.keys[t + 1][0]));
                assert(world.not_after(world.sought, world.keys[t + 1][0]));
                lemma_joined(world.keys, t + 1, n);
                assert(all[place] == world.keys[t + 1][0]);
            }
        }
        lemma_first_not_before_unique(world.direction, world.order, all, world.sought, place);
    }
}

/// An iterator that seeks a key is at the first of all keys that is not before it, on its way, and
/// has nothing left where all keys are.
pub proof fn law_seek<E>(state: concat::ConcatView, world: World)
    requires
        world.agrees(state),
        world.knows_keys(state),
        world.sorted(),
        world.ordered(),
    ensures
        ({
            let idx = concat::table_of_key(
                state.direction,
                state.tables,
                world.sought,
                world.order,
            ) as usize;
            let scene = moved_to::<E>(state, world, concat::Goal { idx, seek: true });
            &&& settled(state, world, scene)
            &&& scene.world.place() == first_not_before(
                world.direction,
                world.order,
                world.all_keys(),
                world.sought,
            )
        }),
{
    assert forall|i: int, q: int|
        0 <= i < world.keys.len() && 0 <= q < world.keys[i].len() implies world.not_after(
        state.tables[i].first_key(state.direction),
        #[trigger] world.keys[i][q],
    ) by {
        assert(state.tables[i].has_keys());
        assert(world.not_after(world.keys[i][0], world.keys[i][q]));
    }
    assert forall|i: int, j: int, q: int|
        0 <= i < j < world.keys.len() && 0 <= q < world.keys[i].len() implies !world.not_after(
        #[trigger] state.tables[j].first_key(state.direction),
        #[trigger] world.keys[i][q],
    ) by {
        assert(state.tables[j].has_keys());
        assert(!world.not_after(world.keys[j][0], world.keys[i][q]));
    }
    lemma_seek::<E>(state, world);
}

/// Whether an action can be done: a table that is fetched was not fetched before, one that is
/// opened was, and there is a current iterator to move on or to drop.
pub open spec fn possible<E>(state: concat::ConcatView, action: concat::ConcatAction<E>) -> bool {
    match action {
        concat::ConcatAction::Advance => state.current is Some,
        concat::ConcatAction::Fetch { idx } => idx < state.tables.len()
            && state.tables[idx as int] is Unfetched,
        concat::ConcatAction::Open { idx, .. } => idx < state.tables.len()
            && state.tables[idx as int] is Prefetched,
        concat::ConcatAction::Retire => state.current is Some,
        concat::ConcatAction::Install => state.current is None,
        concat::ConcatAction::Done(_) => state.phase is Idle,
    }
}

/// Whatever an iterator is told, it stays well-formed, and asks for what can be done.
pub proof fn law_actions_are_possible<E>(
    state: concat::ConcatView,
    goal: concat::Goal,
    event: concat::ConcatEvent<E>,
)
    requires
        state.well_formed(),
    ensures
        state.moved::<E>(goal).0.well_formed(),
        possible(state.moved::<E>(goal).0, state.moved::<E>(goal).1),
        state.expects(event) ==> {
            &&& state.resumed(event).0.well_formed()
            &&& possible(state.resumed(event).0, state.resumed(event).1)
        },
{
}

/// Something that failed ends the move with its error, and leaves the iterator where it was: at the
/// same table, with the same tables, and with the same current iterator. Only what moves that one on
/// can make a difference to whether it is at an entry.
pub proof fn law_failure_moves_nothing<E>(
    state: concat::ConcatView,
    event: concat::ConcatEvent<E>,
    error: E,
)
    requires
        state.expects(event),
        match event {
            concat::ConcatEvent::Advanced { result, .. } => result == Err::<(), E>(error),
            concat::ConcatEvent::Fetched(result) => result == Err::<concat::TableHolder, E>(error),
            concat::ConcatEvent::Opened(result) => result == Err::<bool, E>(error),
            concat::ConcatEvent::Completed => false,
        },
    ensures
        state.resumed(event).1 == concat::ConcatAction::<E>::Done(Err(error)),
        state.resumed(event).0 == (concat::ConcatView {
            phase: concat::ConcatPhase::Idle,
            current: match event {
                concat::ConcatEvent::Advanced { valid, .. } => Some(valid),
                _ => state.current,
            },
            ..state
        }),
{
}

/// The smallest and the largest key of a table are the ends of its key range, or those that came
/// with it when it was fetched; and they are known unless it has no key range and was not fetched.
pub proof fn law_keys_of_a_table(item: concat::ConcatItem, smallest: &[u8], largest: &[u8])
    requires
        call_ensures(concat::ConcatItem::smallest_key, (&item,), smallest),
        call_ensures(concat::ConcatItem::largest_key, (&item,), largest),
    ensures
        match item {
            concat::ConcatItem::Unfetched(info) => info.key_range matches Some(range)
                ==> smallest@ == range.left@ && largest@ == range.right@,
            concat::ConcatItem::Prefetched(table) => smallest@ == table.smallest_key@ && largest@
                == table.largest_key@,
        },
        item.has_keys() <==> (item matches concat::ConcatItem::Unfetched(info)
            ==> info.key_range is Some),
        item.first_key(concat::DirectionEnum::Forward) == smallest@,
        item.first_key(concat::DirectionEnum::Backward) == largest@,
{
}

/// Which comparisons of keys an iterator that seeks takes for one order, and when a key comes before
/// another or is the same on its way: forward when it is not greater, backward when it is not less.
pub proof fn law_order_on_the_way<F: Fn(&[u8], &[u8]) -> concat::KeyOrder>(
    compare: F,
    order: spec_fn(Seq<u8>, Seq<u8>) -> concat::KeyOrder,
    a: Seq<u8>,
    b: Seq<u8>,
)
    ensures
        concat::compares_by(compare, order) <==> forall|x: &[u8], y: &[u8], r: concat::KeyOrder|
            call_ensures(compare, (x, y), r) ==> r == order(x@, y@),
        concat::not_after(concat::DirectionEnum::Forward, order, a, b) <==> order(a, b)
            != concat::KeyOrder::Greater,
        concat::not_after(concat::DirectionEnum::Backward, order, a, b) <==> order(a, b)
            != concat::KeyOrder::Less,
{
}

/// An iterator that seeks a key ends at the first key that is not before it, and has nothing left
/// where there is none. Of a table it need only know a smallest and a largest key between which all
/// keys of the table lie; the keys of each table do not go back on the iterator's way, and the
/// ranges of the tables follow one another on it and do not meet.
pub proof fn law_seek_by_key_ranges<E>(state: concat::ConcatView, world: World)
    requires
        world.agrees(state),
        forall|i: int| 0 <= i < world.keys.len() ==> (#[trigger] world.keys[i]).len() > 0,
        forall|a: Seq<u8>, b: Seq<u8>|
            (#[trigger] (world.order)(a, b) == concat::KeyOrder::Less <==> (world.order)(b, a)
                == concat::KeyOrder::Greater) && ((world.order)(a, b) == concat::KeyOrder::Equal
                <==> (world.order)(b, a) == concat::KeyOrder::Equal),
        forall|a: Seq<u8>, b: Seq<u8>, c: Seq<u8>|
            #[trigger] (world.order)(a, b) != concat::KeyOrder::Greater && #[trigger] (world.order)(
                b,
                c,
            ) != concat::KeyOrder::Greater ==> (world.order)(a, c) != concat::KeyOrder::Greater,
        forall|i: int|
            0 <= i < world.keys.len() ==> (#[trigger] state.tables[i] matches
                concat::ConcatItem::Unfetched(info) ==> info.key_range is Some),
        ({
            let left = |i: int|
                match state.tables[i] {
                    concat::ConcatItem::Unfetched(info) => info.key_range->0.left@,
                    concat::ConcatItem::Prefetched(table) => table.smallest_key@,
                };
            let right = |i: int|
                match state.tables[i] {
                    concat::ConcatItem::Unfetched(info) => info.key_range->0.right@,
                    concat::ConcatItem::Prefetched(table) => table.largest_key@,
                };
            &&& forall|i: int, q: int|
                0 <= i < world.keys.len() && 0 <= q < world.keys[i].len() ==> (world.order)(
                    left(i),
                    #[trigger] world.keys[i][q],
                ) != concat::KeyOrder::Greater && (world.order)(world.keys[i][q], right(i))
                    != concat::KeyOrder::Greater
            &&& forall|i: int, j: int|
                0 <= i < j < world.keys.len() ==> (match state.direction {
                    concat::DirectionEnum::Forward => (world.order)(
                        #[trigger] right(i),
                        #[trigger] left(j),
                    ) == concat::KeyOrder::Less,
                    concat::DirectionEnum::Backward => (world.order)(right(j), left(i))
                        == concat::KeyOrder::Less,
                })
        }),
    ensures
        concat::partitioned(state.direction, state.tables, world.sought, world.order),
        ({
            let idx = concat::table_of_key(
                state.direction,
                state.tables,
                world.sought,
                world.order,
            ) as usize;
            let scene = moved_to::<E>(state, world, concat::Goal { idx, seek: true });
            let wanted = |key: Seq<u8>|
                match state.direction {
                    concat::DirectionEnum::Forward => (world.order)(world.sought, key)
                        != concat::KeyOrder::Greater,
                    concat::DirectionEnum::Backward => (world.order)(world.sought, key)
                        != concat::KeyOrder::Less,
                };
            &&& scene.action == concat::ConcatAction::<E>::Done(Ok(()))
            &&& scene.world.keys == world.keys
            &&& scene.state.current == (if scene.world.current is Some {
                Some(true)
            } else {
                None
            })
            &&& match scene.world.current {
                Some((t, p)) => {
                    &&& 0 <= t < world.keys.len() && 0 <= p < world.keys[t].len()
                    &&& wanted(world.keys[t][p])
                    &&& forall|i: int, q: int|
                        0 <= i <= t && 0 <= q < world.keys[i].len() && (i < t || q < p) ==> !wanted(
                            #[trigger] world.keys[i][q],
                        )
                },
                None => forall|i: int, q: int|
                    0 <= i < world.keys.len() && 0 <= q < world.keys[i].len() ==> !wanted(
                        #[trigger] world.keys[i][q],
                    ),
            }
        }),
{
    let order = world.order;
    let left = |i: int|
        match state.tables[i] {
            concat::ConcatItem::Unfetched(info) => info.key_range->0.left@,
            concat::ConcatItem::Prefetched(table) => table.smallest_key@,
        };
    let right = |i: int|
        match state.tables[i] {
            concat::ConcatItem::Unfetched(info) => info.key_range->0.right@,
            concat::ConcatItem::Prefetched(table) => table.largest_key@,
        };
    assert forall|i: int| 0 <= i < world.keys.len() implies (
    #[trigger] state.tables[i]).first_key(state.direction) == (match state.direction {
        concat::DirectionEnum::Forward => left(i),
        concat::DirectionEnum::Backward => right(i),
    }) by {}
    assert forall|a: Seq<u8>, b: Seq<u8>| #[trigger] world.not_after(a, b) == (match state.direction {
        concat::DirectionEnum::Forward => order(a, b) != concat::KeyOrder::Greater,
        concat::DirectionEnum::Backward => order(b, a) != concat::KeyOrder::Greater,
    }) by {
        assert(order(a, b) == order(a, b));
        assert(order(b, a) == order(b, a));
    }
    assert(world.ordered()) by {
        assert forall|a: Seq<u8>, b: Seq<u8>| #[trigger]
            world.not_after(a, b) || world.not_after(b, a) by {
            assert(order(a, b) == order(a, b));
        }
        assert forall|a: Seq<u8>, b: Seq<u8>, c: Seq<u8>| #[trigger]
            world.not_after(a, b) && #[trigger] world.not_after(b, c) implies world.not_after(
            a,
            c,
        ) by {
            match state.direction {
                concat::DirectionEnum::Forward => {
                    assert(order(a, b) != concat::KeyOrder::Greater);
                    assert(order(b, c) != concat::KeyOrder::Greater);
                },
                concat::DirectionEnum::Backward => {
                    assert(order(c, b) != concat::KeyOrder::Greater);
                    assert(order(b, a) != concat::KeyOrder::Greater);
                },
            }
        }
    }
    assert forall|i: int, j: int, q: int|
        0 <= i < j < world.keys.len() && 0 <= q < world.keys[i].len() implies !world.not_after(
        #[trigger] state.tables[j].first_key(state.direction),
        #[trigger] world.keys[i][q],
    ) by {
        let key = world.keys[i][q];
        match state.direction {
            concat::DirectionEnum::Forward => {
                assert(order(right(i), left(j)) == concat::KeyOrder::Less);
                if order(left(j), key) != concat::KeyOrder::Greater {
                    assert(order(key, right(i)) != concat::KeyOrder::Greater);
                    assert(order(left(j), right(i)) != concat::KeyOrder::Greater);
                }
            },
            concat::DirectionEnum::Backward => {
                assert(right(i) == right(i) && left(j) == left(j));
                assert(order(right(j), left(i)) == concat::KeyOrder::Less);
                if order(key, right(j)) != concat::KeyOrder::Greater {
                    assert(order(left(i), key) != concat::KeyOrder::Greater);
                    assert(order(left(i), right(j)) != concat::KeyOrder::Greater);
                }
            },
        }
    }
    assert forall|i: int, q: int|
        0 <= i < world.keys.len() && 0 <= q < world.keys[i].len() implies world.not_after(
        state.tables[i].first_key(state.direction),
        #[trigger] world.keys[i][q],
    ) by {
        assert(order(left(i), world.keys[i][q]) != concat::KeyOrder::Greater);
        assert(order(world.keys[i][q], right(i)) != concat::KeyOrder::Greater);
    }
    lemma_seek::<E>(state, world);
    assert forall|i: int, j: int|
        0 <= i <= j < state.tables.len() && #[trigger] concat::starts_by(
            state.direction,
            order,
            state.tables[j],
            world.sought,
        ) implies #[trigger] concat::starts_by(
        state.direction,
        order,
        state.tables[i],
        world.sought,
    ) by {
        if i < j {
            let a = state.tables[i].first_key(state.direction);
            let b = state.tables[j].first_key(state.direction);
            let key = world.keys[i][0];
            assert(world.not_after(a, key));
            assert(!world.not_after(b, key));
            assert(world.not_after(key, b));
            assert(world.not_after(a, b));
            assert(world.not_after(b, world.sought));
        }
    }
    let idx = concat::table_of_key(state.direction, state.tables, world.sought, order) as usize;
    let scene = moved_to::<E>(state, world, concat::Goal { idx, seek: true });
    assert forall|key: Seq<u8>| #[trigger] world.not_after(world.sought, key) == (
    match state.direction {
        concat::DirectionEnum::Forward => order(world.sought, key) != concat::KeyOrder::Greater,
        concat::DirectionEnum::Backward => order(world.sought, key) != concat::KeyOrder::Less,
    }) by {
        assert(order(world.sought, key) == order(world.sought, key));
        assert(order(key, world.sought) == order(key, world.sought));
    }
}

/// An iterator that is moved on goes to the next entry of its table, then to the first of the next
/// table, and then has nothing left; a rewound one is at the first entry of the first table.
pub proof fn law_moves_entry_by_entry<E>(state: concat::ConcatView, world: World)
    requires
        world.agrees(state),
        forall|i: int| 0 <= i < world.keys.len() ==> (#[trigger] world.keys[i]).len() > 0,
    ensures
        ({
            let scene = moved_to::<E>(state, world, concat::Goal { idx: 0, seek: false });
            &&& scene.action == concat::ConcatAction::<E>::Done(Ok(()))
            &&& scene.world.keys == world.keys
            &&& scene.world.current == (if world.keys.len() > 0 {
                Some((0int, 0int))
            } else {
                None
            })
            &&& scene.state.current == (if world.keys.len() > 0 {
                Some(true)
            } else {
                None
            })
        }),
        state.current == Some(true) ==> ({
            let (t, p) = world.current->0;
            let scene = moved_on::<E>(state, world);
            &&& scene.action == concat::ConcatAction::<E>::Done(Ok(()))
            &&& scene.world.keys == world.keys
            &&& scene.world.current == (if p + 1 < world.keys[t].len() {
                Some((t, p + 1))
            } else if t + 1 < world.keys.len() {
                Some((t + 1, 0int))
            } else {
                None
            })
            &&& scene.state.current == (if scene.world.current is Some {
                Some(true)
            } else {
                None
            })
        }),
{
    law_move_to_table::<E>(state, world, 0);
    if state.current == Some(true) {
        law_next::<E>(state, world);
        let (t, p) = world.current->0;
        let start = Scene::<E> {
            state: concat::ConcatView { phase: concat::ConcatPhase::Advancing, ..state },
            world,
            action: concat::ConcatAction::Advance,
        };
        let next = start.stepped();
        assert(start.after(8) == next.after(7));
        if p + 1 < world.keys[t].len() {
            lemma_done_stays(next, 7);
        } else {
            let idx = (state.cur_idx + 1) as usize;
            let rested = concat::ConcatView { current: Some(false), ..state };
            assert(next.world.agrees(rested));
            law_move_to_table::<E>(rested, next.world, idx);
            lemma_move_is_short::<E>(rested, next.world, concat::Goal { idx, seek: false });
        }
    }
}

/// The first thing that is done to reach a goal: an iterator that has no such table drops the
/// current one, if it has one; otherwise the table is fetched unless it was, and opened.
pub proof fn law_first_step<E>(state: concat::ConcatView, goal: concat::Goal)
    ensures
        goal.idx >= state.tables.len() ==> state.moved::<E>(goal) == (if state.current is Some {
            (
                concat::ConcatView { phase: concat::ConcatPhase::Closing, ..state },
                concat::ConcatAction::<E>::Retire,
            )
        } else {
            (
                concat::ConcatView { phase: concat::ConcatPhase::Idle, ..state },
                concat::ConcatAction::<E>::Done(Ok(())),
            )
        }),
        goal.idx < state.tables.len() ==> state.moved::<E>(goal) == (
        if state.tables[goal.idx as int] is Unfetched {
            (
                concat::ConcatView { phase: concat::ConcatPhase::Fetching(goal), ..state },
                concat::ConcatAction::<E>::Fetch { idx: goal.idx },
            )
        } else {
            (
                concat::ConcatView { phase: concat::ConcatPhase::Opening(goal), ..state },
                concat::ConcatAction::<E>::Open { idx: goal.idx, seek: goal.seek },
            )
        }),
{
}

/// What is done next once all went well: a table that was fetched is kept as it came, in its place,
/// and opened; the current iterator, if there is one, makes way for the one that was made, which is
/// then the current one, over the table of the goal; and from a table where nothing was found the
/// move goes on to the next.
pub proof fn law_next_steps<E>(
    state: concat::ConcatView,
    goal: concat::Goal,
    table: concat::TableHolder,
    valid: bool,
)
    requires
        goal.idx < state.tables.len() <= usize::MAX,
        state.cur_idx < usize::MAX,
    ensures
        (concat::ConcatView { phase: concat::ConcatPhase::Fetching(goal), ..state }).resumed(
            concat::ConcatEvent::<E>::Fetched(Ok(table)),
        ) == (
            concat::ConcatView {
                tables: state.tables.update(
                    goal.idx as int,
                    concat::ConcatItem::Prefetched(table),
                ),
                phase: concat::ConcatPhase::Opening(goal),
                ..state
            },
            concat::ConcatAction::<E>::Open { idx: goal.idx, seek: goal.seek },
        ),
        (concat::ConcatView { phase: concat::ConcatPhase::Opening(goal), ..state }).resumed(
            concat::ConcatEvent::<E>::Opened(Ok(valid)),
        ) == (if state.current is Some {
            (
                concat::ConcatView {
                    phase: concat::ConcatPhase::Retiring { goal, valid },
                    ..state
                },
                concat::ConcatAction::<E>::Retire,
            )
        } else {
            (
                concat::ConcatView {
                    phase: concat::ConcatPhase::Installing { goal, valid },
                    ..state
                },
                concat::ConcatAction::<E>::Install,
            )
        }),
        (concat::ConcatView { phase: concat::ConcatPhase::Retiring { goal, valid }, ..state }).resumed(
            concat::ConcatEvent::<E>::Completed,
        ) == (
            concat::ConcatView {
                current: None,
                phase: concat::ConcatPhase::Installing { goal, valid },
                ..state
            },
            concat::ConcatAction::<E>::Install,
        ),
        (concat::ConcatView {
            phase: concat::ConcatPhase::Installing { goal, valid },
            ..state
        }).resumed(concat::ConcatEvent::<E>::Completed) == ({
            let now = concat::ConcatView {
                current: Some(valid),
                cur_idx: goal.idx,
                phase: concat::ConcatPhase::Idle,
                ..state
            };
            if goal.seek && !valid {
                now.moved::<E>(concat::Goal { idx: (goal.idx + 1) as usize, seek: false })
            } else {
                (now, concat::ConcatAction::<E>::Done(Ok(())))
            }
        }),
        (concat::ConcatView { phase: concat::ConcatPhase::Closing, ..state }).resumed(
            concat::ConcatEvent::<E>::Completed,
        ) == (
            concat::ConcatView { current: None, phase: concat::ConcatPhase::Idle, ..state },
            concat::ConcatAction::<E>::Done(Ok(())),
        ),
        (concat::ConcatView { phase: concat::ConcatPhase::Advancing, ..state }).resumed(
            concat::ConcatEvent::<E>::Advanced { result: Ok(()), valid },
        ) == ({
            let now = concat::ConcatView {
                current: Some(valid),
                phase: concat::ConcatPhase::Idle,
                ..state
            };
            if valid {
                (now, concat::ConcatAction::<E>::Done(Ok(())))
            } else {
                now.moved::<E>(concat::Goal { idx: (state.cur_idx + 1) as usize, seek: false })
            }
        }),
{
}

/// A new iterator has no current one, and holds its tables in the order in which they came, all
/// of them fetched or none.
pub proof fn law_new_iterator(
    infos: Vec<concat::SstableInfo>,
    holders: Vec<concat::TableHolder>,
    direction: concat::DirectionEnum,
    unfetched: concat::ConcatIteratorInner,
    fetched: concat::ConcatIteratorInner,
    i: int,
)
    requires
        call_ensures(concat::ConcatIteratorInner::new, (infos, direction), unfetched),
        call_ensures(concat::ConcatIteratorInner::new_with_prefetch, (holders, direction), fetched),
    ensures
        unfetched@.direction == direction,
        unfetched@.current is None,
        unfetched@.phase is Idle,
        unfetched@.tables.len() == infos@.len(),
        0 <= i < infos@.len() ==> unfetched@.tables[i] == concat::ConcatItem::Unfetched(infos@[i]),
        fetched@.direction == direction,
        fetched@.current is None,
        fetched@.phase is Idle,
        fetched@.tables.len() == holders@.len(),
        0 <= i < holders@.len() ==> fetched@.tables[i] == concat::ConcatItem::Prefetched(
            holders@[i],
        ),
{
}

/// What an iterator waits for: to hear of the move that it asked for, of the fetch, of the opening,
/// or that the current iterator was dropped or replaced.
pub proof fn law_what_an_iterator_waits_for<E>(
    state: concat::ConcatView,
    moved: Result<(), E>,
    fetched: Result<concat::TableHolder, E>,
    opened: Result<bool, E>,
    valid: bool,
)
    ensures
        state.expects(concat::ConcatEvent::<E>::Advanced { result: moved, valid })
            <==> state.phase is Advancing,
        state.expects(concat::ConcatEvent::<E>::Fetched(fetched)) <==> state.phase is Fetching,
        state.expects(concat::ConcatEvent::<E>::Opened(opened)) <==> state.phase is Opening,
        state.expects(concat::ConcatEvent::<E>::Completed) <==> state.phase is Retiring
            || state.phase is Installing || state.phase is Closing,
{
}

} // verus!
