//! An iterator over the entries of many tables, one table after the other.
//!
//! The iterator decides which table to go to and when; each fetch of a table and each move of the
//! iterator over one table is asked for, one after the other, and it is told how each went.

use vstd::prelude::*;

verus! {

/// How a key stands to another.
#[derive(Clone, Copy, Debug, PartialEq, Eq, Structural)]
pub enum KeyOrder {
    Less,
    Equal,
    Greater,
}

/// Which way an iterator goes.
#[derive(Clone, Copy, Debug, PartialEq, Eq, Structural)]
pub enum DirectionEnum {
    Forward,
    Backward,
}

/// The smallest and the largest key of a table.
#[derive(Debug)]
pub struct KeyRange {
    pub left: Vec<u8>,
    pub right: Vec<u8>,
}

/// What is known of a table that was not fetched.
#[derive(Debug)]
pub struct SstableInfo {
    pub id: u64,
    pub key_range: Option<KeyRange>,
}

/// What is known of a table that was fetched.
#[derive(Debug)]
pub struct TableHolder {
    pub id: u64,
    pub smallest_key: Vec<u8>,
    pub largest_key: Vec<u8>,
}

/// A table, fetched or not.
#[derive(Debug)]
pub enum ConcatItem {
    Unfetched(SstableInfo),
    Prefetched(TableHolder),
}

impl ConcatItem {
    /// Whether the keys of the table are known.
    pub open spec fn has_keys(&self) -> bool {
        match self {
            ConcatItem::Unfetched(sstable_info) => sstable_info.key_range is Some,
            ConcatItem::Prefetched(_) => true,
        }
    }

    pub open spec fn smallest(&self) -> Seq<u8> {
        match self {
            ConcatItem::Unfetched(sstable_info) => sstable_info.key_range->0.left@,
            ConcatItem::Prefetched(table_holder) => table_holder.smallest_key@,
        }
    }

    pub open spec fn largest(&self) -> Seq<u8> {
        match self {
            ConcatItem::Unfetched(sstable_info) => sstable_info.key_range->0.right@,
            ConcatItem::Prefetched(table_holder) => table_holder.largest_key@,
        }
    }

    /// The key that an iterator over the table starts with.
    pub open spec fn first_key(&self, direction: DirectionEnum) -> Seq<u8> {
        match direction {
            DirectionEnum::Forward => self.smallest(),
            DirectionEnum::Backward => self.largest(),
        }
    }

    pub fn smallest_key(&self) -> (r: &[u8])
        requires
            self.has_keys(),
        ensures
            r@ == self.smallest(),
    {
        match self {
            ConcatItem::Unfetched(sstable_info) => {
                sstable_info.key_range.as_ref().unwrap().left.as_slice()
            },
            ConcatItem::Prefetched(table_holder) => table_holder.smallest_key.as_slice(),
        }
    }

    pub fn largest_key(&self) -> (r: &[u8])
        requires
            self.has_keys(),
        ensures
            r@ == self.largest(),
    {
        match self {
            ConcatItem::Unfetched(sstable_info) => {
                sstable_info.key_range.as_ref().unwrap().right.as_slice()
            },
            ConcatItem::Prefetched(table_holder) => table_holder.largest_key.as_slice(),
        }
    }
}

/// What is to be done next.
#[derive(Debug)]
pub enum ConcatAction<E> {
    /// Move the current iterator on by one entry.
    Advance,
    /// Fetch the table of this index.
    Fetch { idx: usize },
    /// Make an iterator over the table of this index, and move it to the key that is sought, or to
    /// its first entry.
    Open { idx: usize, seek: bool },
    /// Collect the statistics of the current iterator, and drop it.
    Retire,
    /// Let the iterator that was made last be the current one.
    Install,
    /// Nothing: this is how it went.
    Done(Result<(), E>),
}

/// How it went.
#[derive(Debug)]
pub enum ConcatEvent<E> {
    /// The current iterator was moved on, or could not be; and whether it is at an entry now.
    Advanced { result: Result<(), E>, valid: bool },
    Fetched(Result<TableHolder, E>),
    /// An iterator was made and moved, and is or is not at an entry; or it could not be.
    Opened(Result<bool, E>),
    /// The current iterator was dropped, or replaced.
    Completed,
}

/// Where an iterator is to go: to the key that is sought in a table, or to a table's first entry.
#[derive(Clone, Copy, Debug, PartialEq, Eq, Structural)]
pub struct Goal {
    pub idx: usize,
    pub seek: bool,
}

/// What an iterator waits for.
#[derive(Clone, Copy, Debug, PartialEq, Eq, Structural)]
pub enum ConcatPhase {
    Idle,
    Advancing,
    Fetching(Goal),
    Opening(Goal),
    Retiring { goal: Goal, valid: bool },
    Installing { goal: Goal, valid: bool },
    Closing,
}

/// What an iterator is and where it stands.
pub struct ConcatView {
    pub direction: DirectionEnum,
    pub tables: Seq<ConcatItem>,
    /// Whether there is a current iterator, and whether it is at an entry.
    pub current: Option<bool>,
    /// The table of the current iterator.
    pub cur_idx: usize,
    pub phase: ConcatPhase,
}

impl ConcatView {
    pub open spec fn well_formed(self) -> bool {
        &&& self.tables.len() <= usize::MAX
        &&& self.current is Some ==> self.cur_idx < self.tables.len()
        &&& match self.phase {
            ConcatPhase::Idle | ConcatPhase::Closing => true,
            ConcatPhase::Advancing => self.current is Some,
            ConcatPhase::Fetching(goal) => goal.idx < self.tables.len(),
            ConcatPhase::Opening(goal) => goal.idx < self.tables.len(),
            ConcatPhase::Retiring { goal, .. } => goal.idx < self.tables.len(),
            ConcatPhase::Installing { goal, .. } => goal.idx < self.tables.len(),
        }
    }

    /// What is done first to reach a goal. There is nothing behind the last table.
    pub open spec fn moved<E>(self, goal: Goal) -> (ConcatView, ConcatAction<E>) {
        if goal.idx >= self.tables.len() {
            if self.current is Some {
                (ConcatView { phase: ConcatPhase::Closing, ..self }, ConcatAction::Retire)
            } else {
                (ConcatView { phase: ConcatPhase::Idle, ..self }, ConcatAction::Done(Ok(())))
            }
        } else {
            match self.tables[goal.idx as int] {
                ConcatItem::Unfetched(_) => (
                    ConcatView { phase: ConcatPhase::Fetching(goal), ..self },
                    ConcatAction::Fetch { idx: goal.idx },
                ),
                ConcatItem::Prefetched(_) => (
                    ConcatView { phase: ConcatPhase::Opening(goal), ..self },
                    ConcatAction::Open { idx: goal.idx, seek: goal.seek },
                ),
            }
        }
    }

    /// Whether this is what the iterator waits for.
    pub open spec fn expects<E>(self, event: ConcatEvent<E>) -> bool {
        match event {
            ConcatEvent::Advanced { .. } => self.phase is Advancing,
            ConcatEvent::Fetched(_) => self.phase is Fetching,
            ConcatEvent::Opened(_) => self.phase is Opening,
            ConcatEvent::Completed => self.phase is Retiring || self.phase is Installing
                || self.phase is Closing,
        }
    }

    /// What is done once the iterator is told how it went.
    pub open spec fn resumed<E>(self, event: ConcatEvent<E>) -> (ConcatView, ConcatAction<E>) {
        let idle = ConcatView { phase: ConcatPhase::Idle, ..self };
        match (self.phase, event) {
            (ConcatPhase::Advancing, ConcatEvent::Advanced { result, valid }) => {
                let now = ConcatView { current: Some(valid), ..idle };
                match result {
                    Err(e) => (now, ConcatAction::Done(Err(e))),
                    Ok(_) => if valid {
                        (now, ConcatAction::Done(Ok(())))
                    } else {
                        now.moved(Goal { idx: (self.cur_idx + 1) as usize, seek: false })
                    },
                }
            },
            (ConcatPhase::Fetching(goal), ConcatEvent::Fetched(Ok(table))) => (
                ConcatView {
                    tables: self.tables.update(goal.idx as int, ConcatItem::Prefetched(table)),
                    phase: ConcatPhase::Opening(goal),
                    ..self
                },
                ConcatAction::Open { idx: goal.idx, seek: goal.seek },
            ),
            (ConcatPhase::Fetching(_), ConcatEvent::Fetched(Err(e))) => (
                idle,
                ConcatAction::Done(Err(e)),
            ),
            (ConcatPhase::Opening(goal), ConcatEvent::Opened(Ok(valid))) => if self.current is Some {
                (
                    ConcatView { phase: ConcatPhase::Retiring { goal, valid }, ..self },
                    ConcatAction::Retire,
                )
            } else {
                (
                    ConcatView { phase: ConcatPhase::Installing { goal, valid }, ..self },
                    ConcatAction::Install,
                )
            },
            (ConcatPhase::Opening(_), ConcatEvent::Opened(Err(e))) => (
                idle,
                ConcatAction::Done(Err(e)),
            ),
            (ConcatPhase::Retiring { goal, valid }, _) => (
                ConcatView {
                    current: None,
                    phase: ConcatPhase::Installing { goal, valid },
                    ..self
                },
                ConcatAction::Install,
            ),
            (ConcatPhase::Installing { goal, valid }, _) => {
                let now = ConcatView { current: Some(valid), cur_idx: goal.idx, ..idle };
                if goal.seek && !valid {
                    now.moved(Goal { idx: (goal.idx + 1) as usize, seek: false })
                } else {
                    (now, ConcatAction::Done(Ok(())))
                }
            },
            (ConcatPhase::Closing, _) => (
                ConcatView { current: None, ..idle },
                ConcatAction::Done(Ok(())),
            ),
            _ => (self, ConcatAction::Done(Ok(()))),
        }
    }
}

/// Whether a comparison of keys does what this function says.
pub open spec fn compares_by<F: Fn(&[u8], &[u8]) -> KeyOrder>(
    compare: F,
    order: spec_fn(Seq<u8>, Seq<u8>) -> KeyOrder,
) -> bool {
    forall|a: &[u8], b: &[u8], r: KeyOrder|
        call_ensures(compare, (a, b), r) ==> r == order(a@, b@)
}

/// Whether a key comes before another or is the same, on an iterator's way.
pub open spec fn not_after(
    direction: DirectionEnum,
    order: spec_fn(Seq<u8>, Seq<u8>) -> KeyOrder,
    a: Seq<u8>,
    b: Seq<u8>,
) -> bool {
    match direction {
        DirectionEnum::Forward => order(a, b) == KeyOrder::Less || order(a, b) == KeyOrder::Equal,
        DirectionEnum::Backward => order(a, b) == KeyOrder::Greater || order(a, b)
            == KeyOrder::Equal,
    }
}

/// Whether a table starts at a key or before it, on an iterator's way.
pub open spec fn starts_by(
    direction: DirectionEnum,
    order: spec_fn(Seq<u8>, Seq<u8>) -> KeyOrder,
    table: ConcatItem,
    key: Seq<u8>,
) -> bool {
    not_after(direction, order, table.first_key(direction), key)
}

/// The last table that starts at a key or before it; the first table where none does.
pub open spec fn table_of_key(
    direction: DirectionEnum,
    tables: Seq<ConcatItem>,
    key: Seq<u8>,
    order: spec_fn(Seq<u8>, Seq<u8>) -> KeyOrder,
) -> int
    decreases tables.len(),
{
    if tables.len() <= 1 {
        0
    } else if starts_by(direction, order, tables.last(), key) {
        tables.len() - 1
    } else {
        table_of_key(direction, tables.drop_last(), key, order)
    }
}

/// Whether the tables that start at a key or before it come before all others.
pub open spec fn partitioned(
    direction: DirectionEnum,
    tables: Seq<ConcatItem>,
    key: Seq<u8>,
    order: spec_fn(Seq<u8>, Seq<u8>) -> KeyOrder,
) -> bool {
    forall|i: int, j: int|
        0 <= i <= j < tables.len() && #[trigger] starts_by(direction, order, tables[j], key)
            ==> #[trigger] starts_by(direction, order, tables[i], key)
}

/// The table of a key is the last that starts at it or before it.
proof fn lemma_table_of_key(
    direction: DirectionEnum,
    tables: Seq<ConcatItem>,
    key: Seq<u8>,
    order: spec_fn(Seq<u8>, Seq<u8>) -> KeyOrder,
    idx: int,
)
    requires
        idx == 0 || 0 < idx < tables.len() && starts_by(direction, order, tables[idx], key),
        forall|i: int|
            idx < i < tables.len() ==> !#[trigger] starts_by(direction, order, tables[i], key),
    ensures
        table_of_key(direction, tables, key, order) == idx,
    decreases tables.len(),
{
    if tables.len() > 1 && idx < tables.len() - 1 {
        assert(!starts_by(direction, order, tables[tables.len() - 1], key));
        assert forall|i: int| idx < i < tables.drop_last().len() implies !#[trigger] starts_by(
            direction,
            order,
            tables.drop_last()[i],
            key,
        ) by {
            assert(!starts_by(direction, order, tables[i], key));
        }
        lemma_table_of_key(direction, tables.drop_last(), key, order, idx);
    }
}

/// Served as the concrete implementation of forward and backward iterators over many tables.
#[derive(Debug)]
pub struct ConcatIteratorInner {
    direction: DirectionEnum,
    /// Whether there is an iterator of the current table, and whether it is at an entry.
    sstable_iter: Option<bool>,
    /// Current table index.
    cur_idx: usize,
    /// All non-overlapping tables.
    tables: Vec<ConcatItem>,
    phase: ConcatPhase,
}

impl View for ConcatIteratorInner {
    type V = ConcatView;

    closed spec fn view(&self) -> ConcatView {
        ConcatView {
            direction: self.direction,
            tables: self.tables@,
            current: self.sstable_iter,
            cur_idx: self.cur_idx,
            phase: self.phase,
        }
    }
}

impl ConcatIteratorInner {
    #[verifier::type_invariant]
    spec fn invariant_holds(self) -> bool {
        self@.well_formed()
    }

    /// An iterator over these tables before its first move.
    pub open spec fn initial(direction: DirectionEnum, tables: Seq<ConcatItem>) -> ConcatView {
        ConcatView { direction, tables, current: None, cur_idx: 0, phase: ConcatPhase::Idle }
    }

    fn new_inner(tables: Vec<ConcatItem>, direction: DirectionEnum) -> (r: Self)
        ensures
            r@ == Self::initial(direction, tables@),
    {
        assert(tables@.len() == tables.len());
        ConcatIteratorInner {
            direction,
            sstable_iter: None,
            cur_idx: 0,
            tables,
            phase: ConcatPhase::Idle,
        }
    }

    /// Caller should make sure that `tables` are non-overlapping,
    /// arranged in ascending order when it serves as a forward iterator,
    /// and arranged in descending order when it serves as a backward iterator.
    pub fn new(tables: Vec<SstableInfo>, direction: DirectionEnum) -> (r: Self)
        ensures
            r@ == Self::initial(
                direction,
                tables@.map_values(|table: SstableInfo| ConcatItem::Unfetched(table)),
            ),
    {
        let ghost infos = tables@;
        let mut items: Vec<ConcatItem> = Vec::new();
        for table in iter: tables
            invariant
                iter.seq() == infos,
                items@ =~= infos.take(iter.index()).map_values(
                    |table: SstableInfo| ConcatItem::Unfetched(table),
                ),
        {
            items.push(ConcatItem::Unfetched(table));
        }
        assert(infos.take(infos.len() as int) =~= infos);
        Self::new_inner(items, direction)
    }

    /// Caller should make sure that `tables` are non-overlapping,
    /// arranged in ascending order when it serves as a forward iterator,
    /// and arranged in descending order when it serves as a backward iterator.
    pub fn new_with_prefetch(tables: Vec<TableHolder>, direction: DirectionEnum) -> (r: Self)
        ensures
            r@ == Self::initial(
                direction,
                tables@.map_values(|table: TableHolder| ConcatItem::Prefetched(table)),
            ),
    {
        let ghost holders = tables@;
        let mut items: Vec<ConcatItem> = Vec::new();
        for table in iter: tables
            invariant
                iter.seq() == holders,
                items@ =~= holders.take(iter.index()).map_values(
                    |table: TableHolder| ConcatItem::Prefetched(table),
                ),
        {
            items.push(ConcatItem::Prefetched(table));
        }
        assert(holders.take(holders.len() as int) =~= holders);
        Self::new_inner(items, direction)
    }

    pub fn direction(&self) -> (r: DirectionEnum)
        ensures
            r == self@.direction,
    {
        self.direction
    }

    /// How many tables there are.
    pub fn table_count(&self) -> (r: usize)
        ensures
            r == self@.tables.len(),
    {
        self.tables.len()
    }

    pub fn table(&self, idx: usize) -> (r: &ConcatItem)
        requires
            idx < self@.tables.len(),
        ensures
            *r == self@.tables[idx as int],
    {
        &self.tables[idx]
    }

    /// Whether the iterator is at an entry.
    pub fn is_valid(&self) -> (r: bool)
        ensures
            r == (self@.current == Some(true)),
    {
        match self.sstable_iter {
            Some(valid) => valid,
            None => false,
        }
    }

    /// Whether there is an iterator of a table.
    pub fn has_table_iter(&self) -> (r: bool)
        ensures
            r == self@.current is Some,
    {
        self.sstable_iter.is_some()
    }

    /// Whether the keys of all tables are known.
    pub fn has_keys(&self) -> (r: bool)
        ensures
            r == forall|i: int| #![auto] 0 <= i < self@.tables.len() ==> self@.tables[i].has_keys(),
    {
        let mut i: usize = 0;
        while i < self.tables.len()
            invariant
                i <= self.tables@.len(),
                forall|j: int| #![auto] 0 <= j < i ==> self.tables@[j].has_keys(),
            decreases self.tables@.len() - i,
        {
            match &self.tables[i] {
                ConcatItem::Unfetched(sstable_info) => {
                    if sstable_info.key_range.is_none() {
                        assert(!self@.tables[i as int].has_keys());
                        return false;
                    }
                },
                ConcatItem::Prefetched(_) => {},
            }
            i += 1;
        }
        true
    }

    /// Seeks to a table, and then seeks to the key if it is sought.
    fn seek_idx<E>(&mut self, idx: usize, seek: bool) -> (r: ConcatAction<E>)
        ensures
            (final(self)@, r) == old(self)@.moved::<E>(Goal { idx, seek }),
    {
        proof {
            use_type_invariant(&*self);
        }
        let goal = Goal { idx, seek };
        if idx >= self.tables.len() {
            if self.sstable_iter.is_some() {
                self.phase = ConcatPhase::Closing;
                ConcatAction::Retire
            } else {
                self.phase = ConcatPhase::Idle;
                ConcatAction::Done(Ok(()))
            }
        } else {
            let fetched: bool = match &self.tables[idx] {
                ConcatItem::Unfetched(_) => false,
                ConcatItem::Prefetched(_) => true,
            };
            if fetched {
                self.phase = ConcatPhase::Opening(goal);
                ConcatAction::Open { idx, seek }
            } else {
                self.phase = ConcatPhase::Fetching(goal);
                ConcatAction::Fetch { idx }
            }
        }
    }

    /// Moves to the first entry.
    pub fn rewind<E>(&mut self) -> (r: ConcatAction<E>)
        ensures
            (final(self)@, r) == old(self)@.moved::<E>(Goal { idx: 0, seek: false }),
    {
        self.seek_idx(0, false)
    }

    /// Moves on by one entry.
    pub fn next<E>(&mut self) -> (r: ConcatAction<E>)
        requires
            old(self)@.current is Some,
        ensures
            final(self)@ == (ConcatView { phase: ConcatPhase::Advancing, ..old(self)@ }),
            r is Advance,
    {
        proof {
            use_type_invariant(&*self);
        }
        self.phase = ConcatPhase::Advancing;
        ConcatAction::Advance
    }

    /// Takes how it went, and says what is to be done next.
    pub fn resume<E>(&mut self, event: ConcatEvent<E>) -> (r: ConcatAction<E>)
        requires
            old(self)@.expects(event),
        ensures
            (final(self)@, r) == old(self)@.resumed(event),
    {
        proof {
            use_type_invariant(&*self);
        }
        match (self.phase, event) {
            (ConcatPhase::Advancing, ConcatEvent::Advanced { result, valid }) => {
                self.sstable_iter = Some(valid);
                self.phase = ConcatPhase::Idle;
                match result {
                    Err(e) => ConcatAction::Done(Err(e)),
                    Ok(()) => if valid {
                        ConcatAction::Done(Ok(()))
                    } else {
                        // Seek to next table
                        self.seek_idx(self.cur_idx + 1, false)
                    },
                }
            },
            (ConcatPhase::Fetching(goal), ConcatEvent::Fetched(Ok(table))) => {
                self.tables[goal.idx] = ConcatItem::Prefetched(table);
                self.phase = ConcatPhase::Opening(goal);
                ConcatAction::Open { idx: goal.idx, seek: goal.seek }
            },
            (ConcatPhase::Fetching(_), ConcatEvent::Fetched(Err(e))) => {
                self.phase = ConcatPhase::Idle;
                ConcatAction::Done(Err(e))
            },
            (ConcatPhase::Opening(goal), ConcatEvent::Opened(Ok(valid))) => {
                if self.sstable_iter.is_some() {
                    self.phase = ConcatPhase::Retiring { goal, valid };
                    ConcatAction::Retire
                } else {
                    self.phase = ConcatPhase::Installing { goal, valid };
                    ConcatAction::Install
                }
            },
            (ConcatPhase::Opening(_), ConcatEvent::Opened(Err(e))) => {
                self.phase = ConcatPhase::Idle;
                ConcatAction::Done(Err(e))
            },
            (ConcatPhase::Retiring { goal, valid }, _) => {
                self.sstable_iter = None;
                self.phase = ConcatPhase::Installing { goal, valid };
                ConcatAction::Install
            },
            (ConcatPhase::Installing { goal, valid }, _) => {
                self.sstable_iter = None;
                self.cur_idx = goal.idx;
                self.sstable_iter = Some(valid);
                self.phase = ConcatPhase::Idle;
                if goal.seek && !valid {
                    // Seek to next table
                    self.seek_idx(goal.idx + 1, false)
                } else {
                    ConcatAction::Done(Ok(()))
                }
            },
            (ConcatPhase::Closing, _) => {
                self.sstable_iter = None;
                self.phase = ConcatPhase::Idle;
                ConcatAction::Done(Ok(()))
            },
            _ => ConcatAction::Done(Ok(())),
        }
    }

    /// Whether a table starts at a key or before it, on the iterator's way.
    fn table_starts_by<F: Fn(&[u8], &[u8]) -> KeyOrder>(
        &self,
        idx: usize,
        key: &[u8],
        compare: &F,
    ) -> (r: bool)
        requires
            idx < self@.tables.len(),
            self@.tables[idx as int].has_keys(),
            forall|a: &[u8], b: &[u8]| call_requires(*compare, (a, b)),
        ensures
            forall|order: spec_fn(Seq<u8>, Seq<u8>) -> KeyOrder| #[trigger]
                compares_by(*compare, order) ==> r == starts_by(
                    self@.direction,
                    order,
                    self@.tables[idx as int],
                    key@,
                ),
    {
        match self.direction {
            DirectionEnum::Forward => {
                let ord = compare(self.tables[idx].smallest_key(), key);
                ord == KeyOrder::Less || ord == KeyOrder::Equal
            },
            DirectionEnum::Backward => {
                let ord = compare(self.tables[idx].largest_key(), key);
                ord == KeyOrder::Greater || ord == KeyOrder::Equal
            },
        }
    }

    /// How many tables start at a key or before it, where those come before all others.
    fn partition_point<F: Fn(&[u8], &[u8]) -> KeyOrder>(&self, key: &[u8], compare: &F) -> (r: usize)
        requires
            forall|i: int| #![auto] 0 <= i < self@.tables.len() ==> self@.tables[i].has_keys(),
            forall|a: &[u8], b: &[u8]| call_requires(*compare, (a, b)),
        ensures
            r <= self@.tables.len(),
            forall|order: spec_fn(Seq<u8>, Seq<u8>) -> KeyOrder| #[trigger]
                compares_by(*compare, order) && partitioned(
                    self@.direction,
                    self@.tables,
                    key@,
                    order,
                ) ==> forall|i: int|
                    0 <= i < self@.tables.len() ==> (i < r <==> #[trigger] starts_by(
                        self@.direction,
                        order,
                        self@.tables[i],
                        key@,
                    )),
    {
        let mut left: usize = 0;
        let mut right: usize = self.tables.len();
        while left < right
            invariant
                left <= right <= self@.tables.len(),
                forall|i: int| #![auto] 0 <= i < self@.tables.len() ==> self@.tables[i].has_keys(),
                forall|a: &[u8], b: &[u8]| call_requires(*compare, (a, b)),
                forall|order: spec_fn(Seq<u8>, Seq<u8>) -> KeyOrder| #[trigger]
                    compares_by(*compare, order) ==> (left > 0 ==> starts_by(
                        self@.direction,
                        order,
                        self@.tables[left - 1],
                        key@,
                    )) && (right < self@.tables.len() ==> !starts_by(
                        self@.direction,
                        order,
                        self@.tables[right as int],
                        key@,
                    )),
            decreases right - left,
        {
            let mid: usize = left + (right - left) / 2;
            if self.table_starts_by(mid, key, compare) {
                left = mid + 1;
            } else {
                right = mid;
            }
        }
        left
    }

    /// Moves to the first entry that is not before a key, on the iterator's way.
    ///
    /// The key is compared with the keys of the tables as they are. Where the tables are not in
    /// order, the move may begin in any of them.
    pub fn seek<E, F: Fn(&[u8], &[u8]) -> KeyOrder>(&mut self, key: &[u8], compare: F) -> (r:
        ConcatAction<E>)
        requires
            forall|i: int| #![auto]
                0 <= i < old(self)@.tables.len() ==> old(self)@.tables[i].has_keys(),
            forall|a: &[u8], b: &[u8]| call_requires(compare, (a, b)),
        ensures
            exists|idx: usize|
                (idx == 0 || idx < old(self)@.tables.len()) && (final(self)@, r) == #[trigger] old(
                    self,
                )@.moved::<E>(Goal { idx, seek: true }),
            forall|order: spec_fn(Seq<u8>, Seq<u8>) -> KeyOrder| #[trigger]
                compares_by(compare, order) && partitioned(
                    old(self)@.direction,
                    old(self)@.tables,
                    key@,
                    order,
                ) ==> (final(self)@, r) == old(self)@.moved::<E>(
                    Goal {
                        idx: table_of_key(
                            old(self)@.direction,
                            old(self)@.tables,
                            key@,
                            order,
                        ) as usize,
                        seek: true,
                    },
                ),
    {
        proof {
            use_type_invariant(&*self);
        }
        let table_idx: usize = self.partition_point(key, &compare).saturating_sub(1);
        proof {
            assert forall|order: spec_fn(Seq<u8>, Seq<u8>) -> KeyOrder| #[trigger]
                compares_by(compare, order) && partitioned(
                    self@.direction,
                    self@.tables,
                    key@,
                    order,
                ) implies table_idx == table_of_key(
                self@.direction,
                self@.tables,
                key@,
                order,
            ) by {
                lemma_table_of_key(self@.direction, self@.tables, key@, order, table_idx as int);
            }
        }
        self.seek_idx(table_idx, true)
    }
}

} // verus!
