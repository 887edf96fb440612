use streamkit::concat::{
    ConcatAction, ConcatEvent, ConcatItem, ConcatIteratorInner, DirectionEnum, KeyOrder, KeyRange,
    SstableInfo, TableHolder,
};

fn compare(a: &[u8], b: &[u8]) -> KeyOrder {
    if a < b {
        KeyOrder::Less
    } else if a == b {
        KeyOrder::Equal
    } else {
        KeyOrder::Greater
    }
}

/// Tables of one-byte keys, in the order in which an iterator meets them.
struct Tables {
    direction: DirectionEnum,
    keys: Vec<Vec<u8>>,
    current: Option<(usize, usize)>,
    opened: Option<(usize, usize)>,
    fetches: usize,
    made: usize,
    collected: usize,
    failing_fetch: Option<usize>,
    failing_open: Option<usize>,
    failing_advance: bool,
}

impl Tables {
    fn new(direction: DirectionEnum, keys: &[&[u8]]) -> Tables {
        Tables {
            direction,
            keys: keys.iter().map(|k| k.to_vec()).collect(),
            current: None,
            opened: None,
            fetches: 0,
            made: 0,
            collected: 0,
            failing_fetch: None,
            failing_open: None,
            failing_advance: false,
        }
    }

    fn bounds(&self, idx: usize) -> (Vec<u8>, Vec<u8>) {
        let smallest = *self.keys[idx].iter().min().unwrap();
        let largest = *self.keys[idx].iter().max().unwrap();
        (vec![smallest], vec![largest])
    }

    fn holder(&self, idx: usize) -> TableHolder {
        let (smallest_key, largest_key) = self.bounds(idx);
        TableHolder { id: idx as u64, smallest_key, largest_key }
    }

    fn info(&self, idx: usize) -> SstableInfo {
        let (left, right) = self.bounds(idx);
        SstableInfo { id: idx as u64, key_range: Some(KeyRange { left, right }) }
    }

    fn unfetched(&self) -> ConcatIteratorInner {
        ConcatIteratorInner::new((0..self.keys.len()).map(|i| self.info(i)).collect(), self.direction)
    }

    fn prefetched(&self) -> ConcatIteratorInner {
        ConcatIteratorInner::new_with_prefetch(
            (0..self.keys.len()).map(|i| self.holder(i)).collect(),
            self.direction,
        )
    }

    fn at_entry(&self) -> bool {
        match self.current {
            Some((table, position)) => position < self.keys[table].len(),
            None => false,
        }
    }

    fn key(&self) -> u8 {
        let (table, position) = self.current.unwrap();
        self.keys[table][position]
    }

    /// Does what an iterator asks for until nothing is left to do.
    fn finish(
        &mut self,
        iterator: &mut ConcatIteratorInner,
        first: ConcatAction<&'static str>,
        sought: u8,
    ) -> Result<(), &'static str> {
        let mut action = first;
        loop {
            let event = match action {
                ConcatAction::Advance => {
                    if self.failing_advance {
                        ConcatEvent::Advanced { result: Err("advance"), valid: self.at_entry() }
                    } else {
                        let (table, position) = self.current.unwrap();
                        self.current = Some((table, position + 1));
                        ConcatEvent::Advanced { result: Ok(()), valid: self.at_entry() }
                    }
                }
                ConcatAction::Fetch { idx } => {
                    self.fetches += 1;
                    if self.failing_fetch == Some(idx) {
                        ConcatEvent::Fetched(Err("fetch"))
                    } else {
                        ConcatEvent::Fetched(Ok(self.holder(idx)))
                    }
                }
                ConcatAction::Open { idx, seek } => {
                    if self.failing_open == Some(idx) {
                        ConcatEvent::Opened(Err("open"))
                    } else {
                        let direction = self.direction;
                        let position = if seek {
                            self.keys[idx]
                                .iter()
                                .position(|k| match direction {
                                    DirectionEnum::Forward => *k >= sought,
                                    DirectionEnum::Backward => *k <= sought,
                                })
                                .unwrap_or(self.keys[idx].len())
                        } else {
                            0
                        };
                        self.opened = Some((idx, position));
                        self.made += 1;
                        ConcatEvent::Opened(Ok(position < self.keys[idx].len()))
                    }
                }
                ConcatAction::Retire => {
                    assert!(self.current.is_some());
                    self.current = None;
                    self.collected += 1;
                    ConcatEvent::Completed
                }
                ConcatAction::Install => {
                    assert!(self.current.is_none());
                    self.current = self.opened.take();
                    ConcatEvent::Completed
                }
                ConcatAction::Done(result) => {
                    assert_eq!(iterator.is_valid(), self.at_entry());
                    assert_eq!(iterator.has_table_iter(), self.current.is_some());
                    return result;
                }
            };
            action = iterator.resume(event);
        }
    }

    fn rewind(&mut self, iterator: &mut ConcatIteratorInner) -> Result<(), &'static str> {
        let action = iterator.rewind();
        self.finish(iterator, action, 0)
    }

    fn next(&mut self, iterator: &mut ConcatIteratorInner) -> Result<(), &'static str> {
        let action = iterator.next();
        self.finish(iterator, action, 0)
    }

    fn seek(&mut self, iterator: &mut ConcatIteratorInner, key: u8) -> Result<(), &'static str> {
        let action = iterator.seek(&[key], compare);
        self.finish(iterator, action, key)
    }
}

fn forward() -> Tables {
    Tables::new(DirectionEnum::Forward, &[&[10, 12], &[20], &[30, 32, 34]])
}

fn backward() -> Tables {
    Tables::new(DirectionEnum::Backward, &[&[34, 32, 30], &[20], &[12, 10]])
}

fn all_keys(tables: &mut Tables, iterator: &mut ConcatIteratorInner) -> Vec<u8> {
    let mut r = Vec::new();
    tables.rewind(iterator).unwrap();
    while iterator.is_valid() {
        r.push(tables.key());
        tables.next(iterator).unwrap();
    }
    r
}

#[test]
fn every_key_is_met_once_and_in_order() {
    let mut tables = forward();
    let mut iterator = tables.unfetched();
    assert!(!iterator.is_valid());
    assert_eq!(all_keys(&mut tables, &mut iterator), vec![10, 12, 20, 30, 32, 34]);
    assert_eq!(tables.fetches, 3);
    // Every iterator that was made is accounted for.
    assert_eq!((tables.made, tables.collected), (3, 3));
    assert!(!iterator.has_table_iter());
    // A table is fetched once.
    assert_eq!(all_keys(&mut tables, &mut iterator), vec![10, 12, 20, 30, 32, 34]);
    assert_eq!(tables.fetches, 3);

    let mut tables = backward();
    let mut iterator = tables.prefetched();
    assert_eq!(all_keys(&mut tables, &mut iterator), vec![34, 32, 30, 20, 12, 10]);
    assert_eq!(tables.fetches, 0);
}

#[test]
fn a_seek_ends_at_the_first_key_not_before() {
    for prefetched in [false, true] {
        for key in 0..=40u8 {
            let mut tables = forward();
            let mut iterator = if prefetched { tables.prefetched() } else { tables.unfetched() };
            tables.seek(&mut iterator, key).unwrap();
            let expected = [10u8, 12, 20, 30, 32, 34].into_iter().find(|k| *k >= key);
            assert_eq!(if iterator.is_valid() { Some(tables.key()) } else { None }, expected);

            let mut tables = backward();
            let mut iterator = if prefetched { tables.prefetched() } else { tables.unfetched() };
            tables.seek(&mut iterator, key).unwrap();
            let expected = [34u8, 32, 30, 20, 12, 10].into_iter().find(|k| *k <= key);
            assert_eq!(if iterator.is_valid() { Some(tables.key()) } else { None }, expected);
        }
    }
}

#[test]
fn a_seek_goes_to_the_table_of_the_key() {
    let mut tables = forward();
    let mut iterator = tables.unfetched();
    tables.seek(&mut iterator, 31).unwrap();
    assert_eq!(tables.key(), 32);
    assert_eq!(tables.fetches, 1);
    assert!(matches!(iterator.table(0), ConcatItem::Unfetched(_)));
    assert!(matches!(iterator.table(2), ConcatItem::Prefetched(_)));
    // Between two tables, the first has nothing and the second is next.
    tables.seek(&mut iterator, 15).unwrap();
    assert_eq!(tables.key(), 20);
    assert_eq!((tables.made, tables.collected), (3, 2));
    // A seek may go back, and an iterator goes on from where it is.
    tables.seek(&mut iterator, 0).unwrap();
    assert_eq!(tables.key(), 10);
    tables.next(&mut iterator).unwrap();
    tables.next(&mut iterator).unwrap();
    assert_eq!(tables.key(), 20);
}

#[test]
fn no_tables_have_no_entries() {
    let mut tables = Tables::new(DirectionEnum::Forward, &[]);
    let mut iterator = tables.unfetched();
    assert_eq!(tables.rewind(&mut iterator), Ok(()));
    assert!(!iterator.is_valid());
    assert_eq!(tables.seek(&mut iterator, 1), Ok(()));
    assert!(!iterator.is_valid());
    assert_eq!(iterator.table_count(), 0);
    assert!(iterator.has_keys());
}

#[test]
fn a_failure_leaves_the_iterator_where_it_was() {
    let mut tables = forward();
    let mut iterator = tables.unfetched();
    tables.seek(&mut iterator, 12).unwrap();
    tables.failing_fetch = Some(1);
    assert_eq!(tables.next(&mut iterator), Err("fetch"));
    // The iterator over the first table is past its end.
    assert!(!iterator.is_valid());
    assert!(iterator.has_table_iter());
    assert_eq!(tables.seek(&mut iterator, 11), Ok(()));
    assert_eq!(tables.key(), 12);
    tables.failing_fetch = None;
    tables.failing_open = Some(2);
    assert_eq!(tables.seek(&mut iterator, 33), Err("open"));
    assert!(iterator.is_valid());
    assert_eq!(tables.key(), 12);
    assert!(matches!(iterator.table(2), ConcatItem::Prefetched(_)));
    tables.failing_advance = true;
    assert_eq!(tables.next(&mut iterator), Err("advance"));
    assert_eq!(tables.key(), 12);
    tables.failing_advance = false;
    tables.failing_open = None;
    tables.next(&mut iterator).unwrap();
    assert_eq!(tables.key(), 20);
}

#[test]
fn tables_know_their_keys() {
    let tables = backward();
    let iterator = tables.unfetched();
    assert_eq!(iterator.direction(), DirectionEnum::Backward);
    assert_eq!(iterator.table_count(), 3);
    assert_eq!(iterator.table(0).smallest_key(), &[30]);
    assert_eq!(iterator.table(0).largest_key(), &[34]);
    let iterator = tables.prefetched();
    assert_eq!(iterator.table(2).smallest_key(), &[10]);
    assert_eq!(iterator.table(2).largest_key(), &[12]);
    assert!(iterator.has_keys());
    let unknown = vec![SstableInfo { id: 1, key_range: None }];
    assert!(!ConcatIteratorInner::new(unknown, DirectionEnum::Forward).has_keys());
}
