use lineariterator::niterator::{NIterator, NMutIterator};
use std::cell::Cell;
use std::rc::Rc;

/// Visits every element of an array through a sequential mutable iterator and
/// collects the values it lends out.
#[test]
fn niterator_test_test_nmutiterator_basic_iteration() {
    let mut data = [10, 20, 30, 40];
    let len = data.len();

    let mut iter = NMutIterator::new(&mut data, len);

    let mut collected = Vec::new();
    while let Some(p) = iter.next() {
        collected.push(*p);
    }

    assert_eq!(collected, vec![10, 20, 30, 40]);
}

#[test]
fn test_nmutiterator_step() {
    let mut data = [10, 20, 30, 40, 50];
    let mut iter = NMutIterator::new_step(&mut data, 3, 2);

    let mut values = Vec::new();
    while let Some(p) = iter.next() {
        values.push(*p);
    }
    assert_eq!(values, vec![10, 30, 50]);
    assert_eq!(iter.len(), 0);
}

#[test]
fn test_nmutiterator_zero_step_falls_back_to_one() {
    let mut data = [1, 2, 3];
    let len = data.len();
    let mut iter = NMutIterator::new_step(&mut data, len, 0);

    let mut values = Vec::new();
    while let Some(p) = iter.next() {
        values.push(*p);
    }
    assert_eq!(values, vec![1, 2, 3]);
}

#[test]
fn test_nmutiterator_clone_from_slice_contiguous() {
    let mut data = [0, 0, 0, 0];
    let len = data.len();
    let mut iter = NMutIterator::new(&mut data, len);

    iter.clone_from_slice(&[1, 2, 3]);
    let remaining = iter.len();

    assert_eq!(data, [1, 2, 3, 0]);
    assert_eq!(remaining, 1);
}

#[test]
fn test_nmutiterator_clone_from_slice_strided() {
    let mut data = [0, 0, 0, 0, 0];
    let mut iter = NMutIterator::new_step(&mut data, 3, 2);

    iter.clone_from_slice(&[1, 2, 3, 4]);
    let remaining = iter.len();

    assert_eq!(data, [1, 0, 2, 0, 3]);
    assert_eq!(remaining, 0);
}

#[test]
fn test_nmutiterator_zero_sized_type() {
    let mut data = [(); 4];
    let len = data.len();
    let mut iter = NMutIterator::new(&mut data, len);

    assert_eq!(iter.len(), 4);
    let mut counted = 0;
    while iter.next().is_some() {
        counted += 1;
    }
    assert_eq!(counted, 4);
    assert_eq!(iter.len(), 0);
}

#[derive(Debug)]
struct CloneTracked {
    value: String,
    drops: Rc<Cell<usize>>,
}

impl Clone for CloneTracked {
    fn clone(&self) -> Self {
        Self {
            value: self.value.clone(),
            drops: Rc::clone(&self.drops),
        }
    }

    fn clone_from(&mut self, source: &Self) {
        self.value.clone_from(&source.value);
        self.drops = Rc::clone(&source.drops);
    }
}

impl Drop for CloneTracked {
    fn drop(&mut self) {
        self.drops.set(self.drops.get() + 1);
    }
}

#[test]
fn test_nmutiterator_clone_from_slice_non_copy_type() {
    let drops = Rc::new(Cell::new(0));
    let make = |value: &str| CloneTracked {
        value: value.to_owned(),
        drops: Rc::clone(&drops),
    };

    {
        let source = [make("one"), make("two")];
        let mut target = [make("old-a"), make("old-b")];
        let len = target.len();
        let mut iter = NMutIterator::new(&mut target, len);

        iter.clone_from_slice(&source);

        assert_eq!(target[0].value, "one");
        assert_eq!(target[1].value, "two");
    }

    assert_eq!(drops.get(), 4);
}

#[test]
fn test_nmutiterator_copy_from_slice_contiguous() {
    let mut data = [0, 0, 0, 0];
    let len = data.len();
    let mut iter = NMutIterator::new(&mut data, len);

    iter.copy_from_slice(&[1, 2, 3]);
    let remaining = iter.len();

    assert_eq!(data, [1, 2, 3, 0]);
    assert_eq!(remaining, 1);
}

#[test]
fn test_nmutiterator_copy_from_slice_strided() {
    let mut data = [0, 0, 0, 0, 0];
    let mut iter = NMutIterator::new_step(&mut data, 3, 2);

    iter.copy_from_slice(&[1, 2, 3]);
    let remaining = iter.len();

    assert_eq!(data, [1, 0, 2, 0, 3]);
    assert_eq!(remaining, 0);
}

#[test]
fn niterator_yields_every_second_element() {
    let data = [10, 20, 30, 40, 50];
    let mut iter = NIterator::new_step(&data, 3, 2);

    assert_eq!(*iter.next().unwrap(), 10);
    assert_eq!(*iter.next().unwrap(), 30);
    assert_eq!(*iter.next().unwrap(), 50);
    assert!(iter.next().is_none());
}

#[test]
fn niterator_yields_references_into_the_slice() {
    let data = [1, 2, 3, 4, 5, 6];
    let mut iter = NIterator::new_step(&data, 2, 3);

    assert!(std::ptr::eq(iter.next().unwrap(), &data[0]));
    assert!(std::ptr::eq(iter.next().unwrap(), &data[3]));
    assert!(iter.next().is_none());
}

#[test]
fn niterator_size_hint_is_exact_and_counts_down() {
    let data = [1, 2, 3, 4];
    let mut iter = NIterator::new(&data, 3);

    assert_eq!(iter.size_hint(), (3, Some(3)));
    iter.next();
    assert_eq!(iter.size_hint(), (2, Some(2)));
    assert_eq!(iter.len(), 2);
    iter.next();
    iter.next();
    assert_eq!(iter.size_hint(), (0, Some(0)));
}

#[test]
fn niterator_stays_exhausted() {
    let data = [7];
    let mut iter = NIterator::new(&data, 1);

    assert_eq!(*iter.next().unwrap(), 7);
    assert!(iter.next().is_none());
    assert!(iter.next().is_none());
    assert_eq!(iter.len(), 0);
}

#[test]
fn niterator_zero_length_is_empty() {
    let data: [u8; 0] = [];
    let mut iter = NIterator::new_step(&data, 0, 5);

    assert_eq!(iter.len(), 0);
    assert!(iter.next().is_none());
}

#[test]
fn niterator_zero_step_falls_back_to_one() {
    let data = [4, 5, 6];
    let mut iter = NIterator::new_step(&data, 3, 0);

    assert_eq!(*iter.next().unwrap(), 4);
    assert_eq!(*iter.next().unwrap(), 5);
    assert_eq!(*iter.next().unwrap(), 6);
    assert!(iter.next().is_none());
}

#[test]
fn niterator_single_element_with_huge_step() {
    let data = [9, 8];
    let mut iter = NIterator::new_step(&data, 1, usize::MAX);

    assert_eq!(*iter.next().unwrap(), 9);
    assert!(iter.next().is_none());
}

#[test]
fn nmutiterator_writes_through_lent_elements() {
    let mut data = [1, 2, 3, 4, 5, 6];
    let mut iter = NMutIterator::new_step(&mut data, 3, 2);

    while let Some(p) = iter.next() {
        *p *= 100;
    }

    assert_eq!(data, [100, 2, 300, 4, 500, 6]);
}

#[test]
fn nmutiterator_copy_stops_at_short_source() {
    let mut data = [0, 0, 0, 0, 0, 0];
    let mut iter = NMutIterator::new_step(&mut data, 3, 2);

    iter.copy_from_slice(&[7]);
    assert_eq!(iter.len(), 2);
    assert_eq!(*iter.next().unwrap(), 0);
    iter.copy_from_slice(&[8, 9, 10]);
    assert_eq!(iter.len(), 0);

    assert_eq!(data, [7, 0, 0, 0, 8, 0]);
}

#[test]
fn nmutiterator_copy_from_empty_slice_changes_nothing() {
    let mut data = [1, 2, 3];
    let mut iter = NMutIterator::new(&mut data, 3);

    iter.copy_from_slice(&[]);
    assert_eq!(iter.len(), 3);
    assert_eq!(*iter.next().unwrap(), 1);

    assert_eq!(data, [1, 2, 3]);
}

#[test]
fn nmutiterator_clone_then_continue() {
    let mut data = [
        String::from("a"),
        String::from("b"),
        String::from("c"),
        String::from("d"),
    ];
    let mut iter = NMutIterator::new_step(&mut data, 2, 3);

    iter.clone_from_slice(&[String::from("x")]);
    let rest = iter.next().unwrap();
    assert_eq!(rest, "d");
    rest.push('!');

    assert_eq!(data, ["x", "b", "c", "d!"]);
}

#[test]
fn niterator_copy_keeps_its_own_position() {
    let data = [1, 2, 3];
    let mut iter = NIterator::new(&data, 3);

    let saved = iter;
    assert_eq!(*iter.next().unwrap(), 1);
    assert_eq!(*iter.next().unwrap(), 2);

    let mut again = saved;
    assert_eq!(*again.next().unwrap(), 1);
    assert_eq!(again.len(), 2);
}
