use lineariterator::slice_ref_iterator::{LendingIterator, SliceMutRefIterator, SliceRefIterator};

#[test]
fn test_slice_ref_iterator_basic() {
    let data = [1, 2, 3, 4, 5];
    let width = 3;

    let mut it = SliceRefIterator::new(&data, width);

    let mut results: Vec<Vec<i32>> = Vec::new();
    while let Some(s) = it.next() {
        results.push(s.to_vec());
    }

    assert_eq!(
        results,
        vec![
            vec![1, 2, 3],
            vec![2, 3, 4],
            vec![3, 4, 5],
        ]
    );
}

#[test]
fn test_slice_mut_ref_iterator_basic() {
    let mut data = [10, 20, 30, 40];
    let width = 2;

    let mut it = SliceMutRefIterator::new(&mut data, width);

    let mut results = Vec::new();
    while let Some(window) = LendingIterator::next(&mut it) {
        results.push(window.to_vec());
    }

    assert_eq!(
        results,
        vec![
            vec![10, 20],
            vec![20, 30],
            vec![30, 40],
        ]
    );
}

#[test]
fn slice_ref_iterator_test_test_single_window() {
    let data = [7, 8, 9];
    let width = 3;

    let mut it = SliceRefIterator::new(&data, width);

    assert_eq!(it.next().unwrap(), &[7, 8, 9]);
    assert!(it.next().is_none());
}

#[test]
fn test_slice_mut_ref_iterator_progressive_mutation() {
    let mut data = [5, 6, 7, 8];
    let width = 3;

    let mut it = SliceMutRefIterator::new(&mut data, width);

    while let Some(window) = LendingIterator::next(&mut it) {
        window[0] *= 2; // double the first element of each window
    }

    // Windows:
    // [5,6,7] -> double 5 -> [10,6,7]
    // [6,7,8] -> double 6 -> [10,12,7]
    //
    // Final data:
    // [10,12,7,8]

    assert_eq!(data, [10, 12, 7, 8]);
}

#[test]
fn test_slice_ref_iterator_custom_step() {
    let data = [1, 2, 3, 4, 5, 6];
    let mut iter = SliceRefIterator::new_step(&data, 2, 2);

    let mut results = Vec::new();
    while let Some(window) = iter.next() {
        results.push(window.to_vec());
    }

    assert_eq!(results, vec![vec![1, 2], vec![3, 4], vec![5, 6]]);
}

#[test]
fn test_slice_ref_iterator_zero_width_is_empty() {
    let data = [1, 2, 3];
    let mut iter = SliceRefIterator::new(&data, 0);

    assert_eq!(iter.len(), 0);
    assert!(iter.next().is_none());
}

#[test]
fn test_slice_mut_ref_iterator_overlapping_windows() {
    let mut data = [1, 2, 3, 4];
    let mut iter = SliceMutRefIterator::new(&mut data, 2);

    while let Some(window) = LendingIterator::next(&mut iter) {
        window[0] += 10;
    }

    assert_eq!(data, [11, 12, 13, 4]);
}

#[test]
fn test_slice_mut_ref_iterator_custom_step() {
    let mut data = [1, 2, 3, 4, 5, 6];
    let mut iter = SliceMutRefIterator::new_step(&mut data, 2, 2);

    while let Some(window) = LendingIterator::next(&mut iter) {
        window[0] *= 10;
    }

    assert_eq!(data, [10, 2, 30, 4, 50, 6]);
}

#[test]
fn test_slice_ref_iterator_zero_sized_type() {
    let data = [(); 4];
    let iter = SliceRefIterator::new(&data, 2);

    assert_eq!(iter.count(), 3);
}

#[test]
fn slice_ref_iterator_readme_windows() {
    let data = [10, 20, 30, 40, 50];
    let mut iter = SliceRefIterator::new(&data, 2);

    assert_eq!(iter.next().unwrap(), &[10, 20]);
    assert_eq!(iter.next().unwrap(), &[20, 30]);
    assert_eq!(iter.next().unwrap(), &[30, 40]);
    assert_eq!(iter.next().unwrap(), &[40, 50]);
    assert!(iter.next().is_none());
}

#[test]
fn slice_ref_iterator_windows_outlive_the_iterator() {
    let data = [1, 2, 3];
    let first;
    {
        let mut iter = SliceRefIterator::new(&data, 2);
        first = iter.next().unwrap();
    }
    assert_eq!(first, &[1, 2]);
}

#[test]
fn slice_ref_iterator_count_after_partial_use() {
    let data = [1, 2, 3, 4, 5];
    let mut iter = SliceRefIterator::new(&data, 2);

    assert_eq!(iter.size_hint(), (4, Some(4)));
    iter.next();
    assert_eq!(iter.len(), 3);
    assert_eq!(iter.count(), 3);
}

#[test]
fn slice_ref_iterator_zero_step_falls_back_to_one() {
    let data = [1, 2, 3];
    let mut iter = SliceRefIterator::new_step(&data, 2, 0);

    assert_eq!(iter.next().unwrap(), &[1, 2]);
    assert_eq!(iter.next().unwrap(), &[2, 3]);
    assert!(iter.next().is_none());
    assert!(iter.next().is_none());
}

#[test]
fn slice_ref_iterator_width_exceeds_len() {
    let data = [1, 2];
    let iter = SliceRefIterator::new(&data, 5);

    assert_eq!(iter.count(), 0);
}

#[test]
fn slice_mut_ref_iterator_readme_first_window() {
    let mut data = [10, 20, 30, 40];
    let mut iter = SliceMutRefIterator::new(&mut data, 2);

    let w1 = iter.next().unwrap();
    w1[0] = 99;

    assert_eq!(data, [99, 20, 30, 40]);
}

#[test]
fn slice_mut_ref_iterator_readme_example() {
    let mut data = [1, 2, 3, 4];
    let mut windows = SliceMutRefIterator::new(&mut data, 2);

    while let Some(window) = windows.next() {
        window[0] += 10;
    }

    assert_eq!(data, [11, 12, 13, 4]);
}

#[test]
fn slice_mut_ref_iterator_empty_when_width_zero() {
    let mut data = [1, 2, 3];
    let mut iter = SliceMutRefIterator::new_step(&mut data, 0, 1);

    assert!(iter.next().is_none());
    assert!(iter.next().is_none());
    assert_eq!(data, [1, 2, 3]);
}

#[test]
fn slice_mut_ref_iterator_window_width_is_kept() {
    let mut data = [1, 2, 3, 4, 5];
    let mut iter = SliceMutRefIterator::new_step(&mut data, 3, 2);

    let mut widths = Vec::new();
    while let Some(window) = iter.next() {
        widths.push(window.len());
        window.reverse();
    }

    assert_eq!(widths, vec![3, 3]);
    // [1,2,3] reversed -> [3,2,1,4,5]; then [1,4,5] reversed -> [3,2,5,4,1].
    assert_eq!(data, [3, 2, 5, 4, 1]);
}
