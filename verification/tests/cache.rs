use image_sifter::cache::{Margins, WindowCache, BACKWARD_MARGIN, FORWARD_MARGIN, LOOK_AHEAD};
use image_sifter::path::FilePath;
use std::cell::RefCell;

fn item(index: usize) -> FilePath {
    FilePath { components: vec![b"root".to_vec(), format!("{index}.jpg").into_bytes()] }
}

fn items(count: usize) -> Vec<FilePath> {
    (0..count).map(item).collect()
}

fn index_of(path: &FilePath) -> usize {
    let text = String::from_utf8(path.components[1].clone()).unwrap();
    text.trim_end_matches(".jpg").parse().unwrap()
}

fn content(index: usize) -> Vec<u8> {
    vec![index as u8, 0xaa, (index / 256) as u8]
}

#[test]
fn margins_have_their_values() {
    assert_eq!(BACKWARD_MARGIN, 5);
    assert_eq!(FORWARD_MARGIN, 15);
    assert_eq!(LOOK_AHEAD, 10);
    assert_eq!(Margins::standard(), Margins { backward: 5, forward: 15, look_ahead: 10 });
    assert_eq!(WindowCache::new().margins(), Margins::standard());
}

#[test]
fn a_look_ahead_past_the_window_is_cut_to_the_window() {
    let wide = Margins { backward: 2, forward: 4, look_ahead: 9 };
    assert_eq!(wide.within_window(), Margins { backward: 2, forward: 4, look_ahead: 4 });
    let narrow = Margins { backward: 2, forward: 4, look_ahead: 3 };
    assert_eq!(narrow.within_window(), narrow);
    let even = Margins { backward: 0, forward: 4, look_ahead: 4 };
    assert_eq!(even.within_window(), even);
}

#[test]
fn evict_with_margins_of_ones_own() {
    let margins = Margins { backward: 1, forward: 3, look_ahead: 2 };
    let mut cache = WindowCache::with_margins(margins);
    assert_eq!(cache.margins(), margins);
    for position in 0..20 {
        cache.store(position, vec![position as u8]);
    }
    cache.evict(10);
    for position in 0..20 {
        assert_eq!(cache.contains(position), (9..13).contains(&position));
    }
    assert_eq!(cache.len(), 4);
    assert_eq!(cache.margins(), margins);
}

#[test]
fn evict_without_margins_removes_everything() {
    let mut cache = WindowCache::with_margins(Margins { backward: 0, forward: 0, look_ahead: 0 });
    cache.store(10, vec![1]);
    cache.store(11, vec![2]);
    cache.evict(10);
    assert_eq!(cache.len(), 0);
}

#[test]
fn evict_with_a_backward_margin_only() {
    let mut cache = WindowCache::with_margins(Margins { backward: 3, forward: 0, look_ahead: 0 });
    for position in 0..10 {
        cache.store(position, vec![]);
    }
    cache.evict(5);
    for position in 0..10 {
        assert_eq!(cache.contains(position), (2..5).contains(&position));
    }
    cache.evict(1);
    assert_eq!(cache.len(), 0);
}

#[test]
fn loading_with_margins_of_ones_own() {
    let sequence = items(30);
    let mut cache = WindowCache::with_margins(Margins { backward: 1, forward: 6, look_ahead: 3 });
    assert_eq!(cache.missing(7, 30), vec![7, 8, 9]);
    let attempted = cache.ensure_loaded(&sequence, 7, |path| Some(content(index_of(path))));
    assert_eq!(attempted, vec![7, 8, 9]);
    assert_eq!(cache.len(), 3);
    assert_eq!(cache.missing(7, 30), Vec::<usize>::new());
    assert_eq!(cache.missing(28, 30), vec![28, 29]);
}

#[test]
fn loading_without_look_ahead_reads_nothing() {
    let sequence = items(30);
    let mut cache = WindowCache::with_margins(Margins { backward: 1, forward: 6, look_ahead: 0 });
    let attempted = cache.ensure_loaded(&sequence, 7, |_| Some(vec![1]));
    assert!(attempted.is_empty());
    assert_eq!(cache.len(), 0);
}

#[test]
fn a_look_ahead_without_end_stops_with_the_sequence() {
    let sequence = items(12);
    let margins = Margins { backward: 0, forward: usize::MAX, look_ahead: usize::MAX };
    let mut cache = WindowCache::with_margins(margins);
    let attempted = cache.ensure_loaded(&sequence, 9, |path| Some(content(index_of(path))));
    assert_eq!(attempted, vec![9, 10, 11]);
    assert_eq!(cache.missing(0, 3), vec![0, 1, 2]);
}

#[test]
fn new_cache_is_empty() {
    let cache = WindowCache::new();
    assert_eq!(cache.len(), 0);
    assert_eq!(cache.get(0), None);
    assert!(!cache.contains(0));
}

#[test]
fn store_then_get() {
    let mut cache = WindowCache::new();
    cache.store(3, vec![1, 2, 3]);
    assert_eq!(cache.get(3), Some(&vec![1, 2, 3]));
    assert!(cache.contains(3));
    assert_eq!(cache.get(4), None);
    assert_eq!(cache.len(), 1);
}

#[test]
fn store_replaces_the_entry_of_the_position() {
    let mut cache = WindowCache::new();
    cache.store(3, vec![1]);
    cache.store(3, vec![2, 2]);
    assert_eq!(cache.get(3), Some(&vec![2, 2]));
    assert_eq!(cache.len(), 1);
}

#[test]
fn get_changes_nothing() {
    let mut cache = WindowCache::new();
    cache.store(1, vec![7]);
    for _ in 0..3 {
        assert_eq!(cache.get(1), Some(&vec![7]));
        assert_eq!(cache.get(2), None);
    }
    assert_eq!(cache.len(), 1);
}

#[test]
fn purge_removes_one_entry() {
    let mut cache = WindowCache::new();
    cache.store(1, vec![1]);
    cache.store(2, vec![2]);
    cache.purge(1);
    assert_eq!(cache.get(1), None);
    assert_eq!(cache.get(2), Some(&vec![2]));
    cache.purge(1);
    cache.purge(9);
    assert_eq!(cache.len(), 1);
}

#[test]
fn clear_removes_every_entry() {
    let mut cache = WindowCache::new();
    cache.store(1, vec![1]);
    cache.store(200, vec![2]);
    cache.clear();
    assert_eq!(cache.len(), 0);
    assert_eq!(cache.get(1), None);
}

#[test]
fn evict_keeps_exactly_the_window() {
    let mut cache = WindowCache::new();
    for position in 0..60 {
        cache.store(position, content(position));
    }
    cache.evict(30);
    for position in 0..60 {
        let inside = position >= 25 && position < 45;
        assert_eq!(cache.contains(position), inside, "position {position}");
        if inside {
            assert_eq!(cache.get(position), Some(&content(position)));
        }
    }
    assert_eq!(cache.len(), 20);
}

#[test]
fn evict_at_the_edges_of_the_window() {
    let mut cache = WindowCache::new();
    for position in [94, 95, 114, 115] {
        cache.store(position, vec![position as u8]);
    }
    cache.evict(100);
    assert!(!cache.contains(94));
    assert!(cache.contains(95));
    assert!(cache.contains(114));
    assert!(!cache.contains(115));
}

#[test]
fn evict_near_the_start_of_the_sequence() {
    let mut cache = WindowCache::new();
    for position in 0..30 {
        cache.store(position, vec![position as u8]);
    }
    cache.evict(2);
    for position in 0..30 {
        assert_eq!(cache.contains(position), position < 17);
    }
    cache.evict(0);
    assert_eq!(cache.len(), 15);
}

#[test]
fn evict_near_the_largest_position() {
    let mut cache = WindowCache::new();
    cache.store(usize::MAX, vec![1]);
    cache.store(usize::MAX - 5, vec![2]);
    cache.store(usize::MAX - 6, vec![3]);
    cache.store(0, vec![4]);
    cache.evict(usize::MAX);
    assert!(cache.contains(usize::MAX));
    assert!(cache.contains(usize::MAX - 5));
    assert!(!cache.contains(usize::MAX - 6));
    assert!(!cache.contains(0));
}

#[test]
fn evict_removes_far_entries() {
    let mut cache = WindowCache::new();
    cache.store(1_000_000, vec![1]);
    cache.store(7, vec![2]);
    cache.evict(10);
    assert!(!cache.contains(1_000_000));
    assert_eq!(cache.get(7), Some(&vec![2]));
    assert_eq!(cache.len(), 1);
}

#[test]
fn evict_twice_is_evict_once() {
    let mut cache = WindowCache::new();
    for position in 0..40 {
        cache.store(position, vec![position as u8]);
    }
    cache.evict(12);
    let once: Vec<bool> = (0..40).map(|p| cache.contains(p)).collect();
    cache.evict(12);
    let twice: Vec<bool> = (0..40).map(|p| cache.contains(p)).collect();
    assert_eq!(once, twice);
}

#[test]
fn missing_lists_the_look_ahead_without_entries() {
    let mut cache = WindowCache::new();
    assert_eq!(cache.missing(4, 100), vec![4, 5, 6, 7, 8, 9, 10, 11, 12, 13]);
    cache.store(5, vec![]);
    cache.store(13, vec![]);
    cache.store(14, vec![]);
    cache.store(3, vec![]);
    assert_eq!(cache.missing(4, 100), vec![4, 6, 7, 8, 9, 10, 11, 12]);
}

#[test]
fn missing_ends_with_the_sequence() {
    let cache = WindowCache::new();
    assert_eq!(cache.missing(7, 10), vec![7, 8, 9]);
    assert_eq!(cache.missing(10, 10), Vec::<usize>::new());
    assert_eq!(cache.missing(11, 10), Vec::<usize>::new());
    assert_eq!(cache.missing(0, 0), Vec::<usize>::new());
    assert_eq!(cache.missing(usize::MAX - 1, usize::MAX), vec![usize::MAX - 1]);
}

#[test]
fn ensure_loaded_fills_the_look_ahead() {
    let sequence = items(30);
    let mut cache = WindowCache::new();
    let attempted = cache.ensure_loaded(&sequence, 4, |path| Some(content(index_of(path))));
    assert_eq!(attempted, (4..14).collect::<Vec<usize>>());
    assert_eq!(cache.len(), 10);
    for position in 4..14 {
        assert_eq!(cache.get(position), Some(&content(position)));
    }
    assert_eq!(cache.get(3), None);
    assert_eq!(cache.get(14), None);
}

#[test]
fn ensure_loaded_stops_at_the_end_of_the_sequence() {
    let sequence = items(6);
    let mut cache = WindowCache::new();
    let attempted = cache.ensure_loaded(&sequence, 4, |path| Some(content(index_of(path))));
    assert_eq!(attempted, vec![4, 5]);
    assert_eq!(cache.len(), 2);
    let nothing = cache.ensure_loaded(&sequence, 6, |_| Some(vec![]));
    assert!(nothing.is_empty());
    assert_eq!(cache.len(), 2);
}

#[test]
fn ensure_loaded_reads_each_file_once() {
    let sequence = items(30);
    let reads: RefCell<Vec<usize>> = RefCell::new(Vec::new());
    let mut cache = WindowCache::new();
    cache.store(6, vec![66]);
    cache.ensure_loaded(&sequence, 4, |path| {
        reads.borrow_mut().push(index_of(path));
        Some(content(index_of(path)))
    });
    assert_eq!(*reads.borrow(), vec![4, 5, 7, 8, 9, 10, 11, 12, 13]);
    assert_eq!(cache.get(6), Some(&vec![66]));
}

#[test]
fn ensure_loaded_twice_changes_nothing() {
    let sequence = items(30);
    let reads: RefCell<usize> = RefCell::new(0);
    let mut cache = WindowCache::new();
    cache.store(2, vec![22]);
    let read = |path: &FilePath| {
        *reads.borrow_mut() += 1;
        Some(content(index_of(path)))
    };
    cache.ensure_loaded(&sequence, 4, &read);
    let after_first: Vec<Option<Vec<u8>>> = (0..30).map(|p| cache.get(p).cloned()).collect();
    assert_eq!(*reads.borrow(), 10);
    let attempted = cache.ensure_loaded(&sequence, 4, &read);
    let after_second: Vec<Option<Vec<u8>>> = (0..30).map(|p| cache.get(p).cloned()).collect();
    assert!(attempted.is_empty());
    assert_eq!(*reads.borrow(), 10);
    assert_eq!(after_first, after_second);
    assert_eq!(cache.get(2), Some(&vec![22]));
}

#[test]
fn a_failed_read_leaves_the_position_without_entry() {
    let sequence = items(30);
    let mut cache = WindowCache::new();
    let attempted = cache.ensure_loaded(&sequence, 0, |path| {
        let index = index_of(path);
        if index % 3 == 1 {
            None
        } else {
            Some(content(index))
        }
    });
    assert_eq!(attempted, (0..10).collect::<Vec<usize>>());
    for position in 0..10 {
        assert_eq!(cache.contains(position), position % 3 != 1);
    }
}

#[test]
fn a_failed_read_is_tried_again_by_the_next_pass() {
    let sequence = items(30);
    let mut cache = WindowCache::new();
    cache.ensure_loaded(&sequence, 0, |path| {
        if index_of(path) == 4 {
            None
        } else {
            Some(content(index_of(path)))
        }
    });
    assert_eq!(cache.get(4), None);
    let attempted = cache.ensure_loaded(&sequence, 0, |path| Some(content(index_of(path))));
    assert_eq!(attempted, vec![4]);
    assert_eq!(cache.get(4), Some(&content(4)));
    assert_eq!(cache.len(), 10);
}

#[test]
fn what_was_loaded_survives_the_eviction_at_the_same_cursor() {
    let sequence = items(40);
    let mut cache = WindowCache::new();
    cache.ensure_loaded(&sequence, 12, |path| Some(content(index_of(path))));
    cache.evict(12);
    for position in 12..22 {
        assert_eq!(cache.get(position), Some(&content(position)));
    }
    assert_eq!(cache.len(), 10);
}

#[test]
fn evict_with_margins_without_end_keeps_everything() {
    let margins = Margins { backward: usize::MAX, forward: usize::MAX, look_ahead: 0 };
    let mut cache = WindowCache::with_margins(margins);
    for position in [0, 1, 1000, usize::MAX - 1] {
        cache.store(position, vec![7]);
    }
    cache.evict(500);
    assert_eq!(cache.len(), 4);
    cache.evict(usize::MAX);
    assert_eq!(cache.len(), 4);
    cache.evict(0);
    assert_eq!(cache.len(), 4);
}

#[test]
fn evict_of_many_entries() {
    let mut cache = WindowCache::new();
    for position in 0..5000 {
        cache.store(position * 3, vec![]);
    }
    cache.evict(3000);
    let kept: Vec<usize> = (0..15000).filter(|p| cache.contains(*p)).collect();
    assert_eq!(kept, vec![2997, 3000, 3003, 3006, 3009, 3012]);
}
