use courier::commit_log::{CommitLog, Cursor, Index};
use rand::{thread_rng, Rng};

#[test]
fn commit_log_basic() {
    let mut log = CommitLog::new();
    assert!(log.empty());
    log.cleanup(&|_: &u32| true);

    let mut cursor0 = Cursor::new_tail(&log);

    log.append(1);
    log.append(2);
    log.append(3);
    log.append(4);
    println!("{:?}", log);
    assert!(!log.empty());
    assert_eq!(log.len(), 4);

    println!("{:?}", cursor0);
    assert_eq!(Some(1), cursor0.peek(&log));
    assert_eq!(Some(1), cursor0.next(&log));
    assert_eq!(Some(2), cursor0.peek(&log));
    assert_eq!(Some(2), cursor0.next(&log));
    assert_eq!(Some(3), cursor0.peek(&log));
    assert_eq!(Some(3), cursor0.next(&log));
    let index0 = Index::new(&cursor0);
    println!("{:?}", index0);
    assert_eq!(Some(3), index0.get(&log));
    assert_eq!(Some(3), index0.get(&log));
    assert_eq!(Some(4), cursor0.next(&log));
    assert_eq!(None, cursor0.next(&log));
    assert_eq!(None, cursor0.peek(&log));
    assert_eq!(None, cursor0.next(&log));

    let mut cursor1 = Cursor::new_head(&log);
    assert_eq!(Some(1), cursor1.next(&log));

    log.append(5);
    assert_eq!(Some(5), cursor0.next(&log));

    log.cleanup(&|t: &u32| t <= &5);
    assert_eq!(None, index0.get(&log));
    assert_eq!(None, cursor1.peek(&log));
    assert_eq!(None, cursor1.next(&log));
    log.append(6);
    assert_eq!(Some(6), cursor0.next(&log));
    assert_eq!(Some(6), cursor1.next(&log));
    assert_eq!(log.len(), 1);

    log.append(7);
    let mut cursor2 = Cursor::new_tail(&log);
    assert_eq!(None, cursor2.next(&log));
    log.append(8);
    assert_eq!(Some(8), cursor2.next(&log));
    assert_eq!(None, cursor2.next(&log));

    log.cleanup(&|t: &u32| t < &8);
    assert_eq!(Some(8), cursor0.next(&log));
    assert_eq!(Some(8), cursor1.next(&log));
}

#[test]
fn commit_log_random() {
    for _ in 0..100 {
        let mut rng = thread_rng();
        let mut log = CommitLog::new();
        let mut cursor = Cursor::new_head(&log);
        let mut r1;
        let mut r2 = 0;
        let mut expected = Vec::new();
        for _ in 0..100 {
            r1 = rng.gen_range(r2..r2 + 100);
            r2 = rng.gen_range(r1 + 50..r1 + 150);
            for i in r1..r2 {
                log.append(i);
                expected.push(i);
            }
            let num_nexts = rng.gen_range(0..r2 - r1);
            for i in 0..num_nexts {
                assert_eq!(Some(expected[i]), cursor.next(&log));
            }
            expected = expected.split_off(num_nexts);
            let cleanup_threshold = rng.gen_range(r1..r2);
            log.cleanup(&|t: &usize| t <= &cleanup_threshold);
            expected.retain(|&t| t > cleanup_threshold);
        }
    }
}

#[test]
fn commit_log_basic_head_cursor() {
    let mut log = CommitLog::new();
    assert!(log.empty());

    log.append(1);
    log.append(2);
    log.append(3);
    log.append(4);
    assert!(!log.empty());
    assert_eq!(log.len(), 4);

    let mut cursor0 = log.new_head_cursor();
    assert_eq!(Some(1), cursor0.get_copy(&log));
    assert_eq!(Some(2), cursor0.get_copy(&log));
    assert_eq!(Some(3), cursor0.get_copy(&log));
    let index0 = cursor0.new_index();
    assert_eq!(Some(3), index0.get_copy(&log));
    assert_eq!(Some(3), index0.get_copy(&log));
    assert_eq!(Some(4), cursor0.get_copy(&log));
    assert_eq!(None, cursor0.get_copy(&log));
    assert_eq!(None, cursor0.get_copy(&log));

    let mut cursor1 = log.new_head_cursor();
    assert_eq!(Some(1), cursor1.get_copy(&log));

    log.append(5);
    assert_eq!(Some(5), cursor0.get_copy(&log));

    log.cleanup(&|t: &u32| t <= &5);
    assert_eq!(None, index0.get_copy(&log));
    assert_eq!(None, cursor1.get_copy(&log));
    log.append(6);
    assert_eq!(Some(6), cursor0.get_copy(&log));
    assert_eq!(Some(6), cursor1.get_copy(&log));
    assert_eq!(log.len(), 1);

    log.append(7);
    let mut cursor2 = log.new_tail_cursor();
    assert_eq!(None, cursor2.get_copy(&log));
    log.append(8);
    assert_eq!(Some(8), cursor2.get_copy(&log));
    assert_eq!(None, cursor2.get_copy(&log));

    log.cleanup(&|t: &u32| t < &8);
    assert_eq!(Some(8), cursor0.get_copy(&log));
    assert_eq!(Some(8), cursor1.get_copy(&log));
}

#[test]
fn commit_log_empty_yields_nothing() {
    let log: CommitLog<u32> = CommitLog::new();
    let mut head = Cursor::new_head(&log);
    let mut tail = Cursor::new_tail(&log);
    assert_eq!(None, head.peek(&log));
    assert_eq!(None, tail.peek(&log));
    assert_eq!(None, head.next(&log));
    assert_eq!(None, tail.next(&log));
    assert_eq!(0, head.next_index());
    assert_eq!(0, tail.next_index());
    assert_eq!(0, log.len());
    assert_eq!(0, log.dropped_count());
}

#[test]
fn commit_log_cleanup_drops_a_prefix() {
    let mut log = CommitLog::new();
    for value in [1u32, 2, 9, 3, 4] {
        log.append(value);
    }
    // 9 stops the cleanup, though 3 and 4 behind it are small as well.
    assert_eq!(2, log.cleanup(|t: &u32| *t < 5));
    assert_eq!(3, log.len());
    assert_eq!(2, log.dropped_count());
    let mut cursor = Cursor::new_head(&log);
    assert_eq!(2, cursor.next_index());
    assert_eq!(Some(9), cursor.next(&log));
    assert_eq!(Some(3), cursor.next(&log));
    assert_eq!(Some(4), cursor.next(&log));
    assert_eq!(None, cursor.next(&log));
    assert_eq!(5, cursor.next_index());
    // Nothing is dropped when the oldest element stays.
    assert_eq!(0, log.cleanup(|t: &u32| *t < 5));
    assert_eq!(3, log.len());
    assert_eq!(2, log.dropped_count());
    // Everything can go.
    assert_eq!(3, log.cleanup(|_: &u32| true));
    assert!(log.empty());
    assert_eq!(5, log.dropped_count());
    assert!(log.has_room());
}

#[test]
fn commit_log_head_cursor_delivers_everything_in_order() {
    let mut log = CommitLog::new();
    for value in 0..50u32 {
        log.append(value);
    }
    log.cleanup(|t: &u32| *t < 10);
    let mut cursor = Cursor::new_head(&log);
    for value in 10..50u32 {
        assert_eq!(Some(value), cursor.peek(&log));
        assert_eq!(Some(value), cursor.next(&log));
    }
    assert_eq!(None, cursor.next(&log));
}

#[test]
fn commit_log_cursor_heals_after_truncation() {
    let mut log = CommitLog::new();
    log.append(String::from("a"));
    log.append(String::from("b"));
    log.append(String::from("c"));
    let mut cursor = Cursor::new_head(&log);
    assert_eq!(Some(String::from("a")), cursor.next(&log));
    assert_eq!(1, cursor.next_index());
    let index = Index::new(&cursor);
    assert_eq!(Some(0), index.at);
    // The element the cursor stands on goes, and the one behind it.
    assert_eq!(2, log.cleanup(|s: &String| s.as_str() < "c"));
    assert_eq!(None, index.get(&log));
    // Peeking does not heal; stepping does.
    assert_eq!(None, cursor.peek(&log));
    log.append(String::from("d"));
    assert_eq!(Some(String::from("c")), cursor.next(&log));
    assert_eq!(3, cursor.next_index());
    assert_eq!(Some(String::from("d")), cursor.next(&log));
    assert_eq!(4, cursor.next_index());
    assert_eq!(None, cursor.next(&log));
    assert_eq!(4, cursor.next_index());
}

#[test]
fn commit_log_next_index_never_decreases() {
    let mut log = CommitLog::new();
    let mut cursor = Cursor::new_tail(&log);
    let mut last = cursor.next_index();
    for round in 0..20u32 {
        for value in 0..5u32 {
            log.append(round * 5 + value);
        }
        if round % 3 == 0 {
            cursor.next(&log);
        }
        assert!(cursor.next_index() >= last);
        last = cursor.next_index();
        log.cleanup(|t: &u32| *t < round * 5 + 2);
        cursor.next(&log);
        assert!(cursor.next_index() >= last);
        last = cursor.next_index();
    }
}

#[test]
fn commit_log_index_of_head_names_nothing() {
    let mut log = CommitLog::new();
    let cursor = Cursor::new_head(&log);
    let index = Index::new(&cursor);
    assert_eq!(None, index.at);
    log.append(7u32);
    assert_eq!(None, index.get(&log));
    let tail = Cursor::new_tail(&log);
    assert_eq!(Some(7), Index::new(&tail).get(&log));
    assert_eq!(None, Index { at: Some(1) }.get(&log));
}
