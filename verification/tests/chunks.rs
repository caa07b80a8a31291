use glacier2obj::extract::chunks::{chunk_size, split_into_chunks};

fn items(n: usize) -> Vec<String> {
    (0..n).map(|i| format!("{:016X}", i)).collect()
}

#[test]
fn chunk_size_is_the_rounded_up_share() {
    assert_eq!(chunk_size(0, 10), 0);
    assert_eq!(chunk_size(1, 10), 1);
    assert_eq!(chunk_size(10, 10), 1);
    assert_eq!(chunk_size(11, 10), 2);
    assert_eq!(chunk_size(95, 10), 10);
    assert_eq!(chunk_size(100, 10), 10);
    assert_eq!(chunk_size(101, 10), 11);
    assert_eq!(chunk_size(1000, 10), 100);
    assert_eq!(chunk_size(7, 1), 7);
    assert_eq!(chunk_size(usize::MAX, 1), usize::MAX);
    assert_eq!(chunk_size(usize::MAX, 2), usize::MAX / 2 + 1);
}

#[test]
fn empty_input_gives_no_chunk() {
    assert!(split_into_chunks(Vec::<String>::new(), 10).is_empty());
}

#[test]
fn twenty_five_items_for_ten_workers() {
    let chunks = split_into_chunks(items(25), 10);
    let sizes: Vec<usize> = chunks.iter().map(|c| c.len()).collect();
    assert_eq!(sizes, vec![3, 3, 3, 3, 3, 3, 3, 3, 1]);
}

#[test]
fn fewer_items_than_workers() {
    let chunks = split_into_chunks(items(3), 10);
    let sizes: Vec<usize> = chunks.iter().map(|c| c.len()).collect();
    assert_eq!(sizes, vec![1, 1, 1]);
}

#[test]
fn chunks_hold_every_item_once_and_in_order() {
    for n in [0usize, 1, 2, 9, 10, 11, 19, 20, 21, 99, 100, 101, 1000] {
        for workers in [1usize, 2, 3, 7, 10, 64] {
            let all = items(n);
            let chunks = split_into_chunks(all.clone(), workers);
            let size = chunk_size(n, workers);
            assert!(chunks.len() <= workers);
            for (i, chunk) in chunks.iter().enumerate() {
                assert!(!chunk.is_empty());
                assert!(chunk.len() <= size);
                if i + 1 < chunks.len() {
                    assert_eq!(chunk.len(), size);
                }
            }
            let joined: Vec<String> = chunks.into_iter().flatten().collect();
            assert_eq!(joined, all);
        }
    }
}

#[test]
fn chunks_match_the_slices_of_the_standard_library() {
    let all = items(1003);
    let expected: Vec<Vec<String>> = all.chunks(1003usize.div_ceil(10)).map(|c| c.to_vec()).collect();
    assert_eq!(split_into_chunks(all, 10), expected);
}
