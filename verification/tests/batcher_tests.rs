use flooder::batcher::chunk;

#[test]
fn chunk_splits_with_remainder() {
    let items: Vec<u32> = vec![1, 2, 3, 4, 5];
    let chunks = chunk(items, 2);
    assert_eq!(chunks.len(), 3);
    assert_eq!(chunks[0], vec![1, 2]);
    assert_eq!(chunks[1], vec![3, 4]);
    assert_eq!(chunks[2], vec![5]);
}

#[test]
fn chunk_exact_multiple_has_no_remainder() {
    let items: Vec<u32> = vec![10, 20, 30, 40];
    let chunks = chunk(items, 2);
    assert_eq!(chunks.len(), 2);
    assert_eq!(chunks[0], vec![10, 20]);
    assert_eq!(chunks[1], vec![30, 40]);
}

#[test]
fn chunk_empty_input_yields_empty_output() {
    let items: Vec<u32> = vec![];
    assert_eq!(chunk(items, 7).len(), 0);
    let items2: Vec<String> = vec![];
    assert_eq!(chunk(items2, 1).len(), 0);
}

#[test]
fn chunk_limit_one_makes_singletons() {
    let items: Vec<u8> = vec![9, 8, 7];
    let chunks = chunk(items, 1);
    assert_eq!(chunks.len(), 3);
    assert_eq!(chunks[0], vec![9]);
    assert_eq!(chunks[1], vec![8]);
    assert_eq!(chunks[2], vec![7]);
}

#[test]
fn chunk_limit_above_length_keeps_one_batch() {
    let items: Vec<u32> = vec![1, 2, 3];
    let chunks = chunk(items, 10);
    assert_eq!(chunks.len(), 1);
    assert_eq!(chunks[0], vec![1, 2, 3]);
}

#[test]
fn chunk_1025_recipients_under_1024_ceiling_yields_1024_and_1() {
    let items: Vec<u64> = (0..1025).collect();
    let chunks = chunk(items, 1024);
    assert_eq!(chunks.len(), 2);
    assert_eq!(chunks[0].len(), 1024);
    assert_eq!(chunks[1].len(), 1);
    assert_eq!(chunks[1][0], 1024);
    let rebuilt: Vec<u64> = chunks.into_iter().flatten().collect();
    let expected: Vec<u64> = (0..1025).collect();
    assert_eq!(rebuilt, expected);
}

#[test]
fn chunk_concatenation_reproduces_input_in_order() {
    let items: Vec<u32> = (0..37).map(|i| i * 3).collect();
    let chunks = chunk(items, 5);
    assert_eq!(chunks.len(), 8);
    for (i, c) in chunks.iter().enumerate() {
        if i < 7 {
            assert_eq!(c.len(), 5);
        } else {
            assert_eq!(c.len(), 2);
        }
    }
    let rebuilt: Vec<u32> = chunks.into_iter().flatten().collect();
    let expected: Vec<u32> = (0..37).map(|i| i * 3).collect();
    assert_eq!(rebuilt, expected);
}
