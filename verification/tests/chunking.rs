use delete_ecs_clusters_rs::chunking::chunk_identifiers;

fn identifiers(count: usize) -> Vec<String> {
    (0..count).map(|i| format!("arn:task-definition/{}", i)).collect()
}

fn sizes(chunks: &[Vec<String>]) -> Vec<usize> {
    chunks.iter().map(|chunk| chunk.len()).collect()
}

#[test]
fn twenty_three_identifiers_make_three_chunks() {
    let ids = identifiers(23);
    let chunks = chunk_identifiers(&ids, 10);
    assert_eq!(sizes(&chunks), vec![10, 10, 3]);
    assert_eq!(chunks[0], ids[0..10].to_vec());
    assert_eq!(chunks[1], ids[10..20].to_vec());
    assert_eq!(chunks[2], ids[20..23].to_vec());
}

#[test]
fn no_identifiers_make_no_chunks() {
    let chunks = chunk_identifiers(&Vec::new(), 10);
    assert!(chunks.is_empty());
    let chunks = chunk_identifiers(&Vec::new(), 1);
    assert!(chunks.is_empty());
}

#[test]
fn chunk_size_one_gives_one_identifier_each() {
    let ids = identifiers(4);
    let chunks = chunk_identifiers(&ids, 1);
    assert_eq!(sizes(&chunks), vec![1, 1, 1, 1]);
    assert_eq!(chunks.concat(), ids);
}

#[test]
fn full_chunks_leave_no_short_one() {
    let ids = identifiers(20);
    let chunks = chunk_identifiers(&ids, 10);
    assert_eq!(sizes(&chunks), vec![10, 10]);
}

#[test]
fn fewer_identifiers_than_the_size_make_one_chunk() {
    let ids = identifiers(3);
    let chunks = chunk_identifiers(&ids, 10);
    assert_eq!(chunks, vec![ids]);
}

#[test]
fn a_size_beyond_any_list_makes_one_chunk() {
    let ids = identifiers(5);
    let chunks = chunk_identifiers(&ids, usize::MAX);
    assert_eq!(chunks, vec![ids]);
}

#[test]
fn chunks_cover_the_input_for_every_length_and_size() {
    for count in 0..40usize {
        let ids = identifiers(count);
        for size in 1..14usize {
            let chunks = chunk_identifiers(&ids, size);
            assert_eq!(chunks.len(), (count + size - 1) / size);
            assert!(chunks.iter().all(|chunk| !chunk.is_empty() && chunk.len() <= size));
            assert_eq!(chunks.concat(), ids);
            let expected: Vec<Vec<String>> = ids.chunks(size).map(|c| c.to_vec()).collect();
            assert_eq!(chunks, expected);
        }
    }
}
