use copy_bench::buffers::{buffers_match, destination_buffer, source_buffer};
use copy_bench::config::{Config, ConfigError};
use copy_bench::copy::{copy_chunk, copy_in_chunks};
use copy_bench::partition::split_chunks_mut;

fn lengths<T>(chunks: &[&mut [T]]) -> Vec<usize> {
    chunks.iter().map(|c| c.len()).collect()
}

#[test]
fn remainder_goes_to_last_chunk() {
    let mut buf: Vec<u64> = (0..10).collect();
    let chunks = split_chunks_mut(&mut buf, 4);
    assert_eq!(lengths(&chunks), vec![2, 2, 2, 4]);
    assert_eq!(&*chunks[3], &[6, 7, 8, 9]);
}

#[test]
fn exact_division_of_large_buffer() {
    let mut buf: Vec<u8> = vec![0u8; 100_000_000];
    let chunks = split_chunks_mut(&mut buf, 4);
    assert_eq!(
        lengths(&chunks),
        vec![25_000_000, 25_000_000, 25_000_000, 25_000_000]
    );
}

#[test]
fn chunks_cover_buffer_in_order() {
    for len in 1..40usize {
        for n in 1..=len {
            let mut buf: Vec<u64> = (0..len as u64).collect();
            let chunks = split_chunks_mut(&mut buf, n);
            assert_eq!(chunks.len(), n);
            let base = len / n;
            for (i, c) in chunks.iter().enumerate() {
                let want = if i + 1 == n { len - (n - 1) * base } else { base };
                assert_eq!(c.len(), want);
                assert!(c.len() >= base);
            }
            let joined: Vec<u64> = chunks.iter().flat_map(|c| c.iter().copied()).collect();
            assert_eq!(joined, (0..len as u64).collect::<Vec<u64>>());
        }
    }
}

#[test]
fn writes_through_chunks_reach_buffer() {
    let mut buf: Vec<u64> = vec![0; 7];
    {
        let mut chunks = split_chunks_mut(&mut buf, 3);
        for (i, c) in chunks.iter_mut().enumerate() {
            for x in c.iter_mut() {
                *x = i as u64 + 1;
            }
        }
    }
    assert_eq!(buf, vec![1, 1, 2, 2, 3, 3, 3]);
}

#[test]
fn single_chunk_spans_buffer() {
    let mut buf: Vec<u64> = (0..5).collect();
    let chunks = split_chunks_mut(&mut buf, 1);
    assert_eq!(chunks.len(), 1);
    assert_eq!(&*chunks[0], &[0, 1, 2, 3, 4]);
}

#[test]
fn source_counts_up_and_destination_is_zero() {
    assert_eq!(source_buffer(5), vec![0, 1, 2, 3, 4]);
    assert_eq!(destination_buffer(4), vec![0, 0, 0, 0]);
    assert!(source_buffer(0).is_empty());
    assert!(destination_buffer(0).is_empty());
}

#[test]
fn eight_elements_two_threads_one_iteration() {
    let src = source_buffer(8);
    let mut dst = destination_buffer(8);
    assert_eq!(src, vec![0, 1, 2, 3, 4, 5, 6, 7]);
    assert_eq!(dst, vec![0, 0, 0, 0, 0, 0, 0, 0]);
    copy_in_chunks(&mut dst, &src, 2, 1);
    assert_eq!(dst, vec![0, 1, 2, 3, 4, 5, 6, 7]);
    assert!(buffers_match(&src, &dst));
}

#[test]
fn one_thread_copies_whole_buffer() {
    let src = source_buffer(9);
    let mut dst = destination_buffer(9);
    copy_in_chunks(&mut dst, &src, 1, 3);
    assert_eq!(dst, src);
}

#[test]
fn copy_gives_index_at_every_position() {
    let src = source_buffer(1000);
    let mut dst = destination_buffer(1000);
    copy_in_chunks(&mut dst, &src, 7, 2);
    for (i, x) in dst.iter().enumerate() {
        assert_eq!(*x, i as u64);
    }
}

#[test]
fn repeated_copy_equals_single_copy() {
    let src = source_buffer(13);
    let mut once = vec![9u64; 13];
    let mut many = vec![9u64; 13];
    copy_in_chunks(&mut once, &src, 4, 1);
    copy_in_chunks(&mut many, &src, 4, 200);
    assert_eq!(once, many);
    assert_eq!(many, src);
}

#[test]
fn zero_iterations_leave_destination() {
    let src = source_buffer(6);
    let mut dst = vec![5u64; 6];
    copy_in_chunks(&mut dst, &src, 2, 0);
    assert_eq!(dst, vec![5u64; 6]);
    assert!(!buffers_match(&src, &dst));
}

#[test]
fn copy_chunk_overwrites_destination() {
    let src = [4u64, 5, 6];
    let mut dst = [0u64, 0, 0];
    copy_chunk(&mut dst, &src, 1);
    assert_eq!(dst, [4, 5, 6]);
    let mut untouched = [1u64, 2, 3];
    copy_chunk(&mut untouched, &src, 0);
    assert_eq!(untouched, [1, 2, 3]);
}

#[test]
fn match_detects_differences() {
    assert!(buffers_match(&[1, 2, 3], &[1, 2, 3]));
    assert!(!buffers_match(&[1, 2, 3], &[1, 2, 4]));
    assert!(!buffers_match(&[1, 2], &[1, 2, 3]));
    assert!(buffers_match(&[], &[]));
}

#[test]
fn config_checks_thread_count() {
    assert_eq!(Config::new(10, 5, 0), Err(ConfigError::NoThreads));
    assert_eq!(Config::new(3, 5, 4), Err(ConfigError::TooManyThreads));
    assert_eq!(
        Config::new(10, 5, 10),
        Ok(Config { element_count: 10, iterations: 5, threads: 10 })
    );
    assert_eq!(
        Config::new(100_000_000, 200, 4),
        Ok(Config { element_count: 100_000_000, iterations: 200, threads: 4 })
    );
}

#[test]
fn byte_counts_ignore_thread_count() {
    let c = Config::new(100_000_000, 200, 4).unwrap();
    assert_eq!(c.array_bytes(), Some(800_000_000));
    assert_eq!(c.bytes_moved(), Some(160_000_000_000));
    let d = Config::new(100_000_000, 200, 1).unwrap();
    assert_eq!(d.bytes_moved(), c.bytes_moved());
}

#[test]
fn byte_counts_positive_for_real_runs() {
    let c = Config::new(8, 1, 2).unwrap();
    assert_eq!(c.array_bytes(), Some(64));
    assert_eq!(c.bytes_moved(), Some(64));
    let idle = Config::new(8, 0, 2).unwrap();
    assert_eq!(idle.bytes_moved(), Some(0));
}

#[test]
fn byte_counts_overflow_to_none() {
    let huge = Config { element_count: usize::MAX, iterations: 1, threads: 1 };
    assert_eq!(huge.array_bytes(), None);
    assert_eq!(huge.bytes_moved(), None);
    let long = Config { element_count: 1 << 20, iterations: usize::MAX, threads: 1 };
    assert_eq!(long.array_bytes(), Some(8 << 20));
    assert_eq!(long.bytes_moved(), None);
}
