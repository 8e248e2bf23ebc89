//! The chunked streaming transfer protocol: upload round trips and
//! ranged downloads.

use spin_bridge::dispatch::BlobStoreDispatch;
use spin_bridge::errors::Error;
use spin_bridge::memory_store::BlobStoreInMemory;
use spin_bridge::transfer::{PagedNamesReader, BLOCK_THRESHOLD};

fn dispatch_default() -> (BlobStoreDispatch, u32) {
    let mut d = BlobStoreDispatch::new(
        vec!["default".to_string()],
        BlobStoreInMemory::new(),
        1024,
    );
    let h = d.get_container("default".to_string()).unwrap();
    (d, h)
}

fn patterned(len: usize) -> Vec<u8> {
    let mut v = Vec::with_capacity(len);
    for i in 0..len {
        v.push((i % 251) as u8);
    }
    v
}

fn upload_one(d: &mut BlobStoreDispatch, container: u32, name: &str, payload: &[u8]) {
    let ov = d.new_outgoing_value().unwrap();
    d.outgoing_value_write_body(ov).unwrap();
    d.outgoing_value_write(ov, payload.to_vec()).unwrap();
    d.write_data(container, name.to_string(), ov).unwrap();
    d.finish(ov).unwrap();
}

#[test]
fn upload_round_trip_for_block_boundary_sizes() {
    let (mut d, h) = dispatch_default();
    let sizes = [
        0usize,
        1,
        BLOCK_THRESHOLD - 1,
        BLOCK_THRESHOLD,
        BLOCK_THRESHOLD + 1,
        3 * BLOCK_THRESHOLD + 17,
    ];
    for (n, size) in sizes.iter().enumerate() {
        let name = format!("blob{}", n);
        let payload = patterned(*size);
        upload_one(&mut d, h, &name, &payload);
        let info = d.object_info(h, &name).unwrap();
        assert_eq!(info.size, *size as u64);
        let dl = d.get_data(h, &name, 0, u64::MAX).unwrap();
        assert_eq!(d.incoming_value_consume_sync(dl).unwrap(), payload);
    }
}

#[test]
fn upload_is_not_observable_before_finish() {
    let (mut d, h) = dispatch_default();
    let ov = d.new_outgoing_value().unwrap();
    d.outgoing_value_write_body(ov).unwrap();
    d.outgoing_value_write(ov, patterned(BLOCK_THRESHOLD * 2 + 5)).unwrap();
    d.write_data(h, "late".to_string(), ov).unwrap();
    // bytes are written and blocks sealed, but nothing is visible yet
    assert_eq!(d.has_object(h, &"late".to_string()), Ok(false));
    d.finish(ov).unwrap();
    assert_eq!(d.has_object(h, &"late".to_string()), Ok(true));
    assert_eq!(
        d.object_info(h, &"late".to_string()).unwrap().size,
        (BLOCK_THRESHOLD * 2 + 5) as u64
    );
}

#[test]
fn upload_protocol_misuse_fails_with_typed_errors() {
    let (mut d, h) = dispatch_default();
    let ov = d.new_outgoing_value().unwrap();
    d.outgoing_value_write_body(ov).unwrap();
    // the write stream is handed out once
    assert!(matches!(
        d.outgoing_value_write_body(ov),
        Err(Error::TransferAborted(_))
    ));
    // finishing before connecting to an object fails
    assert!(matches!(d.finish(ov), Err(Error::TransferAborted(_))));
    d.write_data(h, "obj".to_string(), ov).unwrap();
    // connecting twice fails
    assert!(matches!(
        d.write_data(h, "obj2".to_string(), ov),
        Err(Error::TransferAborted(_))
    ));
    d.finish(ov).unwrap();
    // finishing twice fails, and nothing changed the first commit
    assert!(matches!(d.finish(ov), Err(Error::TransferAborted(_))));
    assert_eq!(d.has_object(h, &"obj".to_string()), Ok(true));
    // writing after the upload finished fails
    assert!(matches!(
        d.outgoing_value_write(ov, vec![1]),
        Err(Error::TransferAborted(_))
    ));
}

#[test]
fn download_range_inclusive_and_to_end_sentinel() {
    let (mut d, h) = dispatch_default();
    upload_one(&mut d, h, "r", b"0123456789");

    // a real end offset is inclusive
    let dl = d.get_data(h, &"r".to_string(), 2, 5).unwrap();
    assert_eq!(d.incoming_value_consume_sync(dl).unwrap(), b"2345".to_vec());

    // the sentinel reads through the end of the object
    let dl = d.get_data(h, &"r".to_string(), 2, u64::MAX).unwrap();
    assert_eq!(d.incoming_value_consume_sync(dl).unwrap(), b"23456789".to_vec());

    // any end at or past the last byte means through the end
    let dl = d.get_data(h, &"r".to_string(), 2, 9).unwrap();
    assert_eq!(d.incoming_value_consume_sync(dl).unwrap(), b"23456789".to_vec());
    let dl = d.get_data(h, &"r".to_string(), 2, 100).unwrap();
    assert_eq!(d.incoming_value_consume_sync(dl).unwrap(), b"23456789".to_vec());

    // an empty window at the very end is fine
    let dl = d.get_data(h, &"r".to_string(), 10, u64::MAX).unwrap();
    assert_eq!(d.incoming_value_consume_sync(dl).unwrap(), Vec::<u8>::new());

    // a start past the object is a typed error, never a panic
    assert!(matches!(
        d.get_data(h, &"r".to_string(), 11, u64::MAX),
        Err(Error::TransferAborted(_))
    ));
}

#[test]
fn many_chunk_upload_yields_exact_object() {
    let (mut d, h) = dispatch_default();
    let ov = d.new_outgoing_value().unwrap();
    d.outgoing_value_write_body(ov).unwrap();
    d.write_data(h, "big".to_string(), ov).unwrap();
    let chunk = vec![0xabu8; 1024 * 1024];
    for _ in 0..256 {
        d.outgoing_value_write(ov, chunk.clone()).unwrap();
    }
    d.finish(ov).unwrap();
    let info = d.object_info(h, &"big".to_string()).unwrap();
    assert_eq!(info.size, 256 * 1024 * 1024);
}

#[test]
fn paged_names_reader_serves_pages_in_order_without_loss() {
    let pages = vec![
        vec!["a".to_string(), "b".to_string()],
        vec!["c".to_string()],
    ];
    let mut reader = PagedNamesReader::new(pages);
    // a short read splits the page and stashes the rest
    let (first, end) = reader.read(1);
    assert_eq!(first, vec!["a".to_string()]);
    assert!(!end);
    // the stash is served before the next page, even for a big ask
    let (second, end) = reader.read(5);
    assert_eq!(second, vec!["b".to_string()]);
    assert!(!end);
    let (third, end) = reader.read(5);
    assert_eq!(third, vec!["c".to_string()]);
    assert!(end);
    // an exhausted listing reports no names and no end marker
    let (nothing, end) = reader.read(5);
    assert!(nothing.is_empty());
    assert!(!end);
}

#[test]
fn paged_names_reader_accepts_empty_pages_and_still_makes_progress() {
    let pages = vec![
        Vec::new(),
        vec!["a".to_string()],
        Vec::new(),
    ];
    let mut reader = PagedNamesReader::new(pages);
    // an empty ask makes no progress and never means the end
    let (nothing, end) = reader.read(0);
    assert!(nothing.is_empty());
    assert!(!end);
    // a read never comes back empty-handed while names remain
    let (got, end) = reader.read(3);
    assert_eq!(got, vec!["a".to_string()]);
    assert!(end);
}

#[test]
fn paged_names_reader_skip_counts_names() {
    let pages = vec![vec!["a".to_string(), "b".to_string(), "c".to_string()]];
    let mut reader = PagedNamesReader::new(pages);
    let (skipped, end) = reader.skip(2);
    assert_eq!(skipped, 2);
    assert!(!end);
    let (rest, end) = reader.read(10);
    assert_eq!(rest, vec!["c".to_string()]);
    assert!(end);
}
