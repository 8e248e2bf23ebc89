//! End-to-end guest flows through the dispatch layer.

use spin_bridge::dispatch::BlobStoreDispatch;
use spin_bridge::errors::Error;
use spin_bridge::memory_store::BlobStoreInMemory;

fn dispatch_with(allowed: Vec<&str>) -> BlobStoreDispatch {
    BlobStoreDispatch::new(
        allowed.into_iter().map(String::from).collect(),
        BlobStoreInMemory::new(),
        1024,
    )
}

fn upload(d: &mut BlobStoreDispatch, container: u32, name: &str, payload: &[u8]) {
    let ov = d.new_outgoing_value().unwrap();
    d.outgoing_value_write_body(ov).unwrap();
    d.outgoing_value_write(ov, payload.to_vec()).unwrap();
    d.write_data(container, name.to_string(), ov).unwrap();
    d.finish(ov).unwrap();
}

#[test]
fn end_to_end_open_set_get_delete() {
    let mut d = dispatch_with(vec!["default"]);

    // a label outside the allow-list is denied before any backend work
    assert_eq!(d.get_container("forbidden".to_string()), Err(Error::AccessDenied));

    let h = d.get_container("default".to_string()).unwrap();

    upload(&mut d, h, "bar", b"baz");
    assert_eq!(d.has_object(h, &"bar".to_string()), Ok(true));
    let dl = d.get_data(h, &"bar".to_string(), 0, u64::MAX).unwrap();
    assert_eq!(d.incoming_value_consume_sync(dl).unwrap(), b"baz".to_vec());

    d.delete_object(h, &"bar".to_string()).unwrap();
    assert_eq!(d.has_object(h, &"bar".to_string()), Ok(false));
    assert!(matches!(
        d.get_data(h, &"bar".to_string(), 0, u64::MAX),
        Err(Error::BackendFailure(_))
    ));
}

#[test]
fn stale_and_foreign_handles_fail_with_invalid_handle() {
    let mut d = dispatch_with(vec!["default"]);
    let h = d.get_container("default".to_string()).unwrap();
    d.drop_container(h);
    assert_eq!(d.has_object(h, &"x".to_string()), Err(Error::InvalidHandle));
    assert_eq!(d.container_name(99), Err(Error::InvalidHandle));
    assert_eq!(d.incoming_value_consume_sync(7), Err(Error::InvalidHandle));
}

#[test]
fn container_queries_and_unsupported_operations() {
    let mut d = dispatch_with(vec!["default"]);
    assert_eq!(d.container_exists("default".to_string()), Ok(true));
    assert_eq!(d.container_exists("forbidden".to_string()), Ok(false));
    let h = d.get_container("default".to_string()).unwrap();
    assert_eq!(d.container_name(h).unwrap(), "default".to_string());
    assert_eq!(d.info(h).unwrap().created_at, 0);
    assert!(matches!(
        d.create_container("x".to_string()),
        Err(Error::BackendFailure(_))
    ));
    assert!(matches!(
        d.delete_container("x".to_string()),
        Err(Error::BackendFailure(_))
    ));
}

#[test]
fn two_handles_for_one_label_share_the_container() {
    let mut d = dispatch_with(vec!["default"]);
    let h1 = d.get_container("default".to_string()).unwrap();
    let h2 = d.get_container("default".to_string()).unwrap();
    assert_ne!(h1, h2);
    upload(&mut d, h1, "shared", b"v");
    assert_eq!(d.has_object(h2, &"shared".to_string()), Ok(true));
}

#[test]
fn name_streams_read_and_skip_in_order() {
    let mut d = dispatch_with(vec!["default"]);
    let h = d.get_container("default".to_string()).unwrap();
    upload(&mut d, h, "a", b"1");
    upload(&mut d, h, "b", b"2");
    upload(&mut d, h, "c", b"3");

    let s = d.list_objects(h).unwrap();
    let (first, end) = d.read_stream_object_names(s, 1).unwrap();
    assert_eq!(first, vec!["a".to_string()]);
    assert!(!end);
    let (skipped, end) = d.skip_stream_object_names(s, 1).unwrap();
    assert_eq!(skipped, 1);
    assert!(!end);
    let (rest, end) = d.read_stream_object_names(s, 10).unwrap();
    assert_eq!(rest, vec!["c".to_string()]);
    assert!(end);
    d.drop_object_names(s);
    assert_eq!(
        d.read_stream_object_names(s, 1),
        Err(Error::InvalidHandle)
    );
}

#[test]
fn delete_many_and_clear_remove_objects() {
    let mut d = dispatch_with(vec!["default"]);
    let h = d.get_container("default".to_string()).unwrap();
    upload(&mut d, h, "a", b"1");
    upload(&mut d, h, "b", b"2");
    upload(&mut d, h, "c", b"3");
    d.delete_objects(h, &vec!["a".to_string(), "b".to_string()]).unwrap();
    assert_eq!(d.has_object(h, &"a".to_string()), Ok(false));
    assert_eq!(d.has_object(h, &"c".to_string()), Ok(true));
    d.clear(h).unwrap();
    assert_eq!(d.has_object(h, &"c".to_string()), Ok(false));
}

#[test]
fn each_download_handle_supports_exactly_one_consumption() {
    let mut d = dispatch_with(vec!["default"]);
    let h = d.get_container("default".to_string()).unwrap();
    upload(&mut d, h, "x", b"0123456789");

    // synchronous full drain releases the handle
    let dl = d.get_data(h, &"x".to_string(), 0, u64::MAX).unwrap();
    assert_eq!(d.incoming_value_size(dl).unwrap(), 10);
    assert_eq!(d.incoming_value_consume_sync(dl).unwrap(), b"0123456789".to_vec());
    assert_eq!(d.incoming_value_consume_sync(dl), Err(Error::InvalidHandle));

    // incremental mode releases it as well
    let dl2 = d.get_data(h, &"x".to_string(), 0, u64::MAX).unwrap();
    let chunks = d.incoming_value_consume_async(dl2, 4).unwrap();
    assert_eq!(chunks, vec![b"0123".to_vec(), b"4567".to_vec(), b"89".to_vec()]);
    assert_eq!(d.incoming_value_consume_sync(dl2), Err(Error::InvalidHandle));
}
