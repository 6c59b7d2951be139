use hdfs_connection::cache::{DatanodeConnectionCache, Timestamp, DATANODE_CACHE_EXPIRY};
use hdfs_connection::datanode::{DatanodeConnection, DatanodeId};

fn node(ip_addr: &str, xfer_port: u32) -> DatanodeId {
    DatanodeId { ip_addr: ip_addr.to_string(), xfer_port }
}

fn connection(id: &DatanodeId, number: u32) -> DatanodeConnection<u32, u32> {
    DatanodeConnection::connect(id, number, number)
}

fn at(secs: i64, nanos: u32) -> Timestamp {
    Timestamp { secs, nanos }
}

fn reader_of(conn: Option<DatanodeConnection<u32, u32>>) -> Option<u32> {
    conn.map(|c| c.reader)
}

#[test]
fn connections_wait_for_three_seconds() {
    assert_eq!(DATANODE_CACHE_EXPIRY, 3);
}

#[test]
fn a_new_cache_has_no_connection() {
    let mut cache: DatanodeConnectionCache<u32, u32> = DatanodeConnectionCache::new();
    assert!(cache.get(&node("10.0.0.1", 9866)).is_none());
    assert!(cache.get_at(&node("10.0.0.1", 9866), at(0, 0)).is_none());
}

#[test]
fn a_released_connection_is_used_again_once() {
    let id = node("10.0.0.1", 9866);
    let mut cache = DatanodeConnectionCache::new();
    cache.release_at(connection(&id, 1), at(100, 5));
    let conn = cache.get_at(&id, at(103, 4)).unwrap();
    assert_eq!(conn.reader, 1);
    assert_eq!(conn.url, "10.0.0.1:9866");
    assert!(cache.get_at(&id, at(103, 4)).is_none());
}

#[test]
fn an_expired_connection_is_not_handed_out() {
    let id = node("10.0.0.1", 9866);
    let mut cache = DatanodeConnectionCache::new();
    cache.release_at(connection(&id, 1), at(100, 5));
    assert!(cache.get_at(&id, at(103, 5)).is_none());
    // Nor is it later, when the clock was set back.
    assert!(cache.get_at(&id, at(100, 5)).is_none());
}

#[test]
fn the_connection_that_waited_longest_comes_first() {
    let id = node("10.0.0.1", 9866);
    let mut cache = DatanodeConnectionCache::new();
    cache.release_at(connection(&id, 1), at(100, 0));
    cache.release_at(connection(&id, 2), at(101, 0));
    cache.release_at(connection(&id, 3), at(102, 0));
    assert_eq!(reader_of(cache.get_at(&id, at(102, 0))), Some(1));
    assert_eq!(reader_of(cache.get_at(&id, at(104, 0))), Some(3));
    assert_eq!(reader_of(cache.get_at(&id, at(104, 0))), None);
}

#[test]
fn data_nodes_have_queues_of_their_own() {
    let first = node("10.0.0.1", 9866);
    let second = node("10.0.0.1", 9867);
    let mut cache = DatanodeConnectionCache::new();
    cache.release_at(connection(&first, 1), at(100, 0));
    cache.release_at(connection(&second, 2), at(100, 0));
    assert_eq!(reader_of(cache.get_at(&second, at(100, 0))), Some(2));
    assert_eq!(reader_of(cache.get_at(&second, at(100, 0))), None);
    assert_eq!(reader_of(cache.get_at(&first, at(100, 0))), Some(1));
}

#[test]
fn what_has_expired_is_removed_for_every_data_node() {
    let first = node("10.0.0.1", 1);
    let second = node("10.0.0.2", 1);
    let mut cache = DatanodeConnectionCache::new();
    cache.release_at(connection(&first, 1), at(100, 0));
    cache.release_at(connection(&second, 2), at(100, 0));
    cache.release_at(connection(&second, 3), at(102, 0));
    cache.remove_expired_at(at(103, 0));
    assert_eq!(reader_of(cache.get_at(&first, at(100, 0))), None);
    assert_eq!(reader_of(cache.get_at(&second, at(100, 0))), Some(3));
}

#[test]
fn the_clock_decides() {
    let id = node("10.0.0.1", 9866);
    let mut cache = DatanodeConnectionCache::new();
    cache.release(connection(&id, 1));
    cache.remove_expired();
    assert_eq!(reader_of(cache.get(&id)), Some(1));
    assert_eq!(reader_of(cache.get(&id)), None);
}

#[test]
fn a_connection_from_long_ago_has_expired() {
    let id = node("10.0.0.1", 9866);
    let mut cache = DatanodeConnectionCache::new();
    // The first second of 1970.
    cache.release_at(connection(&id, 1), at(0, 0));
    cache.remove_expired();
    assert_eq!(reader_of(cache.get_at(&id, at(0, 0))), None);
}

#[test]
fn a_connection_from_now_outlives_the_year_2000() {
    let id = node("10.0.0.1", 9866);
    let mut cache = DatanodeConnectionCache::new();
    cache.release(connection(&id, 1));
    assert_eq!(reader_of(cache.get_at(&id, at(946_684_800, 0))), Some(1));
}

#[test]
fn times_are_compared_to_the_nanosecond() {
    assert!(at(2, 0).is_later_than(&at(1, 999_999_999)));
    assert!(at(1, 1).is_later_than(&at(1, 0)));
    assert!(!at(1, 1).is_later_than(&at(1, 1)));
    assert!(!at(1, 999_999_999).is_later_than(&at(2, 0)));
}
