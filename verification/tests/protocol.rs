use powerfs_fuse::acl::parse_posix_acl_mode;
use powerfs_fuse::admin_server::{request_path, route, AdminServer, Route};
use powerfs_fuse::entry::{CachedFileChunk, Placement};
use powerfs_fuse::file_locks::{FileLock, FileLocks};
use powerfs_fuse::fs::data_intact;
use powerfs_fuse::fuse_app::{flusher_pause_ms, host, worker_count, FuseApp};
use powerfs_fuse::layout::{chunks_match, resolve_stripe_chunk};
use powerfs_fuse::scan::{
    filer_error_to_errno, find_status, is_needle_missing, parse_u16, StatusCodes, EACCES, EAGAIN,
    EBADF, EEXIST, EINVAL, EIO, EISDIR, ENOENT, ENOSPC, ENOTDIR, ENOTEMPTY,
};
use powerfs_fuse::wire::{encode_inval_entry, encode_inval_inode, to_decimal};

const CODES: StatusCodes = StatusCodes {
    not_found: 1,
    already_exists: 2,
    permission_denied: 3,
    io: 4,
    invalid_arg: 5,
    not_dir: 6,
    is_dir: 7,
    no_space: 8,
    bad_fd: 9,
    server_error: 10,
    bad_request: 11,
};

#[test]
fn status_in_a_message_decides() {
    let cases = [
        (1, ENOENT),
        (2, EEXIST),
        (3, EACCES),
        (4, EIO),
        (5, EINVAL),
        (6, ENOTDIR),
        (7, EISDIR),
        (8, ENOSPC),
        (9, EBADF),
        (10, EIO),
        (11, EINVAL),
        (99, EIO),
    ];
    for (status, errno) in cases {
        let message = format!("rpc failed: server status {} (not found)", status);
        assert_eq!(filer_error_to_errno(&message, &CODES), errno);
    }
}

#[test]
fn phrase_in_a_message_decides_without_a_status() {
    let cases = [
        ("Directory Not Empty", ENOTEMPTY),
        ("entry NOT FOUND", ENOENT),
        ("No such file", ENOENT),
        ("Already Exists", EEXIST),
        ("Permission denied", EACCES),
        ("ACCESS DENIED", EACCES),
        ("Not a directory", ENOTDIR),
        ("Is a directory", EISDIR),
        ("no SPACE left", ENOSPC),
        ("Invalid Argument", EINVAL),
        ("Bad Request", EINVAL),
        ("connection reset", EIO),
        ("server status many not found", ENOENT),
    ];
    for (message, errno) in cases {
        assert_eq!(filer_error_to_errno(message, &CODES), errno, "{}", message);
    }
}

#[test]
fn numbers_are_read_as_written() {
    assert_eq!(parse_u16("0"), Some(0));
    assert_eq!(parse_u16("+7"), Some(7));
    assert_eq!(parse_u16("65535"), Some(65535));
    assert_eq!(parse_u16("65536"), None);
    assert_eq!(parse_u16(""), None);
    assert_eq!(parse_u16("+"), None);
    assert_eq!(parse_u16("-1"), None);
    assert_eq!(parse_u16("12a"), None);
    assert_eq!(find_status("x server status 404 y"), Some(404));
    assert_eq!(find_status("server status"), None);
}

#[test]
fn missing_needle_is_recognised() {
    assert!(is_needle_missing("read: needle not found in volume 3"));
    assert!(!is_needle_missing("read: volume not found"));
}

fn acl(entries: &[(u16, u16)]) -> Vec<u8> {
    let mut v = vec![2, 0, 0, 0];
    for (tag, perm) in entries {
        v.extend_from_slice(&tag.to_le_bytes());
        v.extend_from_slice(&perm.to_le_bytes());
        v.extend_from_slice(&[0xff, 0xff, 0xff, 0xff]);
    }
    v
}

#[test]
fn acl_becomes_a_mode() {
    let plain = acl(&[(1, 6), (4, 4), (0x10, 0)]);
    assert_eq!(parse_posix_acl_mode(&plain, 0o777), Some(0o640));
    // The mask stands in for the group.
    let masked = acl(&[(1, 7), (4, 5), (0x20, 4), (0x10, 1)]);
    assert_eq!(parse_posix_acl_mode(&masked, 0), Some(0o741));
    // What is left out comes from the mode.
    assert_eq!(parse_posix_acl_mode(&acl(&[]), 0o751), Some(0o751));
    assert_eq!(parse_posix_acl_mode(&[2, 0, 0], 0o751), None);
    assert_eq!(parse_posix_acl_mode(&[1, 0, 0, 0], 0o751), None);
}

#[test]
fn admin_requests_are_routed() {
    assert_eq!(request_path("GET /stats HTTP/1.1\r\nHost: x\r\n"), "/stats");
    assert_eq!(request_path(""), "/");
    assert_eq!(request_path("GET\n/stats"), "/");
    assert_eq!(route("/stats"), Route::Stats);
    assert_eq!(route("/health"), Route::Health);
    assert_eq!(route("/stats/"), Route::NotFound);
}

#[test]
fn admin_replies_carry_their_length() {
    assert_eq!(
        AdminServer::respond("GET /health HTTP/1.0", Ok(String::new())),
        "HTTP/1.0 200 OK\r\nContent-Type: application/json\r\nContent-Length: 15\r\nConnection: close\r\n\r\n{\"status\":\"ok\"}"
    );
    let stats = AdminServer::respond("GET /stats", Ok("{\"ä\":1}".to_string()));
    assert!(stats.contains("Content-Length: 8\r\n"));
    assert!(stats.ends_with("\r\n\r\n{\"ä\":1}"));
    let failed = AdminServer::respond("GET /stats", Err("bad".to_string()));
    assert!(failed.starts_with("HTTP/1.0 500 Internal Server Error\r\n"));
    assert!(failed.ends_with("{\"error\":\"bad\"}"));
    let lost = AdminServer::respond("GET /x", Ok(String::new()));
    assert!(lost.starts_with("HTTP/1.0 404 Not Found\r\n"));
}

#[test]
fn kernel_messages_have_their_layout() {
    let m = encode_inval_inode(0x0102, true);
    assert_eq!(m.len(), 40);
    assert_eq!(m[0..4], 40u32.to_le_bytes());
    assert_eq!(m[4..8], 2i32.to_le_bytes());
    assert_eq!(m[8..16], [0u8; 8]);
    assert_eq!(m[16..24], 0x0102u64.to_le_bytes());
    let n = encode_inval_inode(0x0102, false);
    assert_eq!(n[4..8], 2i32.to_be_bytes());
    assert_eq!(n[16..24], 0x0102u64.to_be_bytes());
    let e = encode_inval_entry(9, "name", true);
    assert_eq!(e[4..8], (-3i32).to_le_bytes());
    assert_eq!(e[16..24], 9u64.to_le_bytes());
    assert_eq!(e[24..28], 4u32.to_le_bytes());
    assert_eq!(&e[32..36], b"name");
    assert_eq!(e.len() as u32, u32::from_le_bytes([e[0], e[1], e[2], e[3]]));
}

#[test]
fn decimals_are_written_in_full() {
    assert_eq!(to_decimal(0), "0");
    assert_eq!(to_decimal(1024), "1024");
    assert_eq!(to_decimal(u64::MAX), "18446744073709551615");
}

fn lock(start: u64, end: u64, lock_type: u32) -> FileLock {
    FileLock { start, end, lock_type, pid: 1 }
}

#[test]
fn clashing_locks_are_refused() {
    let mut locks = FileLocks::new();
    assert_eq!(locks.setlk(1, lock(0, 10, 1)), Ok(()));
    assert_eq!(locks.setlk(1, lock(5, 15, 2)), Err(EAGAIN));
    assert_eq!(locks.setlk(1, lock(10, 15, 2)), Ok(()));
    assert_eq!(locks.setlk(2, lock(5, 15, 2)), Ok(()));
    assert_eq!(locks.setlk(1, lock(5, 9, 1)), Ok(()));
    assert_eq!(locks.getlk(1, lock(3, 4, 2)).start, 0);
}

#[test]
fn released_locks_are_free_again() {
    let mut locks = FileLocks::new();
    assert_eq!(locks.setlk(1, lock(0, 10, 1)), Ok(()));
    assert_eq!(locks.setlk(1, lock(0, 10, 0)), Ok(()));
    assert_eq!(locks.setlk(1, lock(5, 15, 2)), Ok(()));
}

fn unit(needle_id: u64, volume_id: u64) -> CachedFileChunk {
    CachedFileChunk { offset: 0, size: 0, mtime: 0, needle_id, volume_id, crc32: 0 }
}

#[test]
fn stripe_units_give_consecutive_needles() {
    let units = vec![unit(100, 1), unit(200, 2)];
    let p = Placement::Stripe { stripe_size: 4096, stripe_count: 2 };
    assert_eq!(resolve_stripe_chunk(&p, &units, 0, 1024), Some((1, 100)));
    assert_eq!(resolve_stripe_chunk(&p, &units, 3072, 1024), Some((1, 103)));
    assert_eq!(resolve_stripe_chunk(&p, &units, 4096, 1024), Some((2, 200)));
    assert_eq!(resolve_stripe_chunk(&p, &units, 8192, 1024), None);
    assert_eq!(resolve_stripe_chunk(&Placement::Flat, &units, 0, 1024), None);
}

#[test]
fn chunk_lists_are_compared_by_place() {
    let a = vec![unit(1, 2)];
    let b = vec![CachedFileChunk { crc32: 7, mtime: 9, ..unit(1, 2) }];
    assert!(chunks_match(&a, &b));
    assert!(!chunks_match(&a, &vec![unit(1, 3)]));
    assert!(!chunks_match(&a, &Vec::new()));
}

#[test]
fn checksums_are_compared_where_there_is_one() {
    let data = b"123456789";
    assert!(data_intact(0xcbf4_3926, data));
    assert!(data_intact(0, data));
    assert!(!data_intact(1, data));
}

fn app(masters: Vec<String>, filer: &str, filers: Vec<String>) -> FuseApp {
    FuseApp::new(
        &masters,
        "/mnt",
        "c",
        "000",
        1,
        2,
        Vec::new(),
        filer.to_string(),
        filers,
        3,
        "mode",
        4,
        5,
        true,
        6,
        7,
    )
}

#[test]
fn settings_fall_back_to_the_named_server() {
    assert_eq!(app(Vec::new(), "f:1", Vec::new()).filer_addrs, vec!["f:1".to_string()]);
    assert_eq!(app(Vec::new(), "f:1", vec!["g".into()]).filer_addrs, vec!["g".to_string()]);
    assert!(app(Vec::new(), "", Vec::new()).filer_addrs.is_empty());
}

#[test]
fn master_hosts_lose_protocol_and_port() {
    assert_eq!(host("http://a.b:9333"), "a.b");
    assert_eq!(host("https://a.b"), "a.b");
    assert_eq!(host("a:1:2"), "a");
    let a = app(vec!["http://m:1".into(), "n:2".into()], "", Vec::new());
    assert_eq!(a.master_hosts(), Ok(vec!["m".to_string(), "n".to_string()]));
    let none = app(Vec::new(), "", Vec::new());
    assert_eq!(
        none.master_hosts(),
        Err("master_addresses is empty (must be configured)".to_string())
    );
}

#[test]
fn workers_and_pauses() {
    assert_eq!(worker_count(1), 4);
    assert_eq!(worker_count(16), 16);
    assert_eq!(flusher_pause_ms(true), 20);
    assert_eq!(flusher_pause_ms(false), 100);
}
