use blobnet::cached::{page_disk_path, Cached};
use blobnet::cleaner::{
    clean_step, clean_target, next_clean_step, CleanStep, CLEAN_INTERVAL_SECS,
};
use blobnet::config::{parse_provider, Cli, ListenOn, ProviderSource};
use blobnet::digest::{checksum_of_hash, hash_blob, to_lower_hex, Spool, SpoolStep};
use blobnet::error::Error;
use blobnet::provider::{
    put_reply, FileReply, GetAnswer, GetReply, GetRequest, HeadReply, LocalDir, Spooled, S3,
};
use blobnet::stats::{gauges, stats_interval_ms, STATS_EMIT_INTERVAL_MS, STATS_LOG_INTERVAL_MS};
use blobnet::text::parse_number;

const ABC: &str = "ba7816bf8f01cfea414140de5dae2223b00361a396177a9cb410ff61f20015ad";

#[test]
fn hashes_of_blobs() {
    assert_eq!(hash_blob(b"abc"), ABC);
    assert_eq!(to_lower_hex(&[0x0a, 0x14, 0x1e, 0xff, 0x00]), "0a141eff00");
    assert_eq!(checksum_of_hash("").len(), 0);
    assert_eq!(checksum_of_hash(ABC), "ungWv48Bz+pBQUDeXa4iI7ADYaOWF3qctBD/YfIAFa0=");
    assert_eq!(checksum_of_hash(&ABC.to_uppercase()), checksum_of_hash(ABC));
    assert_eq!(checksum_of_hash("666F6f626172"), "Zm9vYmFy");
    assert_eq!(checksum_of_hash("66"), "Zg==");
    assert_eq!(checksum_of_hash("666f"), "Zm8=");
    assert_eq!(checksum_of_hash("666f6f"), "Zm9v");
    assert_eq!(checksum_of_hash("fbf0ffbe"), "+/D/vg==");
}

#[test]
fn hashes_of_blobs_in_parts() {
    let mut spool = Spool::new(true);
    assert!(spool.feed(b"a") == SpoolStep::Write);
    assert!(spool.feed(b"bc") == SpoolStep::Write);
    assert!(spool.feed(b"") == SpoolStep::Rewind);
    assert_eq!(spool.finish(), Some(ABC.to_string()));

    let mut spool = Spool::new(false);
    assert!(spool.feed(b"abc") == SpoolStep::Write);
    assert!(spool.feed(b"") == SpoolStep::Rewind);
    assert_eq!(spool.finish(), None);
}

fn key() -> Result<String, Error> {
    Ok("ab/cdef".to_string())
}

fn bad_key() -> Result<String, Error> {
    Err(Error::Internal("bad hash".to_string()))
}

fn s3() -> S3 {
    S3::new("blobs", true).unwrap()
}

#[test]
fn s3_buckets() {
    assert_eq!(s3().bucket, "blobs");
    match S3::new("blobs", false) {
        Err(message) => assert_eq!(message, "unable to create provider for S3 bucket blobs"),
        Ok(_) => panic!("the bucket is not there"),
    }
}

#[test]
fn s3_sizes() {
    let object = s3().head(key()).unwrap();
    assert_eq!((object.bucket.as_str(), object.key.as_str()), ("blobs", "ab/cdef"));
    assert!(matches!(s3().head(bad_key()), Err(Error::Internal(m)) if m == "bad hash"));
    assert_eq!(S3::head_reply(HeadReply::Found { content_length: 12 }), Ok(12));
    assert_eq!(S3::head_reply(HeadReply::Found { content_length: -1 }), Ok(u64::MAX));
    assert_eq!(S3::head_reply(HeadReply::Found { content_length: i64::MIN }), Ok(1 << 63));
    let service = |not_found| HeadReply::Service { not_found, message: "no".to_string() };
    assert_eq!(S3::head_reply(service(true)), Err(Error::NotFound));
    assert_eq!(S3::head_reply(service(false)), Err(Error::Internal("no".to_string())));
    let failed = HeadReply::Failed("down".to_string());
    assert_eq!(S3::head_reply(failed), Err(Error::Internal("down".to_string())));
}

#[test]
fn s3_reads() {
    match s3().get(key(), Some((10, 20))) {
        Ok(GetRequest::Object { object, range }) => {
            assert_eq!(object.bucket, "blobs");
            assert_eq!(object.key, "ab/cdef");
            assert_eq!(range, Some("bytes=10-19".to_string()));
        }
        _ => panic!("an object is asked for"),
    }
    match s3().get(key(), Some((0, u64::MAX))) {
        Ok(GetRequest::Object { range, .. }) => {
            assert_eq!(range, Some("bytes=0-18446744073709551614".to_string()));
        }
        _ => panic!("an object is asked for"),
    }
    let whole = s3().get(key(), None);
    assert!(matches!(whole, Ok(GetRequest::Object { range: None, .. })));
    assert!(matches!(s3().get(key(), Some((5, 5))), Ok(GetRequest::HeadOnly)));
    assert!(matches!(s3().get(bad_key(), Some((5, 5))), Ok(GetRequest::HeadOnly)));
    assert!(matches!(s3().get(bad_key(), Some((6, 5))), Err(Error::BadRange)));
    assert!(matches!(s3().get(bad_key(), None), Err(Error::Internal(_))));
}

#[test]
fn s3_ranges_are_distinct() {
    let mut headers = std::collections::HashSet::new();
    let mut count = 0;
    for start in 0..40 {
        for end in start + 1..45 {
            match s3().get(key(), Some((start, end))) {
                Ok(GetRequest::Object { range: Some(header), .. }) => {
                    assert_eq!(header, format!("bytes={}-{}", start, end - 1));
                    headers.insert(header);
                }
                _ => panic!("a range is asked for"),
            }
            count += 1;
        }
    }
    assert_eq!(headers.len(), count);
}

#[test]
fn s3_replies_to_reads() {
    assert!(S3::get_reply(GetReply::Body) == Ok(GetAnswer::Stream));
    let service = |no_such_key, code: Option<&str>| GetReply::Service {
        no_such_key,
        code: code.map(|code| code.to_string()),
        message: "no".to_string(),
    };
    let internal = Err(Error::Internal("no".to_string()));
    assert!(S3::get_reply(service(true, None)) == Err(Error::NotFound));
    assert!(S3::get_reply(service(true, Some("InvalidRange"))) == Err(Error::NotFound));
    assert!(S3::get_reply(service(false, Some("InvalidRange"))) == Ok(GetAnswer::Empty));
    assert!(S3::get_reply(service(false, Some("SlowDown"))) == internal);
    assert!(S3::get_reply(service(false, None)) == internal);
    assert!(S3::get_reply(GetReply::Failed("no".to_string())) == internal);
}

#[test]
fn s3_writes() {
    let request = s3().put(ABC, key()).unwrap();
    assert_eq!(request.object.bucket, "blobs");
    assert_eq!(request.object.key, "ab/cdef");
    assert_eq!(request.checksum_sha256, "ungWv48Bz+pBQUDeXa4iI7ADYaOWF3qctBD/YfIAFa0=");
    assert!(matches!(s3().put(ABC, bad_key()), Err(Error::Internal(m)) if m == "bad hash"));
    assert_eq!(put_reply("h".to_string(), Ok(())), Ok("h".to_string()));
    assert_eq!(
        put_reply("h".to_string(), Err("full".to_string())),
        Err(Error::Internal("full".to_string()))
    );
}

#[test]
fn local_directories() {
    let local = LocalDir::new("/srv");
    let file = local.head(key()).unwrap();
    assert_eq!((file.dir.as_str(), file.key.as_str()), ("/srv", "ab/cdef"));
    assert!(local.head(bad_key()).is_err());
    assert!(matches!(local.get(key(), Some((1, 2))), Ok(file) if file.key == "ab/cdef"));
    assert!(matches!(local.get(bad_key(), Some((2, 1))), Err(Error::BadRange)));
    assert!(matches!(local.get(bad_key(), None), Err(Error::Internal(_))));
    assert_eq!(LocalDir::reply(FileReply::Done(5)), Ok(5));
    assert_eq!(LocalDir::reply::<u64>(FileReply::NotFound), Err(Error::NotFound));
    assert_eq!(
        LocalDir::reply::<u64>(FileReply::Failed("denied".to_string())),
        Err(Error::Internal("denied".to_string()))
    );
}

#[test]
fn paths_of_pages() {
    assert_eq!(page_disk_path(key(), 0), Ok("ab/cdef/0".to_string()));
    assert_eq!(page_disk_path(key(), u64::MAX), Ok("ab/cdef/18446744073709551615".to_string()));
    assert_eq!(page_disk_path(bad_key(), 1), Err(Error::Internal("bad hash".to_string())));
}

#[test]
fn paths_of_pages_are_distinct() {
    let mut paths = std::collections::HashSet::new();
    let keys = ["a", "a/1", "a/11", "a/", "", "/", "1", "11"];
    for key in keys {
        for n in 0..200 {
            paths.insert(page_disk_path(Ok(key.to_string()), n).unwrap());
        }
    }
    assert_eq!(paths.len(), 200 * keys.len());
}

#[test]
fn folders_to_clean() {
    let target = clean_target(0xa5c3);
    assert_eq!(target.subfolder, "a5/c3");
    assert_eq!(target.subfolder_tmp, "a5/.tmp-c3");
    let target = clean_target(0x0b01);
    assert_eq!(target.subfolder, "0b/01");
    assert_eq!(target.subfolder_tmp, "0b/.tmp-01");
    assert_eq!(clean_target(0x0a0b).subfolder, "0a/0b");
    assert_eq!(clean_target(0).subfolder, "00/00");
    assert_eq!(clean_target(0xffff).subfolder, "ff/ff");
    assert_eq!(CLEAN_INTERVAL_SECS, 60);
}

#[test]
fn folders_to_clean_are_distinct() {
    let mut folders = std::collections::HashSet::new();
    let mut temporary = std::collections::HashSet::new();
    for prefix in 0..=u16::MAX {
        let target = clean_target(prefix);
        assert_eq!(target.subfolder, format!("{:02x}/{:02x}", prefix / 256, prefix % 256));
        assert_eq!(target.subfolder_tmp, format!("{:02x}/.tmp-{:02x}", prefix / 256, prefix % 256));
        folders.insert(target.subfolder);
        temporary.insert(target.subfolder_tmp);
    }
    assert_eq!(folders.len(), 65536);
    assert_eq!(temporary.len(), 65536);
    assert!(folders.is_disjoint(&temporary));
}

#[test]
fn a_hash_is_in_one_folder() {
    for i in 0..3u32 {
        let hash = hash_blob(&i.to_le_bytes());
        let folder = format!("{}/{}", &hash[..2], &hash[2..4]);
        let prefixes: Vec<u16> =
            (0..=u16::MAX).filter(|prefix| clean_target(*prefix).subfolder == folder).collect();
        assert_eq!(prefixes, vec![u16::from_str_radix(&hash[..4], 16).unwrap()]);
    }
}

/// Cleans the folder with the number `prefix`.
fn clean_round(folders: &mut std::collections::BTreeSet<String>, prefix: u16) {
    let mut step = next_clean_step(CleanStep::Sleep, true, prefix);
    loop {
        let succeeded = match &step {
            CleanStep::Sleep => return,
            CleanStep::Check(target) => folders.contains(&target.subfolder),
            CleanStep::ClearTemporary(target) => folders.remove(&target.subfolder_tmp),
            CleanStep::Rename(target) => {
                folders.insert(target.subfolder_tmp.clone());
                folders.remove(&target.subfolder)
            }
            CleanStep::Remove(target) => folders.remove(&target.subfolder_tmp),
        };
        step = next_clean_step(step, succeeded, !prefix);
    }
}

#[test]
fn a_round_removes_its_folder() {
    let all = ["0a/0b", "a/b", "0a/.tmp-0b", "00/ab", "0a/0c", "0a/.tmp-0c"];
    let mut folders: std::collections::BTreeSet<String> =
        all.iter().map(|folder| folder.to_string()).collect();
    clean_round(&mut folders, 0x0c0a);
    assert_eq!(folders.len(), 6);
    clean_round(&mut folders, 0x0a0b);
    let left: Vec<&str> = folders.iter().map(|folder| folder.as_str()).collect();
    assert_eq!(left, vec!["00/ab", "0a/.tmp-0c", "0a/0c", "a/b"]);
}

#[test]
fn blobs_in_a_directory() {
    let local = LocalDir::new("/data");
    let hash = hash_blob(b"abc");
    let put = local.put(Spooled::Whole { hash: hash.clone(), key: key() }).unwrap();
    assert_eq!((put.file.dir.as_str(), put.file.key.as_str()), ("/data", "ab/cdef"));
    assert_eq!(put.hash, hash);
    for file in [local.head(key()).unwrap(), local.get(key(), Some((1, 2))).unwrap()] {
        assert_eq!((file.dir, file.key), (put.file.dir.clone(), put.file.key.clone()));
    }
    assert_eq!(put_reply(put.hash, Ok(())), Ok(hash.clone()));
    let unnamed = local.put(Spooled::Whole { hash, key: bad_key() });
    assert_eq!(unnamed.err(), Some(Error::Internal("bad hash".to_string())));
    let unread = local.put(Spooled::Failed("broken pipe".to_string()));
    assert_eq!(unread.err(), Some(Error::Internal("broken pipe".to_string())));
}

#[test]
fn steps_of_the_cleaner() {
    let target = || clean_target(0x1234);
    let step = next_clean_step(CleanStep::Sleep, true, 0x1234);
    assert!(matches!(step, CleanStep::Check(t) if t.subfolder == "12/34"));
    let step = next_clean_step(CleanStep::Check(target()), false, 1);
    assert!(matches!(step, CleanStep::Sleep));
    let step = next_clean_step(CleanStep::Check(target()), true, 1);
    assert!(matches!(step, CleanStep::ClearTemporary(t) if t.subfolder == "12/34"));
    for succeeded in [false, true] {
        let step = next_clean_step(CleanStep::ClearTemporary(target()), succeeded, 1);
        assert!(matches!(step, CleanStep::Rename(t) if t.subfolder_tmp == "12/.tmp-34"));
        let step = next_clean_step(CleanStep::Remove(target()), succeeded, 1);
        assert!(matches!(step, CleanStep::Sleep));
    }
    let step = next_clean_step(CleanStep::Rename(target()), true, 1);
    assert!(matches!(step, CleanStep::Remove(t) if t.subfolder == "12/34"));
    let step = next_clean_step(CleanStep::Rename(target()), false, 1);
    assert!(matches!(step, CleanStep::Sleep));
}

#[test]
fn the_cleaner_takes_folders_at_random() {
    let mut seen = std::collections::HashSet::new();
    for _ in 0..100 {
        match clean_step(CleanStep::Sleep, true) {
            CleanStep::Check(target) => {
                let parts: Vec<&str> = target.subfolder.split('/').collect();
                assert_eq!(parts.len(), 2);
                assert!(u8::from_str_radix(parts[0], 16).is_ok());
                assert!(u8::from_str_radix(parts[1], 16).is_ok());
                seen.insert(target.subfolder);
            }
            _ => panic!("a folder is checked after a sleep"),
        }
    }
    assert!(seen.len() > 1);
}

#[test]
fn numbers() {
    assert_eq!(parse_number("0"), Some(0));
    assert_eq!(parse_number("+17"), Some(17));
    assert_eq!(parse_number("0017"), Some(17));
    assert_eq!(parse_number("18446744073709551615"), Some(u64::MAX));
    for text in ["", "+", "-1", " 1", "1 ", "1a", "++1", "18446744073709551616", "99999999999999999999999"] {
        assert_eq!(parse_number(text), None);
        assert!(text.parse::<u64>().is_err());
    }
}

#[test]
fn intervals_of_reports() {
    assert_eq!(stats_interval_ms(None, STATS_LOG_INTERVAL_MS), 30_000);
    assert_eq!(stats_interval_ms(None, STATS_EMIT_INTERVAL_MS), 5_000);
    assert_eq!(stats_interval_ms(Some("250"), STATS_EMIT_INTERVAL_MS), 250);
}

#[test]
fn reports() {
    let mut cached: Cached<u8> = Cached::new(4096);
    cached.state.populate_disk_cache(7);
    cached.state.start_request("h", 1, 0);
    cached.state.start_request("h", 2, 0);
    cached.state.start_request("h", 3, 0);
    let stats = cached.stats();
    assert_eq!(
        gauges(&stats),
        vec![
            ("cache.pending_requests", 3),
            ("cache.pending_disk_write_bytes", 7),
            ("cache.pending_disk_write_pages", 1),
        ]
    );
    assert_eq!(
        format!("{stats:?}"),
        "CacheStats { pending_disk_write_pages: 1, pending_disk_write_bytes: 7, \
         pending_requests: 3 }"
    );
}

#[test]
fn providers_on_the_command_line() {
    assert!(matches!(parse_provider("memory:"), Ok(ProviderSource::Memory)));
    assert!(matches!(parse_provider("memory:x"), Ok(ProviderSource::Memory)));
    assert!(matches!(parse_provider("s3:bucket"), Ok(ProviderSource::S3(b)) if b == "bucket"));
    assert!(
        matches!(parse_provider("localdir:/a:b"), Ok(ProviderSource::LocalDir(d)) if d == "/a:b")
    );
    match parse_provider("no\"colon") {
        Err(message) => assert_eq!(message, "source \"no\\\"colon\" has no ':' character"),
        Ok(_) => panic!("there is no colon"),
    }
    match parse_provider("ftp:host") {
        Err(message) => assert_eq!(message, "unknown provider type \"ftp\""),
        Ok(_) => panic!("there is no such type"),
    }
    assert!(parse_provider(":").is_err());
}

#[test]
fn where_the_server_listens() {
    let mut cli = Cli {
        source: "memory:".to_string(),
        fallback: None,
        cache: None,
        secret: "secret".to_string(),
        port: 7609,
        unix_socket: None,
        statsd: false,
    };
    assert!(matches!(cli.listen_on(), ListenOn::TcpPort(7609)));
    assert_eq!(cli.cache_pagesize(), None);
    cli.unix_socket = Some("/run/blobnet".to_string());
    cli.cache = Some("/var/cache/blobnet".to_string());
    assert!(matches!(cli.listen_on(), ListenOn::UnixSocket(path) if path == "/run/blobnet"));
    assert_eq!(cli.cache_pagesize(), Some(2 << 20));
}
