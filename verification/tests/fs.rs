use silverbullet::client::{Config, TracingLogger};
use silverbullet::fs::memory::MemoryFs;
use silverbullet::fs::normalize::{
    embedded_file_meta, resolve_content_type, resolve_timestamp, storage_file_meta,
};
use silverbullet::fs::{
    Chunk, Error, IncomingFileMeta, ReadOnlyFilesystem, Stream, WritableFilesystem,
};
use silverbullet::shell::{Handler, NoShell, Request, Shell};

#[test]
fn collect_returns_all_chunks_in_order() {
    let chunks = vec![
        Chunk::Data(b"ab".to_vec()),
        Chunk::Data(b"".to_vec()),
        Chunk::Data(b"cde".to_vec()),
    ];
    let stream = Stream::from_chunks(chunks);
    assert_eq!(stream.collect().unwrap(), b"abcde");
}

#[test]
fn empty_stream_collects_to_nothing() {
    let stream = Stream::empty();
    assert_eq!(stream.collect().unwrap(), b"");

    let mut fs = MemoryFs::new();
    let meta = fs.put("zero.bin", Stream::empty(), IncomingFileMeta::default()).unwrap();
    assert_eq!(meta.size, 0);
}

#[test]
fn collect_reports_failure_as_io_error() {
    let chunks = vec![
        Chunk::Data(b"ab".to_vec()),
        Chunk::Failure("connection reset".to_string()),
        Chunk::Data(b"cd".to_vec()),
    ];
    let stream = Stream::from_chunks(chunks);
    assert!(matches!(stream.collect(), Err(Error::Io(_))));
}

#[test]
fn failed_put_leaves_previous_entry_intact() {
    let mut fs = MemoryFs::new();
    fs.put("f.txt", Stream::from_bytes(b"version one".to_vec()), IncomingFileMeta::default())
        .unwrap();

    let broken = Stream::from_chunks(vec![
        Chunk::Data(b"version tw".to_vec()),
        Chunk::Failure("disk gone".to_string()),
    ]);
    let result = fs.put("f.txt", broken, IncomingFileMeta::default());
    assert!(matches!(result, Err(Error::Io(_))));

    let (stream, meta) = fs.get("f.txt").unwrap();
    assert_eq!(stream.collect().unwrap(), b"version one");
    assert_eq!(meta.size, 11);
}

#[test]
fn memory_fs_put_applies_defaults_and_overrides() {
    let mut fs = MemoryFs::new();

    let meta = fs
        .put("a.txt", Stream::from_bytes(b"abc".to_vec()), IncomingFileMeta::default())
        .unwrap();
    assert_eq!(meta.name, "a.txt");
    assert_eq!(meta.perm, "rw");
    assert_eq!(meta.content_type, "text/plain");
    assert_eq!(meta.created, 0);
    assert_eq!(meta.size, 3);

    let wanted = IncomingFileMeta {
        created: Some(1234567890),
        perm: Some("ro".to_string()),
        content_type: Some("text/markdown".to_string()),
        last_modified: Some(99),
        size: None,
    };
    let meta = fs.put("b.md", Stream::from_bytes(b"# hi".to_vec()), wanted).unwrap();
    assert_eq!(meta.created, 1234567890);
    assert_eq!(meta.perm, "ro");
    assert_eq!(meta.content_type, "text/markdown");
    assert_eq!(meta.last_modified, 99);
    assert_eq!(meta.size, 4);
}

#[test]
fn memory_fs_put_overwrites_existing() {
    let mut fs = MemoryFs::new();
    fs.put("t.txt", Stream::from_bytes(b"first".to_vec()), IncomingFileMeta::default())
        .unwrap();
    fs.put("t.txt", Stream::from_bytes(b"second".to_vec()), IncomingFileMeta::default())
        .unwrap();

    let files = fs.list().unwrap();
    assert_eq!(files.len(), 1);

    let (stream, meta) = fs.get("t.txt").unwrap();
    assert_eq!(meta.size, 6);
    assert_eq!(stream.collect().unwrap(), b"second");
}

#[test]
fn memory_fs_delete_missing_is_not_found() {
    let mut fs = MemoryFs::new();
    assert!(matches!(fs.delete("nope.txt"), Err(Error::NotFound(_))));
}

#[test]
fn memory_fs_meta_missing_is_not_found() {
    let fs = MemoryFs::new();
    assert!(matches!(fs.meta("nope.txt"), Err(Error::NotFound(_))));
    assert!(matches!(fs.get("nope.txt"), Err(Error::NotFound(_))));
}

#[test]
fn storage_meta_guesses_content_type_from_path() {
    let meta = storage_file_meta("notes/readme.txt", Some(5), None, Some(6), 42);
    assert_eq!(meta.name, "notes/readme.txt");
    assert_eq!(meta.perm, "rw");
    assert_eq!(meta.content_type, "text/plain");
    assert_eq!(meta.created, 5);
    assert_eq!(meta.last_modified, 6);
    assert_eq!(meta.size, 42);
}

#[test]
fn storage_meta_prefers_explicit_content_type() {
    let meta = storage_file_meta("a.txt", None, Some("text/markdown".to_string()), None, 1);
    assert_eq!(meta.content_type, "text/markdown");
}

#[test]
fn content_type_defaults_to_binary_for_unknown_extension() {
    let ct = resolve_content_type("mystery.zzqqx", None);
    assert_eq!(ct, "application/octet-stream");
}

#[test]
fn timestamp_fallback_keeps_explicit_value() {
    assert_eq!(resolve_timestamp(Some(77)), 77);
}

#[test]
fn embedded_meta_scales_seconds_to_milliseconds() {
    let meta = embedded_file_meta("logo.png", Some(5), Some(7), "image/png".to_string(), 10);
    assert_eq!(meta.name, "logo.png");
    assert_eq!(meta.perm, "ro");
    assert_eq!(meta.content_type, "image/png");
    assert_eq!(meta.created, 5000);
    assert_eq!(meta.last_modified, 7000);
    assert_eq!(meta.size, 10);
}

#[test]
fn no_shell_reports_not_supported() {
    let shell = NoShell::default();
    let request = Request { cmd: "ls".to_string(), args: Vec::new(), stdin: None };
    let response = shell.exec(request).unwrap();
    assert_eq!(response.code, 1);
    assert_eq!(response.stdout, "");
    assert_eq!(response.stderr, "Not supported");

    let request = Request { cmd: "ls".to_string(), args: Vec::new(), stdin: None };
    let response = shell.handle(request).unwrap();
    assert_eq!(response.code, 1);
    assert_eq!(response.stderr, "Not supported");
}

#[test]
fn client_config_holds_its_fields() {
    let config = Config {
        space_folder_path: "/".to_string(),
        index_page: "index".to_string(),
        read_only: false,
        log_push: false,
        enable_client_encryption: false,
    };
    assert_eq!(config.space_folder_path, "/");
    assert!(!config.read_only);
    let _logger = TracingLogger::new();
}

#[test]
fn incoming_meta_default_overrides_nothing() {
    let meta = IncomingFileMeta::default();
    assert!(meta.created.is_none());
    assert!(meta.perm.is_none());
    assert!(meta.content_type.is_none());
    assert!(meta.last_modified.is_none());
    assert!(meta.size.is_none());
}
