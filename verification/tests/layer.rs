use silverbullet::fs::layer::Filesystem;
use silverbullet::fs::memory::MemoryFs;
use silverbullet::fs::{Error, IncomingFileMeta, ReadOnlyFilesystem, Stream};

fn read_stream(stream: Stream) -> Vec<u8> {
    stream.collect().unwrap()
}

#[test]
fn get_returns_from_root_when_no_layers() {
    let fs = Filesystem::<MemoryFs, MemoryFs>::builder(
        MemoryFs::new().with_file("test.txt", b"root content"),
    )
    .build();

    let (stream, meta) = fs.get("test.txt").unwrap();
    let content = read_stream(stream);

    assert_eq!(meta.name, "test.txt");
    assert_eq!(content, b"root content");
}

#[test]
fn get_returns_from_layer_over_root() {
    let root = MemoryFs::new().with_file("test.txt", b"root content");
    let layer = MemoryFs::new().with_file("test.txt", b"layer content");

    let fs = Filesystem::builder(root).layer(layer).build();

    let (stream, _) = fs.get("test.txt").unwrap();
    let content = read_stream(stream);

    assert_eq!(content, b"layer content");
}

#[test]
fn get_last_layer_has_highest_priority() {
    let root = MemoryFs::new().with_file("test.txt", b"root");
    let layer1 = MemoryFs::new().with_file("test.txt", b"layer1");
    let layer2 = MemoryFs::new().with_file("test.txt", b"layer2");

    let fs = Filesystem::builder(root).layer(layer1).layer(layer2).build();

    let (stream, _) = fs.get("test.txt").unwrap();
    let content = read_stream(stream);

    assert_eq!(content, b"layer2");
}

#[test]
fn get_falls_through_to_root_when_not_in_layer() {
    let root = MemoryFs::new().with_file("root-only.txt", b"root content");
    let layer = MemoryFs::new().with_file("layer-only.txt", b"layer content");

    let fs = Filesystem::builder(root).layer(layer).build();

    let (stream, _) = fs.get("root-only.txt").unwrap();
    assert_eq!(read_stream(stream), b"root content");

    let (stream, _) = fs.get("layer-only.txt").unwrap();
    assert_eq!(read_stream(stream), b"layer content");
}

#[test]
fn list_merges_files_from_all_sources() {
    let root = MemoryFs::new().with_file("a.txt", b"");
    let layer = MemoryFs::new().with_file("b.txt", b"");

    let fs = Filesystem::builder(root).layer(layer).build();

    let files = fs.list().unwrap();
    let names: Vec<_> = files.iter().map(|f| f.name.as_str()).collect();

    assert_eq!(names, vec!["a.txt", "b.txt"]);
}

#[test]
fn list_returns_sorted_results() {
    let root = MemoryFs::new()
        .with_file("zebra.txt", b"")
        .with_file("alpha.txt", b"")
        .with_file("mango.txt", b"");

    let fs = Filesystem::<MemoryFs, MemoryFs>::builder(root).build();

    let files = fs.list().unwrap();
    let names: Vec<_> = files.iter().map(|f| f.name.as_str()).collect();

    assert_eq!(names, vec!["alpha.txt", "mango.txt", "zebra.txt"]);
}

#[test]
fn list_layer_file_shadows_root_file() {
    let root = MemoryFs::new().with_file("test.txt", b"small");
    let layer = MemoryFs::new().with_file("test.txt", b"much larger content");

    let fs = Filesystem::builder(root).layer(layer).build();

    let files = fs.list().unwrap();

    assert_eq!(files.len(), 1);
    assert_eq!(files[0].size, 19); // layer's size
}

#[test]
fn write_goes_to_root() {
    let root = MemoryFs::new();
    let layer = MemoryFs::new();

    let mut fs = Filesystem::builder(root).layer(layer).build();

    let data = Stream::from_bytes(b"new content".to_vec());
    fs.put("new.txt", data, IncomingFileMeta::default()).unwrap();

    // Should be readable (from root)
    let (stream, _) = fs.get("new.txt").unwrap();
    assert_eq!(read_stream(stream), b"new content");
}

#[test]
fn delete_removes_from_root() {
    let root = MemoryFs::new().with_file("test.txt", b"content");
    let mut fs = Filesystem::<MemoryFs, MemoryFs>::builder(root).build();

    fs.delete("test.txt").unwrap();

    assert!(fs.get("test.txt").is_err());
}

#[test]
fn delete_does_not_affect_layer_file() {
    let root = MemoryFs::new().with_file("test.txt", b"root");
    let layer = MemoryFs::new().with_file("test.txt", b"layer");

    let mut fs = Filesystem::builder(root).layer(layer).build();

    // Delete from root - layer file should still be visible
    fs.delete("test.txt").unwrap();

    let (stream, _) = fs.get("test.txt").unwrap();
    assert_eq!(read_stream(stream), b"layer");
}

#[test]
fn scenario_shadowed_then_removed() {
    let root = MemoryFs::new().with_file("test.txt", b"root content");
    let layer = MemoryFs::new().with_file("test.txt", b"layer content");
    let fs = Filesystem::builder(root).layer(layer).build();

    let (stream, _) = fs.get("test.txt").unwrap();
    assert_eq!(read_stream(stream), b"layer content");

    // The same composition with the layer's entry gone.
    let root = MemoryFs::new().with_file("test.txt", b"root content");
    let fs = Filesystem::builder(root).layer(MemoryFs::new()).build();

    let (stream, _) = fs.get("test.txt").unwrap();
    assert_eq!(read_stream(stream), b"root content");
}

#[test]
fn scenario_union_of_two_layers() {
    let root = MemoryFs::new();
    let l1 = MemoryFs::new().with_file("a.txt", b"x");
    let l2 = MemoryFs::new().with_file("b.txt", b"y");

    let fs = Filesystem::builder(root).layer(l1).layer(l2).build();

    let files = fs.list().unwrap();
    assert_eq!(files.len(), 2);
    let names: Vec<_> = files.iter().map(|f| f.name.as_str()).collect();
    assert!(names.contains(&"a.txt"));
    assert!(names.contains(&"b.txt"));
}

#[test]
fn scenario_missing_path_is_not_found() {
    let fs = Filesystem::<MemoryFs, MemoryFs>::builder(MemoryFs::new()).build();
    let result = fs.get("missing.txt");
    assert!(matches!(result, Err(Error::NotFound(_))));
}

#[test]
fn put_then_get_roundtrip() {
    let mut fs = Filesystem::<MemoryFs, MemoryFs>::builder(MemoryFs::new()).build();

    let bytes = b"exact bytes written".to_vec();
    let meta = fs
        .put("file.bin", Stream::from_bytes(bytes.clone()), IncomingFileMeta::default())
        .unwrap();
    assert_eq!(meta.size, bytes.len() as u64);

    let (stream, got_meta) = fs.get("file.bin").unwrap();
    assert_eq!(got_meta.size, bytes.len() as u64);
    assert_eq!(read_stream(stream), bytes);
}

#[test]
fn shadowed_write_still_succeeds_but_stays_invisible() {
    let root = MemoryFs::new().with_file("test.txt", b"old root");
    let layer = MemoryFs::new().with_file("test.txt", b"layer wins");
    let mut fs = Filesystem::builder(root).layer(layer).build();

    let put_result = fs.put(
        "test.txt",
        Stream::from_bytes(b"new root".to_vec()),
        IncomingFileMeta::default(),
    );
    assert!(put_result.is_ok());

    let (stream, _) = fs.get("test.txt").unwrap();
    assert_eq!(read_stream(stream), b"layer wins");
}

#[test]
fn a_composition_can_serve_as_a_layer() {
    let inner = Filesystem::builder(MemoryFs::new().with_file("inner.txt", b"deep"))
        .layer(MemoryFs::new().with_file("shade.txt", b"inner layer"))
        .build();
    let fs = Filesystem::builder(MemoryFs::new().with_file("root.txt", b"top root"))
        .layer(inner)
        .build();

    let (stream, _) = fs.get("inner.txt").unwrap();
    assert_eq!(read_stream(stream), b"deep");
    let (stream, _) = fs.get("shade.txt").unwrap();
    assert_eq!(read_stream(stream), b"inner layer");
    let (stream, _) = fs.get("root.txt").unwrap();
    assert_eq!(read_stream(stream), b"top root");

    let files = fs.list().unwrap();
    assert_eq!(files.len(), 3);
}

#[test]
fn meta_follows_same_precedence_as_get() {
    let root = MemoryFs::new().with_file("test.txt", b"root!");
    let layer = MemoryFs::new().with_file("test.txt", b"layer contents");
    let fs = Filesystem::builder(root).layer(layer).build();

    let meta = fs.meta("test.txt").unwrap();
    assert_eq!(meta.size, 14);

    let missing = fs.meta("other.txt");
    assert!(matches!(missing, Err(Error::NotFound(_))));
}
