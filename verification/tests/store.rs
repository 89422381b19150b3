use qbuild::image::reference::ImageReference;
use qbuild::image::store::{
    blobs_intact, can_be_stored, ContentStore, FileChange, FileRead, FileTime, FoundFile,
    ImageError, ImageStore,
};
use std::collections::BTreeMap;

/// The files of a test, by path.
struct Files(BTreeMap<String, Vec<u8>>);

impl Files {
    fn new() -> Self {
        Files(BTreeMap::new())
    }

    fn read(&self, path: &str) -> FileRead {
        match self.0.get(path) {
            Some(data) => FileRead::Content(data.clone()),
            None => FileRead::Missing,
        }
    }

    fn store(&mut self, store: &ContentStore, data: &[u8]) -> Result<String, ImageError> {
        let existing = self.read(&store.blob_path(&store.compute_digest(data)));
        let plan = store.plan_blob(data, &existing);
        if let Some(write) = &plan.write {
            if write.remove_existing {
                self.0.remove(&plan.path);
            }
            self.0.insert(write.temporary.clone(), data.to_vec());
            let content = self.0.remove(&write.temporary).unwrap();
            self.0.insert(plan.path.clone(), content);
        }
        store.store_blob(data, &existing, Ok(()))
    }

    fn get(&self, store: &ContentStore, digest: &str) -> Result<Vec<u8>, ImageError> {
        store.get_blob(digest, self.read(&store.blob_path(digest)))
    }

    fn has(&self, store: &ContentStore, digest: &str) -> bool {
        store.has_blob(digest, &self.read(&store.blob_path(digest)))
    }

    fn found(&self, base: &str) -> Vec<FoundFile> {
        self.0
            .iter()
            .map(|(path, data)| FoundFile {
                path: path.clone(),
                relative: path.strip_prefix(base).unwrap().trim_start_matches('/').to_string(),
                size_bytes: data.len() as u64,
                modified_at: FileTime { seconds: 5, nanoseconds: 250 },
            })
            .collect()
    }
}

#[test]
fn test_content_store() {
    let mut files = Files::new();
    let store = ContentStore::new("/store");

    let data = b"hello world";
    let digest = files.store(&store, data).unwrap();

    assert!(files.has(&store, &digest));
    assert_eq!(files.get(&store, &digest).unwrap(), data);

    let computed = store.compute_digest(data);
    assert_eq!(digest, computed);
}

#[test]
fn test_blob_deduplication() {
    let mut files = Files::new();
    let store = ContentStore::new("/store");

    let data = b"duplicate data";

    let digest1 = files.store(&store, data).unwrap();
    let digest2 = files.store(&store, data).unwrap();

    assert_eq!(digest1, digest2);

    assert_eq!(files.get(&store, &digest1).unwrap(), data);
    assert_eq!(files.0.len(), 1);
}

#[test]
fn test_store_blob_repairs_corrupt_existing_file() {
    let mut files = Files::new();
    let store = ContentStore::new("/store");

    let data = b"repair me";
    let digest = store.compute_digest(data);
    let path = store.blob_path(&digest);
    files.0.insert(path, b"".to_vec());

    let stored = files.store(&store, data).unwrap();
    assert_eq!(stored, digest);
    assert_eq!(files.get(&store, &digest).unwrap(), data);
}

#[test]
fn test_blob_path_distribution() {
    let store = ContentStore::new("/store");

    let path = store.blob_path("sha256:abc123def456");
    assert!(path.contains("sha256"));
    assert!(path.contains("ab"));
    assert_eq!(path, "/store/sha256/ab/abc123def456");
}

#[test]
fn test_list_blobs_reports_stored_digest() {
    let mut files = Files::new();
    let store = ContentStore::new("/store");

    let digest = files.store(&store, b"blob inventory").unwrap();
    let blobs = store.list_blobs(&files.found("/store"));

    assert_eq!(blobs.len(), 1);
    assert_eq!(blobs[0].digest, digest);
    assert!(blobs[0].size_bytes > 0);
    assert_eq!(blobs[0].size_bytes, 14);
    assert_eq!(blobs[0].modified_at, FileTime { seconds: 5, nanoseconds: 250 });
    assert_eq!(blobs[0].path, store.blob_path(&digest));
}

#[test]
fn digests_are_sha256() {
    let store = ContentStore::new("/store");
    assert_eq!(
        store.compute_digest(b"abc"),
        "sha256:ba7816bf8f01cfea414140de5dae2223b00361a396177a9cb410ff61f20015ad"
    );
    assert_eq!(store.root_directory(), "/store/sha256");
    assert_eq!(store.base_path(), "/store");
}

#[test]
fn blob_paths_follow_the_digest() {
    let store = ContentStore::new("/store/");
    assert_eq!(store.blob_path("md5:x"), "/store/md5/x/x");
    assert_eq!(store.blob_path("abcdef"), "/store/sha256/ab/abcdef");
    assert_eq!(store.blob_path("sha256:a:b"), "/store/sha256/a:/a:b");
    assert!(can_be_stored("sha256:abc"));
    assert!(can_be_stored("a:"));
    assert!(can_be_stored("sha256:\u{e9}x"));
    assert!(!can_be_stored("sha256:a\u{e9}x"));
}

#[test]
fn missing_and_spoilt_blobs_are_told_apart() {
    let mut files = Files::new();
    let store = ContentStore::new("/store");
    let digest = files.store(&store, b"good").unwrap();
    let path = store.blob_path(&digest);
    files.0.insert(path.clone(), b"bad".to_vec());
    let actual = store.compute_digest(b"bad");
    assert!(matches!(
        files.get(&store, &digest),
        Err(ImageError::ContentVerificationError { expected, actual: found })
            if expected == digest && found == actual
    ));
    files.0.remove(&path);
    assert!(matches!(
        files.get(&store, &digest),
        Err(ImageError::BlobNotFound(missing)) if missing == digest
    ));
    assert!(!files.has(&store, &digest));
    assert!(matches!(
        store.get_blob(&digest, FileRead::Unreadable("denied".to_string())),
        Err(ImageError::Io(message)) if message == "denied"
    ));
    files.store(&store, b"good").unwrap();
    assert!(files.has(&store, &digest));
    store.delete_blob(&digest, Ok(())).unwrap();
    files.0.remove(&path);
    assert!(!files.has(&store, &digest));
}

#[test]
fn failed_changes_are_told() {
    let store = ContentStore::new("/store");
    let failed: FileChange = Err("full".to_string());
    assert!(matches!(
        store.store_blob(b"x", &FileRead::Missing, failed),
        Err(ImageError::Io(message)) if message == "full"
    ));
    let digest = store.compute_digest(b"x");
    assert!(!store.has_blob(&digest, &FileRead::Missing));
    let kept = store
        .store_blob(b"x", &FileRead::Content(b"x".to_vec()), Err("unused".to_string()))
        .unwrap();
    assert_eq!(kept, digest);
    assert!(matches!(
        store.delete_blob(&digest, Err("busy".to_string())),
        Err(ImageError::Io(message)) if message == "busy"
    ));
    assert!(store.has_blob(&digest, &FileRead::Content(b"x".to_vec())));
    assert!(!store.has_blob(&digest, &FileRead::Missing));
    assert!(!store.has_blob(&digest, &FileRead::Content(b"y".to_vec())));
    assert!(!store.has_blob(&digest, &FileRead::Unreadable("no".to_string())));
}

#[test]
fn writes_are_planned() {
    let store = ContentStore::new("/store");
    let digest = store.compute_digest(b"x");
    let plan = store.plan_blob(b"x", &FileRead::Missing);
    assert_eq!(plan.digest, digest);
    assert_eq!(plan.path, store.blob_path(&digest));
    let write = plan.write.unwrap();
    assert!(!write.remove_existing);
    assert_eq!(write.directory.as_deref(), Some("/store/sha256/2d"));
    assert_eq!(write.temporary, format!("{}.tmp", store.blob_path(&digest)));
    let spoilt = store.plan_blob(b"x", &FileRead::Content(b"y".to_vec()));
    assert!(spoilt.write.unwrap().remove_existing);
    let unreadable = store.plan_blob(b"x", &FileRead::Unreadable("no".to_string()));
    assert!(unreadable.write.unwrap().remove_existing);
    assert!(store
        .plan_blob(b"x", &FileRead::Content(b"x".to_vec()))
        .write
        .is_none());
}

#[test]
fn storing_leaves_other_content_alone() {
    let mut files = Files::new();
    let store = ContentStore::new("/store");
    let one = files.store(&store, b"one").unwrap();
    let two = files.store(&store, b"two").unwrap();
    assert_ne!(one, two);
    assert_eq!(files.get(&store, &one).unwrap(), b"one");
    assert_eq!(files.get(&store, &two).unwrap(), b"two");
}

#[test]
fn intact_blobs_match_their_digests() {
    let store = ContentStore::new("/store");
    let good = (store.compute_digest(b"x"), FileRead::Content(b"x".to_vec()));
    assert!(blobs_intact(&vec![good]));
    let bad = (store.compute_digest(b"x"), FileRead::Content(b"y".to_vec()));
    assert!(!blobs_intact(&vec![bad]));
    let missing = (store.compute_digest(b"x"), FileRead::Missing);
    assert!(!blobs_intact(&vec![missing]));
}

#[test]
fn only_blob_shaped_paths_are_listed() {
    let store = ContentStore::new("/s");
    let file = |relative: &str| FoundFile {
        path: format!("/s/{}", relative),
        relative: relative.to_string(),
        size_bytes: 1,
        modified_at: FileTime { seconds: 0, nanoseconds: 0 },
    };
    let blobs = store.list_blobs(&vec![
        file("stray"),
        file("sha256/ab"),
        file("sha256/ab/abc"),
        file("sha256/ab/abc/d"),
        file("md5/xx/y"),
    ]);
    let digests: Vec<&str> = blobs.iter().map(|blob| blob.digest.as_str()).collect();
    assert_eq!(digests, vec!["sha256:abc", "md5:y"]);
}

#[test]
fn references_are_parsed() {
    let plain = ImageReference::parse("alpine").unwrap();
    assert_eq!(plain.registry, "docker.io");
    assert_eq!(plain.repository, "library/alpine");
    assert_eq!(plain.tag, "latest");
    assert_eq!(plain.to_text(), "docker.io/library/alpine:latest");
    assert_eq!(plain.api_endpoint(), "https://registry-1.docker.io");
    let full = ImageReference::parse("localhost:5000/a/b:v1@sha256:x").unwrap();
    assert_eq!(full.registry, "localhost:5000");
    assert_eq!(full.repository, "a/b");
    assert_eq!(full.tag, "v1");
    assert_eq!(full.digest.as_deref(), Some("sha256:x"));
    assert_eq!(full.to_text(), "localhost:5000/a/b@sha256:x");
    assert_eq!(full.api_reference(), "sha256:x");
    assert_eq!(full.api_endpoint(), "https://localhost:5000");
    assert_eq!(plain.with_digest("sha256:y").api_reference(), "sha256:y");
    assert_eq!(plain.api_reference(), "latest");
    assert_eq!(
        ImageReference::parse(":x").unwrap_err(),
        "Image reference ':x' has no repository"
    );
    assert_eq!(
        ImageReference::parse("ghcr.io/acme/app:v1:2").unwrap_err(),
        "Image reference 'ghcr.io/acme/app:v1:2' has an invalid tag"
    );
}

#[test]
fn references_are_stored_and_listed() {
    let store = ImageStore::new("/images");
    assert_eq!(store.metadata_path(), "/images/metadata");
    assert_eq!(store.content().base_path(), "/images/blobs");
    let reference = ImageReference::parse("ghcr.io/me/app:v1").unwrap();
    let write = store.store_image_ref(&reference, "sha256:m");
    assert_eq!(write.metadata, "/images/metadata");
    assert_eq!(write.directory.as_deref(), Some("/images/metadata/ghcr.io/me/app"));
    assert_eq!(write.path, "/images/metadata/ghcr.io/me/app/v1");
    assert_eq!(write.path, store.ref_path(&reference));
    assert_eq!(write.content, "sha256:m");
    let other = ImageReference::parse("ghcr.io/me/app:v2").unwrap();
    assert_ne!(store.ref_path(&other), write.path);
    let pinned = reference.with_digest("sha256:d");
    assert_eq!(store.ref_path(&pinned), "/images/metadata/ghcr.io/me/app/sha256_d");
    assert_eq!(
        store.resolve_image_ref(Ok(Some(" sha256:m\n".to_string()))).unwrap(),
        Some("sha256:m".to_string())
    );
    assert_eq!(store.resolve_image_ref(Ok(None)).unwrap(), None);
    assert!(matches!(
        store.resolve_image_ref(Err("denied".to_string())),
        Err(ImageError::Io(message)) if message == "denied"
    ));
    let hash = "0123456789abcdef".repeat(4);
    let listed = store.list_image_refs(&vec![
        ("z.io/a/v1_2".to_string(), "sha256:z ".to_string()),
        ("ghcr.io/me/app/v1".to_string(), "sha256:m\n".to_string()),
        (format!("ghcr.io/me/app/sha256_{}", hash), "sha256:p".to_string()),
        ("z.io/a/sha256_12".to_string(), "sha256:s".to_string()),
        (format!("z.io/b/sha512_{0}{0}", hash), "sha256:q".to_string()),
        (format!("z.io/b/sha512_{}", hash), "sha256:t".to_string()),
        (format!("z.io/b/build_{}", hash), "sha256:u".to_string()),
        ("short/one".to_string(), "x".to_string()),
    ]);
    assert_eq!(
        listed,
        vec![
            ("ghcr.io/me/app:v1".to_string(), "sha256:m".to_string()),
            (format!("ghcr.io/me/app@sha256:{}", hash), "sha256:p".to_string()),
            ("z.io/a:sha256_12".to_string(), "sha256:s".to_string()),
            ("z.io/a:v1_2".to_string(), "sha256:z".to_string()),
            (format!("z.io/b:build_{}", hash), "sha256:u".to_string()),
            (format!("z.io/b:sha512_{}", hash), "sha256:t".to_string()),
            (format!("z.io/b@sha512:{0}{0}", hash), "sha256:q".to_string()),
        ]
    );
    assert!(store.list_image_refs(&Vec::new()).is_empty());
    let digest = store.store_blob(b"x", &FileRead::Missing, Ok(())).unwrap();
    assert_eq!(
        store.get_blob(&digest, FileRead::Content(b"x".to_vec())).unwrap(),
        b"x"
    );
}
