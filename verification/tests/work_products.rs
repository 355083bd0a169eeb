use artifact_cache::digest::blake3_hex;
use artifact_cache::work_product::can_reuse_sld_cgu_object_digest;
use artifact_cache::work_product::copy_cgu_workproduct_to_incr_comp_cache_dir;
use artifact_cache::work_product::delete_workproduct_files;
use artifact_cache::work_product::read_sld_cgu_object_digest;
use artifact_cache::work_product::read_sld_cgu_object_digest_file;
use artifact_cache::work_product::removes_digest;
use artifact_cache::work_product::saved_digest_path;
use artifact_cache::work_product::sld_cgu_object_digest_action;
use artifact_cache::work_product::sld_cgu_object_digest_path;
use artifact_cache::work_product::temporary_digest_path;
use artifact_cache::work_product::write_sld_cgu_object_digest;
use artifact_cache::work_product::DigestAction;
use artifact_cache::work_product::DigestFile;
use artifact_cache::work_product::WorkFile;

#[test]
fn sld_cgu_object_digest_reuse_requires_tracked_token() {
    assert!(can_reuse_sld_cgu_object_digest(true, Some("digest"), Some("digest")));
    assert!(!can_reuse_sld_cgu_object_digest(false, Some("digest"), Some("digest")));
    assert!(!can_reuse_sld_cgu_object_digest(true, None, None));
    assert!(!can_reuse_sld_cgu_object_digest(true, Some("digest"), None));
    assert!(!can_reuse_sld_cgu_object_digest(true, None, Some("digest")));
    assert!(!can_reuse_sld_cgu_object_digest(true, Some("old"), Some("new")));
}

#[test]
fn written_digests_are_read_back() {
    let text = write_sld_cgu_object_digest(b"object");
    assert_eq!(text, format!("{}\n", blake3_hex(b"object")));
    assert_eq!(
        read_sld_cgu_object_digest_file(&Some(text)),
        Some(blake3_hex(b"object"))
    );
    assert_eq!(read_sld_cgu_object_digest_file(&Some("x".repeat(64))), None);
    assert_eq!(read_sld_cgu_object_digest_file(&None), None);
}

#[test]
fn digests_stand_beside_their_objects() {
    assert_eq!(
        sld_cgu_object_digest_path(b"/incr/s/cgu.0.o", "cgu.0"),
        b"/incr/s/cgu.0.sld-blake3-o".to_vec()
    );
    assert_eq!(
        temporary_digest_path(b"/incr/s/cgu.0.sld-blake3-o", "77"),
        b"/incr/s/cgu.0.tmp-77".to_vec()
    );
}

#[test]
fn digests_are_written_only_where_they_are_wanted() {
    let digest = blake3_hex(b"object");
    let one = Some(b"1".to_vec());
    assert_eq!(
        sld_cgu_object_digest_action(&None, true, &Some(digest.clone()), &Some(digest.clone())),
        DigestAction::Remove
    );
    assert_eq!(
        sld_cgu_object_digest_action(&one, true, &Some(digest.clone()), &Some(digest.clone())),
        DigestAction::Keep
    );
    assert_eq!(
        sld_cgu_object_digest_action(&one, false, &Some(digest.clone()), &Some(digest)),
        DigestAction::Write
    );
    assert!(removes_digest(DigestAction::Write, false));
    assert!(!removes_digest(DigestAction::Write, true));
}

fn work_file(extension: &str, copied: bool, after: Option<String>) -> WorkFile {
    WorkFile {
        extension: extension.to_owned(),
        copied,
        digest: DigestFile {
            before: None,
            written: true,
            after,
        },
    }
}

#[test]
fn saved_files_are_listed_with_their_digest() {
    let digest = blake3_hex(b"object");
    let files = vec![
        work_file("o", true, Some(format!("{digest}\n"))),
        work_file("dwo", false, None),
    ];
    let work = copy_cgu_workproduct_to_incr_comp_cache_dir(
        &Some(b"/incr".to_vec()),
        "cgu",
        &Some(b"1".to_vec()),
        &files,
        &Vec::new(),
        &None,
    )
    .unwrap();
    assert_eq!(work.object_digest, Some(digest.clone()));
    assert_eq!(work.failed, vec![1]);
    let mut saved: Vec<(String, String)> = work
        .work_product
        .saved_files
        .iter()
        .map(|file| (file.id.clone(), file.name.clone()))
        .collect();
    saved.sort();
    assert_eq!(
        saved,
        vec![
            ("o".to_owned(), "cgu.o".to_owned()),
            ("sld-blake3-o".to_owned(), "cgu.sld-blake3-o".to_owned()),
        ]
    );
    assert_eq!(
        saved_digest_path(b"/incr/cgu.o", &work.work_product),
        Some(b"/incr/cgu.sld-blake3-o".to_vec())
    );
    assert_eq!(
        read_sld_cgu_object_digest(&work.work_product, &Some(digest.clone())),
        Some(digest)
    );
    let paths: Vec<Vec<u8>> = delete_workproduct_files(b"/incr", &work.work_product)
        .into_iter()
        .map(|saved| saved.path)
        .collect();
    assert_eq!(
        paths,
        vec![b"/incr/cgu.o".to_vec(), b"/incr/cgu.sld-blake3-o".to_vec()]
    );
    assert!(copy_cgu_workproduct_to_incr_comp_cache_dir(
        &None,
        "cgu",
        &None,
        &files,
        &Vec::new(),
        &None
    )
    .is_none());
}
