use artifact_cache::rmeta_link::decode_raw_object_digests;
use artifact_cache::rmeta_link::encode_raw_object_digests;
use artifact_cache::rmeta_link::link_content_digest;
use artifact_cache::rmeta_link::link_object;
use artifact_cache::rmeta_link::lists_object_files;
use artifact_cache::rmeta_link::read_from_data;
use artifact_cache::rmeta_link::read_listed_from_data;
use artifact_cache::rmeta_link::RawObjectDigest;
use artifact_cache::rmeta_link::RmetaLink;

const RAW_OBJECT_DIGESTS_PREFIX: &[u8] = b"rustc-rlib-raw-object-digests-v1:";

/// One object file, as a list of texts.
fn legacy_list(name: &str) -> Vec<u8> {
    let mut data = vec![1, name.len() as u8];
    data.extend_from_slice(name.as_bytes());
    data.push(0xc1);
    data
}

#[test]
fn rmeta_link_decodes_legacy_metadata_without_link_content_digest() {
    let mut data = legacy_list("crate.cgu.rcgu.o");
    data.extend_from_slice(b"rust-end-file");
    assert!(lists_object_files(&data));

    let decoded = RmetaLink::decode(&data).unwrap();

    assert_eq!(decoded.rust_object_files, vec!["crate.cgu.rcgu.o"]);
    assert_eq!(decoded.raw_object_digests, None);
    assert_eq!(decoded.link_content_digest, None);
}

#[test]
fn rmeta_link_round_trips_link_content_digest() {
    let digest = link_content_digest(&vec![
        ("crate.cgu.1", "a".repeat(64).as_str()),
        ("crate.cgu.0", "b".repeat(64).as_str()),
    ])
    .unwrap();
    let metadata = RmetaLink {
        rust_object_files: vec!["crate.cgu.rcgu.o".to_owned()],
        raw_object_digests: None,
        link_content_digest: Some(digest.clone()),
    };

    let decoded = RmetaLink::decode(&metadata.encode()).unwrap();

    assert_eq!(decoded.rust_object_files, metadata.rust_object_files);
    assert_eq!(decoded.raw_object_digests, None);
    assert_eq!(decoded.link_content_digest, Some(digest));
}

fn two_objects() -> Vec<RawObjectDigest> {
    vec![
        RawObjectDigest {
            member_name: "crate.cgu.0.123.rcgu.o".to_owned(),
            digest: "a".repeat(64),
        },
        RawObjectDigest {
            member_name: "crate.cgu.1.456.rcgu.o".to_owned(),
            digest: "b".repeat(64),
        },
    ]
}

#[test]
fn rmeta_link_round_trips_raw_object_digests_before_link_content_digest() {
    let link_content_digest = "c".repeat(64);
    let raw_object_digests = two_objects();
    let metadata = RmetaLink {
        rust_object_files: raw_object_digests
            .iter()
            .map(|object| object.member_name.clone())
            .collect(),
        raw_object_digests: Some(raw_object_digests.clone()),
        link_content_digest: Some(link_content_digest.clone()),
    };

    let encoded = metadata.encode();
    let decoded = RmetaLink::decode(&encoded).expect("metadata should decode");

    assert_eq!(decoded.raw_object_digests, Some(raw_object_digests));
    assert_eq!(decoded.link_content_digest, Some(link_content_digest));
}

#[test]
fn rmeta_link_ignores_malformed_raw_object_digest_trailer() {
    let metadata = RmetaLink {
        rust_object_files: vec!["crate.cgu.0.123.rcgu.o".to_owned()],
        raw_object_digests: Some(vec![RawObjectDigest {
            member_name: "crate.cgu.0.123.rcgu.o".to_owned(),
            digest: "a".repeat(64),
        }]),
        link_content_digest: Some("b".repeat(64)),
    };
    let mut encoded = metadata.encode();
    let trailer_prefix_offset = encoded
        .windows(RAW_OBJECT_DIGESTS_PREFIX.len())
        .position(|window| window == RAW_OBJECT_DIGESTS_PREFIX)
        .expect("metadata should contain raw object digest trailer");
    encoded[trailer_prefix_offset] = b'R';

    let decoded = RmetaLink::decode(&encoded).expect("metadata should decode");

    assert_eq!(decoded.raw_object_digests, None);
    assert_eq!(decoded.link_content_digest, metadata.link_content_digest);
}

#[test]
fn link_content_digest_preserves_object_order_and_requires_object_digests() {
    let first = link_content_digest(&vec![
        ("crate.cgu.1", "a".repeat(64).as_str()),
        ("crate.cgu.0", "b".repeat(64).as_str()),
    ]);
    let reordered = link_content_digest(&vec![
        ("crate.cgu.0", "b".repeat(64).as_str()),
        ("crate.cgu.1", "a".repeat(64).as_str()),
    ]);

    assert_ne!(first, reordered);
    assert_eq!(link_content_digest(&vec![("crate.cgu.0", "invalid")]), None);
}

#[test]
fn digests_that_are_none_are_left_out() {
    let metadata = RmetaLink {
        rust_object_files: Vec::new(),
        raw_object_digests: Some(vec![RawObjectDigest {
            member_name: String::new(),
            digest: "a".repeat(64),
        }]),
        link_content_digest: Some("short".to_owned()),
    };
    assert_eq!(metadata.encode(), b"\0rust-end-file".to_vec());
    let decoded = RmetaLink::decode(&metadata.encode()).unwrap();
    assert!(decoded.rust_object_files.is_empty());
    assert_eq!(decoded.raw_object_digests, None);
    assert_eq!(decoded.link_content_digest, None);
    assert!(RmetaLink::decode(b"no mark").is_none());
}

#[test]
fn long_names_take_several_bytes_of_length() {
    let metadata = RmetaLink {
        rust_object_files: vec!["x".repeat(300), "\u{e9}".to_owned()],
        raw_object_digests: Some(two_objects()),
        link_content_digest: None,
    };
    let encoded = metadata.encode();
    assert_eq!(encoded[..3], [2, 0xac, 0x02]);
    let decoded = RmetaLink::decode(&encoded).unwrap();
    assert_eq!(decoded.rust_object_files, metadata.rust_object_files);
    assert_eq!(decoded.raw_object_digests, metadata.raw_object_digests);
    assert_eq!(decoded.link_content_digest, None);
    assert!(!lists_object_files(b"\x05rust-end-file"));
}

fn archive(members: &[(&str, &[u8])]) -> Vec<u8> {
    let mut archive = b"!<arch>\n".to_vec();
    for (name, data) in members {
        archive.extend_from_slice(
            format!("{:<16}{:<12}{:<6}{:<6}{:<8}{:<10}`\n", format!("{name}/"), 0, 0, 0, 644, data.len())
                .as_bytes(),
        );
        archive.extend_from_slice(data);
        if data.len() % 2 == 1 {
            archive.push(b'\n');
        }
    }
    archive
}

#[test]
fn the_metadata_member_of_an_archive_is_found() {
    let metadata = RmetaLink {
        rust_object_files: vec!["a.o".to_owned()],
        raw_object_digests: None,
        link_content_digest: None,
    }
    .encode();
    let data = archive(&[("a.o", b"object"), ("lib.rmeta-link", &metadata)]);
    assert_eq!(link_object(&data), Some(metadata.clone()));
    let link = read_from_data(&data, Some(&metadata)).unwrap();
    assert_eq!(link.rust_object_files, vec!["a.o"]);
    assert!(read_from_data(&data, None).is_none());

    let other = archive(&[("a.o", b"object")]);
    assert_eq!(link_object(&other), None);
    assert!(read_from_data(&other, Some(&metadata)).is_none());
    assert_eq!(link_object(b"no archive"), None);

    let unlisted = b"\x05rust-end-file";
    assert!(read_from_data(&other, Some(unlisted)).is_none());
    assert!(matches!(read_listed_from_data(&other, Some(unlisted)), Ok(None)));
    assert!(matches!(read_listed_from_data(&data, Some(unlisted)), Err(())));
    assert!(matches!(
        read_listed_from_data(&data, Some(&metadata)),
        Ok(Some(link)) if link.rust_object_files == vec!["a.o"]
    ));
}

#[test]
fn raw_object_digests_are_read_only_where_they_were_encoded() {
    let list = encode_raw_object_digests(&two_objects()).unwrap();
    let mut body = b"anything".to_vec();
    body.extend_from_slice(RAW_OBJECT_DIGESTS_PREFIX);
    body.extend_from_slice(&list);
    body.extend_from_slice(&(list.len() as u64).to_le_bytes());
    let ended = |body: &[u8]| [body, b"rust-end-file".as_slice()].concat();
    assert_eq!(decode_raw_object_digests(&ended(&body)), Some(two_objects()));
    let digest = format!("rustc-rlib-link-content-v1:{}", "c".repeat(64));
    let behind = [body.as_slice(), digest.as_bytes()].concat();
    assert_eq!(decode_raw_object_digests(&ended(&behind)), Some(two_objects()));
    let twice = [behind.as_slice(), digest.as_bytes()].concat();
    assert_eq!(decode_raw_object_digests(&ended(&twice)), None);
    assert_eq!(decode_raw_object_digests(&body), None);
    let last = body.len() - 8;
    body[last] += 1;
    assert_eq!(decode_raw_object_digests(&ended(&body)), None);
}
