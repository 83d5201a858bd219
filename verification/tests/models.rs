use asset_canister::codec::{frame_fields, unframe_bytes};
use asset_canister::error::Error;
use asset_canister::identity::Identity;
use asset_canister::models::file::{hash_bytes, File, FileChunk, FileType};
use asset_canister::models::record::{decode_chunk, decode_file, encode_chunk, encode_file};
use asset_canister::text::{decimal_string, parse_decimal, str_equal};

fn hex(bytes: &[u8]) -> String {
    let mut s = String::new();
    for b in bytes {
        s.push_str(&format!("{:02x}", b));
    }
    s
}

fn sample_file() -> File {
    let owner = Identity::from_slice(&[1, 2, 3]).unwrap();
    File {
        id: 7,
        url: String::from("https://aaaaa-aa.raw.ic0.app/image/7"),
        chunk_ids: vec![3, 4, 9],
        number_of_chunks: 3,
        file_name: String::from("caf\u{e9}.png"),
        file_type: FileType::PNG,
        owner: owner.clone(),
        metadata: String::from("note"),
        deleted_at: Some(12),
        created_at: 10,
        updated_at: 11,
        accessors: vec![owner, Identity::anonymous()],
        hash: [5u8; 32],
    }
}

#[test]
fn mime_types_are_canonical() {
    assert_eq!(FileType::PNG.as_str(), "image/png");
    assert_eq!(FileType::JPEG.as_str(), "image/jpeg");
    assert_eq!(FileType::GIF.as_str(), "image/gif");
    assert_eq!(FileType::MP4.as_str(), "video/mp4");
    assert_eq!(FileType::MOV.as_str(), "video/quicktime");
    assert_eq!(FileType::WEBP.as_str(), "image/webp");
}

#[test]
fn mime_types_convert_back() {
    for t in [
        FileType::PNG,
        FileType::JPEG,
        FileType::GIF,
        FileType::MP4,
        FileType::MOV,
        FileType::WEBP,
    ] {
        assert_eq!(FileType::convert_to_file_type(t.as_str()), Ok(t));
    }
}

#[test]
fn unknown_mime_type_is_unsupported() {
    assert_eq!(FileType::convert_to_file_type("text/plain"), Err(Error::UnsupportedType));
    assert_eq!(FileType::convert_to_file_type(""), Err(Error::UnsupportedType));
    assert_eq!(FileType::convert_to_file_type("IMAGE/PNG"), Err(Error::UnsupportedType));
}

#[test]
fn slugs_tell_images_from_videos() {
    assert_eq!(FileType::PNG.url_slug(), "image");
    assert_eq!(FileType::JPEG.url_slug(), "image");
    assert_eq!(FileType::GIF.url_slug(), "image");
    assert_eq!(FileType::WEBP.url_slug(), "image");
    assert_eq!(FileType::MP4.url_slug(), "video");
    assert_eq!(FileType::MOV.url_slug(), "video");
}

#[test]
fn error_messages() {
    assert_eq!(Error::Unauthorized.message(), "Unauthorized");
    assert_eq!(Error::RateLimited.message(), "Rate limit reached");
    assert_eq!(Error::DailyLimitReached.message(), "Daily image limit reached");
    assert_eq!(Error::CapacityExceeded.message(), "Canister is full");
    assert_eq!(Error::OversizedChunk.message(), "Too many bytes in chunk");
    assert_eq!(Error::TooManyChunks.message(), "All chunks already allocated for file");
    assert_eq!(Error::UnsupportedType.message(), "Unsupported file type");
    assert_eq!(Error::NotFound.message(), "file not found");
    assert_eq!(Error::Blocked.message(), "Blocked");
    assert_eq!(Error::AlreadyAllocated.message(), "Attempting to overwrite chunk on insert");
    assert_eq!(Error::KeyTooLarge.message(), "Key is too large for the store");
    assert_eq!(Error::ValueTooLarge.message(), "Record is too large for the store");
}

#[test]
fn hash_of_nothing_is_the_known_digest() {
    assert_eq!(
        hex(&hash_bytes(&[])),
        "a7ffc6f8bf1ed76651c14756a061d662f580ff4de43b49fa82d80a4b80f8434a"
    );
}

#[test]
fn hash_of_abc_is_the_known_digest() {
    assert_eq!(
        hex(&hash_bytes(b"abc")),
        "3a985da74fe225b2045c172d6bd390bd855f086e3e9d525b46bfe24511431532"
    );
}

#[test]
fn anonymous_identity_is_one_byte() {
    let a = Identity::anonymous();
    assert_eq!(a.as_slice(), &[4u8]);
    assert!(a.is_anonymous());
    assert!(!Identity::from_slice(&[4, 0]).unwrap().is_anonymous());
    assert!(!Identity::from_slice(&[]).unwrap().is_anonymous());
}

#[test]
fn identity_takes_at_most_29_bytes() {
    assert!(Identity::from_slice(&[0u8; 29]).is_some());
    assert!(Identity::from_slice(&[0u8; 30]).is_none());
}

#[test]
fn identities_compare_by_bytes() {
    let a = Identity::from_slice(&[1, 2]).unwrap();
    let b = Identity::from_slice(&[1, 2]).unwrap();
    let c = Identity::from_slice(&[1, 3]).unwrap();
    let d = Identity::from_slice(&[1]).unwrap();
    assert!(a == b);
    assert!(a != c);
    assert!(a != d);
    assert!(a.clone() == a);
}

#[test]
fn identity_text_is_the_principal_text() {
    assert_eq!(Identity::anonymous().to_text(), "2vxsx-fae");
    assert_eq!(Identity::from_slice(&[]).unwrap().to_text(), "aaaaa-aa");
    let id = Identity::from_slice(&[0xef, 0xcd, 0xab, 0, 0, 0, 0, 0, 1]).unwrap();
    assert_eq!(id.to_text(), "2chl6-4hpzw-vqaaa-aaaaa-c");
}

#[test]
fn decimal_strings() {
    assert_eq!(decimal_string(0), "0");
    assert_eq!(decimal_string(9), "9");
    assert_eq!(decimal_string(10), "10");
    assert_eq!(decimal_string(1234567890), "1234567890");
    assert_eq!(decimal_string(u64::MAX), "18446744073709551615");
}

#[test]
fn parse_decimal_reads_numbers() {
    let read = |s: &str| {
        let v: Vec<char> = s.chars().collect();
        parse_decimal(&v, 0, v.len())
    };
    assert_eq!(read("0"), Some(0));
    assert_eq!(read("007"), Some(7));
    assert_eq!(read("+42"), Some(42));
    assert_eq!(read("18446744073709551615"), Some(u64::MAX));
    assert_eq!(read("18446744073709551616"), None);
    assert_eq!(read("99999999999999999999999"), None);
    assert_eq!(read(""), None);
    assert_eq!(read("+"), None);
    assert_eq!(read("-1"), None);
    assert_eq!(read("1a"), None);
    assert_eq!(read("++1"), None);
    assert_eq!(read(" 1"), None);
}

#[test]
fn parse_decimal_reads_a_part() {
    let v: Vec<char> = "ab123cd".chars().collect();
    assert_eq!(parse_decimal(&v, 2, 5), Some(123));
    assert_eq!(parse_decimal(&v, 2, 6), None);
    assert_eq!(parse_decimal(&v, 3, 3), None);
}

#[test]
fn parse_reads_back_what_decimal_writes() {
    for n in [0u64, 1, 9, 10, 99, 100, 12345, u64::MAX - 1, u64::MAX] {
        let v: Vec<char> = decimal_string(n).chars().collect();
        assert_eq!(parse_decimal(&v, 0, v.len()), Some(n));
    }
}

#[test]
fn strings_compare_by_characters() {
    assert!(str_equal("abc", "abc"));
    assert!(!str_equal("abc", "abd"));
    assert!(!str_equal("abc", "ab"));
    assert!(str_equal("", ""));
    assert!(str_equal("caf\u{e9}", "caf\u{e9}"));
}

#[test]
fn frame_lays_fields_out_behind_their_lengths() {
    let fields = vec![vec![1u8, 2, 3], vec![], vec![9u8]];
    let bytes = frame_fields(&fields);
    assert_eq!(
        bytes,
        vec![3, 0, 0, 0, 0, 0, 0, 0, 1, 2, 3, 0, 0, 0, 0, 0, 0, 0, 0, 1, 0, 0, 0, 0, 0, 0, 0, 9]
    );
    assert_eq!(unframe_bytes(&bytes), Some(fields));
}

#[test]
fn unframe_refuses_broken_bytes() {
    assert_eq!(unframe_bytes(&[]), Some(vec![]));
    assert_eq!(unframe_bytes(&[1, 0, 0]), None);
    assert_eq!(unframe_bytes(&[2, 0, 0, 0, 0, 0, 0, 0, 1]), None);
    assert_eq!(unframe_bytes(&[255, 255, 255, 255, 255, 255, 255, 255]), None);
}

#[test]
fn file_record_reads_back() {
    let file = sample_file();
    let bytes = encode_file(&file);
    let back = decode_file(&bytes).unwrap();
    assert_eq!(back.id, file.id);
    assert_eq!(back.url, file.url);
    assert_eq!(back.chunk_ids, file.chunk_ids);
    assert_eq!(back.number_of_chunks, file.number_of_chunks);
    assert_eq!(back.file_name, file.file_name);
    assert_eq!(back.file_type, file.file_type);
    assert!(back.owner == file.owner);
    assert_eq!(back.metadata, file.metadata);
    assert_eq!(back.deleted_at, file.deleted_at);
    assert_eq!(back.created_at, file.created_at);
    assert_eq!(back.updated_at, file.updated_at);
    assert_eq!(back.accessors.len(), 2);
    assert!(back.accessors[0] == file.accessors[0]);
    assert!(back.accessors[1] == file.accessors[1]);
    assert_eq!(back.hash, file.hash);
}

#[test]
fn file_record_of_each_kind_reads_back() {
    for t in [
        FileType::PNG,
        FileType::JPEG,
        FileType::GIF,
        FileType::MP4,
        FileType::MOV,
        FileType::WEBP,
    ] {
        let mut file = sample_file();
        file.file_type = t;
        file.deleted_at = None;
        file.chunk_ids = vec![];
        let back = decode_file(&encode_file(&file)).unwrap();
        assert_eq!(back.file_type, t);
        assert_eq!(back.deleted_at, None);
        assert_eq!(back.chunk_ids, Vec::<u64>::new());
    }
}

#[test]
fn chunk_record_reads_back() {
    let chunk = FileChunk {
        id: 1,
        file_id: 2,
        order_id: 3,
        chunk_data: vec![7u8; 1000],
        metadata: String::from("m"),
        deleted_at: None,
        created_at: 4,
        updated_at: 5,
        hash: hash_bytes(&[7u8; 1000]),
    };
    let bytes = encode_chunk(&chunk);
    assert_eq!(bytes.len(), 1000 + 1 + 144);
    let back = decode_chunk(&bytes).unwrap();
    assert_eq!(back.id, 1);
    assert_eq!(back.file_id, 2);
    assert_eq!(back.order_id, 3);
    assert_eq!(back.chunk_data, chunk.chunk_data);
    assert_eq!(back.metadata, "m");
    assert_eq!(back.deleted_at, None);
    assert_eq!(back.created_at, 4);
    assert_eq!(back.updated_at, 5);
    assert_eq!(back.hash, chunk.hash);
}

#[test]
fn records_that_tell_of_nothing_are_refused() {
    assert!(decode_file(&[]).is_none());
    assert!(decode_chunk(&[]).is_none());
    assert!(decode_file(&[1, 2, 3]).is_none());
    let chunk_bytes = encode_chunk(&FileChunk {
        id: 1,
        file_id: 2,
        order_id: 3,
        chunk_data: vec![],
        metadata: String::new(),
        deleted_at: None,
        created_at: 4,
        updated_at: 5,
        hash: [0u8; 32],
    });
    assert!(decode_file(&chunk_bytes).is_none());
    let mut file_bytes = encode_file(&sample_file());
    assert!(decode_chunk(&file_bytes).is_none());
    file_bytes.pop();
    assert!(decode_file(&file_bytes).is_none());
}

#[test]
fn record_with_a_name_that_is_no_text_is_refused() {
    let mut fields: Vec<Vec<u8>> = unframe_bytes(&encode_file(&sample_file())).unwrap();
    fields[4] = vec![0xff, 0xfe];
    assert!(decode_file(&frame_fields(&fields)).is_none());
}

#[test]
fn fe_type_leaves_accessors_and_hash_out() {
    let file = sample_file();
    let fe = file.create_fe_type();
    assert_eq!(fe.id, 7);
    assert_eq!(fe.chunk_ids, vec![3, 4, 9]);
    assert_eq!(fe.number_of_chunks, 3);
    assert_eq!(fe.file_name, "caf\u{e9}.png");
    assert_eq!(fe.file_type, "image/png");
    assert!(fe.owner == file.owner);
    assert_eq!(fe.metadata, "note");
    assert_eq!(fe.url, "https://aaaaa-aa.raw.ic0.app/image/7");
    assert_eq!(fe.created_at, 10);
    assert_eq!(fe.updated_at, 11);
}
