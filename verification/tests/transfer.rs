use vpass::sync::config::{book_read, book_remove, book_setup, ConfigData, SyncConfig};
use vpass::sync::providers::github::{
    clone_into_array, hex_string, read_sizeopt_string, sizeopt_string, unhex, Config,
};
use vpass::sync::providers::Provider;
use vpass::sync::transfer_string::{decode, encode, prefix, Metadata, VERSION_MAJOR, VERSION_MINOR};
use vpass::{Book, Error, Item};

fn json_config(service: Provider, text: &str) -> SyncConfig {
    SyncConfig { service, data: ConfigData::Json(text.to_owned()) }
}

fn github_config(token: &str) -> SyncConfig {
    SyncConfig {
        service: Provider::GitHub,
        data: ConfigData::GitHub(Config {
            username: "someone".to_owned(),
            access_token: token.to_owned(),
            access_token_id: 0x0102030405060708,
            repo_name: "vault-repo".to_owned(),
        }),
    }
}

fn json_text(c: &SyncConfig) -> String {
    match &c.data {
        ConfigData::Json(t) => t.clone(),
        ConfigData::GitHub(_) => panic!("not a JSON configuration"),
    }
}

#[test]
fn metadata_serialized_size() {
    let m = Metadata::new(&vec![1; 100]);
    assert_eq!(m.to_bytes().len(), std::mem::size_of::<Metadata>());
}

#[test]
fn metadata_is_what_bincode_writes() {
    let m = Metadata::new(&vec![1; 100]);
    assert_eq!(m.to_bytes(), bincode::serialize(&(m.major, m.minor, m.crc16)).unwrap());
    assert_eq!(Metadata::from_bytes(&m.to_bytes()), m);
}

#[test]
fn checksum_is_x25() {
    let m = Metadata::new(b"123456789");
    assert_eq!(m.crc16, 0x906e);
    assert_eq!(m.major, VERSION_MAJOR);
    assert_eq!(m.minor, VERSION_MINOR);
}

#[test]
fn encode_decode() {
    let c = json_config(Provider::Mock, "null");

    let d = decode(&encode(&c).unwrap()).expect("Decode failed");
    assert_eq!(d.service, Provider::Mock);
    assert_eq!(json_text(&d), "null");
}

#[test]
#[should_panic]
fn decode_invalid_prefix() {
    decode("RANDOM INVALID STRING").expect("Decode failed");
}

#[test]
#[should_panic]
fn decode_invalid() {
    decode("VPASS_abcd").expect("Decode failed");
}

#[test]
fn decode_rejects_what_is_no_transfer_string() {
    assert!(matches!(decode("RANDOM INVALID STRING"), Err(Error::SynchronizationTransferString)));
    assert!(matches!(decode(""), Err(Error::SynchronizationTransferString)));
    assert!(matches!(decode("VPASS"), Err(Error::SynchronizationTransferString)));
    assert!(matches!(decode("VPASS_abcd"), Err(Error::SynchronizationTransferString)));
    assert!(matches!(decode("VPASS_"), Err(Error::SynchronizationTransferString)));
    assert!(matches!(decode("VPASS_!!!!"), Err(Error::Base64Decode)));
}

#[test]
fn transfer_string_starts_with_the_marker() {
    let s = encode(&json_config(Provider::FileSystem, "{\"path\":\"/tmp/x\"}")).unwrap();
    assert!(s.starts_with("VPASS_"));
    assert_eq!(prefix(), "VPASS_");
    let payload = base64::decode(&s[6..]).unwrap();
    assert_eq!(payload[0], VERSION_MAJOR);
    assert_eq!(payload[1], VERSION_MINOR);
    assert_eq!(payload[4], 1);
    assert_eq!(&payload[5..], b"{\"path\":\"/tmp/x\"}");
}

#[test]
fn round_trip_for_every_provider() {
    let fs = json_config(Provider::FileSystem, "{\"path\":\"/tmp/x\"}");
    let d = decode(&encode(&fs).unwrap()).unwrap();
    assert_eq!(d.service, Provider::FileSystem);
    assert_eq!(json_text(&d), "{\"path\":\"/tmp/x\"}");

    let token = "00112233445566778899aabbccddeeff0a0b0c0d";
    let gh = github_config(token);
    let d = decode(&encode(&gh).unwrap()).unwrap();
    assert_eq!(d.service, Provider::GitHub);
    match d.data {
        ConfigData::GitHub(c) => {
            assert_eq!(c.username, "someone");
            assert_eq!(c.repo_name, "vault-repo");
            assert_eq!(c.access_token, token);
            assert_eq!(c.access_token_id, 0x0102030405060708);
        },
        ConfigData::Json(_) => panic!("not the record of the provider"),
    }
}

#[test]
fn json_comes_back_in_canonical_form() {
    let c = json_config(Provider::Mock, " { \"b\" : 1 , \"a\" : [ true ] } ");
    let d = decode(&encode(&c).unwrap()).unwrap();
    assert_eq!(json_text(&d), "{\"a\":[true],\"b\":1}");
}

#[test]
fn token_in_upper_case_comes_back_in_lower_case() {
    let gh = github_config("00112233445566778899AABBCCDDEEFF0A0B0C0D");
    let d = decode(&encode(&gh).unwrap()).unwrap();
    match d.data {
        ConfigData::GitHub(c) => {
            assert_eq!(c.access_token, "00112233445566778899aabbccddeeff0a0b0c0d")
        },
        ConfigData::Json(_) => panic!("not the record of the provider"),
    }
}

#[test]
fn what_cannot_be_compressed_is_not_encoded() {
    assert!(encode(&json_config(Provider::Mock, "{not json")).is_none());
    assert!(encode(&json_config(Provider::GitHub, "null")).is_none());
    assert!(encode(&github_config("too short")).is_none());
    assert!(encode(&github_config("zz112233445566778899aabbccddeeff0a0b0c0d")).is_none());
    let mut wrong = github_config("00112233445566778899aabbccddeeff0a0b0c0d");
    wrong.service = Provider::Mock;
    assert!(encode(&wrong).is_none());
}

fn with_payload(payload: &[u8], major: u8, minor: u8, crc: u16) -> String {
    let mut bytes = vec![major, minor];
    bytes.extend_from_slice(&crc.to_le_bytes());
    bytes.extend_from_slice(payload);
    format!("VPASS_{}", base64::encode(&bytes))
}

#[test]
fn decode_rejects_corrupted_checksum() {
    let payload = [2u8, b'n', b'u', b'l', b'l'];
    let crc = Metadata::new(&payload).crc16;
    assert!(decode(&with_payload(&payload, VERSION_MAJOR, VERSION_MINOR, crc)).is_ok());
    assert!(matches!(
        decode(&with_payload(&payload, VERSION_MAJOR, VERSION_MINOR, crc ^ 1)),
        Err(Error::SynchronizationTransferString)
    ));
}

#[test]
fn decode_rejects_other_version_and_reports_both_numbers() {
    let payload = [2u8, b'n', b'u', b'l', b'l'];
    let crc = Metadata::new(&payload).crc16;
    for (major, minor) in [(VERSION_MAJOR + 1, VERSION_MINOR), (VERSION_MAJOR, VERSION_MINOR + 1)] {
        match decode(&with_payload(&payload, major, minor, crc)) {
            Err(Error::SynchronizationTransferStringVersion(a, b)) => {
                assert_eq!((a, b), (VERSION_MAJOR, VERSION_MINOR))
            },
            _ => panic!("version mismatch not reported"),
        }
    }
}

#[test]
fn decode_rejects_unknown_provider_and_bad_payload() {
    for payload in [vec![], vec![3u8, b'n', b'u', b'l', b'l'], vec![0u8, 1, 2]] {
        let crc = Metadata::new(&payload).crc16;
        assert!(matches!(
            decode(&with_payload(&payload, VERSION_MAJOR, VERSION_MINOR, crc)),
            Err(Error::SynchronizationTransferString)
        ));
    }
    let payload = vec![1u8, b'{'];
    let crc = Metadata::new(&payload).crc16;
    assert!(matches!(
        decode(&with_payload(&payload, VERSION_MAJOR, VERSION_MINOR, crc)),
        Err(Error::Json)
    ));
}

#[test]
fn metadata_check_tells_checksum_from_version() {
    let data = b"payload";
    let good = Metadata::new(data);
    assert!(good.check(data).is_ok());
    let bad_crc = Metadata { crc16: good.crc16 ^ 0xff, ..good };
    assert!(matches!(bad_crc.check(data), Err(Error::SynchronizationTransferString)));
    let bad_version = Metadata { major: good.major + 1, ..good };
    assert!(matches!(
        bad_version.check(data),
        Err(Error::SynchronizationTransferStringVersion(_, _))
    ));
}

#[test]
fn provider_tags() {
    assert_eq!(Provider::GitHub.tag(), 0);
    assert_eq!(Provider::FileSystem.tag(), 1);
    assert_eq!(Provider::Mock.tag(), 2);
    for p in [Provider::GitHub, Provider::FileSystem, Provider::Mock] {
        assert_eq!(Provider::from_tag(p.tag()), Some(p));
    }
    assert_eq!(Provider::from_tag(3), None);
}

#[test]
fn sized_strings() {
    assert_eq!(sizeopt_string("abc").unwrap(), vec![3, b'a', b'b', b'c']);
    assert_eq!(sizeopt_string("").unwrap(), vec![0]);
    let long = "x".repeat(255);
    let bytes = sizeopt_string(&long).unwrap();
    assert_eq!(&bytes[..5], &[255, 255, 0, 0, 0]);
    assert_eq!(bytes.len(), 260);
    let at_limit = "y".repeat(254);
    assert_eq!(sizeopt_string(&at_limit).unwrap()[0], 254);
    assert_eq!(sizeopt_string(&at_limit).unwrap().len(), 255);

    assert_eq!(read_sizeopt_string(&bytes), Some((long, 260)));
    assert_eq!(read_sizeopt_string(&[3, b'a', b'b', b'c', b'd']), Some(("abc".to_owned(), 4)));
    assert_eq!(read_sizeopt_string(&[]), None);
    assert_eq!(read_sizeopt_string(&[3, b'a']), None);
    assert_eq!(read_sizeopt_string(&[255, 1, 0, 0]), None);
    assert_eq!(read_sizeopt_string(&[1, 0xff]), None);
    let umlaut = sizeopt_string("ä").unwrap();
    assert_eq!(umlaut, vec![2, 0xc3, 0xa4]);
    assert_eq!(read_sizeopt_string(&umlaut), Some(("ä".to_owned(), 3)));
}

#[test]
fn hex_digits() {
    assert_eq!(hex_string(&[0x00, 0x0a, 0xff, 0x10]), "000aff10");
    assert_eq!(hex_string(&[]), "");
    assert_eq!(unhex(b"000aFF10"), Some(vec![0x00, 0x0a, 0xff, 0x10]));
    assert_eq!(unhex(b"0"), None);
    assert_eq!(unhex(b"0g"), None);
    assert_eq!(unhex(b"+f"), None);
    assert_eq!(clone_into_array(&[1, 2, 3, 4, 5, 6, 7, 8]), [1, 2, 3, 4, 5, 6, 7, 8]);
}

#[test]
fn packed_configuration() {
    let c = Config {
        username: "me".to_owned(),
        access_token: "00112233445566778899aabbccddeeff0a0b0c0d".to_owned(),
        access_token_id: 1,
        repo_name: "r".to_owned(),
    };
    let bytes = c.compress().unwrap();
    let mut wanted = vec![2, b'm', b'e', 1, b'r'];
    wanted.extend_from_slice(&[
        0x00, 0x11, 0x22, 0x33, 0x44, 0x55, 0x66, 0x77, 0x88, 0x99, 0xaa, 0xbb, 0xcc, 0xdd, 0xee,
        0xff, 0x0a, 0x0b, 0x0c, 0x0d,
    ]);
    wanted.extend_from_slice(&1u64.to_le_bytes());
    assert_eq!(bytes, wanted);
    let back = Config::decompress(&bytes).unwrap();
    assert_eq!(back.username, "me");
    assert_eq!(back.repo_name, "r");
    assert_eq!(back.access_token, c.access_token);
    assert_eq!(back.access_token_id, 1);
    assert!(Config::decompress(&bytes[..bytes.len() - 1]).is_none());
    assert!(Config::decompress(&[]).is_none());
}

#[test]
fn configuration_lives_in_the_book() {
    let mut book = Book::new();
    assert!(book_read(&book).unwrap().is_none());
    book_remove(&mut book).unwrap();
    assert_eq!(book.events().len(), 0);

    book_setup(&mut book, "{\"service\":\"Mock\",\"data\":null}").unwrap();
    assert!(book.has_item("vpass/sync_config.json"));
    assert_eq!(book_read(&book).unwrap().unwrap(), "{\"service\":\"Mock\",\"data\":null}");
    assert!(matches!(book_setup(&mut book, "{}"), Err(Error::ItemAlreadyExists(_))));

    book_remove(&mut book).unwrap();
    assert!(book_read(&book).unwrap().is_none());

    book.add(Item::new("vpass/sync_config.json")).unwrap();
    assert!(matches!(
        book_read(&book),
        Err(Error::Sync(vpass::sync::Error::ConfigurationItem))
    ));
}

#[test]
fn each_provider_compresses_its_own_data() {
    let json = ConfigData::Json("{ \"path\" : \"/tmp/x\" }".to_owned());
    let bytes = Provider::FileSystem.configuration_compress(&json).unwrap();
    assert_eq!(bytes, b"{\"path\":\"/tmp/x\"}".to_vec());
    match Provider::FileSystem.configuration_decompress(&bytes).unwrap() {
        ConfigData::Json(t) => assert_eq!(t, "{\"path\":\"/tmp/x\"}"),
        ConfigData::GitHub(_) => panic!("not a JSON configuration"),
    }
    assert!(matches!(Provider::Mock.configuration_decompress(b"{"), Err(Error::Json)));
    assert!(Provider::Mock.configuration_compress(&ConfigData::Json("{".to_owned())).is_none());

    // the data of another provider is not compressed
    assert!(Provider::GitHub.configuration_compress(&json).is_none());
    let packed = Provider::GitHub
        .configuration_compress(&github_config(&"ab".repeat(20)).data)
        .unwrap();
    match Provider::GitHub.configuration_decompress(&packed).unwrap() {
        ConfigData::GitHub(c) => assert_eq!(c.repo_name, "vault-repo"),
        ConfigData::Json(_) => panic!("not a packed record"),
    }
    assert!(matches!(
        Provider::GitHub.configuration_decompress(&[1, 2, 3]),
        Err(Error::SynchronizationTransferString)
    ));
}
