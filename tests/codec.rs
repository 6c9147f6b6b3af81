use cert_registry::codec::{decode_container, encode_container, Codec};
use cert_registry::entities::{
    AccreditationEntry, Agent, AuthorizationEntry, AuthorizationRole, CertificateDatum,
    CertificateRecord, ContactInfo, FactoryAddress, OrganizationDetails, OrganizationKind,
    OrganizationRecord, RequestRecord, StandardRecord, Status, VersionEntry,
};

fn s(x: &str) -> String {
    x.to_string()
}

fn agent(pk: &str, org: Option<&str>) -> Agent {
    Agent { public_key: s(pk), name: s("Zoë"), organization_id: org.map(s), timestamp: 0x0102030405060708 }
}

#[test]
fn agent_bytes_have_the_documented_layout() {
    let bytes = encode_container(&vec![agent("k", None)]);
    let mut expected: Vec<u8> = vec![1, 0, 0, 0, 0, 0, 0, 0];
    expected.extend_from_slice(&[1, 0, 0, 0, 0, 0, 0, 0, b'k']);
    expected.extend_from_slice(&[4, 0, 0, 0, 0, 0, 0, 0, b'Z', b'o', 0xC3, 0xAB]);
    expected.push(0);
    expected.extend_from_slice(&[8, 7, 6, 5, 4, 3, 2, 1]);
    assert_eq!(bytes, expected);
}

#[test]
fn agent_container_round_trip() {
    let entries = vec![agent("a", None), agent("b", Some("org1")), agent("c", Some(""))];
    let bytes = encode_container(&entries);
    let back: Vec<Agent> = decode_container(&bytes).unwrap();
    assert_eq!(format!("{:?}", back), format!("{:?}", entries));
    let empty: Vec<Agent> = decode_container(&encode_container::<Agent>(&vec![])).unwrap();
    assert!(empty.is_empty());
}

#[test]
fn malformed_containers_are_refused() {
    let bytes = encode_container(&vec![agent("a", None)]);
    assert!(decode_container::<Agent>(&bytes[..bytes.len() - 1]).is_err());
    let mut longer = bytes.clone();
    longer.push(0);
    assert!(decode_container::<Agent>(&longer).is_err());
    let mut bad_utf8 = bytes.clone();
    bad_utf8[16] = 0xFF;
    assert!(decode_container::<Agent>(&bad_utf8).is_err());
    let mut bad_tag = encode_container(&vec![RequestRecord {
        id: s("r"),
        factory_id: s("f"),
        standard_id: s("s"),
        status: Status::Open,
        request_date: 3,
    }]);
    let tag_at = 8 + 9 + 9 + 9;
    assert_eq!(bad_tag[tag_at], 1);
    bad_tag[tag_at] = 9;
    assert!(decode_container::<RequestRecord>(&bad_tag).is_err());
    assert!(decode_container::<Agent>(&[]).is_err());
}

#[test]
fn organization_container_round_trip() {
    let factory = OrganizationRecord {
        id: s("f"),
        name: s("Factory"),
        kind: OrganizationKind::Factory,
        contacts: vec![ContactInfo { name: s("A"), phone_number: s("1"), language_code: s("en") }],
        authorizations: vec![
            AuthorizationEntry { public_key: s("pk"), role: AuthorizationRole::Admin },
            AuthorizationEntry { public_key: s("pk"), role: AuthorizationRole::Transactor },
        ],
        details: OrganizationDetails::Factory(FactoryAddress {
            street_line_1: s("1 Main"),
            city: s("C"),
            country: s("US"),
            ..Default::default()
        }),
    };
    let body = OrganizationRecord {
        id: s("cb"),
        name: s("Body"),
        kind: OrganizationKind::CertifyingBody,
        contacts: vec![],
        authorizations: vec![],
        details: OrganizationDetails::CertifyingBody(vec![AccreditationEntry {
            standard_id: s("s"),
            standard_version: s("v1"),
            accreditor_id: s("sb"),
            valid_from: 1,
            valid_to: 2,
        }]),
    };
    let plain = OrganizationRecord {
        id: s("sb"),
        name: s("Standards"),
        kind: OrganizationKind::StandardsBody,
        contacts: vec![],
        authorizations: vec![],
        details: OrganizationDetails::NoDetails,
    };
    let entries = vec![body, factory, plain];
    let back: Vec<OrganizationRecord> = decode_container(&encode_container(&entries)).unwrap();
    assert_eq!(format!("{:?}", back), format!("{:?}", entries));
}

#[test]
fn standard_request_certificate_round_trip() {
    let st = vec![StandardRecord {
        id: s("s"),
        name: s("Std"),
        organization_id: s("sb"),
        versions: vec![
            VersionEntry { version: s("v1"), description: s("d"), link: s("l"), approval_date: 5 },
            VersionEntry { version: s("v2"), description: s("e"), link: s("m"), approval_date: 6 },
        ],
    }];
    let back: Vec<StandardRecord> = decode_container(&encode_container(&st)).unwrap();
    assert_eq!(format!("{:?}", back), format!("{:?}", st));
    let rq = vec![RequestRecord {
        id: s("r"),
        factory_id: s("f"),
        standard_id: s("s"),
        status: Status::Certified,
        request_date: u64::MAX,
    }];
    let back: Vec<RequestRecord> = decode_container(&encode_container(&rq)).unwrap();
    assert_eq!(format!("{:?}", back), format!("{:?}", rq));
    let ce = vec![CertificateRecord {
        id: s("c"),
        certifying_body_id: s("cb"),
        factory_id: s("f"),
        standard_id: s("s"),
        standard_version: s("v2"),
        valid_from: 10,
        valid_to: 20,
        certificate_data: vec![CertificateDatum { field: s("k"), data: s("v") }],
    }];
    let back: Vec<CertificateRecord> = decode_container(&encode_container(&ce)).unwrap();
    assert_eq!(format!("{:?}", back), format!("{:?}", ce));
}

#[test]
fn single_record_decodes_at_offset() {
    let a = agent("x", Some("o"));
    let mut out = vec![9u8, 9];
    a.encode_into(&mut out);
    let (back, next) = Agent::decode_from(&out, 2).unwrap();
    assert_eq!(next, out.len());
    assert_eq!(format!("{:?}", back), format!("{:?}", a));
}
