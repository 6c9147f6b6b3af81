use cert_registry::entities::{
    AccreditationEntry, Agent, AuthorizationRole, CertificateDatum, ContactInfo, FactoryAddress,
    OrganizationDetails, OrganizationKind, Status,
};
use cert_registry::handler::CertTransactionHandler;
use cert_registry::order::key_less;
use cert_registry::payload::{
    AccreditCertifyingBodyAction, ApplyError, AuthorizeAgentAction, CertPayload,
    CertificateRegistryPayload, ChangeRequestStatusAction, CreateAgentAction,
    CreateOrganizationAction, CreateStandardAction, IssueCertificateAction, IssueSource,
    OpenRequestAction, PayloadAction, UpdateOrganizationAction, UpdateStandardAction,
};
use cert_registry::addressing::{address_from_digests, make_agent_address, make_organization_address, get_family_namespace_prefix};
use cert_registry::state::{CertState, RecordKind};
use cert_registry::codec::decode_container;

fn s(x: &str) -> String {
    x.to_string()
}

fn contact(name: &str) -> ContactInfo {
    ContactInfo { name: s(name), phone_number: s("+1"), language_code: s("en") }
}

fn address() -> FactoryAddress {
    FactoryAddress {
        street_line_1: s("1 Main St"),
        city: s("Springfield"),
        country: s("US"),
        ..Default::default()
    }
}

fn is_invalid(r: &Result<(), ApplyError>) -> bool {
    matches!(r, Err(ApplyError::InvalidTransaction(_)))
}

fn message(r: &Result<(), ApplyError>) -> String {
    match r {
        Err(ApplyError::InvalidTransaction(m)) => m.clone(),
        _ => String::new(),
    }
}

fn add_agent(h: &CertTransactionHandler, st: &mut CertState, pk: &str, name: &str) {
    let r = h.create_agent(&CreateAgentAction { name: s(name), timestamp: 1 }, st, &s(pk));
    assert!(r.is_ok());
}

fn add_org(h: &CertTransactionHandler, st: &mut CertState, pk: &str, id: &str, kind: OrganizationKind) {
    let p = CreateOrganizationAction {
        id: s(id),
        name: s("Org"),
        organization_type: kind,
        contacts: vec![contact("Alice")],
        address: if kind == OrganizationKind::Factory { Some(address()) } else { None },
    };
    assert!(h.create_organization(&p, st, &s(pk)).is_ok());
}

/// A standards body `sb` (signer `pk_sb`) with standard `s` at versions v1
/// then v2 (approved at 1000), a certifying body `cb` (signer `pk_cb`) and a
/// factory `f` (signer `pk_f`).
fn world() -> (CertTransactionHandler, CertState) {
    let h = CertTransactionHandler::new();
    let mut st = CertState::new();
    add_agent(&h, &mut st, "pk_sb", "Sam");
    add_agent(&h, &mut st, "pk_cb", "Cat");
    add_agent(&h, &mut st, "pk_f", "Fay");
    add_org(&h, &mut st, "pk_sb", "sb", OrganizationKind::StandardsBody);
    add_org(&h, &mut st, "pk_cb", "cb", OrganizationKind::CertifyingBody);
    add_org(&h, &mut st, "pk_f", "f", OrganizationKind::Factory);
    let cs = CreateStandardAction {
        standard_id: s("s"),
        name: s("Standard"),
        version: s("v1"),
        description: s("first"),
        link: s("http://a"),
        approval_date: 500,
    };
    assert!(h.create_standard(&cs, &mut st, &s("pk_sb")).is_ok());
    let us = UpdateStandardAction {
        standard_id: s("s"),
        version: s("v2"),
        description: s("second"),
        link: s("http://b"),
        approval_date: 1000,
    };
    assert!(h.update_standard(&us, &mut st, &s("pk_sb")).is_ok());
    (h, st)
}

fn accredit(h: &CertTransactionHandler, st: &mut CertState, from: u64, to: u64) -> Result<(), ApplyError> {
    let a = AccreditCertifyingBodyAction {
        certifying_body_id: s("cb"),
        standard_id: s("s"),
        valid_from: from,
        valid_to: to,
    };
    h.accredit_certifying_body(&a, st, &s("pk_sb"))
}

fn open_request(h: &CertTransactionHandler, st: &mut CertState, id: &str) {
    let o = OpenRequestAction { id: s(id), standard_id: s("s"), request_date: 7 };
    assert!(h.open_request(&o, st, &s("pk_f")).is_ok());
}

fn change_status(h: &CertTransactionHandler, st: &mut CertState, id: &str, status: Status) -> Result<(), ApplyError> {
    let c = ChangeRequestStatusAction { request_id: s(id), status };
    h.change_request_status(&c, st, &s("pk_f"))
}

#[test]
fn agent_without_organization_creates_organization() {
    let h = CertTransactionHandler::new();
    let mut st = CertState::new();
    add_agent(&h, &mut st, "pk1", "Alice");
    let p = CreateOrganizationAction {
        id: s("org1"),
        name: s("Acme"),
        organization_type: OrganizationKind::StandardsBody,
        contacts: vec![ContactInfo { name: s("Alice"), language_code: s("en"), phone_number: s("+1") }],
        address: None,
    };
    assert!(h.create_organization(&p, &mut st, &s("pk1")).is_ok());
    let agent = st.get_agent(&s("pk1")).unwrap();
    assert_eq!(agent.organization_id, Some(s("org1")));
    let org = st.get_organization(&s("org1")).unwrap();
    assert_eq!(org.authorizations.len(), 2);
    assert_eq!(org.authorizations[0].public_key, "pk1");
    assert_eq!(org.authorizations[0].role, AuthorizationRole::Admin);
    assert_eq!(org.authorizations[1].public_key, "pk1");
    assert_eq!(org.authorizations[1].role, AuthorizationRole::Transactor);
    assert_eq!(org.name, "Acme");
    assert!(matches!(org.details, OrganizationDetails::NoDetails));
}

#[test]
fn unauthorized_update_is_refused() {
    let h = CertTransactionHandler::new();
    let mut st = CertState::new();
    add_agent(&h, &mut st, "pk1", "Alice");
    add_agent(&h, &mut st, "pk2", "Bob");
    add_org(&h, &mut st, "pk1", "org1", OrganizationKind::StandardsBody);
    let auth = AuthorizeAgentAction { public_key: s("pk2"), role: AuthorizationRole::Transactor };
    assert!(h.authorize_agent(&auth, &mut st, &s("pk1")).is_ok());
    assert_eq!(st.get_agent(&s("pk2")).unwrap().organization_id, Some(s("org1")));
    let upd = UpdateOrganizationAction { contacts: vec![contact("Mallory")], address: None };
    let r = h.update_organization(&upd, &mut st, &s("pk2"));
    assert!(is_invalid(&r));
    assert!(message(&r).contains("not ADMIN"));
    let org = st.get_organization(&s("org1")).unwrap();
    assert_eq!(org.contacts.len(), 1);
    assert_eq!(org.contacts[0].name, "Alice");
    assert_eq!(org.authorizations.len(), 3);
}

#[test]
fn admin_updates_contacts_and_factory_address() {
    let (h, mut st) = world();
    let upd = UpdateOrganizationAction { contacts: vec![contact("Zed"), contact("Yan")], address: None };
    assert!(h.update_organization(&upd, &mut st, &s("pk_sb")).is_ok());
    assert_eq!(st.get_organization(&s("sb")).unwrap().contacts.len(), 2);
    let bad = UpdateOrganizationAction { contacts: vec![], address: Some(address()) };
    assert!(is_invalid(&h.update_organization(&bad, &mut st, &s("pk_sb"))));
    let mut a = address();
    a.city = s("Shelbyville");
    let ok = UpdateOrganizationAction { contacts: vec![], address: Some(a) };
    assert!(h.update_organization(&ok, &mut st, &s("pk_f")).is_ok());
    let f = st.get_organization(&s("f")).unwrap();
    match f.details {
        OrganizationDetails::Factory(a) => assert_eq!(a.city, "Shelbyville"),
        _ => panic!("factory lost its address"),
    }
    assert_eq!(f.contacts.len(), 1);
}

#[test]
fn issue_certificate_from_request() {
    let (h, mut st) = world();
    assert!(accredit(&h, &mut st, 1000, 3000).is_ok());
    open_request(&h, &mut st, "r1");
    assert!(change_status(&h, &mut st, "r1", Status::InProgress).is_ok());
    let issue = IssueCertificateAction {
        id: s("c1"),
        source: IssueSource::FromRequest,
        request_id: s("r1"),
        certificate_data: vec![CertificateDatum { field: s("grade"), data: s("A") }],
        valid_from: 10,
        valid_to: 20,
        ..Default::default()
    };
    assert!(h.issue_certificate(&issue, &mut st, &s("pk_cb")).is_ok());
    let c = st.get_certificate(&s("c1")).unwrap();
    assert_eq!(c.standard_version, "v2");
    assert_eq!(c.factory_id, "f");
    assert_eq!(c.standard_id, "s");
    assert_eq!(c.certifying_body_id, "cb");
    assert_eq!(c.certificate_data.len(), 1);
    assert_eq!(st.get_request(&s("r1")).unwrap().status, Status::Certified);
    // a second issue of the same id is refused and changes nothing
    assert!(is_invalid(&h.issue_certificate(&issue, &mut st, &s("pk_cb"))));
}

#[test]
fn issue_from_open_request_is_refused() {
    let (h, mut st) = world();
    assert!(accredit(&h, &mut st, 1000, 3000).is_ok());
    open_request(&h, &mut st, "r1");
    let issue = IssueCertificateAction {
        id: s("c1"),
        source: IssueSource::FromRequest,
        request_id: s("r1"),
        valid_from: 10,
        valid_to: 20,
        ..Default::default()
    };
    assert!(is_invalid(&h.issue_certificate(&issue, &mut st, &s("pk_cb"))));
    assert!(st.get_certificate(&s("c1")).is_none());
    assert_eq!(st.get_request(&s("r1")).unwrap().status, Status::Open);
}

#[test]
fn issue_independent_uses_last_matching_accreditation() {
    let (h, mut st) = world();
    // without an accreditation the certifying body cannot issue
    let issue = IssueCertificateAction {
        id: s("c2"),
        source: IssueSource::Independent,
        factory_id: s("f"),
        standard_id: s("s"),
        valid_from: 10,
        valid_to: 20,
        ..Default::default()
    };
    assert!(is_invalid(&h.issue_certificate(&issue, &mut st, &s("pk_cb"))));
    assert!(accredit(&h, &mut st, 1000, 3000).is_ok());
    assert!(h.issue_certificate(&issue, &mut st, &s("pk_cb")).is_ok());
    assert_eq!(st.get_certificate(&s("c2")).unwrap().standard_version, "v2");
    // equal dates are refused
    let same = IssueCertificateAction { id: s("c3"), valid_from: 20, valid_to: 20, ..issue };
    assert!(is_invalid(&h.issue_certificate(&same, &mut st, &s("pk_cb"))));
}

#[test]
fn accreditation_date_rejection() {
    let (h, mut st) = world();
    let r = accredit(&h, &mut st, 999, 2000);
    assert!(is_invalid(&r));
    assert!(message(&r).contains("not valid from this date"));
    let cb = st.get_organization(&s("cb")).unwrap();
    assert!(matches!(cb.details, OrganizationDetails::NoDetails));
}

#[test]
fn accreditation_is_added_once_per_version() {
    let (h, mut st) = world();
    assert!(accredit(&h, &mut st, 1000, 2000).is_ok());
    assert!(is_invalid(&accredit(&h, &mut st, 1000, 2000)));
    assert!(is_invalid(&accredit(&h, &mut st, 1500, 1500)));
    let cb = st.get_organization(&s("cb")).unwrap();
    match cb.details {
        OrganizationDetails::CertifyingBody(v) => {
            assert_eq!(v.len(), 1);
            let a: &AccreditationEntry = &v[0];
            assert_eq!(a.standard_version, "v2");
            assert_eq!(a.accreditor_id, "sb");
            assert_eq!(a.valid_from, 1000);
            assert_eq!(a.valid_to, 2000);
        },
        _ => panic!("no accreditation recorded"),
    }
}

#[test]
fn request_status_moves_forward_only() {
    let (h, mut st) = world();
    open_request(&h, &mut st, "r1");
    assert_eq!(st.get_request(&s("r1")).unwrap().status, Status::Open);
    assert!(change_status(&h, &mut st, "r1", Status::InProgress).is_ok());
    assert!(change_status(&h, &mut st, "r1", Status::Closed).is_ok());
    assert!(is_invalid(&change_status(&h, &mut st, "r1", Status::InProgress)));
    assert_eq!(st.get_request(&s("r1")).unwrap().status, Status::Closed);
    open_request(&h, &mut st, "r2");
    assert!(is_invalid(&change_status(&h, &mut st, "r2", Status::Certified)));
    assert!(is_invalid(&change_status(&h, &mut st, "r2", Status::Open)));
    assert_eq!(st.get_request(&s("r2")).unwrap().status, Status::Open);
}

#[test]
fn agent_organization_never_changes() {
    let (h, mut st) = world();
    // pk_cb belongs to cb: the admin of sb cannot take it over
    let auth = AuthorizeAgentAction { public_key: s("pk_cb"), role: AuthorizationRole::Admin };
    assert!(is_invalid(&h.authorize_agent(&auth, &mut st, &s("pk_sb"))));
    assert_eq!(st.get_agent(&s("pk_cb")).unwrap().organization_id, Some(s("cb")));
    // nor can it create a second organization
    let p = CreateOrganizationAction {
        id: s("other"),
        name: s("Other"),
        organization_type: OrganizationKind::StandardsBody,
        contacts: vec![contact("Cat")],
        address: None,
    };
    assert!(is_invalid(&h.create_organization(&p, &mut st, &s("pk_cb"))));
    assert!(st.get_organization(&s("other")).is_none());
}

#[test]
fn agent_may_hold_both_roles_but_not_twice() {
    let h = CertTransactionHandler::new();
    let mut st = CertState::new();
    add_agent(&h, &mut st, "pk1", "Alice");
    add_agent(&h, &mut st, "pk2", "Bob");
    add_org(&h, &mut st, "pk1", "org1", OrganizationKind::Factory);
    let t = AuthorizeAgentAction { public_key: s("pk2"), role: AuthorizationRole::Transactor };
    let a = AuthorizeAgentAction { public_key: s("pk2"), role: AuthorizationRole::Admin };
    assert!(h.authorize_agent(&t, &mut st, &s("pk1")).is_ok());
    assert!(h.authorize_agent(&a, &mut st, &s("pk1")).is_ok());
    assert!(is_invalid(&h.authorize_agent(&t, &mut st, &s("pk1"))));
    assert_eq!(st.get_organization(&s("org1")).unwrap().authorizations.len(), 4);
}

#[test]
fn duplicate_agent_and_standard_version_are_refused() {
    let (h, mut st) = world();
    let r = h.create_agent(&CreateAgentAction { name: s("Again"), timestamp: 2 }, &mut st, &s("pk_sb"));
    assert!(is_invalid(&r));
    assert_eq!(st.get_agent(&s("pk_sb")).unwrap().name, "Sam");
    let us = UpdateStandardAction {
        standard_id: s("s"),
        version: s("v1"),
        description: s("again"),
        link: s("http://c"),
        approval_date: 2000,
    };
    assert!(is_invalid(&h.update_standard(&us, &mut st, &s("pk_sb"))));
    assert_eq!(st.get_standard(&s("s")).unwrap().versions.len(), 2);
    // a factory transactor cannot update a standard
    assert!(is_invalid(&h.update_standard(&us, &mut st, &s("pk_f"))));
}

fn payload_with(action: PayloadAction) -> CertificateRegistryPayload {
    CertificateRegistryPayload { action, ..Default::default() }
}

#[test]
fn payload_validation() {
    assert!(CertPayload::new(payload_with(PayloadAction::UnsetAction)).is_err());
    assert!(CertPayload::new(payload_with(PayloadAction::CreateAgent)).is_err());
    let mut p = payload_with(PayloadAction::CreateAgent);
    p.create_agent.name = s("Alice");
    assert!(CertPayload::new(p).is_ok());
    assert!(CertPayload::new(payload_with(PayloadAction::UpdateOrganization)).is_ok());

    let mut p = payload_with(PayloadAction::CreateOrganization);
    p.create_organization = CreateOrganizationAction {
        id: s("f"),
        name: s("F"),
        organization_type: OrganizationKind::Factory,
        contacts: vec![contact("A")],
        address: None,
    };
    assert!(CertPayload::new(p).is_err());
    let mut p = payload_with(PayloadAction::CreateOrganization);
    p.create_organization = CreateOrganizationAction {
        id: s("f"),
        name: s("F"),
        organization_type: OrganizationKind::StandardsBody,
        contacts: vec![contact("A")],
        address: Some(address()),
    };
    assert!(CertPayload::new(p).is_err());

    let mut p = payload_with(PayloadAction::AuthorizeAgent);
    p.authorize_agent.public_key = s("pk");
    assert!(CertPayload::new(p).is_err());

    let mut p = payload_with(PayloadAction::IssueCertificate);
    p.issue_certificate = IssueCertificateAction {
        id: s("c"),
        source: IssueSource::Independent,
        factory_id: s("f"),
        standard_id: s("s"),
        valid_from: 0,
        valid_to: 5,
        ..Default::default()
    };
    assert!(CertPayload::new(p).is_err());

    let mut p = payload_with(PayloadAction::ChangeRequestStatusAction);
    p.change_request_status_action = ChangeRequestStatusAction { request_id: s("r"), status: Status::Certified };
    assert!(CertPayload::new(p).is_err());

    let mut p = payload_with(PayloadAction::CreateStandard);
    p.create_standard = CreateStandardAction {
        standard_id: s("s"),
        name: s("n"),
        version: s("v"),
        description: s("d"),
        link: s("l"),
        approval_date: 0,
    };
    assert!(CertPayload::new(p).is_err());

    let mut p = payload_with(PayloadAction::AccreditCertifyingBodyAction);
    p.accredit_certifying_body_action = AccreditCertifyingBodyAction {
        certifying_body_id: s("cb"),
        standard_id: s("s"),
        valid_from: 1,
        valid_to: 0,
    };
    assert!(CertPayload::new(p).is_err());
}

#[test]
fn apply_validates_then_dispatches() {
    let h = CertTransactionHandler::new();
    let mut st = CertState::new();
    let bad = payload_with(PayloadAction::CreateAgent);
    assert!(h.apply(bad, &s("pk1"), &mut st).is_err());
    assert!(st.get_agent(&s("pk1")).is_none());
    let mut good = payload_with(PayloadAction::CreateAgent);
    good.create_agent.name = s("Alice");
    assert!(h.apply(good, &s("pk1"), &mut st).is_ok());
    assert_eq!(st.get_agent(&s("pk1")).unwrap().name, "Alice");
}

#[test]
fn same_transactions_give_same_state() {
    let (_, a) = world();
    let (_, b) = world();
    for id in ["sb", "cb", "f"] {
        let x = a.get_organization(&s(id)).unwrap();
        let y = b.get_organization(&s(id)).unwrap();
        assert_eq!(format!("{:?}", x), format!("{:?}", y));
    }
    let x = a.get_standard(&s("s")).unwrap();
    let y = b.get_standard(&s("s")).unwrap();
    assert_eq!(format!("{:?}", x), format!("{:?}", y));
}

#[test]
fn addresses_have_fixed_shape() {
    let ns = get_family_namespace_prefix();
    assert_eq!(ns.len(), 6);
    let a = make_agent_address("pk1");
    let o = make_organization_address("pk1");
    assert_eq!(a.len(), 70);
    assert!(a.starts_with(&ns));
    assert_eq!(&a[6..8], "00");
    assert_eq!(&o[6..8], "02");
    assert_eq!(a[8..], o[8..]);
    assert_ne!(make_agent_address("pk2"), a);
    assert!(a.chars().all(|c| c.is_ascii_hexdigit()));
}

#[test]
fn keys_order_by_bytes() {
    assert!(key_less(&s("a"), &s("b")));
    assert!(key_less(&s("ab"), &s("b")));
    assert!(key_less(&s("a"), &s("ab")));
    assert!(!key_less(&s("b"), &s("ab")));
    assert!(!key_less(&s("a"), &s("a")));
    assert!(key_less(&s(""), &s("a")));
}

#[test]
fn many_agents_share_buckets_safely() {
    let h = CertTransactionHandler::new();
    let mut st = CertState::new();
    for i in 0..50 {
        add_agent(&h, &mut st, &format!("key{}", i), &format!("name{}", i));
    }
    for i in 0..50 {
        let a = st.get_agent(&format!("key{}", i)).unwrap();
        assert_eq!(a.name, format!("name{}", i));
    }
    assert!(st.get_agent(&s("key50")).is_none());
}

#[test]
fn state_bytes_do_not_depend_on_write_order() {
    let h = CertTransactionHandler::new();
    let mut first = CertState::new();
    let mut second = CertState::new();
    let keys = ["k1", "k2", "k3", "k4"];
    for k in keys.iter() {
        add_agent(&h, &mut first, k, "same");
    }
    for k in keys.iter().rev() {
        add_agent(&h, &mut second, k, "same");
    }
    for k in keys.iter() {
        let address = make_agent_address(k);
        let a = first.get_state_entry(RecordKind::Agent, &address);
        let b = second.get_state_entry(RecordKind::Agent, &address);
        assert_eq!(a, b);
        let entries: Vec<Agent> = decode_container(&a).unwrap();
        assert!(entries.iter().any(|e| e.public_key == *k));
    }
    let nowhere = make_agent_address("absent");
    let empty = first.get_state_entry(RecordKind::Agent, &nowhere);
    assert_eq!(empty, vec![0u8; 8]);
    let org_address = make_organization_address("k1");
    assert_eq!(first.get_state_entry(RecordKind::Organization, &org_address), vec![0u8; 8]);
}

#[test]
fn delete_removes_one_record_and_empties_its_bucket() {
    let h = CertTransactionHandler::new();
    let mut st = CertState::new();
    add_agent(&h, &mut st, "k1", "one");
    add_agent(&h, &mut st, "k2", "two");
    st.delete_agent(&s("k1"));
    assert!(st.get_agent(&s("k1")).is_none());
    assert_eq!(st.get_agent(&s("k2")).unwrap().name, "two");
    assert_eq!(st.get_state_entry(RecordKind::Agent, &make_agent_address("k1")), vec![0u8; 8]);
    st.delete_agent(&s("absent"));
    assert_eq!(st.get_agent(&s("k2")).unwrap().name, "two");
    add_agent(&h, &mut st, "k1", "again");
    assert_eq!(st.get_agent(&s("k1")).unwrap().name, "again");
}

#[test]
fn address_layout_from_digests() {
    let family = "abcdef0123";
    let id_digest: String = std::iter::repeat("0123456789").take(7).collect();
    let a = address_from_digests(family, "02", &id_digest);
    assert_eq!(a.len(), 70);
    assert_eq!(&a[..6], "abcdef");
    assert_eq!(&a[6..8], "02");
    assert_eq!(&a[8..], &id_digest[..62]);
}

#[test]
fn handler_names_its_family() {
    let h = CertTransactionHandler::new();
    assert_eq!(h.family_name(), "cert_registry");
    assert_eq!(h.family_versions(), vec![s("0.1")]);
    let ns = h.namespaces();
    assert_eq!(ns.len(), 1);
    assert_eq!(ns[0], get_family_namespace_prefix());
    assert!(make_agent_address("x").starts_with(&ns[0]));
}
