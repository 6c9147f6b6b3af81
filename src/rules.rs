//! What each action does to state, as functions from the state before to the
//! state after; `None` where the action is refused.
use vstd::prelude::*;
use crate::entities::{
    contacts_view, data_view, AccreditationModel, AgentModel, AuthorizationModel,
    AuthorizationRole, CertificateModel, DetailsModel, OrganizationKind, OrganizationModel,
    RequestModel, StandardModel, Status, VersionModel,
};
use crate::payload::{
    payload_is_valid, selected_action, Action, CertificateRegistryPayload,
    AccreditCertifyingBodyAction, ApplyError, AuthorizeAgentAction, ChangeRequestStatusAction,
    CreateAgentAction, CreateOrganizationAction, CreateStandardAction, IssueCertificateAction,
    IssueSource, OpenRequestAction, UpdateOrganizationAction, UpdateStandardAction,
};
use crate::state::StateModel;

verus! {

/// The organization holds an authorization of `role` for `public_key`.
pub open spec fn has_role(o: OrganizationModel, public_key: Seq<char>, role: AuthorizationRole) -> bool {
    exists|i: int|
        0 <= i < o.authorizations.len() && (#[trigger] o.authorizations[i]).public_key == public_key
            && o.authorizations[i].role == role
}

/// The id of the signer's organization, where the signer's agent exists and
/// belongs to an organization that exists.
pub open spec fn signer_org_id(s: StateModel, signer: Seq<char>) -> Option<Seq<char>> {
    if s.agents.contains_key(signer) {
        match s.agents[signer].organization_id {
            Some(o) => if s.organizations.contains_key(o) {
                Some(o)
            } else {
                None
            },
            None => None,
        }
    } else {
        None
    }
}

/// The signer is a TRANSACTOR of its own organization, which has kind `kind`.
pub open spec fn transactor_of_kind(s: StateModel, signer: Seq<char>, kind: OrganizationKind) -> bool {
    match signer_org_id(s, signer) {
        Some(o) => s.organizations[o].kind == kind && has_role(
            s.organizations[o],
            signer,
            AuthorizationRole::Transactor,
        ),
        None => false,
    }
}

/// The accreditations of a certifying body, in the order they were added.
pub open spec fn accreditations_of(d: DetailsModel) -> Seq<AccreditationModel> {
    match d {
        DetailsModel::CertifyingBody(v) => v,
        _ => Seq::empty(),
    }
}

/// The last accreditation in `accs` for `standard_id`.
pub open spec fn last_accreditation_for(accs: Seq<AccreditationModel>, standard_id: Seq<char>) -> Option<AccreditationModel>
    decreases accs.len(),
{
    if accs.len() == 0 {
        None
    } else if accs.last().standard_id == standard_id {
        Some(accs.last())
    } else {
        last_accreditation_for(accs.drop_last(), standard_id)
    }
}

/// The outcome `r` of an action and the state `after` agree with `next`.
pub open spec fn outcome(
    r: Result<(), ApplyError>,
    before: StateModel,
    after: StateModel,
    next: Option<StateModel>,
) -> bool {
    match next {
        Some(n) => r is Ok && after == n,
        None => r is Err && r->Err_0 is InvalidTransaction && after == before,
    }
}

pub open spec fn create_agent_next(s: StateModel, p: CreateAgentAction, signer: Seq<char>) -> Option<StateModel> {
    if s.agents.contains_key(signer) {
        None
    } else {
        Some(
            StateModel {
                agents: s.agents.insert(
                    signer,
                    AgentModel {
                        public_key: signer,
                        name: p.name@,
                        organization_id: None,
                        timestamp: p.timestamp,
                    },
                ),
                ..s
            },
        )
    }
}

/// The organization that a create-organization action makes.
pub open spec fn new_organization(p: CreateOrganizationAction, signer: Seq<char>) -> OrganizationModel {
    OrganizationModel {
        id: p.id@,
        name: p.name@,
        kind: p.organization_type,
        contacts: contacts_view(p.contacts@),
        authorizations: seq![
            AuthorizationModel { public_key: signer, role: AuthorizationRole::Admin },
            AuthorizationModel { public_key: signer, role: AuthorizationRole::Transactor },
        ],
        details: if p.organization_type == OrganizationKind::Factory {
            DetailsModel::Factory(p.address->Some_0@)
        } else {
            DetailsModel::NoDetails
        },
    }
}

pub open spec fn create_organization_next(
    s: StateModel,
    p: CreateOrganizationAction,
    signer: Seq<char>,
) -> Option<StateModel> {
    if s.organizations.contains_key(p.id@) || !s.agents.contains_key(signer)
        || s.agents[signer].organization_id is Some || (p.organization_type
        == OrganizationKind::Factory && p.address is None) {
        None
    } else {
        Some(
            StateModel {
                agents: s.agents.insert(
                    signer,
                    AgentModel { organization_id: Some(p.id@), ..s.agents[signer] },
                ),
                organizations: s.organizations.insert(p.id@, new_organization(p, signer)),
                ..s
            },
        )
    }
}

pub open spec fn update_organization_next(
    s: StateModel,
    p: UpdateOrganizationAction,
    signer: Seq<char>,
) -> Option<StateModel> {
    match signer_org_id(s, signer) {
        None => None,
        Some(o) => {
            let org = s.organizations[o];
            if !has_role(org, signer, AuthorizationRole::Admin) {
                None
            } else if p.address is Some && org.kind != OrganizationKind::Factory {
                None
            } else {
                let updated = OrganizationModel {
                    details: match p.address {
                        Some(a) => DetailsModel::Factory(a@),
                        None => org.details,
                    },
                    contacts: if p.contacts@.len() > 0 {
                        contacts_view(p.contacts@)
                    } else {
                        org.contacts
                    },
                    ..org
                };
                Some(StateModel { organizations: s.organizations.insert(o, updated), ..s })
            }
        },
    }
}

pub open spec fn authorize_agent_next(s: StateModel, p: AuthorizeAgentAction, signer: Seq<char>) -> Option<StateModel> {
    match signer_org_id(s, signer) {
        None => None,
        Some(o) => {
            let org = s.organizations[o];
            let target = p.public_key@;
            if !has_role(org, signer, AuthorizationRole::Admin) || !s.agents.contains_key(target) {
                None
            } else if s.agents[target].organization_id is Some
                && s.agents[target].organization_id != Some(o) {
                None
            } else if has_role(org, target, p.role) {
                None
            } else {
                let updated = OrganizationModel {
                    authorizations: org.authorizations.push(
                        AuthorizationModel { public_key: target, role: p.role },
                    ),
                    ..org
                };
                Some(
                    StateModel {
                        organizations: s.organizations.insert(o, updated),
                        agents: s.agents.insert(
                            target,
                            AgentModel { organization_id: Some(o), ..s.agents[target] },
                        ),
                        ..s
                    },
                )
            }
        },
    }
}

/// The certificate that certifying body `o` issues for `factory` and
/// `standard`, where it holds an accreditation for that standard.
pub open spec fn issued_certificate(
    s: StateModel,
    p: IssueCertificateAction,
    o: Seq<char>,
    factory: Seq<char>,
    standard: Seq<char>,
) -> Option<CertificateModel> {
    match last_accreditation_for(accreditations_of(s.organizations[o].details), standard) {
        None => None,
        Some(acc) => Some(
            CertificateModel {
                id: p.id@,
                certifying_body_id: o,
                factory_id: factory,
                standard_id: standard,
                standard_version: acc.standard_version,
                valid_from: p.valid_from,
                valid_to: p.valid_to,
                certificate_data: data_view(p.certificate_data@),
            },
        ),
    }
}

pub open spec fn issue_certificate_next(
    s: StateModel,
    p: IssueCertificateAction,
    signer: Seq<char>,
) -> Option<StateModel> {
    if s.certificates.contains_key(p.id@) || !transactor_of_kind(
        s,
        signer,
        OrganizationKind::CertifyingBody,
    ) || p.valid_to <= p.valid_from {
        None
    } else {
        let o = signer_org_id(s, signer)->Some_0;
        match p.source {
            IssueSource::FromRequest => {
                let rid = p.request_id@;
                if !s.requests.contains_key(rid) || s.requests[rid].status != Status::InProgress {
                    None
                } else {
                    let r = s.requests[rid];
                    match issued_certificate(s, p, o, r.factory_id, r.standard_id) {
                        None => None,
                        Some(c) => Some(
                            StateModel {
                                certificates: s.certificates.insert(p.id@, c),
                                requests: s.requests.insert(
                                    rid,
                                    RequestModel { status: Status::Certified, ..r },
                                ),
                                ..s
                            },
                        ),
                    }
                }
            },
            IssueSource::Independent => {
                let f = p.factory_id@;
                if !s.organizations.contains_key(f) || s.organizations[f].kind
                    != OrganizationKind::Factory {
                    None
                } else {
                    match issued_certificate(s, p, o, f, p.standard_id@) {
                        None => None,
                        Some(c) => Some(
                            StateModel { certificates: s.certificates.insert(p.id@, c), ..s },
                        ),
                    }
                }
            },
            IssueSource::UnsetSource => None,
        }
    }
}

pub open spec fn open_request_next(s: StateModel, p: OpenRequestAction, signer: Seq<char>) -> Option<StateModel> {
    if !transactor_of_kind(s, signer, OrganizationKind::Factory) || s.requests.contains_key(p.id@)
        || !s.standards.contains_key(p.standard_id@) {
        None
    } else {
        let o = signer_org_id(s, signer)->Some_0;
        Some(
            StateModel {
                requests: s.requests.insert(
                    p.id@,
                    RequestModel {
                        id: p.id@,
                        factory_id: o,
                        standard_id: p.standard_id@,
                        status: Status::Open,
                        request_date: p.request_date,
                    },
                ),
                ..s
            },
        )
    }
}

pub open spec fn change_request_status_next(
    s: StateModel,
    p: ChangeRequestStatusAction,
    signer: Seq<char>,
) -> Option<StateModel> {
    let rid = p.request_id@;
    if !s.requests.contains_key(rid) {
        None
    } else {
        match signer_org_id(s, signer) {
            None => None,
            Some(o) => {
                let r = s.requests[rid];
                if !has_role(s.organizations[o], signer, AuthorizationRole::Transactor)
                    || r.factory_id != o || !(r.status == Status::Open || r.status
                    == Status::InProgress) || !(p.status == Status::InProgress || p.status
                    == Status::Closed) {
                    None
                } else {
                    Some(
                        StateModel {
                            requests: s.requests.insert(rid, RequestModel { status: p.status, ..r }),
                            ..s
                        },
                    )
                }
            },
        }
    }
}

pub open spec fn create_standard_next(s: StateModel, p: CreateStandardAction, signer: Seq<char>) -> Option<StateModel> {
    if s.standards.contains_key(p.standard_id@) || !transactor_of_kind(
        s,
        signer,
        OrganizationKind::StandardsBody,
    ) {
        None
    } else {
        let o = signer_org_id(s, signer)->Some_0;
        Some(
            StateModel {
                standards: s.standards.insert(
                    p.standard_id@,
                    StandardModel {
                        id: p.standard_id@,
                        name: p.name@,
                        organization_id: o,
                        versions: seq![
                            VersionModel {
                                version: p.version@,
                                description: p.description@,
                                link: p.link@,
                                approval_date: p.approval_date,
                            },
                        ],
                    },
                ),
                ..s
            },
        )
    }
}

/// Some version of the standard is named `version`.
pub open spec fn has_version(sd: StandardModel, version: Seq<char>) -> bool {
    exists|i: int| 0 <= i < sd.versions.len() && (#[trigger] sd.versions[i]).version == version
}

pub open spec fn update_standard_next(s: StateModel, p: UpdateStandardAction, signer: Seq<char>) -> Option<StateModel> {
    let sid = p.standard_id@;
    if !s.standards.contains_key(sid) || has_version(s.standards[sid], p.version@)
        || !transactor_of_kind(s, signer, OrganizationKind::StandardsBody)
        || s.standards[sid].organization_id != signer_org_id(s, signer)->Some_0 {
        None
    } else {
        let sd = s.standards[sid];
        let v = VersionModel {
            version: p.version@,
            description: p.description@,
            link: p.link@,
            approval_date: p.approval_date,
        };
        Some(
            StateModel {
                standards: s.standards.insert(sid, StandardModel { versions: sd.versions.push(v), ..sd }),
                ..s
            },
        )
    }
}

/// Some accreditation in `accs` pairs `standard_id` with `version`.
pub open spec fn has_accreditation(accs: Seq<AccreditationModel>, standard_id: Seq<char>, version: Seq<char>) -> bool {
    exists|i: int|
        0 <= i < accs.len() && (#[trigger] accs[i]).standard_id == standard_id
            && accs[i].standard_version == version
}

pub open spec fn accredit_certifying_body_next(
    s: StateModel,
    p: AccreditCertifyingBodyAction,
    signer: Seq<char>,
) -> Option<StateModel> {
    let cbid = p.certifying_body_id@;
    let sid = p.standard_id@;
    if !transactor_of_kind(s, signer, OrganizationKind::StandardsBody) {
        None
    } else if !s.organizations.contains_key(cbid) || s.organizations[cbid].kind
        != OrganizationKind::CertifyingBody {
        None
    } else if !s.standards.contains_key(sid) || s.standards[sid].organization_id != signer_org_id(
        s,
        signer,
    )->Some_0 || s.standards[sid].versions.len() == 0 {
        None
    } else {
        let o = signer_org_id(s, signer)->Some_0;
        let cb = s.organizations[cbid];
        let latest = s.standards[sid].versions.last();
        let accs = accreditations_of(cb.details);
        if has_accreditation(accs, sid, latest.version) {
            None
        } else if p.valid_from < latest.approval_date || p.valid_to <= p.valid_from {
            None
        } else {
            let acc = AccreditationModel {
                standard_id: sid,
                standard_version: latest.version,
                accreditor_id: o,
                valid_from: p.valid_from,
                valid_to: p.valid_to,
            };
            let updated = OrganizationModel {
                details: DetailsModel::CertifyingBody(accs.push(acc)),
                ..cb
            };
            Some(StateModel { organizations: s.organizations.insert(cbid, updated), ..s })
        }
    }
}

/// What an action does to state.
pub open spec fn action_next(s: StateModel, a: Action, signer: Seq<char>) -> Option<StateModel> {
    match a {
        Action::CreateAgent(p) => create_agent_next(s, p, signer),
        Action::CreateOrganization(p) => create_organization_next(s, p, signer),
        Action::UpdateOrganization(p) => update_organization_next(s, p, signer),
        Action::AuthorizeAgent(p) => authorize_agent_next(s, p, signer),
        Action::IssueCertificate(p) => issue_certificate_next(s, p, signer),
        Action::CreateStandard(p) => create_standard_next(s, p, signer),
        Action::UpdateStandard(p) => update_standard_next(s, p, signer),
        Action::OpenRequest(p) => open_request_next(s, p, signer),
        Action::ChangeRequestStatus(p) => change_request_status_next(s, p, signer),
        Action::AccreditCertifyingBody(p) => accredit_certifying_body_next(s, p, signer),
    }
}

/// What a transaction does to state: a payload of the wrong shape is refused
/// before state is read.
pub open spec fn transaction_next(s: StateModel, p: CertificateRegistryPayload, signer: Seq<char>) -> Option<StateModel> {
    if payload_is_valid(p) {
        action_next(s, selected_action(p), signer)
    } else {
        None
    }
}

} // verus!
