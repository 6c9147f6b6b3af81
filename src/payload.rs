//! Transaction payloads and their stateless validation.
use vstd::prelude::*;
use crate::entities::{
    AuthorizationRole, CertificateDatum, ContactInfo, FactoryAddress, OrganizationKind, Status,
};

verus! {

/// Why a transaction was refused.
#[derive(Debug)]
pub enum ApplyError {
    /// A precondition of the action does not hold; state is unchanged.
    InvalidTransaction(String),
    /// State could not be read or written.
    InternalError(String),
}

/// Where the data of an issued certificate comes from.
#[derive(Clone, Copy, Debug, PartialEq, Eq, Structural, Default)]
pub enum IssueSource {
    #[default]
    UnsetSource,
    FromRequest,
    Independent,
}

/// The action tag of a payload.
#[derive(Clone, Copy, Debug, PartialEq, Eq, Structural, Default)]
pub enum PayloadAction {
    #[default]
    UnsetAction,
    CreateAgent,
    CreateOrganization,
    UpdateOrganization,
    AuthorizeAgent,
    IssueCertificate,
    CreateStandard,
    UpdateStandard,
    OpenRequestAction,
    ChangeRequestStatusAction,
    AccreditCertifyingBodyAction,
}

#[derive(Debug, Default)]
pub struct CreateAgentAction {
    pub name: String,
    pub timestamp: u64,
}

#[derive(Debug, Default)]
pub struct CreateOrganizationAction {
    pub id: String,
    pub name: String,
    pub organization_type: OrganizationKind,
    pub contacts: Vec<ContactInfo>,
    pub address: Option<FactoryAddress>,
}

#[derive(Debug, Default)]
pub struct UpdateOrganizationAction {
    pub contacts: Vec<ContactInfo>,
    pub address: Option<FactoryAddress>,
}

#[derive(Debug, Default)]
pub struct AuthorizeAgentAction {
    pub public_key: String,
    pub role: AuthorizationRole,
}

#[derive(Debug, Default)]
pub struct IssueCertificateAction {
    pub id: String,
    pub source: IssueSource,
    pub request_id: String,
    pub factory_id: String,
    pub standard_id: String,
    pub certificate_data: Vec<CertificateDatum>,
    pub valid_from: u64,
    pub valid_to: u64,
}

#[derive(Debug, Default)]
pub struct OpenRequestAction {
    pub id: String,
    pub standard_id: String,
    pub request_date: u64,
}

#[derive(Debug, Default)]
pub struct ChangeRequestStatusAction {
    pub request_id: String,
    pub status: Status,
}

#[derive(Debug, Default)]
pub struct CreateStandardAction {
    pub standard_id: String,
    pub name: String,
    pub version: String,
    pub description: String,
    pub link: String,
    pub approval_date: u64,
}

#[derive(Debug, Default)]
pub struct UpdateStandardAction {
    pub standard_id: String,
    pub version: String,
    pub description: String,
    pub link: String,
    pub approval_date: u64,
}

#[derive(Debug, Default)]
pub struct AccreditCertifyingBodyAction {
    pub certifying_body_id: String,
    pub standard_id: String,
    pub valid_from: u64,
    pub valid_to: u64,
}

/// A decoded transaction payload: a tag and one field per action kind, of
/// which only the one that the tag names is read.
#[derive(Debug, Default)]
pub struct CertificateRegistryPayload {
    pub action: PayloadAction,
    pub create_agent: CreateAgentAction,
    pub create_organization: CreateOrganizationAction,
    pub update_organization: UpdateOrganizationAction,
    pub authorize_agent: AuthorizeAgentAction,
    pub issue_certificate: IssueCertificateAction,
    pub create_standard: CreateStandardAction,
    pub update_standard: UpdateStandardAction,
    pub open_request_action: OpenRequestAction,
    pub change_request_status_action: ChangeRequestStatusAction,
    pub accredit_certifying_body_action: AccreditCertifyingBodyAction,
}

/// A validated action.
#[derive(Debug)]
pub enum Action {
    CreateAgent(CreateAgentAction),
    CreateOrganization(CreateOrganizationAction),
    UpdateOrganization(UpdateOrganizationAction),
    AuthorizeAgent(AuthorizeAgentAction),
    IssueCertificate(IssueCertificateAction),
    CreateStandard(CreateStandardAction),
    UpdateStandard(UpdateStandardAction),
    OpenRequest(OpenRequestAction),
    ChangeRequestStatus(ChangeRequestStatusAction),
    AccreditCertifyingBody(AccreditCertifyingBodyAction),
}

/// A payload whose shape has been checked.
#[derive(Debug)]
pub struct CertPayload {
    action: Action,
}

pub open spec fn filled(s: String) -> bool {
    s@.len() > 0
}

pub open spec fn address_is_valid(a: Option<FactoryAddress>, kind: OrganizationKind) -> bool {
    if kind == OrganizationKind::Factory {
        match a {
            Some(a) => filled(a.street_line_1) && filled(a.city) && filled(a.country),
            None => false,
        }
    } else {
        a is None
    }
}

/// The shape rules of each action, checked before any state is read.
pub open spec fn payload_is_valid(p: CertificateRegistryPayload) -> bool {
    match p.action {
        PayloadAction::UnsetAction => false,
        PayloadAction::CreateAgent => filled(p.create_agent.name),
        PayloadAction::CreateOrganization => {
            let c = p.create_organization;
            &&& filled(c.id)
            &&& filled(c.name)
            &&& c.contacts@.len() > 0
            &&& c.organization_type != OrganizationKind::UnsetType
            &&& address_is_valid(c.address, c.organization_type)
        },
        PayloadAction::UpdateOrganization => true,
        PayloadAction::AuthorizeAgent => {
            &&& filled(p.authorize_agent.public_key)
            &&& (p.authorize_agent.role == AuthorizationRole::Admin || p.authorize_agent.role
                == AuthorizationRole::Transactor)
        },
        PayloadAction::IssueCertificate => {
            let c = p.issue_certificate;
            &&& filled(c.id)
            &&& match c.source {
                IssueSource::UnsetSource => false,
                IssueSource::FromRequest => filled(c.request_id),
                IssueSource::Independent => filled(c.factory_id) && filled(c.standard_id),
            }
            &&& c.valid_from != 0
            &&& c.valid_to != 0
        },
        PayloadAction::OpenRequestAction => {
            filled(p.open_request_action.id) && filled(p.open_request_action.standard_id)
        },
        PayloadAction::ChangeRequestStatusAction => {
            let c = p.change_request_status_action;
            &&& filled(c.request_id)
            &&& (c.status == Status::InProgress || c.status == Status::Closed)
        },
        PayloadAction::CreateStandard => {
            let c = p.create_standard;
            &&& filled(c.standard_id)
            &&& filled(c.name)
            &&& filled(c.version)
            &&& filled(c.description)
            &&& filled(c.link)
            &&& c.approval_date != 0
        },
        PayloadAction::UpdateStandard => {
            let c = p.update_standard;
            &&& filled(c.standard_id)
            &&& filled(c.version)
            &&& filled(c.description)
            &&& filled(c.link)
            &&& c.approval_date != 0
        },
        PayloadAction::AccreditCertifyingBodyAction => {
            let c = p.accredit_certifying_body_action;
            &&& filled(c.certifying_body_id)
            &&& filled(c.standard_id)
            &&& c.valid_from != 0
            &&& c.valid_to != 0
        },
    }
}

/// The action that a valid payload's tag selects.
pub open spec fn selected_action(p: CertificateRegistryPayload) -> Action {
    match p.action {
        PayloadAction::CreateOrganization => Action::CreateOrganization(p.create_organization),
        PayloadAction::UpdateOrganization => Action::UpdateOrganization(p.update_organization),
        PayloadAction::AuthorizeAgent => Action::AuthorizeAgent(p.authorize_agent),
        PayloadAction::IssueCertificate => Action::IssueCertificate(p.issue_certificate),
        PayloadAction::CreateStandard => Action::CreateStandard(p.create_standard),
        PayloadAction::UpdateStandard => Action::UpdateStandard(p.update_standard),
        PayloadAction::OpenRequestAction => Action::OpenRequest(p.open_request_action),
        PayloadAction::ChangeRequestStatusAction => Action::ChangeRequestStatus(
            p.change_request_status_action,
        ),
        PayloadAction::AccreditCertifyingBodyAction => Action::AccreditCertifyingBody(
            p.accredit_certifying_body_action,
        ),
        _ => Action::CreateAgent(p.create_agent),
    }
}

fn is_blank(s: &String) -> (r: bool)
    ensures
        r == !filled(*s),
{
    s.as_str().is_empty()
}

fn invalid(message: &str) -> (r: ApplyError)
    ensures
        r is InvalidTransaction,
{
    ApplyError::InvalidTransaction(message.to_string())
}

impl CertPayload {
    /// The action this payload carries.
    pub closed spec fn spec_action(&self) -> Action {
        self.action
    }

    /// Checks the shape of a payload and keeps the action that its tag selects.
    pub fn new(payload: CertificateRegistryPayload) -> (r: Result<CertPayload, ApplyError>)
        ensures
            r is Ok <==> payload_is_valid(payload),
            match r {
                Ok(cp) => cp.spec_action() == selected_action(payload),
                Err(e) => e is InvalidTransaction,
            },
    {
        let ghost p = payload;
        match payload.action {
            PayloadAction::UnsetAction => Err(invalid("No action specified")),
            PayloadAction::CreateAgent => {
                if is_blank(&payload.create_agent.name) {
                    return Err(invalid("Name was not provided"));
                }
                Ok(CertPayload { action: Action::CreateAgent(payload.create_agent) })
            },
            PayloadAction::CreateOrganization => {
                let c = payload.create_organization;
                if is_blank(&c.id) {
                    return Err(invalid("create_organization.id is empty"));
                }
                if is_blank(&c.name) {
                    return Err(invalid("create_organization.name is empty"));
                }
                if c.contacts.len() == 0 {
                    return Err(invalid("create_organization.contacts is empty"));
                }
                if c.organization_type == OrganizationKind::UnsetType {
                    return Err(invalid("Organization type is unset"));
                }
                if c.organization_type == OrganizationKind::Factory {
                    match &c.address {
                        Some(a) => {
                            if is_blank(&a.street_line_1) || is_blank(&a.city) || is_blank(
                                &a.country,
                            ) {
                                return Err(invalid("Factory address is incomplete"));
                            }
                        },
                        None => {
                            return Err(invalid("Factory must be created with an address"));
                        },
                    }
                } else if c.address.is_some() {
                    return Err(invalid("Only a factory can have an address"));
                }
                Ok(CertPayload { action: Action::CreateOrganization(c) })
            },
            PayloadAction::UpdateOrganization => {
                Ok(CertPayload { action: Action::UpdateOrganization(payload.update_organization) })
            },
            PayloadAction::AuthorizeAgent => {
                let c = payload.authorize_agent;
                if is_blank(&c.public_key) {
                    return Err(invalid("authorize_agent.public_key is empty"));
                }
                if c.role == AuthorizationRole::UnsetRole {
                    return Err(
                        invalid("Agent role is UNSET. Set the role to TRANSACTOR or ADMIN"),
                    );
                }
                Ok(CertPayload { action: Action::AuthorizeAgent(c) })
            },
            PayloadAction::IssueCertificate => {
                let c = payload.issue_certificate;
                if is_blank(&c.id) {
                    return Err(invalid("issue_certificate.id is empty"));
                }
                match c.source {
                    IssueSource::UnsetSource => {
                        return Err(invalid("Issue Certificate source must be set"));
                    },
                    IssueSource::FromRequest => {
                        if is_blank(&c.request_id) {
                            return Err(invalid("issue_certificate.request_id is empty"));
                        }
                    },
                    IssueSource::Independent => {
                        if is_blank(&c.factory_id) {
                            return Err(invalid("issue_certificate.factory_id is empty"));
                        }
                        if is_blank(&c.standard_id) {
                            return Err(invalid("issue_certificate.standard_id is empty"));
                        }
                    },
                }
                if c.valid_from == 0 {
                    return Err(invalid("Certificate's valid_from field is invalid"));
                }
                if c.valid_to == 0 {
                    return Err(invalid("Certificate's valid_to field is invalid"));
                }
                Ok(CertPayload { action: Action::IssueCertificate(c) })
            },
            PayloadAction::OpenRequestAction => {
                let c = payload.open_request_action;
                if is_blank(&c.id) || is_blank(&c.standard_id) {
                    return Err(invalid("open_request_action has an empty field"));
                }
                Ok(CertPayload { action: Action::OpenRequest(c) })
            },
            PayloadAction::ChangeRequestStatusAction => {
                let c = payload.change_request_status_action;
                if is_blank(&c.request_id) {
                    return Err(invalid("change_request_status_action.request_id is empty"));
                }
                if c.status != Status::InProgress && c.status != Status::Closed {
                    return Err(
                        invalid("Status can only be set to IN_PROGRESS or CLOSED"),
                    );
                }
                Ok(CertPayload { action: Action::ChangeRequestStatus(c) })
            },
            PayloadAction::CreateStandard => {
                let c = payload.create_standard;
                if is_blank(&c.standard_id) || is_blank(&c.name) || is_blank(&c.version)
                    || is_blank(&c.description) || is_blank(&c.link) {
                    return Err(invalid("create_standard has an empty field"));
                }
                if c.approval_date == 0 {
                    return Err(invalid("Approval date must be provided"));
                }
                Ok(CertPayload { action: Action::CreateStandard(c) })
            },
            PayloadAction::UpdateStandard => {
                let c = payload.update_standard;
                if is_blank(&c.standard_id) || is_blank(&c.version) || is_blank(&c.description)
                    || is_blank(&c.link) {
                    return Err(invalid("update_standard has an empty field"));
                }
                if c.approval_date == 0 {
                    return Err(invalid("Approval date must be provided"));
                }
                Ok(CertPayload { action: Action::UpdateStandard(c) })
            },
            PayloadAction::AccreditCertifyingBodyAction => {
                let c = payload.accredit_certifying_body_action;
                if is_blank(&c.certifying_body_id) || is_blank(&c.standard_id) {
                    return Err(invalid("accredit_certifying_body_action has an empty field"));
                }
                if c.valid_from == 0 {
                    return Err(invalid("Accreditation's valid_from field is invalid"));
                }
                if c.valid_to == 0 {
                    return Err(invalid("Accreditation's valid_to field is invalid"));
                }
                Ok(CertPayload { action: Action::AccreditCertifyingBody(c) })
            },
        }
    }

    pub fn get_action(&self) -> (r: &Action)
        ensures
            *r == self.spec_action(),
    {
        &self.action
    }
}

} // verus!
