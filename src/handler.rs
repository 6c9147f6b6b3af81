//! The transaction processor: one handler per action, each of which reads
//! state, checks every precondition, and only then writes.
use vstd::prelude::*;
use crate::addressing::{get_family_namespace_prefix, namespace_of, FAMILY_NAME, FAMILY_VERSION};
use crate::entities::{
    accreditations_view, authorizations_view, copy_accreditations, copy_contacts, copy_data,
    versions_view, AccreditationEntry, Agent, AuthorizationEntry, AuthorizationRole,
    CertificateRecord, OrganizationDetails, OrganizationKind, OrganizationRecord, RequestRecord,
    StandardRecord, Status, VersionEntry,
};
use crate::payload::{
    Action, CertPayload, CertificateRegistryPayload,
    AccreditCertifyingBodyAction, ApplyError, AuthorizeAgentAction, ChangeRequestStatusAction,
    CreateAgentAction, CreateOrganizationAction, CreateStandardAction, IssueCertificateAction,
    IssueSource, OpenRequestAction, UpdateOrganizationAction, UpdateStandardAction,
};
use crate::rules::{
    transaction_next,
    accredit_certifying_body_next, accreditations_of, authorize_agent_next,
    change_request_status_next, create_agent_next, create_organization_next,
    create_standard_next, has_accreditation, has_role, issue_certificate_next,
    last_accreditation_for, open_request_next, outcome, signer_org_id, update_organization_next,
    update_standard_next,
};
use crate::state::CertState;

verus! {

/// The transaction family this processor serves.
pub struct CertTransactionHandler {
    family_name: String,
    family_versions: Vec<String>,
    namespaces: Vec<String>,
}

fn refuse(message: &str) -> (r: Result<(), ApplyError>)
    ensures
        r is Err && r->Err_0 is InvalidTransaction,
{
    Err(ApplyError::InvalidTransaction(message.to_string()))
}

/// Whether `org` authorizes `public_key` as `role`, by a scan of its list.
pub fn holds_role(org: &OrganizationRecord, public_key: &String, role: AuthorizationRole) -> (r: bool)
    ensures
        r == has_role(org@, public_key@, role),
{
    let mut i: usize = 0;
    while i < org.authorizations.len()
        invariant
            i <= org.authorizations@.len(),
            forall|j: int|
                0 <= j < i ==> !((#[trigger] org.authorizations@[j])@.public_key == public_key@
                    && org.authorizations@[j].role == role),
        decreases org.authorizations@.len() - i,
    {
        let a = &org.authorizations[i];
        if a.public_key == *public_key && a.role == role {
            assert(org@.authorizations[i as int] == a@);
            return true;
        }
        i += 1;
    }
    proof {
        if has_role(org@, public_key@, role) {
            let j = choose|j: int|
                0 <= j < org@.authorizations.len() && (#[trigger] org@.authorizations[j]).public_key
                    == public_key@ && org@.authorizations[j].role == role;
            assert(org@.authorizations[j] == org.authorizations@[j]@);
        }
    }
    false
}

/// The signer's agent, the id of its organization and that organization,
/// where all three exist.
fn signer_organization(state: &CertState, signer: &String) -> (r: Option<(Agent, String, OrganizationRecord)>)
    requires
        state.wf(),
    ensures
        match r {
            Some((a, o, org)) => {
                &&& signer_org_id(state@, signer@) == Some(o@)
                &&& state@.agents[signer@] == a@
                &&& state@.organizations[o@] == org@
                &&& a.public_key@ == signer@
                &&& org.id@ == o@
            },
            None => signer_org_id(state@, signer@) is None,
        },
{
    match state.get_agent(signer) {
        None => None,
        Some(agent) => {
            let org_id = match &agent.organization_id {
                Some(o) => o.clone(),
                None => {
                    return None;
                },
            };
            match state.get_organization(&org_id) {
                None => None,
                Some(org) => Some((agent, org_id, org)),
            }
        },
    }
}

/// Index of the last accreditation for `standard_id`, if there is one.
fn find_last_accreditation(accs: &Vec<AccreditationEntry>, standard_id: &String) -> (r: Option<usize>)
    ensures
        match r {
            Some(i) => i < accs@.len() && last_accreditation_for(
                accreditations_view(accs@),
                standard_id@,
            ) == Some(accs@[i as int]@),
            None => last_accreditation_for(accreditations_view(accs@), standard_id@) is None,
        },
{
    let ghost av = accreditations_view(accs@);
    let mut i: usize = accs.len();
    assert(av.subrange(0, i as int) =~= av);
    while i > 0
        invariant
            i <= accs@.len(),
            av == accreditations_view(accs@),
            last_accreditation_for(av, standard_id@) == last_accreditation_for(
                av.subrange(0, i as int),
                standard_id@,
            ),
        decreases i,
    {
        if accs[i - 1].standard_id == *standard_id {
            return Some(i - 1);
        }
        assert(av.subrange(0, i as int).drop_last() =~= av.subrange(0, i - 1));
        i -= 1;
    }
    None
}

/// Whether some version of the list is named `version`.
fn holds_version(versions: &Vec<VersionEntry>, version: &String) -> (r: bool)
    ensures
        r == exists|i: int| 0 <= i < versions@.len() && (#[trigger] versions@[i]).version@ == version@,
{
    let mut i: usize = 0;
    while i < versions.len()
        invariant
            i <= versions@.len(),
            forall|j: int| 0 <= j < i ==> (#[trigger] versions@[j]).version@ != version@,
        decreases versions@.len() - i,
    {
        if versions[i].version == *version {
            return true;
        }
        i += 1;
    }
    false
}

/// Whether some accreditation of the list pairs `standard_id` with `version`.
fn holds_accreditation(accs: &Vec<AccreditationEntry>, standard_id: &String, version: &String) -> (r: bool)
    ensures
        r == has_accreditation(accreditations_view(accs@), standard_id@, version@),
{
    let ghost av = accreditations_view(accs@);
    let mut i: usize = 0;
    while i < accs.len()
        invariant
            i <= accs@.len(),
            av == accreditations_view(accs@),
            forall|j: int|
                0 <= j < i ==> !((#[trigger] av[j]).standard_id == standard_id@
                    && av[j].standard_version == version@),
        decreases accs@.len() - i,
    {
        if accs[i].standard_id == *standard_id && accs[i].standard_version == *version {
            assert(av[i as int] == accs@[i as int]@);
            return true;
        }
        i += 1;
    }
    false
}

fn copy_strings(v: &Vec<String>) -> (r: Vec<String>)
    ensures
        r@.map_values(|x: String| x@) == v@.map_values(|x: String| x@),
{
    let mut out: Vec<String> = Vec::new();
    let mut i: usize = 0;
    while i < v.len()
        invariant
            i <= v@.len(),
            out@.len() == i,
            forall|j: int| 0 <= j < i ==> (#[trigger] out@[j])@ == v@[j]@,
        decreases v@.len() - i,
    {
        out.push(v[i].clone());
        i += 1;
    }
    assert(out@.map_values(|x: String| x@) =~= v@.map_values(|x: String| x@));
    out
}

impl CertTransactionHandler {
    pub closed spec fn spec_family_name(&self) -> Seq<char> {
        self.family_name@
    }

    pub closed spec fn spec_family_versions(&self) -> Seq<Seq<char>> {
        self.family_versions@.map_values(|v: String| v@)
    }

    pub closed spec fn spec_namespaces(&self) -> Seq<Seq<char>> {
        self.namespaces@.map_values(|v: String| v@)
    }

    pub fn new() -> (r: CertTransactionHandler)
        ensures
            r.spec_family_name() == FAMILY_NAME@,
            r.spec_family_versions() == seq![FAMILY_VERSION@],
            r.spec_namespaces() == seq![namespace_of()],
    {
        let h = CertTransactionHandler {
            family_name: FAMILY_NAME.to_string(),
            family_versions: vec![FAMILY_VERSION.to_string()],
            namespaces: vec![get_family_namespace_prefix()],
        };
        assert(h.spec_family_versions() =~= seq![FAMILY_VERSION@]);
        assert(h.spec_namespaces() =~= seq![namespace_of()]);
        h
    }

    pub fn family_name(&self) -> (r: String)
        ensures
            r@ == self.spec_family_name(),
    {
        self.family_name.clone()
    }

    pub fn family_versions(&self) -> (r: Vec<String>)
        ensures
            r@.map_values(|x: String| x@) == self.spec_family_versions(),
    {
        copy_strings(&self.family_versions)
    }

    /// The address prefixes this processor reads and writes.
    pub fn namespaces(&self) -> (r: Vec<String>)
        ensures
            r@.map_values(|x: String| x@) == self.spec_namespaces(),
    {
        copy_strings(&self.namespaces)
    }

    /// Creates the signer's agent.
    pub fn create_agent(
        &self,
        payload: &CreateAgentAction,
        state: &mut CertState,
        signer_public_key: &String,
    ) -> (r: Result<(), ApplyError>)
        requires
            old(state).wf(),
        ensures
            final(state).wf(),
            outcome(r, old(state)@, final(state)@, create_agent_next(old(state)@, *payload, signer_public_key@)),
    {
        if state.get_agent(signer_public_key).is_some() {
            return refuse("Agent already exists");
        }
        state.set_agent(
            Agent {
                public_key: signer_public_key.clone(),
                name: payload.name.clone(),
                organization_id: None,
                timestamp: payload.timestamp,
            },
        );
        Ok(())
    }

    /// Creates an organization whose first ADMIN and TRANSACTOR is the signer.
    pub fn create_organization(
        &self,
        payload: &CreateOrganizationAction,
        state: &mut CertState,
        signer_public_key: &String,
    ) -> (r: Result<(), ApplyError>)
        requires
            old(state).wf(),
        ensures
            final(state).wf(),
            outcome(r, old(state)@, final(state)@, create_organization_next(old(state)@, *payload, signer_public_key@)),
    {
        if state.get_organization(&payload.id).is_some() {
            return refuse("Organization already exists");
        }
        let mut agent = match state.get_agent(signer_public_key) {
            Some(a) => a,
            None => {
                return refuse("No agent exists");
            },
        };
        if agent.organization_id.is_some() {
            return refuse("Agent is already associated with an organization");
        }
        let details = if payload.organization_type == OrganizationKind::Factory {
            match &payload.address {
                Some(a) => OrganizationDetails::Factory(a.duplicate()),
                None => {
                    return refuse("Factory must be created with an address");
                },
            }
        } else {
            OrganizationDetails::NoDetails
        };
        let authorizations = vec![
            AuthorizationEntry { public_key: signer_public_key.clone(), role: AuthorizationRole::Admin },
            AuthorizationEntry {
                public_key: signer_public_key.clone(),
                role: AuthorizationRole::Transactor,
            },
        ];
        let organization = OrganizationRecord {
            id: payload.id.clone(),
            name: payload.name.clone(),
            kind: payload.organization_type,
            contacts: copy_contacts(&payload.contacts),
            authorizations,
            details,
        };
        proof {
            let expected = create_organization_next(old(state)@, *payload, signer_public_key@)->Some_0;
            assert(authorizations_view(organization.authorizations@) =~= expected.organizations[payload.id@].authorizations);
        }
        agent.organization_id = Some(payload.id.clone());
        state.set_agent(agent);
        state.set_organization(organization);
        Ok(())
    }
    /// Replaces the address or the contacts of the signer's organization.
    pub fn update_organization(
        &self,
        payload: &UpdateOrganizationAction,
        state: &mut CertState,
        signer_public_key: &String,
    ) -> (r: Result<(), ApplyError>)
        requires
            old(state).wf(),
        ensures
            final(state).wf(),
            outcome(r, old(state)@, final(state)@, update_organization_next(old(state)@, *payload, signer_public_key@)),
    {
        let (_agent, _org_id, mut organization) = match signer_organization(state, signer_public_key) {
            Some(t) => t,
            None => {
                return refuse("Agent is not associated with an existing organization");
            },
        };
        if !holds_role(&organization, signer_public_key, AuthorizationRole::Admin) {
            return refuse("Agent is not ADMIN of the organization");
        }
        match &payload.address {
            Some(a) => {
                if organization.kind != OrganizationKind::Factory {
                    return refuse("Unable to update address: organization is not a factory");
                }
                organization.details = OrganizationDetails::Factory(a.duplicate());
            },
            None => {},
        }
        if payload.contacts.len() > 0 {
            organization.contacts = copy_contacts(&payload.contacts);
        }
        state.set_organization(organization);
        Ok(())
    }

    /// Gives an agent a role in the signer's organization, and makes it a
    /// member of that organization.
    pub fn authorize_agent(
        &self,
        payload: &AuthorizeAgentAction,
        state: &mut CertState,
        signer_public_key: &String,
    ) -> (r: Result<(), ApplyError>)
        requires
            old(state).wf(),
        ensures
            final(state).wf(),
            outcome(r, old(state)@, final(state)@, authorize_agent_next(old(state)@, *payload, signer_public_key@)),
    {
        let (_agent, org_id, mut organization) = match signer_organization(state, signer_public_key) {
            Some(t) => t,
            None => {
                return refuse("Signer is not associated with an existing organization");
            },
        };
        if !holds_role(&organization, signer_public_key, AuthorizationRole::Admin) {
            return refuse("Signer is not ADMIN of the organization");
        }
        let mut target = match state.get_agent(&payload.public_key) {
            Some(a) => a,
            None => {
                return refuse("No agent exists");
            },
        };
        match &target.organization_id {
            Some(o) => {
                if *o != org_id {
                    return refuse("Agent is already associated with a different organization");
                }
            },
            None => {},
        }
        if holds_role(&organization, &payload.public_key, payload.role) {
            return refuse("Agent is already authorized for this role");
        }
        organization.authorizations.push(
            AuthorizationEntry { public_key: payload.public_key.clone(), role: payload.role },
        );
        proof {
            let expected = authorize_agent_next(old(state)@, *payload, signer_public_key@)->Some_0;
            assert(authorizations_view(organization.authorizations@) =~= expected.organizations[org_id@].authorizations);
        }
        target.organization_id = Some(org_id);
        state.set_organization(organization);
        state.set_agent(target);
        Ok(())
    }
    /// Issues a certificate from a request in progress, or independently of
    /// any request, with the version of the signer's latest accreditation for
    /// the standard.
    pub fn issue_certificate(
        &self,
        payload: &IssueCertificateAction,
        state: &mut CertState,
        signer_public_key: &String,
    ) -> (r: Result<(), ApplyError>)
        requires
            old(state).wf(),
        ensures
            final(state).wf(),
            outcome(r, old(state)@, final(state)@, issue_certificate_next(old(state)@, *payload, signer_public_key@)),
    {
        if state.get_certificate(&payload.id).is_some() {
            return refuse("Certificate already exists");
        }
        let (_agent, org_id, organization) = match signer_organization(state, signer_public_key) {
            Some(t) => t,
            None => {
                return refuse("Agent is not associated with an existing organization");
            },
        };
        if organization.kind != OrganizationKind::CertifyingBody {
            return refuse("Organization is not a certifying body");
        }
        if !holds_role(&organization, signer_public_key, AuthorizationRole::Transactor) {
            return refuse("Agent is not a TRANSACTOR of the organization");
        }
        if payload.valid_to <= payload.valid_from {
            return refuse("Invalid dates. Valid to must be after valid from");
        }
        let (factory_id, standard_id, request) = match payload.source {
            IssueSource::FromRequest => {
                let request = match state.get_request(&payload.request_id) {
                    Some(q) => q,
                    None => {
                        return refuse("Request does not exist");
                    },
                };
                if request.status != Status::InProgress {
                    return refuse("Only requests with status IN_PROGRESS can be certified");
                }
                (request.factory_id.clone(), request.standard_id.clone(), Some(request))
            },
            IssueSource::Independent => {
                match state.get_organization(&payload.factory_id) {
                    Some(f) => {
                        if f.kind != OrganizationKind::Factory {
                            return refuse("Organization is not a factory");
                        }
                    },
                    None => {
                        return refuse("Factory does not exist");
                    },
                }
                (payload.factory_id.clone(), payload.standard_id.clone(), None)
            },
            IssueSource::UnsetSource => {
                return refuse("Issue Certificate source must be set");
            },
        };
        let standard_version = match &organization.details {
            OrganizationDetails::CertifyingBody(accs) => {
                match find_last_accreditation(accs, &standard_id) {
                    Some(i) => accs[i].standard_version.clone(),
                    None => {
                        return refuse("Certifying body is not accredited for the standard");
                    },
                }
            },
            _ => {
                return refuse("Certifying body is not accredited for the standard");
            },
        };
        let certificate = CertificateRecord {
            id: payload.id.clone(),
            certifying_body_id: org_id,
            factory_id,
            standard_id,
            standard_version,
            valid_from: payload.valid_from,
            valid_to: payload.valid_to,
            certificate_data: copy_data(&payload.certificate_data),
        };
        match request {
            Some(mut q) => {
                q.status = Status::Certified;
                state.set_request(q);
            },
            None => {},
        }
        state.set_certificate(certificate);
        Ok(())
    }

    /// Opens a certification request of the signer's factory.
    pub fn open_request(
        &self,
        payload: &OpenRequestAction,
        state: &mut CertState,
        signer_public_key: &String,
    ) -> (r: Result<(), ApplyError>)
        requires
            old(state).wf(),
        ensures
            final(state).wf(),
            outcome(r, old(state)@, final(state)@, open_request_next(old(state)@, *payload, signer_public_key@)),
    {
        let (_agent, org_id, organization) = match signer_organization(state, signer_public_key) {
            Some(t) => t,
            None => {
                return refuse("Agent is not associated with an existing organization");
            },
        };
        if organization.kind != OrganizationKind::Factory {
            return refuse("Organization is not a factory");
        }
        if !holds_role(&organization, signer_public_key, AuthorizationRole::Transactor) {
            return refuse("Agent is not authorized to open a request");
        }
        if state.get_request(&payload.id).is_some() {
            return refuse("Request already exists");
        }
        if state.get_standard(&payload.standard_id).is_none() {
            return refuse("No standard with this id exists");
        }
        state.set_request(
            RequestRecord {
                id: payload.id.clone(),
                factory_id: org_id,
                standard_id: payload.standard_id.clone(),
                status: Status::Open,
                request_date: payload.request_date,
            },
        );
        Ok(())
    }

    /// Moves a request of the signer's factory forward.
    pub fn change_request_status(
        &self,
        payload: &ChangeRequestStatusAction,
        state: &mut CertState,
        signer_public_key: &String,
    ) -> (r: Result<(), ApplyError>)
        requires
            old(state).wf(),
        ensures
            final(state).wf(),
            outcome(r, old(state)@, final(state)@, change_request_status_next(old(state)@, *payload, signer_public_key@)),
    {
        let mut request = match state.get_request(&payload.request_id) {
            Some(q) => q,
            None => {
                return refuse("Request does not exist");
            },
        };
        let (_agent, org_id, organization) = match signer_organization(state, signer_public_key) {
            Some(t) => t,
            None => {
                return refuse("Agent is not associated with an existing organization");
            },
        };
        if !holds_role(&organization, signer_public_key, AuthorizationRole::Transactor) {
            return refuse("Agent is not authorized to update the request");
        }
        if request.factory_id != org_id {
            return refuse("Agent is not authorized to update the request");
        }
        if request.status != Status::Open && request.status != Status::InProgress {
            return refuse("Once CLOSED or CERTIFIED, the request status can not be modified");
        }
        if payload.status != Status::InProgress && payload.status != Status::Closed {
            return refuse("Status can only be set to IN_PROGRESS or CLOSED");
        }
        request.status = payload.status;
        state.set_request(request);
        Ok(())
    }

    /// Creates a standard of the signer's standards body, with one version.
    pub fn create_standard(
        &self,
        payload: &CreateStandardAction,
        state: &mut CertState,
        signer_public_key: &String,
    ) -> (r: Result<(), ApplyError>)
        requires
            old(state).wf(),
        ensures
            final(state).wf(),
            outcome(r, old(state)@, final(state)@, create_standard_next(old(state)@, *payload, signer_public_key@)),
    {
        if state.get_standard(&payload.standard_id).is_some() {
            return refuse("Standard already exists");
        }
        let (_agent, org_id, organization) = match signer_organization(state, signer_public_key) {
            Some(t) => t,
            None => {
                return refuse("Agent is not associated with an existing organization");
            },
        };
        if organization.kind != OrganizationKind::StandardsBody {
            return refuse("Organization associated with agent cannot create standards");
        }
        if !holds_role(&organization, signer_public_key, AuthorizationRole::Transactor) {
            return refuse("Agent is not authorized to create a certification standard");
        }
        let versions = vec![
            VersionEntry {
                version: payload.version.clone(),
                description: payload.description.clone(),
                link: payload.link.clone(),
                approval_date: payload.approval_date,
            },
        ];
        let standard = StandardRecord {
            id: payload.standard_id.clone(),
            name: payload.name.clone(),
            organization_id: org_id,
            versions,
        };
        proof {
            let expected = create_standard_next(old(state)@, *payload, signer_public_key@)->Some_0;
            assert(versions_view(standard.versions@) =~= expected.standards[payload.standard_id@].versions);
        }
        state.set_standard(standard);
        Ok(())
    }

    /// Appends a new version to a standard of the signer's standards body.
    pub fn update_standard(
        &self,
        payload: &UpdateStandardAction,
        state: &mut CertState,
        signer_public_key: &String,
    ) -> (r: Result<(), ApplyError>)
        requires
            old(state).wf(),
        ensures
            final(state).wf(),
            outcome(r, old(state)@, final(state)@, update_standard_next(old(state)@, *payload, signer_public_key@)),
    {
        let mut standard = match state.get_standard(&payload.standard_id) {
            Some(sd) => sd,
            None => {
                return refuse("Standard does not exist");
            },
        };
        let found = holds_version(&standard.versions, &payload.version);
        proof {
            let sd = old(state)@.standards[payload.standard_id@];
            if found {
                let i = choose|i: int| 0 <= i < standard.versions@.len() && (#[trigger] standard.versions@[i]).version@ == payload.version@;
                assert(sd.versions[i] == standard.versions@[i]@);
            } else {
                assert forall|i: int| 0 <= i < sd.versions.len() implies (#[trigger] sd.versions[i]).version != payload.version@ by {
                    assert(sd.versions[i] == standard.versions@[i]@);
                }
            }
        }
        if found {
            return refuse("Version already exists");
        }
        let (_agent, org_id, organization) = match signer_organization(state, signer_public_key) {
            Some(t) => t,
            None => {
                return refuse("Agent is not associated with an existing organization");
            },
        };
        if organization.kind != OrganizationKind::StandardsBody {
            return refuse("Organization associated with agent cannot update standards");
        }
        if !holds_role(&organization, signer_public_key, AuthorizationRole::Transactor) {
            return refuse("Agent is not authorized to update a certification standard");
        }
        if standard.organization_id != org_id {
            return refuse("Organization did not create the certification standard");
        }
        standard.versions.push(
            VersionEntry {
                version: payload.version.clone(),
                description: payload.description.clone(),
                link: payload.link.clone(),
                approval_date: payload.approval_date,
            },
        );
        proof {
            let expected = update_standard_next(old(state)@, *payload, signer_public_key@)->Some_0;
            assert(versions_view(standard.versions@) =~= expected.standards[payload.standard_id@].versions);
        }
        state.set_standard(standard);
        Ok(())
    }

    /// Accredits a certifying body for the latest version of a standard of
    /// the signer's standards body.
    pub fn accredit_certifying_body(
        &self,
        payload: &AccreditCertifyingBodyAction,
        state: &mut CertState,
        signer_public_key: &String,
    ) -> (r: Result<(), ApplyError>)
        requires
            old(state).wf(),
        ensures
            final(state).wf(),
            outcome(r, old(state)@, final(state)@, accredit_certifying_body_next(old(state)@, *payload, signer_public_key@)),
    {
        let (_agent, org_id, organization) = match signer_organization(state, signer_public_key) {
            Some(t) => t,
            None => {
                return refuse("Agent is not associated with an existing organization");
            },
        };
        if organization.kind != OrganizationKind::StandardsBody {
            return refuse("Organization associated with agent cannot accredit certifying bodies");
        }
        if !holds_role(&organization, signer_public_key, AuthorizationRole::Transactor) {
            return refuse("Agent is not authorized to accredit certifying bodies");
        }
        let mut certifying_body = match state.get_organization(&payload.certifying_body_id) {
            Some(o) => o,
            None => {
                return refuse("No organization exists");
            },
        };
        if certifying_body.kind != OrganizationKind::CertifyingBody {
            return refuse("Only certifying bodies may be accredited");
        }
        let standard = match state.get_standard(&payload.standard_id) {
            Some(sd) => sd,
            None => {
                return refuse("No standard with this id exists");
            },
        };
        if standard.organization_id != org_id {
            return refuse("Signer's organization did not create the certification standard");
        }
        let n = standard.versions.len();
        if n == 0 {
            return refuse("Invalid version for standard");
        }
        let latest = &standard.versions[n - 1];
        let mut accreditations = match &certifying_body.details {
            OrganizationDetails::CertifyingBody(v) => copy_accreditations(v),
            _ => Vec::new(),
        };
        proof {
            let sd = old(state)@.standards[payload.standard_id@];
            assert(sd.versions.last() == latest@);
            assert(accreditations_view(accreditations@) =~= accreditations_of(certifying_body@.details));
        }
        if holds_accreditation(&accreditations, &payload.standard_id, &latest.version) {
            return refuse("Accreditation for this standard version already exists");
        }
        if payload.valid_from < latest.approval_date {
            return refuse("Invalid date, Standard is not valid from this date");
        }
        if payload.valid_to <= payload.valid_from {
            return refuse("Invalid dates. Valid to must be after valid from");
        }
        accreditations.push(
            AccreditationEntry {
                standard_id: payload.standard_id.clone(),
                standard_version: latest.version.clone(),
                accreditor_id: org_id,
                valid_from: payload.valid_from,
                valid_to: payload.valid_to,
            },
        );
        certifying_body.details = OrganizationDetails::CertifyingBody(accreditations);
        proof {
            let expected = accredit_certifying_body_next(old(state)@, *payload, signer_public_key@)->Some_0;
            assert(certifying_body@.details == expected.organizations[payload.certifying_body_id@].details) by {
                assert(accreditations_view(accreditations@) =~= accreditations_of(old(state)@.organizations[payload.certifying_body_id@].details).push(
                    accreditations@.last()@));
            }
        }
        state.set_organization(certifying_body);
        Ok(())
    }
    /// Checks the shape of a payload, then applies its action for the signer.
    pub fn apply(
        &self,
        payload: CertificateRegistryPayload,
        signer_public_key: &String,
        state: &mut CertState,
    ) -> (r: Result<(), ApplyError>)
        requires
            old(state).wf(),
        ensures
            final(state).wf(),
            outcome(r, old(state)@, final(state)@, transaction_next(old(state)@, payload, signer_public_key@)),
    {
        let cert_payload = match CertPayload::new(payload) {
            Ok(p) => p,
            Err(e) => {
                return Err(e);
            },
        };
        match cert_payload.get_action() {
            Action::CreateAgent(p) => self.create_agent(p, state, signer_public_key),
            Action::CreateOrganization(p) => self.create_organization(p, state, signer_public_key),
            Action::UpdateOrganization(p) => self.update_organization(p, state, signer_public_key),
            Action::AuthorizeAgent(p) => self.authorize_agent(p, state, signer_public_key),
            Action::IssueCertificate(p) => self.issue_certificate(p, state, signer_public_key),
            Action::CreateStandard(p) => self.create_standard(p, state, signer_public_key),
            Action::UpdateStandard(p) => self.update_standard(p, state, signer_public_key),
            Action::OpenRequest(p) => self.open_request(p, state, signer_public_key),
            Action::ChangeRequestStatus(p) => self.change_request_status(p, state, signer_public_key),
            Action::AccreditCertifyingBody(p) => self.accredit_certifying_body(
                p,
                state,
                signer_public_key,
            ),
        }
    }
}

} // verus!
