//! Properties of whole transactions, proved over the transition functions.
use vstd::prelude::*;
use crate::entities::{
    AccreditationModel, AuthorizationModel, AuthorizationRole, DetailsModel, OrganizationKind,
    OrganizationModel, Status,
};
use crate::payload::{
    selected_action, AccreditCertifyingBodyAction, Action, AuthorizeAgentAction,
    CertificateRegistryPayload, ChangeRequestStatusAction, CreateAgentAction,
    CreateOrganizationAction, CreateStandardAction, IssueCertificateAction, IssueSource,
    OpenRequestAction, UpdateOrganizationAction, UpdateStandardAction,
};
use crate::rules::{
    has_role, last_accreditation_for, signer_org_id, transactor_of_kind,
    accredit_certifying_body_next, accreditations_of, authorize_agent_next,
    change_request_status_next, create_agent_next, create_organization_next,
    create_standard_next, issue_certificate_next, open_request_next, outcome, transaction_next,
    update_organization_next, update_standard_next,
};
use crate::state::{entry_bytes, RecordKind, StateModel};

verus! {

/// Once an agent belongs to an organization, every accepted transaction
/// keeps the agent and that organization.
pub proof fn lemma_agent_organization_is_stable(
    s: StateModel,
    p: CertificateRegistryPayload,
    signer: Seq<char>,
    key: Seq<char>,
)
    requires
        transaction_next(s, p, signer) is Some,
        s.agents.contains_key(key),
        s.agents[key].organization_id is Some,
    ensures
        transaction_next(s, p, signer)->Some_0.agents.contains_key(key),
        transaction_next(s, p, signer)->Some_0.agents[key].organization_id == s.agents[key].organization_id,
{
}

/// The rank of a request status along its lifecycle.
pub open spec fn status_rank(st: Status) -> int {
    match st {
        Status::UnsetStatus => -1,
        Status::Open => 0,
        Status::InProgress => 1,
        Status::Closed => 2,
        Status::Certified => 2,
    }
}

/// A status that a request may move to from `from` in one transaction.
pub open spec fn allowed_step(from: Status, to: Status) -> bool {
    ||| from == to
    ||| from == Status::Open && (to == Status::InProgress || to == Status::Closed)
    ||| from == Status::InProgress && (to == Status::Closed || to == Status::Certified)
}

/// Requests only move forward: a new request starts OPEN; an existing one
/// keeps its status or moves OPEN to IN_PROGRESS or CLOSED, or IN_PROGRESS to
/// CLOSED or CERTIFIED; CLOSED and CERTIFIED never change.
pub proof fn lemma_request_lifecycle(
    s: StateModel,
    p: CertificateRegistryPayload,
    signer: Seq<char>,
    id: Seq<char>,
)
    requires
        transaction_next(s, p, signer) is Some,
        transaction_next(s, p, signer)->Some_0.requests.contains_key(id),
    ensures
        ({
            let t = transaction_next(s, p, signer)->Some_0;
            if s.requests.contains_key(id) {
                &&& allowed_step(s.requests[id].status, t.requests[id].status)
                &&& status_rank(s.requests[id].status) <= status_rank(t.requests[id].status)
                &&& (s.requests[id].status == Status::Closed || s.requests[id].status
                    == Status::Certified) ==> t.requests[id].status == s.requests[id].status
            } else {
                t.requests[id].status == Status::Open
            }
        }),
{
}

/// A certificate issued from a request and the request's move to CERTIFIED
/// happen in the same transaction.
pub proof fn lemma_issue_from_request_certifies(
    s: StateModel,
    p: CertificateRegistryPayload,
    signer: Seq<char>,
)
    requires
        transaction_next(s, p, signer) is Some,
        p.action == crate::payload::PayloadAction::IssueCertificate,
        p.issue_certificate.source == IssueSource::FromRequest,
    ensures
        ({
            let t = transaction_next(s, p, signer)->Some_0;
            let c = p.issue_certificate;
            &&& !s.certificates.contains_key(c.id@)
            &&& t.certificates.contains_key(c.id@)
            &&& s.requests.contains_key(c.request_id@)
            &&& s.requests[c.request_id@].status == Status::InProgress
            &&& t.requests[c.request_id@].status == Status::Certified
            &&& t.certificates[c.id@].factory_id == s.requests[c.request_id@].factory_id
            &&& t.certificates[c.id@].standard_id == s.requests[c.request_id@].standard_id
        }),
{
}

/// The state after a transaction is a function of the state before, the
/// payload and the signer: two runs that agree on these agree on the outcome.
pub proof fn lemma_transaction_is_deterministic(
    before: StateModel,
    p: CertificateRegistryPayload,
    signer: Seq<char>,
    r1: Result<(), crate::payload::ApplyError>,
    after1: StateModel,
    r2: Result<(), crate::payload::ApplyError>,
    after2: StateModel,
)
    requires
        outcome(r1, before, after1, transaction_next(before, p, signer)),
        outcome(r2, before, after2, transaction_next(before, p, signer)),
    ensures
        after1 == after2,
        r1 is Ok <==> r2 is Ok,
{
}

/// No two authorizations of a list are the same (key, role) pair.
pub open spec fn authorizations_unique(auths: Seq<AuthorizationModel>) -> bool {
    forall|i: int, j: int| 0 <= i < j < auths.len() ==> auths[i] != auths[j]
}

/// An organization holds kind-specific details only of its own kind.
pub open spec fn details_match_kind(o: OrganizationModel) -> bool {
    match o.details {
        DetailsModel::NoDetails => true,
        DetailsModel::Factory(_) => o.kind == OrganizationKind::Factory,
        DetailsModel::CertifyingBody(_) => o.kind == OrganizationKind::CertifyingBody,
    }
}

/// Each accreditation names an existing version of an existing standard,
/// starts no earlier than that version's approval and ends after it starts.
pub open spec fn accreditations_valid(s: StateModel, accs: Seq<AccreditationModel>) -> bool {
    forall|i: int|
        0 <= i < accs.len() ==> {
            let a = #[trigger] accs[i];
            &&& a.valid_to > a.valid_from
            &&& s.standards.contains_key(a.standard_id)
            &&& exists|j: int|
                0 <= j < s.standards[a.standard_id].versions.len()
                    && (#[trigger] s.standards[a.standard_id].versions[j]).version == a.standard_version
                    && a.valid_from >= s.standards[a.standard_id].versions[j].approval_date
        }
}

/// The organization-level part of the invariant.
pub open spec fn organization_valid(s: StateModel, o: OrganizationModel) -> bool {
    &&& authorizations_unique(o.authorizations)
    &&& details_match_kind(o)
    &&& accreditations_valid(s, accreditations_of(o.details))
}

/// `t` keeps every standard of `s`, and every version of it in place.
pub open spec fn standards_extend(s: StateModel, t: StateModel) -> bool {
    forall|k: Seq<char>|
        #[trigger] s.standards.contains_key(k) ==> {
            &&& t.standards.contains_key(k)
            &&& s.standards[k].versions.len() <= t.standards[k].versions.len()
            &&& forall|j: int|
                0 <= j < s.standards[k].versions.len() ==> t.standards[k].versions[j]
                    == s.standards[k].versions[j]
        }
}

proof fn lemma_accreditations_stay_valid(s: StateModel, t: StateModel, accs: Seq<AccreditationModel>)
    requires
        accreditations_valid(s, accs),
        standards_extend(s, t),
    ensures
        accreditations_valid(t, accs),
{
    assert forall|i: int| 0 <= i < accs.len() implies {
        let a = #[trigger] accs[i];
        &&& a.valid_to > a.valid_from
        &&& t.standards.contains_key(a.standard_id)
        &&& exists|j: int|
            0 <= j < t.standards[a.standard_id].versions.len()
                && (#[trigger] t.standards[a.standard_id].versions[j]).version == a.standard_version
                && a.valid_from >= t.standards[a.standard_id].versions[j].approval_date
    } by {
        let a = accs[i];
        assert(s.standards.contains_key(a.standard_id));
        let j = choose|j: int|
            0 <= j < s.standards[a.standard_id].versions.len()
                && (#[trigger] s.standards[a.standard_id].versions[j]).version == a.standard_version
                && a.valid_from >= s.standards[a.standard_id].versions[j].approval_date;
        assert(t.standards[a.standard_id].versions[j] == s.standards[a.standard_id].versions[j]);
    }
}

/// Organizations other than `changed` are the same in `t` as in `s`, and
/// `changed`, where `t` has it, is valid in `t`.
proof fn lemma_organizations_stay_valid(s: StateModel, t: StateModel, changed: Seq<char>)
    requires
        state_invariant(s),
        standards_extend(s, t),
        forall|k: Seq<char>|
            k != changed ==> (#[trigger] t.organizations.contains_key(k) == s.organizations.contains_key(k)),
        forall|k: Seq<char>|
            k != changed && #[trigger] s.organizations.contains_key(k) ==> t.organizations[k] == s.organizations[k],
        t.organizations.contains_key(changed) ==> organization_valid(t, t.organizations[changed]),
    ensures
        forall|k: Seq<char>|
            #[trigger] t.organizations.contains_key(k) ==> organization_valid(t, t.organizations[k]),
{
    assert forall|k: Seq<char>| #[trigger] t.organizations.contains_key(k) implies organization_valid(t, t.organizations[k]) by {
        if k != changed {
            assert(s.organizations.contains_key(k));
            lemma_accreditations_stay_valid(s, t, accreditations_of(s.organizations[k].details));
        }
    }
}

/// What holds of every state that accepted transactions reach from the
/// empty state.
pub open spec fn state_invariant(s: StateModel) -> bool {
    &&& forall|k: Seq<char>| #[trigger] s.agents.contains_key(k) ==> s.agents[k].public_key == k
    &&& forall|k: Seq<char>| #[trigger] s.organizations.contains_key(k) ==> s.organizations[k].id == k
    &&& forall|k: Seq<char>| #[trigger] s.standards.contains_key(k) ==> s.standards[k].id == k
    &&& forall|k: Seq<char>| #[trigger] s.requests.contains_key(k) ==> s.requests[k].id == k
    &&& forall|k: Seq<char>| #[trigger] s.certificates.contains_key(k) ==> s.certificates[k].id == k
    &&& forall|k: Seq<char>|
        #[trigger] s.agents.contains_key(k) && s.agents[k].organization_id is Some
            ==> s.organizations.contains_key(s.agents[k].organization_id->Some_0)
    &&& forall|k: Seq<char>|
        #[trigger] s.organizations.contains_key(k) ==> organization_valid(s, s.organizations[k])
    &&& forall|k: Seq<char>|
        #[trigger] s.certificates.contains_key(k) ==> s.certificates[k].valid_to
            > s.certificates[k].valid_from
}

/// The empty state meets the invariant.
pub proof fn lemma_empty_state_invariant(s: StateModel)
    requires
        s.agents.is_empty(),
        s.organizations.is_empty(),
        s.certificates.is_empty(),
        s.requests.is_empty(),
        s.standards.is_empty(),
    ensures
        state_invariant(s),
{
}

/// Every accepted transaction keeps the invariant.
pub proof fn lemma_transaction_keeps_invariant(
    s: StateModel,
    p: CertificateRegistryPayload,
    signer: Seq<char>,
)
    requires
        state_invariant(s),
        transaction_next(s, p, signer) is Some,
    ensures
        state_invariant(transaction_next(s, p, signer)->Some_0),
{
    match selected_action(p) {
        Action::CreateAgent(a) => lemma_create_agent_keeps_invariant(s, a, signer),
        Action::CreateOrganization(a) => lemma_create_organization_keeps_invariant(s, a, signer),
        Action::UpdateOrganization(a) => lemma_update_organization_keeps_invariant(s, a, signer),
        Action::AuthorizeAgent(a) => lemma_authorize_agent_keeps_invariant(s, a, signer),
        Action::IssueCertificate(a) => lemma_issue_certificate_keeps_invariant(s, a, signer),
        Action::CreateStandard(a) => lemma_create_standard_keeps_invariant(s, a, signer),
        Action::UpdateStandard(a) => lemma_update_standard_keeps_invariant(s, a, signer),
        Action::OpenRequest(a) => lemma_open_request_keeps_invariant(s, a, signer),
        Action::ChangeRequestStatus(a) => lemma_change_request_status_keeps_invariant(s, a, signer),
        Action::AccreditCertifyingBody(a) => lemma_accredit_certifying_body_keeps_invariant(s, a, signer),
    }
}

proof fn lemma_create_agent_keeps_invariant(s: StateModel, p: CreateAgentAction, signer: Seq<char>)
    requires
        state_invariant(s),
        create_agent_next(s, p, signer) is Some,
    ensures
        state_invariant(create_agent_next(s, p, signer)->Some_0),
{
}

proof fn lemma_create_organization_keeps_invariant(s: StateModel, p: CreateOrganizationAction, signer: Seq<char>)
    requires
        state_invariant(s),
        create_organization_next(s, p, signer) is Some,
    ensures
        state_invariant(create_organization_next(s, p, signer)->Some_0),
{
    let t = create_organization_next(s, p, signer)->Some_0;
    let auths = t.organizations[p.id@].authorizations;
    assert(auths[0] != auths[1]);
    assert(accreditations_of(t.organizations[p.id@].details) =~= Seq::<AccreditationModel>::empty());
    lemma_organizations_stay_valid(s, t, p.id@);
}

proof fn lemma_update_organization_keeps_invariant(s: StateModel, p: UpdateOrganizationAction, signer: Seq<char>)
    requires
        state_invariant(s),
        update_organization_next(s, p, signer) is Some,
    ensures
        state_invariant(update_organization_next(s, p, signer)->Some_0),
{
}

proof fn lemma_authorize_agent_keeps_invariant(s: StateModel, p: AuthorizeAgentAction, signer: Seq<char>)
    requires
        state_invariant(s),
        authorize_agent_next(s, p, signer) is Some,
    ensures
        state_invariant(authorize_agent_next(s, p, signer)->Some_0),
{
}

proof fn lemma_issue_certificate_keeps_invariant(s: StateModel, p: IssueCertificateAction, signer: Seq<char>)
    requires
        state_invariant(s),
        issue_certificate_next(s, p, signer) is Some,
    ensures
        state_invariant(issue_certificate_next(s, p, signer)->Some_0),
{
}

proof fn lemma_create_standard_keeps_invariant(s: StateModel, p: CreateStandardAction, signer: Seq<char>)
    requires
        state_invariant(s),
        create_standard_next(s, p, signer) is Some,
    ensures
        state_invariant(create_standard_next(s, p, signer)->Some_0),
{
    let t = create_standard_next(s, p, signer)->Some_0;
    let k = p.standard_id@;
    if s.organizations.contains_key(k) {
        lemma_accreditations_stay_valid(s, t, accreditations_of(s.organizations[k].details));
    }
    lemma_organizations_stay_valid(s, t, k);
}

proof fn lemma_update_standard_keeps_invariant(s: StateModel, p: UpdateStandardAction, signer: Seq<char>)
    requires
        state_invariant(s),
        update_standard_next(s, p, signer) is Some,
    ensures
        state_invariant(update_standard_next(s, p, signer)->Some_0),
{
    let t = update_standard_next(s, p, signer)->Some_0;
    let k = p.standard_id@;
    assert(standards_extend(s, t)) by {
        assert forall|x: Seq<char>| #[trigger] s.standards.contains_key(x) implies {
            &&& t.standards.contains_key(x)
            &&& s.standards[x].versions.len() <= t.standards[x].versions.len()
            &&& forall|j: int|
                0 <= j < s.standards[x].versions.len() ==> t.standards[x].versions[j]
                    == s.standards[x].versions[j]
        } by {
            if x == k {
                assert forall|j: int| 0 <= j < s.standards[x].versions.len() implies t.standards[x].versions[j]
                    == s.standards[x].versions[j] by {
                    assert(t.standards[x].versions == s.standards[x].versions.push(t.standards[x].versions.last()));
                }
            }
        }
    }
    if s.organizations.contains_key(k) {
        lemma_accreditations_stay_valid(s, t, accreditations_of(s.organizations[k].details));
    }
    lemma_organizations_stay_valid(s, t, k);
}

proof fn lemma_open_request_keeps_invariant(s: StateModel, p: OpenRequestAction, signer: Seq<char>)
    requires
        state_invariant(s),
        open_request_next(s, p, signer) is Some,
    ensures
        state_invariant(open_request_next(s, p, signer)->Some_0),
{
}

proof fn lemma_change_request_status_keeps_invariant(s: StateModel, p: ChangeRequestStatusAction, signer: Seq<char>)
    requires
        state_invariant(s),
        change_request_status_next(s, p, signer) is Some,
    ensures
        state_invariant(change_request_status_next(s, p, signer)->Some_0),
{
}

proof fn lemma_accredit_certifying_body_keeps_invariant(s: StateModel, p: AccreditCertifyingBodyAction, signer: Seq<char>)
    requires
        state_invariant(s),
        accredit_certifying_body_next(s, p, signer) is Some,
    ensures
        state_invariant(accredit_certifying_body_next(s, p, signer)->Some_0),
{
    let t = accredit_certifying_body_next(s, p, signer)->Some_0;
    let cbid = p.certifying_body_id@;
    let sid = p.standard_id@;
    let accs = accreditations_of(s.organizations[cbid].details);
    let new_accs = accreditations_of(t.organizations[cbid].details);
    assert(new_accs == accs.push(new_accs.last()));
    assert(accreditations_valid(t, new_accs)) by {
        assert forall|i: int| 0 <= i < new_accs.len() implies {
            let a = #[trigger] new_accs[i];
            &&& a.valid_to > a.valid_from
            &&& t.standards.contains_key(a.standard_id)
            &&& exists|j: int|
                0 <= j < t.standards[a.standard_id].versions.len()
                    && (#[trigger] t.standards[a.standard_id].versions[j]).version == a.standard_version
                    && a.valid_from >= t.standards[a.standard_id].versions[j].approval_date
        } by {
            if i == accs.len() {
                let j = s.standards[sid].versions.len() - 1;
                let latest = s.standards[sid].versions.last();
                assert(t.standards == s.standards);
                assert(new_accs[i].standard_id == sid);
                assert(new_accs[i].standard_version == latest.version);
                assert(new_accs[i].valid_from >= latest.approval_date);
                assert(new_accs[i].valid_to > new_accs[i].valid_from);
                assert(t.standards[sid].versions[j] == latest);
            } else {
                assert(new_accs[i] == accs[i]);
                assert(t.standards == s.standards);
                assert(accreditations_valid(s, accs));
            }
        }
    }
    lemma_organizations_stay_valid(s, t, cbid);
}


/// An accepted action was signed by an agent with the role it needs in its
/// own organization: ADMIN to update the organization or authorize agents,
/// TRANSACTOR of an organization of the right kind for every creation, and
/// of the owning organization to change a request or a standard or to
/// accredit for a standard. An issued certificate carries the version of
/// the issuer's last accreditation for its standard.
pub proof fn lemma_accepted_actions_are_authorized(
    s: StateModel,
    p: CertificateRegistryPayload,
    signer: Seq<char>,
)
    requires
        transaction_next(s, p, signer) is Some,
    ensures
        ({
            let t = transaction_next(s, p, signer)->Some_0;
            let o = signer_org_id(s, signer)->Some_0;
            match selected_action(p) {
                Action::UpdateOrganization(_) => signer_org_id(s, signer) is Some && has_role(
                    s.organizations[o],
                    signer,
                    AuthorizationRole::Admin,
                ),
                Action::AuthorizeAgent(_) => signer_org_id(s, signer) is Some && has_role(
                    s.organizations[o],
                    signer,
                    AuthorizationRole::Admin,
                ),
                Action::IssueCertificate(a) => {
                    &&& transactor_of_kind(s, signer, OrganizationKind::CertifyingBody)
                    &&& t.certificates[a.id@].certifying_body_id == o
                    &&& last_accreditation_for(
                        accreditations_of(s.organizations[o].details),
                        t.certificates[a.id@].standard_id,
                    ) is Some
                    &&& t.certificates[a.id@].standard_version == last_accreditation_for(
                        accreditations_of(s.organizations[o].details),
                        t.certificates[a.id@].standard_id,
                    )->Some_0.standard_version
                },
                Action::OpenRequest(_) => transactor_of_kind(s, signer, OrganizationKind::Factory),
                Action::ChangeRequestStatus(a) => {
                    &&& signer_org_id(s, signer) is Some
                    &&& has_role(s.organizations[o], signer, AuthorizationRole::Transactor)
                    &&& s.requests[a.request_id@].factory_id == o
                },
                Action::CreateStandard(_) => transactor_of_kind(
                    s,
                    signer,
                    OrganizationKind::StandardsBody,
                ),
                Action::UpdateStandard(a) => {
                    &&& transactor_of_kind(s, signer, OrganizationKind::StandardsBody)
                    &&& s.standards[a.standard_id@].organization_id == o
                },
                Action::AccreditCertifyingBody(a) => {
                    &&& transactor_of_kind(s, signer, OrganizationKind::StandardsBody)
                    &&& s.standards[a.standard_id@].organization_id == o
                },
                _ => true,
            }
        }),
{
}

/// Two runs of a transaction on the same state leave the same bytes at
/// every address of every kind of record.
pub proof fn lemma_state_bytes_are_deterministic(
    before: StateModel,
    p: CertificateRegistryPayload,
    signer: Seq<char>,
    r1: Result<(), crate::payload::ApplyError>,
    after1: StateModel,
    r2: Result<(), crate::payload::ApplyError>,
    after2: StateModel,
    kind: RecordKind,
    address: Seq<char>,
)
    requires
        outcome(r1, before, after1, transaction_next(before, p, signer)),
        outcome(r2, before, after2, transaction_next(before, p, signer)),
    ensures
        entry_bytes(after1, kind, address) == entry_bytes(after2, kind, address),
{
    lemma_transaction_is_deterministic(before, p, signer, r1, after1, r2, after2);
}

/// The state after a sequence of transactions, each given as its payload
/// and signer; a refused transaction leaves state as it was.
pub open spec fn run_transactions(s: StateModel, txs: Seq<(CertificateRegistryPayload, Seq<char>)>) -> StateModel
    decreases txs.len(),
{
    if txs.len() == 0 {
        s
    } else {
        let before = run_transactions(s, txs.drop_last());
        match transaction_next(before, txs.last().0, txs.last().1) {
            Some(t) => t,
            None => before,
        }
    }
}

/// Every sequence of transactions from the empty state reaches a state
/// that meets the invariant.
pub proof fn lemma_every_run_keeps_invariant(s: StateModel, txs: Seq<(CertificateRegistryPayload, Seq<char>)>)
    requires
        s.agents.is_empty(),
        s.organizations.is_empty(),
        s.certificates.is_empty(),
        s.requests.is_empty(),
        s.standards.is_empty(),
    ensures
        state_invariant(run_transactions(s, txs)),
    decreases txs.len(),
{
    if txs.len() == 0 {
        lemma_empty_state_invariant(s);
    } else {
        lemma_every_run_keeps_invariant(s, txs.drop_last());
        let before = run_transactions(s, txs.drop_last());
        if transaction_next(before, txs.last().0, txs.last().1) is Some {
            lemma_transaction_keeps_invariant(before, txs.last().0, txs.last().1);
        }
    }
}

} // verus!
