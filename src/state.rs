//! The processor's view of chain state: one bucket store per record kind.
use vstd::prelude::*;
use crate::addressing::{
    address_of, make_agent_address, make_certificate_address, make_organization_address,
    make_request_address, make_standard_address, AGENT_PREFIX, CERTIFICATE_PREFIX,
    ORGANIZATION_PREFIX, REQUEST_PREFIX, STANDARD_PREFIX,
};
use crate::entities::{
    Agent, AgentModel, CertificateModel, CertificateRecord, OrganizationModel,
    OrganizationRecord, RequestModel, RequestRecord, StandardModel, StandardRecord,
};
use crate::codec::list_enc;
use crate::store::{bucket_of, BucketStore, Keyed};

verus! {

impl Keyed for Agent {
    open spec fn view_key(v: AgentModel) -> Seq<char> {
        v.public_key
    }

    open spec fn spec_key(&self) -> Seq<char> {
        self.public_key@
    }

    open spec fn spec_address(key: Seq<char>) -> Seq<char> {
        address_of(AGENT_PREFIX@, key)
    }

    fn key(&self) -> (r: &String) {
        &self.public_key
    }

    fn address(key: &str) -> (r: String) {
        make_agent_address(key)
    }

    fn copy_entry(&self) -> (r: Self) {
        self.duplicate()
    }

    proof fn lemma_key_of_view(a: &Self, b: &Self) {
    }

    proof fn lemma_view_key(e: &Self) {
    }
}

impl Keyed for OrganizationRecord {
    open spec fn view_key(v: OrganizationModel) -> Seq<char> {
        v.id
    }

    open spec fn spec_key(&self) -> Seq<char> {
        self.id@
    }

    open spec fn spec_address(key: Seq<char>) -> Seq<char> {
        address_of(ORGANIZATION_PREFIX@, key)
    }

    fn key(&self) -> (r: &String) {
        &self.id
    }

    fn address(key: &str) -> (r: String) {
        make_organization_address(key)
    }

    fn copy_entry(&self) -> (r: Self) {
        self.duplicate()
    }

    proof fn lemma_key_of_view(a: &Self, b: &Self) {
    }

    proof fn lemma_view_key(e: &Self) {
    }
}

impl Keyed for CertificateRecord {
    open spec fn view_key(v: CertificateModel) -> Seq<char> {
        v.id
    }

    open spec fn spec_key(&self) -> Seq<char> {
        self.id@
    }

    open spec fn spec_address(key: Seq<char>) -> Seq<char> {
        address_of(CERTIFICATE_PREFIX@, key)
    }

    fn key(&self) -> (r: &String) {
        &self.id
    }

    fn address(key: &str) -> (r: String) {
        make_certificate_address(key)
    }

    fn copy_entry(&self) -> (r: Self) {
        self.duplicate()
    }

    proof fn lemma_key_of_view(a: &Self, b: &Self) {
    }

    proof fn lemma_view_key(e: &Self) {
    }
}

impl Keyed for RequestRecord {
    open spec fn view_key(v: RequestModel) -> Seq<char> {
        v.id
    }

    open spec fn spec_key(&self) -> Seq<char> {
        self.id@
    }

    open spec fn spec_address(key: Seq<char>) -> Seq<char> {
        address_of(REQUEST_PREFIX@, key)
    }

    fn key(&self) -> (r: &String) {
        &self.id
    }

    fn address(key: &str) -> (r: String) {
        make_request_address(key)
    }

    fn copy_entry(&self) -> (r: Self) {
        self.duplicate()
    }

    proof fn lemma_key_of_view(a: &Self, b: &Self) {
    }

    proof fn lemma_view_key(e: &Self) {
    }
}

impl Keyed for StandardRecord {
    open spec fn view_key(v: StandardModel) -> Seq<char> {
        v.id
    }

    open spec fn spec_key(&self) -> Seq<char> {
        self.id@
    }

    open spec fn spec_address(key: Seq<char>) -> Seq<char> {
        address_of(STANDARD_PREFIX@, key)
    }

    fn key(&self) -> (r: &String) {
        &self.id
    }

    fn address(key: &str) -> (r: String) {
        make_standard_address(key)
    }

    fn copy_entry(&self) -> (r: Self) {
        self.duplicate()
    }

    proof fn lemma_key_of_view(a: &Self, b: &Self) {
    }

    proof fn lemma_view_key(e: &Self) {
    }
}

/// Every record in state, by primary key.
pub struct StateModel {
    pub agents: Map<Seq<char>, AgentModel>,
    pub organizations: Map<Seq<char>, OrganizationModel>,
    pub certificates: Map<Seq<char>, CertificateModel>,
    pub requests: Map<Seq<char>, RequestModel>,
    pub standards: Map<Seq<char>, StandardModel>,
}

/// The five kinds of record that state holds.
#[derive(Clone, Copy, Debug, PartialEq, Eq, Structural)]
pub enum RecordKind {
    Agent,
    Organization,
    Certificate,
    Request,
    Standard,
}

/// The bytes that state holds at `address` for records of `kind`: the
/// container bucket of the records whose keys have that address.
pub open spec fn entry_bytes(s: StateModel, kind: RecordKind, address: Seq<char>) -> Seq<u8> {
    match kind {
        RecordKind::Agent => list_enc::<Agent>(bucket_of::<Agent>(s.agents, address)),
        RecordKind::Organization => list_enc::<OrganizationRecord>(
            bucket_of::<OrganizationRecord>(s.organizations, address),
        ),
        RecordKind::Certificate => list_enc::<CertificateRecord>(
            bucket_of::<CertificateRecord>(s.certificates, address),
        ),
        RecordKind::Request => list_enc::<RequestRecord>(bucket_of::<RequestRecord>(s.requests, address)),
        RecordKind::Standard => list_enc::<StandardRecord>(
            bucket_of::<StandardRecord>(s.standards, address),
        ),
    }
}

/// The state that transactions read and write.
pub struct CertState {
    agents: BucketStore<Agent>,
    organizations: BucketStore<OrganizationRecord>,
    certificates: BucketStore<CertificateRecord>,
    requests: BucketStore<RequestRecord>,
    standards: BucketStore<StandardRecord>,
}

impl View for CertState {
    type V = StateModel;

    closed spec fn view(&self) -> StateModel {
        StateModel {
            agents: self.agents.view_map(),
            organizations: self.organizations.view_map(),
            certificates: self.certificates.view_map(),
            requests: self.requests.view_map(),
            standards: self.standards.view_map(),
        }
    }
}

impl CertState {
    pub closed spec fn wf(&self) -> bool {
        &&& self.agents.wf()
        &&& self.organizations.wf()
        &&& self.certificates.wf()
        &&& self.requests.wf()
        &&& self.standards.wf()
    }

    /// An empty state.
    pub fn new() -> (r: CertState)
        ensures
            r.wf(),
            r@.agents.is_empty(),
            r@.organizations.is_empty(),
            r@.certificates.is_empty(),
            r@.requests.is_empty(),
            r@.standards.is_empty(),
    {
        CertState {
            agents: BucketStore::new(),
            organizations: BucketStore::new(),
            certificates: BucketStore::new(),
            requests: BucketStore::new(),
            standards: BucketStore::new(),
        }
    }

    pub fn get_agent(&self, public_key: &String) -> (r: Option<Agent>)
        requires
            self.wf(),
        ensures
            match r {
                Some(a) => self@.agents.contains_key(public_key@) && self@.agents[public_key@] == a@
                    && a.public_key@ == public_key@,
                None => !self@.agents.contains_key(public_key@),
            },
    {
        self.agents.get(public_key)
    }

    pub fn get_organization(&self, id: &String) -> (r: Option<OrganizationRecord>)
        requires
            self.wf(),
        ensures
            match r {
                Some(o) => self@.organizations.contains_key(id@) && self@.organizations[id@] == o@
                    && o.id@ == id@,
                None => !self@.organizations.contains_key(id@),
            },
    {
        self.organizations.get(id)
    }

    pub fn get_certificate(&self, id: &String) -> (r: Option<CertificateRecord>)
        requires
            self.wf(),
        ensures
            match r {
                Some(c) => self@.certificates.contains_key(id@) && self@.certificates[id@] == c@
                    && c.id@ == id@,
                None => !self@.certificates.contains_key(id@),
            },
    {
        self.certificates.get(id)
    }

    pub fn get_request(&self, id: &String) -> (r: Option<RequestRecord>)
        requires
            self.wf(),
        ensures
            match r {
                Some(q) => self@.requests.contains_key(id@) && self@.requests[id@] == q@
                    && q.id@ == id@,
                None => !self@.requests.contains_key(id@),
            },
    {
        self.requests.get(id)
    }

    pub fn get_standard(&self, id: &String) -> (r: Option<StandardRecord>)
        requires
            self.wf(),
        ensures
            match r {
                Some(s) => self@.standards.contains_key(id@) && self@.standards[id@] == s@
                    && s.id@ == id@,
                None => !self@.standards.contains_key(id@),
            },
    {
        self.standards.get(id)
    }

    /// Writes an agent under its public key.
    pub fn set_agent(&mut self, agent: Agent)
        requires
            old(self).wf(),
        ensures
            final(self).wf(),
            final(self)@ == (StateModel {
                agents: old(self)@.agents.insert(agent.public_key@, agent@),
                ..old(self)@
            }),
    {
        self.agents.set(agent);
    }

    /// Writes an organization under its id.
    pub fn set_organization(&mut self, organization: OrganizationRecord)
        requires
            old(self).wf(),
        ensures
            final(self).wf(),
            final(self)@ == (StateModel {
                organizations: old(self)@.organizations.insert(organization.id@, organization@),
                ..old(self)@
            }),
    {
        self.organizations.set(organization);
    }

    /// Writes a certificate under its id.
    pub fn set_certificate(&mut self, certificate: CertificateRecord)
        requires
            old(self).wf(),
        ensures
            final(self).wf(),
            final(self)@ == (StateModel {
                certificates: old(self)@.certificates.insert(certificate.id@, certificate@),
                ..old(self)@
            }),
    {
        self.certificates.set(certificate);
    }

    /// Writes a request under its id.
    pub fn set_request(&mut self, request: RequestRecord)
        requires
            old(self).wf(),
        ensures
            final(self).wf(),
            final(self)@ == (StateModel {
                requests: old(self)@.requests.insert(request.id@, request@),
                ..old(self)@
            }),
    {
        self.requests.set(request);
    }

    /// Writes a standard under its id.
    pub fn set_standard(&mut self, standard: StandardRecord)
        requires
            old(self).wf(),
        ensures
            final(self).wf(),
            final(self)@ == (StateModel {
                standards: old(self)@.standards.insert(standard.id@, standard@),
                ..old(self)@
            }),
    {
        self.standards.set(standard);
    }

    /// The serialized container bucket that state holds at `address` for
    /// records of `kind`.
    pub fn get_state_entry(&self, kind: RecordKind, address: &String) -> (r: Vec<u8>)
        requires
            self.wf(),
        ensures
            r@ == entry_bytes(self@, kind, address@),
    {
        match kind {
            RecordKind::Agent => self.agents.encoded_bucket(address),
            RecordKind::Organization => self.organizations.encoded_bucket(address),
            RecordKind::Certificate => self.certificates.encoded_bucket(address),
            RecordKind::Request => self.requests.encoded_bucket(address),
            RecordKind::Standard => self.standards.encoded_bucket(address),
        }
    }

    /// Removes the agent with key `public_key`, dropping its bucket if it empties.
    pub fn delete_agent(&mut self, public_key: &String)
        requires
            old(self).wf(),
        ensures
            final(self).wf(),
            final(self)@ == (StateModel { agents: old(self)@.agents.remove(public_key@), ..old(self)@ }),
    {
        self.agents.delete(public_key);
    }

    /// Removes the organization with key `id`, dropping its bucket if it empties.
    pub fn delete_organization(&mut self, id: &String)
        requires
            old(self).wf(),
        ensures
            final(self).wf(),
            final(self)@ == (StateModel { organizations: old(self)@.organizations.remove(id@), ..old(self)@ }),
    {
        self.organizations.delete(id);
    }

    /// Removes the certificate with key `id`, dropping its bucket if it empties.
    pub fn delete_certificate(&mut self, id: &String)
        requires
            old(self).wf(),
        ensures
            final(self).wf(),
            final(self)@ == (StateModel { certificates: old(self)@.certificates.remove(id@), ..old(self)@ }),
    {
        self.certificates.delete(id);
    }

    /// Removes the request with key `id`, dropping its bucket if it empties.
    pub fn delete_request(&mut self, id: &String)
        requires
            old(self).wf(),
        ensures
            final(self).wf(),
            final(self)@ == (StateModel { requests: old(self)@.requests.remove(id@), ..old(self)@ }),
    {
        self.requests.delete(id);
    }

    /// Removes the standard with key `id`, dropping its bucket if it empties.
    pub fn delete_standard(&mut self, id: &String)
        requires
            old(self).wf(),
        ensures
            final(self).wf(),
            final(self)@ == (StateModel { standards: old(self)@.standards.remove(id@), ..old(self)@ }),
    {
        self.standards.delete(id);
    }
}

} // verus!
