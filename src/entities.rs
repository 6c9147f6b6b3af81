//! The records that the transaction processor keeps in state.
use vstd::prelude::*;

verus! {

/// The role an agent holds in an organization.
#[derive(Clone, Copy, Debug, PartialEq, Eq, Structural, Default)]
pub enum AuthorizationRole {
    #[default]
    UnsetRole,
    Admin,
    Transactor,
}

/// The three kinds of organization, and the unset marker of a payload.
#[derive(Clone, Copy, Debug, PartialEq, Eq, Structural, Default)]
pub enum OrganizationKind {
    #[default]
    UnsetType,
    StandardsBody,
    CertifyingBody,
    Factory,
}

/// The status of a certification request.
#[derive(Clone, Copy, Debug, PartialEq, Eq, Structural, Default)]
pub enum Status {
    #[default]
    UnsetStatus,
    Open,
    InProgress,
    Closed,
    Certified,
}

/// A signing identity.
#[derive(Debug)]
pub struct Agent {
    pub public_key: String,
    pub name: String,
    /// `None` until the agent joins an organization.
    pub organization_id: Option<String>,
    pub timestamp: u64,
}

#[derive(Debug, Default)]
pub struct ContactInfo {
    pub name: String,
    pub phone_number: String,
    pub language_code: String,
}

#[derive(Debug)]
pub struct AuthorizationEntry {
    pub public_key: String,
    pub role: AuthorizationRole,
}

/// The postal address of a factory; optional parts are empty strings.
#[derive(Debug, Default)]
pub struct FactoryAddress {
    pub street_line_1: String,
    pub street_line_2: String,
    pub city: String,
    pub state_province: String,
    pub country: String,
    pub postal_code: String,
}

#[derive(Debug)]
pub struct AccreditationEntry {
    pub standard_id: String,
    pub standard_version: String,
    pub accreditor_id: String,
    pub valid_from: u64,
    pub valid_to: u64,
}

/// The kind-dependent part of an organization.
#[derive(Debug)]
pub enum OrganizationDetails {
    NoDetails,
    Factory(FactoryAddress),
    CertifyingBody(Vec<AccreditationEntry>),
}

#[derive(Debug)]
pub struct OrganizationRecord {
    pub id: String,
    pub name: String,
    pub kind: OrganizationKind,
    pub contacts: Vec<ContactInfo>,
    pub authorizations: Vec<AuthorizationEntry>,
    pub details: OrganizationDetails,
}

#[derive(Debug)]
pub struct VersionEntry {
    pub version: String,
    pub description: String,
    pub link: String,
    pub approval_date: u64,
}

#[derive(Debug)]
pub struct StandardRecord {
    pub id: String,
    pub name: String,
    pub organization_id: String,
    pub versions: Vec<VersionEntry>,
}

#[derive(Debug)]
pub struct RequestRecord {
    pub id: String,
    pub factory_id: String,
    pub standard_id: String,
    pub status: Status,
    pub request_date: u64,
}

#[derive(Debug, Default)]
pub struct CertificateDatum {
    pub field: String,
    pub data: String,
}

#[derive(Debug)]
pub struct CertificateRecord {
    pub id: String,
    pub certifying_body_id: String,
    pub factory_id: String,
    pub standard_id: String,
    pub standard_version: String,
    pub valid_from: u64,
    pub valid_to: u64,
    pub certificate_data: Vec<CertificateDatum>,
}


/// The abstract value of an [`Agent`].
pub struct AgentModel {
    pub public_key: Seq<char>,
    pub name: Seq<char>,
    pub organization_id: Option<Seq<char>>,
    pub timestamp: u64,
}

pub struct ContactModel {
    pub name: Seq<char>,
    pub phone_number: Seq<char>,
    pub language_code: Seq<char>,
}

pub struct AuthorizationModel {
    pub public_key: Seq<char>,
    pub role: AuthorizationRole,
}

pub struct AddressModel {
    pub street_line_1: Seq<char>,
    pub street_line_2: Seq<char>,
    pub city: Seq<char>,
    pub state_province: Seq<char>,
    pub country: Seq<char>,
    pub postal_code: Seq<char>,
}

pub struct AccreditationModel {
    pub standard_id: Seq<char>,
    pub standard_version: Seq<char>,
    pub accreditor_id: Seq<char>,
    pub valid_from: u64,
    pub valid_to: u64,
}

pub enum DetailsModel {
    NoDetails,
    Factory(AddressModel),
    CertifyingBody(Seq<AccreditationModel>),
}

pub struct OrganizationModel {
    pub id: Seq<char>,
    pub name: Seq<char>,
    pub kind: OrganizationKind,
    pub contacts: Seq<ContactModel>,
    pub authorizations: Seq<AuthorizationModel>,
    pub details: DetailsModel,
}

pub struct VersionModel {
    pub version: Seq<char>,
    pub description: Seq<char>,
    pub link: Seq<char>,
    pub approval_date: u64,
}

pub struct StandardModel {
    pub id: Seq<char>,
    pub name: Seq<char>,
    pub organization_id: Seq<char>,
    pub versions: Seq<VersionModel>,
}

pub struct RequestModel {
    pub id: Seq<char>,
    pub factory_id: Seq<char>,
    pub standard_id: Seq<char>,
    pub status: Status,
    pub request_date: u64,
}

pub struct DatumModel {
    pub field: Seq<char>,
    pub data: Seq<char>,
}

pub struct CertificateModel {
    pub id: Seq<char>,
    pub certifying_body_id: Seq<char>,
    pub factory_id: Seq<char>,
    pub standard_id: Seq<char>,
    pub standard_version: Seq<char>,
    pub valid_from: u64,
    pub valid_to: u64,
    pub certificate_data: Seq<DatumModel>,
}

pub open spec fn opt_view(o: Option<String>) -> Option<Seq<char>> {
    match o {
        Some(s) => Some(s@),
        None => None,
    }
}

impl View for Agent {
    type V = AgentModel;

    open spec fn view(&self) -> AgentModel {
        AgentModel {
            public_key: self.public_key@,
            name: self.name@,
            organization_id: opt_view(self.organization_id),
            timestamp: self.timestamp,
        }
    }
}

impl View for ContactInfo {
    type V = ContactModel;

    open spec fn view(&self) -> ContactModel {
        ContactModel {
            name: self.name@,
            phone_number: self.phone_number@,
            language_code: self.language_code@,
        }
    }
}

impl View for AuthorizationEntry {
    type V = AuthorizationModel;

    open spec fn view(&self) -> AuthorizationModel {
        AuthorizationModel { public_key: self.public_key@, role: self.role }
    }
}

impl View for FactoryAddress {
    type V = AddressModel;

    open spec fn view(&self) -> AddressModel {
        AddressModel {
            street_line_1: self.street_line_1@,
            street_line_2: self.street_line_2@,
            city: self.city@,
            state_province: self.state_province@,
            country: self.country@,
            postal_code: self.postal_code@,
        }
    }
}

impl View for AccreditationEntry {
    type V = AccreditationModel;

    open spec fn view(&self) -> AccreditationModel {
        AccreditationModel {
            standard_id: self.standard_id@,
            standard_version: self.standard_version@,
            accreditor_id: self.accreditor_id@,
            valid_from: self.valid_from,
            valid_to: self.valid_to,
        }
    }
}

pub open spec fn contacts_view(v: Seq<ContactInfo>) -> Seq<ContactModel> {
    v.map_values(|c: ContactInfo| c@)
}

pub open spec fn authorizations_view(v: Seq<AuthorizationEntry>) -> Seq<AuthorizationModel> {
    v.map_values(|a: AuthorizationEntry| a@)
}

pub open spec fn accreditations_view(v: Seq<AccreditationEntry>) -> Seq<AccreditationModel> {
    v.map_values(|a: AccreditationEntry| a@)
}

pub open spec fn versions_view(v: Seq<VersionEntry>) -> Seq<VersionModel> {
    v.map_values(|a: VersionEntry| a@)
}

pub open spec fn data_view(v: Seq<CertificateDatum>) -> Seq<DatumModel> {
    v.map_values(|a: CertificateDatum| a@)
}

impl View for OrganizationDetails {
    type V = DetailsModel;

    open spec fn view(&self) -> DetailsModel {
        match self {
            OrganizationDetails::NoDetails => DetailsModel::NoDetails,
            OrganizationDetails::Factory(a) => DetailsModel::Factory(a@),
            OrganizationDetails::CertifyingBody(v) => DetailsModel::CertifyingBody(
                accreditations_view(v@),
            ),
        }
    }
}

impl View for OrganizationRecord {
    type V = OrganizationModel;

    open spec fn view(&self) -> OrganizationModel {
        OrganizationModel {
            id: self.id@,
            name: self.name@,
            kind: self.kind,
            contacts: contacts_view(self.contacts@),
            authorizations: authorizations_view(self.authorizations@),
            details: self.details@,
        }
    }
}

impl View for VersionEntry {
    type V = VersionModel;

    open spec fn view(&self) -> VersionModel {
        VersionModel {
            version: self.version@,
            description: self.description@,
            link: self.link@,
            approval_date: self.approval_date,
        }
    }
}

impl View for StandardRecord {
    type V = StandardModel;

    open spec fn view(&self) -> StandardModel {
        StandardModel {
            id: self.id@,
            name: self.name@,
            organization_id: self.organization_id@,
            versions: versions_view(self.versions@),
        }
    }
}

impl View for RequestRecord {
    type V = RequestModel;

    open spec fn view(&self) -> RequestModel {
        RequestModel {
            id: self.id@,
            factory_id: self.factory_id@,
            standard_id: self.standard_id@,
            status: self.status,
            request_date: self.request_date,
        }
    }
}

impl View for CertificateDatum {
    type V = DatumModel;

    open spec fn view(&self) -> DatumModel {
        DatumModel { field: self.field@, data: self.data@ }
    }
}

impl View for CertificateRecord {
    type V = CertificateModel;

    open spec fn view(&self) -> CertificateModel {
        CertificateModel {
            id: self.id@,
            certifying_body_id: self.certifying_body_id@,
            factory_id: self.factory_id@,
            standard_id: self.standard_id@,
            standard_version: self.standard_version@,
            valid_from: self.valid_from,
            valid_to: self.valid_to,
            certificate_data: data_view(self.certificate_data@),
        }
    }
}


/// Copies an optional string.
pub fn copy_opt(o: &Option<String>) -> (r: Option<String>)
    ensures
        opt_view(r) == opt_view(*o),
{
    match o {
        Some(s) => Some(s.clone()),
        None => None,
    }
}

impl Agent {
    pub fn duplicate(&self) -> (r: Self)
        ensures
            r@ == self@,
    {
        Agent {
            public_key: self.public_key.clone(),
            name: self.name.clone(),
            organization_id: copy_opt(&self.organization_id),
            timestamp: self.timestamp,
        }
    }
}

impl ContactInfo {
    pub fn duplicate(&self) -> (r: Self)
        ensures
            r@ == self@,
    {
        ContactInfo {
            name: self.name.clone(),
            phone_number: self.phone_number.clone(),
            language_code: self.language_code.clone(),
        }
    }
}

impl AuthorizationEntry {
    pub fn duplicate(&self) -> (r: Self)
        ensures
            r@ == self@,
    {
        AuthorizationEntry { public_key: self.public_key.clone(), role: self.role }
    }
}

impl FactoryAddress {
    pub fn duplicate(&self) -> (r: Self)
        ensures
            r@ == self@,
    {
        FactoryAddress {
            street_line_1: self.street_line_1.clone(),
            street_line_2: self.street_line_2.clone(),
            city: self.city.clone(),
            state_province: self.state_province.clone(),
            country: self.country.clone(),
            postal_code: self.postal_code.clone(),
        }
    }
}

impl AccreditationEntry {
    pub fn duplicate(&self) -> (r: Self)
        ensures
            r@ == self@,
    {
        AccreditationEntry {
            standard_id: self.standard_id.clone(),
            standard_version: self.standard_version.clone(),
            accreditor_id: self.accreditor_id.clone(),
            valid_from: self.valid_from,
            valid_to: self.valid_to,
        }
    }
}

impl VersionEntry {
    pub fn duplicate(&self) -> (r: Self)
        ensures
            r@ == self@,
    {
        VersionEntry {
            version: self.version.clone(),
            description: self.description.clone(),
            link: self.link.clone(),
            approval_date: self.approval_date,
        }
    }
}

impl CertificateDatum {
    pub fn duplicate(&self) -> (r: Self)
        ensures
            r@ == self@,
    {
        CertificateDatum { field: self.field.clone(), data: self.data.clone() }
    }
}

pub fn copy_contacts(v: &Vec<ContactInfo>) -> (r: Vec<ContactInfo>)
    ensures
        contacts_view(r@) == contacts_view(v@),
{
    let mut out: Vec<ContactInfo> = Vec::new();
    let mut i: usize = 0;
    while i < v.len()
        invariant
            i <= v.len(),
            out@.len() == i,
            forall|j: int| 0 <= j < i ==> (#[trigger] out@[j])@ == v@[j]@,
        decreases v.len() - i,
    {
        out.push(v[i].duplicate());
        i += 1;
    }
    assert(contacts_view(out@) =~= contacts_view(v@));
    out
}

pub fn copy_authorizations(v: &Vec<AuthorizationEntry>) -> (r: Vec<AuthorizationEntry>)
    ensures
        authorizations_view(r@) == authorizations_view(v@),
{
    let mut out: Vec<AuthorizationEntry> = Vec::new();
    let mut i: usize = 0;
    while i < v.len()
        invariant
            i <= v.len(),
            out@.len() == i,
            forall|j: int| 0 <= j < i ==> (#[trigger] out@[j])@ == v@[j]@,
        decreases v.len() - i,
    {
        out.push(v[i].duplicate());
        i += 1;
    }
    assert(authorizations_view(out@) =~= authorizations_view(v@));
    out
}

pub fn copy_accreditations(v: &Vec<AccreditationEntry>) -> (r: Vec<AccreditationEntry>)
    ensures
        accreditations_view(r@) == accreditations_view(v@),
{
    let mut out: Vec<AccreditationEntry> = Vec::new();
    let mut i: usize = 0;
    while i < v.len()
        invariant
            i <= v.len(),
            out@.len() == i,
            forall|j: int| 0 <= j < i ==> (#[trigger] out@[j])@ == v@[j]@,
        decreases v.len() - i,
    {
        out.push(v[i].duplicate());
        i += 1;
    }
    assert(accreditations_view(out@) =~= accreditations_view(v@));
    out
}

pub fn copy_versions(v: &Vec<VersionEntry>) -> (r: Vec<VersionEntry>)
    ensures
        versions_view(r@) == versions_view(v@),
{
    let mut out: Vec<VersionEntry> = Vec::new();
    let mut i: usize = 0;
    while i < v.len()
        invariant
            i <= v.len(),
            out@.len() == i,
            forall|j: int| 0 <= j < i ==> (#[trigger] out@[j])@ == v@[j]@,
        decreases v.len() - i,
    {
        out.push(v[i].duplicate());
        i += 1;
    }
    assert(versions_view(out@) =~= versions_view(v@));
    out
}

pub fn copy_data(v: &Vec<CertificateDatum>) -> (r: Vec<CertificateDatum>)
    ensures
        data_view(r@) == data_view(v@),
{
    let mut out: Vec<CertificateDatum> = Vec::new();
    let mut i: usize = 0;
    while i < v.len()
        invariant
            i <= v.len(),
            out@.len() == i,
            forall|j: int| 0 <= j < i ==> (#[trigger] out@[j])@ == v@[j]@,
        decreases v.len() - i,
    {
        out.push(v[i].duplicate());
        i += 1;
    }
    assert(data_view(out@) =~= data_view(v@));
    out
}

impl OrganizationDetails {
    pub fn duplicate(&self) -> (r: Self)
        ensures
            r@ == self@,
    {
        match self {
            OrganizationDetails::NoDetails => OrganizationDetails::NoDetails,
            OrganizationDetails::Factory(a) => OrganizationDetails::Factory(a.duplicate()),
            OrganizationDetails::CertifyingBody(v) => OrganizationDetails::CertifyingBody(
                copy_accreditations(v),
            ),
        }
    }
}

impl OrganizationRecord {
    pub fn duplicate(&self) -> (r: Self)
        ensures
            r@ == self@,
    {
        OrganizationRecord {
            id: self.id.clone(),
            name: self.name.clone(),
            kind: self.kind,
            contacts: copy_contacts(&self.contacts),
            authorizations: copy_authorizations(&self.authorizations),
            details: self.details.duplicate(),
        }
    }
}

impl StandardRecord {
    pub fn duplicate(&self) -> (r: Self)
        ensures
            r@ == self@,
    {
        StandardRecord {
            id: self.id.clone(),
            name: self.name.clone(),
            organization_id: self.organization_id.clone(),
            versions: copy_versions(&self.versions),
        }
    }
}

impl RequestRecord {
    pub fn duplicate(&self) -> (r: Self)
        ensures
            r@ == self@,
    {
        RequestRecord {
            id: self.id.clone(),
            factory_id: self.factory_id.clone(),
            standard_id: self.standard_id.clone(),
            status: self.status,
            request_date: self.request_date,
        }
    }
}

impl CertificateRecord {
    pub fn duplicate(&self) -> (r: Self)
        ensures
            r@ == self@,
    {
        CertificateRecord {
            id: self.id.clone(),
            certifying_body_id: self.certifying_body_id.clone(),
            factory_id: self.factory_id.clone(),
            standard_id: self.standard_id.clone(),
            standard_version: self.standard_version.clone(),
            valid_from: self.valid_from,
            valid_to: self.valid_to,
            certificate_data: copy_data(&self.certificate_data),
        }
    }
}

} // verus!
