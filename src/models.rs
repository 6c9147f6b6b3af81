//! The rows of the read model. Every versioned row is valid for the block
//! interval `[start_block_num, end_block_num)`.
use vstd::prelude::*;

verus! {

/// Marks a row that no later block has replaced.
pub const MAX_BLOCK_NUM: i64 = 9223372036854775807;

#[derive(Clone, Copy, Debug, PartialEq, Eq, Structural)]
pub enum RoleEnum {
    Admin,
    Transactor,
    UnsetRole,
}

#[derive(Clone, Copy, Debug, PartialEq, Eq, Structural)]
pub enum OrganizationTypeEnum {
    StandardsBody,
    CertifyingBody,
    Factory,
    UnsetType,
}

#[derive(Clone, Copy, Debug, PartialEq, Eq, Structural)]
pub enum RequestStatusEnum {
    Open,
    InProgress,
    Closed,
    Certified,
    UnsetStatus,
}

/// A block that has been applied: the source of truth for which heights the
/// read model holds.
#[derive(Debug)]
pub struct Block {
    pub block_num: i64,
    pub block_id: String,
}

#[derive(Debug)]
pub struct NewAgent {
    pub start_block_num: i64,
    pub end_block_num: i64,
    pub public_key: String,
    pub name: String,
    pub organization_id: Option<String>,
    pub timestamp: i64,
}

#[derive(Debug)]
pub struct NewAuthorization {
    pub start_block_num: i64,
    pub end_block_num: i64,
    pub organization_id: String,
    pub public_key: String,
    pub role: RoleEnum,
}

#[derive(Debug)]
pub struct NewAddress {
    pub start_block_num: i64,
    pub end_block_num: i64,
    pub organization_id: String,
    pub street_line_1: String,
    pub street_line_2: Option<String>,
    pub city: String,
    pub state_province: Option<String>,
    pub country: String,
    pub postal_code: Option<String>,
}

#[derive(Debug)]
pub struct NewOrganization {
    pub start_block_num: i64,
    pub end_block_num: i64,
    pub organization_id: String,
    pub name: String,
    pub organization_type: OrganizationTypeEnum,
}

#[derive(Debug)]
pub struct NewContact {
    pub start_block_num: i64,
    pub end_block_num: i64,
    pub organization_id: String,
    pub name: String,
    pub phone_number: String,
    pub language_code: String,
}

#[derive(Debug)]
pub struct NewCertificate {
    pub start_block_num: i64,
    pub end_block_num: i64,
    pub certificate_id: String,
    pub certifying_body_id: String,
    pub factory_id: String,
    pub standard_id: String,
    pub standard_version: String,
    pub valid_from: i64,
    pub valid_to: i64,
}

#[derive(Debug)]
pub struct NewRequest {
    pub start_block_num: i64,
    pub end_block_num: i64,
    pub request_id: String,
    pub factory_id: String,
    pub standard_id: String,
    pub status: RequestStatusEnum,
    pub request_date: i64,
}

#[derive(Debug)]
pub struct NewStandard {
    pub start_block_num: i64,
    pub end_block_num: i64,
    pub standard_id: String,
    pub organization_id: String,
    pub name: String,
}

#[derive(Debug)]
pub struct NewStandardVersion {
    pub start_block_num: i64,
    pub end_block_num: i64,
    pub standard_id: String,
    pub version: String,
    pub link: String,
    pub description: String,
    pub approval_date: i64,
}

#[derive(Debug)]
pub struct NewAccreditation {
    pub start_block_num: i64,
    pub end_block_num: i64,
    pub organization_id: String,
    pub standard_id: String,
    pub standard_version: String,
    pub accreditor_id: String,
    pub valid_from: i64,
    pub valid_to: i64,
}

} // verus!
