//! The block indexer: applies each block's operations to the record log in
//! one step, suppresses duplicate blocks and rewinds forks.
use vstd::prelude::*;
use crate::chain::{
    history_below, increasing, index_history, lemma_rewind_is_prefix,
    visible_at,
    apply_steps, blocks_below, closed_row, rewind, ChainRecord,
    RecordTable, Step,
};
use crate::models::{
    Block, NewAccreditation, NewAddress, NewAgent, NewAuthorization, NewCertificate, NewContact,
    NewOrganization, NewRequest, NewStandard, NewStandardVersion, OrganizationTypeEnum,
    MAX_BLOCK_NUM,
};

verus! {

/// A row type that can stand in the record log.
pub trait IntoRecord: Sized {
    spec fn spec_record(self) -> ChainRecord;

    /// The table the row belongs to.
    spec fn spec_table() -> RecordTable;

    /// The key whose live rows a new row of this type replaces.
    spec fn close_key(&self) -> String;

    fn into_record(self) -> (r: ChainRecord)
        ensures
            r == self.spec_record(),
    ;

    fn copy_key(&self) -> (r: String)
        ensures
            r == self.close_key(),
    ;

    fn table_of() -> (r: RecordTable)
        ensures
            r == Self::spec_table(),
    ;
}

impl IntoRecord for NewAgent {
    open spec fn spec_record(self) -> ChainRecord {
        ChainRecord::Agent(self)
    }

    open spec fn spec_table() -> RecordTable {
        RecordTable::Agents
    }

    open spec fn close_key(&self) -> String {
        self.public_key
    }

    fn into_record(self) -> (r: ChainRecord) {
        ChainRecord::Agent(self)
    }

    fn table_of() -> (r: RecordTable) {
        RecordTable::Agents
    }

    fn copy_key(&self) -> (r: String) {
        self.public_key.clone()
    }
}

impl IntoRecord for NewOrganization {
    open spec fn spec_record(self) -> ChainRecord {
        ChainRecord::Organization(self)
    }

    open spec fn spec_table() -> RecordTable {
        RecordTable::Organizations
    }

    open spec fn close_key(&self) -> String {
        self.organization_id
    }

    fn into_record(self) -> (r: ChainRecord) {
        ChainRecord::Organization(self)
    }

    fn table_of() -> (r: RecordTable) {
        RecordTable::Organizations
    }

    fn copy_key(&self) -> (r: String) {
        self.organization_id.clone()
    }
}

impl IntoRecord for NewAddress {
    open spec fn spec_record(self) -> ChainRecord {
        ChainRecord::Address(self)
    }

    open spec fn spec_table() -> RecordTable {
        RecordTable::Addresses
    }

    open spec fn close_key(&self) -> String {
        self.organization_id
    }

    fn into_record(self) -> (r: ChainRecord) {
        ChainRecord::Address(self)
    }

    fn table_of() -> (r: RecordTable) {
        RecordTable::Addresses
    }

    fn copy_key(&self) -> (r: String) {
        self.organization_id.clone()
    }
}

impl IntoRecord for NewAuthorization {
    open spec fn spec_record(self) -> ChainRecord {
        ChainRecord::Authorization(self)
    }

    open spec fn spec_table() -> RecordTable {
        RecordTable::Authorizations
    }

    open spec fn close_key(&self) -> String {
        self.organization_id
    }

    fn into_record(self) -> (r: ChainRecord) {
        ChainRecord::Authorization(self)
    }

    fn table_of() -> (r: RecordTable) {
        RecordTable::Authorizations
    }

    fn copy_key(&self) -> (r: String) {
        self.organization_id.clone()
    }
}

impl IntoRecord for NewContact {
    open spec fn spec_record(self) -> ChainRecord {
        ChainRecord::Contact(self)
    }

    open spec fn spec_table() -> RecordTable {
        RecordTable::Contacts
    }

    open spec fn close_key(&self) -> String {
        self.organization_id
    }

    fn into_record(self) -> (r: ChainRecord) {
        ChainRecord::Contact(self)
    }

    fn table_of() -> (r: RecordTable) {
        RecordTable::Contacts
    }

    fn copy_key(&self) -> (r: String) {
        self.organization_id.clone()
    }
}

impl IntoRecord for NewAccreditation {
    open spec fn spec_record(self) -> ChainRecord {
        ChainRecord::Accreditation(self)
    }

    open spec fn spec_table() -> RecordTable {
        RecordTable::Accreditations
    }

    open spec fn close_key(&self) -> String {
        self.organization_id
    }

    fn into_record(self) -> (r: ChainRecord) {
        ChainRecord::Accreditation(self)
    }

    fn table_of() -> (r: RecordTable) {
        RecordTable::Accreditations
    }

    fn copy_key(&self) -> (r: String) {
        self.organization_id.clone()
    }
}

impl IntoRecord for NewCertificate {
    open spec fn spec_record(self) -> ChainRecord {
        ChainRecord::Certificate(self)
    }

    open spec fn spec_table() -> RecordTable {
        RecordTable::Certificates
    }

    open spec fn close_key(&self) -> String {
        self.certificate_id
    }

    fn into_record(self) -> (r: ChainRecord) {
        ChainRecord::Certificate(self)
    }

    fn table_of() -> (r: RecordTable) {
        RecordTable::Certificates
    }

    fn copy_key(&self) -> (r: String) {
        self.certificate_id.clone()
    }
}

impl IntoRecord for NewRequest {
    open spec fn spec_record(self) -> ChainRecord {
        ChainRecord::Request(self)
    }

    open spec fn spec_table() -> RecordTable {
        RecordTable::Requests
    }

    open spec fn close_key(&self) -> String {
        self.request_id
    }

    fn into_record(self) -> (r: ChainRecord) {
        ChainRecord::Request(self)
    }

    fn table_of() -> (r: RecordTable) {
        RecordTable::Requests
    }

    fn copy_key(&self) -> (r: String) {
        self.request_id.clone()
    }
}

impl IntoRecord for NewStandard {
    open spec fn spec_record(self) -> ChainRecord {
        ChainRecord::Standard(self)
    }

    open spec fn spec_table() -> RecordTable {
        RecordTable::Standards
    }

    open spec fn close_key(&self) -> String {
        self.standard_id
    }

    fn into_record(self) -> (r: ChainRecord) {
        ChainRecord::Standard(self)
    }

    fn table_of() -> (r: RecordTable) {
        RecordTable::Standards
    }

    fn copy_key(&self) -> (r: String) {
        self.standard_id.clone()
    }
}

impl IntoRecord for NewStandardVersion {
    open spec fn spec_record(self) -> ChainRecord {
        ChainRecord::StandardVersion(self)
    }

    open spec fn spec_table() -> RecordTable {
        RecordTable::StandardVersions
    }

    open spec fn close_key(&self) -> String {
        self.standard_id
    }

    fn into_record(self) -> (r: ChainRecord) {
        ChainRecord::StandardVersion(self)
    }

    fn table_of() -> (r: RecordTable) {
        RecordTable::StandardVersions
    }

    fn copy_key(&self) -> (r: String) {
        self.standard_id.clone()
    }
}

/// The operations of one block, grouped by kind.
#[derive(Debug)]
pub enum OperationType {
    CreateAgent(Vec<NewAgent>),
    CreateOrganization(
        Vec<
            (
                NewOrganization,
                Option<Vec<NewAccreditation>>,
                Option<NewAddress>,
                Vec<NewAuthorization>,
                Vec<NewContact>,
            ),
        >,
    ),
    CreateCertificate(Vec<NewCertificate>),
    CreateRequest(Vec<NewRequest>),
    CreateStandard(Vec<(NewStandard, Vec<NewStandardVersion>)>),
}

/// Insert each row.
pub open spec fn insert_steps<T: IntoRecord>(v: Seq<T>) -> Seq<Step>
    decreases v.len(),
{
    if v.len() == 0 {
        Seq::empty()
    } else {
        seq![Step::Insert(v[0].spec_record())] + insert_steps(v.drop_first())
    }
}

/// Close the live rows of each row's key, then insert the row.
pub open spec fn upsert_steps<T: IntoRecord>(v: Seq<T>) -> Seq<Step>
    decreases v.len(),
{
    if v.len() == 0 {
        Seq::empty()
    } else {
        seq![Step::Close(T::spec_table(), v[0].close_key()), Step::Insert(v[0].spec_record())]
            + upsert_steps(v.drop_first())
    }
}

pub open spec fn optional_inserts<T: IntoRecord>(v: Option<Seq<T>>) -> Seq<Step> {
    match v {
        Some(v) => insert_steps(v),
        None => Seq::empty(),
    }
}

pub open spec fn option_seq<T>(v: Option<Vec<T>>) -> Option<Seq<T>> {
    match v {
        Some(v) => Some(v@),
        None => None,
    }
}

pub open spec fn option_one<T>(v: Option<T>) -> Option<Seq<T>> {
    match v {
        Some(x) => Some(seq![x]),
        None => None,
    }
}

/// An organization with its children: the organization replaces its live
/// row, and each child table's live rows of the organization are replaced
/// by the new set; the address only for a factory, the accreditations only
/// for a certifying body.
pub open spec fn organization_steps(
    o: (NewOrganization, Option<Vec<NewAccreditation>>, Option<NewAddress>, Vec<NewAuthorization>, Vec<NewContact>),
) -> Seq<Step> {
    let id = o.0.organization_id;
    seq![
        Step::Close(RecordTable::Organizations, id),
        Step::Insert(ChainRecord::Organization(o.0)),
        Step::Close(RecordTable::Authorizations, id),
    ] + insert_steps(o.3@) + seq![Step::Close(RecordTable::Contacts, id)] + insert_steps(o.4@) + (
    if o.0.organization_type == OrganizationTypeEnum::Factory {
        seq![Step::Close(RecordTable::Addresses, id)] + optional_inserts(option_one(o.2))
    } else {
        Seq::empty()
    }) + (if o.0.organization_type == OrganizationTypeEnum::CertifyingBody {
        seq![Step::Close(RecordTable::Accreditations, id)] + optional_inserts(option_seq(o.1))
    } else {
        Seq::empty()
    })
}

pub open spec fn organizations_steps(
    v: Seq<(NewOrganization, Option<Vec<NewAccreditation>>, Option<NewAddress>, Vec<NewAuthorization>, Vec<NewContact>)>,
) -> Seq<Step>
    decreases v.len(),
{
    if v.len() == 0 {
        Seq::empty()
    } else {
        organization_steps(v[0]) + organizations_steps(v.drop_first())
    }
}

/// A standard with its versions: the standard replaces its live row and
/// the new versions replace its live versions.
pub open spec fn standard_steps(s: (NewStandard, Vec<NewStandardVersion>)) -> Seq<Step> {
    let id = s.0.standard_id;
    seq![
        Step::Close(RecordTable::Standards, id),
        Step::Insert(ChainRecord::Standard(s.0)),
        Step::Close(RecordTable::StandardVersions, id),
    ] + insert_steps(s.1@)
}

pub open spec fn standards_steps(v: Seq<(NewStandard, Vec<NewStandardVersion>)>) -> Seq<Step>
    decreases v.len(),
{
    if v.len() == 0 {
        Seq::empty()
    } else {
        standard_steps(v[0]) + standards_steps(v.drop_first())
    }
}

pub open spec fn operation_steps(op: OperationType) -> Seq<Step> {
    match op {
        OperationType::CreateAgent(v) => upsert_steps(v@),
        OperationType::CreateOrganization(v) => organizations_steps(v@),
        OperationType::CreateCertificate(v) => upsert_steps(v@),
        OperationType::CreateRequest(v) => upsert_steps(v@),
        OperationType::CreateStandard(v) => standards_steps(v@),
    }
}

/// The steps of a block's operations, in order.
pub open spec fn block_steps(ops: Seq<OperationType>) -> Seq<Step>
    decreases ops.len(),
{
    if ops.len() == 0 {
        Seq::empty()
    } else {
        operation_steps(ops[0]) + block_steps(ops.drop_first())
    }
}

fn push_inserts<T: IntoRecord>(out: &mut Vec<Step>, rows: Vec<T>)
    ensures
        final(out)@ == old(out)@ + insert_steps(rows@),
{
    let ghost start = out@;
    let ghost all = rows@;
    let mut rows = rows;
    while rows.len() > 0
        invariant
            out@ + insert_steps(rows@) == start + insert_steps(all),
        decreases rows@.len(),
    {
        let ghost before = rows@;
        let x = rows.remove(0);
        assert(rows@ == before.drop_first());
        let ghost o = out@;
        out.push(Step::Insert(x.into_record()));
        assert(out@ + insert_steps(rows@) =~= o + insert_steps(before));
    }
    assert(insert_steps(rows@) =~= Seq::<Step>::empty());
    assert(out@ =~= out@ + insert_steps(rows@));
}

fn push_upserts<T: IntoRecord>(out: &mut Vec<Step>, rows: Vec<T>)
    ensures
        final(out)@ == old(out)@ + upsert_steps(rows@),
{
    let ghost start = out@;
    let ghost all = rows@;
    let mut rows = rows;
    while rows.len() > 0
        invariant
            out@ + upsert_steps(rows@) == start + upsert_steps(all),
        decreases rows@.len(),
    {
        let ghost before = rows@;
        let x = rows.remove(0);
        assert(rows@ == before.drop_first());
        let ghost o = out@;
        out.push(Step::Close(T::table_of(), x.copy_key()));
        out.push(Step::Insert(x.into_record()));
        assert(out@ + upsert_steps(rows@) =~= o + upsert_steps(before));
    }
    assert(out@ =~= out@ + upsert_steps(rows@));
}

fn push_organization(
    out: &mut Vec<Step>,
    o: (NewOrganization, Option<Vec<NewAccreditation>>, Option<NewAddress>, Vec<NewAuthorization>, Vec<NewContact>),
)
    ensures
        final(out)@ == old(out)@ + organization_steps(o),
{
    let ghost start = out@;
    let ghost og = o;
    let (org, accreditations, address, authorizations, contacts) = o;
    let kind = org.organization_type;
    let id = org.organization_id.clone();
    out.push(Step::Close(RecordTable::Organizations, id.clone()));
    out.push(Step::Insert(ChainRecord::Organization(org)));
    out.push(Step::Close(RecordTable::Authorizations, id.clone()));
    push_inserts(out, authorizations);
    out.push(Step::Close(RecordTable::Contacts, id.clone()));
    push_inserts(out, contacts);
    if kind == OrganizationTypeEnum::Factory {
        out.push(Step::Close(RecordTable::Addresses, id.clone()));
        match address {
            Some(a) => {
                let mut one: Vec<NewAddress> = Vec::new();
                one.push(a);
                assert(one@ =~= seq![a]);
                push_inserts(out, one);
            },
            None => {},
        }
    }
    if kind == OrganizationTypeEnum::CertifyingBody {
        out.push(Step::Close(RecordTable::Accreditations, id));
        match accreditations {
            Some(v) => push_inserts(out, v),
            None => {},
        }
    }
    assert(out@ =~= start + organization_steps(og));
}

fn push_standard(out: &mut Vec<Step>, s: (NewStandard, Vec<NewStandardVersion>))
    ensures
        final(out)@ == old(out)@ + standard_steps(s),
{
    let ghost start = out@;
    let ghost sg = s;
    let (standard, versions) = s;
    let id = standard.standard_id.clone();
    out.push(Step::Close(RecordTable::Standards, id.clone()));
    out.push(Step::Insert(ChainRecord::Standard(standard)));
    out.push(Step::Close(RecordTable::StandardVersions, id));
    push_inserts(out, versions);
    assert(out@ =~= start + standard_steps(sg));
}

fn push_operation(out: &mut Vec<Step>, op: OperationType)
    ensures
        final(out)@ == old(out)@ + operation_steps(op),
{
    match op {
        OperationType::CreateAgent(v) => push_upserts(out, v),
        OperationType::CreateCertificate(v) => push_upserts(out, v),
        OperationType::CreateRequest(v) => push_upserts(out, v),
        OperationType::CreateOrganization(v) => {
            let ghost start = out@;
            let ghost all = v@;
            let mut v = v;
            while v.len() > 0
                invariant
                    out@ + organizations_steps(v@) == start + organizations_steps(all),
                decreases v@.len(),
            {
                let ghost before = v@;
                let x = v.remove(0);
                assert(v@ == before.drop_first());
                let ghost o = out@;
                push_organization(out, x);
                assert(out@ + organizations_steps(v@) =~= o + organizations_steps(before));
            }
            assert(out@ =~= out@ + organizations_steps(v@));
        },
        OperationType::CreateStandard(v) => {
            let ghost start = out@;
            let ghost all = v@;
            let mut v = v;
            while v.len() > 0
                invariant
                    out@ + standards_steps(v@) == start + standards_steps(all),
                decreases v@.len(),
            {
                let ghost before = v@;
                let x = v.remove(0);
                assert(v@ == before.drop_first());
                let ghost o = out@;
                push_standard(out, x);
                assert(out@ + standards_steps(v@) =~= o + standards_steps(before));
            }
            assert(out@ =~= out@ + standards_steps(v@));
        },
    }
}

/// The steps of a block's operations, in order.
pub fn plan_block(operations: Vec<OperationType>) -> (r: Vec<Step>)
    ensures
        r@ == block_steps(operations@),
{
    let mut out: Vec<Step> = Vec::new();
    let ghost all = operations@;
    let mut ops = operations;
    while ops.len() > 0
        invariant
            out@ + block_steps(ops@) == block_steps(all),
        decreases ops@.len(),
    {
        let ghost before = ops@;
        let x = ops.remove(0);
        assert(ops@ == before.drop_first());
        let ghost o = out@;
        push_operation(&mut out, x);
        assert(out@ + block_steps(ops@) =~= o + block_steps(before));
    }
    assert(out@ =~= out@ + block_steps(ops@));
    out
}

/// Closes, at block `n`, the live rows of `table` with key `key`.
fn close_rows(rows: &mut Vec<ChainRecord>, table: RecordTable, key: &String, n: i64)
    ensures
        final(rows)@ == crate::chain::close_live(old(rows)@, table, key@, n),
{
    let ghost orig = rows@;
    let mut j: usize = 0;
    while j < rows.len()
        invariant
            rows@.len() == orig.len(),
            j <= orig.len(),
            forall|i: int| 0 <= i < j ==> rows@[i] == closed_row(orig[i], table, key@, n),
            forall|i: int| j <= i < orig.len() ==> rows@[i] == orig[i],
        decreases orig.len() - j,
    {
        if rows[j].end_block_num() == MAX_BLOCK_NUM && rows[j].table() == table && *rows[j].key()
            == *key {
            let mut r = rows.remove(j);
            let start = r.start_block_num();
            r.set_interval(start, n);
            rows.insert(j, r);
        }
        j += 1;
    }
    assert(rows@ =~= crate::chain::close_live(orig, table, key@, n));
}

/// Runs the steps of a block at block `n`.
pub fn run_steps(rows: &mut Vec<ChainRecord>, steps: Vec<Step>, n: i64)
    ensures
        final(rows)@ == apply_steps(old(rows)@, steps@, n),
{
    let ghost orig = rows@;
    let ghost all = steps@;
    let mut steps = steps;
    let total = steps.len();
    let mut i: usize = 0;
    while steps.len() > 0
        invariant
            all.len() == total,
            i <= all.len(),
            steps@ == all.subrange(i as int, all.len() as int),
            rows@ == apply_steps(orig, all.subrange(0, i as int), n),
        decreases steps@.len(),
    {
        assert(steps@.len() == all.len() - i);
        let step = steps.remove(0);
        assert(step == all[i as int]);
        match step {
            Step::Close(t, k) => close_rows(rows, t, &k, n),
            Step::Insert(r) => {
                let mut r = r;
                r.set_interval(n, MAX_BLOCK_NUM);
                rows.push(r);
            },
        }
        i += 1;
        assert(all.subrange(0, i as int).drop_last() =~= all.subrange(0, i - 1));
        assert(steps@ =~= all.subrange(i as int, all.len() as int));
    }
    assert(all.subrange(0, i as int) =~= all);
}

/// Rewinds the record log to height `n`.
pub fn rewind_rows(rows: &mut Vec<ChainRecord>, n: i64)
    ensures
        final(rows)@ == rewind(old(rows)@, n),
{
    let mut input: Vec<ChainRecord> = Vec::new();
    std::mem::swap(&mut input, rows);
    let ghost orig = input@;
    let total = input.len();
    let mut k: usize = 0;
    assert(orig.subrange(0, 0) =~= Seq::<ChainRecord>::empty());
    while input.len() > 0
        invariant
            orig.len() == total,
            k <= orig.len(),
            input@ == orig.subrange(k as int, orig.len() as int),
            rows@ == rewind(orig.subrange(0, k as int), n),
        decreases input@.len(),
    {
        assert(input@.len() == orig.len() - k);
        let mut r = input.remove(0);
        assert(r == orig[k as int]);
        if r.start_block_num() < n {
            if r.end_block_num() >= n {
                let start = r.start_block_num();
                r.set_interval(start, MAX_BLOCK_NUM);
            }
            rows.push(r);
        }
        k += 1;
        assert(orig.subrange(0, k as int).drop_last() =~= orig.subrange(0, k - 1));
        assert(input@ =~= orig.subrange(k as int, orig.len() as int));
    }
    assert(orig.subrange(0, k as int) =~= orig);
}

/// Heights are distinct.
pub open spec fn distinct_heights(blocks: Seq<Block>) -> bool {
    forall|i: int, j: int|
        0 <= i < j < blocks.len() ==> (#[trigger] blocks[i]).block_num != (#[trigger] blocks[j]).block_num
}

/// Keeps the blocks below height `n`.
fn drop_blocks_from(blocks: &mut Vec<Block>, n: i64)
    requires
        distinct_heights(old(blocks)@),
    ensures
        final(blocks)@ == blocks_below(old(blocks)@, n),
        distinct_heights(final(blocks)@),
        forall|i: int| 0 <= i < final(blocks)@.len() ==> (#[trigger] final(blocks)@[i]).block_num < n,
{
    let mut input: Vec<Block> = Vec::new();
    std::mem::swap(&mut input, blocks);
    let ghost orig = input@;
    let total = input.len();
    let mut k: usize = 0;
    assert(orig.subrange(0, 0) =~= Seq::<Block>::empty());
    while input.len() > 0
        invariant
            orig.len() == total,
            distinct_heights(orig),
            k <= orig.len(),
            input@ == orig.subrange(k as int, orig.len() as int),
            blocks@ == blocks_below(orig.subrange(0, k as int), n),
            distinct_heights(blocks@),
            forall|i: int| 0 <= i < blocks@.len() ==> (#[trigger] blocks@[i]).block_num < n,
            forall|i: int|
                0 <= i < blocks@.len() ==> exists|j: int| 0 <= j < k && orig[j] == #[trigger] blocks@[i],
        decreases input@.len(),
    {
        reveal_with_fuel(Seq::filter, 1);
        assert(input@.len() == orig.len() - k);
        let b = input.remove(0);
        assert(b == orig[k as int]);
        let ghost prefix = orig.subrange(0, k + 1);
        assert(prefix.drop_last() =~= orig.subrange(0, k as int));
        let ghost before = blocks@;
        if b.block_num < n {
            blocks.push(b);
            proof {
                assert forall|i: int, j: int|
                    0 <= i < j < blocks@.len() implies (#[trigger] blocks@[i]).block_num != (#[trigger] blocks@[j]).block_num by {
                    if j == before.len() {
                        assert(blocks@[i] == before[i]);
                        let w = choose|w: int| 0 <= w < k && orig[w] == #[trigger] before[i];
                        assert(orig[w].block_num != orig[k as int].block_num);
                    } else {
                        assert(blocks@[i] == before[i]);
                        assert(blocks@[j] == before[j]);
                    }
                }
                assert forall|i: int| 0 <= i < blocks@.len() implies exists|j: int| 0 <= j < k + 1 && orig[j] == #[trigger] blocks@[i] by {
                    if i == before.len() {
                        assert(orig[k as int] == blocks@[i]);
                    } else {
                        assert(blocks@[i] == before[i]);
                        let w = choose|w: int| 0 <= w < k && orig[w] == #[trigger] before[i];
                        assert(orig[w] == blocks@[i]);
                    }
                }
            }
        }
        k += 1;
        assert(input@ =~= orig.subrange(k as int, orig.len() as int));
    }
    assert(orig.subrange(0, k as int) =~= orig);
}

/// Heights strictly decrease along the list.
pub open spec fn descending(blocks: Seq<Block>) -> bool {
    forall|a: int, b: int| 0 <= a < b < blocks.len() ==> (#[trigger] blocks[a]).block_num > (#[trigger] blocks[b]).block_num
}

/// Puts `block` into a list of blocks ordered by decreasing height.
fn insert_descending(out: &mut Vec<Block>, block: Block)
    requires
        descending(old(out)@),
        forall|k: int| 0 <= k < old(out)@.len() ==> (#[trigger] old(out)@[k]).block_num != block.block_num,
    ensures
        descending(final(out)@),
        exists|p: int| 0 <= p <= old(out)@.len() && final(out)@ == old(out)@.insert(p, block),
{
    let mut p: usize = 0;
    while p < out.len() && out[p].block_num > block.block_num
        invariant
            p <= out@.len(),
            forall|a: int| 0 <= a < p ==> (#[trigger] out@[a]).block_num > block.block_num,
        decreases out@.len() - p,
    {
        p += 1;
    }
    let ghost before = out@;
    assert forall|a: int| p <= a < before.len() implies (#[trigger] before[a]).block_num < block.block_num by {
        if a > p {
            assert(before[p as int].block_num > before[a].block_num);
        }
    }
    out.insert(p, block);
    assert(out@ =~= before.insert(p as int, block));
    assert forall|a: int, c: int| 0 <= a < c < out@.len() implies (#[trigger] out@[a]).block_num > (#[trigger] out@[c]).block_num by {
        if c > p && a < p {
            assert(out@[c] == before[c - 1]);
        } else if c > p && a == p {
            assert(out@[c] == before[c - 1]);
        } else if c > p {
            assert(out@[a] == before[a - 1]);
            assert(out@[c] == before[c - 1]);
        }
    }
}

/// Why a read-model query could not be answered.
#[derive(Debug)]
pub enum ApiError {
    BadRequest(String),
    InternalError(String),
    NotFound(String),
    TooManyRequests(String),
    /// No block has been applied yet.
    ServiceUnavailable,
    Unauthorized,
}

/// Some applied block has height `n`.
pub open spec fn has_block(blocks: Seq<Block>, n: i64) -> bool {
    exists|i: int| 0 <= i < blocks.len() && (#[trigger] blocks[i]).block_num == n
}

/// `block` has been applied already, under the same id.
pub open spec fn is_duplicate(blocks: Seq<Block>, block: Block) -> bool {
    exists|i: int|
        0 <= i < blocks.len() && (#[trigger] blocks[i]).block_num == block.block_num
            && blocks[i].block_id@ == block.block_id@
}

/// The blocks and the record log after a block with the given steps: a
/// duplicate changes nothing; a block at a height held by another block
/// first rewinds to that height.
pub open spec fn index_block(
    blocks: Seq<Block>,
    records: Seq<ChainRecord>,
    block: Block,
    steps: Seq<Step>,
) -> (Seq<Block>, Seq<ChainRecord>) {
    let n = block.block_num;
    if is_duplicate(blocks, block) {
        (blocks, records)
    } else if has_block(blocks, n) {
        (blocks_below(blocks, n).push(block), apply_steps(rewind(records, n), steps, n))
    } else {
        (blocks.push(block), apply_steps(records, steps, n))
    }
}

/// The relational read model: the applied blocks and the versioned rows of
/// every table.
pub struct DataManager {
    blocks: Vec<Block>,
    records: Vec<ChainRecord>,
}

impl DataManager {
    pub closed spec fn spec_blocks(&self) -> Seq<Block> {
        self.blocks@
    }

    pub closed spec fn spec_records(&self) -> Seq<ChainRecord> {
        self.records@
    }

    /// No two applied blocks share a height.
    pub open spec fn wf(&self) -> bool {
        distinct_heights(self.spec_blocks())
    }

    /// An empty read model.
    pub fn new() -> (r: DataManager)
        ensures
            r.wf(),
            r.spec_blocks() == Seq::<Block>::empty(),
            r.spec_records() == Seq::<ChainRecord>::empty(),
    {
        DataManager { blocks: Vec::new(), records: Vec::new() }
    }

    /// Index of the applied block at height `n`.
    fn find_block(&self, n: i64) -> (r: Option<usize>)
        ensures
            match r {
                Some(i) => i < self.spec_blocks().len() && self.spec_blocks()[i as int].block_num == n,
                None => !has_block(self.spec_blocks(), n),
            },
    {
        let mut i: usize = 0;
        while i < self.blocks.len()
            invariant
                i <= self.blocks@.len(),
                forall|j: int| 0 <= j < i ==> (#[trigger] self.blocks@[j]).block_num != n,
            decreases self.blocks@.len() - i,
        {
            if self.blocks[i].block_num == n {
                return Some(i);
            }
            i += 1;
        }
        None
    }

    /// Applies the operations of one block as a unit: a duplicate of an
    /// applied block changes nothing; a block at the height of another
    /// applied block first drops every row and block from that height up and
    /// reopens the rows that those blocks closed; then every operation closes
    /// the live rows it replaces and inserts its rows, live from this block.
    pub fn execute_operations_in_block(&mut self, operations: Vec<OperationType>, block: Block)
        requires
            old(self).wf(),
        ensures
            final(self).wf(),
            (final(self).spec_blocks(), final(self).spec_records()) == index_block(
                old(self).spec_blocks(),
                old(self).spec_records(),
                block,
                block_steps(operations@),
            ),
    {
        let n = block.block_num;
        let ghost old_blocks = self.blocks@;
        match self.find_block(n) {
            Some(i) => {
                if self.blocks[i].block_id == block.block_id {
                    return;
                }
                proof {
                    assert forall|j: int|
                        0 <= j < old_blocks.len() && (#[trigger] old_blocks[j]).block_num
                            == block.block_num implies old_blocks[j].block_id@ != block.block_id@ by {
                        if j != i {
                            if j < i {
                                assert(old_blocks[j].block_num != old_blocks[i as int].block_num);
                            } else {
                                assert(old_blocks[i as int].block_num != old_blocks[j].block_num);
                            }
                        }
                    }
                }
                rewind_rows(&mut self.records, n);
                drop_blocks_from(&mut self.blocks, n);
            },
            None => {},
        }
        let steps = plan_block(operations);
        run_steps(&mut self.records, steps, n);
        let ghost kept = self.blocks@;
        self.blocks.push(block);
        proof {
            assert forall|i: int, j: int|
                0 <= i < j < self.blocks@.len() implies (#[trigger] self.blocks@[i]).block_num
                    != (#[trigger] self.blocks@[j]).block_num by {
                assert(self.blocks@[i] == kept[i]);
                if j < kept.len() {
                    assert(self.blocks@[j] == kept[j]);
                } else if !has_block(old_blocks, n) {
                    assert(kept[i] == old_blocks[i]);
                }
            }
        }
    }

    /// The height that a query reads at: the one asked for, or else the
    /// highest applied block.
    pub fn get_head_block_num(&self, head: Option<i64>) -> (r: Result<i64, ApiError>)
        ensures
            match head {
                Some(h) => r == Ok::<i64, ApiError>(h),
                None => match r {
                    Ok(m) => has_block(self.spec_blocks(), m) && forall|i: int|
                        0 <= i < self.spec_blocks().len() ==> (#[trigger] self.spec_blocks()[i]).block_num <= m,
                    Err(e) => e is ServiceUnavailable && self.spec_blocks().len() == 0,
                },
            },
    {
        match head {
            Some(h) => Ok(h),
            None => {
                if self.blocks.len() == 0 {
                    return Err(ApiError::ServiceUnavailable);
                }
                let mut best = self.blocks[0].block_num;
                let mut i: usize = 1;
                while i < self.blocks.len()
                    invariant
                        1 <= i <= self.blocks@.len(),
                        has_block(self.blocks@, best),
                        forall|j: int| 0 <= j < i ==> (#[trigger] self.blocks@[j]).block_num <= best,
                    decreases self.blocks@.len() - i,
                {
                    if self.blocks[i].block_num > best {
                        best = self.blocks[i].block_num;
                    }
                    i += 1;
                }
                Ok(best)
            },
        }
    }

    /// The applied blocks, highest first.
    pub fn fetch_known_blocks(&self) -> (r: Vec<Block>)
        requires
            self.wf(),
        ensures
            descending(r@),
            r@.len() == self.spec_blocks().len(),
            forall|k: int| 0 <= k < r@.len() ==> self.spec_blocks().contains(#[trigger] r@[k]),
            forall|j: int| 0 <= j < self.spec_blocks().len() ==> r@.contains(#[trigger] self.spec_blocks()[j]),
    {
        let mut out: Vec<Block> = Vec::new();
        let mut i: usize = 0;
        while i < self.blocks.len()
            invariant
                distinct_heights(self.blocks@),
                i <= self.blocks@.len(),
                out@.len() == i,
                descending(out@),
                forall|k: int| 0 <= k < out@.len() ==> exists|j: int| 0 <= j < i && self.blocks@[j] == #[trigger] out@[k],
                forall|j: int| 0 <= j < i ==> exists|k: int| 0 <= k < out@.len() && out@[k] == #[trigger] self.blocks@[j],
            decreases self.blocks@.len() - i,
        {
            let b = &self.blocks[i];
            let copy = Block { block_num: b.block_num, block_id: b.block_id.clone() };
            assert(copy == self.blocks@[i as int]);
            let ghost before = out@;
            assert forall|k: int| 0 <= k < before.len() implies (#[trigger] before[k]).block_num != copy.block_num by {
                let j = choose|j: int| 0 <= j < i && self.blocks@[j] == before[k];
                assert(self.blocks@[j].block_num != self.blocks@[i as int].block_num);
            }
            insert_descending(&mut out, copy);
            proof {
                let p = choose|p: int| 0 <= p <= before.len() && out@ == before.insert(p, self.blocks@[i as int]);
                assert forall|k: int| 0 <= k < out@.len() implies exists|j: int| 0 <= j < i + 1 && self.blocks@[j] == #[trigger] out@[k] by {
                    if k < p {
                        assert(out@[k] == before[k]);
                        let j = choose|j: int| 0 <= j < i && self.blocks@[j] == before[k];
                        assert(self.blocks@[j] == out@[k]);
                    } else if k == p {
                        assert(self.blocks@[i as int] == out@[k]);
                    } else {
                        assert(out@[k] == before[k - 1]);
                        let j = choose|j: int| 0 <= j < i && self.blocks@[j] == before[k - 1];
                        assert(self.blocks@[j] == out@[k]);
                    }
                }
                assert forall|j: int| 0 <= j < i + 1 implies exists|k: int| 0 <= k < out@.len() && out@[k] == #[trigger] self.blocks@[j] by {
                    if j == i {
                        assert(out@[p] == self.blocks@[j]);
                    } else {
                        let k = choose|k: int| 0 <= k < before.len() && before[k] == self.blocks@[j];
                        if k < p {
                            assert(out@[k] == before[k]);
                        } else {
                            assert(out@[k + 1] == before[k]);
                        }
                    }
                }
            }
            i += 1;
        }
        proof {
            assert(self.spec_blocks() == self.blocks@);
            assert forall|k: int| 0 <= k < out@.len() implies self.spec_blocks().contains(#[trigger] out@[k]) by {
                let j = choose|j: int| 0 <= j < i && self.blocks@[j] == out@[k];
                assert(self.spec_blocks()[j] == out@[k]);
            }
            assert forall|j: int| 0 <= j < self.spec_blocks().len() implies out@.contains(#[trigger] self.spec_blocks()[j]) by {
                assert(self.spec_blocks()[j] == self.blocks@[j]);
                let k = choose|k: int| 0 <= k < out@.len() && out@[k] == self.blocks@[j];
                assert(out@[k] == self.spec_blocks()[j]);
            }
        }
        out
    }

    /// The positions, in log order, of the rows of `table` that a query at
    /// `head` sees.
    pub fn visible_rows(&self, table: RecordTable, head: i64) -> (r: Vec<usize>)
        ensures
            forall|k: int|
                0 <= k < r@.len() ==> (#[trigger] r@[k]) < self.spec_records().len() && visible_at(
                    self.spec_records()[r@[k] as int],
                    head,
                ) && self.spec_records()[r@[k] as int].spec_table() == table,
            forall|j: int|
                0 <= j < self.spec_records().len() && visible_at(#[trigger] self.spec_records()[j], head)
                    && self.spec_records()[j].spec_table() == table ==> r@.contains(j as usize),
            forall|a: int, b: int| 0 <= a < b < r@.len() ==> r@[a] < r@[b],
    {
        let mut out: Vec<usize> = Vec::new();
        let mut j: usize = 0;
        while j < self.records.len()
            invariant
                j <= self.records@.len(),
                forall|k: int|
                    0 <= k < out@.len() ==> (#[trigger] out@[k]) < j && visible_at(
                        self.records@[out@[k] as int],
                        head,
                    ) && self.records@[out@[k] as int].spec_table() == table,
                forall|x: int|
                    0 <= x < j && visible_at(#[trigger] self.records@[x], head)
                        && self.records@[x].spec_table() == table ==> out@.contains(x as usize),
                forall|a: int, b: int| 0 <= a < b < out@.len() ==> out@[a] < out@[b],
            decreases self.records@.len() - j,
        {
            let r = &self.records[j];
            if r.start_block_num() <= head && head < r.end_block_num() && r.table() == table {
                let ghost before = out@;
                out.push(j);
                proof {
                    assert forall|x: int|
                        0 <= x < j + 1 && visible_at(#[trigger] self.records@[x], head)
                            && self.records@[x].spec_table() == table implies out@.contains(x as usize) by {
                        if x < j {
                            let w = choose|w: int| 0 <= w < before.len() && before[w] == x as usize;
                            assert(out@[w] == x as usize);
                        } else {
                            assert(out@[before.len() as int] == x as usize);
                        }
                    }
                }
            } else {
                proof {
                    assert forall|x: int|
                        0 <= x < j + 1 && visible_at(#[trigger] self.records@[x], head)
                            && self.records@[x].spec_table() == table implies out@.contains(x as usize) by {
                        if x == j {
                            assert(self.records@[x] == *r);
                        }
                    }
                }
            }
            j += 1;
        }
        out
    }

    /// The row at position `i` of the record log.
    pub fn record(&self, i: usize) -> (r: &ChainRecord)
        requires
            i < self.spec_records().len(),
        ensures
            *r == self.spec_records()[i as int],
    {
        &self.records[i]
    }

    /// The number of rows in the record log, closed ones included.
    pub fn record_count(&self) -> (r: usize)
        ensures
            r == self.spec_records().len(),
    {
        self.records.len()
    }

    /// The number of applied blocks.
    pub fn block_count(&self) -> (r: usize)
        ensures
            r == self.spec_blocks().len(),
    {
        self.blocks.len()
    }

    /// The id of the applied block at height `n`, if there is one.
    pub fn block_id_at(&self, n: i64) -> (r: Option<String>)
        requires
            self.wf(),
        ensures
            match r {
                Some(id) => exists|i: int|
                    0 <= i < self.spec_blocks().len() && (#[trigger] self.spec_blocks()[i]).block_num == n
                        && self.spec_blocks()[i].block_id@ == id@,
                None => !has_block(self.spec_blocks(), n),
            },
    {
        match self.find_block(n) {
            Some(i) => Some(self.blocks[i].block_id.clone()),
            None => None,
        }
    }
}

/// Delivering a block again, with the same height and id, after it was
/// applied changes nothing.
pub proof fn lemma_replay_is_noop(
    blocks: Seq<Block>,
    records: Seq<ChainRecord>,
    block: Block,
    steps: Seq<Step>,
    replayed_steps: Seq<Step>,
)
    ensures
        ({
            let (b1, r1) = index_block(blocks, records, block, steps);
            index_block(b1, r1, block, replayed_steps) == (b1, r1)
        }),
{
    let (b1, r1) = index_block(blocks, records, block, steps);
    if !is_duplicate(blocks, block) {
        assert(b1.last() == block);
        assert(b1[b1.len() - 1] == block);
    }
    assert(is_duplicate(b1, block));
}

/// Delivering a block at the height of an applied block with another id
/// leaves the record log that indexing only the blocks below that height,
/// then the new block, would have built.
pub proof fn lemma_fork_matches_prefix(
    history: Seq<(i64, Seq<Step>)>,
    blocks: Seq<Block>,
    block: Block,
    steps: Seq<Step>,
)
    requires
        increasing(history),
        forall|i: int| 0 <= i < history.len() ==> (#[trigger] history[i]).0 < MAX_BLOCK_NUM,
        has_block(blocks, block.block_num),
        !is_duplicate(blocks, block),
    ensures
        index_block(blocks, index_history(history), block, steps).1 == index_history(
            history_below(history, block.block_num).push((block.block_num, steps)),
        ),
        index_block(blocks, index_history(history), block, steps).0 == blocks_below(
            blocks,
            block.block_num,
        ).push(block),
{
    let n = block.block_num;
    lemma_rewind_is_prefix(history, n);
    let h = history_below(history, n).push((n, steps));
    assert(h.drop_last() =~= history_below(history, n));
}

} // verus!
