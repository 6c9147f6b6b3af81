//! The versioned rows of every table as one log of chain records, and what
//! applying a block, and rewinding a fork, does to that log.
use vstd::prelude::*;
use crate::models::{
    Block, NewAccreditation, NewAddress, NewAgent, NewAuthorization, NewCertificate, NewContact,
    NewOrganization, NewRequest, NewStandard, NewStandardVersion, MAX_BLOCK_NUM,
};

verus! {

/// The versioned tables of the read model.
#[derive(Clone, Copy, Debug, PartialEq, Eq, Structural)]
pub enum RecordTable {
    Agents,
    Organizations,
    Addresses,
    Authorizations,
    Contacts,
    Accreditations,
    Certificates,
    Requests,
    Standards,
    StandardVersions,
}

/// A versioned row of one of the tables.
#[derive(Debug)]
pub enum ChainRecord {
    Agent(NewAgent),
    Organization(NewOrganization),
    Address(NewAddress),
    Authorization(NewAuthorization),
    Contact(NewContact),
    Accreditation(NewAccreditation),
    Certificate(NewCertificate),
    Request(NewRequest),
    Standard(NewStandard),
    StandardVersion(NewStandardVersion),
}

impl ChainRecord {
    pub open spec fn spec_start(&self) -> i64 {
        match self {
            ChainRecord::Agent(r) => r.start_block_num,
            ChainRecord::Organization(r) => r.start_block_num,
            ChainRecord::Address(r) => r.start_block_num,
            ChainRecord::Authorization(r) => r.start_block_num,
            ChainRecord::Contact(r) => r.start_block_num,
            ChainRecord::Accreditation(r) => r.start_block_num,
            ChainRecord::Certificate(r) => r.start_block_num,
            ChainRecord::Request(r) => r.start_block_num,
            ChainRecord::Standard(r) => r.start_block_num,
            ChainRecord::StandardVersion(r) => r.start_block_num,
        }
    }

    pub open spec fn spec_end(&self) -> i64 {
        match self {
            ChainRecord::Agent(r) => r.end_block_num,
            ChainRecord::Organization(r) => r.end_block_num,
            ChainRecord::Address(r) => r.end_block_num,
            ChainRecord::Authorization(r) => r.end_block_num,
            ChainRecord::Contact(r) => r.end_block_num,
            ChainRecord::Accreditation(r) => r.end_block_num,
            ChainRecord::Certificate(r) => r.end_block_num,
            ChainRecord::Request(r) => r.end_block_num,
            ChainRecord::Standard(r) => r.end_block_num,
            ChainRecord::StandardVersion(r) => r.end_block_num,
        }
    }

    pub open spec fn spec_table(&self) -> RecordTable {
        match self {
            ChainRecord::Agent(r) => RecordTable::Agents,
            ChainRecord::Organization(r) => RecordTable::Organizations,
            ChainRecord::Address(r) => RecordTable::Addresses,
            ChainRecord::Authorization(r) => RecordTable::Authorizations,
            ChainRecord::Contact(r) => RecordTable::Contacts,
            ChainRecord::Accreditation(r) => RecordTable::Accreditations,
            ChainRecord::Certificate(r) => RecordTable::Certificates,
            ChainRecord::Request(r) => RecordTable::Requests,
            ChainRecord::Standard(r) => RecordTable::Standards,
            ChainRecord::StandardVersion(r) => RecordTable::StandardVersions,
        }
    }

    /// The key by which a new row closes the rows it replaces: the record's
    /// own id, or its parent's id for the children of an organization or a
    /// standard.
    pub open spec fn spec_key(&self) -> Seq<char> {
        match self {
            ChainRecord::Agent(r) => r.public_key@,
            ChainRecord::Organization(r) => r.organization_id@,
            ChainRecord::Address(r) => r.organization_id@,
            ChainRecord::Authorization(r) => r.organization_id@,
            ChainRecord::Contact(r) => r.organization_id@,
            ChainRecord::Accreditation(r) => r.organization_id@,
            ChainRecord::Certificate(r) => r.certificate_id@,
            ChainRecord::Request(r) => r.request_id@,
            ChainRecord::Standard(r) => r.standard_id@,
            ChainRecord::StandardVersion(r) => r.standard_id@,
        }
    }

    /// The row with the interval `[start, end)`.
    pub open spec fn with_interval(self, start: i64, end: i64) -> ChainRecord {
        match self {
            ChainRecord::Agent(r) => ChainRecord::Agent(NewAgent { start_block_num: start, end_block_num: end, ..r }),
            ChainRecord::Organization(r) => ChainRecord::Organization(NewOrganization { start_block_num: start, end_block_num: end, ..r }),
            ChainRecord::Address(r) => ChainRecord::Address(NewAddress { start_block_num: start, end_block_num: end, ..r }),
            ChainRecord::Authorization(r) => ChainRecord::Authorization(NewAuthorization { start_block_num: start, end_block_num: end, ..r }),
            ChainRecord::Contact(r) => ChainRecord::Contact(NewContact { start_block_num: start, end_block_num: end, ..r }),
            ChainRecord::Accreditation(r) => ChainRecord::Accreditation(NewAccreditation { start_block_num: start, end_block_num: end, ..r }),
            ChainRecord::Certificate(r) => ChainRecord::Certificate(NewCertificate { start_block_num: start, end_block_num: end, ..r }),
            ChainRecord::Request(r) => ChainRecord::Request(NewRequest { start_block_num: start, end_block_num: end, ..r }),
            ChainRecord::Standard(r) => ChainRecord::Standard(NewStandard { start_block_num: start, end_block_num: end, ..r }),
            ChainRecord::StandardVersion(r) => ChainRecord::StandardVersion(NewStandardVersion { start_block_num: start, end_block_num: end, ..r }),
        }
    }

    pub open spec fn with_end(self, end: i64) -> ChainRecord {
        self.with_interval(self.spec_start(), end)
    }

    pub fn start_block_num(&self) -> (r: i64)
        ensures
            r == self.spec_start(),
    {
        match self {
            ChainRecord::Agent(r) => r.start_block_num,
            ChainRecord::Organization(r) => r.start_block_num,
            ChainRecord::Address(r) => r.start_block_num,
            ChainRecord::Authorization(r) => r.start_block_num,
            ChainRecord::Contact(r) => r.start_block_num,
            ChainRecord::Accreditation(r) => r.start_block_num,
            ChainRecord::Certificate(r) => r.start_block_num,
            ChainRecord::Request(r) => r.start_block_num,
            ChainRecord::Standard(r) => r.start_block_num,
            ChainRecord::StandardVersion(r) => r.start_block_num,
        }
    }

    pub fn end_block_num(&self) -> (r: i64)
        ensures
            r == self.spec_end(),
    {
        match self {
            ChainRecord::Agent(r) => r.end_block_num,
            ChainRecord::Organization(r) => r.end_block_num,
            ChainRecord::Address(r) => r.end_block_num,
            ChainRecord::Authorization(r) => r.end_block_num,
            ChainRecord::Contact(r) => r.end_block_num,
            ChainRecord::Accreditation(r) => r.end_block_num,
            ChainRecord::Certificate(r) => r.end_block_num,
            ChainRecord::Request(r) => r.end_block_num,
            ChainRecord::Standard(r) => r.end_block_num,
            ChainRecord::StandardVersion(r) => r.end_block_num,
        }
    }

    pub fn table(&self) -> (r: RecordTable)
        ensures
            r == self.spec_table(),
    {
        match self {
            ChainRecord::Agent(r) => RecordTable::Agents,
            ChainRecord::Organization(r) => RecordTable::Organizations,
            ChainRecord::Address(r) => RecordTable::Addresses,
            ChainRecord::Authorization(r) => RecordTable::Authorizations,
            ChainRecord::Contact(r) => RecordTable::Contacts,
            ChainRecord::Accreditation(r) => RecordTable::Accreditations,
            ChainRecord::Certificate(r) => RecordTable::Certificates,
            ChainRecord::Request(r) => RecordTable::Requests,
            ChainRecord::Standard(r) => RecordTable::Standards,
            ChainRecord::StandardVersion(r) => RecordTable::StandardVersions,
        }
    }

    pub fn key(&self) -> (r: &String)
        ensures
            r@ == self.spec_key(),
    {
        match self {
            ChainRecord::Agent(r) => &r.public_key,
            ChainRecord::Organization(r) => &r.organization_id,
            ChainRecord::Address(r) => &r.organization_id,
            ChainRecord::Authorization(r) => &r.organization_id,
            ChainRecord::Contact(r) => &r.organization_id,
            ChainRecord::Accreditation(r) => &r.organization_id,
            ChainRecord::Certificate(r) => &r.certificate_id,
            ChainRecord::Request(r) => &r.request_id,
            ChainRecord::Standard(r) => &r.standard_id,
            ChainRecord::StandardVersion(r) => &r.standard_id,
        }
    }

    pub fn set_interval(&mut self, start: i64, end: i64)
        ensures
            *final(self) == old(self).with_interval(start, end),
    {
        match self {
            ChainRecord::Agent(r) => {
                r.start_block_num = start;
                r.end_block_num = end;
            },
            ChainRecord::Organization(r) => {
                r.start_block_num = start;
                r.end_block_num = end;
            },
            ChainRecord::Address(r) => {
                r.start_block_num = start;
                r.end_block_num = end;
            },
            ChainRecord::Authorization(r) => {
                r.start_block_num = start;
                r.end_block_num = end;
            },
            ChainRecord::Contact(r) => {
                r.start_block_num = start;
                r.end_block_num = end;
            },
            ChainRecord::Accreditation(r) => {
                r.start_block_num = start;
                r.end_block_num = end;
            },
            ChainRecord::Certificate(r) => {
                r.start_block_num = start;
                r.end_block_num = end;
            },
            ChainRecord::Request(r) => {
                r.start_block_num = start;
                r.end_block_num = end;
            },
            ChainRecord::Standard(r) => {
                r.start_block_num = start;
                r.end_block_num = end;
            },
            ChainRecord::StandardVersion(r) => {
                r.start_block_num = start;
                r.end_block_num = end;
            },
        }
    }
}

/// One primitive change to the record log.
#[derive(Debug)]
pub enum Step {
    /// Close the live rows of a table that have a key.
    Close(RecordTable, String),
    /// Add a row, live from the current block on.
    Insert(ChainRecord),
}

/// The row is currently live.
pub open spec fn is_live(r: ChainRecord) -> bool {
    r.spec_end() == MAX_BLOCK_NUM
}

/// The row is visible to a query at `head`.
pub open spec fn visible_at(r: ChainRecord, head: i64) -> bool {
    r.spec_start() <= head < r.spec_end()
}

/// The rows that a query at `head` sees.
pub open spec fn rows_at(rows: Seq<ChainRecord>, head: i64) -> Seq<ChainRecord> {
    rows.filter(|r: ChainRecord| visible_at(r, head))
}

/// The row after a close of `table`/`key` at block `n`.
pub open spec fn closed_row(r: ChainRecord, table: RecordTable, key: Seq<char>, n: i64) -> ChainRecord {
    if is_live(r) && r.spec_table() == table && r.spec_key() == key {
        r.with_end(n)
    } else {
        r
    }
}

pub open spec fn close_live(rows: Seq<ChainRecord>, table: RecordTable, key: Seq<char>, n: i64) -> Seq<ChainRecord> {
    rows.map_values(|r: ChainRecord| closed_row(r, table, key, n))
}

/// One step at block `n`.
pub open spec fn apply_step(rows: Seq<ChainRecord>, step: Step, n: i64) -> Seq<ChainRecord> {
    match step {
        Step::Close(t, k) => close_live(rows, t, k@, n),
        Step::Insert(r) => rows.push(r.with_interval(n, MAX_BLOCK_NUM)),
    }
}

/// The steps of a block, in order, at block `n`.
pub open spec fn apply_steps(rows: Seq<ChainRecord>, steps: Seq<Step>, n: i64) -> Seq<ChainRecord>
    decreases steps.len(),
{
    if steps.len() == 0 {
        rows
    } else {
        apply_step(apply_steps(rows, steps.drop_last(), n), steps.last(), n)
    }
}

/// The row as a rewind to height `n` leaves it.
pub open spec fn reopened_row(r: ChainRecord, n: i64) -> ChainRecord {
    if r.spec_end() >= n {
        r.with_end(MAX_BLOCK_NUM)
    } else {
        r
    }
}

/// The log with every row that height `n` or later wrote removed, and every
/// row that height `n` or later closed live again.
pub open spec fn rewind(rows: Seq<ChainRecord>, n: i64) -> Seq<ChainRecord>
    decreases rows.len(),
{
    if rows.len() == 0 {
        rows
    } else {
        let rest = rewind(rows.drop_last(), n);
        if rows.last().spec_start() < n {
            rest.push(reopened_row(rows.last(), n))
        } else {
            rest
        }
    }
}

/// The blocks below height `n`.
pub open spec fn blocks_below(blocks: Seq<Block>, n: i64) -> Seq<Block> {
    blocks.filter(|b: Block| b.block_num < n)
}

/// Every row starts at or before `m`, and ends at or before `m` or is live.
pub open spec fn bounded_by(rows: Seq<ChainRecord>, m: int) -> bool {
    forall|i: int|
        0 <= i < rows.len() ==> (#[trigger] rows[i]).spec_start() <= m && (is_live(rows[i])
            || rows[i].spec_end() <= m)
}

/// The record log that indexing the blocks of `history` in order builds from
/// nothing; each block is its height and its steps.
pub open spec fn index_history(history: Seq<(i64, Seq<Step>)>) -> Seq<ChainRecord>
    decreases history.len(),
{
    if history.len() == 0 {
        Seq::empty()
    } else {
        apply_steps(index_history(history.drop_last()), history.last().1, history.last().0)
    }
}

/// The heights of `history` strictly increase.
pub open spec fn increasing(history: Seq<(i64, Seq<Step>)>) -> bool {
    forall|i: int, j: int| 0 <= i < j < history.len() ==> history[i].0 < history[j].0
}

/// The blocks of `history` below height `n`.
pub open spec fn history_below(history: Seq<(i64, Seq<Step>)>, n: i64) -> Seq<(i64, Seq<Step>)> {
    history.filter(|b: (i64, Seq<Step>)| b.0 < n)
}

proof fn lemma_rewind_after_close(rows: Seq<ChainRecord>, table: RecordTable, key: Seq<char>, m: i64, n: i64)
    requires
        n <= m,
    ensures
        rewind(close_live(rows, table, key, m), n) == rewind(rows, n),
    decreases rows.len(),
{
    if rows.len() > 0 {
        let c = close_live(rows, table, key, m);
        assert(c.drop_last() =~= close_live(rows.drop_last(), table, key, m));
        lemma_rewind_after_close(rows.drop_last(), table, key, m, n);
    }
}

proof fn lemma_rewind_after_steps(rows: Seq<ChainRecord>, steps: Seq<Step>, m: i64, n: i64)
    requires
        n <= m,
    ensures
        rewind(apply_steps(rows, steps, m), n) == rewind(rows, n),
    decreases steps.len(),
{
    if steps.len() > 0 {
        let before = apply_steps(rows, steps.drop_last(), m);
        lemma_rewind_after_steps(rows, steps.drop_last(), m, n);
        match steps.last() {
            Step::Close(t, k) => lemma_rewind_after_close(before, t, k@, m, n),
            Step::Insert(r) => {
                assert(before.push(r.with_interval(m, MAX_BLOCK_NUM)).drop_last() =~= before);
            },
        }
    }
}

proof fn lemma_rewind_keeps_older(rows: Seq<ChainRecord>, m: int, n: i64)
    requires
        bounded_by(rows, m),
        m < n,
    ensures
        rewind(rows, n) == rows,
    decreases rows.len(),
{
    if rows.len() > 0 {
        assert(bounded_by(rows.drop_last(), m)) by {
            assert forall|i: int| 0 <= i < rows.drop_last().len() implies (#[trigger] rows.drop_last()[i]).spec_start() <= m && (is_live(rows.drop_last()[i])
                || rows.drop_last()[i].spec_end() <= m) by {
                assert(rows.drop_last()[i] == rows[i]);
            }
        }
        lemma_rewind_keeps_older(rows.drop_last(), m, n);
        assert(rows[rows.len() - 1] == rows.last());
        assert(rows =~= rows.drop_last().push(rows.last()));
    }
}

proof fn lemma_steps_bounded(rows: Seq<ChainRecord>, steps: Seq<Step>, m: i64)
    requires
        bounded_by(rows, m as int),
        m < MAX_BLOCK_NUM,
    ensures
        bounded_by(apply_steps(rows, steps, m), m as int),
    decreases steps.len(),
{
    if steps.len() > 0 {
        lemma_steps_bounded(rows, steps.drop_last(), m);
        let before = apply_steps(rows, steps.drop_last(), m);
        let after = apply_steps(rows, steps, m);
        match steps.last() {
            Step::Close(t, k) => {
                assert forall|i: int| 0 <= i < after.len() implies (#[trigger] after[i]).spec_start() <= m && (is_live(after[i])
                    || after[i].spec_end() <= m) by {
                    assert(after[i] == closed_row(before[i], t, k@, m));
                }
            },
            Step::Insert(r) => {
                assert forall|i: int| 0 <= i < after.len() implies (#[trigger] after[i]).spec_start() <= m && (is_live(after[i])
                    || after[i].spec_end() <= m) by {
                    if i < before.len() {
                        assert(after[i] == before[i]);
                    }
                }
            },
        }
    }
}

proof fn lemma_history_bounded(history: Seq<(i64, Seq<Step>)>)
    requires
        history.len() > 0,
        increasing(history),
        history.last().0 < MAX_BLOCK_NUM,
    ensures
        bounded_by(index_history(history), history.last().0 as int),
    decreases history.len(),
{
    let m = history.last().0;
    let h = history.drop_last();
    if h.len() > 0 {
        assert(h.last() == history[history.len() - 2]);
        assert(history.last() == history[history.len() - 1]);
        assert(increasing(h)) by {
            assert forall|i: int, j: int| 0 <= i < j < h.len() implies h[i].0 < h[j].0 by {
                assert(h[i] == history[i] && h[j] == history[j]);
            }
        }
        lemma_history_bounded(h);
        let rows = index_history(h);
        assert forall|i: int| 0 <= i < rows.len() implies (#[trigger] rows[i]).spec_start() <= m && (is_live(rows[i])
            || rows[i].spec_end() <= m) by {
        }
        lemma_steps_bounded(rows, history.last().1, m);
    } else {
        assert(index_history(h) == Seq::<ChainRecord>::empty());
        lemma_steps_bounded(Seq::empty(), history.last().1, m);
    }
}

proof fn lemma_history_below_all(history: Seq<(i64, Seq<Step>)>, n: i64)
    requires
        forall|i: int| 0 <= i < history.len() ==> (#[trigger] history[i]).0 < n,
    ensures
        history_below(history, n) == history,
    decreases history.len(),
{
    reveal_with_fuel(Seq::filter, 1);
    if history.len() > 0 {
        lemma_history_below_all(history.drop_last(), n);
        assert(history =~= history.drop_last().push(history.last()));
    }
}

/// Rewinding the log of an increasing history to height `n` gives the log
/// of the blocks of that history below `n`.
pub proof fn lemma_rewind_is_prefix(history: Seq<(i64, Seq<Step>)>, n: i64)
    requires
        increasing(history),
        forall|i: int| 0 <= i < history.len() ==> (#[trigger] history[i]).0 < MAX_BLOCK_NUM,
    ensures
        rewind(index_history(history), n) == index_history(history_below(history, n)),
    decreases history.len(),
{
    reveal_with_fuel(Seq::filter, 1);
    if history.len() > 0 {
        let h = history.drop_last();
        let last = history.last();
        assert(last == history[history.len() - 1]);
        if last.0 < n {
            lemma_history_below_all(h, n);
            lemma_history_bounded(history);
            lemma_rewind_keeps_older(index_history(history), last.0 as int, n);
            assert(history_below(history, n) =~= history);
        } else {
            lemma_rewind_is_prefix(h, n);
            lemma_rewind_after_steps(index_history(h), last.1, last.0, n);
            assert(history_below(history, n) == history_below(h, n));
        }
    }
}

/// A row that a block inserts is visible to a query at that block's height.
pub proof fn lemma_inserted_row_visible(rows: Seq<ChainRecord>, x: ChainRecord, n: i64)
    requires
        n < MAX_BLOCK_NUM,
    ensures
        visible_at(apply_step(rows, Step::Insert(x), n).last(), n),
{
}

/// A live row that a block closes is not visible at that block's height,
/// and stays visible at the heights from its start up to that block.
pub proof fn lemma_closed_row_hidden(
    rows: Seq<ChainRecord>,
    table: RecordTable,
    key: String,
    n: i64,
    i: int,
    head: i64,
)
    requires
        0 <= i < rows.len(),
        is_live(rows[i]),
        rows[i].spec_table() == table,
        rows[i].spec_key() == key@,
    ensures
        apply_step(rows, Step::Close(table, key), n)[i].spec_end() == n,
        !visible_at(apply_step(rows, Step::Close(table, key), n)[i], n),
        rows[i].spec_start() <= head < n ==> visible_at(apply_step(rows, Step::Close(table, key), n)[i], head),
{
}

/// No row is visible at its own end height.
pub proof fn lemma_row_hidden_at_end(r: ChainRecord)
    ensures
        !visible_at(r, r.spec_end()),
{
}

/// The rows that no block has closed.
pub open spec fn live_rows(rows: Seq<ChainRecord>) -> Seq<ChainRecord> {
    rows.filter(|r: ChainRecord| is_live(r))
}

/// What a step does to the live rows alone.
pub open spec fn live_step(live: Seq<ChainRecord>, step: Step, n: i64) -> Seq<ChainRecord> {
    match step {
        Step::Close(t, k) => live.filter(|r: ChainRecord| !(r.spec_table() == t && r.spec_key() == k@)),
        Step::Insert(x) => live.push(x.with_interval(n, MAX_BLOCK_NUM)),
    }
}

pub open spec fn live_steps(live: Seq<ChainRecord>, steps: Seq<Step>, n: i64) -> Seq<ChainRecord>
    decreases steps.len(),
{
    if steps.len() == 0 {
        live
    } else {
        live_step(live_steps(live, steps.drop_last(), n), steps.last(), n)
    }
}

proof fn lemma_live_after_close(rows: Seq<ChainRecord>, table: RecordTable, key: String, n: i64)
    requires
        n < MAX_BLOCK_NUM,
    ensures
        live_rows(close_live(rows, table, key@, n)) == live_step(live_rows(rows), Step::Close(table, key), n),
    decreases rows.len(),
{
    reveal_with_fuel(Seq::filter, 1);
    if rows.len() > 0 {
        let c = close_live(rows, table, key@, n);
        assert(c.drop_last() =~= close_live(rows.drop_last(), table, key@, n));
        lemma_live_after_close(rows.drop_last(), table, key, n);
        let p = |r: ChainRecord| !(r.spec_table() == table && r.spec_key() == key@);
        let l = live_rows(rows.drop_last());
        if is_live(rows.last()) {
            assert(live_rows(rows) == l.push(rows.last()));
            assert(l.push(rows.last()).drop_last() =~= l);
        }
    }
}

proof fn lemma_live_after_steps(rows: Seq<ChainRecord>, steps: Seq<Step>, n: i64)
    requires
        n < MAX_BLOCK_NUM,
    ensures
        live_rows(apply_steps(rows, steps, n)) == live_steps(live_rows(rows), steps, n),
    decreases steps.len(),
{
    reveal_with_fuel(Seq::filter, 1);
    if steps.len() > 0 {
        lemma_live_after_steps(rows, steps.drop_last(), n);
        let before = apply_steps(rows, steps.drop_last(), n);
        match steps.last() {
            Step::Close(t, k) => lemma_live_after_close(before, t, k, n),
            Step::Insert(x) => {
                assert(before.push(x.with_interval(n, MAX_BLOCK_NUM)).drop_last() =~= before);
            },
        }
    }
}

/// Every row starts at or before `m`; a closed row ends at or before `m + 1`.
spec fn settled_by(rows: Seq<ChainRecord>, m: int) -> bool {
    forall|i: int|
        0 <= i < rows.len() ==> (#[trigger] rows[i]).spec_start() <= m + 1 && (is_live(rows[i])
            || rows[i].spec_end() <= m + 1)
}

proof fn lemma_visible_is_live(rows: Seq<ChainRecord>, n: i64)
    requires
        settled_by(rows, n - 1),
        n < MAX_BLOCK_NUM,
    ensures
        rows_at(rows, n) == live_rows(rows),
    decreases rows.len(),
{
    reveal_with_fuel(Seq::filter, 1);
    if rows.len() > 0 {
        assert(settled_by(rows.drop_last(), n - 1)) by {
            assert forall|i: int| 0 <= i < rows.drop_last().len() implies (#[trigger] rows.drop_last()[i]).spec_start() <= n && (is_live(rows.drop_last()[i])
                || rows.drop_last()[i].spec_end() <= n) by {
                assert(rows.drop_last()[i] == rows[i]);
            }
        }
        lemma_visible_is_live(rows.drop_last(), n);
        assert(rows[rows.len() - 1] == rows.last());
    }
}

proof fn lemma_steps_settled(rows: Seq<ChainRecord>, steps: Seq<Step>, n: i64)
    requires
        settled_by(rows, n - 1),
        n < MAX_BLOCK_NUM,
    ensures
        settled_by(apply_steps(rows, steps, n), n - 1),
    decreases steps.len(),
{
    if steps.len() > 0 {
        lemma_steps_settled(rows, steps.drop_last(), n);
        let before = apply_steps(rows, steps.drop_last(), n);
        let after = apply_steps(rows, steps, n);
        match steps.last() {
            Step::Close(t, k) => {
                assert forall|i: int| 0 <= i < after.len() implies (#[trigger] after[i]).spec_start() <= n && (is_live(after[i])
                    || after[i].spec_end() <= n) by {
                    assert(after[i] == closed_row(before[i], t, k@, n));
                }
            },
            Step::Insert(r) => {
                assert forall|i: int| 0 <= i < after.len() implies (#[trigger] after[i]).spec_start() <= n && (is_live(after[i])
                    || after[i].spec_end() <= n) by {
                    if i < before.len() {
                        assert(after[i] == before[i]);
                    }
                }
            },
        }
    }
}

/// When every earlier row started below block `n` and every closed row
/// ended below it, the rows that a query at height `n` sees after the block
/// are exactly the live rows before it with the block's steps applied to
/// them alone: a close removes the live rows of its key, an insert adds its
/// row.
pub proof fn lemma_rows_at_block_height(rows: Seq<ChainRecord>, steps: Seq<Step>, n: i64)
    requires
        bounded_by(rows, n - 1),
        n < MAX_BLOCK_NUM,
    ensures
        rows_at(apply_steps(rows, steps, n), n) == live_steps(live_rows(rows), steps, n),
{
    assert(settled_by(rows, n - 1));
    lemma_steps_settled(rows, steps, n);
    lemma_visible_is_live(apply_steps(rows, steps, n), n);
    lemma_live_after_steps(rows, steps, n);
}

/// For blocks applied in order of height, the rows that a query at the
/// height of the last block sees are the live rows before that block with
/// the block's steps applied to them alone.
pub proof fn lemma_live_rows_after_block(history: Seq<(i64, Seq<Step>)>)
    requires
        history.len() > 0,
        increasing(history),
        forall|i: int| 0 <= i < history.len() ==> (#[trigger] history[i]).0 < MAX_BLOCK_NUM,
    ensures
        rows_at(index_history(history), history.last().0) == live_steps(
            live_rows(index_history(history.drop_last())),
            history.last().1,
            history.last().0,
        ),
{
    let h = history.drop_last();
    let n = history.last().0;
    assert(history.last() == history[history.len() - 1]);
    if h.len() > 0 {
        assert(h.last() == history[history.len() - 2]);
        assert(increasing(h)) by {
            assert forall|i: int, j: int| 0 <= i < j < h.len() implies h[i].0 < h[j].0 by {
                assert(h[i] == history[i] && h[j] == history[j]);
            }
        }
        lemma_history_bounded(h);
        let rows = index_history(h);
        assert(bounded_by(rows, n - 1)) by {
            assert forall|i: int| 0 <= i < rows.len() implies (#[trigger] rows[i]).spec_start() <= n - 1 && (is_live(rows[i])
                || rows[i].spec_end() <= n - 1) by {
            }
        }
        lemma_rows_at_block_height(rows, history.last().1, n);
    } else {
        assert(index_history(h) == Seq::<ChainRecord>::empty());
        lemma_rows_at_block_height(Seq::empty(), history.last().1, n);
    }
}

} // verus!
