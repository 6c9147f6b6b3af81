use cert_registry::chain::{ChainRecord, RecordTable};
use cert_registry::indexer::{plan_block, ApiError, DataManager, OperationType};
use cert_registry::models::{
    Block, NewAccreditation, NewAddress, NewAgent, NewAuthorization, NewContact, NewOrganization,
    NewStandard, NewStandardVersion, OrganizationTypeEnum, RoleEnum, MAX_BLOCK_NUM,
};

fn s(x: &str) -> String {
    x.to_string()
}

fn block(n: i64, id: &str) -> Block {
    Block { block_num: n, block_id: s(id) }
}

fn agent(pk: &str, name: &str) -> NewAgent {
    NewAgent {
        start_block_num: 0,
        end_block_num: 0,
        public_key: s(pk),
        name: s(name),
        organization_id: None,
        timestamp: 1,
    }
}

fn standard(id: &str, name: &str, versions: &[&str]) -> OperationType {
    let st = NewStandard {
        start_block_num: 0,
        end_block_num: 0,
        standard_id: s(id),
        organization_id: s("sb"),
        name: s(name),
    };
    let vs = versions
        .iter()
        .map(|v| NewStandardVersion {
            start_block_num: 0,
            end_block_num: 0,
            standard_id: s(id),
            version: s(v),
            link: s("l"),
            description: s("d"),
            approval_date: 1,
        })
        .collect();
    OperationType::CreateStandard(vec![(st, vs)])
}

fn interval(r: &ChainRecord) -> (i64, i64) {
    match r {
        ChainRecord::Agent(a) => (a.start_block_num, a.end_block_num),
        ChainRecord::Standard(a) => (a.start_block_num, a.end_block_num),
        ChainRecord::StandardVersion(a) => (a.start_block_num, a.end_block_num),
        ChainRecord::Organization(a) => (a.start_block_num, a.end_block_num),
        ChainRecord::Address(a) => (a.start_block_num, a.end_block_num),
        ChainRecord::Authorization(a) => (a.start_block_num, a.end_block_num),
        ChainRecord::Contact(a) => (a.start_block_num, a.end_block_num),
        ChainRecord::Accreditation(a) => (a.start_block_num, a.end_block_num),
        ChainRecord::Certificate(a) => (a.start_block_num, a.end_block_num),
        ChainRecord::Request(a) => (a.start_block_num, a.end_block_num),
    }
}

fn standard_names(dm: &DataManager, head: i64) -> Vec<String> {
    dm.visible_rows(RecordTable::Standards, head)
        .into_iter()
        .map(|i| match dm.record(i) {
            ChainRecord::Standard(st) => st.name.clone(),
            _ => panic!("wrong table"),
        })
        .collect()
}

fn all_intervals(dm: &DataManager) -> Vec<(i64, i64)> {
    (0..dm.record_count()).map(|i| interval(dm.record(i))).collect()
}

#[test]
fn fork_at_height_fifty() {
    let mut dm = DataManager::new();
    dm.execute_operations_in_block(vec![standard("s1", "first", &["v1"])], block(40, "b40"));
    dm.execute_operations_in_block(vec![OperationType::CreateAgent(vec![agent("a", "A")])], block(50, "b50"));
    dm.execute_operations_in_block(vec![standard("s1", "second", &["v1", "v2"])], block(60, "b60"));
    dm.execute_operations_in_block(vec![OperationType::CreateAgent(vec![agent("b", "B")])], block(100, "b100"));
    assert_eq!(standard_names(&dm, 45), vec![s("first")]);
    assert_eq!(standard_names(&dm, 60), vec![s("second")]);
    assert_eq!(dm.block_count(), 4);

    dm.execute_operations_in_block(vec![OperationType::CreateAgent(vec![agent("c", "C")])], block(50, "x50"));
    // rows written at 50 or later are gone; the standard of block 40 is live again
    for (start, _) in all_intervals(&dm) {
        assert!(start < 50 || start == 50);
    }
    let standards = dm.visible_rows(RecordTable::Standards, 1000);
    assert_eq!(standards.len(), 1);
    assert_eq!(interval(dm.record(standards[0])), (40, MAX_BLOCK_NUM));
    assert_eq!(standard_names(&dm, 1000), vec![s("first")]);
    let agents: Vec<String> = dm
        .visible_rows(RecordTable::Agents, 50)
        .into_iter()
        .map(|i| match dm.record(i) {
            ChainRecord::Agent(a) => a.public_key.clone(),
            _ => panic!("wrong table"),
        })
        .collect();
    assert_eq!(agents, vec![s("c")]);
    assert_eq!(dm.block_count(), 2);
    assert_eq!(dm.block_id_at(50), Some(s("x50")));
    assert_eq!(dm.block_id_at(60), None);
    assert_eq!(dm.block_id_at(100), None);
    assert_eq!(dm.block_id_at(40), Some(s("b40")));
}

#[test]
fn duplicate_block_is_noop() {
    let mut dm = DataManager::new();
    dm.execute_operations_in_block(vec![OperationType::CreateAgent(vec![agent("a", "A")])], block(100, "A"));
    dm.execute_operations_in_block(vec![OperationType::CreateAgent(vec![agent("b", "B")])], block(101, "B"));
    let rows = dm.record_count();
    let before = all_intervals(&dm);
    dm.execute_operations_in_block(vec![OperationType::CreateAgent(vec![agent("b", "B2")])], block(101, "B"));
    assert_eq!(dm.record_count(), rows);
    assert_eq!(all_intervals(&dm), before);
    assert_eq!(dm.block_count(), 2);
    assert_eq!(dm.block_id_at(101), Some(s("B")));
}

#[test]
fn temporal_read_boundaries() {
    let mut dm = DataManager::new();
    dm.execute_operations_in_block(vec![OperationType::CreateAgent(vec![agent("a", "old")])], block(10, "b10"));
    dm.execute_operations_in_block(vec![OperationType::CreateAgent(vec![agent("a", "new")])], block(20, "b20"));
    let name_at = |head: i64| -> Vec<String> {
        dm.visible_rows(RecordTable::Agents, head)
            .into_iter()
            .map(|i| match dm.record(i) {
                ChainRecord::Agent(a) => a.name.clone(),
                _ => panic!("wrong table"),
            })
            .collect()
    };
    assert!(name_at(9).is_empty());
    assert_eq!(name_at(10), vec![s("old")]);
    assert_eq!(name_at(19), vec![s("old")]);
    assert_eq!(name_at(20), vec![s("new")]);
    assert_eq!(all_intervals(&dm), vec![(10, 20), (20, MAX_BLOCK_NUM)]);
}

#[test]
fn organization_children_are_replaced_as_a_set() {
    let org = |name: &str| NewOrganization {
        start_block_num: 0,
        end_block_num: 0,
        organization_id: s("f"),
        name: s(name),
        organization_type: OrganizationTypeEnum::Factory,
    };
    let auth = |pk: &str| NewAuthorization {
        start_block_num: 0,
        end_block_num: 0,
        organization_id: s("f"),
        public_key: s(pk),
        role: RoleEnum::Admin,
    };
    let contact = NewContact {
        start_block_num: 0,
        end_block_num: 0,
        organization_id: s("f"),
        name: s("n"),
        phone_number: s("p"),
        language_code: s("en"),
    };
    let address = NewAddress {
        start_block_num: 0,
        end_block_num: 0,
        organization_id: s("f"),
        street_line_1: s("1 Main"),
        street_line_2: None,
        city: s("c"),
        state_province: None,
        country: s("US"),
        postal_code: None,
    };
    let accreditation = NewAccreditation {
        start_block_num: 0,
        end_block_num: 0,
        organization_id: s("f"),
        standard_id: s("s"),
        standard_version: s("v"),
        accreditor_id: s("sb"),
        valid_from: 1,
        valid_to: 2,
    };
    let mut dm = DataManager::new();
    dm.execute_operations_in_block(
        vec![OperationType::CreateOrganization(vec![(
            org("F"),
            Some(vec![accreditation]),
            Some(address),
            vec![auth("k1"), auth("k2")],
            vec![contact],
        )])],
        block(5, "b5"),
    );
    assert_eq!(dm.visible_rows(RecordTable::Authorizations, 5).len(), 2);
    assert_eq!(dm.visible_rows(RecordTable::Addresses, 5).len(), 1);
    assert_eq!(dm.visible_rows(RecordTable::Contacts, 5).len(), 1);
    // a factory's accreditations are not indexed
    assert_eq!(dm.visible_rows(RecordTable::Accreditations, 5).len(), 0);
    dm.execute_operations_in_block(
        vec![OperationType::CreateOrganization(vec![(org("F2"), None, None, vec![auth("k3")], vec![])])],
        block(6, "b6"),
    );
    assert_eq!(dm.visible_rows(RecordTable::Authorizations, 6).len(), 1);
    assert_eq!(dm.visible_rows(RecordTable::Contacts, 6).len(), 0);
    assert_eq!(dm.visible_rows(RecordTable::Addresses, 6).len(), 0);
    assert_eq!(dm.visible_rows(RecordTable::Authorizations, 5).len(), 2);
    assert_eq!(dm.visible_rows(RecordTable::Organizations, 6).len(), 1);
}

#[test]
fn head_block_defaults_to_highest() {
    let mut dm = DataManager::new();
    assert!(matches!(dm.get_head_block_num(None), Err(ApiError::ServiceUnavailable)));
    assert_eq!(dm.get_head_block_num(Some(3)).unwrap(), 3);
    dm.execute_operations_in_block(vec![], block(7, "b7"));
    dm.execute_operations_in_block(vec![], block(9, "b9"));
    assert_eq!(dm.get_head_block_num(None).unwrap(), 9);
}

#[test]
fn plan_closes_before_inserting() {
    let steps = plan_block(vec![OperationType::CreateAgent(vec![agent("a", "A"), agent("b", "B")]), standard("s", "S", &["v1", "v2"])]);
    assert_eq!(steps.len(), 4 + 5);
}

#[test]
fn known_blocks_highest_first() {
    let mut dm = DataManager::new();
    assert!(dm.fetch_known_blocks().is_empty());
    dm.execute_operations_in_block(vec![], block(3, "c"));
    dm.execute_operations_in_block(vec![], block(1, "a"));
    dm.execute_operations_in_block(vec![], block(7, "g"));
    let known: Vec<(i64, String)> = dm.fetch_known_blocks().into_iter().map(|b| (b.block_num, b.block_id)).collect();
    assert_eq!(known, vec![(7, s("g")), (3, s("c")), (1, s("a"))]);
}
