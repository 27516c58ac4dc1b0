use wallet_lib::date::Date;
use wallet_lib::entry::Entry;
use wallet_lib::epic::Epic;
use wallet_lib::store::{EpicsFile, IndexFile, MonthFile};
use wallet_lib::wallet::{
    entry_matches, filter_entries, ledger_add, ledger_add_epic, month_file_name,
    month_glob_fragment, AddResult, AddedResult, FilterOptions, Wallet,
};

#[test]
fn test_addedresult_new() {
    AddedResult::new();
}

#[test]
fn test_addresult1() {
    let r1 = AddResult::ExistsInIndex;
    assert_eq!("No", r1.to_display_string());
}

#[test]
fn test_addresult2() {
    let r1 = AddResult::Added(AddedResult::new());
    assert_eq!("Yes", r1.to_display_string());
}

#[test]
fn test_filteroptions1() {
    FilterOptions::new();
}

#[test]
fn test_wallet_new() {
    let w1 = Wallet::new("wallets/wallet1".to_string());

    assert_eq!("wallets/wallet1", w1.path);
    assert_eq!("wallets/wallet1/data", w1.data_dir);
    assert_eq!("wallets/wallet1/html", w1.html_dir);
    assert_eq!("wallets/wallet1/tmp", w1.tmp_dir);
    assert_eq!("wallets/wallet1/data/index.yml", w1.index_file);
    assert_eq!("wallets/wallet1/data/epics.yml", w1.epics_file);
}

#[test]
fn test_wallet_entry_add() {
    let d1 = Date::from_str("1987-02-21").unwrap();

    let mut e1 = Entry::new();
    e1.set_date(d1);

    let mut index = IndexFile::skeleton();
    let mut epics = EpicsFile::skeleton();
    let mut month = MonthFile::skeleton();
    assert!(match ledger_add(&mut index, &mut epics, &mut month, e1, false) {
        AddResult::Added(res) => {
            assert_eq!("month_1987_02.yml", res.month_file_name);
            true
        },
        _ => false,
    });
}

#[test]
fn test_wallet_epic_add() {
    let mut e1 = Epic::new();
    e1.set_handle("h1".to_string());
    e1.set_title("t1".to_string());
    e1.set_bgcolor("#ff0000".to_string());

    let mut epics = EpicsFile::skeleton();
    assert!(ledger_add_epic(&mut epics, e1));

    let mut e2 = Epic::new();
    e2.set_handle("h1".to_string());
    assert!(!ledger_add_epic(&mut epics, e2));
}

#[test]
fn test_add_twice_refused() {
    // Adding the same id twice without force is refused both times after
    // the first success, and the day bucket gains no duplicate record.
    let e1 = Entry::from_line("Hi/2001-01-01/30/0").unwrap();
    let id = e1.id();
    let e2 = {
        let mut e = Entry::from_line("Hi/2001-01-01/30/0").unwrap();
        e.set_id(id.clone());
        e
    };
    let e3 = {
        let mut e = Entry::from_line("Hi/2001-01-01/30/0").unwrap();
        e.set_id(id.clone());
        e
    };

    let mut index = IndexFile::skeleton();
    let mut epics = EpicsFile::skeleton();
    let mut month = MonthFile::skeleton();

    assert!(matches!(
        ledger_add(&mut index, &mut epics, &mut month, e1, false),
        AddResult::Added(_)
    ));
    assert!(matches!(
        ledger_add(&mut index, &mut epics, &mut month, e2, false),
        AddResult::ExistsInIndex
    ));
    assert!(matches!(
        ledger_add(&mut index, &mut epics, &mut month, e3, false),
        AddResult::ExistsInIndex
    ));
    assert_eq!(1, month.get().len());
}

#[test]
fn test_add_force_appends() {
    let e1 = Entry::from_line("Hi/2001-01-01/30/0").unwrap();
    let id = e1.id();
    let mut e2 = Entry::from_line("Hi/2001-01-01/5/0").unwrap();
    e2.set_id(id);

    let mut index = IndexFile::skeleton();
    let mut epics = EpicsFile::skeleton();
    let mut month = MonthFile::skeleton();

    assert!(matches!(
        ledger_add(&mut index, &mut epics, &mut month, e1, false),
        AddResult::Added(_)
    ));
    assert!(matches!(
        ledger_add(&mut index, &mut epics, &mut month, e2, true),
        AddResult::Added(_)
    ));
    assert_eq!(2, month.get().len());
}

#[test]
fn test_add_registers_unknown_epic() {
    let mut e1 = Entry::from_line("Hi/2001-01-01/30/0").unwrap();
    e1.set_epic("journeys".to_string());

    let mut index = IndexFile::skeleton();
    let mut epics = EpicsFile::skeleton();
    let mut month = MonthFile::skeleton();
    ledger_add(&mut index, &mut epics, &mut month, e1, false);

    assert!(epics.contains(&"journeys".to_string()));
    assert_eq!(1, epics.epics.len());
    assert_eq!("Default", epics.epics[0].title());
}

#[test]
fn test_filter_granularity() {
    // An entry dated 2001-01-01 is matched by filter dates 2001, 2001-01
    // and 2001-01-01, but not by 2001-02 or 2002.
    let e = Entry::from_line("Hi/2001-01-01/30/0").unwrap();

    for (text, expected) in [
        ("2001", true),
        ("2001-01", true),
        ("2001-01-01", true),
        ("2001-02", false),
        ("2002", false),
    ] {
        let mut o = FilterOptions::new();
        o.date = Some(Date::from_str(text).unwrap());
        assert_eq!(expected, entry_matches(&o, &e), "filter date {}", text);
    }
}

#[test]
fn test_filter_date_edge_granularities() {
    let e = Entry::from_line("Hi/2001-01-01/30/0").unwrap();

    // A day-bearing filter date compares resolved values, unset parts
    // defaulting to 1970-01-01 components.
    let mut o = FilterOptions::new();
    o.date = Some(Date::from_str("21.2").unwrap());
    assert!(!entry_matches(&o, &e));
    let e70 = Entry::from_line("Old/02-21/1/0").unwrap();
    assert!(entry_matches(&o, &e70));

    // A present date with no part at all matches nothing.
    let mut o3 = FilterOptions::new();
    o3.date = Some(Date::new());
    assert!(!entry_matches(&o3, &e));
}

#[test]
fn test_filter_toggles_and_tags() {
    let mut e = Entry::from_line("Hi/2001-01-01/30/0").unwrap();
    e.set_category("food".to_string());
    e.set_epic("work".to_string());

    let mut o = FilterOptions::new();
    o.filter_revenue = Some(true);
    assert!(entry_matches(&o, &e));
    o.filter_expense = Some(true);
    assert!(!entry_matches(&o, &e));

    let mut o = FilterOptions::new();
    o.category = Some("food".to_string());
    assert!(entry_matches(&o, &e));
    o.category = Some("rent".to_string());
    assert!(!entry_matches(&o, &e));

    let mut o = FilterOptions::new();
    o.epic = Some("work".to_string());
    assert!(entry_matches(&o, &e));
    o.epic = Some("play".to_string());
    assert!(!entry_matches(&o, &e));
}

#[test]
fn test_filter_entries_applies_predicate() {
    let e1 = Entry::from_line("a/2001-01-01/30/0").unwrap();
    let e2 = Entry::from_line("b/2002-01-01/0/10").unwrap();
    let mut o = FilterOptions::new();
    o.date = Some(Date::from_str("2001").unwrap());
    let r = filter_entries(&o, vec![e1, e2]);
    assert_eq!(1, r.entries.len());
    assert_eq!("a", r.entries[0].title());
    assert_eq!(3000, r.revenue);
    assert_eq!(0, r.expense);
    assert_eq!(3000, r.balance);
}

#[test]
fn test_month_file_name_and_glob() {
    let d = Date::from_str("1987-02-21").unwrap();
    assert_eq!("month_1987_02.yml", month_file_name(&d));

    assert_eq!("1987_02", month_glob_fragment(&Some(d)));
    let y = Date::from_str("1987").unwrap();
    assert_eq!("1987_*", month_glob_fragment(&Some(y)));
    let day_only = Date::from_str("21.2").unwrap();
    assert_eq!("*", month_glob_fragment(&Some(day_only)));
    assert_eq!("*", month_glob_fragment(&None));

    let w = Wallet::new("base".to_string());
    assert_eq!("base/data/month_1987_*.yml", w.month_glob(&Some(y)));
}
