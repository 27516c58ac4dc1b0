use wallet_lib::entry::Entry;
use wallet_lib::epic::Epic;
use wallet_lib::node::Node;
use wallet_lib::store::{EpicsFile, IndexFile, MonthFile};

#[test]
fn test_yaml_index() {
    let mut f1 = IndexFile::skeleton();
    f1.add("hi".to_string());

    assert!(f1.contains(&"hi".to_string()));
    assert!(!f1.contains(&"ho".to_string()));

    let w = f1.close();
    let n = w.expect("a dirty index must be written");
    if let Node::Dict(fields) = n {
        assert_eq!(1, fields.len());
        assert_eq!("index", fields[0].0);
        if let Node::Arr(items) = &fields[0].1 {
            assert_eq!(1, items.len());
            assert!(matches!(&items[0], Node::Str(s) if s == "hi"));
        } else {
            panic!("index must hold a list");
        }
    } else {
        panic!("an index document is a map");
    }
    // Closed and unchanged: nothing to write.
    assert!(f1.close().is_none());
}

#[test]
fn test_yaml_epics() {
    let mut e1 = Epic::new();
    e1.set_handle("h1".to_string());

    let mut f1 = EpicsFile::skeleton();
    f1.add(e1);

    assert!(f1.contains(&"h1".to_string()));
    assert!(!f1.contains(&"h2".to_string()));

    let n = f1.close().expect("a dirty epics file must be written");
    if let Node::Dict(fields) = n {
        assert_eq!("epics", fields[0].0);
        if let Node::Arr(items) = &fields[0].1 {
            assert_eq!(1, items.len());
        } else {
            panic!("epics must hold a list");
        }
    } else {
        panic!("an epics document is a map");
    }
}

#[test]
fn test_yaml_month() {
    let d1 = wallet_lib::date::Date::from_str("1987-02-21").unwrap();
    let mut e1 = Entry::new();
    e1.set_date(d1);
    e1.set_revenue(12345);
    e1.set_expense(45678);

    let mut f1 = MonthFile::skeleton();
    f1.add(e1);

    let n = f1.close().expect("a dirty month file must be written");
    if let Node::Dict(fields) = n {
        assert_eq!(2, fields.len());
        assert_eq!("meta", fields[0].0);
        assert_eq!("days", fields[1].0);
        if let Node::Dict(days) = &fields[1].1 {
            assert_eq!(1, days.len());
            assert_eq!("1987-02-21", days[0].0);
            if let Node::Arr(records) = &days[0].1 {
                assert_eq!(1, records.len());
            } else {
                panic!("a day bucket is a list");
            }
        } else {
            panic!("days is a map");
        }
    } else {
        panic!("a month document is a map");
    }
}

#[test]
fn test_month_same_day_appends() {
    let mut f1 = MonthFile::skeleton();
    let e1 = Entry::from_line("a/2001-01-01/1/0").unwrap();
    let e2 = Entry::from_line("b/2001-01-01/2/0").unwrap();
    let e3 = Entry::from_line("c/2001-01-02/3/0").unwrap();
    f1.add(e1);
    f1.add(e2);
    f1.add(e3);

    let all = f1.get();
    assert_eq!(3, all.len());
    assert_eq!("a", all[0].title());
    assert_eq!("b", all[1].title());
    assert_eq!("c", all[2].title());
}

#[test]
fn test_month_version_bump_on_close() {
    let mut f1 = MonthFile::skeleton();
    f1.version = 1;
    let e1 = Entry::from_line("a/2001-01-01/1/0").unwrap();
    f1.add(e1);
    f1.close();
    assert_eq!(3, f1.version);
}

#[test]
fn test_month_round_trip() {
    let mut f1 = MonthFile::skeleton();
    let e1 = Entry::from_line("a/2001-01-01/30/0").unwrap();
    let e2 = Entry::from_line("b/2001-01-02/0/10.5").unwrap();
    f1.add(e1);
    f1.add(e2);
    let n = f1.close().unwrap();

    let f2 = MonthFile::from_node(&n);
    assert_eq!(3, f2.version);
    let all = f2.get();
    assert_eq!(2, all.len());
    assert_eq!("a", all[0].title());
    assert_eq!(3000, all[0].revenue().unwrap());
    assert_eq!("b", all[1].title());
    assert_eq!(-1050, all[1].expense().unwrap());
}

#[test]
fn test_index_round_trip() {
    let mut f1 = IndexFile::skeleton();
    f1.add("one".to_string());
    f1.add("two".to_string());
    let n = f1.close().unwrap();

    let f2 = IndexFile::from_node(&n);
    assert!(f2.contains(&"one".to_string()));
    assert!(f2.contains(&"two".to_string()));
    assert!(!f2.contains(&"three".to_string()));
    let mut f3 = f2;
    assert!(f3.close().is_none());
}

#[test]
fn test_epics_round_trip() {
    let mut f1 = EpicsFile::skeleton();
    let mut e1 = Epic::new();
    e1.set_handle("work".to_string());
    e1.set_title("Work".to_string());
    e1.set_bgcolor("#00ff00".to_string());
    f1.add(e1);
    let n = f1.close().unwrap();

    let f2 = EpicsFile::from_node(&n);
    assert!(f2.contains(&"work".to_string()));
    assert_eq!(1, f2.epics.len());
    assert_eq!("Work", f2.epics[0].title());
    assert_eq!("#00ff00", f2.epics[0].bgcolor());
}
