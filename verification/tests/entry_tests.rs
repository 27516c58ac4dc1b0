use wallet_lib::entry::{Entry, EntryOptions, EntrySum};
use wallet_lib::node::Node;
use wallet_lib::number::Number;
use wallet_lib::record::{entry_from_record, entry_to_record};

#[test]
fn test_entry_calc_revenue() {
    let mut entry = Entry::new();

    entry.set_revenue(100);
    assert_eq!(entry.balance().unwrap(), 100);

    entry.set_revenue(-200);
    assert_eq!(entry.balance().unwrap(), 200);
}

#[test]
fn test_entry_calc_expense() {
    let mut entry = Entry::new();

    entry.set_expense(100);
    assert_eq!(entry.balance().unwrap(), -100);

    entry.set_expense(-200);
    assert_eq!(entry.balance().unwrap(), -200);
}

#[test]
fn test_entry_calc_balance() {
    let mut entry = Entry::new();

    entry.set_revenue(100);
    entry.set_expense(100);
    assert_eq!(entry.balance().unwrap(), 0);

    entry.set_revenue(100);
    entry.set_expense(2000);
    assert_eq!(entry.balance().unwrap(), -1900);

    entry.set_revenue(1000);
    entry.set_expense(100);
    assert_eq!(entry.balance().unwrap(), 900);
}

#[test]
fn test_entry_from_string1() {
    Entry::from_line("Hello World/2001-02-03/30/20").unwrap();
}

#[test]
fn test_entry_from_string2() {
    let e1 = Entry::from_line("Hello World/2001-02-03/30/20").unwrap();

    assert_eq!("Hello World", e1.title());

    let d1 = e1.date();
    assert_eq!(2001, d1.year());

    assert!(e1.has_revenue());
    assert!(e1.has_expense());
    assert_eq!(3000, e1.revenue().unwrap());
    assert_eq!(-2000, e1.expense().unwrap());
    assert_eq!(1000, e1.balance().unwrap());
}

#[test]
fn test_entry_from_string_bad() {
    assert!(Entry::from_line("no separators here").is_none());
    assert!(Entry::from_line("t/x/1/2").is_none());
    assert!(Entry::from_line("t/2001-01-01/abc/2").is_none());
}

#[test]
fn test_entry_fromyaml1() {
    let y = Node::Dict(Vec::new());
    entry_from_record(&y);
}

#[test]
fn test_entry_fromyaml2() {
    let mut fields: Vec<(String, Node)> = Vec::new();
    fields.push(("id".to_string(), Node::Str("ID".to_string())));
    fields.push(("title".to_string(), Node::Str("Title".to_string())));
    fields.push(("date".to_string(), Node::Str("2019-02-21".to_string())));
    fields.push(("revenue".to_string(), Node::Real("42.2".to_string())));
    fields.push(("expense".to_string(), Node::Real("-42.3".to_string())));
    fields.push(("balance".to_string(), Node::Real("-0.1".to_string())));
    fields.push(("category".to_string(), Node::Str("Category".to_string())));
    fields.push(("comment".to_string(), Node::Str("Comment".to_string())));
    fields.push(("epic".to_string(), Node::Str("Epic".to_string())));

    let y = Node::Dict(fields);
    let entry = entry_from_record(&y);

    assert_eq!("ID", entry.id());
    assert_eq!("Title", entry.title());
    assert_eq!("2019-02-21", entry.date().ymd());
    assert_eq!(4220, entry.revenue().unwrap());
    assert_eq!(-4230, entry.expense().unwrap());
    assert_eq!(-10, entry.balance().unwrap());
    assert_eq!("Category", entry.category());
    assert_eq!("Comment", entry.comment());
    assert_eq!("Epic", entry.epic());
}

#[test]
fn test_entry_record_round_trip() {
    let mut e = Entry::from_line("Lunch/2021-03-04/0/12.5").unwrap();
    e.set_category("food".to_string());
    e.set_comment("canteen".to_string());
    e.set_epic("work".to_string());

    let rec = entry_to_record(&e);
    let back = entry_from_record(&rec);

    assert_eq!(e.id(), back.id());
    assert_eq!(e.title(), back.title());
    assert_eq!(e.date().ymd(), back.date().ymd());
    assert_eq!(e.revenue().unwrap(), back.revenue().unwrap());
    assert_eq!(e.expense().unwrap(), back.expense().unwrap());
    assert_eq!(e.balance().unwrap(), back.balance().unwrap());
    assert_eq!(e.category(), back.category());
    assert_eq!(e.comment(), back.comment());
    assert_eq!(e.epic(), back.epic());
}

#[test]
fn test_entry_record_lenient_gaps() {
    // Missing fields keep their defaults; wrong shapes are passed over.
    let mut fields: Vec<(String, Node)> = Vec::new();
    fields.push(("title".to_string(), Node::Int(7)));
    fields.push(("revenue".to_string(), Node::Str("42.2".to_string())));
    let y = Node::Dict(fields);
    let entry = entry_from_record(&y);
    assert_eq!("", entry.title());
    assert_eq!(0, entry.revenue().unwrap());
    assert_eq!("default", entry.category());
    assert_eq!("default", entry.epic());
    assert_eq!("", entry.date().ymd());
}

#[test]
fn test_entry_from_options() {
    let mut o = EntryOptions::new();
    o.title = Some("Groceries".to_string());
    o.revenue = Some(-500);
    o.expense = Some(300);
    o.category = Some("food".to_string());
    let e = Entry::from_options(o);
    assert_eq!("Groceries", e.title());
    assert_eq!(500, e.revenue().unwrap());
    assert_eq!(-300, e.expense().unwrap());
    assert_eq!(200, e.balance().unwrap());
    assert_eq!("food", e.category());
    assert_eq!("default", e.epic());
    assert_eq!("", e.comment());
}

#[test]
fn test_entry_sum1() {
    let s1 = EntrySum::new();
    assert_eq!(0, s1.n);
}

#[test]
fn test_entry_sum2() {
    let mut s1 = EntrySum::new();
    s1.inc();
    s1.inc();
    s1.inc_revenue(Number::from(123));
    s1.inc_revenue(Number::from(123));
    s1.inc_expense(Number::from(123));
    s1.inc_expense(Number::from(123));
    s1.inc_balance(Number::from(123));
    s1.inc_balance(Number::from(123));

    assert_eq!(2, s1.n);
    assert_eq!(Number::from(246), s1.revenue);
    assert_eq!(Number::from(246), s1.expense);
    assert_eq!(Number::from(246), s1.balance);
}
