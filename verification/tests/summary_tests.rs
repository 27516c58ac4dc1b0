use wallet_lib::entry::Entry;
use wallet_lib::summary::FilterResult;
use wallet_lib::wallet::{filter_entries, FilterOptions};

fn scenario() -> Vec<Entry> {
    vec![
        Entry::from_line("Hi/2001-01-01/30/0").unwrap(),
        Entry::from_line("Hi/2001-01-02/0/10").unwrap(),
        Entry::from_line("Hi/2001-01-03/0/10").unwrap(),
        Entry::from_line("Hi/2001-02-01/0/10").unwrap(),
        Entry::from_line("Hi/2002-01-01/0/10").unwrap(),
    ]
}

#[test]
fn test_filterresult1() {
    FilterResult::new();
}

#[test]
fn test_filterresult2() {
    let mut r1 = FilterResult::new();
    for e in scenario() {
        r1.add(e);
    }

    assert_eq!(3000, r1.revenue);
    assert_eq!(-4000, r1.expense);
    assert_eq!(-1000, r1.balance);
}

#[test]
fn test_end_to_end_scenario() {
    // Five entries, no filter constraints: global revenue 30, expense -40,
    // balance -10; year 2001 holds two months (01 with three entries, 02
    // with one), year 2002 one month.
    let r = filter_entries(&FilterOptions::new(), scenario());

    assert_eq!(3000, r.revenue);
    assert_eq!(-4000, r.expense);
    assert_eq!(-1000, r.balance);
    assert_eq!(5, r.entries.len());

    assert_eq!(2, r.years.len());
    let y2001 = r.years.iter().find(|p| p.0 == 2001).unwrap();
    assert_eq!(2, y2001.1.months.len());
    let m01 = y2001.1.months.iter().find(|p| p.0 == 1).unwrap();
    assert_eq!(3, m01.1.entries.len());
    let m02 = y2001.1.months.iter().find(|p| p.0 == 2).unwrap();
    assert_eq!(1, m02.1.entries.len());
    let y2002 = r.years.iter().find(|p| p.0 == 2002).unwrap();
    assert_eq!(1, y2002.1.months.len());
}

#[test]
fn test_aggregation_sum_invariant() {
    // At every level the balances add up: days to their month, months to
    // their year, years to the whole result; likewise revenue and expense.
    let r = filter_entries(&FilterOptions::new(), scenario());

    let mut year_balance: i128 = 0;
    let mut year_revenue: i128 = 0;
    let mut year_expense: i128 = 0;
    for (_, y) in &r.years {
        year_balance += y.balance;
        year_revenue += y.revenue;
        year_expense += y.expense;

        let mut month_balance: i128 = 0;
        for (_, m) in &y.months {
            month_balance += m.balance;

            let mut day_balance: i128 = 0;
            for (_, d) in &m.days {
                day_balance += d.balance;
            }
            assert_eq!(day_balance, m.balance);
        }
        assert_eq!(month_balance, y.balance);
    }
    assert_eq!(year_balance, r.balance);
    assert_eq!(year_revenue, r.revenue);
    assert_eq!(year_expense, r.expense);
}

#[test]
fn test_percent_closure() {
    // Two categories with volumes 30 and 10: shares of 7500 and 2500
    // hundredths of a percent, closing to exactly 100 percent.
    let mut e1 = Entry::from_line("a/2001-01-01/30/0").unwrap();
    e1.set_category("one".to_string());
    let mut e2 = Entry::from_line("b/2001-01-02/0/10").unwrap();
    e2.set_category("two".to_string());

    let r = filter_entries(&FilterOptions::new(), vec![e1, e2]);
    assert_eq!(2, r.categories.len());
    let c1 = r.categories.iter().find(|p| p.0 == "one").unwrap();
    let c2 = r.categories.iter().find(|p| p.0 == "two").unwrap();
    assert_eq!(7500, c1.1.balance_percent);
    assert_eq!(2500, c2.1.balance_percent);

    // Rounding down may lose at most one hundredth of a percent per
    // category beyond the first.
    let mut e3 = Entry::from_line("c/2001-01-03/1/0").unwrap();
    e3.set_category("one".to_string());
    let mut e4 = Entry::from_line("d/2001-01-04/1/0").unwrap();
    e4.set_category("two".to_string());
    let mut e5 = Entry::from_line("e/2001-01-05/1/0").unwrap();
    e5.set_category("three".to_string());
    let r = filter_entries(&FilterOptions::new(), vec![e3, e4, e5]);
    let total: u64 = r.categories.iter().map(|p| p.1.balance_percent).sum();
    assert!(total <= 10000);
    assert!(total >= 10000 - 2);
}

#[test]
fn test_percent_zero_volume() {
    // With no volume at all there is no share to compute.
    let e1 = Entry::from_line("a/2001-01-01/0/0").unwrap();
    let r = filter_entries(&FilterOptions::new(), vec![e1]);
    assert_eq!(1, r.categories.len());
    assert_eq!(0, r.categories[0].1.balance_percent);
}

#[test]
fn test_category_and_epic_rollups() {
    let mut e1 = Entry::from_line("a/2001-01-01/30/0").unwrap();
    e1.set_category("food".to_string());
    e1.set_epic("work".to_string());
    let mut e2 = Entry::from_line("b/2001-01-02/0/10").unwrap();
    e2.set_category("food".to_string());

    let r = filter_entries(&FilterOptions::new(), vec![e1, e2]);
    assert_eq!(1, r.categories.len());
    assert_eq!("food", r.categories[0].0);
    assert_eq!("food", r.categories[0].1.name);
    assert_eq!(3000, r.categories[0].1.revenue);
    assert_eq!(-1000, r.categories[0].1.expense);
    assert_eq!(2000, r.categories[0].1.balance);

    assert_eq!(2, r.epics.len());
    let work = r.epics.iter().find(|p| p.0 == "work").unwrap();
    assert_eq!(3000, work.1.balance);
    let dflt = r.epics.iter().find(|p| p.0 == "default").unwrap();
    assert_eq!(-1000, dflt.1.balance);
}

#[test]
fn test_balance_invariant_under_setters() {
    // After any sequence of setter calls the balance is the absolute
    // revenue less the absolute expense most recently supplied.
    let mut e = Entry::new();
    let pairs: [(i64, i64); 4] = [(100, 50), (-20, 30), (0, -700), (12345, 12345)];
    for (r, x) in pairs {
        e.set_revenue(r);
        assert_eq!(e.balance().unwrap(), r.abs() + e.expense().unwrap());
        e.set_expense(x);
        assert_eq!(e.balance().unwrap(), r.abs() - x.abs());
    }
}
