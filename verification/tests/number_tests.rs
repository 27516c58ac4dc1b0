use wallet_lib::number::Number;

#[test]
fn test_number_basic1() {
    let n1 = Number::from(123);
    assert_eq!(123, n1.unwrap());
}

#[test]
fn test_number_add_number1() {
    let n1 = Number::from(100);
    let n2 = Number::from(200);
    let n3 = n1.plus(n2);

    assert_eq!(300, n3.unwrap());
}

#[test]
fn test_number_add_number2() {
    let mut n1 = Number::from(100);
    let n2 = Number::from(200);
    n1 = n1.plus(n2);

    assert_eq!(300, n1.unwrap());
}

#[test]
fn test_number_add_number3() {
    let mut n1 = Number::from(300);
    let n2 = Number::from(-200);
    n1 = n1.plus(n2);

    assert_eq!(100, n1.unwrap());
}

#[test]
fn test_number_add_number4() {
    let mut n1 = Number::from(300);
    let n2 = Number::from(-500);
    n1 = n1.plus(n2);

    assert_eq!(-200, n1.unwrap());
}

#[test]
fn test_number_add_float1() {
    let n1 = Number::from(110);
    let n2 = n1.plus(Number::from(2120));

    assert_eq!(2230, n2.unwrap());
}

#[test]
fn test_number_add_float2() {
    let mut n1 = Number::from(110);
    n1 = n1.plus(Number::from(2120));

    assert_eq!(2230, n1.unwrap());
}

#[test]
fn test_number_is_negative() {
    assert!(Number::from(-1).is_negative());
    assert!(!Number::from(0).is_negative());
    assert!(!Number::from(5).is_negative());
}

#[test]
fn test_number_to_text() {
    assert_eq!("0.00", Number::new().to_text());
    assert_eq!("1.23", Number::from(123).to_text());
    assert_eq!("-0.50", Number::from(-50).to_text());
    assert_eq!("1234.56", Number::from(123456).to_text());
    assert_eq!("-1234.06", Number::from(-123406).to_text());
}
